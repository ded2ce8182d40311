use roto_api::addr::{Addr, AddrParse, Prefix};
use roto_api::csv_input::{delegated_table, riswhois_table, CsvTable};
use roto_api::query::{MatchOptions, MatchType, QueryResult};
use roto_api::store::Store;

fn parse_v4(text: &str) -> Option<u32> {
    let parts: Vec<&str> = text.split('.').collect();
    if parts.len() != 4 {
        return None;
    }
    let mut value: u32 = 0;
    for part in parts {
        if part.is_empty() || part.len() > 3 || !part.bytes().all(|b| b.is_ascii_digit()) {
            return None;
        }
        if part.len() > 1 && part.starts_with('0') {
            return None;
        }
        let octet: u8 = part.parse().ok()?;
        value = (value << 8) | octet as u32;
    }
    Some(value)
}

fn parse_groups(text: &str) -> Option<Vec<u16>> {
    if text.is_empty() {
        return Some(Vec::new());
    }
    let mut groups = Vec::new();
    for group in text.split(':') {
        if group.is_empty() || group.len() > 4 {
            return None;
        }
        groups.push(u16::from_str_radix(group, 16).ok()?);
    }
    Some(groups)
}

fn parse_v6(text: &str) -> Option<u128> {
    let groups = match text.find("::") {
        Some(at) => {
            let head = parse_groups(&text[..at])?;
            let tail = parse_groups(&text[at + 2..])?;
            if head.len() + tail.len() > 7 {
                return None;
            }
            let mut all = head;
            all.resize(8 - tail.len(), 0);
            all.extend(tail);
            all
        }
        None => parse_groups(text)?,
    };
    if groups.len() != 8 {
        return None;
    }
    Some(groups.iter().fold(0u128, |acc, g| (acc << 16) | *g as u128))
}

fn addr(text: &str) -> Addr {
    match parse_v4(text) {
        Some(v) => Addr::V4(v),
        None => Addr::V6(parse_v6(text).unwrap()),
    }
}

fn addr_parse(text: &str) -> AddrParse {
    let v4 = parse_v4(text).ok_or_else(|| "invalid IPv4 address syntax".to_string());
    let v6 = parse_v6(text).ok_or_else(|| "invalid IPv6 address syntax".to_string());
    let ip = match (&v4, &v6) {
        (Ok(v), _) => Ok(Addr::V4(*v)),
        (_, Ok(v)) => Ok(Addr::V6(*v)),
        _ => Err("invalid IP address syntax".to_string()),
    };
    AddrParse { ip, v4, v6 }
}

fn prefix(text: &str) -> Prefix {
    let (a, l) = text.split_once('/').unwrap();
    Prefix::new(addr(a), l.parse().unwrap())
}

fn field_parses(table: &CsvTable, field: usize) -> Vec<AddrParse> {
    table
        .rows
        .iter()
        .map(|row| addr_parse(row.get(field).map(String::as_str).unwrap_or("")))
        .collect()
}

fn load_ris(store: &mut Store, content: &str) -> Result<(), String> {
    let table = riswhois_table(content.as_bytes());
    let parses = field_parses(&table, 0);
    store.load_riswhois(&table, &parses, "ris.csv").map_err(|e| e.to_string())
}

fn load_delegated(store: &mut Store, content: &str) -> Result<(), String> {
    let table = delegated_table(content.as_bytes());
    let parses = field_parses(&table, 3);
    store.load_prefixes(&table, &parses, "delegated.csv").map_err(|e| e.to_string())
}

fn default_options() -> MatchOptions {
    MatchOptions {
        match_type: MatchType::LongestMatch,
        include_less_specifics: true,
        include_more_specifics: true,
    }
}

fn lookup<'a>(store: &'a Store, ip: &str) -> QueryResult<'a> {
    let a = addr(ip);
    let len = match a {
        Addr::V4(_) => 32,
        Addr::V6(_) => 128,
    };
    store.match_longest_prefix(Prefix::new(a, len), &default_options())
}

fn origin_asns(query: &QueryResult<'_>) -> Vec<String> {
    query
        .prefix_meta
        .and_then(|meta| meta.1.as_ref())
        .map(|record| record.origins.iter().map(|origin| origin.asn.to_string()).collect())
        .unwrap_or_default()
}

fn max_peer_count(query: &QueryResult<'_>) -> Option<u32> {
    query
        .prefix_meta
        .and_then(|meta| meta.1.as_ref())
        .and_then(|record| record.origins.iter().filter_map(|origin| origin.peer_count).max())
}

#[test]
fn exact_match_without_specific_sets_does_not_panic() {
    let mut store = Store::default();
    load_ris(&mut store, "8.8.8.0,24,15169,376\n").unwrap();

    let result = store.match_longest_prefix(
        Prefix::new(addr("8.8.8.0"), 24),
        &MatchOptions {
            match_type: MatchType::ExactMatch,
            include_less_specifics: false,
            include_more_specifics: false,
        },
    );

    assert_eq!(result.prefix.unwrap(), prefix("8.8.8.0/24"));
    assert!(result.less_specifics.is_empty());
    assert!(result.more_specifics.is_empty());
}

#[test]
fn load_riswhois_keeps_first_headerless_row() {
    let mut store = Store::default();
    load_ris(&mut store, "8.8.8.0,24,15169,376\n1.1.1.0,24,13335,211\n").unwrap();

    assert_eq!(lookup(&store, "8.8.8.8").prefix.unwrap(), prefix("8.8.8.0/24"));
    assert_eq!(origin_asns(&lookup(&store, "8.8.8.8")), vec!["AS15169"]);
    assert_eq!(max_peer_count(&lookup(&store, "8.8.8.8")), Some(376));
    assert_eq!(origin_asns(&lookup(&store, "1.1.1.1")), vec!["AS13335"]);
    assert_eq!(max_peer_count(&lookup(&store, "1.1.1.1")), Some(211));
}

#[test]
fn load_riswhois_accepts_legacy_three_column_rows() {
    let mut store = Store::default();
    load_ris(&mut store, "8.8.8.0,24,15169\n").unwrap();

    assert_eq!(origin_asns(&lookup(&store, "8.8.8.8")), vec!["AS15169"]);
    assert_eq!(max_peer_count(&lookup(&store, "8.8.8.8")), None);
}

#[test]
fn load_riswhois_returns_error_on_invalid_row() {
    let mut store = Store::default();

    let err = load_ris(&mut store, "bad-ip,24,15169\n").unwrap_err();

    assert!(err.contains("invalid RIS prefix 'bad-ip'"), "{}", err);
}

#[test]
fn load_prefixes_accepts_headerless_first_record() {
    let mut store = Store::default();
    load_delegated(&mut store, "arin|US|ipv4|8.8.8.0|256|20240410|allocated|google\n").unwrap();

    assert_eq!(lookup(&store, "8.8.8.8").prefix.unwrap(), prefix("8.8.8.0/24"));
}

#[test]
fn load_prefixes_splits_non_cidr_ipv4_allocations() {
    let mut store = Store::default();
    load_delegated(&mut store, "arin|US|ipv4|8.8.8.0|384|20240410|allocated|google\n").unwrap();

    assert_eq!(lookup(&store, "8.8.8.8").prefix.unwrap(), prefix("8.8.8.0/24"));
    assert_eq!(lookup(&store, "8.8.9.42").prefix.unwrap(), prefix("8.8.9.0/25"));
    assert!(lookup(&store, "8.8.9.200").prefix.is_none());
}

#[test]
fn riswhois_rows_for_one_prefix_merge_their_origins() {
    let mut store = Store::default();
    load_ris(&mut store, "8.8.8.0,24,15169,376\n8.8.8.0,24,64500,12\n").unwrap();

    let result = lookup(&store, "8.8.8.8");
    assert_eq!(result.prefix.unwrap(), prefix("8.8.8.0/24"));
    assert_eq!(origin_asns(&result), vec!["AS15169", "AS64500"]);
    assert_eq!(max_peer_count(&result), Some(376));
}

#[test]
fn delegated_and_riswhois_data_share_one_record() {
    let mut store = Store::default();
    load_delegated(&mut store, "ripencc|NL|ipv4|193.0.0.0|2048|19930901|assigned|org\n").unwrap();
    load_ris(&mut store, "193.0.0.0,21,3333,300\n").unwrap();

    let result = lookup(&store, "193.0.7.1");
    assert_eq!(result.prefix.unwrap(), prefix("193.0.0.0/21"));
    let meta = result.prefix_meta.unwrap();
    assert_eq!(meta.0.unwrap().rir.to_json_id(), "ripe");
    assert_eq!(origin_asns(&result), vec!["AS3333"]);
}

#[test]
fn longest_match_lists_less_and_more_specifics() {
    let mut store = Store::default();
    load_ris(&mut store, "10.0.0.0,8,1,50\n10.1.0.0,16,2,50\n10.1.2.0,24,3,50\n").unwrap();

    let result = store.match_longest_prefix(Prefix::new(addr("10.1.0.0"), 16), &default_options());
    assert_eq!(result.prefix.unwrap(), prefix("10.1.0.0/16"));
    assert_eq!(result.match_type, MatchType::ExactMatch);
    assert!(!result.less_specifics.is_empty());
    assert!(!result.more_specifics.is_empty());

    let host = lookup(&store, "10.9.9.9");
    assert_eq!(host.prefix.unwrap(), prefix("10.0.0.0/8"));
    assert_eq!(host.match_type, MatchType::LongestMatch);
    assert_eq!(host.match_type.as_str(), "longest-match");
}

#[test]
fn lookup_of_unknown_address_finds_nothing() {
    let mut store = Store::default();
    load_ris(&mut store, "8.8.8.0,24,15169,376\n").unwrap();

    let result = lookup(&store, "9.9.9.9");
    assert!(result.prefix.is_none());
    assert!(result.prefix_meta.is_none());
    assert_eq!(result.match_type, MatchType::EmptyMatch);
}

#[test]
fn riswhois_errors_name_the_record() {
    let mut store = Store::default();
    assert_eq!(
        load_ris(&mut store, "8.8.8.0,24,15169,376\n1.1.1.0,33,13335,1\n").unwrap_err(),
        "IPv4 RIS prefix length 33 exceeds /32 in record 2 from 'ris.csv'"
    );
    assert_eq!(
        load_ris(&mut store, "2001:db8::,129,64500\n").unwrap_err(),
        "IPv6 RIS prefix length 129 exceeds /128 in record 1 from 'ris.csv'"
    );
    assert_eq!(
        load_ris(&mut store, "8.8.8.0,24,AS1\n").unwrap_err(),
        "invalid RIS ASN 'AS1' in record 1 from 'ris.csv': invalid digit found in string"
    );
    assert_eq!(
        load_ris(&mut store, "8.8.8.0,x,1\n").unwrap_err(),
        "invalid RIS prefix length 'x' in record 1 from 'ris.csv': invalid digit found in string"
    );
    assert_eq!(
        load_ris(&mut store, "8.8.8.0,24,1,many\n").unwrap_err(),
        "invalid RIS peer count 'many' in record 1 from 'ris.csv': invalid digit found in string"
    );
    assert_eq!(
        load_ris(&mut store, "bad-ip,24,15169\n").unwrap_err(),
        "invalid RIS prefix 'bad-ip' in record 1 from 'ris.csv': invalid IP address syntax"
    );
}

#[test]
fn riswhois_rows_of_unequal_length_stop_the_load() {
    let mut store = Store::default();
    let err = load_ris(&mut store, "8.8.8.0,24,15169,376\n1.1.1.0,24,13335\n").unwrap_err();
    assert!(err.contains("found record with 3 fields"), "{}", err);
    assert_eq!(origin_asns(&lookup(&store, "8.8.8.8")), vec!["AS15169"]);
}

#[test]
fn delegated_records_that_are_not_allocations_are_skipped() {
    let mut store = Store::default();
    let content = "2|ripencc|20240410|3|19830705|20240409|+0100\n\
                   ripencc|*|ipv4|*|3|summary\n\
                   # a comment\n\
                   ripencc|NL|ipv4|10.0.0.0|256|20240410|reserved|x\n\
                   ripencc|NL|ipv4|11.0.0.0|256|20240410|available|x\n\
                   ripencc|NL|asn|3333|1|19930901|allocated|x\n\
                   ripencc|NL|ipv4|12.0.0.0|256|20240410|allocated|\n\
                   ripencc|NL|ipv4|13.0.0.0|256|20240410|allocated|org\n";
    load_delegated(&mut store, content).unwrap();

    assert!(lookup(&store, "10.0.0.1").prefix.is_none());
    assert!(lookup(&store, "11.0.0.1").prefix.is_none());
    assert!(lookup(&store, "12.0.0.1").prefix.is_none());
    assert_eq!(lookup(&store, "13.0.0.1").prefix.unwrap(), prefix("13.0.0.0/24"));
}

#[test]
fn delegated_ipv6_records_use_the_prefix_length() {
    let mut store = Store::default();
    load_delegated(&mut store, "apnic|JP|ipv6|2001:db8::|32|20240410|allocated|org\n").unwrap();

    let result = lookup(&store, "2001:db8:1::1");
    assert_eq!(result.prefix.unwrap(), prefix("2001:db8::/32"));
    assert_eq!(result.prefix_meta.unwrap().0.unwrap().rir.to_json_id(), "apnic");
}

#[test]
fn delegated_errors_name_the_record() {
    let mut store = Store::default();
    assert_eq!(
        load_delegated(&mut store, "arin|US|ipv4|8.8.8.0|0|20240410|allocated|google\n").unwrap_err(),
        "invalid IPv4 allocation size 0 in delegated record 1 from 'delegated.csv'"
    );
    assert_eq!(
        load_delegated(&mut store, "arin|US|ipv4|255.255.255.0|512|20240410|allocated|g\n").unwrap_err(),
        "IPv4 allocation 255.255.255.0 with size 512 exceeds the IPv4 address space in delegated record 1 from 'delegated.csv'"
    );
    assert_eq!(
        load_delegated(&mut store, "arin|US|ipv4|8.8.8|256|20240410|allocated|g\n").unwrap_err(),
        "invalid delegated IPv4 network '8.8.8' in record 1 from 'delegated.csv': invalid IPv4 address syntax"
    );
    assert_eq!(
        load_delegated(&mut store, "arin|US|ipv4|8.8.8.0|lots|20240410|allocated|g\n").unwrap_err(),
        "invalid delegated IPv4 allocation size 'lots' in record 1 from 'delegated.csv': invalid digit found in string"
    );
    assert_eq!(
        load_delegated(&mut store, "apnic|JP|ipv6|2001:db8::|129|20240410|allocated|g\n").unwrap_err(),
        "delegated IPv6 prefix length 129 exceeds /128 in record 1 from 'delegated.csv'"
    );
    assert_eq!(
        load_delegated(&mut store, "apnic|JP|ipv6|zz::|32|20240410|allocated|g\n").unwrap_err(),
        "invalid delegated IPv6 network 'zz::' in record 1 from 'delegated.csv': invalid IPv6 address syntax"
    );
    assert_eq!(
        load_delegated(&mut store, "apnic|JP|ipv6|2001:db8::|300|20240410|allocated|g\n").unwrap_err(),
        "invalid delegated IPv6 prefix length '300' in record 1 from 'delegated.csv': number too large to fit in target type"
    );
}

#[test]
fn failed_load_keeps_the_records_before_the_bad_one() {
    let mut store = Store::default();
    let err = load_ris(&mut store, "8.8.8.0,24,15169\n1.1.1.0,40,13335\n9.9.9.0,24,19281\n").unwrap_err();
    assert_eq!(err, "IPv4 RIS prefix length 40 exceeds /32 in record 2 from 'ris.csv'");
    assert_eq!(lookup(&store, "8.8.8.8").prefix.unwrap(), prefix("8.8.8.0/24"));
    assert!(lookup(&store, "1.1.1.1").prefix.is_none());
    assert!(lookup(&store, "9.9.9.9").prefix.is_none());
}

#[test]
fn exact_query_finds_only_the_exact_prefix() {
    let mut store = Store::default();
    load_ris(&mut store, "10.0.0.0,8,1,50\n").unwrap();
    let exact = MatchOptions {
        match_type: MatchType::ExactMatch,
        include_less_specifics: false,
        include_more_specifics: false,
    };
    assert!(store.match_longest_prefix(Prefix::new(addr("10.1.0.0"), 16), &exact).prefix.is_none());
    assert_eq!(
        store.match_longest_prefix(Prefix::new(addr("10.1.2.3"), 8), &exact).prefix.unwrap(),
        prefix("10.0.0.0/8")
    );
}
