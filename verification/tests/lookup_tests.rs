use roto_api::addr::{Addr, AddrParse, Prefix};
use roto_api::csv_input::{riswhois_table, CsvTable};
use roto_api::lookup::{lookup_ip_impl, select_origins, LookupMode};
use roto_api::record::Asn;
use roto_api::store::Store;

fn parse_v4(text: &str) -> Option<u32> {
    let parts: Vec<&str> = text.split('.').collect();
    if parts.len() != 4 {
        return None;
    }
    let mut value: u32 = 0;
    for part in parts {
        if part.is_empty() || part.len() > 3 || !part.bytes().all(|b| b.is_ascii_digit()) {
            return None;
        }
        if part.len() > 1 && part.starts_with('0') {
            return None;
        }
        let octet: u8 = part.parse().ok()?;
        value = (value << 8) | octet as u32;
    }
    Some(value)
}

fn parse_groups(text: &str) -> Option<Vec<u16>> {
    if text.is_empty() {
        return Some(Vec::new());
    }
    let mut groups = Vec::new();
    for group in text.split(':') {
        if group.is_empty() || group.len() > 4 {
            return None;
        }
        groups.push(u16::from_str_radix(group, 16).ok()?);
    }
    Some(groups)
}

fn parse_v6(text: &str) -> Option<u128> {
    let groups = match text.find("::") {
        Some(at) => {
            let head = parse_groups(&text[..at])?;
            let tail = parse_groups(&text[at + 2..])?;
            if head.len() + tail.len() > 7 {
                return None;
            }
            let mut all = head;
            all.resize(8 - tail.len(), 0);
            all.extend(tail);
            all
        }
        None => parse_groups(text)?,
    };
    if groups.len() != 8 {
        return None;
    }
    Some(groups.iter().fold(0u128, |acc, g| (acc << 16) | *g as u128))
}

fn addr(text: &str) -> Addr {
    match parse_v4(text) {
        Some(v) => Addr::V4(v),
        None => Addr::V6(parse_v6(text).unwrap()),
    }
}

fn addr_parse(text: &str) -> AddrParse {
    let v4 = parse_v4(text).ok_or_else(|| "invalid IPv4 address syntax".to_string());
    let v6 = parse_v6(text).ok_or_else(|| "invalid IPv6 address syntax".to_string());
    let ip = match (&v4, &v6) {
        (Ok(v), _) => Ok(Addr::V4(*v)),
        (_, Ok(v)) => Ok(Addr::V6(*v)),
        _ => Err("invalid IP address syntax".to_string()),
    };
    AddrParse { ip, v4, v6 }
}

fn prefix(text: &str) -> Prefix {
    let (a, l) = text.split_once('/').unwrap();
    Prefix::new(addr(a), l.parse().unwrap())
}

fn field_parses(table: &CsvTable, field: usize) -> Vec<AddrParse> {
    table
        .rows
        .iter()
        .map(|row| addr_parse(row.get(field).map(String::as_str).unwrap_or("")))
        .collect()
}

fn load_ris(store: &mut Store, content: &str) -> Result<(), String> {
    let table = riswhois_table(content.as_bytes());
    let parses = field_parses(&table, 0);
    store.load_riswhois(&table, &parses, "ris.csv").map_err(|e| e.to_string())
}

fn store_with_ris(content: &str) -> Store {
    let mut store = Store::default();
    load_ris(&mut store, content).unwrap();
    store
}

fn asns(v: &[Asn]) -> Vec<String> {
    v.iter().map(|a| a.to_string()).collect()
}

#[test]
fn validation_mode_keeps_filtered_prefix() {
    let store = store_with_ris(
        "151.101.0.0,16,54113,345\n151.101.0.0,22,54113,354\n151.101.2.0,23,65530,1\n",
    );

    let result = lookup_ip_impl(&store, addr("151.101.2.133"), 10, LookupMode::Validation);

    assert_eq!(result.prefix, Some(prefix("151.101.2.0/23")));
    assert_eq!(result.matched_prefix, Some(prefix("151.101.2.0/23")));
    assert!(result.origin_asns.is_empty());
    assert!(!result.is_less_specific);
}

#[test]
fn overview_mode_uses_first_visible_less_specific() {
    let store = store_with_ris(
        "151.101.0.0,16,54113,345\n151.101.0.0,22,54113,354\n151.101.2.0,23,65530,1\n",
    );

    let result = lookup_ip_impl(&store, addr("151.101.2.133"), 10, LookupMode::Overview);

    assert_eq!(result.prefix, Some(prefix("151.101.0.0/22")));
    assert_eq!(result.matched_prefix, Some(prefix("151.101.2.0/23")));
    assert_eq!(asns(&result.origin_asns), vec!["AS54113"]);
    assert_eq!(result.peer_count, Some(354));
    assert!(result.is_less_specific);
}

#[test]
fn overview_mode_keeps_exact_match_when_visible() {
    let store = store_with_ris(
        "151.101.0.0,16,54113,345\n151.101.0.0,22,54113,354\n151.101.2.0,23,65530,15\n",
    );

    let result = lookup_ip_impl(&store, addr("151.101.2.133"), 10, LookupMode::Overview);

    assert_eq!(result.prefix, Some(prefix("151.101.2.0/23")));
    assert_eq!(asns(&result.origin_asns), vec!["AS65530"]);
    assert!(!result.is_less_specific);
}

#[test]
fn overview_mode_keeps_filtered_prefix_when_no_visible_less_specific() {
    let store = store_with_ris(
        "151.101.0.0,16,54113,5\n151.101.0.0,22,54113,6\n151.101.2.0,23,65530,1\n",
    );

    let result = lookup_ip_impl(&store, addr("151.101.2.133"), 10, LookupMode::Overview);

    assert_eq!(result.prefix, Some(prefix("151.101.2.0/23")));
    assert_eq!(result.matched_prefix, Some(prefix("151.101.2.0/23")));
    assert!(result.origin_asns.is_empty());
    assert!(!result.is_less_specific);
}

#[test]
fn overview_mode_uses_visible_less_specific_for_ipv6() {
    let store = store_with_ris("2001:db8::,32,64500,50\n2001:db8:1::,48,64501,2\n");

    let result = lookup_ip_impl(&store, addr("2001:db8:1::1"), 10, LookupMode::Overview);

    assert_eq!(result.prefix, Some(prefix("2001:db8::/32")));
    assert_eq!(result.matched_prefix, Some(prefix("2001:db8:1::/48")));
    assert_eq!(asns(&result.origin_asns), vec!["AS64500"]);
    assert_eq!(result.peer_count, Some(50));
    assert!(result.is_less_specific);
}

#[test]
fn lookup_reports_mode_and_match_type() {
    let store = store_with_ris("8.8.8.0,24,15169,376\n");

    let hit = lookup_ip_impl(&store, addr("8.8.8.8"), 10, LookupMode::Overview);
    assert_eq!(hit.mode.as_str(), "overview");
    assert_eq!(hit.match_type.as_str(), "longest-match");
    assert_eq!(hit.peer_count, Some(376));

    let miss = lookup_ip_impl(&store, addr("9.9.9.9"), 10, LookupMode::Validation);
    assert_eq!(miss.mode.as_str(), "validation");
    assert_eq!(miss.match_type.as_str(), "empty-match");
    assert_eq!(miss.prefix, None);
    assert_eq!(miss.matched_prefix, None);
    assert!(!miss.is_less_specific);
    assert!(miss.origin_asns.is_empty());
}

#[test]
fn selection_lists_each_asn_once_with_its_largest_count() {
    let store = store_with_ris(
        "8.8.8.0,24,64502,3\n8.8.8.0,24,64501,20\n8.8.8.0,24,64500,12\n8.8.8.0,24,64501,40\n8.8.8.0,24,64500,\n",
    );
    let result = lookup_ip_impl(&store, addr("8.8.8.8"), 10, LookupMode::Validation);

    assert_eq!(asns(&result.origin_asns), vec!["AS64501", "AS64500"]);
    let counts: Vec<(String, u32)> =
        result.origin_peer_counts.iter().map(|(a, c)| (a.to_string(), *c)).collect();
    assert_eq!(counts, vec![("AS64501".to_string(), 40), ("AS64500".to_string(), 12)]);
    assert_eq!(result.peer_count, Some(40));

    let all = lookup_ip_impl(&store, addr("8.8.8.8"), 0, LookupMode::Validation);
    assert_eq!(asns(&all.origin_asns), vec!["AS64502", "AS64501", "AS64500"]);
    assert_eq!(all.peer_count, Some(40));
}

#[test]
fn selection_of_nothing_is_empty() {
    let selection = select_origins(None, None, 10);
    assert!(selection.prefix.is_none());
    assert!(selection.origin_asns.is_empty());
    assert!(selection.origin_peer_counts.is_empty());
    assert_eq!(selection.peer_count, None);
}

#[test]
fn lookup_mode_names() {
    for name in ["validation", "exact", "current"] {
        assert_eq!(LookupMode::parse(name), Ok(LookupMode::Validation));
    }
    for name in ["overview", "ripe", "ripe-fallback", "ripe_fallback"] {
        assert_eq!(LookupMode::parse(name), Ok(LookupMode::Overview));
    }
    assert_eq!(
        LookupMode::parse("fast"),
        Err("invalid lookup mode 'fast': expected 'validation' or 'overview'".to_string())
    );
    for mode in [LookupMode::Validation, LookupMode::Overview] {
        assert_eq!(LookupMode::parse(mode.as_str()), Ok(mode));
    }
}
