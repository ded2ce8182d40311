use roto_api::addr::{network_addr, Addr, Prefix};
use roto_api::allocation::decompose_ipv4_allocation;
use roto_api::error::{invalid_data_error, ErrorKind};
use roto_api::load::record_field;
use roto_api::record::{Asn, ExtPrefixRecord, Rir, RirDelExtRecord, RisOrigin, RisWhoisRecord};

fn v4(a: u8, b: u8, c: u8, d: u8) -> u32 {
    u32::from_be_bytes([a, b, c, d])
}

#[test]
fn allocation_of_384_addresses_splits_into_two_prefixes() {
    let prefixes = decompose_ipv4_allocation(v4(8, 8, 8, 0), 384, "d.csv", 1).unwrap();
    assert_eq!(prefixes, vec![(v4(8, 8, 8, 0), 24), (v4(8, 8, 9, 0), 25)]);
}

#[test]
fn unaligned_allocation_splits_by_alignment() {
    let prefixes = decompose_ipv4_allocation(v4(10, 0, 0, 128), 256, "d.csv", 1).unwrap();
    assert_eq!(prefixes, vec![(v4(10, 0, 0, 128), 25), (v4(10, 0, 1, 0), 25)]);
}

#[test]
fn whole_address_space_is_one_prefix() {
    let prefixes = decompose_ipv4_allocation(0, 0, "d.csv", 1);
    assert!(prefixes.is_err());
    let single = decompose_ipv4_allocation(v4(255, 255, 255, 255), 1, "d.csv", 1).unwrap();
    assert_eq!(single, vec![(v4(255, 255, 255, 255), 32)]);
    let top = decompose_ipv4_allocation(v4(128, 0, 0, 0), 1 << 31, "d.csv", 1).unwrap();
    assert_eq!(top, vec![(v4(128, 0, 0, 0), 1)]);
}

#[test]
fn allocation_errors_name_the_record() {
    let err = decompose_ipv4_allocation(v4(8, 8, 8, 0), 0, "d.csv", 7).unwrap_err();
    assert_eq!(err.kind, ErrorKind::InvalidData);
    assert_eq!(err.to_string(), "invalid IPv4 allocation size 0 in delegated record 7 from 'd.csv'");
    let err = decompose_ipv4_allocation(v4(255, 255, 255, 0), 257, "d.csv", 3).unwrap_err();
    assert_eq!(
        err.to_string(),
        "IPv4 allocation 255.255.255.0 with size 257 exceeds the IPv4 address space in delegated record 3 from 'd.csv'"
    );
}

#[test]
fn network_addresses_clear_host_bits() {
    assert_eq!(network_addr(Addr::V4(v4(151, 101, 2, 133)), 22), Addr::V4(v4(151, 101, 0, 0)));
    assert_eq!(network_addr(Addr::V4(v4(151, 101, 2, 133)), 0), Addr::V4(0));
    assert_eq!(network_addr(Addr::V4(v4(151, 101, 2, 133)), 32), Addr::V4(v4(151, 101, 2, 133)));
    let a: u128 = 0x2001_0db8_0001_0000_0000_0000_0000_0001;
    assert_eq!(network_addr(Addr::V6(a), 32), Addr::V6(0x2001_0db8_0000_0000_0000_0000_0000_0000));
    assert_eq!(network_addr(Addr::V6(a), 128), Addr::V6(a));
    assert_eq!(network_addr(Addr::V6(a), 0), Addr::V6(0));
}

#[test]
fn prefixes_and_addresses() {
    let p = Prefix::new(Addr::from(v4(8, 8, 8, 0)), 24);
    assert_eq!(p.addr, Addr::V4(v4(8, 8, 8, 0)));
    assert_eq!(p.len, 24);
}

#[test]
fn missing_fields_are_reported() {
    let record = vec!["a".to_string(), "b".to_string()];
    assert_eq!(record_field(&record, 1, "x.csv", 4, "RIS Whois").unwrap(), "b");
    let err = record_field(&record, 2, "x.csv", 4, "RIS Whois").unwrap_err();
    assert_eq!(err.kind, ErrorKind::InvalidData);
    assert_eq!(err.to_string(), "missing field 2 in RIS Whois record 4 from 'x.csv'");
}

#[test]
fn invalid_data_errors_keep_their_message() {
    let err = invalid_data_error("broken".to_string());
    assert_eq!(err.kind, ErrorKind::InvalidData);
    assert_eq!(err.to_string(), "broken");
}

#[test]
fn registries_by_name() {
    assert_eq!(Rir::from("afrinic"), Rir::Afrinic);
    assert_eq!(Rir::from("apnic"), Rir::Apnic);
    assert_eq!(Rir::from("arin"), Rir::Arin);
    assert_eq!(Rir::from("lacnic"), Rir::Lacnic);
    assert_eq!(Rir::from("ripencc"), Rir::RipeNcc);
    assert_eq!(Rir::from("riswhois"), Rir::Unknown);
    assert_eq!(Rir::RipeNcc.to_json_id(), "ripe");
    assert_eq!(Rir::Unknown.to_json_id(), "riswhois");
    assert_eq!(Rir::Lacnic.to_json_id(), "lacnic");
    assert_eq!(Rir::RipeNcc.to_string(), "RIPE NCC");
    assert_eq!(Rir::Unknown.to_string(), "Unknown");
}

#[test]
fn asn_text() {
    let asn = Asn::from_str("15169").unwrap();
    assert_eq!(asn.to_string(), "AS15169");
    assert_eq!(Asn::from_str("+7").unwrap().to_string(), "AS7");
    assert!(Asn::from_str("4294967296").is_err());
    assert!(Asn::from_str("").is_err());
}

#[test]
fn merging_records_appends_origins_and_replaces_registry() {
    let origin = |n: &str, c: Option<u32>| RisOrigin { asn: Asn::from_str(n).unwrap(), peer_count: c };
    let mut record = ExtPrefixRecord(
        Some(RirDelExtRecord { rir: Rir::Arin }),
        Some(RisWhoisRecord { origins: vec![origin("1", Some(5))] }),
    );
    record
        .merge_update(ExtPrefixRecord(None, Some(RisWhoisRecord { origins: vec![origin("2", None)] })))
        .unwrap();
    assert_eq!(record.0.unwrap().rir, Rir::Arin);
    let asns: Vec<String> = record.1.as_ref().unwrap().origins.iter().map(|o| o.asn.to_string()).collect();
    assert_eq!(asns, vec!["AS1", "AS2"]);

    record
        .merge_update(ExtPrefixRecord(Some(RirDelExtRecord { rir: Rir::Apnic }), None))
        .unwrap();
    assert_eq!(record.0.unwrap().rir, Rir::Apnic);
    assert_eq!(record.1.as_ref().unwrap().origins.len(), 2);

    let mut empty = ExtPrefixRecord(None, None);
    empty.merge_update(record.duplicate()).unwrap();
    assert_eq!(empty.0.unwrap().rir, Rir::Apnic);
    assert_eq!(empty.1.unwrap().origins.len(), 2);
}

#[test]
fn default_record_is_empty() {
    let record = ExtPrefixRecord::default();
    assert!(record.0.is_none());
    assert!(record.1.is_none());
}
