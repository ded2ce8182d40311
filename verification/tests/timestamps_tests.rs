use roto_api::csv_input::timestamps_table;
use roto_api::record::Rir;
use roto_api::timestamps::{timestamp_files, timestamps_dir, timestamps_from_table, TimeStamps};

fn sample_ris_timestamp_csv() -> &'static str {
    "rir,file_timestamp,last_modified_header\nriswhois,123,\"Sat, 11 Apr 2026 10:03:01 GMT\"\n"
}

fn sample_del_timestamp_csv() -> &'static str {
    "rir,file_timestamp,last_modified_header\nafrinic,123,\"Sat, 11 Apr 2026 10:03:01 GMT\"\n"
}

fn read_stamps(include_delegated: bool) -> TimeStamps {
    let files = [
        ("riswhois.timestamps.json", sample_ris_timestamp_csv()),
        ("del_ext.timestamps.json", sample_del_timestamp_csv()),
    ];
    let mut stamps = TimeStamps::default();
    for name in timestamp_files(include_delegated) {
        let content = files.iter().find(|(n, _)| *n == name).unwrap().1;
        let table = timestamps_table(content.as_bytes());
        stamps = timestamps_from_table(stamps, &table, &name).unwrap();
    }
    stamps
}

#[test]
fn load_lookup_ignores_delegated_timestamps_when_not_enabled() {
    let timestamps = read_stamps(false);

    assert!(timestamps.afrinic.is_none());
    assert!(timestamps.riswhois.is_some());
}

#[test]
fn load_lookup_includes_delegated_timestamps_when_enabled() {
    let timestamps = read_stamps(true);

    assert!(timestamps.afrinic.is_some());
    assert!(timestamps.riswhois.is_some());
}

#[test]
fn time_stamps_keep_serial_and_date() {
    let timestamps = read_stamps(true);
    let ris = timestamps.riswhois.clone().unwrap();
    assert_eq!(ris.0, Rir::Unknown);
    assert_eq!(ris.1, 123);
    assert_eq!(ris.2.rfc3339, "2026-04-11T10:03:01+00:00");
    assert_eq!(ris.to_string(), "Unknown 123 2026-04-11 10:03:01 +00:00");
    assert_eq!(ris.to_json_entry(), "\"Unknown\": \"123 2026-04-11 10:03:01 +00:00\"");

    let status = timestamps.source_status();
    assert_eq!(status.len(), 2);
    assert_eq!(status[0].kind, "rir-alloc");
    assert_eq!(status[0].id, "afrinic");
    assert_eq!(status[0].serial, 123);
    assert_eq!(status[0].last_updated, "2026-04-11T10:03:01+00:00");
    assert_eq!(status[1].kind, "bgp");
    assert_eq!(status[1].id, "riswhois");
}

#[test]
fn later_time_stamp_of_a_source_replaces_earlier() {
    let content = "rir,file_timestamp,last_modified_header\n\
                   arin,1,\"Mon, 06 Apr 2026 00:00:00 GMT\"\n\
                   arin,2,\"Tue, 07 Apr 2026 00:00:00 +0200\"\n";
    let table = timestamps_table(content.as_bytes());
    let stamps = timestamps_from_table(TimeStamps::default(), &table, "t.json").unwrap();
    let arin = stamps.arin.unwrap();
    assert_eq!(arin.1, 2);
    assert_eq!(arin.2.rfc3339, "2026-04-07T00:00:00+02:00");
    assert!(stamps.apnic.is_none());
}

#[test]
fn time_stamp_errors_name_the_record() {
    let bad_serial = "rir,file_timestamp,last_modified_header\nripencc,x,\"Sat, 11 Apr 2026 10:03:01 GMT\"\n";
    let table = timestamps_table(bad_serial.as_bytes());
    assert_eq!(
        timestamps_from_table(TimeStamps::default(), &table, "t.json").unwrap_err(),
        "invalid serial 'x' in 't.json' record 1: invalid digit found in string"
    );

    let bad_date = "rir,file_timestamp,last_modified_header\nripencc,5,yesterday\n";
    let table = timestamps_table(bad_date.as_bytes());
    let err = timestamps_from_table(TimeStamps::default(), &table, "t.json").unwrap_err();
    assert!(err.starts_with("invalid RFC2822 timestamp 'yesterday' in 't.json' record 1: "), "{}", err);

    let short = "rir,file_timestamp,last_modified_header\nripencc,5\n";
    let table = timestamps_table(short.as_bytes());
    assert_eq!(
        timestamps_from_table(TimeStamps::default(), &table, "t.json").unwrap_err(),
        "missing timestamp in 't.json' record 1"
    );
}

#[test]
fn timestamp_files_follow_the_datasets() {
    assert_eq!(timestamp_files(false), vec!["riswhois.timestamps.json".to_string()]);
    assert_eq!(
        timestamp_files(true),
        vec!["riswhois.timestamps.json".to_string(), "del_ext.timestamps.json".to_string()]
    );
}

#[test]
fn timestamps_directory_falls_back_in_order() {
    let s = |t: &str| Some(t.to_string());
    assert_eq!(timestamps_dir(s("given"), s("delegated"), s("ris")), "given");
    assert_eq!(timestamps_dir(None, s("delegated"), s("ris")), "delegated");
    assert_eq!(timestamps_dir(None, None, s("ris")), "ris");
    assert_eq!(timestamps_dir(None, None, None), ".");
}

#[test]
fn delegated_time_stamps_are_read_only_with_delegated_data() {
    let ris = timestamps_table(sample_ris_timestamp_csv().as_bytes());
    let del = timestamps_table(sample_del_timestamp_csv().as_bytes());
    let broken = timestamps_table(b"rir,file_timestamp\nafrinic\n");

    let without = roto_api::timestamps::import_timestamps(false, Some((&ris, "r")), Some((&broken, "d"))).unwrap();
    assert!(without.afrinic.is_none());
    assert!(without.riswhois.is_some());

    let with = roto_api::timestamps::import_timestamps(true, Some((&ris, "r")), Some((&del, "d"))).unwrap();
    assert!(with.afrinic.is_some());
    assert!(with.riswhois.is_some());

    let err = roto_api::timestamps::import_timestamps(true, None, Some((&broken, "d"))).unwrap_err();
    assert_eq!(err, "missing serial in 'd' record 1");
}
