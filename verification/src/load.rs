use vstd::prelude::*;
use crate::addr::{Addr, AddrParse, AddrParseView, Prefix};
use crate::csv_input::{row_view, CsvTable, TableView};
use crate::error::{invalid_data_error, store_error, DataError, ErrorKind};
use crate::record::{asn_of, lemma_asn_of, Asn, ExtPrefixRecord, MetaView, RisOrigin, RisWhoisRecord};
use crate::store::{added, can_add, full_store_message, lemma_stored_covering_grows, stored_covering, Store, StoreView};
use crate::text::{
    decimal_text, join, parse_u32, parse_u8, parses_within, text, u32_parse_error_text,
    u64_text, u8_parse_error_text, unsigned_value,
};

verus! {

/// The message of the error for a record without the field `field_index`.
pub open spec fn missing_field_message(
    field_index: nat,
    dataset: Seq<char>,
    record_index: nat,
    source: Seq<char>,
) -> Seq<char> {
    "missing field "@ + decimal_text(field_index as u64) + " in "@ + dataset + " record "@
        + decimal_text(record_index as u64) + " from '"@ + source + "'"@
}

/// The message of an error about the value `value` of a record, with the cause.
pub open spec fn invalid_value_message(
    what: Seq<char>,
    value: Seq<char>,
    record_index: nat,
    source: Seq<char>,
    cause: Seq<char>,
) -> Seq<char> {
    "invalid "@ + what + " '"@ + value + "' in record "@ + decimal_text(record_index as u64)
        + " from '"@ + source + "': "@ + cause
}

/// The message of the error for a prefix length beyond the family's width.
pub open spec fn length_exceeds_message(
    what: Seq<char>,
    len: u8,
    limit: Seq<char>,
    record_index: nat,
    source: Seq<char>,
) -> Seq<char> {
    what + " prefix length "@ + decimal_text(len as u64) + " exceeds /"@ + limit
        + " in record "@ + decimal_text(record_index as u64) + " from '"@ + source + "'"@
}

/// Returns the field `field_index` of a record, or an error that names the missing
/// field, the dataset, the record and its source.
pub fn record_field<'a>(
    record: &'a Vec<String>,
    field_index: usize,
    source: &str,
    record_index: usize,
    dataset: &str,
) -> (r: Result<&'a str, DataError>)
    ensures
        field_index < record.len() ==> (r matches Ok(f) && f@ == record@[field_index as int]@),
        field_index >= record.len() ==> (r matches Err(e) && e.kind == ErrorKind::InvalidData
            && e.message@ == missing_field_message(
            field_index as nat,
            dataset@,
            record_index as nat,
            source@,
        )),
{
    if field_index < record.len() {
        Ok(record[field_index].as_str())
    } else {
        let m = text("missing field ");
        let m = join(m, u64_text(field_index as u64).as_str());
        let m = join(m, " in ");
        let m = join(m, dataset);
        let m = join(m, " record ");
        let m = join(m, u64_text(record_index as u64).as_str());
        let m = join(m, " from '");
        let m = join(m, source);
        let m = join(m, "'");
        Err(invalid_data_error(m))
    }
}

/// An error about the value `value` of a record, with the cause.
pub(crate) fn invalid_value_error(what: &str, value: &str, record_index: usize, source: &str, cause: &str) -> (e: DataError)
    ensures
        e.kind == ErrorKind::InvalidData,
        e.message@ == invalid_value_message(what@, value@, record_index as nat, source@, cause@),
{
    let m = text("invalid ");
    let m = join(m, what);
    let m = join(m, " '");
    let m = join(m, value);
    let m = join(m, "' in record ");
    let m = join(m, u64_text(record_index as u64).as_str());
    let m = join(m, " from '");
    let m = join(m, source);
    let m = join(m, "': ");
    let m = join(m, cause);
    invalid_data_error(m)
}

/// An error about a prefix length beyond the family's width.
pub(crate) fn length_exceeds_error(what: &str, len: u8, limit: &str, record_index: usize, source: &str) -> (e: DataError)
    ensures
        e.kind == ErrorKind::InvalidData,
        e.message@ == length_exceeds_message(what@, len, limit@, record_index as nat, source@),
{
    let m = text(what);
    let m = join(m, " prefix length ");
    let m = join(m, u64_text(len as u64).as_str());
    let m = join(m, " exceeds /");
    let m = join(m, limit);
    let m = join(m, " in record ");
    let m = join(m, u64_text(record_index as u64).as_str());
    let m = join(m, " from '");
    let m = join(m, source);
    let m = join(m, "'");
    invalid_data_error(m)
}

/// The value of a decimal field that is known to parse.
pub open spec fn field_value(s: Seq<char>) -> nat {
    match unsigned_value(s) {
        Some(n) => n,
        None => 0,
    }
}

/// Whether a RIS Whois record gives a peer count (a fourth field that is not empty).
pub open spec fn has_peer_count(row: Seq<Seq<char>>) -> bool {
    row.len() > 3 && row[3].len() > 0
}

/// The metadata of a RIS Whois record: one origin.
pub open spec fn ris_meta(asn: Asn, peer_count: Option<u32>) -> MetaView {
    (None, Some(seq![RisOrigin { asn, peer_count }]))
}

/// What a RIS Whois record (`prefix,length,asn[,peer_count]`) gives: its prefix and
/// metadata, or the message of the first error, checked in this order: missing
/// fields, peer count, prefix address, prefix length, ASN, length beyond the family.
pub open spec fn ris_row(
    row: Seq<Seq<char>>,
    parse: AddrParseView,
    record_index: nat,
    source: Seq<char>,
) -> Result<(Prefix, MetaView), Seq<char>> {
    let ds = "RIS Whois"@;
    if row.len() < 1 {
        Err(missing_field_message(0, ds, record_index, source))
    } else if row.len() < 2 {
        Err(missing_field_message(1, ds, record_index, source))
    } else if row.len() < 3 {
        Err(missing_field_message(2, ds, record_index, source))
    } else if has_peer_count(row) && !parses_within(row[3], u32::MAX as nat) {
        Err(
            invalid_value_message(
                "RIS peer count"@,
                row[3],
                record_index,
                source,
                u32_parse_error_text(row[3]),
            ),
        )
    } else {
        match parse.0 {
            Err(cause) => Err(invalid_value_message("RIS prefix"@, row[0], record_index, source, cause)),
            Ok(addr) => if !parses_within(row[1], u8::MAX as nat) {
                Err(
                    invalid_value_message(
                        "RIS prefix length"@,
                        row[1],
                        record_index,
                        source,
                        u8_parse_error_text(row[1]),
                    ),
                )
            } else if !parses_within(row[2], u32::MAX as nat) {
                Err(
                    invalid_value_message(
                        "RIS ASN"@,
                        row[2],
                        record_index,
                        source,
                        u32_parse_error_text(row[2]),
                    ),
                )
            } else {
                let len = field_value(row[1]) as u8;
                let asn = asn_of(field_value(row[2]) as u32);
                let peer_count = if has_peer_count(row) {
                    Some(field_value(row[3]) as u32)
                } else {
                    None
                };
                match addr {
                    Addr::V4(_) => if len > 32 {
                        Err(length_exceeds_message("IPv4 RIS"@, len, "32"@, record_index, source))
                    } else {
                        Ok((Prefix { addr, len }, ris_meta(asn, peer_count)))
                    },
                    Addr::V6(_) => if len > 128 {
                        Err(length_exceeds_message("IPv6 RIS"@, len, "128"@, record_index, source))
                    } else {
                        Ok((Prefix { addr, len }, ris_meta(asn, peer_count)))
                    },
                }
            },
        }
    }
}

/// Whether an exec result matches a spec result of a record: the same prefix and
/// metadata, or an invalid-data error with the same message.
pub open spec fn row_result_matches<T>(
    r: Result<(T, ExtPrefixRecord), DataError>,
    s: Result<(T, MetaView), Seq<char>>,
) -> bool {
    match s {
        Ok((p, m)) => r matches Ok((p2, m2)) && p2 == p && m2@ == m,
        Err(msg) => r matches Err(e) && e.kind == ErrorKind::InvalidData && e.message@ == msg,
    }
}

/// Reads one RIS Whois record: its prefix with one origin. `parse` is the reading of
/// the record's first field as an address.
pub fn parse_ris_record(
    record: &Vec<String>,
    parse: &AddrParse,
    record_index: usize,
    source: &str,
) -> (r: Result<(Prefix, ExtPrefixRecord), DataError>)
    ensures
        row_result_matches(r, ris_row(row_view(*record), parse@, record_index as nat, source@)),
{
    let ghost row = row_view(*record);
    let addr_str = record_field(record, 0, source, record_index, "RIS Whois")?;
    let len_str = record_field(record, 1, source, record_index, "RIS Whois")?;
    let asn_str = record_field(record, 2, source, record_index, "RIS Whois")?;
    let peer_count = if record.len() > 3 && !record[3].as_str().is_empty() {
        let value = record[3].as_str();
        match parse_u32(value) {
            Ok(v) => Some(v),
            Err(cause) => {
                return Err(invalid_value_error("RIS peer count", value, record_index, source, cause.as_str()));
            },
        }
    } else {
        None
    };
    let addr = match &parse.ip {
        Ok(a) => *a,
        Err(cause) => {
            return Err(invalid_value_error("RIS prefix", addr_str, record_index, source, cause.as_str()));
        },
    };
    let len = match parse_u8(len_str) {
        Ok(v) => v,
        Err(cause) => {
            return Err(invalid_value_error("RIS prefix length", len_str, record_index, source, cause.as_str()));
        },
    };
    let asn = match Asn::from_str(asn_str) {
        Ok(a) => a,
        Err(cause) => {
            return Err(invalid_value_error("RIS ASN", asn_str, record_index, source, cause.as_str()));
        },
    };
    proof {
        lemma_asn_of(asn@);
        Asn::lemma_view_injective(asn, asn_of(asn@));
    }
    match addr {
        Addr::V4(_) => {
            if len > 32 {
                return Err(length_exceeds_error("IPv4 RIS", len, "32", record_index, source));
            }
        },
        Addr::V6(_) => {
            if len > 128 {
                return Err(length_exceeds_error("IPv6 RIS", len, "128", record_index, source));
            }
        },
    }
    let mut origins = Vec::new();
    origins.push(RisOrigin { asn, peer_count });
    let meta = ExtPrefixRecord(None, Some(RisWhoisRecord { origins }));
    assert(meta@.1 == Some(seq![RisOrigin { asn, peer_count }]));
    Ok((Prefix { addr, len }, meta))
}

/// The readings of a list of fields as addresses, as values.
pub open spec fn parses_view(parses: Seq<AddrParse>) -> Seq<AddrParseView> {
    parses.map_values(|p: AddrParse| p@)
}

/// What loading data into a store leaves: the store, and the kind and message of the
/// error that stopped the loading, if one did.
pub type LoadView = (StoreView, Option<(ErrorKind, Seq<char>)>);

/// The message of the error for a RIS Whois prefix the store could not take.
pub open spec fn insert_failed_message(
    what: Seq<char>,
    addr: Seq<char>,
    len: u8,
    source: Seq<char>,
    cause: Seq<char>,
) -> Seq<char> {
    "failed to insert "@ + what + " prefix "@ + addr + "/"@ + decimal_text(len as u64) + " from '"@
        + source + "': "@ + cause
}

/// What loading the RIS Whois records `rows[0..n)` into `m` leaves: every record is
/// added in turn until the first invalid one, or the first whose prefix the store
/// cannot take, stops the loading.
pub open spec fn ris_loaded(
    m: StoreView,
    rows: Seq<Seq<Seq<char>>>,
    parses: Seq<AddrParseView>,
    n: nat,
    source: Seq<char>,
) -> LoadView
    decreases n,
{
    if n == 0 {
        (m, None)
    } else {
        let prev = ris_loaded(m, rows, parses, (n - 1) as nat, source);
        if prev.1 is Some {
            prev
        } else {
            match ris_row(rows[n - 1], parses[n - 1], n, source) {
                Err(e) => (prev.0, Some((ErrorKind::InvalidData, e))),
                Ok((p, meta)) => if can_add(prev.0, p) {
                    (added(prev.0, p, meta), None)
                } else {
                    (
                        prev.0,
                        Some(
                            (
                                ErrorKind::Store,
                                insert_failed_message(
                                    "RIS"@,
                                    rows[n - 1][0],
                                    p.len,
                                    source,
                                    full_store_message(),
                                ),
                            ),
                        ),
                    )
                },
            }
        }
    }
}

/// What loading a table's records leaves, when the table's reading error (if any)
/// comes after its records.
pub open spec fn table_loaded(records: LoadView, table: TableView) -> LoadView {
    if records.1 is Some {
        records
    } else {
        match table.1 {
            Some(e) => (records.0, Some((ErrorKind::InvalidData, e))),
            None => (records.0, None),
        }
    }
}

/// What loading a RIS Whois table into `m` leaves.
pub open spec fn ris_load(
    m: StoreView,
    table: TableView,
    parses: Seq<AddrParseView>,
    source: Seq<char>,
) -> LoadView {
    table_loaded(ris_loaded(m, table.0, parses, table.0.len(), source), table)
}

/// Whether the store holds the prefix that a RIS Whois record gives, if it gives one.
pub open spec fn ris_row_stored(
    m: StoreView,
    row: Seq<Seq<char>>,
    parse: AddrParseView,
    record_index: nat,
    source: Seq<char>,
) -> bool {
    match ris_row(row, parse, record_index, source) {
        Ok((p, _)) => stored_covering(m, p.addr, p.len as nat),
        Err(_) => true,
    }
}

/// Whether a load's result and the store it leaves are what loading the data leaves:
/// success when nothing stopped the loading, else that error; either way that store.
pub open spec fn load_result_matches(r: Result<(), DataError>, expected: LoadView, after: StoreView) -> bool {
    &&& after == expected.0
    &&& match expected.1 {
        None => r is Ok,
        Some((kind, message)) => r matches Err(e) && e.kind == kind && e.message@ == message,
    }
}

/// The error for a prefix the store did not take.
fn insert_error(what: &str, addr: &str, len: u8, source: &str, cause: &str) -> (e: DataError)
    ensures
        e.kind == ErrorKind::Store,
        e.message@ == insert_failed_message(what@, addr@, len, source@, cause@),
{
    let m = text("failed to insert ");
    let m = join(m, what);
    let m = join(m, " prefix ");
    let m = join(m, addr);
    let m = join(m, "/");
    let m = join(m, u64_text(len as u64).as_str());
    let m = join(m, " from '");
    let m = join(m, source);
    let m = join(m, "': ");
    let m = join(m, cause);
    store_error(m)
}

/// Once loading RIS Whois records has stopped, more records change nothing.
proof fn lemma_ris_loaded_error_stays(
    m: StoreView,
    rows: Seq<Seq<Seq<char>>>,
    parses: Seq<AddrParseView>,
    k: nat,
    n: nat,
    source: Seq<char>,
)
    requires
        k <= n,
        ris_loaded(m, rows, parses, k, source).1 is Some,
    ensures
        ris_loaded(m, rows, parses, n, source) == ris_loaded(m, rows, parses, k, source),
    decreases n - k,
{
    if k < n {
        lemma_ris_loaded_error_stays(m, rows, parses, k, (n - 1) as nat, source);
    }
}

impl Store {
    /// Loads RIS Whois records (`prefix,length,asn[,peer_count]`, as read by
    /// `riswhois_table`) into the store; `parses` holds the reading of each record's
    /// first field as an address, and `source` names the data in error messages.
    pub fn load_riswhois(&mut self, table: &CsvTable, parses: &Vec<AddrParse>, source: &str) -> (r: Result<(), DataError>)
        requires
            old(self).inv(),
            parses.len() == table.rows.len(),
        ensures
            final(self).inv(),
            load_result_matches(r, ris_load(old(self)@, table@, parses_view(parses@), source@), final(self)@),
            r is Ok ==> forall|i: int|
                0 <= i < table@.0.len() ==> #[trigger] ris_row_stored(
                    final(self)@,
                    table@.0[i],
                    parses_view(parses@)[i],
                    (i + 1) as nat,
                    source@,
                ),
    {
        let ghost m0 = self@;
        let ghost pv = parses_view(parses@);
        let mut i: usize = 0;
        while i < table.rows.len()
            invariant
                0 <= i <= table.rows.len(),
                parses.len() == table.rows.len(),
                pv == parses_view(parses@),
                m0 == old(self)@,
                self.inv(),
                ris_loaded(m0, table@.0, pv, i as nat, source@) == (self@, None::<(ErrorKind, Seq<char>)>),
                forall|j: int| 0 <= j < i ==> #[trigger] ris_row_stored(self@, table@.0[j], pv[j], (j + 1) as nat, source@),
            decreases table.rows.len() - i,
        {
            let record = &table.rows[i];
            assert(table@.0[i as int] == row_view(*record));
            let parsed = parse_ris_record(record, &parses[i], i + 1, source);
            let (prefix, meta) = match parsed {
                Ok(pm) => pm,
                Err(e) => {
                    proof {
                        assert(pv[i as int] == parses@[i as int]@);
                        assert(ris_loaded(m0, table@.0, pv, (i + 1) as nat, source@) == (self@, Some((ErrorKind::InvalidData, e.message@))));
                        lemma_ris_loaded_error_stays(m0, table@.0, pv, (i + 1) as nat, table@.0.len(), source@);
                    }
                    return Err(e);
                },
            };
            let len = prefix.len;
            let ghost before = self@;
            let ghost p = prefix;
            match self.add(prefix, meta) {
                Ok(()) => {
                    proof {
                        assert forall|j: int| 0 <= j <= i implies #[trigger] ris_row_stored(self@, table@.0[j], pv[j], (j + 1) as nat, source@) by {
                            if j < i {
                                assert(ris_row_stored(before, table@.0[j], pv[j], (j + 1) as nat, source@));
                                if let Ok((q, _)) = ris_row(table@.0[j], pv[j], (j + 1) as nat, source@) {
                                    lemma_stored_covering_grows(before, self@, q.addr, q.len as nat);
                                }
                            } else {
                                assert(ris_row(table@.0[j], pv[j], (j + 1) as nat, source@) matches Ok((q, _)) && q == p);
                            }
                        }
                    }
                },
                Err(cause) => {
                    let e = insert_error("RIS", record[0].as_str(), len, source, cause.as_str());
                    proof {
                        lemma_ris_loaded_error_stays(m0, table@.0, pv, (i + 1) as nat, table@.0.len(), source@);
                    }
                    return Err(e);
                },
            }
            i = i + 1;
        }
        match &table.error {
            Some(e) => Err(invalid_data_error(e.clone())),
            None => Ok(()),
        }
    }
}

} // verus!
