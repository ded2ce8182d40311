use vstd::prelude::*;
use crate::addr::{Addr, AddrParse, AddrParseView, Prefix};
use crate::allocation::{
    cidr_blocks, decompose_ipv4_allocation, empty_allocation_message, lemma_cidr_block_lengths,
    oversized_allocation_message,
};
use crate::csv_input::{row_view, CsvTable, TableView};
use crate::error::{invalid_data_error, store_error, DataError, ErrorKind};
use crate::load::{
    field_value, invalid_value_error, invalid_value_message, length_exceeds_error,
    length_exceeds_message, load_result_matches, parses_view, record_field, table_loaded, LoadView,
};
use crate::record::{rir_named, ExtPrefixRecord, MetaView, Rir, RirDelExtRecord};
use crate::store::{added, can_add, full_store_message, lemma_stored_covering_grows, stored_covering, Store, StoreView};
use crate::text::{parse_u32, parse_u8, parses_within, str_eq, u32_parse_error_text, u8_parse_error_text};

verus! {

/// The metadata that a delegated record gives its prefixes: the registry it names.
pub open spec fn delegated_meta(row: Seq<Seq<char>>) -> MetaView {
    (Some(RirDelExtRecord { rir: rir_named(row[0]) }), None)
}

/// Whether loading passes over a delegated record: an empty record, a comment, a
/// record of another resource type (or without one), a summary line, a reserved or
/// available block, or a record without an opaque id.
pub open spec fn delegated_skipped(row: Seq<Seq<char>>) -> bool {
    ||| row.len() < 1
    ||| (row[0].len() > 0 && row[0][0] == '#')
    ||| row.len() < 3
    ||| (row[2] != "ipv4"@ && row[2] != "ipv6"@)
    ||| (row.len() > 5 && row[5] == "summary"@)
    ||| (row.len() > 6 && (row[6] == "reserved"@ || row[6] == "available"@))
    ||| !(row.len() > 7 && row[7].len() > 0)
}

/// A delegated record whose block is reserved or available allocates nothing, of
/// either address family; so does a comment, a summary line and a record without an
/// opaque id.
pub proof fn lemma_unallocated_records_yield_nothing(
    row: Seq<Seq<char>>,
    parse: AddrParseView,
    record_index: nat,
    source: Seq<char>,
)
    requires
        (row.len() > 6 && (row[6] == "reserved"@ || row[6] == "available"@)) || (row.len() > 5
            && row[5] == "summary"@) || (row.len() > 0 && row[0].len() > 0 && row[0][0] == '#')
            || !(row.len() > 7 && row[7].len() > 0),
    ensures
        delegated_row(row, parse, record_index, source) == Ok::<Seq<Prefix>, Seq<char>>(Seq::empty()),
{
}

/// IPv4 blocks as prefixes.
pub open spec fn v4_prefixes(blocks: Seq<(u32, u8)>) -> Seq<Prefix> {
    blocks.map_values(|b: (u32, u8)| Prefix { addr: Addr::V4(b.0), len: b.1 })
}

/// What a delegated record (`registry|cc|type|start|value|date|status|id`) gives: the
/// prefixes it allocates (none when loading passes over it), or the message of the
/// first error. An IPv4 record's value is a number of addresses, split into CIDR
/// prefixes; an IPv6 record's value is the prefix length.
pub open spec fn delegated_row(
    row: Seq<Seq<char>>,
    parse: AddrParseView,
    record_index: nat,
    source: Seq<char>,
) -> Result<Seq<Prefix>, Seq<char>> {
    if delegated_skipped(row) {
        Ok(Seq::empty())
    } else if row[2] == "ipv4"@ {
        match parse.1 {
            Err(cause) => Err(
                invalid_value_message("delegated IPv4 network"@, row[3], record_index, source, cause),
            ),
            Ok(net) => if !parses_within(row[4], u32::MAX as nat) {
                Err(
                    invalid_value_message(
                        "delegated IPv4 allocation size"@,
                        row[4],
                        record_index,
                        source,
                        u32_parse_error_text(row[4]),
                    ),
                )
            } else {
                let addresses = field_value(row[4]);
                if addresses == 0 {
                    Err(empty_allocation_message(record_index as usize, source))
                } else if net + addresses > 0x1_0000_0000 {
                    Err(
                        oversized_allocation_message(
                            net,
                            addresses as u32,
                            record_index as usize,
                            source,
                        ),
                    )
                } else {
                    Ok(v4_prefixes(cidr_blocks(net as nat, addresses)))
                }
            },
        }
    } else {
        match parse.2 {
            Err(cause) => Err(
                invalid_value_message("delegated IPv6 network"@, row[3], record_index, source, cause),
            ),
            Ok(net) => if !parses_within(row[4], u8::MAX as nat) {
                Err(
                    invalid_value_message(
                        "delegated IPv6 prefix length"@,
                        row[4],
                        record_index,
                        source,
                        u8_parse_error_text(row[4]),
                    ),
                )
            } else {
                let len = field_value(row[4]) as u8;
                if len > 128 {
                    Err(length_exceeds_message("delegated IPv6"@, len, "128"@, record_index, source))
                } else {
                    Ok(seq![Prefix { addr: Addr::V6(net), len }])
                }
            },
        }
    }
}

/// Reads one delegated record: the prefixes it allocates, none for a record that
/// loading passes over. `parse` is the reading of the record's start field (the
/// fourth) as an address.
pub fn parse_delegated_record(
    record: &Vec<String>,
    parse: &AddrParse,
    record_index: usize,
    source: &str,
) -> (r: Result<Vec<Prefix>, DataError>)
    ensures
        match delegated_row(row_view(*record), parse@, record_index as nat, source@) {
            Ok(ps) => r matches Ok(v) && v@ == ps,
            Err(msg) => r matches Err(e) && e.kind == ErrorKind::InvalidData && e.message@ == msg,
        },
        record.len() > 6 && (record@[6]@ == "reserved"@ || record@[6]@ == "available"@) ==> (r matches Ok(
            v,
        ) && v.len() == 0),
        record.len() > 5 && record@[5]@ == "summary"@ ==> (r matches Ok(v) && v.len() == 0),
        !(record.len() > 7 && record@[7]@.len() > 0) ==> (r matches Ok(v) && v.len() == 0),
{
    let ghost row = row_view(*record);
    if record.len() < 1 {
        return Ok(Vec::new());
    }
    let rir = record[0].as_str();
    if rir.unicode_len() > 0 && rir.get_char(0) == '#' {
        return Ok(Vec::new());
    }
    if record.len() < 3 {
        return Ok(Vec::new());
    }
    let resource_type = record[2].as_str();
    let is_v4 = str_eq(resource_type, "ipv4");
    if !is_v4 && !str_eq(resource_type, "ipv6") {
        return Ok(Vec::new());
    }
    if record.len() > 5 && str_eq(record[5].as_str(), "summary") {
        return Ok(Vec::new());
    }
    if record.len() > 6 && (str_eq(record[6].as_str(), "reserved") || str_eq(record[6].as_str(), "available")) {
        return Ok(Vec::new());
    }
    if !(record.len() > 7 && !record[7].as_str().is_empty()) {
        return Ok(Vec::new());
    }
    assert(!delegated_skipped(row));
    if is_v4 {
        let net_str = record_field(record, 3, source, record_index, "delegated IPv4")?;
        let len_base_str = record_field(record, 4, source, record_index, "delegated IPv4")?;
        let net = match &parse.v4 {
            Ok(n) => *n,
            Err(cause) => {
                return Err(invalid_value_error("delegated IPv4 network", net_str, record_index, source, cause.as_str()));
            },
        };
        let len_base = match parse_u32(len_base_str) {
            Ok(v) => v,
            Err(cause) => {
                return Err(invalid_value_error("delegated IPv4 allocation size", len_base_str, record_index, source, cause.as_str()));
            },
        };
        let blocks = decompose_ipv4_allocation(net, len_base, source, record_index)?;
        let mut prefixes: Vec<Prefix> = Vec::new();
        let mut j: usize = 0;
        while j < blocks.len()
            invariant
                0 <= j <= blocks.len(),
                prefixes@ == v4_prefixes(blocks@.take(j as int)),
            decreases blocks.len() - j,
        {
            let (block_net, block_len) = blocks[j];
            prefixes.push(Prefix { addr: Addr::V4(block_net), len: block_len });
            j = j + 1;
            assert(prefixes@ =~= v4_prefixes(blocks@.take(j as int)));
        }
        assert(blocks@.take(j as int) =~= blocks@);
        Ok(prefixes)
    } else {
        let net_str = record_field(record, 3, source, record_index, "delegated IPv6")?;
        let len_str = record_field(record, 4, source, record_index, "delegated IPv6")?;
        let net = match &parse.v6 {
            Ok(n) => *n,
            Err(cause) => {
                return Err(invalid_value_error("delegated IPv6 network", net_str, record_index, source, cause.as_str()));
            },
        };
        let len = match parse_u8(len_str) {
            Ok(v) => v,
            Err(cause) => {
                return Err(invalid_value_error("delegated IPv6 prefix length", len_str, record_index, source, cause.as_str()));
            },
        };
        if len > 128 {
            return Err(length_exceeds_error("delegated IPv6", len, "128", record_index, source));
        }
        let mut prefixes: Vec<Prefix> = Vec::new();
        prefixes.push(Prefix { addr: Addr::V6(net), len });
        Ok(prefixes)
    }
}

/// The store after adding `meta` for each prefix of `ps` in turn, and whether every
/// prefix was taken: adding stops at the first prefix the store cannot take.
pub open spec fn added_all(m: StoreView, ps: Seq<Prefix>, meta: MetaView) -> (StoreView, bool)
    decreases ps.len(),
{
    if ps.len() == 0 {
        (m, true)
    } else {
        let prev = added_all(m, ps.drop_last(), meta);
        if !prev.1 {
            prev
        } else if can_add(prev.0, ps.last()) {
            (added(prev.0, ps.last(), meta), true)
        } else {
            (prev.0, false)
        }
    }
}

/// Once adding has stopped, more prefixes change nothing.
proof fn lemma_added_all_stops(m: StoreView, ps: Seq<Prefix>, meta: MetaView, k: nat, n: nat)
    requires
        k <= n <= ps.len(),
        !added_all(m, ps.take(k as int), meta).1,
    ensures
        added_all(m, ps.take(n as int), meta) == added_all(m, ps.take(k as int), meta),
    decreases n - k,
{
    if k < n {
        lemma_added_all_stops(m, ps, meta, k, (n - 1) as nat);
        assert(ps.take(n as int).drop_last() =~= ps.take(n - 1));
    }
}

/// What loading the delegated records `rows[0..n)` into `m` leaves: the prefixes of
/// every record are added in turn until the first invalid record, whose message stops
/// the loading.
pub open spec fn delegated_loaded(
    m: StoreView,
    rows: Seq<Seq<Seq<char>>>,
    parses: Seq<AddrParseView>,
    n: nat,
    source: Seq<char>,
) -> LoadView
    decreases n,
{
    if n == 0 {
        (m, None)
    } else {
        let prev = delegated_loaded(m, rows, parses, (n - 1) as nat, source);
        if prev.1 is Some {
            prev
        } else {
            match delegated_row(rows[n - 1], parses[n - 1], n, source) {
                Err(e) => (prev.0, Some((ErrorKind::InvalidData, e))),
                Ok(ps) => {
                    let a = added_all(prev.0, ps, delegated_meta(rows[n - 1]));
                    if a.1 {
                        (a.0, None)
                    } else {
                        (a.0, Some((ErrorKind::Store, full_store_message())))
                    }
                },
            }
        }
    }
}

/// What loading a delegated table into `m` leaves.
pub open spec fn delegated_load(
    m: StoreView,
    table: TableView,
    parses: Seq<AddrParseView>,
    source: Seq<char>,
) -> LoadView {
    table_loaded(delegated_loaded(m, table.0, parses, table.0.len(), source), table)
}

/// Once loading delegated records has stopped, more records change nothing.
proof fn lemma_delegated_loaded_error_stays(
    m: StoreView,
    rows: Seq<Seq<Seq<char>>>,
    parses: Seq<AddrParseView>,
    k: nat,
    n: nat,
    source: Seq<char>,
)
    requires
        k <= n,
        delegated_loaded(m, rows, parses, k, source).1 is Some,
    ensures
        delegated_loaded(m, rows, parses, n, source) == delegated_loaded(m, rows, parses, k, source),
    decreases n - k,
{
    if k < n {
        lemma_delegated_loaded_error_stays(m, rows, parses, k, (n - 1) as nat, source);
    }
}

/// Every prefix that a delegated record gives fits its family.
proof fn lemma_delegated_prefixes_well_formed(
    row: Seq<Seq<char>>,
    parse: AddrParseView,
    record_index: nat,
    source: Seq<char>,
)
    ensures
        delegated_row(row, parse, record_index, source) matches Ok(ps) ==> forall|i: int|
            0 <= i < ps.len() ==> (#[trigger] ps[i]).well_formed(),
        delegated_row(row, parse, record_index, source) matches Ok(ps) && ps.len() > 0 ==> row.len() > 7,
{
    if !delegated_skipped(row) && row[2] == "ipv4"@ {
        if let Ok(net) = parse.1 {
            let addresses = field_value(row[4]);
            if parses_within(row[4], u32::MAX as nat) && addresses != 0 && net + addresses <= 0x1_0000_0000 {
                vstd::arithmetic::power2::lemma2_to64();
                lemma_cidr_block_lengths(net as nat, addresses);
            }
        }
    }
}

/// Whether the store holds every prefix that a delegated record gives.
pub open spec fn delegated_row_stored(
    m: StoreView,
    row: Seq<Seq<char>>,
    parse: AddrParseView,
    record_index: nat,
    source: Seq<char>,
) -> bool {
    match delegated_row(row, parse, record_index, source) {
        Ok(ps) => forall|k: int| 0 <= k < ps.len() ==> stored_covering(m, (#[trigger] ps[k]).addr, ps[k].len as nat),
        Err(_) => true,
    }
}

/// A store that holds at least the prefixes of another still holds a record's prefixes.
proof fn lemma_delegated_row_stored_grows(
    m1: StoreView,
    m2: StoreView,
    row: Seq<Seq<char>>,
    parse: AddrParseView,
    record_index: nat,
    source: Seq<char>,
)
    requires
        m1.v4.dom().subset_of(m2.v4.dom()),
        m1.v6.dom().subset_of(m2.v6.dom()),
        delegated_row_stored(m1, row, parse, record_index, source),
    ensures
        delegated_row_stored(m2, row, parse, record_index, source),
{
    if let Ok(ps) = delegated_row(row, parse, record_index, source) {
        assert forall|k: int| 0 <= k < ps.len() implies stored_covering(m2, (#[trigger] ps[k]).addr, ps[k].len as nat) by {
            lemma_stored_covering_grows(m1, m2, ps[k].addr, ps[k].len as nat);
        }
    }
}

impl Store {
    /// Loads delegated-statistics records (as read by `delegated_table`) into the
    /// store: each allocated prefix gets the registry that the record names;
    /// `parses` holds the reading of each record's start field (the fourth) as an
    /// address, and `source` names the data in error messages.
    pub fn load_prefixes(&mut self, table: &CsvTable, parses: &Vec<AddrParse>, source: &str) -> (r: Result<(), DataError>)
        requires
            old(self).inv(),
            parses.len() == table.rows.len(),
        ensures
            final(self).inv(),
            load_result_matches(r, delegated_load(old(self)@, table@, parses_view(parses@), source@), final(self)@),
            r is Ok ==> forall|i: int|
                0 <= i < table@.0.len() ==> #[trigger] delegated_row_stored(
                    final(self)@,
                    table@.0[i],
                    parses_view(parses@)[i],
                    (i + 1) as nat,
                    source@,
                ),
    {
        let ghost m0 = self@;
        let ghost pv = parses_view(parses@);
        let mut i: usize = 0;
        while i < table.rows.len()
            invariant
                0 <= i <= table.rows.len(),
                parses.len() == table.rows.len(),
                pv == parses_view(parses@),
                m0 == old(self)@,
                self.inv(),
                delegated_loaded(m0, table@.0, pv, i as nat, source@) == (self@, None::<(ErrorKind, Seq<char>)>),
                forall|j: int| 0 <= j < i ==> #[trigger] delegated_row_stored(self@, table@.0[j], pv[j], (j + 1) as nat, source@),
            decreases table.rows.len() - i,
        {
            let record = &table.rows[i];
            assert(table@.0[i as int] == row_view(*record));
            assert(pv[i as int] == parses@[i as int]@);
            let ghost row = row_view(*record);
            proof {
                lemma_delegated_prefixes_well_formed(row, pv[i as int], (i + 1) as nat, source@);
            }
            let prefixes = match parse_delegated_record(record, &parses[i], i + 1, source) {
                Ok(ps) => ps,
                Err(e) => {
                    proof {
                        assert(delegated_loaded(m0, table@.0, pv, (i + 1) as nat, source@) == (self@, Some((ErrorKind::InvalidData, e.message@))));
                        lemma_delegated_loaded_error_stays(m0, table@.0, pv, (i + 1) as nat, table@.0.len(), source@);
                    }
                    return Err(e);
                },
            };
            if prefixes.len() > 0 {
                let meta = ExtPrefixRecord(Some(RirDelExtRecord { rir: Rir::from(record[0].as_str()) }), None);
                assert(meta@ == delegated_meta(row));
                let ghost start = self@;
                let mut j: usize = 0;
                while j < prefixes.len()
                    invariant
                        0 <= j <= prefixes.len(),
                        0 <= i < table.rows.len(),
                        parses.len() == table.rows.len(),
                        pv == parses_view(parses@),
                        m0 == old(self)@,
                        self.inv(),
                        meta@ == delegated_meta(row),
                        row == table@.0[i as int],
                        delegated_loaded(m0, table@.0, pv, i as nat, source@) == (start, None::<(ErrorKind, Seq<char>)>),
                        delegated_row(row, pv[i as int], (i + 1) as nat, source@) == Ok::<Seq<Prefix>, Seq<char>>(prefixes@),
                        forall|k: int| 0 <= k < prefixes@.len() ==> (#[trigger] prefixes@[k]).well_formed(),
                        added_all(start, prefixes@.take(j as int), meta@) == (self@, true),
                        forall|jj: int| 0 <= jj < i ==> #[trigger] delegated_row_stored(self@, table@.0[jj], pv[jj], (jj + 1) as nat, source@),
                        forall|k: int| 0 <= k < j ==> stored_covering(self@, (#[trigger] prefixes@[k]).addr, prefixes@[k].len as nat),
                    decreases prefixes.len() - j,
                {
                    proof {
                        assert(prefixes@.take(j + 1).drop_last() =~= prefixes@.take(j as int));
                        assert(prefixes@.take(j + 1).last() == prefixes@[j as int]);
                    }
                    let ghost before = self@;
                    match self.add(prefixes[j], meta.duplicate()) {
                        Ok(()) => {
                            proof {
                                assert forall|jj: int| 0 <= jj < i implies #[trigger] delegated_row_stored(self@, table@.0[jj], pv[jj], (jj + 1) as nat, source@) by {
                                    lemma_delegated_row_stored_grows(before, self@, table@.0[jj], pv[jj], (jj + 1) as nat, source@);
                                }
                                assert forall|k: int| 0 <= k <= j implies stored_covering(self@, (#[trigger] prefixes@[k]).addr, prefixes@[k].len as nat) by {
                                    if k < j {
                                        lemma_stored_covering_grows(before, self@, prefixes@[k].addr, prefixes@[k].len as nat);
                                    }
                                }
                            }
                        },
                        Err(cause) => {
                            proof {
                                lemma_added_all_stops(start, prefixes@, meta@, (j + 1) as nat, prefixes@.len());
                                assert(prefixes@.take(prefixes@.len() as int) =~= prefixes@);
                                assert(delegated_loaded(m0, table@.0, pv, (i + 1) as nat, source@) == (self@, Some((ErrorKind::Store, full_store_message()))));
                                lemma_delegated_loaded_error_stays(m0, table@.0, pv, (i + 1) as nat, table@.0.len(), source@);
                            }
                            return Err(store_error(cause));
                        },
                    }
                    j = j + 1;
                }
                assert(prefixes@.take(j as int) =~= prefixes@);
                assert(delegated_row_stored(self@, row, pv[i as int], (i + 1) as nat, source@));
            } else {
                assert(added_all(self@, prefixes@, delegated_meta(row)) == (self@, true));
            }
            i = i + 1;
        }
        match &table.error {
            Some(e) => Err(invalid_data_error(e.clone())),
            None => Ok(()),
        }
    }
}

} // verus!
