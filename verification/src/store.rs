use vstd::prelude::*;
use crate::addr::{covers, lemma_masked_idempotent, lemma_masked_nested, masked, network_addr, Addr, Prefix};
use crate::query::{entry_records, query_view, records_view, MatchOptions, MatchType, QueryResult, QueryView, RecordSet};
use crate::record::{merged, ExtPrefixRecord, MetaView};
use crate::text::text;
use crate::tree::{
    held_by, query_facts, u128_value, u32_value, v4_entries, v4_insert, v4_new, v4_query,
    v4_query_tree, v6_entries, v6_insert, v6_new, v6_query, v6_query_tree, TreeEntry,
    TreeMatchView, V4Tree, V6Tree,
};

verus! {

/// A prefix held by the store, as it was first loaded, with its metadata.
#[derive(Debug)]
pub struct StoredPrefix {
    pub prefix: Prefix,
    pub meta: ExtPrefixRecord,
}

/// A stored prefix as values.
pub type RecordView = (Prefix, MetaView);

impl View for StoredPrefix {
    type V = RecordView;

    open spec fn view(&self) -> RecordView {
        (self.prefix, self.meta@)
    }
}

/// The prefix store: an IPv4 and an IPv6 tree bitmap for longest-prefix matching,
/// whose prefixes carry the position of their record in `records`.
pub struct Store {
    v4: V4Tree,
    v6: V6Tree,
    records: Vec<StoredPrefix>,
}

/// The store as values: what each tree holds and the records.
pub struct StoreView {
    pub v4: Map<(u32, u8), u32>,
    pub v6: Map<(u128, u8), u32>,
    pub records: Seq<RecordView>,
}

/// Whether a record's prefix is the one that a tree key (network, length) of the
/// given width stands for.
pub open spec fn record_fits_key(p: Prefix, width: nat, net: nat, len: u8) -> bool {
    &&& p.addr.width() == width
    &&& p.len == len
    &&& len <= width
    &&& net == masked(p.addr.value(), width, len as nat)
    &&& net == masked(net, width, len as nat)
}

/// The store's invariant: every prefix in a tree points at a record for that prefix,
/// records fit the tree's numbers, and every record's length fits its family.
pub open spec fn store_inv(m: StoreView) -> bool {
    &&& m.records.len() <= u32::MAX + 1
    &&& forall|k: (u32, u8)|
        #[trigger] m.v4.contains_key(k) ==> m.v4[k] < m.records.len() && record_fits_key(
            m.records[m.v4[k] as int].0,
            32,
            k.0 as nat,
            k.1,
        )
    &&& forall|k: (u128, u8)|
        #[trigger] m.v6.contains_key(k) ==> m.v6[k] < m.records.len() && record_fits_key(
            m.records[m.v6[k] as int].0,
            128,
            k.0 as nat,
            k.1,
        )
    &&& forall|i: int| 0 <= i < m.records.len() ==> (#[trigger] m.records[i]).0.well_formed()
}

impl View for Store {
    type V = StoreView;

    closed spec fn view(&self) -> StoreView {
        StoreView {
            v4: v4_entries(self.v4),
            v6: v6_entries(self.v6),
            records: self.records@.map_values(|r: StoredPrefix| r@),
        }
    }
}

impl Store {
    /// The store's invariant, kept by every operation.
    pub open spec fn inv(self) -> bool {
        store_inv(self@)
    }
}

/// The options of a query for one exact prefix, listing nothing else.
pub open spec fn exact_options() -> MatchOptions {
    MatchOptions {
        match_type: MatchType::ExactMatch,
        include_less_specifics: false,
        include_more_specifics: false,
    }
}

/// The store after adding `meta` for the IPv4 prefix `p`: merged into the record of
/// the stored prefix of `p`'s length that an exact query for `p` finds, or kept as a
/// new record.
pub open spec fn added_v4(m: StoreView, p: Prefix, meta: MetaView) -> StoreView {
    let net = masked(p.addr.value(), 32, p.len as nat) as u32;
    match v4_query(m.v4, net, p.len, exact_options()).prefix {
        Some((_, l, Some(i))) if l == p.len => StoreView {
            records: m.records.update(i as int, (m.records[i as int].0, merged(m.records[i as int].1, meta))),
            ..m
        },
        _ => StoreView {
            v4: m.v4.insert((net, p.len), m.records.len() as u32),
            records: m.records.push((p, meta)),
            ..m
        },
    }
}

/// The store after adding `meta` for the IPv6 prefix `p`.
pub open spec fn added_v6(m: StoreView, p: Prefix, meta: MetaView) -> StoreView {
    let net = masked(p.addr.value(), 128, p.len as nat) as u128;
    match v6_query(m.v6, net, p.len, exact_options()).prefix {
        Some((_, l, Some(i))) if l == p.len => StoreView {
            records: m.records.update(i as int, (m.records[i as int].0, merged(m.records[i as int].1, meta))),
            ..m
        },
        _ => StoreView {
            v6: m.v6.insert((net, p.len), m.records.len() as u32),
            records: m.records.push((p, meta)),
            ..m
        },
    }
}

/// Whether two prefixes are the same network: same family, same length, and the same
/// leading bits.
pub open spec fn same_network(a: Prefix, b: Prefix) -> bool {
    &&& a.addr.width() == b.addr.width()
    &&& a.len == b.len
    &&& masked(a.addr.value(), a.addr.width(), a.len as nat) == masked(
        b.addr.value(),
        b.addr.width(),
        b.len as nat,
    )
}

/// Whether adding metadata for `p` merges it into a stored record: an exact query for
/// `p` finds a stored prefix of `p`'s length.
pub open spec fn merges_into_stored(m: StoreView, p: Prefix) -> bool {
    match p.addr {
        Addr::V4(_) => v4_query(m.v4, masked(p.addr.value(), 32, p.len as nat) as u32, p.len, exact_options()).prefix
            matches Some((_, l, Some(_))) && l == p.len,
        Addr::V6(_) => v6_query(m.v6, masked(p.addr.value(), 128, p.len as nat) as u128, p.len, exact_options()).prefix
            matches Some((_, l, Some(_))) && l == p.len,
    }
}

/// Whether the store can take metadata for `p`: it merges into a stored record, or
/// the records can still be numbered by a `u32`.
pub open spec fn can_add(m: StoreView, p: Prefix) -> bool {
    merges_into_stored(m, p) || m.records.len() <= u32::MAX
}

/// The message of a store whose records can take no more numbers.
pub open spec fn full_store_message() -> Seq<char> {
    "the store cannot number any more prefixes"@
}

/// The store after adding `meta` for `p`, in the tree of its family.
pub open spec fn added(m: StoreView, p: Prefix, meta: MetaView) -> StoreView {
    match p.addr {
        Addr::V4(_) => added_v4(m, p, meta),
        Addr::V6(_) => added_v6(m, p, meta),
    }
}

impl Store {
    /// Adds `meta` for `prefix`: merged into the record of the stored prefix that an
    /// exact query finds, or stored as a new prefix with a new record. It fails only
    /// when a new record would need a number beyond `u32`; a failure leaves the store as
    /// it was.
    pub(crate) fn add(&mut self, prefix: Prefix, meta: ExtPrefixRecord) -> (r: Result<(), String>)
        requires
            old(self).inv(),
            prefix.well_formed(),
        ensures
            final(self).inv(),
            r is Ok ==> final(self)@ == added(old(self)@, prefix, meta@),
            r is Ok ==> forall|i: int|
                0 <= i < old(self)@.records.len() && final(self)@.records[i] != old(self)@.records[i]
                    ==> same_network(#[trigger] old(self)@.records[i].0, prefix),
            r is Ok <==> can_add(old(self)@, prefix),
            r is Ok ==> stored_covering(final(self)@, prefix.addr, prefix.len as nat),
            old(self)@.v4.dom().subset_of(final(self)@.v4.dom()),
            old(self)@.v6.dom().subset_of(final(self)@.v6.dom()),
            r matches Err(e) ==> e@ == full_store_message(),
            r is Err ==> final(self)@ == old(self)@,
    {
        let options = MatchOptions {
            match_type: MatchType::ExactMatch,
            include_less_specifics: false,
            include_more_specifics: false,
        };
        let network = network_addr(prefix.addr, prefix.len);
        proof {
            lemma_masked_idempotent(prefix.addr.value(), prefix.addr.width(), prefix.len as nat);
        }
        match network {
            Addr::V4(net) => {
                let q = v4_query_tree(&self.v4, net, prefix.len, &options);
                match q.prefix {
                    Some((a, b, Some(i))) if b == prefix.len => {
                        assert(held_by(v4_entries(self.v4), (a, b, Some(i))));
                        assert(self@.v4.contains_key((a, b)));
                        let i = i as usize;
                        let ghost before = self@;
                        self.records[i].meta.merge_update(meta);
                        proof {
                            assert(self@.records =~= before.records.update(i as int, (before.records[i as int].0, merged(before.records[i as int].1, meta@))));
                            assert(self@.v4 == before.v4);
                            assert(forall|j: int| 0 <= j < self@.records.len() ==> (#[trigger] self@.records[j]).0 == before.records[j].0);
                            assert(q@.prefix == Some((a, b, Some(i as u32))));
                            assert forall|kk: (u32, u8)| #[trigger] self@.v4.contains_key(kk) implies self@.v4[kk] < self@.records.len() && record_fits_key(self@.records[self@.v4[kk] as int].0, 32, kk.0 as nat, kk.1) by {
                                assert(before.v4.contains_key(kk));
                                assert(self@.records[self@.v4[kk] as int].0 == before.records[before.v4[kk] as int].0);
                            }
                            assert forall|kk: (u128, u8)| #[trigger] self@.v6.contains_key(kk) implies self@.v6[kk] < self@.records.len() && record_fits_key(self@.records[self@.v6[kk] as int].0, 128, kk.0 as nat, kk.1) by {
                                assert(before.v6.contains_key(kk));
                                assert(self@.records[self@.v6[kk] as int].0 == before.records[before.v6[kk] as int].0);
                            }
                            assert(self.inv());
                            assert(self@.v4.contains_key((a, (prefix.len as nat) as u8)));
                            assert(a as nat == masked(prefix.addr.value(), 32, prefix.len as nat));
                            assert(stored_covering(self@, prefix.addr, prefix.len as nat));
                        }
                        Ok(())
                    },
                    _ => {
                        if self.records.len() > u32::MAX as usize {
                            return Err(text("the store cannot number any more prefixes"));
                        }
                        let number = self.records.len() as u32;
                        let ghost before = self@;
                        self.records.push(StoredPrefix { prefix, meta });
                        assert(self@.records =~= before.records.push((prefix, meta@)));
                        let r = v4_insert(&mut self.v4, net, prefix.len, number);
                        proof {
                            let k = (net, prefix.len);
                            assert(record_fits_key(prefix, 32, net as nat, prefix.len));
                            assert(forall|j: int| 0 <= j < before.records.len() ==> (#[trigger] self@.records[j]) == before.records[j]);
                            assert forall|kk: (u32, u8)| #[trigger] self@.v4.contains_key(kk) implies self@.v4[kk] < self@.records.len() && record_fits_key(self@.records[self@.v4[kk] as int].0, 32, kk.0 as nat, kk.1) by {
                                if r is Ok && kk == k {
                                } else {
                                    assert(before.v4.contains_key(kk));
                                }
                            }
                            assert(self.inv());
                            assert(self@.v4.contains_key((net, (prefix.len as nat) as u8)));
                            assert(net as nat == masked(prefix.addr.value(), 32, prefix.len as nat));
                            assert(stored_covering(self@, prefix.addr, prefix.len as nat));
                            assert(q@.prefix == q.prefix);
                        }
                        r
                    },
                }
            },
            Addr::V6(net) => {
                let q = v6_query_tree(&self.v6, net, prefix.len, &options);
                match q.prefix {
                    Some((a, b, Some(i))) if b == prefix.len => {
                        assert(held_by(v6_entries(self.v6), (a, b, Some(i))));
                        assert(self@.v6.contains_key((a, b)));
                        let i = i as usize;
                        let ghost before = self@;
                        self.records[i].meta.merge_update(meta);
                        proof {
                            assert(self@.records =~= before.records.update(i as int, (before.records[i as int].0, merged(before.records[i as int].1, meta@))));
                            assert(self@.v6 == before.v6);
                            assert(forall|j: int| 0 <= j < self@.records.len() ==> (#[trigger] self@.records[j]).0 == before.records[j].0);
                            assert(q@.prefix == Some((a, b, Some(i as u32))));
                            assert forall|kk: (u32, u8)| #[trigger] self@.v4.contains_key(kk) implies self@.v4[kk] < self@.records.len() && record_fits_key(self@.records[self@.v4[kk] as int].0, 32, kk.0 as nat, kk.1) by {
                                assert(before.v4.contains_key(kk));
                                assert(self@.records[self@.v4[kk] as int].0 == before.records[before.v4[kk] as int].0);
                            }
                            assert forall|kk: (u128, u8)| #[trigger] self@.v6.contains_key(kk) implies self@.v6[kk] < self@.records.len() && record_fits_key(self@.records[self@.v6[kk] as int].0, 128, kk.0 as nat, kk.1) by {
                                assert(before.v6.contains_key(kk));
                                assert(self@.records[self@.v6[kk] as int].0 == before.records[before.v6[kk] as int].0);
                            }
                            assert(self.inv());
                            assert(self@.v6.contains_key((a, (prefix.len as nat) as u8)));
                            assert(a as nat == masked(prefix.addr.value(), 128, prefix.len as nat));
                            assert(stored_covering(self@, prefix.addr, prefix.len as nat));
                        }
                        Ok(())
                    },
                    _ => {
                        if self.records.len() > u32::MAX as usize {
                            return Err(text("the store cannot number any more prefixes"));
                        }
                        let number = self.records.len() as u32;
                        let ghost before = self@;
                        self.records.push(StoredPrefix { prefix, meta });
                        assert(self@.records =~= before.records.push((prefix, meta@)));
                        let r = v6_insert(&mut self.v6, net, prefix.len, number);
                        proof {
                            let k = (net, prefix.len);
                            assert(record_fits_key(prefix, 128, net as nat, prefix.len));
                            assert(forall|j: int| 0 <= j < before.records.len() ==> (#[trigger] self@.records[j]) == before.records[j]);
                            assert forall|kk: (u128, u8)| #[trigger] self@.v6.contains_key(kk) implies self@.v6[kk] < self@.records.len() && record_fits_key(self@.records[self@.v6[kk] as int].0, 128, kk.0 as nat, kk.1) by {
                                if r is Ok && kk == k {
                                } else {
                                    assert(before.v6.contains_key(kk));
                                }
                            }
                            assert(self.inv());
                            assert(self@.v6.contains_key((net, (prefix.len as nat) as u8)));
                            assert(net as nat == masked(prefix.addr.value(), 128, prefix.len as nat));
                            assert(stored_covering(self@, prefix.addr, prefix.len as nat));
                            assert(q@.prefix == q.prefix);
                        }
                        r
                    },
                }
            },
        }
    }
}

/// What a query of the store for `p` with the given options finds.
/// The tree is searched for the network of `p`.
pub open spec fn query_of(m: StoreView, p: Prefix, options: MatchOptions) -> QueryView {
    match p.addr {
        Addr::V4(a) => query_view(
            m,
            v4_query(m.v4, masked(a as nat, 32, p.len as nat) as u32, p.len, options),
            false,
        ),
        Addr::V6(a) => query_view(
            m,
            v6_query(m.v6, masked(a as nat, 128, p.len as nat) as u128, p.len, options),
            true,
        ),
    }
}

/// A store that holds at least the prefixes of another holds every covering prefix
/// the other holds.
pub proof fn lemma_stored_covering_grows(m1: StoreView, m2: StoreView, a: Addr, l: nat)
    requires
        m1.v4.dom().subset_of(m2.v4.dom()),
        m1.v6.dom().subset_of(m2.v6.dom()),
        stored_covering(m1, a, l),
    ensures
        stored_covering(m2, a, l),
{
    match a {
        Addr::V4(v) => {
            let n = choose|n: u32| #[trigger] m1.v4.contains_key((n, l as u8)) && n as nat == masked(v as nat, 32, l);
            assert(m2.v4.contains_key((n, l as u8)));
        },
        Addr::V6(v) => {
            let n = choose|n: u128| #[trigger] m1.v6.contains_key((n, l as u8)) && n as nat == masked(v as nat, 128, l);
            assert(m2.v6.contains_key((n, l as u8)));
        },
    }
}

/// Whether every listed record is a prefix that covers the searched prefix `p` and is
/// no longer than it (shorter, when `strict`).
pub open spec fn all_less_specific(rs: Seq<RecordView>, p: Prefix, strict: bool) -> bool {
    forall|i: int|
        0 <= i < rs.len() ==> {
            &&& (#[trigger] rs[i]).0.len <= p.len
            &&& strict ==> rs[i].0.len < p.len
            &&& covers(rs[i].0, p.addr)
        }
}

/// Whether every listed record is a prefix longer than the searched prefix `p` that
/// lies inside it: its address agrees with `p`'s in `p`'s bits.
pub open spec fn all_more_specific(rs: Seq<RecordView>, p: Prefix) -> bool {
    forall|i: int|
        0 <= i < rs.len() ==> {
            &&& p.len < (#[trigger] rs[i]).0.len
            &&& covers(p, rs[i].0.addr)
        }
}

/// Whether the store holds a prefix of `l` bits that covers the address `a`.
pub open spec fn stored_covering(m: StoreView, a: Addr, l: nat) -> bool {
    match a {
        Addr::V4(v) => exists|n: u32|
            #[trigger] m.v4.contains_key((n, l as u8)) && n as nat == masked(v as nat, 32, l),
        Addr::V6(v) => exists|n: u128|
            #[trigger] m.v6.contains_key((n, l as u8)) && n as nat == masked(v as nat, 128, l),
    }
}

/// Whether every entry of a reported list points at a record.
pub open spec fn entries_point_into<N>(entries: Option<Seq<TreeEntry<N>>>, n: nat) -> bool {
    entries matches Some(es) ==> forall|i: int|
        0 <= i < es.len() ==> ((#[trigger] es[i]).2 matches Some(k) && k < n)
}

/// The records that reported tree entries point at.
fn entry_refs<'a, N>(records: &'a Vec<StoredPrefix>, entries: Option<Vec<TreeEntry<N>>>) -> (r: Option<Vec<&'a StoredPrefix>>)
    requires
        entries_point_into(
            match entries {
                Some(v) => Some(v@),
                None => None,
            },
            records.len() as nat,
        ),
    ensures
        r is Some <==> entries is Some,
        r matches Some(v) ==> records_view(v) == entry_records(
            records@.map_values(|r: StoredPrefix| r@),
            match entries {
                Some(v) => Some(v@),
                None => None,
            },
        ),
{
    match entries {
        None => None,
        Some(es) => {
            let ghost rv = records@.map_values(|r: StoredPrefix| r@);
            let mut out: Vec<&'a StoredPrefix> = Vec::new();
            let mut i: usize = 0;
            while i < es.len()
                invariant
                    0 <= i <= es.len(),
                    out@.len() == i,
                    rv == records@.map_values(|r: StoredPrefix| r@),
                    forall|j: int| 0 <= j < es@.len() ==> ((#[trigger] es@[j]).2 matches Some(k) && k < records.len()),
                    forall|j: int| 0 <= j < i ==> (#[trigger] out@[j])@ == rv[es@[j].2.unwrap() as int],
                decreases es.len() - i,
            {
                let n = es[i].2.unwrap() as usize;
                out.push(&records[n]);
                i = i + 1;
            }
            assert(records_view(out) =~= es@.map_values(|e: TreeEntry<N>| crate::query::entry_record(rv, e)));
            Some(out)
        },
    }
}

impl Store {
    /// Queries the tree of the prefix's family for `prefix` with the given options.
    pub fn match_longest_prefix(&self, prefix: Prefix, match_options: &MatchOptions) -> (r: QueryResult<'_>)
        requires
            self.inv(),
            prefix.well_formed(),
        ensures
            r@ == query_of(self@, prefix, *match_options),
            r.prefix matches Some(p) ==> p.well_formed() && p.len <= prefix.len && covers(p, prefix.addr)
                && stored_covering(self@, prefix.addr, p.len as nat),
            match_options.match_type == MatchType::LongestMatch ==> match r.prefix {
                Some(p) => forall|l: nat| p.len < l <= prefix.len ==> !stored_covering(self@, prefix.addr, l),
                None => forall|l: nat| 1 <= l <= prefix.len ==> !stored_covering(self@, prefix.addr, l),
            },
            r.match_type == match r.prefix {
                Some(p) => if p.len == prefix.len {
                    MatchType::ExactMatch
                } else {
                    MatchType::LongestMatch
                },
                None => MatchType::EmptyMatch,
            },
            all_less_specific(r.less_specifics@.0, prefix, match_options.match_type == MatchType::LongestMatch),
            all_less_specific(r.less_specifics@.1, prefix, match_options.match_type == MatchType::LongestMatch),
            match_options.match_type != MatchType::EmptyMatch ==> all_more_specific(r.more_specifics@.0, prefix)
                && all_more_specific(r.more_specifics@.1, prefix),
            match_options.match_type == MatchType::ExactMatch && !match_options.include_less_specifics ==> {
                &&& r.prefix matches Some(p) ==> p.len == prefix.len
                &&& prefix.len >= 1 && stored_covering(self@, prefix.addr, prefix.len as nat) ==> r.prefix is Some
            },
    {
        let network = network_addr(prefix.addr, prefix.len);
        proof {
            lemma_masked_idempotent(prefix.addr.value(), prefix.addr.width(), prefix.len as nat);
        }
        match network {
            Addr::V4(addr) => {
                let t = v4_query_tree(&self.v4, addr, prefix.len, match_options);
                proof {
                    self.lemma_reported_entries_point_into_v4(t@, addr, prefix.len, *match_options);
                    self.lemma_search_v4(t@, prefix.addr, prefix.len, *match_options);
                    self.lemma_listed_v4(t@, prefix, *match_options);
                    if let Some(e) = t@.prefix {
                        lemma_masked_nested(prefix.addr.value(), 32, prefix.len as nat, e.1 as nat);
                    }
                }
                let ghost tv = t@;
                let less = RecordSet::from_v4(entry_refs(&self.records, t.less_specifics));
                let more = RecordSet::from_v4(entry_refs(&self.records, t.more_specifics));
                let ghost qv = query_view(self@, tv, false);
                assert(qv == query_of(self@, prefix, *match_options));
                assert(less@ == qv.less_specifics);
                assert(more@ == qv.more_specifics);
                match t.prefix {
                    Some((_, _, Some(i))) => {
                        let i = i as usize;
                        let r = QueryResult {
                            match_type: t.match_type,
                            prefix: Some(self.records[i].prefix),
                            prefix_meta: Some(&self.records[i].meta),
                            less_specifics: less,
                            more_specifics: more,
                        };
                        assert(r@.prefix == qv.prefix);
                        assert(r@.prefix_meta == qv.prefix_meta);
                        assert(r@.match_type == qv.match_type);
                        r
                    },
                    _ => {
                        let r = QueryResult {
                            match_type: MatchType::EmptyMatch,
                            prefix: None,
                            prefix_meta: None,
                            less_specifics: less,
                            more_specifics: more,
                        };
                        assert(tv.prefix is None);
                        assert(r@.prefix == qv.prefix);
                        assert(r@.prefix_meta == qv.prefix_meta);
                        assert(r@.match_type == qv.match_type);
                        r
                    },
                }
            },
            Addr::V6(addr) => {
                let t = v6_query_tree(&self.v6, addr, prefix.len, match_options);
                proof {
                    self.lemma_reported_entries_point_into_v6(t@, addr, prefix.len, *match_options);
                    self.lemma_search_v6(t@, prefix.addr, prefix.len, *match_options);
                    self.lemma_listed_v6(t@, prefix, *match_options);
                    if let Some(e) = t@.prefix {
                        lemma_masked_nested(prefix.addr.value(), 128, prefix.len as nat, e.1 as nat);
                    }
                }
                let ghost tv = t@;
                let less = RecordSet::from_v6(entry_refs(&self.records, t.less_specifics));
                let more = RecordSet::from_v6(entry_refs(&self.records, t.more_specifics));
                let ghost qv = query_view(self@, tv, true);
                assert(qv == query_of(self@, prefix, *match_options));
                assert(less@ == qv.less_specifics);
                assert(more@ == qv.more_specifics);
                match t.prefix {
                    Some((_, _, Some(i))) => {
                        let i = i as usize;
                        let r = QueryResult {
                            match_type: t.match_type,
                            prefix: Some(self.records[i].prefix),
                            prefix_meta: Some(&self.records[i].meta),
                            less_specifics: less,
                            more_specifics: more,
                        };
                        assert(r@.prefix == qv.prefix);
                        assert(r@.prefix_meta == qv.prefix_meta);
                        assert(r@.match_type == qv.match_type);
                        r
                    },
                    _ => {
                        let r = QueryResult {
                            match_type: MatchType::EmptyMatch,
                            prefix: None,
                            prefix_meta: None,
                            less_specifics: less,
                            more_specifics: more,
                        };
                        assert(tv.prefix is None);
                        assert(r@.prefix == qv.prefix);
                        assert(r@.prefix_meta == qv.prefix_meta);
                        assert(r@.match_type == qv.match_type);
                        r
                    },
                }
            },
        }
    }

    /// What the tree's search for the network of `a` of `len` bits shows of the
    /// stored prefixes that cover `a`.
    proof fn lemma_search_v4(&self, t: TreeMatchView<u32>, a: Addr, len: u8, options: MatchOptions)
        requires
            a is V4,
            len <= 32,
            query_facts(
                v4_entries(self.v4),
                t,
                masked(a.value(), 32, len as nat),
                32,
                len,
                options,
                |n: u32| u32_value(n),
            ),
        ensures
            t.prefix matches Some(e) ==> stored_covering(self@, a, e.1 as nat),
            options.match_type == MatchType::LongestMatch ==> match t.prefix {
                Some(e) => forall|l: nat| e.1 < l <= len ==> !stored_covering(self@, a, l),
                None => forall|l: nat| 1 <= l <= len ==> !stored_covering(self@, a, l),
            },
            options.match_type == MatchType::ExactMatch && !options.include_less_specifics && len >= 1
                && stored_covering(self@, a, len as nat) ==> t.prefix is Some,
    {
        let entries = v4_entries(self.v4);
        assert(self@.v4 == entries);
        let v = a.value();
        assert forall|l: nat| l <= len implies #[trigger] masked(masked(v, 32, len as nat), 32, l) == masked(v, 32, l) by {
            lemma_masked_nested(v, 32, len as nat, l);
        }
        if let Some(e) = t.prefix {
            assert(masked(masked(v, 32, len as nat), 32, e.1 as nat) == masked(v, 32, e.1 as nat));
            assert(entries.contains_key((e.0, e.1 as nat as u8)));
        }
        if options.match_type == MatchType::LongestMatch {
            match t.prefix {
                Some(e) => {
                    assert forall|l: nat| e.1 < l <= len implies !stored_covering(self@, a, l) by {
                        assert(masked(masked(v, 32, len as nat), 32, l) == masked(v, 32, l));
                        if stored_covering(self@, a, l) {
                            let n = choose|n: u32| #[trigger] self@.v4.contains_key((n, l as u8)) && n as nat == masked(v, 32, l);
                            assert(entries.contains_key((n, l as u8)));
                        }
                    }
                },
                None => {
                    assert forall|l: nat| 1 <= l <= len implies !stored_covering(self@, a, l) by {
                        assert(masked(masked(v, 32, len as nat), 32, l) == masked(v, 32, l));
                        if stored_covering(self@, a, l) {
                            let n = choose|n: u32| #[trigger] self@.v4.contains_key((n, l as u8)) && n as nat == masked(v, 32, l);
                            assert(entries.contains_key((n, l as u8)));
                        }
                    }
                },
            }
        }
        if options.match_type == MatchType::ExactMatch && !options.include_less_specifics && len >= 1
            && stored_covering(self@, a, len as nat) {
            let n = choose|n: u32| #[trigger] self@.v4.contains_key((n, len as nat as u8)) && n as nat == masked(v, 32, len as nat);
            assert(entries.contains_key((n, len)));
        }
    }

    /// What the tree's search for the network of `a` of `len` bits shows of the
    /// stored prefixes that cover `a`.
    proof fn lemma_search_v6(&self, t: TreeMatchView<u128>, a: Addr, len: u8, options: MatchOptions)
        requires
            a is V6,
            len <= 128,
            query_facts(
                v6_entries(self.v6),
                t,
                masked(a.value(), 128, len as nat),
                128,
                len,
                options,
                |n: u128| u128_value(n),
            ),
        ensures
            t.prefix matches Some(e) ==> stored_covering(self@, a, e.1 as nat),
            options.match_type == MatchType::LongestMatch ==> match t.prefix {
                Some(e) => forall|l: nat| e.1 < l <= len ==> !stored_covering(self@, a, l),
                None => forall|l: nat| 1 <= l <= len ==> !stored_covering(self@, a, l),
            },
            options.match_type == MatchType::ExactMatch && !options.include_less_specifics && len >= 1
                && stored_covering(self@, a, len as nat) ==> t.prefix is Some,
    {
        let entries = v6_entries(self.v6);
        assert(self@.v6 == entries);
        let v = a.value();
        assert forall|l: nat| l <= len implies #[trigger] masked(masked(v, 128, len as nat), 128, l) == masked(v, 128, l) by {
            lemma_masked_nested(v, 128, len as nat, l);
        }
        if let Some(e) = t.prefix {
            assert(masked(masked(v, 128, len as nat), 128, e.1 as nat) == masked(v, 128, e.1 as nat));
            assert(entries.contains_key((e.0, e.1 as nat as u8)));
        }
        if options.match_type == MatchType::LongestMatch {
            match t.prefix {
                Some(e) => {
                    assert forall|l: nat| e.1 < l <= len implies !stored_covering(self@, a, l) by {
                        assert(masked(masked(v, 128, len as nat), 128, l) == masked(v, 128, l));
                        if stored_covering(self@, a, l) {
                            let n = choose|n: u128| #[trigger] self@.v6.contains_key((n, l as u8)) && n as nat == masked(v, 128, l);
                            assert(entries.contains_key((n, l as u8)));
                        }
                    }
                },
                None => {
                    assert forall|l: nat| 1 <= l <= len implies !stored_covering(self@, a, l) by {
                        assert(masked(masked(v, 128, len as nat), 128, l) == masked(v, 128, l));
                        if stored_covering(self@, a, l) {
                            let n = choose|n: u128| #[trigger] self@.v6.contains_key((n, l as u8)) && n as nat == masked(v, 128, l);
                            assert(entries.contains_key((n, l as u8)));
                        }
                    }
                },
            }
        }
        if options.match_type == MatchType::ExactMatch && !options.include_less_specifics && len >= 1
            && stored_covering(self@, a, len as nat) {
            let n = choose|n: u128| #[trigger] self@.v6.contains_key((n, len as nat as u8)) && n as nat == masked(v, 128, len as nat);
            assert(entries.contains_key((n, len)));
        }
    }

    /// The records of the less and more specific prefixes that the tree's search for
    /// the network of `prefix` lists cover it, or lie inside it.
    proof fn lemma_listed_v4(&self, t: TreeMatchView<u32>, prefix: Prefix, options: MatchOptions)
        requires
            self.inv(),
            prefix.addr is V4,
            prefix.len <= 32,
            query_facts(
                v4_entries(self.v4),
                t,
                masked(prefix.addr.value(), 32, prefix.len as nat),
                32,
                prefix.len,
                options,
                |n: u32| u32_value(n),
            ),
        ensures
            all_less_specific(
                entry_records(self@.records, t.less_specifics),
                prefix,
                options.match_type == MatchType::LongestMatch,
            ),
            options.match_type != MatchType::EmptyMatch ==> all_more_specific(
                entry_records(self@.records, t.more_specifics),
                prefix,
            ),
    {
        let entries = v4_entries(self.v4);
        assert(self@.v4 == entries);
        let v = prefix.addr.value();
        let len = prefix.len as nat;
        if let Some(l) = t.less_specifics {
            let rs = entry_records(self@.records, t.less_specifics);
            assert forall|i: int| 0 <= i < rs.len() implies {
                &&& (#[trigger] rs[i]).0.len <= prefix.len
                &&& options.match_type == MatchType::LongestMatch ==> rs[i].0.len < prefix.len
                &&& covers(rs[i].0, prefix.addr)
            } by {
                let e = l[i];
                assert(held_by(entries, e));
                assert(entries.contains_key((e.0, e.1)));
                let q = self@.records[entries[(e.0, e.1)] as int].0;
                assert(rs[i].0 == q);
                assert(record_fits_key(q, 32, e.0 as nat, e.1));
                lemma_masked_nested(v, 32, len, e.1 as nat);
            }
        }
        if let Some(m) = t.more_specifics {
            if options.match_type != MatchType::EmptyMatch {
                let rs = entry_records(self@.records, t.more_specifics);
                assert forall|i: int| 0 <= i < rs.len() implies {
                    &&& prefix.len < (#[trigger] rs[i]).0.len
                    &&& covers(prefix, rs[i].0.addr)
                } by {
                    let e = m[i];
                    assert(held_by(entries, e));
                    assert(entries.contains_key((e.0, e.1)));
                    let q = self@.records[entries[(e.0, e.1)] as int].0;
                    assert(rs[i].0 == q);
                    assert(record_fits_key(q, 32, e.0 as nat, e.1));
                    lemma_masked_nested(q.addr.value(), 32, e.1 as nat, len);
                    lemma_masked_idempotent(v, 32, len);
                }
            }
        }
    }

    /// The records of the less and more specific prefixes that the tree's search for
    /// the network of `prefix` lists cover it, or lie inside it.
    proof fn lemma_listed_v6(&self, t: TreeMatchView<u128>, prefix: Prefix, options: MatchOptions)
        requires
            self.inv(),
            prefix.addr is V6,
            prefix.len <= 128,
            query_facts(
                v6_entries(self.v6),
                t,
                masked(prefix.addr.value(), 128, prefix.len as nat),
                128,
                prefix.len,
                options,
                |n: u128| u128_value(n),
            ),
        ensures
            all_less_specific(
                entry_records(self@.records, t.less_specifics),
                prefix,
                options.match_type == MatchType::LongestMatch,
            ),
            options.match_type != MatchType::EmptyMatch ==> all_more_specific(
                entry_records(self@.records, t.more_specifics),
                prefix,
            ),
    {
        let entries = v6_entries(self.v6);
        assert(self@.v6 == entries);
        let v = prefix.addr.value();
        let len = prefix.len as nat;
        if let Some(l) = t.less_specifics {
            let rs = entry_records(self@.records, t.less_specifics);
            assert forall|i: int| 0 <= i < rs.len() implies {
                &&& (#[trigger] rs[i]).0.len <= prefix.len
                &&& options.match_type == MatchType::LongestMatch ==> rs[i].0.len < prefix.len
                &&& covers(rs[i].0, prefix.addr)
            } by {
                let e = l[i];
                assert(held_by(entries, e));
                assert(entries.contains_key((e.0, e.1)));
                let q = self@.records[entries[(e.0, e.1)] as int].0;
                assert(rs[i].0 == q);
                assert(record_fits_key(q, 128, e.0 as nat, e.1));
                lemma_masked_nested(v, 128, len, e.1 as nat);
            }
        }
        if let Some(m) = t.more_specifics {
            if options.match_type != MatchType::EmptyMatch {
                let rs = entry_records(self@.records, t.more_specifics);
                assert forall|i: int| 0 <= i < rs.len() implies {
                    &&& prefix.len < (#[trigger] rs[i]).0.len
                    &&& covers(prefix, rs[i].0.addr)
                } by {
                    let e = m[i];
                    assert(held_by(entries, e));
                    assert(entries.contains_key((e.0, e.1)));
                    let q = self@.records[entries[(e.0, e.1)] as int].0;
                    assert(rs[i].0 == q);
                    assert(record_fits_key(q, 128, e.0 as nat, e.1));
                    lemma_masked_nested(q.addr.value(), 128, e.1 as nat, len);
                    lemma_masked_idempotent(v, 128, len);
                }
            }
        }
    }

    /// Every entry that an IPv4 query reports points at a record of the store.
    proof fn lemma_reported_entries_point_into_v4(&self, t: TreeMatchView<u32>, net: u32, len: u8, options: MatchOptions)
        requires
            self.inv(),
            query_facts(v4_entries(self.v4), t, net as nat, 32, len, options, |n: u32| u32_value(n)),
        ensures
            entries_point_into(t.less_specifics, self.records.len() as nat),
            entries_point_into(t.more_specifics, self.records.len() as nat),
            t.prefix matches Some(e) ==> (e.2 matches Some(k) && k < self.records.len()
                && record_fits_key(self@.records[k as int].0, 32, e.0 as nat, e.1)
                && e.0 as nat == masked(net as nat, 32, e.1 as nat)),
    {
        let entries = v4_entries(self.v4);
        assert(self@.records.len() == self.records.len());
        assert(self@.v4 == entries);
        if let Some(e) = t.prefix {
            assert(held_by(entries, e));
            assert(entries.contains_key((e.0, e.1)));
        }
        if let Some(l) = t.less_specifics {
            assert forall|i: int| 0 <= i < l.len() implies ((#[trigger] l[i]).2 matches Some(k) && k < self.records.len()) by {
                assert(held_by(entries, l[i]));
                assert(entries.contains_key((l[i].0, l[i].1)));
            }
        }
        if let Some(l) = t.more_specifics {
            assert forall|i: int| 0 <= i < l.len() implies ((#[trigger] l[i]).2 matches Some(k) && k < self.records.len()) by {
                assert(held_by(entries, l[i]));
                assert(entries.contains_key((l[i].0, l[i].1)));
            }
        }
    }

    /// Every entry that an IPv6 query reports points at a record of the store.
    proof fn lemma_reported_entries_point_into_v6(&self, t: TreeMatchView<u128>, net: u128, len: u8, options: MatchOptions)
        requires
            self.inv(),
            query_facts(v6_entries(self.v6), t, net as nat, 128, len, options, |n: u128| u128_value(n)),
        ensures
            entries_point_into(t.less_specifics, self.records.len() as nat),
            entries_point_into(t.more_specifics, self.records.len() as nat),
            t.prefix matches Some(e) ==> (e.2 matches Some(k) && k < self.records.len()
                && record_fits_key(self@.records[k as int].0, 128, e.0 as nat, e.1)
                && e.0 as nat == masked(net as nat, 128, e.1 as nat)),
    {
        let entries = v6_entries(self.v6);
        assert(self@.records.len() == self.records.len());
        assert(self@.v6 == entries);
        if let Some(e) = t.prefix {
            assert(held_by(entries, e));
            assert(entries.contains_key((e.0, e.1)));
        }
        if let Some(l) = t.less_specifics {
            assert forall|i: int| 0 <= i < l.len() implies ((#[trigger] l[i]).2 matches Some(k) && k < self.records.len()) by {
                assert(held_by(entries, l[i]));
                assert(entries.contains_key((l[i].0, l[i].1)));
            }
        }
        if let Some(l) = t.more_specifics {
            assert forall|i: int| 0 <= i < l.len() implies ((#[trigger] l[i]).2 matches Some(k) && k < self.records.len()) by {
                assert(held_by(entries, l[i]));
                assert(entries.contains_key((l[i].0, l[i].1)));
            }
        }
    }
}

impl Default for Store {
    /// An empty store, with an IPv4 and an IPv6 tree of 4-bit strides.
    fn default() -> (s: Store)
        ensures
            s.inv(),
            s@.v4.dom().is_empty(),
            s@.v6.dom().is_empty(),
            s@.records.len() == 0,
    {
        let strides_v4 = vec![4u8];
        assert(strides_v4@ =~= seq![4u8]);
        let strides_v6 = vec![4u8];
        assert(strides_v6@ =~= seq![4u8]);
        let s = Store { v4: v4_new(strides_v4), v6: v6_new(strides_v6), records: Vec::new() };
        assert(s@.records =~= Seq::<RecordView>::empty());
        s
    }
}

} // verus!
