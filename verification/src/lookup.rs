use vstd::prelude::*;
use crate::addr::{covers, lemma_masked_nested, network_addr, network_of, Addr, Prefix};
use crate::query::{MatchOptions, MatchType, QueryResult, QueryView};
use crate::record::{Asn, ExtPrefixRecord, MetaView, RisOrigin};
use crate::store::{exact_options, query_of, stored_covering, Store, StoreView};
use crate::text::{join, str_eq, text};

verus! {

/// How a lookup picks the prefix it reports: `Validation` reports the longest
/// matching prefix as it is; `Overview` falls back to the longest less specific
/// prefix with a visible origin when the longest match shows none.
#[derive(Clone, Copy, Debug, PartialEq, Eq, Structural)]
pub enum LookupMode {
    Validation,
    Overview,
}

/// The mode that a name selects: `validation` (also `exact`, `current`) or
/// `overview` (also `ripe`, `ripe-fallback`, `ripe_fallback`); `None` for any other.
pub open spec fn mode_named(s: Seq<char>) -> Option<LookupMode> {
    if s == "validation"@ || s == "exact"@ || s == "current"@ {
        Some(LookupMode::Validation)
    } else if s == "overview"@ || s == "ripe"@ || s == "ripe-fallback"@ || s == "ripe_fallback"@ {
        Some(LookupMode::Overview)
    } else {
        None
    }
}

/// The message for a name that selects no mode.
pub open spec fn invalid_mode_message(s: Seq<char>) -> Seq<char> {
    "invalid lookup mode '"@ + s + "': expected 'validation' or 'overview'"@
}

/// The canonical name of a mode.
pub open spec fn mode_text(m: LookupMode) -> Seq<char> {
    match m {
        LookupMode::Validation => "validation"@,
        LookupMode::Overview => "overview"@,
    }
}

impl LookupMode {
    /// The mode that `mode` names, or an error message for a name of no mode.
    pub fn parse(mode: &str) -> (r: Result<LookupMode, String>)
        ensures
            match mode_named(mode@) {
                Some(m) => r == Ok::<LookupMode, String>(m),
                None => r matches Err(e) && e@ == invalid_mode_message(mode@),
            },
    {
        if str_eq(mode, "validation") || str_eq(mode, "exact") || str_eq(mode, "current") {
            Ok(LookupMode::Validation)
        } else if str_eq(mode, "overview") || str_eq(mode, "ripe") || str_eq(mode, "ripe-fallback")
            || str_eq(mode, "ripe_fallback") {
            Ok(LookupMode::Overview)
        } else {
            let m = text("invalid lookup mode '");
            let m = join(m, mode);
            Err(join(m, "': expected 'validation' or 'overview'"))
        }
    }

    /// The canonical name of the mode.
    pub fn as_str(self) -> (s: &'static str)
        ensures
            s@ == mode_text(self),
    {
        match self {
            LookupMode::Validation => "validation",
            LookupMode::Overview => "overview",
        }
    }
}

/// A mode's canonical name selects that mode.
pub proof fn lemma_mode_text_selects_mode(m: LookupMode)
    ensures
        mode_named(mode_text(m)) == Some(m),
{
    reveal_strlit("validation");
    reveal_strlit("exact");
    reveal_strlit("current");
    reveal_strlit("overview");
    reveal_strlit("ripe");
    reveal_strlit("ripe-fallback");
    reveal_strlit("ripe_fallback");
    assert("overview"@[0] != "validation"@[0]);
    assert("overview"@[0] != "exact"@[0]);
    assert("overview"@[0] != "current"@[0]);
}

/// Whether an origin is visible at a minimum peer count: it gives no peer count, or
/// one of at least the minimum.
pub open spec fn visible(o: RisOrigin, min_peer_count: u32) -> bool {
    !(o.peer_count matches Some(pc) && pc < min_peer_count)
}

/// The RIS origins of a prefix's metadata, none when there is no RIS data.
pub open spec fn ris_origins(meta: Option<MetaView>) -> Seq<RisOrigin> {
    match meta {
        Some(m) => match m.1 {
            Some(os) => os,
            None => Seq::empty(),
        },
        None => Seq::empty(),
    }
}

/// The ASNs of the visible origins, each once, in order of first appearance.
pub open spec fn selected_asns(os: Seq<RisOrigin>, min_peer_count: u32) -> Seq<Asn>
    decreases os.len(),
{
    if os.len() == 0 {
        Seq::empty()
    } else {
        let prev = selected_asns(os.drop_last(), min_peer_count);
        let o = os.last();
        if visible(o, min_peer_count) && !prev.contains(o.asn) {
            prev.push(o.asn)
        } else {
            prev
        }
    }
}

/// Whether a list of (ASN, count) pairs has a pair for `a`.
pub open spec fn has_count(s: Seq<(Asn, u32)>, a: Asn) -> bool {
    exists|k: int| 0 <= k < s.len() && (#[trigger] s[k]).0 == a
}

/// The position of a pair for `a` in a list of (ASN, count) pairs that has one.
pub open spec fn count_index(s: Seq<(Asn, u32)>, a: Asn) -> int {
    choose|k: int| 0 <= k < s.len() && (#[trigger] s[k]).0 == a
}

/// For each ASN of a visible origin that gives a peer count, the largest such count,
/// in order of first appearance.
pub open spec fn selected_counts(os: Seq<RisOrigin>, min_peer_count: u32) -> Seq<(Asn, u32)>
    decreases os.len(),
{
    if os.len() == 0 {
        Seq::empty()
    } else {
        let prev = selected_counts(os.drop_last(), min_peer_count);
        let o = os.last();
        match o.peer_count {
            Some(pc) => if !visible(o, min_peer_count) {
                prev
            } else if has_count(prev, o.asn) {
                let k = count_index(prev, o.asn);
                prev.update(k, (o.asn, if prev[k].1 >= pc { prev[k].1 } else { pc }))
            } else {
                prev.push((o.asn, pc))
            },
            None => prev,
        }
    }
}

/// The largest count of a list of (ASN, count) pairs, `None` for an empty list.
pub open spec fn max_count(s: Seq<(Asn, u32)>) -> Option<u32>
    decreases s.len(),
{
    if s.len() == 0 {
        None
    } else {
        match max_count(s.drop_last()) {
            None => Some(s.last().1),
            Some(m) => Some(if m >= s.last().1 { m } else { s.last().1 }),
        }
    }
}

/// The ASNs of `selected_counts` are distinct.
pub proof fn lemma_selected_counts_distinct(os: Seq<RisOrigin>, min_peer_count: u32)
    ensures
        forall|i: int, j: int|
            0 <= i < j < selected_counts(os, min_peer_count).len() ==> (#[trigger] selected_counts(
                os,
                min_peer_count,
            )[i]).0 != (#[trigger] selected_counts(os, min_peer_count)[j]).0,
    decreases os.len(),
{
    if os.len() > 0 {
        lemma_selected_counts_distinct(os.drop_last(), min_peer_count);
        let prev = selected_counts(os.drop_last(), min_peer_count);
        let o = os.last();
        if let Some(pc) = o.peer_count {
            if visible(o, min_peer_count) && has_count(prev, o.asn) {
                let k = count_index(prev, o.asn);
                let cur = selected_counts(os, min_peer_count);
                assert forall|i: int, j: int| 0 <= i < j < cur.len() implies (#[trigger] cur[i]).0 != (#[trigger] cur[j]).0 by {
                    assert(prev[i].0 != prev[j].0);
                }
            }
        }
    }
}

/// Whether the list `v` holds `a`.
fn contains_asn(v: &Vec<Asn>, a: Asn) -> (r: bool)
    ensures
        r == v@.contains(a),
{
    let mut i: usize = 0;
    while i < v.len()
        invariant
            0 <= i <= v.len(),
            forall|j: int| 0 <= j < i ==> v@[j] != a,
        decreases v.len() - i,
    {
        if v[i] == a {
            return true;
        }
        i = i + 1;
    }
    false
}

/// The position of the pair for `a` in a list of (ASN, count) pairs, if it has one.
fn find_count(v: &Vec<(Asn, u32)>, a: Asn) -> (r: Option<usize>)
    ensures
        r matches Some(k) ==> k < v.len() && v@[k as int].0 == a,
        r is None ==> !has_count(v@, a),
{
    let mut i: usize = 0;
    while i < v.len()
        invariant
            0 <= i <= v.len(),
            forall|j: int| 0 <= j < i ==> (#[trigger] v@[j]).0 != a,
        decreases v.len() - i,
    {
        if v[i].0 == a {
            return Some(i);
        }
        i = i + 1;
    }
    None
}

/// The origins that a lookup reports for a prefix: the prefix, the ASNs of its
/// visible origins, the largest peer count of each of them, and the largest of all.
pub struct OriginSelection {
    pub prefix: Option<Prefix>,
    pub origin_asns: Vec<Asn>,
    pub origin_peer_counts: Vec<(Asn, u32)>,
    pub peer_count: Option<u32>,
}

/// A selection as values.
pub type SelectionView = (Option<Prefix>, Seq<Asn>, Seq<(Asn, u32)>, Option<u32>);

impl View for OriginSelection {
    type V = SelectionView;

    open spec fn view(&self) -> SelectionView {
        (self.prefix, self.origin_asns@, self.origin_peer_counts@, self.peer_count)
    }
}

/// Whether a report's figures agree with the minimum peer count: every reported count
/// is at least the minimum and belongs to a reported ASN, and the peer count is the
/// largest reported count, none when no count is reported.
pub open spec fn counts_reported(
    asns: Seq<Asn>,
    counts: Seq<(Asn, u32)>,
    peer_count: Option<u32>,
    min_peer_count: u32,
) -> bool {
    &&& forall|k: int|
        0 <= k < counts.len() ==> (#[trigger] counts[k]).1 >= min_peer_count && asns.contains(
            counts[k].0,
        )
    &&& (peer_count is None <==> counts.len() == 0)
    &&& (peer_count matches Some(m) ==> (exists|k: int| 0 <= k < counts.len() && (#[trigger] counts[k]).1 == m))
    &&& (peer_count matches Some(m) ==> (forall|k: int| 0 <= k < counts.len() ==> (#[trigger] counts[k]).1 <= m))
}

/// The metadata of a prefix, as values, when there is one.
pub open spec fn meta_view(meta: Option<&ExtPrefixRecord>) -> Option<MetaView> {
    match meta {
        Some(m) => Some(m@),
        None => None,
    }
}

/// The selection of origins of `prefix` with metadata `meta`.
pub open spec fn selection_of(prefix: Option<Prefix>, meta: Option<MetaView>, min_peer_count: u32) -> SelectionView {
    let os = ris_origins(meta);
    (
        prefix,
        selected_asns(os, min_peer_count),
        selected_counts(os, min_peer_count),
        max_count(selected_counts(os, min_peer_count)),
    )
}

/// Selects the origins of `prefix` that a lookup reports: those whose peer count, when
/// they give one, is at least `min_peer_count`.
pub fn select_origins(prefix: Option<Prefix>, meta: Option<&ExtPrefixRecord>, min_peer_count: u32) -> (r: OriginSelection)
    ensures
        r@ == selection_of(
            prefix,
            match meta {
                Some(m) => Some(m@),
                None => None,
            },
            min_peer_count,
        ),
        counts_reported(r.origin_asns@, r.origin_peer_counts@, r.peer_count, min_peer_count),
        forall|a: Asn|
            #[trigger] r.origin_asns@.contains(a) <==> exists|i: int|
                0 <= i < ris_origins(meta_view(meta)).len() && visible(
                    #[trigger] ris_origins(meta_view(meta))[i],
                    min_peer_count,
                ) && ris_origins(meta_view(meta))[i].asn == a,
        forall|i: int, j: int|
            0 <= i < j < r.origin_asns@.len() ==> #[trigger] r.origin_asns@[i] != #[trigger] r.origin_asns@[j],
{
    let ghost mv = match meta {
        Some(m) => Some(m@),
        None => None,
    };
    let ghost os = ris_origins(mv);
    let mut origin_asns: Vec<Asn> = Vec::new();
    let mut origin_peer_counts: Vec<(Asn, u32)> = Vec::new();
    if let Some(meta) = meta {
        if let Some(ris) = &meta.1 {
            assert(os == ris.origins@);
            let mut i: usize = 0;
            while i < ris.origins.len()
                invariant
                    0 <= i <= ris.origins.len(),
                    os == ris.origins@,
                    origin_asns@ == selected_asns(os.take(i as int), min_peer_count),
                    origin_peer_counts@ == selected_counts(os.take(i as int), min_peer_count),
                decreases ris.origins.len() - i,
            {
                let origin = ris.origins[i];
                let ghost prefix_os = os.take(i + 1);
                assert(prefix_os.drop_last() =~= os.take(i as int));
                assert(prefix_os.last() == origin);
                let skip = match origin.peer_count {
                    Some(pc) => pc < min_peer_count,
                    None => false,
                };
                if !skip {
                    if !contains_asn(&origin_asns, origin.asn) {
                        origin_asns.push(origin.asn);
                    }
                    if let Some(pc) = origin.peer_count {
                        proof {
                            lemma_selected_counts_distinct(os.take(i as int), min_peer_count);
                        }
                        match find_count(&origin_peer_counts, origin.asn) {
                            Some(k) => {
                                let current = origin_peer_counts[k].1;
                                let best = if current >= pc { current } else { pc };
                                proof {
                                    let prev = origin_peer_counts@;
                                    assert(has_count(prev, origin.asn));
                                    let c = count_index(prev, origin.asn);
                                    assert(c == k);
                                }
                                origin_peer_counts.set(k, (origin.asn, best));
                            },
                            None => {
                                origin_peer_counts.push((origin.asn, pc));
                            },
                        }
                    }
                }
                i = i + 1;
            }
            assert(os.take(i as int) =~= os);
        }
    }
    let mut peer_count: Option<u32> = None;
    let mut j: usize = 0;
    while j < origin_peer_counts.len()
        invariant
            0 <= j <= origin_peer_counts.len(),
            peer_count == max_count(origin_peer_counts@.take(j as int)),
        decreases origin_peer_counts.len() - j,
    {
        let c = origin_peer_counts[j].1;
        assert(origin_peer_counts@.take(j + 1).drop_last() =~= origin_peer_counts@.take(j as int));
        peer_count = match peer_count {
            None => Some(c),
            Some(m) => Some(if m >= c { m } else { c }),
        };
        j = j + 1;
    }
    assert(origin_peer_counts@.take(j as int) =~= origin_peer_counts@);
    proof {
        lemma_max_count(origin_peer_counts@);
        lemma_selected_counts(os, min_peer_count);
        lemma_selected_asns(os, min_peer_count);
        let counts = origin_peer_counts@;
        assert forall|k: int| 0 <= k < counts.len() implies (#[trigger] counts[k]).1 >= min_peer_count
            && origin_asns@.contains(counts[k].0) by {
            let i = choose|i: int| 0 <= i < os.len() && visible(#[trigger] os[i], min_peer_count) && os[i].asn
                == counts[k].0 && os[i].peer_count == Some(counts[k].1);
            assert(visible(os[i], min_peer_count));
        }
    }
    OriginSelection { prefix, origin_asns, origin_peer_counts, peer_count }
}

/// The selected ASNs are those of the visible origins, each listed once.
pub proof fn lemma_selected_asns(os: Seq<RisOrigin>, min_peer_count: u32)
    ensures
        forall|i: int, j: int|
            0 <= i < j < selected_asns(os, min_peer_count).len() ==> #[trigger] selected_asns(
                os,
                min_peer_count,
            )[i] != #[trigger] selected_asns(os, min_peer_count)[j],
        forall|a: Asn|
            #[trigger] selected_asns(os, min_peer_count).contains(a) <==> exists|i: int|
                0 <= i < os.len() && visible(#[trigger] os[i], min_peer_count) && os[i].asn == a,
    decreases os.len(),
{
    if os.len() > 0 {
        let rest = os.drop_last();
        lemma_selected_asns(rest, min_peer_count);
        let prev = selected_asns(rest, min_peer_count);
        let cur = selected_asns(os, min_peer_count);
        let o = os.last();
        assert forall|i: int, j: int| 0 <= i < j < cur.len() implies #[trigger] cur[i] != #[trigger] cur[j] by {
            if j == prev.len() {
                assert(cur[i] == prev[i]);
            }
        }
        assert forall|a: Asn| #[trigger] cur.contains(a) <==> exists|i: int|
            0 <= i < os.len() && visible(#[trigger] os[i], min_peer_count) && os[i].asn == a by {
            if cur.contains(a) {
                if prev.contains(a) {
                    let i = choose|i: int| 0 <= i < rest.len() && visible(#[trigger] rest[i], min_peer_count) && rest[i].asn == a;
                    assert(os[i] == rest[i]);
                } else {
                    let k = choose|k: int| 0 <= k < cur.len() && cur[k] == a;
                    assert(k == prev.len());
                    assert(os[os.len() - 1] == o);
                }
            }
            if exists|i: int| 0 <= i < os.len() && visible(#[trigger] os[i], min_peer_count) && os[i].asn == a {
                let i = choose|i: int| 0 <= i < os.len() && visible(#[trigger] os[i], min_peer_count) && os[i].asn == a;
                if i < os.len() - 1 {
                    assert(rest[i] == os[i]);
                    assert(prev.contains(a));
                    let k = choose|k: int| 0 <= k < prev.len() && prev[k] == a;
                    assert(cur[k] == a);
                } else {
                    if !prev.contains(a) {
                        assert(cur[prev.len() as int] == a);
                    } else {
                        let k = choose|k: int| 0 <= k < prev.len() && prev[k] == a;
                        assert(cur[k] == a);
                    }
                }
            }
        }
    }
}

/// Each selected count is the largest peer count that a visible origin of its ASN
/// gives, and every visible origin that gives a peer count has its ASN counted.
pub proof fn lemma_selected_counts(os: Seq<RisOrigin>, min_peer_count: u32)
    ensures
        forall|k: int|
            0 <= k < selected_counts(os, min_peer_count).len() ==> exists|i: int|
                0 <= i < os.len() && visible(#[trigger] os[i], min_peer_count) && os[i].asn
                    == (#[trigger] selected_counts(os, min_peer_count)[k]).0 && os[i].peer_count
                    == Some(selected_counts(os, min_peer_count)[k].1),
        forall|k: int, i: int|
            0 <= k < selected_counts(os, min_peer_count).len() && 0 <= i < os.len() && visible(
                #[trigger] os[i],
                min_peer_count,
            ) && os[i].asn == (#[trigger] selected_counts(os, min_peer_count)[k]).0
                && os[i].peer_count is Some ==> os[i].peer_count.unwrap() <= selected_counts(
                os,
                min_peer_count,
            )[k].1,
        forall|i: int|
            0 <= i < os.len() && visible(#[trigger] os[i], min_peer_count) && os[i].peer_count is Some
                ==> has_count(selected_counts(os, min_peer_count), os[i].asn),
    decreases os.len(),
{
    lemma_selected_counts_distinct(os, min_peer_count);
    if os.len() > 0 {
        let rest = os.drop_last();
        lemma_selected_counts(rest, min_peer_count);
        lemma_selected_counts_distinct(rest, min_peer_count);
        let prev = selected_counts(rest, min_peer_count);
        let cur = selected_counts(os, min_peer_count);
        let o = os.last();
        let n = os.len() - 1;
        assert(os[n] == o);
        assert forall|i: int| 0 <= i < n implies #[trigger] os[i] == rest[i] by {}
        if o.peer_count is Some && visible(o, min_peer_count) {
            let pc = o.peer_count.unwrap();
            if has_count(prev, o.asn) {
                let c = count_index(prev, o.asn);
                assert forall|k: int| 0 <= k < cur.len() implies exists|i: int|
                    0 <= i < os.len() && visible(#[trigger] os[i], min_peer_count) && os[i].asn == (#[trigger] cur[k]).0
                        && os[i].peer_count == Some(cur[k].1) by {
                    if k == c {
                        if prev[c].1 >= pc {
                            let i = choose|i: int| 0 <= i < rest.len() && visible(#[trigger] rest[i], min_peer_count) && rest[i].asn == prev[c].0 && rest[i].peer_count == Some(prev[c].1);
                            assert(os[i] == rest[i]);
                        } else {
                            assert(os[n] == o);
                        }
                    } else {
                        assert(cur[k] == prev[k]);
                        let i = choose|i: int| 0 <= i < rest.len() && visible(#[trigger] rest[i], min_peer_count) && rest[i].asn == prev[k].0 && rest[i].peer_count == Some(prev[k].1);
                        assert(os[i] == rest[i]);
                    }
                }
                assert forall|k: int, i: int| 0 <= k < cur.len() && 0 <= i < os.len() && visible(#[trigger] os[i], min_peer_count)
                    && os[i].asn == (#[trigger] cur[k]).0 && os[i].peer_count is Some implies os[i].peer_count.unwrap() <= cur[k].1 by {
                    if i < n {
                        assert(os[i] == rest[i]);
                        assert(prev[k].1 <= cur[k].1);
                    } else {
                        if k != c {
                            assert(prev[k].0 != prev[c].0);
                        }
                    }
                }
                assert forall|i: int| 0 <= i < os.len() && visible(#[trigger] os[i], min_peer_count) && os[i].peer_count is Some
                    implies has_count(cur, os[i].asn) by {
                    if i < n {
                        assert(os[i] == rest[i]);
                        let k = choose|k: int| 0 <= k < prev.len() && (#[trigger] prev[k]).0 == os[i].asn;
                        assert(cur[k].0 == os[i].asn);
                    } else {
                        assert(cur[c].0 == o.asn);
                    }
                }
            } else {
                assert forall|k: int| 0 <= k < cur.len() implies exists|i: int|
                    0 <= i < os.len() && visible(#[trigger] os[i], min_peer_count) && os[i].asn == (#[trigger] cur[k]).0
                        && os[i].peer_count == Some(cur[k].1) by {
                    if k < prev.len() {
                        assert(cur[k] == prev[k]);
                        let i = choose|i: int| 0 <= i < rest.len() && visible(#[trigger] rest[i], min_peer_count) && rest[i].asn == prev[k].0 && rest[i].peer_count == Some(prev[k].1);
                        assert(os[i] == rest[i]);
                    } else {
                        assert(os[n] == o);
                    }
                }
                assert forall|k: int, i: int| 0 <= k < cur.len() && 0 <= i < os.len() && visible(#[trigger] os[i], min_peer_count)
                    && os[i].asn == (#[trigger] cur[k]).0 && os[i].peer_count is Some implies os[i].peer_count.unwrap() <= cur[k].1 by {
                    if i < n {
                        assert(os[i] == rest[i]);
                        if k == prev.len() {
                            assert(has_count(prev, os[i].asn));
                        } else {
                            assert(cur[k] == prev[k]);
                        }
                    } else {
                        if k < prev.len() {
                            assert(prev[k].0 == o.asn);
                            assert(has_count(prev, o.asn));
                        }
                    }
                }
                assert forall|i: int| 0 <= i < os.len() && visible(#[trigger] os[i], min_peer_count) && os[i].peer_count is Some
                    implies has_count(cur, os[i].asn) by {
                    if i < n {
                        assert(os[i] == rest[i]);
                        let k = choose|k: int| 0 <= k < prev.len() && (#[trigger] prev[k]).0 == os[i].asn;
                        assert(cur[k].0 == os[i].asn);
                    } else {
                        assert(cur[prev.len() as int].0 == o.asn);
                    }
                }
            }
        } else {
            assert(cur == prev);
            assert forall|k: int| 0 <= k < cur.len() implies exists|i: int|
                0 <= i < os.len() && visible(#[trigger] os[i], min_peer_count) && os[i].asn == (#[trigger] cur[k]).0
                    && os[i].peer_count == Some(cur[k].1) by {
                let i = choose|i: int| 0 <= i < rest.len() && visible(#[trigger] rest[i], min_peer_count) && rest[i].asn == prev[k].0 && rest[i].peer_count == Some(prev[k].1);
                assert(os[i] == rest[i]);
            }
            assert forall|k: int, i: int| 0 <= k < cur.len() && 0 <= i < os.len() && visible(#[trigger] os[i], min_peer_count)
                && os[i].asn == (#[trigger] cur[k]).0 && os[i].peer_count is Some implies os[i].peer_count.unwrap() <= cur[k].1 by {
                if i < n {
                    assert(os[i] == rest[i]);
                }
            }
            assert forall|i: int| 0 <= i < os.len() && visible(#[trigger] os[i], min_peer_count) && os[i].peer_count is Some
                implies has_count(cur, os[i].asn) by {
                if i < n {
                    assert(os[i] == rest[i]);
                }
            }
        }
    }
}

/// The largest count is one of the counts and no count exceeds it; there is none only
/// for an empty list.
pub proof fn lemma_max_count(s: Seq<(Asn, u32)>)
    ensures
        max_count(s) is None <==> s.len() == 0,
        max_count(s) matches Some(m) ==> (exists|k: int| 0 <= k < s.len() && (#[trigger] s[k]).1 == m)
            && (forall|k: int| 0 <= k < s.len() ==> (#[trigger] s[k]).1 <= m),
    decreases s.len(),
{
    if s.len() > 0 {
        let rest = s.drop_last();
        lemma_max_count(rest);
        let n = s.len() - 1;
        assert forall|k: int| 0 <= k < n implies #[trigger] s[k] == rest[k] by {}
        match max_count(rest) {
            None => {
                assert(s[n].1 == s.last().1);
            },
            Some(m) => {
                let k = choose|k: int| 0 <= k < rest.len() && (#[trigger] rest[k]).1 == m;
                assert(s[k].1 == m);
                assert(s[n].1 == s.last().1);
            },
        }
    }
}

/// The options of a lookup's first query: the longest match, listing the less and
/// more specific prefixes.
pub open spec fn lookup_options() -> MatchOptions {
    MatchOptions {
        match_type: MatchType::LongestMatch,
        include_less_specifics: true,
        include_more_specifics: true,
    }
}

/// The options of a lookup's first query.
pub fn default_match_options() -> (o: MatchOptions)
    ensures
        o == lookup_options(),
{
    MatchOptions {
        match_type: MatchType::LongestMatch,
        include_less_specifics: true,
        include_more_specifics: true,
    }
}

/// Queries the store for exactly `prefix`, listing nothing else.
pub fn exact_match_query<'a>(store: &'a Store, prefix: Prefix) -> (r: QueryResult<'a>)
    requires
        store.inv(),
        prefix.well_formed(),
    ensures
        r@ == query_of(store@, prefix, exact_options()),
        r.prefix matches Some(p) ==> p.well_formed() && p.len <= prefix.len && covers(p, prefix.addr),
{
    store.match_longest_prefix(
        prefix,
        &MatchOptions {
            match_type: MatchType::ExactMatch,
            include_less_specifics: false,
            include_more_specifics: false,
        },
    )
}

/// The prefix of all the bits of an address.
pub open spec fn host_prefix(a: Addr) -> Prefix {
    Prefix { addr: a, len: a.width() as u8 }
}

/// The first stored prefix, trying the networks of `matched` of length `l - 1` down to
/// 0, that an exact query finds with at least one visible origin.
pub open spec fn fallback_search(m: StoreView, matched: Prefix, l: nat, min_peer_count: u32) -> Option<QueryView>
    decreases l,
{
    if l == 0 {
        None
    } else {
        let c = (l - 1) as nat;
        let q = query_of(m, Prefix { addr: network_of(matched.addr, c), len: c as u8 }, exact_options());
        if q.prefix is Some && selected_asns(ris_origins(q.prefix_meta), min_peer_count).len() > 0 {
            Some(q)
        } else {
            fallback_search(m, matched, c, min_peer_count)
        }
    }
}

/// What a lookup of one address reports: the prefix chosen with its origins, the
/// longest matching prefix, whether the chosen one is less specific than it, the mode,
/// and the kind of the longest match.
pub struct Lookup {
    pub prefix: Option<Prefix>,
    pub matched_prefix: Option<Prefix>,
    pub origin_asns: Vec<Asn>,
    pub origin_peer_counts: Vec<(Asn, u32)>,
    pub peer_count: Option<u32>,
    pub is_less_specific: bool,
    pub mode: LookupMode,
    pub match_type: MatchType,
}

/// A lookup's report as values.
pub struct LookupView {
    pub prefix: Option<Prefix>,
    pub matched_prefix: Option<Prefix>,
    pub origin_asns: Seq<Asn>,
    pub origin_peer_counts: Seq<(Asn, u32)>,
    pub peer_count: Option<u32>,
    pub is_less_specific: bool,
    pub mode: LookupMode,
    pub match_type: MatchType,
}

impl View for Lookup {
    type V = LookupView;

    open spec fn view(&self) -> LookupView {
        LookupView {
            prefix: self.prefix,
            matched_prefix: self.matched_prefix,
            origin_asns: self.origin_asns@,
            origin_peer_counts: self.origin_peer_counts@,
            peer_count: self.peer_count,
            is_less_specific: self.is_less_specific,
            mode: self.mode,
            match_type: self.match_type,
        }
    }
}

/// What a lookup of `addr` reports: the longest match of the address and its visible
/// origins; in `Overview` mode, when the longest match shows no visible origin, the
/// first less specific prefix (longest first) that shows one, if any.
pub open spec fn lookup_of(m: StoreView, addr: Addr, min_peer_count: u32, mode: LookupMode) -> LookupView {
    let q = query_of(m, host_prefix(addr), lookup_options());
    let first = selection_of(q.prefix, q.prefix_meta, min_peer_count);
    let chosen = if mode == LookupMode::Overview && first.1.len() == 0 && q.prefix is Some {
        match fallback_search(m, q.prefix.unwrap(), q.prefix.unwrap().len as nat, min_peer_count) {
            Some(f) => selection_of(f.prefix, f.prefix_meta, min_peer_count),
            None => first,
        }
    } else {
        first
    };
    LookupView {
        prefix: chosen.0,
        matched_prefix: q.prefix,
        origin_asns: chosen.1,
        origin_peer_counts: chosen.2,
        peer_count: chosen.3,
        is_less_specific: chosen.0 != q.prefix,
        mode,
        match_type: q.match_type,
    }
}

/// Whether a lookup of `addr` falls back to a less specific prefix: in overview mode,
/// when the longest match shows no visible origin and a shorter network of it does.
pub open spec fn falls_back(m: StoreView, addr: Addr, min_peer_count: u32, mode: LookupMode) -> bool {
    let q = query_of(m, host_prefix(addr), lookup_options());
    &&& mode == LookupMode::Overview
    &&& selection_of(q.prefix, q.prefix_meta, min_peer_count).1.len() == 0
    &&& q.prefix is Some
    &&& fallback_search(m, q.prefix.unwrap(), q.prefix.unwrap().len as nat, min_peer_count) is Some
}

/// Whether two optional prefixes are the same.
fn same_prefix(a: Option<Prefix>, b: Option<Prefix>) -> (r: bool)
    ensures
        r == (a == b),
{
    match (a, b) {
        (Some(x), Some(y)) => x == y,
        (None, None) => true,
        _ => false,
    }
}

/// Looks up one address: its longest match and visible origins, falling back in
/// `Overview` mode to the nearest less specific prefix that shows a visible origin.
pub fn lookup_ip_impl(store: &Store, addr: Addr, min_peer_count: u32, mode: LookupMode) -> (r: Lookup)
    requires
        store.inv(),
    ensures
        r@ == lookup_of(store@, addr, min_peer_count, mode),
        r.matched_prefix matches Some(mp) ==> covers(mp, addr) && stored_covering(store@, addr, mp.len as nat)
            && forall|l: nat| mp.len < l <= addr.width() ==> !stored_covering(store@, addr, l),
        r.matched_prefix is None ==> forall|l: nat| 1 <= l <= addr.width() ==> !stored_covering(store@, addr, l),
        r.is_less_specific <==> falls_back(store@, addr, min_peer_count, mode),
        counts_reported(r.origin_asns@, r.origin_peer_counts@, r.peer_count, min_peer_count),
        r.match_type == match r.matched_prefix {
            Some(mp) => if mp.len == addr.width() {
                MatchType::ExactMatch
            } else {
                MatchType::LongestMatch
            },
            None => MatchType::EmptyMatch,
        },
        r.prefix matches Some(p) ==> covers(p, addr) && p.well_formed(),
        r.is_less_specific ==> {
            &&& mode == LookupMode::Overview
            &&& r.origin_asns.len() > 0
            &&& r.prefix matches Some(p)
            &&& r.matched_prefix matches Some(mp)
            &&& p.len < mp.len
            &&& covers(p, addr)
        },
{
    let len: u8 = match addr {
        Addr::V4(_) => 32,
        Addr::V6(_) => 128,
    };
    let host = Prefix::new(addr, len);
    assert(host == host_prefix(addr));
    let query_result = store.match_longest_prefix(host, &default_match_options());
    let matched_prefix = query_result.prefix;
    let mut selection = select_origins(matched_prefix, query_result.prefix_meta, min_peer_count);
    let ghost first = selection@;
    if mode == LookupMode::Overview && selection.origin_asns.len() == 0 {
        if let Some(matched) = matched_prefix {
            let ghost m = store@;
            let ghost w = addr.width();
            let mut l = matched.len;
            let mut found = false;
            while l > 0 && !found
                invariant
                    l <= matched.len,
                    matched.well_formed(),
                    covers(matched, addr),
                    store.inv(),
                    m == store@,
                    w == addr.width(),
                    counts_reported(selection.origin_asns@, selection.origin_peer_counts@, selection.peer_count, min_peer_count),
                    !found ==> fallback_search(m, matched, matched.len as nat, min_peer_count)
                        == fallback_search(m, matched, l as nat, min_peer_count) && selection@ == first,
                    found ==> {
                        &&& fallback_search(m, matched, matched.len as nat, min_peer_count) matches Some(f)
                            && selection@ == selection_of(f.prefix, f.prefix_meta, min_peer_count)
                        &&& selection.prefix matches Some(p) && p.len < matched.len && covers(p, addr)
                        &&& selection.origin_asns.len() > 0
                    },
                decreases l,
            {
                l = l - 1;
                let candidate = Prefix::new(network_addr(matched.addr, l), l);
                let fallback_query = exact_match_query(store, candidate);
                if let Some(prefix) = fallback_query.prefix {
                    let fallback = select_origins(Some(prefix), fallback_query.prefix_meta, min_peer_count);
                    if fallback.origin_asns.len() > 0 {
                        proof {
                            let mv = matched.addr.value();
                            lemma_masked_nested(mv, w, l as nat, prefix.len as nat);
                            lemma_masked_nested(mv, w, matched.len as nat, prefix.len as nat);
                            lemma_masked_nested(addr.value(), w, matched.len as nat, prefix.len as nat);
                        }
                        selection = fallback;
                        found = true;
                    }
                }
            }
        }
    }
    let is_less_specific = !same_prefix(selection.prefix, matched_prefix);
    Lookup {
        prefix: selection.prefix,
        matched_prefix,
        origin_asns: selection.origin_asns,
        origin_peer_counts: selection.origin_peer_counts,
        peer_count: selection.peer_count,
        is_less_specific,
        mode,
        match_type: query_result.match_type,
    }
}

/// The query of the network of `matched` of length `c`, for exactly that prefix.
pub open spec fn network_query(m: StoreView, matched: Prefix, c: nat) -> QueryView {
    query_of(m, Prefix { addr: network_of(matched.addr, c), len: c as u8 }, exact_options())
}

/// Whether a query found a prefix that shows a visible origin.
pub open spec fn shows_origin(q: QueryView, min_peer_count: u32) -> bool {
    q.prefix is Some && selected_asns(ris_origins(q.prefix_meta), min_peer_count).len() > 0
}

/// The fallback of a search from length `l` is the query of the longest network shorter
/// than `l` whose prefix shows a visible origin; there is none exactly when no such
/// network has one.
#[verifier::spinoff_prover]
#[verifier::rlimit(40)]
pub proof fn lemma_fallback_is_nearest(m: StoreView, matched: Prefix, l: nat, min_peer_count: u32)
    ensures
        fallback_search(m, matched, l, min_peer_count) is None <==> forall|c: nat|
            c < l ==> !shows_origin(#[trigger] network_query(m, matched, c), min_peer_count),
        fallback_search(m, matched, l, min_peer_count) matches Some(q) ==> exists|c: nat|
            c < l && q == #[trigger] network_query(m, matched, c) && shows_origin(q, min_peer_count)
                && forall|d: nat|
                c < d < l ==> !shows_origin(#[trigger] network_query(m, matched, d), min_peer_count),
    decreases l,
{
    if l > 0 {
        let c = (l - 1) as nat;
        lemma_fallback_is_nearest(m, matched, c, min_peer_count);
        let q = network_query(m, matched, c);
        if shows_origin(q, min_peer_count) {
            assert(fallback_search(m, matched, l, min_peer_count) == Some(q));
        } else {
            assert(fallback_search(m, matched, l, min_peer_count) == fallback_search(m, matched, c, min_peer_count));
            if let Some(f) = fallback_search(m, matched, l, min_peer_count) {
                let c2 = choose|c2: nat| c2 < c && f == #[trigger] network_query(m, matched, c2) && shows_origin(f, min_peer_count)
                    && forall|d: nat| c2 < d < c ==> !shows_origin(#[trigger] network_query(m, matched, d), min_peer_count);
                assert forall|d: nat| c2 < d < l implies !shows_origin(#[trigger] network_query(m, matched, d), min_peer_count) by {
                    if d < c {
                    }
                }
            }
        }
    }
}

/// In validation mode a lookup reports the longest match itself, never a less specific
/// prefix.
pub proof fn lemma_validation_reports_longest_match(m: StoreView, addr: Addr, min_peer_count: u32)
    ensures
        lookup_of(m, addr, min_peer_count, LookupMode::Validation).prefix == lookup_of(
            m,
            addr,
            min_peer_count,
            LookupMode::Validation,
        ).matched_prefix,
        !lookup_of(m, addr, min_peer_count, LookupMode::Validation).is_less_specific,
{
}

/// When the longest match shows a visible origin, both modes report the same prefix
/// and origins.
pub proof fn lemma_overview_keeps_visible_match(m: StoreView, addr: Addr, min_peer_count: u32)
    requires
        selection_of(
            query_of(m, host_prefix(addr), lookup_options()).prefix,
            query_of(m, host_prefix(addr), lookup_options()).prefix_meta,
            min_peer_count,
        ).1.len() > 0,
    ensures
        ({
            let o = lookup_of(m, addr, min_peer_count, LookupMode::Overview);
            let v = lookup_of(m, addr, min_peer_count, LookupMode::Validation);
            &&& o.prefix == v.prefix
            &&& o.origin_asns == v.origin_asns
            &&& o.origin_peer_counts == v.origin_peer_counts
            &&& o.peer_count == v.peer_count
            &&& !o.is_less_specific
        }),
{
}

/// In overview mode a lookup reports a less specific prefix exactly when the longest
/// match shows no visible origin and a shorter network of it does; it then reports the
/// longest such network's prefix.
pub proof fn lemma_overview_falls_back(m: StoreView, addr: Addr, min_peer_count: u32)
    ensures
        ({
            let q = query_of(m, host_prefix(addr), lookup_options());
            let o = lookup_of(m, addr, min_peer_count, LookupMode::Overview);
            o.is_less_specific ==> {
                &&& !shows_origin(q, min_peer_count)
                &&& q.prefix matches Some(mp) && (fallback_search(m, mp, mp.len as nat, min_peer_count)
                    matches Some(f) && o.prefix == f.prefix)
            }
        }),
{
    let q = query_of(m, host_prefix(addr), lookup_options());
    if let Some(mp) = q.prefix {
        if let Some(f) = fallback_search(m, mp, mp.len as nat, min_peer_count) {
            assert(shows_origin(f, min_peer_count)) by {
                lemma_fallback_is_nearest(m, mp, mp.len as nat, min_peer_count);
            }
        }
    }
}

/// A selection reports only counts of at least the minimum, each of a reported ASN,
/// and as its peer count the largest reported count, none when it reports no count.
pub proof fn lemma_selection_counts_reported(prefix: Option<Prefix>, meta: Option<MetaView>, min_peer_count: u32)
    ensures
        ({
            let s = selection_of(prefix, meta, min_peer_count);
            counts_reported(s.1, s.2, s.3, min_peer_count)
        }),
{
    let os = ris_origins(meta);
    lemma_max_count(selected_counts(os, min_peer_count));
    lemma_selected_counts(os, min_peer_count);
    lemma_selected_asns(os, min_peer_count);
    let counts = selected_counts(os, min_peer_count);
    assert forall|k: int| 0 <= k < counts.len() implies (#[trigger] counts[k]).1 >= min_peer_count
        && selected_asns(os, min_peer_count).contains(counts[k].0) by {
        let i = choose|i: int| 0 <= i < os.len() && visible(#[trigger] os[i], min_peer_count) && os[i].asn
            == counts[k].0 && os[i].peer_count == Some(counts[k].1);
        assert(visible(os[i], min_peer_count));
    }
}

} // verus!
