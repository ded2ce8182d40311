use vstd::prelude::*;
use rotonda_store::common::{NoMeta, Prefix as TreePrefix, PrefixAs};
use rotonda_store::{InMemStorage, TreeBitMap};
use rotonda_store::MatchOptions as TreeOptions;
use rotonda_store::MatchType as TreeMatchType;
use crate::addr::masked;
use crate::query::{MatchOptions, MatchType};

verus! {

/// A stored prefix as a query reports it: network, length and the number it carries.
pub type TreeEntry<N> = (N, u8, Option<u32>);

/// What a tree query found, as plain values.
pub struct TreeMatch<N> {
    pub prefix: Option<TreeEntry<N>>,
    pub match_type: MatchType,
    pub less_specifics: Option<Vec<TreeEntry<N>>>,
    pub more_specifics: Option<Vec<TreeEntry<N>>>,
}

/// What a tree query found, as values.
pub struct TreeMatchView<N> {
    pub prefix: Option<TreeEntry<N>>,
    pub match_type: MatchType,
    pub less_specifics: Option<Seq<TreeEntry<N>>>,
    pub more_specifics: Option<Seq<TreeEntry<N>>>,
}

impl<N> View for TreeMatch<N> {
    type V = TreeMatchView<N>;

    open spec fn view(&self) -> TreeMatchView<N> {
        TreeMatchView {
            prefix: self.prefix,
            match_type: self.match_type,
            less_specifics: match &self.less_specifics {
                Some(v) => Some(v@),
                None => None,
            },
            more_specifics: match &self.more_specifics {
                Some(v) => Some(v@),
                None => None,
            },
        }
    }
}

/// Whether a reported prefix is one that the tree holds, with the number it holds.
pub open spec fn held_by<N>(entries: Map<(N, u8), u32>, e: TreeEntry<N>) -> bool {
    &&& entries.contains_key((e.0, e.1))
    &&& e.2 == Some(entries[(e.0, e.1)])
}

/// The facts about a query for the network `net` (host bits clear) of `len` bits that
/// the tree's query code shows: the match type follows from the prefix found; the
/// lists are there exactly when asked for; every reported prefix is one the tree
/// holds; the prefix found covers the searched network with no more bits than the
/// search. A longest match finds the longest stored prefix of 1 to `len` bits that
/// covers the network (the search never looks at prefixes of length 0); an exact
/// match that lists no less specific prefixes finds, for at least one bit, the prefix
/// of exactly `len` bits when it is stored, and never another (with less specifics
/// listed, its search may report a shorter prefix that fills a whole stride). Listed
/// less specific prefixes cover the network and are no longer than the search
/// (shorter, for a longest match: the search lists them only on its way down); listed
/// more specific prefixes, for a longest or exact match, are longer than the search
/// and lie inside the network (they are collected below the node where it ends).
pub open spec fn query_facts<N>(
    entries: Map<(N, u8), u32>,
    r: TreeMatchView<N>,
    net: nat,
    width: nat,
    len: u8,
    options: MatchOptions,
    key_value: spec_fn(N) -> nat,
) -> bool {
    &&& match r.prefix {
        Some(p) => {
            &&& r.match_type == if p.1 == len {
                MatchType::ExactMatch
            } else {
                MatchType::LongestMatch
            }
            &&& held_by(entries, p)
            &&& p.1 <= len
            &&& key_value(p.0) == masked(net, width, p.1 as nat)
        },
        None => r.match_type == MatchType::EmptyMatch,
    }
    &&& (options.match_type == MatchType::LongestMatch ==> match r.prefix {
        Some(p) => p.1 >= 1 && forall|n: N, l: u8|
            #[trigger] entries.contains_key((n, l)) && p.1 < l <= len ==> key_value(n) != masked(
                net,
                width,
                l as nat,
            ),
        None => forall|n: N, l: u8|
            #[trigger] entries.contains_key((n, l)) && 1 <= l <= len ==> key_value(n) != masked(
                net,
                width,
                l as nat,
            ),
    })
    &&& (options.match_type == MatchType::ExactMatch && !options.include_less_specifics ==> {
        &&& r.prefix matches Some(p) ==> p.1 == len
        &&& len >= 1 ==> forall|n: N|
            #[trigger] entries.contains_key((n, len)) && key_value(n) == net ==> r.prefix is Some
    })
    &&& (r.less_specifics is Some <==> options.include_less_specifics)
    &&& (r.more_specifics is Some <==> options.include_more_specifics)
    &&& (r.less_specifics matches Some(l) ==> forall|i: int|
        0 <= i < l.len() ==> {
            &&& held_by(entries, #[trigger] l[i])
            &&& l[i].1 <= len
            &&& options.match_type == MatchType::LongestMatch ==> l[i].1 < len
            &&& key_value(l[i].0) == masked(net, width, l[i].1 as nat)
        })
    &&& (r.more_specifics matches Some(m) ==> forall|i: int|
        0 <= i < m.len() ==> {
            &&& held_by(entries, #[trigger] m[i])
            &&& options.match_type != MatchType::EmptyMatch ==> len < m[i].1 && masked(
                key_value(m[i].0),
                width,
                len as nat,
            ) == net
        })
}

/// An IPv4 tree key's network as a number.
pub open spec fn u32_value(n: u32) -> nat {
    n as nat
}

/// An IPv6 tree key's network as a number.
pub open spec fn u128_value(n: u128) -> nat {
    n as nat
}

/// The IPv4 tree bitmap of the store; each stored prefix carries a number.
#[verifier::external_body]
pub struct V4Tree {
    tree: TreeBitMap<InMemStorage<u32, PrefixAs>>,
}

/// The IPv6 tree bitmap of the store; each stored prefix carries a number.
#[verifier::external_body]
pub struct V6Tree {
    tree: TreeBitMap<InMemStorage<u128, PrefixAs>>,
}

/// What the IPv4 tree holds: each stored prefix (network, length) and the number it
/// carries.
pub uninterp spec fn v4_entries(t: V4Tree) -> Map<(u32, u8), u32>;

/// What the IPv6 tree holds: each stored prefix (network, length) and the number it
/// carries.
pub uninterp spec fn v6_entries(t: V6Tree) -> Map<(u128, u8), u32>;

/// What `TreeBitMap::match_prefix` on an IPv4 tree holding `entries` reports for a
/// search of `net`/`len` with the given options.
pub uninterp spec fn v4_query(
    entries: Map<(u32, u8), u32>,
    net: u32,
    len: u8,
    options: MatchOptions,
) -> TreeMatchView<u32>;

/// What `TreeBitMap::match_prefix` on an IPv6 tree holding `entries` reports for a
/// search of `net`/`len` with the given options.
pub uninterp spec fn v6_query(
    entries: Map<(u128, u8), u32>,
    net: u128,
    len: u8,
    options: MatchOptions,
) -> TreeMatchView<u128>;

/// Calls `TreeBitMap::new` for an IPv4 tree; a new tree holds no prefix.
#[verifier::external_body]
pub(crate) fn v4_new(strides: Vec<u8>) -> (t: V4Tree)
    requires
        strides@ == seq![4u8],
    ensures
        v4_entries(t).dom().is_empty(),
{
    V4Tree { tree: TreeBitMap::new(strides) }
}

/// Calls `TreeBitMap::new` for an IPv6 tree; a new tree holds no prefix.
#[verifier::external_body]
pub(crate) fn v6_new(strides: Vec<u8>) -> (t: V6Tree)
    requires
        strides@ == seq![4u8],
    ensures
        v6_entries(t).dom().is_empty(),
{
    V6Tree { tree: TreeBitMap::new(strides) }
}

/// Calls `TreeBitMap::insert` on the IPv4 tree with a prefix whose host bits are
/// clear: afterwards the prefix carries `number` (a prefix already stored has its
/// number replaced, as `PrefixAs` merges). The insert fails only when a node or prefix
/// that the tree itself numbered is missing, which a tree built by `new` and `insert`
/// never lacks, so it succeeds.
#[verifier::external_body]
pub(crate) fn v4_insert(t: &mut V4Tree, net: u32, len: u8, number: u32) -> (r: Result<(), String>)
    requires
        len <= 32,
        net as nat == masked(net as nat, 32, len as nat),
    ensures
        r is Ok,
        v4_entries(*final(t)) == v4_entries(*old(t)).insert((net, len), number),
{
    match t.tree.insert(TreePrefix::new_with_meta(net, len, PrefixAs(number))) {
        Ok(()) => Ok(()),
        Err(e) => Err(e.to_string()),
    }
}

/// Calls `TreeBitMap::insert` on the IPv6 tree with a prefix whose host bits are
/// clear: afterwards the prefix carries `number` (a prefix already stored has its
/// number replaced, as `PrefixAs` merges). The insert fails only when a node or prefix
/// that the tree itself numbered is missing, which a tree built by `new` and `insert`
/// never lacks, so it succeeds.
#[verifier::external_body]
pub(crate) fn v6_insert(t: &mut V6Tree, net: u128, len: u8, number: u32) -> (r: Result<(), String>)
    requires
        len <= 128,
        net as nat == masked(net as nat, 128, len as nat),
    ensures
        r is Ok,
        v6_entries(*final(t)) == v6_entries(*old(t)).insert((net, len), number),
{
    match t.tree.insert(TreePrefix::new_with_meta(net, len, PrefixAs(number))) {
        Ok(()) => Ok(()),
        Err(e) => Err(e.to_string()),
    }
}

/// The tree's query options, `rotonda_store::MatchOptions`, as an opaque type.
#[verifier::external_type_specification]
#[verifier::external_body]
pub struct ExTreeOptions(TreeOptions);

/// Builds `rotonda_store::MatchOptions` from the library's options, field by field and
/// variant by variant; its contract claims nothing of the result, which Verus cannot see.
#[verifier::external_body]
fn tree_options(options: &MatchOptions) -> TreeOptions {
    TreeOptions {
        match_type: match options.match_type {
            MatchType::ExactMatch => TreeMatchType::ExactMatch,
            MatchType::LongestMatch => TreeMatchType::LongestMatch,
            MatchType::EmptyMatch => TreeMatchType::EmptyMatch,
        },
        include_less_specifics: options.include_less_specifics,
        include_more_specifics: options.include_more_specifics,
    }
}

/// Calls `TreeBitMap::match_prefix` on the IPv4 tree for the network `net` (host bits
/// clear) of `len` bits.
#[verifier::external_body]
pub(crate) fn v4_query_tree(t: &V4Tree, net: u32, len: u8, options: &MatchOptions) -> (r: TreeMatch<u32>)
    requires
        len <= 32,
        net as nat == masked(net as nat, 32, len as nat),
    ensures
        r@ == v4_query(v4_entries(*t), net, len, *options),
        query_facts(v4_entries(*t), r@, net as nat, 32, len, *options, |n: u32| u32_value(n)),
{
    let r = t.tree.match_prefix(&TreePrefix::<u32, NoMeta>::new(net, len), &tree_options(options));
    let e = |p: &TreePrefix<u32, PrefixAs>| (p.net, p.len, p.meta.map(|m| m.0));
    TreeMatch {
        prefix: r.prefix.map(e),
        match_type: match r.match_type {
            TreeMatchType::ExactMatch => MatchType::ExactMatch,
            TreeMatchType::LongestMatch => MatchType::LongestMatch,
            TreeMatchType::EmptyMatch => MatchType::EmptyMatch,
        },
        less_specifics: r.less_specifics.map(|v| v.into_iter().map(e).collect()),
        more_specifics: r.more_specifics.map(|v| v.into_iter().map(e).collect()),
    }
}

/// Calls `TreeBitMap::match_prefix` on the IPv6 tree for the network `net` (host bits
/// clear) of `len` bits.
#[verifier::external_body]
pub(crate) fn v6_query_tree(t: &V6Tree, net: u128, len: u8, options: &MatchOptions) -> (r: TreeMatch<u128>)
    requires
        len <= 128,
        net as nat == masked(net as nat, 128, len as nat),
    ensures
        r@ == v6_query(v6_entries(*t), net, len, *options),
        query_facts(v6_entries(*t), r@, net as nat, 128, len, *options, |n: u128| u128_value(n)),
{
    let r = t.tree.match_prefix(&TreePrefix::<u128, NoMeta>::new(net, len), &tree_options(options));
    let e = |p: &TreePrefix<u128, PrefixAs>| (p.net, p.len, p.meta.map(|m| m.0));
    TreeMatch {
        prefix: r.prefix.map(e),
        match_type: match r.match_type {
            TreeMatchType::ExactMatch => MatchType::ExactMatch,
            TreeMatchType::LongestMatch => MatchType::LongestMatch,
            TreeMatchType::EmptyMatch => MatchType::EmptyMatch,
        },
        less_specifics: r.less_specifics.map(|v| v.into_iter().map(e).collect()),
        more_specifics: r.more_specifics.map(|v| v.into_iter().map(e).collect()),
    }
}

} // verus!
