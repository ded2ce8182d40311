use vstd::prelude::*;
use crate::addr::Prefix;
use crate::record::{ExtPrefixRecord, MetaView};
use crate::store::{RecordView, StoreView, StoredPrefix};
use crate::tree::{TreeEntry, TreeMatchView};

verus! {

/// The kind of match a query asks for, or that it found.
#[derive(Clone, Copy, Debug, PartialEq, Eq, Structural)]
pub enum MatchType {
    ExactMatch,
    LongestMatch,
    EmptyMatch,
}

/// The text of a match type.
pub open spec fn match_type_text(m: MatchType) -> Seq<char> {
    match m {
        MatchType::ExactMatch => "exact-match"@,
        MatchType::LongestMatch => "longest-match"@,
        MatchType::EmptyMatch => "empty-match"@,
    }
}

impl MatchType {
    /// The text of the match type.
    pub fn as_str(&self) -> (s: &'static str)
        ensures
            s@ == match_type_text(*self),
    {
        match self {
            MatchType::ExactMatch => "exact-match",
            MatchType::LongestMatch => "longest-match",
            MatchType::EmptyMatch => "empty-match",
        }
    }
}

/// What a query asks for: the kind of match, and whether to list the stored prefixes
/// that are less specific and more specific than the searched one.
#[derive(Clone, Copy, Debug, PartialEq, Eq, Structural)]
pub struct MatchOptions {
    pub match_type: MatchType,
    pub include_less_specifics: bool,
    pub include_more_specifics: bool,
}


/// Stored prefixes that a query lists: the IPv4 ones and the IPv6 ones.
#[derive(Debug)]
pub struct RecordSet<'a> {
    v4: Vec<&'a StoredPrefix>,
    v6: Vec<&'a StoredPrefix>,
}

/// The records of a list of stored prefixes, as values.
pub open spec fn records_view<'a>(v: Vec<&'a StoredPrefix>) -> Seq<RecordView> {
    v@.map_values(|r: &'a StoredPrefix| r@)
}

impl<'a> View for RecordSet<'a> {
    type V = (Seq<RecordView>, Seq<RecordView>);

    closed spec fn view(&self) -> (Seq<RecordView>, Seq<RecordView>) {
        (records_view(self.v4), records_view(self.v6))
    }
}

impl<'a> RecordSet<'a> {
    /// Whether the set lists no prefix.
    pub fn is_empty(&self) -> (r: bool)
        ensures
            r == (self@.0.len() == 0 && self@.1.len() == 0),
    {
        self.v4.len() == 0 && self.v6.len() == 0
    }

    /// A set of the given IPv4 records, or of no record.
    pub fn from_v4(records: Option<Vec<&'a StoredPrefix>>) -> (r: RecordSet<'a>)
        ensures
            r@.0 == match records {
                Some(v) => records_view(v),
                None => Seq::<RecordView>::empty(),
            },
            r@.1.len() == 0,
    {
        let v4 = match records {
            Some(v) => v,
            None => Vec::new(),
        };
        let r = RecordSet { v4, v6: Vec::new() };
        assert(r@.1 =~= Seq::<RecordView>::empty());
        assert(records_view(r.v4) =~= (match records {
            Some(v) => records_view(v),
            None => Seq::<RecordView>::empty(),
        }));
        r
    }

    /// A set of the given IPv6 records, or of no record.
    pub fn from_v6(records: Option<Vec<&'a StoredPrefix>>) -> (r: RecordSet<'a>)
        ensures
            r@.1 == match records {
                Some(v) => records_view(v),
                None => Seq::<RecordView>::empty(),
            },
            r@.0.len() == 0,
    {
        let v6 = match records {
            Some(v) => v,
            None => Vec::new(),
        };
        let r = RecordSet { v4: Vec::new(), v6 };
        assert(r@.0 =~= Seq::<RecordView>::empty());
        assert(records_view(r.v6) =~= (match records {
            Some(v) => records_view(v),
            None => Seq::<RecordView>::empty(),
        }));
        r
    }
}

/// What a query of the store found: the kind of match, the stored prefix found with
/// its metadata, and the less and more specific stored prefixes when asked for.
#[derive(Debug)]
pub struct QueryResult<'a> {
    pub match_type: MatchType,
    pub prefix: Option<Prefix>,
    pub prefix_meta: Option<&'a ExtPrefixRecord>,
    pub less_specifics: RecordSet<'a>,
    pub more_specifics: RecordSet<'a>,
}

/// A query result as values.
pub struct QueryView {
    pub match_type: MatchType,
    pub prefix: Option<Prefix>,
    pub prefix_meta: Option<MetaView>,
    pub less_specifics: (Seq<RecordView>, Seq<RecordView>),
    pub more_specifics: (Seq<RecordView>, Seq<RecordView>),
}

impl<'a> View for QueryResult<'a> {
    type V = QueryView;

    open spec fn view(&self) -> QueryView {
        QueryView {
            match_type: self.match_type,
            prefix: self.prefix,
            prefix_meta: match self.prefix_meta {
                Some(m) => Some(m@),
                None => None,
            },
            less_specifics: self.less_specifics@,
            more_specifics: self.more_specifics@,
        }
    }
}

/// The record of the store that a reported tree entry points at.
pub open spec fn entry_record<N>(records: Seq<RecordView>, e: TreeEntry<N>) -> RecordView {
    records[e.2.unwrap() as int]
}

/// The records of the store that a reported list of tree entries points at.
pub open spec fn entry_records<N>(records: Seq<RecordView>, s: Option<Seq<TreeEntry<N>>>) -> Seq<RecordView> {
    match s {
        Some(es) => es.map_values(|e: TreeEntry<N>| entry_record(records, e)),
        None => Seq::empty(),
    }
}

/// A tree's query result in terms of the store's records: the prefix found is shown
/// as it was first loaded, with its metadata; listed prefixes are in the set of the
/// tree's family (IPv6 when `v6`).
pub open spec fn query_view<N>(m: StoreView, t: TreeMatchView<N>, v6: bool) -> QueryView {
    let less = entry_records(m.records, t.less_specifics);
    let more = entry_records(m.records, t.more_specifics);
    let none = Seq::<RecordView>::empty();
    QueryView {
        match_type: if t.prefix is Some {
            t.match_type
        } else {
            MatchType::EmptyMatch
        },
        prefix: match t.prefix {
            Some(e) => Some(entry_record(m.records, e).0),
            None => None,
        },
        prefix_meta: match t.prefix {
            Some(e) => Some(entry_record(m.records, e).1),
            None => None,
        },
        less_specifics: if v6 {
            (none, less)
        } else {
            (less, none)
        },
        more_specifics: if v6 {
            (none, more)
        } else {
            (more, none)
        },
    }
}

} // verus!
