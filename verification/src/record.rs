use vstd::prelude::*;
use crate::text::{decimal_text, join, parse_u32, str_eq, text, u32_parse_error_text, u64_text, unsigned_value, parses_within};

verus! {

/// A regional internet registry, or `Unknown` for any other source.
#[derive(Clone, Copy, Debug, PartialEq, Eq, Structural)]
pub enum Rir {
    Afrinic,
    Apnic,
    Arin,
    Lacnic,
    RipeNcc,
    Unknown,
}

/// The registry that a delegated-statistics file names with `s`.
pub open spec fn rir_named(s: Seq<char>) -> Rir {
    if s == "afrinic"@ {
        Rir::Afrinic
    } else if s == "apnic"@ {
        Rir::Apnic
    } else if s == "arin"@ {
        Rir::Arin
    } else if s == "lacnic"@ {
        Rir::Lacnic
    } else if s == "ripencc"@ {
        Rir::RipeNcc
    } else {
        Rir::Unknown
    }
}

impl<'a> From<&'a str> for Rir {
    /// The registry that `str` names.
    fn from(str: &'a str) -> (r: Rir)
        ensures
            r == rir_named(str@),
    {
        if str_eq(str, "afrinic") {
            Rir::Afrinic
        } else if str_eq(str, "apnic") {
            Rir::Apnic
        } else if str_eq(str, "arin") {
            Rir::Arin
        } else if str_eq(str, "lacnic") {
            Rir::Lacnic
        } else if str_eq(str, "ripencc") {
            Rir::RipeNcc
        } else {
            Rir::Unknown
        }
    }
}

impl<'a> vstd::std_specs::convert::FromSpecImpl<&'a str> for Rir {
    open spec fn obeys_from_spec() -> bool {
        true
    }

    open spec fn from_spec(str: &'a str) -> Rir {
        rir_named(str@)
    }
}

/// The source identifier of a registry in status reports.
pub open spec fn json_id(rir: Rir) -> Seq<char> {
    match rir {
        Rir::Afrinic => "afrinic"@,
        Rir::Apnic => "apnic"@,
        Rir::Arin => "arin"@,
        Rir::Lacnic => "lacnic"@,
        Rir::RipeNcc => "ripe"@,
        Rir::Unknown => "riswhois"@,
    }
}

/// Distinct registries have distinct identifiers.
pub proof fn lemma_json_ids_distinct(a: Rir, b: Rir)
    ensures
        a != b ==> json_id(a) != json_id(b),
{
    reveal_strlit("afrinic");
    reveal_strlit("apnic");
    reveal_strlit("arin");
    reveal_strlit("lacnic");
    reveal_strlit("ripe");
    reveal_strlit("riswhois");
    if a != b {
        assert(json_id(a).len() != json_id(b).len() || json_id(a)[0] != json_id(b)[0] || json_id(a)[1]
            != json_id(b)[1]);
    }
}

/// The identifier of every registry but RIPE NCC is the name it is read from; RIPE
/// NCC's is `ripe`.
pub proof fn lemma_json_id_names_registry(r: Rir)
    ensures
        r != Rir::RipeNcc ==> rir_named(json_id(r)) == r,
        json_id(Rir::RipeNcc) == "ripe"@,
        json_id(r) == "ripe"@ <==> r == Rir::RipeNcc,
{
    reveal_strlit("afrinic");
    reveal_strlit("apnic");
    reveal_strlit("arin");
    reveal_strlit("lacnic");
    reveal_strlit("ripe");
    reveal_strlit("ripencc");
    reveal_strlit("riswhois");
    lemma_json_ids_distinct(r, Rir::RipeNcc);
    if r != Rir::RipeNcc {
        let s = json_id(r);
        assert(s != "afrinic"@ || r == Rir::Afrinic) by {
            if r != Rir::Afrinic {
                assert(s.len() != 7 || s[0] != 'a' || s[1] != 'f');
            }
        }
        assert(s != "apnic"@ || r == Rir::Apnic) by {
            if r != Rir::Apnic {
                assert(s.len() != 5 || s[1] != 'p');
            }
        }
        assert(s != "arin"@ || r == Rir::Arin) by {
            if r != Rir::Arin {
                assert(s.len() != 4 || s[1] != 'r');
            }
        }
        assert(s != "lacnic"@ || r == Rir::Lacnic) by {
            if r != Rir::Lacnic {
                assert(s.len() != 6 || s[0] != 'l');
            }
        }
        assert(s != "ripencc"@) by {
            assert(s.len() != 7 || s[0] != 'r');
        }
    }
}

/// The display name of a registry.
pub open spec fn rir_label(rir: Rir) -> Seq<char> {
    match rir {
        Rir::Afrinic => "AFRINIC"@,
        Rir::Apnic => "APNIC"@,
        Rir::Arin => "ARIN"@,
        Rir::Lacnic => "LACNIC"@,
        Rir::RipeNcc => "RIPE NCC"@,
        Rir::Unknown => "Unknown"@,
    }
}

impl Rir {
    /// The identifier of the registry in status reports.
    pub fn to_json_id(self) -> (s: String)
        ensures
            s@ == json_id(self),
            self != Rir::RipeNcc ==> rir_named(s@) == self,
            s@ == "ripe"@ <==> self == Rir::RipeNcc,
    {
        proof {
            lemma_json_id_names_registry(self);
        }
        match self {
            Rir::Afrinic => text("afrinic"),
            Rir::Apnic => text("apnic"),
            Rir::Arin => text("arin"),
            Rir::Lacnic => text("lacnic"),
            Rir::RipeNcc => text("ripe"),
            Rir::Unknown => text("riswhois"),
        }
    }

    /// The display name of the registry.
    pub fn to_string(self) -> (s: String)
        ensures
            s@ == rir_label(self),
    {
        match self {
            Rir::Afrinic => text("AFRINIC"),
            Rir::Apnic => text("APNIC"),
            Rir::Arin => text("ARIN"),
            Rir::Lacnic => text("LACNIC"),
            Rir::RipeNcc => text("RIPE NCC"),
            Rir::Unknown => text("Unknown"),
        }
    }
}

/// An autonomous system number.
#[derive(Clone, Copy, Debug, PartialEq, Eq, Structural)]
pub struct Asn(u32);

impl View for Asn {
    type V = u32;

    closed spec fn view(&self) -> u32 {
        self.0
    }
}

/// The AS number `n`.
pub closed spec fn asn_of(n: u32) -> Asn {
    Asn(n)
}

/// The AS number `n` has the number `n`.
pub broadcast proof fn lemma_asn_of(n: u32)
    ensures
        #[trigger] asn_of(n)@ == n,
{
}

impl Asn {
    /// The number's text: `AS` and the number in decimal.
    pub fn to_string(&self) -> (s: String)
        ensures
            s@ == "AS"@ + decimal_text(self@ as u64),
    {
        join(text("AS"), u64_text(self.0 as u64).as_str())
    }

    /// Reads an AS number written in decimal; an error is given as its text.
    pub fn from_str(as_str: &str) -> (r: Result<Asn, String>)
        ensures
            r is Ok <==> parses_within(as_str@, u32::MAX as nat),
            r matches Ok(a) ==> unsigned_value(as_str@) == Some(a@ as nat),
            r matches Err(e) ==> e@ == u32_parse_error_text(as_str@),
    {
        match parse_u32(as_str) {
            Ok(v) => Ok(Asn(v)),
            Err(e) => Err(e),
        }
    }

    /// Two AS numbers are the same value exactly when their numbers are equal.
    pub broadcast proof fn lemma_view_injective(a: Asn, b: Asn)
        ensures
            #![trigger a@, b@]
            (a == b) <==> (a@ == b@),
    {
    }
}

/// Delegated-statistics metadata of a prefix: the registry that allocated it.
#[derive(Clone, Copy, Debug, PartialEq, Eq, Structural)]
pub struct RirDelExtRecord {
    pub rir: Rir,
}

/// An origin AS of a prefix in RIS Whois, with the number of RIS peers that see it
/// when the data gives one.
#[derive(Clone, Copy, Debug, PartialEq, Eq, Structural)]
pub struct RisOrigin {
    pub asn: Asn,
    pub peer_count: Option<u32>,
}

/// RIS Whois metadata of a prefix: its origins.
#[derive(Debug)]
pub struct RisWhoisRecord {
    pub origins: Vec<RisOrigin>,
}

/// The metadata of a prefix: delegated-statistics data and RIS Whois data, either of
/// which may be absent.
#[derive(Debug, Default)]
pub struct ExtPrefixRecord(pub Option<RirDelExtRecord>, pub Option<RisWhoisRecord>);

/// The metadata of a prefix as values: the allocating registry's record and the list
/// of RIS origins, each when present.
pub type MetaView = (Option<RirDelExtRecord>, Option<Seq<RisOrigin>>);

impl View for ExtPrefixRecord {
    type V = MetaView;

    open spec fn view(&self) -> MetaView {
        (
            self.0,
            match &self.1 {
                Some(r) => Some(r.origins@),
                None => None,
            },
        )
    }
}

/// The metadata after merging `update` into `current`: delegated data is replaced
/// when the update has some; RIS origins of the update are appended to those already
/// known, or taken as they are when none were known.
pub open spec fn merged(current: MetaView, update: MetaView) -> MetaView {
    (
        if update.0 is Some {
            update.0
        } else {
            current.0
        },
        match (current.1, update.1) {
            (Some(c), Some(u)) => Some(c + u),
            (None, Some(u)) => Some(u),
            (c, None) => c,
        },
    )
}

impl ExtPrefixRecord {
    /// Merges the metadata of `update_record` into this record.
    pub fn merge_update(&mut self, update_record: ExtPrefixRecord) -> (r: Result<(), crate::error::DataError>)
        ensures
            r is Ok,
            final(self)@ == merged(old(self)@, update_record@),
    {
        let ExtPrefixRecord(update_del, update_ris) = update_record;
        if update_del.is_some() {
            self.0 = update_del;
        }
        match update_ris {
            Some(mut update_ris_rec) => {
                match &mut self.1 {
                    Some(ris_whois_rec) => {
                        ris_whois_rec.origins.append(&mut update_ris_rec.origins);
                    },
                    None => {
                        self.1 = Some(update_ris_rec);
                    },
                }
            },
            None => {},
        }
        Ok(())
    }

    /// A copy of the record.
    pub fn duplicate(&self) -> (r: ExtPrefixRecord)
        ensures
            r@ == self@,
    {
        let ris = match &self.1 {
            Some(rec) => Some(RisWhoisRecord { origins: rec.origins.clone() }),
            None => None,
        };
        ExtPrefixRecord(self.0, ris)
    }
}

} // verus!
