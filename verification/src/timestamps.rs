use vstd::prelude::*;
use crate::csv_input::{row_view, CsvTable, TableView};
use crate::error::DataError;
use crate::record::{json_id, rir_label, rir_named, Rir};
use crate::text::{decimal_text, join, parse_u64, parses_within, text, u64_parse_error_text, u64_text, unsigned_value};

verus! {

/// A point in time read from a date: its RFC 3339 text and its display text.
#[derive(Clone, Debug)]
pub struct DateStamp {
    pub rfc3339: String,
    pub display: String,
}

/// A date as values: its RFC 3339 text and its display text.
pub type DateView = (Seq<char>, Seq<char>);

impl View for DateStamp {
    type V = DateView;

    open spec fn view(&self) -> DateView {
        (self.rfc3339@, self.display@)
    }
}

/// What chrono's `DateTime::parse_from_rfc2822` reads from `s`: the date, as its
/// RFC 3339 text and its display text, or the error's text.
pub uninterp spec fn rfc2822_parse(s: Seq<char>) -> Result<DateView, Seq<char>>;

/// Calls `DateTime::parse_from_rfc2822`; a date is given as the texts that
/// `to_rfc3339` and `to_string` write, an error as its text.
#[verifier::external_body]
fn parse_rfc2822(s: &str) -> (r: Result<DateStamp, String>)
    ensures
        match r {
            Ok(d) => rfc2822_parse(s@) == Ok::<DateView, Seq<char>>(d@),
            Err(e) => rfc2822_parse(s@) == Err::<DateView, Seq<char>>(e@),
        },
{
    match chrono::DateTime::parse_from_rfc2822(s) {
        Ok(d) => Ok(DateStamp { rfc3339: d.to_rfc3339(), display: d.to_string() }),
        Err(e) => Err(e.to_string()),
    }
}

/// When a source's data was last updated: the source, the serial of its data, and
/// the time of the update.
#[derive(Clone, Debug)]
pub struct TimeStamp(pub Rir, pub u64, pub DateStamp);

/// A time stamp as values.
pub type TimeStampView = (Rir, u64, DateView);

impl View for TimeStamp {
    type V = TimeStampView;

    open spec fn view(&self) -> TimeStampView {
        (self.0, self.1, self.2@)
    }
}

impl TimeStamp {
    /// The source's name, the serial and the time, separated by spaces.
    pub fn to_string(&self) -> (s: String)
        ensures
            s@ == rir_label(self.0) + " "@ + decimal_text(self.1) + " "@ + self.2.display@,
    {
        let s = join(self.0.to_string(), " ");
        let s = join(s, u64_text(self.1).as_str());
        let s = join(s, " ");
        join(s, self.2.display.as_str())
    }
}

impl TimeStamp {
    /// The time stamp as a JSON member: the source's name, then the serial and the
    /// time, each part in quotes.
    pub fn to_json_entry(&self) -> (s: String)
        ensures
            s@ == "\""@ + rir_label(self.0) + "\": \""@ + decimal_text(self.1) + " "@
                + self.2.display@ + "\""@,
    {
        let s = join(text("\""), self.0.to_string().as_str());
        let s = join(s, "\": \"");
        let s = join(s, u64_text(self.1).as_str());
        let s = join(s, " ");
        let s = join(s, self.2.display.as_str());
        join(s, "\"")
    }
}

/// The latest time stamp of each source.
#[derive(Clone, Debug)]
pub struct TimeStamps {
    pub afrinic: Option<TimeStamp>,
    pub apnic: Option<TimeStamp>,
    pub arin: Option<TimeStamp>,
    pub lacnic: Option<TimeStamp>,
    pub ripencc: Option<TimeStamp>,
    pub riswhois: Option<TimeStamp>,
}

/// The time stamp kept in a slot, as values.
pub open spec fn slot_view(t: Option<TimeStamp>) -> Option<TimeStampView> {
    match t {
        Some(ts) => Some(ts@),
        None => None,
    }
}

impl TimeStamps {
    /// The time stamp kept for `rir` (`Unknown` stands for RIS Whois), as values.
    pub open spec fn stamp_of(self, rir: Rir) -> Option<TimeStampView> {
        match rir {
            Rir::Afrinic => slot_view(self.afrinic),
            Rir::Apnic => slot_view(self.apnic),
            Rir::Arin => slot_view(self.arin),
            Rir::Lacnic => slot_view(self.lacnic),
            Rir::RipeNcc => slot_view(self.ripencc),
            Rir::Unknown => slot_view(self.riswhois),
        }
    }

    /// Keeps `ts` as the time stamp of its source, in place of any before.
    pub fn push(&mut self, ts: TimeStamp) -> (r: Result<(), DataError>)
        ensures
            r is Ok,
            final(self).stamp_of(ts.0) == Some(ts@),
            forall|rir: Rir| rir != ts.0 ==> final(self).stamp_of(rir) == old(self).stamp_of(rir),
    {
        match ts.0 {
            Rir::Afrinic => {
                self.afrinic = Some(ts);
            },
            Rir::Apnic => {
                self.apnic = Some(ts);
            },
            Rir::Arin => {
                self.arin = Some(ts);
            },
            Rir::Lacnic => {
                self.lacnic = Some(ts);
            },
            Rir::RipeNcc => {
                self.ripencc = Some(ts);
            },
            Rir::Unknown => {
                self.riswhois = Some(ts);
            },
        }
        Ok(())
    }
}

impl Default for TimeStamps {
    /// No time stamp for any source.
    fn default() -> (t: TimeStamps)
        ensures
            forall|rir: Rir| t.stamp_of(rir) is None,
    {
        TimeStamps { afrinic: None, apnic: None, arin: None, lacnic: None, ripencc: None, riswhois: None }
    }
}

/// The time stamps kept, by source.
pub open spec fn stamps_view(t: TimeStamps) -> Map<Rir, TimeStampView> {
    Map::new(|rir: Rir| t.stamp_of(rir) is Some, |rir: Rir| t.stamp_of(rir).unwrap())
}

/// The message for a time stamp record without the field `what`.
pub open spec fn missing_stamp_field_message(what: Seq<char>, source: Seq<char>, record_index: nat) -> Seq<char> {
    "missing "@ + what + " in '"@ + source + "' record "@ + decimal_text(record_index as u64)
}

/// The message for a time stamp record whose field `what` holds the invalid `value`.
pub open spec fn invalid_stamp_value_message(
    what: Seq<char>,
    value: Seq<char>,
    source: Seq<char>,
    record_index: nat,
    cause: Seq<char>,
) -> Seq<char> {
    "invalid "@ + what + " '"@ + value + "' in '"@ + source + "' record "@ + decimal_text(
        record_index as u64,
    ) + ": "@ + cause
}

/// The message for a time stamp file that could not be read past a record.
pub open spec fn stamp_read_error_message(record_index: nat, source: Seq<char>, cause: Seq<char>) -> Seq<char> {
    "failed to parse timestamp record "@ + decimal_text(record_index as u64) + " in '"@ + source
        + "': "@ + cause
}

/// The value of a decimal field that is known to parse.
pub open spec fn decimal_value(s: Seq<char>) -> nat {
    match unsigned_value(s) {
        Some(n) => n,
        None => 0,
    }
}

/// What a time stamp record (`source,serial,date`) gives, or the message of its first
/// error: missing fields, then the serial, then the RFC 2822 date.
pub open spec fn stamp_row(row: Seq<Seq<char>>, record_index: nat, source: Seq<char>) -> Result<TimeStampView, Seq<char>> {
    if row.len() < 1 {
        Err(missing_stamp_field_message("source identifier"@, source, record_index))
    } else if row.len() < 2 {
        Err(missing_stamp_field_message("serial"@, source, record_index))
    } else if row.len() < 3 {
        Err(missing_stamp_field_message("timestamp"@, source, record_index))
    } else if !parses_within(row[1], u64::MAX as nat) {
        Err(invalid_stamp_value_message("serial"@, row[1], source, record_index, u64_parse_error_text(row[1])))
    } else {
        match rfc2822_parse(row[2]) {
            Err(cause) => Err(invalid_stamp_value_message("RFC2822 timestamp"@, row[2], source, record_index, cause)),
            Ok(d) => Ok((rir_named(row[0]), decimal_value(row[1]) as u64, d)),
        }
    }
}

/// The time stamps after reading the records `rows[0..n)` into `m`, or the message of
/// the first error.
pub open spec fn stamps_loaded(
    m: Map<Rir, TimeStampView>,
    rows: Seq<Seq<Seq<char>>>,
    n: nat,
    source: Seq<char>,
) -> Result<Map<Rir, TimeStampView>, Seq<char>>
    decreases n,
{
    if n == 0 {
        Ok(m)
    } else {
        match stamps_loaded(m, rows, (n - 1) as nat, source) {
            Err(e) => Err(e),
            Ok(m2) => match stamp_row(rows[n - 1], n, source) {
                Err(e) => Err(e),
                Ok(ts) => Ok(m2.insert(ts.0, ts)),
            },
        }
    }
}

/// The time stamps after reading a time stamp table into `m`, or the message of the
/// first error: the first invalid record's, else the reading error's.
pub open spec fn stamps_load(m: Map<Rir, TimeStampView>, table: TableView, source: Seq<char>) -> Result<
    Map<Rir, TimeStampView>,
    Seq<char>,
> {
    match stamps_loaded(m, table.0, table.0.len(), source) {
        Err(e) => Err(e),
        Ok(m2) => match table.1 {
            Some(e) => Err(stamp_read_error_message(table.0.len() + 1, source, e)),
            None => Ok(m2),
        },
    }
}

/// Once reading time stamp records has failed, reading more records fails the same way.
proof fn lemma_stamps_loaded_error_stays(
    m: Map<Rir, TimeStampView>,
    rows: Seq<Seq<Seq<char>>>,
    k: nat,
    n: nat,
    source: Seq<char>,
)
    requires
        k <= n,
        stamps_loaded(m, rows, k, source) is Err,
    ensures
        stamps_loaded(m, rows, n, source) == stamps_loaded(m, rows, k, source),
    decreases n - k,
{
    if k < n {
        lemma_stamps_loaded_error_stays(m, rows, k, (n - 1) as nat, source);
    }
}

/// The message for a time stamp record without the field `what`.
fn missing_stamp_field_error(what: &str, source: &str, record_index: usize) -> (s: String)
    ensures
        s@ == missing_stamp_field_message(what@, source@, record_index as nat),
{
    let m = join(text("missing "), what);
    let m = join(m, " in '");
    let m = join(m, source);
    let m = join(m, "' record ");
    join(m, u64_text(record_index as u64).as_str())
}

/// The message for a time stamp record whose field `what` holds the invalid `value`.
fn invalid_stamp_value_error(what: &str, value: &str, source: &str, record_index: usize, cause: &str) -> (s: String)
    ensures
        s@ == invalid_stamp_value_message(what@, value@, source@, record_index as nat, cause@),
{
    let m = join(text("invalid "), what);
    let m = join(m, " '");
    let m = join(m, value);
    let m = join(m, "' in '");
    let m = join(m, source);
    let m = join(m, "' record ");
    let m = join(m, u64_text(record_index as u64).as_str());
    let m = join(m, ": ");
    join(m, cause)
}

/// Reads one time stamp record (`source,serial,date`).
pub fn parse_stamp_record(record: &Vec<String>, record_index: usize, source: &str) -> (r: Result<TimeStamp, String>)
    ensures
        match stamp_row(row_view(*record), record_index as nat, source@) {
            Ok(ts) => r matches Ok(t) && t@ == ts,
            Err(msg) => r matches Err(e) && e@ == msg,
        },
{
    if record.len() < 1 {
        return Err(missing_stamp_field_error("source identifier", source, record_index));
    }
    if record.len() < 2 {
        return Err(missing_stamp_field_error("serial", source, record_index));
    }
    if record.len() < 3 {
        return Err(missing_stamp_field_error("timestamp", source, record_index));
    }
    let source_id = record[0].as_str();
    let serial = record[1].as_str();
    let last_updated = record[2].as_str();
    let serial_value = match parse_u64(serial) {
        Ok(v) => v,
        Err(cause) => {
            return Err(invalid_stamp_value_error("serial", serial, source, record_index, cause.as_str()));
        },
    };
    let date = match parse_rfc2822(last_updated) {
        Ok(d) => d,
        Err(cause) => {
            return Err(invalid_stamp_value_error("RFC2822 timestamp", last_updated, source, record_index, cause.as_str()));
        },
    };
    Ok(TimeStamp(Rir::from(source_id), serial_value, date))
}

/// Reads the records of a time stamp table (as read by `timestamps_table`) into
/// `timestamps`: each record's time stamp replaces the one kept for its source.
/// `source` names the data in error messages.
pub fn timestamps_from_table(timestamps: TimeStamps, table: &CsvTable, source: &str) -> (r: Result<TimeStamps, String>)
    requires
        table.rows.len() < u64::MAX,
    ensures
        match stamps_load(stamps_view(timestamps), table@, source@) {
            Ok(m) => r matches Ok(t) && stamps_view(t) == m,
            Err(msg) => r matches Err(e) && e@ == msg,
        },
{
    let ghost m0 = stamps_view(timestamps);
    let mut stamps = timestamps;
    let mut i: usize = 0;
    while i < table.rows.len()
        invariant
            0 <= i <= table.rows.len(),
            m0 == stamps_view(timestamps),
            stamps_loaded(m0, table@.0, i as nat, source@) == Ok::<Map<Rir, TimeStampView>, Seq<char>>(stamps_view(stamps)),
        decreases table.rows.len() - i,
    {
        let record = &table.rows[i];
        assert(table@.0[i as int] == row_view(*record));
        let ts = match parse_stamp_record(record, i + 1, source) {
            Ok(ts) => ts,
            Err(e) => {
                proof {
                    assert(stamps_loaded(m0, table@.0, (i + 1) as nat, source@) == Err::<Map<Rir, TimeStampView>, Seq<char>>(e@));
                    lemma_stamps_loaded_error_stays(m0, table@.0, (i + 1) as nat, table@.0.len(), source@);
                }
                return Err(e);
            },
        };
        let ghost before = stamps_view(stamps);
        let ghost tv = ts@;
        let _ = stamps.push(ts);
        assert(stamps_view(stamps) =~= before.insert(tv.0, tv));
        i = i + 1;
    }
    match &table.error {
        Some(e) => {
            let m = text("failed to parse timestamp record ");
            let m = join(m, u64_text((table.rows.len() as u64) + 1).as_str());
            let m = join(m, " in '");
            let m = join(m, source);
            let m = join(m, "': ");
            Err(join(m, e.as_str()))
        },
        None => Ok(stamps),
    }
}

/// The names of the time stamp files to read: RIS Whois's, and the delegated data's
/// when that data is loaded.
pub fn timestamp_files(include_delegated: bool) -> (v: Vec<String>)
    ensures
        v@.map_values(|s: String| s@) == if include_delegated {
            seq!["riswhois.timestamps.json"@, "del_ext.timestamps.json"@]
        } else {
            seq!["riswhois.timestamps.json"@]
        },
{
    let mut v: Vec<String> = Vec::new();
    v.push(text("riswhois.timestamps.json"));
    if include_delegated {
        v.push(text("del_ext.timestamps.json"));
    }
    assert(v@.map_values(|s: String| s@) =~= if include_delegated {
        seq!["riswhois.timestamps.json"@, "del_ext.timestamps.json"@]
    } else {
        seq!["riswhois.timestamps.json"@]
    });
    v
}

/// The status of one source: whether it is routing data (`bgp`) or an allocation
/// registry (`rir-alloc`), its identifier, the serial of its data, and when the data
/// was last updated (RFC 3339).
pub struct SourceStatus {
    pub kind: String,
    pub id: String,
    pub serial: u64,
    pub last_updated: String,
}

/// The status a time stamp reports.
pub open spec fn status_of(ts: TimeStampView) -> (Seq<char>, Seq<char>, u64, Seq<char>) {
    (
        if ts.0 == Rir::Unknown {
            "bgp"@
        } else {
            "rir-alloc"@
        },
        json_id(ts.0),
        ts.1,
        ts.2.0,
    )
}

/// The order in which sources are reported.
pub open spec fn source_order() -> Seq<Rir> {
    seq![Rir::Afrinic, Rir::Apnic, Rir::Arin, Rir::Lacnic, Rir::RipeNcc, Rir::Unknown]
}

/// The statuses of the sources of the first `n` of `order` that have a time stamp.
pub open spec fn statuses(t: TimeStamps, order: Seq<Rir>, n: nat) -> Seq<(Seq<char>, Seq<char>, u64, Seq<char>)>
    decreases n,
{
    if n == 0 {
        Seq::empty()
    } else {
        let prev = statuses(t, order, (n - 1) as nat);
        match t.stamp_of(order[n - 1]) {
            Some(ts) => prev.push(status_of(ts)),
            None => prev,
        }
    }
}

impl SourceStatus {
    /// The status as values.
    pub open spec fn view_tuple(self) -> (Seq<char>, Seq<char>, u64, Seq<char>) {
        (self.kind@, self.id@, self.serial, self.last_updated@)
    }
}

/// The status of the source of `ts`.
fn status_entry(ts: &TimeStamp) -> (s: SourceStatus)
    ensures
        s.view_tuple() == status_of(ts@),
{
    let kind = match ts.0 {
        Rir::Unknown => text("bgp"),
        _ => text("rir-alloc"),
    };
    SourceStatus { kind, id: ts.0.to_json_id(), serial: ts.1, last_updated: ts.2.rfc3339.clone() }
}

impl TimeStamps {
    /// The status of each source that has a time stamp, in the order AFRINIC, APNIC,
    /// ARIN, LACNIC, RIPE NCC, RIS Whois.
    pub fn source_status(&self) -> (v: Vec<SourceStatus>)
        ensures
            v@.map_values(|s: SourceStatus| s.view_tuple()) == statuses(*self, source_order(), 6),
    {
        let mut v: Vec<SourceStatus> = Vec::new();
        let slots = [&self.afrinic, &self.apnic, &self.arin, &self.lacnic, &self.ripencc, &self.riswhois];
        let ghost order = source_order();
        let mut i: usize = 0;
        while i < 6
            invariant
                0 <= i <= 6,
                order == source_order(),
                forall|k: int| 0 <= k < 6 ==> slot_view(*#[trigger] slots@[k]) == self.stamp_of(order[k]),
                v@.map_values(|s: SourceStatus| s.view_tuple()) == statuses(*self, order, i as nat),
            decreases 6 - i,
        {
            assert(slot_view(*slots@[i as int]) == self.stamp_of(order[i as int]));
            match slots[i] {
                Some(ts) => {
                    let ghost before = v@.map_values(|s: SourceStatus| s.view_tuple());
                    v.push(status_entry(ts));
                    assert(v@.map_values(|s: SourceStatus| s.view_tuple()) =~= before.push(status_of(ts@)));
                },
                None => {},
            }
            i = i + 1;
        }
        v
    }
}

/// The directory whose time stamp files are read: the one given, else the directory
/// of the delegated file, else that of the first RIS Whois file, else `.`.
pub open spec fn timestamps_dir_of(
    given: Option<Seq<char>>,
    prefixes_parent: Option<Seq<char>>,
    first_ris_parent: Option<Seq<char>>,
) -> Seq<char> {
    match given {
        Some(d) => d,
        None => match prefixes_parent {
            Some(d) => d,
            None => match first_ris_parent {
                Some(d) => d,
                None => "."@,
            },
        },
    }
}

/// Chooses the directory of the time stamp files: `given` when there is one, else the
/// directory of the delegated file, else that of the first RIS Whois file, else `.`.
pub fn timestamps_dir(
    given: Option<String>,
    prefixes_parent: Option<String>,
    first_ris_parent: Option<String>,
) -> (d: String)
    ensures
        d@ == timestamps_dir_of(
            match given {
                Some(g) => Some(g@),
                None => None,
            },
            match prefixes_parent {
                Some(p) => Some(p@),
                None => None,
            },
            match first_ris_parent {
                Some(p) => Some(p@),
                None => None,
            },
        ),
{
    match given {
        Some(d) => d,
        None => match prefixes_parent {
            Some(d) => d,
            None => match first_ris_parent {
                Some(d) => d,
                None => text("."),
            },
        },
    }
}

/// A time stamp table and the name of its source, as values.
pub type NamedTable = (TableView, Seq<char>);

/// A time stamp table and the name of its source, as values, when there is one.
pub open spec fn named_view(t: Option<(&CsvTable, &str)>) -> Option<NamedTable> {
    match t {
        Some((table, source)) => Some((table@, source@)),
        None => None,
    }
}

/// The time stamps after reading `table` (when there is one) into `m`, or the first
/// error.
pub open spec fn stamps_after(
    m: Result<Map<Rir, TimeStampView>, Seq<char>>,
    table: Option<NamedTable>,
) -> Result<Map<Rir, TimeStampView>, Seq<char>> {
    match m {
        Err(e) => Err(e),
        Ok(m) => match table {
            None => Ok(m),
            Some((t, source)) => stamps_load(m, t, source),
        },
    }
}

/// The time stamps of a data set: RIS Whois's table, then the delegated data's table
/// when delegated data is loaded; each table only when its file exists.
pub open spec fn imported_stamps(
    include_delegated: bool,
    riswhois: Option<NamedTable>,
    delegated: Option<NamedTable>,
) -> Result<Map<Rir, TimeStampView>, Seq<char>> {
    stamps_after(
        stamps_after(Ok(Map::empty()), riswhois),
        if include_delegated {
            delegated
        } else {
            None
        },
    )
}

/// Without delegated data, the delegated time stamps play no part.
pub proof fn lemma_delegated_stamps_ignored(
    riswhois: Option<NamedTable>,
    delegated: Option<NamedTable>,
    other: Option<NamedTable>,
)
    ensures
        imported_stamps(false, riswhois, delegated) == imported_stamps(false, riswhois, other),
        imported_stamps(false, riswhois, delegated) == imported_stamps(false, riswhois, None),
{
}

/// Reads the time stamps of a data set: the RIS Whois table, then the delegated
/// table when delegated data is loaded; a table is `None` when its file is missing.
/// Each table comes with the name of its source for error messages.
pub fn import_timestamps(
    include_delegated: bool,
    riswhois: Option<(&CsvTable, &str)>,
    delegated: Option<(&CsvTable, &str)>,
) -> (r: Result<TimeStamps, String>)
    requires
        riswhois matches Some((t, _)) ==> t.rows.len() < u64::MAX,
        delegated matches Some((t, _)) ==> t.rows.len() < u64::MAX,
    ensures
        match imported_stamps(include_delegated, named_view(riswhois), named_view(delegated)) {
            Ok(m) => r matches Ok(t) && stamps_view(t) == m,
            Err(msg) => r matches Err(e) && e@ == msg,
        },
{
    let empty = TimeStamps::default();
    assert(stamps_view(empty) =~= Map::<Rir, TimeStampView>::empty());
    let stamps = match riswhois {
        Some((table, source)) => timestamps_from_table(empty, table, source)?,
        None => empty,
    };
    if include_delegated {
        match delegated {
            Some((table, source)) => timestamps_from_table(stamps, table, source),
            None => Ok(stamps),
        }
    } else {
        Ok(stamps)
    }
}

} // verus!
