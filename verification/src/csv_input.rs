use vstd::prelude::*;

verus! {

/// The records of a CSV text, each a list of fields, and the text of the error that
/// stopped the reading, if one did.
pub struct CsvTable {
    pub rows: Vec<Vec<String>>,
    pub error: Option<String>,
}

/// A table as values: the rows' fields and the error, if any.
pub type TableView = (Seq<Seq<Seq<char>>>, Option<Seq<char>>);

/// The fields of a row as values.
pub open spec fn row_view(row: Vec<String>) -> Seq<Seq<char>> {
    row@.map_values(|f: String| f@)
}

impl View for CsvTable {
    type V = TableView;

    open spec fn view(&self) -> TableView {
        (
            self.rows@.map_values(|row: Vec<String>| row_view(row)),
            match &self.error {
                Some(e) => Some(e@),
                None => None,
            },
        )
    }
}

/// What the `csv` crate's reader, built with the given delimiter and settings (a
/// header row or none, records of any length or of one length, header fields trimmed
/// or not), reads from `data`: the records up to the first error, and that error's text.
pub uninterp spec fn csv_records(
    data: Seq<u8>,
    delimiter: u8,
    has_headers: bool,
    flexible: bool,
    trim_headers: bool,
) -> TableView;

/// Reads `data` with a `csv::ReaderBuilder` of the given settings, collecting
/// `StringRecord`s until the first error.
#[verifier::external_body]
fn read_csv(data: &[u8], delimiter: u8, has_headers: bool, flexible: bool, trim_headers: bool) -> (t: CsvTable)
    ensures
        t@ == csv_records(data@, delimiter, has_headers, flexible, trim_headers),
{
    let trim = if trim_headers { csv::Trim::Headers } else { csv::Trim::None };
    let mut rdr = csv::ReaderBuilder::new().delimiter(delimiter).has_headers(has_headers)
        .flexible(flexible).trim(trim).from_reader(data);
    let mut rows = Vec::new();
    for record in rdr.records() {
        match record {
            Ok(r) => rows.push(r.iter().map(String::from).collect()),
            Err(e) => return CsvTable { rows, error: Some(e.to_string()) },
        }
    }
    CsvTable { rows, error: None }
}

/// Reads a RIS Whois dump: comma-separated, no header row, every record of one length.
pub fn riswhois_table(data: &[u8]) -> (t: CsvTable)
    ensures
        t@ == csv_records(data@, 44u8, false, false, false),
{
    read_csv(data, 44u8, false, false, false)
}

/// Reads a delegated-statistics file: `|`-separated, no header row, records of any
/// length.
pub fn delegated_table(data: &[u8]) -> (t: CsvTable)
    ensures
        t@ == csv_records(data@, 124u8, false, true, true),
{
    read_csv(data, 124u8, false, true, true)
}

/// Reads a timestamps file: comma-separated, with a header row, records of any length.
pub fn timestamps_table(data: &[u8]) -> (t: CsvTable)
    ensures
        t@ == csv_records(data@, 44u8, true, true, true),
{
    read_csv(data, 44u8, true, true, true)
}

} // verus!
