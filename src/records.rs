//! Reading and writing CSV text through the `csv` crate.

use vstd::prelude::*;
use crate::model::grid;

verus! {

#[verifier::external_type_specification]
#[verifier::external_body]
pub struct ExCsvError(csv::Error);

/// The records that the `csv` reader finds in `text`, read without a header
/// row and with a field count that may differ from record to record.
pub uninterp spec fn csv_records(text: Seq<char>) -> Seq<Seq<Seq<char>>>;

/// The text that the `csv` writer produces for `rows`, one record per row;
/// `None` where it reports an error.
pub uninterp spec fn csv_text(rows: Seq<Seq<Seq<char>>>) -> Option<Seq<char>>;

/// Relies on csv::ReaderBuilder (no header row, flexible field counts) and
/// csv::Reader::records: every record, each as its fields. Reading from a
/// byte slice has no I/O error, a flexible reader has no field-count error,
/// and fields cut from UTF-8 text at ASCII delimiters and quotes are UTF-8,
/// so it always succeeds.
#[verifier::external_body]
fn read_records(text: &str) -> (r: Result<Vec<Vec<String>>, csv::Error>)
    ensures
        r is Ok,
        match r {
            Ok(v) => csv_records(text@) == grid(v@),
            Err(_) => true,
        },
{
    let mut reader = csv::ReaderBuilder::new().has_headers(false).flexible(true).from_reader(
        text.as_bytes(),
    );
    let mut rows = Vec::new();
    for record in reader.records() {
        rows.push(record?.iter().map(|f| f.to_string()).collect());
    }
    Ok(rows)
}

/// Relies on csv::Writer::write_record and csv::Writer::into_inner: the
/// written bytes of all rows, as text. Writing to a `Vec` has no I/O error
/// and the only record error is a field count that differs from the first
/// record's, so rows of one length are always written; fields of UTF-8 text
/// with ASCII quoting give UTF-8 bytes.
#[verifier::external_body]
pub(crate) fn write_records(rows: &Vec<Vec<String>>) -> (r: Option<String>)
    ensures
        (forall|i: int| 0 <= i < rows@.len() ==> #[trigger] rows@[i]@.len() == rows@[0]@.len()) ==> r is Some,
        match r {
            Some(s) => csv_text(grid(rows@)) == Some(s@),
            None => csv_text(grid(rows@)).is_none(),
        },
{
    let mut writer = csv::Writer::from_writer(Vec::new());
    for row in rows.iter() {
        if writer.write_record(row).is_err() {
            return None;
        }
    }
    String::from_utf8(writer.into_inner().ok()?).ok()
}

/// The records of a CSV text, each as its fields; records may differ in
/// their field counts, and no text is refused.
pub fn get_string_records(text: &str) -> (r: Vec<Vec<String>>)
    ensures
        csv_records(text@) == grid(r@),
{
    match read_records(text) {
        Ok(v) => v,
        Err(_) => Vec::new(),
    }
}

} // verus!
