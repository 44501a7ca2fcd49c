//! The records of a CSV file, as the `csv` crate splits them.
use vstd::prelude::*;

verus! {

/// An error of the `csv` crate: malformed CSV or data that is not UTF-8.
#[verifier::external_type_specification]
#[verifier::external_body]
pub struct ExCsvError(csv::Error);

/// The records of the CSV data `data` as `csv::Reader` yields them with no header row, every
/// field trimmed of white space, records of any length allowed, and empty lines skipped: each
/// record is its fields, or `None` where the reader reports an error.
pub uninterp spec fn csv_records(data: Seq<u8>) -> Seq<Option<Seq<Seq<char>>>>;

/// The text of every field of a record.
pub open spec fn fields_view(v: Seq<String>) -> Seq<Seq<char>> {
    v.map_values(|s: String| s@)
}

/// Whether the records read agree with the records named for the data.
pub open spec fn records_agree(
    r: Seq<Result<Vec<String>, csv::Error>>,
    spec: Seq<Option<Seq<Seq<char>>>>,
) -> bool {
    &&& r.len() == spec.len()
    &&& forall|i: int|
        0 <= i < r.len() ==> match (#[trigger] r[i], spec[i]) {
            (Ok(v), Some(f)) => fields_view(v@) == f,
            (Err(_), None) => true,
            _ => false,
        }
}

/// The text of the records read: the fields of each record, or `None` for a record the reader
/// reported an error for.
pub open spec fn records_view(r: Seq<Result<Vec<String>, csv::Error>>) -> Seq<Option<Seq<Seq<char>>>> {
    r.map_values(
        |x: Result<Vec<String>, csv::Error>|
            match x {
                Ok(v) => Some(fields_view(v@)),
                Err(_) => None,
            },
    )
}

/// Records that agree with `spec` have `spec` as their text, and every record agrees with its
/// own text.
pub proof fn lemma_records_view(r: Seq<Result<Vec<String>, csv::Error>>, spec: Seq<Option<Seq<Seq<char>>>>)
    ensures
        records_agree(r, records_view(r)),
        records_agree(r, spec) ==> records_view(r) == spec,
{
    assert forall|i: int| 0 <= i < r.len() implies match (#[trigger] r[i], records_view(r)[i]) {
        (Ok(v), Some(f)) => fields_view(v@) == f,
        (Err(_), None) => true,
        _ => false,
    } by {}
    if records_agree(r, spec) {
        assert forall|i: int| 0 <= i < r.len() implies #[trigger] records_view(r)[i] == spec[i] by {
            match (r[i], spec[i]) {
                (Ok(v), Some(f)) => {},
                (Err(_), None) => {},
                _ => {},
            }
        }
        assert(records_view(r) =~= spec);
    }
}

/// Reads all records of CSV data with `csv::ReaderBuilder` (no headers, `Trim::All`,
/// flexible record lengths) and `Reader::into_records`, keeping each record's fields as
/// strings or the error the reader reported for it.
#[verifier::external_body]
pub(crate) fn read_csv_records(data: &[u8]) -> (r: Vec<Result<Vec<String>, csv::Error>>)
    ensures
        records_agree(r@, csv_records(data@)),
{
    csv::ReaderBuilder::new().has_headers(false).trim(csv::Trim::All).flexible(true).from_reader(
        data,
    ).into_records().map(|rec| rec.map(|rec| rec.iter().map(|f| f.to_string()).collect())).collect()
}

} // verus!
