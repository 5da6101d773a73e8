//! The black-box record source for localization CSV files: rows in, first
//! columns out.

use vstd::prelude::*;

verus! {

/// A fault from the record source; carries its description.
#[derive(Debug)]
pub struct CsvReadError {
    pub message: String,
}

/// Relies on csv::Reader::from_path, Reader::records and
/// StringRecord::get: reads the CSV file at `path` and hands back the
/// first column of each data row (`None` for a row without one); the
/// reader treats the first row as a header row and does not return it.
/// What comes back depends on the file on disk, so nothing more is
/// promised of it.
#[verifier::external_body]
pub(crate) fn read_csv_first_fields(path: &str) -> (r: Result<Vec<Option<String>>, CsvReadError>) {
    let mut reader = match csv::Reader::from_path(path) {
        Ok(x) => x,
        Err(e) => return Err(CsvReadError { message: e.to_string() }),
    };
    let mut out: Vec<Option<String>> = Vec::new();
    for record in reader.records() {
        match record {
            Ok(rec) => out.push(rec.get(0).map(str::to_string)),
            Err(e) => return Err(CsvReadError { message: e.to_string() }),
        }
    }
    Ok(out)
}

} // verus!
