//! Schema inference straight from the bytes of a CSV file with a header row.

use vstd::prelude::*;

use crate::infer::{infer_schema, inferred_schema_matches, ColumnSchema};

verus! {

/// Why a CSV file could not be decoded, with the decoder's message: in the
/// header row, or in a later record.
#[derive(Debug, Clone, PartialEq, Eq)]
pub enum CsvDecodeError {
    Header(String),
    Record(String),
}

/// The view of a decoding error: whether it was in the header row, and the
/// decoder's message.
pub open spec fn decode_error_view(e: CsvDecodeError) -> (bool, Seq<char>) {
    match e {
        CsvDecodeError::Header(m) => (true, m@),
        CsvDecodeError::Record(m) => (false, m@),
    }
}

/// What the `csv` crate's reader, with a header row and its defaults
/// otherwise, makes of `bytes`: the header fields and the records' fields,
/// or where decoding failed and the error's message.
pub uninterp spec fn csv_decoded(bytes: Seq<u8>) -> Result<
    (Seq<Seq<char>>, Seq<Seq<Seq<char>>>),
    (bool, Seq<char>),
>;

/// Decodes `bytes` with `csv::ReaderBuilder` (`has_headers(true)`): its
/// `headers` and then every item of `records`, stopping at the first error.
/// The contract names the outcome `csv_decoded(bytes)`.
#[verifier::external_body]
fn decode_csv(bytes: &[u8]) -> (r: Result<(Vec<String>, Vec<Vec<String>>), CsvDecodeError>)
    ensures
        match r {
            Ok((h, rows)) => csv_decoded(bytes@) == Ok::<
                (Seq<Seq<char>>, Seq<Seq<Seq<char>>>),
                (bool, Seq<char>),
            >((h.deep_view(), rows.deep_view())),
            Err(e) => csv_decoded(bytes@) == Err::<
                (Seq<Seq<char>>, Seq<Seq<Seq<char>>>),
                (bool, Seq<char>),
            >(decode_error_view(e)),
        },
{
    let mut reader = ::csv::ReaderBuilder::new().has_headers(true).from_reader(bytes);
    let headers = match reader.headers() {
        Ok(h) => h.iter().map(str::to_string).collect(),
        Err(e) => return Err(CsvDecodeError::Header(e.to_string())),
    };
    let mut rows = Vec::new();
    for record in reader.records() {
        match record {
            Ok(rec) => rows.push(rec.iter().map(str::to_string).collect()),
            Err(e) => return Err(CsvDecodeError::Record(e.to_string())),
        }
    }
    Ok((headers, rows))
}

/// Infers the schema of the CSV file whose bytes are `bytes`: its header row
/// names the columns, and at most `sample_limit` of its records (every one
/// for `None`) decide their types. Fails with the decoder's error exactly
/// when the file cannot be decoded.
pub fn infer_schema_of_csv(bytes: &[u8], sample_limit: Option<usize>) -> (r: Result<
    Vec<ColumnSchema>,
    CsvDecodeError,
>)
    ensures
        match csv_decoded(bytes@) {
            Ok((h, rows)) => r matches Ok(schema) && inferred_schema_matches(
                schema@,
                h,
                rows,
                sample_limit,
            ),
            Err(e) => r matches Err(err) && decode_error_view(err) == e,
        },
{
    match decode_csv(bytes) {
        Ok((headers, rows)) => Ok(infer_schema(headers.as_slice(), rows, sample_limit)),
        Err(e) => Err(e),
    }
}

} // verus!
