//! Which reader a tabular file needs.

use crate::extension::{eq_ignore_ascii_case, same_ignoring_ascii_case};
use vstd::prelude::*;
use vstd::string::StringSliceAdditionalSpecFns;

verus! {

/// The formats in which tables are read.
#[derive(Debug, Clone, Copy, PartialEq, Eq, Structural)]
pub enum TableFormat {
    /// Comma-separated text.
    Csv,
    /// The columnar parquet format.
    Parquet,
}

/// Why no reader can be picked for a file.
#[derive(Debug, Clone, Copy, PartialEq, Eq, Structural)]
pub enum TableFormatError {
    /// The file name has no extension to go by.
    MissingExtension,
    /// The extension is neither `csv` nor `parquet`.
    Unsupported,
}

impl TableFormatError {
    /// The sentence shown to the user.
    pub fn message(&self) -> (text: &'static str)
        ensures
            text@ == match *self {
                TableFormatError::MissingExtension => "Failed to extract file extension"@,
                TableFormatError::Unsupported => "Unsupported file format"@,
            },
    {
        match self {
            TableFormatError::MissingExtension => "Failed to extract file extension",
            TableFormatError::Unsupported => "Unsupported file format",
        }
    }
}

/// The extension reads `parquet`, in small or capital letters.
pub open spec fn names_parquet(extension: &str) -> bool {
    same_ignoring_ascii_case(extension.spec_bytes(), "parquet".spec_bytes())
}

/// The extension reads `csv`, in small or capital letters.
pub open spec fn names_csv(extension: &str) -> bool {
    same_ignoring_ascii_case(extension.spec_bytes(), "csv".spec_bytes())
}

/// Picks the reader for a table by the extension of its file, whatever the
/// case of the letters.
pub fn table_format(extension: Option<&str>) -> (r: Result<TableFormat, TableFormatError>)
    ensures
        extension is None <==> r == Err::<TableFormat, TableFormatError>(
            TableFormatError::MissingExtension,
        ),
        extension matches Some(e) ==> r == if names_parquet(e) {
            Ok::<TableFormat, TableFormatError>(TableFormat::Parquet)
        } else if names_csv(e) {
            Ok::<TableFormat, TableFormatError>(TableFormat::Csv)
        } else {
            Err::<TableFormat, TableFormatError>(TableFormatError::Unsupported)
        },
{
    match extension {
        None => Err(TableFormatError::MissingExtension),
        Some(e) => {
            if eq_ignore_ascii_case(e, "parquet") {
                Ok(TableFormat::Parquet)
            } else if eq_ignore_ascii_case(e, "csv") {
                Ok(TableFormat::Csv)
            } else {
                Err(TableFormatError::Unsupported)
            }
        },
    }
}

} // verus!
