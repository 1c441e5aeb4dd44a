//! Validation of bulk buyer-data CSV exports.
//!
//! The library walks a directory tree of CSV files, checks that the barcode
//! column of each file forms an unbroken descending sequence, and produces a
//! per-file report of the rows that break that sequence.  A second pass folds
//! every produced report into a single multi-sheet spreadsheet.
//!
//! All I/O is the caller's business: the functions here work on plain values
//! (bytes of a file, path strings as character vectors) and state exactly what
//! they compute.

use vstd::prelude::*;

pub mod csv_data;
pub mod digits;
pub mod excel_output;
pub mod file_checks;
pub mod util;

pub use excel_output::{collect_csv_into_workbook, ExcelOutputError, SheetSource};
pub use file_checks::{check_file, CheckFileError, CheckFolderError};

verus! {

/// The parsed configuration the validation run is driven by.
///
/// Exactly one of `file_path` / `folder_path` is expected; `output_folder`
/// names the directory that reports are written into, and `excel_sheet`
/// toggles the spreadsheet aggregation pass.
pub struct Args {
    /// Single CSV file to check, if the run targets one file.
    pub file_path: Option<Vec<char>>,
    /// Directory of CSV files to check, if the run targets a directory.
    pub folder_path: Option<Vec<char>>,
    /// Directory the reports are written into.
    pub output_folder: Vec<char>,
    /// Whether the aggregation pass runs after validation.
    pub excel_sheet: bool,
}

/// Which validation pass a configuration asks for.
#[derive(Debug, PartialEq, Eq, Structural, Clone, Copy)]
pub enum RunMode {
    /// Validate the single file named by `file_path`.
    SingleFile,
    /// Validate every file under the directory named by `folder_path`.
    Directory,
}

impl Args {
    /// The pass this configuration asks for: the single file takes precedence,
    /// then the directory; neither present is a misconfiguration (`None`).
    pub fn run_mode(&self) -> (r: Option<RunMode>)
        ensures
            self.file_path is Some ==> r == Some(RunMode::SingleFile),
            self.file_path is None && self.folder_path is Some ==> r == Some(RunMode::Directory),
            self.file_path is None && self.folder_path is None ==> r is None,
    {
        if self.file_path.is_some() {
            Some(RunMode::SingleFile)
        } else if self.folder_path.is_some() {
            Some(RunMode::Directory)
        } else {
            None
        }
    }
}

/// One anomalous row: the sequence index of the row that broke barcode
/// continuity, and that row's own barcode value.
#[derive(Debug, Default, Clone, Copy, PartialEq, Eq, Structural)]
pub struct BadDataRecord {
    /// Column 0 of the offending row.
    pub index: usize,
    /// The offending row's barcode, after the check digit is stripped.
    pub data: u64,
}

} // verus!
