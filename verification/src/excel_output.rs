//! Folding every report file into one spreadsheet.
//!
//! Each discovered `.csv` file becomes one sheet: the sheet is named after
//! the file's base name (extension removed, truncated to the 31-character
//! sheet-name limit), and every record of the file is written verbatim as two
//! string cells.  The workbook itself comes from the `rust_xlsxwriter` crate;
//! the calls into it stand behind trusted wrappers whose contracts say what
//! that crate's source shows.

use vstd::prelude::*;

use rust_xlsxwriter::{Workbook, Worksheet, XlsxError};

use crate::csv_data::{parse_csv, row_views, rows_of, width_ok};
use crate::util::{base_name_spec, base_name_of};

verus! {

/// `rust_xlsxwriter::Workbook`, the in-memory spreadsheet under construction.
#[verifier::external_type_specification]
#[verifier::external_body]
pub struct ExWorkbook(Workbook);

/// `rust_xlsxwriter::Worksheet`, one sheet of cells.
#[verifier::external_type_specification]
#[verifier::external_body]
pub struct ExWorksheet(Worksheet);

/// `rust_xlsxwriter::XlsxError`, the spreadsheet library's error.
#[verifier::external_type_specification]
#[verifier::external_body]
pub struct ExXlsxError(XlsxError);

/// The name a worksheet carries.
pub uninterp spec fn ws_name(ws: Worksheet) -> Seq<char>;

/// The string cells a worksheet holds, keyed by (row, column).
pub uninterp spec fn ws_cells(ws: Worksheet) -> Map<(int, int), Seq<char>>;

/// The sheets a workbook holds, in insertion order: each sheet's name and
/// its string cells.
pub uninterp spec fn wb_sheets(wb: Workbook) -> Seq<(Seq<char>, Map<(int, int), Seq<char>>)>;

/// Whether the workbook carries the advisory read-only-recommended flag.
pub uninterp spec fn wb_read_only(wb: Workbook) -> bool;

/// Whether saving a workbook with these sheets and this flag succeeds.
/// Saving validates the workbook as a whole — for one, two sheet names
/// that collide case-insensitively fail it — and its verdict is a function
/// of the workbook alone.
pub uninterp spec fn save_ok_of(
    sheets: Seq<(Seq<char>, Map<(int, int), Seq<char>>)>,
    read_only: bool,
) -> bool;

/// A sheet without cells.
pub open spec fn no_cells() -> Map<(int, int), Seq<char>> {
    Map::empty()
}

/// A workbook without sheets.
pub open spec fn no_sheets() -> Seq<(Seq<char>, Map<(int, int), Seq<char>>)> {
    Seq::empty()
}

/// Whether `c` may not appear in a sheet name.
pub open spec fn is_bad_sheet_char(c: char) -> bool {
    c == '*' || c == '?' || c == ':' || c == '[' || c == ']' || c == '\\' || c == '/'
}

/// The sheet names the spreadsheet library accepts: non-empty, at most 31
/// characters, no `[ ] : * ? / \`, and no apostrophe at either end.
pub open spec fn valid_sheet_name(n: Seq<char>) -> bool {
    &&& n.len() > 0
    &&& n.len() <= 31
    &&& (forall|i: int| 0 <= i < n.len() ==> !is_bad_sheet_char(#[trigger] n[i]))
    &&& n[0] != '\''
    &&& n.last() != '\''
}

/// Relies on `rust_xlsxwriter::Workbook::new`: a new workbook holds no
/// sheets and no read-only recommendation.
#[verifier::external_body]
fn new_workbook() -> (r: Workbook)
    ensures
        wb_sheets(r) == no_sheets(),
        !wb_read_only(r),
{
    Workbook::new()
}

/// Relies on `rust_xlsxwriter::Worksheet::new`: a new worksheet has the
/// empty name and no cells.
#[verifier::external_body]
fn new_worksheet() -> (r: Worksheet)
    ensures
        ws_name(r) == Seq::<char>::empty(),
        ws_cells(r) == no_cells(),
{
    Worksheet::new()
}

/// Relies on `rust_xlsxwriter::Worksheet::set_name`: the name is validated
/// against the sheet-name rules and stored; on rejection the worksheet is
/// left as it was.
#[verifier::external_body]
fn set_sheet_name(ws: &mut Worksheet, name: &Vec<char>) -> (r: Result<(), XlsxError>)
    ensures
        r is Ok <==> valid_sheet_name(name@),
        r is Ok ==> ws_name(*final(ws)) == name@,
        r is Err ==> ws_name(*final(ws)) == ws_name(*old(ws)),
        ws_cells(*final(ws)) == ws_cells(*old(ws)),
{
    let text: String = name.iter().collect();
    match ws.set_name(text) {
        Ok(_) => Ok(()),
        Err(e) => Err(e),
    }
}

/// Relies on `rust_xlsxwriter::Worksheet::write_string`: an empty string is
/// ignored; a cell outside the sheet's row/column limits or a string over
/// 32767 characters is rejected; otherwise the cell is stored.
#[verifier::external_body]
fn write_cell_string(ws: &mut Worksheet, row: u32, col: u16, text: &Vec<char>) -> (r: Result<
    (),
    XlsxError,
>)
    ensures
        r is Ok <==> (text@.len() == 0 || (row < 1048576 && col < 16384 && text@.len() <= 32767)),
        text@.len() == 0 ==> ws_cells(*final(ws)) == ws_cells(*old(ws)),
        text@.len() > 0 && r is Ok ==> ws_cells(*final(ws)) == ws_cells(*old(ws)).insert(
            (row as int, col as int),
            text@,
        ),
        r is Err ==> ws_cells(*final(ws)) == ws_cells(*old(ws)),
        ws_name(*final(ws)) == ws_name(*old(ws)),
{
    let s: String = text.iter().collect();
    match ws.write_string(row, col, s) {
        Ok(_) => Ok(()),
        Err(e) => Err(e),
    }
}

/// Relies on `rust_xlsxwriter::Workbook::push_worksheet`: the sheet joins
/// the end of the workbook's sheet list (a sheet pushed with a non-empty
/// name keeps it).
#[verifier::external_body]
fn push_sheet(wb: &mut Workbook, ws: Worksheet)
    requires
        ws_name(ws).len() > 0,
    ensures
        wb_sheets(*final(wb)) == wb_sheets(*old(wb)).push((ws_name(ws), ws_cells(ws))),
        wb_read_only(*final(wb)) == wb_read_only(*old(wb)),
{
    wb.push_worksheet(ws);
}

/// Relies on `rust_xlsxwriter::Workbook::read_only_recommended`: the
/// advisory flag is set and the sheets are untouched.
#[verifier::external_body]
fn set_read_only_recommended(wb: &mut Workbook)
    ensures
        wb_read_only(*final(wb)),
        wb_sheets(*final(wb)) == wb_sheets(*old(wb)),
{
    wb.read_only_recommended();
}

/// Relies on `rust_xlsxwriter::Workbook::save_to_buffer`: whether saving
/// succeeds depends on the workbook alone, so its verdict carries the name
/// `save_ok_of`; nothing is stated of the bytes themselves, which embed
/// the file's creation time.
#[verifier::external_body]
fn save_workbook_to_buffer(wb: &mut Workbook) -> (r: Result<Vec<u8>, XlsxError>)
    ensures
        r is Ok <==> save_ok_of(wb_sheets(*old(wb)), wb_read_only(*old(wb))),
{
    wb.save_to_buffer()
}

/// Relies on `core::str::from_utf8`: the bytes decode exactly when they are
/// valid UTF-8, to the character sequence the UTF-8 coding gives them.
#[verifier::external_body]
fn chars_of_bytes(b: &Vec<u8>) -> (r: Option<Vec<char>>)
    ensures
        r is Some <==> vstd::utf8::valid_utf8(b@),
        r matches Some(v) ==> v@ == vstd::utf8::decode_utf8(b@),
{
    match core::str::from_utf8(b.as_slice()) {
        Ok(s) => Some(s.chars().collect()),
        Err(_) => None,
    }
}

/// Why the aggregation pass failed.
#[derive(Debug, Clone, Copy, PartialEq, Eq, Structural)]
pub enum ExcelOutputError {
    /// A source file could not be read, or the workbook not written out.
    Io,
    /// A source file broke the two-column delimited format (field count,
    /// structure, or a field that is not UTF-8).
    Csv,
    /// The spreadsheet library rejected a sheet name, a cell, or the save.
    Xlsx,
    /// A source file's base name could not be determined.
    NoFileName,
}

/// The sheet name a file's base name yields: the name with its last four
/// characters (the `.csv` extension) removed, truncated to 31 characters.
pub open spec fn sheet_name_spec(n: Seq<char>) -> Seq<char> {
    let stem = if n.len() >= 4 {
        n.take(n.len() - 4)
    } else {
        n
    };
    if stem.len() > 31 {
        stem.take(31)
    } else {
        stem
    }
}

/// A sheet name never exceeds the 31-character limit.
pub proof fn lemma_sheet_name_within_limit(n: Seq<char>)
    ensures
        sheet_name_spec(n).len() <= 31,
{
}

/// Derives the sheet name from a file's base name.
pub fn sheet_name_for(name: &Vec<char>) -> (r: Vec<char>)
    ensures
        r@ == sheet_name_spec(name@),
{
    let stem_len: usize = if name.len() >= 4 {
        name.len() - 4
    } else {
        name.len()
    };
    let end: usize = if stem_len > 31 {
        31
    } else {
        stem_len
    };
    let mut out: Vec<char> = Vec::new();
    let mut i: usize = 0;
    while i < end
        invariant
            i <= end <= name@.len(),
            out@ == name@.take(i as int),
        decreases end - i,
    {
        proof {
            assert(name@.take(i + 1) =~= name@.take(i as int).push(name@[i as int]));
        }
        out.push(name[i]);
        i = i + 1;
    }
    proof {
        assert(out@ =~= sheet_name_spec(name@));
    }
    out
}

/// Whether one record can be written as a sheet row: exactly two fields,
/// both valid UTF-8, neither over the 32767-character cell limit.
pub open spec fn row_writable(row: Seq<Seq<u8>>) -> bool {
    &&& row.len() == 2
    &&& vstd::utf8::valid_utf8(row[0])
    &&& vstd::utf8::valid_utf8(row[1])
    &&& vstd::utf8::decode_utf8(row[0]).len() <= 32767
    &&& vstd::utf8::decode_utf8(row[1]).len() <= 32767
}

/// The cells one record adds to a sheet at row `i`: its two fields in
/// columns 0 and 1, except that an empty field stores no cell.
pub open spec fn row_cells_into(
    m: Map<(int, int), Seq<char>>,
    i: int,
    row: Seq<Seq<u8>>,
) -> Map<(int, int), Seq<char>> {
    let c0 = vstd::utf8::decode_utf8(row[0]);
    let c1 = vstd::utf8::decode_utf8(row[1]);
    let m0 = if c0.len() > 0 {
        m.insert((i, 0), c0)
    } else {
        m
    };
    if c1.len() > 0 {
        m0.insert((i, 1), c1)
    } else {
        m0
    }
}

/// The string cells a file's records fill a sheet with: record `i` becomes
/// row `i`, verbatim.
pub open spec fn sheet_cells_of(rows: Seq<Seq<Seq<u8>>>) -> Map<(int, int), Seq<char>>
    decreases rows.len(),
{
    if rows.len() == 0 {
        Map::empty()
    } else {
        row_cells_into(sheet_cells_of(rows.drop_last()), rows.len() - 1, rows.last())
    }
}

/// A sheet holds cells only inside its source file's rows: every filled
/// cell lies at a row index below the record count, in column 0 or 1.
pub proof fn lemma_sheet_cells_within_rows(rows: Seq<Seq<Seq<u8>>>)
    ensures
        forall|k: (int, int)| #[trigger]
            sheet_cells_of(rows).dom().contains(k) ==> 0 <= k.0 < rows.len() && (k.1 == 0 || k.1
                == 1),
    decreases rows.len(),
{
    if rows.len() == 0 {
        assert(sheet_cells_of(rows).dom() =~= Set::<(int, int)>::empty());
    } else {
        lemma_sheet_cells_within_rows(rows.drop_last());
        assert forall|k: (int, int)| #[trigger]
            sheet_cells_of(rows).dom().contains(k) implies 0 <= k.0 < rows.len() && (k.1 == 0
            || k.1 == 1) by {
            if !sheet_cells_of(rows.drop_last()).dom().contains(k) {
                assert(k == (rows.len() - 1, 0int) || k == (rows.len() - 1, 1int));
            }
        }
    }
}

/// Record `i` of the source file appears verbatim as row `i` of the sheet:
/// each of its two fields fills its cell exactly when it is non-empty.
pub proof fn lemma_sheet_rows_are_verbatim(rows: Seq<Seq<Seq<u8>>>, i: int)
    requires
        0 <= i < rows.len(),
    ensures
        vstd::utf8::decode_utf8(rows[i][0]).len() > 0 ==> sheet_cells_of(rows).dom().contains(
            (i, 0),
        ) && sheet_cells_of(rows)[(i, 0)] == vstd::utf8::decode_utf8(rows[i][0]),
        vstd::utf8::decode_utf8(rows[i][1]).len() > 0 ==> sheet_cells_of(rows).dom().contains(
            (i, 1),
        ) && sheet_cells_of(rows)[(i, 1)] == vstd::utf8::decode_utf8(rows[i][1]),
        vstd::utf8::decode_utf8(rows[i][0]).len() == 0 ==> !sheet_cells_of(rows).dom().contains(
            (i, 0),
        ),
        vstd::utf8::decode_utf8(rows[i][1]).len() == 0 ==> !sheet_cells_of(rows).dom().contains(
            (i, 1),
        ),
    decreases rows.len(),
{
    lemma_sheet_cells_within_rows(rows.drop_last());
    if i < rows.len() - 1 {
        lemma_sheet_rows_are_verbatim(rows.drop_last(), i);
        assert(rows.drop_last()[i] == rows[i]);
    } else {
        assert(!sheet_cells_of(rows.drop_last()).dom().contains((i, 0)));
        assert(!sheet_cells_of(rows.drop_last()).dom().contains((i, 1)));
    }
}

/// Whether a whole file can become a sheet: strict parsing accepts it,
/// every record is writable, and the records fit under the sheet's row
/// limit.
pub open spec fn sheet_content_ok(content: Seq<u8>) -> bool {
    let rows = rows_of(content);
    &&& width_ok(rows)
    &&& (forall|i: int| 0 <= i < rows.len() ==> row_writable(#[trigger] rows[i]))
    &&& rows.len() <= 1048576
}

/// The first fault record `i` hits, in the order the sheet builder checks:
/// the sheet's row limit, then the field count and the encoding, then the
/// cell-length limit of each column.
pub open spec fn row_fault(row: Seq<Seq<u8>>, i: int) -> Option<ExcelOutputError> {
    if i >= 1048576 {
        Some(ExcelOutputError::Xlsx)
    } else if row.len() != 2 {
        Some(ExcelOutputError::Csv)
    } else if !vstd::utf8::valid_utf8(row[0]) {
        Some(ExcelOutputError::Csv)
    } else if !vstd::utf8::valid_utf8(row[1]) {
        Some(ExcelOutputError::Csv)
    } else if vstd::utf8::decode_utf8(row[0]).len() > 32767 {
        Some(ExcelOutputError::Xlsx)
    } else if vstd::utf8::decode_utf8(row[1]).len() > 32767 {
        Some(ExcelOutputError::Xlsx)
    } else {
        None
    }
}

/// The first faulty record of the file at or after record `i`.
pub open spec fn content_fault_from(rows: Seq<Seq<Seq<u8>>>, i: int) -> Option<ExcelOutputError>
    decreases rows.len() - i,
{
    if i < 0 || i >= rows.len() {
        None
    } else if row_fault(rows[i], i) is Some {
        row_fault(rows[i], i)
    } else {
        content_fault_from(rows, i + 1)
    }
}

/// The first fault that stops one file from becoming a sheet, in the order
/// the builder hits them: the derived sheet name, then the file's
/// structure, then its records one by one.
pub open spec fn sheet_fault(name: Seq<char>, content: Seq<u8>) -> Option<ExcelOutputError> {
    if !valid_sheet_name(sheet_name_spec(name)) {
        Some(ExcelOutputError::Xlsx)
    } else if !width_ok(rows_of(content)) {
        Some(ExcelOutputError::Csv)
    } else {
        content_fault_from(rows_of(content), 0)
    }
}

/// The scan from `i` is clean exactly when every record from `i` on is.
proof fn lemma_content_fault_scan(rows: Seq<Seq<Seq<u8>>>, i: int)
    requires
        0 <= i <= rows.len(),
    ensures
        content_fault_from(rows, i) is None <==> (forall|j: int|
            i <= j < rows.len() ==> row_fault(#[trigger] rows[j], j) is None),
    decreases rows.len() - i,
{
    if i < rows.len() {
        lemma_content_fault_scan(rows, i + 1);
    }
}

/// A clean prefix does not move the first fault: the scan from the start
/// agrees with the scan from `i` when every record before `i` is clean.
proof fn lemma_content_fault_clean_prefix(rows: Seq<Seq<Seq<u8>>>, i: int)
    requires
        0 <= i <= rows.len(),
        forall|j: int| 0 <= j < i ==> row_fault(#[trigger] rows[j], j) is None,
    ensures
        content_fault_from(rows, 0) == content_fault_from(rows, i),
    decreases i,
{
    if i > 0 {
        lemma_content_fault_clean_prefix(rows, i - 1);
    }
}

/// A file folds into a sheet without fault exactly when its name is
/// acceptable and its whole content is writable.
pub proof fn lemma_sheet_fault_none_iff(name: Seq<char>, content: Seq<u8>)
    ensures
        sheet_fault(name, content) is None <==> valid_sheet_name(sheet_name_spec(name))
            && sheet_content_ok(content),
{
    let rows = rows_of(content);
    lemma_content_fault_scan(rows, 0);
    if valid_sheet_name(sheet_name_spec(name)) && width_ok(rows) {
        if content_fault_from(rows, 0) is None {
            assert forall|i: int| 0 <= i < rows.len() implies row_writable(
                #[trigger] rows[i],
            ) by {
                assert(row_fault(rows[i], i) is None);
            }
            if rows.len() > 0 {
                assert(row_fault(rows[rows.len() - 1], rows.len() - 1) is None);
                assert(rows.len() <= 1048576);
            }
        }
        if sheet_content_ok(content) {
            assert forall|j: int| 0 <= j < rows.len() implies row_fault(
                #[trigger] rows[j],
                j,
            ) is None by {
                assert(row_writable(rows[j]));
            }
        }
    }
}

/// Builds the sheet for one discovered file: the sheet named after the
/// file, filled with the file's records as verbatim two-column string rows.
///
/// Succeeds exactly when the derived sheet name is acceptable and the whole
/// content is writable; otherwise the result is exactly the first fault
/// hit: a name fault or a cell/row-limit fault is an `Xlsx` error, a
/// format fault (structure, field count, encoding) a `Csv` error.
pub fn build_sheet(name: &Vec<char>, content: &[u8]) -> (r: Result<Worksheet, ExcelOutputError>)
    ensures
        r is Ok <==> sheet_fault(name@, content@) is None,
        r is Ok <==> valid_sheet_name(sheet_name_spec(name@)) && sheet_content_ok(content@),
        r matches Ok(ws) ==> ws_name(ws) == sheet_name_spec(name@) && ws_cells(ws)
            == sheet_cells_of(rows_of(content@)),
        r matches Err(e) ==> Some(e) == sheet_fault(name@, content@),
{
    proof {
        lemma_sheet_fault_none_iff(name@, content@);
    }
    let mut ws = new_worksheet();
    let sheet_name = sheet_name_for(name);
    match set_sheet_name(&mut ws, &sheet_name) {
        Ok(_) => (),
        Err(_) => {
            return Err(ExcelOutputError::Xlsx);
        },
    }
    let rows = match parse_csv(content) {
        Ok(rows) => rows,
        Err(_) => {
            return Err(ExcelOutputError::Csv);
        },
    };
    let ghost g = rows_of(content@);
    let mut i: usize = 0;
    proof {
        assert(ws_cells(ws) =~= sheet_cells_of(g.take(0)));
    }
    while i < rows.len()
        invariant
            i <= rows.len(),
            row_views(rows@) == g,
            g == rows_of(content@),
            width_ok(g),
            valid_sheet_name(sheet_name_spec(name@)),
            ws_name(ws) == sheet_name_spec(name@),
            ws_cells(ws) == sheet_cells_of(g.take(i as int)),
            forall|j: int| 0 <= j < i ==> row_fault(#[trigger] g[j], j) is None,
            i <= 1048576,
        decreases rows.len() - i,
    {
        let ghost row = g[i as int];
        proof {
            assert(g.take(i + 1).drop_last() =~= g.take(i as int));
            assert(g.take(i + 1).last() == row);
            lemma_sheet_fault_none_iff(name@, content@);
            lemma_content_fault_clean_prefix(g, i as int);
        }
        if i >= 1048576 {
            proof {
                assert(sheet_fault(name@, content@) == Some(ExcelOutputError::Xlsx));
            }
            return Err(ExcelOutputError::Xlsx);
        }
        let fields: &Vec<Vec<u8>> = &rows[i];
        proof {
            assert(row == crate::csv_data::field_views(fields@));
        }
        if fields.len() != 2 {
            proof {
                assert(row_fault(row, i as int) == Some(ExcelOutputError::Csv));
                assert(sheet_fault(name@, content@) == Some(ExcelOutputError::Csv));
            }
            return Err(ExcelOutputError::Csv);
        }
        let c0 = match chars_of_bytes(&fields[0]) {
            Some(c) => c,
            None => {
                proof {
                    assert(row_fault(row, i as int) == Some(ExcelOutputError::Csv));
                    assert(sheet_fault(name@, content@) == Some(ExcelOutputError::Csv));
                }
                return Err(ExcelOutputError::Csv);
            },
        };
        let c1 = match chars_of_bytes(&fields[1]) {
            Some(c) => c,
            None => {
                proof {
                    assert(row_fault(row, i as int) == Some(ExcelOutputError::Csv));
                    assert(sheet_fault(name@, content@) == Some(ExcelOutputError::Csv));
                }
                return Err(ExcelOutputError::Csv);
            },
        };
        let row_num: u32 = i as u32;
        match write_cell_string(&mut ws, row_num, 0, &c0) {
            Ok(_) => (),
            Err(_) => {
                proof {
                    assert(vstd::utf8::decode_utf8(row[0]).len() > 32767);
                    assert(row_fault(row, i as int) == Some(ExcelOutputError::Xlsx));
                    assert(sheet_fault(name@, content@) == Some(ExcelOutputError::Xlsx));
                }
                return Err(ExcelOutputError::Xlsx);
            },
        }
        match write_cell_string(&mut ws, row_num, 1, &c1) {
            Ok(_) => (),
            Err(_) => {
                proof {
                    assert(vstd::utf8::decode_utf8(row[0]).len() <= 32767);
                    assert(vstd::utf8::decode_utf8(row[1]).len() > 32767);
                    assert(row_fault(row, i as int) == Some(ExcelOutputError::Xlsx));
                    assert(sheet_fault(name@, content@) == Some(ExcelOutputError::Xlsx));
                }
                return Err(ExcelOutputError::Xlsx);
            },
        }
        proof {
            assert(vstd::utf8::decode_utf8(row[0]).len() <= 32767);
            assert(vstd::utf8::decode_utf8(row[1]).len() <= 32767);
            assert(row_fault(row, i as int) is None);
            assert(ws_cells(ws) =~= sheet_cells_of(g.take(i + 1)));
        }
        i = i + 1;
    }
    proof {
        assert(g.take(i as int) =~= g);
        lemma_content_fault_scan(g, 0);
        lemma_sheet_fault_none_iff(name@, content@);
        assert(sheet_fault(name@, content@) is None);
    }
    Ok(ws)
}

/// One discovered file the aggregation pass folds in: its path and its
/// content.
pub struct SheetSource {
    /// The file's full path.
    pub path: Vec<char>,
    /// The file's bytes.
    pub bytes: Vec<u8>,
}

/// The first fault one discovered file hits: a missing base name before
/// anything else, then whatever stops its sheet.
pub open spec fn source_fault(f: SheetSource) -> Option<ExcelOutputError> {
    if base_name_spec(f.path@) is None {
        Some(ExcelOutputError::NoFileName)
    } else {
        sheet_fault(base_name_spec(f.path@)->0, f.bytes@)
    }
}

/// Whether one discovered file folds into a sheet without a fault.
pub open spec fn source_ok(f: SheetSource) -> bool {
    source_fault(f) is None
}

/// The sheet one discovered file becomes: its name and its cells.
pub open spec fn sheet_model_of(f: SheetSource) -> (Seq<char>, Map<(int, int), Seq<char>>) {
    (sheet_name_spec(base_name_spec(f.path@)->0), sheet_cells_of(rows_of(f.bytes@)))
}

/// Folds every discovered file into the workbook, one sheet per file, in
/// the order given.
///
/// Succeeds exactly when every file folds in cleanly; the workbook then
/// grew by exactly one sheet per file, each named after its file and
/// holding its file's records as rows.  The first file that does not fold
/// in aborts the pass.
pub fn fill_workbook(wb: &mut Workbook, files: &Vec<SheetSource>) -> (r: Result<
    (),
    ExcelOutputError,
>)
    ensures
        r is Ok <==> (forall|i: int| 0 <= i < files@.len() ==> source_ok(#[trigger] files@[i])),
        r is Ok ==> wb_sheets(*final(wb)) == wb_sheets(*old(wb)) + files@.map_values(
            |f: SheetSource| sheet_model_of(f),
        ),
        wb_read_only(*final(wb)) == wb_read_only(*old(wb)),
        r matches Err(e) ==> exists|i: int|
            {
                &&& 0 <= i < files@.len()
                &&& Some(e) == source_fault(#[trigger] files@[i])
                &&& forall|j: int| 0 <= j < i ==> source_ok(#[trigger] files@[j])
            },
{
    let ghost models = files@.map_values(|f: SheetSource| sheet_model_of(f));
    let mut i: usize = 0;
    proof {
        assert(wb_sheets(*wb) + models.take(0) =~= wb_sheets(*wb));
    }
    while i < files.len()
        invariant
            i <= files@.len(),
            models == files@.map_values(|f: SheetSource| sheet_model_of(f)),
            wb_sheets(*wb) == wb_sheets(*old(wb)) + models.take(i as int),
            wb_read_only(*wb) == wb_read_only(*old(wb)),
            forall|j: int| 0 <= j < i ==> source_ok(#[trigger] files@[j]),
        decreases files.len() - i,
    {
        let f: &SheetSource = &files[i];
        let name = match base_name_of(&f.path) {
            Some(n) => n,
            None => {
                proof {
                    assert(source_fault(files@[i as int]) == Some(ExcelOutputError::NoFileName));
                }
                return Err(ExcelOutputError::NoFileName);
            },
        };
        match build_sheet(&name, f.bytes.as_slice()) {
            Ok(ws) => {
                proof {
                    assert(source_ok(files@[i as int]));
                    assert(ws_name(ws).len() > 0);
                    assert((wb_sheets(*old(wb)) + models.take(i as int)).push(
                        sheet_model_of(files@[i as int]),
                    ) =~= wb_sheets(*old(wb)) + models.take(i + 1));
                }
                push_sheet(wb, ws);
            },
            Err(e) => {
                proof {
                    assert(Some(e) == source_fault(files@[i as int]));
                }
                return Err(e);
            },
        }
        i = i + 1;
    }
    proof {
        assert(models.take(i as int) =~= models);
    }
    Ok(())
}

/// Builds the whole aggregation workbook from the discovered files and
/// serializes it: one sheet per file, the read-only recommendation set,
/// and the finished spreadsheet returned as bytes for the caller to write
/// to `output.xlsx`.
///
/// Succeeds exactly when every file folds in cleanly and the spreadsheet
/// library's own save of the resulting workbook does; a file that does not
/// fold in aborts the pass with exactly its first fault, and a save
/// failure (for one, two sheet names that collide after truncation)
/// surfaces as an `Xlsx` error.
pub fn collect_csv_into_workbook(files: &Vec<SheetSource>) -> (r: Result<
    Vec<u8>,
    ExcelOutputError,
>)
    ensures
        r is Ok <==> (forall|i: int| 0 <= i < files@.len() ==> source_ok(#[trigger] files@[i]))
            && save_ok_of(files@.map_values(|f: SheetSource| sheet_model_of(f)), true),
        r matches Err(e) ==> {
            ||| exists|i: int|
                {
                    &&& 0 <= i < files@.len()
                    &&& Some(e) == source_fault(#[trigger] files@[i])
                    &&& forall|j: int| 0 <= j < i ==> source_ok(#[trigger] files@[j])
                }
            ||| {
                &&& e == ExcelOutputError::Xlsx
                &&& (forall|i: int| 0 <= i < files@.len() ==> source_ok(#[trigger] files@[i]))
                &&& !save_ok_of(files@.map_values(|f: SheetSource| sheet_model_of(f)), true)
            }
        },
{
    let ghost models = files@.map_values(|f: SheetSource| sheet_model_of(f));
    let mut wb = new_workbook();
    match fill_workbook(&mut wb, files) {
        Ok(_) => (),
        Err(e) => {
            return Err(e);
        },
    }
    set_read_only_recommended(&mut wb);
    proof {
        assert(wb_sheets(wb) =~= models);
    }
    match save_workbook_to_buffer(&mut wb) {
        Ok(buffer) => Ok(buffer),
        Err(_) => Err(ExcelOutputError::Xlsx),
    }
}

} // verus!
