//! The delimited-record format the validator reads and writes.
//!
//! A file is a sequence of records separated by line-terminator bytes (LF or
//! CR); empty lines produce no record.  Commas separate the fields of a
//! record.  A field that begins with a double quote runs to the closing
//! quote and may hold commas, terminators and doubled quotes (`""` for one
//! literal quote); a quote inside an unquoted field is an ordinary byte.
//! Under strict parsing every record must have the same number of fields as
//! the first record of the file.

use vstd::prelude::*;

verus! {

/// Whether `b` terminates a line.
pub open spec fn is_line_term(b: u8) -> bool {
    b == 10 || b == 13
}

/// The comma byte, which separates fields within a record.
pub open spec fn is_field_sep(b: u8) -> bool {
    b == 44
}

/// The double-quote byte, which opens and closes a quoted field.
pub open spec fn is_quote(b: u8) -> bool {
    b == 34
}

/// Where the scanner stands within the current record.
#[derive(Debug, Clone, Copy, PartialEq, Eq, Structural)]
pub enum CsvMode {
    /// Before the first byte of a line; a terminator here is a blank line.
    LineStart,
    /// Right after a comma, before the next field's first byte.
    FieldStart,
    /// Inside an unquoted field.
    Unquoted,
    /// Inside a quoted field, behind the opening quote.
    Quoted,
    /// Inside a quoted field, having just read a quote.
    QuoteInQuoted,
}

/// The records of `rest`, given the scanner's position `mode`, the bytes
/// `cur` of the current field, the finished fields `row` of the current
/// record, and the finished records `rows`.
pub open spec fn scan_csv(
    rest: Seq<u8>,
    mode: CsvMode,
    cur: Seq<u8>,
    row: Seq<Seq<u8>>,
    rows: Seq<Seq<Seq<u8>>>,
) -> Seq<Seq<Seq<u8>>>
    decreases rest.len(),
{
    if rest.len() == 0 {
        match mode {
            CsvMode::LineStart => rows,
            _ => rows.push(row.push(cur)),
        }
    } else {
        let b = rest[0];
        let tail = rest.drop_first();
        match mode {
            CsvMode::LineStart => {
                if is_line_term(b) {
                    scan_csv(tail, CsvMode::LineStart, cur, row, rows)
                } else if is_field_sep(b) {
                    scan_csv(tail, CsvMode::FieldStart, Seq::empty(), row.push(cur), rows)
                } else if is_quote(b) {
                    scan_csv(tail, CsvMode::Quoted, cur, row, rows)
                } else {
                    scan_csv(tail, CsvMode::Unquoted, cur.push(b), row, rows)
                }
            },
            CsvMode::FieldStart => {
                if is_line_term(b) {
                    scan_csv(
                        tail,
                        CsvMode::LineStart,
                        Seq::empty(),
                        Seq::empty(),
                        rows.push(row.push(cur)),
                    )
                } else if is_field_sep(b) {
                    scan_csv(tail, CsvMode::FieldStart, Seq::empty(), row.push(cur), rows)
                } else if is_quote(b) {
                    scan_csv(tail, CsvMode::Quoted, cur, row, rows)
                } else {
                    scan_csv(tail, CsvMode::Unquoted, cur.push(b), row, rows)
                }
            },
            CsvMode::Unquoted => {
                if is_line_term(b) {
                    scan_csv(
                        tail,
                        CsvMode::LineStart,
                        Seq::empty(),
                        Seq::empty(),
                        rows.push(row.push(cur)),
                    )
                } else if is_field_sep(b) {
                    scan_csv(tail, CsvMode::FieldStart, Seq::empty(), row.push(cur), rows)
                } else {
                    scan_csv(tail, CsvMode::Unquoted, cur.push(b), row, rows)
                }
            },
            CsvMode::Quoted => {
                if is_quote(b) {
                    scan_csv(tail, CsvMode::QuoteInQuoted, cur, row, rows)
                } else {
                    scan_csv(tail, CsvMode::Quoted, cur.push(b), row, rows)
                }
            },
            CsvMode::QuoteInQuoted => {
                if is_quote(b) {
                    scan_csv(tail, CsvMode::Quoted, cur.push(b), row, rows)
                } else if is_line_term(b) {
                    scan_csv(
                        tail,
                        CsvMode::LineStart,
                        Seq::empty(),
                        Seq::empty(),
                        rows.push(row.push(cur)),
                    )
                } else if is_field_sep(b) {
                    scan_csv(tail, CsvMode::FieldStart, Seq::empty(), row.push(cur), rows)
                } else {
                    scan_csv(tail, CsvMode::Unquoted, cur.push(b), row, rows)
                }
            },
        }
    }
}

/// The records of a whole file, fields split on commas outside quotes,
/// records on terminators outside quotes, empty lines dropped.
pub open spec fn rows_of(s: Seq<u8>) -> Seq<Seq<Seq<u8>>> {
    scan_csv(s, CsvMode::LineStart, Seq::empty(), Seq::empty(), Seq::empty())
}

/// Strict parsing accepts a file only when every record has as many fields
/// as the first record.
pub open spec fn width_ok(rows: Seq<Seq<Seq<u8>>>) -> bool {
    forall|i: int| 0 <= i < rows.len() ==> (#[trigger] rows[i]).len() == rows[0].len()
}

/// The structural error strict parsing reports: the first record whose
/// field count differs from the first record's.
#[derive(Debug, Clone, Copy, PartialEq, Eq, Structural)]
pub struct CsvStructureError {
    /// Index of the offending record.
    pub record: usize,
    /// Field count of the file's first record.
    pub expected: usize,
    /// Field count of the offending record.
    pub got: usize,
}

/// The field views of a vector of field buffers.
pub open spec fn field_views(r: Seq<Vec<u8>>) -> Seq<Seq<u8>> {
    r.map_values(|f: Vec<u8>| f@)
}

/// The record views of a vector of records.
pub open spec fn row_views(g: Seq<Vec<Vec<u8>>>) -> Seq<Seq<Seq<u8>>> {
    g.map_values(|r: Vec<Vec<u8>>| field_views(r@))
}

/// Splits a whole file into its records.
fn split_records(s: &[u8]) -> (r: Vec<Vec<Vec<u8>>>)
    ensures
        row_views(r@) == rows_of(s@),
{
    let mut rows: Vec<Vec<Vec<u8>>> = Vec::new();
    let mut row: Vec<Vec<u8>> = Vec::new();
    let mut cur: Vec<u8> = Vec::new();
    let mut mode = CsvMode::LineStart;
    let mut i: usize = 0;
    proof {
        assert(s@.skip(0) =~= s@);
        assert(field_views(row@) =~= Seq::<Seq<u8>>::empty());
        assert(row_views(rows@) =~= Seq::<Seq<Seq<u8>>>::empty());
    }
    while i < s.len()
        invariant
            i <= s.len(),
            rows_of(s@) == scan_csv(
                s@.skip(i as int),
                mode,
                cur@,
                field_views(row@),
                row_views(rows@),
            ),
        decreases s.len() - i,
    {
        let b: u8 = s[i];
        proof {
            assert(s@.skip(i as int).drop_first() =~= s@.skip(i + 1));
            assert(s@.skip(i as int)[0] == s@[i as int]);
        }
        match mode {
            CsvMode::LineStart | CsvMode::FieldStart | CsvMode::Unquoted => {
                if b == 10 || b == 13 {
                    match mode {
                        CsvMode::LineStart => (),
                        _ => {
                            proof {
                                assert(field_views(row@.push(cur)) =~= field_views(row@).push(
                                    cur@,
                                ));
                            }
                            row.push(cur);
                            cur = Vec::new();
                            proof {
                                assert(row_views(rows@.push(row)) =~= row_views(rows@).push(
                                    field_views(row@),
                                ));
                            }
                            rows.push(row);
                            row = Vec::new();
                            mode = CsvMode::LineStart;
                            proof {
                                assert(field_views(row@) =~= Seq::<Seq<u8>>::empty());
                            }
                        },
                    }
                } else if b == 44 {
                    proof {
                        assert(field_views(row@.push(cur)) =~= field_views(row@).push(cur@));
                    }
                    row.push(cur);
                    cur = Vec::new();
                    mode = CsvMode::FieldStart;
                } else if b == 34 {
                    match mode {
                        CsvMode::Unquoted => {
                            cur.push(b);
                        },
                        _ => {
                            mode = CsvMode::Quoted;
                        },
                    }
                } else {
                    cur.push(b);
                    mode = CsvMode::Unquoted;
                }
            },
            CsvMode::Quoted => {
                if b == 34 {
                    mode = CsvMode::QuoteInQuoted;
                } else {
                    cur.push(b);
                }
            },
            CsvMode::QuoteInQuoted => {
                if b == 34 {
                    cur.push(b);
                    mode = CsvMode::Quoted;
                } else if b == 10 || b == 13 {
                    proof {
                        assert(field_views(row@.push(cur)) =~= field_views(row@).push(cur@));
                    }
                    row.push(cur);
                    cur = Vec::new();
                    proof {
                        assert(row_views(rows@.push(row)) =~= row_views(rows@).push(
                            field_views(row@),
                        ));
                    }
                    rows.push(row);
                    row = Vec::new();
                    mode = CsvMode::LineStart;
                    proof {
                        assert(field_views(row@) =~= Seq::<Seq<u8>>::empty());
                    }
                } else if b == 44 {
                    proof {
                        assert(field_views(row@.push(cur)) =~= field_views(row@).push(cur@));
                    }
                    row.push(cur);
                    cur = Vec::new();
                    mode = CsvMode::FieldStart;
                } else {
                    cur.push(b);
                    mode = CsvMode::Unquoted;
                }
            },
        }
        i = i + 1;
    }
    proof {
        assert(s@.skip(i as int) =~= Seq::<u8>::empty());
    }
    match mode {
        CsvMode::LineStart => (),
        _ => {
            proof {
                assert(field_views(row@.push(cur)) =~= field_views(row@).push(cur@));
            }
            row.push(cur);
            proof {
                assert(row_views(rows@.push(row)) =~= row_views(rows@).push(field_views(row@)));
            }
            rows.push(row);
        },
    }
    rows
}

/// Parses a whole file as headerless delimited records, strictly.
///
/// Returns the records exactly when every record has as many fields as the
/// first; otherwise reports the first record that does not.
pub fn parse_csv(s: &[u8]) -> (r: Result<Vec<Vec<Vec<u8>>>, CsvStructureError>)
    ensures
        r is Ok <==> width_ok(rows_of(s@)),
        r matches Ok(rows) ==> row_views(rows@) == rows_of(s@),
        r matches Err(e) ==> {
            let rows = rows_of(s@);
            &&& 0 < e.record < rows.len()
            &&& e.expected == rows[0].len()
            &&& e.got == rows[e.record as int].len()
            &&& e.got != e.expected
            &&& forall|j: int| 0 <= j < e.record ==> (#[trigger] rows[j]).len() == rows[0].len()
        },
{
    let rows = split_records(s);
    if rows.len() == 0 {
        return Ok(rows);
    }
    let expected = rows[0].len();
    proof {
        assert(rows_of(s@)[0] == field_views(rows@[0]@));
    }
    let mut k: usize = 1;
    while k < rows.len()
        invariant
            1 <= k <= rows.len(),
            row_views(rows@) == rows_of(s@),
            rows@.len() > 0,
            expected == rows_of(s@)[0].len(),
            forall|j: int| 0 <= j < k ==> (#[trigger] rows_of(s@)[j]).len() == rows_of(s@)[0].len(),
        decreases rows.len() - k,
    {
        let got = rows[k].len();
        proof {
            assert(rows_of(s@)[k as int] == field_views(rows@[k as int]@));
        }
        if got != expected {
            return Err(CsvStructureError { record: k, expected, got });
        }
        k = k + 1;
    }
    Ok(rows)
}

} // verus!
