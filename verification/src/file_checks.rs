//! The sequence-gap detector and the per-file validation pipeline.
//!
//! One file's validation is a pure computation from the file's bytes to the
//! bytes of its anomaly report: parse the records, keep the rows whose index
//! and barcode fields parse, and flag every accepted row whose barcode does
//! not equal the previous accepted row's barcode minus one.

use vstd::prelude::*;

use crate::BadDataRecord;
use crate::csv_data::{
    parse_csv, row_views, rows_of, width_ok, CsvStructureError,
};
use crate::digits::{
    dec_str_of, dec_val, parse_u64, parse_usize, parses_within, sign_stripped, u64_to_decimal,
    usize_to_decimal,
};

verus! {

/// One accepted row: its declared position (column 0) and its barcode
/// (column 4, check digit stripped).
#[derive(Debug, Clone, Copy, PartialEq, Eq, Structural)]
pub struct FileRecord {
    /// The row's declared position, column 0.
    pub index: usize,
    /// The row's barcode value, column 4 with the final byte removed.
    pub barcode: u64,
}

/// The barcode field of a row before parsing: column 4 with its final
/// byte (the check digit) removed.
pub open spec fn barcode_field(row: Seq<Seq<u8>>) -> Seq<u8>
    recommends
        row.len() >= 5,
{
    if row[4].len() > 0 {
        row[4].drop_last()
    } else {
        row[4]
    }
}

/// The accepted record of a row, if both of its fields parse: column 0 as
/// an unsigned index, column 4 minus its check digit as a 64-bit barcode.
/// A row that fails either parse yields nothing and is dropped.
pub open spec fn row_record(row: Seq<Seq<u8>>) -> Option<FileRecord> {
    if row.len() >= 5 && parses_within(row[0], usize::MAX as nat) && parses_within(
        barcode_field(row),
        u64::MAX as nat,
    ) {
        Some(
            FileRecord {
                index: dec_val(sign_stripped(row[0])) as usize,
                barcode: dec_val(sign_stripped(barcode_field(row))) as u64,
            },
        )
    } else {
        None
    }
}

/// The accepted-record stream of a file's records, in file order.
pub open spec fn accepted_of(rows: Seq<Seq<Seq<u8>>>) -> Seq<FileRecord>
    decreases rows.len(),
{
    if rows.len() == 0 {
        Seq::empty()
    } else {
        accepted_of(rows.drop_last()) + match row_record(rows.last()) {
            Some(r) => seq![r],
            None => Seq::empty(),
        }
    }
}

/// Whether the accepted record with barcode `cur`, read immediately after
/// the accepted record with barcode `prev`, breaks continuity: the sequence
/// must decrement by exactly one, and a previous barcode of zero (for which
/// the expected successor would underflow) never flags its successor.
pub open spec fn is_anomaly(prev: u64, cur: u64) -> bool {
    prev >= 1 && cur as int != prev as int - 1
}

/// The anomaly list of an accepted-record stream: every record that breaks
/// continuity against its immediate predecessor, in stream order.  The
/// first record is never flagged, and the comparison always uses the true
/// previous accepted record, anomalous or not.
pub open spec fn anomalies_of(recs: Seq<FileRecord>) -> Seq<BadDataRecord>
    decreases recs.len(),
{
    if recs.len() <= 1 {
        Seq::empty()
    } else {
        anomalies_of(recs.drop_last()) + if is_anomaly(
            recs[recs.len() - 2].barcode,
            recs[recs.len() - 1].barcode,
        ) {
            seq![BadDataRecord { index: recs.last().index, data: recs.last().barcode }]
        } else {
            Seq::empty()
        }
    }
}

/// The positions of the accepted records that break continuity against
/// their immediate predecessor.
pub open spec fn breaking_positions(recs: Seq<FileRecord>) -> Set<int> {
    Set::new(
        |i: int| 1 <= i < recs.len() && is_anomaly(recs[i - 1].barcode, recs[i].barcode),
    )
}

/// One report row: the anomaly's index and barcode in decimal, separated by
/// a comma and ended by a line feed.
pub open spec fn report_row_bytes(a: BadDataRecord) -> Seq<u8> {
    dec_str_of(a.index as nat) + seq![44u8] + dec_str_of(a.data as nat) + seq![10u8]
}

/// The whole report: one row per anomaly, in the order they were detected.
pub open spec fn report_bytes(anoms: Seq<BadDataRecord>) -> Seq<u8>
    decreases anoms.len(),
{
    if anoms.len() == 0 {
        Seq::empty()
    } else {
        report_bytes(anoms.drop_last()) + report_row_bytes(anoms.last())
    }
}

/// The report a well-formed file owes: the encoded anomaly list of its
/// accepted-record stream.
pub open spec fn report_of(s: Seq<u8>) -> Seq<u8> {
    report_bytes(anomalies_of(accepted_of(rows_of(s))))
}

/// Why validating one file failed.
#[derive(Debug, Clone, Copy, PartialEq, Eq, Structural)]
pub enum CheckFileError {
    /// The file could not be opened or read, or its report not written.
    Io,
    /// The file broke the strict delimited format.
    Csv(CsvStructureError),
}

/// Why validating a whole directory failed.
#[derive(Debug, Clone, Copy, PartialEq, Eq, Structural)]
pub enum CheckFolderError {
    /// The directory walk failed to list a directory.
    Io,
    /// One file's validation failed.
    CheckFile(CheckFileError),
    /// One validation unit terminated abnormally.
    Join,
}

/// Extracts the accepted-record stream from a file's parsed records.
pub fn extract_records(rows: &Vec<Vec<Vec<u8>>>) -> (r: Vec<FileRecord>)
    ensures
        r@ == accepted_of(row_views(rows@)),
{
    let ghost g = row_views(rows@);
    let mut out: Vec<FileRecord> = Vec::new();
    let mut i: usize = 0;
    proof {
        assert(g.take(0) =~= Seq::<Seq<Seq<u8>>>::empty());
    }
    while i < rows.len()
        invariant
            i <= rows.len(),
            g == row_views(rows@),
            out@ == accepted_of(g.take(i as int)),
        decreases rows.len() - i,
    {
        let ghost row = g[i as int];
        proof {
            assert(g.take(i + 1).drop_last() =~= g.take(i as int));
            assert(g.take(i + 1).last() == row);
        }
        let fields: &Vec<Vec<u8>> = &rows[i];
        proof {
            assert(row == crate::csv_data::field_views(fields@));
            assert(row.len() == fields@.len());
        }
        if fields.len() >= 5 {
            let index = parse_usize(fields[0].as_slice());
            let bar: &Vec<u8> = &fields[4];
            let stripped: &[u8] = if bar.len() > 0 {
                vstd::slice::slice_subrange(bar.as_slice(), 0, bar.len() - 1)
            } else {
                bar.as_slice()
            };
            proof {
                assert(stripped@ =~= barcode_field(row));
                assert(fields[0]@ == row[0]);
            }
            let barcode = parse_u64(stripped);
            match (index, barcode) {
                (Some(index), Some(barcode)) => {
                    proof {
                        assert(row_record(row) == Some(FileRecord { index, barcode }));
                        assert(accepted_of(g.take(i + 1)) =~= out@.push(
                            FileRecord { index, barcode },
                        ));
                    }
                    out.push(FileRecord { index, barcode });
                },
                _ => {
                    proof {
                        assert(row_record(row) is None);
                        assert(accepted_of(g.take(i + 1)) =~= out@);
                    }
                },
            }
        } else {
            proof {
                assert(row_record(row) is None);
                assert(accepted_of(g.take(i + 1)) =~= out@);
            }
        }
        i = i + 1;
    }
    proof {
        assert(g.take(i as int) =~= g);
    }
    out
}

/// The detector's whole state over a forward stream of accepted records:
/// the one previous accepted record, nothing more.  Each record pushed is
/// judged against that cursor, which then advances to it whether or not
/// the record was flagged.
pub struct GapCursor {
    /// The last accepted record pushed, if any.
    prev: Option<FileRecord>,
    /// The records pushed so far, for the contracts.
    seen: Ghost<Seq<FileRecord>>,
}

impl GapCursor {
    /// The cursor's bookkeeping matches the stream it has read.
    pub closed spec fn wf(&self) -> bool {
        &&& self.seen@.len() == 0 <==> self.prev is None
        &&& self.seen@.len() > 0 ==> self.prev == Some(self.seen@.last())
    }

    /// The records pushed so far, in stream order.
    pub closed spec fn seen(&self) -> Seq<FileRecord> {
        self.seen@
    }

    /// A detector that has read nothing.
    pub fn new() -> (r: GapCursor)
        ensures
            r.wf(),
            r.seen() == Seq::<FileRecord>::empty(),
    {
        GapCursor { prev: None, seen: Ghost(Seq::empty()) }
    }

    /// Reads the next accepted record: flags it exactly when it breaks
    /// continuity against the previous accepted record, and advances the
    /// cursor to it either way.  The first record is never flagged.
    pub fn push(&mut self, rec: FileRecord) -> (r: Option<BadDataRecord>)
        requires
            old(self).wf(),
        ensures
            final(self).wf(),
            final(self).seen() == old(self).seen().push(rec),
            r is Some <==> old(self).seen().len() > 0 && is_anomaly(
                old(self).seen().last().barcode,
                rec.barcode,
            ),
            r matches Some(a) ==> a == (BadDataRecord { index: rec.index, data: rec.barcode }),
            anomalies_of(final(self).seen()) == anomalies_of(old(self).seen()) + match r {
                Some(a) => seq![a],
                None => Seq::empty(),
            },
    {
        let ghost grown = self.seen@.push(rec);
        proof {
            assert(grown.drop_last() =~= self.seen@);
        }
        let r = match self.prev {
            None => None,
            Some(p) => {
                if p.barcode >= 1 && rec.barcode != p.barcode - 1 {
                    Some(BadDataRecord { index: rec.index, data: rec.barcode })
                } else {
                    None
                }
            },
        };
        self.prev = Some(rec);
        self.seen = Ghost(grown);
        proof {
            if old(self).seen@.len() == 0 {
                assert(anomalies_of(grown) =~= Seq::<BadDataRecord>::empty());
                assert(anomalies_of(grown) =~= anomalies_of(old(self).seen@) + Seq::<
                    BadDataRecord,
                >::empty());
            } else {
                assert(grown[grown.len() - 2] == old(self).seen@.last());
                assert(grown[grown.len() - 1] == rec);
                assert(anomalies_of(grown) =~= anomalies_of(old(self).seen@) + match r {
                    Some(a) => seq![a],
                    None => Seq::<BadDataRecord>::empty(),
                });
            }
        }
        r
    }
}

/// Flags every accepted record that breaks continuity against its
/// immediate predecessor, by streaming the records through one cursor.
pub fn detect_anomalies(recs: &Vec<FileRecord>) -> (r: Vec<BadDataRecord>)
    ensures
        r@ == anomalies_of(recs@),
{
    let mut out: Vec<BadDataRecord> = Vec::new();
    let mut cursor = GapCursor::new();
    let mut i: usize = 0;
    proof {
        assert(recs@.take(0) =~= Seq::<FileRecord>::empty());
        assert(out@ =~= anomalies_of(recs@.take(0)));
    }
    while i < recs.len()
        invariant
            i <= recs@.len(),
            cursor.wf(),
            cursor.seen() == recs@.take(i as int),
            out@ == anomalies_of(recs@.take(i as int)),
        decreases recs.len() - i,
    {
        proof {
            assert(recs@.take(i as int).push(recs@[i as int]) =~= recs@.take(i + 1));
        }
        match cursor.push(recs[i]) {
            Some(a) => {
                out.push(a);
                proof {
                    assert(out@ =~= anomalies_of(recs@.take(i as int)) + seq![a]);
                }
            },
            None => {
                proof {
                    assert(out@ =~= anomalies_of(recs@.take(i as int)) + Seq::<
                        BadDataRecord,
                    >::empty());
                }
            },
        }
        i = i + 1;
    }
    proof {
        assert(recs@.take(i as int) =~= recs@);
    }
    out
}

/// Encodes the anomaly list as a headerless two-column report.
pub fn encode_report(anoms: &Vec<BadDataRecord>) -> (r: Vec<u8>)
    ensures
        r@ == report_bytes(anoms@),
{
    let mut out: Vec<u8> = Vec::new();
    let mut i: usize = 0;
    proof {
        assert(anoms@.take(0) =~= Seq::<BadDataRecord>::empty());
        assert(out@ =~= report_bytes(anoms@.take(0)));
    }
    while i < anoms.len()
        invariant
            i <= anoms.len(),
            out@ == report_bytes(anoms@.take(i as int)),
        decreases anoms.len() - i,
    {
        let a = anoms[i];
        proof {
            assert(anoms@.take(i + 1).drop_last() =~= anoms@.take(i as int));
            assert(anoms@.take(i + 1).last() == a);
        }
        let mut index_bytes = usize_to_decimal(a.index);
        let mut data_bytes = u64_to_decimal(a.data);
        let ghost before = out@;
        out.append(&mut index_bytes);
        out.push(44);
        out.append(&mut data_bytes);
        out.push(10);
        proof {
            assert(out@ =~= before + report_row_bytes(a));
            assert(report_bytes(anoms@.take(i + 1)) =~= before + report_row_bytes(a));
        }
        i = i + 1;
    }
    proof {
        assert(anoms@.take(i as int) =~= anoms@);
    }
    out
}

/// Validates one file's bytes and produces its report's bytes.
///
/// Succeeds exactly on files whose records all share the first record's
/// field count; the report then lists, in file order, every accepted row
/// whose barcode does not equal the previous accepted row's barcode minus
/// one.  A structural fault is reported with its record index; a row whose
/// index or barcode does not parse is silently dropped, never an error.
pub fn check_file(input: &[u8]) -> (r: Result<Vec<u8>, CheckFileError>)
    ensures
        r is Ok <==> width_ok(rows_of(input@)),
        r matches Ok(report) ==> report@ == report_of(input@),
        r matches Err(e) ==> e matches CheckFileError::Csv(c) && {
            let rows = rows_of(input@);
            &&& 0 < c.record < rows.len()
            &&& c.expected == rows[0].len()
            &&& c.got == rows[c.record as int].len()
            &&& c.got != c.expected
            &&& forall|j: int|
                0 <= j < c.record ==> (#[trigger] rows[j]).len() == rows[0].len()
        },
{
    match parse_csv(input) {
        Ok(rows) => {
            let records = extract_records(&rows);
            let anomalies = detect_anomalies(&records);
            Ok(encode_report(&anomalies))
        },
        Err(e) => Err(CheckFileError::Csv(e)),
    }
}

/// Folds the outcome of every validation unit of a directory run into one
/// aggregate outcome: success only if every unit succeeded, otherwise the
/// first failure in unit order.  Later failures are examined but not
/// surfaced.
pub fn aggregate_outcomes(outcomes: &Vec<Result<(), CheckFolderError>>) -> (r: Result<
    (),
    CheckFolderError,
>)
    ensures
        r is Ok <==> (forall|i: int| 0 <= i < outcomes@.len() ==> (#[trigger] outcomes@[i]) is Ok),
        r matches Err(e) ==> exists|i: int|
            {
                &&& 0 <= i < outcomes@.len()
                &&& (#[trigger] outcomes@[i]) matches Err(e2) && e == e2
                &&& forall|j: int| 0 <= j < i ==> (#[trigger] outcomes@[j]) is Ok
            },
{
    let mut i: usize = 0;
    while i < outcomes.len()
        invariant
            i <= outcomes@.len(),
            forall|j: int| 0 <= j < i ==> (#[trigger] outcomes@[j]) is Ok,
        decreases outcomes.len() - i,
    {
        match &outcomes[i] {
            Ok(_) => {
                i = i + 1;
            },
            Err(e) => {
                return Err(*e);
            },
        }
    }
    Ok(())
}

/// A file whose barcodes strictly decrement by one, row to row, yields an
/// empty anomaly list.
pub proof fn lemma_descending_run_has_no_anomalies(recs: Seq<FileRecord>)
    requires
        forall|i: int|
            1 <= i < recs.len() ==> (#[trigger] recs[i]).barcode as int == recs[i - 1].barcode as int
                - 1,
    ensures
        anomalies_of(recs) == Seq::<BadDataRecord>::empty(),
    decreases recs.len(),
{
    if recs.len() <= 1 {
        assert(anomalies_of(recs) =~= Seq::<BadDataRecord>::empty());
    } else {
        lemma_descending_run_has_no_anomalies(recs.drop_last());
        assert(recs[recs.len() - 1].barcode as int == recs[recs.len() - 2].barcode as int - 1);
        assert(!is_anomaly(recs[recs.len() - 2].barcode, recs[recs.len() - 1].barcode));
        assert(anomalies_of(recs) =~= Seq::<BadDataRecord>::empty());
    }
}

/// A well-formed file whose accepted barcodes strictly decrement by one,
/// row to row, owes an empty report.
pub proof fn lemma_clean_file_owes_an_empty_report(s: Seq<u8>)
    requires
        forall|i: int|
            1 <= i < accepted_of(rows_of(s)).len() ==> (#[trigger] accepted_of(rows_of(s))[i]).barcode
                as int == accepted_of(rows_of(s))[i - 1].barcode as int - 1,
    ensures
        report_of(s) == Seq::<u8>::empty(),
{
    lemma_descending_run_has_no_anomalies(accepted_of(rows_of(s)));
}

/// The anomaly count equals the number of adjacent accepted-record pairs
/// that break the decrement-by-one rule.
pub proof fn lemma_anomaly_count_is_pair_count(recs: Seq<FileRecord>)
    ensures
        breaking_positions(recs).finite(),
        anomalies_of(recs).len() == breaking_positions(recs).len(),
    decreases recs.len(),
{
    if recs.len() <= 1 {
        assert(breaking_positions(recs) =~= Set::<int>::empty());
    } else {
        let prefix = recs.drop_last();
        lemma_anomaly_count_is_pair_count(prefix);
        let n = recs.len() - 1;
        if is_anomaly(recs[n - 1].barcode, recs[n].barcode) {
            assert(breaking_positions(recs) =~= breaking_positions(prefix).insert(n));
            assert(!breaking_positions(prefix).contains(n));
        } else {
            assert(breaking_positions(recs) =~= breaking_positions(prefix));
        }
    }
}

/// A row whose fields do not parse is invisible to the accepted-record
/// stream: inserting it anywhere leaves the stream, and with it every
/// anomaly decision, unchanged.
pub proof fn lemma_unparsable_row_is_invisible(rows: Seq<Seq<Seq<u8>>>, k: int, junk: Seq<Seq<u8>>)
    requires
        0 <= k <= rows.len(),
        row_record(junk) is None,
    ensures
        accepted_of(rows.insert(k, junk)) == accepted_of(rows),
    decreases rows.len(),
{
    let grown = rows.insert(k, junk);
    if k == rows.len() {
        assert(grown.drop_last() =~= rows);
        assert(grown.last() == junk);
        assert(accepted_of(grown) =~= accepted_of(rows));
    } else {
        assert(grown.drop_last() =~= rows.drop_last().insert(k, junk));
        assert(grown.last() == rows.last());
        lemma_unparsable_row_is_invisible(rows.drop_last(), k, junk);
        assert(accepted_of(grown) =~= accepted_of(rows));
    }
}

/// Validation is a function of the file's bytes alone: two runs over the
/// same bytes owe byte-identical reports.
pub proof fn lemma_validation_is_deterministic(first: Seq<u8>, second: Seq<u8>)
    requires
        first == second,
    ensures
        report_of(first) == report_of(second),
{
}

} // verus!
