use buyers_checker::file_checks::{
    aggregate_outcomes, check_file, detect_anomalies, extract_records, CheckFileError,
    CheckFolderError, FileRecord, GapCursor,
};
use buyers_checker::csv_data::parse_csv;
use buyers_checker::BadDataRecord;

fn rec(index: usize, barcode: u64) -> FileRecord {
    FileRecord { index, barcode }
}

fn bad(index: usize, data: u64) -> BadDataRecord {
    BadDataRecord { index, data }
}

#[test]
fn a_gap_is_reported_with_the_rows_own_index_and_barcode() {
    let input = b"1,x,x,x,1055\n2,x,x,x,1045\n3,x,x,x,1025\n";
    let report = check_file(input).unwrap();
    assert_eq!(report, b"3,102\n");
}

#[test]
fn a_strictly_decrementing_file_has_an_empty_report() {
    let input = b"1,x,x,x,1005\n2,x,x,x,995\n3,x,x,x,985\n4,x,x,x,975\n";
    let report = check_file(input).unwrap();
    assert_eq!(report, b"");
}

#[test]
fn an_empty_file_has_an_empty_report() {
    assert_eq!(check_file(b"").unwrap(), b"");
}

#[test]
fn unparsable_rows_are_dropped_and_skip_the_cursor() {
    // The middle row's barcode field is not numeric, so the third row is
    // compared against the first: 104 == 105 - 1, no anomaly.
    let with_junk = b"1,x,x,x,1055\n2,x,x,x,junk\n3,x,x,x,1045\n";
    assert_eq!(check_file(with_junk).unwrap(), b"");
    let without = b"1,x,x,x,1055\n3,x,x,x,1045\n";
    assert_eq!(check_file(with_junk).unwrap(), check_file(without).unwrap());
}

#[test]
fn a_row_with_an_unparsable_index_is_dropped_too() {
    let input = b"1,x,x,x,1055\nno,x,x,x,1045\n2,x,x,x,1045\n";
    assert_eq!(check_file(input).unwrap(), b"");
}

#[test]
fn short_rows_are_dropped() {
    // Uniform three-field records parse fine but carry no barcode column.
    let input = b"1,x,x\n2,x,x\n";
    assert_eq!(check_file(input).unwrap(), b"");
}

#[test]
fn the_first_record_and_a_zero_predecessor_are_never_flagged() {
    // First accepted row is never an anomaly; after a barcode of zero the
    // expected predecessor-minus-one underflows and flags nothing.
    let input = b"1,x,x,x,1q\n2,x,x,x,0q\n3,x,x,x,50q\n";
    let report = check_file(input).unwrap();
    assert_eq!(report, b"");
}

#[test]
fn every_break_is_reported_in_file_order() {
    let input = b"1,x,x,x,105a\n2,x,x,x,103a\n3,x,x,x,102a\n4,x,x,x,107a\n";
    let report = check_file(input).unwrap();
    assert_eq!(report, b"2,103\n4,107\n");
}

#[test]
fn structural_faults_are_file_scoped_errors() {
    let input = b"1,x,x,x,1055\n2,x\n";
    match check_file(input) {
        Err(CheckFileError::Csv(e)) => {
            assert_eq!(e.record, 1);
            assert_eq!(e.expected, 5);
            assert_eq!(e.got, 2);
        }
        other => panic!("expected a structural error, got {other:?}"),
    }
}

#[test]
fn validation_is_idempotent_on_the_same_bytes() {
    let input = b"9,x,x,x,33z\n10,x,x,x,31z\n11,x,x,x,30z\n";
    let first = check_file(input).unwrap();
    let second = check_file(input).unwrap();
    assert_eq!(first, second);
    assert_eq!(first, b"10,31\n");
}

#[test]
fn extract_records_keeps_file_order() {
    let rows = parse_csv(b"7,x,x,x,50a\n8,x,x,x,49b\n").unwrap();
    let records = extract_records(&rows);
    assert_eq!(records, vec![rec(7, 50), rec(8, 49)]);
}

#[test]
fn detect_anomalies_advances_the_cursor_past_an_anomaly() {
    // 90 breaks (99 expected), and 89 is then checked against 90, not 99.
    let records = vec![rec(1, 100), rec(2, 90), rec(3, 89)];
    assert_eq!(detect_anomalies(&records), vec![bad(2, 90)]);
}

#[test]
fn the_cursor_judges_each_record_against_the_true_previous_one() {
    let mut cursor = GapCursor::new();
    assert_eq!(cursor.push(rec(1, 100)), None);
    assert_eq!(cursor.push(rec(2, 99)), None);
    assert_eq!(cursor.push(rec(3, 97)), Some(bad(3, 97)));
    // The cursor advanced to the flagged record, so 96 follows 97 cleanly.
    assert_eq!(cursor.push(rec(4, 96)), None);
}

#[test]
fn aggregate_of_only_successes_is_success() {
    let outcomes: Vec<Result<(), CheckFolderError>> = vec![Ok(()), Ok(()), Ok(())];
    assert_eq!(aggregate_outcomes(&outcomes), Ok(()));
    assert_eq!(aggregate_outcomes(&Vec::new()), Ok(()));
}

#[test]
fn aggregate_surfaces_the_first_failure() {
    let outcomes: Vec<Result<(), CheckFolderError>> = vec![
        Ok(()),
        Err(CheckFolderError::Join),
        Err(CheckFolderError::Io),
    ];
    assert_eq!(aggregate_outcomes(&outcomes), Err(CheckFolderError::Join));
}

#[test]
fn one_failed_unit_does_not_erase_the_other_outcomes() {
    // The dispatcher hands every unit's outcome to the fold: the failing
    // unit is surfaced while each sibling unit still ran to completion and
    // kept its own (correct) report.
    let reports: Vec<Result<Vec<u8>, CheckFileError>> = vec![
        Ok(check_file(b"1,x,x,x,55a\n2,x,x,x,54a\n").unwrap()),
        Err(CheckFileError::Io),
        Ok(check_file(b"1,x,x,x,88a\n2,x,x,x,80a\n").unwrap()),
    ];
    let outcomes: Vec<Result<(), CheckFolderError>> = reports
        .iter()
        .map(|r| match r {
            Ok(_) => Ok(()),
            Err(e) => Err(CheckFolderError::CheckFile(*e)),
        })
        .collect();
    assert_eq!(
        aggregate_outcomes(&outcomes),
        Err(CheckFolderError::CheckFile(CheckFileError::Io))
    );
    assert_eq!(reports[0].as_ref().unwrap().as_slice(), b"");
    assert_eq!(reports[2].as_ref().unwrap().as_slice(), b"2,80\n");
}
