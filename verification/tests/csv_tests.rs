use buyers_checker::csv_data::{parse_csv, CsvStructureError};

fn fields(row: &[&str]) -> Vec<Vec<u8>> {
    row.iter().map(|f| f.as_bytes().to_vec()).collect()
}

#[test]
fn parses_simple_records() {
    let rows = parse_csv(b"a,b\nc,d\n").unwrap();
    assert_eq!(rows, vec![fields(&["a", "b"]), fields(&["c", "d"])]);
}

#[test]
fn empty_input_has_no_records() {
    assert_eq!(parse_csv(b"").unwrap(), Vec::<Vec<Vec<u8>>>::new());
    assert_eq!(parse_csv(b"\n\n\n").unwrap(), Vec::<Vec<Vec<u8>>>::new());
}

#[test]
fn missing_final_terminator_is_fine() {
    let rows = parse_csv(b"a,b\nc,d").unwrap();
    assert_eq!(rows.len(), 2);
}

#[test]
fn crlf_terminators_and_blank_lines_are_skipped() {
    let rows = parse_csv(b"a,b\r\n\r\nc,d\r\n").unwrap();
    assert_eq!(rows, vec![fields(&["a", "b"]), fields(&["c", "d"])]);
}

#[test]
fn empty_fields_are_kept() {
    let rows = parse_csv(b",x,\n").unwrap();
    assert_eq!(rows, vec![fields(&["", "x", ""])]);
}

#[test]
fn a_quoted_field_may_hold_commas() {
    let rows = parse_csv(b"\"a,b\",c\n").unwrap();
    assert_eq!(rows, vec![fields(&["a,b", "c"])]);
}

#[test]
fn a_doubled_quote_is_one_literal_quote() {
    let rows = parse_csv(b"\"say \"\"hi\"\"\",x\n").unwrap();
    assert_eq!(rows, vec![fields(&["say \"hi\"", "x"])]);
}

#[test]
fn a_quoted_field_may_hold_line_terminators() {
    let rows = parse_csv(b"\"a\nb\",c\n").unwrap();
    assert_eq!(rows, vec![fields(&["a\nb", "c"])]);
}

#[test]
fn a_quote_inside_an_unquoted_field_is_an_ordinary_byte() {
    let rows = parse_csv(b"a\"b,c\n").unwrap();
    assert_eq!(rows, vec![fields(&["a\"b", "c"])]);
}

#[test]
fn an_empty_quoted_field_is_an_empty_field() {
    let rows = parse_csv(b"\"\",x\n").unwrap();
    assert_eq!(rows, vec![fields(&["", "x"])]);
}

#[test]
fn an_unterminated_quote_runs_to_the_end_of_the_file() {
    let rows = parse_csv(b"\"a,b").unwrap();
    assert_eq!(rows, vec![fields(&["a,b"])]);
}

#[test]
fn uneven_field_count_is_a_structural_error() {
    let err = parse_csv(b"a,b\nc\nd,e\n").unwrap_err();
    assert_eq!(
        err,
        CsvStructureError {
            record: 1,
            expected: 2,
            got: 1,
        }
    );
}

#[test]
fn the_first_uneven_record_is_reported() {
    let err = parse_csv(b"a,b\nc,d\ne,f,g\nh\n").unwrap_err();
    assert_eq!(err.record, 2);
    assert_eq!(err.expected, 2);
    assert_eq!(err.got, 3);
}
