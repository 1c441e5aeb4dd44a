use buyers_checker::excel_output::{
    build_sheet, collect_csv_into_workbook, sheet_name_for, ExcelOutputError, SheetSource,
};

fn chars(s: &str) -> Vec<char> {
    s.chars().collect()
}

fn string(v: &[char]) -> String {
    v.iter().collect()
}

fn source(path: &str, bytes: &[u8]) -> SheetSource {
    SheetSource { path: chars(path), bytes: bytes.to_vec() }
}

#[test]
fn sheet_names_drop_the_extension() {
    assert_eq!(string(&sheet_name_for(&chars("report.csv"))), "report");
}

#[test]
fn sheet_names_are_truncated_to_31_characters() {
    let long = "abcdefghijklmnopqrstuvwxyz_0123456789.csv";
    let name = sheet_name_for(&chars(long));
    assert_eq!(name.len(), 31);
    assert_eq!(string(&name), "abcdefghijklmnopqrstuvwxyz_0123");
}

#[test]
fn two_files_become_two_sheets() {
    let files = vec![
        source("out/a.csv", b"3,102\n7,88\n"),
        source("out/b.csv", b""),
    ];
    let buffer = collect_csv_into_workbook(&files).unwrap();
    // The buffer is a finished spreadsheet: a zip container.
    assert!(buffer.len() > 4);
    assert_eq!(&buffer[0..2], b"PK");
}

#[test]
fn an_empty_discovery_still_saves_a_workbook() {
    let buffer = collect_csv_into_workbook(&Vec::new()).unwrap();
    assert_eq!(&buffer[0..2], b"PK");
}

#[test]
fn a_file_without_a_base_name_aborts_the_pass() {
    let files = vec![source("out/", b"1,2\n")];
    assert_eq!(
        collect_csv_into_workbook(&files),
        Err(ExcelOutputError::NoFileName)
    );
}

#[test]
fn an_invalid_sheet_name_is_a_spreadsheet_fault() {
    // The base name's stem holds '*', which sheet names may not.
    let files = vec![source("out/a*b.csv", b"1,2\n")];
    assert_eq!(
        collect_csv_into_workbook(&files),
        Err(ExcelOutputError::Xlsx)
    );
}

#[test]
fn an_empty_stem_is_a_spreadsheet_fault() {
    let files = vec![source("out/.csv", b"")];
    assert_eq!(
        collect_csv_into_workbook(&files),
        Err(ExcelOutputError::Xlsx)
    );
}

#[test]
fn names_that_collide_after_truncation_fail_the_save() {
    let files = vec![
        source("out/x.csv", b""),
        source("out/sub/x.csv", b""),
    ];
    assert_eq!(
        collect_csv_into_workbook(&files),
        Err(ExcelOutputError::Xlsx)
    );
}

#[test]
fn a_record_with_the_wrong_field_count_is_a_format_fault() {
    let files = vec![source("out/a.csv", b"1,2,3\n")];
    assert_eq!(
        collect_csv_into_workbook(&files),
        Err(ExcelOutputError::Csv)
    );
}

#[test]
fn a_field_that_is_not_utf8_is_a_format_fault() {
    let files = vec![source("out/a.csv", b"1,\xff\xfe\n")];
    assert_eq!(
        collect_csv_into_workbook(&files),
        Err(ExcelOutputError::Csv)
    );
}

#[test]
fn a_cell_over_the_string_limit_is_a_spreadsheet_fault() {
    let mut bytes = b"1,".to_vec();
    bytes.extend(std::iter::repeat(b'y').take(32768));
    bytes.push(b'\n');
    let files = vec![source("out/a.csv", &bytes)];
    assert_eq!(
        collect_csv_into_workbook(&files),
        Err(ExcelOutputError::Xlsx)
    );
}

#[test]
fn build_sheet_accepts_a_two_column_report() {
    assert!(build_sheet(&chars("a.csv"), b"3,102\n").is_ok());
}

#[test]
fn the_first_faulty_file_aborts_the_whole_pass() {
    let files = vec![
        source("out/good.csv", b"1,2\n"),
        source("out/bad.csv", b"1,2,3\n"),
        source("out/", b"1,2\n"),
    ];
    assert_eq!(
        collect_csv_into_workbook(&files),
        Err(ExcelOutputError::Csv)
    );
}
