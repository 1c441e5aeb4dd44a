use buyers_checker::util::report_path_for;
use buyers_checker::{Args, BadDataRecord, RunMode};

fn chars(s: &str) -> Vec<char> {
    s.chars().collect()
}

fn string(v: &[char]) -> String {
    v.iter().collect()
}

#[test]
fn a_single_file_takes_precedence() {
    let args = Args {
        file_path: Some(chars("a.csv")),
        folder_path: Some(chars("dir")),
        output_folder: chars("out"),
        excel_sheet: false,
    };
    assert_eq!(args.run_mode(), Some(RunMode::SingleFile));
}

#[test]
fn a_folder_alone_runs_the_directory_pass() {
    let args = Args {
        file_path: None,
        folder_path: Some(chars("dir")),
        output_folder: chars("out"),
        excel_sheet: true,
    };
    assert_eq!(args.run_mode(), Some(RunMode::Directory));
}

#[test]
fn neither_target_is_a_misconfiguration() {
    let args = Args {
        file_path: None,
        folder_path: None,
        output_folder: chars("out"),
        excel_sheet: false,
    };
    assert_eq!(args.run_mode(), None);
}

#[test]
fn bad_data_records_default_to_zero() {
    let r = BadDataRecord::default();
    assert_eq!(r, BadDataRecord { index: 0, data: 0 });
}

#[test]
fn each_input_file_maps_to_exactly_one_report() {
    // N discovered files yield N report paths, one per file, each named
    // after its input file under the output directory.
    let inputs = ["in/a.csv", "in/b.csv", "in/sub/c.csv"];
    let reports: Vec<String> = inputs
        .iter()
        .map(|p| string(&report_path_for(&chars("out"), &chars(p))))
        .collect();
    assert_eq!(reports.len(), inputs.len());
    assert_eq!(reports, vec!["out/a.csv", "out/b.csv", "out/c.csv"]);
}
