use buyers_checker::util::{
    base_name_of, has_csv_extension, report_path_for, DirWalker, WalkEntry,
};

fn chars(s: &str) -> Vec<char> {
    s.chars().collect()
}

fn string(v: &[char]) -> String {
    v.iter().collect()
}

#[test]
fn base_name_is_the_part_after_the_last_slash() {
    assert_eq!(base_name_of(&chars("dir/sub/a.csv")), Some(chars("a.csv")));
    assert_eq!(base_name_of(&chars("a.csv")), Some(chars("a.csv")));
}

#[test]
fn a_path_ending_in_a_slash_has_no_base_name() {
    assert_eq!(base_name_of(&chars("dir/")), None);
    assert_eq!(base_name_of(&chars("")), None);
}

#[test]
fn report_path_joins_output_dir_and_base_name() {
    let p = report_path_for(&chars("out"), &chars("in/data.csv"));
    assert_eq!(string(&p), "out/data.csv");
}

#[test]
fn report_path_falls_back_to_the_sentinel_name() {
    let p = report_path_for(&chars("out"), &chars("in/"));
    assert_eq!(string(&p), "out/FAIL.txt");
}

#[test]
fn csv_extension_is_matched_exactly() {
    assert!(has_csv_extension(&chars("a.csv")));
    assert!(has_csv_extension(&chars("dir/b.csv")));
    assert!(has_csv_extension(&chars("archive.tar.csv")));
    assert!(!has_csv_extension(&chars("a.CSV")));
    assert!(!has_csv_extension(&chars("a.txt")));
    assert!(!has_csv_extension(&chars("acsv")));
    assert!(!has_csv_extension(&chars(".csv")));
    assert!(!has_csv_extension(&chars("dir.csv/plain")));
    assert!(!has_csv_extension(&chars("out/")));
}

#[test]
fn the_walk_starts_at_the_root() {
    let mut w = DirWalker::new(chars("root"));
    assert_eq!(w.next_dir(), Some(chars("root")));
    assert_eq!(w.next_dir(), None);
}

#[test]
fn listed_subdirectories_are_walked_and_files_handed_out() {
    let mut w = DirWalker::new(chars("root"));
    let root = w.next_dir().unwrap();
    assert_eq!(string(&root), "root");
    let files = w.note_listing(vec![
        WalkEntry { path: chars("root/a.csv"), is_dir: false },
        WalkEntry { path: chars("root/sub"), is_dir: true },
        WalkEntry { path: chars("root/b.csv"), is_dir: false },
    ]);
    assert_eq!(files, vec![chars("root/a.csv"), chars("root/b.csv")]);
    assert_eq!(w.next_dir(), Some(chars("root/sub")));
    assert_eq!(w.next_dir(), None);
}

#[test]
fn a_failed_listing_loses_only_that_directory() {
    let mut w = DirWalker::new(chars("root"));
    let root = w.next_dir().unwrap();
    w.note_listing(vec![
        WalkEntry { path: chars("root/one"), is_dir: true },
        WalkEntry { path: chars("root/two"), is_dir: true },
    ]);
    assert_eq!(string(&root), "root");
    // Listing "root/two" fails: the caller hands nothing back for it, and
    // the walk still visits "root/one".
    let failed = w.next_dir().unwrap();
    assert_eq!(string(&failed), "root/two");
    let remaining = w.next_dir().unwrap();
    assert_eq!(string(&remaining), "root/one");
    assert_eq!(w.next_dir(), None);
}
