use fs_analyzer::summary::{AnalysisError, DirectorySummary, FileInfo};

fn info(name: &str, size: u64, folder: &str) -> FileInfo {
    FileInfo { name: name.to_string(), size, folder: folder.to_string() }
}

#[test]
fn an_empty_summary_has_zero_totals() {
    let summary = DirectorySummary::empty("root".to_string());
    assert_eq!(summary.directory, "root");
    assert_eq!(summary.total_size, 0);
    assert_eq!(summary.file_count, 0);
    assert!(summary.files.is_empty());
    assert!(summary.subdirectories.is_empty());
}

#[test]
fn a_file_adds_its_size_and_counts_once() {
    let mut summary = DirectorySummary::empty("root".to_string());
    assert_eq!(summary.add_file(info("a", 100, "")), Ok(()));
    assert_eq!(summary.add_file(info("b", 200, "")), Ok(()));
    assert_eq!(summary.add_file(info("empty", 0, "")), Ok(()));
    assert_eq!(summary.total_size, 300);
    assert_eq!(summary.file_count, 3);
    assert_eq!(summary.files, vec![info("a", 100, ""), info("b", 200, ""), info("empty", 0, "")]);
    assert!(summary.subdirectories.is_empty());
    assert_eq!(summary.directory, "root");
}

#[test]
fn a_file_that_overflows_the_total_is_refused() {
    let mut summary = DirectorySummary::empty("root".to_string());
    assert_eq!(summary.add_file(info("huge", u64::MAX, "")), Ok(()));
    let before = summary.clone();
    assert_eq!(summary.add_file(info("one", 1, "")), Err(AnalysisError::TotalSizeOverflow));
    assert_eq!(summary, before);
    assert_eq!(summary.add_file(info("none", 0, "")), Ok(()));
    assert_eq!(summary.total_size, u64::MAX);
    assert_eq!(summary.file_count, 2);
}

#[test]
fn a_subdirectory_brings_its_totals_and_files() {
    let mut child = DirectorySummary::empty("root/a".to_string());
    child.add_file(info("x", 5, "a")).unwrap();
    child.add_file(info("y", 6, "a")).unwrap();

    let mut parent = DirectorySummary::empty("root".to_string());
    parent.add_file(info("top", 1, "")).unwrap();
    assert_eq!(parent.add_subdirectory(child.clone()), Ok(()));
    parent.add_file(info("last", 2, "")).unwrap();

    assert_eq!(parent.total_size, 14);
    assert_eq!(parent.file_count, 4);
    assert_eq!(
        parent.files,
        vec![info("top", 1, ""), info("x", 5, "a"), info("y", 6, "a"), info("last", 2, "")]
    );
    assert_eq!(parent.subdirectories, vec![child]);
}

#[test]
fn a_subdirectory_that_overflows_the_total_is_refused() {
    let mut child = DirectorySummary::empty("root/a".to_string());
    child.add_file(info("x", 2, "a")).unwrap();

    let mut parent = DirectorySummary::empty("root".to_string());
    parent.add_file(info("huge", u64::MAX - 1, "")).unwrap();
    let before = parent.clone();
    assert_eq!(parent.add_subdirectory(child), Err(AnalysisError::TotalSizeOverflow));
    assert_eq!(parent, before);
}

#[test]
fn an_empty_subdirectory_is_still_listed() {
    let mut parent = DirectorySummary::empty("root".to_string());
    parent.add_subdirectory(DirectorySummary::empty("root/target".to_string())).unwrap();
    assert_eq!(parent.total_size, 0);
    assert_eq!(parent.file_count, 0);
    assert!(parent.files.is_empty());
    assert_eq!(parent.subdirectories, vec![DirectorySummary::empty("root/target".to_string())]);
}

#[test]
fn a_copy_equals_the_summary_it_was_made_of() {
    let mut inner = DirectorySummary::empty("root/a/b".to_string());
    inner.add_file(info("deep", 3, "a/b")).unwrap();
    let mut middle = DirectorySummary::empty("root/a".to_string());
    middle.add_subdirectory(inner).unwrap();
    let mut outer = DirectorySummary::empty("root".to_string());
    outer.add_file(info("top", 4, "")).unwrap();
    outer.add_subdirectory(middle).unwrap();

    let copy = outer.clone();
    assert_eq!(copy, outer);
    assert_eq!(copy.subdirectories[0].subdirectories[0].files, vec![info("deep", 3, "a/b")]);

    let file = info("n", 1, "f");
    assert_eq!(file.clone(), file);
}

fn nested_example() -> DirectorySummary {
    let mut inner = DirectorySummary::empty("root/a".to_string());
    inner.add_file(info("x", 5, "a")).unwrap();
    let mut outer = DirectorySummary::empty("root".to_string());
    outer.add_file(info("top", 1, "")).unwrap();
    outer.add_subdirectory(inner).unwrap();
    outer
}

#[test]
fn summaries_built_step_by_step_are_consistent() {
    assert!(DirectorySummary::empty("root".to_string()).is_consistent());
    assert!(nested_example().is_consistent());
}

#[test]
fn a_wrong_total_is_found() {
    let mut summary = nested_example();
    summary.total_size = 7;
    assert!(!summary.is_consistent());
    summary.total_size = 6;
    assert!(summary.is_consistent());
}

#[test]
fn a_wrong_count_is_found() {
    let mut summary = nested_example();
    summary.file_count = 3;
    assert!(!summary.is_consistent());
    summary.file_count = 2;
    assert!(summary.is_consistent());
}

#[test]
fn a_wrong_total_in_a_nested_summary_is_found() {
    let mut summary = nested_example();
    summary.subdirectories[0].total_size = 4;
    assert!(!summary.is_consistent());
    summary.subdirectories[0].total_size = 5;
    summary.subdirectories[0].file_count = 0;
    assert!(!summary.is_consistent());
}

#[test]
fn sizes_that_do_not_fit_are_never_consistent() {
    let summary = DirectorySummary {
        directory: "root".to_string(),
        total_size: u64::MAX,
        file_count: 2,
        files: vec![info("a", u64::MAX, ""), info("b", u64::MAX, "")],
        subdirectories: vec![],
    };
    assert!(!summary.is_consistent());
    let wrapped = DirectorySummary { total_size: u64::MAX - 1, ..summary };
    assert!(!wrapped.is_consistent());
}
