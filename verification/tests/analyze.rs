use fs_analyzer::analyze::analyze_directory;
use fs_analyzer::entry::Entry;
use fs_analyzer::summary::{AnalysisError, DirectorySummary, FileInfo};

fn file(name: &str, size: u64) -> Entry {
    Entry::File { name: name.to_string(), size }
}

fn directory(name: &str, entries: Vec<Entry>) -> Entry {
    Entry::Directory { name: name.to_string(), entries }
}

fn info(name: &str, size: u64, folder: &str) -> FileInfo {
    FileInfo { name: name.to_string(), size, folder: folder.to_string() }
}

fn below(parent: &str, name: &str) -> String {
    format!("{}{}{}", parent, std::path::MAIN_SEPARATOR, name)
}

fn nothing_in(path: &str) -> DirectorySummary {
    DirectorySummary {
        directory: path.to_string(),
        total_size: 0,
        file_count: 0,
        files: vec![],
        subdirectories: vec![],
    }
}

#[test]
fn two_files_and_no_subdirectories() {
    let root = directory("root", vec![file("a.txt", 100), file("b.txt", 200)]);
    let summary = analyze_directory("root", &root, &[], "root").unwrap();
    assert_eq!(
        summary,
        DirectorySummary {
            directory: "root".to_string(),
            total_size: 300,
            file_count: 2,
            files: vec![info("a.txt", 100, ""), info("b.txt", 200, "")],
            subdirectories: vec![],
        }
    );
}

#[test]
fn skipped_subdirectory_counts_nothing() {
    let root = directory(
        "root",
        vec![
            file("kept.rs", 7),
            directory("target", vec![file("big.bin", 5000), directory("debug", vec![file("x", 1)])]),
        ],
    );
    let skip = vec!["target".to_string()];
    let summary = analyze_directory("root", &root, &skip, "root").unwrap();
    assert_eq!(summary.total_size, 7);
    assert_eq!(summary.file_count, 1);
    assert_eq!(summary.files, vec![info("kept.rs", 7, "")]);
    assert_eq!(summary.subdirectories, vec![nothing_in(&below("root", "target"))]);
}

#[test]
fn nested_files_are_listed_at_every_level_above() {
    let root = directory(
        "root",
        vec![directory("a", vec![file("one", 10), directory("b", vec![file("two", 10)])])],
    );
    let summary = analyze_directory("root", &root, &[], "root").unwrap();
    let a_path = below("root", "a");
    let b_path = below(&a_path, "b");
    let b_folder = below("a", "b");
    let both = vec![info("one", 10, "a"), info("two", 10, &b_folder)];

    assert_eq!(summary.directory, "root");
    assert_eq!(summary.total_size, 20);
    assert_eq!(summary.file_count, 2);
    assert_eq!(summary.files, both);
    assert_eq!(summary.subdirectories.len(), 1);

    let a = &summary.subdirectories[0];
    assert_eq!(a.directory, a_path);
    assert_eq!(a.total_size, 20);
    assert_eq!(a.file_count, 2);
    assert_eq!(a.files, both);
    assert_eq!(a.subdirectories.len(), 1);

    let b = &a.subdirectories[0];
    assert_eq!(
        *b,
        DirectorySummary {
            directory: b_path,
            total_size: 10,
            file_count: 1,
            files: vec![info("two", 10, &b_folder)],
            subdirectories: vec![],
        }
    );
}

#[test]
fn empty_directory() {
    let root = directory("root", vec![]);
    let summary = analyze_directory("root", &root, &[], "root").unwrap();
    assert_eq!(summary, nothing_in("root"));
}

#[test]
fn a_path_that_is_no_directory_counts_nothing() {
    let summary = analyze_directory("notes.txt", &file("notes.txt", 12), &[], "notes.txt").unwrap();
    assert_eq!(summary, nothing_in("notes.txt"));
    let summary = analyze_directory("socket", &Entry::Other, &[], "socket").unwrap();
    assert_eq!(summary, nothing_in("socket"));
}

#[test]
fn a_skipped_root_counts_nothing() {
    let root = directory("target", vec![file("a", 1), directory("b", vec![file("c", 2)])]);
    let skip = vec![".git".to_string(), "target".to_string()];
    let path = below("project", "target");
    let summary = analyze_directory(&path, &root, &skip, &path).unwrap();
    assert_eq!(summary, nothing_in(&path));
}

#[test]
fn the_name_in_the_path_decides_not_an_ancestor() {
    let root = directory("src", vec![file("lib.rs", 3)]);
    let skip = vec!["target".to_string()];
    let path = below("target", "src");
    let summary = analyze_directory(&path, &root, &skip, &path).unwrap();
    assert_eq!(summary.total_size, 3);
    assert_eq!(summary.file_count, 1);
}

#[test]
fn other_entries_are_ignored() {
    let root = directory(
        "root",
        vec![Entry::Other, file("a", 4), Entry::Other, directory("d", vec![Entry::Other])],
    );
    let summary = analyze_directory("root", &root, &[], "root").unwrap();
    assert_eq!(summary.total_size, 4);
    assert_eq!(summary.file_count, 1);
    assert_eq!(summary.files, vec![info("a", 4, "")]);
    assert_eq!(summary.subdirectories, vec![nothing_in(&below("root", "d"))]);
}

#[test]
fn entries_keep_the_order_in_which_they_were_found() {
    let root = directory(
        "root",
        vec![
            file("z", 1),
            directory("m", vec![file("in_m", 2)]),
            file("a", 3),
            directory("b", vec![file("in_b", 4)]),
        ],
    );
    let summary = analyze_directory("root", &root, &[], "root").unwrap();
    assert_eq!(
        summary.files,
        vec![info("z", 1, ""), info("in_m", 2, "m"), info("a", 3, ""), info("in_b", 4, "b")]
    );
    let nested: Vec<&str> = summary.subdirectories.iter().map(|d| d.directory.as_str()).collect();
    assert_eq!(nested, vec![below("root", "m"), below("root", "b")]);
    assert_eq!(summary.total_size, 10);
    assert_eq!(summary.file_count, 4);
}

#[test]
fn folders_are_written_relative_to_the_base_path() {
    let home = below("", "home");
    let base = below(&home, "user");
    let start = below(&base, "docs");
    let found = directory("docs", vec![file("a", 1), directory("old", vec![file("b", 2)])]);
    let summary = analyze_directory(&start, &found, &[], &base).unwrap();
    assert_eq!(summary.directory, start);
    assert_eq!(summary.files, vec![info("a", 1, "docs"), info("b", 2, &below("docs", "old"))]);
}

#[test]
fn a_folder_outside_the_base_path_is_written_whole() {
    let found = directory("elsewhere", vec![file("a", 1)]);
    let summary = analyze_directory("elsewhere", &found, &[], "root").unwrap();
    assert_eq!(summary.files, vec![info("a", 1, "elsewhere")]);
}

#[test]
fn a_total_beyond_u64_is_refused() {
    let root = directory("root", vec![file("huge", u64::MAX), file("one", 1)]);
    assert_eq!(analyze_directory("root", &root, &[], "root"), Err(AnalysisError::TotalSizeOverflow));

    let nested = directory(
        "root",
        vec![file("one", 1), directory("deep", vec![directory("deeper", vec![file("huge", u64::MAX)])])],
    );
    assert_eq!(
        analyze_directory("root", &nested, &[], "root"),
        Err(AnalysisError::TotalSizeOverflow)
    );
}

#[test]
fn a_total_of_exactly_u64_max_is_accepted() {
    let root = directory("root", vec![file("most", u64::MAX - 1), directory("d", vec![file("one", 1)])]);
    let summary = analyze_directory("root", &root, &[], "root").unwrap();
    assert_eq!(summary.total_size, u64::MAX);
    assert_eq!(summary.file_count, 2);
}

#[test]
fn a_skipped_directory_cannot_overflow_the_total() {
    let root = directory(
        "root",
        vec![file("huge", u64::MAX), directory("target", vec![file("more", u64::MAX)])],
    );
    let skip = vec!["target".to_string()];
    let summary = analyze_directory("root", &root, &skip, "root").unwrap();
    assert_eq!(summary.total_size, u64::MAX);
    assert_eq!(summary.file_count, 1);
}

#[test]
fn analysing_twice_gives_equal_summaries() {
    let root = directory(
        "root",
        vec![file("a", 1), directory("target", vec![file("t", 9)]), directory("src", vec![file("b", 2)])],
    );
    let skip = vec!["target".to_string()];
    let first = analyze_directory("root", &root, &skip, "root");
    let second = analyze_directory("root", &root, &skip, "root");
    assert_eq!(first, second);
    assert!(first.is_ok());
}
