use fs_analyzer::skip::{is_skipped_directory, should_skip_folder};

fn names(list: &[&str]) -> Vec<String> {
    list.iter().map(|name| name.to_string()).collect()
}

#[test]
fn a_listed_name_is_skipped() {
    let skip = names(&["target", ".git"]);
    assert!(should_skip_folder("target", &skip));
    assert!(should_skip_folder(".git", &skip));
}

#[test]
fn an_unlisted_name_is_kept() {
    let skip = names(&["target", ".git"]);
    assert!(!should_skip_folder("src", &skip));
    assert!(!should_skip_folder("", &skip));
}

#[test]
fn nothing_is_skipped_by_an_empty_list() {
    assert!(!should_skip_folder("target", &[]));
    assert!(!should_skip_folder("", &[]));
}

#[test]
fn matching_is_case_sensitive() {
    let skip = names(&["target"]);
    assert!(!should_skip_folder("Target", &skip));
    assert!(!should_skip_folder("TARGET", &skip));
}

#[test]
fn matching_is_on_the_whole_name() {
    let skip = names(&["target", "*.tmp", "a/b"]);
    assert!(!should_skip_folder("targets", &skip));
    assert!(!should_skip_folder("targe", &skip));
    assert!(!should_skip_folder("my target", &skip));
    assert!(!should_skip_folder("x.tmp", &skip));
    assert!(!should_skip_folder("b", &skip));
    assert!(should_skip_folder("*.tmp", &skip));
}

#[test]
fn the_empty_name_is_skipped_only_when_listed() {
    assert!(should_skip_folder("", &names(&["a", ""])));
    assert!(!should_skip_folder("", &names(&["a"])));
}

#[test]
fn a_name_listed_last_is_found() {
    let skip = names(&["a", "b", "c", "d"]);
    assert!(should_skip_folder("d", &skip));
    assert!(should_skip_folder("a", &skip));
}

fn below(parent: &str, name: &str) -> String {
    format!("{}{}{}", parent, std::path::MAIN_SEPARATOR, name)
}

#[test]
fn a_directory_is_skipped_by_the_last_name_in_its_path() {
    let skip = names(&["target", ".git"]);
    assert!(is_skipped_directory(&below("project", "target"), &skip));
    assert!(is_skipped_directory(&below(&below("", "home"), ".git"), &skip));
    assert!(is_skipped_directory("target", &skip));
    assert!(!is_skipped_directory(&below("project", "src"), &skip));
}

#[test]
fn a_directory_below_a_listed_name_is_not_skipped_for_that() {
    let skip = names(&["target"]);
    assert!(!is_skipped_directory(&below("target", "debug"), &skip));
    assert!(!is_skipped_directory(&below(&below("a", "target"), "b"), &skip));
}

#[test]
fn a_path_without_a_name_is_skipped_only_by_the_empty_name() {
    assert!(!is_skipped_directory("..", &names(&["..", "target"])));
    assert!(is_skipped_directory("..", &names(&[""])));
    assert!(!is_skipped_directory("", &names(&["target"])));
}
