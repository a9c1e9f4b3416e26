use file_search::args_valid;
use file_search::matching::{contains_bytes, name_matches, stem};
use file_search::walk::path_join;

fn b(s: &str) -> Vec<u8> {
    s.as_bytes().to_vec()
}

#[test]
fn stem_drops_trailing_extension() {
    assert_eq!(stem(&b("report_final.txt")), b("report_final"));
}

#[test]
fn stem_of_extensionless_name_is_the_name() {
    assert_eq!(stem(&b("notes")), b("notes"));
}

#[test]
fn stem_drops_only_the_last_extension() {
    assert_eq!(stem(&b("archive.tar.gz")), b("archive.tar"));
}

#[test]
fn stem_of_name_ending_in_dot() {
    assert_eq!(stem(&b("trailing.")), b("trailing"));
}

#[test]
fn stem_of_empty_name_is_empty() {
    assert_eq!(stem(&b("")), b(""));
}

#[test]
fn contains_finds_inner_run() {
    assert!(contains_bytes(&b("report_final"), &b("port")));
}

#[test]
fn contains_rejects_absent_needle() {
    assert!(!contains_bytes(&b("report_final"), &b("draft")));
}

#[test]
fn contains_accepts_empty_needle() {
    assert!(contains_bytes(&b(""), &b("")));
    assert!(contains_bytes(&b("abc"), &b("")));
}

#[test]
fn contains_rejects_needle_longer_than_haystack() {
    assert!(!contains_bytes(&b("ab"), &b("abc")));
}

#[test]
fn name_matches_searches_the_stem_only() {
    assert!(name_matches(&b("report_final.txt"), &b("report")));
    assert!(!name_matches(&b("report_final.txt"), &b("txt")));
    assert!(name_matches(&b("report_final.txt"), &b("final")));
}

#[test]
fn path_join_inserts_separator() {
    assert_eq!(path_join(&b("a"), &b("c.txt")), b("a/c.txt"));
}

#[test]
fn path_join_on_empty_prefix_is_the_name() {
    assert_eq!(path_join(&b(""), &b("c.txt")), b("c.txt"));
}

#[test]
fn path_join_keeps_single_separator() {
    assert_eq!(path_join(&b("a/"), &b("c.txt")), b("a/c.txt"));
}

#[test]
fn exactly_two_arguments_are_valid() {
    assert!(!args_valid(0));
    assert!(!args_valid(1));
    assert!(args_valid(2));
    assert!(!args_valid(3));
}
