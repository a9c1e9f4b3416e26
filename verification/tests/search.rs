use file_search::walk::{search_files, Entry};

fn file(name: &str) -> Entry {
    Entry::File { name: name.as_bytes().to_vec() }
}

fn dir(name: &str, children: Vec<Entry>) -> Entry {
    Entry::Dir { name: name.as_bytes().to_vec(), children }
}

fn denied(name: &str) -> Entry {
    Entry::DeniedDir { name: name.as_bytes().to_vec() }
}

fn run(root: &str, entries: &Vec<Entry>, term: &str) -> (Vec<Vec<u8>>, Vec<Vec<u8>>) {
    search_files(&root.as_bytes().to_vec(), entries, &term.as_bytes().to_vec())
}

fn paths(v: &Vec<Vec<u8>>) -> Vec<String> {
    v.iter().map(|p| String::from_utf8(p.clone()).unwrap()).collect()
}

#[test]
fn it_works() {
    assert_eq!(2 + 2, 4);
}

#[test]
fn scenario_report_tree() {
    let tree = vec![dir(
        "a",
        vec![
            file("report_final.txt"),
            dir("b", vec![file("report_draft.txt")]),
            file("notes.md"),
        ],
    )];
    let (found, denied_dirs) = run("", &tree, "report");
    let found = paths(&found);
    assert_eq!(found.len(), 2);
    assert!(found.contains(&"a/report_final.txt".to_string()));
    assert!(found.contains(&"a/b/report_draft.txt".to_string()));
    assert!(denied_dirs.is_empty());
}

#[test]
fn empty_directory_yields_nothing() {
    let tree: Vec<Entry> = Vec::new();
    let (found, denied_dirs) = run("root", &tree, "x");
    assert!(found.is_empty());
    assert!(denied_dirs.is_empty());
}

#[test]
fn empty_term_matches_every_file() {
    let tree = vec![file("x.txt"), dir("d", vec![file("y")]), file("z.md")];
    let (found, _) = run("top", &tree, "");
    assert_eq!(paths(&found), vec!["top/x.txt", "top/d/y", "top/z.md"]);
}

#[test]
fn denied_subdirectory_does_not_stop_siblings() {
    let tree = vec![
        denied("locked"),
        dir("open", vec![file("report.txt")]),
    ];
    let (found, denied_dirs) = run("", &tree, "report");
    assert_eq!(paths(&found), vec!["open/report.txt"]);
    assert_eq!(paths(&denied_dirs), vec!["locked"]);
}

#[test]
fn search_twice_gives_same_output() {
    let tree = vec![dir("a", vec![file("one.txt"), file("two.txt")]), file("one.md")];
    let first = run("r", &tree, "one");
    let second = run("r", &tree, "one");
    assert_eq!(first, second);
}

#[test]
fn extension_is_not_searched() {
    let tree = vec![file("report.txt")];
    let (found, _) = run("", &tree, "txt");
    assert!(found.is_empty());
}

#[test]
fn match_is_case_sensitive() {
    let tree = vec![file("Report.txt")];
    let (found, _) = run("", &tree, "report");
    assert!(found.is_empty());
}

#[test]
fn other_entries_are_skipped() {
    let tree = vec![
        Entry::Other { name: b"report_socket".to_vec() },
        file("report.txt"),
    ];
    let (found, denied_dirs) = run("", &tree, "report");
    assert_eq!(paths(&found), vec!["report.txt"]);
    assert!(denied_dirs.is_empty());
}

#[test]
fn absolute_root_prefix_is_kept() {
    let tree = vec![dir("sub", vec![file("report_a.txt")])];
    let (found, _) = run("/home/user", &tree, "report");
    assert_eq!(paths(&found), vec!["/home/user/sub/report_a.txt"]);
}

#[test]
fn root_ending_in_slash_gets_no_second_separator() {
    let tree = vec![file("report.txt")];
    let (found, _) = run("/", &tree, "report");
    assert_eq!(paths(&found), vec!["/report.txt"]);
}
