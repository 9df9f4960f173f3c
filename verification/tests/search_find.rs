use std::cell::RefCell;
use std::path::Path;

use kafka_term::search::{
    format_search_result, global_find_results, local_find_results, matches_query,
    path_in_hidden_place,
};
use kafka_term::types::{DirectoryEntry, EntryType};

fn entry(name: &str, path: &str, entry_type: EntryType, size: u64) -> DirectoryEntry {
    DirectoryEntry { name: name.to_string(), path: path.to_string(), entry_type, size }
}

#[test]
fn test_matches_query_basic() {
    assert!(matches_query("README.md", "readme"));
    assert!(matches_query("README.md", "READ"));
    assert!(matches_query("README.md", "me.m"));
    assert!(!matches_query("README.md", "xyz"));
}

#[test]
fn test_matches_query_empty_query() {
    assert!(matches_query("anything", ""));
    assert!(matches_query("", ""));
}

#[test]
fn test_matches_query_empty_name() {
    assert!(!matches_query("", "something"));
}

#[test]
fn test_matches_query_case_insensitive() {
    assert!(matches_query("MyFile.TXT", "myfile"));
    assert!(matches_query("myfile.txt", "MYFILE"));
    assert!(matches_query("MiXeD", "mixed"));
}

#[test]
fn case_insensitive_substring_matching() {
    assert!(matches_query("ÄPFEL.log", "äpfel"));
    assert_eq!(matches_query("KafkaBroker", "broker"), "kafkabroker".contains("broker"));
}

#[test]
fn test_format_search_result_file() {
    let e = entry("app.log", "/home/user/logs/app.log", EntryType::File, 2048);
    assert_eq!(format_search_result(&e, "/home/user"), "logs/app.log  2.0 KB");
}

#[test]
fn test_format_search_result_directory() {
    let e = entry("logs", "/home/user/logs", EntryType::Directory, 0);
    assert_eq!(format_search_result(&e, "/home/user"), "logs/  0 B");
}

#[test]
fn test_format_search_result_symlink() {
    let e = entry("current", "/var/log/current", EntryType::Symlink, 512);
    assert_eq!(format_search_result(&e, "/var/log"), "current@  512 B");
}

#[test]
fn test_format_search_result_no_common_prefix() {
    let e = entry("file.txt", "/other/path/file.txt", EntryType::File, 100);
    assert_eq!(format_search_result(&e, "/home/user"), "/other/path/file.txt  100 B");
}

#[test]
fn search_result_display_completeness() {
    let e = entry("x.bin", "/base/dir/sub/x.bin", EntryType::Directory, 3145728);
    let r = format_search_result(&e, "/base/dir");
    assert!(r.contains("3.0 MB"));
    assert!(r.contains("sub/x.bin"));
    assert!(r.contains('/'));
}

#[test]
fn local_find_filters_by_name_and_hidden() {
    let entries = vec![
        entry("App.log", "/d/App.log", EntryType::File, 1),
        entry(".app.swp", "/d/.app.swp", EntryType::File, 1),
        entry("other", "/d/other", EntryType::File, 1),
        entry("apps", "/d/apps", EntryType::Directory, 0),
    ];
    let found = local_find_results(entries.clone(), "APP", false);
    let names: Vec<&str> = found.iter().map(|e| e.name.as_str()).collect();
    assert_eq!(names, vec!["App.log", "apps"]);
    let found = local_find_results(entries, "app", true);
    let names: Vec<&str> = found.iter().map(|e| e.name.as_str()).collect();
    assert_eq!(names, vec!["App.log", ".app.swp", "apps"]);
}

#[test]
fn hidden_place_is_judged_below_the_base() {
    assert!(path_in_hidden_place("/home/u/.cache/x", "/home/u"));
    assert!(!path_in_hidden_place("/home/.u/x", "/home/.u"));
    assert!(!path_in_hidden_place("/home/u/a/b", "/home/u"));
}

#[test]
fn global_find_skips_hidden_and_reports_directories() {
    let found = vec![
        entry("a", "/b/a", EntryType::Directory, 0),
        entry("x", "/b/.git/x", EntryType::File, 1),
        entry("f", "/b/a/f", EntryType::File, 1),
        entry("c", "/b/a/c", EntryType::Directory, 0),
    ];
    let reports = RefCell::new(Vec::new());
    let r = global_find_results(found, "/b", false, |n| {
        reports.borrow_mut().push(n);
        true
    });
    let paths: Vec<&str> = r.iter().map(|e| e.path.as_str()).collect();
    assert_eq!(paths, vec!["/b/a", "/b/a/f", "/b/a/c"]);
    assert_eq!(*reports.borrow(), vec![1, 1, 2]);
}

#[test]
fn global_find_stops_when_asked() {
    let found = vec![
        entry("a", "/b/a", EntryType::File, 0),
        entry("b", "/b/b", EntryType::File, 0),
        entry("c", "/b/c", EntryType::File, 0),
    ];
    let calls = RefCell::new(0usize);
    let r = global_find_results(found, "/b", true, |_| {
        *calls.borrow_mut() += 1;
        *calls.borrow() < 2
    });
    assert_eq!(r.len(), 2);
    assert_eq!(*calls.borrow(), 2);
}

/// What the original prints for a found path: `Path::strip_prefix`, or the
/// whole path.
fn std_shown(path: &str, base: &str) -> String {
    Path::new(path).strip_prefix(base).unwrap_or(Path::new(path)).to_string_lossy().to_string()
}

#[test]
fn shown_path_matches_strip_prefix() {
    let cases = [
        ("/a//b", "/"),
        ("/home/u/./logs//x.log", "/home/u"),
        ("/home/u//logs/", "/home/u"),
        ("/home/u/logs/.", "/home/u"),
        ("./a/b", "a"),
        ("./a/b", "./a"),
        ("a/./b", "a"),
        ("/x/y", "/x/y"),
        ("/x/y/", "/x/y/"),
        ("/x", ""),
        ("./x/", ""),
        ("x//y", "x"),
        ("/x/../y", "/x"),
        ("/other/file", "/home"),
        ("//x///y//", "/x"),
    ];
    for (path, base) in cases {
        let e = entry("n", path, EntryType::File, 0);
        let expected = format!("{}  0 B", std_shown(path, base));
        assert_eq!(format_search_result(&e, base), expected, "path {:?} base {:?}", path, base);
    }
}

#[test]
fn hidden_place_matches_std_components() {
    let cases = [
        ("/home/u/.cache/x", "/home/u"),
        ("/home/.u/x", "/home/.u"),
        ("./a/b", "a"),
        ("./a/b", "./a"),
        ("/x/../y", "/x"),
        ("/x/./y", "/x"),
        ("/x/y", "/z"),
    ];
    for (path, base) in cases {
        let rest = Path::new(path).strip_prefix(base).unwrap_or(Path::new(path));
        let expected = rest.components().any(|c| c.as_os_str().to_string_lossy().starts_with('.'));
        assert_eq!(path_in_hidden_place(path, base), expected, "path {:?} base {:?}", path, base);
    }
}
