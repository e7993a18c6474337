use std::path::PathBuf;

use rustyls::names::file_name_by_pathbuf;
use rustyls::names::file_name_of;
use rustyls::names::filter_invisible;
use rustyls::names::read_dir_sorted;

fn names(list: &[&str]) -> Vec<String> {
    list.iter().map(|s| s.to_string()).collect()
}

#[test]
fn test_file_name_by_pathbuf() {
    let pathbuf = PathBuf::default();
    assert_eq!(file_name_by_pathbuf(&pathbuf), "".to_string());
    let mut pathbuf = PathBuf::from("./");
    pathbuf.set_file_name("test.txt");
    assert_eq!(file_name_by_pathbuf(&pathbuf), "test.txt".to_string());
}

#[test]
fn print_test_file_name_by_pathbuf() {
    let pathbuf = PathBuf::default();
    assert_eq!(file_name_by_pathbuf(&pathbuf), "".to_string());
    let mut pathbuf = PathBuf::from("./");
    pathbuf.set_file_name("test.txt");
    assert_eq!(file_name_by_pathbuf(&pathbuf), "test.txt".to_string());
}

#[test]
fn file_name_of_final_component() {
    assert_eq!(file_name_of("a/b/c.txt"), "c.txt");
    assert_eq!(file_name_of("plain"), "plain");
    assert_eq!(file_name_of("dir/"), "dir");
}

#[test]
fn file_name_of_skips_dot_chunks_and_slashes() {
    assert_eq!(file_name_of("./"), "");
    assert_eq!(file_name_of("foo/./"), "foo");
    assert_eq!(file_name_of("foo/."), "foo");
    assert_eq!(file_name_of("a//"), "a");
}

#[test]
fn file_name_of_parent_and_root_have_no_name() {
    assert_eq!(file_name_of(""), "");
    assert_eq!(file_name_of("/"), "");
    assert_eq!(file_name_of("a/.."), "");
    assert_eq!(file_name_of(".."), "");
    assert_eq!(file_name_of("..a"), "..a");
}

#[test]
fn filter_invisible_drops_dot_names() {
    let out = filter_invisible(&names(&[".hidden", "visible", ".x", "y", ""]));
    assert_eq!(out, names(&["visible", "y", ""]));
}

#[test]
fn filter_invisible_keeps_everything_without_dots() {
    let list = names(&["a", "b"]);
    assert_eq!(filter_invisible(&list), list);
}

#[test]
fn read_dir_sorted_orders_names_bytewise() {
    let out = read_dir_sorted(&names(&["b", "a", "c", "a"]));
    assert_eq!(out, names(&["a", "a", "b", "c"]));
}

#[test]
fn read_dir_sorted_uppercase_before_lowercase() {
    let out = read_dir_sorted(&names(&["b", "A", "Z", "a"]));
    assert_eq!(out, names(&["A", "Z", "a", "b"]));
}

#[test]
fn read_dir_sorted_empty_and_single() {
    assert_eq!(read_dir_sorted(&Vec::new()), Vec::<String>::new());
    assert_eq!(read_dir_sorted(&names(&["only"])), names(&["only"]));
}
