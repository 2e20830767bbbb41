use dufs::items::{PathItem, PathType};
use dufs::response::{status_bad_request, Body, Response};
use dufs::string_map::StringMap;
use dufs::text::{
    contains, decimal, ends_with, join, replace, same, split, split_once, starts_with, strip_prefix,
    trim_matches, trim_start,
};
use std::cmp::Ordering;

fn item(name: &str, path_type: PathType) -> PathItem {
    PathItem { path_type, name: name.to_string(), mtime: 1, size: 1, directory_password: None }
}

#[test]
fn texts_are_taken_apart() {
    assert_eq!(split("a/b//", '/'), vec!["a", "b", "", ""]);
    assert_eq!(split("", '/'), vec![""]);
    assert_eq!(join(&vec!["a".to_string(), "b".to_string()], '/'), "a/b");
    assert_eq!(join(&vec![], '/'), "");
    assert_eq!(split_once("a=b=c", '='), Some(("a".to_string(), "b=c".to_string())));
    assert_eq!(split_once("abc", '='), None);
    assert_eq!(strip_prefix("abc", "ab").as_deref(), Some("c"));
    assert_eq!(strip_prefix("abc", "b"), None);
    assert_eq!(trim_matches("//a/b//", '/'), "a/b");
    assert_eq!(trim_start("//a//", '/'), "a//");
}

#[test]
fn texts_are_compared() {
    assert!(same("\u{e9}x", "\u{e9}x"));
    assert!(!same("a", "ab"));
    assert!(starts_with("abc", "ab"));
    assert!(!starts_with("a", "ab"));
    assert!(ends_with("a/", '/'));
    assert!(!ends_with("", '/'));
    assert!(contains("abcabd", "abd"));
    assert!(contains("abc", ""));
    assert!(!contains("ab", "abc"));
}

#[test]
fn texts_are_replaced() {
    assert_eq!(replace("aXbXX", "X", "--"), "a--b----");
    assert_eq!(replace("aaa", "aa", "b"), "ba");
    assert_eq!(replace("abc", "x", "y"), "abc");
}

#[test]
fn numbers_are_written() {
    assert_eq!(decimal(0), "0");
    assert_eq!(decimal(1203), "1203");
    assert_eq!(decimal(u64::MAX), u64::MAX.to_string());
}

#[test]
fn maps_keep_the_last_value() {
    let mut map = StringMap::from_pairs(vec![
        ("a".to_string(), "1".to_string()),
        ("b".to_string(), "2".to_string()),
        ("a".to_string(), "3".to_string()),
    ]);
    assert_eq!(map.len(), 2);
    assert_eq!(map.get("a"), Some("3"));
    map.insert("b".to_string(), "4".to_string());
    assert_eq!(map.get("b"), Some("4"));
    assert!(map.contains_key("a"));
    assert!(!map.contains_key("c"));
    assert_eq!(map.entry(0), ("a", "3"));
}

#[test]
fn entries_are_ordered() {
    let dir = item("z", PathType::Dir);
    let file = item("a", PathType::File);
    assert_eq!(dir.sort_by_name(&file), Ordering::Less);
    assert_eq!(item("a2", PathType::File).sort_by_name(&item("A10", PathType::File)), Ordering::Less);
    assert_eq!(dir.sort_by_mtime(&file), Ordering::Less);
    assert_eq!(file.sort_by_size(&dir), Ordering::Greater);
    assert_eq!(file.sort_by_size(&item("b", PathType::SymlinkFile)), Ordering::Equal);
    assert!(PathType::Dir < PathType::File);
    assert!(PathType::SymlinkDir.is_dir());
    assert!(!PathType::SymlinkFile.is_dir());
    assert_eq!(PathType::Dir.cmp(&PathType::SymlinkDir), Ordering::Equal);
    assert!(dir.is_dir());
    assert_eq!(item("a/b/c", PathType::File).base_name(), "c");
    assert_eq!(item("", PathType::File).base_name(), "");
}

#[test]
fn unwritable_dates_are_left_out() {
    let mut far = item("a", PathType::File);
    far.mtime = u64::MAX / 2;
    assert!(far.dav_xml_at("/a").contains("<D:getlastmodified></D:getlastmodified>"));
}

#[test]
fn wrong_requests_may_have_no_reason() {
    let mut res = Response::new();
    status_bad_request(&mut res, "");
    assert_eq!(res.status, 400);
    assert!(matches!(res.body, Body::Empty));
}
