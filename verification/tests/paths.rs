//! Splitting and normalising paths.

use local_crate::error::CopyError;
use local_crate::path::{
    is_parent_dir_ref, normalize_path, path_components, path_is_absolute, same_text, SEPARATOR,
};

fn list(names: &[&str]) -> Vec<String> {
    names.iter().map(|s| s.to_string()).collect()
}

fn normal(path: &str, cwd: &str) -> Vec<String> {
    normalize_path(path, cwd).unwrap().components().clone()
}

#[test]
fn separator_is_a_slash() {
    assert_eq!(SEPARATOR, '/');
}

#[test]
fn components_of_a_plain_path() {
    assert_eq!(path_components("/usr/local/bin"), list(&["usr", "local", "bin"]));
    assert_eq!(path_components("a/b"), list(&["a", "b"]));
    assert_eq!(path_components("name"), list(&["name"]));
}

#[test]
fn components_skip_empty_pieces_and_dots() {
    assert_eq!(path_components("/a//b/./c/"), list(&["a", "b", "c"]));
    assert_eq!(path_components("./a/."), list(&["a"]));
    assert_eq!(path_components("///"), list(&[]));
    assert_eq!(path_components("."), list(&[]));
    assert_eq!(path_components(""), list(&[]));
}

#[test]
fn components_keep_parent_references_and_dotted_names() {
    assert_eq!(path_components("a/../b"), list(&["a", "..", "b"]));
    assert_eq!(path_components("/.../.hidden/a.b/..c"), list(&["...", ".hidden", "a.b", "..c"]));
}

#[test]
fn components_of_non_ascii_text() {
    assert_eq!(path_components("/é/日本語/x"), list(&["é", "日本語", "x"]));
}

#[test]
fn absolute_paths_start_with_a_separator() {
    assert!(path_is_absolute("/"));
    assert!(path_is_absolute("/a"));
    assert!(!path_is_absolute(""));
    assert!(!path_is_absolute("a/"));
    assert!(!path_is_absolute("./a"));
}

#[test]
fn parent_reference_is_two_dots() {
    assert!(is_parent_dir_ref(".."));
    assert!(!is_parent_dir_ref("."));
    assert!(!is_parent_dir_ref("..."));
    assert!(!is_parent_dir_ref("a."));
    assert!(!is_parent_dir_ref(".a"));
    assert!(!is_parent_dir_ref(""));
}

#[test]
fn same_text_compares_characters() {
    assert!(same_text("target", "target"));
    assert!(same_text("", ""));
    assert!(!same_text("target", "targets"));
    assert!(!same_text("target", "tarjet"));
    assert!(!same_text("é", "e"));
}

#[test]
fn absolute_path_is_resolved_from_the_root() {
    assert_eq!(normal("/a/b/../c/./d//", "/ignored"), list(&["a", "c", "d"]));
    assert_eq!(normal("/", "/ignored"), list(&[]));
    assert_eq!(normal("/a", "not absolute"), list(&["a"]));
}

#[test]
fn relative_path_is_resolved_from_the_working_directory() {
    assert_eq!(normal("x/y", "/home/me"), list(&["home", "me", "x", "y"]));
    assert_eq!(normal("../y", "/home/me"), list(&["home", "y"]));
    assert_eq!(normal("", "/home/me"), list(&["home", "me"]));
    assert_eq!(normal(".", "/home/./me/../you/"), list(&["home", "you"]));
}

#[test]
fn parent_of_the_root_is_the_root() {
    assert_eq!(normal("/..", "/"), list(&[]));
    assert_eq!(normal("/../../a", "/"), list(&["a"]));
    assert_eq!(normal("../../../a", "/x"), list(&["a"]));
}

#[test]
fn normal_form_is_stable() {
    let once = normalize_path("/a/./b/../c", "/").unwrap();
    let text = format!("/{}", once.components().join("/"));
    assert_eq!(normalize_path(&text, "/").unwrap(), once);
    assert_eq!(once.component_count(), 2);
}

#[test]
fn relative_path_without_absolute_working_directory_is_rejected() {
    assert_eq!(
        normalize_path("a/b", "c"),
        Err(CopyError::Input { path: "a/b".to_string() })
    );
    assert_eq!(normalize_path("", "").unwrap_err().path(), "");
}

#[test]
fn join_appends_components() {
    let base = normalize_path("/a/b", "/").unwrap();
    assert_eq!(base.join(&list(&["c", "d"])), list(&["a", "b", "c", "d"]));
    assert_eq!(base.join(&list(&[])), list(&["a", "b"]));
}
