//! Single decisions of the copier.

use local_crate::copier::{Action, TreeCopier, WalkEntry, WalkEvent, EXCLUDED_NAME};
use local_crate::error::CopyError;
use local_crate::path::normalize_path;

fn list(names: &[&str]) -> Vec<String> {
    names.iter().map(|s| s.to_string()).collect()
}

fn copier() -> TreeCopier {
    TreeCopier::new(
        normalize_path("/home/me/crate", "/").unwrap(),
        normalize_path("/work/build", "/").unwrap(),
    )
}

fn entry(path: &str, is_dir: bool, depth: usize) -> WalkEvent {
    WalkEvent::Entry(WalkEntry { path: path.to_string(), is_dir, depth })
}

#[test]
fn excluded_name_is_target() {
    assert_eq!(EXCLUDED_NAME, "target");
}

#[test]
fn depth_offset_counts_the_components_of_the_source() {
    assert_eq!(copier().depth_offset(), 3);
    assert_eq!(copier().source().components(), &list(&["home", "me", "crate"]));
    assert_eq!(copier().destination().components(), &list(&["work", "build"]));
    let at_root = TreeCopier::new(
        normalize_path("/", "/").unwrap(),
        normalize_path("/d", "/").unwrap(),
    );
    assert_eq!(at_root.depth_offset(), 0);
}

#[test]
fn root_entry_creates_the_destination() {
    assert_eq!(
        copier().step(&entry("/home/me/crate", true, 0)),
        Action::CreateDir { path: list(&["work", "build"]) }
    );
}

#[test]
fn directory_is_created_under_the_destination() {
    assert_eq!(
        copier().step(&entry("/home/me/crate/src/bin", true, 2)),
        Action::CreateDir { path: list(&["work", "build", "src", "bin"]) }
    );
}

#[test]
fn file_is_copied_to_the_same_relative_path() {
    assert_eq!(
        copier().step(&entry("/home/me/crate/src/lib.rs", false, 2)),
        Action::CopyFile {
            from: list(&["home", "me", "crate", "src", "lib.rs"]),
            to: list(&["work", "build", "src", "lib.rs"]),
        }
    );
}

#[test]
fn top_level_target_dir_is_skipped() {
    assert_eq!(
        copier().step(&entry("/home/me/crate/target", true, 1)),
        Action::SkipDir { relative: list(&["target"]) }
    );
}

#[test]
fn target_dir_at_depth_two_is_created() {
    assert_eq!(
        copier().step(&entry("/home/me/crate/sub/target", true, 2)),
        Action::CreateDir { path: list(&["work", "build", "sub", "target"]) }
    );
}

#[test]
fn target_at_depth_zero_is_created() {
    let from_target = TreeCopier::new(
        normalize_path("/home/me/target", "/").unwrap(),
        normalize_path("/work/build", "/").unwrap(),
    );
    assert_eq!(
        from_target.step(&entry("/home/me/target", true, 0)),
        Action::CreateDir { path: list(&["work", "build"]) }
    );
}

#[test]
fn target_file_at_depth_one_is_copied() {
    assert_eq!(
        copier().step(&entry("/home/me/crate/target", false, 1)),
        Action::CopyFile {
            from: list(&["home", "me", "crate", "target"]),
            to: list(&["work", "build", "target"]),
        }
    );
}

#[test]
fn other_names_at_depth_one_are_created() {
    for name in ["targets", "Target", "targe", "target2", ".target"] {
        let path = format!("/home/me/crate/{}", name);
        assert_eq!(
            copier().step(&entry(&path, true, 1)),
            Action::CreateDir { path: list(&["work", "build", name]) }
        );
    }
}

#[test]
fn name_of_a_path_that_ends_in_parent_is_the_whole_path() {
    assert_eq!(
        copier().step(&entry("/home/me/crate/target/..", true, 1)),
        Action::CreateDir { path: list(&["work", "build", "target", ".."]) }
    );
}

#[test]
fn bare_excluded_name_is_skipped() {
    assert_eq!(
        copier().step(&entry("target", true, 1)),
        Action::SkipDir { relative: list(&[]) }
    );
}

#[test]
fn entry_shorter_than_the_source_has_an_empty_relative_path() {
    assert_eq!(
        copier().step(&entry("/home", true, 0)),
        Action::CreateDir { path: list(&["work", "build"]) }
    );
    assert_eq!(
        copier().step(&entry("/home/me", false, 0)),
        Action::CopyFile {
            from: list(&["home", "me", "crate"]),
            to: list(&["work", "build"]),
        }
    );
}

#[test]
fn separators_and_dots_in_an_entry_are_ignored() {
    assert_eq!(
        copier().step(&entry("/home/me/crate//src/./lib.rs", false, 2)),
        Action::CopyFile {
            from: list(&["home", "me", "crate", "src", "lib.rs"]),
            to: list(&["work", "build", "src", "lib.rs"]),
        }
    );
}

#[test]
fn failed_walk_aborts_with_the_path() {
    let event = WalkEvent::Failed { path: "/home/me/crate/locked".to_string() };
    assert_eq!(
        copier().step(&event),
        Action::Abort { error: CopyError::Traversal { path: "/home/me/crate/locked".to_string() } }
    );
}

#[test]
fn non_ascii_names_are_kept() {
    assert_eq!(
        copier().step(&entry("/home/me/crate/données/é.txt", false, 2)),
        Action::CopyFile {
            from: list(&["home", "me", "crate", "données", "é.txt"]),
            to: list(&["work", "build", "données", "é.txt"]),
        }
    );
}
