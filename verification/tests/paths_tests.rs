use wt::error::WtError;
use wt::paths::{clean_branch_name, generate_worktree_path, normalize_path, path_in_use};

#[test]
fn generate_maps_space_and_slash_to_dashes() {
    let r = generate_worktree_path("myapp", "feature/foo bar", "/work/myapp");
    assert_eq!(r.unwrap(), "/work/myapp-worktree/myapp-feature-foo-bar-worktree");
}

#[test]
fn generate_for_plain_branch() {
    let r = generate_worktree_path("proj", "main", "/home/dev/proj");
    assert_eq!(r.unwrap(), "/home/dev/proj-worktree/proj-main-worktree");
}

#[test]
fn generate_in_root_parent() {
    let r = generate_worktree_path("p", "b", "/p");
    assert_eq!(r.unwrap(), "/p-worktree/p-b-worktree");
}

#[test]
fn generate_rejects_reserved_branch_name() {
    let r = generate_worktree_path("p", "HEAD", "/work/p");
    assert!(matches!(r, Err(WtError::ValidationError(_))));
}

#[test]
fn generate_rejects_branch_that_sanitizes_to_nothing() {
    let r = generate_worktree_path("p", "??", "/work/p");
    assert!(matches!(r, Err(WtError::ValidationError(_))));
}

#[test]
fn generate_fails_without_parent_directory() {
    assert!(matches!(generate_worktree_path("p", "b", "/"), Err(WtError::IOError(_))));
    assert!(matches!(generate_worktree_path("p", "b", "solo"), Err(WtError::IOError(_))));
}

#[test]
fn clean_replaces_separators_with_dashes() {
    assert_eq!(clean_branch_name("feature/foo bar"), "feature-foo-bar");
    assert_eq!(clean_branch_name("a:b\\c"), "a-b-c");
}

#[test]
fn clean_deletes_unsafe_characters() {
    assert_eq!(clean_branch_name("a?b*c<d>e|f\"g"), "abcdefg");
    assert_eq!(clean_branch_name("plain"), "plain");
    assert_eq!(clean_branch_name(""), "");
}

#[test]
fn normalize_resolves_dot_and_dotdot() {
    assert_eq!(normalize_path("/a/./b/../c"), "/a/c");
    assert_eq!(normalize_path("a/../../b"), "b");
    assert_eq!(normalize_path("a//b/"), "a/b");
    assert_eq!(normalize_path("/.."), "");
    assert_eq!(normalize_path("/"), "/");
    assert_eq!(normalize_path(""), "");
    assert_eq!(normalize_path("./x"), "x");
}

#[test]
fn path_in_use_detects_collisions() {
    let existing = vec![String::from("/w/p-worktree/p-a-worktree"), String::from("/w/p")];
    assert!(path_in_use(&existing, "/w/p"));
    assert!(!path_in_use(&existing, "/w/p-worktree/p-b-worktree"));
    assert!(!path_in_use(&Vec::new(), "/w/p"));
}

#[test]
fn sanitization_collisions_are_detectable_not_silent() {
    let a = generate_worktree_path("p", "feat/x", "/w/p").unwrap();
    let b = generate_worktree_path("p", "feat x", "/w/p").unwrap();
    assert_eq!(a, b);
    let existing = vec![a];
    assert!(path_in_use(&existing, &b));
}

#[test]
fn normalize_keeps_ordinary_absolute_paths() {
    assert_eq!(normalize_path("/a/b/c"), "/a/b/c");
    assert_eq!(normalize_path("/a/b/.."), "/a");
}
