use wt::error::WtError;
use wt::validation::{validate_branch_name, validate_path};

fn is_validation_err<T: std::fmt::Debug>(r: Result<T, WtError>) -> bool {
    matches!(r, Err(WtError::ValidationError(_)))
}

#[test]
fn branch_name_head_is_rejected() {
    assert!(is_validation_err(validate_branch_name("HEAD")));
}

#[test]
fn branch_name_double_slash_is_rejected() {
    assert!(is_validation_err(validate_branch_name("a//b")));
}

#[test]
fn branch_name_leading_whitespace_is_rejected() {
    assert!(is_validation_err(validate_branch_name(" leading")));
}

#[test]
fn branch_name_lock_suffix_is_rejected() {
    assert!(is_validation_err(validate_branch_name("x.lock")));
}

#[test]
fn branch_name_feature_login_is_accepted() {
    assert!(validate_branch_name("feature/login").is_ok());
}

#[test]
fn branch_name_empty_is_rejected() {
    assert!(is_validation_err(validate_branch_name("")));
    assert!(is_validation_err(validate_branch_name("   ")));
}

#[test]
fn branch_name_space_is_rejected() {
    assert!(is_validation_err(validate_branch_name("a b")));
}

#[test]
fn branch_name_forbidden_characters_are_rejected() {
    for name in ["a~b", "a^b", "a:b", "a?b", "a*b", "a[b", "a\\b", "a\tb", "a\nb", "a\u{7}b"] {
        assert!(is_validation_err(validate_branch_name(name)), "{name:?}");
    }
}

#[test]
fn branch_name_edge_slash_and_dot_are_rejected() {
    assert!(is_validation_err(validate_branch_name("/a")));
    assert!(is_validation_err(validate_branch_name("a/")));
    assert!(is_validation_err(validate_branch_name(".a")));
    assert!(is_validation_err(validate_branch_name("a.")));
}

#[test]
fn branch_name_refs_prefix_is_rejected() {
    assert!(is_validation_err(validate_branch_name("refs/heads/main")));
}

#[test]
fn branch_name_ordinary_names_are_accepted() {
    for name in ["main", "fix-123", "release/v1.2.3", "head", "HEADx"] {
        assert!(validate_branch_name(name).is_ok(), "{name:?}");
    }
}

#[test]
fn path_reserved_component_is_rejected() {
    assert!(is_validation_err(validate_path("a/b/CON/c")));
    assert!(is_validation_err(validate_path("a/con/b")));
    assert!(is_validation_err(validate_path("x/LPT9")));
    assert!(is_validation_err(validate_path("x/com1/y")));
}

#[test]
fn path_parent_reference_is_rejected() {
    assert!(is_validation_err(validate_path("a/../b")));
}

#[test]
fn path_over_length_limit_is_rejected() {
    let long = "a".repeat(5000);
    assert!(is_validation_err(validate_path(&long)));
    let at_limit = "a".repeat(4096);
    assert!(validate_path(&at_limit).is_ok());
}

#[test]
fn path_forbidden_characters_are_rejected() {
    for p in ["a<b", "a>b", "a:b", "a\"b", "a|b", "a?b", "a*b", "a\0b", "a\nb"] {
        assert!(is_validation_err(validate_path(p)), "{p:?}");
    }
}

#[test]
fn path_tab_is_tolerated() {
    assert!(validate_path("a\tb").is_ok());
}

#[test]
fn path_dot_terminated_component_is_rejected() {
    assert!(is_validation_err(validate_path("a/b./c")));
}

#[test]
fn path_empty_and_whitespace_are_rejected() {
    assert!(is_validation_err(validate_path("")));
    assert!(is_validation_err(validate_path("  ")));
    assert!(is_validation_err(validate_path(" a")));
    assert!(is_validation_err(validate_path("a ")));
}

#[test]
fn path_ordinary_paths_are_accepted() {
    for p in ["a/b/c", "/work/myapp-worktree/myapp-x-worktree", "CONSOLE/b", "a.b/c"] {
        assert!(validate_path(p).is_ok(), "{p:?}");
    }
}

#[test]
fn path_backslash_components_are_checked_too() {
    assert!(is_validation_err(validate_path("a\\NUL\\b")));
}
