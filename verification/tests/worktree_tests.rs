use wt::worktree::{
    filter_worktrees, parse_worktrees, translate_add_worktree_error, worktree_add_args,
    worktree_list_args, worktree_remove_args, BranchMode, WorktreeInfo, WorktreeManager,
};

fn sample_listing() -> &'static str {
    "worktree /repo\nHEAD abc123\nbranch refs/heads/main\n\nworktree /work/repo-wt/foo\nHEAD def456\ndetached\n\nworktree /repo/.bare\nbare\n"
}

#[test]
fn parse_returns_one_record_per_block() {
    let records = parse_worktrees(sample_listing());
    assert_eq!(records.len(), 3);
}

#[test]
fn parse_fills_every_field_from_its_lines() {
    let records = parse_worktrees(sample_listing());
    assert_eq!(
        records[0],
        WorktreeInfo {
            path: String::from("/repo"),
            branch: Some(String::from("main")),
            commit: String::from("abc123"),
            is_bare: false,
        }
    );
    assert_eq!(records[1].path, "/work/repo-wt/foo");
    assert_eq!(records[1].commit, "def456");
    assert_eq!(records[2].path, "/repo/.bare");
    assert!(records[2].is_bare);
}

#[test]
fn block_without_branch_line_is_detached_not_empty_named() {
    let records = parse_worktrees(sample_listing());
    assert_eq!(records[1].branch, None);
    assert_ne!(records[1].branch, Some(String::new()));
}

#[test]
fn parse_ignores_unknown_lines_and_preamble() {
    let text = "noise before any block\nworktree /a\nfancy-future-field 7\nHEAD 123\n";
    let records = parse_worktrees(text);
    assert_eq!(records.len(), 1);
    assert_eq!(records[0].path, "/a");
    assert_eq!(records[0].commit, "123");
}

#[test]
fn parse_tolerates_crlf_and_trailing_blank_lines() {
    let text = "worktree /a\r\nHEAD 99\r\n\r\n\r\n";
    let records = parse_worktrees(text);
    assert_eq!(records.len(), 1);
    assert_eq!(records[0].path, "/a");
    assert_eq!(records[0].commit, "99");
}

#[test]
fn parse_keeps_unprefixed_branch_reference() {
    let text = "worktree /a\nbranch refs/remotes/origin/main\n";
    let records = parse_worktrees(text);
    assert_eq!(records[0].branch, Some(String::from("refs/remotes/origin/main")));
}

#[test]
fn parse_of_empty_text_is_empty() {
    assert_eq!(parse_worktrees("").len(), 0);
}

#[test]
fn bare_record_is_parsed_but_filtered_from_user_view() {
    let records = parse_worktrees(sample_listing());
    assert!(records.iter().any(|w| w.is_bare));
    let visible = filter_worktrees(&records, "/repo");
    assert!(visible.iter().all(|w| !w.is_bare));
}

#[test]
fn filter_drops_the_callers_own_checkout() {
    let records = parse_worktrees(sample_listing());
    let visible = filter_worktrees(&records, "/repo");
    assert_eq!(visible.len(), 1);
    assert_eq!(visible[0].path, "/work/repo-wt/foo");
}

#[test]
fn filter_keeps_everything_else_in_order() {
    let records = parse_worktrees(sample_listing());
    let visible = filter_worktrees(&records, "/nowhere");
    assert_eq!(visible.len(), 2);
    assert_eq!(visible[0].path, "/repo");
    assert_eq!(visible[1].path, "/work/repo-wt/foo");
}

#[test]
fn manager_remembers_its_repository() {
    let m = WorktreeManager::new(String::from("/repo"));
    assert_eq!(m.repo_path(), "/repo");
}

#[test]
fn list_args_ask_for_porcelain_output() {
    assert_eq!(worktree_list_args(), vec!["worktree", "list", "--porcelain"]);
}

#[test]
fn add_args_for_a_new_branch_with_base() {
    let base = String::from("main");
    let args = worktree_add_args("/w/p-x", "feat", BranchMode::NewBranch, Some(&base));
    assert_eq!(args, vec!["worktree", "add", "-b", "feat", "/w/p-x", "main"]);
}

#[test]
fn add_args_for_a_new_branch_without_base() {
    let args = worktree_add_args("/w/p-x", "feat", BranchMode::NewBranch, None);
    assert_eq!(args, vec!["worktree", "add", "-b", "feat", "/w/p-x"]);
}

#[test]
fn add_args_for_an_existing_branch() {
    let args = worktree_add_args("/w/p-x", "feat", BranchMode::ExistingBranch, None);
    assert_eq!(args, vec!["worktree", "add", "/w/p-x", "feat"]);
}

#[test]
fn remove_args_name_the_path() {
    assert_eq!(worktree_remove_args("/w/p-x"), vec!["worktree", "remove", "/w/p-x"]);
}

#[test]
fn conflict_diagnostic_is_reworded_with_branch_and_location() {
    let stderr = "fatal: 'feature' is already checked out at '/work/other'\n";
    let msg = translate_add_worktree_error(stderr, "fallback");
    assert_eq!(
        msg,
        "Branch 'feature' is already in use by another worktree at '/work/other'\n\nSuggestions:\n- Run the add command again and choose to create a new branch based on 'feature'\n- List the active worktrees and remove the conflicting one if it is no longer needed"
    );
}

#[test]
fn conflict_diagnostic_without_quotes_falls_back_to_the_given_branch() {
    let stderr = "branch is already checked out elsewhere";
    let msg = translate_add_worktree_error(stderr, "feat");
    assert!(msg.starts_with("Branch 'feat' is already in use by another worktree"));
    assert!(!msg.contains(" at "));
}

#[test]
fn other_diagnostics_are_surfaced_verbatim() {
    let msg = translate_add_worktree_error("boom: disk on fire", "feat");
    assert_eq!(msg, "Failed to add worktree: boom: disk on fire");
}

#[test]
fn later_field_lines_overwrite_earlier_ones() {
    let text = "worktree /a\nHEAD 111\nHEAD 222\nbranch refs/heads/x\nbranch refs/heads/y\n";
    let records = parse_worktrees(text);
    assert_eq!(records.len(), 1);
    assert_eq!(records[0].commit, "222");
    assert_eq!(records[0].branch, Some(String::from("y")));
}

#[test]
fn conflict_location_is_cut_at_trailing_newlines_only() {
    let stderr = "fatal: 'b' is already checked out at '/x/y'\n\n";
    let msg = translate_add_worktree_error(stderr, "b");
    assert!(msg.contains("at '/x/y'\n\nSuggestions"));
}

#[test]
fn filter_drops_metadata_directory_paths() {
    let text = "worktree /repo\nHEAD aaa\nbranch refs/heads/main\n\nworktree /elsewhere/shared.git\nHEAD bbb\n";
    let records = parse_worktrees(text);
    assert_eq!(records.len(), 2);
    assert!(!records[1].is_bare);
    assert!(records[1].path.ends_with(".git"));
    let visible = filter_worktrees(&records, "/nowhere");
    assert_eq!(visible.len(), 1);
    assert_eq!(visible[0].path, "/repo");
}
