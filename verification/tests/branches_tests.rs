use wt::branches::{
    branch_list_args, local_branch_entries, merge_branch_names, merge_branches,
    parse_branch_listing, remote_branch_entries, Branch,
};

fn names(catalog: &[Branch]) -> Vec<&str> {
    catalog.iter().map(|b| b.name.as_str()).collect()
}

#[test]
fn merge_deduplicates_with_local_priority() {
    let local = vec![String::from("main"), String::from("feature")];
    let remote = vec![String::from("origin/main"), String::from("origin/hotfix")];
    let merged = merge_branch_names(&local, &remote);
    assert_eq!(names(&merged), vec!["main", "feature", "hotfix"]);
    assert!(!merged[0].is_remote);
    assert!(!merged[1].is_remote);
    assert!(merged[2].is_remote);
}

#[test]
fn merge_is_stable_across_repeated_runs() {
    let local = vec![String::from("main"), String::from("feature")];
    let remote = vec![String::from("origin/main"), String::from("origin/hotfix")];
    let first = merge_branch_names(&local, &remote);
    let second = merge_branch_names(&local, &remote);
    assert_eq!(first, second);
    let remotes = remote_branch_entries(&remote);
    let again = merge_branches(&first, &remotes);
    assert_eq!(again, first);
}

#[test]
fn local_entries_skip_head_and_keep_upstreams() {
    let ns = vec![String::from("main"), String::from("HEAD"), String::from("dev")];
    let ups = vec![Some(String::from("origin/main")), None, None];
    let entries = local_branch_entries(&ns, &ups);
    assert_eq!(names(&entries), vec!["main", "dev"]);
    assert_eq!(entries[0].upstream, Some(String::from("origin/main")));
    assert_eq!(entries[1].upstream, None);
    assert!(entries.iter().all(|b| !b.is_remote));
}

#[test]
fn remote_entries_strip_origin_and_skip_head_pointers() {
    let ns = vec![
        String::from("origin/main"),
        String::from("origin/HEAD"),
        String::from("upstream/dev"),
    ];
    let entries = remote_branch_entries(&ns);
    assert_eq!(names(&entries), vec!["main", "upstream/dev"]);
    assert!(entries.iter().all(|b| b.is_remote));
    assert!(entries.iter().all(|b| b.upstream.is_none()));
}

#[test]
fn merge_keeps_local_order_at_the_front() {
    let local = vec![String::from("z"), String::from("a"), String::from("m")];
    let remote = vec![String::from("origin/b"), String::from("origin/a")];
    let merged = merge_branch_names(&local, &remote);
    assert_eq!(names(&merged), vec!["z", "a", "m", "b"]);
}

#[test]
fn listing_is_split_into_local_and_remote_names() {
    let text = "* main\n  feature\n\n  remotes/origin/main\n  remotes/origin/HEAD -> origin/main\n  remotes/upstream/dev\n";
    let (local, remote) = parse_branch_listing(text);
    assert_eq!(local, vec!["main", "feature"]);
    assert_eq!(remote, vec!["origin/main", "upstream/dev"]);
}

#[test]
fn listing_feeds_the_catalog() {
    let text = "* main\n  remotes/origin/main\n  remotes/origin/hotfix\n";
    let (local, remote) = parse_branch_listing(text);
    let merged = merge_branch_names(&local, &remote);
    assert_eq!(names(&merged), vec!["main", "hotfix"]);
}

#[test]
fn branch_args_list_all_branches() {
    assert_eq!(branch_list_args(), vec!["branch", "-a"]);
}
