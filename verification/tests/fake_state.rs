use git::fake::status_entries;
use git::FakeGitRepositoryState;
use git::RepoPath;

#[test]
fn absent_paths_read_as_nothing_not_as_errors() {
    let state = FakeGitRepositoryState::new(String::from("repo"));
    let p = RepoPath::from_str("never/staged.txt");
    assert_eq!(state.load_index_text(&p), None);
    assert_eq!(state.load_committed_text(&p), None);
}

#[test]
fn staging_then_reading_round_trips() {
    let mut state = FakeGitRepositoryState::new(String::from("repo"));
    let p = RepoPath::from_str("a.txt");
    state
        .set_index_text(&p, Some(String::from("hello")))
        .unwrap();
    assert_eq!(state.load_index_text(&p), Some(String::from("hello")));
    // the index write does not touch HEAD
    assert_eq!(state.load_committed_text(&p), None);
    // absent content removes the entry
    state.set_index_text(&p, None).unwrap();
    assert_eq!(state.load_index_text(&p), None);
}

#[test]
fn simulated_write_error_fails_and_changes_nothing() {
    let mut state = FakeGitRepositoryState::new(String::from("repo"));
    let p = RepoPath::from_str("a.txt");
    state.set_index_text(&p, Some(String::from("v1"))).unwrap();
    state.simulated_index_write_error_message = Some(String::from("disk full"));
    let r = state.set_index_text(&p, Some(String::from("v2")));
    assert_eq!(r, Err(String::from("disk full")));
    assert_eq!(state.load_index_text(&p), Some(String::from("v1")));
}

#[test]
fn committed_text_is_read_from_head() {
    let mut state = FakeGitRepositoryState::new(String::from("repo"));
    let p = RepoPath::from_str("b.txt");
    state.set_head_text(&p, String::from("committed"));
    assert_eq!(state.load_committed_text(&p), Some(String::from("committed")));
    assert_eq!(state.load_index_text(&p), None);
}

#[test]
fn branch_bookkeeping() {
    let mut state = FakeGitRepositoryState::new(String::from("repo"));
    assert!(!state.branch_exits("main"));
    state.create_branch("main").unwrap();
    state.create_branch("dev").unwrap();
    state.create_branch("main").unwrap();
    assert!(state.branch_exits("main"));
    assert!(state.branch_exits("dev"));
    state.change_branch("dev").unwrap();
    let branches = state.branches();
    assert_eq!(branches.len(), 2);
    assert_eq!(branches[0].name, "main");
    assert!(!branches[0].is_head);
    assert_eq!(branches[1].name, "dev");
    assert!(branches[1].is_head);
    assert_eq!(branches[0].upstream, None);
    assert_eq!(branches[0].most_recent_commit, None);
}

#[test]
fn fake_remote_queries_are_empty() {
    let state = FakeGitRepositoryState::new(String::from("repo"));
    assert_eq!(state.remote_url("origin"), None);
    assert_eq!(state.head_sha(), None);
    assert_eq!(state.merge_head_shas().len(), 0);
}

#[test]
fn status_is_filtered_by_prefix_and_sorted_by_path() {
    let entries = vec![
        (RepoPath::from_str("b/c.txt"), 2u32),
        (RepoPath::from_str("a/d.txt"), 3u32),
        (RepoPath::from_str("a/b.txt"), 1u32),
    ];
    let prefixes = vec![RepoPath::from_str("a")];
    let r = status_entries(&entries, &prefixes);
    assert_eq!(r.len(), 2);
    assert_eq!(r[0].0.as_str(), "a/b.txt");
    assert_eq!(r[0].1, 1);
    assert_eq!(r[1].0.as_str(), "a/d.txt");
    assert_eq!(r[1].1, 3);
}

#[test]
fn status_with_root_prefix_sees_everything() {
    let entries = vec![
        (RepoPath::from_str("z.txt"), 1u32),
        (RepoPath::from_str("a.txt"), 2u32),
    ];
    let prefixes = vec![RepoPath::default()];
    let r = status_entries(&entries, &prefixes);
    assert_eq!(r.len(), 2);
    assert_eq!(r[0].0.as_str(), "a.txt");
    assert_eq!(r[1].0.as_str(), "z.txt");
}

#[test]
fn status_with_no_matching_prefix_is_empty() {
    let entries = vec![(RepoPath::from_str("a/b.txt"), 1u32)];
    let prefixes = vec![RepoPath::from_str("c")];
    assert_eq!(status_entries(&entries, &prefixes).len(), 0);
}
