use git::cli::branches_from_outputs;
use git::cli::check_for_pushed_commit;
use git::cli::commit_args;
use git::cli::diff_args;
use git::cli::loadable_entry_oid;
use git::cli::parse_remote_lines;
use git::cli::push_args;
use git::cli::remote_from_config;
use git::cli::reset_args;
use git::cli::reset_outcome;
use git::cli::stage_paths_args;
use git::cli::RemoteHeadCandidate;
use git::get_messages;
use git::CommitDetails;
use git::DiffType;
use git::PushOptions;
use git::RepoPath;
use git::ResetMode;
use git::Upstream;
use git::UpstreamTracking;

#[test]
fn reset_invocation_and_outcome() {
    assert_eq!(
        reset_args(ResetMode::Mixed, "abc123"),
        vec!["reset", "--mixed", "abc123"]
    );
    assert_eq!(
        reset_args(ResetMode::Soft, "abc123"),
        vec!["reset", "--soft", "abc123"]
    );
    assert_eq!(reset_outcome(true, ""), Ok(()));
    let e = reset_outcome(false, "bad ref").unwrap_err();
    assert_eq!(e.message, "Failed to reset:\nbad ref");
}

#[test]
fn staging_and_commit_invocations() {
    let paths = vec![RepoPath::from_str("a.txt"), RepoPath::from_str("b/c.txt")];
    assert_eq!(
        stage_paths_args(&paths),
        vec!["update-index", "--add", "--remove", "--", "a.txt", "b/c.txt"]
    );
    assert_eq!(
        commit_args("fix it", Some(("Ada", "ada@example.com"))),
        vec![
            "commit",
            "--quiet",
            "-m",
            "fix it",
            "--cleanup=strip",
            "--author",
            "Ada <ada@example.com>"
        ]
    );
    assert_eq!(
        commit_args("fix it", None),
        vec!["commit", "--quiet", "-m", "fix it", "--cleanup=strip"]
    );
}

#[test]
fn push_and_diff_invocations() {
    assert_eq!(
        push_args("main", "origin", Some(PushOptions::SetUpstream)),
        vec!["push", "--set-upstream", "origin", "main:main"]
    );
    assert_eq!(
        push_args("main", "origin", Some(PushOptions::Force)),
        vec!["push", "--force-with-lease", "origin", "main:main"]
    );
    assert_eq!(push_args("main", "origin", None), vec!["push", "origin", "main:main"]);
    assert_eq!(diff_args(DiffType::HeadToIndex), vec!["diff", "--staged"]);
    assert_eq!(diff_args(DiffType::HeadToWorktree), vec!["diff"]);
}

#[test]
fn remote_listing_is_trimmed_and_blank_lines_dropped() {
    let remotes = parse_remote_lines("origin\nbackup \n\n");
    assert_eq!(remotes.len(), 2);
    assert_eq!(remotes[0].name, "origin");
    assert_eq!(remotes[1].name, "backup");
    assert_eq!(remote_from_config(" origin\n").name, "origin");
}

#[test]
fn branch_fallback_synthesizes_the_symbolic_head() {
    let branches = branches_from_outputs("", Some("main\n")).unwrap();
    assert_eq!(branches.len(), 1);
    assert_eq!(branches[0].name, "main");
    assert!(branches[0].is_head);
    assert_eq!(branches[0].upstream, None);
    assert_eq!(branches[0].most_recent_commit, None);
}

#[test]
fn branch_fallback_is_not_used_when_records_parse() {
    let input = "*\0a1\0\0refs/heads/real\0\0\01\0subject\n";
    let branches = branches_from_outputs(input, Some("other")).unwrap();
    assert_eq!(branches.len(), 1);
    assert_eq!(branches[0].name, "real");
}

#[test]
fn branch_fallback_without_symbolic_head_is_empty() {
    let branches = branches_from_outputs("", None).unwrap();
    assert_eq!(branches.len(), 0);
}

#[test]
fn pushed_commit_lists_remote_heads_then_distinct_upstream() {
    let remote_heads = vec![
        RemoteHeadCandidate {
            ref_output: String::from("refs/remotes/origin/main\n"),
            merge_base_output: Some(String::from("abc\n")),
        },
        RemoteHeadCandidate {
            ref_output: String::from("refs/remotes/backup/main\n"),
            merge_base_output: Some(String::from("abc\n")),
        },
    ];
    // the upstream equals one of the remote main branches: not repeated
    let upstream = Some(RemoteHeadCandidate {
        ref_output: String::from("refs/remotes/origin/main\n"),
        merge_base_output: Some(String::from("abc\n")),
    });
    let r = check_for_pushed_commit("abc\n", &remote_heads, &upstream);
    assert_eq!(r, vec!["origin/main", "backup/main"]);
}

#[test]
fn pushed_commit_appends_a_distinct_upstream() {
    let remote_heads = vec![RemoteHeadCandidate {
        ref_output: String::from("refs/remotes/origin/main\n"),
        merge_base_output: Some(String::from("abc\n")),
    }];
    let upstream = Some(RemoteHeadCandidate {
        ref_output: String::from("refs/remotes/origin/feature\n"),
        merge_base_output: Some(String::from("abc\n")),
    });
    let r = check_for_pushed_commit("abc\n", &remote_heads, &upstream);
    assert_eq!(r, vec!["origin/main", "origin/feature"]);
}

#[test]
fn pushed_commit_skips_non_ancestors_and_failed_lookups() {
    let remote_heads = vec![
        RemoteHeadCandidate {
            ref_output: String::from("refs/remotes/origin/main\n"),
            merge_base_output: Some(String::from("older\n")),
        },
        RemoteHeadCandidate {
            ref_output: String::from("refs/remotes/backup/main\n"),
            merge_base_output: None,
        },
    ];
    let r = check_for_pushed_commit("abc\n", &remote_heads, &None);
    assert_eq!(r.len(), 0);
}

#[test]
fn symlink_entries_read_as_absent() {
    assert_eq!(
        loadable_entry_oid(Some((0o120000, String::from("oid1")))),
        None
    );
    assert_eq!(
        loadable_entry_oid(Some((0o100644, String::from("oid1")))),
        Some(String::from("oid1"))
    );
    assert_eq!(loadable_entry_oid(None), None);
}

#[test]
fn commit_messages_are_paired_trimmed_and_escaped() {
    let shas = vec![String::from("a1"), String::from("b2")];
    let stdout = "  first <subject>\n<MARKER>\nsecond\n<MARKER>";
    let r = get_messages(&shas, stdout);
    assert_eq!(
        r,
        vec![
            (String::from("a1"), String::from("first &lt;subject&gt;")),
            (String::from("b2"), String::from("second")),
        ]
    );
}

#[test]
fn short_sha_takes_the_leading_characters() {
    let details = CommitDetails {
        sha: String::from("060964da10574cd9bf06463a53bf6e0769c5c45e"),
        message: String::from("m"),
        commit_timestamp: 0,
        committer_email: String::from("e"),
        committer_name: String::from("n"),
    };
    assert_eq!(details.short_sha(), "060964d");
}

#[test]
fn remote_name_strips_the_tracking_prefix() {
    let upstream = Upstream {
        ref_name: String::from("refs/remotes/origin/zed-patches"),
        tracking: UpstreamTracking::Gone,
    };
    assert_eq!(upstream.remote_name(), Some(String::from("origin")));
    let local = Upstream {
        ref_name: String::from("refs/heads/main"),
        tracking: UpstreamTracking::Gone,
    };
    assert_eq!(local.remote_name(), None);
}
