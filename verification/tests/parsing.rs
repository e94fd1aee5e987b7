use git::parse_branch_input;
use git::parse_upstream_track;
use git::Branch;
use git::BranchField;
use git::CommitSummary;
use git::ParseError;
use git::Upstream;
use git::UpstreamTracking;
use git::UpstreamTrackingStatus;

#[test]
fn test_branches_parsing() {
    // suppress "help: octal escapes are not supported, `\0` is always null"
    #[allow(clippy::octal_escapes)]
    let input = "*\0060964da10574cd9bf06463a53bf6e0769c5c45e\0\0refs/heads/zed-patches\0refs/remotes/origin/zed-patches\0\01733187470\0generated protobuf\n";
    assert_eq!(
        parse_branch_input(&input).unwrap(),
        vec![Branch {
            is_head: true,
            name: "zed-patches".into(),
            upstream: Some(Upstream {
                ref_name: "refs/remotes/origin/zed-patches".into(),
                tracking: UpstreamTracking::Present(UpstreamTrackingStatus {
                    ahead: 0,
                    behind: 0
                })
            }),
            most_recent_commit: Some(CommitSummary {
                sha: "060964da10574cd9bf06463a53bf6e0769c5c45e".into(),
                subject: "generated protobuf".into(),
                commit_timestamp: 1733187470,
                has_parent: false,
            })
        }]
    )
}

#[test]
fn empty_token_is_up_to_date() {
    assert_eq!(
        parse_upstream_track("").unwrap(),
        UpstreamTracking::Present(UpstreamTrackingStatus { ahead: 0, behind: 0 })
    );
}

#[test]
fn ahead_and_behind_counts_are_read() {
    assert_eq!(
        parse_upstream_track("[ahead 2, behind 1]").unwrap(),
        UpstreamTracking::Present(UpstreamTrackingStatus { ahead: 2, behind: 1 })
    );
}

#[test]
fn gone_token_wins() {
    assert_eq!(parse_upstream_track("[gone]").unwrap(), UpstreamTracking::Gone);
    assert_eq!(
        parse_upstream_track("[ahead 3, gone]").unwrap(),
        UpstreamTracking::Gone
    );
}

#[test]
fn malformed_brackets_are_errors() {
    assert_eq!(
        parse_upstream_track("ahead 2]"),
        Err(ParseError::MissingOpenBracket)
    );
    assert_eq!(
        parse_upstream_track("[ahead 2"),
        Err(ParseError::MissingCloseBracket)
    );
    assert_eq!(parse_upstream_track("["), Err(ParseError::MissingCloseBracket));
}

#[test]
fn bad_count_is_an_error() {
    assert_eq!(parse_upstream_track("[ahead x]"), Err(ParseError::BadInteger));
    assert_eq!(
        parse_upstream_track("[behind 99999999999999]"),
        Err(ParseError::BadInteger)
    );
}

#[test]
fn unknown_components_are_ignored() {
    assert_eq!(
        parse_upstream_track("[ahead 1, interesting 7]").unwrap(),
        UpstreamTracking::Present(UpstreamTrackingStatus { ahead: 1, behind: 0 })
    );
}

#[test]
fn record_missing_fields_is_an_error() {
    let input = "*\0abc\0\0refs/heads/main\n";
    assert_eq!(
        parse_branch_input(input),
        Err(ParseError::MissingField(BranchField::UpstreamRef))
    );
}

#[test]
fn record_without_branch_prefix_is_an_error() {
    #[allow(clippy::octal_escapes)]
    let input = "*\0abc\0\0refs/tags/v1\0\0\01733187470\0subject\n";
    assert_eq!(parse_branch_input(input), Err(ParseError::BadRefName));
}

#[test]
fn record_with_bad_date_is_an_error() {
    let input = "*\0abc\0\0refs/heads/main\0\0\0notadate\0subject\n";
    assert_eq!(parse_branch_input(input), Err(ParseError::BadInteger));
}

#[test]
fn blank_lines_are_skipped_and_order_kept() {
    #[allow(clippy::octal_escapes)]
    let input = "\n \0a1\0p\0refs/heads/one\0\0\01\0first\n\n*\0a2\0\0refs/heads/two\0\0\02\0second\n";
    let branches = parse_branch_input(input).unwrap();
    assert_eq!(branches.len(), 2);
    assert_eq!(branches[0].name, "one");
    assert!(!branches[0].is_head);
    assert!(branches[0].most_recent_commit.as_ref().unwrap().has_parent);
    assert_eq!(branches[1].name, "two");
    assert!(branches[1].is_head);
    assert!(!branches[1].most_recent_commit.as_ref().unwrap().has_parent);
}

#[test]
fn one_bad_record_aborts_the_batch() {
    #[allow(clippy::octal_escapes)]
    let input = "*\0a1\0\0refs/heads/one\0\0\01\0first\nbroken line\n";
    assert!(parse_branch_input(input).is_err());
}

#[test]
fn negative_timestamp_is_read() {
    let input = "*\0a1\0\0refs/heads/old\0\0\0-5\0first\n";
    let branches = parse_branch_input(input).unwrap();
    assert_eq!(
        branches[0].most_recent_commit.as_ref().unwrap().commit_timestamp,
        -5
    );
}
