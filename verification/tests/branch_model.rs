use git::Branch;
use git::CommitSummary;
use git::Upstream;
use git::UpstreamTracking;
use git::UpstreamTrackingStatus;

#[test]
fn tracking_state_queries() {
    let status = UpstreamTrackingStatus { ahead: 4, behind: 2 };
    let present = UpstreamTracking::Present(status);
    assert!(!present.is_gone());
    assert_eq!(present.status(), Some(status));
    assert!(UpstreamTracking::Gone.is_gone());
    assert_eq!(UpstreamTracking::Gone.status(), None);
    assert_eq!(UpstreamTracking::from(status), present);
}

#[test]
fn branch_tracking_status_follows_the_upstream() {
    let status = UpstreamTrackingStatus { ahead: 1, behind: 0 };
    let branch = Branch {
        is_head: false,
        name: "dev".into(),
        upstream: Some(Upstream {
            ref_name: "refs/remotes/origin/dev".into(),
            tracking: UpstreamTracking::Present(status),
        }),
        most_recent_commit: None,
    };
    assert_eq!(branch.tracking_status(), Some(status));
    let gone = Branch {
        upstream: Some(Upstream {
            ref_name: "refs/remotes/origin/dev".into(),
            tracking: UpstreamTracking::Gone,
        }),
        ..branch.clone()
    };
    assert_eq!(gone.tracking_status(), None);
    let bare = Branch {
        upstream: None,
        ..branch.clone()
    };
    assert_eq!(bare.tracking_status(), None);
}

#[test]
fn priority_key_orders_head_first_then_recency() {
    let head = Branch {
        is_head: true,
        name: "main".into(),
        upstream: None,
        most_recent_commit: Some(CommitSummary {
            sha: "a".into(),
            subject: "s".into(),
            commit_timestamp: 10,
            has_parent: true,
        }),
    };
    assert_eq!(head.priority_key(), (true, Some(10)));
    let bare = Branch {
        is_head: false,
        name: "old".into(),
        upstream: None,
        most_recent_commit: None,
    };
    assert_eq!(bare.priority_key(), (false, None));
    assert!(head.priority_key() > bare.priority_key());
}
