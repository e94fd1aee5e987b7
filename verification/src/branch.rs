//! Value model for branches, upstreams, commits, remotes, and the option
//! enums of the repository operations.
//!
//! All of these are immutable snapshots: they are built by the parsers or by
//! direct repository queries and never mutated in place.

use vstd::prelude::*;

use crate::strutil::chars_of;
use crate::strutil::spec_starts_with;
use crate::strutil::starts_with_at;
use crate::strutil::string_of_chars;
use crate::strutil::subvec;

verus! {

/// Length of the abbreviated commit identifier exposed by [`CommitDetails::short_sha`].
pub const SHORT_SHA_LENGTH: usize = 7;

/// How far a local branch has diverged from the remote-tracking ref it
/// compares against.
#[derive(Clone, Copy, Debug, Hash, PartialEq, Eq, Structural)]
pub struct UpstreamTrackingStatus {
    pub ahead: u32,
    pub behind: u32,
}

/// State of the remote-tracking ref a branch is configured against.
#[derive(Clone, Copy, Debug, Hash, PartialEq, Eq, Structural)]
pub enum UpstreamTracking {
    /// Remote ref not present in the local repository.
    Gone,
    /// Remote ref present in the local repository (fetched from the remote).
    Present(UpstreamTrackingStatus),
}

impl From<UpstreamTrackingStatus> for UpstreamTracking {
    fn from(status: UpstreamTrackingStatus) -> (r: Self) {
        UpstreamTracking::Present(status)
    }
}

impl vstd::std_specs::convert::FromSpecImpl<UpstreamTrackingStatus> for UpstreamTracking {
    open spec fn obeys_from_spec() -> bool {
        true
    }

    open spec fn from_spec(status: UpstreamTrackingStatus) -> UpstreamTracking {
        UpstreamTracking::Present(status)
    }
}

impl UpstreamTracking {
    pub fn is_gone(&self) -> (r: bool)
        ensures
            r == (*self is Gone),
    {
        matches!(self, UpstreamTracking::Gone)
    }

    pub fn status(&self) -> (r: Option<UpstreamTrackingStatus>)
        ensures
            r == match *self {
                UpstreamTracking::Gone => None::<UpstreamTrackingStatus>,
                UpstreamTracking::Present(status) => Some(status),
            },
    {
        match self {
            UpstreamTracking::Gone => None,
            UpstreamTracking::Present(status) => Some(*status),
        }
    }
}

/// The remote-tracking ref a local branch compares against.
#[derive(Clone, Debug, Hash, PartialEq, Eq)]
pub struct Upstream {
    pub ref_name: String,
    pub tracking: UpstreamTracking,
}

/// The leading run of `s` before the first separator, or all of `s` when
/// there is none.
pub open spec fn prefix_until(s: Seq<char>, sep: char) -> Seq<char>
    decreases s.len(),
{
    if s.len() == 0 {
        Seq::<char>::empty()
    } else if s[0] == sep {
        Seq::<char>::empty()
    } else {
        seq![s[0]] + prefix_until(s.drop_first(), sep)
    }
}

/// The short remote name of an upstream ref: the first path segment after
/// the remote-tracking prefix, or nothing when the ref lies elsewhere.
pub open spec fn spec_remote_name(ref_name: Seq<char>) -> Option<Seq<char>> {
    if spec_starts_with(ref_name, "refs/remotes/"@) {
        Some(prefix_until(ref_name.skip("refs/remotes/"@.len() as int), '/'))
    } else {
        None
    }
}

impl Upstream {
    /// The short name of the remote this upstream lives on, read off its
    /// ref name.
    pub fn remote_name(&self) -> (r: Option<String>)
        ensures
            match r {
                Some(s) => spec_remote_name(self.ref_name@) == Some(s@),
                None => spec_remote_name(self.ref_name@) is None,
            },
    {
        let cs = chars_of(self.ref_name.as_str());
        let prefix = chars_of("refs/remotes/");
        proof {
            assert(cs@.skip(0) =~= cs@);
        }
        if !starts_with_at(&cs, &prefix, 0) {
            return None;
        }
        let rest = subvec(&cs, prefix.len(), cs.len());
        proof {
            assert(rest@ =~= cs@.skip("refs/remotes/"@.len() as int));
        }
        let mut i: usize = 0;
        while i < rest.len() && rest[i] != '/'
            invariant
                i <= rest@.len(),
                forall|j: int| 0 <= j < i ==> rest@[j] != '/',
            decreases rest@.len() - i,
        {
            i = i + 1;
        }
        let name = subvec(&rest, 0, i);
        proof {
            lemma_prefix_until_take(rest@, i as int);
            assert(name@ =~= rest@.subrange(0, i as int));
        }
        Some(string_of_chars(&name))
    }
}

proof fn lemma_prefix_until_take(s: Seq<char>, i: int)
    requires
        0 <= i <= s.len(),
        forall|j: int| 0 <= j < i ==> s[j] != '/',
        i < s.len() ==> s[i] == '/',
    ensures
        prefix_until(s, '/') == s.subrange(0, i),
    decreases i,
{
    if i == 0 {
        assert(s.subrange(0, 0) =~= Seq::<char>::empty());
    } else {
        let t = s.drop_first();
        assert(forall|j: int| 0 <= j < i - 1 ==> t[j] != '/');
        lemma_prefix_until_take(t, i - 1);
        assert(seq![s[0]] + t.subrange(0, i - 1) =~= s.subrange(0, i));
    }
}

/// Mathematical image of an [`Upstream`].
pub struct UpstreamView {
    pub ref_name: Seq<char>,
    pub tracking: UpstreamTracking,
}

impl View for Upstream {
    type V = UpstreamView;

    open spec fn view(&self) -> UpstreamView {
        UpstreamView { ref_name: self.ref_name@, tracking: self.tracking }
    }
}

impl DeepView for Upstream {
    type V = UpstreamView;

    open spec fn deep_view(&self) -> UpstreamView {
        self.view()
    }
}

/// Summary of the most recent commit on a branch.
#[derive(Clone, Debug, Hash, PartialEq, Eq)]
pub struct CommitSummary {
    pub sha: String,
    pub subject: String,
    /// Unix timestamp, in seconds.
    pub commit_timestamp: i64,
    pub has_parent: bool,
}

/// Mathematical image of a [`CommitSummary`].
pub struct CommitSummaryView {
    pub sha: Seq<char>,
    pub subject: Seq<char>,
    pub commit_timestamp: i64,
    pub has_parent: bool,
}

impl View for CommitSummary {
    type V = CommitSummaryView;

    open spec fn view(&self) -> CommitSummaryView {
        CommitSummaryView {
            sha: self.sha@,
            subject: self.subject@,
            commit_timestamp: self.commit_timestamp,
            has_parent: self.has_parent,
        }
    }
}

impl DeepView for CommitSummary {
    type V = CommitSummaryView;

    open spec fn deep_view(&self) -> CommitSummaryView {
        self.view()
    }
}

/// A local branch together with its upstream and latest-commit metadata.
#[derive(Clone, Debug, Hash, PartialEq, Eq)]
pub struct Branch {
    pub is_head: bool,
    pub name: String,
    pub upstream: Option<Upstream>,
    pub most_recent_commit: Option<CommitSummary>,
}

/// Mathematical image of a [`Branch`].
pub struct BranchView {
    pub is_head: bool,
    pub name: Seq<char>,
    pub upstream: Option<UpstreamView>,
    pub most_recent_commit: Option<CommitSummaryView>,
}

impl View for Branch {
    type V = BranchView;

    open spec fn view(&self) -> BranchView {
        BranchView {
            is_head: self.is_head,
            name: self.name@,
            upstream: match self.upstream {
                Some(u) => Some(u@),
                None => None,
            },
            most_recent_commit: match self.most_recent_commit {
                Some(c) => Some(c@),
                None => None,
            },
        }
    }
}

impl DeepView for Branch {
    type V = BranchView;

    open spec fn deep_view(&self) -> BranchView {
        self.view()
    }
}

impl Branch {
    pub fn tracking_status(&self) -> (r: Option<UpstreamTrackingStatus>)
        ensures
            r == match self.upstream {
                Some(upstream) => match upstream.tracking {
                    UpstreamTracking::Gone => None::<UpstreamTrackingStatus>,
                    UpstreamTracking::Present(status) => Some(status),
                },
                None => None::<UpstreamTrackingStatus>,
            },
    {
        match &self.upstream {
            Some(upstream) => upstream.tracking.status(),
            None => None,
        }
    }

    /// Key for ordering branches in a picker: the checked-out branch first,
    /// then the branches with the most recent commits.
    pub fn priority_key(&self) -> (r: (bool, Option<i64>))
        ensures
            r.0 == self.is_head,
            r.1 == match self.most_recent_commit {
                Some(commit) => Some(commit.commit_timestamp),
                None => None::<i64>,
            },
    {
        (
            self.is_head,
            match &self.most_recent_commit {
                Some(commit) => Some(commit.commit_timestamp),
                None => None,
            },
        )
    }
}

/// Full details of a single commit.
#[derive(Clone, Debug, Hash, PartialEq, Eq)]
pub struct CommitDetails {
    pub sha: String,
    pub message: String,
    pub commit_timestamp: i64,
    pub committer_email: String,
    pub committer_name: String,
}

impl CommitDetails {
    pub fn short_sha(&self) -> (r: String)
        requires
            self.sha@.len() >= SHORT_SHA_LENGTH,
        ensures
            r@ == self.sha@.subrange(0, SHORT_SHA_LENGTH as int),
    {
        let s = self.sha.as_str().substring_char(0, SHORT_SHA_LENGTH);
        String::from_str(s)
    }
}

/// A configured remote, by name.
#[derive(Clone, Debug, Hash, PartialEq, Eq)]
pub struct Remote {
    pub name: String,
}

impl View for Remote {
    type V = Seq<char>;

    open spec fn view(&self) -> Seq<char> {
        self.name@
    }
}

impl DeepView for Remote {
    type V = Seq<char>;

    open spec fn deep_view(&self) -> Seq<char> {
        self.name@
    }
}

/// Captured output of a completed remote operation.
#[derive(Clone, Debug, PartialEq, Eq)]
pub struct RemoteCommandOutput {
    pub stdout: String,
    pub stderr: String,
}

impl RemoteCommandOutput {
    pub fn is_empty(&self) -> (r: bool)
        ensures
            r == (self.stdout@.len() == 0 && self.stderr@.len() == 0),
    {
        self.stdout.as_str().is_empty() && self.stderr.as_str().is_empty()
    }
}

/// Which parts of the repository a reset leaves untouched.
#[derive(Clone, Copy, Debug, PartialEq, Eq, Structural)]
pub enum ResetMode {
    /// Reset the branch pointer, leaving index and worktree unchanged, so
    /// that what was committed now appears staged.
    Soft,
    /// Reset the branch pointer and the index, leaving the worktree
    /// unchanged, so that what was committed now appears unstaged.
    Mixed,
}

/// Which pair of snapshots a diff compares.
#[derive(Clone, Copy, Debug, PartialEq, Eq, Structural)]
pub enum DiffType {
    HeadToIndex,
    HeadToWorktree,
}

/// Optional behaviour of a push.
#[derive(Clone, Copy, Debug, PartialEq, Eq, Structural)]
pub enum PushOptions {
    SetUpstream,
    Force,
}

} // verus!
