//! A verified core for a local version-control abstraction.
//!
//! The library models repository-relative paths, the branch/upstream/tracking
//! data returned by the external tool's structured output, the argument lists
//! and outcome classification of every tool invocation, the settlement of a
//! raced remote operation, and an in-memory repository state used as a
//! deterministic test double.

pub mod branch;
pub mod cli;
pub mod fake;
pub mod messages;
pub mod parse;
pub mod remote;
pub mod repo_path;
pub mod strutil;

pub use branch::Branch;
pub use branch::CommitDetails;
pub use branch::CommitSummary;
pub use branch::DiffType;
pub use branch::PushOptions;
pub use branch::Remote;
pub use branch::RemoteCommandOutput;
pub use branch::ResetMode;
pub use branch::Upstream;
pub use branch::UpstreamTracking;
pub use branch::UpstreamTrackingStatus;
pub use fake::FakeGitRepositoryState;
pub use messages::get_messages;
pub use parse::parse_branch_input;
pub use parse::parse_upstream_track;
pub use parse::BranchField;
pub use parse::ParseError;
pub use remote::remote_cancelled_by_user;
pub use remote::settle_remote_command;
pub use remote::AskPassResult;
pub use remote::ProcessOutput;
pub use remote::RemoteError;
pub use remote::RemoteEvent;
pub use repo_path::check_path_to_repo_path_errors;
pub use repo_path::RepoPath;
pub use repo_path::RepoPathDescendants;
pub use repo_path::RepoPathError;
