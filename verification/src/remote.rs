//! Settlement of a raced remote operation.
//!
//! A push, pull or fetch races an interactive credential session against the
//! spawned network subprocess. Whichever resolves first is the single event
//! handed to [`settle_remote_command`], which classifies it into exactly one
//! outcome: user cancellation, timeout, subprocess failure carrying the
//! captured diagnostic text, or success carrying the captured output.

use vstd::prelude::*;

use crate::branch::RemoteCommandOutput;

verus! {

/// Terminal states of the interactive credential session.
#[derive(Clone, Copy, Debug, PartialEq, Eq, Structural)]
pub enum AskPassResult {
    /// The user dismissed the prompt.
    CancelledByUser,
    /// The prompt was not answered in time.
    Timedout,
}

/// What a finished network subprocess reported.
#[derive(Clone, Debug, PartialEq, Eq)]
pub struct ProcessOutput {
    /// Whether the process exited with status zero.
    pub success: bool,
    pub stdout: String,
    pub stderr: String,
}

/// The first event the race produces. The race is biased: when both sides
/// are ready in the same scheduling step, the credential session's terminal
/// state is the event, not the subprocess's completion.
#[derive(Clone, Debug, PartialEq, Eq)]
pub enum RemoteEvent {
    /// The credential session resolved first; the subprocess is abandoned
    /// without its output being consumed.
    AskPass(AskPassResult),
    /// The subprocess finished first, with its captured output.
    Finished(ProcessOutput),
}

/// How a remote operation ended short of success.
#[derive(Clone, Debug, PartialEq, Eq)]
pub enum RemoteError {
    /// The user cancelled the credential prompt.
    CancelledByUser,
    /// The credential prompt timed out.
    Timedout,
    /// The subprocess exited with a non-zero status; carries its captured
    /// diagnostic text.
    Failed { stderr: String },
}

impl RemoteError {
    /// The stable diagnostic text for this outcome; callers match the
    /// cancellation text to tell user cancellation from other failures.
    pub fn message(&self) -> (r: String)
        ensures
            match self {
                RemoteError::CancelledByUser => r@ == "Operation cancelled by user"@,
                RemoteError::Timedout => r@ == "Connecting to host timed out"@,
                RemoteError::Failed { stderr } => r@ == "Operation failed:\n"@ + stderr@,
            },
    {
        match self {
            RemoteError::CancelledByUser => String::from_str("Operation cancelled by user"),
            RemoteError::Timedout => String::from_str("Connecting to host timed out"),
            RemoteError::Failed { stderr } => String::from_str("Operation failed:\n").concat(
                stderr.as_str(),
            ),
        }
    }
}

/// The stable text reported when a remote operation is cancelled by the
/// user.
pub fn remote_cancelled_by_user() -> (r: String)
    ensures
        r@ == "Operation cancelled by user"@,
{
    String::from_str("Operation cancelled by user")
}

/// What each race event settles to.
pub open spec fn spec_settle_remote_command(event: RemoteEvent) -> Result<
    RemoteCommandOutput,
    RemoteError,
> {
    match event {
        RemoteEvent::AskPass(AskPassResult::CancelledByUser) => Err(RemoteError::CancelledByUser),
        RemoteEvent::AskPass(AskPassResult::Timedout) => Err(RemoteError::Timedout),
        RemoteEvent::Finished(out) => if out.success {
            Ok(RemoteCommandOutput { stdout: out.stdout, stderr: out.stderr })
        } else {
            Err(RemoteError::Failed { stderr: out.stderr })
        },
    }
}

/// Classifies the winning event of the race into the one outcome of the
/// remote operation. A credential-session event is always a failure — the
/// subprocess's output is never consulted for it — and a finished subprocess
/// succeeds exactly when its exit status was zero.
pub fn settle_remote_command(event: RemoteEvent) -> (r: Result<RemoteCommandOutput, RemoteError>)
    ensures
        r == spec_settle_remote_command(event),
{
    match event {
        RemoteEvent::AskPass(AskPassResult::CancelledByUser) => Err(RemoteError::CancelledByUser),
        RemoteEvent::AskPass(AskPassResult::Timedout) => Err(RemoteError::Timedout),
        RemoteEvent::Finished(out) => {
            if out.success {
                Ok(RemoteCommandOutput { stdout: out.stdout, stderr: out.stderr })
            } else {
                Err(RemoteError::Failed { stderr: out.stderr })
            }
        },
    }
}

} // verus!
