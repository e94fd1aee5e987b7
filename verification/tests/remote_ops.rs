use git::remote_cancelled_by_user;
use git::settle_remote_command;
use git::AskPassResult;
use git::ProcessOutput;
use git::RemoteCommandOutput;
use git::RemoteError;
use git::RemoteEvent;

#[test]
fn cancellation_beats_the_subprocess() {
    // the credential session resolved first: the subprocess's output is
    // never consulted
    let r = settle_remote_command(RemoteEvent::AskPass(AskPassResult::CancelledByUser));
    assert_eq!(r, Err(RemoteError::CancelledByUser));
    assert_eq!(
        r.unwrap_err().message(),
        String::from("Operation cancelled by user")
    );
    assert_eq!(remote_cancelled_by_user(), String::from("Operation cancelled by user"));
}

#[test]
fn timeout_is_its_own_outcome() {
    let r = settle_remote_command(RemoteEvent::AskPass(AskPassResult::Timedout));
    assert_eq!(r, Err(RemoteError::Timedout));
    assert_eq!(
        r.unwrap_err().message(),
        String::from("Connecting to host timed out")
    );
}

#[test]
fn successful_subprocess_returns_its_output() {
    let r = settle_remote_command(RemoteEvent::Finished(ProcessOutput {
        success: true,
        stdout: String::from("pushed"),
        stderr: String::from("warning"),
    }));
    assert_eq!(
        r,
        Ok(RemoteCommandOutput {
            stdout: String::from("pushed"),
            stderr: String::from("warning"),
        })
    );
}

#[test]
fn failed_subprocess_carries_its_diagnostics() {
    let r = settle_remote_command(RemoteEvent::Finished(ProcessOutput {
        success: false,
        stdout: String::new(),
        stderr: String::from("denied"),
    }));
    assert_eq!(
        r,
        Err(RemoteError::Failed {
            stderr: String::from("denied")
        })
    );
    assert_eq!(
        r.unwrap_err().message(),
        String::from("Operation failed:\ndenied")
    );
}

#[test]
fn emptiness_of_captured_output() {
    let empty = RemoteCommandOutput {
        stdout: String::new(),
        stderr: String::new(),
    };
    assert!(empty.is_empty());
    let noisy = RemoteCommandOutput {
        stdout: String::new(),
        stderr: String::from("x"),
    };
    assert!(!noisy.is_empty());
}
