//! Guest process supervision: spawn gate, stderr accounting, and
//! residue-dominated shutdown.

use vstd::prelude::*;

use crate::error::{CistellaError, ErrorView, Result};
use crate::framework::protocol;
use crate::framework::protocol::{ReadEvent, STDERR_CAP};
use crate::path;
use crate::text;

verus! {

/// Budget for post-kill pipe-EOF verification, in milliseconds.
pub const PIPE_EOF_BUDGET: u64 = 3_000;

/// Stderr drain accounting (content discarded, counts only).
#[derive(Debug, Clone, Copy, PartialEq, Eq, Structural)]
pub struct StderrDrain {
    /// Total stderr bytes drained.
    pub bytes: u64,
    /// True when output exceeded the cap.
    pub truncated: bool,
}

/// Accounts for a drained stderr.
pub fn drain_stderr(bytes: u64) -> (d: StderrDrain)
    ensures
        d == (StderrDrain { bytes, truncated: bytes > STDERR_CAP }),
{
    StderrDrain { bytes, truncated: bytes > STDERR_CAP }
}

/// Gate of a guest spawn: the executable is absolute, never PATH-searched,
/// and no other guest lives in the process.
pub fn spawn_gate(executable: &str, guest_live: bool) -> (r: Result<()>)
    ensures
        match r {
            Ok(_) => path::is_absolute(executable@) && !guest_live,
            Err(e) => if !path::is_absolute(executable@) {
                e@ == ErrorView::Protocol(
                    "guest executable must be absolute, never PATH-searched: "@ + executable@,
                )
            } else {
                guest_live && e@ == ErrorView::Protocol(
                    "concurrent guests not supported: one live guest per process"@,
                )
            },
        },
{
    if !path::absolute(executable) {
        return Err(
            CistellaError::Protocol(
                text::cat(
                    "guest executable must be absolute, never PATH-searched: ",
                    executable,
                ),
            ),
        );
    }
    if guest_live {
        return Err(
            protocol::protocol_error(
                "concurrent guests not supported: one live guest per process",
            ),
        );
    }
    Ok(())
}

/// What a supervised kill does next.
#[derive(Debug)]
pub enum KillStep {
    /// The leader is reaped.
    Reaped,
    /// Wait a little and look again.
    Wait,
    /// Grace is over: kill the group and reap.
    KillGroup,
    /// Reaping failed.
    Failed(CistellaError),
}

/// Decides one round of the graceful kill: the group was signalled even when
/// the leader already exited; a reaped leader ends it, and grace bounds the
/// wait. `reaped` is absent while the leader runs and holds the system's
/// text when looking failed.
pub fn kill_step(reaped: std::result::Result<bool, String>, grace_over: bool) -> (s: KillStep)
    ensures
        match reaped {
            Err(m) => s matches KillStep::Failed(e) && e@ == ErrorView::Protocol("reap: "@ + m@),
            Ok(true) => s is Reaped,
            Ok(false) => if grace_over {
                s is KillGroup
            } else {
                s is Wait
            },
        },
{
    match reaped {
        Err(m) => KillStep::Failed(CistellaError::Protocol(text::cat("reap: ", m.as_str()))),
        Ok(true) => KillStep::Reaped,
        Ok(false) => if grace_over {
            KillStep::KillGroup
        } else {
            KillStep::Wait
        },
    }
}

/// Whether the pipe-EOF verification is owed: only after a clean kill.
pub fn owes_pipe_check(killed: &Result<()>) -> (b: bool)
    ensures
        b == (*killed is Ok),
{
    match killed {
        Ok(_) => true,
        Err(_) => false,
    }
}

/// Settles one read of the pipe-EOF verification: the end of input proves
/// that no descendant retains the protocol descriptors, bytes are discarded,
/// and the budget bounds the wait. `true` ends it.
pub fn drain_step(event: &ReadEvent) -> (r: Result<bool>)
    ensures
        match *event {
            ReadEvent::Unready => r matches Err(e) && e@ == ErrorView::Protocol(
                "residue: descendant retains protocol FDs (no stdout EOF)"@,
            ),
            ReadEvent::Eof => r == Ok::<bool, CistellaError>(true),
            ReadEvent::Bytes(_) => r == Ok::<bool, CistellaError>(false),
            ReadEvent::Again => r == Ok::<bool, CistellaError>(false),
            ReadEvent::Failed(m) => r matches Err(e) && e@ == ErrorView::Protocol(
                "stdout EOF drain: "@ + m@,
            ),
        },
{
    match event {
        ReadEvent::Unready => Err(
            protocol::protocol_error("residue: descendant retains protocol FDs (no stdout EOF)"),
        ),
        ReadEvent::Eof => Ok(true),
        ReadEvent::Bytes(_) => Ok(false),
        ReadEvent::Again => Ok(false),
        ReadEvent::Failed(m) => Err(
            CistellaError::Protocol(text::cat("stdout EOF drain: ", m.as_str())),
        ),
    }
}

/// Verdict of a shutdown: a kill, reap or descriptor failure outranks a hung
/// stderr drain; `pipes` is what the pipe-EOF verification came to, success
/// where it was not owed.
pub fn shutdown(killed: Result<()>, pipes: Result<()>, drained: bool) -> (r: Result<()>)
    ensures
        match killed {
            Err(e) => r == Err::<(), CistellaError>(e),
            Ok(_) => match pipes {
                Err(e) => r == Err::<(), CistellaError>(e),
                Ok(_) => if drained {
                    r is Ok
                } else {
                    r matches Err(e) && e@ == ErrorView::Protocol("stderr drain hung"@)
                },
            },
        },
{
    match killed {
        Err(e) => Err(e),
        Ok(_) => match pipes {
            Err(e) => Err(e),
            Ok(_) => if drained {
                Ok(())
            } else {
                Err(protocol::protocol_error("stderr drain hung"))
            },
        },
    }
}

} // verus!
