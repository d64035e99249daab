//! The creation-window lock and session scratch directories.
//!
//! `conduct` holds the lock from before any unit-file or scratch creation
//! through start; `terminate`/`gc` hold it around scan-and-teardown, so a
//! concurrent `gc` never reaps a session that is still being installed.

use vstd::prelude::*;

use crate::error::{CistellaError, ErrorView, Result};
use crate::path;
use crate::text;

verus! {

/// Runtime directory, when it is set and not empty.
pub open spec fn runtime_dir(xdg: Option<Seq<char>>) -> Option<Seq<char>> {
    match xdg {
        Some(d) => if d.len() > 0 {
            Some(d)
        } else {
            None
        },
        None => None,
    }
}

/// The lock file path: `$XDG_RUNTIME_DIR/cistella/lock` with fallback to
/// `/tmp/cistella.lock` when `XDG_RUNTIME_DIR` is absent.
#[must_use]
pub fn lock_path(xdg_runtime_dir: Option<&str>) -> (p: String)
    ensures
        p@ == (match runtime_dir(xdg_runtime_dir.deep_view()) {
            Some(d) => path::joined(d, "cistella/lock"@),
            None => "/tmp/cistella.lock"@,
        }),
{
    match xdg_runtime_dir {
        Some(d) => {
            if !d.is_empty() {
                return path::join(d, "cistella/lock");
            }
        },
        None => {},
    }
    "/tmp/cistella.lock".to_owned()
}

/// The per-session scratch directory for `id`: prefers
/// `$XDG_RUNTIME_DIR/cistella/<id>`, falls back to `/tmp/cistella-<id>`.
#[must_use]
pub fn scratch_dir(session_id: &str, xdg_runtime_dir: Option<&str>) -> (p: String)
    ensures
        p@ == (match runtime_dir(xdg_runtime_dir.deep_view()) {
            Some(d) => path::joined(d, "cistella/"@ + session_id@),
            None => "/tmp/cistella-"@ + session_id@,
        }),
{
    match xdg_runtime_dir {
        Some(d) => {
            if !d.is_empty() {
                return path::join(d, text::cat("cistella/", session_id).as_str());
            }
        },
        None => {},
    }
    text::cat("/tmp/cistella-", session_id)
}

/// The legacy `/tmp/cistella-<id>` scratch path. Teardown removes both
/// paths so orphaned legacy residue never survives.
#[must_use]
pub fn legacy_scratch_dir(session_id: &str) -> (p: String)
    ensures
        p@ == "/tmp/cistella-"@ + session_id@,
{
    text::cat("/tmp/cistella-", session_id)
}

/// What an attempt to lock came to.
#[derive(Debug)]
pub enum LockAttempt {
    /// The lock is held.
    Locked,
    /// Another process holds it, and the attempt does not wait.
    Contended,
    /// The lock's directory could not be made: the directory, the system's
    /// text.
    NoDirectory(String, String),
    /// The lock file could not be opened.
    NoFile(String),
    /// Locking failed otherwise.
    Failed(String),
}

/// Why an attempt to lock failed.
pub open spec fn lock_fault(path: Seq<char>, attempt: LockAttempt) -> Option<ErrorView> {
    match attempt {
        LockAttempt::Locked => None,
        LockAttempt::Contended => Some(ErrorView::LockContended),
        LockAttempt::NoDirectory(dir, m) => Some(
            ErrorView::Runtime("create lock dir "@ + dir@ + ": "@ + m@),
        ),
        LockAttempt::NoFile(m) => Some(ErrorView::Runtime("open lock "@ + path + ": "@ + m@)),
        LockAttempt::Failed(m) => Some(ErrorView::Runtime("flock "@ + path + ": "@ + m@)),
    }
}

/// Judges an attempt to lock.
pub fn acquire_path(path: &str, attempt: LockAttempt) -> (r: Result<()>)
    ensures
        match lock_fault(path@, attempt) {
            Some(e) => r matches Err(x) && x@ == e,
            None => r is Ok,
        },
{
    match attempt {
        LockAttempt::Locked => Ok(()),
        LockAttempt::Contended => Err(CistellaError::LockContended),
        LockAttempt::NoDirectory(dir, m) => Err(
            CistellaError::Runtime(
                text::cat4("create lock dir ", dir.as_str(), ": ", m.as_str()),
            ),
        ),
        LockAttempt::NoFile(m) => Err(
            CistellaError::Runtime(text::cat4("open lock ", path, ": ", m.as_str())),
        ),
        LockAttempt::Failed(m) => Err(
            CistellaError::Runtime(text::cat4("flock ", path, ": ", m.as_str())),
        ),
    }
}

/// Judges an attempt that does not wait: contention is no failure, only the
/// absence of the lock.
pub fn try_acquire(path: &str, attempt: LockAttempt) -> (r: Result<bool>)
    ensures
        match attempt {
            LockAttempt::Contended => r == Ok::<bool, CistellaError>(false),
            _ => match lock_fault(path@, attempt) {
                Some(e) => r matches Err(x) && x@ == e,
                None => r == Ok::<bool, CistellaError>(true),
            },
        },
{
    match acquire_path(path, attempt) {
        Ok(_) => Ok(true),
        Err(CistellaError::LockContended) => Ok(false),
        Err(e) => Err(e),
    }
}

/// The lock is taken only where it was free; one that is held elsewhere is
/// contended, and any other failure is an error of its own.
pub proof fn law_locks_are_taken_once(path: Seq<char>, attempt: LockAttempt)
    ensures
        lock_fault(path, attempt) is None <==> attempt is Locked,
        lock_fault(path, attempt) == Some(ErrorView::LockContended) <==> attempt is Contended,
{
}

/// An empty runtime directory counts as none.
pub proof fn law_runtime_directories_are_named(xdg: Option<Seq<char>>, d: Seq<char>)
    ensures
        runtime_dir(xdg) == Some(d) <==> xdg == Some(d) && d.len() > 0,
        runtime_dir(xdg) is None <==> xdg is None || xdg->0.len() == 0,
{
}

} // verus!
