//! Conduct lifecycle: what a conduct does next, from host to exit.
//!
//! The driver performs one task at a time and reports back; every decision
//! between two tasks is taken here. The creation window (the lock) spans
//! install through preparation, one dead guest may be replaced before the
//! harness starts, and every path ends with the lock dropped and the guest
//! released.

use vstd::prelude::*;

use crate::error::{CistellaError, ErrorView};
use crate::framework::isolator;
use crate::framework::isolator::ExecutionOutcome;
use crate::isolators::client;
use crate::isolators::dispatch::{Fate, FateView};
use crate::text;

verus! {

/// What the driver performs next.
#[derive(Debug, Clone, Copy, PartialEq, Eq, Structural)]
pub enum Task {
    /// Host the guest (also the replacement of a dead one).
    Host,
    /// Acquire the creation-window lock.
    Lock,
    /// Create the unit.
    Create,
    /// Stall between install and start, until the delay passed or a signal
    /// is pending.
    Stall,
    /// Start the unit.
    Initiate,
    /// Prepare mountpoints.
    Prepare,
    /// Drop the creation-window lock.
    Unlock,
    /// Announce the session id.
    Announce,
    /// Launch the harness.
    Launch,
    /// Await the harness.
    Await,
    /// Scan for units a dead guest left, where the fate calls for it; a
    /// failure reports as the scan's.
    CheckDeath,
    /// Terminate then remove the unit over the wire, as a new attempt with a
    /// key of its own; failures are not reported.
    Abort,
    /// Terminate then remove the unit over the wire, under the key of the
    /// session's attempt; failures are not reported.
    Terminate,
    /// Tear the unit down over the wire, converging under the held lock.
    TeardownUnitHeld,
    /// Tear the unit down over the wire, converging under the lock that the
    /// converge takes itself.
    TeardownUnit,
    /// Converge by name under the held lock.
    TeardownHeld,
    /// Converge by name; takes the lock itself.
    Teardown,
    /// Look whether residue is gone.
    Scan,
    /// Release the guest client.
    Release,
    /// The conduct ended.
    Finish,
}

/// How a conduct ends.
#[derive(Debug)]
pub enum Verdict<E> {
    /// Fails with an error.
    Fail(E),
    /// Exits with a code.
    Exit(i32),
}

/// Where a conduct stands. Each phase has one task pending.
#[derive(Debug)]
pub enum Phase<E, S> {
    /// Hosting the guest.
    Hosting,
    /// Acquiring the lock.
    Locking,
    /// Creating the unit.
    Creating,
    /// Stalling between install and start.
    Stalling,
    /// Starting the unit.
    Initiating,
    /// Releasing the client of a dead guest.
    Retiring,
    /// Hosting the replacement.
    Rehosting,
    /// Converging after a failed replacement.
    RehostConverging(E),
    /// Scanning after that converge, with its failure.
    RehostScanning(E, Option<E>),
    /// Dropping the lock with no client left.
    DroppingLast(Verdict<E>),
    /// Checking for the dead guest's residue after a failed start.
    StartupChecking(E),
    /// Releasing the client before converging a failed start.
    Quiescing(E),
    /// Dropping the lock before converging a failed start.
    QuiesceUnlocking(E),
    /// Converging a failed start.
    Converging(E),
    /// Scanning after a failed converge: the start's error, the converge's.
    ConvergeScanning(E, E),
    /// Preparing mountpoints.
    Preparing,
    /// Tearing down after a failed preparation.
    PrepareConverging(E),
    /// Scanning after that teardown, with its failure.
    PrepareScanning(E, Option<E>),
    /// Dropping the lock, then releasing.
    Dropping(Verdict<E>),
    /// Dropping the lock on a startup signal.
    AbortUnlocking(i32),
    /// Tearing down on a startup signal.
    Aborting(i32),
    /// Releasing on a startup signal: the signal, whether the shutdown was
    /// uncertain before.
    AbortReleasing(i32, bool),
    /// Scanning on a startup signal: also whether the release failed.
    AbortScanning(i32, bool, bool),
    /// Dropping the lock at the end of the creation window.
    Unlocking,
    /// Announcing the session.
    Announcing,
    /// Launching the harness.
    Launching,
    /// Checking for residue after a failed launch.
    LaunchChecking(E),
    /// Tearing down after a failed launch.
    LaunchFailing(E),
    /// Awaiting the harness.
    Awaiting,
    /// Checking for residue after a failed await.
    AwaitChecking(E),
    /// Tearing down after a failed await.
    AwaitFailing(E),
    /// Tearing down after a detach by signal.
    Detaching(i32),
    /// Releasing after a detach.
    DetachReleasing(i32),
    /// Scanning after a detach.
    DetachScanning(i32),
    /// Tearing down after the harness ended.
    Finishing(ExecutionOutcome),
    /// Scanning after a failed teardown.
    FinishScanning(ExecutionOutcome, E),
    /// Releasing after a clean end.
    FinalReleasing(ExecutionOutcome),
    /// Releasing with the verdict made, and a line to say after it.
    Closing(Verdict<E>, Option<S>),
    /// Ended.
    Ended(Verdict<E>),
}

/// What a verdict says.
pub open spec fn verdict_view(v: Verdict<CistellaError>) -> Verdict<ErrorView> {
    match v {
        Verdict::Fail(e) => Verdict::Fail(e@),
        Verdict::Exit(code) => Verdict::Exit(code),
    }
}

/// What a failure says.
pub open spec fn failure_view(f: Option<CistellaError>) -> Option<ErrorView> {
    match f {
        Some(e) => Some(e@),
        None => None,
    }
}

/// What a phase says.
pub open spec fn phase_view(p: Phase<CistellaError, String>) -> Phase<ErrorView, Seq<char>> {
    match p {
        Phase::Hosting => Phase::Hosting,
        Phase::Locking => Phase::Locking,
        Phase::Creating => Phase::Creating,
        Phase::Stalling => Phase::Stalling,
        Phase::Initiating => Phase::Initiating,
        Phase::Retiring => Phase::Retiring,
        Phase::Rehosting => Phase::Rehosting,
        Phase::RehostConverging(e) => Phase::RehostConverging(e@),
        Phase::RehostScanning(e, t) => Phase::RehostScanning(e@, failure_view(t)),
        Phase::DroppingLast(v) => Phase::DroppingLast(verdict_view(v)),
        Phase::StartupChecking(e) => Phase::StartupChecking(e@),
        Phase::Quiescing(e) => Phase::Quiescing(e@),
        Phase::QuiesceUnlocking(e) => Phase::QuiesceUnlocking(e@),
        Phase::Converging(e) => Phase::Converging(e@),
        Phase::ConvergeScanning(e, t) => Phase::ConvergeScanning(e@, t@),
        Phase::Preparing => Phase::Preparing,
        Phase::PrepareConverging(e) => Phase::PrepareConverging(e@),
        Phase::PrepareScanning(e, t) => Phase::PrepareScanning(e@, failure_view(t)),
        Phase::Dropping(v) => Phase::Dropping(verdict_view(v)),
        Phase::AbortUnlocking(s) => Phase::AbortUnlocking(s),
        Phase::Aborting(s) => Phase::Aborting(s),
        Phase::AbortReleasing(s, u) => Phase::AbortReleasing(s, u),
        Phase::AbortScanning(s, u, f) => Phase::AbortScanning(s, u, f),
        Phase::Unlocking => Phase::Unlocking,
        Phase::Announcing => Phase::Announcing,
        Phase::Launching => Phase::Launching,
        Phase::LaunchChecking(e) => Phase::LaunchChecking(e@),
        Phase::LaunchFailing(e) => Phase::LaunchFailing(e@),
        Phase::Awaiting => Phase::Awaiting,
        Phase::AwaitChecking(e) => Phase::AwaitChecking(e@),
        Phase::AwaitFailing(e) => Phase::AwaitFailing(e@),
        Phase::Detaching(s) => Phase::Detaching(s),
        Phase::DetachReleasing(s) => Phase::DetachReleasing(s),
        Phase::DetachScanning(s) => Phase::DetachScanning(s),
        Phase::Finishing(o) => Phase::Finishing(o),
        Phase::FinishScanning(o, e) => Phase::FinishScanning(o, e@),
        Phase::FinalReleasing(o) => Phase::FinalReleasing(o),
        Phase::Closing(v, m) => Phase::Closing(verdict_view(v), m.deep_view()),
        Phase::Ended(v) => Phase::Ended(verdict_view(v)),
    }
}

/// What the driver reports of a performed task. Fields that the task does
/// not concern are ignored.
#[derive(Debug)]
pub struct Report {
    /// Why the task failed, if it did.
    pub failure: Option<CistellaError>,
    /// What is known of the guest's end after the task.
    pub fate: Fate,
    /// Pending conduct signal after the task.
    pub signal: Option<i32>,
    /// How the harness ended (await).
    pub outcome: ExecutionOutcome,
    /// Whether residue is gone (scan).
    pub residue_gone: bool,
}

/// What a report says.
pub struct ReportView {
    pub failure: Option<ErrorView>,
    pub fate: FateView,
    pub signal: Option<i32>,
    pub outcome: ExecutionOutcome,
    pub residue_gone: bool,
}

impl View for Report {
    type V = ReportView;

    open spec fn view(&self) -> ReportView {
        ReportView {
            failure: failure_view(self.failure),
            fate: self.fate@,
            signal: self.signal,
            outcome: self.outcome,
            residue_gone: self.residue_gone,
        }
    }
}

/// Whether a signal number has a disposition code.
pub open spec fn signal_ok(s: i32) -> bool {
    0 < s <= i32::MAX - 128
}

/// Whether a report's numbers have exit codes.
pub open spec fn report_ok(r: ReportView) -> bool {
    &&& r.signal matches Some(s) ==> signal_ok(s)
    &&& isolator::exit_code_of(r.outcome) <= i32::MAX
}

/// Whether a verdict made before the harness ended is no success.
pub open spec fn verdict_ok(v: Verdict<ErrorView>) -> bool {
    v matches Verdict::Exit(code) ==> code != 0
}

/// Whether a phase's numbers have exit codes, and no verdict in the making
/// is a success.
pub open spec fn phase_ok(p: Phase<ErrorView, Seq<char>>) -> bool {
    match p {
        Phase::DroppingLast(v) => verdict_ok(v),
        Phase::Dropping(v) => verdict_ok(v),
        Phase::Closing(v, _) => verdict_ok(v),
        Phase::AbortUnlocking(s) => signal_ok(s),
        Phase::Aborting(s) => signal_ok(s),
        Phase::AbortReleasing(s, _) => signal_ok(s),
        Phase::AbortScanning(s, _, _) => signal_ok(s),
        Phase::Detaching(s) => signal_ok(s),
        Phase::DetachReleasing(s) => signal_ok(s),
        Phase::DetachScanning(s) => signal_ok(s),
        Phase::Finishing(o) => isolator::exit_code_of(o) <= i32::MAX,
        Phase::FinishScanning(o, _) => isolator::exit_code_of(o) <= i32::MAX,
        Phase::FinalReleasing(o) => isolator::exit_code_of(o) <= i32::MAX,
        _ => true,
    }
}

/// The task pending in a phase.
pub open spec fn task_of(p: Phase<ErrorView, Seq<char>>) -> Task {
    match p {
        Phase::Hosting => Task::Host,
        Phase::Locking => Task::Lock,
        Phase::Creating => Task::Create,
        Phase::Stalling => Task::Stall,
        Phase::Initiating => Task::Initiate,
        Phase::Retiring => Task::Release,
        Phase::Rehosting => Task::Host,
        Phase::RehostConverging(_) => Task::TeardownHeld,
        Phase::RehostScanning(_, _) => Task::Scan,
        Phase::DroppingLast(_) => Task::Unlock,
        Phase::StartupChecking(_) => Task::CheckDeath,
        Phase::Quiescing(_) => Task::Release,
        Phase::QuiesceUnlocking(_) => Task::Unlock,
        Phase::Converging(_) => Task::Teardown,
        Phase::ConvergeScanning(_, _) => Task::Scan,
        Phase::Preparing => Task::Prepare,
        Phase::PrepareConverging(_) => Task::TeardownUnitHeld,
        Phase::PrepareScanning(_, _) => Task::Scan,
        Phase::Dropping(_) => Task::Unlock,
        Phase::AbortUnlocking(_) => Task::Unlock,
        Phase::Aborting(_) => Task::Abort,
        Phase::AbortReleasing(_, _) => Task::Release,
        Phase::AbortScanning(_, _, _) => Task::Scan,
        Phase::Unlocking => Task::Unlock,
        Phase::Announcing => Task::Announce,
        Phase::Launching => Task::Launch,
        Phase::LaunchChecking(_) => Task::CheckDeath,
        Phase::LaunchFailing(_) => Task::TeardownUnit,
        Phase::Awaiting => Task::Await,
        Phase::AwaitChecking(_) => Task::CheckDeath,
        Phase::AwaitFailing(_) => Task::TeardownUnit,
        Phase::Detaching(_) => Task::Terminate,
        Phase::DetachReleasing(_) => Task::Release,
        Phase::DetachScanning(_) => Task::Scan,
        Phase::Finishing(_) => Task::TeardownUnit,
        Phase::FinishScanning(_, _) => Task::Scan,
        Phase::FinalReleasing(_) => Task::Release,
        Phase::Closing(_, _) => Task::Release,
        Phase::Ended(_) => Task::Finish,
    }
}

/// Whether a failed start is recovered by a replacement guest.
pub open spec fn recovers(replaced: bool, fate: FateView) -> bool {
    !replaced && fate.dead && !fate.uncertain
}

/// Phase after a failed start.
pub open spec fn after_failed_start(
    replaced: bool,
    e: ErrorView,
    fate: FateView,
) -> Phase<ErrorView, Seq<char>> {
    if recovers(replaced, fate) {
        Phase::Retiring
    } else {
        Phase::StartupChecking(e)
    }
}

/// Report line of a harness's end.
pub open spec fn harness_note(o: ExecutionOutcome) -> Seq<char> {
    match o {
        ExecutionOutcome::Signaled(s) => "harness signaled 128+"@ + text::dec_int(s as int),
        ExecutionOutcome::Exited(code) => "harness exited "@ + text::dec_int(code as int),
    }
}

/// Report line of a failed teardown after a failed run.
pub open spec fn teardown_line(what: Seq<char>, e: ErrorView, t: ErrorView) -> Seq<char> {
    "error: teardown after "@ + what + " failure ("@ + e.rendered() + "): "@ + t.rendered()
}

/// The next phase, from the phase, whether the replacement was used, and the
/// report of the pending task.
pub open spec fn next_phase(
    p: Phase<ErrorView, Seq<char>>,
    replaced: bool,
    r: ReportView,
) -> Phase<ErrorView, Seq<char>> {
    match p {
        Phase::Hosting => match r.failure {
            Some(e) => Phase::Ended(Verdict::Fail(e)),
            None => Phase::Locking,
        },
        Phase::Locking => match r.failure {
            Some(e) => Phase::Closing(Verdict::Fail(e), None),
            None => match r.signal {
                Some(s) => Phase::Dropping(Verdict::Exit((128 + s) as i32)),
                None => Phase::Creating,
            },
        },
        Phase::Creating => match r.failure {
            Some(e) => after_failed_start(replaced, e, r.fate),
            None => match r.signal {
                Some(s) => Phase::AbortUnlocking(s),
                None => Phase::Stalling,
            },
        },
        Phase::Stalling => match r.signal {
            Some(s) => Phase::AbortUnlocking(s),
            None => Phase::Initiating,
        },
        Phase::Initiating => match r.failure {
            Some(e) => after_failed_start(replaced, e, r.fate),
            None => Phase::Preparing,
        },
        Phase::Retiring => Phase::Rehosting,
        Phase::Rehosting => match r.failure {
            Some(e) => Phase::RehostConverging(e),
            None => Phase::Creating,
        },
        Phase::RehostConverging(e) => Phase::RehostScanning(e, r.failure),
        Phase::RehostScanning(e, t) => Phase::DroppingLast(
            Verdict::Fail(client::rehost_verdict(t, r.residue_gone, e)),
        ),
        Phase::DroppingLast(v) => Phase::Ended(v),
        Phase::StartupChecking(e) => Phase::Quiescing(client::gated_error(e, r.fate, r.failure)),
        Phase::Quiescing(e) => Phase::QuiesceUnlocking(e),
        Phase::QuiesceUnlocking(e) => Phase::Converging(e),
        Phase::Converging(e) => match r.failure {
            Some(t) => Phase::ConvergeScanning(e, t),
            None => Phase::Ended(Verdict::Fail(e)),
        },
        Phase::ConvergeScanning(e, t) => Phase::Ended(
            Verdict::Fail(
                if r.residue_gone {
                    e
                } else {
                    t
                },
            ),
        ),
        Phase::Preparing => match r.failure {
            Some(e) => Phase::PrepareConverging(e),
            None => match r.signal {
                Some(s) => Phase::AbortUnlocking(s),
                None => Phase::Unlocking,
            },
        },
        Phase::PrepareConverging(e) => Phase::PrepareScanning(e, r.failure),
        Phase::PrepareScanning(e, t) => Phase::Dropping(
            Verdict::Fail(
                match t {
                    Some(x) => if !r.residue_gone || r.fate.uncertain {
                        x
                    } else {
                        e
                    },
                    None => e,
                },
            ),
        ),
        Phase::Dropping(v) => Phase::Closing(v, None),
        Phase::AbortUnlocking(s) => Phase::Aborting(s),
        Phase::Aborting(s) => Phase::AbortReleasing(s, r.fate.uncertain),
        Phase::AbortReleasing(s, u) => Phase::AbortScanning(s, u, r.failure is Some),
        Phase::AbortScanning(s, u, f) => Phase::Ended(
            Verdict::Exit(client::abort_code(!r.residue_gone, u, f, s) as i32),
        ),
        Phase::Unlocking => Phase::Announcing,
        Phase::Announcing => Phase::Launching,
        Phase::Launching => match r.failure {
            Some(e) => Phase::LaunchChecking(e),
            None => Phase::Awaiting,
        },
        Phase::LaunchChecking(e) => Phase::LaunchFailing(client::gated_error(e, r.fate, r.failure)),
        Phase::LaunchFailing(e) => match r.failure {
            Some(t) => Phase::Closing(Verdict::Exit(1), Some(teardown_line("launch"@, e, t))),
            None => Phase::Closing(Verdict::Fail(e), None),
        },
        Phase::Awaiting => match r.failure {
            Some(e) => Phase::AwaitChecking(e),
            None => Phase::Finishing(r.outcome),
        },
        Phase::AwaitChecking(e) => {
            let checked = client::gated_error(e, r.fate, r.failure);
            if checked is Detached {
                Phase::Detaching(
                    match r.signal {
                        Some(s) => s,
                        None => 15,
                    },
                )
            } else {
                Phase::AwaitFailing(checked)
            }
        },
        Phase::AwaitFailing(e) => match r.failure {
            Some(t) => Phase::Closing(Verdict::Exit(1), Some(teardown_line("await"@, e, t))),
            None => Phase::Closing(Verdict::Fail(e), None),
        },
        Phase::Detaching(s) => Phase::DetachReleasing(s),
        Phase::DetachReleasing(s) => Phase::DetachScanning(s),
        Phase::DetachScanning(s) => Phase::Ended(
            Verdict::Exit(
                if r.residue_gone {
                    (128 + s) as i32
                } else {
                    1
                },
            ),
        ),
        Phase::Finishing(o) => match r.failure {
            Some(t) => Phase::FinishScanning(o, t),
            None => Phase::FinalReleasing(o),
        },
        Phase::FinishScanning(o, t) => if !r.residue_gone {
            Phase::Closing(Verdict::Exit(1), None)
        } else if r.fate.dead || r.fate.uncertain {
            Phase::Closing(Verdict::Exit(1), Some("error: "@ + t.rendered()))
        } else {
            Phase::FinalReleasing(o)
        },
        Phase::FinalReleasing(o) => Phase::Ended(
            Verdict::Exit(
                if r.failure is Some {
                    1
                } else {
                    isolator::exit_code_of(o) as i32
                },
            ),
        ),
        Phase::Closing(v, _) => Phase::Ended(v),
        Phase::Ended(v) => Phase::Ended(v),
    }
}

/// Whether the replacement counts as used after a step.
pub open spec fn next_replaced(
    p: Phase<ErrorView, Seq<char>>,
    replaced: bool,
    r: ReportView,
) -> bool {
    replaced || next_phase(p, replaced, r) is Retiring
}

/// The lines a release has to say: its failure.
pub open spec fn release_lines(failure: Option<ErrorView>) -> Seq<Seq<char>> {
    match failure {
        Some(e) => seq!["error: guest release: "@ + e.rendered()],
        None => Seq::empty(),
    }
}

/// What a failed start has to say: the first death, when it is recovered.
pub open spec fn start_lines(replaced: bool, r: ReportView) -> Seq<Seq<char>> {
    match r.failure {
        Some(e) => if recovers(replaced, r.fate) {
            seq![
                "error: pre-exec guest death ("@ + e.rendered()
                    + "): retiring client and re-hosting"@,
            ]
        } else {
            Seq::empty()
        },
        None => Seq::empty(),
    }
}

/// What a residue scan has to say.
pub open spec fn scan_lines(gone: bool, line: Seq<char>) -> Seq<Seq<char>> {
    if gone {
        Seq::empty()
    } else {
        seq![line]
    }
}

/// Lines to say to the operator after a step.
pub open spec fn said(
    p: Phase<ErrorView, Seq<char>>,
    replaced: bool,
    container: Seq<char>,
    r: ReportView,
) -> Seq<Seq<char>> {
    match p {
        Phase::Creating => start_lines(replaced, r),
        Phase::Initiating => start_lines(replaced, r),
        Phase::Retiring => release_lines(r.failure),
        Phase::Quiescing(_) => release_lines(r.failure),
        Phase::AbortReleasing(_, _) => release_lines(r.failure),
        Phase::DetachReleasing(_) => release_lines(r.failure),
        Phase::FinalReleasing(_) => release_lines(r.failure),
        Phase::Closing(_, m) => release_lines(r.failure) + (match m {
            Some(line) => seq![line],
            None => Seq::<Seq<char>>::empty(),
        }),
        Phase::AbortScanning(_, _, _) => scan_lines(
            r.residue_gone,
            "error: startup abort left residue for "@ + container,
        ),
        Phase::DetachScanning(_) => scan_lines(
            r.residue_gone,
            "error: signal teardown left residue for "@ + container,
        ),
        Phase::FinishScanning(o, t) => scan_lines(
            r.residue_gone,
            "error: teardown after "@ + harness_note(o) + ": "@ + t.rendered(),
        ),
        _ => Seq::empty(),
    }
}

/// A conduct in progress.
#[derive(Debug)]
pub struct Conduct {
    phase: Phase<CistellaError, String>,
    replaced: bool,
    container: String,
}

/// What a conduct in progress says.
pub struct ConductView {
    pub phase: Phase<ErrorView, Seq<char>>,
    pub replaced: bool,
    pub container: Seq<char>,
}

impl View for Conduct {
    type V = ConductView;

    closed spec fn view(&self) -> ConductView {
        ConductView {
            phase: phase_view(self.phase),
            replaced: self.replaced,
            container: self.container@,
        }
    }
}

/// A conduct after a report.
pub open spec fn advanced(c: ConductView, r: ReportView) -> ConductView {
    ConductView {
        phase: next_phase(c.phase, c.replaced, r),
        replaced: next_replaced(c.phase, c.replaced, r),
        container: c.container,
    }
}

fn rendered_line(prefix: &str, e: &CistellaError, suffix: &str) -> (s: String)
    ensures
        s@ == prefix@ + e@.rendered() + suffix@,
{
    text::cat3(prefix, e.render().as_str(), suffix)
}

fn say_release(failure: &Option<CistellaError>) -> (lines: Vec<String>)
    ensures
        lines.deep_view() == release_lines(failure_view(*failure)),
{
    let mut lines: Vec<String> = Vec::new();
    match failure {
        Some(e) => {
            lines.push(text::cat("error: guest release: ", e.render().as_str()));
        },
        None => {},
    }
    assert(lines.deep_view() =~= release_lines(failure_view(*failure)));
    lines
}

fn say_scan(gone: bool, line: String) -> (lines: Vec<String>)
    ensures
        lines.deep_view() == scan_lines(gone, line@),
{
    let mut lines: Vec<String> = Vec::new();
    let ghost l = line@;
    if !gone {
        lines.push(line);
    }
    assert(lines.deep_view() =~= scan_lines(gone, l));
    lines
}

fn no_lines() -> (lines: Vec<String>)
    ensures
        lines.deep_view() == Seq::<Seq<char>>::empty(),
{
    let lines: Vec<String> = Vec::new();
    assert(lines.deep_view() =~= Seq::<Seq<char>>::empty());
    lines
}

fn note_of(o: ExecutionOutcome) -> (s: String)
    ensures
        s@ == harness_note(o),
{
    match o {
        ExecutionOutcome::Signaled(s) => text::cat(
            "harness signaled 128+",
            text::dec_i64(s as i64).as_str(),
        ),
        ExecutionOutcome::Exited(code) => text::cat(
            "harness exited ",
            text::dec_i64(code as i64).as_str(),
        ),
    }
}

fn line_of_teardown(what: &str, e: &CistellaError, t: &CistellaError) -> (s: String)
    ensures
        s@ == teardown_line(what@, e@, t@),
{
    text::cat6(
        "error: teardown after ",
        what,
        " failure (",
        e.render().as_str(),
        "): ",
        t.render().as_str(),
    )
}

/// Settles a failed start: recovered once on proven death, else checked for
/// residue.
fn settle_start(replaced: bool, e: CistellaError, fate: &Fate) -> (r: (
    Phase<CistellaError, String>,
    Vec<String>,
))
    ensures
        phase_view(r.0) == after_failed_start(replaced, e@, fate@),
        r.1.deep_view() == (if recovers(replaced, fate@) {
            seq![
                "error: pre-exec guest death ("@ + e@.rendered()
                    + "): retiring client and re-hosting"@,
            ]
        } else {
            Seq::<Seq<char>>::empty()
        }),
{
    let mut lines: Vec<String> = Vec::new();
    if client::pre_exec_recovery_verdict(replaced, fate.dead, fate.uncertain) {
        lines.push(
            rendered_line(
                "error: pre-exec guest death (",
                &e,
                "): retiring client and re-hosting",
            ),
        );
        assert(lines.deep_view() =~= seq![
            "error: pre-exec guest death ("@ + e@.rendered()
                + "): retiring client and re-hosting"@,
        ]);
        (Phase::Retiring, lines)
    } else {
        assert(lines.deep_view() =~= Seq::<Seq<char>>::empty());
        (Phase::StartupChecking(e), lines)
    }
}

/// The death-checked form of an error.
fn checked(e: CistellaError, fate: &Fate, scan: Option<CistellaError>) -> (x: CistellaError)
    ensures
        x@ == client::gated_error(e@, fate@, failure_view(scan)),
{
    let residue: std::result::Result<(), CistellaError> = match scan {
        Some(s) => Err(s),
        None => Ok(()),
    };
    let outcome: std::result::Result<(), CistellaError> = Err(e);
    match client::death_checked(outcome, fate, residue) {
        Err(x) => x,
        Ok(_) => CistellaError::LockContended,
    }
}

fn as_result(f: Option<CistellaError>) -> (r: std::result::Result<(), CistellaError>)
    ensures
        crate::error::failure(r) == failure_view(f),
        r == (match f {
            Some(e) => Err::<(), CistellaError>(e),
            None => Ok(()),
        }),
{
    match f {
        Some(e) => Err(e),
        None => Ok(()),
    }
}

impl Conduct {
    /// A conduct of a container, about to host its guest.
    pub fn new(container: &str) -> (c: Self)
        ensures
            c@ == (ConductView { phase: Phase::Hosting, replaced: false, container: container@ }),
    {
        Conduct { phase: Phase::Hosting, replaced: false, container: container.to_owned() }
    }

    /// The task pending.
    pub fn task(&self) -> (t: Task)
        ensures
            t == task_of(self@.phase),
    {
        match &self.phase {
            Phase::Hosting => Task::Host,
            Phase::Locking => Task::Lock,
            Phase::Creating => Task::Create,
            Phase::Stalling => Task::Stall,
            Phase::Initiating => Task::Initiate,
            Phase::Retiring => Task::Release,
            Phase::Rehosting => Task::Host,
            Phase::RehostConverging(_) => Task::TeardownHeld,
            Phase::RehostScanning(_, _) => Task::Scan,
            Phase::DroppingLast(_) => Task::Unlock,
            Phase::StartupChecking(_) => Task::CheckDeath,
            Phase::Quiescing(_) => Task::Release,
            Phase::QuiesceUnlocking(_) => Task::Unlock,
            Phase::Converging(_) => Task::Teardown,
            Phase::ConvergeScanning(_, _) => Task::Scan,
            Phase::Preparing => Task::Prepare,
            Phase::PrepareConverging(_) => Task::TeardownUnitHeld,
            Phase::PrepareScanning(_, _) => Task::Scan,
            Phase::Dropping(_) => Task::Unlock,
            Phase::AbortUnlocking(_) => Task::Unlock,
            Phase::Aborting(_) => Task::Abort,
            Phase::AbortReleasing(_, _) => Task::Release,
            Phase::AbortScanning(_, _, _) => Task::Scan,
            Phase::Unlocking => Task::Unlock,
            Phase::Announcing => Task::Announce,
            Phase::Launching => Task::Launch,
            Phase::LaunchChecking(_) => Task::CheckDeath,
            Phase::LaunchFailing(_) => Task::TeardownUnit,
            Phase::Awaiting => Task::Await,
            Phase::AwaitChecking(_) => Task::CheckDeath,
            Phase::AwaitFailing(_) => Task::TeardownUnit,
            Phase::Detaching(_) => Task::Terminate,
            Phase::DetachReleasing(_) => Task::Release,
            Phase::DetachScanning(_) => Task::Scan,
            Phase::Finishing(_) => Task::TeardownUnit,
            Phase::FinishScanning(_, _) => Task::Scan,
            Phase::FinalReleasing(_) => Task::Release,
            Phase::Closing(_, _) => Task::Release,
            Phase::Ended(_) => Task::Finish,
        }
    }

    /// The verdict of an ended conduct.
    pub fn verdict(self) -> (v: Option<Verdict<CistellaError>>)
        ensures
            match self@.phase {
                Phase::Ended(x) => v matches Some(y) && verdict_view(y) == x,
                _ => v is None,
            },
    {
        match self.phase {
            Phase::Ended(v) => Some(v),
            _ => None,
        }
    }

    /// Takes the report of the pending task: the conduct after it, and the
    /// lines to say to the operator.
    pub fn advance(self, report: Report) -> (out: (Conduct, Vec<String>))
        requires
            phase_ok(self@.phase),
            report_ok(report@),
        ensures
            out.0@ == advanced(self@, report@),
            out.1.deep_view() == said(
                self@.phase,
                self@.replaced,
                self@.container,
                report@,
            ),
            phase_ok(out.0@.phase),
    {
        let Report { failure, fate, signal, outcome, residue_gone } = report;
        let Conduct { phase, replaced, container } = self;
        let mut lines = no_lines();
        let next: Phase<CistellaError, String> = match phase {
            Phase::Hosting => match failure {
                Some(e) => Phase::Ended(Verdict::Fail(e)),
                None => Phase::Locking,
            },
            Phase::Locking => match failure {
                Some(e) => Phase::Closing(Verdict::Fail(e), None),
                None => match signal {
                    Some(s) => Phase::Dropping(Verdict::Exit(128 + s)),
                    None => Phase::Creating,
                },
            },
            Phase::Creating => match failure {
                Some(e) => {
                    let (p, l) = settle_start(replaced, e, &fate);
                    lines = l;
                    p
                },
                None => match signal {
                    Some(s) => Phase::AbortUnlocking(s),
                    None => Phase::Stalling,
                },
            },
            Phase::Stalling => match signal {
                Some(s) => Phase::AbortUnlocking(s),
                None => Phase::Initiating,
            },
            Phase::Initiating => match failure {
                Some(e) => {
                    let (p, l) = settle_start(replaced, e, &fate);
                    lines = l;
                    p
                },
                None => Phase::Preparing,
            },
            Phase::Retiring => {
                lines = say_release(&failure);
                Phase::Rehosting
            },
            Phase::Rehosting => match failure {
                Some(e) => Phase::RehostConverging(e),
                None => Phase::Creating,
            },
            Phase::RehostConverging(e) => Phase::RehostScanning(e, failure),
            Phase::RehostScanning(e, t) => Phase::DroppingLast(
                Verdict::Fail(client::rehost_failure_verdict(as_result(t), residue_gone, e)),
            ),
            Phase::DroppingLast(v) => Phase::Ended(v),
            Phase::StartupChecking(e) => Phase::Quiescing(checked(e, &fate, failure)),
            Phase::Quiescing(e) => {
                lines = say_release(&failure);
                Phase::QuiesceUnlocking(e)
            },
            Phase::QuiesceUnlocking(e) => Phase::Converging(e),
            Phase::Converging(e) => match failure {
                Some(t) => Phase::ConvergeScanning(e, t),
                None => Phase::Ended(Verdict::Fail(e)),
            },
            Phase::ConvergeScanning(e, t) => Phase::Ended(
                Verdict::Fail(client::select_teardown_error(Err(t), e, residue_gone, false)),
            ),
            Phase::Preparing => match failure {
                Some(e) => Phase::PrepareConverging(e),
                None => match signal {
                    Some(s) => Phase::AbortUnlocking(s),
                    None => Phase::Unlocking,
                },
            },
            Phase::PrepareConverging(e) => Phase::PrepareScanning(e, failure),
            Phase::PrepareScanning(e, t) => Phase::Dropping(
                Verdict::Fail(
                    client::select_teardown_error(as_result(t), e, residue_gone, fate.uncertain),
                ),
            ),
            Phase::Dropping(v) => Phase::Closing(v, None),
            Phase::AbortUnlocking(s) => Phase::Aborting(s),
            Phase::Aborting(s) => Phase::AbortReleasing(s, fate.uncertain),
            Phase::AbortReleasing(s, u) => {
                lines = say_release(&failure);
                Phase::AbortScanning(s, u, failure.is_some())
            },
            Phase::AbortScanning(s, u, f) => {
                lines = say_scan(
                    residue_gone,
                    text::cat("error: startup abort left residue for ", container.as_str()),
                );
                Phase::Ended(Verdict::Exit(client::abort_exit_code(!residue_gone, u, f, s)))
            },
            Phase::Unlocking => Phase::Announcing,
            Phase::Announcing => Phase::Launching,
            Phase::Launching => match failure {
                Some(e) => Phase::LaunchChecking(e),
                None => Phase::Awaiting,
            },
            Phase::LaunchChecking(e) => Phase::LaunchFailing(checked(e, &fate, failure)),
            Phase::LaunchFailing(e) => match failure {
                Some(t) => Phase::Closing(
                    Verdict::Exit(1),
                    Some(line_of_teardown("launch", &e, &t)),
                ),
                None => Phase::Closing(Verdict::Fail(e), None),
            },
            Phase::Awaiting => match failure {
                Some(e) => Phase::AwaitChecking(e),
                None => Phase::Finishing(outcome),
            },
            Phase::AwaitChecking(e) => match checked(e, &fate, failure) {
                CistellaError::Detached(_) => Phase::Detaching(
                    match signal {
                        Some(s) => s,
                        None => 15,
                    },
                ),
                x => Phase::AwaitFailing(x),
            },
            Phase::AwaitFailing(e) => match failure {
                Some(t) => Phase::Closing(
                    Verdict::Exit(1),
                    Some(line_of_teardown("await", &e, &t)),
                ),
                None => Phase::Closing(Verdict::Fail(e), None),
            },
            Phase::Detaching(s) => Phase::DetachReleasing(s),
            Phase::DetachReleasing(s) => {
                lines = say_release(&failure);
                Phase::DetachScanning(s)
            },
            Phase::DetachScanning(s) => {
                lines = say_scan(
                    residue_gone,
                    text::cat("error: signal teardown left residue for ", container.as_str()),
                );
                Phase::Ended(
                    Verdict::Exit(
                        if residue_gone {
                            128 + s
                        } else {
                            1
                        },
                    ),
                )
            },
            Phase::Finishing(o) => match failure {
                Some(t) => Phase::FinishScanning(o, t),
                None => Phase::FinalReleasing(o),
            },
            Phase::FinishScanning(o, t) => {
                let note = note_of(o);
                lines = say_scan(
                    residue_gone,
                    text::cat4(
                        "error: teardown after ",
                        note.as_str(),
                        ": ",
                        t.render().as_str(),
                    ),
                );
                if !residue_gone {
                    Phase::Closing(Verdict::Exit(1), None)
                } else if fate.dead || fate.uncertain {
                    Phase::Closing(
                        Verdict::Exit(1),
                        Some(text::cat("error: ", t.render().as_str())),
                    )
                } else {
                    Phase::FinalReleasing(o)
                }
            },
            Phase::FinalReleasing(o) => {
                lines = say_release(&failure);
                Phase::Ended(
                    Verdict::Exit(
                        if failure.is_some() {
                            1
                        } else {
                            o.exit_code()
                        },
                    ),
                )
            },
            Phase::Closing(v, m) => {
                lines = say_release(&failure);
                let ghost before = lines.deep_view();
                let ghost mv = m.deep_view();
                match m {
                    Some(line) => {
                        lines.push(line);
                        assert(lines.deep_view() =~= before + seq![mv->0]);
                    },
                    None => {
                        assert(lines.deep_view() =~= before + Seq::<Seq<char>>::empty());
                    },
                }
                Phase::Ended(v)
            },
            Phase::Ended(v) => Phase::Ended(v),
        };
        let retiring = match &next {
            Phase::Retiring => true,
            _ => false,
        };
        (Conduct { phase: next, replaced: replaced || retiring, container }, lines)
    }
}

// ---------------------------------------------------------------------
// Laws
// ---------------------------------------------------------------------

/// What a conduct holds.
pub struct Holding {
    /// The creation-window lock.
    pub lock: bool,
    /// A hosted guest.
    pub guest: bool,
}

/// What is held after a task, from what was held before it and whether it
/// failed.
pub open spec fn held_after(t: Task, failed: bool, h: Holding) -> Holding {
    match t {
        Task::Host => Holding { guest: h.guest || !failed, ..h },
        Task::Release => Holding { guest: false, ..h },
        Task::Lock => Holding { lock: h.lock || !failed, ..h },
        Task::Unlock => Holding { lock: false, ..h },
        _ => h,
    }
}

/// What a conduct holds in a phase.
pub open spec fn held_in(p: Phase<ErrorView, Seq<char>>) -> Holding {
    Holding {
        lock: match p {
            Phase::Creating | Phase::Stalling | Phase::Initiating | Phase::Retiring
            | Phase::Rehosting | Phase::RehostConverging(_) | Phase::RehostScanning(_, _)
            | Phase::DroppingLast(_) | Phase::StartupChecking(_) | Phase::Quiescing(_)
            | Phase::QuiesceUnlocking(_) | Phase::Preparing | Phase::PrepareConverging(_)
            | Phase::PrepareScanning(_, _) | Phase::Dropping(_) | Phase::AbortUnlocking(_)
            | Phase::Unlocking => true,
            _ => false,
        },
        guest: match p {
            Phase::Hosting | Phase::Rehosting | Phase::RehostConverging(_)
            | Phase::RehostScanning(_, _) | Phase::DroppingLast(_) | Phase::QuiesceUnlocking(_)
            | Phase::Converging(_) | Phase::ConvergeScanning(_, _) | Phase::AbortScanning(_, _, _)
            | Phase::DetachScanning(_) | Phase::Ended(_) => false,
            _ => true,
        },
    }
}

/// Whether a task may run with what is held: wire operations need the guest,
/// install through preparation run under the lock, a converge that takes the
/// lock itself runs without it and beside no hosted guest of a failed start,
/// and a guest is hosted only where none is.
pub open spec fn may_run(t: Task, h: Holding) -> bool {
    match t {
        Task::Host => !h.guest,
        Task::Lock => h.guest && !h.lock,
        Task::Create | Task::Stall | Task::Initiate | Task::Prepare => h.guest && h.lock,
        Task::TeardownUnitHeld => h.guest && h.lock,
        Task::TeardownHeld => !h.guest && h.lock,
        Task::Teardown => !h.guest && !h.lock,
        Task::Unlock => h.lock,
        Task::Announce | Task::Launch | Task::Await | Task::TeardownUnit => h.guest && !h.lock,
        Task::Abort | Task::Terminate => h.guest && !h.lock,
        Task::CheckDeath | Task::Release => h.guest,
        Task::Scan => true,
        Task::Finish => !h.guest && !h.lock,
    }
}

/// What a conduct holds follows from the tasks it performed, from nothing at
/// the start: no task runs without what it needs, none that takes the lock
/// runs under it, and an ended conduct holds neither the lock nor a guest.
pub proof fn law_conduct_holds_what_it_needs(
    p: Phase<ErrorView, Seq<char>>,
    replaced: bool,
    r: ReportView,
)
    ensures
        held_in(Phase::Hosting) == (Holding { lock: false, guest: false }),
        may_run(task_of(p), held_in(p)),
        !(p is Ended) ==> held_in(next_phase(p, replaced, r)) == held_after(
            task_of(p),
            r.failure is Some,
            held_in(p),
        ),
{
}

/// A dead guest is replaced at most once: after a replacement no failure
/// leads to another, and the first follows proven death only.
pub proof fn law_one_replacement(c: ConductView, r: ReportView)
    requires
        !(c.phase is Retiring),
    ensures
        advanced(c, r).phase is Retiring ==> !c.replaced && r.fate.dead && !r.fate.uncertain,
        advanced(c, r).phase is Retiring ==> advanced(c, r).replaced,
        c.replaced ==> advanced(c, r).replaced,
{
}

/// Steps a conduct may still take.
pub open spec fn rank(c: ConductView) -> int {
    let base: int = match c.phase {
        Phase::Hosting => 61,
        Phase::Locking => 60,
        Phase::Retiring => 59,
        Phase::Rehosting => 58,
        Phase::Creating => 57,
        Phase::Stalling => 56,
        Phase::Initiating => 55,
        Phase::Preparing => 54,
        Phase::Unlocking => 53,
        Phase::Announcing => 52,
        Phase::Launching => 51,
        Phase::Awaiting => 50,
        Phase::Finishing(_) => 49,
        Phase::FinishScanning(_, _) => 48,
        Phase::FinalReleasing(_) => 47,
        Phase::LaunchChecking(_) => 30,
        Phase::AwaitChecking(_) => 30,
        Phase::LaunchFailing(_) => 29,
        Phase::AwaitFailing(_) => 29,
        Phase::Detaching(_) => 28,
        Phase::DetachReleasing(_) => 27,
        Phase::DetachScanning(_) => 26,
        Phase::StartupChecking(_) => 25,
        Phase::Quiescing(_) => 24,
        Phase::QuiesceUnlocking(_) => 23,
        Phase::Converging(_) => 22,
        Phase::ConvergeScanning(_, _) => 21,
        Phase::PrepareConverging(_) => 20,
        Phase::PrepareScanning(_, _) => 19,
        Phase::AbortUnlocking(_) => 18,
        Phase::Aborting(_) => 17,
        Phase::AbortReleasing(_, _) => 16,
        Phase::AbortScanning(_, _, _) => 15,
        Phase::RehostConverging(_) => 14,
        Phase::RehostScanning(_, _) => 13,
        Phase::DroppingLast(_) => 12,
        Phase::Dropping(_) => 11,
        Phase::Closing(_, _) => 10,
        Phase::Ended(_) => 0,
    };
    if c.replaced {
        base
    } else {
        base + 100
    }
}

/// Every conduct ends: each report brings it closer, whatever was reported.
pub proof fn law_conduct_ends(c: ConductView, r: ReportView)
    requires
        !(c.phase is Ended),
    ensures
        0 <= rank(advanced(c, r)) < rank(c),
{
}

/// A conduct exits with success only when its harness exited with success
/// and the guest's release succeeded.
pub proof fn law_success_is_earned(
    p: Phase<ErrorView, Seq<char>>,
    replaced: bool,
    r: ReportView,
)
    requires
        phase_ok(p),
        report_ok(r),
        !(p is Ended),
        next_phase(p, replaced, r) == Phase::<ErrorView, Seq<char>>::Ended(Verdict::Exit(0)),
    ensures
        p matches Phase::FinalReleasing(o) && isolator::exit_code_of(o) == 0,
        r.failure is None,
{
}

/// A failed start never converges beside its guest: the guest is released
/// and the lock dropped first, and the residue of a dead guest decides the
/// report.
pub proof fn law_failed_starts_quiesce_first(
    e: ErrorView,
    replaced: bool,
    check: ReportView,
    released: ReportView,
    unlocked: ReportView,
)
    ensures
        ({
            let p1 = next_phase(Phase::StartupChecking(e), replaced, check);
            let p2 = next_phase(p1, replaced, released);
            let p3 = next_phase(p2, replaced, unlocked);
            &&& task_of(p1) == Task::Release
            &&& task_of(p2) == Task::Unlock
            &&& task_of(p3) == Task::Teardown
            &&& p3 == Phase::<ErrorView, Seq<char>>::Converging(
                client::gated_error(e, check.fate, check.failure),
            )
        }),
{
}

// ---------------------------------------------------------------------
// Where whole conducts lead
// ---------------------------------------------------------------------

/// Where a conduct stands after a list of reports.
pub open spec fn walked(c: ConductView, rs: Seq<ReportView>) -> ConductView
    decreases rs.len(),
{
    if rs.len() == 0 {
        c
    } else {
        advanced(walked(c, rs.drop_last()), rs.last())
    }
}

proof fn lemma_walked(c: ConductView, rs: Seq<ReportView>, k: int)
    requires
        0 <= k < rs.len(),
    ensures
        walked(c, rs.take(k + 1)) == advanced(walked(c, rs.take(k)), rs[k]),
        walked(c, rs.take(0)) == c,
{
    assert(rs.take(k + 1).drop_last() =~= rs.take(k));
    assert(rs.take(k + 1).last() == rs[k]);
    assert(rs.take(0) =~= Seq::<ReportView>::empty());
}

/// A session in which nothing fails and no signal comes is hosted, created,
/// initiated and prepared under the lock, then launched and awaited, torn
/// down and released; it ends with the harness's own exit code, or with 128
/// and the signal that ended the harness.
pub proof fn law_clean_sessions_pass_the_exit_code_on(
    container: Seq<char>,
    rs: Seq<ReportView>,
    outcome: ExecutionOutcome,
)
    requires
        rs.len() == 12,
        forall|i: int|
            0 <= i < 12 ==> (#[trigger] rs[i]).failure is None && rs[i].signal is None && report_ok(
                rs[i],
            ),
        rs[9].outcome == outcome,
    ensures
        ({
            let start = ConductView { phase: Phase::Hosting, replaced: false, container };
            &&& task_of(start.phase) == Task::Host
            &&& task_of(walked(start, rs.take(1)).phase) == Task::Lock
            &&& task_of(walked(start, rs.take(2)).phase) == Task::Create
            &&& task_of(walked(start, rs.take(3)).phase) == Task::Stall
            &&& task_of(walked(start, rs.take(4)).phase) == Task::Initiate
            &&& task_of(walked(start, rs.take(5)).phase) == Task::Prepare
            &&& task_of(walked(start, rs.take(6)).phase) == Task::Unlock
            &&& task_of(walked(start, rs.take(7)).phase) == Task::Announce
            &&& task_of(walked(start, rs.take(8)).phase) == Task::Launch
            &&& task_of(walked(start, rs.take(9)).phase) == Task::Await
            &&& task_of(walked(start, rs.take(10)).phase) == Task::TeardownUnit
            &&& task_of(walked(start, rs.take(11)).phase) == Task::Release
            &&& walked(start, rs).phase == Phase::<ErrorView, Seq<char>>::Ended(
                Verdict::Exit(
                    match outcome {
                        ExecutionOutcome::Exited(code) => code,
                        ExecutionOutcome::Signaled(s) => (128 + s) as i32,
                    },
                ),
            )
            &&& walked(start, rs).container == container
        }),
{
    let start = ConductView { phase: Phase::Hosting, replaced: false, container };
    lemma_walked(start, rs, 0);
    lemma_walked(start, rs, 1);
    lemma_walked(start, rs, 2);
    lemma_walked(start, rs, 3);
    lemma_walked(start, rs, 4);
    lemma_walked(start, rs, 5);
    lemma_walked(start, rs, 6);
    lemma_walked(start, rs, 7);
    lemma_walked(start, rs, 8);
    lemma_walked(start, rs, 9);
    lemma_walked(start, rs, 10);
    lemma_walked(start, rs, 11);
    assert(rs.take(12) =~= rs);
    assert(rs[0].failure is None && rs[1].failure is None && rs[2].failure is None);
    assert(rs[3].failure is None && rs[4].failure is None && rs[5].failure is None);
    assert(rs[8].failure is None && rs[9].failure is None && rs[10].failure is None);
    assert(rs[11].failure is None);
}

/// A signal before anything is created releases the guest and the lock and
/// ends with 128 and the signal.
pub proof fn law_early_signals_end_the_session(
    c: ConductView,
    locked: ReportView,
    unlocked: ReportView,
    released: ReportView,
    s: i32,
)
    requires
        c.phase is Locking,
        locked.failure is None,
        locked.signal == Some(s),
        signal_ok(s),
    ensures
        ({
            let a = advanced(c, locked);
            let b = advanced(a, unlocked);
            let d = advanced(b, released);
            &&& task_of(a.phase) == Task::Unlock
            &&& task_of(b.phase) == Task::Release
            &&& d.phase == Phase::<ErrorView, Seq<char>>::Ended(Verdict::Exit((128 + s) as i32))
        }),
{
}

/// A signal during startup aborts: the lock is dropped, the unit stopped and
/// removed, the guest released, and the residue scanned for; with nothing
/// left and nothing uncertain the session ends with 128 and the signal.
pub proof fn law_startup_signals_abort(
    c: ConductView,
    r: ReportView,
    unlocked: ReportView,
    aborted: ReportView,
    released: ReportView,
    scanned: ReportView,
    s: i32,
)
    requires
        c.phase is Creating || c.phase is Stalling || c.phase is Preparing,
        r.failure is None,
        r.signal == Some(s),
        signal_ok(s),
    ensures
        ({
            let p1 = advanced(c, r);
            let p2 = advanced(p1, unlocked);
            let p3 = advanced(p2, aborted);
            let p4 = advanced(p3, released);
            let p5 = advanced(p4, scanned);
            &&& task_of(p1.phase) == Task::Unlock
            &&& task_of(p2.phase) == Task::Abort
            &&& task_of(p3.phase) == Task::Release
            &&& task_of(p4.phase) == Task::Scan
            &&& p5.phase matches Phase::Ended(Verdict::Exit(code)) && code != 0 && (code == 128 + s
                <==> scanned.residue_gone && !aborted.fate.uncertain && released.failure is None)
        }),
{
    client::law_clean_abort_is_earned(
        !scanned.residue_gone,
        aborted.fate.uncertain,
        released.failure is Some,
        s,
    );
    client::lemma_abort_code(
        !scanned.residue_gone,
        aborted.fate.uncertain,
        released.failure is Some,
        s,
    );
}

/// An await that a signal detached stops and removes the unit, releases the
/// guest and scans; it ends with 128 and the signal where nothing is left,
/// and with 1 where something is.
pub proof fn law_detached_sessions_end_with_the_signal(
    c: ConductView,
    e: ErrorView,
    checked: ReportView,
    stopped: ReportView,
    released: ReportView,
    scanned: ReportView,
    s: i32,
)
    requires
        c.phase == Phase::<ErrorView, Seq<char>>::AwaitChecking(e),
        client::gated_error(e, checked.fate, checked.failure) is Detached,
        checked.signal == Some(s),
        signal_ok(s),
    ensures
        ({
            let p1 = advanced(c, checked);
            let p2 = advanced(p1, stopped);
            let p3 = advanced(p2, released);
            let p4 = advanced(p3, scanned);
            &&& task_of(p1.phase) == Task::Terminate
            &&& task_of(p2.phase) == Task::Release
            &&& task_of(p3.phase) == Task::Scan
            &&& p4.phase == Phase::<ErrorView, Seq<char>>::Ended(
                Verdict::Exit(
                    if scanned.residue_gone {
                        (128 + s) as i32
                    } else {
                        1
                    },
                ),
            )
        }),
{
}

/// A launch or an await that fails tears the unit down and releases the
/// guest; the session then ends with that failure, after the death check.
pub proof fn law_failed_runs_are_torn_down_and_reported(
    c: ConductView,
    e: ErrorView,
    failed: ReportView,
    checked: ReportView,
    torn: ReportView,
    released: ReportView,
)
    requires
        c.phase is Launching || c.phase is Awaiting,
        failed.failure == Some(e),
        torn.failure is None,
        !(client::gated_error(e, checked.fate, checked.failure) is Detached),
    ensures
        ({
            let p1 = advanced(c, failed);
            let p2 = advanced(p1, checked);
            let p3 = advanced(p2, torn);
            let p4 = advanced(p3, released);
            &&& task_of(p1.phase) == Task::CheckDeath
            &&& task_of(p2.phase) == Task::TeardownUnit
            &&& task_of(p3.phase) == Task::Release
            &&& p4.phase == Phase::<ErrorView, Seq<char>>::Ended(
                Verdict::Fail(client::gated_error(e, checked.fate, checked.failure)),
            )
        }),
{
}

/// A preparation that fails tears the unit down under the lock, drops it and
/// releases the guest; the session ends with the preparation's failure where
/// the teardown went well.
pub proof fn law_failed_preparations_are_torn_down(
    c: ConductView,
    e: ErrorView,
    failed: ReportView,
    torn: ReportView,
    scanned: ReportView,
    unlocked: ReportView,
    released: ReportView,
)
    requires
        c.phase is Preparing,
        failed.failure == Some(e),
    ensures
        ({
            let p1 = advanced(c, failed);
            let p2 = advanced(p1, torn);
            let p3 = advanced(p2, scanned);
            let p4 = advanced(p3, unlocked);
            let p5 = advanced(p4, released);
            &&& task_of(p1.phase) == Task::TeardownUnitHeld
            &&& task_of(p2.phase) == Task::Scan
            &&& task_of(p3.phase) == Task::Unlock
            &&& task_of(p4.phase) == Task::Release
            &&& p5.phase matches Phase::Ended(Verdict::Fail(x)) && (torn.failure is None ==> x == e)
                && (torn.failure is Some && (!scanned.residue_gone || scanned.fate.uncertain)
                ==> Some(x) == torn.failure) && (torn.failure is Some && scanned.residue_gone
                && !scanned.fate.uncertain ==> x == e)
        }),
{
}

/// A teardown after the harness that leaves something behind, or that a dead
/// or uncertain guest failed, ends the session with 1; one that failed for a
/// live guest with nothing left keeps the harness's code.
pub proof fn law_failed_teardowns_decide_the_exit(
    c: ConductView,
    o: ExecutionOutcome,
    t: ErrorView,
    torn: ReportView,
    scanned: ReportView,
    released: ReportView,
)
    requires
        c.phase == Phase::<ErrorView, Seq<char>>::Finishing(o),
        torn.failure == Some(t),
        isolator::exit_code_of(o) <= i32::MAX,
        released.failure is None,
    ensures
        ({
            let p1 = advanced(c, torn);
            let p2 = advanced(p1, scanned);
            let p3 = advanced(p2, released);
            &&& task_of(p1.phase) == Task::Scan
            &&& task_of(p2.phase) == Task::Release
            &&& p3.phase == Phase::<ErrorView, Seq<char>>::Ended(
                Verdict::Exit(
                    if scanned.residue_gone && !scanned.fate.dead && !scanned.fate.uncertain {
                        match o {
                            ExecutionOutcome::Exited(code) => code,
                            ExecutionOutcome::Signaled(s) => (128 + s) as i32,
                        }
                    } else {
                        1
                    },
                ),
            )
        }),
{
}

/// A guest that dies before the launch is replaced once: it is released,
/// another one hosted, and creation tried again under the lock still held.
pub proof fn law_dead_guests_are_replaced_before_launch(
    c: ConductView,
    e: ErrorView,
    failed: ReportView,
    released: ReportView,
    hosted: ReportView,
)
    requires
        c.phase is Creating || c.phase is Initiating,
        !c.replaced,
        failed.failure == Some(e),
        failed.fate.dead,
        !failed.fate.uncertain,
        hosted.failure is None,
    ensures
        ({
            let p1 = advanced(c, failed);
            let p2 = advanced(p1, released);
            let p3 = advanced(p2, hosted);
            &&& task_of(p1.phase) == Task::Release
            &&& task_of(p2.phase) == Task::Host
            &&& task_of(p3.phase) == Task::Create
            &&& p3.replaced
        }),
{
}

/// The operator hears of a client that could not be released and of a session
/// that left something behind, and of nothing where all went well.
pub proof fn law_operators_hear_what_was_left(
    replaced: bool,
    container: Seq<char>,
    r: ReportView,
    v: Verdict<ErrorView>,
    o: ExecutionOutcome,
    e: ErrorView,
    m: Option<Seq<char>>,
)
    ensures
        ({
            let told = seq!["error: guest release: "@ + (r.failure->0).rendered()];
            &&& r.failure is Some ==> said(Phase::Retiring, replaced, container, r) == told
            &&& r.failure is Some ==> said(Phase::Quiescing(e), replaced, container, r) == told
            &&& r.failure is Some ==> said(Phase::FinalReleasing(o), replaced, container, r) == told
        }),
        r.failure is None ==> said(Phase::Retiring, replaced, container, r).len() == 0 && said(
            Phase::Quiescing(e),
            replaced,
            container,
            r,
        ).len() == 0 && said(Phase::FinalReleasing(o), replaced, container, r).len() == 0 && said(
            Phase::Creating,
            replaced,
            container,
            r,
        ).len() == 0 && said(Phase::Initiating, replaced, container, r).len() == 0,
        r.failure is None && m is None ==> said(Phase::Closing(v, m), replaced, container, r).len()
            == 0,
        m is Some ==> said(Phase::Closing(v, m), replaced, container, r).contains(m->0),
{
    if m is Some {
        let lines = said(Phase::Closing(v, m), replaced, container, r);
        assert(lines[lines.len() - 1] == m->0);
    }
}

/// The note on a harness says how it ended.
pub proof fn law_harness_notes_say_the_end(n: nat)
    requires
        n <= i32::MAX,
    ensures
        harness_note(ExecutionOutcome::Exited(n as i32)) == "harness exited "@ + text::dec(n),
        harness_note(ExecutionOutcome::Signaled(n as i32)) == "harness signaled 128+"@ + text::dec(n),
{
}

/// A view says what the fields hold, each under its own name.
pub proof fn law_views_say_the_fields(
    report: Report,
)
    ensures
        report.view().failure == failure_view(report.failure),
        report.view().fate == report.fate@,
        report.view().signal == report.signal,
        report.view().outcome == report.outcome,
        report.view().residue_gone == report.residue_gone,
{
}

/// The operator hears of a guest that died before the harness ran and is
/// replaced; of one that is not replaced nothing is said yet.
pub proof fn law_replaced_guests_are_told(replaced: bool, container: Seq<char>, r: ReportView)
    requires
        r.failure is Some,
    ensures
        !replaced && r.fate.dead && !r.fate.uncertain ==> said(
            Phase::Creating,
            replaced,
            container,
            r,
        ).len() == 1 && said(Phase::Initiating, replaced, container, r) == said(
            Phase::Creating,
            replaced,
            container,
            r,
        ) && said(Phase::Creating, replaced, container, r)[0] == "error: pre-exec guest death ("@
            + (r.failure->0).rendered() + "): retiring client and re-hosting"@,
        replaced || !r.fate.dead || r.fate.uncertain ==> said(
            Phase::Creating,
            replaced,
            container,
            r,
        ).len() == 0 && said(Phase::Initiating, replaced, container, r).len() == 0,
{
}

/// What the last scan found left behind is told with the harness's end and the
/// teardown's failure, and a clean scan is silent.
pub proof fn law_residue_is_told(
    replaced: bool,
    container: Seq<char>,
    r: ReportView,
    o: ExecutionOutcome,
    t: ErrorView,
)
    ensures
        r.residue_gone ==> said(Phase::FinishScanning(o, t), replaced, container, r).len() == 0,
        !r.residue_gone ==> said(Phase::FinishScanning(o, t), replaced, container, r) == seq![
            "error: teardown after "@ + harness_note(o) + ": "@ + t.rendered(),
        ],
{
}

} // verus!
