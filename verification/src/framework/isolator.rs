//! Isolator lifecycle types: what the framework hands to a backend and what
//! a backend attests.
//!
//! The framework owns sequencing; isolators own runtime mechanics. `create`,
//! `initiate`, `execute_launch`, `await_result`, `inspect`, `state`,
//! `terminate` and `remove` are distinct operations with typed handles,
//! reconciliation keys, and idempotent teardown.

use vstd::prelude::*;

use crate::error::{CistellaError, ErrorView, Result};
use crate::framework::contract::{Capability, LifecycleState};
use crate::session::{Session, SessionView};
use crate::table;
use crate::text;

verus! {

/// Capabilities the active isolator declares.
///
/// The framework refuses at merge time any contribution requiring a
/// capability the isolator did not declare.
#[derive(Debug)]
pub struct IsolatorCapabilities {
    /// Human-readable backend name (e.g. `podman-quadlet`).
    pub backend: &'static str,
    /// Contribution types this backend can realize.
    pub supports: Vec<Capability>,
}

impl IsolatorCapabilities {
    /// True when the backend realizes this contribution type.
    #[must_use]
    pub fn supports(&self, capability: Capability) -> (b: bool)
        ensures
            b == self.supports@.contains(capability),
    {
        let mut i: usize = 0;
        while i < self.supports.len()
            invariant
                i <= self.supports@.len(),
                forall|k: int| 0 <= k < i ==> self.supports@[k] != capability,
            decreases self.supports.len() - i,
        {
            if self.supports[i] == capability {
                return true;
            }
            i = i + 1;
        }
        false
    }
}

/// Creation input: resolved session plus rendered host inputs.
///
/// `volumes` is the flat `[flag, value, ...]` list (`--volume`/`--tmpfs`
/// pairs); `env` is `KEY=value` strings; `labels` is the merged generic
/// label set (driver-owned `cistella.*` added by the backend from the
/// session).
#[derive(Debug)]
pub struct CreateSpec {
    /// Resolved session (identity, image, command, digests).
    pub session: Session,
    /// Rendered volume flags.
    pub volumes: Vec<String>,
    /// Rendered environment assignments.
    pub env: Vec<String>,
    /// Merged generic labels (CLI wins over profile).
    pub labels: Vec<(String, String)>,
}

/// What a creation input says.
pub struct SpecView {
    pub session: SessionView,
    pub volumes: Seq<Seq<char>>,
    pub env: Seq<Seq<char>>,
    pub labels: Seq<(Seq<char>, Seq<char>)>,
}

impl DeepView for CreateSpec {
    type V = SpecView;

    open spec fn deep_view(&self) -> SpecView {
        SpecView {
            session: self.session.deep_view(),
            volumes: self.volumes.deep_view(),
            env: self.env.deep_view(),
            labels: self.labels.deep_view(),
        }
    }
}

impl Clone for CreateSpec {
    fn clone(&self) -> (r: Self)
        ensures
            r.deep_view() == self.deep_view(),
    {
        CreateSpec {
            session: self.session.clone(),
            volumes: text::copy_texts(&self.volumes),
            env: text::copy_texts(&self.env),
            labels: table::copy(&self.labels),
        }
    }
}

/// Whether two lists of texts are the same.
pub fn same_texts(a: &Vec<String>, b: &Vec<String>) -> (same: bool)
    ensures
        same == (a.deep_view() == b.deep_view()),
{
    let ghost x = a.deep_view();
    let ghost y = b.deep_view();
    if a.len() != b.len() {
        assert(x.len() != y.len());
        return false;
    }
    let mut i: usize = 0;
    while i < a.len()
        invariant
            x == a.deep_view(),
            y == b.deep_view(),
            a@.len() == b@.len(),
            i <= a@.len(),
            forall|k: int| 0 <= k < i ==> x[k] == y[k],
        decreases a.len() - i,
    {
        assert(x[i as int] == a@[i as int]@);
        assert(y[i as int] == b@[i as int]@);
        if !text::eq(a[i].as_str(), b[i].as_str()) {
            return false;
        }
        i = i + 1;
    }
    assert(x =~= y);
    true
}

/// Whether two label lists are the same.
pub fn same_pairs(a: &Vec<(String, String)>, b: &Vec<(String, String)>) -> (same: bool)
    ensures
        same == (a.deep_view() == b.deep_view()),
{
    let ghost x = a.deep_view();
    let ghost y = b.deep_view();
    if a.len() != b.len() {
        assert(x.len() != y.len());
        return false;
    }
    let mut i: usize = 0;
    while i < a.len()
        invariant
            x == a.deep_view(),
            y == b.deep_view(),
            a@.len() == b@.len(),
            i <= a@.len(),
            forall|k: int| 0 <= k < i ==> x[k] == y[k],
        decreases a.len() - i,
    {
        assert(x[i as int] == a@[i as int].deep_view());
        assert(y[i as int] == b@[i as int].deep_view());
        if !text::eq(a[i].0.as_str(), b[i].0.as_str()) || !text::eq(
            a[i].1.as_str(),
            b[i].1.as_str(),
        ) {
            return false;
        }
        i = i + 1;
    }
    assert(x =~= y);
    true
}

/// Whether two optional texts are the same.
pub fn same_option(a: &Option<String>, b: &Option<String>) -> (same: bool)
    ensures
        same == (a.deep_view() == b.deep_view()),
{
    match (a, b) {
        (Some(x), Some(y)) => text::eq(x.as_str(), y.as_str()),
        (None, None) => true,
        _ => false,
    }
}

fn same_session(a: &Session, b: &Session) -> (same: bool)
    ensures
        same == (a.deep_view() == b.deep_view()),
{
    text::eq(a.id.as_str(), b.id.as_str()) && text::eq(a.directory.as_str(), b.directory.as_str())
        && text::eq(a.profile.as_str(), b.profile.as_str()) && text::eq(
        a.profile_digest.as_str(),
        b.profile_digest.as_str(),
    ) && text::eq(a.identity.as_str(), b.identity.as_str()) && same_texts(&a.command, &b.command)
        && text::eq(a.image.as_str(), b.image.as_str()) && text::eq(
        a.container_home.as_str(),
        b.container_home.as_str(),
    )
}

impl CreateSpec {
    /// Whether two creation inputs are the same in every field.
    pub fn same(&self, other: &CreateSpec) -> (same: bool)
        ensures
            same == (self.deep_view() == other.deep_view()),
    {
        same_session(&self.session, &other.session) && same_texts(&self.volumes, &other.volumes)
            && same_texts(&self.env, &other.env) && same_pairs(&self.labels, &other.labels)
    }
}

/// Foreground-join decision for a harness launch: join only with a verified
/// conductor on a terminal session; refuse a terminal launch without one (a
/// silent background launch would stall instead); never move piped sessions.
#[derive(Debug, PartialEq, Eq, Clone, Copy)]
pub enum ForegroundJoin {
    /// Join this conductor (pid, foreground pgid) in the spawned child.
    Join((u32, u32)),
    /// Refuse the launch typed: no safe foreground exists.
    Refuse,
    /// Stay in the spawner's group.
    Stay,
}

/// Foreground join of a session shape.
pub open spec fn join_of(tty: bool, conductor: Option<(u32, u32)>) -> ForegroundJoin {
    if !tty {
        ForegroundJoin::Stay
    } else {
        match conductor {
            Some(identity) => ForegroundJoin::Join(identity),
            None => ForegroundJoin::Refuse,
        }
    }
}

/// Decides the foreground join from session shape: terminal plus verified
/// conductor joins, terminal without conductor refuses, piped stays.
#[must_use]
pub fn foreground_join(tty: bool, conductor: Option<(u32, u32)>) -> (j: ForegroundJoin)
    ensures
        j == join_of(tty, conductor),
{
    match (tty, conductor) {
        (true, Some(identity)) => ForegroundJoin::Join(identity),
        (true, None) => ForegroundJoin::Refuse,
        (false, _) => ForegroundJoin::Stay,
    }
}

/// Conductor identity that a parentage observation verifies.
pub open spec fn conductor_of(parent: u32, host: u32, pgid: Option<u32>) -> Option<(u32, u32)> {
    match pgid {
        Some(group) => if parent == host {
            Some((parent, group))
        } else {
            None
        },
        None => None,
    }
}

/// Maps a parentage observation to verified conductor identity (pid, pgid):
/// the parent must still be the conductor recorded at guest startup (a
/// subreaper adoption fails the equality even when it is not init), and only
/// then does a looked-up pgid pass through with its pid.
#[must_use]
pub fn verified_conductor_pgid(parent: u32, host: u32, pgid: Option<u32>) -> (r: Option<(u32, u32)>)
    ensures
        r == conductor_of(parent, host, pgid),
{
    if parent == host {
        match pgid {
            Some(group) => Some((parent, group)),
            None => None,
        }
    } else {
        None
    }
}

/// A harness joins a foreground group only on a terminal and only when the
/// parent is still the recorded conductor; it then joins that conductor's
/// group.
pub proof fn law_join_needs_verified_conductor(
    tty: bool,
    parent: u32,
    host: u32,
    pgid: Option<u32>,
)
    ensures
        join_of(tty, conductor_of(parent, host, pgid)) matches ForegroundJoin::Join(identity) ==> tty
            && parent == host && identity.0 == host && pgid == Some(identity.1),
{
}

/// Initiate attestation: proof the unit started.
///
/// `pidns_proof` is the container init's PID-namespace identifier (Linux
/// `pid:[inode]` form), proving the unit runs isolated; a backend that cannot
/// prove it fails initiate rather than attest blindly (see [`started`]).
#[derive(Debug)]
pub struct StartedAttestation {
    /// Unit identity (container name).
    pub unit_identity: String,
    /// PID-namespace proof for the running unit.
    pub pidns_proof: String,
    /// Initiate completed and the unit is ready for guest prep.
    pub ready: bool,
}

/// Attests a started unit by its PID-namespace proof; without one, initiate
/// fails.
pub fn started(identity: &str, namespace: Option<String>) -> (r: Result<StartedAttestation>)
    ensures
        if namespace is Some && namespace->0@.len() > 0 {
            r matches Ok(a) && a.unit_identity@ == identity@ && a.pidns_proof == namespace->0
                && a.ready
        } else {
            r matches Err(e) && e@ == ErrorView::Runtime(
                "cannot prove the PID namespace of "@ + identity@,
            )
        },
{
    match namespace {
        Some(pidns_proof) => {
            if !pidns_proof.as_str().is_empty() {
                return Ok(
                    StartedAttestation {
                        unit_identity: identity.to_owned(),
                        pidns_proof,
                        ready: true,
                    },
                );
            }
        },
        None => {},
    }
    Err(CistellaError::Runtime(text::cat("cannot prove the PID namespace of ", identity)))
}

/// Execution outcome: exit code or 128+signal disposition.
#[derive(Debug, Clone, Copy, PartialEq, Eq, Structural)]
pub enum ExecutionOutcome {
    /// Harness exited with a status code.
    Exited(i32),
    /// Harness ended by signal (`128 + signum`).
    Signaled(i32),
}

/// Process exit code of an outcome.
pub open spec fn exit_code_of(outcome: ExecutionOutcome) -> int {
    match outcome {
        ExecutionOutcome::Exited(code) => code as int,
        ExecutionOutcome::Signaled(signum) => 128 + signum,
    }
}

impl ExecutionOutcome {
    /// Process exit code for this outcome.
    #[must_use]
    pub fn exit_code(self) -> (code: i32)
        requires
            exit_code_of(self) <= i32::MAX,
        ensures
            code == exit_code_of(self),
    {
        match self {
            ExecutionOutcome::Exited(code) => code,
            ExecutionOutcome::Signaled(signum) => 128 + signum,
        }
    }
}

/// Read-only unit snapshot (`inspect`: never mutates).
#[derive(Debug)]
pub struct UnitSnapshot {
    /// Unit identity (container name).
    pub unit_identity: String,
    /// Lifecycle state at inspect time.
    pub lifecycle: LifecycleState,
    /// Systemd `ActiveState` (`active`, `inactive`, `failed`, ...).
    pub active_state: String,
    /// Session id from the `cistella.id` label (empty when absent).
    pub session_id: String,
    /// Image reference from the unit.
    pub image: String,
}

/// What a snapshot says.
pub struct SnapshotView {
    pub unit_identity: Seq<char>,
    pub lifecycle: LifecycleState,
    pub active_state: Seq<char>,
    pub session_id: Seq<char>,
    pub image: Seq<char>,
}

impl DeepView for UnitSnapshot {
    type V = SnapshotView;

    open spec fn deep_view(&self) -> SnapshotView {
        SnapshotView {
            unit_identity: self.unit_identity@,
            lifecycle: self.lifecycle,
            active_state: self.active_state@,
            session_id: self.session_id@,
            image: self.image@,
        }
    }
}

/// Terminate attestation: proof the unit stopped.
#[derive(Debug)]
pub struct StoppedAttestation {
    /// Unit identity (container name).
    pub unit_identity: String,
}

/// Remove attestation: proof the unit is gone.
#[derive(Debug)]
pub struct RemovedAttestation {
    /// Unit identity (container name).
    pub unit_identity: String,
}

/// What closes a unit, decided by its state.
#[derive(Debug, PartialEq, Eq, Structural, Clone, Copy)]
pub enum Closing {
    /// Remove only: nothing runs, but scratch may survive.
    Remove,
    /// Terminate, then remove.
    TerminateThenRemove,
}

/// Decides how a unit converges to clean.
///
/// The state alone never counts as clean: an absent unit with surviving
/// scratch is residue, and `remove` is idempotent and owns both the unit
/// file and the scratch, so it closes every state.
#[must_use]
pub fn converge_clean(state: LifecycleState) -> (c: Closing)
    ensures
        c == (if state == LifecycleState::Absent {
            Closing::Remove
        } else {
            Closing::TerminateThenRemove
        }),
{
    match state {
        LifecycleState::Absent => Closing::Remove,
        _ => Closing::TerminateThenRemove,
    }
}

/// A harness's exit code is its own, and 128 and the signal for one that a
/// signal ended.
pub proof fn law_exit_codes_say_how_it_ended(code: i32, signum: i32)
    ensures
        exit_code_of(ExecutionOutcome::Exited(code)) == code,
        exit_code_of(ExecutionOutcome::Signaled(signum)) == 128 + signum,
{
}

/// On a terminal the harness joins a known conductor and is refused without
/// one; off a terminal it stays where it is.
pub proof fn law_foreground_follows_the_conductor(tty: bool, conductor: Option<(u32, u32)>)
    ensures
        !tty ==> join_of(tty, conductor) is Stay,
        tty && conductor is None ==> join_of(tty, conductor) is Refuse,
        tty && conductor is Some ==> join_of(tty, conductor) == ForegroundJoin::Join(
            conductor->0,
        ),
{
}

/// The conductor is the parent that hosts, with its process group.
pub proof fn law_conductors_are_the_hosting_parent(parent: u32, host: u32, group: u32)
    ensures
        conductor_of(parent, host, Some(group)) == if parent == host {
            Some((parent, group))
        } else {
            None
        },
        conductor_of(parent, host, None) is None,
{
}

/// A view says what the fields hold, each under its own name.
pub proof fn law_views_say_the_fields(
    create_spec: CreateSpec,
    unit_snapshot: UnitSnapshot,
)
    ensures
        create_spec.deep_view().session == create_spec.session.deep_view(),
        create_spec.deep_view().volumes == create_spec.volumes.deep_view(),
        create_spec.deep_view().env == create_spec.env.deep_view(),
        create_spec.deep_view().labels == create_spec.labels.deep_view(),
        unit_snapshot.deep_view().unit_identity == unit_snapshot.unit_identity@,
        unit_snapshot.deep_view().lifecycle == unit_snapshot.lifecycle,
        unit_snapshot.deep_view().active_state == unit_snapshot.active_state@,
        unit_snapshot.deep_view().session_id == unit_snapshot.session_id@,
        unit_snapshot.deep_view().image == unit_snapshot.image@,
{
}

} // verus!
