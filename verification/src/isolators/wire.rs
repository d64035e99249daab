//! Isolator wire dispatch.
//!
//! Translates `isolator.*` wire operations into backend calls, mapping
//! framework-issued opaque handle strings to local backend handles. Each
//! operation is a short sequence of steps: [`IsolatorGuest::dispatch`]
//! answers, refuses, or names the backend call to make; the call's outcome
//! goes to the function that continues the operation.
//!
//! Handle discipline: the framework mints handle strings and the guest never
//! invents them; unknown handles refuse before any backend call. `create`
//! with a known handle replays idempotently; with an unknown handle but a
//! known reconciliation key the guest adopts the located unit; only an
//! unknown handle plus an unlocated key creates. A successful `remove` turns
//! the live binding into a tombstone: repeated teardown converges through
//! the backend, and nothing is ever resurrected.

use vstd::prelude::*;

use crate::error::{CistellaError, ErrorView, Result};
use crate::framework::contract;
use crate::framework::contract::{ExecutionHandle, LifecycleState, ReconciliationKey, UnitHandle};
use crate::framework::fdpass;
use crate::framework::fdpass::BundleHeader;
use crate::framework::handles::Handles;
use crate::framework::isolator;
use crate::framework::isolator::{
    CreateSpec, ExecutionOutcome, RemovedAttestation, SnapshotView, SpecView, StartedAttestation,
    StoppedAttestation, UnitSnapshot,
};
use crate::framework::json;
use crate::framework::json::Json;
use crate::framework::protocol::AWAIT_RESULT_OP;
use crate::text;

verus! {

/// `create` operation name.
pub const OP_CREATE: &'static str = "isolator.create";

/// `initiate` operation name.
pub const OP_INITIATE: &'static str = "isolator.initiate";

/// `execute_launch` operation name.
pub const OP_EXECUTE_LAUNCH: &'static str = "isolator.execute_launch";

/// `inspect` operation name.
pub const OP_INSPECT: &'static str = "isolator.inspect";

/// `state` operation name.
pub const OP_STATE: &'static str = "isolator.state";

/// `terminate` operation name.
pub const OP_TERMINATE: &'static str = "isolator.terminate";

/// `remove` operation name.
pub const OP_REMOVE: &'static str = "isolator.remove";

/// The wire operations.
#[derive(Debug, PartialEq, Eq, Structural, Clone, Copy)]
pub enum Operation {
    /// Create or adopt a unit.
    Create,
    /// Start a unit.
    Initiate,
    /// Launch a harness.
    Launch,
    /// Await a launched harness.
    Await,
    /// Snapshot a unit.
    Inspect,
    /// Lifecycle state of a unit.
    State,
    /// Stop a unit.
    Terminate,
    /// Remove a unit.
    Remove,
}

/// Operation of a name.
pub open spec fn operation_named(op: Seq<char>) -> Option<Operation> {
    if op == OP_CREATE@ {
        Some(Operation::Create)
    } else if op == OP_INITIATE@ {
        Some(Operation::Initiate)
    } else if op == OP_EXECUTE_LAUNCH@ {
        Some(Operation::Launch)
    } else if op == AWAIT_RESULT_OP@ {
        Some(Operation::Await)
    } else if op == OP_INSPECT@ {
        Some(Operation::Inspect)
    } else if op == OP_STATE@ {
        Some(Operation::State)
    } else if op == OP_TERMINATE@ {
        Some(Operation::Terminate)
    } else if op == OP_REMOVE@ {
        Some(Operation::Remove)
    } else {
        None
    }
}

/// Operation of a name; none when the guest knows no such operation.
pub fn operation_of(op: &str) -> (r: Option<Operation>)
    ensures
        r == operation_named(op@),
{
    if text::eq(op, OP_CREATE) {
        Some(Operation::Create)
    } else if text::eq(op, OP_INITIATE) {
        Some(Operation::Initiate)
    } else if text::eq(op, OP_EXECUTE_LAUNCH) {
        Some(Operation::Launch)
    } else if text::eq(op, AWAIT_RESULT_OP) {
        Some(Operation::Await)
    } else if text::eq(op, OP_INSPECT) {
        Some(Operation::Inspect)
    } else if text::eq(op, OP_STATE) {
        Some(Operation::State)
    } else if text::eq(op, OP_TERMINATE) {
        Some(Operation::Terminate)
    } else if text::eq(op, OP_REMOVE) {
        Some(Operation::Remove)
    } else {
        None
    }
}

// ---------------------------------------------------------------------
// Payloads and answers
// ---------------------------------------------------------------------

/// `create` payload: framework handle, spec, key.
#[derive(Debug)]
pub struct CreateRequest {
    /// Framework-issued unit handle.
    pub unit_handle: UnitHandle,
    /// Creation spec (built and validated framework-side).
    pub spec: CreateSpec,
    /// Reconciliation key for adopt-or-create convergence.
    pub reconciliation_key: ReconciliationKey,
}

/// Handle-plus-key payload shared by `initiate` and `remove`.
#[derive(Debug)]
pub struct HandleKeyRequest {
    /// Framework-issued unit handle.
    pub unit_handle: UnitHandle,
    /// Reconciliation key for this attempt.
    pub reconciliation_key: ReconciliationKey,
}

/// `execute_launch` payload. Carries no stdio: harness descriptors arrive
/// over the descriptor channel in a header-bound bundle.
#[derive(Debug)]
pub struct LaunchRequest {
    /// Framework-issued unit handle.
    pub unit_handle: UnitHandle,
    /// Framework-issued execution handle to bind.
    pub execution_handle: ExecutionHandle,
    /// Harness argv.
    pub argv: Vec<String>,
    /// Launch workdir; none runs the image default.
    pub workdir: Option<String>,
    /// Reconciliation key for this attempt.
    pub reconciliation_key: ReconciliationKey,
}

/// `await_result` payload.
#[derive(Debug)]
pub struct AwaitRequest {
    /// Framework-issued execution handle to redeem.
    pub execution_handle: ExecutionHandle,
}

/// `inspect` and `state` payload.
#[derive(Debug)]
pub struct InspectRequest {
    /// Framework-issued unit handle.
    pub unit_handle: UnitHandle,
}

/// `terminate` payload.
#[derive(Debug)]
pub struct TerminateRequest {
    /// Framework-issued unit handle.
    pub unit_handle: UnitHandle,
    /// SIGTERM grace in milliseconds.
    pub grace_ms: u64,
    /// Reconciliation key for this attempt.
    pub reconciliation_key: ReconciliationKey,
}

/// A decoded payload.
#[derive(Debug)]
pub enum Payload {
    /// `create`.
    Create(CreateRequest),
    /// `initiate`.
    Initiate(HandleKeyRequest),
    /// `execute_launch`.
    Launch(LaunchRequest),
    /// `await_result`.
    Await(AwaitRequest),
    /// `inspect`.
    Inspect(InspectRequest),
    /// `state`.
    State(InspectRequest),
    /// `terminate`.
    Terminate(TerminateRequest),
    /// `remove`.
    Remove(HandleKeyRequest),
}

/// A terminal success.
#[derive(Debug)]
pub enum Response {
    /// `{unit_handle}`.
    Unit(String),
    /// `{started_attestation}`.
    Started(StartedAttestation),
    /// `{execution_handle}`.
    Execution(String),
    /// `{exit_status}`.
    ExitStatus(i32),
    /// `{signal}`.
    Signal(i32),
    /// A snapshot.
    Snapshot(UnitSnapshot),
    /// `{lifecycle}`.
    Lifecycle(LifecycleState),
    /// `{stopped_attestation}`.
    Stopped(StoppedAttestation),
    /// `{removed_attestation}`.
    Removed(RemovedAttestation),
}

/// Whether a value holds a unit identity and nothing else.
pub open spec fn identity_value(v: Json, identity: Seq<char>) -> bool {
    v matches Json::Object(m) && m@.len() == 1 && json::text_entry(
        m@[0],
        "unit_identity"@,
        identity,
    )
}

/// Whether a value is a started attestation.
pub open spec fn started_value(v: Json, a: StartedAttestation) -> bool {
    v matches Json::Object(m) && m@.len() == 3 && json::text_entry(
        m@[0],
        "unit_identity"@,
        a.unit_identity@,
    ) && json::text_entry(m@[1], "pidns_proof"@, a.pidns_proof@) && m@[2].0@ == "ready"@
        && m@[2].1 == Json::Bool(a.ready)
}

/// Whether a value is a snapshot.
pub open spec fn snapshot_value(v: Json, s: UnitSnapshot) -> bool {
    v matches Json::Object(m) && m@.len() == 5 && json::text_entry(
        m@[0],
        "unit_identity"@,
        s.unit_identity@,
    ) && json::text_entry(m@[1], "lifecycle"@, contract::state_text(s.lifecycle))
        && json::text_entry(m@[2], "active_state"@, s.active_state@) && json::text_entry(
        m@[3],
        "session_id"@,
        s.session_id@,
    ) && json::text_entry(m@[4], "image"@, s.image@)
}

/// Whether a payload is the one a response crosses as.
pub open spec fn answers(v: Json, r: Response) -> bool {
    match r {
        Response::Snapshot(s) => snapshot_value(v, s),
        _ => v matches Json::Object(m) && m@.len() == 1 && match r {
            Response::Unit(h) => json::text_entry(m@[0], "unit_handle"@, h@),
            Response::Execution(h) => json::text_entry(m@[0], "execution_handle"@, h@),
            Response::ExitStatus(code) => m@[0].0@ == "exit_status"@ && m@[0].1 == Json::Integer(
                code as i64,
            ),
            Response::Signal(signum) => m@[0].0@ == "signal"@ && m@[0].1 == Json::Integer(
                signum as i64,
            ),
            Response::Lifecycle(l) => json::text_entry(
                m@[0],
                "lifecycle"@,
                contract::state_text(l),
            ),
            Response::Started(a) => m@[0].0@ == "started_attestation"@ && started_value(
                m@[0].1,
                a,
            ),
            Response::Stopped(a) => m@[0].0@ == "stopped_attestation"@ && identity_value(
                m@[0].1,
                a.unit_identity@,
            ),
            Response::Removed(a) => m@[0].0@ == "removed_attestation"@ && identity_value(
                m@[0].1,
                a.unit_identity@,
            ),
            Response::Snapshot(_) => false,
        },
    }
}

fn single(member: (String, Json)) -> (v: Json)
    ensures
        v matches Json::Object(m) && m@ == seq![member],
{
    let mut m: Vec<(String, Json)> = Vec::new();
    m.push(member);
    Json::Object(m)
}

fn identity_of(identity: &str) -> (v: Json)
    ensures
        identity_value(v, identity@),
{
    single(json::entry("unit_identity", identity))
}

fn started_of(a: &StartedAttestation) -> (v: Json)
    ensures
        started_value(v, *a),
{
    let mut m: Vec<(String, Json)> = Vec::new();
    m.push(json::entry("unit_identity", a.unit_identity.as_str()));
    m.push(json::entry("pidns_proof", a.pidns_proof.as_str()));
    m.push(("ready".to_owned(), Json::Bool(a.ready)));
    Json::Object(m)
}

fn snapshot_of(s: &UnitSnapshot) -> (v: Json)
    ensures
        snapshot_value(v, *s),
{
    let mut m: Vec<(String, Json)> = Vec::new();
    m.push(json::entry("unit_identity", s.unit_identity.as_str()));
    m.push(json::entry("lifecycle", s.lifecycle.as_wire()));
    m.push(json::entry("active_state", s.active_state.as_str()));
    m.push(json::entry("session_id", s.session_id.as_str()));
    m.push(json::entry("image", s.image.as_str()));
    Json::Object(m)
}

/// Payload that a terminal success crosses as.
pub fn response_payload(r: &Response) -> (v: Json)
    ensures
        answers(v, *r),
{
    match r {
        Response::Unit(h) => single(json::entry("unit_handle", h.as_str())),
        Response::Started(a) => single(("started_attestation".to_owned(), started_of(a))),
        Response::Execution(h) => single(json::entry("execution_handle", h.as_str())),
        Response::ExitStatus(code) => single(
            ("exit_status".to_owned(), Json::Integer(*code as i64)),
        ),
        Response::Signal(signum) => single(("signal".to_owned(), Json::Integer(*signum as i64))),
        Response::Snapshot(s) => snapshot_of(s),
        Response::Lifecycle(l) => single(json::entry("lifecycle", l.as_wire())),
        Response::Stopped(a) => single(
            ("stopped_attestation".to_owned(), identity_of(a.unit_identity.as_str())),
        ),
        Response::Removed(a) => single(
            ("removed_attestation".to_owned(), identity_of(a.unit_identity.as_str())),
        ),
    }
}

/// What an operation does next.
#[derive(Debug)]
pub enum Step {
    /// Answer with an error. When `drain` holds, one queued descriptor
    /// bundle is drained first, so that it cannot meet the next launch.
    Refuse {
        /// The error.
        error: CistellaError,
        /// Drain one queued bundle first.
        drain: bool,
    },
    /// Answer with a success.
    Respond(Response),
    /// Locate a unit by the request's key, then [`IsolatorGuest::located`].
    Locate(CreateRequest),
    /// Create the unit, then [`IsolatorGuest::created`].
    Create(CreateRequest),
    /// Start the unit.
    Initiate {
        /// Local backend handle.
        local: UnitHandle,
        /// Key of this attempt.
        key: ReconciliationKey,
    },
    /// Receive the bundle of a replayed launch, then
    /// [`IsolatorGuest::replayed`].
    ReplayBundle {
        /// Framework unit handle.
        unit: UnitHandle,
        /// Framework execution handle.
        execution: ExecutionHandle,
    },
    /// Receive the bundle of a new launch, then [`IsolatorGuest::bundled`].
    LaunchBundle {
        /// The launch.
        request: LaunchRequest,
        /// Local backend handle of the unit.
        local: UnitHandle,
    },
    /// Launch on the backend, then [`IsolatorGuest::launched`].
    Launch {
        /// The launch.
        request: LaunchRequest,
        /// Local backend handle of the unit.
        local: UnitHandle,
    },
    /// Await on the backend.
    Await {
        /// Local backend handle of the execution.
        execution: ExecutionHandle,
    },
    /// Inspect on the backend.
    Inspect {
        /// Local backend handle.
        local: UnitHandle,
    },
    /// Ask the backend for the state.
    State {
        /// Local backend handle.
        local: UnitHandle,
    },
    /// Terminate on the backend.
    Terminate {
        /// Local backend handle.
        local: UnitHandle,
        /// Grace in milliseconds.
        grace_ms: u64,
        /// Key of this attempt.
        key: ReconciliationKey,
    },
    /// Remove on the backend, then [`IsolatorGuest::removed`].
    Remove {
        /// Framework unit handle.
        unit: UnitHandle,
        /// Local backend handle.
        local: UnitHandle,
        /// Key of this attempt.
        key: ReconciliationKey,
        /// Whether a live binding is to be evicted on success.
        evict: bool,
    },
}

/// Whether a step answers with this error, with or without draining.
pub open spec fn refuses(s: Step, e: ErrorView, drain: bool) -> bool {
    s matches Step::Refuse { error, drain: d } && error@ == e && d == drain
}

/// Whether a step calls the backend or the descriptor channel.
pub open spec fn reaches_out(s: Step) -> bool {
    !(s is Refuse) && !(s is Respond)
}

fn refuse(error: CistellaError) -> (s: Step)
    ensures
        refuses(s, error@, false),
{
    Step::Refuse { error, drain: false }
}

// ---------------------------------------------------------------------
// Bindings
// ---------------------------------------------------------------------

/// Framework unit binding: live backend handle plus the attempt identity
/// that created it, or a removal tombstone.
#[derive(Debug)]
pub enum UnitBinding {
    /// Live backend unit.
    Live {
        /// Local backend handle.
        local: UnitHandle,
        /// Reconciliation key of the creating attempt.
        key: ReconciliationKey,
        /// Creation spec of the creating attempt.
        spec: CreateSpec,
    },
    /// Removal tombstone: live binding evicted, absence recorded.
    Removed {
        /// Local backend handle, retained only for idempotent cleanup.
        local: UnitHandle,
        /// Unit identity (container name) for attestations.
        unit_identity: String,
    },
}

/// What a unit binding says.
pub enum BindingView {
    Live { local: Seq<char>, key: Seq<char>, spec: SpecView },
    Removed { local: Seq<char>, identity: Seq<char> },
}

impl DeepView for UnitBinding {
    type V = BindingView;

    open spec fn deep_view(&self) -> BindingView {
        match *self {
            UnitBinding::Live { local, key, spec } => BindingView::Live {
                local: local.deep_view(),
                key: key.deep_view(),
                spec: spec.deep_view(),
            },
            UnitBinding::Removed { local, unit_identity } => BindingView::Removed {
                local: local.deep_view(),
                identity: unit_identity@,
            },
        }
    }
}

/// Framework execution binding: local handle plus attempt identity.
#[derive(Debug)]
pub struct ExecBinding {
    /// Local backend handle.
    pub local: ExecutionHandle,
    /// Framework unit handle this execution was launched on.
    pub unit: String,
    /// Reconciliation key of the launching attempt.
    pub key: ReconciliationKey,
    /// Harness argv of the launching attempt.
    pub argv: Vec<String>,
    /// Launch workdir of the launching attempt.
    pub workdir: Option<String>,
}

/// What an execution binding says.
pub struct ExecView {
    pub local: Seq<char>,
    pub unit: Seq<char>,
    pub key: Seq<char>,
    pub argv: Seq<Seq<char>>,
    pub workdir: Option<Seq<char>>,
}

impl DeepView for ExecBinding {
    type V = ExecView;

    open spec fn deep_view(&self) -> ExecView {
        ExecView {
            local: self.local.deep_view(),
            unit: self.unit@,
            key: self.key.deep_view(),
            argv: self.argv.deep_view(),
            workdir: self.workdir.deep_view(),
        }
    }
}

/// Framework-handle tables, and whether a descriptor channel is attached.
pub struct GuestView {
    pub units: Map<Seq<char>, BindingView>,
    pub executions: Map<Seq<char>, ExecView>,
    pub channel: bool,
}

/// Guest-side dispatch: framework-handle tables beside a backend.
///
/// Every framework handle is bound to the key and request that created it. A
/// known handle with a different key or request refuses as mismatched reuse
/// instead of overwriting; a known handle with the identical key and request
/// replays without re-executing.
#[derive(Debug)]
pub struct IsolatorGuest {
    units: Handles<UnitBinding>,
    executions: Handles<ExecBinding>,
    channel: bool,
}

impl View for IsolatorGuest {
    type V = GuestView;

    closed spec fn view(&self) -> GuestView {
        GuestView {
            units: self.units@,
            executions: self.executions@,
            channel: self.channel,
        }
    }
}

// ---------------------------------------------------------------------
// Model
// ---------------------------------------------------------------------

/// Minted handle grammar: `[a-z0-9]`, bounded.
pub open spec fn handle_shape(s: Seq<char>) -> bool {
    s.len() > 0 && text::byte_len(s) <= 128 && text::all_in_class(s, false, true, true, ""@)
}

/// The refusal of a handle outside the grammar.
pub open spec fn bad_handle(kind: Seq<char>) -> ErrorView {
    ErrorView::Contract("bad "@ + kind + " handle: shape violation"@)
}

/// The refusal of a removed handle.
pub open spec fn removed_error(handle: Seq<char>) -> ErrorView {
    ErrorView::Contract("unit handle removed: "@ + handle)
}

/// Binding of a unit handle, live or tombstone.
pub open spec fn unit_lookup(g: GuestView, handle: Seq<char>) -> std::result::Result<
    BindingView,
    ErrorView,
> {
    if !handle_shape(handle) {
        Err(bad_handle("unit"@))
    } else if g.units.dom().contains(handle) {
        Ok(g.units[handle])
    } else {
        Err(ErrorView::Contract("unknown unit handle: "@ + handle))
    }
}

/// Local handle of a live unit.
pub open spec fn live_unit(g: GuestView, handle: Seq<char>) -> std::result::Result<
    Seq<char>,
    ErrorView,
> {
    match unit_lookup(g, handle) {
        Err(e) => Err(e),
        Ok(BindingView::Live { local, .. }) => Ok(local),
        Ok(BindingView::Removed { .. }) => Err(removed_error(handle)),
    }
}

/// Local handle of an execution.
pub open spec fn live_execution(g: GuestView, handle: Seq<char>) -> std::result::Result<
    Seq<char>,
    ErrorView,
> {
    if !handle_shape(handle) {
        Err(bad_handle("execution"@))
    } else if g.executions.dom().contains(handle) {
        Ok(g.executions[handle].local)
    } else {
        Err(ErrorView::Contract("unknown execution handle: "@ + handle))
    }
}

/// Local handle that a binding retains.
pub open spec fn local_of(b: BindingView) -> Seq<char> {
    match b {
        BindingView::Live { local, .. } => local,
        BindingView::Removed { local, .. } => local,
    }
}

/// What `create` does.
pub open spec fn create_step(g: GuestView, req: CreateRequest, s: Step) -> bool {
    let fw = req.unit_handle.deep_view();
    if !handle_shape(fw) {
        refuses(s, bad_handle("unit"@), false)
    } else if !g.units.dom().contains(fw) {
        s == Step::Locate(req)
    } else {
        match g.units[fw] {
            BindingView::Live { key, spec, .. } => if key == req.reconciliation_key.deep_view()
                && spec == req.spec.deep_view() {
                s matches Step::Respond(Response::Unit(h)) && h@ == fw
            } else {
                refuses(
                    s,
                    ErrorView::Contract("unit handle bound to a different attempt: "@ + fw),
                    false,
                )
            },
            BindingView::Removed { .. } => refuses(s, removed_error(fw), false),
        }
    }
}

/// What `execute_launch` does.
pub open spec fn launch_step(g: GuestView, req: LaunchRequest, s: Step) -> bool {
    let unit = req.unit_handle.deep_view();
    let fw = req.execution_handle.deep_view();
    if !g.channel {
        refuses(s, ErrorView::Contract("launch requires an fd channel"@), false)
    } else {
        match live_unit(g, unit) {
            Err(e) => refuses(s, e, true),
            Ok(local) => if !handle_shape(fw) {
                refuses(s, bad_handle("execution"@), true)
            } else if !g.executions.dom().contains(fw) {
                s matches Step::LaunchBundle { request, local: l } && request == req
                    && l.deep_view() == local
            } else if same_attempt(g.executions[fw], req) {
                s matches Step::ReplayBundle { unit: u, execution: x } && u.deep_view() == unit
                    && x.deep_view() == fw
            } else {
                refuses(
                    s,
                    ErrorView::Contract("execution handle bound to a different attempt: "@ + fw),
                    true,
                )
            },
        }
    }
}

/// Whether a launch is the attempt that an execution is bound to.
pub open spec fn same_attempt(b: ExecView, req: LaunchRequest) -> bool {
    &&& b.unit == req.unit_handle.deep_view()
    &&& b.key == req.reconciliation_key.deep_view()
    &&& b.argv == req.argv.deep_view()
    &&& b.workdir == req.workdir.deep_view()
}

/// Snapshot of a tombstone.
pub open spec fn tombstone_snapshot(identity: Seq<char>) -> SnapshotView {
    SnapshotView {
        unit_identity: identity,
        lifecycle: LifecycleState::Absent,
        active_state: "inactive"@,
        session_id: ""@,
        image: ""@,
    }
}

/// What a decoded payload does.
pub open spec fn payload_step(g: GuestView, payload: Payload, s: Step) -> bool {
    match payload {
        Payload::Create(req) => create_step(g, req, s),
        Payload::Initiate(req) => match live_unit(g, req.unit_handle.deep_view()) {
            Err(e) => refuses(s, e, false),
            Ok(local) => s matches Step::Initiate { local: l, key } && l.deep_view() == local
                && key == req.reconciliation_key,
        },
        Payload::Launch(req) => launch_step(g, req, s),
        Payload::Await(req) => match live_execution(g, req.execution_handle.deep_view()) {
            Err(e) => refuses(s, e, false),
            Ok(local) => s matches Step::Await { execution } && execution.deep_view() == local,
        },
        Payload::Inspect(req) => match unit_lookup(g, req.unit_handle.deep_view()) {
            Err(e) => refuses(s, e, false),
            Ok(BindingView::Live { local, .. }) => s matches Step::Inspect { local: l }
                && l.deep_view() == local,
            Ok(BindingView::Removed { identity, .. }) => s matches Step::Respond(
                Response::Snapshot(snapshot),
            ) && snapshot.deep_view() == tombstone_snapshot(identity),
        },
        Payload::State(req) => match unit_lookup(g, req.unit_handle.deep_view()) {
            Err(e) => refuses(s, e, false),
            Ok(BindingView::Live { local, .. }) => s matches Step::State { local: l }
                && l.deep_view() == local,
            Ok(BindingView::Removed { .. }) => s == Step::Respond(
                Response::Lifecycle(LifecycleState::Absent),
            ),
        },
        Payload::Terminate(req) => match unit_lookup(g, req.unit_handle.deep_view()) {
            Err(e) => refuses(s, e, false),
            Ok(b) => s matches Step::Terminate { local: l, grace_ms, key } && l.deep_view()
                == local_of(b) && grace_ms == req.grace_ms && key == req.reconciliation_key,
        },
        Payload::Remove(req) => match unit_lookup(g, req.unit_handle.deep_view()) {
            Err(e) => refuses(s, e, false),
            Ok(b) => s matches Step::Remove { unit, local: l, key, evict } && unit
                == req.unit_handle && l.deep_view() == local_of(b) && key
                == req.reconciliation_key && evict == (b is Live),
        },
    }
}

/// Whether a payload belongs to an operation.
pub open spec fn payload_fits(op: Operation, payload: Payload) -> bool {
    match payload {
        Payload::Create(_) => op == Operation::Create,
        Payload::Initiate(_) => op == Operation::Initiate,
        Payload::Launch(_) => op == Operation::Launch,
        Payload::Await(_) => op == Operation::Await,
        Payload::Inspect(_) => op == Operation::Inspect,
        Payload::State(_) => op == Operation::State,
        Payload::Terminate(_) => op == Operation::Terminate,
        Payload::Remove(_) => op == Operation::Remove,
    }
}

/// The refusal of a payload outside its schema.
pub open spec fn shape_error(op: Seq<char>) -> ErrorView {
    ErrorView::Contract("bad "@ + op + " payload: shape violation"@)
}

/// What one wire operation does.
pub open spec fn dispatched(g: GuestView, op: Seq<char>, payload: Option<Payload>, s: Step) -> bool {
    match operation_named(op) {
        None => refuses(s, ErrorView::Contract("unknown isolator operation"@), false),
        Some(kind) => if payload is Some && payload_fits(kind, payload->0) {
            payload_step(g, payload->0, s)
        } else {
            refuses(s, shape_error(op), kind == Operation::Launch)
        },
    }
}

/// Tables with a unit bound live.
pub open spec fn with_unit(g: GuestView, req: CreateRequest, local: Seq<char>) -> GuestView {
    GuestView {
        units: g.units.insert(
            req.unit_handle.deep_view(),
            BindingView::Live {
                local,
                key: req.reconciliation_key.deep_view(),
                spec: req.spec.deep_view(),
            },
        ),
        ..g
    }
}

/// Tables with an execution bound.
pub open spec fn with_execution(g: GuestView, req: LaunchRequest, local: Seq<char>) -> GuestView {
    GuestView {
        executions: g.executions.insert(
            req.execution_handle.deep_view(),
            ExecView {
                local,
                unit: req.unit_handle.deep_view(),
                key: req.reconciliation_key.deep_view(),
                argv: req.argv.deep_view(),
                workdir: req.workdir.deep_view(),
            },
        ),
        ..g
    }
}

/// Executions that were not launched on a unit.
pub open spec fn without_unit(m: Map<Seq<char>, ExecView>, unit: Seq<char>) -> Map<
    Seq<char>,
    ExecView,
> {
    Map::new(|k: Seq<char>| m.dom().contains(k) && m[k].unit != unit, |k: Seq<char>| m[k])
}

/// Tables with a unit's live binding turned into a tombstone and its
/// executions gone.
pub open spec fn with_tombstone(
    g: GuestView,
    unit: Seq<char>,
    local: Seq<char>,
    identity: Seq<char>,
) -> GuestView {
    GuestView {
        units: g.units.insert(unit, BindingView::Removed { local, identity }),
        executions: without_unit(g.executions, unit),
        channel: g.channel,
    }
}

// ---------------------------------------------------------------------
// Dispatch
// ---------------------------------------------------------------------

/// Checks a framework handle against the minted grammar. A wire handle
/// outside it refuses with a fixed message before table lookup, so untrusted
/// bytes never flow into diagnostics or backend calls.
fn check_handle_grammar(kind: &str, handle: &str) -> (r: Result<()>)
    ensures
        if handle_shape(handle@) {
            r is Ok
        } else {
            r matches Err(e) && e@ == bad_handle(kind@)
        },
{
    let ok = !handle.is_empty() && text::len_bytes(handle) <= 128 && text::all_in(
        handle,
        false,
        true,
        true,
        "",
    );
    if !ok {
        return Err(
            CistellaError::Contract(text::cat3("bad ", kind, " handle: shape violation")),
        );
    }
    Ok(())
}

impl IsolatorGuest {
    /// Whether the handle tables are well-formed.
    pub closed spec fn wf(&self) -> bool {
        self.units.wf() && self.executions.wf()
    }

    /// Empty dispatch without a descriptor channel.
    #[must_use]
    pub fn new() -> (g: Self)
        ensures
            g.wf(),
            g@ == (GuestView { units: Map::empty(), executions: Map::empty(), channel: false }),
    {
        IsolatorGuest { units: Handles::new(), executions: Handles::new(), channel: false }
    }

    /// Notes that a descriptor channel is attached: bundles arrive on it.
    #[must_use]
    pub fn with_fd_channel(self) -> (g: Self)
        requires
            self.wf(),
        ensures
            g.wf(),
            g@ == (GuestView { channel: true, ..self@ }),
    {
        IsolatorGuest { units: self.units, executions: self.executions, channel: true }
    }

    /// Looks up a framework unit handle's binding (live or tombstone).
    fn lookup_unit(&self, handle: &UnitHandle) -> (r: Result<&UnitBinding>)
        requires
            self.wf(),
        ensures
            match (r, unit_lookup(self@, handle.deep_view())) {
                (Ok(b), Ok(m)) => b.deep_view() == m,
                (Err(e), Err(m)) => e@ == m,
                _ => false,
            },
    {
        match check_handle_grammar("unit", handle.as_str()) {
            Ok(_) => {},
            Err(e) => {
                return Err(e);
            },
        }
        match self.units.get(handle.as_str()) {
            Some(b) => Ok(b),
            None => Err(
                CistellaError::Contract(text::cat("unknown unit handle: ", handle.as_str())),
            ),
        }
    }

    /// Resolves a framework unit handle to its local handle; a tombstone
    /// refuses.
    fn resolve_unit(&self, handle: &UnitHandle) -> (r: Result<UnitHandle>)
        requires
            self.wf(),
        ensures
            crate::error::agrees(r, live_unit(self@, handle.deep_view())),
    {
        match self.lookup_unit(handle) {
            Err(e) => Err(e),
            Ok(UnitBinding::Live { local, .. }) => Ok(local.clone()),
            Ok(UnitBinding::Removed { .. }) => Err(
                CistellaError::Contract(text::cat("unit handle removed: ", handle.as_str())),
            ),
        }
    }

    /// Resolves a framework execution handle to its local handle.
    fn resolve_execution(&self, handle: &ExecutionHandle) -> (r: Result<ExecutionHandle>)
        requires
            self.wf(),
        ensures
            crate::error::agrees(r, live_execution(self@, handle.deep_view())),
    {
        match check_handle_grammar("execution", handle.as_str()) {
            Ok(_) => {},
            Err(e) => {
                return Err(e);
            },
        }
        match self.executions.get(handle.as_str()) {
            Some(b) => Ok(b.local.clone()),
            None => Err(
                CistellaError::Contract(text::cat("unknown execution handle: ", handle.as_str())),
            ),
        }
    }

    fn dispatch_create(&self, req: CreateRequest) -> (s: Step)
        requires
            self.wf(),
        ensures
            create_step(self@, req, s),
    {
        match check_handle_grammar("unit", req.unit_handle.as_str()) {
            Ok(_) => {},
            Err(e) => {
                return refuse(e);
            },
        }
        match self.units.get(req.unit_handle.as_str()) {
            None => Step::Locate(req),
            Some(UnitBinding::Live { key, spec, .. }) => {
                if text::eq(key.as_str(), req.reconciliation_key.as_str()) && spec.same(
                    &req.spec,
                ) {
                    Step::Respond(Response::Unit(req.unit_handle.as_str().to_owned()))
                } else {
                    refuse(
                        CistellaError::Contract(
                            text::cat(
                                "unit handle bound to a different attempt: ",
                                req.unit_handle.as_str(),
                            ),
                        ),
                    )
                }
            },
            Some(UnitBinding::Removed { .. }) => refuse(
                CistellaError::Contract(
                    text::cat("unit handle removed: ", req.unit_handle.as_str()),
                ),
            ),
        }
    }

    fn dispatch_launch(&self, req: LaunchRequest) -> (s: Step)
        requires
            self.wf(),
        ensures
            launch_step(self@, req, s),
    {
        // Without the channel harness stdio has no route, so the launch
        // refuses before lookup.
        if !self.channel {
            return refuse(CistellaError::Contract("launch requires an fd channel".to_owned()));
        }
        let local = match self.resolve_unit(&req.unit_handle) {
            Ok(local) => local,
            Err(error) => {
                return Step::Refuse { error, drain: true };
            },
        };
        match check_handle_grammar("execution", req.execution_handle.as_str()) {
            Ok(_) => {},
            Err(error) => {
                return Step::Refuse { error, drain: true };
            },
        }
        match self.executions.get(req.execution_handle.as_str()) {
            None => Step::LaunchBundle { request: req, local },
            Some(b) => {
                if text::eq(b.unit.as_str(), req.unit_handle.as_str()) && text::eq(
                    b.key.as_str(),
                    req.reconciliation_key.as_str(),
                ) && isolator::same_texts(&b.argv, &req.argv) && isolator::same_option(
                    &b.workdir,
                    &req.workdir,
                ) {
                    // The replay still consumes its staged bundle, so the
                    // channel stays aligned.
                    Step::ReplayBundle { unit: req.unit_handle, execution: req.execution_handle }
                } else {
                    Step::Refuse {
                        error: CistellaError::Contract(
                            text::cat(
                                "execution handle bound to a different attempt: ",
                                req.execution_handle.as_str(),
                            ),
                        ),
                        drain: true,
                    }
                }
            },
        }
    }

    fn dispatch_payload(&self, payload: Payload) -> (s: Step)
        requires
            self.wf(),
        ensures
            payload_step(self@, payload, s),
    {
        match payload {
            Payload::Create(req) => self.dispatch_create(req),
            Payload::Initiate(req) => match self.resolve_unit(&req.unit_handle) {
                Err(e) => refuse(e),
                Ok(local) => Step::Initiate { local, key: req.reconciliation_key },
            },
            Payload::Launch(req) => self.dispatch_launch(req),
            Payload::Await(req) => match self.resolve_execution(&req.execution_handle) {
                Err(e) => refuse(e),
                Ok(execution) => Step::Await { execution },
            },
            Payload::Inspect(req) => match self.lookup_unit(&req.unit_handle) {
                Err(e) => refuse(e),
                Ok(UnitBinding::Live { local, .. }) => Step::Inspect { local: local.clone() },
                Ok(UnitBinding::Removed { unit_identity, .. }) => Step::Respond(
                    Response::Snapshot(
                        UnitSnapshot {
                            unit_identity: unit_identity.clone(),
                            lifecycle: LifecycleState::Absent,
                            active_state: "inactive".to_owned(),
                            session_id: "".to_owned(),
                            image: "".to_owned(),
                        },
                    ),
                ),
            },
            Payload::State(req) => match self.lookup_unit(&req.unit_handle) {
                Err(e) => refuse(e),
                Ok(UnitBinding::Live { local, .. }) => Step::State { local: local.clone() },
                Ok(UnitBinding::Removed { .. }) => Step::Respond(
                    Response::Lifecycle(LifecycleState::Absent),
                ),
            },
            Payload::Terminate(req) => match self.lookup_unit(&req.unit_handle) {
                Err(e) => refuse(e),
                Ok(UnitBinding::Live { local, .. }) => Step::Terminate {
                    local: local.clone(),
                    grace_ms: req.grace_ms,
                    key: req.reconciliation_key,
                },
                Ok(UnitBinding::Removed { local, .. }) => Step::Terminate {
                    local: local.clone(),
                    grace_ms: req.grace_ms,
                    key: req.reconciliation_key,
                },
            },
            Payload::Remove(req) => match self.lookup_unit(&req.unit_handle) {
                Err(e) => refuse(e),
                Ok(UnitBinding::Live { local, .. }) => Step::Remove {
                    local: local.clone(),
                    unit: req.unit_handle,
                    key: req.reconciliation_key,
                    evict: true,
                },
                Ok(UnitBinding::Removed { local, .. }) => Step::Remove {
                    local: local.clone(),
                    unit: req.unit_handle,
                    key: req.reconciliation_key,
                    evict: false,
                },
            },
        }
    }

    /// Begins one wire operation with its decoded payload; a payload outside
    /// the operation's schema is absent.
    ///
    /// Unknown operations, malformed payloads, and unknown handles refuse
    /// with typed errors before any backend call.
    pub fn dispatch(&self, op: &str, payload: Option<Payload>) -> (s: Step)
        requires
            self.wf(),
        ensures
            dispatched(self@, op@, payload, s),
    {
        match operation_of(op) {
            None => refuse(CistellaError::Contract("unknown isolator operation".to_owned())),
            Some(kind) => {
                let fits = match &payload {
                    None => false,
                    Some(Payload::Create(_)) => kind == Operation::Create,
                    Some(Payload::Initiate(_)) => kind == Operation::Initiate,
                    Some(Payload::Launch(_)) => kind == Operation::Launch,
                    Some(Payload::Await(_)) => kind == Operation::Await,
                    Some(Payload::Inspect(_)) => kind == Operation::Inspect,
                    Some(Payload::State(_)) => kind == Operation::State,
                    Some(Payload::Terminate(_)) => kind == Operation::Terminate,
                    Some(Payload::Remove(_)) => kind == Operation::Remove,
                };
                if fits {
                    match payload {
                        Some(p) => {
                            return self.dispatch_payload(p);
                        },
                        None => {},
                    }
                }
                Step::Refuse {
                    error: CistellaError::Contract(
                        text::cat3("bad ", op, " payload: shape violation"),
                    ),
                    drain: kind == Operation::Launch,
                }
            },
        }
    }

    fn bind_unit(&mut self, req: CreateRequest, local: UnitHandle) -> (s: Step)
        requires
            old(self).wf(),
        ensures
            final(self).wf(),
            final(self)@ == with_unit(old(self)@, req, local.deep_view()),
            s matches Step::Respond(Response::Unit(h)) && h@ == req.unit_handle.deep_view(),
    {
        let fw = req.unit_handle.as_str().to_owned();
        self.units.insert(
            fw.as_str(),
            UnitBinding::Live { local, key: req.reconciliation_key, spec: req.spec },
        );
        Step::Respond(Response::Unit(fw))
    }

    /// Continues a create after locating its key: a located unit is adopted,
    /// an unlocated one is created, a failed query refuses.
    pub fn located(&mut self, req: CreateRequest, outcome: Result<Option<UnitHandle>>) -> (s: Step)
        requires
            old(self).wf(),
        ensures
            final(self).wf(),
            match outcome {
                Err(e) => s == (Step::Refuse { error: e, drain: false }) && final(self)@
                    == old(self)@,
                Ok(None) => s == Step::Create(req) && final(self)@ == old(self)@,
                Ok(Some(local)) => final(self)@ == with_unit(old(self)@, req, local.deep_view())
                    && (s matches Step::Respond(Response::Unit(h)) && h@
                    == req.unit_handle.deep_view()),
            },
    {
        match outcome {
            Err(e) => Step::Refuse { error: e, drain: false },
            Ok(None) => Step::Create(req),
            Ok(Some(local)) => self.bind_unit(req, local),
        }
    }

    /// Continues a create after the backend created the unit: the handle is
    /// bound to the attempt. A failed create binds nothing.
    pub fn created(&mut self, req: CreateRequest, outcome: Result<UnitHandle>) -> (s: Step)
        requires
            old(self).wf(),
        ensures
            final(self).wf(),
            match outcome {
                Err(e) => s == (Step::Refuse { error: e, drain: false }) && final(self)@
                    == old(self)@,
                Ok(local) => final(self)@ == with_unit(old(self)@, req, local.deep_view()) && (
                s matches Step::Respond(Response::Unit(h)) && h@ == req.unit_handle.deep_view()),
            },
    {
        match outcome {
            Err(e) => Step::Refuse { error: e, drain: false },
            Ok(local) => self.bind_unit(req, local),
        }
    }

    /// Continues a replayed launch: the staged bundle must name this launch;
    /// nothing is spawned again.
    pub fn replayed(
        unit: &UnitHandle,
        execution: &ExecutionHandle,
        bundle: Result<BundleHeader>,
    ) -> (s: Step)
        ensures
            match bundle {
                Err(e) => s == (Step::Refuse { error: e, drain: false }),
                Ok(h) => if fdpass::names_launch(h, unit.deep_view(), execution.deep_view()) {
                    s matches Step::Respond(Response::Execution(x)) && x@ == execution.deep_view()
                } else {
                    refuses(
                        s,
                        ErrorView::Contract("fd bundle bound to a different launch"@),
                        false,
                    )
                },
            },
    {
        match bundle {
            Err(e) => Step::Refuse { error: e, drain: false },
            Ok(h) => if fdpass::binds_launch(&h, unit.as_str(), execution.as_str()) {
                Step::Respond(Response::Execution(execution.as_str().to_owned()))
            } else {
                refuse(
                    CistellaError::Contract("fd bundle bound to a different launch".to_owned()),
                )
            },
        }
    }

    /// Continues a new launch: the bundle header must name this exact unit
    /// plus execution, or the launch refuses before spawn.
    pub fn bundled(request: LaunchRequest, local: UnitHandle, bundle: Result<BundleHeader>) -> (s:
        Step)
        ensures
            match bundle {
                Err(e) => s == (Step::Refuse { error: e, drain: false }),
                Ok(h) => if fdpass::names_launch(
                    h,
                    request.unit_handle.deep_view(),
                    request.execution_handle.deep_view(),
                ) {
                    s == (Step::Launch { request, local })
                } else {
                    refuses(
                        s,
                        ErrorView::Contract("fd bundle bound to a different launch"@),
                        false,
                    )
                },
            },
    {
        match bundle {
            Err(e) => Step::Refuse { error: e, drain: false },
            Ok(h) => if fdpass::binds_launch(
                &h,
                request.unit_handle.as_str(),
                request.execution_handle.as_str(),
            ) {
                Step::Launch { request, local }
            } else {
                refuse(
                    CistellaError::Contract("fd bundle bound to a different launch".to_owned()),
                )
            },
        }
    }

    /// Continues a launch after the backend spawned the harness: the
    /// execution handle is bound to the attempt.
    pub fn launched(&mut self, request: LaunchRequest, outcome: Result<ExecutionHandle>) -> (s:
        Step)
        requires
            old(self).wf(),
        ensures
            final(self).wf(),
            match outcome {
                Err(e) => s == (Step::Refuse { error: e, drain: false }) && final(self)@
                    == old(self)@,
                Ok(local) => final(self)@ == with_execution(
                    old(self)@,
                    request,
                    local.deep_view(),
                ) && (s matches Step::Respond(Response::Execution(x)) && x@
                    == request.execution_handle.deep_view()),
            },
    {
        match outcome {
            Err(e) => Step::Refuse { error: e, drain: false },
            Ok(local) => {
                let fw = request.execution_handle.as_str().to_owned();
                self.executions.insert(
                    fw.as_str(),
                    ExecBinding {
                        local,
                        unit: request.unit_handle.0,
                        key: request.reconciliation_key,
                        argv: request.argv,
                        workdir: request.workdir,
                    },
                );
                Step::Respond(Response::Execution(fw))
            },
        }
    }

    /// Answers an await with the schema shape of its outcome.
    pub fn awaited(outcome: Result<ExecutionOutcome>) -> (s: Step)
        ensures
            match outcome {
                Err(e) => s == (Step::Refuse { error: e, drain: false }),
                Ok(ExecutionOutcome::Exited(code)) => s == Step::Respond(
                    Response::ExitStatus(code),
                ),
                Ok(ExecutionOutcome::Signaled(signum)) => s == Step::Respond(
                    Response::Signal(signum),
                ),
            },
    {
        match outcome {
            Err(e) => Step::Refuse { error: e, drain: false },
            Ok(ExecutionOutcome::Exited(code)) => Step::Respond(Response::ExitStatus(code)),
            Ok(ExecutionOutcome::Signaled(signum)) => Step::Respond(Response::Signal(signum)),
        }
    }

    /// Drops the executions launched on a unit.
    fn drop_executions(&mut self, unit: &str)
        requires
            old(self).wf(),
        ensures
            final(self).wf(),
            final(self)@ == (GuestView {
                executions: without_unit(old(self)@.executions, unit@),
                ..old(self)@
            }),
    {
        let ghost all = self.executions@;
        let names = self.executions.keys();
        let ghost nv = names.deep_view();
        let mut i: usize = 0;
        while i < names.len()
            invariant
                self.wf(),
                self.units@ == old(self).units@,
                self.channel == old(self).channel,
                all == old(self).executions@,
                nv == names.deep_view(),
                i <= names@.len(),
                forall|k: Seq<char>| #[trigger] nv.contains(k) <==> all.dom().contains(k),
                forall|k: Seq<char>| #[trigger]
                    self.executions@.dom().contains(k) <==> (all.dom().contains(k) && !(all[k].unit
                        == unit@ && nv.take(i as int).contains(k))),
                forall|k: Seq<char>| #[trigger]
                    self.executions@.dom().contains(k) ==> self.executions@[k] == all[k],
            decreases names.len() - i,
        {
            let ghost before = self.executions@;
            let ghost name = nv[i as int];
            assert(name == names@[i as int]@);
            assert(nv.contains(name));
            let hit = match self.executions.get(names[i].as_str()) {
                Some(b) => text::eq(b.unit.as_str(), unit),
                None => false,
            };
            if hit {
                self.executions.remove(names[i].as_str());
            }
            assert forall|k: Seq<char>| #[trigger]
                self.executions@.dom().contains(k) <==> (all.dom().contains(k) && !(all[k].unit
                    == unit@ && nv.take(i + 1).contains(k))) by {
                let now = nv.take(i + 1);
                let was = nv.take(i as int);
                assert(now =~= was.push(name));
                if now.contains(k) {
                    let j = choose|j: int| 0 <= j < now.len() && now[j] == k;
                    if j < i {
                        assert(was[j] == k);
                    }
                }
                if was.contains(k) {
                    let j = choose|j: int| 0 <= j < was.len() && was[j] == k;
                    assert(now[j] == k);
                }
                assert(now[i as int] == name);
                assert(before.dom().contains(k) <==> (all.dom().contains(k) && !(all[k].unit
                    == unit@ && nv.take(i as int).contains(k))));
            }
            i = i + 1;
        }
        assert(nv.take(i as int) =~= nv);
        assert(self.executions@ =~= without_unit(all, unit@));
    }

    /// Continues a remove: a confirmed removal evicts the live binding into
    /// a tombstone and drops the unit's executions; a failed one keeps the
    /// live handle for retry; a repeat over a tombstone changes nothing.
    pub fn removed(
        &mut self,
        unit: UnitHandle,
        local: UnitHandle,
        evict: bool,
        outcome: Result<RemovedAttestation>,
    ) -> (s: Step)
        requires
            old(self).wf(),
        ensures
            final(self).wf(),
            match outcome {
                Err(e) => s == (Step::Refuse { error: e, drain: false }) && final(self)@
                    == old(self)@,
                Ok(attestation) => s == Step::Respond(Response::Removed(attestation))
                    && final(self)@ == if evict {
                    with_tombstone(
                        old(self)@,
                        unit.deep_view(),
                        local.deep_view(),
                        attestation.unit_identity@,
                    )
                } else {
                    old(self)@
                },
            },
    {
        match outcome {
            Err(e) => Step::Refuse { error: e, drain: false },
            Ok(attestation) => {
                if evict {
                    self.units.insert(
                        unit.as_str(),
                        UnitBinding::Removed {
                            local,
                            unit_identity: attestation.unit_identity.clone(),
                        },
                    );
                    self.drop_executions(unit.as_str());
                }
                Step::Respond(Response::Removed(attestation))
            },
        }
    }
}

// ---------------------------------------------------------------------
// Disconnect
// ---------------------------------------------------------------------

/// Whether some handle is live: a bound unit or an execution. Tombstones are
/// absence records, not live state.
pub open spec fn live_state(g: GuestView) -> bool {
    ||| exists|k: Seq<char>| #[trigger] g.units.dom().contains(k) && g.units[k] is Live
    ||| exists|k: Seq<char>| #[trigger] g.executions.dom().contains(k)
}

/// Whether an execution was launched on a unit.
pub open spec fn has_execution(g: GuestView, unit: Seq<char>) -> bool {
    exists|k: Seq<char>| #[trigger]
        g.executions.dom().contains(k) && g.executions[k].unit == unit
}

/// Whether the disconnect sweep takes a unit: live, and without live
/// executions.
pub open spec fn swept(g: GuestView, unit: Seq<char>) -> bool {
    g.units.dom().contains(unit) && g.units[unit] is Live && !has_execution(g, unit)
}

/// One unit of the disconnect sweep.
#[derive(Debug)]
pub struct SweepTarget {
    /// Framework unit handle.
    pub handle: String,
    /// Local backend handle.
    pub local: UnitHandle,
    /// Reconciliation key of the creating attempt.
    pub key: ReconciliationKey,
}

/// What a sweep target says.
pub struct TargetView {
    pub handle: Seq<char>,
    pub local: Seq<char>,
    pub key: Seq<char>,
}

impl DeepView for SweepTarget {
    type V = TargetView;

    open spec fn deep_view(&self) -> TargetView {
        TargetView {
            handle: self.handle@,
            local: self.local.deep_view(),
            key: self.key.deep_view(),
        }
    }
}

/// Whether a target is a swept unit with its binding's local handle and key.
pub open spec fn target_of(g: GuestView, t: TargetView) -> bool {
    swept(g, t.handle) && (g.units[t.handle] matches BindingView::Live { local, key, .. } && t.local
        == local && t.key == key)
}

/// What the sweep of one unit came to.
#[derive(Debug)]
pub struct Swept {
    /// Framework unit handle.
    pub handle: String,
    /// Outcome of terminate.
    pub terminated: Result<()>,
    /// Outcome of remove, attempted even after a failed terminate.
    pub removed: Result<()>,
}

/// Whether a unit fully converged.
pub open spec fn converged(x: Swept) -> bool {
    x.terminated is Ok && x.removed is Ok
}

/// Whether a handle converged in the sweep.
pub open spec fn cleared(outcomes: Seq<Swept>, unit: Seq<char>) -> bool {
    exists|i: int|
        0 <= i < outcomes.len() && converged(#[trigger] outcomes[i]) && outcomes[i].handle@ == unit
}

/// First failure of the sweep at or after `k`: the terminate failure of the
/// first unit that did not converge, else its remove failure.
pub open spec fn first_failure(outcomes: Seq<Swept>, k: int) -> Option<CistellaError>
    decreases outcomes.len() - k,
{
    if k < 0 || k >= outcomes.len() {
        None
    } else {
        match (outcomes[k].terminated, outcomes[k].removed) {
            (Err(e), _) => Some(e),
            (Ok(_), Err(e)) => Some(e),
            (Ok(_), Ok(_)) => first_failure(outcomes, k + 1),
        }
    }
}

/// Tables after the sweep: converged units dropped, and executions of units
/// that are bound no more.
pub open spec fn after_sweep(g: GuestView, outcomes: Seq<Swept>) -> GuestView {
    let units = Map::new(
        |k: Seq<char>| g.units.dom().contains(k) && !cleared(outcomes, k),
        |k: Seq<char>| g.units[k],
    );
    GuestView {
        units,
        executions: Map::new(
            |k: Seq<char>|
                g.executions.dom().contains(k) && units.dom().contains(g.executions[k].unit),
            |k: Seq<char>| g.executions[k],
        ),
        channel: g.channel,
    }
}

impl IsolatorGuest {
    /// True when any framework handle is live (bound units or executions). A
    /// guest holding only tombstones exits quietly on clean end of input.
    #[must_use]
    pub fn has_live_state(&self) -> (b: bool)
        requires
            self.wf(),
        ensures
            b == live_state(self@),
    {
        let execs = self.executions.keys();
        if execs.len() > 0 {
            assert(execs.deep_view()[0] == execs@[0]@);
            assert(execs.deep_view().contains(execs@[0]@));
            assert(self@.executions.dom().contains(execs@[0]@));
            return true;
        }
        assert forall|k: Seq<char>| !(#[trigger] self@.executions.dom().contains(k)) by {
            assert(!execs.deep_view().contains(k));
        }
        let names = self.units.keys();
        let ghost nv = names.deep_view();
        let mut i: usize = 0;
        while i < names.len()
            invariant
                self.wf(),
                nv == names.deep_view(),
                i <= names@.len(),
                forall|k: Seq<char>| #[trigger] nv.contains(k) <==> self@.units.dom().contains(k),
                forall|j: int|
                    0 <= j < i ==> self@.units.dom().contains(#[trigger] nv[j])
                        && !(self@.units[nv[j]] is Live),
            decreases names.len() - i,
        {
            assert(nv[i as int] == names@[i as int]@);
            assert(nv.contains(nv[i as int]));
            match self.units.get(names[i].as_str()) {
                Some(UnitBinding::Live { .. }) => {
                    return true;
                },
                _ => {},
            }
            i = i + 1;
        }
        assert forall|k: Seq<char>| #[trigger] self@.units.dom().contains(k) implies !(
        self@.units[k] is Live) by {
            assert(nv.contains(k));
            let j = choose|j: int| 0 <= j < nv.len() && nv[j] == k;
            assert(self@.units.dom().contains(nv[j]));
        }
        false
    }

    fn runs_on(&self, unit: &str) -> (b: bool)
        requires
            self.wf(),
        ensures
            b == has_execution(self@, unit@),
    {
        let names = self.executions.keys();
        let ghost nv = names.deep_view();
        let mut i: usize = 0;
        while i < names.len()
            invariant
                self.wf(),
                nv == names.deep_view(),
                i <= names@.len(),
                forall|k: Seq<char>| #[trigger]
                    nv.contains(k) <==> self@.executions.dom().contains(k),
                forall|j: int|
                    0 <= j < i ==> self@.executions[#[trigger] nv[j]].unit != unit@,
            decreases names.len() - i,
        {
            assert(nv[i as int] == names@[i as int]@);
            assert(nv.contains(nv[i as int]));
            match self.executions.get(names[i].as_str()) {
                Some(b) => {
                    if text::eq(b.unit.as_str(), unit) {
                        return true;
                    }
                },
                None => {},
            }
            i = i + 1;
        }
        assert forall|k: Seq<char>| #[trigger] self@.executions.dom().contains(k) implies
            self@.executions[k].unit != unit@ by {
            assert(nv.contains(k));
            let j = choose|j: int| 0 <= j < nv.len() && nv[j] == k;
            assert(self@.executions[nv[j]].unit != unit@);
        }
        false
    }

    /// Lists the units that a disconnect converges: every live unit without
    /// live executions. Tombstones are already clean; units with live
    /// executions are left running and bound (disconnect is
    /// detach-without-kill).
    pub fn converge_all(&self) -> (out: Vec<SweepTarget>)
        requires
            self.wf(),
        ensures
            forall|i: int|
                0 <= i < out.deep_view().len() ==> target_of(self@, #[trigger] out.deep_view()[i]),
            forall|i: int, j: int|
                0 <= i < j < out.deep_view().len() ==> (#[trigger] out.deep_view()[i]).handle != (
                #[trigger] out.deep_view()[j]).handle,
            forall|unit: Seq<char>| #[trigger]
                swept(self@, unit) ==> exists|i: int|
                    0 <= i < out.deep_view().len() && (#[trigger] out.deep_view()[i]).handle == unit,
    {
        let names = self.units.keys();
        let ghost nv = names.deep_view();
        let mut out: Vec<SweepTarget> = Vec::new();
        let mut i: usize = 0;
        while i < names.len()
            invariant
                self.wf(),
                nv == names.deep_view(),
                nv.no_duplicates(),
                i <= names@.len(),
                forall|k: Seq<char>| #[trigger] nv.contains(k) <==> self@.units.dom().contains(k),
                forall|j: int|
                    0 <= j < out.deep_view().len() ==> target_of(
                        self@,
                        #[trigger] out.deep_view()[j],
                    ) && nv.take(i as int).contains(out.deep_view()[j].handle),
                forall|a: int, b: int|
                    0 <= a < b < out.deep_view().len() ==> (#[trigger] out.deep_view()[a]).handle
                        != (#[trigger] out.deep_view()[b]).handle,
                forall|j: int|
                    #![trigger nv[j]]
                    0 <= j < i && swept(self@, nv[j]) ==> exists|a: int|
                        0 <= a < out.deep_view().len() && (#[trigger] out.deep_view()[a]).handle
                            == nv[j],
            decreases names.len() - i,
        {
            let ghost name = nv[i as int];
            let ghost before = out.deep_view();
            let ghost was = nv.take(i as int);
            let ghost now = nv.take(i + 1);
            assert(name == names@[i as int]@);
            assert(nv.contains(name));
            assert(now =~= was.push(name));
            proof {
                assert forall|j: int| 0 <= j < before.len() implies now.contains(
                    (#[trigger] before[j]).handle,
                ) && before[j].handle != name by {
                    let h = before[j].handle;
                    assert(was.contains(h));
                    let a = choose|a: int| 0 <= a < was.len() && was[a] == h;
                    assert(now[a] == h);
                    assert(nv[a] == h);
                    assert(nv[a] != nv[i as int]);
                }
                assert(now[i as int] == name);
            }
            let busy = self.runs_on(names[i].as_str());
            let mut taken = false;
            match self.units.get(names[i].as_str()) {
                Some(UnitBinding::Live { local, key, .. }) => {
                    if !busy {
                        out.push(
                            SweepTarget {
                                handle: names[i].clone(),
                                local: local.clone(),
                                key: key.clone(),
                            },
                        );
                        taken = true;
                    }
                },
                _ => {},
            }
            proof {
                let after = out.deep_view();
                if taken {
                    assert(after.len() == before.len() + 1);
                    assert(after.take(before.len() as int) =~= before);
                    assert forall|j: int| 0 <= j < before.len() implies #[trigger] after[j]
                        == before[j] by {
                        assert(after.take(before.len() as int)[j] == before[j]);
                    }
                    assert(after[before.len() as int].handle == name);
                } else {
                    assert(after =~= before);
                }
                assert forall|j: int|
                    #![trigger nv[j]]
                    0 <= j < i + 1 && swept(self@, nv[j]) implies exists|a: int|
                    0 <= a < after.len() && (#[trigger] after[a]).handle == nv[j] by {
                    if j < i {
                        let a = choose|a: int|
                            0 <= a < before.len() && (#[trigger] before[a]).handle == nv[j];
                        assert(after[a] == before[a]);
                    } else {
                        assert(after[before.len() as int].handle == nv[j]);
                    }
                }
            }
            i = i + 1;
        }
        assert forall|unit: Seq<char>| #[trigger] swept(self@, unit) implies exists|a: int|
            0 <= a < out.deep_view().len() && (#[trigger] out.deep_view()[a]).handle == unit by {
            assert(nv.contains(unit));
            let j = choose|j: int| 0 <= j < nv.len() && nv[j] == unit;
            assert(swept(self@, nv[j]));
        }
        out
    }

    /// Settles the sweep: only fully converged units clear, and executions
    /// follow their unit; a failed unit keeps its live binding, so that a
    /// second sweep still has a handle for another attempt. The first
    /// backend failure reports.
    pub fn settle_sweep(&mut self, outcomes: Vec<Swept>) -> (r: Result<()>)
        requires
            old(self).wf(),
        ensures
            final(self).wf(),
            final(self)@ == after_sweep(old(self)@, outcomes@),
            match first_failure(outcomes@, 0) {
                Some(e) => r == Err::<(), CistellaError>(e),
                None => r is Ok,
            },
    {
        let ghost all = outcomes@;
        let ghost g = self@;
        let mut k: usize = 0;
        while k < outcomes.len()
            invariant
                self.wf(),
                all == outcomes@,
                k <= outcomes@.len(),
                self.executions@ == g.executions,
                self.channel == g.channel,
                forall|u: Seq<char>| #[trigger]
                    self.units@.dom().contains(u) <==> g.units.dom().contains(u) && !cleared(
                        all.take(k as int),
                        u,
                    ),
                forall|u: Seq<char>| #[trigger]
                    self.units@.dom().contains(u) ==> self.units@[u] == g.units[u],
            decreases outcomes.len() - k,
        {
            let ghost before = self.units@;
            let ghost x = all[k as int];
            let ok = match (&outcomes[k].terminated, &outcomes[k].removed) {
                (Ok(_), Ok(_)) => true,
                _ => false,
            };
            if ok {
                self.units.remove(outcomes[k].handle.as_str());
            }
            assert forall|u: Seq<char>| #[trigger]
                self.units@.dom().contains(u) <==> g.units.dom().contains(u) && !cleared(
                    all.take(k + 1),
                    u,
                ) by {
                let was = all.take(k as int);
                let now = all.take(k + 1);
                assert(now =~= was.push(x));
                assert(before.dom().contains(u) <==> g.units.dom().contains(u) && !cleared(was, u));
                if cleared(was, u) {
                    let i = choose|i: int|
                        0 <= i < was.len() && converged(#[trigger] was[i]) && was[i].handle@ == u;
                    assert(now[i] == was[i]);
                }
                if cleared(now, u) {
                    let i = choose|i: int|
                        0 <= i < now.len() && converged(#[trigger] now[i]) && now[i].handle@ == u;
                    if i < k {
                        assert(was[i] == now[i]);
                    }
                }
                assert(now[k as int] == x);
            }
            k = k + 1;
        }
        assert(all.take(k as int) =~= all);
        let ghost swept_units = self.units@;
        assert(swept_units =~= after_sweep(g, all).units);
        self.drop_orphans();
        assert(self.executions@ =~= after_sweep(g, all).executions);
        first_error(outcomes)
    }

    /// Drops the executions of units that are bound no more.
    fn drop_orphans(&mut self)
        requires
            old(self).wf(),
        ensures
            final(self).wf(),
            final(self)@ == (GuestView {
                executions: Map::new(
                    |k: Seq<char>|
                        old(self)@.executions.dom().contains(k) && old(self)@.units.dom().contains(
                            old(self)@.executions[k].unit,
                        ),
                    |k: Seq<char>| old(self)@.executions[k],
                ),
                ..old(self)@
            }),
    {
        let ghost all = self.executions@;
        let ghost units = self.units@;
        let names = self.executions.keys();
        let ghost nv = names.deep_view();
        let mut i: usize = 0;
        while i < names.len()
            invariant
                self.wf(),
                self.units@ == units,
                units == old(self).units@,
                self.channel == old(self).channel,
                all == old(self).executions@,
                nv == names.deep_view(),
                i <= names@.len(),
                forall|k: Seq<char>| #[trigger] nv.contains(k) <==> all.dom().contains(k),
                forall|k: Seq<char>| #[trigger]
                    self.executions@.dom().contains(k) <==> (all.dom().contains(k) && !(
                    !units.dom().contains(all[k].unit) && nv.take(i as int).contains(k))),
                forall|k: Seq<char>| #[trigger]
                    self.executions@.dom().contains(k) ==> self.executions@[k] == all[k],
            decreases names.len() - i,
        {
            let ghost before = self.executions@;
            let ghost name = nv[i as int];
            assert(name == names@[i as int]@);
            assert(nv.contains(name));
            let orphan = match self.executions.get(names[i].as_str()) {
                Some(b) => match self.units.get(b.unit.as_str()) {
                    Some(_) => false,
                    None => true,
                },
                None => false,
            };
            if orphan {
                self.executions.remove(names[i].as_str());
            }
            assert forall|k: Seq<char>| #[trigger]
                self.executions@.dom().contains(k) <==> (all.dom().contains(k) && !(
                !units.dom().contains(all[k].unit) && nv.take(i + 1).contains(k))) by {
                let now = nv.take(i + 1);
                let was = nv.take(i as int);
                assert(now =~= was.push(name));
                if now.contains(k) {
                    let j = choose|j: int| 0 <= j < now.len() && now[j] == k;
                    if j < i {
                        assert(was[j] == k);
                    }
                }
                if was.contains(k) {
                    let j = choose|j: int| 0 <= j < was.len() && was[j] == k;
                    assert(now[j] == k);
                }
                assert(now[i as int] == name);
                assert(before.dom().contains(k) <==> (all.dom().contains(k) && !(
                !units.dom().contains(all[k].unit) && was.contains(k))));
            }
            i = i + 1;
        }
        assert(nv.take(i as int) =~= nv);
        assert(self.executions@ =~= Map::new(
            |k: Seq<char>| all.dom().contains(k) && units.dom().contains(all[k].unit),
            |k: Seq<char>| all[k],
        ));
    }
}

/// First failure of a sweep, in order.
fn first_error(outcomes: Vec<Swept>) -> (r: Result<()>)
    ensures
        match first_failure(outcomes@, 0) {
            Some(e) => r == Err::<(), CistellaError>(e),
            None => r is Ok,
        },
{
    let ghost all = outcomes@;
    let mut list = outcomes;
    let mut k: usize = 0;
    while k < list.len()
        invariant
            all == outcomes@,
            all == list@,
            k <= list@.len(),
            first_failure(all, 0) == first_failure(all, k as int),
        decreases list.len() - k,
    {
        let ok = match (&list[k].terminated, &list[k].removed) {
            (Ok(_), Ok(_)) => true,
            _ => false,
        };
        if !ok {
            let x = list.swap_remove(k);
            match x.terminated {
                Err(e) => {
                    return Err(e);
                },
                Ok(_) => {},
            }
            return x.removed;
        }
        k = k + 1;
    }
    Ok(())
}

// ---------------------------------------------------------------------
// Laws
// ---------------------------------------------------------------------

/// A unit handle the guest does not know refuses every operation but
/// `create`, before any backend call.
pub proof fn law_unknown_units_never_reach_the_backend(
    g: GuestView,
    op: Seq<char>,
    payload: Payload,
    unit: Seq<char>,
    s: Step,
)
    requires
        dispatched(g, op, Some(payload), s),
        !g.units.dom().contains(unit),
        match payload {
            Payload::Initiate(req) => req.unit_handle.deep_view() == unit,
            Payload::Launch(req) => req.unit_handle.deep_view() == unit,
            Payload::Inspect(req) => req.unit_handle.deep_view() == unit,
            Payload::State(req) => req.unit_handle.deep_view() == unit,
            Payload::Terminate(req) => req.unit_handle.deep_view() == unit,
            Payload::Remove(req) => req.unit_handle.deep_view() == unit,
            _ => false,
        },
    ensures
        !reaches_out(s),
        s is Refuse,
{
}

/// Replaying a create answers with the same handle, calls no backend and
/// leaves the tables alone, once the unit is bound.
pub proof fn law_create_replays(g: GuestView, req: CreateRequest, local: Seq<char>, s: Step)
    requires
        handle_shape(req.unit_handle.deep_view()),
        dispatched(with_unit(g, req, local), OP_CREATE@, Some(Payload::Create(req)), s),
    ensures
        s matches Step::Respond(Response::Unit(h)) && h@ == req.unit_handle.deep_view(),
{
}

/// A divergent create over a bound handle never rebinds it and never reaches
/// the backend.
pub proof fn law_divergent_create_refuses(
    g: GuestView,
    req: CreateRequest,
    local: Seq<char>,
    other: CreateRequest,
    s: Step,
)
    requires
        other.unit_handle.deep_view() == req.unit_handle.deep_view(),
        other.reconciliation_key.deep_view() != req.reconciliation_key.deep_view()
            || other.spec.deep_view() != req.spec.deep_view(),
        dispatched(with_unit(g, req, local), OP_CREATE@, Some(Payload::Create(other)), s),
    ensures
        s is Refuse,
{
}

/// A removed unit is never resurrected: its handle refuses `create`,
/// `initiate` and `execute_launch`; `inspect` and `state` report absence
/// without backend contact; `terminate` and `remove` reach only the local
/// handle that the tombstone retains, and no remove evicts again.
pub proof fn law_removed_units_stay_removed(
    g: GuestView,
    unit: Seq<char>,
    local: Seq<char>,
    identity: Seq<char>,
    op: Seq<char>,
    payload: Payload,
    s: Step,
)
    requires
        dispatched(with_tombstone(g, unit, local, identity), op, Some(payload), s),
    ensures
        payload matches Payload::Create(req) && req.unit_handle.deep_view() == unit ==> s is Refuse,
        payload matches Payload::Initiate(req) && req.unit_handle.deep_view() == unit
            ==> s is Refuse,
        payload matches Payload::Launch(req) && req.unit_handle.deep_view() == unit ==> s is Refuse,
        payload matches Payload::Inspect(req) && req.unit_handle.deep_view() == unit
            ==> !reaches_out(s),
        payload matches Payload::State(req) && req.unit_handle.deep_view() == unit
            ==> !reaches_out(s),
        payload matches Payload::Terminate(req) && req.unit_handle.deep_view() == unit ==> (
        s matches Step::Terminate { local: l, .. } ==> l.deep_view() == local),
        payload matches Payload::Remove(req) && req.unit_handle.deep_view() == unit ==> (
        s matches Step::Remove { local: l, evict, .. } ==> l.deep_view() == local && !evict),
{
}

/// Executions die with their unit: after a removal no execution of the unit
/// is bound, and every other execution keeps its binding.
pub proof fn law_executions_die_with_their_unit(
    g: GuestView,
    unit: Seq<char>,
    local: Seq<char>,
    identity: Seq<char>,
    execution: Seq<char>,
)
    ensures
        ({
            let after = with_tombstone(g, unit, local, identity);
            &&& !has_execution(after, unit)
            &&& g.executions.dom().contains(execution) && g.executions[execution].unit != unit
                ==> after.executions.dom().contains(execution) && after.executions[execution]
                == g.executions[execution]
        }),
{
}

/// A launch replays only the identical attempt, and a divergent one refuses
/// instead of orphaning a live child.
pub proof fn law_launch_replays(
    g: GuestView,
    req: LaunchRequest,
    local: Seq<char>,
    again: LaunchRequest,
    s: Step,
)
    requires
        again.execution_handle.deep_view() == req.execution_handle.deep_view(),
        dispatched(
            with_execution(g, req, local),
            OP_EXECUTE_LAUNCH@,
            Some(Payload::Launch(again)),
            s,
        ),
    ensures
        !(s is LaunchBundle),
        s is ReplayBundle ==> again.unit_handle.deep_view() == req.unit_handle.deep_view()
            && again.argv.deep_view() == req.argv.deep_view()
            && again.workdir.deep_view() == req.workdir.deep_view()
            && again.reconciliation_key.deep_view() == req.reconciliation_key.deep_view(),
{
}

/// A launch that refuses before it takes its bundle leaves no stale bundle
/// for the next one: where there is a channel, one queued bundle is drained.
pub proof fn law_refused_launches_drain(g: GuestView, payload: Option<Payload>, s: Step)
    requires
        g.channel,
        dispatched(g, OP_EXECUTE_LAUNCH@, payload, s),
    ensures
        s matches Step::Refuse { drain, .. } ==> drain,
{
    reveal_strlit("isolator.create");
    reveal_strlit("isolator.initiate");
    reveal_strlit("isolator.execute_launch");
    assert(OP_CREATE@.len() == 15 && OP_INITIATE@.len() == 17);
    assert(OP_EXECUTE_LAUNCH@.len() == 23);
}

/// A sweep in which every unit converges leaves none of them bound, and a
/// sweep never touches a unit that still has executions unless it reports it
/// converged.
pub proof fn law_sweep_clears_converged(g: GuestView, outcomes: Seq<Swept>, unit: Seq<char>)
    ensures
        cleared(outcomes, unit) ==> !after_sweep(g, outcomes).units.dom().contains(unit),
        !cleared(outcomes, unit) && g.units.dom().contains(unit) ==> after_sweep(
            g,
            outcomes,
        ).units.dom().contains(unit) && after_sweep(g, outcomes).units[unit] == g.units[unit],
{
}

/// The operations go by these names, and no other text names one.
pub proof fn law_operations_go_by_name(op: Seq<char>)
    ensures
        operation_named(op) == Some(Operation::Create) <==> op == "isolator.create"@,
        operation_named(op) == Some(Operation::Initiate) <==> op == "isolator.initiate"@,
        operation_named(op) == Some(Operation::Launch) <==> op == "isolator.execute_launch"@,
        operation_named(op) == Some(Operation::Await) <==> op == "isolator.await_result"@,
        operation_named(op) == Some(Operation::Inspect) <==> op == "isolator.inspect"@,
        operation_named(op) == Some(Operation::State) <==> op == "isolator.state"@,
        operation_named(op) == Some(Operation::Terminate) <==> op == "isolator.terminate"@,
        operation_named(op) == Some(Operation::Remove) <==> op == "isolator.remove"@,
{
    reveal_strlit("isolator.create");
    reveal_strlit("isolator.initiate");
    reveal_strlit("isolator.execute_launch");
    reveal_strlit("isolator.await_result");
    reveal_strlit("isolator.inspect");
    reveal_strlit("isolator.state");
    reveal_strlit("isolator.terminate");
    reveal_strlit("isolator.remove");
    assert("isolator.create"@[9] == 'c' && "isolator.remove"@[9] == 'r');
    assert("isolator.create"@.len() == 15 && "isolator.remove"@.len() == 15);
    assert("isolator.initiate"@.len() == 17 && "isolator.inspect"@.len() == 16);
    assert("isolator.execute_launch"@.len() == 23 && "isolator.await_result"@.len() == 21);
    assert("isolator.state"@.len() == 14 && "isolator.terminate"@.len() == 18);
}

/// A handle is one to 128 lower-case letters and digits.
pub proof fn law_handles_are_plain(handle: Seq<char>)
    ensures
        handle_shape(handle) <==> 0 < handle.len() <= 128 && forall|i: int|
            0 <= i < handle.len() ==> ('a' <= #[trigger] handle[i] <= 'z' || '0' <= handle[i]
                <= '9'),
{
    reveal_strlit("");
    assert(forall|c: char| !""@.contains(c));
    if forall|i: int|
        0 <= i < handle.len() ==> ('a' <= #[trigger] handle[i] <= 'z' || '0' <= handle[i] <= '9') {
        assert(text::all_in_class(handle, false, true, true, ""@));
        assert(vstd::utf8::is_ascii_chars(handle));
        vstd::utf8::is_ascii_chars_encode_utf8(handle);
    } else {
        let i = choose|i: int|
            0 <= i < handle.len() && !('a' <= #[trigger] handle[i] <= 'z' || '0' <= handle[i]
                <= '9');
        assert(!text::in_class(handle[i], false, true, true, ""@));
    }
}

/// What is asked of a live unit is asked of its local handle, with the key and
/// the numbers of the request, whatever else the guest holds.
pub proof fn law_live_units_are_served(
    g: GuestView,
    unit: Seq<char>,
    local: Seq<char>,
    key: Seq<char>,
    spec_view: SpecView,
    op: Seq<char>,
    payload: Payload,
    s: Step,
)
    requires
        handle_shape(unit),
        g.units.dom().contains(unit),
        g.units[unit] == (BindingView::Live { local, key, spec: spec_view }),
        dispatched(g, op, Some(payload), s),
    ensures
        op == "isolator.initiate"@ && (payload matches Payload::Initiate(req)
            && req.unit_handle.deep_view() == unit) ==> (s matches Step::Initiate { local: l, key: k }
            && l.deep_view() == local && k == (payload->Initiate_0).reconciliation_key),
        op == "isolator.inspect"@ && (payload matches Payload::Inspect(req)
            && req.unit_handle.deep_view() == unit) ==> (s matches Step::Inspect { local: l }
            && l.deep_view() == local),
        op == "isolator.state"@ && (payload matches Payload::State(req)
            && req.unit_handle.deep_view() == unit) ==> (s matches Step::State { local: l }
            && l.deep_view() == local),
        op == "isolator.terminate"@ && (payload matches Payload::Terminate(req)
            && req.unit_handle.deep_view() == unit) ==> (s matches Step::Terminate {
            local: l,
            grace_ms,
            key: k,
        } && l.deep_view() == local && grace_ms == (payload->Terminate_0).grace_ms && k == (
        payload->Terminate_0).reconciliation_key),
        op == "isolator.remove"@ && (payload matches Payload::Remove(req)
            && req.unit_handle.deep_view() == unit) ==> (s matches Step::Remove {
            unit: u,
            local: l,
            key: k,
            evict,
        } && u.deep_view() == unit && l.deep_view() == local && evict && k == (
        payload->Remove_0).reconciliation_key),
{
    law_operations_go_by_name(op);
}

/// With a channel open, a launch of a new execution on a live unit goes ahead
/// with the request as it came and the unit's local handle.
pub proof fn law_new_launches_go_ahead(
    g: GuestView,
    req: LaunchRequest,
    local: Seq<char>,
    key: Seq<char>,
    spec_view: SpecView,
    s: Step,
)
    requires
        g.channel,
        handle_shape(req.unit_handle.deep_view()),
        g.units.dom().contains(req.unit_handle.deep_view()),
        g.units[req.unit_handle.deep_view()] == (BindingView::Live { local, key, spec: spec_view }),
        handle_shape(req.execution_handle.deep_view()),
        !g.executions.dom().contains(req.execution_handle.deep_view()),
        dispatched(g, "isolator.execute_launch"@, Some(Payload::Launch(req)), s),
    ensures
        s matches Step::LaunchBundle { request, local: l } && request == req && l.deep_view()
            == local,
{
    law_operations_go_by_name("isolator.execute_launch"@);
}

/// Without a channel no launch goes ahead.
pub proof fn law_launches_need_a_channel(g: GuestView, payload: Payload, s: Step)
    requires
        !g.channel,
        payload is Launch,
        dispatched(g, "isolator.execute_launch"@, Some(payload), s),
    ensures
        s is Refuse,
{
    law_operations_go_by_name("isolator.execute_launch"@);
}

/// A unit that is not bound yet is looked for before it is created, and an
/// execution that is bound is awaited by its local handle.
pub proof fn law_first_creates_locate_and_awaits_resolve(g: GuestView, s: Step)
    ensures
        forall|req: CreateRequest| #[trigger]
            handle_shape(req.unit_handle.deep_view()) && !g.units.dom().contains(
                req.unit_handle.deep_view(),
            ) && dispatched(g, "isolator.create"@, Some(Payload::Create(req)), s) ==> s
                == Step::Locate(req),
        forall|req: AwaitRequest| #[trigger]
            handle_shape(req.execution_handle.deep_view()) && g.executions.dom().contains(
                req.execution_handle.deep_view(),
            ) && dispatched(g, "isolator.await_result"@, Some(Payload::Await(req)), s) ==> (
            s matches Step::Await { execution } && execution.deep_view()
                == g.executions[req.execution_handle.deep_view()].local),
{
    law_operations_go_by_name("isolator.create"@);
    law_operations_go_by_name("isolator.await_result"@);
}

/// A request whose payload is another operation's, or none, is refused, and so
/// is an operation of no name.
pub proof fn law_strange_requests_are_refused(
    g: GuestView,
    op: Seq<char>,
    payload: Option<Payload>,
    s: Step,
)
    requires
        dispatched(g, op, payload, s),
    ensures
        payload is None ==> s is Refuse,
        s matches Step::Locate(_) ==> op == "isolator.create"@,
        s matches Step::Initiate { .. } ==> op == "isolator.initiate"@,
        (s is LaunchBundle || s is ReplayBundle) ==> op == "isolator.execute_launch"@,
        s is Await ==> op == "isolator.await_result"@,
        s is Inspect ==> op == "isolator.inspect"@,
        s is State ==> op == "isolator.state"@,
        s is Terminate ==> op == "isolator.terminate"@,
        s is Remove ==> op == "isolator.remove"@,
        s matches Step::Refuse { drain, .. } && drain ==> op == "isolator.execute_launch"@,
{
    law_operations_go_by_name(op);
}

/// A bound unit or execution is found again under its handle with what it was
/// bound to, and nothing else changes.
pub proof fn law_bindings_are_found_again(
    g: GuestView,
    create: CreateRequest,
    launch: LaunchRequest,
    local: Seq<char>,
    other: Seq<char>,
)
    ensures
        ({
            let u = with_unit(g, create, local);
            &&& u.units.dom().contains(create.unit_handle.deep_view())
            &&& u.units[create.unit_handle.deep_view()] == (BindingView::Live {
                local,
                key: create.reconciliation_key.deep_view(),
                spec: create.spec.deep_view(),
            })
            &&& other != create.unit_handle.deep_view() ==> (u.units.dom().contains(other)
                == g.units.dom().contains(other)) && u.units[other] == g.units[other]
            &&& u.executions == g.executions
            &&& u.channel == g.channel
        }),
        ({
            let x = with_execution(g, launch, local);
            let e = x.executions[launch.execution_handle.deep_view()];
            &&& x.executions.dom().contains(launch.execution_handle.deep_view())
            &&& e.local == local
            &&& e.unit == launch.unit_handle.deep_view()
            &&& e.key == launch.reconciliation_key.deep_view()
            &&& e.argv == launch.argv.deep_view()
            &&& e.workdir == launch.workdir.deep_view()
            &&& other != launch.execution_handle.deep_view() ==> (x.executions.dom().contains(other)
                == g.executions.dom().contains(other)) && x.executions[other] == g.executions[other]
            &&& x.units == g.units
            &&& x.channel == g.channel
        }),
{
}

/// A removed unit is remembered with its local handle and identity, and what
/// belongs to other units stays.
pub proof fn law_removal_spares_the_rest(
    g: GuestView,
    unit: Seq<char>,
    local: Seq<char>,
    identity: Seq<char>,
    other: Seq<char>,
)
    ensures
        ({
            let after = with_tombstone(g, unit, local, identity);
            &&& after.units.dom().contains(unit)
            &&& after.units[unit] == (BindingView::Removed { local, identity })
            &&& other != unit ==> (after.units.dom().contains(other) == g.units.dom().contains(other))
                && after.units[other] == g.units[other]
            &&& after.executions.dom().contains(other) <==> g.executions.dom().contains(other)
                && g.executions[other].unit != unit
            &&& after.executions.dom().contains(other) ==> after.executions[other]
                == g.executions[other]
            &&& after.channel == g.channel
        }),
{
}

/// A removed unit is still described: absent, inactive, under the identity it
/// had, with no session and no image.
pub proof fn law_removed_units_are_described(
    g: GuestView,
    unit: Seq<char>,
    local: Seq<char>,
    identity: Seq<char>,
    op: Seq<char>,
    payload: Payload,
    s: Step,
)
    requires
        handle_shape(unit),
        dispatched(with_tombstone(g, unit, local, identity), op, Some(payload), s),
    ensures
        op == "isolator.inspect"@ && (payload matches Payload::Inspect(req)
            && req.unit_handle.deep_view() == unit) ==> (s matches Step::Respond(
            Response::Snapshot(x),
        ) && x.unit_identity@ == identity && x.lifecycle == LifecycleState::Absent
            && x.active_state@ == "inactive"@ && x.session_id@.len() == 0 && x.image@.len() == 0),
        op == "isolator.state"@ && (payload matches Payload::State(req)
            && req.unit_handle.deep_view() == unit) ==> s == Step::Respond(
            Response::Lifecycle(LifecycleState::Absent),
        ),
{
    law_operations_go_by_name(op);
    reveal_strlit("");
}

/// The sweep takes the live units on which nothing runs, each under the local
/// handle and the key that it was bound with.
pub proof fn law_sweeps_take_idle_units(g: GuestView, t: TargetView)
    ensures
        target_of(g, t) <==> g.units.dom().contains(t.handle) && (
        g.units[t.handle] matches BindingView::Live { local, key, .. } && local == t.local && key
            == t.key) && forall|k: Seq<char>|
            g.executions.dom().contains(k) ==> (#[trigger] g.executions[k]).unit != t.handle,
{
    if forall|k: Seq<char>|
        g.executions.dom().contains(k) ==> (#[trigger] g.executions[k]).unit != t.handle {
        assert(!has_execution(g, t.handle)) by {
            if has_execution(g, t.handle) {
                let k = choose|k: Seq<char>| #[trigger]
                    g.executions.dom().contains(k) && g.executions[k].unit == t.handle;
                assert(g.executions[k].unit != t.handle);
            }
        }
    }
}

/// A sweep reports the first outcome that failed, its termination before its
/// removal, and none when every unit converged.
pub proof fn law_sweeps_report_the_first_failure(outcomes: Seq<Swept>, k: int, i: int)
    requires
        0 <= k <= i <= outcomes.len(),
        forall|j: int|
            k <= j < i ==> (#[trigger] outcomes[j]).terminated is Ok && outcomes[j].removed is Ok,
    ensures
        i == outcomes.len() ==> first_failure(outcomes, k) is None,
        i < outcomes.len() && outcomes[i].terminated is Err ==> first_failure(outcomes, k) == Some(
            outcomes[i].terminated->Err_0,
        ),
        i < outcomes.len() && outcomes[i].terminated is Ok && outcomes[i].removed is Err
            ==> first_failure(outcomes, k) == Some(outcomes[i].removed->Err_0),
    decreases i - k,
{
    if k < i {
        assert(outcomes[k].terminated is Ok && outcomes[k].removed is Ok);
        law_sweeps_report_the_first_failure(outcomes, k + 1, i);
    }
}

/// After a sweep a unit is gone if its termination and its removal succeeded,
/// and its executions with it; everything else stays as it was.
pub proof fn law_sweeps_forget_what_converged(
    g: GuestView,
    outcomes: Seq<Swept>,
    unit: Seq<char>,
    execution: Seq<char>,
    i: int,
)
    ensures
        ({
            let after = after_sweep(g, outcomes);
            &&& 0 <= i < outcomes.len() && outcomes[i].handle@ == unit && outcomes[i].terminated is Ok
                && outcomes[i].removed is Ok ==> !after.units.dom().contains(unit)
            &&& g.units.dom().contains(unit) && !after.units.dom().contains(unit) ==> exists|j: int|
                0 <= j < outcomes.len() && (#[trigger] outcomes[j]).handle@ == unit
                    && outcomes[j].terminated is Ok && outcomes[j].removed is Ok
            &&& after.units.dom().contains(unit) ==> g.units.dom().contains(unit)
                && after.units[unit] == g.units[unit]
            &&& after.executions.dom().contains(execution) <==> g.executions.dom().contains(execution)
                && after.units.dom().contains(g.executions[execution].unit)
            &&& after.executions.dom().contains(execution) ==> after.executions[execution]
                == g.executions[execution]
            &&& after.channel == g.channel
        }),
{
    let after = after_sweep(g, outcomes);
    if 0 <= i < outcomes.len() && outcomes[i].handle@ == unit && outcomes[i].terminated is Ok
        && outcomes[i].removed is Ok {
        assert(converged(outcomes[i]));
        assert(cleared(outcomes, unit));
    }
    if g.units.dom().contains(unit) && !after.units.dom().contains(unit) {
        assert(cleared(outcomes, unit));
        let j = choose|j: int|
            0 <= j < outcomes.len() && converged(#[trigger] outcomes[j]) && outcomes[j].handle@
                == unit;
        assert(outcomes[j].terminated is Ok && outcomes[j].removed is Ok);
    }
}

/// A guest holds live state when a unit of it is live or an execution is bound.
pub proof fn law_live_state_is_held(g: GuestView, k: Seq<char>)
    ensures
        g.units.dom().contains(k) && g.units[k] is Live ==> live_state(g),
        g.executions.dom().contains(k) ==> live_state(g),
        (forall|u: Seq<char>| #[trigger] g.units.dom().contains(u) ==> g.units[u] is Removed) && (
        forall|e: Seq<char>| !#[trigger] g.executions.dom().contains(e)) ==> !live_state(g),
{
}

/// A reply is an object that holds the answer under its name: a handle, an
/// outcome, a state or an attestation.
pub proof fn law_answers_hold_their_member(v: Json, r: Response)
    requires
        answers(v, r),
    ensures
        match r {
            Response::Unit(h) => json::text_member(v, "unit_handle"@) == Some(h@),
            Response::Execution(h) => json::text_member(v, "execution_handle"@) == Some(h@),
            Response::ExitStatus(code) => json::integer_member(v, "exit_status"@) == Some(
                code as i64,
            ),
            Response::Signal(signum) => json::integer_member(v, "signal"@) == Some(signum as i64),
            Response::Lifecycle(l) => json::text_member(v, "lifecycle"@) == Some(
                contract::state_text(l),
            ),
            Response::Started(a) => json::member(v, "started_attestation"@) matches Some(x)
                && json::text_member(x, "unit_identity"@) == Some(a.unit_identity@)
                && json::text_member(x, "pidns_proof"@) == Some(a.pidns_proof@) && json::member(
                x,
                "ready"@,
            ) == Some(Json::Bool(a.ready)),
            Response::Stopped(a) => json::member(v, "stopped_attestation"@) matches Some(x)
                && json::text_member(x, "unit_identity"@) == Some(a.unit_identity@),
            Response::Removed(a) => json::member(v, "removed_attestation"@) matches Some(x)
                && json::text_member(x, "unit_identity"@) == Some(a.unit_identity@),
            Response::Snapshot(s) => json::text_member(v, "unit_identity"@) == Some(
                s.unit_identity@,
            ) && json::text_member(v, "lifecycle"@) == Some(contract::state_text(s.lifecycle))
                && json::text_member(v, "active_state"@) == Some(s.active_state@)
                && json::text_member(v, "session_id"@) == Some(s.session_id@) && json::text_member(
                v,
                "image"@,
            ) == Some(s.image@),
        },
{
    let m = v->Object_0;
    reveal_strlit("unit_identity");
    reveal_strlit("lifecycle");
    reveal_strlit("active_state");
    reveal_strlit("session_id");
    reveal_strlit("image");
    reveal_strlit("pidns_proof");
    reveal_strlit("ready");
    assert("unit_identity"@.len() == 13 && "lifecycle"@.len() == 9 && "active_state"@.len() == 12);
    assert("session_id"@.len() == 10 && "image"@.len() == 5);
    assert("pidns_proof"@.len() == 11 && "ready"@.len() == 5);
    json::law_members_are_found_by_key(m, m@[0].0@, 0);
    match r {
        Response::Snapshot(_) => {
            json::law_members_are_found_by_key(m, "lifecycle"@, 1);
            json::law_members_are_found_by_key(m, "active_state"@, 2);
            json::law_members_are_found_by_key(m, "session_id"@, 3);
            json::law_members_are_found_by_key(m, "image"@, 4);
        },
        Response::Started(_) => {
            let x = m@[0].1->Object_0;
            json::law_members_are_found_by_key(x, "unit_identity"@, 0);
            json::law_members_are_found_by_key(x, "pidns_proof"@, 1);
            json::law_members_are_found_by_key(x, "ready"@, 2);
        },
        Response::Stopped(_) | Response::Removed(_) => {
            let x = m@[0].1->Object_0;
            json::law_members_are_found_by_key(x, "unit_identity"@, 0);
        },
        _ => {},
    }
}

/// A view says what the fields hold, each under its own name.
pub proof fn law_views_say_the_fields(
    unit_binding: UnitBinding,
    exec_binding: ExecBinding,
    sweep_target: SweepTarget,
)
    ensures
        unit_binding matches UnitBinding::Live { local, key, spec } ==> unit_binding.deep_view() == (BindingView::Live { local: local.deep_view(), key: key.deep_view(), spec: spec.deep_view() }),
        unit_binding matches UnitBinding::Removed { local, unit_identity } ==> unit_binding.deep_view() == (BindingView::Removed { local: local.deep_view(), identity: unit_identity@ }),
        exec_binding.deep_view().local == exec_binding.local.deep_view(),
        exec_binding.deep_view().unit == exec_binding.unit@,
        exec_binding.deep_view().key == exec_binding.key.deep_view(),
        exec_binding.deep_view().argv == exec_binding.argv.deep_view(),
        exec_binding.deep_view().workdir == exec_binding.workdir.deep_view(),
        sweep_target.deep_view().handle == sweep_target.handle@,
        sweep_target.deep_view().local == sweep_target.local.deep_view(),
        sweep_target.deep_view().key == sweep_target.key.deep_view(),
{
}

} // verus!
