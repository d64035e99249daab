//! External isolator client: verdicts over wire outcomes, guest death,
//! teardown, and close.

use vstd::prelude::*;

use crate::error::{CistellaError, ErrorView, Result};
use crate::framework::contract;
use crate::framework::contract::{ExecutionHandle, LifecycleState, ReconciliationKey, UnitHandle};
use crate::framework::isolator::{
    ExecutionOutcome, RemovedAttestation, StartedAttestation, StoppedAttestation, UnitSnapshot,
};
use crate::framework::json;
use crate::framework::json::Json;
use crate::isolators::close;
use crate::isolators::dispatch::{Fate, FateView};
use crate::isolators::wire;
use crate::isolators::wire::Response;
use crate::text;

verus! {

/// Guest binary name resolved sibling-relative to the driver.
pub const ISOLATOR_BIN: &'static str = "cistella-isolator-podman";

/// Extra argument carrying the rendezvous path to the guest.
pub const FD_SOCKET_ARG: &'static str = "--fd-socket";

/// Selects the reported error after a failed phase with teardown attempted:
/// the teardown error dominates when residue remains or shutdown is
/// uncertain (unverified quiescence never collapses to the original error
/// even when the snapshot is clean); otherwise the original error stands.
pub fn select_teardown_error(
    teardown: Result<()>,
    original: CistellaError,
    residue_ok: bool,
    uncertain: bool,
) -> (e: CistellaError)
    ensures
        e == (match teardown {
            Err(teardown_err) => if !residue_ok || uncertain {
                teardown_err
            } else {
                original
            },
            Ok(_) => original,
        }),
{
    match teardown {
        Err(teardown_err) => if !residue_ok || uncertain {
            teardown_err
        } else {
            original
        },
        Ok(_) => original,
    }
}

/// Exit code of a startup abort.
pub open spec fn abort_code(
    residue_left: bool,
    uncertain_before: bool,
    release_failed: bool,
    signum: i32,
) -> int {
    if residue_left || uncertain_before || release_failed {
        1
    } else {
        128 + signum
    }
}

/// Exit code for a startup abort: residue left behind, shutdown uncertainty,
/// and a failed release each fail (1); otherwise the signal disposition
/// rules (128 + signal).
#[must_use]
pub fn abort_exit_code(
    residue_left: bool,
    uncertain_before: bool,
    release_failed: bool,
    signum: i32,
) -> (code: i32)
    requires
        abort_code(residue_left, uncertain_before, release_failed, signum) <= i32::MAX,
    ensures
        code == abort_code(residue_left, uncertain_before, release_failed, signum),
{
    if residue_left || uncertain_before || release_failed {
        1
    } else {
        128 + signum
    }
}

/// Recovery verdict for a failed pre-exec operation: exactly one bounded
/// replacement on proven guest death; a used replacement, uncertain
/// shutdown, or live-guest failure never re-hosts.
#[must_use]
pub fn pre_exec_recovery_verdict(
    replacement_used: bool,
    guest_dead: bool,
    shutdown_uncertain: bool,
) -> (b: bool)
    ensures
        b == (!replacement_used && guest_dead && !shutdown_uncertain),
{
    !replacement_used && guest_dead && !shutdown_uncertain
}

/// Report of a failed re-host.
pub open spec fn rehost_verdict(
    teardown: Option<ErrorView>,
    residue_ok: bool,
    rehost_error: ErrorView,
) -> ErrorView {
    match teardown {
        Some(e) => e,
        None => if residue_ok {
            rehost_error
        } else {
            ErrorView::Contract("re-host failure left residue: "@ + rehost_error.rendered())
        },
    }
}

/// Re-host failure verdict for the pre-exec recovery path: a failed converge
/// reports its concrete error; a nominally successful one with remaining
/// residue names the residue with the re-host fault rendered in; only a
/// clean teardown with a clean snapshot keeps the re-host error.
#[must_use]
pub fn rehost_failure_verdict(
    teardown: Result<()>,
    residue_ok: bool,
    rehost_error: CistellaError,
) -> (e: CistellaError)
    ensures
        e@ == rehost_verdict(crate::error::failure(teardown), residue_ok, rehost_error@),
{
    match teardown {
        Err(teardown_error) => teardown_error,
        Ok(_) => if residue_ok {
            rehost_error
        } else {
            CistellaError::Contract(
                text::cat("re-host failure left residue: ", rehost_error.render().as_str()),
            )
        },
    }
}

// ---------------------------------------------------------------------
// Death gate
// ---------------------------------------------------------------------

/// Judges one recorded key after abnormal guest death: a located unit is
/// leftover state the dead guest cannot report. Every recorded key must
/// locate to nothing; the first failure stands.
pub fn on_guest_death(located: Result<Option<UnitHandle>>) -> (r: Result<()>)
    ensures
        match located {
            Err(e) => r == Err::<(), CistellaError>(e),
            Ok(Some(_)) => r matches Err(e) && e@ == ErrorView::Contract(
                "guest exit left unit residue"@,
            ),
            Ok(None) => r is Ok,
        },
{
    match located {
        Err(e) => Err(e),
        Ok(Some(_)) => Err(CistellaError::Contract("guest exit left unit residue".to_owned())),
        Ok(None) => Ok(()),
    }
}

/// Whether a failed outcome calls for the residue check: proven death
/// without uncertainty.
pub fn needs_residue_check(failed: bool, fate: &Fate) -> (b: bool)
    ensures
        b == (failed && fate@.dead && !fate@.uncertain),
{
    failed && fate.dead && !fate.uncertain
}

/// Dominant error on the shutdown-uncertain path: the recorded shutdown
/// proof failure when present, else the original.
pub open spec fn dominant(fate: FateView, e: ErrorView) -> ErrorView {
    match fate.report {
        Some(recorded) => ErrorView::Protocol(recorded),
        None => e,
    }
}

fn shutdown_dominant(fate: &Fate, error: CistellaError) -> (e: CistellaError)
    ensures
        e@ == dominant(fate@, error@),
{
    match &fate.report {
        Some(recorded) => CistellaError::Protocol(recorded.clone()),
        None => error,
    }
}

/// Error that the death gate reports for a failed outcome.
pub open spec fn gated_error(e: ErrorView, fate: FateView, residue: Option<ErrorView>) -> ErrorView {
    if fate.uncertain {
        dominant(fate, e)
    } else if fate.dead {
        match residue {
            Some(r) => r,
            None => e,
        }
    } else {
        e
    }
}

/// The death gate for one wire outcome: passes successes, and failures while
/// the guest lives. On proven death located residue dominates, else the
/// original error stands. Shutdown uncertainty returns the recorded shutdown
/// failure (no keyed scan beside a possible-live guest).
pub fn death_checked<T>(outcome: Result<T>, fate: &Fate, residue: Result<()>) -> (r: Result<T>)
    ensures
        match outcome {
            Ok(v) => r == Ok::<T, CistellaError>(v),
            Err(e) => r matches Err(x) && x@ == gated_error(
                e@,
                fate@,
                crate::error::failure(residue),
            ),
        },
{
    match outcome {
        Ok(v) => Ok(v),
        Err(e) => {
            if fate.uncertain {
                return Err(shutdown_dominant(fate, e));
            }
            if fate.dead {
                match residue {
                    Err(x) => {
                        return Err(x);
                    },
                    Ok(_) => {},
                }
            }
            Err(e)
        },
    }
}

// ---------------------------------------------------------------------
// Teardown
// ---------------------------------------------------------------------

/// What follows the wire teardown of a unit.
#[derive(Debug)]
pub enum TeardownStep {
    /// The verdict stands.
    Finished(Result<()>),
    /// Converge directly, best effort; the error stands whatever comes.
    ConvergeQuietly(CistellaError),
    /// Converge directly, then [`teardown_verdict`].
    Converge(CistellaError),
}

/// Decides what follows the death-checked wire teardown of a unit.
///
/// A dead guest cannot run wire operations, so the unit converges directly
/// and residue decides. Under shutdown uncertainty it converges best-effort
/// but never comes out clean: a surviving guest could install after the
/// check.
pub fn teardown_unit(outcome: Result<()>, fate: &Fate) -> (s: TeardownStep)
    ensures
        s == (match outcome {
            Ok(v) => TeardownStep::Finished(Ok::<(), CistellaError>(v)),
            Err(e) => if fate@.uncertain {
                TeardownStep::ConvergeQuietly(e)
            } else if fate@.dead {
                TeardownStep::Converge(e)
            } else {
                TeardownStep::Finished(Err(e))
            },
        }),
{
    match outcome {
        Ok(v) => TeardownStep::Finished(Ok(v)),
        Err(e) => if fate.uncertain {
            TeardownStep::ConvergeQuietly(e)
        } else if fate.dead {
            TeardownStep::Converge(e)
        } else {
            TeardownStep::Finished(Err(e))
        },
    }
}

/// Verdict after a direct converge: a converge failure with residue left
/// dominates, else the original error stands.
pub fn teardown_verdict(error: CistellaError, converged: Result<()>, residue_gone: bool) -> (r:
    CistellaError)
    ensures
        r == (match converged {
            Err(e) => if residue_gone {
                error
            } else {
                e
            },
            Ok(_) => error,
        }),
{
    match converged {
        Err(e) => if residue_gone {
            error
        } else {
            e
        },
        Ok(_) => error,
    }
}

/// What a close comes to before the recorded report: `sent` is whether the
/// dispatcher took the request, `reply` what it answered.
pub open spec fn close_outcome(sent: bool, reply: Option<Result<()>>) -> Option<ErrorView> {
    if !sent {
        Some(ErrorView::Protocol("dispatcher already terminated"@))
    } else {
        match reply {
            Some(r) => crate::error::failure(r),
            None => Some(ErrorView::Protocol("dispatcher dropped shutdown"@)),
        }
    }
}

/// Verdict of a close: the live shutdown result, or a typed termination
/// error when no reply can arrive. A recorded shutdown proof failure
/// dominates either.
pub fn close(sent: bool, reply: Option<Result<()>>, report: Option<String>) -> (r: Result<()>)
    ensures
        match report {
            Some(recorded) => r matches Err(e) && e@ == ErrorView::Protocol(recorded@),
            None => match close_outcome(sent, reply) {
                Some(e) => r matches Err(x) && x@ == e,
                None => r is Ok,
            },
        },
{
    match report {
        Some(recorded) => Err(CistellaError::Protocol(recorded)),
        None => {
            if !sent {
                return Err(CistellaError::Protocol("dispatcher already terminated".to_owned()));
            }
            close::complete_close(reply)
        },
    }
}

// ---------------------------------------------------------------------
// Responses
// ---------------------------------------------------------------------

/// Whether a value is an array of texts.
pub open spec fn text_values(v: Json, list: Seq<Seq<char>>) -> bool {
    v matches Json::Array(items) && items@.len() == list.len() && forall|i: int|
        0 <= i < list.len() ==> json::text_value(#[trigger] items@[i], list[i])
}

/// Whether a request names a unit and nothing else (`inspect`, `state`).
pub open spec fn asks_unit(v: Json, unit: Seq<char>) -> bool {
    v matches Json::Object(m) && m@.len() == 1 && json::text_entry(m@[0], "unit_handle"@, unit)
}

/// Whether a request names a unit and its attempt's key (`initiate`,
/// `remove`).
pub open spec fn asks_unit_key(v: Json, unit: Seq<char>, key: Seq<char>) -> bool {
    v matches Json::Object(m) && m@.len() == 2 && json::text_entry(m@[0], "unit_handle"@, unit)
        && json::text_entry(m@[1], "reconciliation_key"@, key)
}

/// Whether a request creates a unit from a specification.
pub open spec fn asks_create(v: Json, unit: Seq<char>, spec_value: Json, key: Seq<char>) -> bool {
    v matches Json::Object(m) && m@.len() == 3 && json::text_entry(m@[0], "unit_handle"@, unit)
        && m@[1].0@ == "spec"@ && m@[1].1 == spec_value && json::text_entry(
        m@[2],
        "reconciliation_key"@,
        key,
    )
}

/// Whether a request launches a harness.
pub open spec fn asks_launch(
    v: Json,
    unit: Seq<char>,
    execution: Seq<char>,
    argv: Seq<Seq<char>>,
    workdir: Option<Seq<char>>,
    key: Seq<char>,
) -> bool {
    v matches Json::Object(m) && m@.len() == 5 && json::text_entry(m@[0], "unit_handle"@, unit)
        && json::text_entry(m@[1], "execution_handle"@, execution) && m@[2].0@ == "argv"@ && text_values(
        m@[2].1,
        argv,
    ) && m@[3].0@ == "workdir"@ && (match workdir {
        Some(dir) => json::text_value(m@[3].1, dir),
        None => m@[3].1 == Json::Null,
    }) && json::text_entry(m@[4], "reconciliation_key"@, key)
}

/// Whether a request awaits an execution.
pub open spec fn asks_await(v: Json, execution: Seq<char>) -> bool {
    v matches Json::Object(m) && m@.len() == 1 && json::text_entry(
        m@[0],
        "execution_handle"@,
        execution,
    )
}

/// Whether a request terminates a unit with a grace.
pub open spec fn asks_terminate(v: Json, unit: Seq<char>, grace_ms: u64, key: Seq<char>) -> bool {
    v matches Json::Object(m) && m@.len() == 3 && json::text_entry(m@[0], "unit_handle"@, unit)
        && m@[1].0@ == "grace_ms"@ && whole_number(m@[1].1, grace_ms) && json::text_entry(
        m@[2],
        "reconciliation_key"@,
        key,
    )
}

/// Whether a value is a whole number: an integer where it fits one, else its
/// decimal text.
pub open spec fn whole_number(v: Json, n: u64) -> bool {
    if n <= i64::MAX {
        v == Json::Integer(n as i64)
    } else {
        v matches Json::Number(s) && s@ == text::dec(n as nat)
    }
}

fn array_of(list: &[String]) -> (v: Json)
    ensures
        text_values(v, list.deep_view()),
{
    let mut items: Vec<Json> = Vec::new();
    let mut k: usize = 0;
    while k < list.len()
        invariant
            k <= list@.len(),
            items@.len() == k,
            forall|i: int|
                0 <= i < k ==> json::text_value(#[trigger] items@[i], list.deep_view()[i]),
        decreases list.len() - k,
    {
        assert(list.deep_view()[k as int] == list@[k as int]@);
        items.push(Json::Str(list[k].clone()));
        k = k + 1;
    }
    Json::Array(items)
}

/// Request payload of `inspect` and `state`.
pub fn unit_payload(unit: &UnitHandle) -> (v: Json)
    ensures
        asks_unit(v, unit.deep_view()),
{
    let mut m: Vec<(String, Json)> = Vec::new();
    m.push(json::entry("unit_handle", unit.as_str()));
    Json::Object(m)
}

/// Request payload of `initiate` and `remove`.
pub fn unit_key_payload(unit: &UnitHandle, key: &ReconciliationKey) -> (v: Json)
    ensures
        asks_unit_key(v, unit.deep_view(), key.deep_view()),
{
    let mut m: Vec<(String, Json)> = Vec::new();
    m.push(json::entry("unit_handle", unit.as_str()));
    m.push(json::entry("reconciliation_key", key.as_str()));
    Json::Object(m)
}

/// Request payload of `create`; `spec_value` is the encoded specification.
pub fn create_payload(unit: &UnitHandle, spec_value: Json, key: &ReconciliationKey) -> (v: Json)
    ensures
        asks_create(v, unit.deep_view(), spec_value, key.deep_view()),
{
    let mut m: Vec<(String, Json)> = Vec::new();
    m.push(json::entry("unit_handle", unit.as_str()));
    m.push(("spec".to_owned(), spec_value));
    m.push(json::entry("reconciliation_key", key.as_str()));
    Json::Object(m)
}

/// Request payload of `execute_launch`. Harness descriptors cross beside it,
/// never inside.
pub fn launch_payload(
    unit: &UnitHandle,
    execution: &ExecutionHandle,
    argv: &[String],
    workdir: Option<&str>,
    key: &ReconciliationKey,
) -> (v: Json)
    ensures
        asks_launch(
            v,
            unit.deep_view(),
            execution.deep_view(),
            argv.deep_view(),
            workdir.deep_view(),
            key.deep_view(),
        ),
{
    let mut m: Vec<(String, Json)> = Vec::new();
    m.push(json::entry("unit_handle", unit.as_str()));
    m.push(json::entry("execution_handle", execution.as_str()));
    m.push(("argv".to_owned(), array_of(argv)));
    m.push(
        (
            "workdir".to_owned(),
            match workdir {
                Some(dir) => Json::Str(dir.to_owned()),
                None => Json::Null,
            },
        ),
    );
    m.push(json::entry("reconciliation_key", key.as_str()));
    Json::Object(m)
}

/// Request payload of `await_result`.
pub fn await_payload(execution: &ExecutionHandle) -> (v: Json)
    ensures
        asks_await(v, execution.deep_view()),
{
    let mut m: Vec<(String, Json)> = Vec::new();
    m.push(json::entry("execution_handle", execution.as_str()));
    Json::Object(m)
}

/// Request payload of `terminate`.
pub fn terminate_payload(unit: &UnitHandle, grace_ms: u64, key: &ReconciliationKey) -> (v: Json)
    ensures
        asks_terminate(v, unit.deep_view(), grace_ms, key.deep_view()),
{
    let grace = if grace_ms <= i64::MAX as u64 {
        Json::Integer(grace_ms as i64)
    } else {
        Json::Number(text::dec_u64(grace_ms))
    };
    let mut m: Vec<(String, Json)> = Vec::new();
    m.push(json::entry("unit_handle", unit.as_str()));
    m.push(("grace_ms".to_owned(), grace));
    m.push(json::entry("reconciliation_key", key.as_str()));
    Json::Object(m)
}

/// Whether a payload echoes a handle under a key.
pub open spec fn echo_fault(
    payload: Json,
    key: Seq<char>,
    handle: Seq<char>,
    op: Seq<char>,
) -> Option<ErrorView> {
    match json::text_member(payload, key) {
        None => Some(close::bad_response(op, "shape"@)),
        Some(echoed) => if echoed == handle {
            None
        } else {
            Some(ErrorView::Contract(op + " echoed a different handle"@))
        },
    }
}

/// Checks that a `create` or `launch` response echoes the minted handle.
pub fn check_echo(payload: &Json, key: &str, handle: &str, op: &str) -> (r: Result<()>)
    ensures
        match echo_fault(*payload, key@, handle@, op@) {
            Some(e) => r matches Err(x) && x@ == e,
            None => r is Ok,
        },
{
    match json::get_text(payload, key) {
        None => Err(CistellaError::Contract(text::cat4("bad ", op, " response: ", "shape"))),
        Some(echoed) => if text::eq(echoed, handle) {
            Ok(())
        } else {
            Err(CistellaError::Contract(text::cat(op, " echoed a different handle")))
        },
    }
}

/// Lifecycle state of a wire spelling.
pub open spec fn lifecycle_named(s: Seq<char>) -> Option<LifecycleState> {
    if s == contract::state_text(LifecycleState::Created) {
        Some(LifecycleState::Created)
    } else if s == contract::state_text(LifecycleState::Initiated) {
        Some(LifecycleState::Initiated)
    } else if s == contract::state_text(LifecycleState::Executing) {
        Some(LifecycleState::Executing)
    } else if s == contract::state_text(LifecycleState::Stopped) {
        Some(LifecycleState::Stopped)
    } else if s == contract::state_text(LifecycleState::Absent) {
        Some(LifecycleState::Absent)
    } else {
        None
    }
}

fn lifecycle_of(s: &str) -> (r: Option<LifecycleState>)
    ensures
        r == lifecycle_named(s@),
{
    if text::eq(s, "created") {
        Some(LifecycleState::Created)
    } else if text::eq(s, "initiated") {
        Some(LifecycleState::Initiated)
    } else if text::eq(s, "executing") {
        Some(LifecycleState::Executing)
    } else if text::eq(s, "stopped") {
        Some(LifecycleState::Stopped)
    } else if text::eq(s, "absent") {
        Some(LifecycleState::Absent)
    } else {
        None
    }
}

/// Lifecycle state that a `state` response names.
pub open spec fn lifecycle_in(payload: Json) -> std::result::Result<LifecycleState, ErrorView> {
    match json::text_member(payload, "lifecycle"@) {
        None => Err(ErrorView::Contract("bad state response: shape"@)),
        Some(s) => match lifecycle_named(s) {
            Some(state) => Ok(state),
            None => Err(ErrorView::Contract("bad state response: unknown lifecycle"@)),
        },
    }
}

/// Parses the lifecycle state of a `state` response.
pub fn parse_state(payload: &Json) -> (r: Result<LifecycleState>)
    ensures
        match (r, lifecycle_in(*payload)) {
            (Ok(a), Ok(b)) => a == b,
            (Err(a), Err(b)) => a@ == b,
            _ => false,
        },
{
    match json::get_text(payload, "lifecycle") {
        None => Err(CistellaError::Contract("bad state response: shape".to_owned())),
        Some(s) => match lifecycle_of(s) {
            Some(state) => Ok(state),
            None => Err(
                CistellaError::Contract("bad state response: unknown lifecycle".to_owned()),
            ),
        },
    }
}

/// Lifecycle state that a snapshot names.
pub open spec fn snapshot_lifecycle(v: Json) -> Option<LifecycleState> {
    match json::field(v, "lifecycle"@, 1, 5) {
        None => None,
        Some(x) => match json::variant_name(x) {
            None => None,
            Some(name) => lifecycle_named(name),
        },
    }
}

/// Whether a value has the fields of a started attestation.
pub open spec fn started_shape(v: Json) -> bool {
    &&& json::text_field(v, "unit_identity"@, 0, 3) is Some
    &&& json::text_field(v, "pidns_proof"@, 1, 3) is Some
    &&& json::bool_field(v, "ready"@, 2, 3) is Some
}

/// Whether a started attestation is the one a value holds.
pub open spec fn holds_started(v: Json, a: StartedAttestation) -> bool {
    &&& json::text_field(v, "unit_identity"@, 0, 3) == Some(a.unit_identity@)
    &&& json::text_field(v, "pidns_proof"@, 1, 3) == Some(a.pidns_proof@)
    &&& json::bool_field(v, "ready"@, 2, 3) == Some(a.ready)
}

/// Whether a value has the fields of a snapshot.
pub open spec fn snapshot_shape(v: Json) -> bool {
    &&& json::text_field(v, "unit_identity"@, 0, 5) is Some
    &&& snapshot_lifecycle(v) is Some
    &&& json::text_field(v, "active_state"@, 2, 5) is Some
    &&& json::text_field(v, "session_id"@, 3, 5) is Some
    &&& json::text_field(v, "image"@, 4, 5) is Some
}

/// Whether a snapshot is the one a value holds.
pub open spec fn holds_snapshot(v: Json, s: UnitSnapshot) -> bool {
    &&& json::text_field(v, "unit_identity"@, 0, 5) == Some(s.unit_identity@)
    &&& snapshot_lifecycle(v) == Some(s.lifecycle)
    &&& json::text_field(v, "active_state"@, 2, 5) == Some(s.active_state@)
    &&& json::text_field(v, "session_id"@, 3, 5) == Some(s.session_id@)
    &&& json::text_field(v, "image"@, 4, 5) == Some(s.image@)
}

fn bad<T>(op: &str, what: &str) -> (r: Result<T>)
    ensures
        r matches Err(e) && e@ == close::bad_response(op@, what@),
{
    Err(CistellaError::Contract(text::cat4("bad ", op, " response: ", what)))
}

/// Parses the attestation of an `initiate` response: an object of its fields
/// or an array of them in order. A missing or mistyped field refuses; members
/// of an object outside its schema are ignored.
pub fn parse_started(payload: &Json) -> (r: Result<StartedAttestation>)
    ensures
        match json::member(*payload, "started_attestation"@) {
            None => r matches Err(e) && e@ == close::bad_response("initiate"@, "shape"@),
            Some(v) => if started_shape(v) {
                r matches Ok(a) && holds_started(v, a)
            } else {
                r matches Err(e) && e@ == close::bad_response("initiate"@, "shape violation"@)
            },
        },
{
    match json::get(payload, "started_attestation") {
        None => bad("initiate", "shape"),
        Some(v) => match (
            json::get_text_field(v, "unit_identity", 0, 3),
            json::get_text_field(v, "pidns_proof", 1, 3),
            json::get_bool_field(v, "ready", 2, 3),
        ) {
            (Some(identity), Some(namespace), Some(ready)) => Ok(
                StartedAttestation {
                    unit_identity: identity.to_owned(),
                    pidns_proof: namespace.to_owned(),
                    ready,
                },
            ),
            _ => bad("initiate", "shape violation"),
        },
    }
}

/// Unit identity that an attestation under a key holds, or why the response
/// of the operation is refused.
pub open spec fn identity_in(payload: Json, key: Seq<char>, op: Seq<char>) -> std::result::Result<
    Seq<char>,
    ErrorView,
> {
    match json::member(payload, key) {
        None => Err(close::bad_response(op, "shape"@)),
        Some(v) => match json::text_field(v, "unit_identity"@, 0, 1) {
            None => Err(close::bad_response(op, "shape violation"@)),
            Some(identity) => Ok(identity),
        },
    }
}

fn parse_identity(payload: &Json, key: &str, op: &str) -> (r: Result<String>)
    ensures
        match identity_in(*payload, key@, op@) {
            Ok(identity) => r matches Ok(s) && s@ == identity,
            Err(e) => r matches Err(x) && x@ == e,
        },
{
    match json::get(payload, key) {
        None => bad(op, "shape"),
        Some(v) => match json::get_text_field(v, "unit_identity", 0, 1) {
            None => bad(op, "shape violation"),
            Some(identity) => Ok(identity.to_owned()),
        },
    }
}

/// Parses the attestation of a `terminate` response.
pub fn parse_stopped(payload: &Json) -> (r: Result<StoppedAttestation>)
    ensures
        match identity_in(*payload, "stopped_attestation"@, "terminate"@) {
            Ok(identity) => r matches Ok(a) && a.unit_identity@ == identity,
            Err(e) => r matches Err(x) && x@ == e,
        },
{
    match parse_identity(payload, "stopped_attestation", "terminate") {
        Ok(unit_identity) => Ok(StoppedAttestation { unit_identity }),
        Err(e) => Err(e),
    }
}

/// Parses the attestation of a `remove` response.
pub fn parse_removed(payload: &Json) -> (r: Result<RemovedAttestation>)
    ensures
        match identity_in(*payload, "removed_attestation"@, "remove"@) {
            Ok(identity) => r matches Ok(a) && a.unit_identity@ == identity,
            Err(e) => r matches Err(x) && x@ == e,
        },
{
    match parse_identity(payload, "removed_attestation", "remove") {
        Ok(unit_identity) => Ok(RemovedAttestation { unit_identity }),
        Err(e) => Err(e),
    }
}

/// Parses the snapshot of an `inspect` response: an object of its fields or an
/// array of them in order.
pub fn parse_snapshot(payload: &Json) -> (r: Result<UnitSnapshot>)
    ensures
        if snapshot_shape(*payload) {
            r matches Ok(s) && holds_snapshot(*payload, s)
        } else {
            r matches Err(e) && e@ == close::bad_response("inspect"@, "shape violation"@)
        },
{
    let lifecycle = match json::get_field(payload, "lifecycle", 1, 5) {
        Some(x) => match json::get_variant_name(x) {
            Some(name) => lifecycle_of(name),
            None => None,
        },
        None => None,
    };
    match (
        json::get_text_field(payload, "unit_identity", 0, 5),
        lifecycle,
        json::get_text_field(payload, "active_state", 2, 5),
        json::get_text_field(payload, "session_id", 3, 5),
        json::get_text_field(payload, "image", 4, 5),
    ) {
        (Some(identity), Some(lifecycle), Some(active), Some(session), Some(image)) => Ok(
            UnitSnapshot {
                unit_identity: identity.to_owned(),
                lifecycle,
                active_state: active.to_owned(),
                session_id: session.to_owned(),
                image: image.to_owned(),
            },
        ),
        _ => bad("inspect", "shape violation"),
    }
}

/// What a slice of an await brought.
#[derive(Debug)]
pub enum AwaitEvent {
    /// The terminal response.
    Answered(Result<Json>),
    /// Nothing within the slice.
    Silence,
    /// The dispatcher dropped the call.
    Dropped,
}

/// What an awaiting caller does next.
#[derive(Debug)]
pub enum AwaitStep {
    /// The outcome, or the failure.
    Done(Result<ExecutionOutcome>),
    /// Retire the entry, then return the detachment.
    Detach(CistellaError),
    /// Wait another slice.
    Wait,
}

/// What the terminal response of an await comes to.
pub open spec fn await_verdict(response: Json) -> std::result::Result<ExecutionOutcome, ErrorView> {
    match close::redeemed("await_result"@, response) {
        Err(e) => Err(e),
        Ok(payload) => close::await_outcome(payload),
    }
}

/// Whether a step ends the await with this outcome.
pub open spec fn done_with(
    s: AwaitStep,
    model: std::result::Result<ExecutionOutcome, ErrorView>,
) -> bool {
    s matches AwaitStep::Done(r) && match (r, model) {
        (Ok(a), Ok(b)) => a == b,
        (Err(a), Err(b)) => a@ == b,
        _ => false,
    }
}

/// Takes one slice of an uncapped await: the terminal redeems strictly;
/// cancellation detaches without killing anything.
pub fn await_slice(event: AwaitEvent, cancelled: bool) -> (s: AwaitStep)
    ensures
        match event {
            AwaitEvent::Answered(Ok(response)) => done_with(s, await_verdict(response)),
            AwaitEvent::Answered(Err(e)) => done_with(s, Err(e@)),
            AwaitEvent::Dropped => done_with(
                s,
                Err(ErrorView::Protocol("dispatcher dropped the call"@)),
            ),
            AwaitEvent::Silence => if cancelled {
                s matches AwaitStep::Detach(e) && e@ == ErrorView::Detached(
                    "await detached by cancellation"@,
                )
            } else {
                s is Wait
            },
        },
{
    match event {
        AwaitEvent::Answered(Ok(response)) => match close::redeem("await_result", response) {
            Err(e) => AwaitStep::Done(Err(e)),
            Ok(payload) => AwaitStep::Done(close::parse_await_outcome(&payload)),
        },
        AwaitEvent::Answered(Err(e)) => AwaitStep::Done(Err(e)),
        AwaitEvent::Dropped => AwaitStep::Done(
            Err(CistellaError::Protocol("dispatcher dropped the call".to_owned())),
        ),
        AwaitEvent::Silence => if cancelled {
            AwaitStep::Detach(
                CistellaError::Detached("await detached by cancellation".to_owned()),
            )
        } else {
            AwaitStep::Wait
        },
    }
}

// ---------------------------------------------------------------------
// Laws
// ---------------------------------------------------------------------

/// A startup abort claims the signal's disposition only when nothing was
/// left behind, the shutdown is certain, and the release succeeded.
pub proof fn law_clean_abort_is_earned(
    residue_left: bool,
    uncertain_before: bool,
    release_failed: bool,
    signum: i32,
)
    requires
        signum > 0,
    ensures
        abort_code(residue_left, uncertain_before, release_failed, signum) == 128 + signum <==> !(
        residue_left || uncertain_before || release_failed),
        abort_code(residue_left, uncertain_before, release_failed, signum) != 0,
{
}

/// Under shutdown uncertainty a recorded proof failure is what every failed
/// outcome reports, whatever the residue scan would have said.
pub proof fn law_recorded_shutdown_failure_dominates(
    e: ErrorView,
    fate: FateView,
    residue: Option<ErrorView>,
    recorded: Seq<char>,
)
    requires
        fate.uncertain,
        fate.report == Some(recorded),
    ensures
        gated_error(e, fate, residue) == ErrorView::Protocol(recorded),
{
}

/// An await request names its execution where the dispatcher looks for it,
/// so a detach by that execution retires it.
pub proof fn law_await_requests_are_addressable(v: Json, execution: Seq<char>)
    requires
        asks_await(v, execution),
    ensures
        json::text_member(v, "execution_handle"@) == Some(execution),
{
    let m = v->Object_0@;
    assert(json::member_from(m, "execution_handle"@, 0) == Some(m[0].1));
}

/// What the guest answers, the driver reads back: handles echo, outcomes and
/// lifecycle states come out as they went in, and so do attestations and
/// snapshots.
pub proof fn law_answers_are_understood(v: Json, r: Response, op: Seq<char>)
    requires
        wire::answers(v, r),
    ensures
        match r {
            Response::Unit(handle) => echo_fault(v, "unit_handle"@, handle@, op) is None,
            Response::Execution(handle) => echo_fault(
                v,
                "execution_handle"@,
                handle@,
                op,
            ) is None,
            Response::ExitStatus(code) => close::await_outcome(v) == Ok::<
                ExecutionOutcome,
                ErrorView,
            >(ExecutionOutcome::Exited(code)),
            Response::Signal(signum) => close::await_outcome(v) == Ok::<
                ExecutionOutcome,
                ErrorView,
            >(ExecutionOutcome::Signaled(signum)),
            Response::Lifecycle(state) => lifecycle_in(v) == Ok::<LifecycleState, ErrorView>(state),
            Response::Snapshot(snapshot) => snapshot_shape(v) && holds_snapshot(v, snapshot),
            Response::Started(a) => json::member(v, "started_attestation"@) matches Some(x)
                && started_shape(x) && holds_started(x, a),
            Response::Stopped(a) => identity_in(v, "stopped_attestation"@, op) == Ok::<
                Seq<char>,
                ErrorView,
            >(a.unit_identity@),
            Response::Removed(a) => identity_in(v, "removed_attestation"@, op) == Ok::<
                Seq<char>,
                ErrorView,
            >(a.unit_identity@),
        },
{
    let m = v->Object_0@;
    assert(json::member_from(m, m[0].0@, 0) == Some(m[0].1));
    reveal_strlit("exit_status");
    reveal_strlit("signal");
    reveal_strlit("unit_identity");
    reveal_strlit("lifecycle");
    assert("exit_status"@.len() == 11 && "signal"@.len() == 6);
    assert("unit_identity"@.len() == 13 && "lifecycle"@.len() == 9);
    match r {
        Response::Signal(_) => {
            assert(json::member_from(m, "exit_status"@, 1) is None);
            assert(json::member_from(m, "exit_status"@, 0) is None);
        },
        Response::Snapshot(_) => {
            reveal_strlit("active_state");
            reveal_strlit("session_id");
            reveal_strlit("image");
            assert("active_state"@.len() == 12 && "session_id"@.len() == 10);
            assert("image"@.len() == 5);
            assert(json::member_from(m, "lifecycle"@, 1) == Some(m[1].1));
            assert(json::member_from(m, "lifecycle"@, 0) == Some(m[1].1));
            assert(json::member_from(m, "active_state"@, 2) == Some(m[2].1));
            assert(json::member_from(m, "active_state"@, 1) == Some(m[2].1));
            assert(json::member_from(m, "active_state"@, 0) == Some(m[2].1));
            assert(json::member_from(m, "session_id"@, 3) == Some(m[3].1));
            assert(json::member_from(m, "session_id"@, 2) == Some(m[3].1));
            assert(json::member_from(m, "session_id"@, 1) == Some(m[3].1));
            assert(json::member_from(m, "session_id"@, 0) == Some(m[3].1));
            assert(json::member_from(m, "image"@, 4) == Some(m[4].1));
            assert(json::member_from(m, "image"@, 3) == Some(m[4].1));
            assert(json::member_from(m, "image"@, 2) == Some(m[4].1));
            assert(json::member_from(m, "image"@, 1) == Some(m[4].1));
            assert(json::member_from(m, "image"@, 0) == Some(m[4].1));
        },
        Response::Started(_) => {
            reveal_strlit("pidns_proof");
            reveal_strlit("ready");
            assert("pidns_proof"@.len() == 11 && "ready"@.len() == 5);
            let x = m[0].1->Object_0@;
            assert(json::member_from(x, "unit_identity"@, 0) == Some(x[0].1));
            assert(json::member_from(x, "pidns_proof"@, 1) == Some(x[1].1));
            assert(json::member_from(x, "pidns_proof"@, 0) == Some(x[1].1));
            assert(json::member_from(x, "ready"@, 2) == Some(x[2].1));
            assert(json::member_from(x, "ready"@, 1) == Some(x[2].1));
            assert(json::member_from(x, "ready"@, 0) == Some(x[2].1));
        },
        Response::Stopped(_) => {
            let x = m[0].1->Object_0@;
            assert(json::member_from(x, "unit_identity"@, 0) == Some(x[0].1));
        },
        Response::Removed(_) => {
            let x = m[0].1->Object_0@;
            assert(json::member_from(x, "unit_identity"@, 0) == Some(x[0].1));
        },
        _ => {},
    }
    reveal_strlit("created");
    reveal_strlit("initiated");
    reveal_strlit("executing");
    reveal_strlit("stopped");
    reveal_strlit("absent");
    assert("created"@[0] == 'c' && "initiated"@[0] == 'i' && "executing"@[0] == 'e');
    assert("stopped"@[0] == 's' && "absent"@[0] == 'a');
}

/// A live guest's failure passes the death gate untouched.
pub proof fn law_live_failures_pass(e: ErrorView, fate: FateView, residue: Option<ErrorView>)
    requires
        !fate.dead,
        !fate.uncertain,
    ensures
        gated_error(e, fate, residue) == e,
{
}

/// An abort that is not clean ends with 1, and a clean one with 128 and the
/// signal.
pub proof fn lemma_abort_code(
    residue_left: bool,
    uncertain_before: bool,
    release_failed: bool,
    signum: i32,
)
    requires
        0 < signum <= i32::MAX - 128,
    ensures
        abort_code(residue_left, uncertain_before, release_failed, signum) == if residue_left
            || uncertain_before || release_failed {
            1
        } else {
            128 + signum
        },
{
}

/// A dead guest's failure is what its residue says, when anything is left, and
/// a shutdown that is not known to have worked is told before all else.
pub proof fn law_gates_prefer_the_worse_news(e: ErrorView, fate: FateView, residue: Option<ErrorView>)
    ensures
        !fate.uncertain && fate.dead && residue is None ==> gated_error(e, fate, residue) == e,
        !fate.uncertain && fate.dead && residue is Some ==> gated_error(e, fate, residue)
            == residue->0,
        fate.uncertain && fate.report is None ==> gated_error(e, fate, residue) == e,
        fate.uncertain && fate.report is Some ==> gated_error(e, fate, residue)
            == ErrorView::Protocol(fate.report->0),
{
}

/// A failed hosting is told as it is when nothing was left behind, and as
/// residue when something was; a failed teardown is told instead of either.
pub proof fn law_rehosting_tells_residue(
    teardown: Option<ErrorView>,
    residue_ok: bool,
    rehost_error: ErrorView,
)
    ensures
        teardown is Some ==> rehost_verdict(teardown, residue_ok, rehost_error) == teardown->0,
        teardown is None && residue_ok ==> rehost_verdict(teardown, residue_ok, rehost_error)
            == rehost_error,
        teardown is None && !residue_ok ==> rehost_verdict(teardown, residue_ok, rehost_error)
            == ErrorView::Contract("re-host failure left residue: "@ + rehost_error.rendered()),
{
}

/// A close succeeds only when the shutdown was sent and answered with success.
pub proof fn law_closes_need_an_answer(sent: bool, reply: Option<Result<()>>)
    ensures
        close_outcome(sent, reply) is None <==> sent && reply is Some && reply->0 is Ok,
        !sent ==> close_outcome(sent, reply) == Some(
            ErrorView::Protocol("dispatcher already terminated"@),
        ),
        sent && reply is None ==> close_outcome(sent, reply) == Some(
            ErrorView::Protocol("dispatcher dropped shutdown"@),
        ),
        sent && reply is Some && reply->0 is Err ==> close_outcome(sent, reply) == Some(
            (reply->0)->Err_0@,
        ),
{
}

/// A request holds what is asked under its name: the handles, the key, the
/// command as it stands, the directory or nothing, and the grace.
pub proof fn law_requests_hold_what_is_asked(
    v: Json,
    unit: Seq<char>,
    execution: Seq<char>,
    argv: Seq<Seq<char>>,
    workdir: Option<Seq<char>>,
    grace_ms: u64,
    spec_value: Json,
    key: Seq<char>,
)
    ensures
        asks_unit(v, unit) ==> json::text_member(v, "unit_handle"@) == Some(unit),
        asks_unit_key(v, unit, key) ==> json::text_member(v, "unit_handle"@) == Some(unit)
            && json::text_member(v, "reconciliation_key"@) == Some(key),
        asks_create(v, unit, spec_value, key) ==> json::text_member(v, "unit_handle"@) == Some(unit)
            && json::member(v, "spec"@) == Some(spec_value) && json::text_member(
            v,
            "reconciliation_key"@,
        ) == Some(key),
        asks_terminate(v, unit, grace_ms, key) ==> json::text_member(v, "unit_handle"@) == Some(
            unit,
        ) && (grace_ms <= 0x7fff_ffff_ffff_ffff ==> json::integer_member(v, "grace_ms"@) == Some(
            grace_ms as i64,
        )) && json::text_member(v, "reconciliation_key"@) == Some(key),
        asks_launch(v, unit, execution, argv, workdir, key) ==> {
            &&& json::text_member(v, "unit_handle"@) == Some(unit)
            &&& json::text_member(v, "execution_handle"@) == Some(execution)
            &&& json::member(v, "argv"@) matches Some(Json::Array(list)) && list@.len()
                == argv.len() && (forall|i: int|
                0 <= i < argv.len() ==> (#[trigger] list@[i] matches Json::Str(s) && s@ == argv[i]))
            &&& workdir is Some ==> json::text_member(v, "workdir"@) == workdir
            &&& workdir is None ==> json::member(v, "workdir"@) == Some(Json::Null)
            &&& json::text_member(v, "reconciliation_key"@) == Some(key)
        },
{
    reveal_strlit("unit_handle");
    reveal_strlit("execution_handle");
    reveal_strlit("argv");
    reveal_strlit("workdir");
    reveal_strlit("reconciliation_key");
    reveal_strlit("spec");
    reveal_strlit("grace_ms");
    assert("unit_handle"@.len() == 11 && "execution_handle"@.len() == 16 && "argv"@.len() == 4);
    assert("workdir"@.len() == 7 && "reconciliation_key"@.len() == 18 && "spec"@.len() == 4);
    assert("grace_ms"@.len() == 8);
    if v is Object {
        let m = v->Object_0;
        if asks_unit(v, unit) {
            json::law_members_are_found_by_key(m, "unit_handle"@, 0);
        }
        if asks_unit_key(v, unit, key) {
            json::law_members_are_found_by_key(m, "unit_handle"@, 0);
            json::law_members_are_found_by_key(m, "reconciliation_key"@, 1);
        }
        if asks_create(v, unit, spec_value, key) {
            json::law_members_are_found_by_key(m, "unit_handle"@, 0);
            json::law_members_are_found_by_key(m, "spec"@, 1);
            json::law_members_are_found_by_key(m, "reconciliation_key"@, 2);
        }
        if asks_terminate(v, unit, grace_ms, key) {
            json::law_members_are_found_by_key(m, "unit_handle"@, 0);
            json::law_members_are_found_by_key(m, "grace_ms"@, 1);
            json::law_members_are_found_by_key(m, "reconciliation_key"@, 2);
        }
        if asks_launch(v, unit, execution, argv, workdir, key) {
            json::law_members_are_found_by_key(m, "unit_handle"@, 0);
            json::law_members_are_found_by_key(m, "execution_handle"@, 1);
            json::law_members_are_found_by_key(m, "argv"@, 2);
            json::law_members_are_found_by_key(m, "workdir"@, 3);
            json::law_members_are_found_by_key(m, "reconciliation_key"@, 4);
        }
    }
}

/// A reply echoes a handle only by holding the same text.
pub proof fn law_echoes_are_exact(payload: Json, key: Seq<char>, handle: Seq<char>, op: Seq<char>)
    ensures
        echo_fault(payload, key, handle, op) is None <==> json::text_member(payload, key) == Some(
            handle,
        ),
{
}

/// A lifecycle goes by its name in lower case, and no other text names one.
pub proof fn law_lifecycles_go_by_name(s: Seq<char>)
    ensures
        lifecycle_named(s) == Some(LifecycleState::Created) <==> s == "created"@,
        lifecycle_named(s) == Some(LifecycleState::Initiated) <==> s == "initiated"@,
        lifecycle_named(s) == Some(LifecycleState::Executing) <==> s == "executing"@,
        lifecycle_named(s) == Some(LifecycleState::Stopped) <==> s == "stopped"@,
        lifecycle_named(s) == Some(LifecycleState::Absent) <==> s == "absent"@,
{
    reveal_strlit("created");
    reveal_strlit("initiated");
    reveal_strlit("executing");
    reveal_strlit("stopped");
    reveal_strlit("absent");
    assert("created"@[0] == 'c' && "initiated"@[0] == 'i' && "executing"@[0] == 'e');
    assert("stopped"@[0] == 's' && "absent"@[0] == 'a');
}

/// A state reply is read exactly when its `lifecycle` is a lifecycle's name.
pub proof fn law_states_are_read(payload: Json, state: LifecycleState)
    ensures
        lifecycle_in(payload) == Ok::<LifecycleState, ErrorView>(state) <==> (json::text_member(
            payload,
            "lifecycle"@,
        ) matches Some(s) && lifecycle_named(s) == Some(state)),
{
}

/// Attestations and snapshots are read from the members that hold them.
pub proof fn law_replies_are_read_by_member(
    v: Json,
    a: StartedAttestation,
    s: UnitSnapshot,
    key: Seq<char>,
    op: Seq<char>,
    identity: Seq<char>,
)
    requires
        v is Object,
    ensures
        holds_started(v, a) ==> json::text_member(v, "unit_identity"@) == Some(a.unit_identity@)
            && json::text_member(v, "pidns_proof"@) == Some(a.pidns_proof@) && json::member(
            v,
            "ready"@,
        ) == Some(Json::Bool(a.ready)),
        holds_snapshot(v, s) ==> json::text_member(v, "unit_identity"@) == Some(s.unit_identity@)
            && json::text_member(v, "active_state"@) == Some(s.active_state@) && json::text_member(
            v,
            "session_id"@,
        ) == Some(s.session_id@) && json::text_member(v, "image"@) == Some(s.image@),
        holds_snapshot(v, s) && json::text_member(v, "lifecycle"@) is Some ==> lifecycle_named(
            json::text_member(v, "lifecycle"@)->0,
        ) == Some(s.lifecycle),
        identity_in(v, key, op) == Ok::<Seq<char>, ErrorView>(identity) && json::member(
            v,
            key,
        )->0 is Object ==> json::text_member(json::member(v, key)->0, "unit_identity"@) == Some(
            identity,
        ),
{
}

/// A settled await passes on what was redeemed.
pub proof fn law_awaits_pass_the_outcome_on(response: Json, n: i32)
    requires
        json::member(response, "error"@) is None,
        json::member(response, "ok"@) is Some,
    ensures
        json::integer_member(json::member(response, "ok"@)->0, "exit_status"@) == Some(n as i64)
            ==> await_verdict(response) == Ok::<ExecutionOutcome, ErrorView>(
            ExecutionOutcome::Exited(n),
        ),
        json::integer_member(json::member(response, "ok"@)->0, "exit_status"@) is None
            && json::integer_member(json::member(response, "ok"@)->0, "signal"@) == Some(n as i64)
            ==> await_verdict(response) == Ok::<ExecutionOutcome, ErrorView>(
            ExecutionOutcome::Signaled(n),
        ),
{
}

} // verus!
