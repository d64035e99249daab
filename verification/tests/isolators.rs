//! Guest dispatch, request demultiplexing, terminal payloads, the Podman
//! isolator, and the serving loop.

use cistella::error::CistellaError;
use cistella::framework::contract::{
    Capability, ExecutionHandle, LifecycleState, ReconciliationKey, UnitHandle,
};
use cistella::framework::fdpass::BundleHeader;
use cistella::framework::isolator::{
    started, CreateSpec, ExecutionOutcome, RemovedAttestation, StartedAttestation,
    StoppedAttestation, UnitSnapshot,
};
use cistella::framework::json::Json;
use cistella::framework::protocol::{Envelope, AWAIT_RESULT_OP, HOST_MAX_FRAME};
use cistella::isolators::client::{
    await_payload, check_echo, create_payload, launch_payload, parse_removed, parse_snapshot,
    parse_started, parse_state, parse_stopped, terminate_payload, unit_key_payload, unit_payload,
};
use cistella::isolators::close::{
    complete_close, error_code, parse_await_outcome, redeem, terminal_payload, wire_error,
};
use cistella::isolators::dispatch::{
    send_failure, stream_failure, Dispatcher, FrameVerdict, Submission,
};
use cistella::isolators::podman::{
    classify_state, find_key_in_ps_output, hint_stands, inspect_container, locate_in_listing,
    locate_in_units, needs_stop, parse_inspect, scan_unit_dir, snapshot, status_outcome, words_of,
    AwaitPoll, ChildStatus, PodmanIsolator, PodmanRun, UnitDir, UnitFile,
};
use cistella::isolators::serve::{
    accepts_hello, fd_socket_paths, hello_response, next_step, residue_line, serve_await,
    AwaitFrame, AwaitTick, GuestStep, Heard,
};
use cistella::isolators::wire::{
    operation_of, response_payload, AwaitRequest, CreateRequest, HandleKeyRequest, InspectRequest, IsolatorGuest,
    LaunchRequest, Operation, Payload, Response, Step, Swept, OP_CREATE, OP_EXECUTE_LAUNCH,
    OP_INITIATE, OP_INSPECT, OP_REMOVE, OP_STATE,
};
use cistella::session::Session;
use cistella::transport::TerminalEnv;

fn spec(image: &str) -> CreateSpec {
    CreateSpec {
        session: Session {
            id: "id1".to_string(),
            directory: "/src".to_string(),
            profile: "p".to_string(),
            profile_digest: "d".to_string(),
            identity: "me".to_string(),
            command: vec!["sh".to_string()],
            image: image.to_string(),
            container_home: "/home/cistella".to_string(),
        },
        volumes: vec![],
        env: vec![],
        labels: vec![],
    }
}

fn unit(s: &str) -> UnitHandle {
    UnitHandle(s.to_string())
}

fn key() -> ReconciliationKey {
    ReconciliationKey("k1".to_string())
}

fn create(image: &str) -> CreateRequest {
    CreateRequest {
        unit_handle: unit("u1"),
        spec: spec(image),
        reconciliation_key: key(),
    }
}

fn launch(argv: &str) -> LaunchRequest {
    LaunchRequest {
        unit_handle: unit("u1"),
        execution_handle: ExecutionHandle("e1".to_string()),
        argv: vec![argv.to_string()],
        workdir: None,
        reconciliation_key: key(),
    }
}

fn header() -> BundleHeader {
    BundleHeader {
        unit_handle: "u1".to_string(),
        execution_handle: "e1".to_string(),
    }
}

fn refusal(s: Step) -> String {
    match s {
        Step::Refuse { error, .. } => error.message(),
        other => panic!("expected a refusal, got {other:?}"),
    }
}

fn guest() -> IsolatorGuest {
    let mut g = IsolatorGuest::new().with_fd_channel();
    let s = g.created(create("img"), Ok(unit("local")));
    assert!(matches!(s, Step::Respond(Response::Unit(h)) if h == "u1"));
    g
}

fn running() -> IsolatorGuest {
    let mut g = guest();
    let s = g.launched(launch("sh"), Ok(ExecutionHandle("le".to_string())));
    assert!(matches!(s, Step::Respond(Response::Execution(h)) if h == "e1"));
    g
}

#[test]
fn operations_are_named() {
    assert_eq!(operation_of(OP_CREATE), Some(Operation::Create));
    assert_eq!(operation_of("isolator.nope"), None);
    assert_eq!(
        refusal(IsolatorGuest::new().dispatch("isolator.nope", None)),
        "unknown isolator operation"
    );
    assert_eq!(
        refusal(IsolatorGuest::new().dispatch(OP_CREATE, None)),
        "bad isolator.create payload: shape violation"
    );
}

#[test]
fn creates_locate_before_creating() {
    let mut g = IsolatorGuest::new();
    let s = g.dispatch(OP_CREATE, Some(Payload::Create(create("img"))));
    let req = match s {
        Step::Locate(req) => req,
        other => panic!("expected a locate, got {other:?}"),
    };
    assert!(matches!(g.located(req, Ok(None)), Step::Create(_)));
    let adopted = g.located(create("img"), Ok(Some(unit("found"))));
    assert!(matches!(adopted, Step::Respond(Response::Unit(_))));
    assert!(g.has_live_state());
}

#[test]
fn creates_replay_or_refuse() {
    let g = guest();
    assert!(matches!(
        g.dispatch(OP_CREATE, Some(Payload::Create(create("img")))),
        Step::Respond(Response::Unit(_))
    ));
    assert_eq!(
        refusal(g.dispatch(OP_CREATE, Some(Payload::Create(create("other"))))),
        "unit handle bound to a different attempt: u1"
    );
}

#[test]
fn unknown_units_never_reach_the_backend() {
    let g = IsolatorGuest::new();
    let inspect = |h: &str| {
        g.dispatch(
            OP_INSPECT,
            Some(Payload::Inspect(InspectRequest { unit_handle: unit(h) })),
        )
    };
    assert_eq!(refusal(inspect("u9")), "unknown unit handle: u9");
    assert_eq!(refusal(inspect("U 9")), "bad unit handle: shape violation");
    assert_eq!(
        refusal(g.dispatch(
            OP_INITIATE,
            Some(Payload::Initiate(HandleKeyRequest {
                unit_handle: unit("u9"),
                reconciliation_key: key(),
            }))
        )),
        "unknown unit handle: u9"
    );
    assert_eq!(
        refusal(g.dispatch(
            AWAIT_RESULT_OP,
            Some(Payload::Await(AwaitRequest {
                execution_handle: ExecutionHandle("e9".to_string()),
            }))
        )),
        "unknown execution handle: e9"
    );
}

#[test]
fn launches_need_a_channel_and_their_bundle() {
    let mut without = IsolatorGuest::new();
    let _ = without.created(create("img"), Ok(unit("local")));
    assert_eq!(
        refusal(without.dispatch(OP_EXECUTE_LAUNCH, Some(Payload::Launch(launch("sh"))))),
        "launch requires an fd channel"
    );
    let g = guest();
    let (request, local) =
        match g.dispatch(OP_EXECUTE_LAUNCH, Some(Payload::Launch(launch("sh")))) {
            Step::LaunchBundle { request, local } => (request, local),
            other => panic!("expected a bundle, got {other:?}"),
        };
    assert!(matches!(
        IsolatorGuest::bundled(request, local, Ok(header())),
        Step::Launch { .. }
    ));
    let mut wrong = header();
    wrong.execution_handle = "e2".to_string();
    assert_eq!(
        refusal(IsolatorGuest::bundled(launch("sh"), unit("local"), Ok(wrong))),
        "fd bundle bound to a different launch"
    );
}

#[test]
fn launches_replay_or_refuse() {
    let g = running();
    assert!(matches!(
        g.dispatch(OP_EXECUTE_LAUNCH, Some(Payload::Launch(launch("sh")))),
        Step::ReplayBundle { .. }
    ));
    assert!(matches!(
        IsolatorGuest::replayed(&unit("u1"), &ExecutionHandle("e1".to_string()), Ok(header())),
        Step::Respond(Response::Execution(_))
    ));
    assert_eq!(
        refusal(g.dispatch(OP_EXECUTE_LAUNCH, Some(Payload::Launch(launch("zsh"))))),
        "execution handle bound to a different attempt: e1"
    );
}

#[test]
fn launches_on_another_unit_are_divergent() {
    let mut g = running();
    let mut second = create("img");
    second.unit_handle = unit("u2");
    second.reconciliation_key = ReconciliationKey("k2".to_string());
    assert!(matches!(g.created(second, Ok(unit("local2"))), Step::Respond(Response::Unit(_))));
    let mut again = launch("sh");
    again.unit_handle = unit("u2");
    match g.dispatch(OP_EXECUTE_LAUNCH, Some(Payload::Launch(again))) {
        Step::Refuse { error: CistellaError::Contract(m), drain } => {
            assert_eq!(m, "execution handle bound to a different attempt: e1");
            assert!(drain);
        }
        other => panic!("expected a refusal, got {other:?}"),
    }
}

#[test]
fn refused_launches_drain_their_bundle() {
    let g = running();
    let drains = |req: LaunchRequest| match g.dispatch(OP_EXECUTE_LAUNCH, Some(Payload::Launch(req))) {
        Step::Refuse { drain, .. } => drain,
        other => panic!("expected a refusal, got {other:?}"),
    };
    assert!(drains(launch("zsh")));
    let mut bad = launch("sh");
    bad.execution_handle = ExecutionHandle("no handle".to_string());
    assert!(drains(bad));
    let mut unknown = launch("sh");
    unknown.unit_handle = unit("u9");
    assert!(drains(unknown));
    assert!(matches!(
        g.dispatch(OP_EXECUTE_LAUNCH, None),
        Step::Refuse { drain: true, .. }
    ));
}

#[test]
fn removed_units_stay_removed() {
    let mut g = running();
    let s = g.removed(
        unit("u1"),
        unit("local"),
        true,
        Ok(RemovedAttestation {
            unit_identity: "cistella-id1".to_string(),
        }),
    );
    assert!(matches!(s, Step::Respond(Response::Removed(_))));
    assert_eq!(
        refusal(g.dispatch(OP_CREATE, Some(Payload::Create(create("img"))))),
        "unit handle removed: u1"
    );
    assert!(matches!(
        g.dispatch(
            OP_STATE,
            Some(Payload::State(InspectRequest { unit_handle: unit("u1") }))
        ),
        Step::Respond(Response::Lifecycle(LifecycleState::Absent))
    ));
    assert!(matches!(
        g.dispatch(
            OP_INSPECT,
            Some(Payload::Inspect(InspectRequest { unit_handle: unit("u1") }))
        ),
        Step::Respond(Response::Snapshot(s)) if s.unit_identity == "cistella-id1"
    ));
    assert_eq!(
        refusal(g.dispatch(
            AWAIT_RESULT_OP,
            Some(Payload::Await(AwaitRequest {
                execution_handle: ExecutionHandle("e1".to_string()),
            }))
        )),
        "unknown execution handle: e1"
    );
    assert!(matches!(
        g.dispatch(
            OP_REMOVE,
            Some(Payload::Remove(HandleKeyRequest {
                unit_handle: unit("u1"),
                reconciliation_key: key(),
            }))
        ),
        Step::Remove { evict: false, .. }
    ));
}

#[test]
fn awaits_answer_with_their_outcome() {
    assert!(matches!(
        IsolatorGuest::awaited(Ok(ExecutionOutcome::Exited(2))),
        Step::Respond(Response::ExitStatus(2))
    ));
    assert!(matches!(
        IsolatorGuest::awaited(Ok(ExecutionOutcome::Signaled(9))),
        Step::Respond(Response::Signal(9))
    ));
}

#[test]
fn sweeps_clear_what_converged() {
    assert!(running().converge_all().is_empty());
    let mut g = guest();
    let targets = g.converge_all();
    assert_eq!(targets.len(), 1);
    assert_eq!(targets[0].handle, "u1");
    assert!(g
        .settle_sweep(vec![Swept {
            handle: "u1".to_string(),
            terminated: Ok(()),
            removed: Err(CistellaError::Runtime("stuck".to_string())),
        }])
        .is_err());
    assert!(g.has_live_state());
    assert!(g
        .settle_sweep(vec![Swept {
            handle: "u1".to_string(),
            terminated: Ok(()),
            removed: Ok(()),
        }])
        .is_ok());
    assert!(!g.has_live_state());
}

fn submit(d: &mut Dispatcher, op: &str, payload: Json, timeout: Option<u64>) -> (Envelope, Submission) {
    d.submit(op.to_string(), payload, timeout, 100, 7)
}

fn answer(id: &str, op: &str, payload: Json) -> Result<Envelope, CistellaError> {
    Ok(Envelope {
        protocol: 1,
        id: id.to_string(),
        op: op.to_string(),
        payload,
    })
}

fn pending() -> Json {
    Json::Object(vec![("pending".to_string(), Json::Bool(true))])
}

#[test]
fn answers_reach_their_caller() {
    let mut d = Dispatcher::new(100);
    let (e, s) = submit(&mut d, "op", Json::Null, Some(50));
    assert_eq!(s.send_by, 150);
    let (e2, _) = submit(&mut d, "op", Json::Null, Some(50));
    assert_ne!(e.id, e2.id);
    assert!(d.admit_frame(&s, 100).is_none());
    assert!(d.admit_frame(&s, 101).is_some());
    d.sent(s);
    assert!(matches!(
        d.route(answer(&e.id, "op", Json::Bool(true))),
        FrameVerdict::Answer(r) if r.caller == 7 && r.outcome.is_ok()
    ));
    assert!(matches!(
        d.route(answer(&e.id, "op", Json::Null)),
        FrameVerdict::Fatal("unsolicited response id")
    ));
    assert!(matches!(
        d.route(Err(CistellaError::Protocol("x".to_string()))),
        FrameVerdict::Fatal("malformed response frame")
    ));
}

#[test]
fn mismatched_answers_are_refused() {
    let mut d = Dispatcher::new(100);
    let (e, s) = submit(&mut d, "op", Json::Null, Some(50));
    d.sent(s);
    assert!(matches!(
        d.route(answer(&e.id, "other", Json::Null)),
        FrameVerdict::Answer(r) if r.outcome.is_err()
    ));
    let (e, s) = submit(&mut d, "op", Json::Null, Some(50));
    d.sent(s);
    assert!(matches!(
        d.route(answer(&e.id, "op", pending())),
        FrameVerdict::Answer(r) if r.outcome.is_err()
    ));
}

#[test]
fn uncapped_awaits_never_expire() {
    let mut d = Dispatcher::new(100);
    let payload = Json::Object(vec![(
        "execution_handle".to_string(),
        Json::Str("e1".to_string()),
    )]);
    let (e, s) = submit(&mut d, AWAIT_RESULT_OP, payload, None);
    d.sent(s);
    assert!(d.expire(u64::MAX).is_empty());
    assert!(matches!(d.route(answer(&e.id, AWAIT_RESULT_OP, pending())), FrameVerdict::Quiet));
    d.detach_by_exec("e1");
    assert!(matches!(d.route(answer(&e.id, AWAIT_RESULT_OP, Json::Null)), FrameVerdict::Quiet));
}

#[test]
fn late_terminals_of_expired_calls_drop() {
    let mut d = Dispatcher::new(100);
    let (e, s) = submit(&mut d, "op", Json::Null, Some(50));
    d.sent(s);
    assert!(d.expire(149).is_empty());
    let replies = d.expire(150);
    assert_eq!(replies.len(), 1);
    assert!(matches!(
        &replies[0].outcome,
        Err(CistellaError::Protocol(m)) if m == "op response timed out"
    ));
    assert!(matches!(d.route(answer(&e.id, "op", Json::Null)), FrameVerdict::Quiet));
}

#[test]
fn fatal_paths_tell_the_truth() {
    let mut d = Dispatcher::new(100);
    let (_, s) = submit(&mut d, "op", Json::Null, Some(50));
    d.sent(s);
    let (replies, detail) = d.fatal("gone", &Ok(()));
    assert!(matches!(
        &replies[0].outcome,
        Err(CistellaError::Protocol(m)) if m == "guest terminated during op: gone"
    ));
    assert!(detail.is_none());
    assert!(d.fate().dead && !d.fate().uncertain && d.stopping());
    let mut d = Dispatcher::new(100);
    let (_, s) = submit(&mut d, "op", Json::Null, Some(50));
    let error = CistellaError::Protocol("frame write timed out".to_string());
    let (_, own) = d.send_failed(s, &error, &Err(CistellaError::Protocol("hung".to_string())));
    assert!(matches!(
        &own.outcome,
        Err(CistellaError::Protocol(m))
            if m == "guest terminated during op: guest send timed out; guest shutdown failed: protocol: hung"
    ));
    assert!(!d.fate().dead && d.fate().uncertain);
    let mut d = Dispatcher::new(100);
    d.shut();
    assert!(d.stopping());
    assert_eq!(send_failure(&CistellaError::LockContended), "guest send failed");
    assert!(stream_failure(&CistellaError::Protocol("frame read timed out: idle".to_string())).is_none());
    assert!(stream_failure(&CistellaError::LockContended).is_some());
}

#[test]
fn errors_cross_the_wire() {
    let m = || "m".to_string();
    let all = vec![
        CistellaError::Profile(m()),
        CistellaError::Mount(m()),
        CistellaError::Runtime(m()),
        CistellaError::Transport(m()),
        CistellaError::Contract(m()),
        CistellaError::Protocol(m()),
        CistellaError::Identity(m()),
        CistellaError::Preflight(m()),
        CistellaError::LockContended,
        CistellaError::Selector(m()),
        CistellaError::Detached(m()),
    ];
    for e in all {
        let shown = e.render();
        let back = redeem("op", terminal_payload(Err(e))).unwrap_err();
        assert_eq!(back.render(), shown);
    }
    let io = redeem("op", terminal_payload(Err(CistellaError::Io(m())))).unwrap_err();
    assert_eq!(io.render(), "runtime: guest io: m");
    assert_eq!(error_code(&CistellaError::LockContended), "lock-contended");
    assert_eq!(wire_error("odd", "m").render(), "contract: unknown guest error code: odd");
}

#[test]
fn successes_cross_the_wire() {
    assert!(matches!(
        redeem("op", terminal_payload(Ok(Json::Integer(3)))),
        Ok(Json::Integer(3))
    ));
}

#[test]
fn malformed_terminals_are_refused() {
    let object = |k: &str, v: Json| Json::Object(vec![(k.to_string(), v)]);
    let fault = |v: Json| redeem("op", v).unwrap_err().render();
    assert_eq!(fault(Json::Null), "contract: bad op response: not an object");
    assert_eq!(fault(object("x", Json::Null)), "contract: bad op response: exactly one of ok/error");
    assert_eq!(fault(object("error", Json::Null)), "contract: bad op response: error shape");
    assert_eq!(
        fault(object("error", object("x", Json::Null))),
        "contract: bad op response: error without code"
    );
    assert_eq!(
        fault(object("error", object("code", Json::Str("io".to_string())))),
        "contract: bad op response: error without message"
    );
}

#[test]
fn await_outcomes_parse() {
    let object = |k: &str, n: i64| Json::Object(vec![(k.to_string(), Json::Integer(n))]);
    assert_eq!(
        parse_await_outcome(&object("exit_status", 3)).unwrap(),
        ExecutionOutcome::Exited(3)
    );
    assert_eq!(
        parse_await_outcome(&object("signal", 9)).unwrap(),
        ExecutionOutcome::Signaled(9)
    );
    assert!(parse_await_outcome(&object("exit_status", i64::MAX)).is_err());
    assert!(parse_await_outcome(&Json::Null).is_err());
    assert!(complete_close(Some(Ok(()))).is_ok());
    assert_eq!(
        complete_close(None).unwrap_err().render(),
        "protocol: dispatcher dropped shutdown"
    );
}

#[test]
fn podman_output_is_read() {
    assert_eq!(words_of(" a\tb  c\n"), vec!["a", "b", "c"]);
    assert_eq!(
        find_key_in_ps_output("x <none>\ncistella-id1 id1\n"),
        Some(("cistella-id1".to_string(), "id1".to_string()))
    );
    assert_eq!(find_key_in_ps_output("\n"), None);
    assert_eq!(
        parse_inspect("running id1 img\n"),
        (Some("running".to_string()), "id1".to_string(), "img".to_string())
    );
    assert_eq!(parse_inspect(""), (None, String::new(), String::new()));
}

#[test]
fn unit_scans_refuse_unreadable_candidates() {
    let file = |name: &str, content: Result<String, String>| UnitFile {
        name: name.to_string(),
        path: format!("/u/{name}"),
        content,
    };
    let labels = |k: &str| {
        Ok(format!(
            "Label=cistella.reconciliation-key=\"{k}\"\nLabel=cistella.id=\"id1\"\n"
        ))
    };
    let found = scan_unit_dir(
        &vec![
            file("other.txt", Err("x".to_string())),
            file("cistella-a.container", labels("k0")),
            file("cistella-b.container", labels("k1")),
        ],
        "k1",
    );
    assert_eq!(found.unwrap(), Some(("cistella-b".to_string(), "id1".to_string())));
    let refused = scan_unit_dir(&vec![file("cistella-a.container", Err("eperm".to_string()))], "k1");
    assert_eq!(
        refused.unwrap_err().render(),
        "runtime: unreadable candidate unit /u/cistella-a.container: eperm"
    );
}

#[test]
fn locating_a_key_fails_closed() {
    let printed = |s: &str| PodmanRun::Printed(s.to_string());
    assert_eq!(
        locate_in_listing(&printed("cistella-id1 id1\n")).unwrap(),
        Some(("cistella-id1".to_string(), "id1".to_string()))
    );
    assert_eq!(locate_in_listing(&printed("")).unwrap(), None);
    assert_eq!(
        locate_in_listing(&PodmanRun::Failed("no".to_string())).unwrap_err().render(),
        "runtime: podman ps for key failed: no"
    );
    assert_eq!(
        locate_in_listing(&PodmanRun::Broken("gone".to_string())).unwrap_err().render(),
        "runtime: podman ps for key: gone"
    );
    assert_eq!(locate_in_units(&UnitDir::Absent, "k1").unwrap(), None);
    assert_eq!(
        locate_in_units(&UnitDir::Failed("/u".to_string(), "eperm".to_string()), "k1")
            .unwrap_err()
            .render(),
        "runtime: scan /u: eperm"
    );
    assert_eq!(locate_in_units(&UnitDir::Files(vec![]), "k1").unwrap(), None);
    assert!(hint_stands(&Ok(true), false));
    assert!(hint_stands(&Err(CistellaError::LockContended), true));
    assert!(!hint_stands(&Err(CistellaError::LockContended), false));
}

#[test]
fn inspections_tell_absence_from_failure() {
    let run = |s: &str| PodmanRun::Failed(s.to_string());
    assert_eq!(
        inspect_container("c", &run("no"), Ok(false)).unwrap(),
        (None, String::new(), String::new())
    );
    assert_eq!(
        inspect_container("c", &run("no"), Ok(true)).unwrap_err().render(),
        "runtime: podman inspect c failed while container exists: no"
    );
    let seen = inspect_container("c", &PodmanRun::Printed("running id1 img".to_string()), Ok(true));
    let s = snapshot("c", seen.unwrap(), None, true, true);
    assert_eq!(s.lifecycle, LifecycleState::Executing);
    assert_eq!(s.active_state, "inactive");
    assert_eq!(s.session_id, "id1");
    assert!(needs_stop(true, Err(CistellaError::LockContended)).unwrap());
    assert!(!needs_stop(false, Ok(false)).unwrap());
    assert!(needs_stop(false, Err(CistellaError::LockContended)).is_err());
}

#[test]
fn states_are_classified() {
    assert_eq!(classify_state(None, Some("running"), true, false), LifecycleState::Initiated);
    assert_eq!(classify_state(None, Some("running"), true, true), LifecycleState::Executing);
    assert_eq!(classify_state(None, Some("exited"), true, true), LifecycleState::Stopped);
    assert_eq!(classify_state(None, None, false, false), LifecycleState::Absent);
    assert_eq!(classify_state(Some("failed"), None, true, false), LifecycleState::Stopped);
    assert_eq!(classify_state(Some("inactive"), None, true, false), LifecycleState::Created);
}

#[test]
fn statuses_prefer_the_cancellation() {
    assert_eq!(
        status_outcome(Some(2), true, true, Some(9), Some(3)),
        ExecutionOutcome::Signaled(2)
    );
    assert_eq!(status_outcome(None, true, true, None, None), ExecutionOutcome::Signaled(1));
    assert_eq!(status_outcome(None, false, true, None, None), ExecutionOutcome::Signaled(15));
    assert_eq!(status_outcome(None, false, false, Some(9), None), ExecutionOutcome::Signaled(9));
    assert_eq!(status_outcome(None, false, false, None, Some(3)), ExecutionOutcome::Exited(3));
}

#[test]
fn outcomes_replay_until_remove() {
    let mut p = PodmanIsolator::new();
    let handle = p.register(&spec("img"), &key(), 1, &[0, 0, 0, 0, 1]);
    assert_eq!(p.record(&handle).unwrap().unit_name, "cistella-id1.container");
    assert!(p.locate_hint(&key()).is_some());
    let execution = p.execute_launch(&handle, 1, &[0, 0, 0, 0, 2]);
    assert!(p.executing(&handle));
    assert!(matches!(p.await_result(&execution), Ok(AwaitPoll::Look)));
    assert!(matches!(
        p.observed(&execution, ChildStatus::Running, Some(15), false, false),
        Err(CistellaError::Detached(_))
    ));
    let ended = ChildStatus::Ended {
        signal: None,
        code: Some(4),
    };
    assert_eq!(
        p.observed(&execution, ended, None, false, false).unwrap(),
        Some(ExecutionOutcome::Exited(4))
    );
    for _ in 0..2 {
        assert!(matches!(
            p.await_result(&execution),
            Ok(AwaitPoll::Outcome(ExecutionOutcome::Exited(4)))
        ));
    }
    assert!(!p.executing(&handle));
    p.remove(&handle);
    assert!(p.await_result(&execution).is_err());
    p.forget_key(&key());
    assert!(p.locate_hint(&key()).is_none());
    assert!(PodmanIsolator::capabilities().supports(Capability::Mounts));
    assert!(!PodmanIsolator::capabilities().supports(Capability::Credentials));
}

#[test]
fn guests_serve_until_their_host_leaves() {
    let protocol = |m: &str| Heard::Failed(CistellaError::Protocol(m.to_string()));
    assert_eq!(next_step(&protocol("eof at frame boundary"), false), GuestStep::Quit);
    assert_eq!(next_step(&protocol("eof at frame boundary"), true), GuestStep::Abandon);
    assert_eq!(next_step(&protocol("frame read timed out: idle"), true), GuestStep::Continue);
    assert_eq!(next_step(&Heard::Garbled, false), GuestStep::Abandon);
    let op = |s: &str| Heard::Envelope(s.to_string());
    assert_eq!(next_step(&op("hello"), false), GuestStep::Abandon);
    assert_eq!(next_step(&op(AWAIT_RESULT_OP), false), GuestStep::Await);
    assert_eq!(next_step(&op(OP_CREATE), false), GuestStep::Dispatch);
    assert_eq!(
        residue_line(&CistellaError::LockContended),
        "error: disconnect converge left residue: lock contended"
    );
}

#[test]
fn guests_say_hello() {
    assert!(accepts_hello("hello", 1));
    assert!(!accepts_hello("hello", 2));
    assert!(!accepts_hello("other", 1));
    let h = hello_response();
    assert_eq!(h.capabilities, vec!["isolator"]);
    assert_eq!(h.max_frame, Some(HOST_MAX_FRAME as u32));
    let argv: Vec<String> = ["g", "--fd-socket", "/a", "x", "--fd-socket", "/b", "--fd-socket"]
        .iter()
        .map(|s| s.to_string())
        .collect();
    assert_eq!(fd_socket_paths(&argv), vec!["/a", "/b"]);
}

fn shown(v: &Json) -> String {
    match v {
        Json::Null => "null".to_string(),
        Json::Bool(b) => format!("{b}"),
        Json::Integer(i) => format!("{i}"),
        Json::Number(n) => n.clone(),
        Json::Str(s) => format!("'{s}'"),
        Json::Array(items) => {
            let parts: Vec<String> = items.iter().map(shown).collect();
            format!("[{}]", parts.join(","))
        }
        Json::Object(members) => {
            let parts: Vec<String> = members
                .iter()
                .map(|(k, v)| format!("{k}:{}", shown(v)))
                .collect();
            format!("{{{}}}", parts.join(","))
        }
    }
}

#[test]
fn requests_carry_their_payloads() {
    let unit = UnitHandle("u".to_string());
    let execution = ExecutionHandle("e".to_string());
    let key = ReconciliationKey("k".to_string());
    assert_eq!(shown(&unit_payload(&unit)), "{unit_handle:'u'}");
    assert_eq!(
        shown(&unit_key_payload(&unit, &key)),
        "{unit_handle:'u',reconciliation_key:'k'}"
    );
    assert_eq!(
        shown(&create_payload(&unit, Json::Bool(true), &key)),
        "{unit_handle:'u',spec:true,reconciliation_key:'k'}"
    );
    let argv = ["a".to_string(), "b".to_string()];
    assert_eq!(
        shown(&launch_payload(&unit, &execution, &argv, Some("/w"), &key)),
        "{unit_handle:'u',execution_handle:'e',argv:['a','b'],workdir:'/w',reconciliation_key:'k'}"
    );
    assert!(shown(&launch_payload(&unit, &execution, &argv, None, &key)).contains("workdir:null"));
    assert_eq!(shown(&await_payload(&execution)), "{execution_handle:'e'}");
    assert_eq!(
        shown(&terminate_payload(&unit, 10_000, &key)),
        "{unit_handle:'u',grace_ms:10000,reconciliation_key:'k'}"
    );
    assert!(shown(&terminate_payload(&unit, u64::MAX, &key))
        .contains("grace_ms:18446744073709551615"));
}

#[test]
fn awaits_tick_until_their_terminal() {
    match serve_await(AwaitTick::Silence) {
        AwaitFrame::Pending(v) => assert_eq!(shown(&v), "{pending:true}"),
        other => panic!("{other:?}"),
    }
    match serve_await(AwaitTick::Settled(Ok(Json::Integer(3)))) {
        AwaitFrame::Terminal(v) => assert_eq!(shown(&v), "{ok:3}"),
        other => panic!("{other:?}"),
    }
    match serve_await(AwaitTick::Settled(Err(CistellaError::Runtime("x".to_string())))) {
        AwaitFrame::Terminal(v) => assert_eq!(shown(&v), "{error:{code:'runtime',message:'x'}}"),
        other => panic!("{other:?}"),
    }
    assert!(matches!(serve_await(AwaitTick::Gone), AwaitFrame::Stop));
}

#[test]
fn answers_read_back_as_they_were_given() {
    let unit_answer = response_payload(&Response::Unit("u1".to_string()));
    assert_eq!(shown(&unit_answer), "{unit_handle:'u1'}");
    assert!(check_echo(&unit_answer, "unit_handle", "u1", "create").is_ok());
    assert!(check_echo(&unit_answer, "unit_handle", "u2", "create").is_err());
    let execution = response_payload(&Response::Execution("e1".to_string()));
    assert!(check_echo(&execution, "execution_handle", "e1", "launch").is_ok());
    let exited = response_payload(&Response::ExitStatus(-7));
    assert_eq!(shown(&exited), "{exit_status:-7}");
    assert_eq!(parse_await_outcome(&exited).unwrap(), ExecutionOutcome::Exited(-7));
    let signaled = response_payload(&Response::Signal(9));
    assert_eq!(parse_await_outcome(&signaled).unwrap(), ExecutionOutcome::Signaled(9));
    for state in [
        LifecycleState::Created,
        LifecycleState::Initiated,
        LifecycleState::Executing,
        LifecycleState::Stopped,
        LifecycleState::Absent,
    ] {
        assert_eq!(parse_state(&response_payload(&Response::Lifecycle(state))).unwrap(), state);
    }
}

#[test]
fn attestations_and_snapshots_cross_whole() {
    let attested = response_payload(&Response::Started(StartedAttestation {
        unit_identity: "c1".to_string(),
        pidns_proof: "pid:[1]".to_string(),
        ready: true,
    }));
    assert_eq!(
        shown(&attested),
        "{started_attestation:{unit_identity:'c1',pidns_proof:'pid:[1]',ready:true}}"
    );
    let a = parse_started(&attested).unwrap();
    assert_eq!((a.unit_identity.as_str(), a.pidns_proof.as_str(), a.ready), ("c1", "pid:[1]", true));
    let stopped = response_payload(&Response::Stopped(StoppedAttestation {
        unit_identity: "c1".to_string(),
    }));
    assert_eq!(shown(&stopped), "{stopped_attestation:{unit_identity:'c1'}}");
    assert_eq!(parse_stopped(&stopped).unwrap().unit_identity, "c1");
    let removed = response_payload(&Response::Removed(RemovedAttestation {
        unit_identity: "c1".to_string(),
    }));
    assert_eq!(shown(&removed), "{removed_attestation:{unit_identity:'c1'}}");
    assert_eq!(parse_removed(&removed).unwrap().unit_identity, "c1");
    let snap = response_payload(&Response::Snapshot(UnitSnapshot {
        unit_identity: "c1".to_string(),
        lifecycle: LifecycleState::Stopped,
        active_state: "inactive".to_string(),
        session_id: "id1".to_string(),
        image: "img".to_string(),
    }));
    assert_eq!(
        shown(&snap),
        "{unit_identity:'c1',lifecycle:'stopped',active_state:'inactive',session_id:'id1',image:'img'}"
    );
    let back = parse_snapshot(&snap).unwrap();
    assert_eq!(back.unit_identity, "c1");
    assert_eq!(back.lifecycle, LifecycleState::Stopped);
    assert_eq!(back.active_state, "inactive");
    assert_eq!(back.session_id, "id1");
    assert_eq!(back.image, "img");
}

#[test]
fn answers_outside_their_schema_refuse() {
    let object = |members: Vec<(&str, Json)>| {
        Json::Object(members.into_iter().map(|(k, v)| (k.to_string(), v)).collect())
    };
    let word = |s: &str| Json::Str(s.to_string());
    assert_eq!(
        parse_started(&object(vec![])).unwrap_err().render(),
        "contract: bad initiate response: shape"
    );
    let untyped = object(vec![(
        "started_attestation",
        object(vec![
            ("unit_identity", word("c1")),
            ("pidns_proof", word("pid:[1]")),
            ("ready", word("yes")),
        ]),
    )]);
    assert_eq!(
        parse_started(&untyped).unwrap_err().render(),
        "contract: bad initiate response: shape violation"
    );
    let bare = object(vec![("stopped_attestation", Json::Null)]);
    assert_eq!(
        parse_stopped(&bare).unwrap_err().render(),
        "contract: bad terminate response: shape violation"
    );
    assert_eq!(
        parse_removed(&bare).unwrap_err().render(),
        "contract: bad remove response: shape"
    );
    let odd = object(vec![
        ("unit_identity", word("c1")),
        ("lifecycle", word("asleep")),
        ("active_state", word("")),
        ("session_id", word("")),
        ("image", word("")),
    ]);
    assert_eq!(
        parse_snapshot(&odd).unwrap_err().render(),
        "contract: bad inspect response: shape violation"
    );
}

#[test]
fn answers_may_list_their_fields_in_order() {
    let under = |key: &str, v: Json| Json::Object(vec![(key.to_string(), v)]);
    let word = |s: &str| Json::Str(s.to_string());
    let started = |items: Vec<Json>| parse_started(&under("started_attestation", Json::Array(items)));
    let a = started(vec![word("c1"), word("pid:[1]"), Json::Bool(false)]).unwrap();
    assert_eq!((a.unit_identity.as_str(), a.pidns_proof.as_str(), a.ready), ("c1", "pid:[1]", false));
    for items in [
        vec![],
        vec![word("c1"), word("pid:[1]")],
        vec![word("c1"), Json::Bool(true), word("pid:[1]")],
        vec![word("c1"), word("pid:[1]"), Json::Bool(true), Json::Null],
    ] {
        assert_eq!(
            started(items).unwrap_err().render(),
            "contract: bad initiate response: shape violation"
        );
    }
    let one = || Json::Array(vec![word("c1")]);
    let two = || Json::Array(vec![word("c1"), word("c2")]);
    let stopped = parse_stopped(&under("stopped_attestation", one())).unwrap();
    assert_eq!(stopped.unit_identity, "c1");
    let removed = parse_removed(&under("removed_attestation", one())).unwrap();
    assert_eq!(removed.unit_identity, "c1");
    assert!(parse_stopped(&under("stopped_attestation", two())).is_err());
    assert!(parse_removed(&under("removed_attestation", two())).is_err());

    let snapshot = |lifecycle: Json| {
        parse_snapshot(&Json::Array(vec![
            word("c1"),
            lifecycle,
            word("active"),
            word("id1"),
            word("img"),
        ]))
    };
    for lifecycle in [word("executing"), under("executing", Json::Null)] {
        let s = snapshot(lifecycle).unwrap();
        assert_eq!(s.unit_identity, "c1");
        assert_eq!(s.lifecycle, LifecycleState::Executing);
        assert_eq!(s.active_state, "active");
        assert_eq!(s.session_id, "id1");
        assert_eq!(s.image, "img");
    }
    let both = Json::Object(vec![
        ("executing".to_string(), Json::Null),
        ("stopped".to_string(), Json::Null),
    ]);
    for lifecycle in [
        both,
        under("executing", Json::Bool(true)),
        under("asleep", Json::Null),
        Json::Object(vec![]),
        Json::Null,
    ] {
        assert_eq!(
            snapshot(lifecycle).unwrap_err().render(),
            "contract: bad inspect response: shape violation"
        );
    }
    assert!(parse_state(&under("lifecycle", under("executing", Json::Null))).is_err());
}

#[test]
fn members_outside_the_schema_are_ignored() {
    let word = |s: &str| Json::Str(s.to_string());
    let v = Json::Object(vec![(
        "stopped_attestation".to_string(),
        Json::Object(vec![
            ("extra".to_string(), Json::Null),
            ("unit_identity".to_string(), word("c1")),
        ]),
    )]);
    assert_eq!(parse_stopped(&v).unwrap().unit_identity, "c1");
}

#[test]
fn initiate_needs_a_namespace_proof() {
    let a = started("c1", Some("pid:[7]".to_string())).unwrap();
    assert_eq!((a.unit_identity.as_str(), a.pidns_proof.as_str(), a.ready), ("c1", "pid:[7]", true));
    for none in [None, Some(String::new())] {
        assert_eq!(
            started("c1", none).unwrap_err().render(),
            "runtime: cannot prove the PID namespace of c1"
        );
    }
}

#[test]
fn adopted_units_are_found_by_their_key() {
    let fresh = ReconciliationKey::generate(1, &[1, 2, 3, 4, 5]);
    assert_ne!(fresh.as_str(), ReconciliationKey::generate(1, &[1, 2, 3, 4, 6]).as_str());
    let mut tables = PodmanIsolator::new();
    let handle = tables.adopt_key(&fresh, "cistella-id1", "id1", 2, &[9, 9, 9, 9, 9]);
    let (found, record) = tables.locate_hint(&fresh).unwrap();
    assert_eq!(found.as_str(), handle.as_str());
    assert_eq!(record.session_id, "id1");
    let env = TerminalEnv {
        term: None,
        colorterm: None,
        term_program: None,
    };
    assert_eq!(
        PodmanIsolator::launch_argv(&record, &["sh".to_string()], Some("/work"), &env),
        vec!["exec", "-i", "-t", "--workdir", "/work", "cistella-id1", "sh"]
    );
    assert_eq!(
        PodmanIsolator::launch_argv(&record, &["sh".to_string()], None, &env),
        vec!["exec", "-i", "-t", "cistella-id1", "sh"]
    );
}
