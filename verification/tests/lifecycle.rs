//! Conduct lifecycle and guest death verdicts.

use cistella::error::CistellaError;
use cistella::framework::contract::{LifecycleState, UnitHandle};
use cistella::framework::isolator::ExecutionOutcome;
use cistella::framework::json::Json;
use cistella::isolators::client::{
    abort_exit_code, await_slice, check_echo, close, death_checked,
    needs_residue_check, on_guest_death, parse_state, pre_exec_recovery_verdict,
    rehost_failure_verdict, select_teardown_error, teardown_unit, teardown_verdict, AwaitEvent,
    AwaitStep, TeardownStep,
};
use cistella::isolators::dispatch::Fate;
use cistella::lifecycle::{Conduct, Report, Task, Verdict};

fn error(m: &str) -> CistellaError {
    CistellaError::Runtime(m.to_string())
}

fn ok() -> Report {
    Report {
        failure: None,
        fate: Fate::new(),
        signal: None,
        outcome: ExecutionOutcome::Exited(0),
        residue_gone: true,
    }
}

fn failed(m: &str) -> Report {
    Report {
        failure: Some(error(m)),
        ..ok()
    }
}

fn dead(r: Report) -> Report {
    Report {
        fate: Fate {
            dead: true,
            uncertain: false,
            report: None,
        },
        ..r
    }
}

/// Runs a conduct: the reports answer the tasks in turn, then every task
/// succeeds. Returns the tasks, the lines said, and the verdict.
fn conduct(reports: Vec<Report>) -> (Vec<Task>, Vec<String>, Verdict<CistellaError>) {
    let mut c = Conduct::new("box");
    let mut tasks = vec![];
    let mut said = vec![];
    let mut reports = reports.into_iter();
    while c.task() != Task::Finish {
        tasks.push(c.task());
        let (next, lines) = c.advance(reports.next().unwrap_or_else(ok));
        c = next;
        said.extend(lines);
        assert!(tasks.len() < 200);
    }
    (tasks, said, c.verdict().unwrap())
}

fn code(v: Verdict<CistellaError>) -> i32 {
    match v {
        Verdict::Exit(code) => code,
        other => panic!("expected an exit, got {other:?}"),
    }
}

fn failure(v: Verdict<CistellaError>) -> String {
    match v {
        Verdict::Fail(e) => e.render(),
        other => panic!("expected a failure, got {other:?}"),
    }
}

#[test]
fn clean_conducts_pass_through_every_phase() {
    let (tasks, said, v) = conduct(vec![]);
    assert_eq!(
        tasks,
        vec![
            Task::Host,
            Task::Lock,
            Task::Create,
            Task::Stall,
            Task::Initiate,
            Task::Prepare,
            Task::Unlock,
            Task::Announce,
            Task::Launch,
            Task::Await,
            Task::TeardownUnit,
            Task::Release,
        ]
    );
    assert!(said.is_empty());
    assert_eq!(code(v), 0);
}

#[test]
fn harness_codes_are_passed_on() {
    let mut reports: Vec<Report> = (0..9).map(|_| ok()).collect();
    reports.push(Report {
        outcome: ExecutionOutcome::Signaled(9),
        ..ok()
    });
    let (_, _, v) = conduct(reports);
    assert_eq!(code(v), 137);
}

#[test]
fn release_failures_dominate_a_clean_harness() {
    let mut reports: Vec<Report> = (0..11).map(|_| ok()).collect();
    reports.push(failed("pipes"));
    let (_, said, v) = conduct(reports);
    assert_eq!(code(v), 1);
    assert_eq!(said, vec!["error: guest release: runtime: pipes".to_string()]);
}

#[test]
fn failed_hosts_and_locks_end_the_conduct() {
    let (tasks, _, v) = conduct(vec![failed("spawn")]);
    assert_eq!(tasks, vec![Task::Host]);
    assert_eq!(failure(v), "runtime: spawn");
    let (tasks, _, v) = conduct(vec![ok(), failed("lock")]);
    assert_eq!(tasks, vec![Task::Host, Task::Lock, Task::Release]);
    assert_eq!(failure(v), "runtime: lock");
}

#[test]
fn a_dead_guest_is_replaced_once() {
    let (tasks, said, v) = conduct(vec![ok(), ok(), dead(failed("died"))]);
    assert_eq!(tasks[2..6], [Task::Create, Task::Release, Task::Host, Task::Create]);
    assert_eq!(
        said,
        vec!["error: pre-exec guest death (runtime: died): retiring client and re-hosting".to_string()]
    );
    assert_eq!(code(v), 0);
    let (tasks, _, v) = conduct(vec![
        ok(),
        ok(),
        dead(failed("died")),
        ok(),
        ok(),
        dead(failed("again")),
        dead(ok()),
    ]);
    assert_eq!(tasks.iter().filter(|t| **t == Task::Host).count(), 2);
    assert_eq!(failure(v), "runtime: again");
}

#[test]
fn failed_starts_quiesce_before_converging() {
    let (tasks, _, v) = conduct(vec![ok(), ok(), failed("install")]);
    assert_eq!(
        tasks,
        vec![
            Task::Host,
            Task::Lock,
            Task::Create,
            Task::CheckDeath,
            Task::Release,
            Task::Unlock,
            Task::Teardown,
        ]
    );
    assert_eq!(failure(v), "runtime: install");
    let left = Report {
        residue_gone: false,
        ..ok()
    };
    let (_, _, v) = conduct(vec![
        ok(),
        ok(),
        failed("install"),
        ok(),
        ok(),
        ok(),
        failed("teardown"),
        left,
    ]);
    assert_eq!(failure(v), "runtime: teardown");
}

#[test]
fn failed_replacements_converge_under_the_lock() {
    let (tasks, _, v) = conduct(vec![ok(), ok(), dead(failed("died")), ok(), failed("rehost")]);
    assert_eq!(tasks[4..], [Task::Host, Task::TeardownHeld, Task::Scan, Task::Unlock]);
    assert_eq!(failure(v), "runtime: rehost");
    let left = Report {
        residue_gone: false,
        ..ok()
    };
    let (_, _, v) = conduct(vec![
        ok(),
        ok(),
        dead(failed("died")),
        ok(),
        failed("rehost"),
        ok(),
        left,
    ]);
    assert_eq!(failure(v), "contract: re-host failure left residue: runtime: rehost");
}

#[test]
fn startup_signals_abort() {
    let signal = || Report {
        signal: Some(15),
        ..ok()
    };
    let (tasks, _, v) = conduct(vec![ok(), signal()]);
    assert_eq!(tasks, vec![Task::Host, Task::Lock, Task::Unlock, Task::Release]);
    assert_eq!(code(v), 143);
    let (tasks, _, v) = conduct(vec![ok(), ok(), signal()]);
    assert_eq!(tasks[3..], [Task::Unlock, Task::Abort, Task::Release, Task::Scan]);
    assert_eq!(code(v), 143);
    let left = Report {
        residue_gone: false,
        ..ok()
    };
    let (_, said, v) = conduct(vec![ok(), ok(), ok(), signal(), ok(), ok(), ok(), left]);
    assert_eq!(code(v), 1);
    assert_eq!(said, vec!["error: startup abort left residue for box".to_string()]);
}

#[test]
fn failed_preparations_tear_down_under_the_lock() {
    let mut reports: Vec<Report> = (0..5).map(|_| ok()).collect();
    reports.push(failed("mkdir"));
    let (tasks, _, v) = conduct(reports);
    assert_eq!(
        tasks[5..],
        [Task::Prepare, Task::TeardownUnitHeld, Task::Scan, Task::Unlock, Task::Release]
    );
    assert_eq!(failure(v), "runtime: mkdir");
}

#[test]
fn failed_launches_tear_down() {
    let mut reports: Vec<Report> = (0..8).map(|_| ok()).collect();
    reports.push(failed("launch"));
    let (tasks, _, v) = conduct(reports);
    assert_eq!(tasks[8..], [Task::Launch, Task::CheckDeath, Task::TeardownUnit, Task::Release]);
    assert_eq!(failure(v), "runtime: launch");
    let mut reports: Vec<Report> = (0..8).map(|_| ok()).collect();
    reports.push(failed("launch"));
    reports.push(ok());
    reports.push(failed("stuck"));
    let (_, said, v) = conduct(reports);
    assert_eq!(code(v), 1);
    assert_eq!(
        said,
        vec!["error: teardown after launch failure (runtime: launch): runtime: stuck".to_string()]
    );
}

#[test]
fn detached_awaits_exit_with_the_signal() {
    let detach = |signal| {
        let mut reports: Vec<Report> = (0..9).map(|_| ok()).collect();
        reports.push(Report {
            failure: Some(CistellaError::Detached("x".to_string())),
            ..ok()
        });
        reports.push(Report { signal, ..ok() });
        reports
    };
    let (tasks, _, v) = conduct(detach(Some(1)));
    assert_eq!(
        tasks[9..],
        [Task::Await, Task::CheckDeath, Task::Terminate, Task::Release, Task::Scan]
    );
    assert_eq!(code(v), 129);
    let (_, _, v) = conduct(detach(None));
    assert_eq!(code(v), 143);
}

#[test]
fn failed_final_teardowns_name_the_harness() {
    let mut reports: Vec<Report> = (0..9).map(|_| ok()).collect();
    reports.push(Report {
        outcome: ExecutionOutcome::Exited(4),
        ..ok()
    });
    reports.push(failed("stuck"));
    reports.push(Report {
        residue_gone: false,
        ..ok()
    });
    let (_, said, v) = conduct(reports);
    assert_eq!(code(v), 1);
    assert_eq!(said, vec!["error: teardown after harness exited 4: runtime: stuck".to_string()]);
}

#[test]
fn guest_death_after_the_harness_is_never_silent() {
    let after = |scan: Report| {
        let mut reports: Vec<Report> = (0..10).map(|_| ok()).collect();
        reports.push(failed("gone"));
        reports.push(scan);
        conduct(reports)
    };
    let (_, said, v) = after(dead(ok()));
    assert_eq!(code(v), 1);
    assert_eq!(said, vec!["error: runtime: gone".to_string()]);
    let (_, said, v) = after(ok());
    assert_eq!(code(v), 0);
    assert!(said.is_empty());
}

#[test]
fn recovery_is_bounded() {
    assert!(pre_exec_recovery_verdict(false, true, false));
    assert!(!pre_exec_recovery_verdict(true, true, false));
    assert!(!pre_exec_recovery_verdict(false, false, false));
    assert!(!pre_exec_recovery_verdict(false, true, true));
}

#[test]
fn clean_aborts_are_earned() {
    assert_eq!(abort_exit_code(false, false, false, 15), 143);
    assert_eq!(abort_exit_code(true, false, false, 15), 1);
    assert_eq!(abort_exit_code(false, true, false, 15), 1);
    assert_eq!(abort_exit_code(false, false, true, 15), 1);
}

#[test]
fn teardown_errors_are_selected() {
    let pick = |t, gone, uncertain| {
        select_teardown_error(t, error("original"), gone, uncertain).message()
    };
    assert_eq!(pick(Ok(()), false, true), "original");
    assert_eq!(pick(Err(error("t")), true, false), "original");
    assert_eq!(pick(Err(error("t")), false, false), "t");
    assert_eq!(pick(Err(error("t")), true, true), "t");
    assert_eq!(rehost_failure_verdict(Err(error("t")), true, error("r")).message(), "t");
    assert_eq!(rehost_failure_verdict(Ok(()), true, error("r")).message(), "r");
}

#[test]
fn death_checks_gate_failures() {
    let fate = |dead, uncertain, report: Option<&str>| Fate {
        dead,
        uncertain,
        report: report.map(|s| s.to_string()),
    };
    assert_eq!(death_checked(Ok(3), &fate(true, false, None), Err(error("r"))).unwrap(), 3);
    let gate = |f: Fate, residue| {
        death_checked::<()>(Err(error("e")), &f, residue).unwrap_err().render()
    };
    assert_eq!(gate(fate(false, false, None), Err(error("r"))), "runtime: e");
    assert_eq!(gate(fate(true, false, None), Err(error("r"))), "runtime: r");
    assert_eq!(gate(fate(true, false, None), Ok(())), "runtime: e");
    assert_eq!(gate(fate(true, true, Some("shut")), Err(error("r"))), "protocol: shut");
    assert!(needs_residue_check(true, &fate(true, false, None)));
    assert!(!needs_residue_check(true, &fate(true, true, None)));
    assert!(on_guest_death(Ok(None)).is_ok());
    assert_eq!(
        on_guest_death(Ok(Some(UnitHandle("u".to_string())))).unwrap_err().render(),
        "contract: guest exit left unit residue"
    );
}

#[test]
fn wire_teardowns_converge_after_death() {
    let mut f = Fate::new();
    assert!(matches!(teardown_unit(Ok(()), &f), TeardownStep::Finished(Ok(()))));
    assert!(matches!(teardown_unit(Err(error("e")), &f), TeardownStep::Finished(Err(_))));
    f.dead = true;
    assert!(matches!(teardown_unit(Err(error("e")), &f), TeardownStep::Converge(_)));
    f.uncertain = true;
    assert!(matches!(teardown_unit(Err(error("e")), &f), TeardownStep::ConvergeQuietly(_)));
    assert_eq!(teardown_verdict(error("e"), Err(error("c")), false).message(), "c");
    assert_eq!(teardown_verdict(error("e"), Err(error("c")), true).message(), "e");
    assert!(close(true, Some(Ok(())), None).is_ok());
    let recorded = Some("s".to_string());
    assert_eq!(close(true, Some(Ok(())), recorded).unwrap_err().render(), "protocol: s");
    assert_eq!(
        close(true, None, None).unwrap_err().render(),
        "protocol: dispatcher dropped shutdown"
    );
    assert_eq!(
        close(false, None, None).unwrap_err().render(),
        "protocol: dispatcher already terminated"
    );
}

#[test]
fn responses_are_read_strictly() {
    let object = |k: &str, v: Json| Json::Object(vec![(k.to_string(), v)]);
    let text = |s: &str| Json::Str(s.to_string());
    assert!(check_echo(&object("unit_handle", text("u")), "unit_handle", "u", "create").is_ok());
    assert_eq!(
        check_echo(&object("unit_handle", text("x")), "unit_handle", "u", "create")
            .unwrap_err()
            .render(),
        "contract: create echoed a different handle"
    );
    assert!(check_echo(&Json::Null, "unit_handle", "u", "create").is_err());
    assert_eq!(
        parse_state(&object("lifecycle", text("stopped"))).unwrap(),
        LifecycleState::Stopped
    );
    assert!(parse_state(&object("lifecycle", text("odd"))).is_err());
}

#[test]
fn awaits_detach_on_cancellation() {
    assert!(matches!(await_slice(AwaitEvent::Silence, false), AwaitStep::Wait));
    assert!(matches!(
        await_slice(AwaitEvent::Silence, true),
        AwaitStep::Detach(CistellaError::Detached(_))
    ));
    assert!(matches!(
        await_slice(AwaitEvent::Dropped, false),
        AwaitStep::Done(Err(CistellaError::Protocol(_)))
    ));
    let answer = Json::Object(vec![(
        "ok".to_string(),
        Json::Object(vec![("exit_status".to_string(), Json::Integer(3))]),
    )]);
    assert!(matches!(
        await_slice(AwaitEvent::Answered(Ok(answer)), false),
        AwaitStep::Done(Ok(ExecutionOutcome::Exited(3)))
    ));
}
