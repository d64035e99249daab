//! Terminal probe verdicts.

use cistella::spike::{
    container_name, da1_reply, exec_argv, exec_probes, pane_size, parse_args, podman_exec,
    probe_escape_bytes, probe_exit_status, probe_host_env, probe_is_tty, probe_large_payload,
    probe_podman, probe_pty_harness, probe_reply_path, probe_resize, probe_signal, probe_terminfo,
    probe_winsize, pty_harness_da1, pty_harness_sigint, reply_seen, run_args, run_failure,
    run_notes, terminfo_candidates, Args, HostEnv, PayloadRun, Probe, ResizeRun, Terminal, ToolRun,
    Watcher, DEFAULT_IMAGE, PAYLOAD_SIZE,
};

fn texts(list: &[&str]) -> Vec<String> {
    list.iter().map(|s| s.to_string()).collect()
}

fn env(term: Option<&str>, terminfo: Option<&str>) -> HostEnv {
    HostEnv {
        term: term.map(|s| s.to_string()),
        colorterm: Some("truecolor".to_string()),
        term_program: None,
        terminfo: terminfo.map(|s| s.to_string()),
    }
}

fn ran(ok: bool, out: &str, err: &str) -> ToolRun {
    ToolRun::Ran(ok, out.to_string(), err.to_string())
}

#[test]
fn probe_arguments_parse() {
    let a = parse_args(&texts(&["x"])).unwrap();
    assert!(!a.with_podman && !a.mount_terminfo);
    assert_eq!(a.image, DEFAULT_IMAGE);
    let a = parse_args(&texts(&["x", "--image", "i", "--with-podman", "--odd"])).unwrap();
    assert!(a.with_podman);
    assert_eq!(a.image, "i");
    let a = parse_args(&texts(&["x", "--image=j", "--mount-terminfo", "--image"])).unwrap();
    assert!(a.mount_terminfo);
    assert_eq!(a.image, "j");
    assert!(parse_args(&texts(&["x", "-h"])).is_none());
    assert!(parse_args(&texts(&["x", "--help"])).is_none());
}

#[test]
fn the_host_needs_a_terminal_type() {
    assert!(!probe_host_env(&env(None, None)).ok);
    assert!(!probe_host_env(&env(Some(""), None)).ok);
    let p = probe_host_env(&env(Some("xterm-256color"), None));
    assert!(p.ok);
    assert_eq!(p.lines[1], "TERM=xterm-256color");
    assert_eq!(p.lines.last().unwrap(), "[PASS] host env");
}

#[test]
fn host_probes_only_warn() {
    let p = probe_is_tty(true, false, true);
    assert!(p.ok);
    assert_eq!(p.lines[2], "stdout is tty: false");
    let p = probe_winsize(Some((24, 80)), None);
    assert_eq!(p.lines[1], "rows=24 cols=80");
    assert_eq!(probe_winsize(None, Some((1, 2))).lines[2], "[PASS] winsize via stdin");
    assert_eq!(
        probe_winsize(None, None).lines[1],
        "[WARN] TIOCGWINSZ unavailable (not a terminal)"
    );
}

#[test]
fn terminal_descriptions_are_looked_up() {
    let found = probe_terminfo(
        "xterm",
        &ran(true, "xterm colors#256", ""),
        &ran(true, "256\n", ""),
        &ran(false, "", "no\n"),
        true,
        false,
        false,
        false,
    );
    assert!(found.ok);
    assert_eq!(found.lines[1], "[PASS] infocmp xterm: found (16 bytes)");
    assert_eq!(found.lines[2], "  contains colors#");
    assert_eq!(found.lines[3], "  contains xterm");
    assert_eq!(found.lines[4], "[PASS] tput colors: 256");
    assert_eq!(found.lines[5], "[WARN] tput RGB failed: no");
    let missing = probe_terminfo(
        "x",
        &ran(false, "", "gone"),
        &ToolRun::Missing("e".to_string()),
        &ran(true, "", ""),
        false,
        false,
        false,
        false,
    );
    assert!(!missing.ok);
    assert_eq!(missing.lines.len(), 1 + 2 + 1 + 5);
}

#[test]
fn runs_name_terminfo_only_on_request() {
    let args = |mount| Args {
        with_podman: true,
        image: "img".to_string(),
        mount_terminfo: mount,
    };
    let host = env(Some("xterm"), Some("/opt/terminfo"));
    let plain = run_args(&args(false), &host, 7, &[true, true, true]);
    assert_eq!(
        plain,
        texts(&[
            "run", "-d", "--rm", "--name", "cistella-term-spike-7", "--label", "cistella-spike=7",
            "--userns=keep-id", "-e", "TERM=xterm", "-e", "COLORTERM=truecolor", "--", "img",
            "sleep", "300",
        ])
    );
    let mounted = run_args(&args(true), &host, 7, &[true, false, true]);
    assert!(mounted.contains(&"TERMINFO=/opt/terminfo".to_string()));
    assert!(mounted.contains(&"/usr/share/terminfo:/usr/share/terminfo:ro".to_string()));
    assert!(!mounted.contains(&"/lib/terminfo:/lib/terminfo:ro".to_string()));
    assert!(mounted.contains(&"/opt/terminfo:/opt/terminfo:ro".to_string()));
    assert_eq!(
        terminfo_candidates(&env(None, Some("/lib/terminfo"))),
        texts(&["/usr/share/terminfo", "/lib/terminfo"])
    );
    assert_eq!(container_name(7), "cistella-term-spike-7");
}

#[test]
fn runs_are_announced() {
    let args = |mount| Args {
        with_podman: true,
        image: "img".to_string(),
        mount_terminfo: mount,
    };
    let host = env(None, Some("/opt/terminfo"));
    assert_eq!(
        run_notes(&args(false), &host, &[true, true, true]),
        texts(&[
            "podman: pull/run detached container --userns=keep-id",
            "  TERM=xterm-256color COLORTERM=truecolor TERMINFO=(not forwarded, baked) (closed list; podman does not forward implicitly)",
        ])
    );
    let mounted = run_notes(&args(true), &host, &[false, false, true]);
    assert_eq!(
        mounted[0],
        "[INFO] mounting host terminfo /opt/terminfo -> /opt/terminfo:ro"
    );
    assert!(mounted[2].contains("TERMINFO=/opt/terminfo "));
    let none = run_notes(&args(true), &env(None, None), &[false, false]);
    assert!(none[0].starts_with("[WARN] --mount-terminfo requested"));
    assert!(none[2].contains("TERMINFO=(unset) "));
    assert_eq!(run_failure(&ran(true, "id", "")), None);
    assert_eq!(
        run_failure(&ran(false, "", " no \n")),
        Some("[FAIL] podman run failed: no".to_string())
    );
    assert_eq!(
        run_failure(&ToolRun::Missing("e".to_string())),
        Some("[FAIL] podman not available: e".to_string())
    );
}

#[test]
fn exec_probes_follow_their_status() {
    let ls = texts(&["ls", "/"]);
    assert_eq!(exec_argv("c", &ls, true), texts(&["exec", "-t", "c", "ls", "/"]));
    assert_eq!(exec_argv("c", &ls, false), texts(&["exec", "c", "ls", "/"]));
    let p = podman_exec("c", &ls, true, &ran(true, "a", ""), "0");
    assert!(p.ok);
    assert_eq!(p.lines[0], "\n  exec: podman exec -t c ls /");
    let p = podman_exec("c", &ls, false, &ran(false, " a ", "b"), "1");
    assert!(!p.ok);
    assert_eq!(
        p.lines,
        texts(&["\n  exec: podman exec c ls /", "  stdout: a", "  stderr: b", "  exit: 1"])
    );
    let p = podman_exec("c", &ls, false, &ToolRun::Missing("e".to_string()), "");
    assert!(!p.ok);
    assert_eq!(p.lines[1], "  [FAIL] exec error: e");
    let probes = exec_probes();
    assert_eq!(probes.len(), 5);
    assert_eq!(probes[0].0[..2], ["sh".to_string(), "-c".to_string()]);
    let ttys: Vec<bool> = probes.iter().map(|p| p.1).collect();
    assert_eq!(ttys, [false, false, true, false, true]);
    assert!(probes[4].0[2].starts_with("printf 'CSI probe: \\033[34m"));
}

#[test]
fn container_probes_close_with_a_verdict() {
    let args = |mount| Args {
        with_podman: true,
        image: "img".to_string(),
        mount_terminfo: mount,
    };
    let p = probe_podman(&args(true), "c", &[true, true]);
    assert!(p.ok);
    assert_eq!(p.lines.len(), 4);
    assert_eq!(p.lines[2], "podman: cleanup (stop c)");
    assert_eq!(p.lines[3], "[PASS] podman probe");
    let p = probe_podman(&args(false), "c", &[true, false]);
    assert!(!p.ok);
    assert_eq!(p.lines.len(), 8);
    assert_eq!(p.lines[3], "[FAIL] podman probe (see exec output above)");
}

#[test]
fn escape_smoke_is_emitted() {
    let p = probe_escape_bytes();
    assert!(p.ok);
    assert_eq!(
        p.lines[5],
        "  render: \u{1b}[34m\u{1b}[1mTEST\u{1b}[0m  <- should appear bold blue"
    );
}

#[test]
fn exit_statuses_pass_through() {
    assert!(probe_exit_status(Ok(Some(42))).ok);
    let p = probe_exit_status(Ok(None));
    assert!(!p.ok);
    assert_eq!(p.lines[2], "[FAIL] exit-status: got -1, expected 42");
    let p = probe_exit_status(Err("e".to_string()));
    assert!(!p.ok);
    assert_eq!(p.lines[1], "[FAIL] exec error: e");
}

fn sizes(before: &str, after: &str) -> Vec<String> {
    probe_resize(&ResizeRun::Sizes(before.to_string(), after.to_string())).lines
}

#[test]
fn pane_sizes_are_found() {
    assert_eq!(pane_size("24 80\n$ cmd\n30 100\n__MARK__\n"), "30 100");
    assert_eq!(pane_size("a b\n1 2 3\n"), "");
    assert_eq!(
        sizes("24 80", "30 100"),
        texts(&[
            "\n-- resize propagation --",
            "  before (tmux window 80x24): '24 80'",
            "  after tmux resize to 100x30: '30 100'",
            "[PASS] resize propagated (tmux window → container)",
        ])
    );
    assert_eq!(sizes("0 0", "0 0").len(), 5);
    assert!(sizes("1 1", "1 1")[3].starts_with("[INFO]"));
    assert!(sizes("", "")[3].starts_with("[WARN]"));
    assert!(probe_resize(&ResizeRun::NoTmux).lines[1].starts_with("[SKIP]"));
    assert!(probe_resize(&ResizeRun::NoWindow).ok);
}

#[test]
fn replies_and_signals_are_judged() {
    assert!(reply_seen("x\nDA1: 1b 5b 3f 36\n"));
    assert!(!reply_seen("DA1: 1b\n"));
    let p = probe_reply_path(Some("x\nDA1: 1b 5b 3f 36\n"), "");
    assert_eq!(
        p.lines[1..],
        [
            "  da1 reply hex: DA1: 1b 5b 3f 36".to_string(),
            "[PASS] reply-path (DA1 inbound via tmux)".to_string(),
        ]
    );
    let p = probe_reply_path(Some("DA1: 1b\n"), " 1b \n");
    assert!(p.ok);
    assert_eq!(p.lines[2], "  da1 reply hex (script fallback): '1b'");
    assert!(probe_reply_path(None, "").lines[1].starts_with("[SKIP]"));
    assert!(probe_signal("", false, false).ok);
    assert!(probe_signal("7", false, true).ok);
    let p = probe_signal("7", true, false);
    assert!(!p.ok);
    assert_eq!(p.lines[2], "[WARN] kill -INT failed");
}

#[test]
fn watchers_see_across_reads() {
    let mut w = Watcher::for_query();
    assert!(!w.feed(b"ab\x1b"));
    assert!(!w.feed(b"["));
    assert_eq!(da1_reply(&w), None);
    assert!(w.feed(b"c"));
    assert!(w.feed(b"more"));
    assert!(w.found());
    assert_eq!(w.len(), 9);
    assert_eq!(da1_reply(&w), Some(b"\x1b[?6c".to_vec()));
    let mut w = Watcher::for_ready();
    assert!(!w.feed(b"REA"));
    assert!(w.feed(b"DY\n"));
}

fn queried(bytes: &[u8]) -> Terminal {
    let mut w = Watcher::for_query();
    w.feed(bytes);
    Terminal::Watched(w)
}

#[test]
fn harness_replies_are_judged() {
    let seen = queried(b"\x1b[c");
    let unseen = queried(b"abcd");
    let failed = Terminal::Failed("e".to_string());
    assert!(pty_harness_da1(&unseen, "DA1:\x1b[?6c").ok);
    assert!(pty_harness_da1(&seen, "x").ok);
    assert!(!pty_harness_da1(&seen, "").ok);
    let p = pty_harness_da1(&unseen, "x");
    assert!(!p.ok);
    assert_eq!(
        p.lines,
        texts(&["  DA1: did not see \\033[c within timeout (acc len 4)"])
    );
    assert_eq!(
        pty_harness_da1(&failed, "6c").lines,
        texts(&["  [WARN] forkpty failed for DA1: e"])
    );
    let p = pty_harness_sigint(&Terminal::Watched(Watcher::for_ready()), true);
    assert!(p.ok);
    assert_eq!(
        p.lines[0],
        "  SIGINT: READY not seen, still writing 0x03 (may be racy)"
    );
    assert!(!pty_harness_sigint(&Terminal::Watched(Watcher::for_ready()), false).ok);
    assert!(!pty_harness_sigint(&failed, true).ok);
    let half = |ok: bool, line: &str| Probe {
        ok,
        lines: texts(&[line]),
    };
    assert_eq!(
        probe_pty_harness(&half(true, "a"), &half(true, "b")).lines,
        texts(&[
            "\n-- PTY harness (DA1 + SIGINT via raw PTY) --",
            "a",
            "b",
            "[PASS] PTY harness (DA1 + SIGINT)",
        ])
    );
    assert_eq!(
        probe_pty_harness(&half(false, "a"), &half(false, "b")).lines[3..],
        [
            "[FAIL] PTY harness DA1".to_string(),
            "[FAIL] PTY harness SIGINT".to_string(),
        ]
    );
}

#[test]
fn large_payloads_are_judged() {
    let streamed = |len, host: &str| PayloadRun::Streamed(len, host.to_string());
    let p = probe_large_payload("a  -\n", &streamed(PAYLOAD_SIZE, "a  -\n"));
    assert!(p.ok);
    assert_eq!(p.lines[2], "  inside sha256: a");
    assert!(!probe_large_payload("a", &streamed(PAYLOAD_SIZE, "b")).ok);
    let p = probe_large_payload("", &streamed(PAYLOAD_SIZE, "b"));
    assert!(p.ok);
    assert_eq!(p.lines[2], "  inside sha256: (failed)");
    let short = probe_large_payload("a", &streamed(5, "a"));
    assert!(!short.ok);
    assert_eq!(short.lines[3], "  streamed bytes: 5 (expected 1048576)");
    let p = probe_large_payload("a", &PayloadRun::Failed(" no \n".to_string()));
    assert_eq!(p.lines[3], "[FAIL] large-payload exec failed: no");
    assert!(!probe_large_payload("a", &PayloadRun::Missing("e".to_string())).ok);
}
