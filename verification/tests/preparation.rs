//! Mountpoint preparation, host preflight, and transport arguments.

use cistella::error::CistellaError;
use cistella::preflight::{
    check_facts, check_podman_info, needed_command, run_preflight, systemd_dir, FileText,
    HostReport, PodmanFacts, Probe, Run,
};
use cistella::prepare::{
    deadline_error, exec_failure, parse_decimal, parse_stat_map, podman_exec_argv, preparation_authorized,
    preparation_candidates, prepare_mountpoints, prepare_timeout, Stage,
};
use cistella::transport::{
    env_forward_args, exec_args, exec_harness_args, home_env_arg, run_detached_args, TerminalEnv,
};

fn texts(list: &[&str]) -> Vec<String> {
    list.iter().map(|s| s.to_string()).collect()
}

fn env(term: &str) -> TerminalEnv {
    TerminalEnv {
        term: Some(term.to_string()),
        colorterm: None,
        term_program: Some(String::new()),
    }
}

#[test]
fn candidates_are_parents_in_order() {
    let c = preparation_candidates(&texts(&["/home/cistella/a/b", "/home/cistella/a/c/d"]), "/home/cistella");
    assert_eq!(c, texts(&["/home/cistella/a", "/home/cistella/a/c"]));
}

#[test]
fn candidates_beneath_a_bind_are_not_authorized() {
    let binds = texts(&["/home/cistella/a"]);
    assert!(preparation_authorized("/home/cistella/b", &binds));
    assert!(!preparation_authorized("/home/cistella/a", &binds));
    assert!(!preparation_authorized("/home/cistella/a/x", &binds));
}

#[test]
fn stat_output_maps_paths_to_owners() {
    let map = parse_stat_map("0 /a b\n1000 /c\n");
    assert_eq!(
        map,
        vec![
            ("/a b".to_string(), "0".to_string()),
            ("/c".to_string(), "1000".to_string()),
        ]
    );
}

#[test]
fn exec_argv_names_the_user_when_given() {
    assert_eq!(
        podman_exec_argv("c", Some("root"), "mkdir", &texts(&["-p", "--", "/a"])),
        texts(&["exec", "--user", "root", "c", "mkdir", "-p", "--", "/a"])
    );
    assert_eq!(podman_exec_argv("c", None, "id", &texts(&["-u"])), texts(&["exec", "c", "id", "-u"]));
    assert_eq!(exec_failure("mkdir", " no \n").render(), "runtime: podman exec mkdir failed: no");
}

#[test]
fn preparation_runs_its_stages() {
    let (prep, first) = prepare_mountpoints(
        "c",
        &texts(&["/home/cistella/a/b"]),
        &texts(&["/home/cistella/a/b"]),
        "/home/cistella",
    );
    let first = first.unwrap();
    assert_eq!(first.cmd, "id");
    let resolve = prep.resume(first.stage, "1000\n").unwrap().unwrap();
    assert_eq!(resolve.cmd, "realpath");
    let make = prep
        .resume(resolve.stage, "/home/cistella/a\n/home/cistella/a/b\n")
        .unwrap()
        .unwrap();
    assert_eq!(make.cmd, "mkdir");
    assert_eq!(make.argv, texts(&["exec", "--user", "root", "c", "mkdir", "-p", "--", "/home/cistella/a"]));
    let owners = prep.resume(make.stage, "").unwrap().unwrap();
    assert_eq!(owners.cmd, "stat");
    let chown = prep.resume(owners.stage, "0 /home/cistella/a\n").unwrap().unwrap();
    assert_eq!(chown.argv, texts(&["exec", "--user", "root", "c", "chown", "1000", "--", "/home/cistella/a"]));
    assert!(matches!(prep.resume(chown.stage, ""), Ok(None)));
}

#[test]
fn only_root_owned_parents_change_hands() {
    let (prep, _) = prepare_mountpoints("c", &texts(&["/home/cistella/a/b"]), &[], "/home/cistella");
    let stage = Stage::Owners {
        uid: 1000,
        authorized: texts(&["/home/cistella/a"]),
    };
    assert!(matches!(prep.resume(stage, "1000 /home/cistella/a\n"), Ok(None)));
}

#[test]
fn preparation_refuses_bad_answers() {
    let (prep, _) = prepare_mountpoints(
        "c",
        &texts(&["/home/cistella/a/b"]),
        &texts(&["/home/cistella/a/b"]),
        "/home/cistella",
    );
    assert!(matches!(
        prep.resume(Stage::SeatUid, "x\n"),
        Err(CistellaError::Runtime(m)) if m == "seat uid not a single integer: \"x\\n\""
    ));
    assert!(matches!(
        prep.resume(Stage::Resolve { uid: 1 }, "/a\n"),
        Err(CistellaError::Runtime(m)) if m == "realpath returned 1 lines for 2 paths"
    ));
    assert!(matches!(
        prep.resume(Stage::Resolve { uid: 1 }, "/real/b/x\n/real/b\n"),
        Err(CistellaError::Runtime(m)) if m.starts_with("preparation refused: /real/b/x")
    ));
}

#[test]
fn nothing_to_prepare_without_candidates() {
    let (_, first) = prepare_mountpoints("c", &[], &[], "/home/cistella");
    assert!(first.is_none());
}

#[test]
fn decimals_parse() {
    assert_eq!(parse_decimal("42", 100), Some(42));
    assert_eq!(parse_decimal("+42", 100), Some(42));
    assert_eq!(parse_decimal("101", 100), None);
    assert_eq!(parse_decimal("", 100), None);
    assert_eq!(parse_decimal("4x", 100), None);
    assert_eq!(parse_decimal("18446744073709551615", u64::MAX), Some(u64::MAX));
    assert_eq!(parse_decimal("18446744073709551616", u64::MAX), None);
    assert_eq!(deadline_error("podman", 50).render(), "runtime: podman exceeded 50ms deadline");
    assert_eq!(prepare_timeout(None), 30_000);
    assert_eq!(prepare_timeout(Some("5")), 5);
    assert_eq!(prepare_timeout(Some("x")), 30_000);
}

const INFO: &str = "{\"host\":{\"security\":{\"rootless\":true},\"cgroupVersion\":\"v2\",\
\"networkBackend\":\"Netavark\"},\"store\":{\"graphDriverName\":\"Overlay\"}}";

fn done(text: &str) -> Run {
    Run::Done(text.as_bytes().to_vec())
}

fn passing() -> HostReport {
    HostReport {
        commands: (0..5).map(|_| done("/usr/bin/x")).collect(),
        filesystems: Some(FileText::Content("nodev\tcgroup2\n".to_string())),
        controllers: Some(true),
        user: Some("me".to_string()),
        subuid: Some(FileText::Content("me:100000:65536\n".to_string())),
        subgid: Some(FileText::Content("me:100000:65536\n".to_string())),
        info: Some(done(INFO)),
        unshare: Some(done("")),
        home: Some(Some("/home/me".to_string())),
        systemd_dir: Some(None),
    }
}

fn fault(r: HostReport) -> String {
    match run_preflight(&r) {
        Err(CistellaError::Preflight(m)) => m,
        other => panic!("expected a preflight refusal, got {other:?}"),
    }
}

#[test]
fn preflight_passes_a_good_host() {
    assert!(matches!(run_preflight(&passing()), Ok(None)));
    assert_eq!(systemd_dir("/home/me"), "/home/me/.config/containers/systemd");
}

#[test]
fn preflight_names_the_next_probe() {
    let mut r = passing();
    r.commands = vec![];
    assert!(matches!(run_preflight(&r), Ok(Some(Probe::Command(0)))));
    assert_eq!(needed_command(0), "podman");
    let mut r = passing();
    r.info = None;
    assert!(matches!(run_preflight(&r), Ok(Some(Probe::Info))));
}

#[test]
fn preflight_refuses_bad_hosts() {
    let mut r = passing();
    r.commands[1] = Run::Nonzero(String::new());
    assert_eq!(fault(r), "newuidmap not found in PATH");
    let mut r = passing();
    r.filesystems = Some(FileText::Content("ext4\n".to_string()));
    assert_eq!(fault(r), "cgroup2 not listed in /proc/filesystems");
    let mut r = passing();
    r.controllers = Some(false);
    assert_eq!(fault(r), "/sys/fs/cgroup/cgroup.controllers missing (not cgroup v2)");
    let mut r = passing();
    r.user = Some(String::new());
    assert_eq!(fault(r), "cannot determine invoking user");
    let mut r = passing();
    r.subgid = Some(FileText::Content("you:1:2\n".to_string()));
    assert_eq!(fault(r), "/etc/subgid missing entry for me");
    let mut r = passing();
    r.home = Some(None);
    assert_eq!(fault(r), "HOME not set");
    let mut r = passing();
    r.systemd_dir = Some(Some("denied".to_string()));
    assert_eq!(fault(r), "create /home/me/.config/containers/systemd: denied");
}

#[test]
fn podman_info_is_read_through_json() {
    assert!(check_podman_info(&done(INFO)).is_ok());
    let info = |from: &str, to: &str| match check_podman_info(&done(&INFO.replace(from, to))) {
        Err(CistellaError::Preflight(m)) => m,
        other => panic!("expected a refusal, got {other:?}"),
    };
    assert_eq!(
        info("\"rootless\":true", "\"rootless\":false"),
        "podman info host.security.rootless != true"
    );
    assert_eq!(info("\"v2\"", "\"v1\""), "podman info host.cgroupVersion != v2: v1");
    assert_eq!(
        info("Overlay", "vfs"),
        "podman info store.graphDriverName not overlay: vfs"
    );
    assert_eq!(
        info("Netavark", "cni"),
        "podman info host.networkBackend not netavark: cni"
    );
    assert!(matches!(
        check_podman_info(&done("{")),
        Err(CistellaError::Preflight(m)) if m.starts_with("podman info json parse: ")
    ));
    assert!(matches!(
        check_podman_info(&Run::Broken("gone".to_string())),
        Err(CistellaError::Preflight(m)) if m == "podman info failed: gone"
    ));
}

#[test]
fn podman_facts_are_judged() {
    let facts = PodmanFacts {
        rootless: true,
        cgroup: "v2".to_string(),
        driver: "overlay".to_string(),
        driver_lower: "overlay".to_string(),
        backend: "Netavark".to_string(),
        backend_lower: "netavark".to_string(),
    };
    assert!(check_facts(&facts).is_ok());
    let pasta = PodmanFacts {
        backend: "pasta".to_string(),
        backend_lower: "pasta".to_string(),
        ..facts
    };
    assert!(matches!(
        check_facts(&pasta),
        Err(CistellaError::Preflight(m)) if m == "podman info host.networkBackend not netavark: pasta"
    ));
}

#[test]
fn terminal_env_is_a_closed_list() {
    assert_eq!(env_forward_args(&env("xterm")), texts(&["-e", "TERM=xterm"]));
    assert_eq!(home_env_arg("/h"), texts(&["-e", "HOME=/h"]));
}

#[test]
fn exec_arguments() {
    assert_eq!(
        exec_args("c", &texts(&["sh"]), &env("xterm")),
        texts(&["exec", "-e", "TERM=xterm", "-i", "-t", "c", "sh"])
    );
    assert_eq!(
        exec_harness_args("c", "/work", &texts(&["sh"]), &env("xterm")),
        texts(&["exec", "-e", "TERM=xterm", "-i", "-t", "--workdir", "/work", "c", "sh"])
    );
    let run = run_detached_args("c", &[("k", "v")], "img", &env("xterm"));
    assert!(run.contains(&"--label".to_string()) && run.contains(&"k=v".to_string()));
    assert!(run.contains(&"img".to_string()));
}

#[test]
fn free_ancestors_are_candidates() {
    let c = preparation_candidates(&texts(&["/opt/a/b/c", "/opt/a/b", "/srv/x"]), "/home/cistella");
    assert_eq!(c, texts(&["/opt", "/opt/a", "/srv"]));
}

#[test]
fn candidates_of_a_target_under_the_home_stay_under_it() {
    let c = preparation_candidates(&texts(&["/home/cistella/x/y", "rel/a/b"]), "/home/cistella");
    assert_eq!(c, texts(&["/home/cistella/x"]));
}
