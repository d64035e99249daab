//! Registry, selectors, command output, and session planning.

use cistella::command::{
    enter_args, exit_with_status, gc_lines, gc_orphans, inspect_line, select_exact, start_delay_ms, survey,
    DirectorySelector,
};
use cistella::error::CistellaError;
use cistella::framework::policy::PolicySet;
use cistella::mount::{nested_ro_checks, nested_ro_missing, MountMode, MountTriple};
use cistella::plan::{
    admit_session, canonical_directory, choose_argv, default_identity, merge_labels, parse_cli_mounts,
    parse_label_filters, parse_supplements, plan_session, preparation_sources, render_session,
    session_mounts, snapshot_acceptances, volume_targets, HostFacts, SessionInput,
};
use cistella::profile::{CredentialSurface, Profile};
use cistella::isolators::podman::{scan_unit_dir, UnitFile};
use cistella::isolators::quadlet::{
    escape_percent, generate_quadlet_unit, quote_systemd, unquote_systemd,
};
use cistella::registry::{
    filter_records, list_sessions, present_containers, resolve_exact, session_units,
    unit_file_label, unit_generic_labels, ListedUnit, SessionRecord, UnitRead,
};
use cistella::session::{parse_command_label, Session};
use cistella::transport::TerminalEnv;

fn texts(list: &[&str]) -> Vec<String> {
    list.iter().map(|s| s.to_string()).collect()
}

fn pair(k: &str, v: &str) -> (String, String) {
    (k.to_string(), v.to_string())
}

fn listed(units: Vec<ListedUnit>, containers: &str) -> Vec<SessionRecord> {
    list_sessions(UnitRead::Units(units), containers).unwrap()
}

fn record(id: &str, directory: &str, labels: Vec<(String, String)>) -> SessionRecord {
    let mut content = format!(
        "Label=cistella.id=\"{id}\"\nLabel=cistella.directory=\"{directory}\"\n\
         Label=cistella.profile=\"p\"\nLabel=cistella.image=\"img\"\n"
    );
    for (k, v) in labels {
        content.push_str(&format!("Label={k}=\"{v}\"\n"));
    }
    let unit = ListedUnit {
        container: format!("cistella-{id}"),
        content: Some(content),
        active_state: Some("active".to_string()),
    };
    listed(vec![unit], &format!("cistella-{id}\n")).remove(0)
}

fn records() -> Vec<SessionRecord> {
    vec![
        record("aa1", "/a", vec![pair("team", "x")]),
        record("aa2", "/b", vec![pair("team", "y")]),
    ]
}

fn terminal() -> TerminalEnv {
    TerminalEnv {
        term: Some("xterm".to_string()),
        colorterm: None,
        term_program: None,
    }
}

const UNIT: &str =
    "[Container]\nLabel=cistella.id=\"aa1\" \nLabel=team=\"x\"\nLabel=cistella.image=img\n";

#[test]
fn unit_labels_are_read() {
    assert_eq!(unit_file_label(UNIT, "cistella.id"), Some("aa1".to_string()));
    assert_eq!(unit_file_label(UNIT, "cistella.image"), Some("img".to_string()));
    assert_eq!(unit_file_label(UNIT, "nope"), None);
    assert_eq!(unit_generic_labels(UNIT), vec![pair("team", "x")]);
}

#[test]
fn units_are_listed_in_order() {
    let names = texts(&["cistella-b.container", "other.container", "cistella-a.container"]);
    assert_eq!(
        session_units(&names),
        vec![
            pair("cistella-a", "cistella-a.container"),
            pair("cistella-b", "cistella-b.container"),
        ]
    );
    assert_eq!(present_containers(" a \n\nb\n"), texts(&["a", "b"]));
}

#[test]
fn records_fill_in_defaults() {
    let bare = |name: &str| ListedUnit {
        container: name.to_string(),
        content: None,
        active_state: None,
    };
    let rows = listed(vec![bare("cistella-zz"), bare("other")], " other \n");
    assert_eq!(rows.len(), 2);
    let r = &rows[0];
    assert_eq!(r.id, "zz");
    assert_eq!(r.active_state, "unknown");
    assert!(!r.container_present);
    assert_eq!(r.label_value("cistella.id"), Some("zz"));
    assert_eq!(rows[1].id, "other");
    assert!(rows[1].container_present);
}

#[test]
fn filters_are_anded() {
    let all = records();
    assert_eq!(filter_records(&all, None, &[]).len(), 2);
    assert_eq!(filter_records(&all, Some("/a"), &[]).len(), 1);
    assert_eq!(filter_records(&all, Some("/a"), &[pair("team", "y")]).len(), 0);
}

#[test]
fn selectors_resolve_exactly_one() {
    let all = records();
    assert_eq!(resolve_exact(&all, Some("aa1"), None, &[]).unwrap().id, "aa1");
    assert_eq!(
        resolve_exact(&all, None, None, &[pair("team", "y")]).unwrap().id,
        "aa2"
    );
    let fault = |id: Option<&str>, dir: Option<&str>| match resolve_exact(&all, id, dir, &[]) {
        Err(CistellaError::Selector(m)) => m,
        other => panic!("expected a selector refusal, got {other:?}"),
    };
    assert_eq!(fault(None, None), "pass exactly one of <id>, --directory, --label");
    assert_eq!(
        fault(Some("aa1"), Some("/a")),
        "pass exactly one of <id>, --directory, --label"
    );
    assert_eq!(
        fault(Some("aa"), None),
        "ambiguous selector; candidates: cistella-aa1, cistella-aa2"
    );
    assert_eq!(
        fault(Some("zz"), None),
        "no session matches; candidates: cistella-aa1, cistella-aa2"
    );
}

#[test]
fn commands_select_by_directory_and_label() {
    let all = records();
    let at = |path: &str| {
        Some(DirectorySelector {
            path: path.to_string(),
            resolved: vec![Some("/b".to_string())],
        })
    };
    assert_eq!(select_exact(&all, None, &at("/link"), &[]).unwrap().id, "aa2");
    assert!(matches!(
        select_exact(&all, None, &at("rel"), &[]),
        Err(CistellaError::Runtime(m)) if m == "directory must be absolute: rel"
    ));
    assert!(matches!(
        select_exact(&all, None, &None, &texts(&["team"])),
        Err(CistellaError::Runtime(m)) if m == "--label must be k=v: team"
    ));
}

#[test]
fn a_bare_survey_shows_every_session() {
    let lines = survey(&records(), &None, &[]).unwrap();
    assert_eq!(
        lines,
        texts(&[
            "cistella-aa1 active profile=p directory=/a identity=",
            "cistella-aa2 active profile=p directory=/b identity=",
        ])
    );
    assert_eq!(survey(&records(), &None, &texts(&["team=y"])).unwrap().len(), 1);
}

#[test]
fn command_lines() {
    assert_eq!(
        inspect_line(&records()[0]),
        "cistella-aa1 profile=p directory=/a identity= image=img"
    );
    assert_eq!(gc_lines(&vec![]), texts(&["gc: nothing to reap"]));
    assert_eq!(gc_lines(&texts(&["a", "b"])), texts(&["reaped a", "reaped b"]));
    assert_eq!(start_delay_ms(Some("250")), 250);
    assert_eq!(start_delay_ms(Some("x")), 0);
    assert_eq!(start_delay_ms(None), 0);
}

#[test]
fn entries_default_to_a_shell() {
    assert_eq!(
        enter_args("c", &[], &terminal()).unwrap(),
        texts(&["exec", "-e", "TERM=xterm", "-i", "-t", "c", "/bin/sh"])
    );
    assert!(enter_args("c", &texts(&["ls"]), &terminal())
        .unwrap()
        .ends_with(&texts(&["c", "ls"])));
    for bad in ["a\nb", "a\rb", "a\0b"] {
        assert!(matches!(
            enter_args(bad, &[], &terminal()),
            Err(CistellaError::Runtime(m)) if m == "session must not contain control characters"
        ));
    }
}

#[test]
fn child_dispositions_pass_through() {
    assert_eq!(exit_with_status(None, Some(7)), 7);
    assert_eq!(exit_with_status(Some(9), None), 137);
    assert_eq!(exit_with_status(None, None), 1);
}

fn profile() -> Profile {
    Profile {
        image: "img".to_string(),
        mounts: vec![MountTriple {
            host_source: "/data".to_string(),
            container_target: "/mnt/data".to_string(),
            mode: MountMode::Ro,
        }],
        command: Some(texts(&["opencode"])),
        environment_assignments: vec![pair("EDITOR", "vi")],
        environment_acceptances: texts(&["LANG"]),
        credential_surface: CredentialSurface::Agent {
            ssh_agent: "/run/a".to_string(),
        },
        container_home: "/home/cistella".to_string(),
        labels: vec![pair("team", "x"), pair("tier", "1")],
    }
}

fn input() -> SessionInput {
    SessionInput {
        id: "id1".to_string(),
        directory: "/src".to_string(),
        worktree_target: "/work".to_string(),
        profile_name: "p".to_string(),
        profile_digest: "d".to_string(),
        identity: "me".to_string(),
        image: "img@1".to_string(),
        command: vec![],
        cli_mounts: texts(&["/more:/mnt/more:rw"]),
        scratch: "/run/s".to_string(),
    }
}

fn facts(hosts: &[&str]) -> HostFacts {
    HostFacts {
        hosts: texts(hosts),
        scratch_host: "/run/s".to_string(),
        exists: vec![],
    }
}

#[test]
fn nested_mountpoints_must_exist() {
    let mut nested = input();
    nested.cli_mounts = texts(&["/more:/mnt/data/sub/x:rw"]);
    let (merged, _) = session_mounts(&profile(), &nested).unwrap();
    let checks = nested_ro_checks(&merged);
    assert_eq!(checks.len(), 1);
    assert_eq!(checks[0].descendant, "/mnt/data/sub/x");
    assert_eq!(checks[0].ancestor, "/mnt/data");
    assert_eq!(checks[0].chain, texts(&["/data/sub", "/data/sub/x"]));
    assert_eq!(nested_ro_missing(&checks[0], &[true, true]), None);
    assert_eq!(
        nested_ro_missing(&checks[0], &[true, false]),
        Some("/data/sub/x".to_string())
    );
    let mut f = facts(&["/data", "/src", "/more"]);
    f.exists = vec![vec![false, false]];
    assert_eq!(
        plan_session(&profile(), &nested, &f).unwrap_err().render(),
        "mount: nested mount /mnt/data/sub/x under read-only /mnt/data: missing /data/sub"
    );
    f.exists = vec![vec![true, true]];
    let plan = plan_session(&profile(), &nested, &f).unwrap();
    assert_eq!(plan.triples[1].mode, MountMode::Rw);
}

#[test]
fn arguments_parse_in_order() {
    assert_eq!(
        parse_label_filters(&texts(&["a=1", "b=2"])).unwrap(),
        vec![pair("a", "1"), pair("b", "2")]
    );
    assert!(parse_label_filters(&texts(&["a=1", "b"])).is_err());
    assert_eq!(parse_supplements(&texts(&["a=1"])).unwrap(), vec![pair("a", "1")]);
    assert_eq!(parse_cli_mounts(&texts(&["/a:/b:ro"])).unwrap()[0].container_target, "/b");
    assert!(parse_cli_mounts(&texts(&["/a:/b"])).is_err());
}

#[test]
fn directories_and_identities_default() {
    assert_eq!(canonical_directory("/a", &[Some("/real".to_string())]).unwrap(), "/real");
    assert!(canonical_directory("a", &[]).is_err());
    assert_eq!(default_identity("me", "other\n"), "me");
    assert_eq!(default_identity("", " other\n"), "other");
    assert_eq!(default_identity("", " \n"), "default");
}

#[test]
fn harness_argv_prefers_the_command_line() {
    let own = Some(texts(&["opencode"]));
    assert_eq!(choose_argv(&texts(&["sh"]), &own).unwrap(), texts(&["sh"]));
    assert_eq!(choose_argv(&[], &own).unwrap(), texts(&["opencode"]));
    assert!(matches!(
        choose_argv(&[], &None),
        Err(CistellaError::Runtime(m))
            if m == "no harness argv: pass command after -- or set profile command"
    ));
}

#[test]
fn acceptances_snapshot_the_invoker() {
    let p = profile();
    assert_eq!(
        snapshot_acceptances(&p, &[Some("C".to_string())]).unwrap(),
        vec![pair("LANG", "C")]
    );
    assert!(snapshot_acceptances(&p, &[None]).is_err());
    let mut q = profile();
    q.environment_acceptances = texts(&["EDITOR"]);
    assert!(snapshot_acceptances(&q, &[Some("x".to_string())]).is_err());
}

#[test]
fn sessions_plan_their_mounts() {
    let (merged, cli) = session_mounts(&profile(), &input()).unwrap();
    assert_eq!(merged.len(), 3);
    assert_eq!(cli.len(), 1);
    let hosts = ["/data", "/src", "/more"];
    let plan = plan_session(&profile(), &input(), &facts(&hosts)).unwrap();
    assert_eq!(plan.session.command, texts(&["opencode"]));
    let last = plan.triples.last().unwrap();
    assert_eq!(last.container_target, "/tmp/scratch");
    assert_eq!(last.mode, MountMode::Rw);
    assert_eq!(plan.triples[1].container_target, "/work");
    let mut bad = input();
    bad.cli_mounts = texts(&["/x:/work:rw"]);
    assert!(plan_session(&profile(), &bad, &facts(&hosts)).is_err());
    let mut over = input();
    over.cli_mounts = texts(&["/x:/tmp:rw"]);
    let hosts = ["/data", "/src", "/x"];
    assert!(plan_session(&profile(), &over, &facts(&hosts)).is_err());
}

#[test]
fn sessions_render_their_spec() {
    let hosts = ["/data", "/src", "/more"];
    let plan = plan_session(&profile(), &input(), &facts(&hosts)).unwrap();
    let spec = render_session(
        &profile(),
        &plan,
        &vec![pair("LANG", "C")],
        &vec![pair("team", "y")],
    );
    assert_eq!(spec.env, texts(&["EDITOR=vi", "LANG=C", "SSH_AUTH_SOCK=/run/a"]));
    assert_eq!(spec.labels, vec![pair("team", "y"), pair("tier", "1")]);
    assert_eq!(&spec.volumes[..2], &texts(&["--tmpfs", "/home/cistella"])[..]);
    assert_eq!(spec.volumes.last().unwrap(), "/run/a:/run/a:ro");
    let targets = volume_targets(&spec.volumes);
    assert!(targets.contains(&"/work".to_string()) && targets.contains(&"/run/a".to_string()));
    assert_eq!(
        preparation_sources(&profile().mounts, &plan.cli, "/work"),
        texts(&["/mnt/data", "/mnt/more", "/work"])
    );
}

#[test]
fn command_line_labels_win() {
    let merged = merge_labels(&vec![pair("a", "1")], &vec![pair("b", "2"), pair("a", "3")]);
    assert_eq!(merged, vec![pair("a", "3"), pair("b", "2")]);
}

#[test]
fn values_quote_and_read_back() {
    assert_eq!(quote_systemd("a b"), "\"a b\"");
    assert_eq!(quote_systemd("50%\\\"x"), "\"50%%\\\\\\\"x\"");
    assert_eq!(escape_percent("a%b\""), "a%%b\"");
    for v in ["", "plain", "%h 100%%", "\\\"%\\", "[\"sh\",\"-c\"]"] {
        assert_eq!(unquote_systemd(&quote_systemd(v)), v);
    }
    assert_eq!(unquote_systemd("bare"), "bare");
    assert_eq!(unquote_systemd("\""), "\"");
    assert_eq!(unquote_systemd("\"a\\\""), "a");
    assert_eq!(unquote_systemd("\"%x\""), "%x");
}

fn session() -> Session {
    Session {
        id: "01h00000000000abc".to_string(),
        directory: "/src/50% \"x\"".to_string(),
        profile: "p".to_string(),
        profile_digest: "d".to_string(),
        identity: "me".to_string(),
        command: texts(&["sh", "-c"]),
        image: "sha256:1".to_string(),
        container_home: "/home/cistella".to_string(),
    }
}

#[test]
fn units_hold_their_session() {
    let s = session();
    let unit = generate_quadlet_unit(
        &s,
        &texts(&["--volume", "/a:/b:ro", "--tmpfs", "/home/cistella"]),
        &texts(&["A=1 2"]),
        &[pair("team", "x y")],
        Some("k1"),
    )
    .unwrap();
    assert_eq!(
        unit,
        "[Container]\n\
         ContainerName=cistella-01h00000000000abc\n\
         Image=sha256:1\n\
         Pull=never\n\
         UserNS=keep-id\n\
         LogDriver=journald\n\
         Exec=sleep infinity\n\
         Environment=\"HOME=/home/cistella\"\n\
         Label=cistella.id=\"01h00000000000abc\"\n\
         Label=cistella.directory=\"/src/50%% \\\"x\\\"\"\n\
         Label=cistella.profile=\"p\"\n\
         Label=cistella.profile-digest=\"d\"\n\
         Label=cistella.identity=\"me\"\n\
         Label=cistella.command=\"[\\\"sh\\\",\\\"-c\\\"]\"\n\
         Label=cistella.image=\"sha256:1\"\n\
         Label=cistella.reconciliation-key=\"k1\"\n\
         Label=team=\"x y\"\n\
         Volume=/a:/b:ro\n\
         Tmpfs=/home/cistella\n\
         Environment=\"A=1 2\"\n"
    );
    let unit_read = ListedUnit {
        container: s.container_name(),
        content: Some(unit.clone()),
        active_state: None,
    };
    let row = listed(vec![unit_read], "").remove(0);
    assert_eq!(row.id, s.id);
    assert_eq!(row.directory, s.directory);
    assert_eq!(row.profile, s.profile);
    assert_eq!(row.identity, s.identity);
    assert_eq!(row.image, s.image);
    assert_eq!(row.generic_labels, vec![pair("team", "x y")]);
    let command = unit_file_label(&unit, "cistella.command").unwrap();
    assert_eq!(parse_command_label(&command).unwrap(), s.command);
    let file = UnitFile {
        name: s.quadlet_unit_name(),
        path: "/u".to_string(),
        content: Ok(unit),
    };
    assert_eq!(
        scan_unit_dir(&vec![file], "k1").unwrap(),
        Some((s.container_name(), s.id.clone()))
    );
}

#[test]
fn units_refuse_values_that_break_lines() {
    let refusal = |s: &Session, volume: &str, env: &str, label: &str| {
        generate_quadlet_unit(
            s,
            &texts(&["--volume", volume]),
            &texts(&[env]),
            &[pair("team", label)],
            None,
        )
        .unwrap_err()
        .render()
    };
    let s = session();
    assert_eq!(
        refusal(&s, "/a:/b:ro", "A=1", "x\nLabel=y=z"),
        "runtime: team must not contain control characters"
    );
    assert_eq!(
        refusal(&s, "/a\n:/b:ro", "A=1", "x"),
        "runtime: volume must not contain control characters"
    );
    assert_eq!(
        refusal(&s, "/a:/b:ro", "A=1\r", "x"),
        "runtime: environment must not contain control characters"
    );
    let mut t = session();
    t.id = "short".to_string();
    assert_eq!(
        refusal(&t, "/a:/b:ro", "A=1", "x"),
        "runtime: session id must be 17 lowercase [a-z0-9] chars"
    );
    let mut t = session();
    t.container_home = "/h\n".to_string();
    assert_eq!(
        refusal(&t, "/a:/b:ro", "A=1", "x"),
        "runtime: container_home must not contain control characters"
    );
}

#[test]
fn unreadable_unit_directories_are_errors() {
    assert!(list_sessions(UnitRead::Missing, "cistella-a\n").unwrap().is_empty());
    let failed = UnitRead::Failed("/u".to_string(), "permission denied".to_string());
    assert_eq!(
        list_sessions(failed, "").unwrap_err().render(),
        "runtime: scan /u: permission denied"
    );
}

#[test]
fn collections_reap_what_has_no_container() {
    let all = records();
    assert_eq!(
        gc_orphans(&all, &vec![true, false]),
        vec![pair("cistella-aa2", "aa2")]
    );
    assert!(gc_orphans(&all, &vec![true, true]).is_empty());
}

#[test]
fn sessions_are_admitted_by_policy_first() {
    let plan = plan_session(&profile(), &input(), &facts(&["/data", "/src", "/more"])).unwrap();
    let pol = PolicySet::parse(b"", Err(String::new())).unwrap();
    let labels = vec![pair("team", "y")];
    let spec =
        admit_session(&profile(), &plan, &vec![pair("LANG", "C")], &labels, &pol).unwrap();
    assert_eq!(spec.env, texts(&["EDITOR=vi", "LANG=C", "SSH_AUTH_SOCK=/run/a"]));
    let mut p = profile();
    p.environment_assignments.push(pair("GITHUB_TOKEN", "x"));
    assert!(matches!(
        admit_session(&p, &plan, &vec![], &labels, &pol),
        Err(CistellaError::Contract(_))
    ));
}
