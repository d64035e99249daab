//! Contribution contract, policy lattice, credentials, and guest planning.

use cistella::error::CistellaError;
use cistella::framework::conduct::evaluate_profile_contributions;
use cistella::framework::contract::{
    merge_prepare, Assumption, BaselineBinding, CancelFlag, Capability, CapabilitySet,
    ControlDeadline, Deadlines, EnvContribution, GuestHookRequest, LifecycleState, MergeContext,
    MountContribution, Phase, PolicyClaim, PreparePlan, Provenance, ReconciliationKey, Scope,
    Severity, UnitHandle,
};
use cistella::framework::credentials::{admit_all, parse_wire, CredentialHandle};
use cistella::framework::isolator::IsolatorCapabilities;
use cistella::framework::pattern::Pattern;
use cistella::framework::policy::{
    acceptance_set, evaluate_all, evaluation_trail, policy_path, AcknowledgementEntry,
    DenialEntry, PolicyFile, PolicyRead, PolicySet,
};
use cistella::framework::prepare::{
    gate_isolator, parse_capability, run_prepare, EnvWire, MountWire, PrepareResponse,
};
use cistella::mount::{MountMode, MountTriple};
use cistella::profile::{CredentialSurface, Profile};

fn ext(id: &str) -> Provenance {
    Provenance::Extension(id.to_string())
}

fn env(name: &str, value: &str) -> EnvContribution {
    EnvContribution {
        name: name.to_string(),
        value: value.to_string(),
        provenance: ext("g"),
    }
}

fn plan() -> PreparePlan {
    PreparePlan {
        environment: vec![],
        mounts: vec![],
        policy_claims: vec![],
        guest_hooks: vec![],
    }
}

fn all_capabilities() -> CapabilitySet {
    CapabilitySet::new(&[
        Capability::Environment,
        Capability::Mounts,
        Capability::PolicyClaims,
        Capability::GuestHooks,
        Capability::Credentials,
    ])
}

fn context() -> MergeContext {
    MergeContext::empty("/home/cistella")
}

fn merge_fault(p: PreparePlan) -> String {
    match merge_prepare(p, &all_capabilities(), &context(), &[]) {
        Err(CistellaError::Contract(m)) => m,
        other => panic!("expected a contract refusal, got {other:?}"),
    }
}

fn file(denials: Vec<DenialEntry>, acks: &[&str]) -> PolicyFile {
    PolicyFile {
        format_version: 1,
        denials,
        acknowledgements: acks
            .iter()
            .map(|n| AcknowledgementEntry { name: n.to_string() })
            .collect(),
    }
}

fn denial(pattern: &str, severity: Severity, scope: Scope) -> DenialEntry {
    DenialEntry {
        pattern: pattern.to_string(),
        severity,
        scope,
    }
}

fn defaults() -> PolicySet {
    PolicySet::parse(b"", Ok(file(vec![], &[]))).unwrap()
}

fn policy(denials: Vec<DenialEntry>, acks: &[&str]) -> PolicySet {
    PolicySet::parse(b"x", Ok(file(denials, acks))).unwrap()
}

fn policy_fault(decoded: Result<PolicyFile, String>) -> String {
    match PolicySet::parse(b"x", decoded) {
        Err(CistellaError::Contract(m)) => m,
        other => panic!("expected a contract refusal, got {other:?}"),
    }
}

#[test]
fn phases_are_ordered() {
    assert_eq!(Phase::Planning.index(), 0);
    assert_eq!(Phase::Teardown.index(), 8);
    assert!(Phase::Planning.is_planning());
    assert!(!Phase::Create.is_planning());
}

#[test]
fn merged_plans_keep_their_contributions() {
    let mut p = plan();
    p.environment = vec![env("A", "1"), env("B", "2")];
    p.mounts = vec![MountContribution {
        triple: MountTriple {
            host_source: "/data".to_string(),
            container_target: "/mnt/data".to_string(),
            mode: MountMode::Ro,
        },
        provenance: ext("g"),
    }];
    p.guest_hooks = vec![
        GuestHookRequest {
            order: 2,
            argv_prefix: vec!["b".to_string()],
            probe_op: "p".to_string(),
        },
        GuestHookRequest {
            order: 1,
            argv_prefix: vec!["a".to_string()],
            probe_op: "p".to_string(),
        },
    ];
    let m = merge_prepare(p, &all_capabilities(), &context(), &["/data".to_string()]).unwrap();
    assert_eq!(m.environment.len(), 2);
    assert_eq!(m.mounts[0].container_target, "/mnt/data");
    assert_eq!(m.guest_hooks[0].order, 1);
    assert_eq!(m.guest_hooks[1].order, 2);
}

#[test]
fn unadvertised_contributions_are_refused() {
    let mut p = plan();
    p.environment = vec![env("A", "1")];
    let none = CapabilitySet::new(&[]);
    assert!(!none.allows(Capability::Environment));
    assert!(matches!(
        merge_prepare(p, &none, &context(), &[]),
        Err(CistellaError::Contract(m))
            if m == "guest returned unadvertised contribution type: environment"
    ));
}

#[test]
fn bad_contributions_are_refused() {
    let mut p = plan();
    p.environment = vec![env("A", "1"), env("A", "2")];
    assert_eq!(merge_fault(p), "duplicate environment contribution: A");
    let mut p = plan();
    p.environment = vec![env("A", "1\n2")];
    assert_eq!(merge_fault(p), "contribution value must not contain control characters: A");
    let mut p = plan();
    p.policy_claims = vec![PolicyClaim {
        pattern: String::new(),
        severity: Severity::Suppressible,
        scope: Scope::OnExtensions,
    }];
    assert_eq!(merge_fault(p), "policy claim pattern must not be empty");
    let mut p = plan();
    p.guest_hooks = vec![GuestHookRequest {
        order: 1,
        argv_prefix: vec![],
        probe_op: "p".to_string(),
    }];
    assert_eq!(merge_fault(p), "guest hook argv prefix must not be empty: order 1");
    let mut p = plan();
    p.environment = vec![env("R", "1")];
    let reserved = MergeContext::new("/home/cistella", vec!["R".to_string()], vec![]);
    assert!(matches!(
        merge_prepare(p, &all_capabilities(), &reserved, &[]),
        Err(CistellaError::Contract(m)) if m == "contribution collides with reserved name: R"
    ));
}

#[test]
fn baselines_detect_drift() {
    let b = BaselineBinding {
        profile_digest: "d".to_string(),
        extensions: vec![],
        assumptions: vec![Assumption {
            key: "k".to_string(),
            digest: "1".to_string(),
        }],
    };
    assert!(b.revalidate(&[("k".to_string(), "1".to_string())]).is_ok());
    for live in [vec![("k".to_string(), "2".to_string())], vec![]] {
        assert!(matches!(
            b.revalidate(&live),
            Err(CistellaError::Contract(m)) if m == "plan assumption drifted at gate: k"
        ));
    }
}

#[test]
fn handles_and_flags() {
    let h = UnitHandle::mint(1, &[0, 0, 0, 0, 0]);
    assert!(!h.as_str().is_empty());
    assert_eq!(ReconciliationKey::reuse("k").as_str(), "k");
    let mut f = CancelFlag::new();
    assert!(!f.is_cancelled());
    f.cancel_with(15);
    assert!(f.is_cancelled());
    assert_eq!(f.signum(), Some(15));
    assert_eq!(LifecycleState::Absent.as_wire(), "absent");
}

#[test]
fn deadlines_have_their_defaults() {
    let d = Deadlines::default();
    assert_eq!(d.for_interaction(ControlDeadline::Hello), d.hello);
    assert_eq!(d.for_interaction(ControlDeadline::TerminateGrace), d.terminate_grace);
}

#[test]
fn tokens_are_denied_by_default() {
    let p = defaults();
    for name in ["GITHUB_TOKEN", "gh_token", "GITHUB_PAT"] {
        assert!(p.evaluate(name, &Provenance::Profile, &vec![], &[]).is_err());
    }
    assert!(p.evaluate("EDITOR", &Provenance::Profile, &vec![], &[]).is_ok());
    assert!(matches!(
        p.evaluate("GITHUB_TOKEN", &Provenance::Profile, &vec![], &[]),
        Err(CistellaError::Contract(m)) if m.starts_with("policy refuses GITHUB_TOKEN: ")
    ));
}

#[test]
fn acceptances_lift_defaults_only() {
    let accepted = acceptance_set(&vec!["GITHUB_TOKEN".to_string()]);
    assert!(defaults()
        .evaluate("GITHUB_TOKEN", &Provenance::Profile, &accepted, &[])
        .is_ok());
    let p = policy(
        vec![denial("^X$", Severity::Suppressible, Scope::Universal)],
        &[],
    );
    let accepted = acceptance_set(&vec!["X".to_string()]);
    assert!(p.evaluate("X", &Provenance::Profile, &accepted, &[]).is_err());
}

#[test]
fn acknowledgements_lift_suppressible_rules() {
    let p = policy(
        vec![denial("^X$", Severity::Suppressible, Scope::Universal)],
        &["X"],
    );
    assert!(p.evaluate("X", &Provenance::Profile, &vec![], &[]).is_ok());
}

#[test]
fn inviolable_rules_are_never_lifted() {
    let p = policy(
        vec![denial("^X$", Severity::Inviolable, Scope::OnExtensions)],
        &["X"],
    );
    assert!(p.evaluate("X", &ext("g"), &vec!["X".to_string()], &[]).is_err());
    assert!(p.evaluate("X", &Provenance::Profile, &vec![], &[]).is_ok());
}

#[test]
fn bad_policies_are_refused() {
    assert_eq!(policy_fault(Err("bad".to_string())), "policies.toml: bad");
    let mut f = file(vec![], &[]);
    f.format_version = 2;
    assert_eq!(policy_fault(Ok(f)), "policies.toml format_version 2 unsupported (want 1)");
    let d = || denial("^X$", Severity::Suppressible, Scope::Universal);
    assert_eq!(
        policy_fault(Ok(file(vec![d(), d()], &[]))),
        "policies.toml duplicate denial: ^X$"
    );
    assert_eq!(
        policy_fault(Ok(file(vec![denial("^X$", Severity::Inviolable, Scope::Universal)], &[]))),
        "policies.toml: inviolable universal is site-authority only"
    );
    assert!(policy_fault(Ok(file(
        vec![denial("(", Severity::Suppressible, Scope::Universal)],
        &[]
    )))
    .starts_with("policies.toml bad pattern (: "));
    assert!(policy_fault(Ok(file(vec![], &["lower"])))
        .starts_with("policies.toml bad acknowledgement: "));
    assert_eq!(
        policy_fault(Ok(file(vec![], &["A", "A"]))),
        "policies.toml duplicate acknowledgement: A"
    );
    assert!(matches!(
        PolicySet::parse(&[0xff], Ok(file(vec![], &[]))),
        Err(CistellaError::Contract(m)) if m == "policies.toml is not UTF-8"
    ));
}

#[test]
fn absent_policies_mean_defaults() {
    let p = PolicySet::load("/p", PolicyRead::NotFound, Err("unused".to_string())).unwrap();
    assert!(p.evaluate("GH_TOKEN", &Provenance::Profile, &vec![], &[]).is_err());
    assert!(matches!(
        PolicySet::load("/p", PolicyRead::Failed("eperm".to_string()), Ok(file(vec![], &[]))),
        Err(CistellaError::Contract(m)) if m == "read /p: eperm"
    ));
    assert!(PolicySet::load("/p", PolicyRead::Bytes(b"x".to_vec()), Ok(file(vec![], &[]))).is_ok());
}

#[test]
fn claims_bind_their_transaction() {
    let p = defaults();
    let claim = |pattern: &str, severity, scope| PolicyClaim {
        pattern: pattern.to_string(),
        severity,
        scope,
    };
    let (upheld, _) = p
        .partition_claims(
            &vec![claim("^X$", Severity::Suppressible, Scope::OnExtensions)],
            &vec!["X".to_string()],
        )
        .unwrap();
    assert_eq!(upheld.len(), 1);
    assert!(p.evaluate("X", &ext("g"), &vec![], &upheld).is_err());
    assert!(p
        .partition_claims(
            &vec![claim("^X$", Severity::Inviolable, Scope::Universal)],
            &vec!["X".to_string()],
        )
        .is_err());
    assert!(p
        .partition_claims(
            &vec![claim("(", Severity::Suppressible, Scope::OnExtensions)],
            &vec![],
        )
        .is_err());
}

#[test]
fn every_name_is_evaluated() {
    let names = vec![
        ("EDITOR".to_string(), Provenance::Profile),
        ("GITHUB_TOKEN".to_string(), ext("g")),
    ];
    assert!(evaluate_all(&defaults(), &names, &vec![], &[]).is_err());
    let trail = evaluation_trail(&names);
    assert_eq!(trail[0], ("EDITOR".to_string(), "profile".to_string()));
    assert_eq!(trail[1].0, "GITHUB_TOKEN");
}

#[test]
fn policy_paths() {
    assert_eq!(policy_path(Some("/c"), None, None), "/c/policies.toml");
    assert_eq!(policy_path(None, Some("/x"), None), "/x/cistella/policies.toml");
    assert_eq!(policy_path(None, None, Some("/h")), "/h/.config/cistella/policies.toml");
}

#[test]
fn patterns_compile_and_match() {
    let p = Pattern::compile("^A[0-9]+$").unwrap();
    assert_eq!(p.as_str(), "^A[0-9]+$");
    assert!(p.is_match("A12"));
    assert!(!p.is_match("B12"));
    assert!(Pattern::compile("(").is_err());
}

#[test]
fn profile_contributions_meet_the_policy() {
    let mut profile = Profile {
        image: "img".to_string(),
        mounts: vec![],
        command: None,
        environment_assignments: vec![("GH_TOKEN".to_string(), "x".to_string())],
        environment_acceptances: vec![],
        credential_surface: CredentialSurface::Absent,
        container_home: "/home/cistella".to_string(),
        labels: vec![],
    };
    assert!(evaluate_profile_contributions(&profile, &vec![], &defaults()).is_err());
    profile.environment_assignments = vec![("EDITOR".to_string(), "vi".to_string())];
    assert!(evaluate_profile_contributions(&profile, &vec![], &defaults()).is_ok());
    let accepted = vec![("GH_TOKEN".to_string(), "x".to_string())];
    assert!(evaluate_profile_contributions(&profile, &accepted, &defaults()).is_err());
    profile.environment_acceptances = vec!["GH_TOKEN".to_string()];
    assert!(evaluate_profile_contributions(&profile, &accepted, &defaults()).is_ok());
}

#[test]
fn credentials_admit_by_shape() {
    let opaque = |id: &str| CredentialHandle::OpaqueReference { id: id.to_string() };
    let socket = |path: &str| CredentialHandle::SeatSocket { path: path.to_string() };
    let a = opaque("abc123").admission().unwrap();
    assert_eq!((a.kind, a.locator_class), ("opaque-reference", "opaque-id"));
    let s = socket("/run/cistella/seats/agent.sock").admission().unwrap();
    assert_eq!((s.kind, s.locator_class), ("seat-socket", "seat-socket"));
    let fault = |h: CredentialHandle| match h.admission() {
        Err(CistellaError::Contract(m)) => m,
        other => panic!("expected a refusal, got {other:?}"),
    };
    assert_eq!(fault(opaque("A")), "credential handle refused: opaque-reference grammar");
    assert_eq!(
        fault(opaque(&"a".repeat(1025))),
        "credential handle oversize: opaque-reference"
    );
    assert_eq!(
        fault(socket("run/x")),
        "credential handle refused: seat-socket must be absolute"
    );
    assert_eq!(
        fault(socket("/tmp/x")),
        "credential handle refused: seat-socket outside seat runtime dir"
    );
    assert_eq!(
        fault(socket("/run/cistella/seats/../x")),
        "credential handle refused: seat-socket traversal"
    );
    for bare in ["/run/cistella/seats/.", "/run/cistella/seats/./.", "/run/cistella/seats//."] {
        assert_eq!(
            fault(socket(bare)),
            "credential handle refused: seat-socket outside seat runtime dir"
        );
    }
    for below in ["/run/cistella/seats/a/.", "/run/cistella/seats/a/./b", "/run/cistella/seats/..."] {
        assert_eq!(socket(below).admission().unwrap().locator_class, "seat-socket");
    }
    assert_eq!(
        fault(socket("/run/cistella/seats/a b")),
        "credential handle refused: seat-socket name grammar"
    );
    assert_eq!(admit_all(&[opaque("a"), opaque("b")]).unwrap().len(), 2);
    assert!(admit_all(&[opaque("a"), opaque("B")]).is_err());
}

fn response(name: &str) -> PrepareResponse {
    PrepareResponse {
        environment: vec![EnvWire {
            name: name.to_string(),
            value: "v".to_string(),
        }],
        mounts: vec![],
        policy_claims: vec![],
        guest_hooks: vec![],
        credentials: vec![],
    }
}

#[test]
fn guest_plans_pass_the_policy() {
    let caps = vec!["environment".to_string()];
    let plan = run_prepare(Some(response("A")), "g", &caps, &context(), &[], &defaults(), &vec![])
        .unwrap();
    assert_eq!(plan.merged.environment, vec![("A".to_string(), "v".to_string())]);
    assert!(run_prepare(
        Some(response("GITHUB_TOKEN")),
        "g",
        &caps,
        &context(),
        &[],
        &defaults(),
        &vec![]
    )
    .is_err());
    assert!(matches!(
        run_prepare(None, "g", &caps, &context(), &[], &defaults(), &vec![]),
        Err(CistellaError::Protocol(m)) if m == "bad prepare response: shape violation"
    ));
}

#[test]
fn guest_plans_need_their_capabilities() {
    assert!(run_prepare(Some(response("A")), "g", &[], &context(), &[], &defaults(), &vec![])
        .is_err());
    let mut r = response("A");
    r.mounts = vec![MountWire {
        host_source: "/d".to_string(),
        container_target: "/mnt/d".to_string(),
        mode: "wx".to_string(),
    }];
    let caps = vec!["environment".to_string(), "mounts".to_string()];
    assert!(matches!(
        run_prepare(Some(r), "g", &caps, &context(), &["/d".to_string()], &defaults(), &vec![]),
        Err(CistellaError::Contract(m)) if m.starts_with("bad mount mode: ")
    ));
    assert_eq!(parse_capability("guest-hooks"), Some(Capability::GuestHooks));
    assert_eq!(parse_capability("other"), None);
}

#[test]
fn undecoded_credentials_refuse() {
    let handle = CredentialHandle::OpaqueReference {
        id: "a1".to_string(),
    };
    assert_eq!(parse_wire(Ok(vec![handle])).unwrap().len(), 1);
    assert_eq!(
        parse_wire(Err("unknown variant".to_string())).unwrap_err().render(),
        "contract: bad credential handle: unknown variant"
    );
}

#[test]
fn merge_refusals_name_no_values() {
    for (a, b) in [("hunter2", "correct-horse"), ("x\u{7}1", "\u{1b}2")] {
        let mut p = plan();
        p.environment = vec![env("A", a), env("A", "c")];
        let mut q = plan();
        q.environment = vec![env("A", b), env("A", "d")];
        let m = merge_fault(p);
        assert!(!m.contains(a));
        assert_eq!(m, merge_fault(q));
    }
}

fn hook(order: u32, argv: &[&str]) -> GuestHookRequest {
    GuestHookRequest {
        order,
        argv_prefix: argv.iter().map(|s| s.to_string()).collect(),
        probe_op: "p".to_string(),
    }
}

fn mounted(host: &str, target: &str) -> MountContribution {
    MountContribution {
        triple: MountTriple {
            host_source: host.to_string(),
            container_target: target.to_string(),
            mode: MountMode::Ro,
        },
        provenance: ext("g"),
    }
}

#[test]
fn merges_refuse_in_order() {
    let mut ctx = context();
    ctx.reserved_env = vec!["A".to_string()];
    let fault = |p: PreparePlan| match merge_prepare(p, &all_capabilities(), &ctx, &[]) {
        Err(CistellaError::Contract(m)) => m,
        other => panic!("expected a contract refusal, got {other:?}"),
    };
    let full = |env_list: Vec<EnvContribution>, target: &str, hooks: Vec<GuestHookRequest>| {
        let mut p = plan();
        p.environment = env_list;
        p.mounts = vec![mounted("/data", target)];
        p.guest_hooks = hooks;
        p.policy_claims = vec![PolicyClaim {
            pattern: String::new(),
            severity: Severity::Suppressible,
            scope: Scope::Universal,
        }];
        p
    };
    let twice = || vec![hook(1, &["a"]), hook(1, &["b"])];
    let m = fault(full(vec![env("A", "1"), env("B", "2"), env("B", "3")], "/etc/x", twice()));
    assert!(m.starts_with("mount: "), "{m}");
    let m = fault(full(vec![env("A", "1"), env("B", "2"), env("B", "3")], "/mnt/x", twice()));
    assert_eq!(m, "contribution collides with reserved name: A");
    let m = fault(full(vec![env("B", "2"), env("B", "3")], "/mnt/x", twice()));
    assert_eq!(m, "duplicate environment contribution: B");
    let m = fault(full(vec![env("B", "2")], "/mnt/x", twice()));
    assert_eq!(m, "duplicate guest hook order: 1");
    let m = fault(full(vec![env("B", "2")], "/mnt/x", vec![hook(1, &["a"])]));
    assert_eq!(m, "policy claim pattern must not be empty");
    let m = fault(full(vec![env("A", "1")], "/mnt/x", vec![hook(1, &[])]));
    assert_eq!(m, "guest hook argv prefix must not be empty: order 1");
}

#[test]
fn isolators_gate_what_they_realize() {
    let caps = vec!["environment".to_string()];
    let prepared =
        run_prepare(Some(response("A")), "g", &caps, &context(), &[], &defaults(), &vec![]).unwrap();
    let mut isolator = IsolatorCapabilities {
        backend: "b",
        supports: vec![Capability::Mounts],
    };
    assert_eq!(
        gate_isolator(&prepared, &isolator).unwrap_err().render(),
        "contract: isolator b does not realize contribution type: environment"
    );
    isolator.supports.push(Capability::Environment);
    assert!(gate_isolator(&prepared, &isolator).is_ok());
}

#[test]
fn phases_compare_by_position() {
    assert!(Phase::Planning < Phase::GateHostPreCreate);
    assert!(Phase::GateHostPreCreate < Phase::Create);
}
