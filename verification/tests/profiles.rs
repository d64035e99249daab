//! Templates, supplements, and profiles.

use cistella::error::CistellaError;
use cistella::identity::{allowed_signers_text, ssh_agent_volume_args};
use cistella::mount::{MountMode, MountTriple};
use cistella::profile::{
    default_project_name, normalize_container_home, parse_profile, plan_lookup,
    seed_baked_examples, settle_lookup, validate_env_name, validate_profile, xdg_config_base,
    CredentialSurface, Lookup, Profile, ReadOutcome, ResolutionSource, SeedOutcome,
};
use cistella::template::{
    classify_span, environment_hard_denied, expand_templates, parse_supplement_arg,
    resolve_environment, split_spans, Part, ProjectName, Supplements, TemplateContext,
};

fn profile() -> Profile {
    Profile {
        image: "img".to_string(),
        mounts: vec![],
        command: None,
        environment_assignments: vec![],
        environment_acceptances: vec![],
        credential_surface: CredentialSurface::Absent,
        container_home: "/home/cistella".to_string(),
        labels: vec![],
    }
}

fn none() -> Supplements {
    Supplements::from_pairs(vec![])
}

fn expanded_value(value: &str, supplements: &Supplements) -> Result<String, CistellaError> {
    let mut p = profile();
    p.environment_assignments = vec![("X".to_string(), value.to_string())];
    expand_templates(p, Some(ProjectName::Explicit("proj")), supplements, Some("/home/me"))
        .map(|p| p.environment_assignments[0].1.clone())
}

#[test]
fn spans_classify() {
    let s = classify_span("core:host-home").unwrap();
    assert_eq!(s.context, TemplateContext::Core);
    assert_eq!(s.name, "host-home");
    assert!(classify_span("host-home").is_err());
    assert!(matches!(
        classify_span("other:x"),
        Err(CistellaError::Profile(m)) if m == "unknown template context other"
    ));
    assert!(matches!(
        classify_span("core:"),
        Err(CistellaError::Profile(m)) if m == "empty template name in context core"
    ));
    assert_eq!(TemplateContext::Environment.as_str(), "environment");
}

#[test]
fn spans_split() {
    let parts = split_spans("a{{core:x}}b").unwrap();
    assert_eq!(parts.len(), 3);
    assert!(matches!(&parts[0], Part::Lit(s) if s == "a"));
    assert!(matches!(&parts[1], Part::Name(s) if s == "core:x"));
    assert!(matches!(&parts[2], Part::Lit(s) if s == "b"));
    assert!(matches!(
        split_spans("ab{{core"),
        Err(CistellaError::Profile(m)) if m.starts_with("unterminated template span at byte 2")
    ));
}

#[test]
fn templates_expand() {
    let s = Supplements::from_pairs(vec![("tool".to_string(), "vim".to_string())]);
    assert_eq!(expanded_value("{{core:host-home}}/x", &s).unwrap(), "/home/me/x");
    assert_eq!(expanded_value("{{core:project-name}}", &s).unwrap(), "proj");
    assert_eq!(expanded_value("{{core:container-home}}", &s).unwrap(), "/home/cistella");
    assert_eq!(expanded_value("{{supplement:tool}}", &s).unwrap(), "vim");
    assert_eq!(expanded_value("{{environment:HOME}}", &s).unwrap(), "/home/me");
    assert_eq!(expanded_value("plain", &s).unwrap(), "plain");
}

#[test]
fn expanded_text_is_never_scanned_again() {
    let s = Supplements::from_pairs(vec![(
        "x".to_string(),
        "{{core:host-home}}".to_string(),
    )]);
    assert_eq!(expanded_value("{{supplement:x}}", &s).unwrap(), "{{core:host-home}}");
}

#[test]
fn unknown_templates_are_refused() {
    assert!(matches!(
        expanded_value("{{supplement:nope}}", &none()),
        Err(CistellaError::Profile(m)) if m.contains("unknown supplement: nope")
    ));
    assert!(matches!(
        expanded_value("{{core:nope}}", &none()),
        Err(CistellaError::Profile(m)) if m.contains("unknown core template: nope")
    ));
}

#[test]
fn credential_shaped_names_never_resolve() {
    for name in ["GITHUB_TOKEN", "MY_SECRET", "API_KEY", "DB_PASSWORD", "SSH_AUTH_SOCK"] {
        assert!(environment_hard_denied(name));
        assert!(matches!(
            resolve_environment(name, Some("/home/me")),
            Err(CistellaError::Profile(m)) if m.ends_with("refused (credential-shaped)")
        ));
    }
    assert!(!environment_hard_denied("HOME"));
    assert_eq!(resolve_environment("HOME", Some("/home/me")).unwrap(), "/home/me");
    assert!(matches!(
        resolve_environment("HOME", None),
        Err(CistellaError::Profile(m)) if m == "environment HOME is not set"
    ));
    assert!(matches!(
        resolve_environment("EDITOR", Some("/home/me")),
        Err(CistellaError::Profile(m)) if m.contains("is not allowlisted")
    ));
}

#[test]
fn supplements_parse() {
    assert_eq!(
        parse_supplement_arg("a=b=c").unwrap(),
        ("a".to_string(), "b=c".to_string())
    );
    assert!(matches!(
        parse_supplement_arg("a"),
        Err(CistellaError::Profile(m)) if m == "supplement must be k=v: a"
    ));
    assert!(matches!(
        parse_supplement_arg("=b"),
        Err(CistellaError::Profile(m)) if m == "supplement key must not be empty"
    ));
    assert!(parse_supplement_arg("cistella.x=b").is_err());
    assert!(parse_supplement_arg("a/b=c").is_err());
    let s = Supplements::from_pairs(vec![
        ("a".to_string(), "1".to_string()),
        ("a".to_string(), "2".to_string()),
    ]);
    assert_eq!(s.get("a"), Some("2"));
}

#[test]
fn profiles_validate() {
    let p = validate_profile(profile(), &[]).unwrap();
    assert_eq!(p.home(), "/home/cistella");
    let again = validate_profile(p, &[]).unwrap();
    assert_eq!(again.home(), "/home/cistella");
}

#[test]
fn bad_profiles_are_refused() {
    let fault = |p: Profile| match validate_profile(p, &[]) {
        Err(CistellaError::Profile(m)) => m,
        other => panic!("expected a profile refusal, got {other:?}"),
    };
    let mut p = profile();
    p.image = " ".to_string();
    assert_eq!(fault(p), "image is required");
    let mut p = profile();
    p.image = "a\nb".to_string();
    assert_eq!(fault(p), "image must not contain control characters");
    let mut p = profile();
    p.command = Some(vec![]);
    assert_eq!(fault(p), "command must be a non-empty argv array");
    let mut p = profile();
    p.container_home = "/".to_string();
    assert_eq!(fault(p), "container-home must not be /");
    let mut p = profile();
    p.container_home = "home".to_string();
    assert_eq!(fault(p), "container-home must be absolute");
    let mut p = profile();
    p.environment_assignments = vec![("HOME".to_string(), "/x".to_string())];
    assert_eq!(fault(p), "HOME must not be set in env; derived from container_home");
    let mut p = profile();
    p.environment_assignments = vec![("lower".to_string(), "/x".to_string())];
    assert_eq!(fault(p), "env key must match [A-Z_][A-Z0-9_]*: lower");
}

#[test]
fn env_names_are_checked() {
    assert!(validate_env_name("A_1", "env key").is_ok());
    assert!(validate_env_name("1A", "env key").is_err());
}

#[test]
fn tilde_hosts_expand() {
    let mut p = profile();
    p.mounts = vec![MountTriple {
        host_source: "~/data".to_string(),
        container_target: "/mnt/data".to_string(),
        mode: MountMode::Ro,
    }];
    let parsed = parse_profile(Ok(p), Some("/home/me")).unwrap();
    assert_eq!(parsed.mounts[0].host_source, "/home/me/data");
    assert!(matches!(
        parse_profile(Err("bad".to_string()), None),
        Err(CistellaError::Profile(m)) if m == "parse: bad"
    ));
}

#[test]
fn homes_normalize() {
    assert_eq!(normalize_container_home("/home/x/").unwrap(), "/home/x");
    assert_eq!(normalize_container_home("").unwrap(), "/home/cistella");
    assert!(normalize_container_home("/{{core:x}}").is_err());
}

#[test]
fn project_names_default_to_the_basename() {
    assert_eq!(default_project_name("/src/app").unwrap(), "app");
    assert!(matches!(
        default_project_name("/"),
        Err(CistellaError::Profile(m)) if m == "project name needs a directory basename: /"
    ));
}

#[test]
fn config_bases() {
    assert_eq!(xdg_config_base(Some("/x"), Some("/h")).unwrap(), "/x");
    assert_eq!(xdg_config_base(None, Some("/h")).unwrap(), "/h/.config");
    assert!(xdg_config_base(None, None).is_err());
}

#[test]
fn closed_tiers_never_fall_through() {
    let source =
        ResolutionSource::from_host_env(Some("/conf"), None, Some("/xdg"), None).unwrap();
    let lookup = plan_lookup("dev", &source);
    assert!(matches!(&lookup, Lookup::Closed { path, .. } if path == "/conf/profiles/dev.toml"));
    let missing = settle_lookup(
        "dev",
        &lookup,
        ReadOutcome::NotFound("no".to_string()),
        Some("baked"),
    );
    assert!(matches!(
        missing,
        Err(CistellaError::Profile(m)) if m
            == "profile dev not found in configuration directory /conf (closed tier, no fallthrough)"
    ));
}

#[test]
fn names_fall_back_to_baked_examples() {
    let source = ResolutionSource::from_host_env(None, None, Some("/xdg"), None).unwrap();
    let lookup = plan_lookup("dev", &source);
    assert!(matches!(
        &lookup,
        Lookup::Fallback { path, .. } if path == "/xdg/cistella/profiles/dev.toml"
    ));
    let baked = settle_lookup(
        "dev",
        &lookup,
        ReadOutcome::NotFound("no".to_string()),
        Some("baked"),
    )
    .unwrap();
    assert_eq!(baked, ("baked".to_string(), "dev".to_string()));
    let absent =
        settle_lookup("dev", &lookup, ReadOutcome::NotFound("no".to_string()), None);
    assert!(absent.is_err());
}

#[test]
fn seeding_reports_its_first_failure() {
    assert!(seed_baked_examples("/x", None, &[SeedOutcome::Present]).is_ok());
    let failed = SeedOutcome::Failed("/x/a.toml".to_string(), "full".to_string());
    assert_eq!(
        seed_baked_examples("/x", None, &[SeedOutcome::Present, failed]).unwrap_err().render(),
        "profile: seed /x/a.toml: full"
    );
    assert_eq!(
        seed_baked_examples("/x", Some("ro".to_string()), &[]).unwrap_err().render(),
        "profile: create /x: ro"
    );
}

#[test]
fn explicit_paths_use_their_stem_as_name() {
    let source = ResolutionSource::new(vec![], "/xdg".to_string());
    let lookup = plan_lookup("./dev.box.toml", &source);
    let got = settle_lookup(
        "./dev.box.toml",
        &lookup,
        ReadOutcome::Text("raw".to_string()),
        None,
    )
    .unwrap();
    assert_eq!(got, ("raw".to_string(), "dev.box".to_string()));
}

#[test]
fn resolution_digests_the_raw_text() {
    let e = Profile::resolve("raw", "dev", Ok(profile()), Some("/home/me")).unwrap();
    assert_eq!(e.digest, Profile::digest_of("raw"));
    let (p, digest, name) = e.validate(&[]).unwrap();
    assert_eq!(name, "dev");
    assert_eq!(digest.len(), 64);
    assert_eq!(p.image, "img");
}

#[test]
fn credential_surfaces_read() {
    assert!(matches!(
        CredentialSurface::from_text("none"),
        Ok(CredentialSurface::Absent)
    ));
    assert!(CredentialSurface::from_text("all").is_err());
    assert!(CredentialSurface::from_socket(Some("/run/a".to_string())).is_ok());
    assert!(CredentialSurface::from_socket(Some("a".to_string())).is_err());
    assert!(CredentialSurface::from_socket(None).is_err());
}

#[test]
fn agent_sockets_mount_read_only() {
    let mut p = profile();
    assert!(ssh_agent_volume_args(&p).is_empty());
    p.credential_surface = CredentialSurface::Agent {
        ssh_agent: "/run/a".to_string(),
    };
    assert_eq!(
        ssh_agent_volume_args(&p),
        vec!["--volume", "/run/a:/run/a:ro", "-e", "SSH_AUTH_SOCK=/run/a"]
    );
    assert_eq!(
        allowed_signers_text("me@x", "ssh-ed25519 AAA"),
        "me@x ssh-ed25519 AAA\n"
    );
}

#[test]
fn decoded_profiles_expand_home_and_validate() {
    let mut p = profile();
    p.mounts = vec![MountTriple {
        host_source: "~/data".to_string(),
        container_target: "/mnt/data".to_string(),
        mode: MountMode::Ro,
    }];
    let hosts = ["/home/me/data".to_string()];
    let q = Profile::from_toml(Ok(p), Some("/home/me"), &hosts).unwrap();
    assert_eq!(q.mounts[0].host_source, "/home/me/data");
    assert_eq!(q.home(), "/home/cistella");
    let mut bad = profile();
    bad.container_home = "relative".to_string();
    assert!(Profile::from_toml(Ok(bad), Some("/home/me"), &[]).is_err());
    assert!(Profile::from_toml(Err("bad".to_string()), None, &[]).is_err());
}

#[test]
fn span_free_profiles_expand_to_themselves() {
    let mut p = profile();
    p.container_home = "/home/me/".to_string();
    p.environment_assignments = vec![("X".to_string(), "a {b} }}".to_string())];
    p.command = Some(vec!["sh".to_string()]);
    let q = expand_templates(p, None, &none(), None).unwrap();
    assert_eq!(q.container_home, "/home/me");
    assert_eq!(q.environment_assignments[0].1, "a {b} }}");
    assert_eq!(q.command, Some(vec!["sh".to_string()]));
}

#[test]
fn bad_mounts_are_profile_errors() {
    let mut p = profile();
    p.mounts = vec![MountTriple {
        host_source: "/h".to_string(),
        container_target: "/etc/x".to_string(),
        mode: MountMode::Ro,
    }];
    match Profile::from_toml(Ok(p), None, &["/h".to_string()]) {
        Err(CistellaError::Profile(m)) => assert!(m.starts_with("mount: ")),
        other => panic!("expected a profile error, got {other:?}"),
    }
}
