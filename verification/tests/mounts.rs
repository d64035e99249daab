//! Paths, mount triples, and mount validation.

use cistella::error::CistellaError;
use cistella::mount::{
    canonicalize_host_source, host_ancestors, merge_cli_mounts, parse_mount_triple,
    parse_session_directory, podman_volume_args, system_root_of, validate_mounts, MountMode,
    MountTriple,
};
use cistella::path::{absolute, canonicalize, depth_of, file_name_of, is_ancestor_or_equal, join};

fn triple(host: &str, target: &str, mode: MountMode) -> MountTriple {
    MountTriple {
        host_source: host.to_string(),
        container_target: target.to_string(),
        mode,
    }
}

fn hosts(list: &[MountTriple]) -> Vec<String> {
    list.iter().map(|t| t.host_source.clone()).collect()
}

fn refusal(list: &[MountTriple]) -> String {
    match validate_mounts(list, "/home/cistella", &hosts(list)) {
        Err(CistellaError::Mount(m)) => m,
        other => panic!("expected a mount refusal, got {other:?}"),
    }
}

#[test]
fn canonical_form_folds_dots_and_slashes() {
    assert_eq!(canonicalize("/a//b/./c/"), "/a/b/c");
    assert_eq!(canonicalize("/a/b/../c"), "/a/c");
    assert_eq!(canonicalize("/"), "/");
}

#[test]
fn canonical_form_is_idempotent() {
    for p in ["/a//b/../c/.", "/", "/x/y", "/../a"] {
        let once = canonicalize(p);
        assert_eq!(canonicalize(&once), once);
    }
}

#[test]
fn ancestors_are_component_wise() {
    assert!(is_ancestor_or_equal("/a", "/a/b"));
    assert!(is_ancestor_or_equal("/a", "/a"));
    assert!(!is_ancestor_or_equal("/a", "/ab"));
    assert!(depth_of("/a") < depth_of("/a/b"));
}

#[test]
fn path_pieces() {
    assert!(absolute("/x"));
    assert!(!absolute("x"));
    assert_eq!(file_name_of("/a/b.toml"), Some("b.toml".to_string()));
    assert_eq!(join("/a", "b"), "/a/b");
    assert_eq!(join("/", "b"), "/b");
}

#[test]
fn triples_parse() {
    let t = parse_mount_triple("/h:/t:ro").unwrap();
    assert_eq!(t.host_source, "/h");
    assert_eq!(t.container_target, "/t");
    assert_eq!(t.mode, MountMode::Ro);
    assert!(matches!(
        parse_mount_triple("/h:/t"),
        Err(CistellaError::Mount(m)) if m == "--mount must be <host>:<target>:<mode>: /h:/t"
    ));
    assert!(matches!(
        parse_mount_triple(":/t:ro"),
        Err(CistellaError::Mount(m)) if m == "--mount host and target must be non-empty: :/t:ro"
    ));
    assert!(matches!(
        parse_mount_triple("/h:/t:wx"),
        Err(CistellaError::Mount(m)) if m == "mode must be ro or rw: wx"
    ));
    assert_eq!(MountMode::Rw.as_flag(), "rw");
    assert_eq!(MountMode::parse_flag("ro").unwrap(), MountMode::Ro);
}

#[test]
fn session_directories_parse() {
    assert_eq!(
        parse_session_directory("/src").unwrap(),
        ("/src".to_string(), "/work".to_string())
    );
    assert_eq!(
        parse_session_directory("/src:/code").unwrap(),
        ("/src".to_string(), "/code".to_string())
    );
    assert!(matches!(
        parse_session_directory("/src:code"),
        Err(CistellaError::Mount(m))
            if m == "session directory container target must be absolute: /src:code"
    ));
    assert!(matches!(
        parse_session_directory(":/code"),
        Err(CistellaError::Mount(m)) if m == "session directory host must be non-empty: :/code"
    ));
}

#[test]
fn valid_mounts_pass() {
    let list = [
        triple("/data/a", "/mnt/a", MountMode::Ro),
        triple("/data/b", "/mnt/b", MountMode::Rw),
    ];
    assert!(validate_mounts(&list, "/home/cistella", &hosts(&list)).is_ok());
}

#[test]
fn nested_targets_need_a_read_only_parent() {
    let ok = [
        triple("/data/a", "/mnt/a", MountMode::Ro),
        triple("/data/b", "/mnt/a/b", MountMode::Rw),
    ];
    assert!(validate_mounts(&ok, "/home/cistella", &hosts(&ok)).is_ok());
    let bad = [
        triple("/data/a", "/mnt/a", MountMode::Rw),
        triple("/data/b", "/mnt/a/b", MountMode::Rw),
    ];
    assert_eq!(refusal(&bad), "overlapping mounts: /mnt/a and /mnt/a/b");
}

#[test]
fn mounts_refuse_bad_triples() {
    assert_eq!(
        refusal(&[triple("data", "/mnt/a", MountMode::Ro)]),
        "host_source must be absolute: data"
    );
    assert_eq!(
        refusal(&[triple("/data", "mnt", MountMode::Ro)]),
        "container_target must be absolute: mnt"
    );
    assert_eq!(
        refusal(&[triple("/da=ta", "/mnt", MountMode::Ro)]),
        "host_source must not contain control/'=': /da=ta"
    );
    assert_eq!(
        refusal(&[
            triple("/a", "/mnt/x", MountMode::Ro),
            triple("/b", "/mnt/x/", MountMode::Ro),
        ]),
        "duplicate mount target: /mnt/x"
    );
}

#[test]
fn sensitive_roots_are_refused() {
    assert_eq!(system_root_of("/etc/passwd"), Some("/etc"));
    assert_eq!(system_root_of("/mnt"), None);
    assert!(refusal(&[triple("/a", "/etc/x", MountMode::Ro)]).starts_with("container_target"));
}

#[test]
fn cli_mounts_override_exact_targets() {
    let profile = [triple("/p", "/mnt/a", MountMode::Ro)];
    let cli = [triple("/c", "/mnt/a", MountMode::Rw)];
    let merged = merge_cli_mounts(&profile, &cli, "/work").unwrap();
    assert_eq!(merged.len(), 1);
    assert_eq!(merged[0].host_source, "/c");
    assert_eq!(merged[0].mode, MountMode::Rw);
}

#[test]
fn cli_mounts_refuse_overlaps_duplicates_and_the_worktree() {
    let profile = [triple("/p", "/mnt/a", MountMode::Rw)];
    let under = [triple("/c", "/mnt/a/b", MountMode::Rw)];
    assert!(matches!(
        merge_cli_mounts(&profile, &under, "/work"),
        Err(CistellaError::Mount(m)) if m.contains("partially overlaps profile mount")
    ));
    let twice = [
        triple("/c", "/mnt/x", MountMode::Rw),
        triple("/d", "/mnt/x", MountMode::Rw),
    ];
    assert!(matches!(
        merge_cli_mounts(&profile, &twice, "/work"),
        Err(CistellaError::Mount(m)) if m == "duplicate --mount target: /mnt/x"
    ));
    let work = [triple("/c", "/work", MountMode::Rw)];
    assert!(matches!(
        merge_cli_mounts(&profile, &work, "/work"),
        Err(CistellaError::Mount(m))
            if m.ends_with("equals the worktree target; use --session-directory")
    ));
}

#[test]
fn volume_args_put_home_first_and_parents_before_children() {
    let list = [
        triple("/data/b", "/mnt/a/b", MountMode::Rw),
        triple("/data/a", "/mnt/a", MountMode::Ro),
    ];
    assert_eq!(
        podman_volume_args(&list, "/home/cistella", None),
        vec![
            "--tmpfs",
            "/home/cistella",
            "--volume",
            "/data/a:/mnt/a:ro",
            "--volume",
            "/data/b:/mnt/a/b:rw",
        ]
    );
    assert_eq!(
        podman_volume_args(&[], "/home/cistella", Some("/scratch")),
        vec!["--volume", "/scratch:/home/cistella:rw"]
    );
}

#[test]
fn host_sources_resolve_by_longest_existing_prefix() {
    let ancestors = host_ancestors("/a/b/c");
    assert_eq!(ancestors, vec!["/a/b/c", "/a/b", "/a", "/"]);
    let resolved = vec![None, Some("/real/b".to_string()), None, Some("/".to_string())];
    assert_eq!(canonicalize_host_source("/a/b/c", &resolved), "/real/b/c");
    assert_eq!(canonicalize_host_source("/a/b/c", &[]), "/a/b/c");
}

#[test]
fn mount_arguments_say_their_triple() {
    let t = parse_mount_triple("/h:/t:rw").unwrap();
    assert_eq!(
        format!("{}:{}:{}", t.host_source, t.container_target, t.mode.as_flag()),
        "/h:/t:rw"
    );
    assert!(parse_mount_triple("/h:x:/t:rw").is_err());
    for mode in [MountMode::Ro, MountMode::Rw] {
        assert_eq!(MountMode::parse_flag(mode.as_flag()).unwrap(), mode);
    }
}

#[test]
fn overriding_mounts_still_may_not_overlap() {
    let profile = [
        triple("/a", "/data", MountMode::Ro),
        triple("/b", "/data/sub", MountMode::Ro),
    ];
    assert!(matches!(
        merge_cli_mounts(&profile, &[triple("/c", "/data", MountMode::Rw)], "/work"),
        Err(CistellaError::Mount(m)) if m == "--mount /data partially overlaps profile mount /data/sub"
    ));
    let merged = merge_cli_mounts(&profile, &[triple("/c", "/data", MountMode::Ro)], "/work").unwrap();
    assert_eq!(merged[0].host_source, "/c");
    let merged =
        merge_cli_mounts(&profile, &[triple("/c", "/data/sub", MountMode::Rw)], "/work").unwrap();
    assert_eq!(merged[1].mode, MountMode::Rw);
}

#[test]
fn cli_mounts_fill_their_slots_and_the_rest_follow_in_order() {
    let profile = [
        triple("/p1", "/mnt/a", MountMode::Ro),
        triple("/p2", "/mnt/b", MountMode::Ro),
        triple("/p3", "/mnt/c", MountMode::Ro),
    ];
    let cli = [
        triple("/c1", "/mnt/z", MountMode::Rw),
        triple("/c2", "/mnt/b/", MountMode::Rw),
        triple("/c3", "/mnt/d", MountMode::Ro),
    ];
    let merged = merge_cli_mounts(&profile, &cli, "/work").unwrap();
    let sources: Vec<&str> = merged.iter().map(|t| t.host_source.as_str()).collect();
    assert_eq!(sources, ["/p1", "/c2", "/p3", "/c1", "/c3"]);
}
