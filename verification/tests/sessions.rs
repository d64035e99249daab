//! Session ids, labels, digests, locks, and the accepted error texts.

use cistella::digest::{is_utf8, sha256_hex, text_digest};
use cistella::error::CistellaError;
use cistella::lock::{
    acquire_path, legacy_scratch_dir, lock_path, scratch_dir, try_acquire, LockAttempt,
};
use cistella::session::{
    command_label, ensure_minted_id, ensure_no_injection, ensure_session_field, fallback_entropy,
    mint_session_id, parse_cli_label, parse_command_label, validate_generic_label, Session,
};
use cistella::table::lookup_text;
use cistella::version;

fn session(id: &str) -> Session {
    Session {
        id: id.to_string(),
        directory: "/src".to_string(),
        profile: "p".to_string(),
        profile_digest: "d".to_string(),
        identity: "me".to_string(),
        command: vec!["sh".to_string()],
        image: "img".to_string(),
        container_home: "/home/cistella".to_string(),
    }
}

#[test]
fn minted_ids_have_their_shape() {
    let id = mint_session_id(1, &[0, 0, 0, 0, 0]);
    assert_eq!(id, "00000000100000000");
    let other = mint_session_id(1_700_000_000_000, &[1, 2, 3, 4, 5]);
    assert_eq!(other.len(), 17);
    assert!(ensure_minted_id(&other).is_ok());
}

#[test]
fn minted_ids_sort_by_time() {
    let early = mint_session_id(1_000, &[255, 255, 255, 255, 255]);
    let late = mint_session_id(1_001, &[0, 0, 0, 0, 0]);
    assert!(early < late);
}

#[test]
fn minted_ids_differ_by_entropy() {
    assert_ne!(
        mint_session_id(7, &[0, 0, 0, 0, 1]),
        mint_session_id(7, &[0, 0, 0, 0, 2])
    );
}

#[test]
fn fallback_entropy_follows_its_seed() {
    assert_eq!(fallback_entropy(1, 2, 3), fallback_entropy(1, 2, 3));
    assert_ne!(fallback_entropy(1, 2, 3), fallback_entropy(2, 2, 3));
}

#[test]
fn bad_ids_are_refused() {
    for bad in ["", "short", "0000000010000000A", "0000000010000000-"] {
        assert!(matches!(
            ensure_minted_id(bad),
            Err(CistellaError::Runtime(m)) if m == "session id must be 17 lowercase [a-z0-9] chars"
        ));
    }
}

#[test]
fn command_labels_round_trip() {
    let argv = vec!["sh".to_string(), "-c".to_string(), "echo \"a b\"\n".to_string()];
    let label = command_label(&argv);
    assert_eq!(label, "[\"sh\",\"-c\",\"echo \\\"a b\\\"\\n\"]");
    assert_eq!(parse_command_label(&label).unwrap(), argv);
}

#[test]
fn bad_command_labels_are_refused() {
    assert!(matches!(
        parse_command_label("not json"),
        Err(CistellaError::Runtime(m)) if m.starts_with("cistella.command label: ")
    ));
}

#[test]
fn generic_labels_parse() {
    assert_eq!(
        parse_cli_label("team=core").unwrap(),
        ("team".to_string(), "core".to_string())
    );
    assert!(matches!(
        parse_cli_label("team"),
        Err(CistellaError::Runtime(m)) if m == "--label must be k=v: team"
    ));
    assert!(parse_cli_label("cistella.id=1").is_err());
    assert!(validate_generic_label("k", "a=b").is_err());
    assert!(validate_generic_label("", "a").is_err());
    assert!(validate_generic_label("k", "ok").is_ok());
}

#[test]
fn session_fields_are_bounded() {
    assert!(ensure_session_field("me", "identity").is_ok());
    assert!(ensure_session_field("", "identity").is_err());
    assert!(ensure_session_field("-x", "identity").is_err());
    assert!(ensure_session_field("a b", "identity").is_err());
    assert!(matches!(
        ensure_no_injection("a\nb", "directory"),
        Err(CistellaError::Runtime(m)) if m == "directory must not contain control characters"
    ));
}

#[test]
fn sessions_name_their_container_and_unit() {
    let s = session("00000000100000000");
    assert_eq!(s.container_name(), "cistella-00000000100000000");
    assert_eq!(s.quadlet_unit_name(), "cistella-00000000100000000.container");
}

#[test]
fn digests_are_sha256_in_hex() {
    assert_eq!(
        sha256_hex(b"abc"),
        "ba7816bf8f01cfea414140de5dae2223b00361a396177a9cb410ff61f20015ad"
    );
    assert_eq!(
        text_digest(""),
        "e3b0c44298fc1c149afbf4c8996fb92427ae41e4649b934ca495991b7852b855"
    );
    assert!(is_utf8(b"abc"));
    assert!(!is_utf8(&[0xff, 0xfe]));
}

#[test]
fn tables_keep_the_latest_value() {
    let mut t = vec![("a".to_string(), "1".to_string())];
    cistella::table::set(&mut t, "b", "2");
    cistella::table::set(&mut t, "a", "3");
    assert_eq!(t.len(), 2);
    assert_eq!(lookup_text(&t, "a"), Some("3"));
    assert_eq!(lookup_text(&t, "b"), Some("2"));
    assert_eq!(lookup_text(&t, "c"), None);
}

#[test]
fn runtime_paths() {
    assert_eq!(lock_path(Some("/run/user/1")), "/run/user/1/cistella/lock");
    assert_eq!(lock_path(None), "/tmp/cistella.lock");
    assert_eq!(scratch_dir("x", Some("/run/user/1")), "/run/user/1/cistella/x");
    assert_eq!(scratch_dir("x", None), "/tmp/cistella-x");
    assert_eq!(legacy_scratch_dir("x"), "/tmp/cistella-x");
}

#[test]
fn contended_locks_have_their_own_class() {
    assert!(acquire_path("/l", LockAttempt::Locked).is_ok());
    assert!(matches!(
        acquire_path("/l", LockAttempt::Contended),
        Err(CistellaError::LockContended)
    ));
    assert!(!try_acquire("/l", LockAttempt::Contended).unwrap());
    assert!(try_acquire("/l", LockAttempt::Locked).unwrap());
    let m = || "m".to_string();
    assert_eq!(
        acquire_path("/l", LockAttempt::NoDirectory("/d".to_string(), m())).unwrap_err().render(),
        "runtime: create lock dir /d: m"
    );
    assert_eq!(
        acquire_path("/l", LockAttempt::NoFile(m())).unwrap_err().render(),
        "runtime: open lock /l: m"
    );
    assert_eq!(
        try_acquire("/l", LockAttempt::Failed(m())).unwrap_err().render(),
        "runtime: flock /l: m"
    );
}

#[test]
fn errors_render_with_their_class() {
    let m = || "m".to_string();
    let all = [
        (CistellaError::Profile(m()), "profile: m"),
        (CistellaError::Mount(m()), "mount: m"),
        (CistellaError::Runtime(m()), "runtime: m"),
        (CistellaError::Transport(m()), "transport: m"),
        (CistellaError::Contract(m()), "contract: m"),
        (CistellaError::Protocol(m()), "protocol: m"),
        (CistellaError::Identity(m()), "identity: m"),
        (CistellaError::Preflight(m()), "preflight: m"),
        (CistellaError::LockContended, "lock contended"),
        (CistellaError::Selector(m()), "selector: m"),
        (CistellaError::Detached(m()), "detached: m"),
        (CistellaError::Io(m()), "m"),
    ];
    for (e, text) in all {
        assert_eq!(e.render(), text);
    }
    assert_eq!(CistellaError::Mount("m".to_string()).message(), "m");
}

#[test]
fn package_version() {
    assert_eq!(version(), "0.2.0");
}
