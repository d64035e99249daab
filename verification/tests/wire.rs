//! Frames, envelopes, exchanges, streams, descriptors, and guest lifetime.

use cistella::error::CistellaError;
use cistella::framework::discovery::{candidate, discover_in, FileFacts};
use cistella::framework::fdpass::{
    accept_gate, binds_launch, check_peer, recv_bundle, rendezvous_name, send_bundle,
    BundleHeader, Received,
};
use cistella::framework::guest::{
    drain_step, drain_stderr, kill_step, owes_pipe_check, shutdown, spawn_gate, KillStep,
};
use cistella::framework::handles::Handles;
use cistella::framework::isolator::{
    converge_clean, foreground_join, verified_conductor_pgid, Closing, ExecutionOutcome,
    ForegroundJoin,
};
use cistella::framework::contract::LifecycleState;
use cistella::framework::json::{get, get_integer, get_text, Json};
use cistella::framework::protocol::{
    check_correlation, check_token, is_clean_eof, is_pending, is_read_timeout, parse_envelope,
    read_frame, settle_request, stream_gate, stream_response, write_all_deadline, write_frame,
    Decoded, Envelope, Exchange, FrameAssembler, FramePoll, HelloResponse, ReadEvent, StreamStep,
    WriteEvent, DEFAULT_MAX_FRAME, HOST_MAX_FRAME,
};
use cistella::framework::signals::{
    conduct_cancel, got_hup, got_term, pending_signal, SignalState,
};
use cistella::framework::stream::{SliceStep, StreamReader};

fn object(members: Vec<(&str, Json)>) -> Json {
    Json::Object(members.into_iter().map(|(k, v)| (k.to_string(), v)).collect())
}

fn text(s: &str) -> Json {
    Json::Str(s.to_string())
}

fn envelope(id: &str, op: &str, payload: Json) -> Envelope {
    Envelope {
        protocol: 1,
        id: id.to_string(),
        op: op.to_string(),
        payload,
    }
}

fn message(e: CistellaError) -> String {
    match e {
        CistellaError::Protocol(m) => m,
        other => panic!("expected a protocol error, got {other:?}"),
    }
}

#[test]
fn frames_carry_their_length() {
    assert_eq!(write_frame(b"abc", 10).unwrap(), vec![0, 0, 0, 3, b'a', b'b', b'c']);
    assert_eq!(
        message(write_frame(b"abc", 2).unwrap_err()),
        "frame length 3 exceeds maximum 2"
    );
}

#[test]
fn frames_survive_chunking() {
    let frame = write_frame(b"hello", 10).unwrap();
    for cut in 0..frame.len() {
        let mut a = FrameAssembler::new();
        let mut got = None;
        for chunk in [&frame[..cut], &frame[cut..]] {
            if let FramePoll::Complete(body) =
                a.poll_once(ReadEvent::Bytes(chunk.to_vec()), 10).unwrap()
            {
                got = Some(body);
            }
        }
        assert_eq!(got, Some(b"hello".to_vec()));
        assert!(a.is_fresh());
    }
}

#[test]
fn oversize_frames_are_refused_at_the_header() {
    let mut a = FrameAssembler::new();
    assert_eq!(a.want(), 4);
    let e = a.poll_once(ReadEvent::Bytes(vec![0, 0, 0, 11]), 10).unwrap_err();
    assert_eq!(message(e), "frame length 11 exceeds maximum 10");
}

#[test]
fn reads_stop_at_the_frame() {
    let mut a = FrameAssembler::new();
    let _ = a.poll_once(ReadEvent::Bytes(vec![0, 0, 0, 5]), 10).unwrap();
    assert_eq!(a.want(), 5);
    let _ = a.poll_once(ReadEvent::Bytes(vec![1, 2]), 10).unwrap();
    assert_eq!(a.want(), 3);
}

#[test]
fn ends_of_input_are_told_apart() {
    let mut a = FrameAssembler::new();
    assert!(is_clean_eof(&a.poll_once(ReadEvent::Eof, 10).unwrap_err()));
    let _ = a.poll_once(ReadEvent::Bytes(vec![0]), 10).unwrap();
    assert_eq!(
        message(a.poll_once(ReadEvent::Eof, 10).unwrap_err()),
        "truncated frame: EOF mid-frame"
    );
}

#[test]
fn bounded_reads_time_out() {
    let mut a = FrameAssembler::new();
    let idle = read_frame(&mut a, true, ReadEvent::Unready, 10).unwrap_err();
    assert!(is_read_timeout(&idle));
    let _ = read_frame(&mut a, false, ReadEvent::Bytes(vec![0]), 10).unwrap();
    assert_eq!(
        message(read_frame(&mut a, true, ReadEvent::Unready, 10).unwrap_err()),
        "frame read timed out"
    );
}

#[test]
fn writes_are_accounted() {
    assert_eq!(write_all_deadline(5, &WriteEvent::Wrote(2)).unwrap(), 3);
    assert_eq!(write_all_deadline(5, &WriteEvent::Again).unwrap(), 5);
    assert_eq!(
        message(write_all_deadline(5, &WriteEvent::Wrote(0)).unwrap_err()),
        "frame write: closed pipe"
    );
    assert_eq!(
        message(write_all_deadline(5, &WriteEvent::Unready).unwrap_err()),
        "frame write timed out"
    );
}

#[test]
fn envelopes_are_checked() {
    let ok = parse_envelope(b"{}", Decoded::Envelope(envelope("a", "b", Json::Null))).unwrap();
    assert_eq!(ok.op, "b");
    let fault = |body: &[u8], d: Decoded| message(parse_envelope(body, d).unwrap_err());
    assert_eq!(fault(&[0xff], Decoded::Shape), "bad envelope: not UTF-8");
    assert_eq!(fault(b"{", Decoded::Truncated), "bad envelope: truncated JSON");
    assert_eq!(fault(b"x", Decoded::Malformed), "bad envelope: malformed JSON");
    assert_eq!(fault(b"1", Decoded::Shape), "bad envelope: shape violation");
    assert_eq!(
        fault(b"{}", Decoded::Envelope(envelope("a", "b c", Json::Null))),
        "bad envelope: op shape"
    );
    assert!(check_token("a.b:c/d-e_f", "op").is_ok());
    assert!(check_token("", "op").is_err());
}

#[test]
fn responses_correlate() {
    let e = envelope("req-1", "x", Json::Null);
    assert!(check_correlation(&e, "req-1").is_ok());
    assert_eq!(
        message(check_correlation(&e, "req-2").unwrap_err()),
        "response for unknown or duplicate id"
    );
    let mut other = envelope("req-1", "x", Json::Null);
    other.protocol = 2;
    assert_eq!(
        message(check_correlation(&other, "req-1").unwrap_err()),
        "response protocol mismatch"
    );
}

#[test]
fn hello_negotiates_the_ceiling() {
    let hello = |max: Option<u32>, version: u32| {
        Exchange::new().hello(
            &envelope("hello", "hello", Json::Null),
            Some(HelloResponse {
                version,
                capabilities: vec!["isolator".to_string()],
                max_frame: max,
            }),
        )
    };
    assert_eq!(hello(None, 1).unwrap().max_frame, DEFAULT_MAX_FRAME);
    assert_eq!(hello(Some(100), 1).unwrap().max_frame, 100);
    assert_eq!(hello(Some(u32::MAX), 1).unwrap().max_frame, HOST_MAX_FRAME);
    assert_eq!(message(hello(None, 2).unwrap_err()), "unsupported guest version 2");
    assert_eq!(
        message(
            Exchange::new()
                .hello(&envelope("hello", "hello", Json::Null), None)
                .unwrap_err()
        ),
        "bad hello payload: shape violation"
    );
}

#[test]
fn request_ids_differ() {
    let mut x = Exchange::new();
    let a = x.request("op", Json::Null);
    let b = x.request("op", Json::Null);
    assert_ne!(a.id, b.id);
    assert_eq!(a.protocol, 1);
    assert_eq!(x.send(b"ab").unwrap(), vec![0, 0, 0, 2, b'a', b'b']);
    x.close();
    assert_eq!(message(x.send(b"ab").unwrap_err()), "exchange is closed");
}

#[test]
fn single_shots_refuse_pending() {
    let pending = object(vec![("pending", Json::Bool(true))]);
    assert!(is_pending(&pending));
    assert_eq!(
        message(settle_request("r", "op", envelope("r", "op", pending)).unwrap_err()),
        "op sent pending on a single-shot exchange"
    );
    assert!(matches!(
        settle_request("r", "op", envelope("r", "op", text("x"))),
        Ok(Json::Str(s)) if s == "x"
    ));
}

#[test]
fn streams_count_pending_frames() {
    let pending = object(vec![("pending", Json::Bool(true))]);
    assert!(matches!(
        stream_response("r", 2, envelope("r", "op", pending)),
        Ok(StreamStep::Pending(3))
    ));
    assert!(matches!(
        stream_response("r", 2, envelope("r", "op", Json::Null)),
        Ok(StreamStep::Done(o)) if o.pending == 2
    ));
    assert!(stream_gate("op", false, false).is_ok());
    assert_eq!(message(stream_gate("op", true, false).unwrap_err()), "stream cancelled");
    assert_eq!(message(stream_gate("op", false, true).unwrap_err()), "op timed out");
    assert!(Exchange::new().request_stream("op", Json::Null, false).is_err());
    assert!(Exchange::new()
        .request_stream("isolator.await_result", Json::Null, false)
        .is_ok());
}

#[test]
fn silence_never_stalls_a_stream() {
    let mut s = StreamReader::new(10, 100);
    assert!(s.start_slice(0).is_ok());
    assert!(matches!(s.poll_frame(ReadEvent::Unready), Ok(SliceStep::Over)));
    assert!(s.start_slice(1_000_000).is_ok());
}

#[test]
fn half_frames_stall_a_stream() {
    let mut s = StreamReader::new(10, 100);
    assert!(matches!(s.poll_frame(ReadEvent::Bytes(vec![0])), Ok(SliceStep::More)));
    assert!(s.start_slice(50).is_ok());
    assert!(s.start_slice(149).is_ok());
    assert_eq!(
        message(s.start_slice(150).unwrap_err()),
        "frame stalled after first byte"
    );
}

#[test]
fn signals_latch() {
    let mut s = SignalState::new();
    assert_eq!(pending_signal(&s), None);
    s.on_conduct_signal(15);
    assert!(got_term(&s) && !got_hup(&s));
    assert_eq!(pending_signal(&s), Some(15));
    assert!(conduct_cancel(&s).is_cancelled());
    s.on_conduct_signal(1);
    assert!(got_hup(&s) && got_term(&s));
}

#[test]
fn bundles_carry_three_descriptors() {
    let header = || BundleHeader {
        unit_handle: "u".to_string(),
        execution_handle: "e".to_string(),
    };
    let received = || Received {
        ready: true,
        control_truncated: false,
        unexpected_control: false,
        truncated: false,
        bytes: 10,
        header: Some(header()),
        count: 3,
    };
    let h = recv_bundle(received()).unwrap();
    assert!(binds_launch(&h, "u", "e"));
    assert!(!binds_launch(&h, "u", "x"));
    let fault = |r: Received| match recv_bundle(r) {
        Err(CistellaError::Contract(m)) => m,
        other => panic!("expected a refusal, got {other:?}"),
    };
    let failure = |r: Received| match recv_bundle(r) {
        Err(CistellaError::Runtime(m)) => m,
        other => panic!("expected a failure, got {other:?}"),
    };
    let mut r = received();
    r.ready = false;
    assert_eq!(failure(r), "fd bundle wait timed out");
    let mut r = received();
    r.count = 2;
    assert_eq!(fault(r), "fd bundle must carry exactly 3 descriptors, got 2");
    let mut r = received();
    r.control_truncated = true;
    assert_eq!(fault(r), "fd bundle control truncated");
    let mut r = received();
    r.unexpected_control = true;
    assert_eq!(fault(r), "unexpected fd bundle control message");
    let mut r = received();
    r.truncated = true;
    assert_eq!(fault(r), "fd bundle truncated");
    let mut r = received();
    r.bytes = 0;
    assert_eq!(failure(r), "fd channel closed before bundle");
    let mut r = received();
    r.header = None;
    assert_eq!(fault(r), "bad fd bundle header: shape violation");
}

#[test]
fn peers_are_checked() {
    assert!(check_peer(1, 1, 7, 7).is_ok());
    assert!(check_peer(1, 2, 7, 7).is_err());
    assert!(check_peer(1, 1, 7, 8).is_err());
    assert!(send_bundle(Some(3), 3).is_ok());
    assert_eq!(
        send_bundle(Some(2), 3).unwrap_err().render(),
        "runtime: short fd bundle send: 2/3"
    );
    assert_eq!(send_bundle(None, 3).unwrap_err().render(), "contract: fd bundle send timed out");
    assert!(accept_gate(true, false).is_ok());
    assert_eq!(
        accept_gate(false, true).unwrap_err().render(),
        "contract: guest died before fd-channel connect"
    );
    assert_eq!(
        accept_gate(true, true).unwrap_err().render(),
        "runtime: fd-channel accept timed out"
    );
    let name = rendezvous_name(&[0xab; 16]);
    assert_eq!(name, format!("guest-{}.sock", "ab".repeat(16)));
}

#[test]
fn guests_are_siblings_of_the_driver() {
    assert_eq!(candidate("/bin", "guest").unwrap(), "/bin/guest");
    for bad in ["", ".", "..", "a/b"] {
        assert!(candidate("/bin", bad).is_err());
    }
    let facts = |is_file, mode| Some(FileFacts { is_file, mode });
    assert!(discover_in("/bin/guest", facts(true, 0o755)).is_ok());
    assert!(discover_in("/bin/guest", facts(true, 0o644)).is_err());
    assert!(discover_in("/bin/guest", facts(false, 0o755)).is_err());
    assert!(discover_in("/bin/guest", None).is_err());
}

#[test]
fn guest_shutdown_ranks_its_failures() {
    let e = || CistellaError::Protocol("x".to_string());
    assert!(shutdown(Ok(()), Ok(()), true).is_ok());
    assert_eq!(message(shutdown(Ok(()), Ok(()), false).unwrap_err()), "stderr drain hung");
    assert_eq!(message(shutdown(Err(e()), Ok(()), false).unwrap_err()), "x");
    assert_eq!(message(shutdown(Ok(()), Err(e()), false).unwrap_err()), "x");
    assert!(owes_pipe_check(&Ok(())));
    assert!(!owes_pipe_check(&Err(e())));
    assert!(matches!(kill_step(Ok(true), false), KillStep::Reaped));
    assert!(matches!(kill_step(Ok(false), false), KillStep::Wait));
    assert!(matches!(kill_step(Ok(false), true), KillStep::KillGroup));
    assert!(matches!(kill_step(Err("e".to_string()), true), KillStep::Failed(_)));
    assert!(drain_step(&ReadEvent::Eof).unwrap());
    assert!(!drain_step(&ReadEvent::Bytes(vec![1])).unwrap());
    assert_eq!(
        message(drain_step(&ReadEvent::Unready).unwrap_err()),
        "residue: descendant retains protocol FDs (no stdout EOF)"
    );
    assert_eq!(
        message(drain_step(&ReadEvent::Failed("e".to_string())).unwrap_err()),
        "stdout EOF drain: e"
    );
    assert!(drain_stderr(2_000_000).truncated);
    assert!(!drain_stderr(10).truncated);
    assert!(spawn_gate("/x", false).is_ok());
    assert!(spawn_gate("x", false).is_err());
    assert!(spawn_gate("/x", true).is_err());
}

#[test]
fn foreground_joins_need_a_verified_conductor() {
    assert_eq!(verified_conductor_pgid(5, 5, Some(9)), Some((5, 9)));
    assert_eq!(verified_conductor_pgid(1, 5, Some(9)), None);
    assert_eq!(foreground_join(true, Some((5, 9))), ForegroundJoin::Join((5, 9)));
    assert_eq!(foreground_join(true, None), ForegroundJoin::Refuse);
    assert_eq!(foreground_join(false, Some((5, 9))), ForegroundJoin::Stay);
}

#[test]
fn outcomes_have_exit_codes() {
    assert_eq!(ExecutionOutcome::Exited(3).exit_code(), 3);
    assert_eq!(ExecutionOutcome::Signaled(15).exit_code(), 143);
    assert_eq!(converge_clean(LifecycleState::Absent), Closing::Remove);
    assert_eq!(converge_clean(LifecycleState::Stopped), Closing::TerminateThenRemove);
}

#[test]
fn json_members_are_read() {
    let v = object(vec![("a", text("x")), ("n", Json::Integer(4))]);
    assert_eq!(get_text(&v, "a"), Some("x"));
    assert_eq!(get_integer(&v, "n"), Some(4));
    assert!(get(&v, "z").is_none());
    assert!(get_text(&Json::Null, "a").is_none());
}

#[test]
fn handle_tables_replace_and_remove() {
    let mut h: Handles<String> = Handles::new();
    h.insert("a", "1".to_string());
    h.insert("a", "2".to_string());
    assert_eq!(h.get("a"), Some(&"2".to_string()));
    assert_eq!(h.keys(), vec!["a".to_string()]);
    assert_eq!(h.remove("a"), Some("2".to_string()));
    assert!(h.get("a").is_none());
}
