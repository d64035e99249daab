//! Guest serving loop: the hello, the arguments, and what each frame calls
//! for.

use vstd::prelude::*;

use crate::error::{CistellaError, ErrorView, Result};
use crate::framework::json;
use crate::framework::json::Json;
use crate::framework::protocol;
use crate::framework::protocol::{
    AWAIT_RESULT_OP, EOF_AT_BOUNDARY, Envelope, HOST_MAX_FRAME, HelloResponse, IDLE_TIMEOUT,
    PROTOCOL_MAJOR,
};
use crate::isolators::client::FD_SOCKET_ARG;
use crate::isolators::close;
use crate::text;

verus! {

/// Role capability announced at hello.
pub const ROLE_CAPABILITY: &'static str = "isolator";

/// First-hello wait budget, in milliseconds.
pub const HELLO_WAIT: u64 = 30_000;

/// `{pending}` ticker cadence during an await, in milliseconds.
pub const AWAIT_TICK: u64 = 2_000;

/// Guest-side operation budget, in milliseconds.
pub const OP_BUDGET: u64 = 120_000;

/// Termination grace of disconnect-time sweeps, in milliseconds.
pub const CONVERGE_GRACE: u64 = 30_000;

/// Whether a first envelope is the hello that this guest answers: the hello
/// operation at the guest's protocol version.
pub fn accepts_hello(op: &str, version: u32) -> (b: bool)
    ensures
        b == (op@ == "hello"@ && version == PROTOCOL_MAJOR),
{
    text::eq(op, "hello") && version == PROTOCOL_MAJOR
}

/// Whether a hello offers this guest's version, its role alone, and the host
/// ceiling as its maximum frame.
pub open spec fn offers(h: HelloResponse) -> bool {
    &&& h.version == PROTOCOL_MAJOR
    &&& h.capabilities.deep_view() == seq![ROLE_CAPABILITY@]
    &&& h.max_frame == Some(HOST_MAX_FRAME as u32)
}

/// The hello response: the guest's version, its role, and the host ceiling
/// as its maximum frame.
pub fn hello_response() -> (r: HelloResponse)
    ensures
        offers(r),
{
    let mut capabilities: Vec<String> = Vec::new();
    capabilities.push(ROLE_CAPABILITY.to_owned());
    assert(capabilities.deep_view() =~= seq![ROLE_CAPABILITY@]);
    HelloResponse {
        version: PROTOCOL_MAJOR,
        capabilities,
        max_frame: Some(HOST_MAX_FRAME as u32),
    }
}

/// The hello that this guest sends passes the driver's negotiation: the
/// isolator role, and the host ceiling as the frame limit.
pub proof fn law_guest_hello_is_accepted(response: Envelope, hello: HelloResponse)
    requires
        response.protocol == PROTOCOL_MAJOR,
        response.id@ == "hello"@,
        response.op@ == "hello"@,
        offers(hello),
    ensures
        protocol::hello_verdict(response, Some(hello)) == Ok::<(Seq<Seq<char>>, nat), ErrorView>(
            (seq![ROLE_CAPABILITY@], HOST_MAX_FRAME as nat),
        ),
{
}

/// Rendezvous paths named in the arguments, from argument `k` on.
pub open spec fn socket_paths(argv: Seq<Seq<char>>, k: int) -> Seq<Seq<char>>
    decreases argv.len() - k,
{
    if k < 0 || k >= argv.len() {
        Seq::empty()
    } else if argv[k] == FD_SOCKET_ARG@ && k + 1 < argv.len() {
        seq![argv[k + 1]] + socket_paths(argv, k + 2)
    } else {
        socket_paths(argv, k + 1)
    }
}

/// Lists the rendezvous paths that a guest's argv names, in order. Each is
/// connected in turn and the last one serves; none means that every
/// operation but launch is served.
pub fn fd_socket_paths(argv: &[String]) -> (out: Vec<String>)
    ensures
        out.deep_view() == socket_paths(argv.deep_view(), 1),
{
    let ghost all = argv.deep_view();
    let mut out: Vec<String> = Vec::new();
    let mut k: usize = 1;
    assert(argv@.len() == all.len());
    assert(out.deep_view() + socket_paths(all, 1) =~= socket_paths(all, 1));
    while k < argv.len()
        invariant
            all == argv.deep_view(),
            argv@.len() == all.len(),
            out.deep_view() + socket_paths(all, k as int) == socket_paths(all, 1),
        decreases argv.len() - k,
    {
        let ghost before = out.deep_view();
        assert(all[k as int] == argv@[k as int]@);
        if text::eq(argv[k].as_str(), FD_SOCKET_ARG) && argv.len() - k >= 2 {
            assert(all[k + 1] == argv@[k + 1]@);
            out.push(argv[k + 1].clone());
            assert(out.deep_view() =~= before + seq![all[k + 1]]);
            assert(before + (seq![all[k + 1]] + socket_paths(all, k + 2)) =~= (before + seq![
                all[k + 1],
            ]) + socket_paths(all, k + 2));
            k = k + 2;
        } else {
            k = k + 1;
        }
    }
    assert(socket_paths(all, k as int) =~= Seq::<Seq<char>>::empty());
    assert(out.deep_view() + Seq::<Seq<char>>::empty() =~= out.deep_view());
    out
}

/// What a read brought.
#[derive(Debug)]
pub enum Heard {
    /// The read failed.
    Failed(CistellaError),
    /// A frame that is no envelope.
    Garbled,
    /// An envelope with this operation.
    Envelope(String),
}

/// What the guest does next.
#[derive(Debug, Clone, Copy, PartialEq, Eq, Structural)]
pub enum GuestStep {
    /// Dispatch the operation and send its terminal response.
    Dispatch,
    /// Serve the await beside the loop.
    Await,
    /// Read again.
    Continue,
    /// Exit with success.
    Quit,
    /// Converge live state, then exit with failure.
    Abandon,
}

/// What a read calls for.
pub open spec fn step_of(heard: Heard, live: bool) -> GuestStep {
    match heard {
        Heard::Failed(e) => if e@ == ErrorView::Protocol(EOF_AT_BOUNDARY@) && !live {
            GuestStep::Quit
        } else if e@ == ErrorView::Protocol(IDLE_TIMEOUT@) {
            GuestStep::Continue
        } else {
            GuestStep::Abandon
        },
        Heard::Garbled => GuestStep::Abandon,
        Heard::Envelope(op) => if op@ == "hello"@ {
            GuestStep::Abandon
        } else if op@ == AWAIT_RESULT_OP@ {
            GuestStep::Await
        } else {
            GuestStep::Dispatch
        },
    }
}

/// Decides what a read calls for.
///
/// Only a clean end of input at a frame boundary with no live state exits
/// quietly; idle timeouts read again; a second hello is a protocol
/// violation; every other failure converges and exits with failure.
pub fn next_step(heard: &Heard, live: bool) -> (s: GuestStep)
    ensures
        s == step_of(*heard, live),
{
    match heard {
        Heard::Failed(e) => if protocol::is_clean_eof(e) && !live {
            GuestStep::Quit
        } else if protocol::is_read_timeout(e) {
            GuestStep::Continue
        } else {
            GuestStep::Abandon
        },
        Heard::Garbled => GuestStep::Abandon,
        Heard::Envelope(op) => if text::eq(op.as_str(), "hello") {
            GuestStep::Abandon
        } else if text::eq(op.as_str(), AWAIT_RESULT_OP) {
            GuestStep::Await
        } else {
            GuestStep::Dispatch
        },
    }
}

/// What one tick of a served await brought.
#[derive(Debug)]
pub enum AwaitTick {
    /// The backend settled.
    Settled(Result<Json>),
    /// A tick passed without an outcome.
    Silence,
    /// The waiter is gone without an outcome.
    Gone,
}

/// What a served await sends for a tick.
#[derive(Debug)]
pub enum AwaitFrame {
    /// A pending frame; the await goes on while it can be sent.
    Pending(Json),
    /// The terminal frame; the await ends.
    Terminal(Json),
    /// Nothing; the await ends.
    Stop,
}

/// Whether a value is the heartbeat `{"pending": true}`.
pub open spec fn pending_frame(v: Json) -> bool {
    v matches Json::Object(m) && m@.len() == 1 && m@[0].0@ == "pending"@ && m@[0].1 == Json::Bool(
        true,
    )
}

/// Whether a frame is the one that a tick calls for.
pub open spec fn frame_for(tick: AwaitTick, f: AwaitFrame) -> bool {
    match tick {
        AwaitTick::Settled(Ok(payload)) => f matches AwaitFrame::Terminal(v) && close::ok_payload(
            v,
            payload,
        ),
        AwaitTick::Settled(Err(e)) => f matches AwaitFrame::Terminal(v) && close::error_payload(
            v,
            close::code_of(e@),
            e@.inner(),
        ),
        AwaitTick::Silence => f matches AwaitFrame::Pending(v) && pending_frame(v),
        AwaitTick::Gone => f is Stop,
    }
}

/// Serves one tick of an await: heartbeats while the backend waits, then the
/// terminal frame. Outcomes are never fabricated: a waiter that is gone ends
/// the await without one.
pub fn serve_await(tick: AwaitTick) -> (f: AwaitFrame)
    ensures
        frame_for(tick, f),
{
    match tick {
        AwaitTick::Settled(result) => AwaitFrame::Terminal(close::terminal_payload(result)),
        AwaitTick::Silence => {
            let mut members: Vec<(String, Json)> = Vec::new();
            members.push(("pending".to_owned(), Json::Bool(true)));
            AwaitFrame::Pending(Json::Object(members))
        },
        AwaitTick::Gone => AwaitFrame::Stop,
    }
}

/// Frames that an await sends over its ticks, in order, up to its end.
pub open spec fn frames_sent(frames: Seq<AwaitFrame>) -> Seq<Json>
    decreases frames.len(),
{
    if frames.len() == 0 {
        Seq::empty()
    } else {
        match frames[0] {
            AwaitFrame::Pending(v) => seq![v] + frames_sent(frames.skip(1)),
            AwaitFrame::Terminal(v) => seq![v],
            AwaitFrame::Stop => Seq::empty(),
        }
    }
}

/// A served await sends heartbeats and at most one other frame, its last:
/// nothing follows the terminal frame, and the host takes every frame before
/// it for a heartbeat.
pub proof fn law_nothing_follows_the_terminal(
    ticks: Seq<AwaitTick>,
    frames: Seq<AwaitFrame>,
    i: int,
)
    requires
        ticks.len() == frames.len(),
        forall|k: int| 0 <= k < ticks.len() ==> frame_for(ticks[k], #[trigger] frames[k]),
        0 <= i < frames_sent(frames).len() - 1,
    ensures
        pending_frame(frames_sent(frames)[i]),
        protocol::pending_payload(frames_sent(frames)[i]),
    decreases frames.len(),
{
    let v = frames_sent(frames)[i];
    assert(frame_for(ticks[0], frames[0]));
    if i == 0 {
        assert(frames[0] is Pending);
        assert(v == frames[0]->Pending_0);
        let m = v->Object_0@;
        assert(json::member_from(m, "pending"@, 0) == Some(m[0].1));
    } else {
        assert forall|k: int| 0 <= k < ticks.skip(1).len() implies frame_for(
            ticks.skip(1)[k],
            #[trigger] frames.skip(1)[k],
        ) by {
            assert(frame_for(ticks[k + 1], frames[k + 1]));
        }
        law_nothing_follows_the_terminal(ticks.skip(1), frames.skip(1), i - 1);
        assert(v == frames_sent(frames.skip(1))[i - 1]);
    }
}

/// Line that reports an incomplete disconnect-time sweep.
pub fn residue_line(error: &CistellaError) -> (s: String)
    ensures
        s@ == "error: disconnect converge left residue: "@ + error@.rendered(),
{
    text::cat("error: disconnect converge left residue: ", error.render().as_str())
}

/// Silence never stops a guest, and a guest with live state never exits
/// quietly.
pub proof fn law_live_guests_never_quit_quietly(heard: Heard, live: bool)
    ensures
        heard matches Heard::Failed(e) && e@ == ErrorView::Protocol(IDLE_TIMEOUT@) ==> step_of(
            heard,
            live,
        ) == GuestStep::Continue,
        live ==> step_of(heard, live) != GuestStep::Quit,
{
    reveal_strlit("eof at frame boundary");
    reveal_strlit("frame read timed out: idle");
    assert(EOF_AT_BOUNDARY@.len() != IDLE_TIMEOUT@.len());
}

/// Every path that follows the socket flag is taken, in order; nothing else is.
pub proof fn law_socket_paths_follow_the_flag(argv: Seq<Seq<char>>, k: int, i: int)
    requires
        0 <= k,
        0 <= i < socket_paths(argv, k).len(),
    ensures
        exists|j: int|
            k <= j && j + 1 < argv.len() && #[trigger] argv[j] == "--fd-socket"@ && argv[j + 1]
                == socket_paths(argv, k)[i],
    decreases argv.len() - k,
{
    if k < argv.len() {
        if argv[k] == FD_SOCKET_ARG@ && k + 1 < argv.len() {
            if i > 0 {
                law_socket_paths_follow_the_flag(argv, k + 2, i - 1);
            }
        } else {
            law_socket_paths_follow_the_flag(argv, k + 1, i);
        }
    }
}

/// An argument list in which only the argument at `j` is the flag gives the one
/// path after it, and one without the flag gives none.
pub proof fn law_one_flag_gives_one_path(argv: Seq<Seq<char>>, k: int, j: int)
    requires
        0 <= k,
        forall|i: int|
            k <= i < argv.len() && i != j && i != j + 1 ==> #[trigger] argv[i] != "--fd-socket"@,
    ensures
        k <= j && j + 1 < argv.len() && argv[j] == "--fd-socket"@ ==> socket_paths(argv, k)
            == seq![argv[j + 1]],
        !(k <= j + 1 && j < argv.len()) ==> socket_paths(argv, k).len() == 0,
    decreases argv.len() - k,
{
    if k < argv.len() {
        if k == j {
            if j + 1 < argv.len() && argv[j] == "--fd-socket"@ {
                law_one_flag_gives_one_path(argv, k + 2, j);
                assert(socket_paths(argv, k + 2) =~= Seq::empty());
                assert(socket_paths(argv, k) =~= seq![argv[j + 1]]);
            }
        } else if k != j + 1 {
            law_one_flag_gives_one_path(argv, k + 1, j);
        }
    }
}

/// A guest ends quietly only when its host is gone between frames and nothing
/// lives; it waits on when idle, and gives up on any other failure.
pub proof fn law_guests_go_on_or_give_up(heard: Heard, live: bool)
    ensures
        step_of(heard, live) == GuestStep::Quit <==> !live && (heard matches Heard::Failed(e)
            && e@ == ErrorView::Protocol("eof at frame boundary"@)),
        heard is Garbled ==> step_of(heard, live) == GuestStep::Abandon,
        step_of(heard, live) == GuestStep::Continue <==> (heard matches Heard::Failed(e) && e@
            == ErrorView::Protocol("frame read timed out: idle"@)),
        step_of(heard, live) == GuestStep::Await <==> (heard matches Heard::Envelope(op) && op@
            == "isolator.await_result"@),
        step_of(heard, live) == GuestStep::Dispatch <==> (heard matches Heard::Envelope(op) && op@
            != "isolator.await_result"@ && op@ != "hello"@),
{
    reveal_strlit("eof at frame boundary");
    reveal_strlit("frame read timed out: idle");
    reveal_strlit("hello");
    reveal_strlit("isolator.await_result");
    assert("eof at frame boundary"@[0] == 'e' && "frame read timed out: idle"@[0] == 'f');
    assert("hello"@[0] == 'h' && "isolator.await_result"@[0] == 'i');
}

/// The guest's greeting offers the one role in the first version of the protocol
/// and frames of up to eight megabytes.
pub proof fn law_greetings_offer_the_isolator(h: HelloResponse)
    requires
        offers(h),
    ensures
        h.version == 1,
        h.capabilities.deep_view() == seq!["isolator"@],
        h.max_frame == Some(8_388_608u32),
{
}

/// An await that has settled is answered with what came of it, a silent one with
/// word that it is pending, and one that is gone with nothing.
pub proof fn law_awaits_are_answered(tick: AwaitTick, f: AwaitFrame)
    requires
        frame_for(tick, f),
    ensures
        tick matches AwaitTick::Settled(Ok(payload)) ==> (f matches AwaitFrame::Terminal(v)
            && json::member(v, "ok"@) == Some(payload) && json::member(v, "error"@) is None),
        tick matches AwaitTick::Settled(Err(e)) ==> (f matches AwaitFrame::Terminal(v)
            && json::member(v, "ok"@) is None && (json::member(v, "error"@) matches Some(x)
            && json::text_member(x, "code"@) == Some(close::code_of(e@)) && json::text_member(
            x,
            "message"@,
        ) == Some(e@.inner()))),
        tick is Silence ==> (f matches AwaitFrame::Pending(v) && json::member(v, "pending"@)
            == Some(Json::Bool(true))),
        tick is Gone ==> f is Stop,
{
    match tick {
        AwaitTick::Settled(Ok(payload)) => {
            close::law_terminals_hold_one_side(f->Terminal_0, payload, ""@, ""@);
        },
        AwaitTick::Settled(Err(e)) => {
            close::law_terminals_hold_one_side(
                f->Terminal_0,
                Json::Null,
                close::code_of(e@),
                e@.inner(),
            );
        },
        AwaitTick::Silence => {
            json::law_members_are_found_by_key(f->Pending_0->Object_0, "pending"@, 0);
        },
        AwaitTick::Gone => {},
    }
}

} // verus!
