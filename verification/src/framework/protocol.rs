//! Versioned stdio protocol: framing, envelopes, negotiation, correlation.
//!
//! Wire shape: a 4-byte unsigned big-endian frame length followed by exactly
//! that many UTF-8 JSON envelope bytes. Envelopes are `{protocol, id, op,
//! payload}` objects. The first hello frame arrives before negotiation, so
//! an independent 64 KiB ceiling applies to it regardless of the negotiated
//! maximum.

use vstd::prelude::*;

use crate::digest;
use crate::error::{CistellaError, ErrorView, Result};
use crate::framework::json;
use crate::framework::json::Json;
use crate::text;

verus! {

/// Protocol major version this host speaks.
pub const PROTOCOL_MAJOR: u32 = 1;

/// Pre-negotiation frame ceiling.
pub const PRE_NEGOTIATION_MAX_FRAME: usize = 65_536;

/// Default negotiated maximum frame when the guest names none.
pub const DEFAULT_MAX_FRAME: usize = 1_048_576;

/// Hard host ceiling: negotiated maxima above this are clamped.
pub const HOST_MAX_FRAME: usize = 8_388_608;

/// Stderr accounting cap: bytes beyond this mark the drain truncated.
pub const STDERR_CAP: u64 = 1_048_576;

/// Bound for the single send inside an otherwise unbounded stream, in
/// milliseconds.
pub const SEND_BUDGET: u64 = 10_000;

/// Read slice for unbounded streams, in milliseconds.
pub const READ_POLL_BUDGET: u64 = 500;

/// Clean end of input: the peer closed an idle connection with no byte of a
/// frame consumed.
pub const EOF_AT_BOUNDARY: &'static str = "eof at frame boundary";

/// Idle timeout: budget exhausted with no byte consumed.
pub const IDLE_TIMEOUT: &'static str = "frame read timed out: idle";

/// Write timeout: the peer was not draining within budget.
pub const WRITE_TIMEOUT: &'static str = "frame write timed out";

/// The only exchange permitted an unbounded (cancellable, never timed) wait.
pub const AWAIT_RESULT_OP: &'static str = "isolator.await_result";

/// Envelope for every frame in both directions.
#[derive(Debug)]
pub struct Envelope {
    /// Protocol major version.
    pub protocol: u32,
    /// Request correlation id (requester-chosen, unique per connection).
    pub id: String,
    /// Operation name (`hello`, `prepare`, `isolator.*`, ...).
    pub op: String,
    /// Operation payload (opaque to framing; validated per operation).
    pub payload: Json,
}

/// Host hello payload: version plus offered capabilities.
#[derive(Debug)]
pub struct HelloRequest {
    /// Host protocol major version.
    pub version: u32,
    /// Host capability names.
    pub capabilities: Vec<String>,
}

/// Guest hello payload: version, capabilities, optional maximum frame.
#[derive(Debug)]
pub struct HelloResponse {
    /// Guest protocol major version (must equal the host's).
    pub version: u32,
    /// Guest capability names.
    pub capabilities: Vec<String>,
    /// Guest-proposed maximum frame (clamped to the host ceiling).
    pub max_frame: Option<u32>,
}

/// Negotiated session: guest capabilities plus enforced maximum.
#[derive(Debug)]
pub struct Negotiated {
    /// Guest capability names.
    pub capabilities: Vec<String>,
    /// Enforced maximum frame for the rest of the connection.
    pub max_frame: usize,
}

/// Outcome of one streaming exchange: pending count plus terminal payload.
#[derive(Debug)]
pub struct StreamOutcome {
    /// Number of `{pending: true}` frames before the terminal.
    pub pending: u32,
    /// Terminal payload (first non-pending frame).
    pub result: Json,
}

/// A protocol failure with a message.
pub fn protocol_error(message: &str) -> (e: CistellaError)
    ensures
        e@ == ErrorView::Protocol(message@),
{
    CistellaError::Protocol(message.to_owned())
}

fn is_protocol(error: &CistellaError, message: &str) -> (b: bool)
    ensures
        b == (error@ == ErrorView::Protocol(message@)),
{
    match error {
        CistellaError::Protocol(m) => text::eq(m.as_str(), message),
        _ => false,
    }
}

/// True when the error is a clean end of input at a frame boundary.
#[must_use]
pub fn is_clean_eof(error: &CistellaError) -> (b: bool)
    ensures
        b == (error@ == ErrorView::Protocol(EOF_AT_BOUNDARY@)),
{
    is_protocol(error, EOF_AT_BOUNDARY)
}

/// True when the error is a read-budget timeout (idle silence, not
/// failure). Guests loop again on timeouts.
#[must_use]
pub fn is_read_timeout(error: &CistellaError) -> (b: bool)
    ensures
        b == (error@ == ErrorView::Protocol(IDLE_TIMEOUT@)),
{
    is_protocol(error, IDLE_TIMEOUT)
}

/// True when the error is a frame-write timeout: a fatal exchange failure.
#[must_use]
pub fn is_write_timeout(error: &CistellaError) -> (b: bool)
    ensures
        b == (error@ == ErrorView::Protocol(WRITE_TIMEOUT@)),
{
    is_protocol(error, WRITE_TIMEOUT)
}

/// Whether a payload is a non-terminal `{pending: true}`.
pub open spec fn pending_payload(payload: Json) -> bool {
    json::member(payload, "pending"@) == Some(Json::Bool(true))
}

/// True when a response payload is a non-terminal `{pending: true}`.
pub fn is_pending(payload: &Json) -> (b: bool)
    ensures
        b == pending_payload(*payload),
{
    match json::get(payload, "pending") {
        Some(Json::Bool(b)) => *b,
        _ => false,
    }
}

// ---------------------------------------------------------------------
// Framing
// ---------------------------------------------------------------------

/// 4-byte big-endian header of a length.
pub open spec fn frame_header(n: nat) -> Seq<u8> {
    seq![
        (n / 16_777_216 % 256) as u8,
        (n / 65_536 % 256) as u8,
        (n / 256 % 256) as u8,
        (n % 256) as u8,
    ]
}

/// Length that the first 4 bytes declare.
pub open spec fn declared(s: Seq<u8>) -> nat {
    (s[0] * 16_777_216 + s[1] * 65_536 + s[2] * 256 + s[3]) as nat
}

pub proof fn lemma_header(n: nat)
    requires
        n < 4_294_967_296,
    ensures
        declared(frame_header(n)) == n,
{
    let a = n / 16_777_216;
    let b = n / 65_536;
    let c = n / 256;
    assert(a < 256);
    assert(b == a * 256 + b % 256);
    assert(c == b * 256 + c % 256);
    assert(n == c * 256 + n % 256);
}

/// The refusal of an oversize frame.
pub open spec fn oversize(n: nat, max: nat) -> ErrorView {
    ErrorView::Protocol(
        "frame length "@ + text::dec(n) + " exceeds maximum "@ + text::dec(max),
    )
}

fn oversize_error(n: usize, max: usize) -> (e: CistellaError)
    ensures
        e@ == oversize(n as nat, max as nat),
{
    CistellaError::Protocol(
        text::cat4(
            "frame length ",
            text::dec_u64(n as u64).as_str(),
            " exceeds maximum ",
            text::dec_u64(max as u64).as_str(),
        ),
    )
}

/// Bytes of one frame, or the refusal of an oversize payload. A length that
/// does not fit the header is declared modulo the header's range.
pub open spec fn framed(payload: Seq<u8>, max: nat) -> std::result::Result<Seq<u8>, ErrorView> {
    if payload.len() > max {
        Err(oversize(payload.len(), max))
    } else {
        Ok(frame_header(payload.len() % 4_294_967_296) + payload)
    }
}

/// Whether a frame is the modelled one.
pub open spec fn frame_agrees(
    r: Result<Vec<u8>>,
    model: std::result::Result<Seq<u8>, ErrorView>,
) -> bool {
    match (r, model) {
        (Ok(a), Ok(b)) => a@ == b,
        (Err(a), Err(b)) => a@ == b,
        _ => false,
    }
}

/// Renders one length-prefixed frame, refusing oversize payloads.
pub fn write_frame(payload: &[u8], max_frame: usize) -> (r: Result<Vec<u8>>)
    ensures
        frame_agrees(r, framed(payload@, max_frame as nat)),
{
    if payload.len() > max_frame {
        return Err(oversize_error(payload.len(), max_frame));
    }
    let n: u64 = payload.len() as u64 % 4_294_967_296;
    let mut out: Vec<u8> = Vec::new();
    out.push((n / 16_777_216 % 256) as u8);
    out.push((n / 65_536 % 256) as u8);
    out.push((n / 256 % 256) as u8);
    out.push((n % 256) as u8);
    let ghost head = out@;
    assert(head =~= frame_header(payload@.len() % 4_294_967_296));
    let mut i: usize = 0;
    while i < payload.len()
        invariant
            i <= payload@.len(),
            out@ =~= head + payload@.take(i as int),
        decreases payload.len() - i,
    {
        out.push(payload[i]);
        i = i + 1;
    }
    assert(payload@.take(i as int) =~= payload@);
    Ok(out)
}

/// What one attempt to write came to.
#[derive(Debug)]
pub enum WriteEvent {
    /// Budget exhausted before the peer drained.
    Unready,
    /// So many bytes were taken.
    Wrote(usize),
    /// Nothing was taken; try again.
    Again,
    /// The write failed, with the system's text.
    Failed(String),
}

/// Bytes left after one attempt to write, or the failure.
pub open spec fn left_after(left: nat, event: WriteEvent) -> std::result::Result<nat, ErrorView> {
    match event {
        WriteEvent::Unready => Err(ErrorView::Protocol(WRITE_TIMEOUT@)),
        WriteEvent::Wrote(n) => if n == 0 {
            Err(ErrorView::Protocol("frame write: closed pipe"@))
        } else {
            Ok((left - n) as nat)
        },
        WriteEvent::Again => Ok(left),
        WriteEvent::Failed(m) => Err(ErrorView::Protocol("frame write: "@ + m@)),
    }
}

/// Accounts for one attempt to write the rest of a frame: a full pipe
/// consumes budget, never an unbounded block.
pub fn write_all_deadline(left: usize, event: &WriteEvent) -> (r: Result<usize>)
    requires
        *event matches WriteEvent::Wrote(n) ==> n <= left,
    ensures
        match (r, left_after(left as nat, *event)) {
            (Ok(a), Ok(b)) => a == b,
            (Err(a), Err(b)) => a@ == b,
            _ => false,
        },
{
    match event {
        WriteEvent::Unready => Err(protocol_error(WRITE_TIMEOUT)),
        WriteEvent::Wrote(n) => if *n == 0 {
            Err(protocol_error("frame write: closed pipe"))
        } else {
            Ok(left - *n)
        },
        WriteEvent::Again => Ok(left),
        WriteEvent::Failed(m) => Err(
            CistellaError::Protocol(text::cat("frame write: ", m.as_str())),
        ),
    }
}

/// What one attempt to read came to.
#[derive(Debug)]
pub enum ReadEvent {
    /// Budget exhausted before anything was readable.
    Unready,
    /// These bytes arrived.
    Bytes(Vec<u8>),
    /// End of input.
    Eof,
    /// Interrupted; try again.
    Again,
    /// The read failed, with the system's text.
    Failed(String),
}

/// What one attempt to read came to.
pub enum EventView {
    Unready,
    Bytes(Seq<u8>),
    Eof,
    Again,
    Failed(Seq<char>),
}

impl View for ReadEvent {
    type V = EventView;

    open spec fn view(&self) -> EventView {
        match *self {
            ReadEvent::Unready => EventView::Unready,
            ReadEvent::Bytes(b) => EventView::Bytes(b@),
            ReadEvent::Eof => EventView::Eof,
            ReadEvent::Again => EventView::Again,
            ReadEvent::Failed(m) => EventView::Failed(m@),
        }
    }
}

/// One poll outcome.
#[derive(Debug)]
pub enum FramePoll {
    /// Complete frame bytes.
    Complete(Vec<u8>),
    /// Budget exhausted with no byte consumed (idle, not failure).
    Idle,
    /// Budget exhausted mid-frame (state kept, poll again).
    Partial,
    /// The frame goes on: read again.
    More,
}

/// One poll outcome.
pub enum PollView {
    Complete(Seq<u8>),
    Idle,
    Partial,
    More,
}

impl View for FramePoll {
    type V = PollView;

    open spec fn view(&self) -> PollView {
        match *self {
            FramePoll::Complete(b) => PollView::Complete(b@),
            FramePoll::Idle => PollView::Idle,
            FramePoll::Partial => PollView::Partial,
            FramePoll::More => PollView::More,
        }
    }
}

/// How many bytes a read may take next: the rest of the header, then the
/// rest of the body in slices of at most 8192.
pub open spec fn wanted(seen: Seq<u8>) -> int {
    if seen.len() < 4 {
        4 - seen.len()
    } else {
        let left = 4 + declared(seen) - seen.len();
        if left < 0 {
            0
        } else if left < 8192 {
            left
        } else {
            8192
        }
    }
}

/// What a poll yields and what it keeps.
pub open spec fn polled(seen: Seq<u8>, event: EventView, max: nat) -> (
    std::result::Result<PollView, ErrorView>,
    Seq<u8>,
) {
    match event {
        EventView::Unready => (
            Ok(
                if seen.len() == 0 {
                    PollView::Idle
                } else {
                    PollView::Partial
                },
            ),
            seen,
        ),
        EventView::Again => (Ok(PollView::More), seen),
        EventView::Failed(m) => (Err(ErrorView::Protocol("frame read: "@ + m)), seen),
        EventView::Eof => (
            Err(
                ErrorView::Protocol(
                    if seen.len() == 0 {
                        EOF_AT_BOUNDARY@
                    } else {
                        "truncated frame: EOF mid-frame"@
                    },
                ),
            ),
            seen,
        ),
        EventView::Bytes(chunk) => {
            let next = seen + chunk;
            if next.len() < 4 {
                (Ok(PollView::More), next)
            } else if declared(next) > max {
                (Err(oversize(declared(next), max)), next)
            } else if next.len() < 4 + declared(next) {
                (Ok(PollView::More), next)
            } else {
                (
                    Ok(PollView::Complete(next.subrange(4, 4 + declared(next) as int))),
                    Seq::empty(),
                )
            }
        },
    }
}

/// Whether a poll is the modelled one.
pub open spec fn poll_agrees(
    r: Result<FramePoll>,
    model: std::result::Result<PollView, ErrorView>,
) -> bool {
    match (r, model) {
        (Ok(a), Ok(b)) => a@ == b,
        (Err(a), Err(b)) => a@ == b,
        _ => false,
    }
}

/// Incremental frame assembly across poll slices.
///
/// Unbounded waits must distinguish idle (no bytes yet) from mid-frame
/// progress (bytes consumed: parsing must not restart, or the stream
/// corrupts). The assembler keeps partial state across polls.
#[derive(Debug)]
pub struct FrameAssembler {
    seen: Vec<u8>,
}

impl View for FrameAssembler {
    type V = Seq<u8>;

    closed spec fn view(&self) -> Seq<u8> {
        self.seen@
    }
}

impl FrameAssembler {
    /// Assembler at the start of a frame.
    pub fn new() -> (a: Self)
        ensures
            a@ == Seq::<u8>::empty(),
    {
        FrameAssembler { seen: Vec::new() }
    }

    /// True when no byte has been consumed.
    pub fn is_fresh(&self) -> (b: bool)
        ensures
            b == (self@.len() == 0),
    {
        self.seen.len() == 0
    }

    fn declared_len(&self) -> (n: u64)
        requires
            self@.len() >= 4,
        ensures
            n == declared(self@),
            n < 4_294_967_296,
    {
        self.seen[0] as u64 * 16_777_216 + self.seen[1] as u64 * 65_536 + self.seen[2] as u64 * 256
            + self.seen[3] as u64
    }

    /// How many bytes the next read may take.
    pub fn want(&self) -> (n: usize)
        ensures
            n == wanted(self@),
    {
        if self.seen.len() < 4 {
            4 - self.seen.len()
        } else {
            let length = self.declared_len();
            let have: u64 = self.seen.len() as u64 - 4;
            if have >= length {
                return 0;
            }
            let left: u64 = length - have;
            if left < 8192 {
                left as usize
            } else {
                8192
            }
        }
    }

    /// Polls once toward a complete frame.
    ///
    /// A declared length above `max_frame` refuses before any body byte is
    /// taken; an end of input mid-frame fails the exchange. Budget
    /// exhaustion surfaces as `Idle` or `Partial`, never as an error. A read
    /// takes no more bytes than [`FrameAssembler::want`] says, so no byte of
    /// a following frame arrives with this one.
    pub fn poll_once(&mut self, event: ReadEvent, max_frame: usize) -> (r: Result<FramePoll>)
        ensures
            poll_agrees(r, polled(old(self)@, event@, max_frame as nat).0),
            final(self)@ == polled(old(self)@, event@, max_frame as nat).1,
    {
        match event {
            ReadEvent::Unready => Ok(
                if self.seen.len() == 0 {
                    FramePoll::Idle
                } else {
                    FramePoll::Partial
                },
            ),
            ReadEvent::Again => Ok(FramePoll::More),
            ReadEvent::Failed(m) => Err(
                CistellaError::Protocol(text::cat("frame read: ", m.as_str())),
            ),
            ReadEvent::Eof => if self.seen.len() == 0 {
                Err(protocol_error(EOF_AT_BOUNDARY))
            } else {
                Err(protocol_error("truncated frame: EOF mid-frame"))
            },
            ReadEvent::Bytes(chunk) => {
                let ghost before = self.seen@;
                let ghost added = chunk@;
                let mut chunk = chunk;
                self.seen.append(&mut chunk);
                let ghost next = before + added;
                assert(self.seen@ =~= next);
                if self.seen.len() < 4 {
                    return Ok(FramePoll::More);
                }
                let length = self.declared_len();
                if length > max_frame as u64 {
                    return Err(oversize_error(length as usize, max_frame));
                }
                if self.seen.len() as u64 - 4 < length {
                    return Ok(FramePoll::More);
                }
                let mut body: Vec<u8> = Vec::new();
                let end: usize = 4 + length as usize;
                let mut i: usize = 4;
                while i < end
                    invariant
                        self.seen@ == next,
                        4 <= i <= end <= self.seen@.len(),
                        body@ =~= next.subrange(4, i as int),
                    decreases end - i,
                {
                    body.push(self.seen[i]);
                    i = i + 1;
                }
                self.seen = Vec::new();
                Ok(FramePoll::Complete(body))
            },
        }
    }
}

/// What one step of a bounded frame read yields: the frame, or nothing yet.
pub open spec fn bounded_read(seen: Seq<u8>, expired: bool, event: EventView, max: nat) -> (
    std::result::Result<Option<Seq<u8>>, ErrorView>,
    Seq<u8>,
) {
    if expired {
        (
            Err(
                ErrorView::Protocol(
                    if seen.len() == 0 {
                        IDLE_TIMEOUT@
                    } else {
                        "frame read timed out"@
                    },
                ),
            ),
            seen,
        )
    } else {
        let p = polled(seen, event, max);
        (
            match p.0 {
                Err(e) => Err(e),
                Ok(PollView::Complete(body)) => Ok(Some(body)),
                Ok(PollView::Idle) => Err(ErrorView::Protocol(IDLE_TIMEOUT@)),
                Ok(_) => Ok(None),
            },
            p.1,
        )
    }
}

/// Whether an optional frame is the modelled one.
pub open spec fn read_agrees(
    r: Result<Option<Vec<u8>>>,
    model: std::result::Result<Option<Seq<u8>>, ErrorView>,
) -> bool {
    match (r, model) {
        (Ok(Some(a)), Ok(Some(b))) => a@ == b,
        (Ok(None), Ok(None)) => true,
        (Err(a), Err(b)) => a@ == b,
        _ => false,
    }
}

/// One step of a bounded frame read.
///
/// Bounded reads never idle and never trickle forever: past the deadline, no
/// consumed byte is idle silence (loopable), any consumed byte is a stalled
/// trickle that already desynchronized the stream (failure).
pub fn read_frame(
    assembler: &mut FrameAssembler,
    expired: bool,
    event: ReadEvent,
    max_frame: usize,
) -> (r: Result<Option<Vec<u8>>>)
    ensures
        read_agrees(r, bounded_read(old(assembler)@, expired, event@, max_frame as nat).0),
        final(assembler)@ == bounded_read(
            old(assembler)@,
            expired,
            event@,
            max_frame as nat,
        ).1,
{
    if expired {
        return Err(
            if assembler.is_fresh() {
                protocol_error(IDLE_TIMEOUT)
            } else {
                protocol_error("frame read timed out")
            },
        );
    }
    match assembler.poll_once(event, max_frame) {
        Err(e) => Err(e),
        Ok(FramePoll::Complete(body)) => Ok(Some(body)),
        Ok(FramePoll::Idle) => Err(protocol_error(IDLE_TIMEOUT)),
        Ok(_) => Ok(None),
    }
}

/// Chunks laid end to end.
pub open spec fn flat(chunks: Seq<Seq<u8>>) -> Seq<u8>
    decreases chunks.len(),
{
    if chunks.len() == 0 {
        Seq::empty()
    } else {
        chunks[0] + flat(chunks.skip(1))
    }
}

/// What polling chunk by chunk comes to.
pub open spec fn fed(seen: Seq<u8>, chunks: Seq<Seq<u8>>, max: nat) -> (
    std::result::Result<PollView, ErrorView>,
    Seq<u8>,
)
    decreases chunks.len(),
{
    if chunks.len() == 0 {
        (Ok(PollView::More), seen)
    } else {
        let p = polled(seen, EventView::Bytes(chunks[0]), max);
        match p.0 {
            Ok(PollView::More) => fed(p.1, chunks.skip(1), max),
            _ => p,
        }
    }
}

proof fn lemma_fed(seen: Seq<u8>, chunks: Seq<Seq<u8>>, payload: Seq<u8>, max: nat)
    requires
        payload.len() <= max,
        payload.len() < 4_294_967_296,
        seen + flat(chunks) == frame_header(payload.len()) + payload,
        seen.len() < 4 + payload.len(),
    ensures
        fed(seen, chunks, max) == (
            Ok::<PollView, ErrorView>(PollView::Complete(payload)),
            Seq::<u8>::empty(),
        ),
    decreases chunks.len(),
{
    let whole = frame_header(payload.len()) + payload;
    lemma_header(payload.len());
    assert((seen + flat(chunks)).len() == seen.len() + flat(chunks).len());
    assert(chunks.len() > 0);
    let next = seen + chunks[0];
    let rest = flat(chunks.skip(1));
    assert(next + rest =~= whole);
    assert(next.len() <= whole.len());
    assert(next =~= whole.subrange(0, next.len() as int));
    if next.len() >= 4 {
        assert(next[0] == whole[0] && next[1] == whole[1] && next[2] == whole[2] && next[3]
            == whole[3]);
        assert(declared(next) == payload.len());
    }
    if next.len() == whole.len() {
        assert(next =~= whole);
        assert(next.subrange(4, 4 + payload.len() as int) =~= payload);
    } else {
        lemma_fed(next, chunks.skip(1), payload, max);
    }
}

/// A read gives back what a write wrote: however the bytes of a frame are
/// cut into chunks, assembling them yields the payload exactly when the last
/// byte arrives, and leaves the assembler fresh for the next frame.
pub proof fn law_frames_survive_chunking(chunks: Seq<Seq<u8>>, payload: Seq<u8>, max: nat)
    requires
        payload.len() < 4_294_967_296,
        framed(payload, max) == Ok::<Seq<u8>, ErrorView>(flat(chunks)),
    ensures
        fed(Seq::empty(), chunks, max) == (
            Ok::<PollView, ErrorView>(PollView::Complete(payload)),
            Seq::<u8>::empty(),
        ),
{
    assert(Seq::<u8>::empty() + flat(chunks) =~= flat(chunks));
    assert(payload.len() % 4_294_967_296 == payload.len());
    lemma_fed(Seq::empty(), chunks, payload, max);
}

/// Reads that take no more than wanted never cross into the next frame.
pub proof fn law_reads_stop_at_the_frame(seen: Seq<u8>, chunk: Seq<u8>)
    requires
        seen.len() < 4 || seen.len() <= 4 + declared(seen),
        chunk.len() <= wanted(seen),
        (seen + chunk).len() >= 4,
    ensures
        (seen + chunk).len() <= 4 + declared(seen + chunk),
{
    let next = seen + chunk;
    if seen.len() >= 4 {
        assert(next[0] == seen[0] && next[1] == seen[1] && next[2] == seen[2] && next[3]
            == seen[3]);
    }
}

/// An oversize frame is refused as soon as its header is complete, whatever
/// follows.
pub proof fn law_oversize_refused_at_header(seen: Seq<u8>, chunk: Seq<u8>, max: nat)
    requires
        (seen + chunk).len() >= 4,
        declared(seen + chunk) > max,
    ensures
        polled(seen, EventView::Bytes(chunk), max).0 == Err::<PollView, ErrorView>(
            oversize(declared(seen + chunk), max),
        ),
{
}

// ---------------------------------------------------------------------
// Envelopes
// ---------------------------------------------------------------------

/// Whether a text is a protocol token: bounded safe charset.
pub open spec fn token(s: Seq<char>) -> bool {
    s.len() > 0 && text::byte_len(s) <= 128 && text::all_in_class(s, true, true, true, "_.:/-"@)
}

/// The refusal of a bad token.
pub open spec fn token_error(what: Seq<char>) -> ErrorView {
    ErrorView::Protocol("bad envelope: "@ + what + " shape"@)
}

/// Validates one protocol token (op/id).
pub fn check_token(s: &str, what: &str) -> (r: Result<()>)
    ensures
        if token(s@) {
            r is Ok
        } else {
            r matches Err(e) && e@ == token_error(what@)
        },
{
    let ok = !s.is_empty() && text::len_bytes(s) <= 128 && text::all_in(
        s,
        true,
        true,
        true,
        "_.:/-",
    );
    if ok {
        return Ok(());
    }
    Err(CistellaError::Protocol(text::cat3("bad envelope: ", what, " shape")))
}

/// What decoding a frame body as an envelope object came to.
#[derive(Debug)]
pub enum Decoded {
    /// The text ends inside a value.
    Truncated,
    /// The text is no JSON.
    Malformed,
    /// The value is no envelope: unknown, missing or mistyped fields.
    Shape,
    /// The envelope.
    Envelope(Envelope),
}

/// First fault of a frame body.
pub open spec fn envelope_fault(body: Seq<u8>, decoded: Decoded) -> Option<ErrorView> {
    if !vstd::utf8::valid_utf8(body) {
        Some(ErrorView::Protocol("bad envelope: not UTF-8"@))
    } else {
        match decoded {
            Decoded::Truncated => Some(ErrorView::Protocol("bad envelope: truncated JSON"@)),
            Decoded::Malformed => Some(ErrorView::Protocol("bad envelope: malformed JSON"@)),
            Decoded::Shape => Some(ErrorView::Protocol("bad envelope: shape violation"@)),
            Decoded::Envelope(e) => if !token(e.op@) {
                Some(token_error("op"@))
            } else if !token(e.id@) {
                Some(token_error("id"@))
            } else {
                None
            },
        }
    }
}

/// Validates one envelope: UTF-8, JSON object, known fields, grammar-checked
/// op and id.
///
/// Guest-controlled strings never reach diagnostics raw: op and id must match
/// the token grammar, and decoding failures map to fixed classes.
pub fn parse_envelope(body: &[u8], decoded: Decoded) -> (r: Result<Envelope>)
    ensures
        match envelope_fault(body@, decoded) {
            Some(e) => r matches Err(x) && x@ == e,
            None => r is Ok && decoded == Decoded::Envelope(r->Ok_0),
        },
{
    if !digest::is_utf8(body) {
        return Err(protocol_error("bad envelope: not UTF-8"));
    }
    match decoded {
        Decoded::Truncated => Err(protocol_error("bad envelope: truncated JSON")),
        Decoded::Malformed => Err(protocol_error("bad envelope: malformed JSON")),
        Decoded::Shape => Err(protocol_error("bad envelope: shape violation")),
        Decoded::Envelope(e) => {
            match check_token(e.op.as_str(), "op") {
                Ok(_) => {},
                Err(x) => {
                    return Err(x);
                },
            }
            match check_token(e.id.as_str(), "id") {
                Ok(_) => {},
                Err(x) => {
                    return Err(x);
                },
            }
            Ok(e)
        },
    }
}

// ---------------------------------------------------------------------
// Exchange
// ---------------------------------------------------------------------

/// First fault in a response's correlation.
pub open spec fn correlation_fault(response: Envelope, id: Seq<char>) -> Option<ErrorView> {
    if response.protocol != PROTOCOL_MAJOR {
        Some(ErrorView::Protocol("response protocol mismatch"@))
    } else if response.id@ != id {
        Some(ErrorView::Protocol("response for unknown or duplicate id"@))
    } else {
        None
    }
}

/// Checks that a response speaks this protocol and answers this request.
pub fn check_correlation(response: &Envelope, id: &str) -> (r: Result<()>)
    ensures
        match correlation_fault(*response, id@) {
            Some(e) => r matches Err(x) && x@ == e,
            None => r is Ok,
        },
{
    if response.protocol != PROTOCOL_MAJOR {
        return Err(protocol_error("response protocol mismatch"));
    }
    if !text::eq(response.id.as_str(), id) {
        return Err(protocol_error("response for unknown or duplicate id"));
    }
    Ok(())
}

/// Frame exchange state: negotiated ceiling, request ids, write side.
///
/// Request ids are unique per connection by construction, and responses must
/// echo the live request id.
#[derive(Debug)]
pub struct Exchange {
    max_frame: usize,
    next_id: u64,
    open: bool,
}

/// State of an exchange.
pub struct ExchangeView {
    pub max_frame: nat,
    pub next_id: nat,
    pub open: bool,
}

impl View for Exchange {
    type V = ExchangeView;

    closed spec fn view(&self) -> ExchangeView {
        ExchangeView {
            max_frame: self.max_frame as nat,
            next_id: self.next_id as nat,
            open: self.open,
        }
    }
}

/// Request id of a counter.
pub open spec fn request_id(n: nat) -> Seq<char> {
    "req-"@ + text::dec(n)
}

/// What a hello response settles: guest capabilities and ceiling.
pub open spec fn hello_verdict(response: Envelope, hello: Option<HelloResponse>) -> std::result::Result<
    (Seq<Seq<char>>, nat),
    ErrorView,
> {
    if response.protocol != PROTOCOL_MAJOR || response.id@ != "hello"@ {
        Err(ErrorView::Protocol("hello correlation failed"@))
    } else if response.op@ != "hello"@ {
        Err(ErrorView::Protocol("expected hello response"@))
    } else {
        match hello {
            None => Err(ErrorView::Protocol("bad hello payload: shape violation"@)),
            Some(h) => if h.version != PROTOCOL_MAJOR {
                Err(
                    ErrorView::Protocol(
                        "unsupported guest version "@ + text::dec(h.version as nat),
                    ),
                )
            } else {
                Ok(
                    (
                        h.capabilities.deep_view(),
                        match h.max_frame {
                            Some(n) => if n < HOST_MAX_FRAME {
                                n as nat
                            } else {
                                HOST_MAX_FRAME as nat
                            },
                            None => DEFAULT_MAX_FRAME as nat,
                        },
                    ),
                )
            },
        }
    }
}

/// What a single-shot response settles.
pub open spec fn request_verdict(id: Seq<char>, op: Seq<char>, response: Envelope) -> std::result::Result<
    Json,
    ErrorView,
> {
    match correlation_fault(response, id) {
        Some(e) => Err(e),
        None => if pending_payload(response.payload) {
            Err(ErrorView::Protocol(op + " sent pending on a single-shot exchange"@))
        } else {
            Ok(response.payload)
        },
    }
}

/// One step of a stream: another pending frame, or the terminal.
#[derive(Debug)]
pub enum StreamStep {
    /// So many pending frames so far.
    Pending(u32),
    /// The terminal frame.
    Done(StreamOutcome),
}

/// Whether an envelope asks this operation under this id.
pub open spec fn asks(e: Envelope, id: Seq<char>, op: Seq<char>, payload: Json) -> bool {
    e.protocol == PROTOCOL_MAJOR && e.id@ == id && e.op@ == op && e.payload == payload
}

impl Exchange {
    /// Opens an exchange with the pre-negotiation ceiling in force.
    pub fn new() -> (x: Self)
        ensures
            x@ == (ExchangeView {
                max_frame: PRE_NEGOTIATION_MAX_FRAME as nat,
                next_id: 0,
                open: true,
            }),
    {
        Exchange { max_frame: PRE_NEGOTIATION_MAX_FRAME, next_id: 0, open: true }
    }

    /// Current enforced maximum frame.
    #[must_use]
    pub fn max_frame(&self) -> (n: usize)
        ensures
            n == self@.max_frame,
    {
        self.max_frame
    }

    /// Closes the write side; sends refuse after.
    pub fn close(&mut self)
        ensures
            final(self)@ == (ExchangeView { open: false, ..old(self)@ }),
    {
        self.open = false;
    }

    fn mint_id(&mut self) -> (id: String)
        requires
            old(self)@.next_id < u64::MAX,
        ensures
            id@ == request_id(old(self)@.next_id),
            final(self)@ == (ExchangeView { next_id: old(self)@.next_id + 1, ..old(self)@ }),
    {
        let id = text::cat("req-", text::dec_u64(self.next_id).as_str());
        self.next_id = self.next_id + 1;
        id
    }

    /// Renders the frame of an envelope's bytes; a closed exchange and an
    /// oversize frame refuse.
    pub fn send(&self, body: &[u8]) -> (r: Result<Vec<u8>>)
        ensures
            frame_agrees(
                r,
                if self@.open {
                    framed(body@, self@.max_frame)
                } else {
                    Err(ErrorView::Protocol("exchange is closed"@))
                },
            ),
    {
        if !self.open {
            return Err(protocol_error("exchange is closed"));
        }
        write_frame(body, self.max_frame)
    }

    /// Settles the hello exchange and installs the enforced maximum: the
    /// lesser of the guest's and the host's ceiling. A version mismatch
    /// refuses before any planning.
    pub fn hello(&mut self, response: &Envelope, hello: Option<HelloResponse>) -> (r: Result<
        Negotiated,
    >)
        ensures
            match (r, hello_verdict(*response, hello)) {
                (Ok(n), Ok(m)) => n.capabilities.deep_view() == m.0 && n.max_frame == m.1
                    && final(self)@ == (ExchangeView { max_frame: m.1, ..old(self)@ }),
                (Err(a), Err(b)) => a@ == b && final(self)@ == old(self)@,
                _ => false,
            },
    {
        if response.protocol != PROTOCOL_MAJOR || !text::eq(response.id.as_str(), "hello") {
            return Err(protocol_error("hello correlation failed"));
        }
        if !text::eq(response.op.as_str(), "hello") {
            return Err(protocol_error("expected hello response"));
        }
        match hello {
            None => Err(protocol_error("bad hello payload: shape violation")),
            Some(h) => {
                if h.version != PROTOCOL_MAJOR {
                    return Err(
                        CistellaError::Protocol(
                            text::cat(
                                "unsupported guest version ",
                                text::dec_u64(h.version as u64).as_str(),
                            ),
                        ),
                    );
                }
                let max_frame: usize = match h.max_frame {
                    Some(n) => if (n as usize) < HOST_MAX_FRAME {
                        n as usize
                    } else {
                        HOST_MAX_FRAME
                    },
                    None => DEFAULT_MAX_FRAME,
                };
                self.max_frame = max_frame;
                Ok(Negotiated { capabilities: h.capabilities, max_frame })
            },
        }
    }

    /// Begins a single-shot request.
    pub fn request(&mut self, op: &str, payload: Json) -> (e: Envelope)
        requires
            old(self)@.next_id < u64::MAX,
        ensures
            asks(e, request_id(old(self)@.next_id), op@, payload),
            final(self)@ == (ExchangeView { next_id: old(self)@.next_id + 1, ..old(self)@ }),
    {
        let id = self.mint_id();
        Envelope { protocol: PROTOCOL_MAJOR, id, op: op.to_owned(), payload }
    }

    /// Begins a stream. Only the await operation may wait without a bound.
    pub fn request_stream(&mut self, op: &str, payload: Json, bounded: bool) -> (r: Result<Envelope>)
        requires
            old(self)@.next_id < u64::MAX,
        ensures
            if !bounded && op@ != AWAIT_RESULT_OP@ {
                &&& r matches Err(e) && e@ == ErrorView::Protocol(
                    "unbounded wait reserved for "@ + AWAIT_RESULT_OP@ + ": "@ + op@,
                )
                &&& final(self)@ == old(self)@
            } else {
                &&& r is Ok
                &&& asks(r->Ok_0, request_id(old(self)@.next_id), op@, payload)
                &&& final(self)@ == (ExchangeView {
                    next_id: old(self)@.next_id + 1,
                    ..old(self)@
                })
            },
    {
        if !bounded && !text::eq(op, AWAIT_RESULT_OP) {
            return Err(
                CistellaError::Protocol(
                    text::cat4("unbounded wait reserved for ", AWAIT_RESULT_OP, ": ", op),
                ),
            );
        }
        let id = self.mint_id();
        Ok(Envelope { protocol: PROTOCOL_MAJOR, id, op: op.to_owned(), payload })
    }
}

/// Settles a single-shot response: correlation, and no pending frame.
pub fn settle_request(id: &str, op: &str, response: Envelope) -> (r: Result<Json>)
    ensures
        match (r, request_verdict(id@, op@, response)) {
            (Ok(a), Ok(b)) => a == b,
            (Err(a), Err(b)) => a@ == b,
            _ => false,
        },
{
    match check_correlation(&response, id) {
        Ok(_) => {},
        Err(e) => {
            return Err(e);
        },
    }
    if is_pending(&response.payload) {
        return Err(
            CistellaError::Protocol(text::cat(op, " sent pending on a single-shot exchange")),
        );
    }
    Ok(response.payload)
}

/// Decides whether a stream goes on: cancellation first, then the budget.
pub fn stream_gate(op: &str, cancelled: bool, expired: bool) -> (r: Result<()>)
    ensures
        match r {
            Ok(_) => !cancelled && !expired,
            Err(e) => if cancelled {
                e@ == ErrorView::Protocol("stream cancelled"@)
            } else {
                expired && e@ == ErrorView::Protocol(op@ + " timed out"@)
            },
        },
{
    if cancelled {
        return Err(protocol_error("stream cancelled"));
    }
    if expired {
        return Err(CistellaError::Protocol(text::cat(op, " timed out")));
    }
    Ok(())
}

/// Takes one stream frame: zero or more `{pending: true}` frames precede
/// exactly one terminal under the same echoed id.
pub fn stream_response(id: &str, pending: u32, response: Envelope) -> (r: Result<StreamStep>)
    requires
        pending < u32::MAX,
    ensures
        match correlation_fault(response, id@) {
            Some(e) => r matches Err(x) && x@ == e,
            None => r is Ok && if pending_payload(response.payload) {
                r->Ok_0 == StreamStep::Pending((pending + 1) as u32)
            } else {
                r->Ok_0 == StreamStep::Done(
                    StreamOutcome { pending, result: response.payload },
                )
            },
        },
{
    match check_correlation(&response, id) {
        Ok(_) => {},
        Err(e) => {
            return Err(e);
        },
    }
    if is_pending(&response.payload) {
        return Ok(StreamStep::Pending(pending + 1));
    }
    Ok(StreamStep::Done(StreamOutcome { pending, result: response.payload }))
}

/// Two requests of one exchange never share an id.
pub proof fn law_request_ids_differ(a: nat, b: nat)
    requires
        a != b,
    ensures
        request_id(a) != request_id(b),
{
    if text::dec(a) == text::dec(b) {
        text::lemma_dec_injective(a, b);
    }
    assert(request_id(a).skip("req-"@.len() as int) =~= text::dec(a));
    assert(request_id(b).skip("req-"@.len() as int) =~= text::dec(b));
}

// ---------------------------------------------------------------------
// What frames and envelopes say
// ---------------------------------------------------------------------

/// A frame is four bytes with the payload's length, the largest first, and
/// then the payload; a payload over the maximum is refused.
pub proof fn law_frames_say_their_length(payload: Seq<u8>, max: nat)
    requires
        payload.len() < 4_294_967_296,
    ensures
        framed(payload, max) is Ok <==> payload.len() <= max,
        framed(payload, max) matches Ok(f) ==> {
            &&& f.len() == 4 + payload.len()
            &&& f[0] as int * 16_777_216 + f[1] as int * 65_536 + f[2] as int * 256 + f[3] as int
                == payload.len()
            &&& f.skip(4) == payload
        },
{
    lemma_header(payload.len());
    if let Ok(f) = framed(payload, max) {
        let h = frame_header(payload.len() % 4_294_967_296);
        assert(h.len() == 4);
        assert(f[0] == h[0] && f[1] == h[1] && f[2] == h[2] && f[3] == h[3]);
        assert(f.skip(4) =~= payload);
    }
}

/// Bytes complete a frame exactly when the header and all it declares are
/// there; what comes out is what follows the header. Too large a frame is
/// refused, and too few bytes are kept.
pub proof fn law_frames_complete_when_whole(seen: Seq<u8>, chunk: Seq<u8>, max: nat)
    ensures
        ({
            let all = seen + chunk;
            let n = all[0] as int * 16_777_216 + all[1] as int * 65_536 + all[2] as int * 256
                + all[3] as int;
            let r = polled(seen, EventView::Bytes(chunk), max);
            &&& all.len() < 4 ==> r == (Ok::<PollView, ErrorView>(PollView::More), all)
            &&& all.len() >= 4 && n > max ==> r.0 is Err
            &&& all.len() >= 4 && n <= max && all.len() < 4 + n ==> r == (
                Ok::<PollView, ErrorView>(PollView::More),
                all,
            )
            &&& all.len() >= 4 && n <= max && all.len() >= 4 + n ==> r == (
                Ok::<PollView, ErrorView>(PollView::Complete(all.subrange(4, 4 + n))),
                Seq::<u8>::empty(),
            )
        }),
{
}

/// Silence before a frame is idleness and within one a partial frame; an end
/// before a frame is clean and within one a truncation. Neither loses what
/// was seen.
pub proof fn law_silence_and_ends_keep_what_was_seen(seen: Seq<u8>, max: nat)
    ensures
        polled(seen, EventView::Unready, max) == (
            Ok::<PollView, ErrorView>(
                if seen.len() == 0 {
                    PollView::Idle
                } else {
                    PollView::Partial
                },
            ),
            seen,
        ),
        polled(seen, EventView::Eof, max) == (
            Err::<PollView, ErrorView>(
                ErrorView::Protocol(
                    if seen.len() == 0 {
                        "eof at frame boundary"@
                    } else {
                        "truncated frame: EOF mid-frame"@
                    },
                ),
            ),
            seen,
        ),
        polled(seen, EventView::Again, max) == (Ok::<PollView, ErrorView>(PollView::More), seen),
{
}

/// A bounded read that is over its time fails, as idle where nothing was
/// seen; within its time it hands a whole frame out and else goes on.
pub proof fn law_bounded_reads(seen: Seq<u8>, event: EventView, max: nat, body: Seq<u8>)
    ensures
        bounded_read(seen, true, event, max) == (
            Err::<Option<Seq<u8>>, ErrorView>(
                ErrorView::Protocol(
                    if seen.len() == 0 {
                        "frame read timed out: idle"@
                    } else {
                        "frame read timed out"@
                    },
                ),
            ),
            seen,
        ),
        polled(seen, event, max).0 == Ok::<PollView, ErrorView>(PollView::Complete(body))
            <==> bounded_read(seen, false, event, max).0 == Ok::<Option<Seq<u8>>, ErrorView>(
            Some(body),
        ),
        bounded_read(seen, false, event, max).1 == polled(seen, event, max).1,
{
}

/// Written bytes are counted off what is left; a write of nothing is a closed
/// pipe, and one that cannot start is out of time.
pub proof fn law_writes_are_counted_off(left: nat, n: usize)
    requires
        n <= left,
    ensures
        n > 0 ==> left_after(left, WriteEvent::Wrote(n)) == Ok::<nat, ErrorView>(
            (left - n) as nat,
        ),
        left_after(left, WriteEvent::Wrote(0)) is Err,
        left_after(left, WriteEvent::Again) == Ok::<nat, ErrorView>(left),
        left_after(left, WriteEvent::Unready) == Err::<nat, ErrorView>(
            ErrorView::Protocol("frame write timed out"@),
        ),
{
}

/// Whether every character may stand in an operation's name or an id.
pub open spec fn plain_token(s: Seq<char>) -> bool {
    forall|i: int|
        0 <= i < s.len() ==> 'A' <= #[trigger] s[i] <= 'Z' || 'a' <= s[i] <= 'z' || '0' <= s[i]
            <= '9' || s[i] == '_' || s[i] == '.' || s[i] == ':' || s[i] == '/' || s[i] == '-'
}

/// Operations and ids are 1 to 128 bytes of letters, digits and five marks.
pub proof fn law_tokens_are_plain(s: Seq<char>)
    ensures
        token(s) <==> 0 < s.len() && text::byte_len(s) <= 128 && plain_token(s),
{
    reveal_strlit("_.:/-");
    let x = "_.:/-"@;
    assert(x =~= seq!['_', '.', ':', '/', '-']);
    assert forall|c: char| #[trigger] x.contains(c) <==> c == '_' || c == '.' || c == ':' || c
        == '/' || c == '-' by {
        if c == '_' {
            assert(x[0] == c);
        } else if c == '.' {
            assert(x[1] == c);
        } else if c == ':' {
            assert(x[2] == c);
        } else if c == '/' {
            assert(x[3] == c);
        } else if c == '-' {
            assert(x[4] == c);
        }
    }
    if text::all_in_class(s, true, true, true, x) {
        assert forall|i: int| 0 <= i < s.len() implies 'A' <= #[trigger] s[i] <= 'Z' || 'a' <= s[i]
            <= 'z' || '0' <= s[i] <= '9' || s[i] == '_' || s[i] == '.' || s[i] == ':' || s[i] == '/'
            || s[i] == '-' by {
            assert(text::in_class(s[i], true, true, true, x));
        }
    }
    if plain_token(s) {
        assert forall|i: int| 0 <= i < s.len() implies text::in_class(
            #[trigger] s[i],
            true,
            true,
            true,
            x,
        ) by {}
    }
}

/// A body is an envelope exactly when it is text that decodes to one with a
/// plain operation and id.
pub proof fn law_envelopes_are_well_formed(body: Seq<u8>, decoded: Decoded)
    ensures
        envelope_fault(body, decoded) is None <==> vstd::utf8::valid_utf8(body) && decoded is Envelope
            && token(decoded->Envelope_0.op@) && token(decoded->Envelope_0.id@),
        envelope_fault(body, decoded) matches Some(e) ==> e is Protocol,
{
}

/// A response belongs to a request exactly when it speaks the first protocol
/// and carries the request's id.
pub proof fn law_responses_carry_the_id(response: Envelope, id: Seq<char>)
    ensures
        correlation_fault(response, id) is None <==> response.protocol == 1 && response.id@ == id,
{
}

/// Negotiation takes the guest's capabilities as they are, and the frame size
/// that the guest asks for up to eight mebibytes, or one mebibyte; it fails
/// for another id, operation, payload or version.
pub proof fn law_negotiation_takes_what_the_guest_says(
    response: Envelope,
    hello: Option<HelloResponse>,
)
    ensures
        hello_verdict(response, hello) is Ok <==> response.protocol == 1 && response.id@ == "hello"@
            && response.op@ == "hello"@ && hello is Some && hello->0.version == 1,
        hello_verdict(response, hello) matches Ok(x) ==> x.0 == hello->0.capabilities.deep_view()
            && x.1 == match hello->0.max_frame {
            Some(n) => if n < 8_388_608 {
                n as nat
            } else {
                8_388_608
            },
            None => 1_048_576,
        },
{
}

/// A single request is answered by the payload that carries its id; one that
/// is still pending is refused.
pub proof fn law_single_requests_are_answered(id: Seq<char>, op: Seq<char>, response: Envelope)
    ensures
        request_verdict(id, op, response) is Ok <==> response.protocol == 1 && response.id@ == id
            && !pending_payload(response.payload),
        request_verdict(id, op, response) matches Ok(x) ==> x == response.payload,
        pending_payload(response.payload) <==> json::member(response.payload, "pending"@) == Some(
            Json::Bool(true),
        ),
{
}

/// Requests are numbered in their order.
pub proof fn law_requests_are_numbered(n: nat)
    ensures
        request_id(n) == "req-"@ + text::dec(n),
{
}

/// A view says what the fields hold, each under its own name.
pub proof fn law_views_say_the_fields(
    read_event: ReadEvent,
    frame_poll: FramePoll,
)
    ensures
        read_event matches ReadEvent::Unready ==> read_event.view() == EventView::Unready,
        read_event matches ReadEvent::Bytes(b) ==> read_event.view() == EventView::Bytes(b@),
        read_event matches ReadEvent::Eof ==> read_event.view() == EventView::Eof,
        read_event matches ReadEvent::Again ==> read_event.view() == EventView::Again,
        read_event matches ReadEvent::Failed(m) ==> read_event.view() == EventView::Failed(m@),
        frame_poll matches FramePoll::Complete(b) ==> frame_poll.view() == PollView::Complete(b@),
        frame_poll matches FramePoll::Idle ==> frame_poll.view() == PollView::Idle,
        frame_poll matches FramePoll::Partial ==> frame_poll.view() == PollView::Partial,
        frame_poll matches FramePoll::More ==> frame_poll.view() == PollView::More,
{
}

/// A frame that is text and decodes is refused for the token that is not plain,
/// by its name.
pub proof fn law_bad_tokens_are_named(body: Seq<u8>, e: Envelope)
    requires
        vstd::utf8::valid_utf8(body),
    ensures
        !token(e.op@) ==> envelope_fault(body, Decoded::Envelope(e)) == Some(
            ErrorView::Protocol("bad envelope: "@ + "op"@ + " shape"@),
        ),
        token(e.op@) && !token(e.id@) ==> envelope_fault(body, Decoded::Envelope(e)) == Some(
            ErrorView::Protocol("bad envelope: "@ + "id"@ + " shape"@),
        ),
{
}

} // verus!
