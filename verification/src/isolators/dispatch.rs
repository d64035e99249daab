//! Wire dispatcher: request demultiplexing plus fatal-terminal semantics.
//!
//! The dispatcher owns the guest exchange, routes responses by request id,
//! and funnels every abnormal exit through [`fatal_terminal`] so that the
//! death latch and the shutdown-uncertain flag stay truthful: proven
//! shutdown latches, failed shutdown names uncertainty without latching.

use vstd::prelude::*;

use crate::error::{CistellaError, ErrorView, Result};
use crate::framework::handles::Handles;
use crate::framework::json;
use crate::framework::json::Json;
use crate::framework::protocol;
use crate::framework::protocol::{Envelope, AWAIT_RESULT_OP, PROTOCOL_MAJOR, WRITE_TIMEOUT};
use crate::text;

verus! {

/// Bound for a single envelope send, in milliseconds (capped even on
/// uncapped awaits: the wait is unbounded, the write never is).
pub const SEND_BOUND: u64 = 30_000;

/// Dispatcher poll cadence, in milliseconds.
pub const DISPATCH_SLICE: u64 = 100;

/// One in-flight request.
#[derive(Debug)]
pub struct Pending {
    /// Caller to answer.
    pub caller: u64,
    /// Expiry for bounded operations; none for an uncapped await.
    pub deadline: Option<u64>,
    /// Operation name.
    pub op: String,
    /// True for await calls (pending frames kept, not forwarded).
    pub is_await: bool,
    /// Execution handle for await calls (detach addressing).
    pub execution: Option<String>,
}

/// What an in-flight request says.
pub struct PendingView {
    pub caller: u64,
    pub deadline: Option<u64>,
    pub op: Seq<char>,
    pub is_await: bool,
    pub execution: Option<Seq<char>>,
}

impl DeepView for Pending {
    type V = PendingView;

    open spec fn deep_view(&self) -> PendingView {
        PendingView {
            caller: self.caller,
            deadline: self.deadline,
            op: self.op@,
            is_await: self.is_await,
            execution: self.execution.deep_view(),
        }
    }
}

/// What is known of the guest's end.
#[derive(Debug)]
pub struct Fate {
    /// Abnormal exit with proven shutdown (dead or reaped).
    pub dead: bool,
    /// A fatal path's shutdown proof failed: the guest or a descendant may
    /// live.
    pub uncertain: bool,
    /// The recorded shutdown proof failure.
    pub report: Option<String>,
}

/// What is known of the guest's end.
pub struct FateView {
    pub dead: bool,
    pub uncertain: bool,
    pub report: Option<Seq<char>>,
}

impl View for Fate {
    type V = FateView;

    open spec fn view(&self) -> FateView {
        FateView { dead: self.dead, uncertain: self.uncertain, report: self.report.deep_view() }
    }
}

impl Fate {
    /// Nothing abnormal yet.
    pub fn new() -> (f: Self)
        ensures
            f@ == (FateView { dead: false, uncertain: false, report: None }),
    {
        Fate { dead: false, uncertain: false, report: None }
    }
}

/// One answer to a caller.
#[derive(Debug)]
pub struct Reply {
    /// Request id.
    pub id: String,
    /// Caller to answer.
    pub caller: u64,
    /// The terminal payload, or the failure.
    pub outcome: Result<Json>,
}

/// The message that fails one entry: a prefix, the operation, a suffix.
pub open spec fn fails_with(r: Reply, m: Map<Seq<char>, PendingView>, prefix: Seq<char>, suffix: Seq<char>) -> bool {
    &&& m.dom().contains(r.id@)
    &&& r.caller == m[r.id@].caller
    &&& r.outcome matches Err(e) && e@ == ErrorView::Protocol(prefix + m[r.id@].op + suffix)
}

/// Whether the replies fail every entry of the map, each exactly once.
pub open spec fn fail_each(
    replies: Seq<Reply>,
    m: Map<Seq<char>, PendingView>,
    prefix: Seq<char>,
    suffix: Seq<char>,
) -> bool {
    &&& forall|i: int| 0 <= i < replies.len() ==> fails_with(#[trigger] replies[i], m, prefix, suffix)
    &&& forall|i: int, j: int|
        0 <= i < j < replies.len() ==> (#[trigger] replies[i]).id@ != (#[trigger] replies[j]).id@
    &&& forall|k: Seq<char>| #[trigger]
        m.dom().contains(k) ==> exists|i: int|
            0 <= i < replies.len() && (#[trigger] replies[i]).id@ == k
}

/// Entries under the given ids.
pub open spec fn only(m: Map<Seq<char>, PendingView>, ids: Seq<Seq<char>>) -> Map<
    Seq<char>,
    PendingView,
> {
    Map::new(|k: Seq<char>| m.dom().contains(k) && ids.contains(k), |k: Seq<char>| m[k])
}

/// Entries under other than the given ids.
pub open spec fn except(m: Map<Seq<char>, PendingView>, ids: Seq<Seq<char>>) -> Map<
    Seq<char>,
    PendingView,
> {
    Map::new(|k: Seq<char>| m.dom().contains(k) && !ids.contains(k), |k: Seq<char>| m[k])
}

/// Takes the entries under the given ids and fails each.
fn fail_entries(pending: &mut Handles<Pending>, ids: &Vec<String>, prefix: &str, suffix: &str) -> (
    replies: Vec<Reply>)
    requires
        old(pending).wf(),
        ids.deep_view().no_duplicates(),
        forall|k: Seq<char>| #[trigger]
            ids.deep_view().contains(k) ==> old(pending)@.dom().contains(k),
    ensures
        final(pending).wf(),
        final(pending)@ == except(old(pending)@, ids.deep_view()),
        fail_each(replies@, only(old(pending)@, ids.deep_view()), prefix@, suffix@),
{
    let ghost all = pending@;
    let ghost nv = ids.deep_view();
    let ghost m = only(all, nv);
    let mut replies: Vec<Reply> = Vec::new();
    let mut i: usize = 0;
    assert(except(all, nv.take(0)) =~= all);
    while i < ids.len()
        invariant
            pending.wf(),
            nv == ids.deep_view(),
            nv.no_duplicates(),
            i <= ids@.len(),
            m == only(all, nv),
            forall|k: Seq<char>| #[trigger] nv.contains(k) ==> all.dom().contains(k),
            pending@ == except(all, nv.take(i as int)),
            replies@.len() == i,
            forall|j: int|
                0 <= j < i ==> fails_with(#[trigger] replies@[j], m, prefix@, suffix@)
                    && replies@[j].id@ == nv[j],
        decreases ids.len() - i,
    {
        let ghost name = nv[i as int];
        let ghost was = nv.take(i as int);
        let ghost now = nv.take(i + 1);
        assert(name == ids@[i as int]@);
        assert(nv.contains(name));
        assert(now =~= was.push(name));
        proof {
            if was.contains(name) {
                let j = choose|j: int| 0 <= j < was.len() && was[j] == name;
                assert(nv[j] == nv[i as int]);
            }
            assert forall|k: Seq<char>| #[trigger] now.contains(k) == (was.contains(k) || k == name) by {
                if was.contains(k) {
                    let j = choose|j: int| 0 <= j < was.len() && was[j] == k;
                    assert(now[j] == k);
                }
                assert(now[i as int] == name);
                if now.contains(k) {
                    let j = choose|j: int| 0 <= j < now.len() && now[j] == k;
                    if j < i {
                        assert(was[j] == k);
                    }
                }
            }
            assert(except(all, now) =~= except(all, was).remove(name));
        }
        match pending.remove(ids[i].as_str()) {
            Some(entry) => {
                let message = text::cat3(prefix, entry.op.as_str(), suffix);
                replies.push(
                    Reply {
                        id: ids[i].clone(),
                        caller: entry.caller,
                        outcome: Err(CistellaError::Protocol(message)),
                    },
                );
            },
            None => {},
        }
        i = i + 1;
    }
    assert(nv.take(i as int) =~= nv);
    proof {
        assert forall|a: int, b: int| 0 <= a < b < replies@.len() implies (#[trigger] replies@[a]).id@
            != (#[trigger] replies@[b]).id@ by {
            assert(fails_with(replies@[a], m, prefix@, suffix@));
            assert(fails_with(replies@[b], m, prefix@, suffix@));
            assert(nv[a] != nv[b]);
        }
        assert forall|k: Seq<char>| #[trigger] m.dom().contains(k) implies exists|j: int|
            0 <= j < replies@.len() && (#[trigger] replies@[j]).id@ == k by {
            let j = choose|j: int| 0 <= j < nv.len() && nv[j] == k;
            assert(fails_with(replies@[j], m, prefix@, suffix@));
            assert(replies@[j].id@ == k);
        }
    }
    replies
}

/// Why a fatal path ended, with the shutdown failure when there is one.
pub open spec fn fatal_reason(reason: Seq<char>, shutdown: Result<()>) -> Seq<char> {
    match shutdown {
        Ok(_) => reason,
        Err(e) => reason + "; guest shutdown failed: "@ + e@.rendered(),
    }
}

/// What is known of the guest after a fatal path: proven shutdown latches
/// death; failed shutdown names uncertainty without latching.
pub open spec fn fate_after(fate: FateView, reason: Seq<char>, shutdown: Result<()>) -> FateView {
    match shutdown {
        Ok(_) => FateView { dead: true, ..fate },
        Err(_) => FateView {
            uncertain: true,
            report: Some(fatal_reason(reason, shutdown)),
            ..fate
        },
    }
}

/// Runs one fatal exchange path with its shutdown proof already attempted:
/// proven shutdown latches dead-or-reaped and fails every pending caller
/// with the reason; failed shutdown fails them without latching (the guest
/// or a descendant may live, so no residue check may run beside it), names
/// the uncertainty, and records the proof failure. Returns the uncertainty
/// detail, none on proven death.
pub fn fatal_terminal(
    pending: &mut Handles<Pending>,
    fate: &mut Fate,
    reason: &str,
    shutdown: &Result<()>,
) -> (r: (Vec<Reply>, Option<String>))
    requires
        old(pending).wf(),
    ensures
        final(pending).wf(),
        final(pending)@ == Map::<Seq<char>, PendingView>::empty(),
        final(fate)@ == fate_after(old(fate)@, reason@, *shutdown),
        fail_each(
            r.0@,
            old(pending)@,
            "guest terminated during "@,
            ": "@ + fatal_reason(reason@, *shutdown),
        ),
        match *shutdown {
            Ok(_) => r.1 is None,
            Err(e) => r.1 matches Some(d) && d@ == e@.rendered(),
        },
{
    let ghost all = pending@;
    let ids = pending.keys();
    assert(only(all, ids.deep_view()) =~= all);
    assert(except(all, ids.deep_view()) =~= Map::<Seq<char>, PendingView>::empty());
    match shutdown {
        Ok(_) => {
            fate.dead = true;
            let suffix = text::cat(": ", reason);
            let replies = fail_entries(
                pending,
                &ids,
                "guest terminated during ",
                suffix.as_str(),
            );
            (replies, None)
        },
        Err(e) => {
            let detail = e.render();
            let composed = text::cat3(reason, "; guest shutdown failed: ", detail.as_str());
            let suffix = text::cat(": ", composed.as_str());
            fate.report = Some(composed);
            fate.uncertain = true;
            let replies = fail_entries(
                pending,
                &ids,
                "guest terminated during ",
                suffix.as_str(),
            );
            (replies, Some(detail))
        },
    }
}

// ---------------------------------------------------------------------
// The dispatcher
// ---------------------------------------------------------------------

/// Request demultiplexer.
#[derive(Debug)]
pub struct Dispatcher {
    pending: Handles<Pending>,
    retired: Vec<String>,
    next_id: u64,
    max_frame: usize,
    fate: Fate,
    stopping: bool,
}

/// State of the dispatcher.
pub struct DispatcherView {
    pub pending: Map<Seq<char>, PendingView>,
    /// Explicitly retired ids (expiry, detach): late terminals with these
    /// ids drop silently.
    pub retired: Set<Seq<char>>,
    pub next_id: nat,
    pub max_frame: nat,
    pub fate: FateView,
    pub stopping: bool,
}

impl View for Dispatcher {
    type V = DispatcherView;

    closed spec fn view(&self) -> DispatcherView {
        DispatcherView {
            pending: self.pending@,
            retired: Set::new(|k: Seq<char>| self.retired.deep_view().contains(k)),
            next_id: self.next_id as nat,
            max_frame: self.max_frame as nat,
            fate: self.fate@,
            stopping: self.stopping,
        }
    }
}

/// Request id of a counter.
pub open spec fn call_id(n: nat) -> Seq<char> {
    "c"@ + text::dec(n)
}

/// One request on its way out.
#[derive(Debug)]
pub struct Submission {
    /// Request id.
    pub id: String,
    /// Instant by which the send must finish.
    pub send_by: u64,
    /// Entry to track once sent.
    pub entry: Pending,
}

/// Execution handle that a detach addresses: of await calls only.
pub open spec fn await_handle(op: Seq<char>, payload: Json) -> Option<Seq<char>> {
    if op == AWAIT_RESULT_OP@ {
        json::text_member(payload, "execution_handle"@)
    } else {
        None
    }
}

/// Whether a request is the one submitted as number `n`.
pub open spec fn submitted(
    e: Envelope,
    x: Submission,
    n: nat,
    op: Seq<char>,
    payload: Json,
    timeout: Option<u64>,
    now: u64,
    caller: u64,
) -> bool {
    &&& protocol::asks(e, call_id(n), op, payload)
    &&& x.id@ == call_id(n)
    &&& x.send_by == now + (match timeout {
        Some(t) => t,
        None => SEND_BOUND,
    })
    &&& x.entry.deep_view() == (PendingView {
        caller,
        deadline: match timeout {
            Some(t) => Some((now + t) as u64),
            None => None,
        },
        op,
        is_await: op == AWAIT_RESULT_OP@,
        execution: await_handle(op, payload),
    })
}

/// What a response frame does.
#[derive(Debug)]
pub enum FrameVerdict {
    /// Nothing to answer: a heartbeat, or a late terminal of a retired id.
    Quiet,
    /// One caller is answered.
    Answer(Reply),
    /// The exchange is over for this reason.
    Fatal(&'static str),
}

/// Whether a verdict fails the caller of an entry with a contract error.
pub open spec fn answers_error(v: FrameVerdict, id: Seq<char>, p: PendingView, m: Seq<char>) -> bool {
    v matches FrameVerdict::Answer(r) && r.id@ == id && r.caller == p.caller && (
    r.outcome matches Err(e) && e@ == ErrorView::Contract(m))
}

/// What a well-formed response does: the verdict and the entries left.
pub open spec fn routed(
    d: DispatcherView,
    e: Envelope,
    v: FrameVerdict,
    left: Map<Seq<char>, PendingView>,
) -> bool {
    let id = e.id@;
    if !d.pending.dom().contains(id) {
        &&& left == d.pending
        &&& if d.retired.contains(id) {
            v is Quiet
        } else {
            v matches FrameVerdict::Fatal(reason) && reason@ == "unsolicited response id"@
        }
    } else {
        let p = d.pending[id];
        if p.op != e.op@ {
            &&& left == d.pending.remove(id)
            &&& answers_error(v, id, p, "response op mismatches request"@)
        } else if protocol::pending_payload(e.payload) {
            if p.is_await {
                left == d.pending && v is Quiet
            } else {
                &&& left == d.pending.remove(id)
                &&& answers_error(v, id, p, "pending frame on non-await op"@)
            }
        } else {
            &&& left == d.pending.remove(id)
            &&& v matches FrameVerdict::Answer(r) && r.id@ == id && r.caller == p.caller
                && r.outcome == Ok::<Json, CistellaError>(e.payload)
        }
    }
}

/// Whether an entry is overdue; an uncapped await never is.
pub open spec fn overdue(p: PendingView, now: u64) -> bool {
    match p.deadline {
        Some(t) => now >= t,
        None => false,
    }
}

/// Overdue entries.
pub open spec fn overdue_entries(m: Map<Seq<char>, PendingView>, now: u64) -> Map<
    Seq<char>,
    PendingView,
> {
    Map::new(|k: Seq<char>| m.dom().contains(k) && overdue(m[k], now), |k: Seq<char>| m[k])
}

/// Entries that are not overdue.
pub open spec fn current_entries(m: Map<Seq<char>, PendingView>, now: u64) -> Map<
    Seq<char>,
    PendingView,
> {
    Map::new(|k: Seq<char>| m.dom().contains(k) && !overdue(m[k], now), |k: Seq<char>| m[k])
}

/// Whether an entry awaits an execution.
pub open spec fn awaits(p: PendingView, execution: Seq<char>) -> bool {
    p.execution == Some(execution)
}

/// State after a detach: the entries awaiting the execution are retired.
pub open spec fn detached(d: DispatcherView, execution: Seq<char>) -> DispatcherView {
    DispatcherView {
        pending: Map::new(
            |k: Seq<char>| d.pending.dom().contains(k) && !awaits(d.pending[k], execution),
            |k: Seq<char>| d.pending[k],
        ),
        retired: d.retired.union(
            Set::new(|k: Seq<char>| d.pending.dom().contains(k) && awaits(d.pending[k], execution)),
        ),
        ..d
    }
}

/// State after expiry: overdue entries are retired.
pub open spec fn expired(d: DispatcherView, now: u64) -> DispatcherView {
    DispatcherView {
        pending: current_entries(d.pending, now),
        retired: d.retired.union(overdue_entries(d.pending, now).dom()),
        ..d
    }
}

/// Why a stream failure ends the exchange; none for idle silence.
pub open spec fn stream_fault(e: ErrorView) -> Option<Seq<char>> {
    if e == ErrorView::Protocol(protocol::IDLE_TIMEOUT@) {
        None
    } else {
        Some("guest stream failed: "@ + e.rendered())
    }
}

/// Decides whether a stream failure ends the exchange, and why.
pub fn stream_failure(error: &CistellaError) -> (r: Option<String>)
    ensures
        r.deep_view() == stream_fault(error@),
{
    if protocol::is_read_timeout(error) {
        None
    } else {
        Some(text::cat("guest stream failed: ", error.render().as_str()))
    }
}

/// Why a failed send ends the exchange.
pub open spec fn send_fault(e: ErrorView) -> Seq<char> {
    if e == ErrorView::Protocol(WRITE_TIMEOUT@) {
        "guest send timed out"@
    } else {
        "guest send failed"@
    }
}

/// Names why a failed send ends the exchange: partial bytes may already sit
/// in the pipe and neither end resynchronizes, so the exchange is over
/// either way.
pub fn send_failure(error: &CistellaError) -> (r: &'static str)
    ensures
        r@ == send_fault(error@),
{
    if protocol::is_write_timeout(error) {
        "guest send timed out"
    } else {
        "guest send failed"
    }
}

impl Dispatcher {
    /// Whether the pending table is well-formed.
    pub closed spec fn wf(&self) -> bool {
        self.pending.wf()
    }

    /// Idle dispatcher under the negotiated ceiling.
    pub fn new(max_frame: usize) -> (d: Self)
        ensures
            d.wf(),
            d@ == (DispatcherView {
                pending: Map::empty(),
                retired: Set::empty(),
                next_id: 0,
                max_frame: max_frame as nat,
                fate: FateView { dead: false, uncertain: false, report: None },
                stopping: false,
            }),
    {
        let d = Dispatcher {
            pending: Handles::new(),
            retired: Vec::new(),
            next_id: 0,
            max_frame,
            fate: Fate::new(),
            stopping: false,
        };
        assert(d@.retired =~= Set::<Seq<char>>::empty());
        d
    }

    /// What is known of the guest's end.
    pub fn fate(&self) -> (f: &Fate)
        ensures
            f@ == self@.fate,
    {
        &self.fate
    }

    /// Whether the dispatcher is stopping.
    pub fn stopping(&self) -> (b: bool)
        ensures
            b == self@.stopping,
    {
        self.stopping
    }

    /// Takes a request from a caller: mints its id, its envelope, and its
    /// deadlines (milliseconds). An uncapped await has no deadline; its send
    /// stays bounded.
    pub fn submit(
        &mut self,
        op: String,
        payload: Json,
        timeout: Option<u64>,
        now: u64,
        caller: u64,
    ) -> (r: (Envelope, Submission))
        requires
            old(self)@.next_id < u64::MAX,
            now + SEND_BOUND <= u64::MAX,
            timeout matches Some(t) ==> now + t <= u64::MAX,
        ensures
            submitted(
                r.0,
                r.1,
                old(self)@.next_id + 1,
                op@,
                payload,
                timeout,
                now,
                caller,
            ),
            final(self)@ == (DispatcherView { next_id: old(self)@.next_id + 1, ..old(self)@ }),
            old(self).wf() ==> final(self).wf(),
    {
        self.next_id = self.next_id + 1;
        let id = text::cat("c", text::dec_u64(self.next_id).as_str());
        let is_await = text::eq(op.as_str(), AWAIT_RESULT_OP);
        let execution = if is_await {
            match json::get_text(&payload, "execution_handle") {
                Some(s) => Some(s.to_owned()),
                None => None,
            }
        } else {
            None
        };
        let (deadline, send_by) = match timeout {
            Some(t) => (Some(now + t), now + t),
            None => (None, now + SEND_BOUND),
        };
        let envelope = Envelope {
            protocol: PROTOCOL_MAJOR,
            id: id.clone(),
            op: op.clone(),
            payload,
        };
        let entry = Pending { caller, deadline, op, is_await, execution };
        (envelope, Submission { id, send_by, entry })
    }

    /// Refuses a request whose frame exceeds the ceiling the guest was
    /// promised: never sent, guest untouched, no latch.
    pub fn admit_frame(&self, x: &Submission, frame_len: usize) -> (r: Option<Reply>)
        ensures
            match r {
                None => frame_len <= self@.max_frame,
                Some(reply) => frame_len > self@.max_frame && reply.id@ == x.id@ && reply.caller
                    == x.entry.caller && (reply.outcome matches Err(e) && e@
                    == ErrorView::Contract(
                    "frame length "@ + text::dec(frame_len as nat) + " exceeds maximum "@
                        + text::dec(self@.max_frame),
                )),
            },
    {
        if frame_len > self.max_frame {
            return Some(
                Reply {
                    id: x.id.clone(),
                    caller: x.entry.caller,
                    outcome: Err(
                        CistellaError::Contract(
                            text::cat4(
                                "frame length ",
                                text::dec_u64(frame_len as u64).as_str(),
                                " exceeds maximum ",
                                text::dec_u64(self.max_frame as u64).as_str(),
                            ),
                        ),
                    ),
                },
            );
        }
        None
    }

    /// Tracks a request that was sent.
    pub fn sent(&mut self, x: Submission)
        requires
            old(self).wf(),
        ensures
            final(self).wf(),
            final(self)@ == (DispatcherView {
                pending: old(self)@.pending.insert(x.id@, x.entry.deep_view()),
                ..old(self)@
            }),
    {
        self.pending.insert(x.id.as_str(), x.entry);
    }

    /// Ends the exchange for a reason, with the shutdown already attempted:
    /// every pending caller fails, and the dispatcher stops. Returns the
    /// answers and the uncertainty detail.
    pub fn fatal(&mut self, reason: &str, shutdown: &Result<()>) -> (r: (
        Vec<Reply>,
        Option<String>,
    ))
        requires
            old(self).wf(),
        ensures
            final(self).wf(),
            final(self)@ == (DispatcherView {
                pending: Map::empty(),
                fate: fate_after(old(self)@.fate, reason@, *shutdown),
                stopping: true,
                ..old(self)@
            }),
            fail_each(
                r.0@,
                old(self)@.pending,
                "guest terminated during "@,
                ": "@ + fatal_reason(reason@, *shutdown),
            ),
            match *shutdown {
                Ok(_) => r.1 is None,
                Err(e) => r.1 matches Some(d) && d@ == e@.rendered(),
            },
    {
        let r = fatal_terminal(&mut self.pending, &mut self.fate, reason, shutdown);
        self.stopping = true;
        r
    }

    /// Ends the exchange over a failed send: the pending callers fail, then
    /// the caller of the request itself.
    pub fn send_failed(&mut self, x: Submission, error: &CistellaError, shutdown: &Result<()>) -> (
        r: (Vec<Reply>, Reply))
        requires
            old(self).wf(),
        ensures
            final(self).wf(),
            final(self)@ == (DispatcherView {
                pending: Map::empty(),
                fate: fate_after(old(self)@.fate, send_fault(error@), *shutdown),
                stopping: true,
                ..old(self)@
            }),
            fail_each(
                r.0@,
                old(self)@.pending,
                "guest terminated during "@,
                ": "@ + fatal_reason(send_fault(error@), *shutdown),
            ),
            r.1.id@ == x.id@,
            r.1.caller == x.entry.caller,
            r.1.outcome matches Err(e) && e@ == ErrorView::Protocol(
                "guest terminated during "@ + x.entry.op@ + ": "@ + fatal_reason(
                    send_fault(error@),
                    *shutdown,
                ),
            ),
    {
        let reason = send_failure(error);
        let (replies, uncertainty) = self.fatal(reason, shutdown);
        let message = match &uncertainty {
            None => text::cat4("guest terminated during ", x.entry.op.as_str(), ": ", reason),
            Some(detail) => text::cat6(
                "guest terminated during ",
                x.entry.op.as_str(),
                ": ",
                reason,
                "; guest shutdown failed: ",
                detail.as_str(),
            ),
        };
        proof {
            let full = fatal_reason(send_fault(error@), *shutdown);
            assert(message@ =~= "guest terminated during "@ + x.entry.op@ + ": "@ + full);
        }
        let own = Reply {
            id: x.id,
            caller: x.entry.caller,
            outcome: Err(CistellaError::Protocol(message)),
        };
        (replies, own)
    }

    /// Stops for an orderly shutdown; neither latch trips.
    pub fn shut(&mut self)
        requires
            old(self).wf(),
        ensures
            final(self).wf(),
            final(self)@ == (DispatcherView { stopping: true, ..old(self)@ }),
    {
        self.stopping = true;
    }

    fn is_retired(&self, id: &str) -> (b: bool)
        ensures
            b == self@.retired.contains(id@),
    {
        text::has_text(&self.retired, id)
    }

    /// Routes one response frame.
    ///
    /// The response operation must equal the pending one; retired ids drop
    /// silently; anything else unsolicited is fatal rather than confusing
    /// later correlation. Await heartbeats are kept, never forwarded.
    pub fn route(&mut self, frame: Result<Envelope>) -> (v: FrameVerdict)
        requires
            old(self).wf(),
        ensures
            final(self).wf(),
            match frame {
                Err(_) => (v matches FrameVerdict::Fatal(reason) && reason@
                    == "malformed response frame"@) && final(self)@ == old(self)@,
                Ok(e) => routed(old(self)@, e, v, final(self)@.pending) && final(self)@ == (
                DispatcherView { pending: final(self)@.pending, ..old(self)@ }),
            },
    {
        let envelope = match frame {
            Ok(envelope) => envelope,
            Err(_) => {
                return FrameVerdict::Fatal("malformed response frame");
            },
        };
        let ghost before = self.pending@;
        match self.pending.remove(envelope.id.as_str()) {
            None => {
                assert(self.pending@ =~= before);
                if self.is_retired(envelope.id.as_str()) {
                    FrameVerdict::Quiet
                } else {
                    FrameVerdict::Fatal("unsolicited response id")
                }
            },
            Some(entry) => {
                if !text::eq(entry.op.as_str(), envelope.op.as_str()) {
                    return FrameVerdict::Answer(
                        Reply {
                            id: envelope.id,
                            caller: entry.caller,
                            outcome: Err(
                                CistellaError::Contract(
                                    "response op mismatches request".to_owned(),
                                ),
                            ),
                        },
                    );
                }
                if protocol::is_pending(&envelope.payload) {
                    if entry.is_await {
                        self.pending.insert(envelope.id.as_str(), entry);
                        assert(self.pending@ =~= before);
                        return FrameVerdict::Quiet;
                    }
                    return FrameVerdict::Answer(
                        Reply {
                            id: envelope.id,
                            caller: entry.caller,
                            outcome: Err(
                                CistellaError::Contract("pending frame on non-await op".to_owned()),
                            ),
                        },
                    );
                }
                FrameVerdict::Answer(
                    Reply { id: envelope.id, caller: entry.caller, outcome: Ok(envelope.payload) },
                )
            },
        }
    }

    /// Retires the await entries of an execution (their callers cancelled
    /// and already left): a late terminal drops instead of lingering.
    pub fn detach_by_exec(&mut self, execution: &str)
        requires
            old(self).wf(),
        ensures
            final(self).wf(),
            final(self)@ == detached(old(self)@, execution@),
    {
        let ghost d = self@;
        let ghost all = self.pending@;
        let names = self.pending.keys();
        let ghost nv = names.deep_view();
        let mut i: usize = 0;
        while i < names.len()
            invariant
                self.wf(),
                d == old(self)@,
                all == d.pending,
                self.next_id == old(self).next_id,
                self.max_frame == old(self).max_frame,
                self.fate == old(self).fate,
                self.stopping == old(self).stopping,
                nv == names.deep_view(),
                nv.no_duplicates(),
                i <= names@.len(),
                forall|k: Seq<char>| #[trigger] nv.contains(k) <==> all.dom().contains(k),
                forall|k: Seq<char>| #[trigger]
                    self.pending@.dom().contains(k) <==> all.dom().contains(k) && !(awaits(
                        all[k],
                        execution@,
                    ) && nv.take(i as int).contains(k)),
                forall|k: Seq<char>| #[trigger]
                    self.pending@.dom().contains(k) ==> self.pending@[k] == all[k],
                forall|k: Seq<char>| #[trigger]
                    self.retired.deep_view().contains(k) <==> d.retired.contains(k) || (nv.take(
                        i as int,
                    ).contains(k) && awaits(all[k], execution@)),
            decreases names.len() - i,
        {
            let ghost name = nv[i as int];
            let ghost was = nv.take(i as int);
            let ghost now = nv.take(i + 1);
            let ghost before = self.pending@;
            let ghost retired = self.retired.deep_view();
            assert(name == names@[i as int]@);
            assert(nv.contains(name));
            assert(now =~= was.push(name));
            proof {
                assert forall|k: Seq<char>| #[trigger] now.contains(k) == (was.contains(k) || k
                    == name) by {
                    if was.contains(k) {
                        let j = choose|j: int| 0 <= j < was.len() && was[j] == k;
                        assert(now[j] == k);
                    }
                    assert(now[i as int] == name);
                    if now.contains(k) {
                        let j = choose|j: int| 0 <= j < now.len() && now[j] == k;
                        if j < i {
                            assert(was[j] == k);
                        }
                    }
                }
                if was.contains(name) {
                    let j = choose|j: int| 0 <= j < was.len() && was[j] == name;
                    assert(nv[j] == nv[i as int]);
                }
                assert(before.dom().contains(name));
            }
            let hit = match self.pending.get(names[i].as_str()) {
                Some(p) => match &p.execution {
                    Some(x) => text::eq(x.as_str(), execution),
                    None => false,
                },
                None => false,
            };
            if hit {
                self.pending.remove(names[i].as_str());
                self.retired.push(names[i].clone());
                assert(self.retired.deep_view() =~= retired.push(name));
            }
            proof {
                let after = self.retired.deep_view();
                assert forall|k: Seq<char>| #[trigger]
                    after.contains(k) <==> d.retired.contains(k) || (now.contains(k) && awaits(
                        all[k],
                        execution@,
                    )) by {
                    assert(retired.contains(k) <==> d.retired.contains(k) || (was.contains(k)
                        && awaits(all[k], execution@)));
                    if hit {
                        if retired.contains(k) {
                            let j = choose|j: int| 0 <= j < retired.len() && retired[j] == k;
                            assert(after[j] == k);
                        }
                        assert(after[retired.len() as int] == name);
                        if after.contains(k) {
                            let j = choose|j: int| 0 <= j < after.len() && after[j] == k;
                            if j < retired.len() {
                                assert(retired[j] == k);
                            }
                        }
                    }
                }
            }
            i = i + 1;
        }
        assert(nv.take(i as int) =~= nv);
        assert(self@.pending =~= detached(d, execution@).pending);
        assert(self@.retired =~= detached(d, execution@).retired);
    }

    /// Expires bounded requests at the instant `now`: each overdue caller
    /// fails and its id retires. Uncapped awaits never expire.
    pub fn expire(&mut self, now: u64) -> (replies: Vec<Reply>)
        requires
            old(self).wf(),
        ensures
            final(self).wf(),
            final(self)@ == expired(old(self)@, now),
            fail_each(
                replies@,
                overdue_entries(old(self)@.pending, now),
                ""@,
                " response timed out"@,
            ),
    {
        let ghost d = self@;
        let ghost all = self.pending@;
        let names = self.pending.keys();
        let ghost nv = names.deep_view();
        let mut ids: Vec<String> = Vec::new();
        let mut i: usize = 0;
        while i < names.len()
            invariant
                self.wf(),
                self@ == d,
                all == d.pending,
                all == self.pending@,
                nv == names.deep_view(),
                nv.no_duplicates(),
                i <= names@.len(),
                forall|k: Seq<char>| #[trigger] nv.contains(k) <==> all.dom().contains(k),
                ids.deep_view().no_duplicates(),
                forall|k: Seq<char>| #[trigger]
                    ids.deep_view().contains(k) <==> nv.take(i as int).contains(k) && overdue(
                        all[k],
                        now,
                    ),
            decreases names.len() - i,
        {
            let ghost name = nv[i as int];
            let ghost was = nv.take(i as int);
            let ghost next = nv.take(i + 1);
            let ghost before = ids.deep_view();
            assert(name == names@[i as int]@);
            assert(nv.contains(name));
            assert(next =~= was.push(name));
            let late = match self.pending.get(names[i].as_str()) {
                Some(p) => match p.deadline {
                    Some(t) => now >= t,
                    None => false,
                },
                None => false,
            };
            if late {
                ids.push(names[i].clone());
                assert(ids.deep_view() =~= before.push(name));
            }
            proof {
                let after = ids.deep_view();
                if was.contains(name) {
                    let j = choose|j: int| 0 <= j < was.len() && was[j] == name;
                    assert(nv[j] == nv[i as int]);
                }
                assert(!before.contains(name));
                assert forall|k: Seq<char>| #[trigger]
                    after.contains(k) <==> next.contains(k) && overdue(all[k], now) by {
                    assert(before.contains(k) <==> was.contains(k) && overdue(all[k], now));
                    if was.contains(k) {
                        let j = choose|j: int| 0 <= j < was.len() && was[j] == k;
                        assert(next[j] == k);
                    }
                    assert(next[i as int] == name);
                    if next.contains(k) {
                        let j = choose|j: int| 0 <= j < next.len() && next[j] == k;
                        if j < i {
                            assert(was[j] == k);
                        }
                    }
                    if before.contains(k) {
                        let j = choose|j: int| 0 <= j < before.len() && before[j] == k;
                        assert(after[j] == k);
                    }
                    if late {
                        assert(after[before.len() as int] == name);
                    }
                    if after.contains(k) {
                        let j = choose|j: int| 0 <= j < after.len() && after[j] == k;
                        if j < before.len() {
                            assert(before[j] == k);
                        }
                    }
                }
            }
            i = i + 1;
        }
        assert(nv.take(i as int) =~= nv);
        assert(only(all, ids.deep_view()) =~= overdue_entries(all, now));
        assert(except(all, ids.deep_view()) =~= current_entries(all, now));
        let replies = fail_entries(&mut self.pending, &ids, "", " response timed out");
        let ghost retired = self.retired.deep_view();
        let mut more = text::copy_texts(&ids);
        self.retired.append(&mut more);
        proof {
            let after = self.retired.deep_view();
            assert(after =~= retired + ids.deep_view());
            assert forall|k: Seq<char>| #[trigger] after.contains(k) <==> retired.contains(k)
                || ids.deep_view().contains(k) by {
                if retired.contains(k) {
                    let j = choose|j: int| 0 <= j < retired.len() && retired[j] == k;
                    assert(after[j] == k);
                }
                if ids.deep_view().contains(k) {
                    let j = choose|j: int|
                        0 <= j < ids.deep_view().len() && ids.deep_view()[j] == k;
                    assert(after[retired.len() + j] == k);
                }
                if after.contains(k) {
                    let j = choose|j: int| 0 <= j < after.len() && after[j] == k;
                    if j < retired.len() {
                        assert(retired[j] == k);
                    } else {
                        assert(ids.deep_view()[j - retired.len()] == k);
                    }
                }
            }
            assert(self@.retired =~= expired(d, now).retired);
            assert(self@.pending =~= expired(d, now).pending);
        }
        replies
    }
}

// ---------------------------------------------------------------------
// Laws
// ---------------------------------------------------------------------

/// Uncertainty is never observed without its report, and a fatal path sets
/// exactly one of the two: death after a proven shutdown, uncertainty after
/// a failed one.
pub proof fn law_fate_is_truthful(fate: FateView, reason: Seq<char>, shutdown: Result<()>)
    requires
        fate.uncertain ==> fate.report is Some,
    ensures
        ({
            let after = fate_after(fate, reason, shutdown);
            &&& after.uncertain ==> after.report is Some
            &&& shutdown is Ok ==> after.dead && after.uncertain == fate.uncertain
            &&& shutdown is Err ==> after.uncertain && after.dead == fate.dead
        }),
{
}

/// An await without a deadline survives every expiry, however late.
pub proof fn law_uncapped_awaits_never_expire(d: DispatcherView, id: Seq<char>, now: u64)
    requires
        d.pending.dom().contains(id),
        d.pending[id].deadline is None,
    ensures
        expired(d, now).pending.dom().contains(id),
        expired(d, now).pending[id] == d.pending[id],
{
}

/// A retired request drops its late terminal silently: it answers nobody and
/// is not fatal.
pub proof fn law_late_terminals_drop(
    d: DispatcherView,
    e: Envelope,
    v: FrameVerdict,
    left: Map<Seq<char>, PendingView>,
)
    requires
        routed(d, e, v, left),
        d.retired.contains(e.id@),
        !d.pending.dom().contains(e.id@),
    ensures
        v is Quiet,
        left == d.pending,
{
}

/// A response answers nobody but the caller of its own id, and only once: the
/// answered entry is gone, every other entry stays.
pub proof fn law_answers_reach_their_caller(
    d: DispatcherView,
    e: Envelope,
    v: FrameVerdict,
    left: Map<Seq<char>, PendingView>,
    other: Seq<char>,
)
    requires
        routed(d, e, v, left),
        v is Answer,
    ensures
        d.pending.dom().contains(e.id@),
        v matches FrameVerdict::Answer(r) && r.id@ == e.id@ && r.caller == d.pending[e.id@].caller,
        !left.dom().contains(e.id@),
        other != e.id@ && d.pending.dom().contains(other) ==> left.dom().contains(other)
            && left[other] == d.pending[other],
{
}

/// Submitted requests never share an id.
pub proof fn law_call_ids_differ(a: nat, b: nat)
    requires
        a != b,
    ensures
        call_id(a) != call_id(b),
{
    if text::dec(a) == text::dec(b) {
        text::lemma_dec_injective(a, b);
    }
    assert(call_id(a).skip("c"@.len() as int) =~= text::dec(a));
    assert(call_id(b).skip("c"@.len() as int) =~= text::dec(b));
}

/// What is submitted asks the operation under a fresh id with the payload as it
/// stands, and is kept with its caller; its deadline is the timeout from now, and
/// without a timeout it has none and must be sent within thirty seconds.
pub proof fn law_submissions_say_the_call(
    e: Envelope,
    x: Submission,
    n: nat,
    op: Seq<char>,
    payload: Json,
    timeout: Option<u64>,
    now: u64,
    caller: u64,
)
    requires
        submitted(e, x, n, op, payload, timeout, now, caller),
        timeout is Some ==> now + timeout->0 <= u64::MAX,
    ensures
        e.protocol == 1,
        e.id@ == "c"@ + text::dec(n),
        e.op@ == op,
        e.payload == payload,
        x.id@ == e.id@,
        x.entry.caller == caller,
        x.entry.op@ == op,
        timeout is Some ==> x.send_by == now + timeout->0 && x.entry.deadline == Some(
            (now + timeout->0) as u64,
        ),
        timeout is None ==> x.send_by == now + 30_000 && x.entry.deadline is None,
        x.entry.is_await <==> op == "isolator.await_result"@,
        op == "isolator.await_result"@ ==> x.entry.execution.deep_view() == json::text_member(
            payload,
            "execution_handle"@,
        ),
        op != "isolator.await_result"@ ==> x.entry.execution.deep_view() is None,
{
}

/// A pending call that is answered under its operation gets the payload as it
/// stands; a `pending` one keeps an await waiting and fails any other call.
pub proof fn law_answers_are_delivered(
    d: DispatcherView,
    e: Envelope,
    v: FrameVerdict,
    left: Map<Seq<char>, PendingView>,
)
    requires
        routed(d, e, v, left),
        d.pending.dom().contains(e.id@),
    ensures
        ({
            let p = d.pending[e.id@];
            let waits = json::member(e.payload, "pending"@) == Some(Json::Bool(true));
            &&& p.op == e.op@ && !waits ==> (v matches FrameVerdict::Answer(r) && r.id@ == e.id@
                && r.caller == p.caller && r.outcome == Ok::<Json, CistellaError>(e.payload))
            &&& p.op == e.op@ && waits && p.is_await ==> v is Quiet && left == d.pending
            &&& p.op == e.op@ && waits && !p.is_await ==> (v matches FrameVerdict::Answer(r)
                && r.outcome is Err)
            &&& p.op != e.op@ ==> (v matches FrameVerdict::Answer(r) && r.outcome is Err)
            &&& v is Answer ==> left == d.pending.remove(e.id@)
        }),
{
}

/// An answer to a call that was never made is fatal, and changes nothing.
pub proof fn law_unasked_answers_are_fatal(
    d: DispatcherView,
    e: Envelope,
    v: FrameVerdict,
    left: Map<Seq<char>, PendingView>,
)
    requires
        routed(d, e, v, left),
        !d.pending.dom().contains(e.id@),
        !d.retired.contains(e.id@),
    ensures
        v is Fatal,
        left == d.pending,
{
}

/// Time runs out for a call exactly when its deadline has come, and the call is
/// then no longer pending but still known; no other call is touched.
pub proof fn law_deadlines_retire_their_calls(d: DispatcherView, id: Seq<char>, now: u64)
    ensures
        ({
            let after = expired(d, now);
            let due = d.pending.dom().contains(id) && d.pending[id].deadline is Some
                && d.pending[id].deadline->0 <= now;
            &&& due ==> !after.pending.dom().contains(id) && after.retired.contains(id)
            &&& due <==> overdue_entries(d.pending, now).dom().contains(id)
            &&& !due ==> (after.pending.dom().contains(id) == d.pending.dom().contains(id))
                && after.retired.contains(id) == d.retired.contains(id)
            &&& after.pending.dom().contains(id) ==> after.pending[id] == d.pending[id]
            &&& after.next_id == d.next_id && after.max_frame == d.max_frame && after.fate == d.fate
                && after.stopping == d.stopping
        }),
{
}

/// Detaching an execution retires the calls that await it and no others.
pub proof fn law_detaching_retires_the_awaits(d: DispatcherView, execution: Seq<char>, id: Seq<char>)
    ensures
        ({
            let after = detached(d, execution);
            let waits = d.pending.dom().contains(id) && d.pending[id].execution == Some(execution);
            &&& waits ==> !after.pending.dom().contains(id) && after.retired.contains(id)
            &&& !waits ==> (after.pending.dom().contains(id) == d.pending.dom().contains(id))
                && after.retired.contains(id) == d.retired.contains(id)
            &&& after.pending.dom().contains(id) ==> after.pending[id] == d.pending[id]
            &&& after.next_id == d.next_id && after.max_frame == d.max_frame && after.fate == d.fate
                && after.stopping == d.stopping
        }),
{
}

/// When calls fail together, each gets one reply, to its own caller, that names
/// its operation.
pub proof fn law_failures_reach_every_caller(
    replies: Seq<Reply>,
    m: Map<Seq<char>, PendingView>,
    prefix: Seq<char>,
    suffix: Seq<char>,
    id: Seq<char>,
)
    requires
        fail_each(replies, m, prefix, suffix),
        m.dom().contains(id),
    ensures
        exists|i: int|
            0 <= i < replies.len() && (#[trigger] replies[i]).id@ == id && replies[i].caller
                == m[id].caller && (replies[i].outcome matches Err(e) && e@ == ErrorView::Protocol(
                prefix + m[id].op + suffix,
            )) && forall|j: int|
                0 <= j < replies.len() && (#[trigger] replies[j]).id@ == id ==> j == i,
        forall|i: int|
            0 <= i < replies.len() ==> m.dom().contains((#[trigger] replies[i]).id@),
{
    let i = choose|i: int| 0 <= i < replies.len() && (#[trigger] replies[i]).id@ == id;
    assert(fails_with(replies[i], m, prefix, suffix));
    assert forall|j: int| 0 <= j < replies.len() && (#[trigger] replies[j]).id@ == id implies j
        == i by {
        if j < i {
            assert(replies[j].id@ != replies[i].id@);
        } else if i < j {
            assert(replies[i].id@ != replies[j].id@);
        }
    }
}

/// Only an idle stream is no failure; any other error is told with its text.
pub proof fn law_idle_streams_are_sound(e: ErrorView)
    ensures
        stream_fault(e) is None <==> e == ErrorView::Protocol("frame read timed out: idle"@),
        stream_fault(e) is Some ==> stream_fault(e)->0 == "guest stream failed: "@ + e.rendered(),
        e == ErrorView::Protocol("frame write timed out"@) ==> send_fault(e)
            == "guest send timed out"@,
        e != ErrorView::Protocol("frame write timed out"@) ==> send_fault(e)
            == "guest send failed"@,
{
}

/// A guest whose shutdown worked is dead, one whose shutdown failed is uncertain,
/// and the report then holds the reason and the failure.
pub proof fn law_fates_follow_the_shutdown(fate: FateView, reason: Seq<char>, shutdown: Result<()>)
    ensures
        shutdown is Ok ==> fate_after(fate, reason, shutdown).dead && fate_after(
            fate,
            reason,
            shutdown,
        ).uncertain == fate.uncertain && fate_after(fate, reason, shutdown).report == fate.report
            && fatal_reason(reason, shutdown) == reason,
        shutdown is Err ==> fate_after(fate, reason, shutdown).uncertain && fate_after(
            fate,
            reason,
            shutdown,
        ).dead == fate.dead && fate_after(fate, reason, shutdown).report == Some(
            reason + "; guest shutdown failed: "@ + shutdown->Err_0@.rendered(),
        ),
{
}

/// A view says what the fields hold, each under its own name.
pub proof fn law_views_say_the_fields(
    pending: Pending,
    fate: Fate,
)
    ensures
        pending.deep_view().caller == pending.caller,
        pending.deep_view().deadline == pending.deadline,
        pending.deep_view().op == pending.op@,
        pending.deep_view().is_await == pending.is_await,
        pending.deep_view().execution == pending.execution.deep_view(),
        fate.view().dead == fate.dead,
        fate.view().uncertain == fate.uncertain,
        fate.view().report == fate.report.deep_view(),
{
}

} // verus!
