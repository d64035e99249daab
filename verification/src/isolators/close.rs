//! Terminal payloads: error envelopes, their reconstruction, await outcomes,
//! and close completion.

use vstd::prelude::*;

use crate::error::{CistellaError, ErrorView, Result};
use crate::framework::isolator::ExecutionOutcome;
use crate::framework::json;
use crate::framework::json::Json;
use crate::text;

verus! {

/// Wire code of an error class.
pub open spec fn code_of(e: ErrorView) -> Seq<char> {
    match e {
        ErrorView::Profile(_) => "profile"@,
        ErrorView::Mount(_) => "mount"@,
        ErrorView::Runtime(_) => "runtime"@,
        ErrorView::Transport(_) => "transport"@,
        ErrorView::Contract(_) => "contract"@,
        ErrorView::Protocol(_) => "protocol"@,
        ErrorView::Identity(_) => "identity"@,
        ErrorView::Preflight(_) => "preflight"@,
        ErrorView::LockContended => "lock-contended"@,
        ErrorView::Selector(_) => "selector"@,
        ErrorView::Detached(_) => "detached"@,
        ErrorView::Io(_) => "io"@,
    }
}

/// Maps an error to its wire code.
pub fn error_code(error: &CistellaError) -> (s: &'static str)
    ensures
        s@ == code_of(error@),
{
    match error {
        CistellaError::Profile(_) => "profile",
        CistellaError::Mount(_) => "mount",
        CistellaError::Runtime(_) => "runtime",
        CistellaError::Transport(_) => "transport",
        CistellaError::Contract(_) => "contract",
        CistellaError::Protocol(_) => "protocol",
        CistellaError::Identity(_) => "identity",
        CistellaError::Preflight(_) => "preflight",
        CistellaError::LockContended => "lock-contended",
        CistellaError::Selector(_) => "selector",
        CistellaError::Detached(_) => "detached",
        CistellaError::Io(_) => "io",
    }
}

/// Error that a code and a message stand for.
pub open spec fn error_of(code: Seq<char>, m: Seq<char>) -> ErrorView {
    if code == "profile"@ {
        ErrorView::Profile(m)
    } else if code == "mount"@ {
        ErrorView::Mount(m)
    } else if code == "runtime"@ {
        ErrorView::Runtime(m)
    } else if code == "transport"@ {
        ErrorView::Transport(m)
    } else if code == "contract"@ {
        ErrorView::Contract(m)
    } else if code == "protocol"@ {
        ErrorView::Protocol(m)
    } else if code == "identity"@ {
        ErrorView::Identity(m)
    } else if code == "preflight"@ {
        ErrorView::Preflight(m)
    } else if code == "lock-contended"@ {
        ErrorView::LockContended
    } else if code == "selector"@ {
        ErrorView::Selector(m)
    } else if code == "detached"@ {
        ErrorView::Detached(m)
    } else if code == "io"@ {
        ErrorView::Runtime("guest io: "@ + m)
    } else {
        ErrorView::Contract("unknown guest error code: "@ + code)
    }
}

/// Reconstructs a typed error from a wire error envelope.
///
/// Unknown codes refuse rather than collapsing into a generic bucket.
/// Messages arrive inner (prefix-free); the class applies its single prefix
/// when rendered.
pub fn wire_error(code: &str, message: &str) -> (e: CistellaError)
    ensures
        e@ == error_of(code@, message@),
{
    let m = message.to_owned();
    if text::eq(code, "profile") {
        CistellaError::Profile(m)
    } else if text::eq(code, "mount") {
        CistellaError::Mount(m)
    } else if text::eq(code, "runtime") {
        CistellaError::Runtime(m)
    } else if text::eq(code, "transport") {
        CistellaError::Transport(m)
    } else if text::eq(code, "contract") {
        CistellaError::Contract(m)
    } else if text::eq(code, "protocol") {
        CistellaError::Protocol(m)
    } else if text::eq(code, "identity") {
        CistellaError::Identity(m)
    } else if text::eq(code, "preflight") {
        CistellaError::Preflight(m)
    } else if text::eq(code, "lock-contended") {
        CistellaError::LockContended
    } else if text::eq(code, "selector") {
        CistellaError::Selector(m)
    } else if text::eq(code, "detached") {
        CistellaError::Detached(m)
    } else if text::eq(code, "io") {
        CistellaError::Runtime(text::cat("guest io: ", message))
    } else {
        CistellaError::Contract(text::cat("unknown guest error code: ", code))
    }
}

/// Whether a value is the terminal success `{"ok": payload}`.
pub open spec fn ok_payload(v: Json, payload: Json) -> bool {
    v matches Json::Object(m) && m@.len() == 1 && m@[0].0@ == "ok"@ && m@[0].1 == payload
}

/// Whether a value is the terminal failure `{"error": {"code", "message"}}`.
pub open spec fn error_payload(v: Json, code: Seq<char>, message: Seq<char>) -> bool {
    v matches Json::Object(m) && m@.len() == 1 && m@[0].0@ == "error"@ && (
    m@[0].1 matches Json::Object(x) && x@.len() == 2 && x@[0].0@ == "code"@ && (
    x@[0].1 matches Json::Str(c) && c@ == code) && x@[1].0@ == "message"@ && (
    x@[1].1 matches Json::Str(t) && t@ == message))
}

/// Renders an operation's outcome as its terminal response payload. The
/// message crosses without its class prefix.
pub fn terminal_payload(result: Result<Json>) -> (v: Json)
    ensures
        match result {
            Ok(payload) => ok_payload(v, payload),
            Err(e) => error_payload(v, code_of(e@), e@.inner()),
        },
{
    match result {
        Ok(payload) => {
            let mut members: Vec<(String, Json)> = Vec::new();
            members.push(("ok".to_owned(), payload));
            Json::Object(members)
        },
        Err(error) => {
            let mut inner: Vec<(String, Json)> = Vec::new();
            inner.push(("code".to_owned(), Json::Str(error_code(&error).to_owned())));
            inner.push(("message".to_owned(), Json::Str(error.message())));
            let mut members: Vec<(String, Json)> = Vec::new();
            members.push(("error".to_owned(), Json::Object(inner)));
            Json::Object(members)
        },
    }
}

/// A malformed response.
pub open spec fn bad_response(op: Seq<char>, m: Seq<char>) -> ErrorView {
    ErrorView::Contract("bad "@ + op + " response: "@ + m)
}

fn bad(op: &str, m: &str) -> (e: CistellaError)
    ensures
        e@ == bad_response(op@, m@),
{
    CistellaError::Contract(text::cat4("bad ", op, " response: ", m))
}

/// What a terminal response payload redeems to.
pub open spec fn redeemed(op: Seq<char>, response: Json) -> std::result::Result<Json, ErrorView> {
    match response {
        Json::Object(_) => match (
            json::member(response, "ok"@),
            json::member(response, "error"@),
        ) {
            (Some(payload), None) => Ok(payload),
            (None, Some(error)) => match error {
                Json::Object(_) => match json::text_member(error, "code"@) {
                    None => Err(bad_response(op, "error without code"@)),
                    Some(code) => match json::text_member(error, "message"@) {
                        None => Err(bad_response(op, "error without message"@)),
                        Some(m) => Err(error_of(code, m)),
                    },
                },
                _ => Err(bad_response(op, "error shape"@)),
            },
            _ => Err(bad_response(op, "exactly one of ok/error"@)),
        },
        _ => Err(bad_response(op, "not an object"@)),
    }
}

/// Redeems one terminal response payload: ok unwraps, error reconstructs,
/// anything else (both, neither, unknown shape) refuses.
pub fn redeem(op: &str, response: Json) -> (r: Result<Json>)
    ensures
        match (r, redeemed(op@, response)) {
            (Ok(a), Ok(b)) => a == b,
            (Err(a), Err(b)) => a@ == b,
            _ => false,
        },
{
    let mut members = match response {
        Json::Object(members) => members,
        _ => {
            return Err(bad(op, "not an object"));
        },
    };
    let ok = json::position_in(&members, "ok");
    let error = json::position_in(&members, "error");
    match (ok, error) {
        (Some(i), None) => Ok(members.swap_remove(i).1),
        (None, Some(i)) => {
            let value = &members[i].1;
            match value {
                Json::Object(_) => {},
                _ => {
                    return Err(bad(op, "error shape"));
                },
            }
            let code = match json::get_text(value, "code") {
                Some(code) => code,
                None => {
                    return Err(bad(op, "error without code"));
                },
            };
            let message = match json::get_text(value, "message") {
                Some(message) => message,
                None => {
                    return Err(bad(op, "error without message"));
                },
            };
            Err(wire_error(code, message))
        },
        _ => Err(bad(op, "exactly one of ok/error")),
    }
}

/// The refusal of an await payload outside its schema.
pub open spec fn await_shape() -> ErrorView {
    ErrorView::Contract("bad await response: shape"@)
}

/// Outcome that an await payload states.
pub open spec fn await_outcome(value: Json) -> std::result::Result<ExecutionOutcome, ErrorView> {
    match json::integer_member(value, "exit_status"@) {
        Some(code) => if i32::MIN <= code <= i32::MAX {
            Ok(ExecutionOutcome::Exited(code as i32))
        } else {
            Err(await_shape())
        },
        None => match json::integer_member(value, "signal"@) {
            Some(signum) => if i32::MIN <= signum <= i32::MAX {
                Ok(ExecutionOutcome::Signaled(signum as i32))
            } else {
                Err(await_shape())
            },
            None => Err(await_shape()),
        },
    }
}

/// Parses an await terminal payload into its outcome: `exit_status` first,
/// then `signal`; anything else is outside the schema.
pub fn parse_await_outcome(value: &Json) -> (r: Result<ExecutionOutcome>)
    ensures
        match (r, await_outcome(*value)) {
            (Ok(a), Ok(b)) => a == b,
            (Err(a), Err(b)) => a@ == b,
            _ => false,
        },
{
    match json::get_integer(value, "exit_status") {
        Some(code) => {
            if i32::MIN as i64 <= code && code <= i32::MAX as i64 {
                return Ok(ExecutionOutcome::Exited(code as i32));
            }
            return Err(CistellaError::Contract("bad await response: shape".to_owned()));
        },
        None => {},
    }
    match json::get_integer(value, "signal") {
        Some(signum) => {
            if i32::MIN as i64 <= signum && signum <= i32::MAX as i64 {
                return Ok(ExecutionOutcome::Signaled(signum as i32));
            }
        },
        None => {},
    }
    Err(CistellaError::Contract("bad await response: shape".to_owned()))
}

/// Settles a close: the live shutdown result, or a typed termination error
/// when the dispatcher died without reporting. Joining the worker and
/// unlinking the rendezvous path come first on every outcome.
pub fn complete_close(reply: Option<Result<()>>) -> (r: Result<()>)
    ensures
        match reply {
            Some(result) => r == result,
            None => r matches Err(e) && e@ == ErrorView::Protocol("dispatcher dropped shutdown"@),
        },
{
    match reply {
        Some(result) => result,
        None => Err(CistellaError::Protocol("dispatcher dropped shutdown".to_owned())),
    }
}

// ---------------------------------------------------------------------
// Laws
// ---------------------------------------------------------------------

proof fn lemma_codes(e: ErrorView)
    ensures
        !(e is Io) ==> error_of(code_of(e), e.inner()) == e,
        e matches ErrorView::Io(m) ==> error_of(code_of(e), e.inner()) == ErrorView::Runtime(
            "guest io: "@ + m,
        ),
{
    reveal_strlit("profile");
    reveal_strlit("mount");
    reveal_strlit("runtime");
    reveal_strlit("transport");
    reveal_strlit("contract");
    reveal_strlit("protocol");
    reveal_strlit("identity");
    reveal_strlit("preflight");
    reveal_strlit("lock-contended");
    reveal_strlit("selector");
    reveal_strlit("detached");
    reveal_strlit("io");
    let c = code_of(e);
    assert("mount"@[0] == 'm');
    assert("runtime"@[0] == 'r');
    assert("transport"@[0] == 't');
    assert("contract"@[0] == 'c');
    assert("lock-contended"@[0] == 'l');
    assert("selector"@[0] == 's');
    assert("detached"@[0] == 'd');
    assert("identity"@[1] == 'd' && "io"@[1] == 'o' && "identity"@[0] == 'i' && "io"@[0] == 'i');
    assert("profile"@[0] == 'p' && "protocol"@[0] == 'p' && "preflight"@[0] == 'p');
    assert("profile"@[3] == 'f' && "protocol"@[3] == 't' && "preflight"@[3] == 'f');
    assert("profile"@[1] == 'r' && "preflight"@[2] == 'e' && "profile"@[2] == 'o');
}

/// An error crosses the wire unchanged: what a guest answers with redeems to
/// the same class and message, and rendering it adds its prefix once. Input
/// and output failures arrive as runtime failures of the guest.
pub proof fn law_errors_cross_the_wire(v: Json, e: ErrorView, op: Seq<char>)
    requires
        error_payload(v, code_of(e), e.inner()),
    ensures
        !(e is Io) ==> redeemed(op, v) == Err::<Json, ErrorView>(e),
        e matches ErrorView::Io(m) ==> redeemed(op, v) == Err::<Json, ErrorView>(
            ErrorView::Runtime("guest io: "@ + m),
        ),
{
    lemma_codes(e);
    reveal_strlit("ok");
    reveal_strlit("error");
    reveal_strlit("code");
    reveal_strlit("message");
    assert("ok"@.len() == 2 && "error"@.len() == 5 && "code"@.len() == 4 && "message"@.len() == 7);
    let m = v->Object_0@;
    assert(json::member_from(m, "ok"@, 1) is None);
    assert(json::member_from(m, "ok"@, 0) is None);
    assert(json::member_from(m, "error"@, 0) == Some(m[0].1));
    let x = m[0].1->Object_0@;
    assert(json::member_from(x, "code"@, 0) == Some(x[0].1));
    assert(json::member_from(x, "message"@, 1) == Some(x[1].1));
    assert(json::member_from(x, "message"@, 0) == Some(x[1].1));
}

/// A success crosses the wire unchanged.
pub proof fn law_successes_cross_the_wire(v: Json, payload: Json, op: Seq<char>)
    requires
        ok_payload(v, payload),
    ensures
        redeemed(op, v) == Ok::<Json, ErrorView>(payload),
{
    reveal_strlit("ok");
    reveal_strlit("error");
    assert("ok"@.len() == 2 && "error"@.len() == 5);
    let m = v->Object_0@;
    assert(json::member_from(m, "ok"@, 0) == Some(payload));
    assert(json::member_from(m, "error"@, 1) is None);
    assert(json::member_from(m, "error"@, 0) is None);
}

/// Each class of error has its own code, in lower case.
pub proof fn law_classes_have_their_codes(m: Seq<char>)
    ensures
        code_of(ErrorView::Profile(m)) == "profile"@,
        code_of(ErrorView::Mount(m)) == "mount"@,
        code_of(ErrorView::Runtime(m)) == "runtime"@,
        code_of(ErrorView::Transport(m)) == "transport"@,
        code_of(ErrorView::Contract(m)) == "contract"@,
        code_of(ErrorView::Protocol(m)) == "protocol"@,
        code_of(ErrorView::Identity(m)) == "identity"@,
        code_of(ErrorView::Preflight(m)) == "preflight"@,
        code_of(ErrorView::LockContended) == "lock-contended"@,
        code_of(ErrorView::Selector(m)) == "selector"@,
        code_of(ErrorView::Detached(m)) == "detached"@,
        code_of(ErrorView::Io(m)) == "io"@,
{
}

/// A code that came over the wire keeps its class and its message, but for the
/// guest's own input and output, which is a runtime failure here; a code of no
/// class is a breach of contract that names it.
pub proof fn law_codes_are_read_back(e: ErrorView, code: Seq<char>, m: Seq<char>)
    ensures
        !(e is Io) ==> error_of(code_of(e), e.inner()) == e,
        e matches ErrorView::Io(x) ==> error_of(code_of(e), x) == ErrorView::Runtime(
            "guest io: "@ + x,
        ),
        (forall|c: ErrorView| #[trigger] code_of(c) != code) ==> error_of(code, m)
            == ErrorView::Contract("unknown guest error code: "@ + code),
{
    lemma_codes(e);
    if forall|c: ErrorView| #[trigger] code_of(c) != code {
        assert(code_of(ErrorView::Profile(m)) != code);
        assert(code_of(ErrorView::Mount(m)) != code);
        assert(code_of(ErrorView::Runtime(m)) != code);
        assert(code_of(ErrorView::Transport(m)) != code);
        assert(code_of(ErrorView::Contract(m)) != code);
        assert(code_of(ErrorView::Protocol(m)) != code);
        assert(code_of(ErrorView::Identity(m)) != code);
        assert(code_of(ErrorView::Preflight(m)) != code);
        assert(code_of(ErrorView::LockContended) != code);
        assert(code_of(ErrorView::Selector(m)) != code);
        assert(code_of(ErrorView::Detached(m)) != code);
        assert(code_of(ErrorView::Io(m)) != code);
    }
}

/// A terminal reply holds what succeeded under `ok`, or the code and the
/// message of what failed under `error`, and never both.
pub proof fn law_terminals_hold_one_side(v: Json, payload: Json, code: Seq<char>, m: Seq<char>)
    ensures
        ok_payload(v, payload) ==> json::member(v, "ok"@) == Some(payload) && json::member(
            v,
            "error"@,
        ) is None,
        error_payload(v, code, m) ==> json::member(v, "ok"@) is None && (json::member(
            v,
            "error"@,
        ) matches Some(x) && json::text_member(x, "code"@) == Some(code) && json::text_member(
            x,
            "message"@,
        ) == Some(m)),
{
    reveal_strlit("ok");
    reveal_strlit("error");
    reveal_strlit("code");
    reveal_strlit("message");
    assert("ok"@.len() == 2 && "error"@.len() == 5 && "code"@.len() == 4 && "message"@.len() == 7);
    if ok_payload(v, payload) {
        let members = v->Object_0;
        json::law_members_are_found_by_key(members, "ok"@, 0);
        json::law_absent_keys_are_no_members(members@, "error"@, 0);
    }
    if error_payload(v, code, m) {
        let members = v->Object_0;
        json::law_members_are_found_by_key(members, "error"@, 0);
        json::law_absent_keys_are_no_members(members@, "ok"@, 0);
        let x = members@[0].1->Object_0;
        json::law_members_are_found_by_key(x, "code"@, 0);
        json::law_members_are_found_by_key(x, "message"@, 1);
    }
}

/// A reply is redeemed for its payload exactly when it is an object with an
/// `ok` and no `error`.
pub proof fn law_replies_are_redeemed(op: Seq<char>, response: Json, payload: Json)
    ensures
        redeemed(op, response) == Ok::<Json, ErrorView>(payload) <==> json::member(
            response,
            "ok"@,
        ) == Some(payload) && json::member(response, "error"@) is None,
        json::member(response, "ok"@) is None && json::member(response, "error"@) is None
            ==> redeemed(op, response) is Err,
        json::member(response, "ok"@) is Some && json::member(response, "error"@) is Some ==> (
        redeemed(op, response) matches Err(e) && e is Contract),
        redeemed(op, response) is Err && json::member(response, "error"@) is None ==> redeemed(
            op,
            response,
        )->Err_0 is Contract,
{
}

/// An outcome is the exit status when one is told, else the signal, each as it
/// stands, and no number that an `i32` cannot hold.
pub proof fn law_outcomes_are_read(value: Json, n: i64)
    ensures
        json::integer_member(value, "exit_status"@) == Some(n) && -0x8000_0000 <= n <= 0x7fff_ffff
            ==> await_outcome(value) == Ok::<ExecutionOutcome, ErrorView>(
            ExecutionOutcome::Exited(n as i32),
        ),
        json::integer_member(value, "exit_status"@) is None && json::integer_member(
            value,
            "signal"@,
        ) == Some(n) && -0x8000_0000 <= n <= 0x7fff_ffff ==> await_outcome(value) == Ok::<
            ExecutionOutcome,
            ErrorView,
        >(ExecutionOutcome::Signaled(n as i32)),
        await_outcome(value) matches Ok(ExecutionOutcome::Exited(c)) ==> json::integer_member(
            value,
            "exit_status"@,
        ) == Some(c as i64),
        await_outcome(value) matches Ok(ExecutionOutcome::Signaled(s)) ==> json::integer_member(
            value,
            "signal"@,
        ) == Some(s as i64),
{
}

} // verus!
