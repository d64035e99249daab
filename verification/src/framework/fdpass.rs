//! Ancillary-descriptor channel for session stdio: rendezvous names, peer
//! identity, and bundle shape.
//!
//! Typed stdio bundles cross on a separate Unix socket, bound to one
//! `execute_launch` request: a JSON header (`unit_handle`,
//! `execution_handle`) plus exactly three descriptors (stdin, stdout, stderr
//! by position).

use vstd::prelude::*;

use crate::digest;
use crate::error::{CistellaError, ErrorView, Result};
use crate::text;

verus! {

/// Maximum bundle header bytes.
pub const MAX_HEADER: usize = 4096;

/// How long a guest waits for the launch bundle after its wire operation, in
/// milliseconds.
pub const LAUNCH_BUNDLE_WAIT: u64 = 30_000;

/// Best-effort drain budget for a queued bundle on early refusal, in
/// milliseconds.
pub const DRAIN_BUDGET: u64 = 2_000;

/// Bundle header binding one descriptor triple to one launch request.
#[derive(Debug)]
pub struct BundleHeader {
    /// Framework-issued unit handle string.
    pub unit_handle: String,
    /// Framework-issued execution handle string.
    pub execution_handle: String,
}

/// Whether a header names exactly this launch.
pub open spec fn names_launch(h: BundleHeader, unit: Seq<char>, execution: Seq<char>) -> bool {
    h.unit_handle@ == unit && h.execution_handle@ == execution
}

/// Whether a header names exactly this launch.
pub fn binds_launch(h: &BundleHeader, unit: &str, execution: &str) -> (b: bool)
    ensures
        b == names_launch(*h, unit@, execution@),
{
    text::eq(h.unit_handle.as_str(), unit) && text::eq(h.execution_handle.as_str(), execution)
}

/// File name of a rendezvous socket: the random bytes in hexadecimal.
pub fn rendezvous_name(random: &[u8; 16]) -> (s: String)
    ensures
        s@ == "guest-"@ + digest::hex_text(random@) + ".sock"@,
{
    text::cat3("guest-", digest::hex_encode(random.as_slice()).as_str(), ".sock")
}

/// Authenticates an accepted peer: both the uid and the exact pid of the
/// spawned guest must match.
pub fn check_peer(uid: u32, me: u32, pid: i32, expected_pid: i32) -> (r: Result<()>)
    ensures
        if uid == me && pid == expected_pid {
            r is Ok
        } else {
            r matches Err(e) && e@ == ErrorView::Contract("fd channel peer identity mismatch"@)
        },
{
    if uid != me || pid != expected_pid {
        return Err(CistellaError::Contract("fd channel peer identity mismatch".to_owned()));
    }
    Ok(())
}

/// Decides whether to go on waiting for the guest's connection: a dead guest
/// never connects, and the budget bounds the wait.
pub fn accept_gate(alive: bool, expired: bool) -> (r: Result<()>)
    ensures
        if !alive {
            r matches Err(e) && e@ == ErrorView::Contract("guest died before fd-channel connect"@)
        } else if expired {
            r matches Err(e) && e@ == ErrorView::Runtime("fd-channel accept timed out"@)
        } else {
            r is Ok
        },
{
    if !alive {
        return Err(CistellaError::Contract("guest died before fd-channel connect".to_owned()));
    }
    if expired {
        return Err(CistellaError::Runtime("fd-channel accept timed out".to_owned()));
    }
    Ok(())
}

/// What a bundle send came to: the socket never drained within its budget,
/// or so many of the header's bytes were taken.
pub open spec fn send_fault(sent: Option<usize>, len: usize) -> Option<ErrorView> {
    match sent {
        None => Some(ErrorView::Contract("fd bundle send timed out"@)),
        Some(n) => if n == len {
            None
        } else {
            Some(
                ErrorView::Runtime(
                    "short fd bundle send: "@ + text::dec(n as nat) + "/"@ + text::dec(len as nat),
                ),
            )
        },
    }
}

/// Judges a bundle send: it finishes in budget and whole, or refuses.
pub fn send_bundle(sent: Option<usize>, len: usize) -> (r: Result<()>)
    ensures
        match send_fault(sent, len) {
            Some(e) => r matches Err(x) && x@ == e,
            None => r is Ok,
        },
{
    match sent {
        None => Err(CistellaError::Contract("fd bundle send timed out".to_owned())),
        Some(n) => {
            if n != len {
                return Err(
                    CistellaError::Runtime(
                        text::cat4(
                            "short fd bundle send: ",
                            text::dec_u64(n as u64).as_str(),
                            "/",
                            text::dec_u64(len as u64).as_str(),
                        ),
                    ),
                );
            }
            Ok(())
        },
    }
}

/// What one bundle receive came to.
#[derive(Debug)]
pub struct Received {
    /// Something arrived within the budget.
    pub ready: bool,
    /// The control data could not be walked.
    pub control_truncated: bool,
    /// A control message other than descriptors arrived.
    pub unexpected_control: bool,
    /// The message or its control data was cut short.
    pub truncated: bool,
    /// Bytes received.
    pub bytes: usize,
    /// The decoded header, when the bytes hold one.
    pub header: Option<BundleHeader>,
    /// Descriptors received.
    pub count: usize,
}

/// First fault of a received bundle: a wait that runs out and a channel that
/// closes are failures of the runtime, all else breaks the contract.
pub open spec fn bundle_fault(b: Received) -> Option<ErrorView> {
    if !b.ready {
        Some(ErrorView::Runtime("fd bundle wait timed out"@))
    } else if b.control_truncated {
        Some(ErrorView::Contract("fd bundle control truncated"@))
    } else if b.unexpected_control {
        Some(ErrorView::Contract("unexpected fd bundle control message"@))
    } else if b.truncated {
        Some(ErrorView::Contract("fd bundle truncated"@))
    } else if b.bytes == 0 {
        Some(ErrorView::Runtime("fd channel closed before bundle"@))
    } else if b.header is None {
        Some(ErrorView::Contract("bad fd bundle header: shape violation"@))
    } else if b.count != 3 {
        Some(
            ErrorView::Contract(
                "fd bundle must carry exactly 3 descriptors, got "@ + text::dec(b.count as nat),
            ),
        )
    } else {
        None
    }
}

/// An accepted bundle is whole: a header, exactly three descriptors, nothing
/// cut off, and nothing beside them.
pub proof fn law_accepted_bundles_are_whole(b: Received)
    requires
        bundle_fault(b) is None,
    ensures
        b.header is Some,
        b.count == 3,
        !b.truncated && !b.control_truncated && !b.unexpected_control,
{
}

/// Judges one received bundle: a whole header and exactly three descriptors,
/// or a refusal.
pub fn recv_bundle(b: Received) -> (r: Result<BundleHeader>)
    ensures
        match bundle_fault(b) {
            Some(e) => r matches Err(x) && x@ == e,
            None => r is Ok && b.header == Some(r->Ok_0),
        },
{
    if !b.ready {
        return Err(CistellaError::Runtime("fd bundle wait timed out".to_owned()));
    }
    if b.control_truncated {
        return Err(CistellaError::Contract("fd bundle control truncated".to_owned()));
    }
    if b.unexpected_control {
        return Err(CistellaError::Contract("unexpected fd bundle control message".to_owned()));
    }
    if b.truncated {
        return Err(CistellaError::Contract("fd bundle truncated".to_owned()));
    }
    if b.bytes == 0 {
        return Err(CistellaError::Runtime("fd channel closed before bundle".to_owned()));
    }
    match b.header {
        None => Err(CistellaError::Contract("bad fd bundle header: shape violation".to_owned())),
        Some(header) => {
            if b.count != 3 {
                return Err(
                    CistellaError::Contract(
                        text::cat(
                            "fd bundle must carry exactly 3 descriptors, got ",
                            text::dec_u64(b.count as u64).as_str(),
                        ),
                    ),
                );
            }
            Ok(header)
        },
    }
}

/// A bundle is taken exactly when it came in time, whole, with a header, and
/// with three descriptors.
pub proof fn law_whole_bundles_are_accepted(b: Received)
    ensures
        bundle_fault(b) is None <==> b.ready && !b.control_truncated && !b.unexpected_control
            && !b.truncated && b.bytes > 0 && b.header is Some && b.count == 3,
{
}

/// A bundle is sent exactly when all of it was.
pub proof fn law_bundles_are_sent_whole(sent: Option<usize>, len: usize)
    ensures
        send_fault(sent, len) is None <==> sent == Some(len),
{
}

/// A bundle is for a launch exactly when it names both its handles.
pub proof fn law_bundles_name_their_launch(h: BundleHeader, unit: Seq<char>, execution: Seq<char>)
    ensures
        names_launch(h, unit, execution) <==> h.unit_handle@ == unit && h.execution_handle@
            == execution,
{
}

} // verus!
