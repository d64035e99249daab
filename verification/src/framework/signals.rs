//! Conduct-level signal flags.
//!
//! The handlers only record SIGHUP and SIGTERM here before any residue
//! exists; awaiting shares the cancel flag with conduct orchestration.

use vstd::prelude::*;

use crate::framework::contract::CancelFlag;

verus! {

/// `SIGHUP`.
pub const SIGHUP: i32 = 1;

/// `SIGTERM`.
pub const SIGTERM: i32 = 15;

/// What arrived so far.
#[derive(Debug, Clone, Copy)]
pub struct SignalState {
    hup: bool,
    term: bool,
    cancel: CancelFlag,
}

/// What arrived so far: hangup, termination, cancellation.
pub struct SignalView {
    pub hup: bool,
    pub term: bool,
    pub cancel: i32,
}

impl View for SignalState {
    type V = SignalView;

    closed spec fn view(&self) -> SignalView {
        SignalView { hup: self.hup, term: self.term, cancel: self.cancel@ }
    }
}

/// State after one more signal: SIGHUP and SIGTERM set their flag and
/// cancel with their number; any other signal changes nothing.
pub open spec fn after_signal(s: SignalView, signal: i32) -> SignalView {
    if signal == SIGHUP {
        SignalView { hup: true, cancel: SIGHUP, ..s }
    } else if signal == SIGTERM {
        SignalView { term: true, cancel: SIGTERM, ..s }
    } else {
        s
    }
}

/// Pending signal of a state: a hangup outranks a termination.
pub open spec fn pending_of(s: SignalView) -> Option<i32> {
    if s.hup {
        Some(SIGHUP)
    } else if s.term {
        Some(SIGTERM)
    } else {
        None
    }
}

impl SignalState {
    /// Nothing arrived yet.
    pub fn new() -> (s: Self)
        ensures
            s@ == (SignalView { hup: false, term: false, cancel: 0 }),
    {
        SignalState { hup: false, term: false, cancel: CancelFlag::new() }
    }

    /// Records a signal.
    pub fn on_conduct_signal(&mut self, signal: i32)
        ensures
            final(self)@ == after_signal(old(self)@, signal),
    {
        if signal == SIGHUP {
            self.hup = true;
            self.cancel = flag_with(SIGHUP);
        } else if signal == SIGTERM {
            self.term = true;
            self.cancel = flag_with(SIGTERM);
        }
    }
}

fn flag_with(signum: i32) -> (f: CancelFlag)
    ensures
        f@ == signum,
{
    let mut f = CancelFlag::new();
    f.cancel_with(signum);
    f
}

/// The conduct cancellation flag.
pub fn conduct_cancel(state: &SignalState) -> (f: CancelFlag)
    ensures
        f@ == state@.cancel,
{
    state.cancel
}

/// Returns the pending conduct-level signal, if SIGHUP or SIGTERM arrived.
#[must_use]
pub fn pending_signal(state: &SignalState) -> (r: Option<i32>)
    ensures
        r == pending_of(state@),
{
    if state.hup {
        Some(SIGHUP)
    } else if state.term {
        Some(SIGTERM)
    } else {
        None
    }
}

/// True once SIGHUP arrived.
#[must_use]
pub fn got_hup(state: &SignalState) -> (b: bool)
    ensures
        b == state@.hup,
{
    state.hup
}

/// True once SIGTERM arrived.
#[must_use]
pub fn got_term(state: &SignalState) -> (b: bool)
    ensures
        b == state@.term,
{
    state.term
}

/// A signal once recorded stays pending whatever arrives after it, and
/// recording one cancels.
pub proof fn law_signals_latch(s: SignalView, signal: i32)
    ensures
        s.hup ==> after_signal(s, signal).hup,
        s.term ==> after_signal(s, signal).term,
        (signal == SIGHUP || signal == SIGTERM) ==> after_signal(s, signal).cancel == signal
            && pending_of(after_signal(s, signal)) is Some,
{
}

/// A hangup is pending before a termination; neither is pending before it
/// came, and other signals change nothing.
pub proof fn law_pending_signals(s: SignalView, other: i32)
    requires
        other != 1,
        other != 15,
    ensures
        pending_of(s) == Some(1i32) <==> s.hup,
        pending_of(s) == Some(15i32) <==> !s.hup && s.term,
        pending_of(s) is None <==> !s.hup && !s.term,
        after_signal(s, other) == s,
        after_signal(s, 1).hup && after_signal(s, 1).term == s.term && after_signal(s, 1).cancel
            == 1,
        after_signal(s, 15).term && after_signal(s, 15).hup == s.hup && after_signal(s, 15).cancel
            == 15,
{
}

} // verus!
