//! Driver-wide error type and its model.

use vstd::prelude::*;

verus! {

/// Driver-wide error.
#[derive(Debug)]
pub enum CistellaError {
    /// Profile validation failure.
    Profile(String),
    /// Mount validation failure.
    Mount(String),
    /// Runtime failure.
    Runtime(String),
    /// Transport failure.
    Transport(String),
    /// Framework contract violation (spine, merge, baseline, policy shape).
    Contract(String),
    /// Wire protocol violation (framing, envelope shape, correlation).
    Protocol(String),
    /// Identity failure.
    Identity(String),
    /// Preflight failure.
    Preflight(String),
    /// Advisory lock is held by another process (non-blocking acquire).
    LockContended,
    /// Selector usage failure (ambiguous, empty, or mixed forms).
    Selector(String),
    /// The conductor detached from an execution that keeps running.
    Detached(String),
    /// Input or output failure, with the text the system gave for it.
    Io(String),
}

/// Result of a fallible operation of the driver.
pub type Result<T> = std::result::Result<T, CistellaError>;

/// What an error says: its class and its message.
pub enum ErrorView {
    Profile(Seq<char>),
    Mount(Seq<char>),
    Runtime(Seq<char>),
    Transport(Seq<char>),
    Contract(Seq<char>),
    Protocol(Seq<char>),
    Identity(Seq<char>),
    Preflight(Seq<char>),
    LockContended,
    Selector(Seq<char>),
    Detached(Seq<char>),
    Io(Seq<char>),
}

impl View for CistellaError {
    type V = ErrorView;

    open spec fn view(&self) -> ErrorView {
        match *self {
            CistellaError::Profile(m) => ErrorView::Profile(m@),
            CistellaError::Mount(m) => ErrorView::Mount(m@),
            CistellaError::Runtime(m) => ErrorView::Runtime(m@),
            CistellaError::Transport(m) => ErrorView::Transport(m@),
            CistellaError::Contract(m) => ErrorView::Contract(m@),
            CistellaError::Protocol(m) => ErrorView::Protocol(m@),
            CistellaError::Identity(m) => ErrorView::Identity(m@),
            CistellaError::Preflight(m) => ErrorView::Preflight(m@),
            CistellaError::LockContended => ErrorView::LockContended,
            CistellaError::Selector(m) => ErrorView::Selector(m@),
            CistellaError::Detached(m) => ErrorView::Detached(m@),
            CistellaError::Io(m) => ErrorView::Io(m@),
        }
    }
}

/// Whether a result is the modelled one: same success value, or an error of
/// the same class with the same message.
pub open spec fn agrees<T: DeepView>(
    r: std::result::Result<T, CistellaError>,
    model: std::result::Result<T::V, ErrorView>,
) -> bool {
    match (r, model) {
        (Ok(a), Ok(b)) => a.deep_view() == b,
        (Err(a), Err(b)) => a@ == b,
        _ => false,
    }
}

/// Why an operation failed, if it did.
pub open spec fn failure(r: std::result::Result<(), CistellaError>) -> Option<ErrorView> {
    match r {
        Err(e) => Some(e@),
        Ok(_) => None,
    }
}

impl ErrorView {
    /// The rendered error: the class prefix, then the message. An input or
    /// output failure and a contended lock carry no prefix.
    pub open spec fn rendered(self) -> Seq<char> {
        match self {
            ErrorView::Profile(m) => "profile: "@ + m,
            ErrorView::Mount(m) => "mount: "@ + m,
            ErrorView::Runtime(m) => "runtime: "@ + m,
            ErrorView::Transport(m) => "transport: "@ + m,
            ErrorView::Contract(m) => "contract: "@ + m,
            ErrorView::Protocol(m) => "protocol: "@ + m,
            ErrorView::Identity(m) => "identity: "@ + m,
            ErrorView::Preflight(m) => "preflight: "@ + m,
            ErrorView::LockContended => "lock contended"@,
            ErrorView::Selector(m) => "selector: "@ + m,
            ErrorView::Detached(m) => "detached: "@ + m,
            ErrorView::Io(m) => m,
        }
    }

    /// The message without its class prefix.
    pub open spec fn inner(self) -> Seq<char> {
        match self {
            ErrorView::Profile(m) => m,
            ErrorView::Mount(m) => m,
            ErrorView::Runtime(m) => m,
            ErrorView::Transport(m) => m,
            ErrorView::Contract(m) => m,
            ErrorView::Protocol(m) => m,
            ErrorView::Identity(m) => m,
            ErrorView::Preflight(m) => m,
            ErrorView::LockContended => "lock contended"@,
            ErrorView::Selector(m) => m,
            ErrorView::Detached(m) => m,
            ErrorView::Io(m) => m,
        }
    }
}

impl CistellaError {
    /// Renders the error for the operator: class prefix, then message.
    pub fn render(&self) -> (text: String)
        ensures
            text@ == self@.rendered(),
    {
        match self {
            CistellaError::Profile(m) => crate::text::cat("profile: ", m),
            CistellaError::Mount(m) => crate::text::cat("mount: ", m),
            CistellaError::Runtime(m) => crate::text::cat("runtime: ", m),
            CistellaError::Transport(m) => crate::text::cat("transport: ", m),
            CistellaError::Contract(m) => crate::text::cat("contract: ", m),
            CistellaError::Protocol(m) => crate::text::cat("protocol: ", m),
            CistellaError::Identity(m) => crate::text::cat("identity: ", m),
            CistellaError::Preflight(m) => crate::text::cat("preflight: ", m),
            CistellaError::LockContended => "lock contended".to_owned(),
            CistellaError::Selector(m) => crate::text::cat("selector: ", m),
            CistellaError::Detached(m) => crate::text::cat("detached: ", m),
            CistellaError::Io(m) => m.clone(),
        }
    }

    /// The message without its class prefix.
    pub fn message(&self) -> (text: String)
        ensures
            text@ == self@.inner(),
    {
        match self {
            CistellaError::Profile(m) => m.clone(),
            CistellaError::Mount(m) => m.clone(),
            CistellaError::Runtime(m) => m.clone(),
            CistellaError::Transport(m) => m.clone(),
            CistellaError::Contract(m) => m.clone(),
            CistellaError::Protocol(m) => m.clone(),
            CistellaError::Identity(m) => m.clone(),
            CistellaError::Preflight(m) => m.clone(),
            CistellaError::LockContended => "lock contended".to_owned(),
            CistellaError::Selector(m) => m.clone(),
            CistellaError::Detached(m) => m.clone(),
            CistellaError::Io(m) => m.clone(),
        }
    }
}

/// An error is rendered as its class and its message; one of the system is
/// its message alone.
pub proof fn law_errors_render_class_and_message(m: Seq<char>)
    ensures
        ErrorView::Profile(m).rendered() == "profile: "@ + m,
        ErrorView::Mount(m).rendered() == "mount: "@ + m,
        ErrorView::Runtime(m).rendered() == "runtime: "@ + m,
        ErrorView::Transport(m).rendered() == "transport: "@ + m,
        ErrorView::Contract(m).rendered() == "contract: "@ + m,
        ErrorView::Protocol(m).rendered() == "protocol: "@ + m,
        ErrorView::Identity(m).rendered() == "identity: "@ + m,
        ErrorView::Preflight(m).rendered() == "preflight: "@ + m,
        ErrorView::LockContended.rendered() == "lock contended"@,
        ErrorView::Selector(m).rendered() == "selector: "@ + m,
        ErrorView::Detached(m).rendered() == "detached: "@ + m,
        ErrorView::Io(m).rendered() == m,
{
}

/// A rendered error ends in its message.
pub proof fn law_rendered_errors_end_in_their_message(e: ErrorView)
    ensures
        e.inner().is_suffix_of(e.rendered()),
{
    let m = e.inner();
    let r = e.rendered();
    assert(m =~= r.subrange(r.len() - m.len(), r.len() as int));
}

/// A view says what the fields hold, each under its own name.
pub proof fn law_views_say_the_fields(
    cistella_error: CistellaError,
)
    ensures
        cistella_error matches CistellaError::Profile(m) ==> cistella_error.view() == ErrorView::Profile(m@),
        cistella_error matches CistellaError::Mount(m) ==> cistella_error.view() == ErrorView::Mount(m@),
        cistella_error matches CistellaError::Runtime(m) ==> cistella_error.view() == ErrorView::Runtime(m@),
        cistella_error matches CistellaError::Transport(m) ==> cistella_error.view() == ErrorView::Transport(m@),
        cistella_error matches CistellaError::Contract(m) ==> cistella_error.view() == ErrorView::Contract(m@),
        cistella_error matches CistellaError::Protocol(m) ==> cistella_error.view() == ErrorView::Protocol(m@),
        cistella_error matches CistellaError::Identity(m) ==> cistella_error.view() == ErrorView::Identity(m@),
        cistella_error matches CistellaError::Preflight(m) ==> cistella_error.view() == ErrorView::Preflight(m@),
        cistella_error matches CistellaError::LockContended ==> cistella_error.view() == ErrorView::LockContended,
        cistella_error matches CistellaError::Selector(m) ==> cistella_error.view() == ErrorView::Selector(m@),
        cistella_error matches CistellaError::Detached(m) ==> cistella_error.view() == ErrorView::Detached(m@),
        cistella_error matches CistellaError::Io(m) ==> cistella_error.view() == ErrorView::Io(m@),
{
}

} // verus!
