//! Credential seam: strict handle variants, never values.
//!
//! Credential contributions use handle variants only. Each admitted kind
//! declares a bounded locator grammar with a namespace and framework-owned
//! resolution locality. Diagnostics name the handle kind and locator class,
//! never content.
//!
//! Two kinds exist:
//!
//! - `opaque-reference`: framework-issued opaque identifier; resolution
//!   locality is the issuing framework instance.
//! - `seat-socket`: bounded absolute-path locator into the framework-owned
//!   seat runtime directory; paths escaping it refuse.

use vstd::prelude::*;

use crate::error::{CistellaError, ErrorView, Result};
use crate::path;
use crate::text;

verus! {

/// Maximum locator string length in bytes (oversize refuses before use).
pub const MAX_LOCATOR_LEN: usize = 1024;

/// Seat runtime directory anchor for `seat-socket` locators.
///
/// Resolution locality: locators stay under this directory after lexical
/// normalization; anything else refuses.
pub const SEAT_RUNTIME_DIR: &'static str = "/run/cistella/seats";

/// Credential handle variants: the only admissible shapes.
#[derive(Debug)]
pub enum CredentialHandle {
    /// Framework-issued opaque reference.
    OpaqueReference {
        /// Opaque identifier (minted shape, never user-chosen).
        id: String,
    },
    /// Bounded socket path inside the framework-owned seat dir.
    SeatSocket {
        /// Absolute socket path under [`SEAT_RUNTIME_DIR`].
        path: String,
    },
}

/// What a handle says.
pub enum HandleView {
    OpaqueReference(Seq<char>),
    SeatSocket(Seq<char>),
}

impl DeepView for CredentialHandle {
    type V = HandleView;

    open spec fn deep_view(&self) -> HandleView {
        match *self {
            CredentialHandle::OpaqueReference { id } => HandleView::OpaqueReference(id@),
            CredentialHandle::SeatSocket { path } => HandleView::SeatSocket(path@),
        }
    }
}

/// Validated credential contribution: kind plus redacted locator class.
#[derive(Debug, Clone, Copy)]
pub struct AdmittedCredential {
    /// Handle kind name for diagnostics.
    pub kind: &'static str,
    /// Locator class (never content): `opaque-id` or `seat-socket`.
    pub locator_class: &'static str,
}

impl DeepView for AdmittedCredential {
    type V = (Seq<char>, Seq<char>);

    open spec fn deep_view(&self) -> (Seq<char>, Seq<char>) {
        (self.kind@, self.locator_class@)
    }
}

/// Opaque identifier grammar (framework-minted shape): `[a-z0-9]{1,128}`.
pub open spec fn opaque_id(s: Seq<char>) -> bool {
    1 <= s.len() <= 128 && text::all_in_class(s, false, true, true, ""@)
}

/// Socket filename grammar inside the seat directory:
/// `[A-Za-z0-9_.-]{1,128}`.
pub open spec fn socket_name(s: Seq<char>) -> bool {
    1 <= s.len() <= 128 && text::all_in_class(s, true, true, true, "_.-"@)
}

/// A refusal that names the kind and locator class alone.
pub open spec fn refused(m: Seq<char>) -> std::result::Result<(Seq<char>, Seq<char>), ErrorView> {
    Err(ErrorView::Contract(m))
}

/// What a handle admits to: its kind and locator class.
pub open spec fn admitted(h: HandleView) -> std::result::Result<(Seq<char>, Seq<char>), ErrorView> {
    match h {
        HandleView::OpaqueReference(id) => if text::byte_len(id) > MAX_LOCATOR_LEN {
            refused("credential handle oversize: opaque-reference"@)
        } else if !opaque_id(id) {
            refused("credential handle refused: opaque-reference grammar"@)
        } else {
            Ok(("opaque-reference"@, "opaque-id"@))
        },
        HandleView::SeatSocket(p) => if text::byte_len(p) > MAX_LOCATOR_LEN {
            refused("credential handle oversize: seat-socket"@)
        } else if !path::is_absolute(p) {
            refused("credential handle refused: seat-socket must be absolute"@)
        } else if !(SEAT_RUNTIME_DIR@ + "/"@).is_prefix_of(p) {
            refused("credential handle refused: seat-socket outside seat runtime dir"@)
        } else if !socket_name(text::split(p, '/').last()) {
            refused("credential handle refused: seat-socket name grammar"@)
        } else if text::occurs("/../"@, p) || "/.."@.is_suffix_of(p) {
            refused("credential handle refused: seat-socket traversal"@)
        } else if !(SEAT_RUNTIME_DIR@ + "/"@).is_prefix_of(path::canonical(p)) {
            refused("credential handle refused: seat-socket outside seat runtime dir"@)
        } else {
            Ok(("seat-socket"@, "seat-socket"@))
        },
    }
}

fn refuse(m: &str) -> (r: Result<AdmittedCredential>)
    ensures
        crate::error::agrees(r, refused(m@)),
{
    Err(CistellaError::Contract(m.to_owned()))
}

fn char_count(s: &str) -> (n: usize)
    ensures
        n == s@.len(),
{
    text::chars_of(s).len()
}

impl CredentialHandle {
    /// Validates one handle: grammar, bounds, locality.
    ///
    /// Diagnostics name the kind and locator class, never content.
    pub fn admission(&self) -> (r: Result<AdmittedCredential>)
        ensures
            crate::error::agrees(r, admitted(self.deep_view())),
    {
        match self {
            CredentialHandle::OpaqueReference { id } => {
                let id = id.as_str();
                if text::len_bytes(id) > MAX_LOCATOR_LEN {
                    return refuse("credential handle oversize: opaque-reference");
                }
                let n: usize = char_count(id);
                if !(1 <= n && n <= 128 && text::all_in(id, false, true, true, "")) {
                    return refuse("credential handle refused: opaque-reference grammar");
                }
                Ok(AdmittedCredential { kind: "opaque-reference", locator_class: "opaque-id" })
            },
            CredentialHandle::SeatSocket { path } => {
                let p = path.as_str();
                if text::len_bytes(p) > MAX_LOCATOR_LEN {
                    return refuse("credential handle oversize: seat-socket");
                }
                if !path::absolute(p) {
                    return refuse("credential handle refused: seat-socket must be absolute");
                }
                if !text::starts_with(p, text::cat(SEAT_RUNTIME_DIR, "/").as_str()) {
                    return refuse(
                        "credential handle refused: seat-socket outside seat runtime dir",
                    );
                }
                let pieces = text::split_on(p, '/');
                proof {
                    text::lemma_split_nonempty(p@, '/');
                    assert(pieces@.len() == text::split(p@, '/').len());
                }
                let name = pieces[pieces.len() - 1].as_str();
                assert(name@ == text::split(p@, '/').last());
                let n: usize = char_count(name);
                if !(1 <= n && n <= 128 && text::all_in(name, true, true, true, "_.-")) {
                    return refuse("credential handle refused: seat-socket name grammar");
                }
                if text::contains(p, "/../") || text::ends_with(p, "/..") {
                    return refuse("credential handle refused: seat-socket traversal");
                }
                // Dots alone name the seat directory itself.
                let canon = path::canonicalize(p);
                if !text::starts_with(canon.as_str(), text::cat(SEAT_RUNTIME_DIR, "/").as_str()) {
                    return refuse(
                        "credential handle refused: seat-socket outside seat runtime dir",
                    );
                }
                Ok(AdmittedCredential { kind: "seat-socket", locator_class: "seat-socket" })
            },
        }
    }
}

/// Admissions of a batch, or its first refusal.
pub open spec fn all_admitted(handles: Seq<HandleView>) -> std::result::Result<
    Seq<(Seq<char>, Seq<char>)>,
    ErrorView,
>
    decreases handles.len(),
{
    if handles.len() == 0 {
        Ok(Seq::empty())
    } else {
        match all_admitted(handles.drop_last()) {
            Err(e) => Err(e),
            Ok(head) => match admitted(handles.last()) {
                Err(e) => Err(e),
                Ok(a) => Ok(head.push(a)),
            },
        }
    }
}

proof fn lemma_all_admitted_error(handles: Seq<HandleView>, k: int)
    requires
        0 <= k <= handles.len(),
        all_admitted(handles.take(k)) is Err,
    ensures
        all_admitted(handles) == all_admitted(handles.take(k)),
    decreases handles.len() - k,
{
    if k < handles.len() {
        assert(handles.take(k + 1).drop_last() =~= handles.take(k));
        lemma_all_admitted_error(handles, k + 1);
    } else {
        assert(handles.take(k) =~= handles);
    }
}

/// Validates a batch of credential handles from one prepare response; the
/// first refusing handle refuses the batch (no partial admission).
pub fn admit_all(handles: &[CredentialHandle]) -> (r: Result<Vec<AdmittedCredential>>)
    ensures
        crate::error::agrees(r, all_admitted(handles.deep_view())),
{
    let ghost all = handles.deep_view();
    let mut out: Vec<AdmittedCredential> = Vec::new();
    let mut k: usize = 0;
    assert(all.take(0) =~= Seq::<HandleView>::empty());
    assert(out.deep_view() =~= Seq::<(Seq<char>, Seq<char>)>::empty());
    while k < handles.len()
        invariant
            all == handles.deep_view(),
            k <= handles@.len(),
            all_admitted(all.take(k as int)) == std::result::Result::<
                Seq<(Seq<char>, Seq<char>)>,
                ErrorView,
            >::Ok(out.deep_view()),
        decreases handles.len() - k,
    {
        let ghost before = out.deep_view();
        assert(all.take(k + 1).drop_last() =~= all.take(k as int));
        assert(all.take(k + 1).last() == handles@[k as int].deep_view());
        match handles[k].admission() {
            Ok(a) => {
                out.push(a);
                assert(out.deep_view() =~= before.push(a.deep_view()));
            },
            Err(e) => {
                proof {
                    lemma_all_admitted_error(all, k + 1);
                }
                return Err(e);
            },
        }
        k = k + 1;
    }
    assert(all.take(k as int) =~= all);
    Ok(out)
}

// ---------------------------------------------------------------------
// Laws
// ---------------------------------------------------------------------

/// Settles the decoding of credential handles from a wire value: an object
/// that is not exactly one of the admitted variants refuses here, before
/// grammar checks, with the decoder's message. The schema has no channel for
/// secret values.
pub fn parse_wire(decoded: std::result::Result<Vec<CredentialHandle>, String>) -> (r: Result<
    Vec<CredentialHandle>,
>)
    ensures
        match decoded {
            Ok(handles) => r == Ok::<Vec<CredentialHandle>, CistellaError>(handles),
            Err(m) => r matches Err(e) && e@ == ErrorView::Contract(
                "bad credential handle: "@ + m@,
            ),
        },
{
    match decoded {
        Ok(handles) => Ok(handles),
        Err(m) => Err(CistellaError::Contract(text::cat("bad credential handle: ", m.as_str()))),
    }
}

proof fn lemma_seat_dir_parts()
    ensures
        text::split(SEAT_RUNTIME_DIR@, '/') == seq![
            Seq::<char>::empty(),
            "run"@,
            "cistella"@,
            "seats"@,
        ],
        text::join(seq!["run"@, "cistella"@, "seats"@], "/"@) == SEAT_RUNTIME_DIR@.skip(1),
        SEAT_RUNTIME_DIR@ == "/"@ + SEAT_RUNTIME_DIR@.skip(1),
        resolve_seat() == seq!["run"@, "cistella"@, "seats"@],
{
    reveal_strlit("/run/cistella/seats");
    reveal_strlit("run");
    reveal_strlit("cistella");
    reveal_strlit("seats");
    reveal_strlit("/");
    reveal_strlit(".");
    reveal_strlit("..");
    path::lemma_slash();
    let e = Seq::<char>::empty();
    let parts = seq![e, "run"@, "cistella"@, "seats"@];
    assert(parts.drop_last() =~= seq![e, "run"@, "cistella"@]);
    assert(seq![e, "run"@, "cistella"@].drop_last() =~= seq![e, "run"@]);
    assert(seq![e, "run"@].drop_last() =~= seq![e]);
    assert(seq![e].drop_last() =~= Seq::<Seq<char>>::empty());
    reveal_with_fuel(text::join, 5);
    assert(text::join(parts, seq!['/']) =~= SEAT_RUNTIME_DIR@);
    path::lemma_split_join(parts, '/');
    let names = seq!["run"@, "cistella"@, "seats"@];
    assert(names.drop_last() =~= seq!["run"@, "cistella"@]);
    assert(seq!["run"@, "cistella"@].drop_last() =~= seq!["run"@]);
    assert(text::join(names, "/"@) =~= SEAT_RUNTIME_DIR@.skip(1));
    assert(SEAT_RUNTIME_DIR@ =~= "/"@ + SEAT_RUNTIME_DIR@.skip(1));
    assert("run"@.len() == 3 && "cistella"@.len() == 8 && "seats"@.len() == 5);
    assert("."@.len() == 1 && ".."@.len() == 2);
    reveal_with_fuel(path::resolve_parts, 5);
    assert(path::resolve_parts(parts) =~= names);
}

/// Resolved pieces of the seat runtime directory.
spec fn resolve_seat() -> Seq<Seq<char>> {
    path::resolve_parts(text::split(SEAT_RUNTIME_DIR@, '/'))
}

/// An admitted seat socket never leaves the seat runtime directory: its
/// lexically normalized path lies strictly below it.
pub proof fn law_admitted_socket_stays_in_seat_dir(p: Seq<char>)
    requires
        admitted(HandleView::SeatSocket(p)) is Ok,
    ensures
        (SEAT_RUNTIME_DIR@ + "/"@).is_prefix_of(path::canonical(p)),
        path::canonical(p).len() > (SEAT_RUNTIME_DIR@ + "/"@).len(),
{
    path::lemma_slash();
    lemma_seat_dir_parts();
    let dir = SEAT_RUNTIME_DIR@;
    let n = dir.len() as int + 1;
    let rest = p.skip(n);
    assert((dir + "/"@) =~= p.subrange(0, n));
    assert(p =~= dir + seq!['/'] + rest);
    path::lemma_split_concat(dir, rest, '/');
    let head = text::split(dir, '/');
    let tail = text::split(rest, '/');
    let all = text::split(p, '/');
    assert forall|i: int| 0 <= i < tail.len() implies #[trigger] tail[i] != ".."@ by {
        if tail[i] == ".."@ {
            let k = head.len() as int + i;
            assert(all[k] == tail[i]);
            let (a, b) = path::lemma_piece_context(p, '/', k);
            reveal_strlit("..");
            reveal_strlit("/../");
            reveal_strlit("/..");
            let at = a.len() as int - 1;
            if b.len() == 0 {
                assert(p.subrange(p.len() - 3, p.len() as int) =~= "/.."@);
            } else {
                assert(p.subrange(at, at + 4) =~= "/../"@);
                assert(text::occurs_at("/../"@, p, at));
            }
        }
    }
    path::lemma_resolve_parts_append(head, tail);
    let names = seq!["run"@, "cistella"@, "seats"@];
    let more = path::resolve_parts(tail);
    let canon = path::canonical(p);
    assert(canon == "/"@ + text::join(names + more, "/"@));
    if more.len() == 0 {
        assert(names + more =~= names);
        assert(canon == dir);
    }
    path::law_canonical_clean(p);
    let last = (names + more)[names.len() + more.len() - 1];
    assert(path::clean_piece(last) && more.last() == last);
    path::lemma_join_append(names, more, "/"@);
    assert(canon =~= dir + "/"@ + text::join(more, "/"@));
    assert((dir + "/"@) =~= canon.subrange(0, (dir + "/"@).len() as int));
    assert(text::join(more, "/"@).len() >= more.last().len());
}

/// An opaque reference is admitted exactly when it is 1 to 128 lower-case
/// letters and digits, and then as such.
pub proof fn law_opaque_references(id: Seq<char>)
    ensures
        admitted(HandleView::OpaqueReference(id)) is Ok <==> text::byte_len(id) <= 1024 && 1
            <= id.len() <= 128 && forall|i: int|
            0 <= i < id.len() ==> 'a' <= #[trigger] id[i] <= 'z' || '0' <= id[i] <= '9',
        admitted(HandleView::OpaqueReference(id)) matches Ok(x) ==> x.0 == "opaque-reference"@
            && x.1 == "opaque-id"@,
{
    reveal_strlit("");
    assert(""@ =~= Seq::<char>::empty());
    if opaque_id(id) {
        assert forall|i: int| 0 <= i < id.len() implies 'a' <= #[trigger] id[i] <= 'z' || '0'
            <= id[i] <= '9' by {
            assert(text::in_class(id[i], false, true, true, ""@));
        }
    }
}

/// A seat socket is admitted only below the seats' directory, without a
/// parent step, and under a plain name, and then as such.
pub proof fn law_seat_sockets(p: Seq<char>)
    ensures
        admitted(HandleView::SeatSocket(p)) matches Ok(x) ==> {
            &&& x.0 == "seat-socket"@ && x.1 == "seat-socket"@
            &&& "/run/cistella/seats/"@.is_prefix_of(p)
            &&& "/run/cistella/seats/"@.is_prefix_of(path::canonical(p))
            &&& !text::occurs("/../"@, p) && !"/.."@.is_suffix_of(p)
            &&& text::byte_len(p) <= 1024
            &&& crate::session::plain_name(text::split(p, '/').last())
            &&& 1 <= text::split(p, '/').last().len() <= 128
        },
        "/run/cistella/seats/"@.is_prefix_of(p) && "/run/cistella/seats/"@.is_prefix_of(
            path::canonical(p),
        ) && !text::occurs("/../"@, p) && !"/.."@.is_suffix_of(p) && text::byte_len(p) <= 1024
            && crate::session::plain_name(text::split(p, '/').last()) && 1 <= text::split(
            p,
            '/',
        ).last().len() <= 128 ==> admitted(HandleView::SeatSocket(p)) is Ok,
{
    reveal_strlit("/run/cistella/seats");
    reveal_strlit("/");
    reveal_strlit("/run/cistella/seats/");
    assert(SEAT_RUNTIME_DIR@ + "/"@ =~= "/run/cistella/seats/"@);
    if "/run/cistella/seats/"@.is_prefix_of(p) {
        assert(p.subrange(0, "/run/cistella/seats/"@.len() as int)[0] == '/');
    }
    let s = text::split(p, '/').last();
    reveal_strlit("_.-");
    let x = "_.-"@;
    assert(x =~= seq!['_', '.', '-']);
    assert forall|c: char| #[trigger] x.contains(c) <==> c == '.' || c == '_' || c == '-' by {
        if c == '_' {
            assert(x[0] == c);
        } else if c == '.' {
            assert(x[1] == c);
        } else if c == '-' {
            assert(x[2] == c);
        }
    }
    if socket_name(s) {
        assert forall|i: int| 0 <= i < s.len() implies 'A' <= #[trigger] s[i] <= 'Z' || 'a' <= s[i]
            <= 'z' || '0' <= s[i] <= '9' || s[i] == '.' || s[i] == '_' || s[i] == '-' by {
            assert(text::in_class(s[i], true, true, true, x));
        }
    }
    if crate::session::plain_name(s) {
        assert forall|i: int| 0 <= i < s.len() implies text::in_class(
            #[trigger] s[i],
            true,
            true,
            true,
            x,
        ) by {}
    }
}

/// Handles are admitted together, each in its place, or none is.
pub proof fn law_handles_are_admitted_together(handles: Seq<HandleView>)
    ensures
        all_admitted(handles) is Ok <==> forall|i: int|
            0 <= i < handles.len() ==> admitted(#[trigger] handles[i]) is Ok,
        all_admitted(handles) matches Ok(out) ==> out.len() == handles.len() && forall|i: int|
            0 <= i < handles.len() ==> admitted(handles[i]) == std::result::Result::<
                (Seq<char>, Seq<char>),
                ErrorView,
            >::Ok(#[trigger] out[i]),
    decreases handles.len(),
{
    if handles.len() > 0 {
        let t = handles.drop_last();
        law_handles_are_admitted_together(t);
        if all_admitted(handles) is Ok {
            let out = all_admitted(handles)->Ok_0;
            let head = all_admitted(t)->Ok_0;
            assert forall|i: int| 0 <= i < handles.len() implies admitted(handles[i])
                == std::result::Result::<(Seq<char>, Seq<char>), ErrorView>::Ok(
                #[trigger] out[i],
            ) by {
                if i < t.len() {
                    assert(t[i] == handles[i]);
                    assert(out[i] == head[i]);
                }
            }
            assert forall|i: int| 0 <= i < handles.len() implies admitted(
                #[trigger] handles[i],
            ) is Ok by {
                assert(admitted(handles[i]) == std::result::Result::<
                    (Seq<char>, Seq<char>),
                    ErrorView,
                >::Ok(out[i]));
            }
        }
        if forall|i: int| 0 <= i < handles.len() ==> admitted(#[trigger] handles[i]) is Ok {
            assert forall|i: int| 0 <= i < t.len() implies admitted(#[trigger] t[i]) is Ok by {
                assert(t[i] == handles[i]);
            }
            assert(admitted(handles[handles.len() - 1]) is Ok);
        }
    }
}

/// A view says what the fields hold, each under its own name.
pub proof fn law_views_say_the_fields(
    credential_handle: CredentialHandle,
    admitted_credential: AdmittedCredential,
)
    ensures
        credential_handle matches CredentialHandle::OpaqueReference { id } ==> credential_handle.deep_view() == HandleView::OpaqueReference(id@),
        credential_handle matches CredentialHandle::SeatSocket { path } ==> credential_handle.deep_view() == HandleView::SeatSocket(path@),
        admitted_credential.deep_view() == (admitted_credential.kind@, admitted_credential.locator_class@),
{
}

} // verus!
