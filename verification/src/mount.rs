//! Allowlist-only mount triples with two-tier topology.

use vstd::prelude::*;

use crate::error::{CistellaError, ErrorView, Result};
use crate::order;
use crate::path;
use crate::text;

verus! {

/// Mount mode.
#[derive(Debug, Clone, Copy, PartialEq, Eq, Structural)]
pub enum MountMode {
    /// Read-only.
    Ro,
    /// Read-write.
    Rw,
}

impl DeepView for MountMode {
    type V = MountMode;

    open spec fn deep_view(&self) -> MountMode {
        *self
    }
}

/// Flag text of a mode.
pub open spec fn mode_text(mode: MountMode) -> Seq<char> {
    match mode {
        MountMode::Ro => "ro"@,
        MountMode::Rw => "rw"@,
    }
}

/// What a mode flag parses to.
pub open spec fn parsed_mode(s: Seq<char>) -> std::result::Result<MountMode, ErrorView> {
    if s == "ro"@ {
        Ok(MountMode::Ro)
    } else if s == "rw"@ {
        Ok(MountMode::Rw)
    } else {
        Err(ErrorView::Mount("mode must be ro or rw: "@ + s))
    }
}

impl MountMode {
    /// Flag text (`ro`/`rw`).
    #[must_use]
    pub fn as_flag(self) -> (s: &'static str)
        ensures
            s@ == mode_text(self),
    {
        match self {
            MountMode::Ro => "ro",
            MountMode::Rw => "rw",
        }
    }

    /// Parses a mode flag (`ro`/`rw`); anything else is a mount error.
    pub fn parse_flag(s: &str) -> (r: Result<Self>)
        ensures
            crate::error::agrees(r, parsed_mode(s@)),
    {
        if text::eq(s, "ro") {
            Ok(MountMode::Ro)
        } else if text::eq(s, "rw") {
            Ok(MountMode::Rw)
        } else {
            Err(CistellaError::Mount(text::cat("mode must be ro or rw: ", s)))
        }
    }
}

/// Single allowlist triple `(host-source, container-target, mode)`.
#[derive(Debug)]
pub struct MountTriple {
    /// Host path.
    pub host_source: String,
    /// Container path.
    pub container_target: String,
    /// Mode.
    pub mode: MountMode,
}

/// What a triple says.
pub struct TripleView {
    pub host: Seq<char>,
    pub target: Seq<char>,
    pub mode: MountMode,
}

impl DeepView for MountTriple {
    type V = TripleView;

    open spec fn deep_view(&self) -> TripleView {
        TripleView { host: self.host_source@, target: self.container_target@, mode: self.mode }
    }
}

impl Clone for MountTriple {
    fn clone(&self) -> (r: Self)
        ensures
            r.deep_view() == self.deep_view(),
    {
        MountTriple {
            host_source: self.host_source.clone(),
            container_target: self.container_target.clone(),
            mode: self.mode,
        }
    }
}

/// A copy of a list of triples.
pub fn copy_triples(list: &[MountTriple]) -> (out: Vec<MountTriple>)
    ensures
        out.deep_view() == list.deep_view(),
{
    let ghost all = list.deep_view();
    let mut out: Vec<MountTriple> = Vec::new();
    let mut i: usize = 0;
    while i < list.len()
        invariant
            all == list.deep_view(),
            i <= list@.len(),
            out.deep_view() =~= all.take(i as int),
        decreases list.len() - i,
    {
        let ghost before = out.deep_view();
        out.push(list[i].clone());
        assert(out.deep_view() =~= before.push(all[i as int]));
        i = i + 1;
    }
    out
}

/// What a `--mount` argument parses to.
pub open spec fn parsed_triple(s: Seq<char>) -> std::result::Result<TripleView, ErrorView> {
    let p = text::split(s, ':');
    if p.len() != 3 {
        Err(ErrorView::Mount("--mount must be <host>:<target>:<mode>: "@ + s))
    } else if p[0].len() == 0 || p[1].len() == 0 {
        Err(ErrorView::Mount("--mount host and target must be non-empty: "@ + s))
    } else {
        match parsed_mode(p[2]) {
            Ok(mode) => Ok(TripleView { host: p[0], target: p[1], mode }),
            Err(e) => Err(e),
        }
    }
}

/// Parses a CLI `--mount <host>:<target>:<mode>` item into a triple.
///
/// Structural parse only (three colon-separated parts, non-empty paths,
/// valid mode); full validation happens in [`validate_mounts`]. Host paths
/// containing `:` cannot be expressed.
pub fn parse_mount_triple(s: &str) -> (r: Result<MountTriple>)
    ensures
        crate::error::agrees(r, parsed_triple(s@)),
{
    let parts = text::split_on(s, ':');
    assert(parts@.len() == text::split(s@, ':').len());
    if parts.len() != 3 {
        return Err(
            CistellaError::Mount(text::cat("--mount must be <host>:<target>:<mode>: ", s)),
        );
    }
    assert(forall|i: int| 0 <= i < 3 ==> text::split(s@, ':')[i] == (#[trigger] parts@[i])@);
    if parts[0].as_str().is_empty() || parts[1].as_str().is_empty() {
        return Err(
            CistellaError::Mount(text::cat("--mount host and target must be non-empty: ", s)),
        );
    }
    match MountMode::parse_flag(parts[2].as_str()) {
        Ok(mode) => Ok(
            MountTriple {
                host_source: parts[0].clone(),
                container_target: parts[1].clone(),
                mode,
            },
        ),
        Err(e) => Err(e),
    }
}

/// `--mount` text of a triple.
pub open spec fn mount_argument(t: TripleView) -> Seq<char> {
    t.host + ":"@ + t.target + ":"@ + mode_text(t.mode)
}

/// A mode parses back from its flag.
pub proof fn law_mode_flags_round_trip(mode: MountMode)
    ensures
        parsed_mode(mode_text(mode)) == std::result::Result::<MountMode, ErrorView>::Ok(mode),
{
    reveal_strlit("ro");
    reveal_strlit("rw");
    assert("ro"@[1] == 'o' && "rw"@[1] == 'w');
}

/// A `--mount` argument says its triple exactly: nothing is dropped or made
/// up, and a path with a colon cannot be written.
pub proof fn law_mount_arguments_are_faithful(s: Seq<char>, t: TripleView)
    requires
        parsed_triple(s) == std::result::Result::<TripleView, ErrorView>::Ok(t),
    ensures
        s == mount_argument(t),
        t.host.len() > 0 && !t.host.contains(':'),
        t.target.len() > 0 && !t.target.contains(':'),
{
    reveal_strlit(":");
    assert(":"@ =~= seq![':']);
    let p = text::split(s, ':');
    text::lemma_split_pieces(s, ':');
    assert(!p[0].contains(':') && !p[1].contains(':'));
    path::lemma_join_split(s, ':');
    let two = p.drop_last();
    let one = two.drop_last();
    assert(text::join(one, seq![':']) == p[0]);
    assert(text::join(two, seq![':']) == p[0] + seq![':'] + p[1]);
    assert(s == p[0] + seq![':'] + p[1] + seq![':'] + p[2]);
}

/// Every triple whose paths are non-empty and free of colons can be given
/// as a `--mount` argument, and parses back from it.
pub proof fn law_mount_arguments_round_trip(t: TripleView)
    requires
        t.host.len() > 0 && !t.host.contains(':'),
        t.target.len() > 0 && !t.target.contains(':'),
    ensures
        parsed_triple(mount_argument(t)) == std::result::Result::<TripleView, ErrorView>::Ok(t),
{
    reveal_strlit(":");
    reveal_strlit("ro");
    reveal_strlit("rw");
    assert(":"@ =~= seq![':']);
    let flag = mode_text(t.mode);
    assert(!flag.contains(':'));
    let parts = seq![t.host, t.target, flag];
    path::lemma_split_join(parts, ':');
    let two = parts.drop_last();
    let one = two.drop_last();
    assert(text::join(one, seq![':']) == t.host);
    assert(text::join(two, seq![':']) == t.host + seq![':'] + t.target);
    assert(text::join(parts, seq![':']) == mount_argument(t));
    law_mode_flags_round_trip(t.mode);
}

/// Host and container side of a session directory argument.
pub open spec fn session_directory_sides(s: Seq<char>) -> (Seq<char>, Seq<char>) {
    if s.contains(':') {
        (s.take(text::first_index(s, ':')), s.skip(text::first_index(s, ':') + 1))
    } else {
        (s, "/work"@)
    }
}

/// What a `--session-directory` argument parses to.
pub open spec fn parsed_session_directory(s: Seq<char>) -> std::result::Result<
    (Seq<char>, Seq<char>),
    ErrorView,
> {
    let (host, target) = session_directory_sides(s);
    if host.len() == 0 {
        Err(ErrorView::Mount("session directory host must be non-empty: "@ + s))
    } else if target.len() == 0 {
        Err(ErrorView::Mount("session directory container target must be non-empty: "@ + s))
    } else if !path::is_absolute(target) {
        Err(ErrorView::Mount("session directory container target must be absolute: "@ + s))
    } else {
        Ok((host, target))
    }
}

/// Parses `--session-directory <host>[:<container>]` into host and target.
///
/// The container side defaults to `/work` when omitted. Host absoluteness
/// is checked by the caller.
pub fn parse_session_directory(s: &str) -> (r: Result<(String, String)>)
    ensures
        crate::error::agrees(r, parsed_session_directory(s@)),
{
    let (host, target) = match text::split_once(s, ':') {
        Some(p) => (p.0, p.1),
        None => (s.to_owned(), "/work".to_owned()),
    };
    if host.as_str().is_empty() {
        return Err(
            CistellaError::Mount(text::cat("session directory host must be non-empty: ", s)),
        );
    }
    if target.as_str().is_empty() {
        return Err(
            CistellaError::Mount(
                text::cat("session directory container target must be non-empty: ", s),
            ),
        );
    }
    if !path::absolute(target.as_str()) {
        return Err(
            CistellaError::Mount(
                text::cat("session directory container target must be absolute: ", s),
            ),
        );
    }
    Ok((host, target))
}

/// Whether an ancestor/descendant pair may stack: the ancestor is
/// read-only (deepest mount wins either way).
pub open spec fn may_stack(
    canon_a: Seq<char>,
    mode_a: MountMode,
    canon_b: Seq<char>,
    mode_b: MountMode,
) -> bool {
    if canon_a == canon_b {
        false
    } else if path::ancestor_or_equal(canon_a, canon_b) {
        mode_a == MountMode::Ro
    } else if path::ancestor_or_equal(canon_b, canon_a) {
        mode_b == MountMode::Ro
    } else {
        false
    }
}

/// Whether two paths are related by ancestry.
pub open spec fn related(a: Seq<char>, b: Seq<char>) -> bool {
    path::ancestor_or_equal(a, b) || path::ancestor_or_equal(b, a)
}

fn overlap_allowed(canon_a: &str, mode_a: MountMode, canon_b: &str, mode_b: MountMode) -> (b: bool)
    ensures
        b == may_stack(canon_a@, mode_a, canon_b@, mode_b),
{
    if text::eq(canon_a, canon_b) {
        false
    } else if path::is_ancestor_or_equal(canon_a, canon_b) {
        mode_a == MountMode::Ro
    } else if path::is_ancestor_or_equal(canon_b, canon_a) {
        mode_b == MountMode::Ro
    } else {
        false
    }
}

/// First fault of the CLI triples among themselves, from index `k` on: a
/// target named twice, or the worktree target.
pub open spec fn cli_fault(cli: Seq<TripleView>, worktree: Seq<char>, k: int) -> Option<ErrorView>
    decreases cli.len() - k,
{
    if k < 0 || k >= cli.len() {
        None
    } else {
        let canon = path::canonical(cli[k].target);
        if exists|j: int| 0 <= j < k && path::canonical((#[trigger] cli[j]).target) == canon {
            Some(ErrorView::Mount("duplicate --mount target: "@ + cli[k].target))
        } else if canon == path::canonical(worktree) {
            Some(
                ErrorView::Mount(
                    "--mount target "@ + cli[k].target
                        + " equals the worktree target; use --session-directory"@,
                ),
            )
        } else {
            cli_fault(cli, worktree, k + 1)
        }
    }
}

/// Index of the first triple at or after `k` with the canonical target, or
/// -1.
pub open spec fn target_position(ts: Seq<TripleView>, canon: Seq<char>, k: int) -> int
    decreases ts.len() - k,
{
    if k < 0 || k >= ts.len() {
        -1
    } else if path::canonical(ts[k].target) == canon {
        k
    } else {
        target_position(ts, canon, k + 1)
    }
}

/// First profile triple at or after `k` that a CLI triple overlaps without
/// the read-only rule allowing it.
pub open spec fn profile_overlap(profile: Seq<TripleView>, t: TripleView, k: int) -> Option<
    ErrorView,
>
    decreases profile.len() - k,
{
    if k < 0 || k >= profile.len() {
        None
    } else {
        let p = profile[k];
        let a = path::canonical(p.target);
        let b = path::canonical(t.target);
        if a != b && related(a, b) && !may_stack(a, p.mode, b, t.mode) {
            Some(
                ErrorView::Mount(
                    "--mount "@ + t.target + " partially overlaps profile mount "@ + p.target,
                ),
            )
        } else {
            profile_overlap(profile, t, k + 1)
        }
    }
}

/// `merged` after the CLI triples from index `k` on.
pub open spec fn merge_from(
    profile: Seq<TripleView>,
    cli: Seq<TripleView>,
    k: int,
    merged: Seq<TripleView>,
) -> std::result::Result<Seq<TripleView>, ErrorView>
    decreases cli.len() - k,
{
    if k < 0 || k >= cli.len() {
        Ok(merged)
    } else {
        let t = cli[k];
        let at = target_position(merged, path::canonical(t.target), 0);
        match profile_overlap(profile, t, 0) {
            Some(e) => Err(e),
            None => if at >= 0 {
                merge_from(profile, cli, k + 1, merged.update(at, t))
            } else {
                merge_from(profile, cli, k + 1, merged.push(t))
            },
        }
    }
}

/// Profile triples with the CLI triples laid over them.
pub open spec fn merged_mounts(
    profile: Seq<TripleView>,
    cli: Seq<TripleView>,
    worktree: Seq<char>,
) -> std::result::Result<Seq<TripleView>, ErrorView> {
    match cli_fault(cli, worktree, 0) {
        Some(e) => Err(e),
        None => merge_from(profile, cli, 0, profile),
    }
}

fn check_cli(cli: &[MountTriple], worktree_target: &str) -> (r: Result<()>)
    ensures
        match cli_fault(cli.deep_view(), worktree_target@, 0) {
            Some(e) => r matches Err(x) && x@ == e,
            None => r is Ok,
        },
{
    let canon_worktree = path::canonicalize(worktree_target);
    let ghost all = cli.deep_view();
    let mut seen: Vec<String> = Vec::new();
    let mut k: usize = 0;
    while k < cli.len()
        invariant
            all == cli.deep_view(),
            canon_worktree@ == path::canonical(worktree_target@),
            k <= cli@.len(),
            seen.deep_view() =~= Seq::new(k as nat, |j: int| path::canonical(all[j].target)),
            cli_fault(all, worktree_target@, 0) == cli_fault(all, worktree_target@, k as int),
        decreases cli.len() - k,
    {
        let t = &cli[k];
        assert(all[k as int] == t.deep_view());
        let canon = path::canonicalize(t.container_target.as_str());
        let ghost before = seen.deep_view();
        if text::has_text(&seen, canon.as_str()) {
            proof {
                let j = choose|j: int| 0 <= j < before.len() && before[j] == canon@;
                assert(path::canonical(all[j].target) == canon@);
            }
            return Err(
                CistellaError::Mount(
                    text::cat("duplicate --mount target: ", t.container_target.as_str()),
                ),
            );
        }
        assert(!(exists|j: int|
            0 <= j < k && path::canonical((#[trigger] all[j]).target) == canon@)) by {
            if exists|j: int|
                0 <= j < k && path::canonical((#[trigger] all[j]).target) == canon@ {
                let j = choose|j: int|
                    0 <= j < k && path::canonical((#[trigger] all[j]).target) == canon@;
                assert(before[j] == canon@);
            }
        }
        if text::eq(canon.as_str(), canon_worktree.as_str()) {
            return Err(
                CistellaError::Mount(
                    text::cat3(
                        "--mount target ",
                        t.container_target.as_str(),
                        " equals the worktree target; use --session-directory",
                    ),
                ),
            );
        }
        seen.push(canon);
        assert(seen.deep_view() =~= before.push(path::canonical(all[k as int].target)));
        k = k + 1;
    }
    Ok(())
}

fn position_of(ts: &Vec<MountTriple>, canon: &str) -> (r: Option<usize>)
    ensures
        match r {
            Some(i) => i == target_position(ts.deep_view(), canon@, 0) && i < ts@.len(),
            None => target_position(ts.deep_view(), canon@, 0) == -1,
        },
{
    let ghost all = ts.deep_view();
    let mut k: usize = 0;
    while k < ts.len()
        invariant
            all == ts.deep_view(),
            k <= ts@.len(),
            target_position(all, canon@, 0) == target_position(all, canon@, k as int),
        decreases ts.len() - k,
    {
        assert(all[k as int] == ts@[k as int].deep_view());
        let c = path::canonicalize(ts[k].container_target.as_str());
        if text::eq(c.as_str(), canon) {
            return Some(k);
        }
        k = k + 1;
    }
    None
}

fn check_profile_overlap(profile: &[MountTriple], t: &MountTriple) -> (r: Result<()>)
    ensures
        match profile_overlap(profile.deep_view(), t.deep_view(), 0) {
            Some(e) => r matches Err(x) && x@ == e,
            None => r is Ok,
        },
{
    let ghost all = profile.deep_view();
    let ghost tv = t.deep_view();
    let canon = path::canonicalize(t.container_target.as_str());
    let mut k: usize = 0;
    while k < profile.len()
        invariant
            all == profile.deep_view(),
            tv == t.deep_view(),
            canon@ == path::canonical(tv.target),
            k <= profile@.len(),
            profile_overlap(all, tv, 0) == profile_overlap(all, tv, k as int),
        decreases profile.len() - k,
    {
        let p = &profile[k];
        assert(all[k as int] == p.deep_view());
        let a = path::canonicalize(p.container_target.as_str());
        if !text::eq(a.as_str(), canon.as_str()) && (path::is_ancestor_or_equal(
            a.as_str(),
            canon.as_str(),
        ) || path::is_ancestor_or_equal(canon.as_str(), a.as_str())) && !overlap_allowed(
            a.as_str(),
            p.mode,
            canon.as_str(),
            t.mode,
        ) {
            return Err(
                CistellaError::Mount(
                    text::cat4(
                        "--mount ",
                        t.container_target.as_str(),
                        " partially overlaps profile mount ",
                        p.container_target.as_str(),
                    ),
                ),
            );
        }
        k = k + 1;
    }
    Ok(())
}

/// Unions CLI triples over profile triples for one conduct invocation.
///
/// Exact canonical-target matches override (CLI wins); duplicate CLI
/// targets, CLI triples on the worktree target, and ancestor/descendant
/// CLI/profile overlap outside the read-only-ancestor rule are typed
/// errors. The merged list still requires [`validate_mounts`].
pub fn merge_cli_mounts(
    profile: &[MountTriple],
    cli: &[MountTriple],
    worktree_target: &str,
) -> (r: Result<Vec<MountTriple>>)
    ensures
        crate::error::agrees(
            r,
            merged_mounts(profile.deep_view(), cli.deep_view(), worktree_target@),
        ),
{
    match check_cli(cli, worktree_target) {
        Ok(_) => {},
        Err(e) => {
            return Err(e);
        },
    }
    let ghost pv = profile.deep_view();
    let ghost cv = cli.deep_view();
    let mut merged = copy_triples(profile);
    let mut k: usize = 0;
    while k < cli.len()
        invariant
            pv == profile.deep_view(),
            cv == cli.deep_view(),
            cli_fault(cv, worktree_target@, 0) is None,
            k <= cli@.len(),
            merge_from(pv, cv, 0, pv) == merge_from(pv, cv, k as int, merged.deep_view()),
        decreases cli.len() - k,
    {
        let t = &cli[k];
        assert(cv[k as int] == t.deep_view());
        let canon = path::canonicalize(t.container_target.as_str());
        let ghost before = merged.deep_view();
        match check_profile_overlap(profile, t) {
            Ok(_) => {},
            Err(e) => {
                return Err(e);
            },
        }
        match position_of(&merged, canon.as_str()) {
            Some(at) => {
                merged.set(at, t.clone());
                assert(merged.deep_view() =~= before.update(at as int, cv[k as int]));
            },
            None => {
                merged.push(t.clone());
                assert(merged.deep_view() =~= before.push(cv[k as int]));
            },
        }
        k = k + 1;
    }
    Ok(merged)
}

// ---------------------------------------------------------------------
// Validation
// ---------------------------------------------------------------------

/// Whether a canonical path is the root directory `root` or lies below it.
pub open spec fn at_or_under(canon: Seq<char>, root: Seq<char>) -> bool {
    canon == root || (root + "/"@).is_prefix_of(canon)
}

/// System directory that a canonical path is at or under, if any.
pub open spec fn system_root(canon: Seq<char>) -> Option<Seq<char>> {
    if at_or_under(canon, "/etc"@) {
        Some("/etc"@)
    } else if at_or_under(canon, "/usr"@) {
        Some("/usr"@)
    } else if at_or_under(canon, "/bin"@) {
        Some("/bin"@)
    } else if at_or_under(canon, "/sbin"@) {
        Some("/sbin"@)
    } else if at_or_under(canon, "/lib"@) {
        Some("/lib"@)
    } else if at_or_under(canon, "/lib64"@) {
        Some("/lib64"@)
    } else {
        None
    }
}

/// Sensitive container root that a canonical target is at or under, if any.
pub open spec fn sensitive_root(canon: Seq<char>) -> Option<Seq<char>> {
    if canon == "/"@ {
        Some("/"@)
    } else {
        system_root(canon)
    }
}

/// Whether a path text holds a line break or an `=`.
pub open spec fn has_break_or_equals(s: Seq<char>) -> bool {
    s.contains('\n') || s.contains('\r') || s.contains('=')
}

/// First fault of one triple on its own.
pub open spec fn triple_fault(t: TripleView) -> Option<ErrorView> {
    if has_break_or_equals(t.host) {
        Some(ErrorView::Mount("host_source must not contain control/'=': "@ + t.host))
    } else if has_break_or_equals(t.target) {
        Some(ErrorView::Mount("container_target must not contain control/'=': "@ + t.target))
    } else if !path::is_absolute(t.host) {
        Some(ErrorView::Mount("host_source must be absolute: "@ + t.host))
    } else if !path::is_absolute(t.target) {
        Some(ErrorView::Mount("container_target must be absolute: "@ + t.target))
    } else {
        match sensitive_root(path::canonical(t.target)) {
            Some(root) => Some(
                ErrorView::Mount(
                    "container_target at or above sensitive root "@ + root + ": "@ + t.target,
                ),
            ),
            None => None,
        }
    }
}

/// Fault of the first faulty triple at or after `k`.
pub open spec fn first_triple_fault(ts: Seq<TripleView>, k: int) -> Option<ErrorView>
    decreases ts.len() - k,
{
    if k < 0 || k >= ts.len() {
        None
    } else {
        match triple_fault(ts[k]) {
            Some(e) => Some(e),
            None => first_triple_fault(ts, k + 1),
        }
    }
}

/// Canonical targets with the index of their triple, in list order.
pub open spec fn target_entries(ts: Seq<TripleView>) -> Seq<(Seq<char>, int)> {
    Seq::new(ts.len(), |i: int| (path::canonical(ts[i].target), i))
}

/// Conflict between two entries of the sorted target list: the same
/// target, or ancestry over a writable ancestor.
pub open spec fn target_conflict(
    ts: Seq<TripleView>,
    a: (Seq<char>, int),
    b: (Seq<char>, int),
) -> Option<ErrorView> {
    let ta = ts[a.1];
    let tb = ts[b.1];
    if a.0 == b.0 {
        Some(ErrorView::Mount("duplicate mount target: "@ + ta.target))
    } else if related(a.0, b.0) && !may_stack(a.0, ta.mode, b.0, tb.mode) {
        Some(ErrorView::Mount("overlapping mounts: "@ + ta.target + " and "@ + tb.target))
    } else {
        None
    }
}

/// First conflict among the pairs of sorted targets from `(i, j)` on.
pub open spec fn scan_targets(
    ts: Seq<TripleView>,
    e: Seq<(Seq<char>, int)>,
    i: int,
    j: int,
) -> Option<ErrorView>
    decreases e.len() - i, e.len() - j,
{
    if i < 0 || j < 0 || i >= e.len() {
        None
    } else if j >= e.len() {
        scan_targets(ts, e, i + 1, i + 2)
    } else {
        match target_conflict(ts, e[i], e[j]) {
            Some(x) => Some(x),
            None => scan_targets(ts, e, i, j + 1),
        }
    }
}

/// First triple at or after `k` whose target is the session home or above
/// it.
pub open spec fn home_shadow(ts: Seq<TripleView>, home: Seq<char>, k: int) -> Option<ErrorView>
    decreases ts.len() - k,
{
    if k < 0 || k >= ts.len() {
        None
    } else if path::ancestor_or_equal(path::canonical(ts[k].target), path::canonical(home)) {
        Some(
            ErrorView::Mount(
                "container_target "@ + ts[k].target + " shadows session-home "@ + home,
            ),
        )
    } else {
        home_shadow(ts, home, k + 1)
    }
}

/// Host path of triple `i`: the resolved one, else its own text.
pub open spec fn host_path(ts: Seq<TripleView>, hosts: Seq<Seq<char>>, i: int) -> Seq<char> {
    if 0 <= i < hosts.len() {
        hosts[i]
    } else {
        ts[i].host
    }
}

/// Host paths, by components, with the index of their triple.
pub open spec fn host_entries(ts: Seq<TripleView>, hosts: Seq<Seq<char>>) -> Seq<
    (Seq<Seq<char>>, int),
> {
    Seq::new(ts.len(), |i: int| (path::components(host_path(ts, hosts, i)), i))
}

/// Whether a host pair may stack: the ancestor triple is read-only.
pub open spec fn hosts_may_stack(
    a: Seq<Seq<char>>,
    mode_a: MountMode,
    b: Seq<Seq<char>>,
    mode_b: MountMode,
) -> bool {
    if b.is_prefix_of(a) {
        mode_b == MountMode::Ro
    } else if a.is_prefix_of(b) {
        mode_a == MountMode::Ro
    } else {
        false
    }
}

/// Conflict between two entries of the sorted host list.
pub open spec fn host_conflict(
    ts: Seq<TripleView>,
    hosts: Seq<Seq<char>>,
    a: (Seq<Seq<char>>, int),
    b: (Seq<Seq<char>>, int),
) -> Option<ErrorView> {
    if a.0 == b.0 || ((b.0.is_prefix_of(a.0) || a.0.is_prefix_of(b.0)) && !hosts_may_stack(
        a.0,
        ts[a.1].mode,
        b.0,
        ts[b.1].mode,
    )) {
        Some(
            ErrorView::Mount(
                "overlapping host_sources after canonicalize: "@ + host_path(ts, hosts, a.1)
                    + " and "@ + host_path(ts, hosts, b.1),
            ),
        )
    } else {
        None
    }
}

/// First conflict among the pairs of sorted hosts from `(i, j)` on.
pub open spec fn scan_hosts(
    ts: Seq<TripleView>,
    hosts: Seq<Seq<char>>,
    e: Seq<(Seq<Seq<char>>, int)>,
    i: int,
    j: int,
) -> Option<ErrorView>
    decreases e.len() - i, e.len() - j,
{
    if i < 0 || j < 0 || i >= e.len() {
        None
    } else if j >= e.len() {
        scan_hosts(ts, hosts, e, i + 1, i + 2)
    } else {
        match host_conflict(ts, hosts, e[i], e[j]) {
            Some(x) => Some(x),
            None => scan_hosts(ts, hosts, e, i, j + 1),
        }
    }
}

/// Targets in ascending order, with their triples.
pub open spec fn sorted_targets(ts: Seq<TripleView>) -> Seq<(Seq<char>, int)> {
    order::stable_sort(target_entries(ts), order::by_key::<String>())
}

/// Host paths in ascending order, with their triples.
pub open spec fn sorted_hosts(ts: Seq<TripleView>, hosts: Seq<Seq<char>>) -> Seq<
    (Seq<Seq<char>>, int),
> {
    order::stable_sort(host_entries(ts, hosts), order::by_key::<Vec<String>>())
}

/// First fault of a mount list: each triple on its own, then targets
/// against each other, then the session home, then host paths against each
/// other.
pub open spec fn mounts_fault(
    ts: Seq<TripleView>,
    home: Seq<char>,
    hosts: Seq<Seq<char>>,
) -> Option<ErrorView> {
    match first_triple_fault(ts, 0) {
        Some(e) => Some(e),
        None => match scan_targets(ts, sorted_targets(ts), 0, 1) {
            Some(e) => Some(e),
            None => match home_shadow(ts, home, 0) {
                Some(e) => Some(e),
                None => scan_hosts(ts, hosts, sorted_hosts(ts, hosts), 0, 1),
            },
        },
    }
}

fn is_at_or_under(canon: &str, root: &str) -> (b: bool)
    ensures
        b == at_or_under(canon@, root@),
{
    text::eq(canon, root) || text::starts_with(canon, text::cat(root, "/").as_str())
}

/// System directory that a canonical path is at or under, if any.
pub fn system_root_of(canon: &str) -> (r: Option<&'static str>)
    ensures
        match r {
            Some(x) => system_root(canon@) == Some(x@),
            None => system_root(canon@) is None,
        },
{
    if is_at_or_under(canon, "/etc") {
        Some("/etc")
    } else if is_at_or_under(canon, "/usr") {
        Some("/usr")
    } else if is_at_or_under(canon, "/bin") {
        Some("/bin")
    } else if is_at_or_under(canon, "/sbin") {
        Some("/sbin")
    } else if is_at_or_under(canon, "/lib") {
        Some("/lib")
    } else if is_at_or_under(canon, "/lib64") {
        Some("/lib64")
    } else {
        None
    }
}

fn breaks_or_equals(s: &str) -> (b: bool)
    ensures
        b == has_break_or_equals(s@),
{
    text::has_char(s, '\n') || text::has_char(s, '\r') || text::has_char(s, '=')
}

fn check_triple(t: &MountTriple) -> (r: Result<()>)
    ensures
        match triple_fault(t.deep_view()) {
            Some(e) => r matches Err(x) && x@ == e,
            None => r is Ok,
        },
{
    let host = t.host_source.as_str();
    let target = t.container_target.as_str();
    if breaks_or_equals(host) {
        return Err(
            CistellaError::Mount(text::cat("host_source must not contain control/'=': ", host)),
        );
    }
    if breaks_or_equals(target) {
        return Err(
            CistellaError::Mount(
                text::cat("container_target must not contain control/'=': ", target),
            ),
        );
    }
    if !path::absolute(host) {
        return Err(CistellaError::Mount(text::cat("host_source must be absolute: ", host)));
    }
    if !path::absolute(target) {
        return Err(CistellaError::Mount(text::cat("container_target must be absolute: ", target)));
    }
    let canon = path::canonicalize(target);
    let root = if text::eq(canon.as_str(), "/") {
        Some("/")
    } else {
        system_root_of(canon.as_str())
    };
    match root {
        Some(root) => Err(
            CistellaError::Mount(
                text::cat4("container_target at or above sensitive root ", root, ": ", target),
            ),
        ),
        None => Ok(()),
    }
}

fn check_targets(triples: &[MountTriple]) -> (r: Result<()>)
    ensures
        match scan_targets(triples.deep_view(), sorted_targets(triples.deep_view()), 0, 1) {
            Some(e) => r matches Err(x) && x@ == e,
            None => r is Ok,
        },
{
    let ghost ts = triples.deep_view();
    let mut entries: Vec<(String, usize)> = Vec::new();
    let mut k: usize = 0;
    while k < triples.len()
        invariant
            ts == triples.deep_view(),
            k <= triples@.len(),
            order::entries_view(entries@) =~= target_entries(ts).take(k as int),
        decreases triples.len() - k,
    {
        let ghost before = order::entries_view(entries@);
        assert(ts[k as int] == triples@[k as int].deep_view());
        entries.push((path::canonicalize(triples[k].container_target.as_str()), k));
        assert(order::entries_view(entries@) =~= before.push(target_entries(ts)[k as int]));
        k = k + 1;
    }
    assert(order::entries_view(entries@) =~= target_entries(ts));
    let sorted = order::sort_entries(entries);
    let ghost e = sorted_targets(ts);
    proof {
        order::lemma_stable_sort_members(target_entries(ts), order::by_key::<String>());
        lemma_target_indices(ts);
    }
    let mut i: usize = 0;
    while i < sorted.len()
        invariant
            ts == triples.deep_view(),
            e == order::entries_view(sorted@),
            e == sorted_targets(ts),
            i <= sorted@.len(),
            forall|p: int| 0 <= p < e.len() ==> 0 <= (#[trigger] e[p]).1 < ts.len(),
            scan_targets(ts, e, 0, 1) == scan_targets(ts, e, i as int, i + 1),
        decreases sorted.len() - i,
    {
        let mut j: usize = i + 1;
        while j < sorted.len()
            invariant
                ts == triples.deep_view(),
                e == order::entries_view(sorted@),
                e == sorted_targets(ts),
                i < j <= sorted@.len(),
                forall|p: int| 0 <= p < e.len() ==> 0 <= (#[trigger] e[p]).1 < ts.len(),
                scan_targets(ts, e, 0, 1) == scan_targets(ts, e, i as int, j as int),
            decreases sorted.len() - j,
        {
            assert(e[i as int] == (sorted@[i as int].0@, sorted@[i as int].1 as int));
            assert(e[j as int] == (sorted@[j as int].0@, sorted@[j as int].1 as int));
            let ca = sorted[i].0.as_str();
            let cb = sorted[j].0.as_str();
            let ta = &triples[sorted[i].1];
            let tb = &triples[sorted[j].1];
            assert(ts[e[i as int].1] == ta.deep_view());
            assert(ts[e[j as int].1] == tb.deep_view());
            if text::eq(ca, cb) {
                return Err(
                    CistellaError::Mount(
                        text::cat("duplicate mount target: ", ta.container_target.as_str()),
                    ),
                );
            }
            if (path::is_ancestor_or_equal(ca, cb) || path::is_ancestor_or_equal(cb, ca))
                && !overlap_allowed(ca, ta.mode, cb, tb.mode) {
                return Err(
                    CistellaError::Mount(
                        text::cat4(
                            "overlapping mounts: ",
                            ta.container_target.as_str(),
                            " and ",
                            tb.container_target.as_str(),
                        ),
                    ),
                );
            }
            j = j + 1;
        }
        i = i + 1;
    }
    Ok(())
}

fn check_home(triples: &[MountTriple], container_home: &str) -> (r: Result<()>)
    ensures
        match home_shadow(triples.deep_view(), container_home@, 0) {
            Some(e) => r matches Err(x) && x@ == e,
            None => r is Ok,
        },
{
    let ghost ts = triples.deep_view();
    let canon_home = path::canonicalize(container_home);
    let mut k: usize = 0;
    while k < triples.len()
        invariant
            ts == triples.deep_view(),
            canon_home@ == path::canonical(container_home@),
            k <= triples@.len(),
            home_shadow(ts, container_home@, 0) == home_shadow(ts, container_home@, k as int),
        decreases triples.len() - k,
    {
        assert(ts[k as int] == triples@[k as int].deep_view());
        let canon = path::canonicalize(triples[k].container_target.as_str());
        if path::is_ancestor_or_equal(canon.as_str(), canon_home.as_str()) {
            return Err(
                CistellaError::Mount(
                    text::cat4(
                        "container_target ",
                        triples[k].container_target.as_str(),
                        " shadows session-home ",
                        container_home,
                    ),
                ),
            );
        }
        k = k + 1;
    }
    Ok(())
}

fn host_path_of<'a>(triples: &'a [MountTriple], hosts: &'a [String], i: usize) -> (s: &'a str)
    requires
        i < triples@.len(),
    ensures
        s@ == host_path(triples.deep_view(), hosts.deep_view(), i as int),
{
    if i < hosts.len() {
        hosts[i].as_str()
    } else {
        triples[i].host_source.as_str()
    }
}

fn check_hosts(triples: &[MountTriple], hosts: &[String]) -> (r: Result<()>)
    ensures
        match scan_hosts(
            triples.deep_view(),
            hosts.deep_view(),
            sorted_hosts(triples.deep_view(), hosts.deep_view()),
            0,
            1,
        ) {
            Some(e) => r matches Err(x) && x@ == e,
            None => r is Ok,
        },
{
    let ghost ts = triples.deep_view();
    let ghost hs = hosts.deep_view();
    let mut entries: Vec<(Vec<String>, usize)> = Vec::new();
    let mut k: usize = 0;
    while k < triples.len()
        invariant
            ts == triples.deep_view(),
            hs == hosts.deep_view(),
            k <= triples@.len(),
            order::entries_view(entries@) =~= host_entries(ts, hs).take(k as int),
        decreases triples.len() - k,
    {
        let ghost before = order::entries_view(entries@);
        entries.push((path::components_of(host_path_of(triples, hosts, k)), k));
        assert(order::entries_view(entries@) =~= before.push(host_entries(ts, hs)[k as int]));
        k = k + 1;
    }
    assert(order::entries_view(entries@) =~= host_entries(ts, hs));
    let sorted = order::sort_entries(entries);
    let ghost e = sorted_hosts(ts, hs);
    proof {
        order::lemma_stable_sort_members(host_entries(ts, hs), order::by_key::<Vec<String>>());
        lemma_host_indices(ts, hs);
    }
    let mut i: usize = 0;
    while i < sorted.len()
        invariant
            ts == triples.deep_view(),
            hs == hosts.deep_view(),
            e == order::entries_view(sorted@),
            e == sorted_hosts(ts, hs),
            i <= sorted@.len(),
            forall|p: int| 0 <= p < e.len() ==> 0 <= (#[trigger] e[p]).1 < ts.len(),
            scan_hosts(ts, hs, e, 0, 1) == scan_hosts(ts, hs, e, i as int, i + 1),
        decreases sorted.len() - i,
    {
        let mut j: usize = i + 1;
        while j < sorted.len()
            invariant
                ts == triples.deep_view(),
                hs == hosts.deep_view(),
                e == order::entries_view(sorted@),
                e == sorted_hosts(ts, hs),
                i < j <= sorted@.len(),
                forall|p: int| 0 <= p < e.len() ==> 0 <= (#[trigger] e[p]).1 < ts.len(),
                scan_hosts(ts, hs, e, 0, 1) == scan_hosts(ts, hs, e, i as int, j as int),
            decreases sorted.len() - j,
        {
            assert(e[i as int] == (
                sorted@[i as int].0.deep_view(),
                sorted@[i as int].1 as int,
            ));
            assert(e[j as int] == (
                sorted@[j as int].0.deep_view(),
                sorted@[j as int].1 as int,
            ));
            let ha = &sorted[i].0;
            let hb = &sorted[j].0;
            let mode_a = triples[sorted[i].1].mode;
            let mode_b = triples[sorted[j].1].mode;
            let a_over_b = path::is_component_prefix(ha, hb);
            let b_over_a = path::is_component_prefix(hb, ha);
            proof {
                lemma_mutual_prefix(ha.deep_view(), hb.deep_view());
            }
            let allowed = if b_over_a {
                mode_b == MountMode::Ro
            } else if a_over_b {
                mode_a == MountMode::Ro
            } else {
                false
            };
            if (a_over_b && b_over_a) || ((a_over_b || b_over_a) && !allowed) {
                return Err(
                    CistellaError::Mount(
                        text::cat4(
                            "overlapping host_sources after canonicalize: ",
                            host_path_of(triples, hosts, sorted[i].1),
                            " and ",
                            host_path_of(triples, hosts, sorted[j].1),
                        ),
                    ),
                );
            }
            j = j + 1;
        }
        i = i + 1;
    }
    Ok(())
}

/// Validates the allowlist triples against the two-tier topology.
///
/// `canonical_hosts` holds each triple's host path resolved through the
/// filesystem (see [`canonicalize_host_source`]); a triple without one is
/// taken by its own text. Strict overlap, on either side, is allowed only
/// over a read-only ancestor.
pub fn validate_mounts(
    triples: &[MountTriple],
    container_home: &str,
    canonical_hosts: &[String],
) -> (r: Result<()>)
    ensures
        match mounts_fault(triples.deep_view(), container_home@, canonical_hosts.deep_view()) {
            Some(e) => r matches Err(x) && x@ == e,
            None => r is Ok,
        },
{
    let ghost ts = triples.deep_view();
    let mut k: usize = 0;
    while k < triples.len()
        invariant
            ts == triples.deep_view(),
            k <= triples@.len(),
            first_triple_fault(ts, 0) == first_triple_fault(ts, k as int),
        decreases triples.len() - k,
    {
        assert(ts[k as int] == triples@[k as int].deep_view());
        match check_triple(&triples[k]) {
            Ok(_) => {},
            Err(e) => {
                return Err(e);
            },
        }
        k = k + 1;
    }
    match check_targets(triples) {
        Ok(_) => {},
        Err(e) => {
            return Err(e);
        },
    }
    match check_home(triples, container_home) {
        Ok(_) => {},
        Err(e) => {
            return Err(e);
        },
    }
    check_hosts(triples, canonical_hosts)
}

// ---------------------------------------------------------------------
// Lemmas and laws of validation
// ---------------------------------------------------------------------

proof fn lemma_mutual_prefix(a: Seq<Seq<char>>, b: Seq<Seq<char>>)
    ensures
        a.is_prefix_of(b) && b.is_prefix_of(a) <==> a == b,
{
    if a.is_prefix_of(b) && b.is_prefix_of(a) {
        assert(a =~= b);
    } else if a == b {
        assert(a.subrange(0, a.len() as int) =~= a);
    }
}

proof fn lemma_target_indices(ts: Seq<TripleView>)
    ensures
        forall|p: int|
            0 <= p < sorted_targets(ts).len() ==> 0 <= (#[trigger] sorted_targets(ts)[p]).1
                < ts.len(),
{
    let e = sorted_targets(ts);
    order::lemma_stable_sort_members(target_entries(ts), order::by_key::<String>());
    assert forall|p: int| 0 <= p < e.len() implies 0 <= (#[trigger] e[p]).1 < ts.len() by {
        assert(e.contains(e[p]));
        assert(target_entries(ts).contains(e[p]));
    }
}

proof fn lemma_host_indices(ts: Seq<TripleView>, hosts: Seq<Seq<char>>)
    ensures
        forall|p: int|
            0 <= p < sorted_hosts(ts, hosts).len() ==> 0 <= (#[trigger] sorted_hosts(
                ts,
                hosts,
            )[p]).1 < ts.len(),
{
    let e = sorted_hosts(ts, hosts);
    order::lemma_stable_sort_members(host_entries(ts, hosts), order::by_key::<Vec<String>>());
    assert forall|p: int| 0 <= p < e.len() implies 0 <= (#[trigger] e[p]).1 < ts.len() by {
        assert(e.contains(e[p]));
        assert(host_entries(ts, hosts).contains(e[p]));
    }
}

proof fn lemma_scan_targets(
    ts: Seq<TripleView>,
    e: Seq<(Seq<char>, int)>,
    i: int,
    j: int,
    p: int,
    q: int,
)
    requires
        scan_targets(ts, e, i, j) is None,
        0 <= i < j,
        p < q < e.len(),
        p > i || (p == i && q >= j),
    ensures
        target_conflict(ts, e[p], e[q]) is None,
    decreases e.len() - i, e.len() - j,
{
    if j >= e.len() {
        lemma_scan_targets(ts, e, i + 1, i + 2, p, q);
    } else if p != i || q != j {
        lemma_scan_targets(ts, e, i, j + 1, p, q);
    }
}

proof fn lemma_scan_hosts(
    ts: Seq<TripleView>,
    hosts: Seq<Seq<char>>,
    e: Seq<(Seq<Seq<char>>, int)>,
    i: int,
    j: int,
    p: int,
    q: int,
)
    requires
        scan_hosts(ts, hosts, e, i, j) is None,
        0 <= i < j,
        p < q < e.len(),
        p > i || (p == i && q >= j),
    ensures
        host_conflict(ts, hosts, e[p], e[q]) is None,
    decreases e.len() - i, e.len() - j,
{
    if j >= e.len() {
        lemma_scan_hosts(ts, hosts, e, i + 1, i + 2, p, q);
    } else if p != i || q != j {
        lemma_scan_hosts(ts, hosts, e, i, j + 1, p, q);
    }
}

proof fn lemma_first_triple_fault(ts: Seq<TripleView>, k: int, i: int)
    requires
        first_triple_fault(ts, k) is None,
        0 <= k <= i < ts.len(),
    ensures
        triple_fault(ts[i]) is None,
    decreases ts.len() - k,
{
    if k < i {
        lemma_first_triple_fault(ts, k + 1, i);
    }
}

proof fn lemma_home_shadow(ts: Seq<TripleView>, home: Seq<char>, k: int, i: int)
    requires
        home_shadow(ts, home, k) is None,
        0 <= k <= i < ts.len(),
    ensures
        !path::ancestor_or_equal(path::canonical(ts[i].target), path::canonical(home)),
    decreases ts.len() - k,
{
    if k < i {
        lemma_home_shadow(ts, home, k + 1, i);
    }
}

/// In a valid mount list no target is sensitive, no target hides the
/// session home, and both sides of every triple are absolute.
pub proof fn law_valid_triples(
    ts: Seq<TripleView>,
    home: Seq<char>,
    hosts: Seq<Seq<char>>,
    i: int,
)
    requires
        mounts_fault(ts, home, hosts) is None,
        0 <= i < ts.len(),
    ensures
        path::is_absolute(ts[i].host),
        path::is_absolute(ts[i].target),
        sensitive_root(path::canonical(ts[i].target)) is None,
        !path::ancestor_or_equal(path::canonical(ts[i].target), path::canonical(home)),
{
    lemma_first_triple_fault(ts, 0, i);
    lemma_home_shadow(ts, home, 0, i);
}

/// In a valid mount list no two targets coincide, and a target above
/// another one is read-only.
pub proof fn law_valid_targets_stack_over_read_only(
    ts: Seq<TripleView>,
    home: Seq<char>,
    hosts: Seq<Seq<char>>,
    i: int,
    j: int,
)
    requires
        mounts_fault(ts, home, hosts) is None,
        0 <= i < ts.len(),
        0 <= j < ts.len(),
        i != j,
    ensures
        path::canonical(ts[i].target) != path::canonical(ts[j].target),
        path::ancestor_or_equal(path::canonical(ts[i].target), path::canonical(ts[j].target))
            && !path::ancestor_or_equal(
            path::canonical(ts[j].target),
            path::canonical(ts[i].target),
        ) ==> ts[i].mode == MountMode::Ro,
{
    let e = sorted_targets(ts);
    let all = target_entries(ts);
    order::lemma_stable_sort_members(all, order::by_key::<String>());
    assert(all.contains(all[i]));
    assert(all.contains(all[j]));
    assert(e.contains(all[i]) && e.contains(all[j]));
    let p = choose|p: int| 0 <= p < e.len() && e[p] == all[i];
    let q = choose|q: int| 0 <= q < e.len() && e[q] == all[j];
    if p < q {
        lemma_scan_targets(ts, e, 0, 1, p, q);
    } else {
        lemma_scan_targets(ts, e, 0, 1, q, p);
    }
}

/// In a valid mount list no two host paths coincide, and a host path above
/// another one is mounted read-only.
pub proof fn law_valid_hosts_stack_over_read_only(
    ts: Seq<TripleView>,
    home: Seq<char>,
    hosts: Seq<Seq<char>>,
    i: int,
    j: int,
)
    requires
        mounts_fault(ts, home, hosts) is None,
        0 <= i < ts.len(),
        0 <= j < ts.len(),
        i != j,
    ensures
        ({
            let a = path::components(host_path(ts, hosts, i));
            let b = path::components(host_path(ts, hosts, j));
            &&& a != b
            &&& a.is_prefix_of(b) ==> ts[i].mode == MountMode::Ro
        }),
{
    let e = sorted_hosts(ts, hosts);
    let all = host_entries(ts, hosts);
    order::lemma_stable_sort_members(all, order::by_key::<Vec<String>>());
    assert(all.contains(all[i]));
    assert(all.contains(all[j]));
    assert(e.contains(all[i]) && e.contains(all[j]));
    let p = choose|p: int| 0 <= p < e.len() && e[p] == all[i];
    let q = choose|q: int| 0 <= q < e.len() && e[q] == all[j];
    lemma_mutual_prefix(all[i].0, all[j].0);
    if p < q {
        lemma_scan_hosts(ts, hosts, e, 0, 1, p, q);
    } else {
        lemma_scan_hosts(ts, hosts, e, 0, 1, q, p);
    }
}

// ---------------------------------------------------------------------
// Laws of merging
// ---------------------------------------------------------------------

proof fn lemma_target_position(ts: Seq<TripleView>, canon: Seq<char>, k: int)
    requires
        0 <= k,
    ensures
        ({
            let at = target_position(ts, canon, k);
            at == -1 || (k <= at < ts.len() && path::canonical(ts[at].target) == canon)
        }),
    decreases ts.len() - k,
{
    if k < ts.len() && path::canonical(ts[k].target) != canon {
        lemma_target_position(ts, canon, k + 1);
    }
}

proof fn lemma_cli_distinct(cli: Seq<TripleView>, worktree: Seq<char>, k: int, i: int, j: int)
    requires
        cli_fault(cli, worktree, k) is None,
        0 <= k <= j < cli.len(),
        0 <= i < j,
    ensures
        path::canonical(cli[i].target) != path::canonical(cli[j].target),
        path::canonical(cli[j].target) != path::canonical(worktree),
    decreases cli.len() - k,
{
    if k < j {
        lemma_cli_distinct(cli, worktree, k + 1, i, j);
    } else {
        assert(path::canonical(cli[i].target) == path::canonical(cli[k].target) ==> exists|m: int|
            0 <= m < k && path::canonical((#[trigger] cli[m]).target) == path::canonical(
                cli[k].target,
            ));
    }
}

/// No CLI triple of a faultless list is on the worktree target.
pub proof fn lemma_cli_off_worktree(
    cli: Seq<TripleView>,
    worktree: Seq<char>,
    k: int,
    j: int,
)
    requires
        cli_fault(cli, worktree, k) is None,
        0 <= k <= j < cli.len(),
    ensures
        path::canonical(cli[j].target) != path::canonical(worktree),
    decreases cli.len() - k,
{
    if k < j {
        lemma_cli_off_worktree(cli, worktree, k + 1, j);
    }
}

/// CLI triples on no profile target, in their order.
pub open spec fn added(profile: Seq<TripleView>, cli: Seq<TripleView>) -> Seq<TripleView>
    decreases cli.len(),
{
    if cli.len() == 0 {
        Seq::empty()
    } else {
        let before = added(profile, cli.drop_last());
        if profile_slot(profile, cli.last()) < 0 {
            before.push(cli.last())
        } else {
            before
        }
    }
}

/// First profile slot on the target of a triple, or a negative number.
pub open spec fn profile_slot(profile: Seq<TripleView>, t: TripleView) -> int {
    target_position(profile, path::canonical(t.target), 0)
}

/// Slots that keep their targets are found where they were; past them only
/// an added triple can be found.
proof fn lemma_slots_are_kept(
    profile: Seq<TripleView>,
    merged: Seq<TripleView>,
    canon: Seq<char>,
    k: int,
)
    requires
        0 <= k <= profile.len() <= merged.len(),
        forall|i: int|
            0 <= i < profile.len() ==> path::canonical((#[trigger] merged[i]).target)
                == path::canonical(profile[i].target),
    ensures
        ({
            let at = target_position(merged, canon, k);
            let slot = target_position(profile, canon, k);
            if slot >= 0 {
                at == slot
            } else {
                at < 0 || at >= profile.len()
            }
        }),
    decreases profile.len() - k,
{
    if k < profile.len() {
        assert(path::canonical(merged[k].target) == path::canonical(profile[k].target));
        lemma_slots_are_kept(profile, merged, canon, k + 1);
    } else {
        lemma_target_position(merged, canon, k);
    }
}

/// What a merge holds after the first `k` CLI triples.
pub open spec fn merge_so_far(
    profile: Seq<TripleView>,
    cli: Seq<TripleView>,
    k: int,
    merged: Seq<TripleView>,
) -> bool {
    &&& merged.len() >= profile.len()
    &&& forall|i: int|
        0 <= i < profile.len() ==> path::canonical((#[trigger] merged[i]).target)
            == path::canonical(profile[i].target)
    &&& forall|i: int|
        0 <= i < profile.len() ==> (#[trigger] merged[i]) == profile[i] || cli.take(k).contains(
            merged[i],
        )
    &&& forall|i: int|
        profile.len() <= i < merged.len() ==> cli.take(k).contains(#[trigger] merged[i])
    &&& forall|j: int| 0 <= j < k ==> merged.contains(#[trigger] cli[j])
    &&& forall|j: int|
        0 <= j < k && profile_slot(profile, #[trigger] cli[j]) >= 0 ==> merged[profile_slot(
            profile,
            cli[j],
        )] == cli[j]
    &&& forall|i: int|
        0 <= i < profile.len() && (#[trigger] merged[i]) != profile[i] ==> exists|j: int|
            0 <= j < k && profile_slot(profile, #[trigger] cli[j]) == i
    &&& merged.skip(profile.len() as int) == added(profile, cli.take(k))
}

proof fn lemma_merge_from(
    profile: Seq<TripleView>,
    cli: Seq<TripleView>,
    worktree: Seq<char>,
    k: int,
    merged: Seq<TripleView>,
    result: Seq<TripleView>,
)
    requires
        cli_fault(cli, worktree, 0) is None,
        0 <= k <= cli.len(),
        merge_so_far(profile, cli, k, merged),
        merge_from(profile, cli, k, merged) == std::result::Result::<
            Seq<TripleView>,
            ErrorView,
        >::Ok(result),
    ensures
        merge_so_far(profile, cli, cli.len() as int, result),
    decreases cli.len() - k,
{
    if k < cli.len() {
        let t = cli[k];
        let at = target_position(merged, path::canonical(t.target), 0);
        lemma_target_position(merged, path::canonical(t.target), 0);
        let next = if at >= 0 {
            merged.update(at, t)
        } else {
            merged.push(t)
        };
        assert forall|x: TripleView| cli.take(k).contains(x) implies cli.take(k + 1).contains(
            x,
        ) by {
            let m = choose|m: int| 0 <= m < cli.take(k).len() && cli.take(k)[m] == x;
            assert(cli.take(k + 1)[m] == x);
        }
        assert(cli.take(k + 1).contains(t)) by {
            assert(cli.take(k + 1)[k] == t);
        }
        assert forall|j: int| 0 <= j < k + 1 implies next.contains(#[trigger] cli[j]) by {
            if j == k {
                if at >= 0 {
                    assert(next[at] == t);
                } else {
                    assert(next[merged.len() as int] == t);
                }
            } else {
                assert(merged.contains(cli[j]));
                let m = choose|m: int| 0 <= m < merged.len() && merged[m] == cli[j];
                lemma_cli_distinct(cli, worktree, 0, j, k);
                assert(m != at);
                assert(next[m] == cli[j]);
            }
        }
        assert forall|i: int| profile.len() <= i < next.len() implies cli.take(k + 1).contains(
            #[trigger] next[i],
        ) by {
            if i < merged.len() && i != at {
                assert(next[i] == merged[i]);
            } else {
                assert(next[i] == t);
            }
        }
        assert forall|i: int| 0 <= i < profile.len() implies (#[trigger] next[i]) == profile[i]
            || cli.take(k + 1).contains(next[i]) by {
            if i != at {
                assert(next[i] == merged[i]);
            } else {
                assert(next[i] == t);
            }
        }
        assert forall|i: int| 0 <= i < profile.len() implies path::canonical(
            (#[trigger] next[i]).target,
        ) == path::canonical(profile[i].target) by {
            assert(path::canonical(merged[i].target) == path::canonical(profile[i].target));
        }
        let slot = profile_slot(profile, t);
        lemma_target_position(profile, path::canonical(t.target), 0);
        lemma_slots_are_kept(profile, merged, path::canonical(t.target), 0);
        if at >= profile.len() {
            assert(cli.take(k).contains(merged[at]));
            let m = choose|m: int| 0 <= m < cli.take(k).len() && cli.take(k)[m] == merged[at];
            lemma_cli_distinct(cli, worktree, 0, m, k);
        }
        assert forall|j: int| 0 <= j < k + 1 && profile_slot(profile, #[trigger] cli[j])
            >= 0 implies next[profile_slot(profile, cli[j])] == cli[j] by {
            let s = profile_slot(profile, cli[j]);
            if j < k {
                lemma_target_position(profile, path::canonical(cli[j].target), 0);
                lemma_cli_distinct(cli, worktree, 0, j, k);
                assert(merged[s] == cli[j]);
                assert(s != at);
            }
        }
        assert forall|i: int|
            0 <= i < profile.len() && (#[trigger] next[i]) != profile[i] implies exists|j: int|
            0 <= j < k + 1 && profile_slot(profile, #[trigger] cli[j]) == i by {
            if i == at {
                assert(profile_slot(profile, cli[k]) == i);
            } else {
                assert(merged[i] == next[i]);
                let j = choose|j: int| 0 <= j < k && profile_slot(profile, #[trigger] cli[j]) == i;
                assert(profile_slot(profile, cli[j]) == i);
            }
        }
        assert(cli.take(k + 1).drop_last() =~= cli.take(k));
        assert(cli.take(k + 1).last() == t);
        assert(next.skip(profile.len() as int) =~= added(profile, cli.take(k + 1))) by {
            let rest = merged.skip(profile.len() as int);
            if slot >= 0 {
                assert(next.skip(profile.len() as int) =~= rest);
            } else {
                assert(next.skip(profile.len() as int) =~= rest.push(t));
            }
        }
        lemma_merge_from(profile, cli, worktree, k + 1, next, result);
    }
}

/// CLI triples win a merge: every CLI triple is in the merged list. A CLI
/// triple on a profile target stands in that slot; a slot that no CLI triple
/// is on keeps the profile triple; the other CLI triples follow the slots in
/// CLI order, and nothing else appears.
pub proof fn law_merge_cli_wins(
    profile: Seq<TripleView>,
    cli: Seq<TripleView>,
    worktree: Seq<char>,
    merged: Seq<TripleView>,
)
    requires
        merged_mounts(profile, cli, worktree) == std::result::Result::<
            Seq<TripleView>,
            ErrorView,
        >::Ok(merged),
    ensures
        forall|j: int| 0 <= j < cli.len() ==> merged.contains(#[trigger] cli[j]),
        merged.len() >= profile.len(),
        forall|i: int|
            0 <= i < profile.len() ==> path::canonical((#[trigger] merged[i]).target)
                == path::canonical(profile[i].target) && (merged[i] == profile[i] || cli.contains(
                merged[i],
            )),
        forall|i: int|
            profile.len() <= i < merged.len() ==> cli.contains(#[trigger] merged[i]),
        forall|j: int|
            0 <= j < cli.len() && profile_slot(profile, #[trigger] cli[j]) >= 0
                ==> merged[profile_slot(profile, cli[j])] == cli[j],
        forall|i: int|
            0 <= i < profile.len() && (#[trigger] merged[i]) != profile[i] ==> exists|j: int|
                0 <= j < cli.len() && profile_slot(profile, #[trigger] cli[j]) == i,
        merged.skip(profile.len() as int) == added(profile, cli),
{
    assert(cli.take(cli.len() as int) =~= cli);
    assert(cli.take(0) =~= Seq::empty());
    assert(profile.skip(profile.len() as int) =~= added(profile, cli.take(0)));
    lemma_merge_from(profile, cli, worktree, 0, profile, merged);
}

proof fn lemma_no_overlap(profile: Seq<TripleView>, t: TripleView, k: int, i: int)
    requires
        0 <= k <= i < profile.len(),
        profile_overlap(profile, t, k) is None,
    ensures
        stacks_cleanly(profile[i], t),
    decreases profile.len() - k,
{
    if k < i {
        lemma_no_overlap(profile, t, k + 1, i);
    }
}

/// Whether two triples have the same target, unrelated targets, or a
/// read-only one above the other.
pub open spec fn stacks_cleanly(p: TripleView, t: TripleView) -> bool {
    let a = path::canonical(p.target);
    let b = path::canonical(t.target);
    a == b || !related(a, b) || may_stack(a, p.mode, b, t.mode)
}

proof fn lemma_merge_stacks(
    profile: Seq<TripleView>,
    cli: Seq<TripleView>,
    k: int,
    merged: Seq<TripleView>,
    i: int,
    j: int,
)
    requires
        merge_from(profile, cli, k, merged) is Ok,
        0 <= i < profile.len(),
        0 <= k <= j < cli.len(),
    ensures
        stacks_cleanly(profile[i], cli[j]),
    decreases cli.len() - k,
{
    let t = cli[k];
    if k == j {
        lemma_no_overlap(profile, t, 0, i);
    } else {
        let at = target_position(merged, path::canonical(t.target), 0);
        let next = if at >= 0 {
            merged.update(at, t)
        } else {
            merged.push(t)
        };
        lemma_merge_stacks(profile, cli, k + 1, next, i, j);
    }
}

/// No merge lays a CLI triple above or below a profile triple unless the
/// upper one is read-only, whether or not the CLI triple overrides another
/// profile triple.
pub proof fn law_merged_overlaps_stack_over_read_only(
    profile: Seq<TripleView>,
    cli: Seq<TripleView>,
    worktree: Seq<char>,
    i: int,
    j: int,
)
    requires
        merged_mounts(profile, cli, worktree) is Ok,
        0 <= i < profile.len(),
        0 <= j < cli.len(),
    ensures
        stacks_cleanly(profile[i], cli[j]),
{
    lemma_merge_stacks(profile, cli, 0, profile, i, j);
}

// ---------------------------------------------------------------------
// Mountpoints under read-only mounts
// ---------------------------------------------------------------------

/// Whether a triple's target lies strictly above a canonical target.
pub open spec fn strictly_above(t: TripleView, canon: Seq<char>) -> bool {
    path::canonical(t.target) != canon && path::ancestor_or_equal(path::canonical(t.target), canon)
}

/// Index of the nearest read-only triple strictly above a canonical target
/// among the first `k`, or -1.
pub open spec fn nearest_above(ts: Seq<TripleView>, canon: Seq<char>, k: int) -> int
    decreases k,
{
    if k <= 0 || k > ts.len() {
        -1
    } else {
        let best = nearest_above(ts, canon, k - 1);
        let t = ts[k - 1];
        if t.mode == MountMode::Ro && strictly_above(t, canon) && (best < 0 || path::depth(
            path::canonical(ts[best].target),
        ) < path::depth(path::canonical(t.target))) {
            k - 1
        } else {
            best
        }
    }
}

/// Host paths that lead from a host directory down through names, outermost
/// first.
pub open spec fn chain_of(host: Seq<char>, names: Seq<Seq<char>>) -> Seq<Seq<char>> {
    Seq::new(names.len(), |j: int| path::joined_all(host, names.take(j + 1)))
}

/// Names that lead from one canonical target down to one below it.
pub open spec fn names_below(above: Seq<char>, below: Seq<char>) -> Seq<Seq<char>> {
    let n = path::components(above).len() as int;
    if n <= path::components(below).len() {
        path::components(below).skip(n)
    } else {
        Seq::empty()
    }
}

/// A mount nested under a read-only one: its mountpoint cannot be made
/// there, so it has to exist in the ancestor's host source.
#[derive(Debug)]
pub struct NestedRoCheck {
    /// Target of the nested mount.
    pub descendant: String,
    /// Target of the nearest read-only mount above it.
    pub ancestor: String,
    /// Host paths that have to exist, outermost first.
    pub chain: Vec<String>,
}

/// What a check says.
pub struct NestedView {
    pub descendant: Seq<char>,
    pub ancestor: Seq<char>,
    pub chain: Seq<Seq<char>>,
}

impl DeepView for NestedRoCheck {
    type V = NestedView;

    open spec fn deep_view(&self) -> NestedView {
        NestedView {
            descendant: self.descendant@,
            ancestor: self.ancestor@,
            chain: self.chain.deep_view(),
        }
    }
}

/// The check of triple `i`, if it is nested under a read-only one.
pub open spec fn nested_check(ts: Seq<TripleView>, i: int) -> Option<NestedView> {
    let canon = path::canonical(ts[i].target);
    let at = nearest_above(ts, canon, ts.len() as int);
    if at < 0 {
        None
    } else {
        Some(
            NestedView {
                descendant: ts[i].target,
                ancestor: ts[at].target,
                chain: chain_of(
                    ts[at].host,
                    names_below(path::canonical(ts[at].target), canon),
                ),
            },
        )
    }
}

/// Checks of the first `k` triples, in order.
pub open spec fn nested_checks(ts: Seq<TripleView>, k: int) -> Seq<NestedView>
    decreases k,
{
    if k <= 0 || k > ts.len() {
        Seq::empty()
    } else {
        match nested_check(ts, k - 1) {
            Some(c) => nested_checks(ts, k - 1).push(c),
            None => nested_checks(ts, k - 1),
        }
    }
}

proof fn lemma_nearest_above(ts: Seq<TripleView>, canon: Seq<char>, k: int)
    requires
        0 <= k <= ts.len(),
    ensures
        ({
            let at = nearest_above(ts, canon, k);
            at == -1 || (0 <= at < k && ts[at].mode == MountMode::Ro && strictly_above(
                ts[at],
                canon,
            ))
        }),
    decreases k,
{
    if k > 0 {
        lemma_nearest_above(ts, canon, k - 1);
    }
}

fn nearest_read_only(triples: &[MountTriple], canon: &str) -> (r: Option<usize>)
    ensures
        match r {
            Some(i) => i < triples@.len() && i == nearest_above(
                triples.deep_view(),
                canon@,
                triples@.len() as int,
            ),
            None => nearest_above(triples.deep_view(), canon@, triples@.len() as int) == -1,
        },
{
    let ghost ts = triples.deep_view();
    let mut best: Option<usize> = None;
    let mut k: usize = 0;
    while k < triples.len()
        invariant
            k <= triples@.len(),
            ts == triples.deep_view(),
            match best {
                Some(i) => i < k && i == nearest_above(ts, canon@, k as int),
                None => nearest_above(ts, canon@, k as int) == -1,
            },
        decreases triples.len() - k,
    {
        let t = &triples[k];
        assert(ts[k as int] == t.deep_view());
        let above = path::canonicalize(t.container_target.as_str());
        if t.mode == MountMode::Ro && !text::eq(above.as_str(), canon)
            && path::is_ancestor_or_equal(above.as_str(), canon) {
            match best {
                None => {
                    best = Some(k);
                },
                Some(i) => {
                    assert(ts[i as int] == triples@[i as int].deep_view());
                    let held = path::canonicalize(triples[i].container_target.as_str());
                    if path::depth_of(held.as_str()) < path::depth_of(above.as_str()) {
                        best = Some(k);
                    }
                },
            }
        }
        k = k + 1;
    }
    best
}

fn host_chain(host: &str, above: &str, below: &str) -> (out: Vec<String>)
    ensures
        out.deep_view() == chain_of(host@, names_below(above@, below@)),
{
    let outer = path::components_of(above);
    let inner = path::components_of(below);
    let ghost names = names_below(above@, below@);
    let mut out: Vec<String> = Vec::new();
    assert(outer@.len() == path::components(above@).len());
    assert(inner@.len() == path::components(below@).len());
    if outer.len() > inner.len() {
        assert(out.deep_view() =~= chain_of(host@, names));
        return out;
    }
    let mut current = host.to_owned();
    let mut k: usize = outer.len();
    assert(names.take(0) =~= Seq::<Seq<char>>::empty());
    while k < inner.len()
        invariant
            outer@.len() <= k <= inner@.len(),
            outer@.len() == path::components(above@).len(),
            inner.deep_view() == path::components(below@),
            inner@.len() == path::components(below@).len(),
            names == path::components(below@).skip(outer@.len() as int),
            out@.len() == k - outer@.len(),
            current@ == path::joined_all(host@, names.take(k - outer@.len())),
            out.deep_view() =~= chain_of(host@, names).take(k - outer@.len()),
        decreases inner.len() - k,
    {
        let ghost j = k - outer@.len();
        let ghost before = out.deep_view();
        assert(path::components(below@)[k as int] == inner@[k as int]@);
        assert(names[j] == inner@[k as int]@);
        assert(names.take(j + 1).drop_last() =~= names.take(j));
        assert(names.take(j + 1).last() == names[j]);
        current = path::join(current.as_str(), inner[k].as_str());
        assert(current@ == path::joined_all(host@, names.take(j + 1)));
        out.push(current.clone());
        assert(out.deep_view() =~= before.push(chain_of(host@, names)[j]));
        k = k + 1;
    }
    assert(chain_of(host@, names).take(names.len() as int) =~= chain_of(host@, names));
    out
}

/// Lists the mounts nested under read-only ones, in list order, with the
/// host paths that their mountpoints need.
pub fn nested_ro_checks(triples: &[MountTriple]) -> (out: Vec<NestedRoCheck>)
    ensures
        out.deep_view() == nested_checks(triples.deep_view(), triples@.len() as int),
{
    let ghost ts = triples.deep_view();
    let mut out: Vec<NestedRoCheck> = Vec::new();
    assert(out.deep_view() =~= Seq::<NestedView>::empty());
    let mut k: usize = 0;
    while k < triples.len()
        invariant
            k <= triples@.len(),
            ts == triples.deep_view(),
            out.deep_view() == nested_checks(ts, k as int),
        decreases triples.len() - k,
    {
        assert(ts[k as int] == triples@[k as int].deep_view());
        let ghost before = out.deep_view();
        let canon = path::canonicalize(triples[k].container_target.as_str());
        match nearest_read_only(triples, canon.as_str()) {
            Some(at) => {
                assert(ts[at as int] == triples@[at as int].deep_view());
                let above = path::canonicalize(triples[at].container_target.as_str());
                let check = NestedRoCheck {
                    descendant: triples[k].container_target.clone(),
                    ancestor: triples[at].container_target.clone(),
                    chain: host_chain(
                        triples[at].host_source.as_str(),
                        above.as_str(),
                        canon.as_str(),
                    ),
                };
                assert(Some(check.deep_view()) == nested_check(ts, k as int));
                let ghost added = check.deep_view();
                out.push(check);
                assert(out.deep_view() =~= before.push(added));
            },
            None => {},
        }
        k = k + 1;
    }
    out
}

/// First path at or after `k` that does not exist.
pub open spec fn first_missing(chain: Seq<Seq<char>>, exists: Seq<bool>, k: int) -> Option<
    Seq<char>,
>
    decreases chain.len() - k,
{
    if k < 0 || k >= chain.len() {
        None
    } else if k < exists.len() && exists[k] {
        first_missing(chain, exists, k + 1)
    } else {
        Some(chain[k])
    }
}

/// The outermost path of a check that is missing, if any. `exists` tells of
/// each path in the chain whether the host has it.
pub fn nested_ro_missing(check: &NestedRoCheck, exists: &[bool]) -> (r: Option<String>)
    ensures
        r.deep_view() == first_missing(check.deep_view().chain, exists@, 0),
{
    let ghost chain = check.chain.deep_view();
    let mut k: usize = 0;
    while k < check.chain.len()
        invariant
            chain == check.chain.deep_view(),
            k <= check.chain@.len(),
            first_missing(chain, exists@, 0) == first_missing(chain, exists@, k as int),
        decreases check.chain.len() - k,
    {
        assert(chain[k as int] == check.chain@[k as int]@);
        if k >= exists.len() || !exists[k] {
            return Some(check.chain[k].clone());
        }
        k = k + 1;
    }
    None
}

/// Every mount under a read-only one is checked against a read-only mount
/// strictly above it.
pub proof fn law_nested_mounts_are_checked(ts: Seq<TripleView>, i: int, j: int)
    requires
        0 <= i < ts.len(),
        0 <= j < ts.len(),
        ts[j].mode == MountMode::Ro,
        strictly_above(ts[j], path::canonical(ts[i].target)),
    ensures
        nested_check(ts, i) is Some,
        nested_checks(ts, ts.len() as int).contains(nested_check(ts, i)->0),
{
    lemma_some_above(ts, path::canonical(ts[i].target), ts.len() as int, j);
    lemma_checks_hold(ts, ts.len() as int, i);
}

proof fn lemma_some_above(ts: Seq<TripleView>, canon: Seq<char>, k: int, j: int)
    requires
        0 <= j < k <= ts.len(),
        ts[j].mode == MountMode::Ro,
        strictly_above(ts[j], canon),
    ensures
        nearest_above(ts, canon, k) >= 0,
    decreases k,
{
    lemma_nearest_above(ts, canon, k - 1);
    if j < k - 1 {
        lemma_some_above(ts, canon, k - 1, j);
    }
}

proof fn lemma_checks_hold(ts: Seq<TripleView>, k: int, i: int)
    requires
        0 <= i < k <= ts.len(),
        nested_check(ts, i) is Some,
    ensures
        nested_checks(ts, k).contains(nested_check(ts, i)->0),
    decreases k,
{
    let c = nested_check(ts, i)->0;
    if i == k - 1 {
        assert(nested_checks(ts, k).last() == c);
    } else {
        lemma_checks_hold(ts, k - 1, i);
        let before = nested_checks(ts, k - 1);
        let p = choose|p: int| 0 <= p < before.len() && before[p] == c;
        assert(nested_checks(ts, k)[p] == c);
    }
}

// ---------------------------------------------------------------------
// Volume arguments
// ---------------------------------------------------------------------

/// Depth of each canonical target with the index of its triple.
pub open spec fn depth_entries(ts: Seq<TripleView>) -> Seq<(nat, int)> {
    Seq::new(ts.len(), |i: int| (path::depth(path::canonical(ts[i].target)), i))
}

/// Triples in mount order: shallowest target first.
pub open spec fn mount_order(ts: Seq<TripleView>) -> Seq<(nat, int)> {
    order::stable_sort(depth_entries(ts), order::by_key::<order::Weight>())
}

/// Volume value of one triple.
pub open spec fn volume_text(t: TripleView) -> Seq<char> {
    t.host + ":"@ + path::canonical(t.target) + ":"@ + mode_text(t.mode)
}

/// Volume arguments of the triples in the given order.
pub open spec fn volume_flags(ts: Seq<TripleView>, e: Seq<(nat, int)>) -> Seq<Seq<char>>
    decreases e.len(),
{
    if e.len() == 0 {
        Seq::empty()
    } else {
        volume_flags(ts, e.drop_last()) + seq!["--volume"@, volume_text(ts[e.last().1])]
    }
}

/// Arguments for the session home: a tmpfs, or a bind of its source.
pub open spec fn home_flags(home: Seq<char>, source: Option<Seq<char>>) -> Seq<Seq<char>> {
    match source {
        Some(src) => if src == "tmpfs"@ {
            seq!["--tmpfs"@, home]
        } else {
            seq!["--volume"@, src + ":"@ + home + ":rw"@]
        },
        None => seq!["--tmpfs"@, home],
    }
}

/// Returns podman volume args for the mounts in required ordering:
/// session-home first (tmpfs or scratch), then triples sorted by path depth
/// (shallowest first) so parents are mounted before children.
#[must_use]
pub fn podman_volume_args(
    triples: &[MountTriple],
    container_home: &str,
    session_home_source: Option<&str>,
) -> (args: Vec<String>)
    ensures
        args.deep_view() == home_flags(container_home@, session_home_source.deep_view())
            + volume_flags(triples.deep_view(), mount_order(triples.deep_view())),
{
    let ghost ts = triples.deep_view();
    let mut args: Vec<String> = Vec::new();
    match session_home_source {
        Some(src) => {
            if text::eq(src, "tmpfs") {
                args.push("--tmpfs".to_owned());
                args.push(container_home.to_owned());
            } else {
                args.push("--volume".to_owned());
                args.push(text::cat4(src, ":", container_home, ":rw"));
            }
        },
        None => {
            args.push("--tmpfs".to_owned());
            args.push(container_home.to_owned());
        },
    }
    let ghost head = home_flags(container_home@, session_home_source.deep_view());
    assert(args.deep_view() =~= head);
    let mut entries: Vec<(order::Weight, usize)> = Vec::new();
    let mut k: usize = 0;
    while k < triples.len()
        invariant
            ts == triples.deep_view(),
            k <= triples@.len(),
            order::entries_view(entries@) =~= depth_entries(ts).take(k as int),
        decreases triples.len() - k,
    {
        let ghost before = order::entries_view(entries@);
        assert(ts[k as int] == triples@[k as int].deep_view());
        let canon = path::canonicalize(triples[k].container_target.as_str());
        entries.push((order::Weight { value: path::depth_of(canon.as_str()) as u64 }, k));
        assert(order::entries_view(entries@) =~= before.push(depth_entries(ts)[k as int]));
        k = k + 1;
    }
    assert(order::entries_view(entries@) =~= depth_entries(ts));
    let sorted = order::sort_entries(entries);
    let ghost e = mount_order(ts);
    proof {
        lemma_mount_order_indices(ts);
    }
    let mut i: usize = 0;
    assert(e.take(0) =~= Seq::empty());
    assert(head + volume_flags(ts, e.take(0)) =~= head);
    while i < sorted.len()
        invariant
            ts == triples.deep_view(),
            e == order::entries_view(sorted@),
            i <= sorted@.len(),
            forall|p: int| 0 <= p < e.len() ==> 0 <= (#[trigger] e[p]).1 < ts.len(),
            args.deep_view() == head + volume_flags(ts, e.take(i as int)),
        decreases sorted.len() - i,
    {
        let ghost before = args.deep_view();
        assert(e[i as int] == (sorted@[i as int].0.deep_view(), sorted@[i as int].1 as int));
        assert(e.take(i + 1).drop_last() =~= e.take(i as int));
        let t = &triples[sorted[i].1];
        assert(ts[e[i as int].1] == t.deep_view());
        let canon = path::canonicalize(t.container_target.as_str());
        args.push("--volume".to_owned());
        args.push(
            text::cat5(t.host_source.as_str(), ":", canon.as_str(), ":", t.mode.as_flag()),
        );
        assert(args.deep_view() =~= before + seq!["--volume"@, volume_text(ts[e[i as int].1])]);
        assert(args.deep_view() =~= head + volume_flags(ts, e.take(i + 1)));
        i = i + 1;
    }
    assert(e.take(i as int) =~= e);
    args
}

proof fn lemma_mount_order_indices(ts: Seq<TripleView>)
    ensures
        forall|p: int|
            0 <= p < mount_order(ts).len() ==> 0 <= (#[trigger] mount_order(ts)[p]).1 < ts.len(),
        forall|p: int|
            0 <= p < mount_order(ts).len() ==> (#[trigger] mount_order(ts)[p]).0 == path::depth(
                path::canonical(ts[mount_order(ts)[p].1].target),
            ),
{
    let e = mount_order(ts);
    let all = depth_entries(ts);
    order::lemma_stable_sort_members(all, order::by_key::<order::Weight>());
    assert forall|p: int| 0 <= p < e.len() implies 0 <= (#[trigger] e[p]).1 < ts.len()
        && e[p].0 == path::depth(path::canonical(ts[e[p].1].target)) by {
        assert(e.contains(e[p]));
        assert(all.contains(e[p]));
    }
}

/// Parents are mounted before children: in mount order, a triple whose
/// target lies strictly above an absolute target stands before it; and
/// every triple is mounted once.
pub proof fn law_parents_before_children(ts: Seq<TripleView>, p: int, q: int)
    requires
        0 <= p < mount_order(ts).len(),
        0 <= q < mount_order(ts).len(),
        ({
            let a = path::canonical(ts[mount_order(ts)[p].1].target);
            let d = path::canonical(ts[mount_order(ts)[q].1].target);
            &&& path::is_absolute(d)
            &&& path::ancestor_or_equal(a, d)
            &&& text::trim_end_char(a, '/') != text::trim_end_char(d, '/')
        }),
    ensures
        p < q,
        mount_order(ts).to_multiset() == depth_entries(ts).to_multiset(),
{
    let e = mount_order(ts);
    let le = order::by_key::<order::Weight>();
    order::lemma_stable_sort(depth_entries(ts), le);
    order::lemma_stable_sort_members(depth_entries(ts), le);
    lemma_mount_order_indices(ts);
    path::law_ancestor_depth(
        path::canonical(ts[e[p].1].target),
        path::canonical(ts[e[q].1].target),
    );
    assert(e[p].0 < e[q].0);
    if q < p {
        assert(le(e[q], e[p]));
    }
}

// ---------------------------------------------------------------------
// Host paths
// ---------------------------------------------------------------------

/// Number of steps from a path up to the root (or to the empty path).
pub open spec fn ancestor_steps(s: Seq<char>) -> int {
    if path::is_absolute(s) {
        path::components(s).len() - 1
    } else {
        path::components(s).len() as int
    }
}

/// Text of a path from its components.
pub open spec fn components_text(c: Seq<Seq<char>>) -> Seq<char> {
    if c.len() > 0 && c[0] == "/"@ {
        "/"@ + text::join(c.skip(1), "/"@)
    } else {
        text::join(c, "/"@)
    }
}

/// The path `k` steps up.
pub open spec fn host_ancestor(s: Seq<char>, k: int) -> Seq<char> {
    if k == 0 {
        s
    } else {
        components_text(path::components(s).take(path::components(s).len() - k))
    }
}

/// Plain names among components: neither `/`, `.` nor `..`.
pub open spec fn plain_names(c: Seq<Seq<char>>) -> Seq<Seq<char>>
    decreases c.len(),
{
    if c.len() == 0 {
        Seq::empty()
    } else if path::component_rank(c.last()) == 3 {
        plain_names(c.drop_last()).push(c.last())
    } else {
        plain_names(c.drop_last())
    }
}

/// Host path resolved through its nearest resolvable ancestor at or above
/// step `k`; the path itself when none resolves.
pub open spec fn canonical_host(
    s: Seq<char>,
    resolved: Seq<Option<Seq<char>>>,
    k: int,
) -> Seq<char>
    decreases resolved.len() - k,
{
    let c = path::components(s);
    if k < 0 || k > ancestor_steps(s) || k >= resolved.len() {
        s
    } else {
        match resolved[k] {
            Some(base) => path::joined_all(base, plain_names(c.skip(c.len() - k))),
            None => canonical_host(s, resolved, k + 1),
        }
    }
}

/// The path and its ancestors, nearest first, down to the root.
pub fn host_ancestors(host: &str) -> (out: Vec<String>)
    ensures
        out.deep_view() == Seq::new(
            (ancestor_steps(host@) + 1) as nat,
            |k: int| host_ancestor(host@, k),
        ),
{
    let c = path::components_of(host);
    let ghost cv = path::components(host@);
    let rooted = path::absolute(host);
    assert(c@.len() == cv.len());
    assert(rooted ==> cv[0] == "/"@);
    let steps: usize = if rooted {
        c.len() - 1
    } else {
        c.len()
    };
    let mut out: Vec<String> = Vec::new();
    out.push(host.to_owned());
    let mut k: usize = 1;
    assert(out.deep_view() =~= Seq::new(1, |k: int| host_ancestor(host@, k)));
    while k <= steps
        invariant
            c.deep_view() == cv,
            cv == path::components(host@),
            rooted == path::is_absolute(host@),
            steps == ancestor_steps(host@),
            steps <= c@.len(),
            1 <= k <= steps + 1,
            out.deep_view() == Seq::new(k as nat, |k: int| host_ancestor(host@, k)),
        decreases steps + 1 - k,
    {
        let ghost before = out.deep_view();
        let kept: usize = c.len() - k;
        let s = text_of_components(&c, kept);
        out.push(s);
        assert(out.deep_view() =~= before.push(host_ancestor(host@, k as int)));
        assert(out.deep_view() =~= Seq::new((k + 1) as nat, |k: int| host_ancestor(host@, k)));
        if k == steps {
            return out;
        }
        k = k + 1;
    }
    out
}

/// Text of the first `n` components.
fn text_of_components(c: &Vec<String>, n: usize) -> (s: String)
    requires
        n <= c@.len(),
    ensures
        s@ == components_text(c.deep_view().take(n as int)),
{
    let ghost cv = c.deep_view();
    let rooted = n > 0 && text::eq(c[0].as_str(), "/");
    let start: usize = if rooted {
        1
    } else {
        0
    };
    let mut rest: Vec<String> = Vec::new();
    let mut i: usize = start;
    while i < n
        invariant
            cv == c.deep_view(),
            start <= i <= n,
            n <= c@.len(),
            rest.deep_view() =~= cv.subrange(start as int, i as int),
        decreases n - i,
    {
        let ghost before = rest.deep_view();
        rest.push(c[i].clone());
        assert(rest.deep_view() =~= before.push(cv[i as int]));
        i = i + 1;
    }
    let ghost head = cv.take(n as int);
    if n > 0 {
        assert(head[0] == c@[0]@);
    }
    if rooted {
        assert(rest.deep_view() =~= head.skip(1));
        text::cat("/", text::join_with(&rest, "/").as_str())
    } else {
        assert(rest.deep_view() =~= head);
        text::join_with(&rest, "/")
    }
}

/// Canonicalizes a host path via its longest existing prefix: `resolved`
/// holds, for each of [`host_ancestors`], its real path where it exists.
/// The names below the nearest existing ancestor are put back below it.
#[must_use]
pub fn canonicalize_host_source(host: &str, resolved: &[Option<String>]) -> (s: String)
    ensures
        s@ == canonical_host(host@, resolved.deep_view(), 0),
{
    let c = path::components_of(host);
    let ghost cv = path::components(host@);
    let rooted = path::absolute(host);
    assert(c@.len() == cv.len());
    assert(rooted ==> cv[0] == "/"@);
    let steps: usize = if rooted {
        c.len() - 1
    } else {
        c.len()
    };
    let ghost rv = resolved.deep_view();
    let mut k: usize = 0;
    while k < resolved.len() && k <= steps
        invariant
            c.deep_view() == cv,
            cv == path::components(host@),
            steps == ancestor_steps(host@),
            steps <= c@.len(),
            rv == resolved.deep_view(),
            k <= resolved@.len(),
            k <= steps + 1,
            canonical_host(host@, rv, 0) == canonical_host(host@, rv, k as int),
        decreases resolved.len() - k,
    {
        assert(rv[k as int] == resolved@[k as int].deep_view());
        match &resolved[k] {
            Some(base) => {
                return join_names(base.as_str(), &c, c.len() - k);
            },
            None => {},
        }
        k = k + 1;
    }
    host.to_owned()
}

/// `base` with the plain names among the components from `from` on.
fn join_names(base: &str, c: &Vec<String>, from: usize) -> (s: String)
    requires
        from <= c@.len(),
    ensures
        s@ == path::joined_all(base@, plain_names(c.deep_view().skip(from as int))),
{
    let ghost tail = c.deep_view().skip(from as int);
    let mut s = base.to_owned();
    let mut i: usize = from;
    assert(tail.take(0) =~= Seq::<Seq<char>>::empty());
    while i < c.len()
        invariant
            tail == c.deep_view().skip(from as int),
            from <= i <= c@.len(),
            s@ == path::joined_all(base@, plain_names(tail.take(i - from))),
        decreases c.len() - i,
    {
        let ghost n = i - from;
        assert(tail.take(n + 1).drop_last() =~= tail.take(n));
        assert(tail.take(n + 1).last() == c@[i as int]@);
        let name = c[i].as_str();
        if !text::eq(name, "/") && !text::eq(name, ".") && !text::eq(name, "..") {
            let ghost names = plain_names(tail.take(n));
            assert(names.push(name@).drop_last() =~= names);
            s = path::join(s.as_str(), name);
        }
        i = i + 1;
    }
    assert(tail.take(tail.len() as int) =~= tail);
    s
}

// ---------------------------------------------------------------------
// What arguments and valid lists say
// ---------------------------------------------------------------------

/// Exactly `ro` and `rw` are modes, and each is written as it is read.
pub proof fn law_modes_are_ro_and_rw(s: Seq<char>, mode: MountMode)
    ensures
        parsed_mode(s) == std::result::Result::<MountMode, ErrorView>::Ok(MountMode::Ro) <==> s
            == "ro"@,
        parsed_mode(s) == std::result::Result::<MountMode, ErrorView>::Ok(MountMode::Rw) <==> s
            == "rw"@,
        mode_text(mode) == if mode == MountMode::Ro {
            "ro"@
        } else {
            "rw"@
        },
{
    reveal_strlit("ro");
    reveal_strlit("rw");
    assert("ro"@[1] == 'o' && "rw"@[1] == 'w');
}

/// A `--mount` argument parses exactly when it is a host, a target and a
/// mode with a colon between each, and then to those three.
pub proof fn law_mount_arguments_say_their_triple(s: Seq<char>, host: Seq<char>, target: Seq<char>)
    requires
        host.len() > 0 && !host.contains(':'),
        target.len() > 0 && !target.contains(':'),
    ensures
        s == host + ":"@ + target + ":ro"@ <==> parsed_triple(s) == std::result::Result::<
            TripleView,
            ErrorView,
        >::Ok(TripleView { host, target, mode: MountMode::Ro }),
        s == host + ":"@ + target + ":rw"@ <==> parsed_triple(s) == std::result::Result::<
            TripleView,
            ErrorView,
        >::Ok(TripleView { host, target, mode: MountMode::Rw }),
{
    reveal_strlit(":");
    reveal_strlit("ro");
    reveal_strlit("rw");
    reveal_strlit(":ro");
    reveal_strlit(":rw");
    let r = TripleView { host, target, mode: MountMode::Ro };
    let w = TripleView { host, target, mode: MountMode::Rw };
    law_mount_arguments_round_trip(r);
    law_mount_arguments_round_trip(w);
    assert(host + ":"@ + target + ":ro"@ =~= mount_argument(r));
    assert(host + ":"@ + target + ":rw"@ =~= mount_argument(w));
    if let Ok(t) = parsed_triple(s) {
        law_mount_arguments_are_faithful(s, t);
    }
}

/// A session directory is a host path, mounted at `/work` or at the absolute
/// path after its first colon.
pub proof fn law_session_directories_say_both_sides(
    s: Seq<char>,
    host: Seq<char>,
    target: Seq<char>,
)
    requires
        host.len() > 0 && !host.contains(':'),
        target.len() > 0 && target[0] == '/',
    ensures
        s == host + ":"@ + target ==> parsed_session_directory(s) == std::result::Result::<
            (Seq<char>, Seq<char>),
            ErrorView,
        >::Ok((host, target)),
        parsed_session_directory(host) == std::result::Result::<
            (Seq<char>, Seq<char>),
            ErrorView,
        >::Ok((host, "/work"@)),
        parsed_session_directory(s) == std::result::Result::<
            (Seq<char>, Seq<char>),
            ErrorView,
        >::Ok((host, target)) ==> s == host + ":"@ + target || (s == host && target == "/work"@),
{
    reveal_strlit(":");
    reveal_strlit("/work");
    assert("/work"@[0] == '/');
    let n = host.len() as int;
    if s == host + ":"@ + target {
        assert(s[n] == ':');
        assert(s.contains(':'));
        assert forall|j: int| 0 <= j < n implies s[j] != ':' by {
            assert(s[j] == host[j]);
            assert(host.contains(host[j]));
        }
        text::lemma_first_index_is(s, ':', n);
        assert(s.take(n) =~= host);
        assert(s.skip(n + 1) =~= target);
    }
    if s.contains(':') {
        text::lemma_first_index(s, ':');
        let at = text::first_index(s, ':');
        assert(s =~= s.take(at) + ":"@ + s.skip(at + 1));
    }
}

/// A session directory without a host, or whose target is empty or relative,
/// is refused.
pub proof fn law_session_directories_are_whole(s: Seq<char>)
    ensures
        parsed_session_directory(s) matches Ok(x) ==> x.0.len() > 0 && x.1.len() > 0 && x.1[0]
            == '/',
        s.len() > 0 && s[0] == ':' ==> parsed_session_directory(s) is Err,
        s.len() == 0 ==> parsed_session_directory(s) is Err,
{
    if s.len() > 0 && s[0] == ':' {
        assert(s.contains(':'));
        assert(text::first_index(s, ':') == 0);
        assert(s.take(0).len() == 0);
    }
}

/// Whether a canonical path is a system directory or lies in one.
pub open spec fn in_system(canon: Seq<char>) -> bool {
    ||| canon == "/etc"@ || "/etc/"@.is_prefix_of(canon)
    ||| canon == "/usr"@ || "/usr/"@.is_prefix_of(canon)
    ||| canon == "/bin"@ || "/bin/"@.is_prefix_of(canon)
    ||| canon == "/sbin"@ || "/sbin/"@.is_prefix_of(canon)
    ||| canon == "/lib"@ || "/lib/"@.is_prefix_of(canon)
    ||| canon == "/lib64"@ || "/lib64/"@.is_prefix_of(canon)
}

proof fn lemma_root_slashes()
    ensures
        "/etc"@ + "/"@ == "/etc/"@,
        "/usr"@ + "/"@ == "/usr/"@,
        "/bin"@ + "/"@ == "/bin/"@,
        "/sbin"@ + "/"@ == "/sbin/"@,
        "/lib"@ + "/"@ == "/lib/"@,
        "/lib64"@ + "/"@ == "/lib64/"@,
{
    reveal_strlit("/");
    reveal_strlit("/etc");
    reveal_strlit("/usr");
    reveal_strlit("/bin");
    reveal_strlit("/sbin");
    reveal_strlit("/lib");
    reveal_strlit("/lib64");
    reveal_strlit("/etc/");
    reveal_strlit("/usr/");
    reveal_strlit("/bin/");
    reveal_strlit("/sbin/");
    reveal_strlit("/lib/");
    reveal_strlit("/lib64/");
    assert("/etc"@ + "/"@ =~= "/etc/"@);
    assert("/usr"@ + "/"@ =~= "/usr/"@);
    assert("/bin"@ + "/"@ =~= "/bin/"@);
    assert("/sbin"@ + "/"@ =~= "/sbin/"@);
    assert("/lib"@ + "/"@ =~= "/lib/"@);
    assert("/lib64"@ + "/"@ =~= "/lib64/"@);
}

/// Exactly the paths at or under `/etc`, `/usr`, `/bin`, `/sbin`, `/lib` and
/// `/lib64` have a system root, and it is the one that they are at or under.
pub proof fn law_system_roots(canon: Seq<char>)
    ensures
        system_root(canon) is Some <==> in_system(canon),
        system_root(canon) matches Some(root) ==> (root == canon || (root + "/"@).is_prefix_of(
            canon,
        )) && (root == "/etc"@ || root == "/usr"@ || root == "/bin"@ || root == "/sbin"@ || root
            == "/lib"@ || root == "/lib64"@),
{
    lemma_root_slashes();
}

/// In a valid mount list no target is the root of the container, a system
/// directory or inside one; both sides are absolute, and neither holds a
/// line break or an equals sign.
pub proof fn law_valid_mounts_spare_the_system(
    ts: Seq<TripleView>,
    home: Seq<char>,
    hosts: Seq<Seq<char>>,
    i: int,
)
    requires
        mounts_fault(ts, home, hosts) is None,
        0 <= i < ts.len(),
    ensures
        path::canonical(ts[i].target) != "/"@,
        !in_system(path::canonical(ts[i].target)),
        ts[i].host.len() > 0 && ts[i].host[0] == '/',
        ts[i].target.len() > 0 && ts[i].target[0] == '/',
        !ts[i].host.contains('\n') && !ts[i].host.contains('\r') && !ts[i].host.contains('='),
        !ts[i].target.contains('\n') && !ts[i].target.contains('\r') && !ts[i].target.contains(
            '=',
        ),
{
    lemma_first_triple_fault(ts, 0, i);
    law_system_roots(path::canonical(ts[i].target));
}

/// In a valid mount list no target is the session home or above it.
pub proof fn law_valid_mounts_leave_the_home_visible(
    ts: Seq<TripleView>,
    home: Seq<char>,
    hosts: Seq<Seq<char>>,
    i: int,
)
    requires
        mounts_fault(ts, home, hosts) is None,
        0 <= i < ts.len(),
    ensures
        path::canonical(ts[i].target) != path::canonical(home),
        !(path::canonical(ts[i].target) + "/"@).is_prefix_of(path::canonical(home)),
{
    lemma_home_shadow(ts, home, 0, i);
    path::law_ancestors_lead_their_paths(ts[i].target, home);
}

/// In a valid mount list no two targets are the same place, no two host
/// paths are, and a mount whose target or host path leads to another's is
/// read-only.
pub proof fn law_valid_mounts_nest_under_read_only(
    ts: Seq<TripleView>,
    home: Seq<char>,
    hosts: Seq<Seq<char>>,
    i: int,
    j: int,
)
    requires
        mounts_fault(ts, home, hosts) is None,
        hosts.len() == ts.len(),
        0 <= i < ts.len(),
        0 <= j < ts.len(),
        i != j,
    ensures
        path::canonical(ts[i].target) != path::canonical(ts[j].target),
        (path::canonical(ts[i].target) + "/"@).is_prefix_of(path::canonical(ts[j].target))
            ==> ts[i].mode == MountMode::Ro,
        hosts[i] != hosts[j],
        hosts[i].len() > 0 && (hosts[i] + "/"@).is_prefix_of(hosts[j]) ==> ts[i].mode
            == MountMode::Ro,
{
    law_valid_targets_stack_over_read_only(ts, home, hosts, i, j);
    path::law_ancestors_lead_their_paths(ts[i].target, ts[j].target);
    law_valid_hosts_stack_over_read_only(ts, home, hosts, i, j);
    if hosts[i].len() > 0 && (hosts[i] + "/"@).is_prefix_of(hosts[j]) {
        path::law_components_follow_prefixes(hosts[i], hosts[j]);
    }
}

/// Whether one canonical path is the root, another one, or leads to it.
pub open spec fn leads_to(a: Seq<char>, b: Seq<char>) -> bool {
    a == "/"@ || a == b || (a + "/"@).is_prefix_of(b)
}

/// Whether a triple may stand in a list: absolute sides free of breaks and
/// equals signs, and a target outside the system that hides no home.
pub open spec fn mountable(t: TripleView, home: Seq<char>) -> bool {
    &&& path::is_absolute(t.host) && path::is_absolute(t.target)
    &&& !has_break_or_equals(t.host) && !has_break_or_equals(t.target)
    &&& !in_system(path::canonical(t.target))
    &&& !leads_to(path::canonical(t.target), path::canonical(home))
}

/// Whether two mounts of a list get along: on different places on both
/// sides, each of which nests only under a read-only one.
pub open spec fn compatible(ts: Seq<TripleView>, hosts: Seq<Seq<char>>, i: int, j: int) -> bool {
    let a = path::canonical(ts[i].target);
    let b = path::canonical(ts[j].target);
    let x = path::components(host_path(ts, hosts, i));
    let y = path::components(host_path(ts, hosts, j));
    &&& a != b && x != y
    &&& (a + "/"@).is_prefix_of(b) ==> ts[i].mode == MountMode::Ro
    &&& x.is_prefix_of(y) ==> ts[i].mode == MountMode::Ro
}

proof fn lemma_no_triple_fault(ts: Seq<TripleView>, home: Seq<char>, k: int)
    requires
        0 <= k,
        forall|i: int| 0 <= i < ts.len() ==> mountable(#[trigger] ts[i], home),
    ensures
        first_triple_fault(ts, k) is None,
        home_shadow(ts, home, k) is None,
    decreases ts.len() - k,
{
    if k < ts.len() {
        assert(mountable(ts[k], home));
        path::law_ancestors_lead_their_paths(ts[k].target, home);
        law_system_roots(path::canonical(ts[k].target));
        lemma_no_triple_fault(ts, home, k + 1);
    }
}

proof fn lemma_no_target_conflict(ts: Seq<TripleView>, e: Seq<(Seq<char>, int)>, i: int, j: int)
    requires
        0 <= i < j,
        forall|p: int, q: int|
            #![trigger e[p], e[q]]
            0 <= p < q < e.len() ==> target_conflict(ts, e[p], e[q]) is None,
    ensures
        scan_targets(ts, e, i, j) is None,
    decreases e.len() - i, e.len() - j,
{
    if i < e.len() {
        if j >= e.len() {
            lemma_no_target_conflict(ts, e, i + 1, i + 2);
        } else {
            assert(target_conflict(ts, e[i], e[j]) is None);
            lemma_no_target_conflict(ts, e, i, j + 1);
        }
    }
}

proof fn lemma_no_host_conflict(
    ts: Seq<TripleView>,
    hosts: Seq<Seq<char>>,
    e: Seq<(Seq<Seq<char>>, int)>,
    i: int,
    j: int,
)
    requires
        0 <= i < j,
        forall|p: int, q: int|
            #![trigger e[p], e[q]]
            0 <= p < q < e.len() ==> host_conflict(ts, hosts, e[p], e[q]) is None,
    ensures
        scan_hosts(ts, hosts, e, i, j) is None,
    decreases e.len() - i, e.len() - j,
{
    if i < e.len() {
        if j >= e.len() {
            lemma_no_host_conflict(ts, hosts, e, i + 1, i + 2);
        } else {
            assert(host_conflict(ts, hosts, e[i], e[j]) is None);
            lemma_no_host_conflict(ts, hosts, e, i, j + 1);
        }
    }
}

/// Whether a list holds indexed entries of another one, each at most once.
spec fn placed_once<A>(s: Seq<(A, int)>, e: Seq<(A, int)>) -> bool {
    forall|p: int, q: int|
        #![trigger e[p], e[q]]
        0 <= p < q < e.len() ==> placed_apart(s, e[p], e[q])
}

spec fn placed_apart<A>(s: Seq<(A, int)>, a: (A, int), b: (A, int)) -> bool {
    &&& 0 <= a.1 < s.len() && a == s[a.1]
    &&& 0 <= b.1 < s.len() && b == s[b.1]
    &&& a.1 != b.1
}

proof fn lemma_sorted_distinct<A>(s: Seq<(A, int)>, le: spec_fn((A, int), (A, int)) -> bool)
    requires
        forall|i: int| 0 <= i < s.len() ==> (#[trigger] s[i]).1 == i,
    ensures
        placed_once(s, order::stable_sort(s, le)),
{
    let e = order::stable_sort(s, le);
    order::lemma_stable_sort_members(s, le);
    assert(s.no_duplicates());
    s.lemma_multiset_has_no_duplicates();
    assert(e.no_duplicates()) by {
        e.lemma_multiset_has_no_duplicates_conv();
    }
    assert forall|p: int, q: int| #![trigger e[p], e[q]] 0 <= p < q < e.len() implies
        placed_apart(s, e[p], e[q]) by {
        assert(e.contains(e[p]) && e.contains(e[q]));
        let a = choose|a: int| 0 <= a < s.len() && s[a] == e[p];
        let b = choose|b: int| 0 <= b < s.len() && s[b] == e[q];
        assert(s[a].1 == a && s[b].1 == b);
        assert(e[p] != e[q]);
    }
}

/// A list is valid when every triple is mountable and every two get along:
/// nothing else refuses it.
pub proof fn law_sound_mounts_are_valid(
    ts: Seq<TripleView>,
    home: Seq<char>,
    hosts: Seq<Seq<char>>,
)
    requires
        forall|i: int| 0 <= i < ts.len() ==> mountable(#[trigger] ts[i], home),
        forall|i: int, j: int|
            #![trigger ts[i], ts[j]]
            0 <= i < ts.len() && 0 <= j < ts.len() && i != j ==> compatible(ts, hosts, i, j),
    ensures
        mounts_fault(ts, home, hosts) is None,
{
    lemma_no_triple_fault(ts, home, 0);
    let e = sorted_targets(ts);
    lemma_sorted_distinct(target_entries(ts), order::by_key::<String>());
    assert forall|p: int, q: int| #![trigger e[p], e[q]] 0 <= p < q < e.len() implies
        target_conflict(ts, e[p], e[q]) is None by {
        let i = e[p].1;
        let j = e[q].1;
        assert(ts[i] == ts[i] && ts[j] == ts[j]);
        assert(compatible(ts, hosts, i, j) && compatible(ts, hosts, j, i));
        assert(mountable(ts[i], home) && mountable(ts[j], home));
        path::law_ancestors_lead_their_paths(ts[i].target, ts[j].target);
        path::law_ancestors_lead_their_paths(ts[j].target, ts[i].target);
    }
    lemma_no_target_conflict(ts, e, 0, 1);
    let h = sorted_hosts(ts, hosts);
    lemma_sorted_distinct(host_entries(ts, hosts), order::by_key::<Vec<String>>());
    assert forall|p: int, q: int| #![trigger h[p], h[q]] 0 <= p < q < h.len() implies
        host_conflict(ts, hosts, h[p], h[q]) is None by {
        let i = h[p].1;
        let j = h[q].1;
        assert(ts[i] == ts[i] && ts[j] == ts[j]);
        assert(compatible(ts, hosts, i, j) && compatible(ts, hosts, j, i));
    }
    lemma_no_host_conflict(ts, hosts, h, 0, 1);
}

// ---------------------------------------------------------------------
// What merging, flags and lookups say
// ---------------------------------------------------------------------

/// Whether a profile mount and a CLI mount may stand together: on one
/// target, on unrelated ones, or with a read-only one above the other.
pub open spec fn get_along(p: TripleView, t: TripleView) -> bool {
    let a = path::canonical(p.target);
    let b = path::canonical(t.target);
    ||| a == b
    ||| !leads_to(a, b) && !leads_to(b, a)
    ||| leads_to(a, b) && p.mode == MountMode::Ro
    ||| !leads_to(a, b) && leads_to(b, a) && t.mode == MountMode::Ro
}

proof fn lemma_get_along(p: TripleView, t: TripleView)
    ensures
        get_along(p, t) <==> stacks_cleanly(p, t),
{
    path::law_ancestors_lead_their_paths(p.target, t.target);
    path::law_ancestors_lead_their_paths(t.target, p.target);
}

proof fn lemma_no_cli_fault(cli: Seq<TripleView>, worktree: Seq<char>, k: int)
    requires
        0 <= k,
        forall|i: int, j: int|
            0 <= i < j < cli.len() ==> path::canonical((#[trigger] cli[i]).target)
                != path::canonical((#[trigger] cli[j]).target),
        forall|i: int|
            0 <= i < cli.len() ==> path::canonical((#[trigger] cli[i]).target) != path::canonical(
                worktree,
            ),
    ensures
        cli_fault(cli, worktree, k) is None,
    decreases cli.len() - k,
{
    if k < cli.len() {
        assert(path::canonical(cli[k].target) != path::canonical(worktree));
        lemma_no_cli_fault(cli, worktree, k + 1);
    }
}

proof fn lemma_no_profile_overlap(profile: Seq<TripleView>, t: TripleView, k: int)
    requires
        0 <= k,
        forall|i: int| 0 <= i < profile.len() ==> stacks_cleanly(#[trigger] profile[i], t),
    ensures
        profile_overlap(profile, t, k) is None,
    decreases profile.len() - k,
{
    if k < profile.len() {
        assert(stacks_cleanly(profile[k], t));
        lemma_no_profile_overlap(profile, t, k + 1);
    }
}

proof fn lemma_merge_goes_on(
    profile: Seq<TripleView>,
    cli: Seq<TripleView>,
    k: int,
    merged: Seq<TripleView>,
)
    requires
        0 <= k,
        forall|i: int, j: int|
            0 <= i < profile.len() && 0 <= j < cli.len() ==> stacks_cleanly(
                #[trigger] profile[i],
                #[trigger] cli[j],
            ),
    ensures
        merge_from(profile, cli, k, merged) is Ok,
    decreases cli.len() - k,
{
    if k < cli.len() {
        let t = cli[k];
        assert forall|i: int| 0 <= i < profile.len() implies stacks_cleanly(
            #[trigger] profile[i],
            t,
        ) by {
            assert(stacks_cleanly(profile[i], cli[k]));
        }
        lemma_no_profile_overlap(profile, t, 0);
        let at = target_position(merged, path::canonical(t.target), 0);
        let next = if at >= 0 {
            merged.update(at, t)
        } else {
            merged.push(t)
        };
        lemma_merge_goes_on(profile, cli, k + 1, next);
    }
}

/// A merge succeeds exactly when no two CLI mounts are on one target, none
/// is on the worktree's, and each gets along with every profile mount.
pub proof fn law_merges_refuse_conflicts_only(
    profile: Seq<TripleView>,
    cli: Seq<TripleView>,
    worktree: Seq<char>,
)
    ensures
        merged_mounts(profile, cli, worktree) is Ok <==> {
            &&& forall|i: int, j: int|
                0 <= i < j < cli.len() ==> path::canonical((#[trigger] cli[i]).target)
                    != path::canonical((#[trigger] cli[j]).target)
            &&& forall|i: int|
                0 <= i < cli.len() ==> path::canonical((#[trigger] cli[i]).target)
                    != path::canonical(worktree)
            &&& forall|i: int, j: int|
                0 <= i < profile.len() && 0 <= j < cli.len() ==> get_along(
                    #[trigger] profile[i],
                    #[trigger] cli[j],
                )
        },
{
    assert forall|i: int, j: int| 0 <= i < profile.len() && 0 <= j < cli.len() implies (get_along(
        #[trigger] profile[i],
        #[trigger] cli[j],
    ) <==> stacks_cleanly(profile[i], cli[j])) by {
        lemma_get_along(profile[i], cli[j]);
    }
    if merged_mounts(profile, cli, worktree) is Ok {
        assert forall|i: int, j: int| 0 <= i < j < cli.len() implies path::canonical(
            (#[trigger] cli[i]).target,
        ) != path::canonical((#[trigger] cli[j]).target) by {
            lemma_cli_distinct(cli, worktree, 0, i, j);
        }
        assert forall|i: int| 0 <= i < cli.len() implies path::canonical(
            (#[trigger] cli[i]).target,
        ) != path::canonical(worktree) by {
            lemma_cli_off_worktree(cli, worktree, 0, i);
        }
        assert forall|i: int, j: int|
            0 <= i < profile.len() && 0 <= j < cli.len() implies get_along(
            #[trigger] profile[i],
            #[trigger] cli[j],
        ) by {
            lemma_merge_stacks(profile, cli, 0, profile, i, j);
        }
    } else {
        if {
            &&& forall|i: int, j: int|
                0 <= i < j < cli.len() ==> path::canonical((#[trigger] cli[i]).target)
                    != path::canonical((#[trigger] cli[j]).target)
            &&& forall|i: int|
                0 <= i < cli.len() ==> path::canonical((#[trigger] cli[i]).target)
                    != path::canonical(worktree)
            &&& forall|i: int, j: int|
                0 <= i < profile.len() && 0 <= j < cli.len() ==> get_along(
                    #[trigger] profile[i],
                    #[trigger] cli[j],
                )
        } {
            lemma_no_cli_fault(cli, worktree, 0);
            lemma_merge_goes_on(profile, cli, 0, profile);
        }
    }
}

proof fn lemma_volume_flags(ts: Seq<TripleView>, e: Seq<(nat, int)>, p: int)
    requires
        0 <= p < e.len(),
    ensures
        volume_flags(ts, e).len() == 2 * e.len(),
        volume_flags(ts, e)[2 * p] == "--volume"@,
        volume_flags(ts, e)[2 * p + 1] == volume_text(ts[e[p].1]),
    decreases e.len(),
{
    let t = e.drop_last();
    let before = volume_flags(ts, t);
    if p < t.len() {
        lemma_volume_flags(ts, t, p);
        assert(t[p] == e[p]);
        assert(volume_flags(ts, e)[2 * p] == before[2 * p]);
        assert(volume_flags(ts, e)[2 * p + 1] == before[2 * p + 1]);
    } else if t.len() > 0 {
        lemma_volume_flags(ts, t, 0);
    }
}

/// Every mount is bound by exactly one volume flag, with its host path, its
/// canonical target and its mode, and there are no others.
pub proof fn law_every_mount_has_its_flag(ts: Seq<TripleView>, i: int)
    requires
        0 <= i < ts.len(),
    ensures
        volume_flags(ts, mount_order(ts)).len() == 2 * ts.len(),
        exists|p: int|
            0 <= p < ts.len() && volume_flags(ts, mount_order(ts))[2 * p] == "--volume"@
                && #[trigger] volume_flags(ts, mount_order(ts))[2 * p + 1] == ts[i].host + ":"@
                + path::canonical(ts[i].target) + (if ts[i].mode == MountMode::Ro {
                ":ro"@
            } else {
                ":rw"@
            }),
{
    reveal_strlit(":");
    reveal_strlit("ro");
    reveal_strlit("rw");
    reveal_strlit(":ro");
    reveal_strlit(":rw");
    assert(":"@ + "ro"@ =~= ":ro"@);
    assert(":"@ + "rw"@ =~= ":rw"@);
    let all = depth_entries(ts);
    let e = mount_order(ts);
    order::lemma_stable_sort_members(all, order::by_key::<order::Weight>());
    assert(all.contains(all[i]));
    assert(e.contains(all[i]));
    let p = choose|p: int| 0 <= p < e.len() && e[p] == all[i];
    lemma_volume_flags(ts, e, p);
    let flag = volume_flags(ts, e)[2 * p + 1];
    let tail = if ts[i].mode == MountMode::Ro {
        ":ro"@
    } else {
        ":rw"@
    };
    assert(flag =~= ts[i].host + ":"@ + path::canonical(ts[i].target) + tail);
}

/// A session home without a source of its own, or with `tmpfs`, is a tmpfs;
/// with a source it is that source, writable.
pub proof fn law_home_flags(home: Seq<char>, source: Seq<char>)
    ensures
        home_flags(home, None) == seq!["--tmpfs"@, home],
        home_flags(home, Some("tmpfs"@)) == seq!["--tmpfs"@, home],
        source != "tmpfs"@ ==> home_flags(home, Some(source)) == seq![
            "--volume"@,
            source + ":"@ + home + ":rw"@,
        ],
{
}

proof fn lemma_joined_all(base: Seq<char>, names: Seq<Seq<char>>)
    requires
        base.len() > 0,
        base.last() != '/',
        names.len() > 0,
        forall|i: int| 0 <= i < names.len() ==> path::clean_piece(#[trigger] names[i]),
    ensures
        path::joined_all(base, names) == base + "/"@ + text::join(names, "/"@),
        path::joined_all(base, names).last() != '/',
    decreases names.len(),
{
    let t = names.drop_last();
    let name = names.last();
    assert(path::clean_piece(names[names.len() - 1]));
    assert(name.last() != '/') by {
        if name.last() == '/' {
            assert(name[name.len() - 1] == '/');
        }
    }
    if t.len() > 0 {
        assert forall|i: int| 0 <= i < t.len() implies path::clean_piece(#[trigger] t[i]) by {
            assert(t[i] == names[i]);
        }
        lemma_joined_all(base, t);
        assert(path::joined_all(base, names) =~= base + "/"@ + text::join(names, "/"@));
    } else {
        assert(t =~= Seq::<Seq<char>>::empty());
        assert(path::joined_all(base, t) == base);
    }
}

proof fn lemma_component_pieces_clean(a: Seq<Seq<char>>, b: Seq<Seq<char>>)
    requires
        forall|i: int| 0 <= i < b.len() ==> path::clean_piece(#[trigger] b[i]),
    ensures
        path::component_pieces(a + b) == path::component_pieces(a) + b,
    decreases b.len(),
{
    if b.len() == 0 {
        assert(a + b =~= a);
        assert(path::component_pieces(a) + b =~= path::component_pieces(a));
    } else {
        let t = b.drop_last();
        assert forall|i: int| 0 <= i < t.len() implies path::clean_piece(#[trigger] t[i]) by {
            assert(t[i] == b[i]);
        }
        lemma_component_pieces_clean(a, t);
        assert(path::clean_piece(b[b.len() - 1]));
        assert((a + b).drop_last() =~= a + t);
        assert((a + b).last() == b.last());
        assert(path::component_pieces(a + b) =~= path::component_pieces(a) + b);
    }
}

/// Pieces of a canonical absolute path: an empty one, then clean ones.
proof fn lemma_canonical_pieces(x: Seq<char>)
    requires
        path::is_absolute(x),
        path::canonical(x) != "/"@,
    ensures
        path::is_absolute(path::canonical(x)),
        ({
            let s = text::split(path::canonical(x), '/');
            &&& s.len() > 1
            &&& s[0].len() == 0
            &&& forall|i: int| 1 <= i < s.len() ==> path::clean_piece(#[trigger] s[i])
        }),
{
    path::lemma_slash();
    path::law_canonical_clean(x);
    let parts = path::resolve_parts(text::split(x, '/'));
    let e = Seq::<char>::empty();
    let j = text::join(parts, "/"@);
    if parts.len() == 0 {
        assert(j =~= e);
        assert(path::canonical(x) =~= "/"@);
    }
    assert(path::canonical(x) =~= e + seq!['/'] + j);
    path::lemma_split_concat(e, j, '/');
    assert(text::split(e, '/') == seq![e]);
    path::lemma_split_join(parts, '/');
    let s = text::split(path::canonical(x), '/');
    assert(s =~= seq![e] + parts);
    assert forall|i: int| 1 <= i < s.len() implies path::clean_piece(#[trigger] s[i]) by {
        assert(s[i] == parts[i - 1]);
    }
}

/// Looking a nested mount up under a mount goes to the host path of that
/// mount, extended by what its target lacks of the nested one's.
proof fn lemma_chain_end(host: Seq<char>, above: Seq<char>, below: Seq<char>)
    requires
        host.len() > 0,
        host.last() != '/',
        path::is_absolute(above),
        path::is_absolute(below),
        path::canonical(above) != "/"@,
        (path::canonical(above) + "/"@).is_prefix_of(path::canonical(below)),
    ensures
        ({
            let a = path::canonical(above);
            let b = path::canonical(below);
            let chain = chain_of(host, names_below(a, b));
            &&& chain.len() > 0
            &&& chain.last() == host + b.skip(a.len() as int)
        }),
{
    path::lemma_slash();
    let a = path::canonical(above);
    let b = path::canonical(below);
    let rest = b.skip(a.len() as int + 1);
    let head = a + "/"@;
    assert(head =~= b.subrange(0, head.len() as int));
    assert(b =~= a + seq!['/'] + rest);
    assert(b != "/"@) by {
        assert(b.len() > 1);
    }
    lemma_canonical_pieces(above);
    lemma_canonical_pieces(below);
    path::lemma_split_concat(a, rest, '/');
    let sa = text::split(a, '/');
    let sr = text::split(rest, '/');
    let sb = text::split(b, '/');
    text::lemma_split_nonempty(rest, '/');
    assert forall|i: int| 0 <= i < sr.len() implies path::clean_piece(#[trigger] sr[i]) by {
        assert(sb[sa.len() + i] == sr[i]);
    }
    lemma_component_pieces_clean(sa, sr);
    let names = names_below(a, b);
    assert(path::components(b) =~= path::components(a) + sr);
    assert(names =~= sr);
    lemma_joined_all(host, names);
    path::lemma_join_split(rest, '/');
    assert(names.take(names.len() as int) =~= names);
    assert(chain_of(host, names).last() == host + "/"@ + rest);
    assert(b.skip(a.len() as int) =~= "/"@ + rest);
    assert(host + "/"@ + rest =~= host + ("/"@ + rest));
}

/// A mount nested under read-only ones is looked up, under its own target,
/// in one of them: a read-only mount that leads to it, through whose host
/// path the nested target is reached.
pub proof fn law_nested_mounts_are_looked_up(ts: Seq<TripleView>, i: int, j: int)
    requires
        0 <= i < ts.len(),
        0 <= j < ts.len(),
        ts[j].mode == MountMode::Ro,
        (path::canonical(ts[j].target) + "/"@).is_prefix_of(path::canonical(ts[i].target)),
        forall|k: int|
            0 <= k < ts.len() ==> path::is_absolute((#[trigger] ts[k]).target) && ts[k].host.len()
                > 0 && ts[k].host.last() != '/' && path::canonical(ts[k].target) != "/"@,
    ensures
        exists|c: NestedView, a: int|
            {
                &&& #[trigger] nested_checks(ts, ts.len() as int).contains(c)
                &&& 0 <= a < ts.len()
                &&& ts[a].mode == MountMode::Ro
                &&& (path::canonical(ts[a].target) + "/"@).is_prefix_of(
                    path::canonical(ts[i].target),
                )
                &&& c.descendant == ts[i].target
                &&& c.ancestor == (#[trigger] ts[a]).target
                &&& c.chain.len() > 0
                &&& c.chain.last() == ts[a].host + path::canonical(ts[i].target).skip(
                    path::canonical(ts[a].target).len() as int,
                )
            },
{
    let canon = path::canonical(ts[i].target);
    path::law_ancestors_lead_their_paths(ts[j].target, ts[i].target);
    assert(path::canonical(ts[j].target) != canon) by {
        assert((path::canonical(ts[j].target) + "/"@).len() <= canon.len());
        path::lemma_slash();
    }
    law_nested_mounts_are_checked(ts, i, j);
    let c = nested_check(ts, i)->0;
    let a = nearest_above(ts, canon, ts.len() as int);
    lemma_nearest_is(ts, canon, ts.len() as int);
    assert(path::canonical(ts[a].target) != "/"@);
    path::law_ancestors_lead_their_paths(ts[a].target, ts[i].target);
    assert(path::is_absolute(ts[i].target));
    lemma_chain_end(ts[a].host, ts[a].target, ts[i].target);
    assert(nested_checks(ts, ts.len() as int).contains(c));
    assert(c.ancestor == ts[a].target);
}

proof fn lemma_nearest_is(ts: Seq<TripleView>, canon: Seq<char>, k: int)
    requires
        0 <= k <= ts.len(),
    ensures
        ({
            let at = nearest_above(ts, canon, k);
            at >= 0 ==> at < k && ts[at].mode == MountMode::Ro && strictly_above(ts[at], canon)
        }),
    decreases k,
{
    if k > 0 {
        lemma_nearest_is(ts, canon, k - 1);
    }
}

/// A lookup misses exactly when a path of its chain is not there, and names
/// the first one that is not.
pub proof fn law_missing_mountpoints_are_named(chain: Seq<Seq<char>>, found: Seq<bool>, j: int)
    requires
        0 <= j < chain.len(),
        j <= found.len(),
        j == found.len() || !found[j],
        forall|i: int| 0 <= i < j ==> found[i],
    ensures
        first_missing(chain, found, 0) == Some(chain[j]),
{
    lemma_first_missing(chain, found, 0, j);
}

proof fn lemma_first_missing(chain: Seq<Seq<char>>, found: Seq<bool>, k: int, j: int)
    requires
        0 <= k <= j < chain.len(),
        j <= found.len(),
        j == found.len() || !found[j],
        forall|i: int| 0 <= i < j ==> found[i],
    ensures
        first_missing(chain, found, k) == Some(chain[j]),
    decreases j - k,
{
    if k < j {
        assert(found[k]);
        lemma_first_missing(chain, found, k + 1, j);
    }
}

proof fn lemma_host_step(parent: Seq<char>, name: Seq<char>, resolved: Seq<Option<Seq<char>>>, k: int)
    requires
        path::is_absolute(parent),
        path::clean_piece(name),
        0 <= k < resolved.len(),
    ensures
        canonical_host(parent + "/"@ + name, resolved, k + 1) == parent + "/"@ + name || canonical_host(
            parent + "/"@ + name,
            resolved,
            k + 1,
        ) == path::joined(canonical_host(parent, resolved.skip(1), k), name),
        (exists|m: int|
            k <= m < resolved.len() - 1 && m <= ancestor_steps(parent)
                && #[trigger] resolved[m + 1] is Some) ==> canonical_host(
            parent + "/"@ + name,
            resolved,
            k + 1,
        ) == path::joined(canonical_host(parent, resolved.skip(1), k), name),
    decreases resolved.len() - k,
{
    path::lemma_slash();
    let s = parent + "/"@ + name;
    path::lemma_split_concat(parent, name, '/');
    path::lemma_split_without(name, '/');
    let one = seq![name];
    assert(path::clean_piece(one[0]));
    lemma_component_pieces_clean(text::split(parent, '/'), one);
    let c = path::components(parent);
    let d = path::components(s);
    assert(s[0] == parent[0]);
    assert(d =~= c.push(name));
    let later = resolved.skip(1);
    if k + 1 < resolved.len() && k <= ancestor_steps(parent) {
        assert(later[k] == resolved[k + 1]);
        match resolved[k + 1] {
            Some(base) => {
                let tail = c.skip(c.len() - k);
                assert(d.skip(d.len() - (k + 1)) =~= tail.push(name));
                assert(tail.push(name).drop_last() =~= tail);
                assert(name != "/"@) by {
                    if name == "/"@ {
                        assert(name[0] == '/');
                    }
                }
                assert(path::component_rank(name) == 3);
                assert(plain_names(tail.push(name)) == plain_names(tail).push(name));
                assert(plain_names(tail).push(name).drop_last() =~= plain_names(tail));
            },
            None => {
                lemma_host_step(parent, name, resolved, k + 1);
            },
        }
    }
}

/// A host path that resolves is what it resolves to. One that does not, below
/// an ancestor that does, is what its parent comes to, with its own name
/// after it.
pub proof fn law_host_paths_resolve_by_existing_prefix(
    parent: Seq<char>,
    name: Seq<char>,
    resolved: Seq<Option<Seq<char>>>,
    base: Seq<char>,
    m: int,
)
    requires
        path::is_absolute(parent),
        path::clean_piece(name),
        resolved.len() > 0,
    ensures
        resolved[0] == Some(base) ==> canonical_host(parent, resolved, 0) == base,
        resolved[0] is None && 0 <= m < resolved.len() - 1 && m <= ancestor_steps(parent)
            && resolved[m + 1] is Some ==> canonical_host(parent + "/"@ + name, resolved, 0)
            == path::joined(canonical_host(parent, resolved.skip(1), 0), name),
{
    let c = path::components(parent);
    if resolved[0] == Some(base) {
        assert(c.skip(c.len() - 0) =~= Seq::<Seq<char>>::empty());
        assert(plain_names(Seq::<Seq<char>>::empty()) =~= Seq::<Seq<char>>::empty());
    }
    if resolved[0] is None && 0 <= m < resolved.len() - 1 && m <= ancestor_steps(parent)
        && resolved[m + 1] is Some {
        lemma_host_step(parent, name, resolved, 0);
        path::lemma_slash();
        let s = parent + "/"@ + name;
        assert(s[0] == parent[0]);
    }
}

/// The first of a path's ancestors is the path, and each one, with the next name
/// of the path below it, is the one before.
pub proof fn law_ancestors_step_up_by_a_name(s: Seq<char>, k: int)
    requires
        1 <= k < ancestor_steps(s),
    ensures
        host_ancestor(s, 0) == s,
        host_ancestor(s, k) == path::joined(
            host_ancestor(s, k + 1),
            path::components(s)[path::components(s).len() - k - 1],
        ),
{
    let c = path::components(s);
    let m = c.len() - k;
    let name = c[m - 1];
    let low = c.take(m);
    let up = c.take(m - 1);
    reveal_strlit("/");
    assert("/"@ =~= seq!['/']);
    path::law_components_are_names(s, m - 1);
    path::law_components_are_names(s, m - 2);
    path::law_components_are_names(s, 0);
    if path::is_absolute(s) {
        let a = low.skip(1);
        let b = up.skip(1);
        assert(a.drop_last() =~= b);
        assert(a.last() == name);
        let base = components_text(up);
        assert(base == "/"@ + text::join(b, "/"@));
        if b.len() == 0 {
            assert(text::join(b, "/"@) =~= Seq::<char>::empty());
            assert(base.last() == '/');
            assert(a =~= seq![name]);
            assert(components_text(low) =~= base + name);
        } else {
            assert(b.last() == c[m - 2]);
            lemma_join_ends_in_last(b);
            assert(base.last() == b.last().last());
            assert(b.last().last() != '/') by {
                if b.last().last() == '/' {
                    assert(b.last()[b.last().len() - 1] == '/');
                    assert(b.last().contains('/'));
                }
            }
            assert(text::join(a, "/"@) == text::join(b, "/"@) + "/"@ + name);
            assert(components_text(low) =~= base + "/"@ + name);
        }
    } else {
        assert(c[0] != "/"@) by {
            if c[0] == "/"@ {
                assert(c[0][0] == '/');
                assert(c[0].contains('/'));
            }
        }
        assert(low.drop_last() =~= up);
        if up.len() == 0 {
            assert(text::join(up, "/"@) =~= Seq::<char>::empty());
            assert(components_text(low) =~= name);
        } else {
            lemma_join_ends_in_last(up);
            assert(up.last() == c[m - 2]);
            assert(up.last().last() != '/') by {
                if up.last().last() == '/' {
                    assert(up.last()[up.last().len() - 1] == '/');
                    assert(up.last().contains('/'));
                }
            }
        }
    }
}

proof fn lemma_join_ends_in_last(parts: Seq<Seq<char>>)
    requires
        parts.len() > 0,
        parts.last().len() > 0,
    ensures
        text::join(parts, "/"@).len() > 0,
        text::join(parts, "/"@).last() == parts.last().last(),
{
}

/// A view says what the fields hold, each under its own name.
pub proof fn law_views_say_the_fields(
    mount_triple: MountTriple,
    nested_ro_check: NestedRoCheck,
)
    ensures
        mount_triple.deep_view().host == mount_triple.host_source@,
        mount_triple.deep_view().target == mount_triple.container_target@,
        mount_triple.deep_view().mode == mount_triple.mode,
        nested_ro_check.deep_view().descendant == nested_ro_check.descendant@,
        nested_ro_check.deep_view().ancestor == nested_ro_check.ancestor@,
        nested_ro_check.deep_view().chain == nested_ro_check.chain.deep_view(),
{
}

} // verus!
