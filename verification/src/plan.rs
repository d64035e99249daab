//! Session planning: from command-line input and a resolved profile to the
//! session, its mounts, and the isolator's creation input.

use vstd::prelude::*;

use crate::error::{CistellaError, ErrorView, Result};
use crate::framework::conduct;
use crate::framework::contract::ClaimView;
use crate::framework::isolator::{CreateSpec, SpecView};
use crate::framework::policy;
use crate::framework::policy::{PolicySet, PolicyView};
use crate::identity;
use crate::mount;
use crate::mount::{MountMode, MountTriple, NestedView, TripleView};
use crate::path;
use crate::profile::{Profile, ProfileView};
use crate::session;
use crate::session::{Session, SessionView};
use crate::table;
use crate::template;
use crate::text;
use crate::transport;

verus! {

// ---------------------------------------------------------------------
// Arguments
// ---------------------------------------------------------------------

/// Every argument parsed in order, or the refusal of the first bad one.
pub open spec fn parsed_all<T>(
    args: Seq<Seq<char>>,
    parse: spec_fn(Seq<char>) -> std::result::Result<T, ErrorView>,
) -> std::result::Result<Seq<T>, ErrorView>
    decreases args.len(),
{
    if args.len() == 0 {
        Ok(Seq::empty())
    } else {
        match parsed_all(args.drop_last(), parse) {
            Err(e) => Err(e),
            Ok(head) => match parse(args.last()) {
                Err(e) => Err(e),
                Ok(x) => Ok(head.push(x)),
            },
        }
    }
}

proof fn lemma_parsed_all_error<T>(
    args: Seq<Seq<char>>,
    parse: spec_fn(Seq<char>) -> std::result::Result<T, ErrorView>,
    k: int,
)
    requires
        0 <= k <= args.len(),
        parsed_all(args.take(k), parse) is Err,
    ensures
        parsed_all(args, parse) == parsed_all(args.take(k), parse),
    decreases args.len() - k,
{
    if k < args.len() {
        assert(args.take(k + 1).drop_last() =~= args.take(k));
        lemma_parsed_all_error(args, parse, k + 1);
    } else {
        assert(args.take(k) =~= args);
    }
}

/// Parser of `--label` arguments.
pub open spec fn label_parser() -> spec_fn(Seq<char>) -> std::result::Result<
    (Seq<char>, Seq<char>),
    ErrorView,
> {
    |a: Seq<char>| session::parsed_label(a)
}

/// Parser of `--supplement` arguments.
pub open spec fn supplement_parser() -> spec_fn(Seq<char>) -> std::result::Result<
    (Seq<char>, Seq<char>),
    ErrorView,
> {
    |a: Seq<char>| template::parsed_supplement(a)
}

/// Parser of `--mount` arguments.
pub open spec fn mount_parser() -> spec_fn(Seq<char>) -> std::result::Result<TripleView, ErrorView> {
    |a: Seq<char>| mount::parsed_triple(a)
}

/// Parses and validates `--label k=v` arguments (refuses `cistella.`).
pub fn parse_label_filters(labels: &[String]) -> (r: Result<Vec<(String, String)>>)
    ensures
        crate::error::agrees(r, parsed_all(labels.deep_view(), label_parser())),
{
    let ghost all = labels.deep_view();
    let mut out: Vec<(String, String)> = Vec::new();
    let mut k: usize = 0;
    assert(all.take(0) =~= Seq::<Seq<char>>::empty());
    assert(out.deep_view() =~= Seq::<(Seq<char>, Seq<char>)>::empty());
    while k < labels.len()
        invariant
            all == labels.deep_view(),
            k <= labels@.len(),
            parsed_all(all.take(k as int), label_parser()) == std::result::Result::<
                Seq<(Seq<char>, Seq<char>)>,
                ErrorView,
            >::Ok(out.deep_view()),
        decreases labels.len() - k,
    {
        let ghost before = out.deep_view();
        assert(all.take(k + 1).drop_last() =~= all.take(k as int));
        assert(all.take(k + 1).last() == labels@[k as int]@);
        match session::parse_cli_label(labels[k].as_str()) {
            Ok(p) => {
                let ghost pv = p.deep_view();
                out.push(p);
                assert(out.deep_view() =~= before.push(pv));
            },
            Err(e) => {
                proof {
                    lemma_parsed_all_error(all, label_parser(), k + 1);
                }
                return Err(e);
            },
        }
        k = k + 1;
    }
    assert(all.take(k as int) =~= all);
    Ok(out)
}

/// Parses `--supplement k=v` arguments.
pub fn parse_supplements(args: &[String]) -> (r: Result<Vec<(String, String)>>)
    ensures
        crate::error::agrees(r, parsed_all(args.deep_view(), supplement_parser())),
{
    let ghost all = args.deep_view();
    let mut out: Vec<(String, String)> = Vec::new();
    let mut k: usize = 0;
    assert(all.take(0) =~= Seq::<Seq<char>>::empty());
    assert(out.deep_view() =~= Seq::<(Seq<char>, Seq<char>)>::empty());
    while k < args.len()
        invariant
            all == args.deep_view(),
            k <= args@.len(),
            parsed_all(all.take(k as int), supplement_parser()) == std::result::Result::<
                Seq<(Seq<char>, Seq<char>)>,
                ErrorView,
            >::Ok(out.deep_view()),
        decreases args.len() - k,
    {
        let ghost before = out.deep_view();
        assert(all.take(k + 1).drop_last() =~= all.take(k as int));
        assert(all.take(k + 1).last() == args@[k as int]@);
        match template::parse_supplement_arg(args[k].as_str()) {
            Ok(p) => {
                let ghost pv = p.deep_view();
                out.push(p);
                assert(out.deep_view() =~= before.push(pv));
            },
            Err(e) => {
                proof {
                    lemma_parsed_all_error(all, supplement_parser(), k + 1);
                }
                return Err(e);
            },
        }
        k = k + 1;
    }
    assert(all.take(k as int) =~= all);
    Ok(out)
}

/// Parses `--mount <host>:<target>:<mode>` arguments.
pub fn parse_cli_mounts(args: &[String]) -> (r: Result<Vec<MountTriple>>)
    ensures
        crate::error::agrees(r, parsed_all(args.deep_view(), mount_parser())),
{
    let ghost all = args.deep_view();
    let mut out: Vec<MountTriple> = Vec::new();
    let mut k: usize = 0;
    assert(all.take(0) =~= Seq::<Seq<char>>::empty());
    assert(out.deep_view() =~= Seq::<TripleView>::empty());
    while k < args.len()
        invariant
            all == args.deep_view(),
            k <= args@.len(),
            parsed_all(all.take(k as int), mount_parser()) == std::result::Result::<
                Seq<TripleView>,
                ErrorView,
            >::Ok(out.deep_view()),
        decreases args.len() - k,
    {
        let ghost before = out.deep_view();
        assert(all.take(k + 1).drop_last() =~= all.take(k as int));
        assert(all.take(k + 1).last() == args@[k as int]@);
        match mount::parse_mount_triple(args[k].as_str()) {
            Ok(t) => {
                let ghost tv = t.deep_view();
                out.push(t);
                assert(out.deep_view() =~= before.push(tv));
            },
            Err(e) => {
                proof {
                    lemma_parsed_all_error(all, mount_parser(), k + 1);
                }
                return Err(e);
            },
        }
        k = k + 1;
    }
    assert(all.take(k as int) =~= all);
    Ok(out)
}

/// Canonical form of a host directory; a relative one refuses.
pub open spec fn directory_of(dir: Seq<char>, resolved: Seq<Option<Seq<char>>>) -> std::result::Result<
    Seq<char>,
    ErrorView,
> {
    if path::is_absolute(dir) {
        Ok(mount::canonical_host(dir, resolved, 0))
    } else {
        Err(ErrorView::Runtime("directory must be absolute: "@ + dir))
    }
}

/// Canonicalizes a host directory via its longest existing prefix.
///
/// Conduct-time and selector-time canonicalize the same way so that equality
/// matches. `resolved` holds what the system makes of the directory and each
/// of its ancestors, nearest first.
pub fn canonical_directory(dir: &str, resolved: &[Option<String>]) -> (r: Result<String>)
    ensures
        crate::error::agrees(r, directory_of(dir@, resolved.deep_view())),
{
    if !path::absolute(dir) {
        return Err(CistellaError::Runtime(text::cat("directory must be absolute: ", dir)));
    }
    Ok(mount::canonicalize_host_source(dir, resolved))
}

/// Default identity label: the invoking user, else `default`.
pub open spec fn identity_of(user: Seq<char>, id_output: Seq<char>) -> Seq<char> {
    if user.len() > 0 {
        user
    } else if text::trimmed(id_output).len() > 0 {
        text::trimmed(id_output)
    } else {
        "default"@
    }
}

/// Returns the default identity label: `$USER`, else the output of `id -un`,
/// else `default`.
pub fn default_identity(user: &str, id_output: &str) -> (s: String)
    ensures
        s@ == identity_of(user@, id_output@),
{
    if !user.is_empty() {
        return user.to_owned();
    }
    let out = text::trim(id_output);
    if out.as_str().is_empty() {
        "default".to_owned()
    } else {
        out
    }
}

/// Harness argv: the command line's, else the profile's.
pub open spec fn argv_of(command: Seq<Seq<char>>, profile: Option<Seq<Seq<char>>>) -> std::result::Result<
    Seq<Seq<char>>,
    ErrorView,
> {
    if command.len() > 0 {
        Ok(command)
    } else {
        match profile {
            Some(argv) => Ok(argv),
            None => Err(
                ErrorView::Runtime(
                    "no harness argv: pass command after -- or set profile command"@,
                ),
            ),
        }
    }
}

fn copy_slice(list: &[String]) -> (out: Vec<String>)
    ensures
        out.deep_view() == list.deep_view(),
{
    let mut out: Vec<String> = Vec::new();
    let ghost e = out.deep_view();
    transport::push_all(&mut out, list);
    assert(e + list.deep_view() =~= list.deep_view());
    out
}

/// Chooses the harness argv: the command line wins over the profile.
pub fn choose_argv(command: &[String], profile: &Option<Vec<String>>) -> (r: Result<Vec<String>>)
    ensures
        crate::error::agrees(r, argv_of(command.deep_view(), profile.deep_view())),
{
    assert(command@.len() == command.deep_view().len());
    if command.len() > 0 {
        return Ok(copy_slice(command));
    }
    match profile {
        Some(argv) => Ok(text::copy_texts(argv)),
        None => Err(
            CistellaError::Runtime(
                "no harness argv: pass command after -- or set profile command".to_owned(),
            ),
        ),
    }
}

// ---------------------------------------------------------------------
// Accepted environment
// ---------------------------------------------------------------------

/// Accepted pairs of a profile: each accepted name with the invoker's value.
/// An absent name refuses, and so does one that the profile assigns.
pub open spec fn accepted_pairs(
    names: Seq<Seq<char>>,
    assigned: Seq<(Seq<char>, Seq<char>)>,
    values: Seq<Option<Seq<char>>>,
) -> std::result::Result<Seq<(Seq<char>, Seq<char>)>, ErrorView>
    decreases names.len(),
{
    if names.len() == 0 {
        Ok(Seq::empty())
    } else {
        let k = names.len() - 1;
        match accepted_pairs(names.drop_last(), assigned, values) {
            Err(e) => Err(e),
            Ok(head) => if table::lookup(assigned, names.last(), 0) is Some {
                Err(
                    ErrorView::Profile(
                        "environment acceptance collides with assignment: "@ + names.last(),
                    ),
                )
            } else if k < values.len() && values[k] is Some {
                Ok(head.push((names.last(), values[k]->0)))
            } else {
                Err(ErrorView::Profile("environment acceptance absent: "@ + names.last()))
            },
        }
    }
}

proof fn lemma_accepted_error(
    names: Seq<Seq<char>>,
    assigned: Seq<(Seq<char>, Seq<char>)>,
    values: Seq<Option<Seq<char>>>,
    k: int,
)
    requires
        0 <= k <= names.len(),
        accepted_pairs(names.take(k), assigned, values) is Err,
    ensures
        accepted_pairs(names, assigned, values) == accepted_pairs(
            names.take(k),
            assigned,
            values,
        ),
    decreases names.len() - k,
{
    if k < names.len() {
        assert(names.take(k + 1).drop_last() =~= names.take(k));
        lemma_accepted_error(names, assigned, values, k + 1);
    } else {
        assert(names.take(k) =~= names);
    }
}

/// Snapshots the invoker environment that a profile accepts, in profile-list
/// order. `values` holds the invoker's value of each accepted name. Absent
/// names and collisions with assignments refuse, before any session exists.
pub fn snapshot_acceptances(profile: &Profile, values: &[Option<String>]) -> (r: Result<
    Vec<(String, String)>,
>)
    ensures
        crate::error::agrees(
            r,
            accepted_pairs(
                profile.deep_view().acceptances,
                profile.deep_view().environment,
                values.deep_view(),
            ),
        ),
{
    let names = &profile.environment_acceptances;
    let ghost all = names.deep_view();
    let ghost assigned = profile.environment_assignments.deep_view();
    let ghost vv = values.deep_view();
    let mut out: Vec<(String, String)> = Vec::new();
    let mut k: usize = 0;
    assert(all.take(0) =~= Seq::<Seq<char>>::empty());
    assert(out.deep_view() =~= Seq::<(Seq<char>, Seq<char>)>::empty());
    assert(values@.len() == vv.len());
    while k < names.len()
        invariant
            all == names.deep_view(),
            all == profile.deep_view().acceptances,
            assigned == profile.environment_assignments.deep_view(),
            vv == values.deep_view(),
            values@.len() == vv.len(),
            k <= names@.len(),
            accepted_pairs(all.take(k as int), assigned, vv) == std::result::Result::<
                Seq<(Seq<char>, Seq<char>)>,
                ErrorView,
            >::Ok(out.deep_view()),
        decreases names.len() - k,
    {
        let name = names[k].as_str();
        let ghost before = out.deep_view();
        assert(all.take(k + 1).drop_last() =~= all.take(k as int));
        assert(all.take(k + 1).last() == name@);
        if table::lookup_text(&profile.environment_assignments, name).is_some() {
            proof {
                lemma_accepted_error(all, assigned, vv, k + 1);
            }
            return Err(
                CistellaError::Profile(
                    text::cat("environment acceptance collides with assignment: ", name),
                ),
            );
        }
        if k < values.len() && values[k].is_some() {
            assert(vv[k as int] == values@[k as int].deep_view());
            match &values[k] {
                Some(v) => {
                    out.push((name.to_owned(), v.clone()));
                    assert(out.deep_view() =~= before.push((name@, v@)));
                },
                None => {},
            }
        } else {
            proof {
                if k < values@.len() {
                    assert(vv[k as int] == values@[k as int].deep_view());
                }
                lemma_accepted_error(all, assigned, vv, k + 1);
            }
            return Err(
                CistellaError::Profile(text::cat("environment acceptance absent: ", name)),
            );
        }
        k = k + 1;
    }
    assert(all.take(k as int) =~= all);
    Ok(out)
}

// ---------------------------------------------------------------------
// Session plan
// ---------------------------------------------------------------------

/// Everything a session plan is made from besides the profile.
#[derive(Debug)]
pub struct SessionInput {
    /// Minted session id.
    pub id: String,
    /// Canonical host directory.
    pub directory: String,
    /// Container target of the worktree.
    pub worktree_target: String,
    /// Profile name.
    pub profile_name: String,
    /// Profile digest.
    pub profile_digest: String,
    /// Identity label.
    pub identity: String,
    /// Resolved image digest.
    pub image: String,
    /// Harness argv from the command line (may be empty).
    pub command: Vec<String>,
    /// `--mount` arguments.
    pub cli_mounts: Vec<String>,
    /// Host path of the session's scratch directory.
    pub scratch: String,
}

/// What a session input says.
pub struct InputView {
    pub id: Seq<char>,
    pub directory: Seq<char>,
    pub worktree_target: Seq<char>,
    pub profile_name: Seq<char>,
    pub profile_digest: Seq<char>,
    pub identity: Seq<char>,
    pub image: Seq<char>,
    pub command: Seq<Seq<char>>,
    pub cli_mounts: Seq<Seq<char>>,
    pub scratch: Seq<char>,
}

impl DeepView for SessionInput {
    type V = InputView;

    open spec fn deep_view(&self) -> InputView {
        InputView {
            id: self.id@,
            directory: self.directory@,
            worktree_target: self.worktree_target@,
            profile_name: self.profile_name@,
            profile_digest: self.profile_digest@,
            identity: self.identity@,
            image: self.image@,
            command: self.command.deep_view(),
            cli_mounts: self.cli_mounts.deep_view(),
            scratch: self.scratch@,
        }
    }
}

/// A planned session: identity, full mount set, and the parsed CLI mounts.
#[derive(Debug)]
pub struct SessionPlan {
    /// Session identity.
    pub session: Session,
    /// Every mount: profile and CLI merged, the worktree, and the scratch.
    pub triples: Vec<MountTriple>,
    /// CLI mounts.
    pub cli: Vec<MountTriple>,
}

/// What a planned session says.
pub struct SessionPlanView {
    pub session: SessionView,
    pub triples: Seq<TripleView>,
    pub cli: Seq<TripleView>,
}

impl DeepView for SessionPlan {
    type V = SessionPlanView;

    open spec fn deep_view(&self) -> SessionPlanView {
        SessionPlanView {
            session: self.session.deep_view(),
            triples: self.triples.deep_view(),
            cli: self.cli.deep_view(),
        }
    }
}

/// The worktree mount.
pub open spec fn worktree_triple(i: InputView) -> TripleView {
    TripleView { host: i.directory, target: i.worktree_target, mode: MountMode::Rw }
}

/// The scratch mount.
pub open spec fn scratch_triple(i: InputView) -> TripleView {
    TripleView { host: i.scratch, target: "/tmp/scratch"@, mode: MountMode::Rw }
}

/// Profile and CLI mounts merged, with the worktree among the profile's.
pub open spec fn merged_triples(p: ProfileView, i: InputView) -> std::result::Result<
    (Seq<TripleView>, Seq<TripleView>),
    ErrorView,
> {
    match parsed_all(i.cli_mounts, mount_parser()) {
        Err(e) => Err(e),
        Ok(cli) => match mount::merged_mounts(
            p.mounts.push(worktree_triple(i)),
            cli,
            i.worktree_target,
        ) {
            Err(e) => Err(e),
            Ok(merged) => Ok((merged, cli)),
        },
    }
}

/// Identity of a planned session.
pub open spec fn session_of(p: ProfileView, i: InputView, argv: Seq<Seq<char>>) -> SessionView {
    SessionView {
        id: i.id,
        directory: i.directory,
        profile: i.profile_name,
        profile_digest: i.profile_digest,
        identity: i.identity,
        command: argv,
        image: i.image,
        container_home: p.home,
    }
}

/// Refusal of the first nested mount at or after `k` whose mountpoint is
/// missing in the read-only mount above it.
pub open spec fn nested_refusal(
    checks: Seq<NestedView>,
    exists: Seq<Seq<bool>>,
    k: int,
) -> Option<ErrorView>
    decreases checks.len() - k,
{
    if k < 0 || k >= checks.len() {
        None
    } else {
        let found = if k < exists.len() {
            exists[k]
        } else {
            Seq::empty()
        };
        match mount::first_missing(checks[k].chain, found, 0) {
            Some(missing) => Some(
                ErrorView::Mount(
                    "nested mount "@ + checks[k].descendant + " under read-only "@
                        + checks[k].ancestor + ": missing "@ + missing,
                ),
            ),
            None => nested_refusal(checks, exists, k + 1),
        }
    }
}

/// Refusal of a mount list's nested mounts.
pub open spec fn nested_fault(ts: Seq<TripleView>, exists: Seq<Seq<bool>>) -> Option<ErrorView> {
    nested_refusal(mount::nested_checks(ts, ts.len() as int), exists, 0)
}

fn check_nested(triples: &[MountTriple], exists: &[Vec<bool>]) -> (r: Result<()>)
    ensures
        match nested_fault(triples.deep_view(), exists.deep_view()) {
            Some(e) => r matches Err(x) && x@ == e,
            None => r is Ok,
        },
{
    let checks = mount::nested_ro_checks(triples);
    let ghost cs = checks.deep_view();
    let ghost es = exists.deep_view();
    let none: Vec<bool> = Vec::new();
    assert(nested_fault(triples.deep_view(), es) == nested_refusal(cs, es, 0));
    let mut k: usize = 0;
    while k < checks.len()
        invariant
            k <= checks@.len(),
            nested_fault(triples.deep_view(), es) == nested_refusal(cs, es, 0),
            cs == checks.deep_view(),
            es == exists.deep_view(),
            none@ == Seq::<bool>::empty(),
            nested_refusal(cs, es, 0) == nested_refusal(cs, es, k as int),
        decreases checks.len() - k,
    {
        let check = &checks[k];
        assert(cs[k as int] == check.deep_view());
        let found = if k < exists.len() {
            &exists[k]
        } else {
            &none
        };
        assert(found@ == (if k < es.len() {
            es[k as int]
        } else {
            Seq::<bool>::empty()
        })) by {
            if k < es.len() {
                assert(es[k as int] =~= exists@[k as int]@);
            }
        }
        match mount::nested_ro_missing(check, found.as_slice()) {
            Some(missing) => {
                return Err(
                    CistellaError::Mount(
                        text::cat6(
                            "nested mount ",
                            check.descendant.as_str(),
                            " under read-only ",
                            check.ancestor.as_str(),
                            ": missing ",
                            missing.as_str(),
                        ),
                    ),
                );
            },
            None => {},
        }
        k = k + 1;
    }
    Ok(())
}

/// What the host shows of a session's paths.
#[derive(Debug)]
pub struct HostFacts {
    /// Resolved host paths of the merged mounts.
    pub hosts: Vec<String>,
    /// Resolved host path of the scratch.
    pub scratch_host: String,
    /// For each check of [`mount::nested_ro_checks`] on the merged mounts,
    /// which paths of its chain exist.
    pub exists: Vec<Vec<bool>>,
}

/// What host facts say.
pub struct FactsView {
    pub hosts: Seq<Seq<char>>,
    pub scratch_host: Seq<char>,
    pub exists: Seq<Seq<bool>>,
}

impl DeepView for HostFacts {
    type V = FactsView;

    open spec fn deep_view(&self) -> FactsView {
        FactsView {
            hosts: self.hosts.deep_view(),
            scratch_host: self.scratch_host@,
            exists: self.exists.deep_view(),
        }
    }
}

/// What a profile and an input plan to on a host.
pub open spec fn planned(p: ProfileView, i: InputView, f: FactsView) -> std::result::Result<
    SessionPlanView,
    ErrorView,
> {
    match argv_of(i.command, p.command) {
        Err(e) => Err(e),
        Ok(argv) => match merged_triples(p, i) {
            Err(e) => Err(e),
            Ok((merged, cli)) => match mount::mounts_fault(merged, p.home, f.hosts) {
                Some(e) => Err(e),
                None => match nested_fault(merged, f.exists) {
                    Some(e) => Err(e),
                    None => {
                        let triples = merged.push(scratch_triple(i));
                        match mount::mounts_fault(
                            triples,
                            p.home,
                            f.hosts.push(f.scratch_host),
                        ) {
                            Some(e) => Err(e),
                            None => Ok(
                                SessionPlanView { session: session_of(p, i, argv), triples, cli },
                            ),
                        }
                    },
                },
            },
        },
    }
}

/// Merges the session's mounts: the profile's and the worktree under the
/// command line's. Returns the merged list and the parsed CLI mounts.
pub fn session_mounts(profile: &Profile, input: &SessionInput) -> (r: Result<
    (Vec<MountTriple>, Vec<MountTriple>),
>)
    ensures
        crate::error::agrees(r, merged_triples(profile.deep_view(), input.deep_view())),
{
    let cli = match parse_cli_mounts(&input.cli_mounts) {
        Ok(cli) => cli,
        Err(e) => {
            return Err(e);
        },
    };
    let mut triples = mount::copy_triples(&profile.mounts);
    let ghost before = triples.deep_view();
    triples.push(
        MountTriple {
            host_source: input.directory.clone(),
            container_target: input.worktree_target.clone(),
            mode: MountMode::Rw,
        },
    );
    assert(triples.deep_view() =~= before.push(worktree_triple(input.deep_view())));
    match mount::merge_cli_mounts(&triples, &cli, input.worktree_target.as_str()) {
        Ok(merged) => Ok((merged, cli)),
        Err(e) => Err(e),
    }
}

/// Plans a session: argv, mounts merged and validated, mountpoints under
/// read-only mounts looked up, and the per-session scratch added and
/// validated with the rest. A refusal leaves no residue.
pub fn plan_session(profile: &Profile, input: &SessionInput, facts: &HostFacts) -> (r: Result<
    SessionPlan,
>)
    ensures
        crate::error::agrees(
            r,
            planned(profile.deep_view(), input.deep_view(), facts.deep_view()),
        ),
{
    let argv = match choose_argv(&input.command, &profile.command) {
        Ok(argv) => argv,
        Err(e) => {
            return Err(e);
        },
    };
    let (merged, cli) = match session_mounts(profile, input) {
        Ok(x) => x,
        Err(e) => {
            return Err(e);
        },
    };
    match mount::validate_mounts(&merged, profile.container_home.as_str(), &facts.hosts) {
        Ok(_) => {},
        Err(e) => {
            return Err(e);
        },
    }
    match check_nested(&merged, &facts.exists) {
        Ok(_) => {},
        Err(e) => {
            return Err(e);
        },
    }
    let mut triples = merged;
    let ghost before = triples.deep_view();
    triples.push(
        MountTriple {
            host_source: input.scratch.clone(),
            container_target: "/tmp/scratch".to_owned(),
            mode: MountMode::Rw,
        },
    );
    assert(triples.deep_view() =~= before.push(scratch_triple(input.deep_view())));
    let mut all_hosts = copy_slice(&facts.hosts);
    all_hosts.push(facts.scratch_host.clone());
    assert(all_hosts.deep_view() =~= facts.hosts.deep_view().push(facts.scratch_host@));
    match mount::validate_mounts(&triples, profile.home(), &all_hosts) {
        Ok(_) => {},
        Err(e) => {
            return Err(e);
        },
    }
    let session = Session {
        id: input.id.clone(),
        directory: input.directory.clone(),
        profile: input.profile_name.clone(),
        profile_digest: input.profile_digest.clone(),
        identity: input.identity.clone(),
        command: argv,
        image: input.image.clone(),
        container_home: profile.container_home.clone(),
    };
    Ok(SessionPlan { session, triples, cli })
}

// ---------------------------------------------------------------------
// Rendering
// ---------------------------------------------------------------------

/// `KEY=value` texts of pairs, in order.
pub open spec fn assignments(pairs: Seq<(Seq<char>, Seq<char>)>) -> Seq<Seq<char>> {
    pairs.map_values(|e: (Seq<char>, Seq<char>)| e.0 + "="@ + e.1)
}

fn push_assignments(out: &mut Vec<String>, pairs: &Vec<(String, String)>)
    ensures
        final(out).deep_view() == old(out).deep_view() + assignments(pairs.deep_view()),
{
    let ghost start = out.deep_view();
    let ghost all = pairs.deep_view();
    let mut k: usize = 0;
    while k < pairs.len()
        invariant
            all == pairs.deep_view(),
            k <= pairs@.len(),
            out.deep_view() =~= start + assignments(all).take(k as int),
        decreases pairs.len() - k,
    {
        let ghost before = out.deep_view();
        assert(all[k as int] == pairs@[k as int].deep_view());
        out.push(text::cat3(pairs[k].0.as_str(), "=", pairs[k].1.as_str()));
        assert(out.deep_view() =~= before.push(assignments(all)[k as int]));
        k = k + 1;
    }
    assert(assignments(all).take(k as int) =~= assignments(all));
}

/// A table with pairs set over it, in order.
pub open spec fn overlaid(
    base: Seq<(Seq<char>, Seq<char>)>,
    pairs: Seq<(Seq<char>, Seq<char>)>,
) -> Seq<(Seq<char>, Seq<char>)>
    decreases pairs.len(),
{
    if pairs.len() == 0 {
        base
    } else {
        table::set_entry(overlaid(base, pairs.drop_last()), pairs.last().0, pairs.last().1)
    }
}

/// Merges labels: the command line's win over the profile's.
pub fn merge_labels(profile: &Vec<(String, String)>, cli: &Vec<(String, String)>) -> (out: Vec<
    (String, String),
>)
    ensures
        out.deep_view() == overlaid(profile.deep_view(), cli.deep_view()),
{
    let ghost base = profile.deep_view();
    let ghost all = cli.deep_view();
    let mut out = table::copy(profile);
    let mut k: usize = 0;
    assert(all.take(0) =~= Seq::<(Seq<char>, Seq<char>)>::empty());
    while k < cli.len()
        invariant
            all == cli.deep_view(),
            k <= cli@.len(),
            out.deep_view() == overlaid(base, all.take(k as int)),
        decreases cli.len() - k,
    {
        assert(all.take(k + 1).drop_last() =~= all.take(k as int));
        assert(all.take(k + 1).last() == cli@[k as int].deep_view());
        table::set(&mut out, cli[k].0.as_str(), cli[k].1.as_str());
        k = k + 1;
    }
    assert(all.take(k as int) =~= all);
    out
}

/// Volume flags of a session: home, mounts shallowest first, agent socket.
pub open spec fn session_volumes(p: ProfileView, triples: Seq<TripleView>) -> Seq<Seq<char>> {
    mount::home_flags(p.home, None) + mount::volume_flags(triples, mount::mount_order(triples)) + (
    match p.agent {
        Some(sock) => seq!["--volume"@, sock + ":"@ + sock + ":ro"@],
        None => Seq::<Seq<char>>::empty(),
    })
}

/// Environment of a session: assignments, accepted pairs, agent socket.
pub open spec fn session_env(p: ProfileView, accepted: Seq<(Seq<char>, Seq<char>)>) -> Seq<
    Seq<char>,
> {
    assignments(p.environment) + assignments(accepted) + (match p.agent {
        Some(sock) => seq!["SSH_AUTH_SOCK="@ + sock],
        None => Seq::<Seq<char>>::empty(),
    })
}

/// Creation input of a planned session.
pub open spec fn spec_of(
    p: ProfileView,
    plan: SessionPlanView,
    accepted: Seq<(Seq<char>, Seq<char>)>,
    labels: Seq<(Seq<char>, Seq<char>)>,
) -> SpecView {
    SpecView {
        session: plan.session,
        volumes: session_volumes(p, plan.triples),
        env: session_env(p, accepted),
        labels: overlaid(p.labels, labels),
    }
}

/// Renders the isolator's creation input of a planned session: volumes with
/// the agent socket, the environment with accepted pairs in profile-list
/// order, and the labels with the command line's over the profile's.
pub fn render_session(
    profile: &Profile,
    plan: &SessionPlan,
    accepted: &Vec<(String, String)>,
    labels: &Vec<(String, String)>,
) -> (r: CreateSpec)
    ensures
        r.deep_view() == spec_of(
            profile.deep_view(),
            plan.deep_view(),
            accepted.deep_view(),
            labels.deep_view(),
        ),
{
    let ghost p = profile.deep_view();
    let mut volumes = mount::podman_volume_args(&plan.triples, profile.home(), None);
    let mut env: Vec<String> = Vec::new();
    push_assignments(&mut env, &profile.environment_assignments);
    push_assignments(&mut env, accepted);
    let ssh = identity::ssh_agent_volume_args(profile);
    let ghost v0 = volumes.deep_view();
    let ghost e0 = env.deep_view();
    assert(e0 =~= assignments(p.environment) + assignments(accepted.deep_view()));
    let ghost sv = ssh.deep_view();
    assert(ssh@.len() == sv.len());
    if ssh.len() == 4 {
        assert(sv[0] == ssh@[0]@ && sv[1] == ssh@[1]@ && sv[3] == ssh@[3]@);
        volumes.push(ssh[0].clone());
        volumes.push(ssh[1].clone());
        env.push(ssh[3].clone());
        assert(volumes.deep_view() =~= v0 + seq![sv[0], sv[1]]);
        assert(env.deep_view() =~= e0 + seq![sv[3]]);
    } else {
        assert(volumes.deep_view() =~= v0 + Seq::<Seq<char>>::empty());
        assert(env.deep_view() =~= e0 + Seq::<Seq<char>>::empty());
    }
    CreateSpec {
        session: plan.session.clone(),
        volumes,
        env,
        labels: merge_labels(&profile.labels, labels),
    }
}

/// What the isolator is handed of a planned session, once policy has judged
/// the variables it would carry.
pub open spec fn admitted_spec(
    p: ProfileView,
    plan: SessionPlanView,
    accepted: Seq<(Seq<char>, Seq<char>)>,
    labels: Seq<(Seq<char>, Seq<char>)>,
    pol: PolicyView,
) -> std::result::Result<SpecView, ErrorView> {
    match policy::first_refusal(
        pol,
        conduct::conduct_names(p.environment, accepted),
        p.acceptances,
        Seq::<ClaimView>::empty(),
        0,
    ) {
        Some(e) => Err(e),
        None => Ok(spec_of(p, plan, accepted, labels)),
    }
}

/// Evaluates a planned session's variables against policy, then renders its
/// creation input; a refusal comes before anything is created.
pub fn admit_session(
    profile: &Profile,
    plan: &SessionPlan,
    accepted: &Vec<(String, String)>,
    labels: &Vec<(String, String)>,
    pol: &PolicySet,
) -> (r: Result<CreateSpec>)
    ensures
        crate::error::agrees(
            r,
            admitted_spec(
                profile.deep_view(),
                plan.deep_view(),
                accepted.deep_view(),
                labels.deep_view(),
                pol@,
            ),
        ),
{
    match conduct::evaluate_profile_contributions(profile, accepted, pol) {
        Ok(_) => Ok(render_session(profile, plan, accepted, labels)),
        Err(e) => Err(e),
    }
}

/// Target that one volume value names.
pub open spec fn volume_target(value: Seq<char>) -> Seq<Seq<char>> {
    let parts = text::split(value, ':');
    if parts.len() >= 2 {
        seq![parts[1]]
    } else {
        Seq::empty()
    }
}

/// Container targets that the volume flags bind, from flag `k` on.
pub open spec fn targets_from(flags: Seq<Seq<char>>, k: int) -> Seq<Seq<char>>
    decreases flags.len() - k,
{
    if k < 0 || k + 1 >= flags.len() {
        Seq::empty()
    } else if flags[k] == "--volume"@ {
        volume_target(flags[k + 1]) + targets_from(flags, k + 2)
    } else {
        targets_from(flags, k + 2)
    }
}

/// Lists the container targets that rendered volume flags bind.
pub fn volume_targets(flags: &Vec<String>) -> (out: Vec<String>)
    ensures
        out.deep_view() == targets_from(flags.deep_view(), 0),
{
    let ghost all = flags.deep_view();
    let mut out: Vec<String> = Vec::new();
    let mut k: usize = 0;
    assert(out.deep_view() + targets_from(all, 0) =~= targets_from(all, 0));
    while k < flags.len() && flags.len() - k >= 2
        invariant
            all == flags.deep_view(),
            k <= flags@.len(),
            out.deep_view() + targets_from(all, k as int) == targets_from(all, 0),
        decreases flags.len() - k,
    {
        let ghost before = out.deep_view();
        assert(all[k as int] == flags@[k as int]@);
        assert(all[k + 1] == flags@[k + 1]@);
        if text::eq(flags[k].as_str(), "--volume") {
            let parts = text::split_on(flags[k + 1].as_str(), ':');
            let ghost pv = text::split(all[k + 1], ':');
            assert(parts@.len() == pv.len());
            if parts.len() >= 2 {
                assert(pv[1] == parts@[1]@);
                out.push(parts[1].clone());
                assert(out.deep_view() =~= before + volume_target(all[k + 1]));
            } else {
                assert(out.deep_view() =~= before + volume_target(all[k + 1]));
            }
            assert(before + (volume_target(all[k + 1]) + targets_from(all, k + 2)) =~= (before
                + volume_target(all[k + 1])) + targets_from(all, k + 2));
        }
        k = k + 2;
    }
    assert(targets_from(all, k as int) =~= Seq::<Seq<char>>::empty());
    assert(out.deep_view() + Seq::<Seq<char>>::empty() =~= out.deep_view());
    out
}

/// Canonical targets of mounts, in order.
pub open spec fn target_list(ts: Seq<TripleView>) -> Seq<Seq<char>> {
    ts.map_values(|t: TripleView| path::canonical(t.target))
}

fn push_targets(out: &mut Vec<String>, triples: &Vec<MountTriple>)
    ensures
        final(out).deep_view() == old(out).deep_view() + target_list(triples.deep_view()),
{
    let ghost start = out.deep_view();
    let ghost all = triples.deep_view();
    let mut k: usize = 0;
    while k < triples.len()
        invariant
            all == triples.deep_view(),
            k <= triples@.len(),
            out.deep_view() =~= start + target_list(all).take(k as int),
        decreases triples.len() - k,
    {
        let ghost before = out.deep_view();
        assert(all[k as int] == triples@[k as int].deep_view());
        out.push(path::canonicalize(triples[k].container_target.as_str()));
        assert(out.deep_view() =~= before.push(target_list(all)[k as int]));
        k = k + 1;
    }
    assert(target_list(all).take(k as int) =~= target_list(all));
}

/// Targets that seed mountpoint preparation: user mounts only (profile,
/// command line, session), so that internal primitives never trigger
/// ownership changes to system ancestors.
pub fn preparation_sources(
    profile: &Vec<MountTriple>,
    cli: &Vec<MountTriple>,
    worktree_target: &str,
) -> (out: Vec<String>)
    ensures
        out.deep_view() == target_list(profile.deep_view()) + target_list(cli.deep_view()) + seq![
            path::canonical(worktree_target@),
        ],
{
    let mut out: Vec<String> = Vec::new();
    push_targets(&mut out, profile);
    push_targets(&mut out, cli);
    let ghost before = out.deep_view();
    assert(before =~= target_list(profile.deep_view()) + target_list(cli.deep_view()));
    out.push(path::canonicalize(worktree_target));
    assert(out.deep_view() =~= before + seq![path::canonical(worktree_target@)]);
    out
}

// ---------------------------------------------------------------------
// Laws
// ---------------------------------------------------------------------

/// A planned session mounts only validated triples, with the scratch last
/// and writable.
pub proof fn law_planned_mounts_are_valid(
    p: ProfileView,
    i: InputView,
    f: FactsView,
    plan: SessionPlanView,
)
    requires
        planned(p, i, f) == Ok::<SessionPlanView, ErrorView>(plan),
    ensures
        mount::mounts_fault(plan.triples, p.home, f.hosts.push(f.scratch_host)) is None,
        plan.triples.len() > 0,
        plan.triples.last() == scratch_triple(i),
        plan.session.id == i.id,
        plan.session.container_home == p.home,
{
}

/// The worktree stays mounted writable at its target: no CLI mount displaces
/// it.
pub proof fn law_worktree_is_mounted(
    p: ProfileView,
    i: InputView,
    f: FactsView,
    plan: SessionPlanView,
)
    requires
        planned(p, i, f) == Ok::<SessionPlanView, ErrorView>(plan),
    ensures
        plan.triples.len() > p.mounts.len(),
        plan.triples[p.mounts.len() as int] == worktree_triple(i),
{
    let base = p.mounts.push(worktree_triple(i));
    let cli = parsed_all(i.cli_mounts, mount_parser())->Ok_0;
    let merged = mount::merged_mounts(base, cli, i.worktree_target)->Ok_0;
    let n = p.mounts.len() as int;
    mount::law_merge_cli_wins(base, cli, i.worktree_target, merged);
    assert(base[n] == worktree_triple(i));
    assert(plan.triples[n] == merged[n]);
    if merged[n] != base[n] {
        let j = choose|j: int| 0 <= j < cli.len() && cli[j] == merged[n];
        mount::lemma_cli_off_worktree(cli, i.worktree_target, 0, j);
    }
}

/// A planned session finds the mountpoints it cannot make: of every mount
/// nested under a read-only one, each path down to it exists on the host.
pub proof fn law_planned_mountpoints_exist(
    p: ProfileView,
    i: InputView,
    f: FactsView,
    c: int,
    j: int,
)
    requires
        planned(p, i, f) is Ok,
        ({
            let merged = merged_triples(p, i)->Ok_0.0;
            let checks = mount::nested_checks(merged, merged.len() as int);
            0 <= c < checks.len() && 0 <= j < checks[c].chain.len()
        }),
    ensures
        c < f.exists.len(),
        j < f.exists[c].len(),
        f.exists[c][j],
{
    let merged = merged_triples(p, i)->Ok_0.0;
    let checks = mount::nested_checks(merged, merged.len() as int);
    lemma_nothing_missing(checks, f.exists, 0, c);
    let found = if c < f.exists.len() {
        f.exists[c]
    } else {
        Seq::empty()
    };
    lemma_chain_exists(checks[c].chain, found, 0, j);
}

proof fn lemma_nothing_missing(checks: Seq<NestedView>, exists: Seq<Seq<bool>>, k: int, c: int)
    requires
        nested_refusal(checks, exists, k) is None,
        0 <= k <= c < checks.len(),
    ensures
        mount::first_missing(
            checks[c].chain,
            if c < exists.len() {
                exists[c]
            } else {
                Seq::empty()
            },
            0,
        ) is None,
    decreases checks.len() - k,
{
    if k < c {
        lemma_nothing_missing(checks, exists, k + 1, c);
    }
}

proof fn lemma_chain_exists(chain: Seq<Seq<char>>, found: Seq<bool>, k: int, j: int)
    requires
        mount::first_missing(chain, found, k) is None,
        0 <= k <= j < chain.len(),
    ensures
        j < found.len(),
        found[j],
    decreases chain.len() - k,
{
    if k < j {
        lemma_chain_exists(chain, found, k + 1, j);
    }
}

/// A label of the command line wins over the profile's: looking up a key
/// gives the last command-line value, else the profile's.
pub proof fn law_cli_labels_win(
    base: Seq<(Seq<char>, Seq<char>)>,
    pairs: Seq<(Seq<char>, Seq<char>)>,
    key: Seq<char>,
)
    ensures
        table::lookup(overlaid(base, pairs), key, 0) == match table::last_value(pairs, key) {
            Some(v) => Some(v),
            None => table::lookup(base, key, 0),
        },
    decreases pairs.len(),
{
    if pairs.len() > 0 {
        law_cli_labels_win(base, pairs.drop_last(), key);
        table::lemma_set_entry(
            overlaid(base, pairs.drop_last()),
            pairs.last().0,
            pairs.last().1,
            key,
        );
    }
}

proof fn lemma_parsed_each<T>(
    args: Seq<Seq<char>>,
    parse: spec_fn(Seq<char>) -> std::result::Result<T, ErrorView>,
)
    ensures
        parsed_all(args, parse) matches Ok(out) ==> out.len() == args.len() && forall|i: int|
            0 <= i < args.len() ==> parse(args[i]) == std::result::Result::<T, ErrorView>::Ok(
                #[trigger] out[i],
            ),
        parsed_all(args, parse) is Ok <==> forall|i: int|
            0 <= i < args.len() ==> parse(#[trigger] args[i]) is Ok,
    decreases args.len(),
{
    if args.len() > 0 {
        let t = args.drop_last();
        lemma_parsed_each(t, parse);
        if parsed_all(args, parse) is Ok {
            let head = parsed_all(t, parse)->Ok_0;
            let out = parsed_all(args, parse)->Ok_0;
            assert forall|i: int| 0 <= i < args.len() implies parse(args[i])
                == std::result::Result::<T, ErrorView>::Ok(#[trigger] out[i]) by {
                if i < t.len() {
                    assert(t[i] == args[i]);
                    assert(out[i] == head[i]);
                }
            }
            assert forall|i: int| 0 <= i < args.len() implies parse(#[trigger] args[i]) is Ok by {
                assert(parse(args[i]) == std::result::Result::<T, ErrorView>::Ok(out[i]));
            }
        }
        if forall|i: int| 0 <= i < args.len() ==> parse(#[trigger] args[i]) is Ok {
            assert forall|i: int| 0 <= i < t.len() implies parse(#[trigger] t[i]) is Ok by {
                assert(t[i] == args[i]);
            }
            assert(parse(args[args.len() - 1]) is Ok);
        }
    }
}

/// Label arguments give their keys and values in order, and are refused
/// exactly when one of them is.
pub proof fn law_label_filters_are_the_arguments(labels: Seq<Seq<char>>)
    ensures
        parsed_all(labels, label_parser()) is Ok <==> forall|i: int|
            0 <= i < labels.len() ==> session::parsed_label(#[trigger] labels[i]) is Ok,
        parsed_all(labels, label_parser()) matches Ok(out) ==> out.len() == labels.len()
            && forall|i: int|
            0 <= i < labels.len() ==> labels[i] == (#[trigger] out[i]).0 + "="@ + out[i].1,
{
    let parse = label_parser();
    lemma_parsed_each(labels, parse);
    assert forall|i: int| 0 <= i < labels.len() implies (parse(#[trigger] labels[i]) is Ok
        <==> session::parsed_label(labels[i]) is Ok) by {}
    if parsed_all(labels, parse) is Ok {
        let out = parsed_all(labels, parse)->Ok_0;
        assert forall|i: int| 0 <= i < labels.len() implies labels[i] == (#[trigger] out[i]).0
            + "="@ + out[i].1 by {
            assert(parse(labels[i]) == std::result::Result::<
                (Seq<char>, Seq<char>),
                ErrorView,
            >::Ok(out[i]));
            session::law_label_arguments_say_key_and_value(labels[i], out[i].0, out[i].1);
        }
    }
}

/// Supplement arguments give their keys and values in order.
pub proof fn law_supplements_are_the_arguments(args: Seq<Seq<char>>)
    ensures
        parsed_all(args, supplement_parser()) is Ok <==> forall|i: int|
            0 <= i < args.len() ==> template::parsed_supplement(#[trigger] args[i]) is Ok,
        parsed_all(args, supplement_parser()) matches Ok(out) ==> out.len() == args.len()
            && forall|i: int|
            0 <= i < args.len() ==> args[i] == (#[trigger] out[i]).0 + "="@ + out[i].1,
{
    reveal_strlit("=");
    let parse = supplement_parser();
    lemma_parsed_each(args, parse);
    if parsed_all(args, parse) is Ok {
        let out = parsed_all(args, parse)->Ok_0;
        assert forall|i: int| 0 <= i < args.len() implies args[i] == (#[trigger] out[i]).0 + "="@
            + out[i].1 by {
            assert(parse(args[i]) == std::result::Result::<
                (Seq<char>, Seq<char>),
                ErrorView,
            >::Ok(out[i]));
            text::lemma_first_index(args[i], '=');
            let at = text::first_index(args[i], '=');
            assert(args[i] =~= args[i].take(at) + "="@ + args[i].skip(at + 1));
        }
    }
}

/// A planned session is what was asked for: its id, host directory, profile,
/// digest, identity and image are the input's, its home is the profile's, and
/// its command is the command line's or, where that is empty, the profile's.
pub proof fn law_planned_session_is_what_was_asked_for(
    p: ProfileView,
    i: InputView,
    f: FactsView,
    plan: SessionPlanView,
)
    requires
        planned(p, i, f) == Ok::<SessionPlanView, ErrorView>(plan),
    ensures
        plan.session.id == i.id,
        plan.session.directory == i.directory,
        plan.session.profile == i.profile_name,
        plan.session.profile_digest == i.profile_digest,
        plan.session.identity == i.identity,
        plan.session.image == i.image,
        plan.session.container_home == p.home,
        i.command.len() > 0 ==> plan.session.command == i.command,
        i.command.len() == 0 ==> p.command == Some(plan.session.command),
{
}

/// A planned session mounts the host directory, writable, at its target, and
/// last the scratch, writable, at `/tmp/scratch`. Every other mount is the
/// profile's or a `--mount` argument's, with its host, target and mode; every
/// argument is mounted, and a profile mount gives way only to an argument on
/// its target.
pub proof fn law_planned_mounts_are_what_was_asked_for(
    p: ProfileView,
    i: InputView,
    f: FactsView,
    plan: SessionPlanView,
)
    requires
        planned(p, i, f) == Ok::<SessionPlanView, ErrorView>(plan),
    ensures
        plan.triples.len() >= p.mounts.len() + 2,
        plan.triples[p.mounts.len() as int].host == i.directory,
        plan.triples[p.mounts.len() as int].target == i.worktree_target,
        plan.triples[p.mounts.len() as int].mode == MountMode::Rw,
        plan.triples.last().host == i.scratch,
        plan.triples.last().target == "/tmp/scratch"@,
        plan.triples.last().mode == MountMode::Rw,
        plan.cli.len() == i.cli_mounts.len(),
        forall|k: int|
            0 <= k < plan.cli.len() ==> i.cli_mounts[k] == (#[trigger] plan.cli[k]).host + ":"@
                + plan.cli[k].target + (if plan.cli[k].mode == MountMode::Ro {
                ":ro"@
            } else {
                ":rw"@
            }),
        forall|k: int| 0 <= k < plan.cli.len() ==> plan.triples.contains(#[trigger] plan.cli[k]),
        forall|k: int|
            0 <= k < p.mounts.len() ==> (#[trigger] plan.triples[k]) == p.mounts[k] || (
            plan.cli.contains(plan.triples[k]) && path::canonical(plan.triples[k].target)
                == path::canonical(p.mounts[k].target)),
        forall|k: int|
            p.mounts.len() < k < plan.triples.len() - 1 ==> plan.cli.contains(
                #[trigger] plan.triples[k],
            ),
{
    let base = p.mounts.push(worktree_triple(i));
    let parse = mount_parser();
    let cli = parsed_all(i.cli_mounts, parse)->Ok_0;
    let merged = mount::merged_mounts(base, cli, i.worktree_target)->Ok_0;
    let n = p.mounts.len() as int;
    law_worktree_is_mounted(p, i, f, plan);
    mount::law_merge_cli_wins(base, cli, i.worktree_target, merged);
    lemma_parsed_each(i.cli_mounts, parse);
    assert(plan.triples == merged.push(scratch_triple(i)));
    assert forall|k: int| 0 <= k < cli.len() implies i.cli_mounts[k] == (#[trigger] cli[k]).host
        + ":"@ + cli[k].target + (if cli[k].mode == MountMode::Ro {
        ":ro"@
    } else {
        ":rw"@
    }) by {
        let s = i.cli_mounts[k];
        assert(parse(s) == std::result::Result::<TripleView, ErrorView>::Ok(cli[k]));
        mount::law_mount_arguments_are_faithful(s, cli[k]);
        mount::law_mount_arguments_say_their_triple(s, cli[k].host, cli[k].target);
    }
    assert forall|k: int| 0 <= k < cli.len() implies plan.triples.contains(#[trigger] cli[k]) by {
        assert(merged.contains(cli[k]));
        let m = choose|m: int| 0 <= m < merged.len() && merged[m] == cli[k];
        assert(plan.triples[m] == cli[k]);
    }
    assert forall|k: int| 0 <= k < n implies (#[trigger] plan.triples[k]) == p.mounts[k] || (
    cli.contains(plan.triples[k]) && path::canonical(plan.triples[k].target) == path::canonical(
        p.mounts[k].target,
    )) by {
        assert(plan.triples[k] == merged[k]);
        assert(base[k] == p.mounts[k]);
    }
    assert forall|k: int| n < k < plan.triples.len() - 1 implies cli.contains(
        #[trigger] plan.triples[k],
    ) by {
        assert(plan.triples[k] == merged[k]);
    }
}

/// A session is refused a plan only for cause: no command to run, a
/// malformed or conflicting `--mount`, invalid mounts, or a nested mount
/// without its mountpoint.
pub proof fn law_plans_are_refused_for_cause(p: ProfileView, i: InputView, f: FactsView)
    requires
        i.command.len() > 0 || p.command is Some,
        forall|k: int|
            0 <= k < i.cli_mounts.len() ==> mount::parsed_triple(#[trigger] i.cli_mounts[k]) is Ok,
        ({
            let cli = Seq::new(
                i.cli_mounts.len(),
                |k: int| mount::parsed_triple(i.cli_mounts[k])->Ok_0,
            );
            let base = p.mounts.push(
                TripleView { host: i.directory, target: i.worktree_target, mode: MountMode::Rw },
            );
            let merged = mount::merged_mounts(base, cli, i.worktree_target);
            &&& merged is Ok
            &&& mount::mounts_fault(merged->Ok_0, p.home, f.hosts) is None
            &&& nested_fault(merged->Ok_0, f.exists) is None
            &&& mount::mounts_fault(
                merged->Ok_0.push(
                    TripleView { host: i.scratch, target: "/tmp/scratch"@, mode: MountMode::Rw },
                ),
                p.home,
                f.hosts.push(f.scratch_host),
            ) is None
        }),
    ensures
        planned(p, i, f) is Ok,
{
    let parse = mount_parser();
    lemma_parsed_each(i.cli_mounts, parse);
    assert forall|k: int| 0 <= k < i.cli_mounts.len() implies parse(
        #[trigger] i.cli_mounts[k],
    ) is Ok by {}
    let cli = Seq::new(i.cli_mounts.len(), |k: int| mount::parsed_triple(i.cli_mounts[k])->Ok_0);
    let out = parsed_all(i.cli_mounts, parse)->Ok_0;
    assert(out =~= cli) by {
        assert forall|k: int| 0 <= k < out.len() implies out[k] == cli[k] by {
            assert(parse(i.cli_mounts[k]) == std::result::Result::<TripleView, ErrorView>::Ok(
                out[k],
            ));
        }
    }
}

/// A session without a command is refused one: nothing is run by default.
pub proof fn law_no_command_no_session(p: ProfileView, i: InputView, f: FactsView)
    requires
        i.command.len() == 0,
        p.command is None,
    ensures
        planned(p, i, f) matches Err(e) && e is Runtime,
{
}

proof fn lemma_accepted(
    names: Seq<Seq<char>>,
    assigned: Seq<(Seq<char>, Seq<char>)>,
    values: Seq<Option<Seq<char>>>,
    k: int,
)
    requires
        accepted_pairs(names, assigned, values) is Ok,
        0 <= k < names.len(),
    ensures
        ({
            let out = accepted_pairs(names, assigned, values)->Ok_0;
            &&& out.len() == names.len()
            &&& out[k].0 == names[k]
            &&& k < values.len() && values[k] == Some(out[k].1)
            &&& table::lookup(assigned, names[k], 0) is None
        }),
    decreases names.len(),
{
    let t = names.drop_last();
    if k < t.len() {
        lemma_accepted(t, assigned, values, k);
    } else if t.len() > 0 {
        lemma_accepted(t, assigned, values, 0);
    }
}

/// What a profile accepts reaches the session under its name and with the
/// invoker's value, in the profile's order, and never over an assignment.
pub proof fn law_accepted_variables_keep_their_values(
    names: Seq<Seq<char>>,
    assigned: Seq<(Seq<char>, Seq<char>)>,
    values: Seq<Option<Seq<char>>>,
    out: Seq<(Seq<char>, Seq<char>)>,
)
    requires
        accepted_pairs(names, assigned, values) == Ok::<
            Seq<(Seq<char>, Seq<char>)>,
            ErrorView,
        >(out),
    ensures
        out.len() == names.len(),
        forall|k: int|
            0 <= k < names.len() ==> (#[trigger] out[k]).0 == names[k] && k < values.len()
                && values[k] == Some(out[k].1) && table::lookup(assigned, names[k], 0) is None,
{
    if names.len() > 0 {
        lemma_accepted(names, assigned, values, 0);
    }
    assert forall|k: int| 0 <= k < names.len() implies (#[trigger] out[k]).0 == names[k] && k
        < values.len() && values[k] == Some(out[k].1) && table::lookup(
        assigned,
        names[k],
        0,
    ) is None by {
        lemma_accepted(names, assigned, values, k);
    }
}

/// Acceptance is refused only for a name that the invoker lacks or that the
/// profile assigns.
pub proof fn law_present_variables_are_accepted(
    names: Seq<Seq<char>>,
    assigned: Seq<(Seq<char>, Seq<char>)>,
    values: Seq<Option<Seq<char>>>,
)
    requires
        forall|k: int|
            0 <= k < names.len() ==> k < values.len() && values[k] is Some && table::lookup(
                assigned,
                #[trigger] names[k],
                0,
            ) is None,
    ensures
        accepted_pairs(names, assigned, values) is Ok,
    decreases names.len(),
{
    if names.len() > 0 {
        let t = names.drop_last();
        assert forall|k: int| 0 <= k < t.len() implies k < values.len() && values[k] is Some
            && table::lookup(assigned, #[trigger] t[k], 0) is None by {
            assert(t[k] == names[k]);
        }
        law_present_variables_are_accepted(t, assigned, values);
        assert(table::lookup(assigned, names[names.len() - 1], 0) is None);
    }
}

/// The isolator is handed the planned session itself; its environment is
/// every assignment, then every accepted variable, then the agent's socket,
/// each as name, equals sign and value; its volumes are the home on a tmpfs,
/// then every mount, then the agent's socket read-only.
pub proof fn law_creation_input_says_the_plan(
    p: ProfileView,
    plan: SessionPlanView,
    accepted: Seq<(Seq<char>, Seq<char>)>,
    labels: Seq<(Seq<char>, Seq<char>)>,
    k: int,
)
    ensures
        ({
            let spec = spec_of(p, plan, accepted, labels);
            let a = p.environment.len() as int;
            let b = accepted.len() as int;
            let n = plan.triples.len() as int;
            &&& spec.session == plan.session
            &&& spec.env.len() == a + b + if p.agent is Some {
                1int
            } else {
                0
            }
            &&& 0 <= k < a ==> spec.env[k] == p.environment[k].0 + "="@ + p.environment[k].1
            &&& 0 <= k < b ==> spec.env[a + k] == accepted[k].0 + "="@ + accepted[k].1
            &&& p.agent is Some ==> spec.env.last() == "SSH_AUTH_SOCK="@ + p.agent->0
            &&& spec.volumes.len() == 2 + 2 * n + if p.agent is Some {
                2int
            } else {
                0
            }
            &&& spec.volumes[0] == "--tmpfs"@ && spec.volumes[1] == p.home
            &&& p.agent is Some ==> spec.volumes[2 + 2 * n] == "--volume"@ && spec.volumes[3 + 2
                * n] == p.agent->0 + ":"@ + p.agent->0 + ":ro"@
            &&& 0 <= k < n ==> exists|q: int|
                0 <= q < n && spec.volumes[2 + 2 * q] == "--volume"@
                    && #[trigger] spec.volumes[3 + 2 * q] == plan.triples[k].host + ":"@
                    + path::canonical(plan.triples[k].target) + (if plan.triples[k].mode
                    == MountMode::Ro {
                    ":ro"@
                } else {
                    ":rw"@
                })
        }),
{
    let spec = spec_of(p, plan, accepted, labels);
    let n = plan.triples.len() as int;
    let flags = mount::volume_flags(plan.triples, mount::mount_order(plan.triples));
    let home = mount::home_flags(p.home, None);
    assert(home.len() == 2);
    if n > 0 {
        mount::law_every_mount_has_its_flag(plan.triples, 0);
    } else {
        crate::order::lemma_stable_sort_members(
            mount::depth_entries(plan.triples),
            crate::order::by_key::<crate::order::Weight>(),
        );
        assert(flags.len() == 0);
    }
    if 0 <= k < n {
        mount::law_every_mount_has_its_flag(plan.triples, k);
        let tail = if plan.triples[k].mode == MountMode::Ro {
            ":ro"@
        } else {
            ":rw"@
        };
        let text = plan.triples[k].host + ":"@ + path::canonical(plan.triples[k].target) + tail;
        let q = choose|q: int|
            0 <= q < n && flags[2 * q] == "--volume"@ && #[trigger] flags[2 * q + 1] == text;
        assert(spec.volumes[2 + 2 * q] == flags[2 * q]);
        assert(spec.volumes[3 + 2 * q] == flags[2 * q + 1]);
    }
}

/// A session is handed to the isolator exactly as rendered, or refused by
/// policy: admission changes nothing.
pub proof fn law_admission_changes_nothing(
    p: ProfileView,
    plan: SessionPlanView,
    accepted: Seq<(Seq<char>, Seq<char>)>,
    labels: Seq<(Seq<char>, Seq<char>)>,
    pol: PolicyView,
    spec: SpecView,
)
    requires
        admitted_spec(p, plan, accepted, labels, pol) == Ok::<SpecView, ErrorView>(spec),
    ensures
        spec == spec_of(p, plan, accepted, labels),
        spec.session == plan.session,
        policy::first_refusal(
            pol,
            conduct::conduct_names(p.environment, accepted),
            p.acceptances,
            Seq::<ClaimView>::empty(),
            0,
        ) is None,
{
}

/// The targets that volume flags bind are read back from them, flag by flag.
pub proof fn law_bound_targets_are_read_back(
    host: Seq<char>,
    target: Seq<char>,
    mode: Seq<char>,
    rest: Seq<Seq<char>>,
    other: Seq<char>,
    value: Seq<char>,
)
    requires
        !host.contains(':'),
        !target.contains(':'),
        !mode.contains(':'),
        other != "--volume"@,
    ensures
        targets_from(seq!["--volume"@, host + ":"@ + target + ":"@ + mode] + rest, 0) == seq![
            target,
        ] + targets_from(rest, 0),
        targets_from(seq![other, value] + rest, 0) == targets_from(rest, 0),
{
    reveal_strlit(":");
    assert(":"@ =~= seq![':']);
    let v = host + ":"@ + target + ":"@ + mode;
    let parts = seq![host, target, mode];
    path::lemma_split_join(parts, ':');
    let two = parts.drop_last();
    let one = two.drop_last();
    assert(text::join(one, seq![':']) == host);
    assert(text::join(two, seq![':']) == host + seq![':'] + target);
    assert(text::join(parts, seq![':']) == v);
    let flags = seq!["--volume"@, v] + rest;
    lemma_targets_shift(seq!["--volume"@, v], rest, 0);
    assert(targets_from(flags, 0) == volume_target(flags[1]) + targets_from(flags, 2)) by {
        if rest.len() == 0 {
            assert(targets_from(flags, 2) =~= Seq::<Seq<char>>::empty());
        }
    }
    lemma_targets_shift(seq![other, value], rest, 0);
}

proof fn lemma_targets_shift(front: Seq<Seq<char>>, rest: Seq<Seq<char>>, k: int)
    requires
        0 <= k,
    ensures
        targets_from(front + rest, front.len() + k) == targets_from(rest, k),
    decreases rest.len() - k,
{
    let all = front + rest;
    let n = front.len() as int;
    if k + 1 < rest.len() {
        assert(all[n + k] == rest[k]);
        assert(all[n + k + 1] == rest[k + 1]);
        lemma_targets_shift(front, rest, k + 2);
        assert(n + (k + 2) == n + k + 2);
    }
}

/// An identity is the user's name, else what `id` printed without its blanks,
/// else `default`.
pub proof fn law_identities_fall_back(user: Seq<char>, printed: Seq<char>)
    ensures
        user.len() > 0 ==> identity_of(user, printed) == user,
        user.len() == 0 && text::trimmed(printed).len() > 0 ==> identity_of(user, printed)
            == text::trimmed(printed),
        user.len() == 0 && text::trimmed(printed).len() == 0 ==> identity_of(user, printed)
            == "default"@,
{
}

/// A relative directory is refused; an absolute one that resolves is what it
/// resolves to.
pub proof fn law_directories_are_resolved(
    dir: Seq<char>,
    resolved: Seq<Option<Seq<char>>>,
    base: Seq<char>,
)
    ensures
        directory_of(dir, resolved) is Ok <==> dir.len() > 0 && dir[0] == '/',
        dir.len() > 0 && dir[0] == '/' && resolved.len() > 0 && resolved[0] == Some(base)
            ==> directory_of(dir, resolved) == Ok::<Seq<char>, ErrorView>(base),
{
    reveal_strlit("a");
    reveal_strlit(".");
    reveal_strlit("..");
    if dir.len() > 0 && dir[0] == '/' && resolved.len() > 0 {
        assert("a"@[0] == 'a' && "."@[0] == '.' && ".."@[0] == '.');
        assert(!"a"@.contains('/'));
        mount::law_host_paths_resolve_by_existing_prefix(dir, "a"@, resolved, base, 0);
    }
}

/// The targets of mounts are their container sides, one for each.
pub proof fn law_targets_are_the_container_sides(ts: Seq<TripleView>, i: int)
    requires
        0 <= i < ts.len(),
    ensures
        target_list(ts).len() == ts.len(),
        target_list(ts)[i] == path::canonical(ts[i].target),
{
}

/// A view says what the fields hold, each under its own name.
pub proof fn law_views_say_the_fields(
    session_input: SessionInput,
    session_plan: SessionPlan,
    host_facts: HostFacts,
)
    ensures
        session_input.deep_view().id == session_input.id@,
        session_input.deep_view().directory == session_input.directory@,
        session_input.deep_view().worktree_target == session_input.worktree_target@,
        session_input.deep_view().profile_name == session_input.profile_name@,
        session_input.deep_view().profile_digest == session_input.profile_digest@,
        session_input.deep_view().identity == session_input.identity@,
        session_input.deep_view().image == session_input.image@,
        session_input.deep_view().command == session_input.command.deep_view(),
        session_input.deep_view().cli_mounts == session_input.cli_mounts.deep_view(),
        session_input.deep_view().scratch == session_input.scratch@,
        session_plan.deep_view().session == session_plan.session.deep_view(),
        session_plan.deep_view().triples == session_plan.triples.deep_view(),
        session_plan.deep_view().cli == session_plan.cli.deep_view(),
        host_facts.deep_view().hosts == host_facts.hosts.deep_view(),
        host_facts.deep_view().scratch_host == host_facts.scratch_host@,
        host_facts.deep_view().exists == host_facts.exists.deep_view(),
{
}

} // verus!
