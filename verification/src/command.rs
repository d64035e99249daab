//! Commands besides `conduct`: selection, companion entry, and the lines
//! that each prints.

use vstd::prelude::*;

use crate::error::{CistellaError, ErrorView, Result};
use crate::plan;
use crate::prepare;
use crate::registry;
use crate::registry::{RecordView, SessionRecord};
use crate::text;
use crate::transport;
use crate::transport::{TerminalEnv, TerminalView};

verus! {

/// Directory selector: the path as given, and what the system makes of it
/// and each of its ancestors, nearest first.
#[derive(Debug)]
pub struct DirectorySelector {
    /// Path as given.
    pub path: String,
    /// Real paths where they exist.
    pub resolved: Vec<Option<String>>,
}

/// What a directory selector says.
pub struct SelectorView {
    pub path: Seq<char>,
    pub resolved: Seq<Option<Seq<char>>>,
}

impl DeepView for DirectorySelector {
    type V = SelectorView;

    open spec fn deep_view(&self) -> SelectorView {
        SelectorView { path: self.path@, resolved: self.resolved.deep_view() }
    }
}

/// Parsed selectors: labels first, then the canonical directory.
pub open spec fn selectors(
    directory: Option<SelectorView>,
    labels: Seq<Seq<char>>,
) -> std::result::Result<(Option<Seq<char>>, Seq<(Seq<char>, Seq<char>)>), ErrorView> {
    match plan::parsed_all(labels, plan::label_parser()) {
        Err(e) => Err(e),
        Ok(pairs) => match directory {
            None => Ok((None, pairs)),
            Some(d) => match plan::directory_of(d.path, d.resolved) {
                Err(e) => Err(e),
                Ok(dir) => Ok((Some(dir), pairs)),
            },
        },
    }
}

fn parse_selectors(directory: &Option<DirectorySelector>, labels: &[String]) -> (r: Result<
    (Option<String>, Vec<(String, String)>),
>)
    ensures
        crate::error::agrees(r, selectors(directory.deep_view(), labels.deep_view())),
{
    let pairs = match plan::parse_label_filters(labels) {
        Ok(p) => p,
        Err(e) => {
            return Err(e);
        },
    };
    match directory {
        None => Ok((None, pairs)),
        Some(d) => match plan::canonical_directory(d.path.as_str(), &d.resolved) {
            Ok(dir) => Ok((Some(dir), pairs)),
            Err(e) => Err(e),
        },
    }
}

/// The one record that the selectors of a command resolve to.
pub open spec fn selection(
    records: Seq<RecordView>,
    id: Option<Seq<char>>,
    directory: Option<SelectorView>,
    labels: Seq<Seq<char>>,
) -> std::result::Result<RecordView, ErrorView> {
    match selectors(directory, labels) {
        Err(e) => Err(e),
        Ok((dir, pairs)) => registry::resolved(records, id, dir, pairs),
    }
}

/// Resolves exactly one selector against the registry.
pub fn select_exact(
    records: &[SessionRecord],
    id: Option<&str>,
    directory: &Option<DirectorySelector>,
    labels: &[String],
) -> (r: Result<SessionRecord>)
    ensures
        crate::error::agrees(
            r,
            selection(
                records.deep_view(),
                id.deep_view(),
                directory.deep_view(),
                labels.deep_view(),
            ),
        ),
{
    match parse_selectors(directory, labels) {
        Err(e) => Err(e),
        Ok((dir, pairs)) => match &dir {
            Some(d) => registry::resolve_exact(records, id, Some(d.as_str()), &pairs),
            None => registry::resolve_exact(records, id, None, &pairs),
        },
    }
}

/// One survey line.
pub open spec fn survey_line(r: RecordView) -> Seq<char> {
    r.container_name + " "@ + r.active_state + " profile="@ + r.profile + " directory="@
        + r.directory + " identity="@ + r.identity
}

fn line_of(r: &SessionRecord) -> (s: String)
    ensures
        s@ == survey_line(r.deep_view()),
{
    let head = text::cat5(
        r.container_name.as_str(),
        " ",
        r.active_state.as_str(),
        " profile=",
        r.profile.as_str(),
    );
    text::cat5(
        head.as_str(),
        " directory=",
        r.directory.as_str(),
        " identity=",
        r.identity.as_str(),
    )
}

/// Lines of a survey: the records that pass the filters, in registry order.
pub open spec fn survey_lines(
    records: Seq<RecordView>,
    directory: Option<SelectorView>,
    labels: Seq<Seq<char>>,
) -> std::result::Result<Seq<Seq<char>>, ErrorView> {
    match selectors(directory, labels) {
        Err(e) => Err(e),
        Ok((dir, pairs)) => Ok(
            records.filter(|r: RecordView| registry::passes(r, dir, pairs)).map_values(
                |r: RecordView| survey_line(r),
            ),
        ),
    }
}

/// Surveys sessions: one line per record that passes the filters.
pub fn survey(
    records: &[SessionRecord],
    directory: &Option<DirectorySelector>,
    labels: &[String],
) -> (r: Result<Vec<String>>)
    ensures
        crate::error::agrees(
            r,
            survey_lines(records.deep_view(), directory.deep_view(), labels.deep_view()),
        ),
{
    let (dir, pairs) = match parse_selectors(directory, labels) {
        Err(e) => {
            return Err(e);
        },
        Ok(x) => x,
    };
    let shown = match &dir {
        Some(d) => registry::filter_records(records, Some(d.as_str()), &pairs),
        None => registry::filter_records(records, None, &pairs),
    };
    let ghost all = shown.deep_view();
    let ghost line = |r: RecordView| survey_line(r);
    let mut out: Vec<String> = Vec::new();
    let mut k: usize = 0;
    while k < shown.len()
        invariant
            all == shown.deep_view(),
            line == (|r: RecordView| survey_line(r)),
            k <= shown@.len(),
            out.deep_view() =~= all.map_values(line).take(k as int),
        decreases shown.len() - k,
    {
        let ghost before = out.deep_view();
        assert(all[k as int] == shown@[k as int].deep_view());
        out.push(line_of(shown[k]));
        assert(out.deep_view() =~= before.push(all.map_values(line)[k as int]));
        k = k + 1;
    }
    assert(all.map_values(line).take(k as int) =~= all.map_values(line));
    Ok(out)
}

/// Heading of an inspection.
pub fn inspect_line(r: &SessionRecord) -> (s: String)
    ensures
        s@ == r.container_name@ + " profile="@ + r.profile@ + " directory="@ + r.directory@
            + " identity="@ + r.identity@ + " image="@ + r.image@,
{
    let head = text::cat5(
        r.container_name.as_str(),
        " profile=",
        r.profile.as_str(),
        " directory=",
        r.directory.as_str(),
    );
    text::cat5(head.as_str(), " identity=", r.identity.as_str(), " image=", r.image.as_str())
}

/// Argv of a companion entry: the command, else a shell. A container name
/// with a line break or a null character refuses.
pub open spec fn entry(container: Seq<char>, command: Seq<Seq<char>>, env: TerminalView) -> std::result::Result<
    Seq<Seq<char>>,
    ErrorView,
> {
    if container.contains('\n') || container.contains('\r') || container.contains('\0') {
        Err(ErrorView::Runtime("session must not contain control characters"@))
    } else {
        Ok(
            seq!["exec"@] + transport::forwarded(env) + seq!["-i"@, "-t"@, container] + (
            if command.len() == 0 {
                seq!["/bin/sh"@]
            } else {
                command
            }),
        )
    }
}

/// Builds the argv of a companion entry.
pub fn enter_args(container: &str, command: &[String], env: &TerminalEnv) -> (r: Result<
    Vec<String>,
>)
    ensures
        crate::error::agrees(r, entry(container@, command.deep_view(), env.deep_view())),
{
    if text::has_char(container, '\n') || text::has_char(container, '\r') || text::has_char(
        container,
        '\0',
    ) {
        return Err(
            CistellaError::Runtime("session must not contain control characters".to_owned()),
        );
    }
    assert(command@.len() == command.deep_view().len());
    if command.len() == 0 {
        let mut shell: Vec<String> = Vec::new();
        shell.push("/bin/sh".to_owned());
        assert(shell.deep_view() =~= seq!["/bin/sh"@]);
        Ok(transport::exec_args(container, &shell, env))
    } else {
        Ok(transport::exec_args(container, command, env))
    }
}

/// Exit code of a waited child: 128 + signal, else its code, else 1.
pub open spec fn status_code(signal: Option<i32>, code: Option<i32>) -> int {
    match signal {
        Some(s) => 128 + s,
        None => match code {
            Some(c) => c as int,
            None => 1,
        },
    }
}

/// Exit code that passes on a waited child's disposition.
pub fn exit_with_status(signal: Option<i32>, code: Option<i32>) -> (r: i32)
    requires
        status_code(signal, code) <= i32::MAX,
    ensures
        r == status_code(signal, code),
{
    match signal {
        Some(s) => 128 + s,
        None => match code {
            Some(c) => c,
            None => 1,
        },
    }
}

/// Container names and ids of the sessions whose container is gone.
pub open spec fn orphans_of(records: Seq<RecordView>, exists: Seq<bool>) -> Seq<
    (Seq<char>, Seq<char>),
>
    decreases records.len(),
{
    if records.len() == 0 || exists.len() != records.len() {
        Seq::empty()
    } else {
        let before = orphans_of(records.drop_last(), exists.drop_last());
        if exists.last() {
            before
        } else {
            before.push((records.last().container_name, records.last().id))
        }
    }
}

/// Sessions that a collection reaps: container name and id of each record
/// whose container does not exist.
pub fn gc_orphans(records: &Vec<SessionRecord>, exists: &Vec<bool>) -> (out: Vec<
    (String, String),
>)
    requires
        exists@.len() == records@.len(),
    ensures
        out.deep_view() == orphans_of(records.deep_view(), exists@),
{
    let ghost all = records.deep_view();
    let mut out: Vec<(String, String)> = Vec::new();
    let mut k: usize = 0;
    assert(out.deep_view() =~= orphans_of(all.take(0), exists@.take(0)));
    while k < records.len()
        invariant
            all == records.deep_view(),
            exists@.len() == records@.len(),
            k <= records@.len(),
            out.deep_view() == orphans_of(all.take(k as int), exists@.take(k as int)),
        decreases records.len() - k,
    {
        let ghost before = out.deep_view();
        assert(all[k as int] == records@[k as int].deep_view());
        assert(all.take(k + 1).drop_last() =~= all.take(k as int));
        assert(exists@.take(k + 1).drop_last() =~= exists@.take(k as int));
        if !exists[k] {
            out.push((records[k].container_name.clone(), records[k].id.clone()));
            assert(out.deep_view() =~= before.push(
                (all[k as int].container_name, all[k as int].id),
            ));
        }
        k = k + 1;
    }
    assert(all.take(k as int) =~= all);
    assert(exists@.take(k as int) =~= exists@);
    out
}

/// Lines of a collection: each reaped name, or that there was none.
pub open spec fn gc_report(reaped: Seq<Seq<char>>) -> Seq<Seq<char>> {
    if reaped.len() == 0 {
        seq!["gc: nothing to reap"@]
    } else {
        reaped.map_values(|n: Seq<char>| "reaped "@ + n)
    }
}

/// Reports a collection.
pub fn gc_lines(reaped: &Vec<String>) -> (out: Vec<String>)
    ensures
        out.deep_view() == gc_report(reaped.deep_view()),
{
    let ghost all = reaped.deep_view();
    let ghost line = |n: Seq<char>| "reaped "@ + n;
    let mut out: Vec<String> = Vec::new();
    if reaped.len() == 0 {
        out.push("gc: nothing to reap".to_owned());
        assert(out.deep_view() =~= gc_report(all));
        return out;
    }
    let mut k: usize = 0;
    while k < reaped.len()
        invariant
            all == reaped.deep_view(),
            line == (|n: Seq<char>| "reaped "@ + n),
            k <= reaped@.len(),
            out.deep_view() =~= all.map_values(line).take(k as int),
        decreases reaped.len() - k,
    {
        let ghost before = out.deep_view();
        out.push(text::cat("reaped ", reaped[k].as_str()));
        assert(out.deep_view() =~= before.push(all.map_values(line)[k as int]));
        k = k + 1;
    }
    assert(all.map_values(line).take(k as int) =~= all.map_values(line));
    out
}

/// Stall between install and start, in milliseconds: an override that is a
/// number, else none.
pub fn start_delay_ms(over: Option<&str>) -> (ms: u64)
    ensures
        ms == (match over {
            Some(s) => match prepare::parsed_decimal(s@, u64::MAX as nat) {
                Some(n) => n as int,
                None => 0,
            },
            None => 0,
        }),
{
    match over {
        Some(s) => match prepare::parse_decimal(s, u64::MAX) {
            Some(n) => n,
            None => 0,
        },
        None => 0,
    }
}

/// A survey without selectors shows every session, once and in registry
/// order.
pub proof fn law_bare_survey_shows_all(records: Seq<RecordView>)
    ensures
        survey_lines(records, None, Seq::empty()) == Ok::<Seq<Seq<char>>, ErrorView>(
            records.map_values(|r: RecordView| survey_line(r)),
        ),
{
    let none = Seq::<(Seq<char>, Seq<char>)>::empty();
    let keep = |r: RecordView| registry::passes(r, None, none);
    lemma_filter_keeps(records, keep);
}

proof fn lemma_filter_keeps(records: Seq<RecordView>, keep: spec_fn(RecordView) -> bool)
    requires
        forall|r: RecordView| #[trigger] keep(r),
    ensures
        records.filter(keep) == records,
    decreases records.len(),
{
    reveal(Seq::filter);
    if records.len() > 0 {
        lemma_filter_keeps(records.drop_last(), keep);
        assert(keep(records.last()));
        assert(records.drop_last().push(records.last()) =~= records);
    } else {
        assert(records =~= Seq::<RecordView>::empty());
    }
}

/// A survey has one line for every session that the selectors ask for, and no
/// other: its container, its state, its profile, its directory and its
/// identity.
pub proof fn law_surveys_show_what_is_asked_for(
    records: Seq<RecordView>,
    directory: Option<SelectorView>,
    labels: Seq<Seq<char>>,
    dir: Option<Seq<char>>,
    pairs: Seq<(Seq<char>, Seq<char>)>,
    r: RecordView,
    line: Seq<char>,
)
    requires
        selectors(directory, labels) == Ok::<
            (Option<Seq<char>>, Seq<(Seq<char>, Seq<char>)>),
            ErrorView,
        >((dir, pairs)),
    ensures
        ({
            let lines = survey_lines(records, directory, labels)->Ok_0;
            &&& survey_lines(records, directory, labels) is Ok
            &&& records.contains(r) && registry::asked_for(r, None, dir, pairs) ==> lines.contains(
                r.container_name + " "@ + r.active_state + " profile="@ + r.profile + " directory="@
                    + r.directory + " identity="@ + r.identity,
            )
            &&& lines.contains(line) ==> exists|x: RecordView| #[trigger]
                records.contains(x) && registry::asked_for(x, None, dir, pairs) && line
                    == x.container_name + " "@ + x.active_state + " profile="@ + x.profile
                    + " directory="@ + x.directory + " identity="@ + x.identity
        }),
{
    let keep = |r: RecordView| registry::passes(r, dir, pairs);
    let kept = records.filter(keep);
    let lines = survey_lines(records, directory, labels)->Ok_0;
    if records.contains(r) && registry::asked_for(r, None, dir, pairs) {
        registry::law_filters_keep_what_is_asked_for(records, dir, pairs, r);
        assert(kept.contains(r));
        let k = choose|k: int| 0 <= k < kept.len() && kept[k] == r;
        assert(lines[k] == survey_line(r));
    }
    if lines.contains(line) {
        let k = choose|k: int| 0 <= k < lines.len() && lines[k] == line;
        let x = kept[k];
        assert(kept.contains(x));
        registry::law_filters_keep_what_is_asked_for(records, dir, pairs, x);
        assert(records.contains(x));
    }
}

/// Selectors are the directory, made canonical, and the label arguments; a
/// relative directory and a malformed label are refused.
pub proof fn law_selectors_are_the_arguments(
    directory: Option<SelectorView>,
    labels: Seq<Seq<char>>,
)
    ensures
        selectors(directory, labels) is Ok <==> (forall|i: int|
            0 <= i < labels.len() ==> crate::session::parsed_label(#[trigger] labels[i]) is Ok) && (
        directory is Some ==> directory->0.path.len() > 0 && directory->0.path[0] == '/'),
        selectors(directory, labels) matches Ok(x) ==> {
            &&& x.0 is Some <==> directory is Some
            &&& directory is Some ==> x.0 == Some(
                crate::mount::canonical_host(directory->0.path, directory->0.resolved, 0),
            )
            &&& x.1.len() == labels.len()
            &&& forall|i: int|
                0 <= i < labels.len() ==> labels[i] == (#[trigger] x.1[i]).0 + "="@ + x.1[i].1
        },
{
    plan::law_label_filters_are_the_arguments(labels);
}

/// A selected session is one of the registry's and what the selectors ask
/// for, and no other one is.
pub proof fn law_selection_is_asked_for(
    records: Seq<RecordView>,
    id: Option<Seq<char>>,
    directory: Option<SelectorView>,
    labels: Seq<Seq<char>>,
    dir: Option<Seq<char>>,
    pairs: Seq<(Seq<char>, Seq<char>)>,
    r: RecordView,
)
    requires
        selectors(directory, labels) == Ok::<
            (Option<Seq<char>>, Seq<(Seq<char>, Seq<char>)>),
            ErrorView,
        >((dir, pairs)),
        selection(records, id, directory, labels) == Ok::<RecordView, ErrorView>(r),
    ensures
        records.contains(r),
        registry::asked_for(r, id, dir, pairs),
        forall|i: int|
            0 <= i < records.len() && registry::asked_for(#[trigger] records[i], id, dir, pairs)
                ==> records[i] == r,
{
    registry::law_resolved_session_is_asked_for(records, id, dir, pairs, r);
}

/// Entering a session runs the command in its container, interactively and on
/// a terminal, and a shell where no command is given.
pub proof fn law_entering_runs_the_command(
    container: Seq<char>,
    command: Seq<Seq<char>>,
    env: TerminalView,
    args: Seq<Seq<char>>,
)
    requires
        entry(container, command, env) == Ok::<Seq<Seq<char>>, ErrorView>(args),
    ensures
        args[0] == "exec"@,
        command.len() > 0 ==> {
            let n = args.len() - command.len();
            &&& args.skip(n) == command
            &&& args.subrange(n - 3, n) == seq!["-i"@, "-t"@, container]
        },
        command.len() == 0 ==> {
            let n = args.len() - 1;
            &&& args[n] == "/bin/sh"@
            &&& args.subrange(n - 3, n) == seq!["-i"@, "-t"@, container]
        },
        !container.contains('\n') && !container.contains('\r') && !container.contains('\0'),
{
    let head = seq!["exec"@] + transport::forwarded(env);
    let mid = seq!["-i"@, "-t"@, container];
    let tail = if command.len() == 0 {
        seq!["/bin/sh"@]
    } else {
        command
    };
    let n = args.len() - tail.len();
    assert(args == head + mid + tail);
    assert(args.skip(n) =~= tail);
    assert(args.subrange(n - 3, n) =~= mid);
    assert(args[0] == head[0]);
    if command.len() == 0 {
        assert(args[n] == tail[0]);
    }
}

/// A container whose name holds no line break and no null is entered.
pub proof fn law_plain_containers_are_entered(
    container: Seq<char>,
    command: Seq<Seq<char>>,
    env: TerminalView,
)
    ensures
        entry(container, command, env) is Ok <==> !container.contains('\n') && !container.contains(
            '\r',
        ) && !container.contains('\0'),
{
}

/// An exit code is passed on; death by a signal gives 128 and the signal's
/// number; neither gives 1.
pub proof fn law_exit_codes_are_passed_on(signal: i32, code: i32, any: Option<i32>)
    ensures
        status_code(None, Some(code)) == code,
        status_code(Some(signal), any) == 128 + signal,
        status_code(None, None) == 1,
{
}

/// Exactly the sessions whose directory is gone are orphans, in order, each
/// by its container and its id.
pub proof fn law_orphans_lack_their_directory(
    records: Seq<RecordView>,
    exists: Seq<bool>,
    c: Seq<char>,
    id: Seq<char>,
)
    requires
        exists.len() == records.len(),
    ensures
        orphans_of(records, exists).contains((c, id)) <==> exists|k: int|
            0 <= k < records.len() && !exists[k] && (#[trigger] records[k]).container_name == c
                && records[k].id == id,
        orphans_of(records, exists).len() <= records.len(),
    decreases records.len(),
{
    let all = orphans_of(records, exists);
    if records.len() > 0 {
        let t = records.drop_last();
        let e = exists.drop_last();
        law_orphans_lack_their_directory(t, e, c, id);
        let before = orphans_of(t, e);
        let last = records.len() - 1;
        if all.contains((c, id)) {
            let m = choose|m: int| 0 <= m < all.len() && all[m] == (c, id);
            if m < before.len() {
                assert(before[m] == (c, id));
                let k = choose|k: int|
                    0 <= k < t.len() && !e[k] && (#[trigger] t[k]).container_name == c && t[k].id
                        == id;
                assert(records[k] == t[k] && exists[k] == e[k]);
            } else {
                assert(records[last].container_name == c);
            }
        }
        if exists|k: int|
            0 <= k < records.len() && !exists[k] && (#[trigger] records[k]).container_name == c
                && records[k].id == id {
            let k = choose|k: int|
                0 <= k < records.len() && !exists[k] && (#[trigger] records[k]).container_name == c
                    && records[k].id == id;
            if k < last {
                assert(t[k] == records[k] && e[k] == exists[k]);
                let m = choose|m: int| 0 <= m < before.len() && before[m] == (c, id);
                assert(all[m] == (c, id));
            } else {
                assert(all[all.len() - 1] == (c, id));
            }
        }
    }
}

/// A collection reports every reaped session by name, and says so where there
/// was none.
pub proof fn law_collections_report_each(reaped: Seq<Seq<char>>)
    ensures
        reaped.len() == 0 ==> gc_report(reaped) == seq!["gc: nothing to reap"@],
        reaped.len() > 0 ==> gc_report(reaped).len() == reaped.len() && forall|i: int|
            0 <= i < reaped.len() ==> #[trigger] gc_report(reaped)[i] == "reaped "@ + reaped[i],
{
}

/// A view says what the fields hold, each under its own name.
pub proof fn law_views_say_the_fields(
    directory_selector: DirectorySelector,
)
    ensures
        directory_selector.deep_view().path == directory_selector.path@,
        directory_selector.deep_view().resolved == directory_selector.resolved.deep_view(),
{
}

} // verus!
