//! Podman isolator: handle tables, execution tracking, state
//! classification, and the parsing of `podman` output.

use vstd::prelude::*;

use crate::error::{CistellaError, ErrorView, Result};
use crate::framework::contract::{
    Capability, ExecutionHandle, LifecycleState, ReconciliationKey, UnitHandle,
};
use crate::framework::handles::Handles;
use crate::framework::isolator::{
    CreateSpec, ExecutionOutcome, IsolatorCapabilities, UnitSnapshot,
};
use crate::isolators::quadlet;
use crate::registry;
use crate::session;
use crate::session::{LABEL_ID, LABEL_RECONCILIATION_KEY, SessionView};
use crate::text;
use crate::transport;
use crate::transport::TerminalEnv;

verus! {

// ---------------------------------------------------------------------
// Podman output
// ---------------------------------------------------------------------

/// A text with every white-space character made a space.
pub open spec fn spaced(s: Seq<char>) -> Seq<char> {
    s.map_values(
        |c: char|
            if text::is_space(c) {
                ' '
            } else {
                c
            },
    )
}

/// The pieces that are not empty.
pub open spec fn nonempty(parts: Seq<Seq<char>>) -> Seq<Seq<char>>
    decreases parts.len(),
{
    if parts.len() == 0 {
        Seq::empty()
    } else if parts.last().len() > 0 {
        nonempty(parts.drop_last()).push(parts.last())
    } else {
        nonempty(parts.drop_last())
    }
}

/// Words of a text: its pieces between white space.
pub open spec fn words(s: Seq<char>) -> Seq<Seq<char>> {
    nonempty(text::split(spaced(s), ' '))
}

/// Splits a text into its words.
pub fn words_of(s: &str) -> (out: Vec<String>)
    ensures
        out.deep_view() == words(s@),
{
    let v = text::chars_of(s);
    let mut flat: Vec<char> = Vec::new();
    let mut i: usize = 0;
    while i < v.len()
        invariant
            v@ == s@,
            i <= v@.len(),
            flat@ =~= spaced(s@).take(i as int),
        decreases v.len() - i,
    {
        let c = v[i];
        if text::is_space_char(c) {
            flat.push(' ');
        } else {
            flat.push(c);
        }
        i = i + 1;
    }
    assert(spaced(s@).take(i as int) =~= spaced(s@));
    let line = text::string_of(&flat);
    let parts = text::split_on(line.as_str(), ' ');
    let ghost all = text::split(spaced(s@), ' ');
    let mut out: Vec<String> = Vec::new();
    let mut k: usize = 0;
    assert(all.take(0) =~= Seq::<Seq<char>>::empty());
    assert(out.deep_view() =~= nonempty(all.take(0)));
    while k < parts.len()
        invariant
            parts.deep_view() == all,
            k <= parts@.len(),
            out.deep_view() == nonempty(all.take(k as int)),
        decreases parts.len() - k,
    {
        let ghost before = out.deep_view();
        assert(all.take(k + 1).drop_last() =~= all.take(k as int));
        assert(all.take(k + 1).last() == parts@[k as int]@);
        if !parts[k].as_str().is_empty() {
            out.push(parts[k].clone());
            assert(out.deep_view() =~= before.push(all[k as int]));
        }
        k = k + 1;
    }
    assert(all.take(k as int) =~= all);
    out
}

/// Whether a reported value is podman's marker of a missing one.
pub open spec fn missing_marker(s: Seq<char>) -> bool {
    s.len() > 0 && s[0] == '<'
}

fn is_missing_marker(s: &str) -> (b: bool)
    ensures
        b == missing_marker(s@),
{
    let v = text::chars_of(s);
    v.len() > 0 && v[0] == '<'
}

/// First line at or after `k` that names a container and a session id.
pub open spec fn first_hit(lines: Seq<Seq<char>>, k: int) -> Option<(Seq<char>, Seq<char>)>
    decreases lines.len() - k,
{
    if k < 0 || k >= lines.len() {
        None
    } else {
        let w = words(lines[k]);
        if w.len() >= 2 && !missing_marker(w[1]) {
            Some((w[0], w[1]))
        } else {
            first_hit(lines, k + 1)
        }
    }
}

/// Parses `podman ps` name/id lines for the first entry with a real session
/// id (podman's `<no value>` missing marker never matches).
#[must_use]
pub fn find_key_in_ps_output(output: &str) -> (r: Option<(String, String)>)
    ensures
        r.deep_view() == first_hit(text::lines_of(output@), 0),
{
    let lines = text::lines(output);
    let ghost all = text::lines_of(output@);
    let mut k: usize = 0;
    while k < lines.len()
        invariant
            lines.deep_view() == all,
            all == text::lines_of(output@),
            k <= lines@.len(),
            first_hit(all, 0) == first_hit(all, k as int),
        decreases lines.len() - k,
    {
        assert(all[k as int] == lines@[k as int]@);
        let w = words_of(lines[k].as_str());
        let ghost wv = words(all[k as int]);
        assert(w@.len() == wv.len());
        if w.len() >= 2 {
            assert(wv[0] == w@[0]@ && wv[1] == w@[1]@);
            if !is_missing_marker(w[1].as_str()) {
                return Some((w[0].clone(), w[1].clone()));
            }
        }
        k = k + 1;
    }
    None
}

/// One file of the unit directory: its name, and its content or why it could
/// not be read.
#[derive(Debug)]
pub struct UnitFile {
    /// File name.
    pub name: String,
    /// Path, for diagnostics.
    pub path: String,
    /// The file's content, or the system's text on failure.
    pub content: std::result::Result<String, String>,
}

/// What a unit file says.
pub struct UnitFileView {
    pub name: Seq<char>,
    pub path: Seq<char>,
    pub content: std::result::Result<Seq<char>, Seq<char>>,
}

impl DeepView for UnitFile {
    type V = UnitFileView;

    open spec fn deep_view(&self) -> UnitFileView {
        UnitFileView {
            name: self.name@,
            path: self.path@,
            content: match self.content {
                Ok(c) => Ok(c@),
                Err(m) => Err(m@),
            },
        }
    }
}

/// Container name of a unit file name.
pub open spec fn unit_stem(name: Seq<char>) -> Seq<char> {
    name.take(name.len() - ".container"@.len())
}

/// Scan of the unit files at or after `k` for a key label.
pub open spec fn scanned(files: Seq<UnitFileView>, key: Seq<char>, k: int) -> std::result::Result<
    Option<(Seq<char>, Seq<char>)>,
    ErrorView,
>
    decreases files.len() - k,
{
    if k < 0 || k >= files.len() {
        Ok(None)
    } else if !registry::is_unit_file(files[k].name) {
        scanned(files, key, k + 1)
    } else {
        match files[k].content {
            Err(m) => Err(
                ErrorView::Runtime("unreadable candidate unit "@ + files[k].path + ": "@ + m),
            ),
            Ok(c) => if registry::label_in(c, LABEL_RECONCILIATION_KEY@) == Some(key) {
                Ok(Some((unit_stem(files[k].name), registry::or_empty(
                    registry::label_in(c, LABEL_ID@),
                ))))
            } else {
                scanned(files, key, k + 1)
            },
        }
    }
}

/// Scans one unit directory for a key label.
///
/// A candidate that cannot be read refuses the whole scan: it could be the
/// sought unit, and skipping it would report clean absence into a duplicate
/// install. Readable files lacking the key skip; other files never count.
pub fn scan_unit_dir(files: &Vec<UnitFile>, key: &str) -> (r: Result<Option<(String, String)>>)
    ensures
        crate::error::agrees(r, scanned(files.deep_view(), key@, 0)),
{
    let ghost all = files.deep_view();
    let mut k: usize = 0;
    while k < files.len()
        invariant
            all == files.deep_view(),
            k <= files@.len(),
            scanned(all, key@, 0) == scanned(all, key@, k as int),
        decreases files.len() - k,
    {
        assert(all[k as int] == files@[k as int].deep_view());
        let name = files[k].name.as_str();
        if text::starts_with(name, "cistella-") && text::ends_with(name, ".container") {
            match &files[k].content {
                Err(m) => {
                    return Err(
                        CistellaError::Runtime(
                            text::cat4(
                                "unreadable candidate unit ",
                                files[k].path.as_str(),
                                ": ",
                                m.as_str(),
                            ),
                        ),
                    );
                },
                Ok(c) => {
                    let found_key = registry::unit_file_label(c.as_str(), LABEL_RECONCILIATION_KEY);
                    let hit = match &found_key {
                        Some(v) => text::eq(v.as_str(), key),
                        None => false,
                    };
                    if hit {
                        let id = registry::unit_file_label(c.as_str(), LABEL_ID);
                        let ghost id_seen = id.deep_view();
                        let sid = match id {
                            Some(v) => v,
                            None => {
                                proof {
                                    reveal_strlit("");
                                }
                                "".to_owned()
                            },
                        };
                        assert(found_key.deep_view() == Some(key@));
                        assert(sid@ =~= registry::or_empty(id_seen));
                        let found = (stem_of(name), sid);
                        assert(found.deep_view() == (unit_stem(name@), sid@));
                        return Ok(Some(found));
                    }
                },
            }
        }
        k = k + 1;
    }
    Ok(None)
}

proof fn lemma_scan_passes(files: Seq<UnitFileView>, key: Seq<char>, from: int, to: int)
    requires
        0 <= from <= to <= files.len(),
        forall|i: int| from <= i < to ==> passed_over(#[trigger] files[i], key),
    ensures
        scanned(files, key, from) == scanned(files, key, to),
    decreases to - from,
{
    if from < to {
        assert(passed_over(files[from], key));
        lemma_scan_passes(files, key, from + 1, to);
    }
}

/// Whether a scan goes past a file: it is no session unit, or a readable one
/// with another key.
pub open spec fn passed_over(file: UnitFileView, key: Seq<char>) -> bool {
    !registry::is_unit_file(file.name) || (file.content matches Ok(c) && registry::label_in(
        c,
        LABEL_RECONCILIATION_KEY@,
    ) != Some(key))
}

/// A unit that was written with a key is located by that key in a scan of
/// the unit files that reaches it, though no peer remembers it.
pub proof fn law_written_units_are_located(
    files: Seq<UnitFileView>,
    k: int,
    s: SessionView,
    volumes: Seq<Seq<char>>,
    env: Seq<Seq<char>>,
    generic: Seq<(Seq<char>, Seq<char>)>,
    key: Seq<char>,
)
    requires
        0 <= k < files.len(),
        forall|i: int| 0 <= i < k ==> passed_over(#[trigger] files[i], key),
        files[k].name == "cistella-"@ + s.id + ".container"@,
        quadlet::unit_of(s, volumes, env, generic, Some(key)) is Ok,
        files[k].content == std::result::Result::<Seq<char>, Seq<char>>::Ok(
            quadlet::unit_of(s, volumes, env, generic, Some(key))->Ok_0,
        ),
        forall|i: int|
            0 <= i < generic.len() ==> session::label_fault(
                (#[trigger] generic[i]).0,
                generic[i].1,
            ) is None,
    ensures
        scanned(files, key, 0) == std::result::Result::<
            Option<(Seq<char>, Seq<char>)>,
            ErrorView,
        >::Ok(Some(("cistella-"@ + s.id, s.id))),
{
    lemma_scan_passes(files, key, 0, k);
    quadlet::law_written_units_carry_their_key(s, volumes, env, generic, key);
    let name = files[k].name;
    assert(name.take("cistella-"@.len() as int) =~= "cistella-"@);
    assert(name.skip(name.len() - ".container"@.len()) =~= ".container"@);
    assert(unit_stem(name) =~= "cistella-"@ + s.id);
}

fn stem_of(name: &str) -> (s: String)
    requires
        registry::is_unit_file(name@),
    ensures
        s@ == unit_stem(name@),
{
    proof {
        reveal_strlit(".container");
    }
    let v = text::chars_of(name);
    let s = text::slice_of(&v, 0, v.len() - 10);
    assert(s@ =~= unit_stem(name@));
    s
}

/// What `podman inspect` printed: status, session id, image.
pub open spec fn inspected(stdout: Seq<char>) -> (Option<Seq<char>>, Seq<char>, Seq<char>) {
    let w = words(text::trimmed(stdout));
    (
        if w.len() >= 1 {
            Some(w[0])
        } else {
            None
        },
        if w.len() >= 2 && !missing_marker(w[1]) {
            w[1]
        } else {
            ""@
        },
        if w.len() >= 3 {
            w[2]
        } else {
            ""@
        },
    )
}

/// Parses the output of a successful container inspect.
pub fn parse_inspect(stdout: &str) -> (r: (Option<String>, String, String))
    ensures
        r.0.deep_view() == inspected(stdout@).0,
        r.1@ == inspected(stdout@).1,
        r.2@ == inspected(stdout@).2,
{
    let line = text::trim(stdout);
    let w = words_of(line.as_str());
    let ghost wv = words(text::trimmed(stdout@));
    assert(w@.len() == wv.len());
    assert(forall|i: int| 0 <= i < w@.len() ==> wv[i] == (#[trigger] w@[i])@);
    let status = if w.len() >= 1 {
        Some(w[0].clone())
    } else {
        None
    };
    let sid = if w.len() >= 2 && !is_missing_marker(w[1].as_str()) {
        w[1].clone()
    } else {
        "".to_owned()
    };
    let image = if w.len() >= 3 {
        w[2].clone()
    } else {
        "".to_owned()
    };
    (status, sid, image)
}

/// What a `podman` run came to.
#[derive(Debug)]
pub enum PodmanRun {
    /// It could not be run, with the system's text.
    Broken(String),
    /// It failed: what it said.
    Failed(String),
    /// It succeeded: what it printed.
    Printed(String),
}

/// What a listing by key label finds.
pub open spec fn key_listing(run: PodmanRun) -> std::result::Result<
    Option<(Seq<char>, Seq<char>)>,
    ErrorView,
> {
    match run {
        PodmanRun::Broken(m) => Err(ErrorView::Runtime("podman ps for key: "@ + m@)),
        PodmanRun::Failed(m) => Err(ErrorView::Runtime("podman ps for key failed: "@ + m@)),
        PodmanRun::Printed(out) => Ok(first_hit(text::lines_of(out@), 0)),
    }
}

/// Settles the container listing by key label: a failed listing refuses
/// instead of reporting absence into an uncertain outcome.
pub fn locate_in_listing(run: &PodmanRun) -> (r: Result<Option<(String, String)>>)
    ensures
        crate::error::agrees(r, key_listing(*run)),
{
    match run {
        PodmanRun::Broken(m) => Err(
            CistellaError::Runtime(text::cat("podman ps for key: ", m.as_str())),
        ),
        PodmanRun::Failed(m) => Err(
            CistellaError::Runtime(text::cat("podman ps for key failed: ", m.as_str())),
        ),
        PodmanRun::Printed(out) => Ok(find_key_in_ps_output(out.as_str())),
    }
}

/// What listing the unit directory came to.
#[derive(Debug)]
pub enum UnitDir {
    /// There is none.
    Absent,
    /// It could not be listed: its path, the system's text.
    Failed(String, String),
    /// Its files.
    Files(Vec<UnitFile>),
}

/// What a scan of the unit directory finds.
pub open spec fn key_scan(dir: UnitDir, key: Seq<char>) -> std::result::Result<
    Option<(Seq<char>, Seq<char>)>,
    ErrorView,
> {
    match dir {
        UnitDir::Absent => Ok(None),
        UnitDir::Failed(path, m) => Err(ErrorView::Runtime("scan "@ + path@ + ": "@ + m@)),
        UnitDir::Files(files) => scanned(files.deep_view(), key, 0),
    }
}

/// Settles the unit directory scan for a key: no directory means no unit, an
/// unreadable one refuses.
pub fn locate_in_units(dir: &UnitDir, key: &str) -> (r: Result<Option<(String, String)>>)
    ensures
        crate::error::agrees(r, key_scan(*dir, key@)),
{
    match dir {
        UnitDir::Absent => Ok(None),
        UnitDir::Failed(path, m) => Err(
            CistellaError::Runtime(text::cat4("scan ", path.as_str(), ": ", m.as_str())),
        ),
        UnitDir::Files(files) => scan_unit_dir(files, key),
    }
}

/// Whether a remembered unit stands: its container exists, or its unit file
/// does. An unanswered question about the container counts as no.
pub fn hint_stands(container: &Result<bool>, unit_present: bool) -> (b: bool)
    ensures
        b == (*container == Ok::<bool, CistellaError>(true) || unit_present),
{
    match container {
        Ok(true) => true,
        _ => unit_present,
    }
}

/// Whether terminating a unit has anything to stop: a missing unit file with
/// no container is already converged.
pub fn needs_stop(unit_present: bool, container: Result<bool>) -> (r: Result<bool>)
    ensures
        r == (if unit_present {
            Ok::<bool, CistellaError>(true)
        } else {
            container
        }),
{
    if unit_present {
        Ok(true)
    } else {
        container
    }
}

/// What inspecting a container comes to; `exists` answers whether the
/// container exists, where the inspect failed.
pub open spec fn inspection(name: Seq<char>, run: PodmanRun, exists: Result<bool>) -> std::result::Result<
    (Option<Seq<char>>, Seq<char>, Seq<char>),
    ErrorView,
> {
    match run {
        PodmanRun::Broken(m) => Err(ErrorView::Runtime("podman inspect: "@ + m@)),
        PodmanRun::Printed(out) => Ok(inspected(out@)),
        PodmanRun::Failed(m) => match exists {
            Err(e) => Err(e@),
            Ok(true) => Err(
                ErrorView::Runtime(
                    "podman inspect "@ + name + " failed while container exists: "@ + m@,
                ),
            ),
            Ok(false) => Ok((None, ""@, ""@)),
        },
    }
}

/// Settles a container inspect: a failure counts as absence only where the
/// container is known not to exist.
pub fn inspect_container(name: &str, run: &PodmanRun, exists: Result<bool>) -> (r: Result<
    (Option<String>, String, String),
>)
    ensures
        match (r, inspection(name@, *run, exists)) {
            (Ok(a), Ok(b)) => a.0.deep_view() == b.0 && a.1@ == b.1 && a.2@ == b.2,
            (Err(a), Err(b)) => a@ == b,
            _ => false,
        },
{
    match run {
        PodmanRun::Broken(m) => Err(
            CistellaError::Runtime(text::cat("podman inspect: ", m.as_str())),
        ),
        PodmanRun::Printed(out) => Ok(parse_inspect(out.as_str())),
        PodmanRun::Failed(m) => match exists {
            Err(e) => Err(e),
            Ok(true) => Err(
                CistellaError::Runtime(
                    text::cat4(
                        "podman inspect ",
                        name,
                        " failed while container exists: ",
                        m.as_str(),
                    ),
                ),
            ),
            Ok(false) => Ok((None, "".to_owned(), "".to_owned())),
        },
    }
}

// ---------------------------------------------------------------------
// State
// ---------------------------------------------------------------------

/// Lifecycle state of backend observations.
pub open spec fn state_of(
    active: Option<Seq<char>>,
    container: Option<Seq<char>>,
    unit_present: bool,
    executing: bool,
) -> LifecycleState {
    match container {
        Some(status) => if status == "running"@ {
            if executing {
                LifecycleState::Executing
            } else {
                LifecycleState::Initiated
            }
        } else {
            LifecycleState::Stopped
        },
        None => if !unit_present {
            LifecycleState::Absent
        } else if active == Some("failed"@) {
            LifecycleState::Stopped
        } else {
            LifecycleState::Created
        },
    }
}

/// Classifies lifecycle state from backend observations.
///
/// `active` is the systemd `ActiveState`; `container` is the podman
/// container status, none when no container exists; `unit_present` is
/// unit-file presence; `executing` is whether this backend currently awaits
/// a harness on the unit.
#[must_use]
pub fn classify_state(
    active: Option<&str>,
    container: Option<&str>,
    unit_present: bool,
    executing: bool,
) -> (s: LifecycleState)
    ensures
        s == state_of(active.deep_view(), container.deep_view(), unit_present, executing),
{
    match container {
        Some(status) => if text::eq(status, "running") {
            if executing {
                LifecycleState::Executing
            } else {
                LifecycleState::Initiated
            }
        } else {
            LifecycleState::Stopped
        },
        None => {
            if !unit_present {
                return LifecycleState::Absent;
            }
            let failed = match active {
                Some(a) => text::eq(a, "failed"),
                None => false,
            };
            if failed {
                LifecycleState::Stopped
            } else {
                LifecycleState::Created
            }
        },
    }
}

/// Snapshot of a unit from backend observations. `active` is what the
/// service manager reports, `inactive` without it.
pub fn snapshot(
    container_name: &str,
    inspected: (Option<String>, String, String),
    active: Option<String>,
    unit_present: bool,
    executing: bool,
) -> (s: UnitSnapshot)
    ensures
        s.unit_identity@ == container_name@,
        s.session_id == inspected.1,
        s.image == inspected.2,
        s.active_state@ == (match active {
            Some(a) => a@,
            None => "inactive"@,
        }),
        s.lifecycle == state_of(
            Some(s.active_state@),
            inspected.0.deep_view(),
            unit_present,
            executing,
        ),
{
    let active_state = match active {
        Some(a) => a,
        None => "inactive".to_owned(),
    };
    let (container, session_id, image) = inspected;
    let lifecycle = match &container {
        Some(status) => classify_state(
            Some(active_state.as_str()),
            Some(status.as_str()),
            unit_present,
            executing,
        ),
        None => classify_state(Some(active_state.as_str()), None, unit_present, executing),
    };
    UnitSnapshot {
        unit_identity: container_name.to_owned(),
        lifecycle,
        active_state,
        session_id,
        image,
    }
}

/// Outcome of a waited child: a pending cancellation outranks the raw
/// status, a hangup outranks a termination, a signal outranks an exit code.
pub open spec fn outcome_of(
    cancel: Option<i32>,
    hup: bool,
    term: bool,
    signal: Option<i32>,
    code: Option<i32>,
) -> ExecutionOutcome {
    match cancel {
        Some(signum) => ExecutionOutcome::Signaled(signum),
        None => if hup {
            ExecutionOutcome::Signaled(1)
        } else if term {
            ExecutionOutcome::Signaled(15)
        } else {
            match signal {
                Some(signum) => ExecutionOutcome::Signaled(signum),
                None => ExecutionOutcome::Exited(
                    match code {
                        Some(c) => c,
                        None => 1,
                    },
                ),
            }
        },
    }
}

/// Converts a waited child status, preferring a pending cancellation
/// disposition over the raw exit code.
pub fn status_outcome(
    cancel: Option<i32>,
    hup: bool,
    term: bool,
    signal: Option<i32>,
    code: Option<i32>,
) -> (o: ExecutionOutcome)
    ensures
        o == outcome_of(cancel, hup, term, signal, code),
{
    match cancel {
        Some(signum) => {
            return ExecutionOutcome::Signaled(signum);
        },
        None => {},
    }
    if hup {
        return ExecutionOutcome::Signaled(1);
    }
    if term {
        return ExecutionOutcome::Signaled(15);
    }
    match signal {
        Some(signum) => ExecutionOutcome::Signaled(signum),
        None => ExecutionOutcome::Exited(
            match code {
                Some(c) => c,
                None => 1,
            },
        ),
    }
}

// ---------------------------------------------------------------------
// Tables
// ---------------------------------------------------------------------

/// Unit record tracked per issued handle.
#[derive(Debug)]
pub struct UnitRecord {
    /// Container name (unit identity).
    pub container_name: String,
    /// Session id (scratch ownership).
    pub session_id: String,
    /// Quadlet unit file name.
    pub unit_name: String,
}

/// What a unit record says.
pub struct UnitRecordView {
    pub container_name: Seq<char>,
    pub session_id: Seq<char>,
    pub unit_name: Seq<char>,
}

impl DeepView for UnitRecord {
    type V = UnitRecordView;

    open spec fn deep_view(&self) -> UnitRecordView {
        UnitRecordView {
            container_name: self.container_name@,
            session_id: self.session_id@,
            unit_name: self.unit_name@,
        }
    }
}

impl Clone for UnitRecord {
    fn clone(&self) -> (r: Self)
        ensures
            r.deep_view() == self.deep_view(),
    {
        UnitRecord {
            container_name: self.container_name.clone(),
            session_id: self.session_id.clone(),
            unit_name: self.unit_name.clone(),
        }
    }
}

/// Record of an adopted unit.
pub open spec fn adopted_record(container: Seq<char>, session_id: Seq<char>) -> UnitRecordView {
    UnitRecordView {
        container_name: container,
        session_id,
        unit_name: container + ".container"@,
    }
}

/// Launched execution awaiting collection.
#[derive(Debug)]
pub struct PendingExec {
    /// Unit this execution belongs to (cleared with the unit).
    pub unit: UnitHandle,
    /// Whether the harness child is unreaped.
    pub running: bool,
    /// Collected outcome for replay until `remove`.
    pub outcome: Option<ExecutionOutcome>,
}

/// What a launched execution says.
pub struct PendingExecView {
    pub unit: Seq<char>,
    pub running: bool,
    pub outcome: Option<ExecutionOutcome>,
}

impl DeepView for PendingExec {
    type V = PendingExecView;

    open spec fn deep_view(&self) -> PendingExecView {
        PendingExecView {
            unit: self.unit.deep_view(),
            running: self.running,
            outcome: self.outcome,
        }
    }
}

/// Podman isolator tables.
#[derive(Debug)]
pub struct PodmanIsolator {
    units: Handles<UnitRecord>,
    keys: Handles<UnitHandle>,
    executions: Handles<PendingExec>,
}

/// Contents of the isolator's tables.
pub struct IsolatorView {
    pub units: Map<Seq<char>, UnitRecordView>,
    pub keys: Map<Seq<char>, Seq<char>>,
    pub executions: Map<Seq<char>, PendingExecView>,
}

impl View for PodmanIsolator {
    type V = IsolatorView;

    closed spec fn view(&self) -> IsolatorView {
        IsolatorView {
            units: self.units@,
            keys: self.keys@,
            executions: self.executions@,
        }
    }
}

/// Record of a handle.
pub open spec fn record_of(p: IsolatorView, handle: Seq<char>) -> std::result::Result<
    UnitRecordView,
    ErrorView,
> {
    if p.units.dom().contains(handle) {
        Ok(p.units[handle])
    } else {
        Err(ErrorView::Contract("unknown unit handle: "@ + handle))
    }
}

/// Whether an unreaped child runs on a unit.
pub open spec fn running_on(p: IsolatorView, unit: Seq<char>) -> bool {
    exists|k: Seq<char>| #[trigger]
        p.executions.dom().contains(k) && p.executions[k].unit == unit && p.executions[k].running
}

/// What one look at a launched child brought.
#[derive(Debug, Clone, Copy)]
pub enum ChildStatus {
    /// Still running.
    Running,
    /// Ended, by this signal or with this code.
    Ended {
        /// Terminating signal.
        signal: Option<i32>,
        /// Exit code.
        code: Option<i32>,
    },
}

/// What an await does next.
#[derive(Debug)]
pub enum AwaitPoll {
    /// The outcome is collected (or replayed).
    Outcome(ExecutionOutcome),
    /// Look at the child, then [`PodmanIsolator::observed`].
    Look,
}

/// What an await does before looking at the child.
pub open spec fn await_poll(p: IsolatorView, execution: Seq<char>) -> std::result::Result<
    Option<ExecutionOutcome>,
    ErrorView,
> {
    if !p.executions.dom().contains(execution) {
        Err(ErrorView::Contract("unknown execution handle: "@ + execution))
    } else {
        match p.executions[execution].outcome {
            Some(outcome) => Ok(Some(outcome)),
            None => if p.executions[execution].running {
                Ok(None)
            } else {
                Err(ErrorView::Contract("execution already reaped: "@ + execution))
            },
        }
    }
}

impl PodmanIsolator {
    /// Whether the tables are well-formed.
    pub closed spec fn wf(&self) -> bool {
        self.units.wf() && self.keys.wf() && self.executions.wf()
    }

    /// Fresh backend with empty handle tables.
    #[must_use]
    pub fn new() -> (p: Self)
        ensures
            p.wf(),
            p@ == (IsolatorView {
                units: Map::empty(),
                keys: Map::empty(),
                executions: Map::empty(),
            }),
    {
        PodmanIsolator { units: Handles::new(), keys: Handles::new(), executions: Handles::new() }
    }

    /// Adopts a pre-existing unit (cross-process recovery): registers the
    /// container/session pair under a minted handle.
    pub fn adopt(&mut self, container_name: &str, session_id: &str, ms: u64, entropy: &[u8; 5]) -> (
        handle: UnitHandle)
        requires
            old(self).wf(),
        ensures
            final(self).wf(),
            handle.deep_view() == session::minted_id(ms as nat, entropy@),
            final(self)@ == (IsolatorView {
                units: old(self)@.units.insert(
                    handle.deep_view(),
                    adopted_record(container_name@, session_id@),
                ),
                ..old(self)@
            }),
    {
        let handle = UnitHandle::mint(ms, entropy);
        self.units.insert(
            handle.as_str(),
            UnitRecord {
                container_name: container_name.to_owned(),
                session_id: session_id.to_owned(),
                unit_name: text::cat(container_name, ".container"),
            },
        );
        handle
    }

    /// Looks up the record for a handle.
    pub fn record(&self, handle: &UnitHandle) -> (r: Result<UnitRecord>)
        requires
            self.wf(),
        ensures
            crate::error::agrees(r, record_of(self@, handle.deep_view())),
    {
        match self.units.get(handle.as_str()) {
            Some(record) => Ok(record.clone()),
            None => Err(
                CistellaError::Contract(text::cat("unknown unit handle: ", handle.as_str())),
            ),
        }
    }

    /// Records a created unit under a minted handle and its key.
    pub fn register(
        &mut self,
        spec_input: &CreateSpec,
        key: &ReconciliationKey,
        ms: u64,
        entropy: &[u8; 5],
    ) -> (handle: UnitHandle)
        requires
            old(self).wf(),
        ensures
            final(self).wf(),
            handle.deep_view() == session::minted_id(ms as nat, entropy@),
            final(self)@ == (IsolatorView {
                units: old(self)@.units.insert(
                    handle.deep_view(),
                    adopted_record(
                        "cistella-"@ + spec_input.session.id@,
                        spec_input.session.id@,
                    ),
                ),
                keys: old(self)@.keys.insert(key.deep_view(), handle.deep_view()),
                ..old(self)@
            }),
    {
        let handle = UnitHandle::mint(ms, entropy);
        let record = UnitRecord {
            container_name: spec_input.session.container_name(),
            session_id: spec_input.session.id.clone(),
            unit_name: spec_input.session.quadlet_unit_name(),
        };
        assert(record.deep_view() == adopted_record(
            "cistella-"@ + spec_input.session.id@,
            spec_input.session.id@,
        ));
        self.units.insert(handle.as_str(), record);
        self.keys.insert(key.as_str(), handle.clone());
        handle
    }

    /// Adopts a scan hit and binds it to the key.
    pub fn adopt_key(
        &mut self,
        key: &ReconciliationKey,
        container_name: &str,
        session_id: &str,
        ms: u64,
        entropy: &[u8; 5],
    ) -> (handle: UnitHandle)
        requires
            old(self).wf(),
        ensures
            final(self).wf(),
            handle.deep_view() == session::minted_id(ms as nat, entropy@),
            final(self)@ == (IsolatorView {
                units: old(self)@.units.insert(
                    handle.deep_view(),
                    adopted_record(container_name@, session_id@),
                ),
                keys: old(self)@.keys.insert(key.deep_view(), handle.deep_view()),
                ..old(self)@
            }),
    {
        let handle = self.adopt(container_name, session_id, ms, entropy);
        self.keys.insert(key.as_str(), handle.clone());
        handle
    }

    /// A remembered unit for a key: a hint, not proof, to be verified
    /// against durable state.
    pub fn locate_hint(&self, key: &ReconciliationKey) -> (r: Option<(UnitHandle, UnitRecord)>)
        requires
            self.wf(),
        ensures
            match r {
                Some(hit) => self@.keys.dom().contains(key.deep_view())
                    && self@.keys[key.deep_view()] == hit.0.deep_view()
                    && self@.units.dom().contains(hit.0.deep_view())
                    && self@.units[hit.0.deep_view()] == hit.1.deep_view(),
                None => !self@.keys.dom().contains(key.deep_view())
                    || !self@.units.dom().contains(self@.keys[key.deep_view()]),
            },
    {
        match self.keys.get(key.as_str()) {
            None => None,
            Some(handle) => match self.units.get(handle.as_str()) {
                None => None,
                Some(record) => Some((handle.clone(), record.clone())),
            },
        }
    }

    /// Drops a stale key: its unit is gone, and the entry must not mask a
    /// reaped unit.
    pub fn forget_key(&mut self, key: &ReconciliationKey)
        requires
            old(self).wf(),
        ensures
            final(self).wf(),
            final(self)@ == (IsolatorView {
                keys: old(self)@.keys.remove(key.deep_view()),
                ..old(self)@
            }),
    {
        self.keys.remove(key.as_str());
    }

    /// Declared capabilities.
    pub fn capabilities() -> (c: IsolatorCapabilities)
        ensures
            c.backend@ == "podman-quadlet"@,
            c.supports@ == seq![Capability::Environment, Capability::Mounts],
    {
        let mut supports: Vec<Capability> = Vec::new();
        supports.push(Capability::Environment);
        supports.push(Capability::Mounts);
        assert(supports@ =~= seq![Capability::Environment, Capability::Mounts]);
        IsolatorCapabilities { backend: "podman-quadlet", supports }
    }

    /// Argv of a harness launch on a unit: in its workdir, or in the image's
    /// default.
    pub fn launch_argv(
        record: &UnitRecord,
        argv: &[String],
        workdir: Option<&str>,
        env: &TerminalEnv,
    ) -> (args: Vec<String>)
        ensures
            args.deep_view() == seq!["exec"@] + transport::forwarded(env.deep_view()) + (
            match workdir {
                Some(target) => seq![
                    "-i"@,
                    "-t"@,
                    "--workdir"@,
                    target@,
                    record.container_name@,
                ],
                None => seq!["-i"@, "-t"@, record.container_name@],
            }) + argv.deep_view(),
    {
        match workdir {
            Some(target) => transport::exec_harness_args(
                record.container_name.as_str(),
                target,
                argv,
                env,
            ),
            None => transport::exec_args(record.container_name.as_str(), argv, env),
        }
    }

    /// Tracks a spawned harness under a minted execution handle.
    pub fn execute_launch(&mut self, unit: &UnitHandle, ms: u64, entropy: &[u8; 5]) -> (execution:
        ExecutionHandle)
        requires
            old(self).wf(),
        ensures
            final(self).wf(),
            execution.deep_view() == session::minted_id(ms as nat, entropy@),
            final(self)@ == (IsolatorView {
                executions: old(self)@.executions.insert(
                    execution.deep_view(),
                    PendingExecView { unit: unit.deep_view(), running: true, outcome: None },
                ),
                ..old(self)@
            }),
    {
        let execution = ExecutionHandle::mint(ms, entropy);
        self.executions.insert(
            execution.as_str(),
            PendingExec { unit: unit.clone(), running: true, outcome: None },
        );
        execution
    }

    /// Begins one round of an await: a collected outcome replays; otherwise
    /// the child is to be looked at.
    pub fn await_result(&self, execution: &ExecutionHandle) -> (r: Result<AwaitPoll>)
        requires
            self.wf(),
        ensures
            match (r, await_poll(self@, execution.deep_view())) {
                (Ok(AwaitPoll::Outcome(a)), Ok(Some(b))) => a == b,
                (Ok(AwaitPoll::Look), Ok(None)) => true,
                (Err(a), Err(b)) => a@ == b,
                _ => false,
            },
    {
        match self.executions.get(execution.as_str()) {
            None => Err(
                CistellaError::Contract(
                    text::cat("unknown execution handle: ", execution.as_str()),
                ),
            ),
            Some(pending) => match pending.outcome {
                Some(outcome) => Ok(AwaitPoll::Outcome(outcome)),
                None => if pending.running {
                    Ok(AwaitPoll::Look)
                } else {
                    Err(
                        CistellaError::Contract(
                            text::cat("execution already reaped: ", execution.as_str()),
                        ),
                    )
                },
            },
        }
    }

    /// Settles a look at the child: an ended child's outcome is collected
    /// and kept for replay; a running one detaches on cancellation without
    /// being killed, or is looked at again.
    pub fn observed(
        &mut self,
        execution: &ExecutionHandle,
        status: ChildStatus,
        cancel: Option<i32>,
        hup: bool,
        term: bool,
    ) -> (r: Result<Option<ExecutionOutcome>>)
        requires
            old(self).wf(),
        ensures
            final(self).wf(),
            match status {
                ChildStatus::Running => final(self)@ == old(self)@ && if cancel is Some || hup
                    || term {
                    r matches Err(e) && e@ == ErrorView::Detached(
                        "await detached; execution "@ + execution.deep_view()
                            + " stays redeemable until remove"@,
                    )
                } else {
                    r == Ok::<Option<ExecutionOutcome>, CistellaError>(None)
                },
                ChildStatus::Ended { signal, code } => {
                    let outcome = outcome_of(cancel, hup, term, signal, code);
                    &&& r == Ok::<Option<ExecutionOutcome>, CistellaError>(Some(outcome))
                    &&& final(self)@ == (IsolatorView {
                        executions: if old(self)@.executions.dom().contains(
                            execution.deep_view(),
                        ) {
                            old(self)@.executions.insert(
                                execution.deep_view(),
                                PendingExecView {
                                    unit: old(self)@.executions[execution.deep_view()].unit,
                                    running: false,
                                    outcome: Some(outcome),
                                },
                            )
                        } else {
                            old(self)@.executions
                        },
                        ..old(self)@
                    })
                },
            },
    {
        match status {
            ChildStatus::Running => {
                if cancel.is_some() || hup || term {
                    return Err(
                        CistellaError::Detached(
                            text::cat3(
                                "await detached; execution ",
                                execution.as_str(),
                                " stays redeemable until remove",
                            ),
                        ),
                    );
                }
                Ok(None)
            },
            ChildStatus::Ended { signal, code } => {
                let outcome = status_outcome(cancel, hup, term, signal, code);
                let unit = match self.executions.get(execution.as_str()) {
                    Some(pending) => Some(pending.unit.clone()),
                    None => None,
                };
                match unit {
                    Some(unit) => {
                        self.executions.insert(
                            execution.as_str(),
                            PendingExec { unit, running: false, outcome: Some(outcome) },
                        );
                    },
                    None => {},
                }
                Ok(Some(outcome))
            },
        }
    }

    /// Whether an unreaped child runs on the unit: a retained record whose
    /// outcome is collected does not count.
    pub fn executing(&self, unit: &UnitHandle) -> (b: bool)
        requires
            self.wf(),
        ensures
            b == running_on(self@, unit.deep_view()),
    {
        let names = self.executions.keys();
        let ghost nv = names.deep_view();
        let mut i: usize = 0;
        while i < names.len()
            invariant
                self.wf(),
                nv == names.deep_view(),
                i <= names@.len(),
                forall|k: Seq<char>| #[trigger]
                    nv.contains(k) <==> self@.executions.dom().contains(k),
                forall|j: int|
                    0 <= j < i ==> !(self@.executions[#[trigger] nv[j]].unit == unit.deep_view()
                        && self@.executions[nv[j]].running),
            decreases names.len() - i,
        {
            assert(nv[i as int] == names@[i as int]@);
            assert(nv.contains(nv[i as int]));
            match self.executions.get(names[i].as_str()) {
                Some(pending) => {
                    if pending.running && text::eq(pending.unit.as_str(), unit.as_str()) {
                        assert(self@.executions.dom().contains(nv[i as int]));
                        return true;
                    }
                },
                None => {},
            }
            i = i + 1;
        }
        assert forall|k: Seq<char>| #[trigger] self@.executions.dom().contains(k) implies !(
        self@.executions[k].unit == unit.deep_view() && self@.executions[k].running) by {
            assert(nv.contains(k));
            let j = choose|j: int| 0 <= j < nv.len() && nv[j] == k;
            assert(!(self@.executions[nv[j]].unit == unit.deep_view()
                && self@.executions[nv[j]].running));
        }
        false
    }

    /// Drops the execution records of a removed unit: outcomes stay
    /// replayable until `remove`, never after.
    pub fn remove(&mut self, unit: &UnitHandle)
        requires
            old(self).wf(),
        ensures
            final(self).wf(),
            final(self)@ == (IsolatorView {
                executions: Map::new(
                    |k: Seq<char>|
                        old(self)@.executions.dom().contains(k) && old(self)@.executions[k].unit
                            != unit.deep_view(),
                    |k: Seq<char>| old(self)@.executions[k],
                ),
                ..old(self)@
            }),
    {
        let ghost all = self.executions@;
        let names = self.executions.keys();
        let ghost nv = names.deep_view();
        let mut i: usize = 0;
        while i < names.len()
            invariant
                self.wf(),
                self.units@ == old(self).units@,
                self.keys@ == old(self).keys@,
                all == old(self).executions@,
                nv == names.deep_view(),
                i <= names@.len(),
                forall|k: Seq<char>| #[trigger] nv.contains(k) <==> all.dom().contains(k),
                forall|k: Seq<char>| #[trigger]
                    self.executions@.dom().contains(k) <==> (all.dom().contains(k) && !(all[k].unit
                        == unit.deep_view() && nv.take(i as int).contains(k))),
                forall|k: Seq<char>| #[trigger]
                    self.executions@.dom().contains(k) ==> self.executions@[k] == all[k],
            decreases names.len() - i,
        {
            let ghost before = self.executions@;
            let ghost name = nv[i as int];
            assert(name == names@[i as int]@);
            assert(nv.contains(name));
            let hit = match self.executions.get(names[i].as_str()) {
                Some(b) => text::eq(b.unit.as_str(), unit.as_str()),
                None => false,
            };
            if hit {
                self.executions.remove(names[i].as_str());
            }
            assert forall|k: Seq<char>| #[trigger]
                self.executions@.dom().contains(k) <==> (all.dom().contains(k) && !(all[k].unit
                    == unit.deep_view() && nv.take(i + 1).contains(k))) by {
                let now = nv.take(i + 1);
                let was = nv.take(i as int);
                assert(now =~= was.push(name));
                if now.contains(k) {
                    let j = choose|j: int| 0 <= j < now.len() && now[j] == k;
                    if j < i {
                        assert(was[j] == k);
                    }
                }
                if was.contains(k) {
                    let j = choose|j: int| 0 <= j < was.len() && was[j] == k;
                    assert(now[j] == k);
                }
                assert(now[i as int] == name);
                assert(before.dom().contains(k) <==> (all.dom().contains(k) && !(all[k].unit
                    == unit.deep_view() && was.contains(k))));
            }
            i = i + 1;
        }
        assert(nv.take(i as int) =~= nv);
        assert(self.executions@ =~= Map::new(
            |k: Seq<char>| all.dom().contains(k) && all[k].unit != unit.deep_view(),
            |k: Seq<char>| all[k],
        ));
    }
}

// ---------------------------------------------------------------------
// Laws
// ---------------------------------------------------------------------

/// A collected outcome replays: every later await of the execution gives it
/// back, until the unit is removed.
pub proof fn law_outcomes_replay(
    before: IsolatorView,
    after: IsolatorView,
    execution: Seq<char>,
    outcome: ExecutionOutcome,
)
    requires
        before.executions.dom().contains(execution),
        after.executions == before.executions.insert(
            execution,
            PendingExecView {
                unit: before.executions[execution].unit,
                running: false,
                outcome: Some(outcome),
            },
        ),
    ensures
        await_poll(after, execution) == Ok::<Option<ExecutionOutcome>, ErrorView>(Some(outcome)),
{
}

/// Only a running container executes, and only a missing unit without a
/// container is absent.
pub proof fn law_states_are_sound(
    active: Option<Seq<char>>,
    container: Option<Seq<char>>,
    unit_present: bool,
    executing: bool,
)
    ensures
        ({
            let s = state_of(active, container, unit_present, executing);
            &&& s == LifecycleState::Executing <==> container == Some("running"@) && executing
            &&& s == LifecycleState::Initiated <==> container == Some("running"@) && !executing
            &&& s == LifecycleState::Absent <==> container is None && !unit_present
        }),
{
}

// ---------------------------------------------------------------------
// What podman's answers mean
// ---------------------------------------------------------------------

/// A running container is executing or initiated, any other container
/// stopped; without a container a unit is created, or stopped where it
/// failed, and without either there is nothing.
pub proof fn law_states_follow_container_and_unit(
    active: Option<Seq<char>>,
    container: Option<Seq<char>>,
    unit_present: bool,
    executing: bool,
)
    ensures
        ({
            let s = state_of(active, container, unit_present, executing);
            &&& s == LifecycleState::Executing <==> container == Some("running"@) && executing
            &&& s == LifecycleState::Initiated <==> container == Some("running"@) && !executing
            &&& s == LifecycleState::Absent <==> container is None && !unit_present
            &&& s == LifecycleState::Created <==> container is None && unit_present && active
                != Some("failed"@)
            &&& s == LifecycleState::Stopped <==> (container is Some && container != Some(
                "running"@,
            )) || (container is None && unit_present && active == Some("failed"@))
        }),
{
}

/// An execution ends by the signal that cancelled it, else by a hangup or a
/// termination that came, else by its own signal, else with its code.
pub proof fn law_outcomes_prefer_the_cancel(
    cancel: i32,
    hup: bool,
    term: bool,
    signal: Option<i32>,
    code: Option<i32>,
)
    ensures
        outcome_of(Some(cancel), hup, term, signal, code) == ExecutionOutcome::Signaled(cancel),
        hup ==> outcome_of(None, hup, term, signal, code) == ExecutionOutcome::Signaled(1),
        !hup && term ==> outcome_of(None, hup, term, signal, code) == ExecutionOutcome::Signaled(
            15,
        ),
        !hup && !term && signal is Some ==> outcome_of(None, hup, term, signal, code)
            == ExecutionOutcome::Signaled(signal->0),
        !hup && !term && signal is None && code is Some ==> outcome_of(
            None,
            hup,
            term,
            signal,
            code,
        ) == ExecutionOutcome::Exited(code->0),
        !hup && !term && signal is None && code is None ==> outcome_of(
            None,
            hup,
            term,
            signal,
            code,
        ) == ExecutionOutcome::Exited(1),
{
}

/// Whether a text is one word.
pub open spec fn one_word(s: Seq<char>) -> bool {
    s.len() > 0 && forall|i: int| 0 <= i < s.len() ==> !text::is_space(#[trigger] s[i])
}

proof fn lemma_nonempty_all(parts: Seq<Seq<char>>)
    requires
        forall|i: int| 0 <= i < parts.len() ==> (#[trigger] parts[i]).len() > 0,
    ensures
        nonempty(parts) == parts,
    decreases parts.len(),
{
    if parts.len() > 0 {
        let t = parts.drop_last();
        assert forall|i: int| 0 <= i < t.len() implies (#[trigger] t[i]).len() > 0 by {
            assert(t[i] == parts[i]);
        }
        lemma_nonempty_all(t);
        assert(parts[parts.len() - 1].len() > 0);
        assert(t.push(parts.last()) =~= parts);
    }
}

proof fn lemma_join_spaced(ws: Seq<Seq<char>>)
    requires
        ws.len() > 0,
        forall|i: int| 0 <= i < ws.len() ==> one_word(#[trigger] ws[i]),
    ensures
        spaced(text::join(ws, seq![' '])) == text::join(ws, seq![' ']),
        text::join(ws, seq![' ']).len() > 0,
        !text::is_space(text::join(ws, seq![' '])[0]),
        !text::is_space(text::join(ws, seq![' ']).last()),
    decreases ws.len(),
{
    let w = ws.last();
    assert(one_word(ws[ws.len() - 1]));
    assert(spaced(w) =~= w);
    if ws.len() == 1 {
        assert(ws[0] == w);
    } else {
        let t = ws.drop_last();
        assert forall|i: int| 0 <= i < t.len() implies one_word(#[trigger] t[i]) by {
            assert(t[i] == ws[i]);
        }
        lemma_join_spaced(t);
        let a = text::join(t, seq![' ']);
        let s = text::join(ws, seq![' ']);
        assert(s == a + seq![' '] + w);
        assert forall|i: int| 0 <= i < s.len() implies spaced(s)[i] == s[i] by {
            if i < a.len() {
                assert(spaced(a)[i] == a[i]);
                assert(s[i] == a[i]);
            } else if i > a.len() {
                assert(s[i] == w[i - a.len() - 1]);
                assert(spaced(w)[i - a.len() - 1] == w[i - a.len() - 1]);
            }
        }
        assert(spaced(s) =~= s);
        assert(s[0] == a[0]);
        assert(s.last() == w.last());
    }
}

/// Words joined by blanks are read back as they were.
pub proof fn law_words_are_read_back(ws: Seq<Seq<char>>)
    requires
        ws.len() > 0,
        forall|i: int| 0 <= i < ws.len() ==> one_word(#[trigger] ws[i]),
    ensures
        words(text::join(ws, " "@)) == ws,
        text::trimmed(text::join(ws, " "@)) == text::join(ws, " "@),
{
    reveal_strlit(" ");
    assert(" "@ =~= seq![' ']);
    let s = text::join(ws, " "@);
    lemma_join_spaced(ws);
    assert forall|i: int| 0 <= i < ws.len() implies !(#[trigger] ws[i]).contains(' ') by {
        assert(one_word(ws[i]));
        assert(text::is_space(' '));
    }
    crate::path::lemma_split_join(ws, ' ');
    assert forall|i: int| 0 <= i < ws.len() implies (#[trigger] ws[i]).len() > 0 by {
        assert(one_word(ws[i]));
    }
    lemma_nonempty_all(ws);
    text::lemma_trim_start(s, 0);
    assert(s.skip(0) =~= s);
    text::lemma_trim_end(s, s.len() as int);
    assert(s.take(s.len() as int) =~= s);
}

/// An inspection that prints a status, a session and an image gives these
/// three; a session marked as missing is empty.
pub proof fn law_inspections_are_read(status: Seq<char>, id: Seq<char>, image: Seq<char>)
    requires
        one_word(status),
        one_word(id),
        one_word(image),
    ensures
        inspected(status + " "@ + id + " "@ + image).0 == Some(status),
        inspected(status + " "@ + id + " "@ + image).1 == if id[0] == '<' {
            ""@
        } else {
            id
        },
        inspected(status + " "@ + id + " "@ + image).2 == image,
{
    let ws = seq![status, id, image];
    law_words_are_read_back(ws);
    let two = ws.drop_last();
    let one = two.drop_last();
    assert(text::join(one, " "@) == status);
    assert(text::join(two, " "@) == status + " "@ + id);
    assert(text::join(ws, " "@) == status + " "@ + id + " "@ + image);
}

/// A listing by key gives the first line with a container and a session that
/// is not marked as missing.
pub proof fn law_listings_give_the_first_session(
    lines: Seq<Seq<char>>,
    k: int,
    name: Seq<char>,
    id: Seq<char>,
)
    requires
        0 <= k < lines.len(),
        one_word(name),
        one_word(id),
        id[0] != '<',
        lines[k] == name + " "@ + id,
        forall|j: int|
            0 <= j < k ==> words(#[trigger] lines[j]).len() < 2 || words(lines[j])[1][0] == '<'
                && words(lines[j])[1].len() > 0,
    ensures
        first_hit(lines, 0) == Some((name, id)),
{
    let ws = seq![name, id];
    law_words_are_read_back(ws);
    let one = ws.drop_last();
    assert(text::join(one, " "@) == name);
    assert(text::join(ws, " "@) == name + " "@ + id);
    lemma_first_hit(lines, 0, k);
}

proof fn lemma_first_hit(lines: Seq<Seq<char>>, from: int, k: int)
    requires
        0 <= from <= k < lines.len(),
        forall|j: int|
            0 <= j < k ==> words(#[trigger] lines[j]).len() < 2 || words(lines[j])[1][0] == '<'
                && words(lines[j])[1].len() > 0,
    ensures
        first_hit(lines, from) == first_hit(lines, k),
    decreases k - from,
{
    if from < k {
        assert(words(lines[from]).len() < 2 || words(lines[from])[1][0] == '<');
        lemma_first_hit(lines, from + 1, k);
    }
}

/// A unit that a scan finds is a unit file with the key among its labels; its
/// container is the file's name without its ending, and its session what its
/// label says. A scan finds none only where no unit file has the key.
pub proof fn law_scans_find_the_key(files: Seq<UnitFileView>, key: Seq<char>, k: int)
    requires
        0 <= k <= files.len(),
    ensures
        scanned(files, key, k) matches Ok(Some(hit)) ==> exists|i: int|
            {
                &&& k <= i < files.len()
                &&& "cistella-"@.is_prefix_of((#[trigger] files[i]).name)
                &&& files[i].name == hit.0 + ".container"@
                &&& files[i].content is Ok
                &&& registry::label_in(files[i].content->Ok_0, "cistella.reconciliation-key"@)
                    == Some(key)
                &&& registry::label_in(files[i].content->Ok_0, "cistella.id"@) is Some
                    ==> registry::label_in(files[i].content->Ok_0, "cistella.id"@) == Some(hit.1)
            },
        scanned(files, key, k) == Ok::<Option<(Seq<char>, Seq<char>)>, ErrorView>(None)
            ==> forall|i: int|
            k <= i < files.len() && "cistella-"@.is_prefix_of((#[trigger] files[i]).name)
                && ".container"@.is_suffix_of(files[i].name) ==> files[i].content is Ok
                && registry::label_in(files[i].content->Ok_0, "cistella.reconciliation-key"@)
                != Some(key),
    decreases files.len() - k,
{
    if k < files.len() {
        law_scans_find_the_key(files, key, k + 1);
        let f = files[k];
        if registry::is_unit_file(f.name) && f.content is Ok && registry::label_in(
            f.content->Ok_0,
            LABEL_RECONCILIATION_KEY@,
        ) == Some(key) {
            let n = f.name.len() - ".container"@.len();
            assert(f.name =~= f.name.take(n) + ".container"@) by {
                assert(".container"@ =~= f.name.subrange(n, f.name.len() as int));
            }
            let hit = (scanned(files, key, k)->Ok_0)->0;
            assert(files[k].name == hit.0 + ".container"@);
        }
    }
}

/// An inspection fails with podman, except where the container is known to be
/// gone: then there is nothing to report.
pub proof fn law_inspections_of_absent_containers_are_empty(
    name: Seq<char>,
    out: String,
    m: String,
)
    ensures
        inspection(name, PodmanRun::Printed(out), Ok(true)) == Ok::<
            (Option<Seq<char>>, Seq<char>, Seq<char>),
            ErrorView,
        >(inspected(out@)),
        inspection(name, PodmanRun::Failed(m), Ok(false)) == Ok::<
            (Option<Seq<char>>, Seq<char>, Seq<char>),
            ErrorView,
        >((None, ""@, ""@)),
        inspection(name, PodmanRun::Failed(m), Ok(true)) is Err,
        inspection(name, PodmanRun::Broken(m), Ok(true)) is Err,
{
}

/// A unit is recorded under its container, its session, and the container's
/// name with `.container`.
pub proof fn law_records_name_the_unit(container: Seq<char>, id: Seq<char>)
    ensures
        adopted_record(container, id).container_name == container,
        adopted_record(container, id).session_id == id,
        adopted_record(container, id).unit_name == container + ".container"@,
{
}

/// A known execution is awaited: its outcome where it ended, patience where
/// it runs, and a refusal otherwise.
pub proof fn law_awaits_give_the_outcome(p: IsolatorView, execution: Seq<char>)
    ensures
        await_poll(p, execution) matches Ok(Some(o)) ==> p.executions.dom().contains(execution)
            && p.executions[execution].outcome == Some(o),
        p.executions.dom().contains(execution) && p.executions[execution].outcome is Some
            ==> await_poll(p, execution) == Ok::<Option<ExecutionOutcome>, ErrorView>(
            p.executions[execution].outcome,
        ),
        await_poll(p, execution) == Ok::<Option<ExecutionOutcome>, ErrorView>(None)
            <==> p.executions.dom().contains(execution) && p.executions[execution].outcome is None
            && p.executions[execution].running,
        !p.executions.dom().contains(execution) ==> await_poll(p, execution) is Err,
{
}

/// A unit is known exactly by its handle.
pub proof fn law_known_units_have_their_record(p: IsolatorView, handle: Seq<char>)
    ensures
        record_of(p, handle) is Ok <==> p.units.dom().contains(handle),
        record_of(p, handle) matches Ok(r) ==> r == p.units[handle],
{
}

/// A search by key is answered by what podman listed or by the unit files, and
/// fails only where podman or the directory did; with no directory there is no
/// unit.
pub proof fn law_key_searches_fail_with_their_source(out: String, m: String, files: Vec<UnitFile>, key: Seq<char>)
    ensures
        key_listing(PodmanRun::Printed(out)) == Ok::<Option<(Seq<char>, Seq<char>)>, ErrorView>(
            first_hit(text::lines_of(out@), 0),
        ),
        key_listing(PodmanRun::Broken(m)) is Err,
        key_listing(PodmanRun::Failed(m)) is Err,
        key_scan(UnitDir::Absent, key) == Ok::<Option<(Seq<char>, Seq<char>)>, ErrorView>(None),
        key_scan(UnitDir::Failed(m, out), key) is Err,
        key_scan(UnitDir::Files(files), key) == scanned(files.deep_view(), key, 0),
{
}

/// A unit runs something when one of its executions has not been reaped.
pub proof fn law_unreaped_executions_run(p: IsolatorView, unit: Seq<char>, k: Seq<char>)
    ensures
        p.executions.dom().contains(k) && p.executions[k].unit == unit && p.executions[k].running
            ==> running_on(p, unit),
        (forall|e: Seq<char>| #[trigger]
            p.executions.dom().contains(e) ==> p.executions[e].unit != unit
                || !p.executions[e].running) ==> !running_on(p, unit),
{
}

/// A view says what the fields hold, each under its own name.
pub proof fn law_views_say_the_fields(
    unit_record: UnitRecord,
    pending_exec: PendingExec,
)
    ensures
        unit_record.deep_view().container_name == unit_record.container_name@,
        unit_record.deep_view().session_id == unit_record.session_id@,
        unit_record.deep_view().unit_name == unit_record.unit_name@,
        pending_exec.deep_view().unit == pending_exec.unit.deep_view(),
        pending_exec.deep_view().running == pending_exec.running,
        pending_exec.deep_view().outcome == pending_exec.outcome,
{
}

} // verus!
