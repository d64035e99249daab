//! Session registry: unit files joined with runtime state plus selectors.
//!
//! The unit-file directory is the source of truth (stopped containers are
//! invisible to `podman ps`). `survey` filters with zero or many selectors;
//! `enter`/`inspect`/`terminate` resolve exactly one.

use vstd::prelude::*;

use crate::error::{CistellaError, ErrorView, Result};
use crate::isolators::quadlet;
use crate::order;
use crate::session::{
    LABEL_DIRECTORY,
    LABEL_ID,
    LABEL_IDENTITY,
    LABEL_IMAGE,
    LABEL_PROFILE,
    RESERVED_PREFIX,
};
use crate::table;
use crate::text;

verus! {

/// One registry row: driver labels parsed from the unit file plus liveness.
#[derive(Debug)]
pub struct SessionRecord {
    /// Minted session id.
    pub id: String,
    /// Container name (`cistella-<id>`).
    pub container_name: String,
    /// Canonical host directory.
    pub directory: String,
    /// Profile name.
    pub profile: String,
    /// Identity label.
    pub identity: String,
    /// Resolved image digest.
    pub image: String,
    /// Unit `ActiveState` (`unknown` without systemd).
    pub active_state: String,
    /// Present in `podman ps --all` (container not yet reaped).
    pub container_present: bool,
    /// Generic (non-`cistella.*`) labels from the unit file.
    pub generic_labels: Vec<(String, String)>,
}

/// What a record says.
pub struct RecordView {
    pub id: Seq<char>,
    pub container_name: Seq<char>,
    pub directory: Seq<char>,
    pub profile: Seq<char>,
    pub identity: Seq<char>,
    pub image: Seq<char>,
    pub active_state: Seq<char>,
    pub container_present: bool,
    pub generic_labels: Seq<(Seq<char>, Seq<char>)>,
}

impl DeepView for SessionRecord {
    type V = RecordView;

    open spec fn deep_view(&self) -> RecordView {
        RecordView {
            id: self.id@,
            container_name: self.container_name@,
            directory: self.directory@,
            profile: self.profile@,
            identity: self.identity@,
            image: self.image@,
            active_state: self.active_state@,
            container_present: self.container_present,
            generic_labels: self.generic_labels.deep_view(),
        }
    }
}

impl Clone for SessionRecord {
    fn clone(&self) -> (r: Self)
        ensures
            r.deep_view() == self.deep_view(),
    {
        SessionRecord {
            id: self.id.clone(),
            container_name: self.container_name.clone(),
            directory: self.directory.clone(),
            profile: self.profile.clone(),
            identity: self.identity.clone(),
            image: self.image.clone(),
            active_state: self.active_state.clone(),
            container_present: self.container_present,
            generic_labels: table::copy(&self.generic_labels),
        }
    }
}

/// Value of a driver or generic label by key.
pub open spec fn label_of(r: RecordView, key: Seq<char>) -> Option<Seq<char>> {
    if key == LABEL_ID@ {
        Some(r.id)
    } else if key == LABEL_DIRECTORY@ {
        Some(r.directory)
    } else if key == LABEL_PROFILE@ {
        Some(r.profile)
    } else if key == LABEL_IDENTITY@ {
        Some(r.identity)
    } else if key == LABEL_IMAGE@ {
        Some(r.image)
    } else {
        table::lookup(r.generic_labels, key, 0)
    }
}

impl SessionRecord {
    /// Returns the value of a driver or generic label by key.
    #[must_use]
    pub fn label_value(&self, key: &str) -> (r: Option<&str>)
        ensures
            match r {
                Some(v) => label_of(self.deep_view(), key@) == Some(v@),
                None => label_of(self.deep_view(), key@) is None,
            },
    {
        if text::eq(key, LABEL_ID) {
            Some(self.id.as_str())
        } else if text::eq(key, LABEL_DIRECTORY) {
            Some(self.directory.as_str())
        } else if text::eq(key, LABEL_PROFILE) {
            Some(self.profile.as_str())
        } else if text::eq(key, LABEL_IDENTITY) {
            Some(self.identity.as_str())
        } else if text::eq(key, LABEL_IMAGE) {
            Some(self.image.as_str())
        } else {
            table::lookup_text(&self.generic_labels, key)
        }
    }
}

// ---------------------------------------------------------------------
// Unit files
// ---------------------------------------------------------------------

/// Trimmed rest of the first line at or after `k` that begins with the
/// prefix.
pub open spec fn first_with_prefix(lines: Seq<Seq<char>>, prefix: Seq<char>, k: int) -> Option<
    Seq<char>,
>
    decreases lines.len() - k,
{
    if k < 0 || k >= lines.len() {
        None
    } else if prefix.is_prefix_of(lines[k]) {
        Some(text::trimmed(lines[k].skip(prefix.len() as int)))
    } else {
        first_with_prefix(lines, prefix, k + 1)
    }
}

/// Rest of `s` behind a prefix it begins with.
fn strip_prefix(s: &str, prefix: &str) -> (r: Option<String>)
    ensures
        match r {
            Some(rest) => prefix@.is_prefix_of(s@) && rest@ == s@.skip(prefix@.len() as int),
            None => !prefix@.is_prefix_of(s@),
        },
{
    if !text::starts_with(s, prefix) {
        return None;
    }
    let v = text::chars_of(s);
    let p = text::chars_of(prefix);
    let rest = text::slice_of(&v, p.len(), v.len());
    assert(rest@ =~= s@.skip(prefix@.len() as int));
    Some(rest)
}

/// Value of one label in a unit file's content: the rest of the first
/// `Label=<key>=` line, trimmed and unquoted.
pub open spec fn label_in(content: Seq<char>, key: Seq<char>) -> Option<Seq<char>> {
    match first_with_prefix(text::lines_of(content), "Label="@ + key + "="@, 0) {
        Some(stored) => Some(quadlet::unquoted(stored)),
        None => None,
    }
}

/// Reads one label from a unit file's content (the source of truth for
/// orphans whose container is gone). The unit stores a quoted value; the
/// registry sees the literal one.
pub fn unit_file_label(content: &str, key: &str) -> (r: Option<String>)
    ensures
        r.deep_view() == label_in(content@, key@),
{
    let prefix = text::cat3("Label=", key, "=");
    let lines = text::lines(content);
    let ghost all = text::lines_of(content@);
    let mut k: usize = 0;
    while k < lines.len()
        invariant
            lines.deep_view() == all,
            all == text::lines_of(content@),
            prefix@ == "Label="@ + key@ + "="@,
            k <= lines@.len(),
            first_with_prefix(all, prefix@, 0) == first_with_prefix(all, prefix@, k as int),
        decreases lines.len() - k,
    {
        assert(all[k as int] == lines@[k as int]@);
        match strip_prefix(lines[k].as_str(), prefix.as_str()) {
            Some(value) => {
                return Some(quadlet::unquote_systemd(text::trim(value.as_str()).as_str()));
            },
            None => {},
        }
        k = k + 1;
    }
    None
}

/// The generic label that a unit line holds, if any.
pub open spec fn generic_label(line: Seq<char>) -> Option<(Seq<char>, Seq<char>)> {
    if "Label="@.is_prefix_of(line) {
        let rest = line.skip("Label="@.len() as int);
        let at = text::first_index(rest, '=');
        if rest.contains('=') && !RESERVED_PREFIX@.is_prefix_of(rest.take(at)) {
            Some((rest.take(at), quadlet::unquoted(rest.skip(at + 1))))
        } else {
            None
        }
    } else {
        None
    }
}

/// Generic labels of unit lines, in order.
pub open spec fn generic_labels_of(lines: Seq<Seq<char>>) -> Seq<(Seq<char>, Seq<char>)>
    decreases lines.len(),
{
    if lines.len() == 0 {
        Seq::empty()
    } else {
        match generic_label(lines.last()) {
            Some(l) => generic_labels_of(lines.drop_last()).push(l),
            None => generic_labels_of(lines.drop_last()),
        }
    }
}

/// Generic (non-`cistella.*`) labels of a unit file's content, with their
/// literal values.
pub fn unit_generic_labels(content: &str) -> (out: Vec<(String, String)>)
    ensures
        out.deep_view() == generic_labels_of(text::lines_of(content@)),
{
    let lines = text::lines(content);
    let ghost all = text::lines_of(content@);
    let mut out: Vec<(String, String)> = Vec::new();
    let mut k: usize = 0;
    assert(all.take(0) =~= Seq::<Seq<char>>::empty());
    assert(out.deep_view() =~= Seq::<(Seq<char>, Seq<char>)>::empty());
    while k < lines.len()
        invariant
            lines.deep_view() == all,
            k <= lines@.len(),
            out.deep_view() == generic_labels_of(all.take(k as int)),
        decreases lines.len() - k,
    {
        let ghost before = out.deep_view();
        assert(all.take(k + 1).drop_last() =~= all.take(k as int));
        assert(all.take(k + 1).last() == lines@[k as int]@);
        match strip_prefix(lines[k].as_str(), "Label=") {
            Some(rest) => match text::split_once(rest.as_str(), '=') {
                Some(p) => {
                    if !text::starts_with(p.0.as_str(), RESERVED_PREFIX) {
                        let value = quadlet::unquote_systemd(p.1.as_str());
                        out.push((p.0, value));
                        assert(out.deep_view() =~= before.push((p.0@, value@)));
                    }
                },
                None => {},
            },
            None => {},
        }
        k = k + 1;
    }
    assert(all.take(k as int) =~= all);
    out
}

/// `s` without trailing repetitions of `suffix`.
pub open spec fn without_suffixes(s: Seq<char>, suffix: Seq<char>) -> Seq<char>
    decreases s.len(),
{
    if suffix.len() > 0 && suffix.is_suffix_of(s) {
        without_suffixes(s.take(s.len() - suffix.len()), suffix)
    } else {
        s
    }
}

/// Whether a file name is that of a session unit.
pub open spec fn is_unit_file(name: Seq<char>) -> bool {
    "cistella-"@.is_prefix_of(name) && ".container"@.is_suffix_of(name)
}

/// Session units among file names: container name and file name.
pub open spec fn units_of(names: Seq<Seq<char>>) -> Seq<(Seq<char>, Seq<char>)>
    decreases names.len(),
{
    if names.len() == 0 {
        Seq::empty()
    } else if is_unit_file(names.last()) {
        units_of(names.drop_last()).push(
            (without_suffixes(names.last(), ".container"@), names.last()),
        )
    } else {
        units_of(names.drop_last())
    }
}

/// One side of each unit with its index.
pub open spec fn unit_entries(units: Seq<(Seq<char>, Seq<char>)>, by_file: bool) -> Seq<
    (Seq<char>, int),
> {
    Seq::new(
        units.len(),
        |i: int|
            (
                if by_file {
                    units[i].1
                } else {
                    units[i].0
                },
                i,
            ),
    )
}

/// Units stably sorted by one side.
pub open spec fn units_by(units: Seq<(Seq<char>, Seq<char>)>, by_file: bool) -> Seq<
    (Seq<char>, Seq<char>),
> {
    order::stable_sort(unit_entries(units, by_file), order::by_key::<String>()).map_values(
        |e: (Seq<char>, int)| units[e.1],
    )
}

/// Session units in order of container name, then file name.
pub open spec fn sorted_units(names: Seq<Seq<char>>) -> Seq<(Seq<char>, Seq<char>)> {
    units_by(units_by(units_of(names), true), false)
}

fn strip_suffixes(s: &str, suffix: &str) -> (r: String)
    ensures
        r@ == without_suffixes(s@, suffix@),
{
    let p = text::chars_of(suffix);
    if p.len() == 0 {
        return s.to_owned();
    }
    let v = text::chars_of(s);
    let mut cur = s.to_owned();
    let mut n: usize = v.len();
    assert(s@.take(n as int) =~= s@);
    while text::ends_with(cur.as_str(), suffix)
        invariant
            v@ == s@,
            p@ == suffix@,
            p@.len() > 0,
            n <= v@.len(),
            cur@ == s@.take(n as int),
            without_suffixes(s@, suffix@) == without_suffixes(cur@, suffix@),
        decreases n,
    {
        n = n - p.len();
        let ghost before = cur@;
        cur = text::slice_of(&v, 0, n);
        assert(cur@ =~= s@.take(n as int));
        assert(before.take(n as int) =~= s@.take(n as int));
    }
    cur
}

proof fn lemma_unit_entries(units: Seq<(Seq<char>, Seq<char>)>, by_file: bool)
    ensures
        ({
            let e = order::stable_sort(unit_entries(units, by_file), order::by_key::<String>());
            forall|p: int| 0 <= p < e.len() ==> 0 <= (#[trigger] e[p]).1 < units.len()
        }),
{
    let all = unit_entries(units, by_file);
    let e = order::stable_sort(all, order::by_key::<String>());
    order::lemma_stable_sort_members(all, order::by_key::<String>());
    assert forall|p: int| 0 <= p < e.len() implies 0 <= (#[trigger] e[p]).1 < units.len() by {
        assert(e.contains(e[p]));
        assert(all.contains(e[p]));
    }
}

fn sort_units(units: &Vec<(String, String)>, by_file: bool) -> (out: Vec<(String, String)>)
    ensures
        out.deep_view() == units_by(units.deep_view(), by_file),
{
    let ghost all = units.deep_view();
    let mut entries: Vec<(String, usize)> = Vec::new();
    let mut k: usize = 0;
    while k < units.len()
        invariant
            all == units.deep_view(),
            k <= units@.len(),
            order::entries_view(entries@) =~= unit_entries(all, by_file).take(k as int),
        decreases units.len() - k,
    {
        let ghost before = order::entries_view(entries@);
        assert(all[k as int] == units@[k as int].deep_view());
        let key = if by_file {
            units[k].1.clone()
        } else {
            units[k].0.clone()
        };
        entries.push((key, k));
        assert(order::entries_view(entries@) =~= before.push(unit_entries(all, by_file)[k as int]));
        k = k + 1;
    }
    assert(order::entries_view(entries@) =~= unit_entries(all, by_file));
    let sorted = order::sort_entries(entries);
    let ghost e = order::entries_view(sorted@);
    proof {
        lemma_unit_entries(all, by_file);
    }
    let mut out: Vec<(String, String)> = Vec::new();
    let mut i: usize = 0;
    while i < sorted.len()
        invariant
            all == units.deep_view(),
            e == order::entries_view(sorted@),
            e == order::stable_sort(unit_entries(all, by_file), order::by_key::<String>()),
            forall|p: int| 0 <= p < e.len() ==> 0 <= (#[trigger] e[p]).1 < all.len(),
            i <= sorted@.len(),
            out.deep_view() =~= units_by(all, by_file).take(i as int),
        decreases sorted.len() - i,
    {
        let ghost before = out.deep_view();
        assert(e[i as int] == (sorted@[i as int].0@, sorted@[i as int].1 as int));
        let u = &units[sorted[i].1];
        assert(all[e[i as int].1] == u.deep_view());
        out.push((u.0.clone(), u.1.clone()));
        assert(out.deep_view() =~= before.push(units_by(all, by_file)[i as int]));
        i = i + 1;
    }
    assert(units_by(all, by_file).take(i as int) =~= units_by(all, by_file));
    out
}

/// Session units among the file names of the unit directory: container
/// name and file name, in order of container name, then file name.
pub fn session_units(names: &Vec<String>) -> (out: Vec<(String, String)>)
    ensures
        out.deep_view() == sorted_units(names.deep_view()),
{
    let ghost all = names.deep_view();
    let mut units: Vec<(String, String)> = Vec::new();
    let mut k: usize = 0;
    assert(all.take(0) =~= Seq::<Seq<char>>::empty());
    assert(units.deep_view() =~= Seq::<(Seq<char>, Seq<char>)>::empty());
    while k < names.len()
        invariant
            all == names.deep_view(),
            k <= names@.len(),
            units.deep_view() == units_of(all.take(k as int)),
        decreases names.len() - k,
    {
        let ghost before = units.deep_view();
        assert(all.take(k + 1).drop_last() =~= all.take(k as int));
        assert(all.take(k + 1).last() == names@[k as int]@);
        let name = names[k].as_str();
        if text::starts_with(name, "cistella-") && text::ends_with(name, ".container") {
            units.push((strip_suffixes(name, ".container"), name.to_owned()));
            assert(units.deep_view() =~= before.push(
                (without_suffixes(name@, ".container"@), name@),
            ));
        }
        k = k + 1;
    }
    assert(all.take(k as int) =~= all);
    let by_file = sort_units(&units, true);
    sort_units(&by_file, false)
}

/// Trimmed lines that are not empty, in order.
pub open spec fn trimmed_lines(lines: Seq<Seq<char>>) -> Seq<Seq<char>>
    decreases lines.len(),
{
    if lines.len() == 0 {
        Seq::empty()
    } else if text::trimmed(lines.last()).len() > 0 {
        trimmed_lines(lines.drop_last()).push(text::trimmed(lines.last()))
    } else {
        trimmed_lines(lines.drop_last())
    }
}

/// Container names in `podman ps` output, one per line.
pub fn present_containers(stdout: &str) -> (out: Vec<String>)
    ensures
        out.deep_view() == trimmed_lines(text::lines_of(stdout@)),
{
    let lines = text::lines(stdout);
    let ghost all = text::lines_of(stdout@);
    let mut out: Vec<String> = Vec::new();
    let mut k: usize = 0;
    assert(all.take(0) =~= Seq::<Seq<char>>::empty());
    assert(out.deep_view() =~= Seq::<Seq<char>>::empty());
    while k < lines.len()
        invariant
            lines.deep_view() == all,
            k <= lines@.len(),
            out.deep_view() == trimmed_lines(all.take(k as int)),
        decreases lines.len() - k,
    {
        let ghost before = out.deep_view();
        assert(all.take(k + 1).drop_last() =~= all.take(k as int));
        assert(all.take(k + 1).last() == lines@[k as int]@);
        let t = text::trim(lines[k].as_str());
        if !t.as_str().is_empty() {
            out.push(t);
            assert(out.deep_view() =~= before.push(t@));
        }
        k = k + 1;
    }
    assert(all.take(k as int) =~= all);
    out
}

/// A text, empty when absent.
pub open spec fn or_empty(v: Option<Seq<char>>) -> Seq<char> {
    match v {
        Some(s) => s,
        None => Seq::empty(),
    }
}

/// Id that a container name carries.
pub open spec fn id_of_container(container: Seq<char>) -> Seq<char> {
    if "cistella-"@.is_prefix_of(container) {
        container.skip("cistella-"@.len() as int)
    } else {
        container
    }
}

fn text_or_empty(v: Option<String>) -> (s: String)
    ensures
        s@ == or_empty(v.deep_view()),
{
    match v {
        Some(s) => s,
        None => {
            let s = String::new();
            assert(s@ =~= Seq::<char>::empty());
            s
        },
    }
}

/// Label of a unit's content; none where the file cannot be read.
pub open spec fn label_if_read(content: Option<Seq<char>>, key: Seq<char>) -> Option<Seq<char>> {
    match content {
        Some(c) => label_in(c, key),
        None => None,
    }
}

/// Generic labels of a unit's content; none where the file cannot be read.
pub open spec fn generic_if_read(content: Option<Seq<char>>) -> Seq<(Seq<char>, Seq<char>)> {
    match content {
        Some(c) => generic_labels_of(text::lines_of(c)),
        None => Seq::empty(),
    }
}

/// The registry row of one unit.
pub open spec fn row_of(
    container: Seq<char>,
    content: Option<Seq<char>>,
    active_state: Option<Seq<char>>,
    present: Seq<Seq<char>>,
) -> RecordView {
    RecordView {
        id: match label_if_read(content, LABEL_ID@) {
            Some(id) => id,
            None => id_of_container(container),
        },
        container_name: container,
        directory: or_empty(label_if_read(content, LABEL_DIRECTORY@)),
        profile: or_empty(label_if_read(content, LABEL_PROFILE@)),
        identity: or_empty(label_if_read(content, LABEL_IDENTITY@)),
        image: or_empty(label_if_read(content, LABEL_IMAGE@)),
        active_state: match active_state {
            Some(s) => s,
            None => "unknown"@,
        },
        container_present: present.contains(container),
        generic_labels: generic_if_read(content),
    }
}

fn label_of_read(content: &Option<String>, key: &str) -> (r: Option<String>)
    ensures
        r.deep_view() == label_if_read(content.deep_view(), key@),
{
    match content {
        Some(c) => unit_file_label(c.as_str(), key),
        None => None,
    }
}

fn generic_of_read(content: &Option<String>) -> (out: Vec<(String, String)>)
    ensures
        out.deep_view() == generic_if_read(content.deep_view()),
{
    match content {
        Some(c) => unit_generic_labels(c.as_str()),
        None => {
            let out: Vec<(String, String)> = Vec::new();
            assert(out.deep_view() =~= Seq::<(Seq<char>, Seq<char>)>::empty());
            out
        },
    }
}

fn row(
    container: String,
    content: &Option<String>,
    active_state: Option<String>,
    present: &Vec<String>,
) -> (r: SessionRecord)
    ensures
        r.deep_view() == row_of(
            container@,
            content.deep_view(),
            active_state.deep_view(),
            present.deep_view(),
        ),
{
    let id = match label_of_read(content, LABEL_ID) {
        Some(id) => id,
        None => match strip_prefix(container.as_str(), "cistella-") {
            Some(rest) => rest,
            None => container.clone(),
        },
    };
    let active_state = match active_state {
        Some(s) => s,
        None => "unknown".to_owned(),
    };
    let container_present = text::has_text(present, container.as_str());
    SessionRecord {
        id,
        container_name: container,
        directory: text_or_empty(label_of_read(content, LABEL_DIRECTORY)),
        profile: text_or_empty(label_of_read(content, LABEL_PROFILE)),
        identity: text_or_empty(label_of_read(content, LABEL_IDENTITY)),
        image: text_or_empty(label_of_read(content, LABEL_IMAGE)),
        active_state,
        container_present,
        generic_labels: generic_of_read(content),
    }
}

/// One session unit as the host shows it.
#[derive(Debug)]
pub struct ListedUnit {
    /// Container name.
    pub container: String,
    /// Content of the unit file; none where it cannot be read.
    pub content: Option<String>,
    /// State that the service manager reports; none without one.
    pub active_state: Option<String>,
}

/// What a listed unit says.
pub struct ListedView {
    pub container: Seq<char>,
    pub content: Option<Seq<char>>,
    pub active_state: Option<Seq<char>>,
}

impl DeepView for ListedUnit {
    type V = ListedView;

    open spec fn deep_view(&self) -> ListedView {
        ListedView {
            container: self.container@,
            content: self.content.deep_view(),
            active_state: self.active_state.deep_view(),
        }
    }
}

/// Registry rows of listed units, given the containers that exist.
pub open spec fn rows_of(units: Seq<ListedView>, present: Seq<Seq<char>>) -> Seq<RecordView> {
    units.map_values(|u: ListedView| row_of(u.container, u.content, u.active_state, present))
}

/// What reading the unit directory came to.
#[derive(Debug)]
pub enum UnitRead {
    /// There is no such directory.
    Missing,
    /// Reading failed: the directory, and the system's text.
    Failed(String, String),
    /// Its session units, in the order of [`session_units`].
    Units(Vec<ListedUnit>),
}

/// What a read says.
pub enum UnitReadView {
    Missing,
    Failed(Seq<char>, Seq<char>),
    Units(Seq<ListedView>),
}

impl DeepView for UnitRead {
    type V = UnitReadView;

    open spec fn deep_view(&self) -> UnitReadView {
        match *self {
            UnitRead::Missing => UnitReadView::Missing,
            UnitRead::Failed(dir, m) => UnitReadView::Failed(dir@, m@),
            UnitRead::Units(units) => UnitReadView::Units(units.deep_view()),
        }
    }
}

/// Sessions that a read of the unit directory lists, given the containers
/// that exist: none of a missing directory, a runtime error of an unreadable
/// one.
pub open spec fn listed_sessions(read: UnitReadView, present: Seq<Seq<char>>) -> std::result::Result<
    Seq<RecordView>,
    ErrorView,
> {
    match read {
        UnitReadView::Missing => Ok(Seq::empty()),
        UnitReadView::Failed(dir, m) => Err(ErrorView::Runtime("scan "@ + dir + ": "@ + m)),
        UnitReadView::Units(units) => Ok(rows_of(units, present)),
    }
}

/// Lists sessions: the units of the registry joined with their service states
/// and with the containers that `podman ps` printed. A missing directory
/// yields an empty list; one that cannot be read is a runtime error.
pub fn list_sessions(read: UnitRead, listed: &str) -> (r: Result<Vec<SessionRecord>>)
    ensures
        crate::error::agrees(
            r,
            listed_sessions(read.deep_view(), trimmed_lines(text::lines_of(listed@))),
        ),
{
    match read {
        UnitRead::Missing => {
            let out: Vec<SessionRecord> = Vec::new();
            assert(out.deep_view() =~= Seq::<RecordView>::empty());
            Ok(out)
        },
        UnitRead::Failed(dir, m) => Err(
            CistellaError::Runtime(text::cat4("scan ", dir.as_str(), ": ", m.as_str())),
        ),
        UnitRead::Units(units) => Ok(rows(units, listed)),
    }
}

fn rows(units: Vec<ListedUnit>, listed: &str) -> (out: Vec<SessionRecord>)
    ensures
        out.deep_view() == rows_of(units.deep_view(), trimmed_lines(text::lines_of(listed@))),
{
    let present = present_containers(listed);
    let ghost names = present.deep_view();
    let ghost all = units.deep_view();
    let mut units = units;
    let mut back: Vec<SessionRecord> = Vec::new();
    let mut out: Vec<SessionRecord> = Vec::new();
    while units.len() > 0
        invariant
            units@.len() + back@.len() == all.len(),
            names == present.deep_view(),
            forall|i: int|
                0 <= i < units@.len() ==> (#[trigger] units@[i]).deep_view() == all[i],
            forall|i: int|
                0 <= i < back@.len() ==> (#[trigger] back@[i]).deep_view() == rows_of(all, names)[
                all.len() - 1 - i],
        decreases units@.len(),
    {
        let ghost last = units@.len() - 1;
        assert(units@[last].deep_view() == all[last]);
        match units.pop() {
            Some(u) => {
                assert(u.deep_view() == all[last]);
                let r = row(u.container, &u.content, u.active_state, &present);
                assert(r.deep_view() == rows_of(all, names)[last]);
                back.push(r);
            },
            None => {},
        }
    }
    while back.len() > 0
        invariant
            back@.len() + out@.len() == all.len(),
            forall|i: int|
                0 <= i < back@.len() ==> (#[trigger] back@[i]).deep_view() == rows_of(all, names)[
                all.len() - 1 - i],
            forall|i: int|
                0 <= i < out@.len() ==> (#[trigger] out@[i]).deep_view() == rows_of(all, names)[i],
        decreases back@.len(),
    {
        let ghost last = back@.len() - 1;
        assert(back@[last].deep_view() == rows_of(all, names)[all.len() - 1 - last]);
        match back.pop() {
            Some(r) => {
                out.push(r);
            },
            None => {},
        }
    }
    assert(out.deep_view() =~= rows_of(all, names));
    out
}

// ---------------------------------------------------------------------
// Selectors
// ---------------------------------------------------------------------

/// Whether a record carries every label.
pub open spec fn has_labels(r: RecordView, labels: Seq<(Seq<char>, Seq<char>)>) -> bool {
    forall|i: int|
        0 <= i < labels.len() ==> label_of(r, (#[trigger] labels[i]).0) == Some(labels[i].1)
}

/// Whether a record passes the survey filters: directory and every label.
pub open spec fn passes(
    r: RecordView,
    directory: Option<Seq<char>>,
    labels: Seq<(Seq<char>, Seq<char>)>,
) -> bool {
    &&& directory matches Some(d) ==> r.directory == d
    &&& has_labels(r, labels)
}

fn carries_labels(r: &SessionRecord, labels: &[(String, String)]) -> (b: bool)
    ensures
        b == has_labels(r.deep_view(), labels.deep_view()),
{
    let ghost all = labels.deep_view();
    let ghost rv = r.deep_view();
    let mut k: usize = 0;
    while k < labels.len()
        invariant
            all == labels.deep_view(),
            rv == r.deep_view(),
            k <= labels@.len(),
            forall|i: int|
                0 <= i < k ==> label_of(rv, (#[trigger] all[i]).0) == Some(all[i].1),
        decreases labels.len() - k,
    {
        assert(all[k as int] == labels@[k as int].deep_view());
        let same = match r.label_value(labels[k].0.as_str()) {
            Some(v) => text::eq(v, labels[k].1.as_str()),
            None => false,
        };
        if !same {
            assert(label_of(rv, all[k as int].0) != Some(all[k as int].1));
            return false;
        }
        k = k + 1;
    }
    true
}

/// Filters records for `survey`: zero or many selectors as ANDed filters.
#[must_use]
pub fn filter_records<'a>(
    records: &'a [SessionRecord],
    directory: Option<&str>,
    labels: &[(String, String)],
) -> (out: Vec<&'a SessionRecord>)
    ensures
        out.deep_view() == records.deep_view().filter(
            |r: RecordView| passes(r, directory.deep_view(), labels.deep_view()),
        ),
{
    let ghost all = records.deep_view();
    let ghost dv = directory.deep_view();
    let ghost lv = labels.deep_view();
    let ghost keep = |r: RecordView| passes(r, dv, lv);
    let mut out: Vec<&'a SessionRecord> = Vec::new();
    let mut k: usize = 0;
    assert(all.take(0) =~= Seq::<RecordView>::empty());
    assert(out.deep_view() =~= all.take(0).filter(keep)) by {
        reveal(Seq::filter);
    }
    while k < records.len()
        invariant
            all == records.deep_view(),
            dv == directory.deep_view(),
            lv == labels.deep_view(),
            keep == (|r: RecordView| passes(r, dv, lv)),
            k <= records@.len(),
            out.deep_view() == all.take(k as int).filter(keep),
        decreases records.len() - k,
    {
        let r = &records[k];
        let ghost before = out.deep_view();
        assert(all[k as int] == r.deep_view());
        assert(all.take(k + 1).drop_last() =~= all.take(k as int));
        let dir_ok = match directory {
            Some(d) => text::eq(r.directory.as_str(), d),
            None => true,
        };
        proof {
            reveal(Seq::filter);
        }
        if dir_ok && carries_labels(r, labels) {
            assert(keep(all[k as int]));
            out.push(r);
            assert(out.deep_view() =~= before.push(all[k as int]));
        } else {
            assert(!keep(all[k as int]));
        }
        k = k + 1;
    }
    assert(all.take(k as int) =~= all);
    out
}

/// Container names of records.
pub open spec fn container_names(records: Seq<RecordView>) -> Seq<Seq<char>> {
    records.map_values(|r: RecordView| r.container_name)
}

/// Records that a selector matches: an id prefix, a directory, or labels.
pub open spec fn selected(
    records: Seq<RecordView>,
    id_prefix: Option<Seq<char>>,
    directory: Option<Seq<char>>,
    labels: Seq<(Seq<char>, Seq<char>)>,
) -> Seq<RecordView> {
    match id_prefix {
        Some(p) => records.filter(|r: RecordView| p.is_prefix_of(r.id)),
        None => records.filter(|r: RecordView| passes(r, directory, labels)),
    }
}

/// Number of selector forms given.
pub open spec fn forms(
    id_prefix: Option<Seq<char>>,
    directory: Option<Seq<char>>,
    labels: Seq<(Seq<char>, Seq<char>)>,
) -> int {
    (if id_prefix is Some {
        1int
    } else {
        0
    }) + (if directory is Some {
        1int
    } else {
        0
    }) + (if labels.len() > 0 {
        1int
    } else {
        0
    })
}

/// The one record that a selector resolves to.
pub open spec fn resolved(
    records: Seq<RecordView>,
    id_prefix: Option<Seq<char>>,
    directory: Option<Seq<char>>,
    labels: Seq<(Seq<char>, Seq<char>)>,
) -> std::result::Result<RecordView, ErrorView> {
    let found = selected(records, id_prefix, directory, labels);
    if forms(id_prefix, directory, labels) != 1 {
        Err(ErrorView::Selector("pass exactly one of <id>, --directory, --label"@))
    } else if found.len() == 0 {
        Err(
            ErrorView::Selector(
                "no session matches; candidates: "@ + text::join(container_names(records), ", "@),
            ),
        )
    } else if found.len() > 1 {
        Err(
            ErrorView::Selector(
                "ambiguous selector; candidates: "@ + text::join(container_names(found), ", "@),
            ),
        )
    } else {
        Ok(found[0])
    }
}

fn names_of(records: &Vec<&SessionRecord>) -> (out: Vec<String>)
    ensures
        out.deep_view() == container_names(records.deep_view()),
{
    let ghost all = records.deep_view();
    let mut out: Vec<String> = Vec::new();
    let mut k: usize = 0;
    while k < records.len()
        invariant
            all == records.deep_view(),
            k <= records@.len(),
            out.deep_view() =~= container_names(all).take(k as int),
        decreases records.len() - k,
    {
        let ghost before = out.deep_view();
        assert(all[k as int] == records@[k as int].deep_view());
        out.push(records[k].container_name.clone());
        assert(out.deep_view() =~= before.push(container_names(all)[k as int]));
        k = k + 1;
    }
    assert(container_names(all).take(k as int) =~= container_names(all));
    out
}

fn by_id_prefix<'a>(records: &'a [SessionRecord], prefix: &str) -> (out: Vec<&'a SessionRecord>)
    ensures
        out.deep_view() == records.deep_view().filter(
            |r: RecordView| prefix@.is_prefix_of(r.id),
        ),
{
    let ghost all = records.deep_view();
    let ghost keep = |r: RecordView| prefix@.is_prefix_of(r.id);
    let mut out: Vec<&'a SessionRecord> = Vec::new();
    let mut k: usize = 0;
    assert(all.take(0) =~= Seq::<RecordView>::empty());
    assert(out.deep_view() =~= all.take(0).filter(keep)) by {
        reveal(Seq::filter);
    }
    while k < records.len()
        invariant
            all == records.deep_view(),
            keep == (|r: RecordView| prefix@.is_prefix_of(r.id)),
            k <= records@.len(),
            out.deep_view() == all.take(k as int).filter(keep),
        decreases records.len() - k,
    {
        let r = &records[k];
        let ghost before = out.deep_view();
        assert(all[k as int] == r.deep_view());
        assert(all.take(k + 1).drop_last() =~= all.take(k as int));
        proof {
            reveal(Seq::filter);
        }
        if text::starts_with(r.id.as_str(), prefix) {
            assert(keep(all[k as int]));
            out.push(r);
            assert(out.deep_view() =~= before.push(all[k as int]));
        } else {
            assert(!keep(all[k as int]));
        }
        k = k + 1;
    }
    assert(all.take(k as int) =~= all);
    out
}

/// Resolves exactly one selector for `enter`/`inspect`/`terminate`.
///
/// Exactly one of the positional `<id>` prefix, `--directory`, or `--label`
/// forms must be given; zero or multiple matches are typed refusals listing
/// candidates.
pub fn resolve_exact(
    records: &[SessionRecord],
    id_prefix: Option<&str>,
    directory: Option<&str>,
    labels: &[(String, String)],
) -> (r: Result<SessionRecord>)
    ensures
        crate::error::agrees(
            r,
            resolved(
                records.deep_view(),
                id_prefix.deep_view(),
                directory.deep_view(),
                labels.deep_view(),
            ),
        ),
{
    let mut count: u8 = 0;
    if id_prefix.is_some() {
        count = count + 1;
    }
    if directory.is_some() {
        count = count + 1;
    }
    if labels.len() > 0 {
        count = count + 1;
    }
    if count != 1 {
        return Err(
            CistellaError::Selector("pass exactly one of <id>, --directory, --label".to_owned()),
        );
    }
    let matches = match id_prefix {
        Some(p) => by_id_prefix(records, p),
        None => filter_records(records, directory, labels),
    };
    let ghost found = matches.deep_view();
    assert(found == selected(
        records.deep_view(),
        id_prefix.deep_view(),
        directory.deep_view(),
        labels.deep_view(),
    ));
    if matches.len() == 0 {
        let everything = all_records(records);
        let names = names_of(&everything);
        return Err(
            CistellaError::Selector(
                text::cat(
                    "no session matches; candidates: ",
                    text::join_with(&names, ", ").as_str(),
                ),
            ),
        );
    }
    if matches.len() > 1 {
        let names = names_of(&matches);
        return Err(
            CistellaError::Selector(
                text::cat(
                    "ambiguous selector; candidates: ",
                    text::join_with(&names, ", ").as_str(),
                ),
            ),
        );
    }
    assert(found[0] == matches@[0].deep_view());
    Ok(matches[0].clone())
}

fn all_records<'a>(records: &'a [SessionRecord]) -> (out: Vec<&'a SessionRecord>)
    ensures
        out.deep_view() == records.deep_view(),
{
    let ghost all = records.deep_view();
    let mut out: Vec<&'a SessionRecord> = Vec::new();
    let mut k: usize = 0;
    while k < records.len()
        invariant
            all == records.deep_view(),
            k <= records@.len(),
            out.deep_view() =~= all.take(k as int),
        decreases records.len() - k,
    {
        let ghost before = out.deep_view();
        out.push(&records[k]);
        assert(out.deep_view() =~= before.push(all[k as int]));
        k = k + 1;
    }
    out
}

/// A selector resolves only to a record it matches, and only when no other
/// record matches.
pub proof fn law_resolution_is_unambiguous(
    records: Seq<RecordView>,
    id_prefix: Option<Seq<char>>,
    directory: Option<Seq<char>>,
    labels: Seq<(Seq<char>, Seq<char>)>,
    i: int,
    j: int,
)
    requires
        resolved(records, id_prefix, directory, labels) is Ok,
        0 <= i < j < records.len(),
    ensures
        ({
            let matched = |r: RecordView|
                match id_prefix {
                    Some(p) => p.is_prefix_of(r.id),
                    None => passes(r, directory, labels),
                };
            !(matched(records[i]) && matched(records[j]))
        }),
{
    let keep = match id_prefix {
        Some(p) => |r: RecordView| p.is_prefix_of(r.id),
        None => |r: RecordView| passes(r, directory, labels),
    };
    if keep(records[i]) && keep(records[j]) {
        lemma_two_kept(records, keep, i, j);
    }
}

proof fn lemma_two_kept(
    records: Seq<RecordView>,
    keep: spec_fn(RecordView) -> bool,
    i: int,
    j: int,
)
    requires
        0 <= i < j < records.len(),
        keep(records[i]),
        keep(records[j]),
    ensures
        records.filter(keep).len() >= 2,
    decreases records.len(),
{
    reveal(Seq::filter);
    let t = records.drop_last();
    if j < t.len() {
        lemma_two_kept(t, keep, i, j);
    } else {
        lemma_one_kept(t, keep, i);
    }
}

proof fn lemma_one_kept(records: Seq<RecordView>, keep: spec_fn(RecordView) -> bool, i: int)
    requires
        0 <= i < records.len(),
        keep(records[i]),
    ensures
        records.filter(keep).len() >= 1,
    decreases records.len(),
{
    reveal(Seq::filter);
    let t = records.drop_last();
    if i < t.len() {
        lemma_one_kept(t, keep, i);
    }
}

proof fn lemma_kept(records: Seq<RecordView>, keep: spec_fn(RecordView) -> bool, r: RecordView)
    ensures
        records.filter(keep).contains(r) <==> records.contains(r) && keep(r),
    decreases records.len(),
{
    reveal(Seq::filter);
    let f = records.filter(keep);
    if records.len() > 0 {
        let t = records.drop_last();
        let g = t.filter(keep);
        lemma_kept(t, keep, r);
        if f.contains(r) {
            let k = choose|k: int| 0 <= k < f.len() && f[k] == r;
            if k < g.len() {
                assert(g[k] == r);
                let m = choose|m: int| 0 <= m < t.len() && t[m] == r;
                assert(records[m] == r);
            } else {
                assert(records[records.len() - 1] == r);
            }
        }
        if records.contains(r) && keep(r) {
            let m = choose|m: int| 0 <= m < records.len() && records[m] == r;
            if m < t.len() {
                assert(t[m] == r);
                let k = choose|k: int| 0 <= k < g.len() && g[k] == r;
                assert(f[k] == r);
            } else {
                assert(f[f.len() - 1] == r);
            }
        }
    }
}

/// Whether a record carries a label: an identity label by its field, any
/// other one among its generic labels.
pub open spec fn carries(r: RecordView, key: Seq<char>, value: Seq<char>) -> bool {
    if key == "cistella.id"@ {
        r.id == value
    } else if key == "cistella.directory"@ {
        r.directory == value
    } else if key == "cistella.profile"@ {
        r.profile == value
    } else if key == "cistella.identity"@ {
        r.identity == value
    } else if key == "cistella.image"@ {
        r.image == value
    } else {
        exists|i: int|
            0 <= i < r.generic_labels.len() && r.generic_labels[i] == (key, value) && forall|j: int|
                0 <= j < i ==> (#[trigger] r.generic_labels[j]).0 != key
    }
}

/// A record's label is what it carries under the key.
pub proof fn law_labels_are_carried(r: RecordView, key: Seq<char>, value: Seq<char>)
    ensures
        label_of(r, key) == Some(value) <==> carries(r, key, value),
{
    let g = r.generic_labels;
    table::lemma_position(g, key, 0);
    let at = table::position(g, key, 0);
    if at >= 0 {
        if table::lookup(g, key, 0) == Some(value) {
            assert(g[at] == (key, value));
        }
        if exists|i: int|
            0 <= i < g.len() && g[i] == (key, value) && forall|j: int|
                0 <= j < i ==> (#[trigger] g[j]).0 != key {
            let i = choose|i: int|
                0 <= i < g.len() && g[i] == (key, value) && forall|j: int|
                    0 <= j < i ==> (#[trigger] g[j]).0 != key;
            assert(g[i].0 == key);
            assert(g[at].0 == key);
            assert(i == at);
        }
    }
}

/// Whether a record is what a selector asks for: an id that begins with the
/// prefix; without a prefix the directory, where one is given, and every
/// label.
pub open spec fn asked_for(
    r: RecordView,
    id_prefix: Option<Seq<char>>,
    directory: Option<Seq<char>>,
    labels: Seq<(Seq<char>, Seq<char>)>,
) -> bool {
    match id_prefix {
        Some(p) => p.len() <= r.id.len() && r.id.take(p.len() as int) == p,
        None => {
            &&& directory is Some ==> r.directory == directory->0
            &&& forall|i: int|
                0 <= i < labels.len() ==> carries(r, (#[trigger] labels[i]).0, labels[i].1)
        },
    }
}

proof fn lemma_asked_for(
    r: RecordView,
    id_prefix: Option<Seq<char>>,
    directory: Option<Seq<char>>,
    labels: Seq<(Seq<char>, Seq<char>)>,
)
    ensures
        asked_for(r, id_prefix, directory, labels) <==> match id_prefix {
            Some(p) => p.is_prefix_of(r.id),
            None => passes(r, directory, labels),
        },
{
    assert forall|i: int| 0 <= i < labels.len() implies (label_of(r, (#[trigger] labels[i]).0)
        == Some(labels[i].1) <==> carries(r, labels[i].0, labels[i].1)) by {
        law_labels_are_carried(r, labels[i].0, labels[i].1);
    }
    if let Some(p) = id_prefix {
        if p.len() <= r.id.len() {
            assert(r.id.take(p.len() as int) =~= r.id.subrange(0, p.len() as int));
        }
    }
}

/// A resolved session is one of the sessions, is what the selector asks for,
/// and the only one that is; and exactly one kind of selector was given.
pub proof fn law_resolved_session_is_asked_for(
    records: Seq<RecordView>,
    id_prefix: Option<Seq<char>>,
    directory: Option<Seq<char>>,
    labels: Seq<(Seq<char>, Seq<char>)>,
    r: RecordView,
)
    requires
        resolved(records, id_prefix, directory, labels) == std::result::Result::<
            RecordView,
            ErrorView,
        >::Ok(r),
    ensures
        records.contains(r),
        asked_for(r, id_prefix, directory, labels),
        forall|i: int|
            0 <= i < records.len() && asked_for(
                #[trigger] records[i],
                id_prefix,
                directory,
                labels,
            ) ==> records[i] == r,
        id_prefix is Some ==> directory is None && labels.len() == 0,
        id_prefix is None ==> (directory is Some <==> labels.len() == 0),
{
    let keep = match id_prefix {
        Some(p) => |r: RecordView| p.is_prefix_of(r.id),
        None => |r: RecordView| passes(r, directory, labels),
    };
    let found = selected(records, id_prefix, directory, labels);
    assert(found == records.filter(keep));
    lemma_kept(records, keep, r);
    assert(found[0] == r);
    lemma_asked_for(r, id_prefix, directory, labels);
    assert forall|i: int|
        0 <= i < records.len() && asked_for(
            #[trigger] records[i],
            id_prefix,
            directory,
            labels,
        ) implies records[i] == r by {
        lemma_asked_for(records[i], id_prefix, directory, labels);
        lemma_kept(records, keep, records[i]);
        assert(found.contains(records[i]));
    }
}

proof fn lemma_sole_kept(records: Seq<RecordView>, keep: spec_fn(RecordView) -> bool, i: int)
    requires
        forall|j: int| 0 <= j < records.len() && j != i ==> !keep(#[trigger] records[j]),
        0 <= i < records.len() ==> keep(records[i]),
    ensures
        records.filter(keep) == if 0 <= i < records.len() {
            seq![records[i]]
        } else {
            Seq::<RecordView>::empty()
        },
    decreases records.len(),
{
    reveal(Seq::filter);
    if records.len() > 0 {
        let t = records.drop_last();
        assert forall|j: int| 0 <= j < t.len() && j != i implies !keep(#[trigger] t[j]) by {
            assert(t[j] == records[j]);
        }
        if 0 <= i < t.len() {
            assert(t[i] == records[i]);
        }
        lemma_sole_kept(t, keep, i);
        assert(records.last() == records[records.len() - 1]);
        assert(records.filter(keep) =~= if 0 <= i < records.len() {
            seq![records[i]]
        } else {
            Seq::<RecordView>::empty()
        });
    } else {
        assert(records.filter(keep) =~= Seq::<RecordView>::empty());
    }
}

/// A session that alone is what one selector asks for is resolved; and where
/// none is, nothing is.
pub proof fn law_sole_session_is_resolved(
    records: Seq<RecordView>,
    id_prefix: Option<Seq<char>>,
    directory: Option<Seq<char>>,
    labels: Seq<(Seq<char>, Seq<char>)>,
    i: int,
)
    requires
        id_prefix is Some ==> directory is None && labels.len() == 0,
        id_prefix is None ==> (directory is Some <==> labels.len() == 0),
        forall|j: int|
            0 <= j < records.len() && j != i ==> !asked_for(
                #[trigger] records[j],
                id_prefix,
                directory,
                labels,
            ),
        0 <= i < records.len() ==> asked_for(records[i], id_prefix, directory, labels),
    ensures
        0 <= i < records.len() ==> resolved(records, id_prefix, directory, labels)
            == std::result::Result::<RecordView, ErrorView>::Ok(records[i]),
        !(0 <= i < records.len()) ==> resolved(records, id_prefix, directory, labels) is Err,
{
    let keep = match id_prefix {
        Some(p) => |r: RecordView| p.is_prefix_of(r.id),
        None => |r: RecordView| passes(r, directory, labels),
    };
    assert forall|j: int| 0 <= j < records.len() && j != i implies !keep(#[trigger] records[j]) by {
        lemma_asked_for(records[j], id_prefix, directory, labels);
    }
    if 0 <= i < records.len() {
        lemma_asked_for(records[i], id_prefix, directory, labels);
    }
    lemma_sole_kept(records, keep, i);
}

/// A filter keeps exactly the sessions with the directory, where one is
/// given, and every label.
pub proof fn law_filters_keep_what_is_asked_for(
    records: Seq<RecordView>,
    directory: Option<Seq<char>>,
    labels: Seq<(Seq<char>, Seq<char>)>,
    r: RecordView,
)
    ensures
        records.filter(|r: RecordView| passes(r, directory, labels)).contains(r)
            <==> records.contains(r) && asked_for(r, None, directory, labels),
{
    let keep = |r: RecordView| passes(r, directory, labels);
    lemma_kept(records, keep, r);
    lemma_asked_for(r, None, directory, labels);
}

/// Every listed unit gives one session, in order, under its container's name
/// and with the state the service manager reports; a session is present
/// exactly when its container is.
pub proof fn law_listed_units_give_their_sessions(
    units: Seq<ListedView>,
    present: Seq<Seq<char>>,
    i: int,
)
    requires
        0 <= i < units.len(),
    ensures
        ({
            let rows = listed_sessions(UnitReadView::Units(units), present)->Ok_0;
            &&& listed_sessions(UnitReadView::Units(units), present) is Ok
            &&& rows.len() == units.len()
            &&& rows[i].container_name == units[i].container
            &&& rows[i].container_present <==> present.contains(units[i].container)
            &&& units[i].active_state is Some ==> rows[i].active_state == units[i].active_state->0
            &&& units[i].active_state is None ==> rows[i].active_state == "unknown"@
        }),
{
}

/// What a listed session says of itself is what its unit file's labels say:
/// each field comes from the label of its name.
pub proof fn law_listed_fields_are_labels(
    container: Seq<char>,
    content: Seq<char>,
    state: Option<Seq<char>>,
    present: Seq<Seq<char>>,
    value: Seq<char>,
)
    ensures
        ({
            let r = row_of(container, Some(content), state, present);
            &&& label_in(content, "cistella.id"@) == Some(value) ==> r.id == value
            &&& label_in(content, "cistella.directory"@) == Some(value) ==> r.directory == value
            &&& label_in(content, "cistella.profile"@) == Some(value) ==> r.profile == value
            &&& label_in(content, "cistella.identity"@) == Some(value) ==> r.identity == value
            &&& label_in(content, "cistella.image"@) == Some(value) ==> r.image == value
            &&& label_in(content, "cistella.directory"@) is None ==> r.directory.len() == 0
            &&& label_in(content, "cistella.profile"@) is None ==> r.profile.len() == 0
            &&& label_in(content, "cistella.identity"@) is None ==> r.identity.len() == 0
            &&& label_in(content, "cistella.image"@) is None ==> r.image.len() == 0
            &&& label_in(content, "cistella.id"@) is None && container == "cistella-"@ + value
                ==> r.id == value
        }),
{
    if container == "cistella-"@ + value {
        assert("cistella-"@ =~= container.subrange(0, "cistella-"@.len() as int));
        assert(container.skip("cistella-"@.len() as int) =~= value);
    }
}

proof fn lemma_units_of(names: Seq<Seq<char>>, u: (Seq<char>, Seq<char>))
    ensures
        units_of(names).contains(u) <==> names.contains(u.1) && "cistella-"@.is_prefix_of(u.1)
            && ".container"@.is_suffix_of(u.1) && u.0 == without_suffixes(u.1, ".container"@),
    decreases names.len(),
{
    let f = units_of(names);
    if names.len() > 0 {
        let t = names.drop_last();
        let g = units_of(t);
        lemma_units_of(t, u);
        if f.contains(u) {
            let k = choose|k: int| 0 <= k < f.len() && f[k] == u;
            if k < g.len() {
                assert(g[k] == u);
                let m = choose|m: int| 0 <= m < t.len() && t[m] == u.1;
                assert(names[m] == u.1);
            } else {
                assert(names[names.len() - 1] == u.1);
            }
        }
        if names.contains(u.1) && is_unit_file(u.1) && u.0 == without_suffixes(
            u.1,
            ".container"@,
        ) {
            let m = choose|m: int| 0 <= m < names.len() && names[m] == u.1;
            if m < t.len() {
                assert(t[m] == u.1);
                let k = choose|k: int| 0 <= k < g.len() && g[k] == u;
                assert(f[k] == u);
            } else {
                assert(f[f.len() - 1] == u);
            }
        }
    }
}

proof fn lemma_units_by(units: Seq<(Seq<char>, Seq<char>)>, by_file: bool, u: (Seq<char>, Seq<char>))
    ensures
        units_by(units, by_file).contains(u) <==> units.contains(u),
        units_by(units, by_file).len() == units.len(),
{
    let all = unit_entries(units, by_file);
    let e = order::stable_sort(all, order::by_key::<String>());
    order::lemma_stable_sort_members(all, order::by_key::<String>());
    let out = units_by(units, by_file);
    if units.contains(u) {
        let i = choose|i: int| 0 <= i < units.len() && units[i] == u;
        assert(all.contains(all[i]));
        assert(e.contains(all[i]));
        let p = choose|p: int| 0 <= p < e.len() && e[p] == all[i];
        assert(out[p] == u);
    }
    if out.contains(u) {
        let p = choose|p: int| 0 <= p < out.len() && out[p] == u;
        assert(e.contains(e[p]));
        assert(all.contains(e[p]));
        assert(units[e[p].1] == u);
    }
}

/// The units of a directory are exactly its files named `cistella-` and
/// something and `.container`, each with its name without that ending.
pub proof fn law_units_are_the_container_files(names: Seq<Seq<char>>, id: Seq<char>)
    requires
        !".container"@.is_suffix_of("cistella-"@ + id),
    ensures
        sorted_units(names).contains(
            ("cistella-"@ + id, "cistella-"@ + id + ".container"@),
        ) <==> names.contains("cistella-"@ + id + ".container"@),
        forall|i: int|
            0 <= i < sorted_units(names).len() ==> names.contains(
                (#[trigger] sorted_units(names)[i]).1,
            ) && "cistella-"@.is_prefix_of(sorted_units(names)[i].1) && ".container"@.is_suffix_of(
                sorted_units(names)[i].1,
            ),
{
    reveal_strlit(".container");
    assert(".container"@.len() == 10);
    let stem = "cistella-"@ + id;
    let file = stem + ".container"@;
    let u = (stem, file);
    assert("cistella-"@ =~= file.subrange(0, "cistella-"@.len() as int));
    assert(".container"@ =~= file.subrange(file.len() - 10, file.len() as int));
    assert(file.take(file.len() - 10) =~= stem);
    assert(without_suffixes(stem, ".container"@) == stem);
    assert(without_suffixes(file, ".container"@) == stem);
    lemma_units_of(names, u);
    lemma_units_by(units_of(names), true, u);
    lemma_units_by(units_by(units_of(names), true), false, u);
    let s = sorted_units(names);
    assert forall|i: int| 0 <= i < s.len() implies names.contains((#[trigger] s[i]).1)
        && "cistella-"@.is_prefix_of(s[i].1) && ".container"@.is_suffix_of(s[i].1) by {
        assert(s.contains(s[i]));
        lemma_units_of(names, s[i]);
        lemma_units_by(units_of(names), true, s[i]);
        lemma_units_by(units_by(units_of(names), true), false, s[i]);
    }
}

/// The trimmed lines are the lines that hold more than spaces, in their order,
/// without the spaces around them.
pub proof fn law_lines_are_trimmed(lines: Seq<Seq<char>>, more: Seq<Seq<char>>, i: int)
    ensures
        trimmed_lines(lines + more) == trimmed_lines(lines) + trimmed_lines(more),
        0 <= i < lines.len() && text::trimmed(lines[i]).len() > 0 ==> trimmed_lines(
            lines,
        ).contains(text::trimmed(lines[i])),
        (forall|j: int| 0 <= j < lines.len() ==> text::trimmed(#[trigger] lines[j]).len() == 0)
            ==> trimmed_lines(lines).len() == 0,
        (forall|j: int| 0 <= j < lines.len() ==> text::trimmed(#[trigger] lines[j]).len() > 0)
            ==> trimmed_lines(lines).len() == lines.len(),
    decreases lines.len() + more.len(),
{
    if more.len() == 0 {
        assert(lines + more =~= lines);
        assert(trimmed_lines(lines) + trimmed_lines(more) =~= trimmed_lines(lines));
        if lines.len() > 0 {
            law_lines_are_trimmed(lines.drop_last(), more, i);
            assert(forall|j: int| 0 <= j < lines.len() - 1 ==> lines.drop_last()[j] == lines[j]);
            let before = trimmed_lines(lines.drop_last());
            let now = trimmed_lines(lines);
            if 0 <= i < lines.len() && text::trimmed(lines[i]).len() > 0 {
                if i == lines.len() - 1 {
                    assert(now.last() == text::trimmed(lines[i]));
                } else {
                    let j = choose|j: int| 0 <= j < before.len() && before[j] == text::trimmed(lines[i]);
                    assert(now[j] == text::trimmed(lines[i]));
                }
            }
        }
    } else {
        law_lines_are_trimmed(lines, more.drop_last(), i);
        assert((lines + more).drop_last() =~= lines + more.drop_last());
        assert(trimmed_lines(lines + more) =~= trimmed_lines(lines) + trimmed_lines(more));
    }
}

/// A view says what the fields hold, each under its own name.
pub proof fn law_views_say_the_fields(
    session_record: SessionRecord,
    listed_unit: ListedUnit,
    unit_read: UnitRead,
)
    ensures
        session_record.deep_view().id == session_record.id@,
        session_record.deep_view().container_name == session_record.container_name@,
        session_record.deep_view().directory == session_record.directory@,
        session_record.deep_view().profile == session_record.profile@,
        session_record.deep_view().identity == session_record.identity@,
        session_record.deep_view().image == session_record.image@,
        session_record.deep_view().active_state == session_record.active_state@,
        session_record.deep_view().container_present == session_record.container_present,
        session_record.deep_view().generic_labels == session_record.generic_labels.deep_view(),
        listed_unit.deep_view().container == listed_unit.container@,
        listed_unit.deep_view().content == listed_unit.content.deep_view(),
        listed_unit.deep_view().active_state == listed_unit.active_state.deep_view(),
        unit_read matches UnitRead::Missing ==> unit_read.deep_view() == UnitReadView::Missing,
        unit_read matches UnitRead::Failed(dir, m) ==> unit_read.deep_view() == UnitReadView::Failed(dir@, m@),
        unit_read matches UnitRead::Units(units) ==> unit_read.deep_view() == UnitReadView::Units(units.deep_view()),
{
}

} // verus!
