//! Quadlet unit files: the text of a session's unit, and the quoting of the
//! values in it.
//!
//! A unit stores its values in double quotes, with backslashes, quotes, and
//! percent specifiers escaped; a reader of the file sees the literal value
//! again. Nothing that holds a line break reaches a unit, so no value can
//! add a directive of its own.

use vstd::prelude::*;

use crate::error::{CistellaError, ErrorView, Result};
use crate::path;
use crate::registry;
use crate::session;
use crate::session::{
    LABEL_COMMAND, LABEL_DIRECTORY, LABEL_ID, LABEL_IDENTITY, LABEL_IMAGE, LABEL_PROFILE,
    LABEL_PROFILE_DIGEST, LABEL_RECONCILIATION_KEY, RESERVED_PREFIX, Session, SessionView,
};
use crate::text;

verus! {

// ---------------------------------------------------------------------
// Quoting
// ---------------------------------------------------------------------

/// A character as a quoted value holds it.
pub open spec fn mark(c: char) -> Seq<char> {
    if c == '\\' || c == '"' {
        seq!['\\', c]
    } else if c == '%' {
        seq!['%', '%']
    } else {
        seq![c]
    }
}

/// A text as a quoted value holds it.
pub open spec fn escaped(s: Seq<char>) -> Seq<char>
    decreases s.len(),
{
    if s.len() == 0 {
        Seq::empty()
    } else {
        mark(s[0]) + escaped(s.skip(1))
    }
}

/// A value in the quoting of a unit file.
pub open spec fn quoted(s: Seq<char>) -> Seq<char> {
    seq!['"'] + escaped(s) + seq!['"']
}

/// What an escaped text stands for: a backslash stands for the character
/// behind it, two percent signs for one.
pub open spec fn plain(s: Seq<char>) -> Seq<char>
    decreases s.len(),
{
    if s.len() == 0 {
        Seq::empty()
    } else if s[0] == '\\' {
        if s.len() > 1 {
            seq![s[1]] + plain(s.skip(2))
        } else {
            Seq::empty()
        }
    } else if s[0] == '%' && s.len() > 1 && s[1] == '%' {
        seq!['%'] + plain(s.skip(2))
    } else {
        seq![s[0]] + plain(s.skip(1))
    }
}

/// The literal value of a stored one; what is not quoted stands for itself.
pub open spec fn unquoted(s: Seq<char>) -> Seq<char> {
    if s.len() >= 2 && s[0] == '"' && s.last() == '"' {
        plain(s.subrange(1, s.len() - 1))
    } else {
        s
    }
}

/// A text with its percent signs doubled.
pub open spec fn percent_escaped(s: Seq<char>) -> Seq<char>
    decreases s.len(),
{
    if s.len() == 0 {
        Seq::empty()
    } else if s[0] == '%' {
        seq!['%', '%'] + percent_escaped(s.skip(1))
    } else {
        seq![s[0]] + percent_escaped(s.skip(1))
    }
}

/// Doubles percent signs, so that the unit's reader takes none of them for a
/// specifier.
pub fn escape_percent(value: &str) -> (s: String)
    ensures
        s@ == percent_escaped(value@),
{
    let v = text::chars_of(value);
    let mut out = String::new();
    let mut k: usize = 0;
    assert(v@.skip(0) =~= v@);
    assert(out@ + percent_escaped(v@) =~= percent_escaped(v@));
    while k < v.len()
        invariant
            k <= v@.len(),
            percent_escaped(v@) == out@ + percent_escaped(v@.skip(k as int)),
        decreases v.len() - k,
    {
        let ghost before = out@;
        let ghost rest = v@.skip(k as int);
        assert(rest.skip(1) =~= v@.skip(k + 1));
        if v[k] == '%' {
            out.push('%');
            out.push('%');
            assert(out@ =~= before + seq!['%', '%']);
        } else {
            out.push(v[k]);
            assert(out@ =~= before + seq![rest[0]]);
        }
        assert(before + percent_escaped(rest) =~= out@ + percent_escaped(rest.skip(1)));
        k = k + 1;
    }
    assert(out@ + percent_escaped(v@.skip(k as int)) =~= out@);
    out
}

/// Quotes a value for a unit file.
pub fn quote_systemd(value: &str) -> (s: String)
    ensures
        s@ == quoted(value@),
{
    let v = text::chars_of(value);
    let mut out = String::new();
    out.push('"');
    let mut k: usize = 0;
    assert(v@.skip(0) =~= v@);
    assert(out@ =~= seq!['"']);
    while k < v.len()
        invariant
            k <= v@.len(),
            seq!['"'] + escaped(v@) == out@ + escaped(v@.skip(k as int)),
        decreases v.len() - k,
    {
        let ghost before = out@;
        let ghost rest = v@.skip(k as int);
        assert(rest.skip(1) =~= v@.skip(k + 1));
        if v[k] == '\\' || v[k] == '"' {
            out.push('\\');
        } else if v[k] == '%' {
            out.push('%');
        }
        out.push(v[k]);
        assert(out@ =~= before + mark(rest[0]));
        assert(before + escaped(rest) =~= out@ + escaped(rest.skip(1)));
        k = k + 1;
    }
    assert(out@ + escaped(v@.skip(k as int)) =~= out@);
    out.push('"');
    assert(out@ =~= quoted(value@));
    out
}

/// The literal value of a stored one.
pub fn unquote_systemd(stored: &str) -> (s: String)
    ensures
        s@ == unquoted(stored@),
{
    let v = text::chars_of(stored);
    let n = v.len();
    if n < 2 || v[0] != '"' || v[n - 1] != '"' {
        return stored.to_owned();
    }
    let ghost inner = v@.subrange(1, n - 1);
    let mut out = String::new();
    let mut k: usize = 1;
    assert(inner.skip(0) =~= inner);
    assert(out@ + plain(inner) =~= plain(inner));
    while k < n - 1
        invariant
            1 <= k <= n - 1,
            n == v@.len(),
            n >= 2,
            inner == v@.subrange(1, n - 1),
            plain(inner) == out@ + plain(inner.skip(k - 1)),
        decreases n - k,
    {
        let ghost before = out@;
        let ghost rest = inner.skip(k - 1);
        assert(rest[0] == v@[k as int]);
        if v[k] == '\\' {
            if k + 1 < n - 1 {
                assert(rest[1] == v@[k + 1]);
                out.push(v[k + 1]);
                assert(out@ =~= before + seq![rest[1]]);
                assert(rest.skip(2) =~= inner.skip(k + 1));
                assert(before + plain(rest) =~= out@ + plain(rest.skip(2)));
                k = k + 2;
            } else {
                assert(rest.len() == 1);
                assert(inner.skip(k as int) =~= Seq::<char>::empty());
                k = k + 1;
            }
        } else if v[k] == '%' && k + 1 < n - 1 && v[k + 1] == '%' {
            assert(rest[1] == v@[k + 1]);
            out.push('%');
            assert(out@ =~= before + seq!['%']);
            assert(rest.skip(2) =~= inner.skip(k + 1));
            assert(before + plain(rest) =~= out@ + plain(rest.skip(2)));
            k = k + 2;
        } else {
            proof {
                if rest.len() > 1 {
                    assert(rest[1] == v@[k + 1]);
                }
            }
            out.push(v[k]);
            assert(out@ =~= before + seq![rest[0]]);
            assert(rest.skip(1) =~= inner.skip(k as int));
            assert(before + plain(rest) =~= out@ + plain(rest.skip(1)));
            k = k + 1;
        }
    }
    assert(inner.skip(k - 1) =~= Seq::<char>::empty());
    assert(out@ + plain(inner.skip(k - 1)) =~= out@);
    out
}

proof fn lemma_plain_of_escaped(s: Seq<char>)
    ensures
        plain(escaped(s)) == s,
    decreases s.len(),
{
    if s.len() > 0 {
        let rest = escaped(s.skip(1));
        let e = escaped(s);
        lemma_plain_of_escaped(s.skip(1));
        assert(e == mark(s[0]) + rest);
        assert(e[0] == mark(s[0])[0]);
        if s[0] == '\\' || s[0] == '"' || s[0] == '%' {
            assert(e[1] == s[0]);
            assert(e.skip(2) =~= rest);
        } else {
            assert(e.skip(1) =~= rest);
        }
        assert(seq![s[0]] + s.skip(1) =~= s);
    } else {
        assert(s =~= Seq::<char>::empty());
    }
}

/// Quoting loses nothing: every value is read back as it was written.
pub proof fn law_quoting_round_trips(s: Seq<char>)
    ensures
        unquoted(quoted(s)) == s,
{
    let q = quoted(s);
    assert(q.subrange(1, q.len() - 1) =~= escaped(s));
    lemma_plain_of_escaped(s);
}

// ---------------------------------------------------------------------
// Units
// ---------------------------------------------------------------------

/// The labels that the driver gives a session's unit.
pub open spec fn driver_labels(s: SessionView) -> Seq<(Seq<char>, Seq<char>)> {
    seq![
        (LABEL_ID@, s.id),
        (LABEL_DIRECTORY@, s.directory),
        (LABEL_PROFILE@, s.profile),
        (LABEL_PROFILE_DIGEST@, s.profile_digest),
        (LABEL_IDENTITY@, s.identity),
        (LABEL_COMMAND@, session::json_strings_text(s.command)),
        (LABEL_IMAGE@, s.image),
    ]
}

/// The label of a reconciliation key.
pub open spec fn key_label(key: Option<Seq<char>>) -> Seq<(Seq<char>, Seq<char>)> {
    match key {
        Some(k) => seq![(LABEL_RECONCILIATION_KEY@, k)],
        None => Seq::empty(),
    }
}

/// All labels of a unit: the driver's, the key, then the generic ones.
pub open spec fn unit_labels(
    s: SessionView,
    generic: Seq<(Seq<char>, Seq<char>)>,
    key: Option<Seq<char>>,
) -> Seq<(Seq<char>, Seq<char>)> {
    driver_labels(s) + key_label(key) + generic
}

/// Refusal of a value that could break out of its line.
pub open spec fn control_error(field: Seq<char>) -> ErrorView {
    ErrorView::Runtime(field + " must not contain control characters"@)
}

/// First fault of the session itself.
pub open spec fn session_fault(s: SessionView) -> Option<ErrorView> {
    if !session::minted_shape(s.id) {
        Some(ErrorView::Runtime("session id must be 17 lowercase [a-z0-9] chars"@))
    } else if let Some(m) = session::session_field_fault(s.profile, "profile"@) {
        Some(ErrorView::Runtime(m))
    } else if let Some(m) = session::session_field_fault(s.identity, "identity"@) {
        Some(ErrorView::Runtime(m))
    } else if text::has_control(s.directory) {
        Some(control_error("directory"@))
    } else if text::has_control(s.image) {
        Some(control_error("image"@))
    } else if text::has_control(s.container_home) {
        Some(control_error("container_home"@))
    } else {
        None
    }
}

/// First label at or after `k` whose value could break out of its line.
pub open spec fn label_fault(labels: Seq<(Seq<char>, Seq<char>)>, k: int) -> Option<ErrorView>
    decreases labels.len() - k,
{
    if k < 0 || k >= labels.len() {
        None
    } else if text::has_control(labels[k].1) {
        Some(control_error(labels[k].0))
    } else {
        label_fault(labels, k + 1)
    }
}

/// First of the flag and value pairs from `k` on whose value could break out
/// of its line.
pub open spec fn volume_fault(volumes: Seq<Seq<char>>, k: int) -> Option<ErrorView>
    decreases volumes.len() - k,
{
    if k < 0 || k + 1 >= volumes.len() {
        None
    } else if text::has_control(volumes[k + 1]) {
        Some(control_error("volume"@))
    } else {
        volume_fault(volumes, k + 2)
    }
}

/// First assignment at or after `k` that could break out of its line.
pub open spec fn env_fault(env: Seq<Seq<char>>, k: int) -> Option<ErrorView>
    decreases env.len() - k,
{
    if k < 0 || k >= env.len() {
        None
    } else if text::has_control(env[k]) {
        Some(control_error("environment"@))
    } else {
        env_fault(env, k + 1)
    }
}

/// First fault of a unit's inputs.
pub open spec fn unit_fault(
    s: SessionView,
    volumes: Seq<Seq<char>>,
    env: Seq<Seq<char>>,
    labels: Seq<(Seq<char>, Seq<char>)>,
) -> Option<ErrorView> {
    if let Some(e) = session_fault(s) {
        Some(e)
    } else if let Some(e) = label_fault(labels, 0) {
        Some(e)
    } else if let Some(e) = volume_fault(volumes, 0) {
        Some(e)
    } else {
        env_fault(env, 0)
    }
}

/// Lines that every unit begins with.
pub open spec fn head_lines(s: SessionView) -> Seq<Seq<char>> {
    seq![
        "[Container]"@,
        "ContainerName="@ + ("cistella-"@ + s.id),
        "Image="@ + percent_escaped(s.image),
        "Pull=never"@,
        "UserNS=keep-id"@,
        "LogDriver=journald"@,
        "Exec=sleep infinity"@,
        env_line("HOME="@ + s.container_home),
    ]
}

/// Line of one label.
pub open spec fn label_line(label: (Seq<char>, Seq<char>)) -> Seq<char> {
    "Label="@ + label.0 + "="@ + quoted(label.1)
}

/// Line of one environment assignment.
pub open spec fn env_line(assignment: Seq<char>) -> Seq<char> {
    "Environment="@ + quoted(assignment)
}

/// Line of one volume flag and its value.
pub open spec fn volume_line(flag: Seq<char>, value: Seq<char>) -> Seq<char> {
    (if flag == "--tmpfs"@ {
        "Tmpfs="@
    } else {
        "Volume="@
    }) + percent_escaped(value)
}

/// Lines of the flag and value pairs from `k` on.
pub open spec fn volume_lines(volumes: Seq<Seq<char>>, k: int) -> Seq<Seq<char>>
    decreases volumes.len() - k,
{
    if k < 0 || k + 1 >= volumes.len() {
        Seq::empty()
    } else {
        seq![volume_line(volumes[k], volumes[k + 1])] + volume_lines(volumes, k + 2)
    }
}

/// Lines of the labels, in order.
pub open spec fn label_lines(labels: Seq<(Seq<char>, Seq<char>)>) -> Seq<Seq<char>> {
    labels.map_values(|l: (Seq<char>, Seq<char>)| label_line(l))
}

/// Lines of the environment, in order.
pub open spec fn env_lines(env: Seq<Seq<char>>) -> Seq<Seq<char>> {
    env.map_values(|e: Seq<char>| env_line(e))
}

/// Lines of a unit.
pub open spec fn unit_lines(
    s: SessionView,
    volumes: Seq<Seq<char>>,
    env: Seq<Seq<char>>,
    labels: Seq<(Seq<char>, Seq<char>)>,
) -> Seq<Seq<char>> {
    head_lines(s) + label_lines(labels) + volume_lines(volumes, 0) + env_lines(env)
}

/// Text of lines, each ended by a line feed.
pub open spec fn text_of(lines: Seq<Seq<char>>) -> Seq<char> {
    text::join(lines, "\n"@) + "\n"@
}

/// What a session's unit says, or why it is refused.
pub open spec fn unit_of(
    s: SessionView,
    volumes: Seq<Seq<char>>,
    env: Seq<Seq<char>>,
    generic: Seq<(Seq<char>, Seq<char>)>,
    key: Option<Seq<char>>,
) -> std::result::Result<Seq<char>, ErrorView> {
    let labels = unit_labels(s, generic, key);
    match unit_fault(s, volumes, env, labels) {
        Some(e) => Err(e),
        None => Ok(text_of(unit_lines(s, volumes, env, labels))),
    }
}

fn check_session(s: &Session) -> (r: Result<()>)
    ensures
        match session_fault(s.deep_view()) {
            Some(e) => r matches Err(x) && x@ == e,
            None => r is Ok,
        },
{
    session::ensure_minted_id(s.id.as_str())?;
    session::ensure_session_field(s.profile.as_str(), "profile")?;
    session::ensure_session_field(s.identity.as_str(), "identity")?;
    session::ensure_no_injection(s.directory.as_str(), "directory")?;
    session::ensure_no_injection(s.image.as_str(), "image")?;
    session::ensure_no_injection(s.container_home.as_str(), "container_home")
}

fn check_labels(labels: &Vec<(String, String)>) -> (r: Result<()>)
    ensures
        match label_fault(labels.deep_view(), 0) {
            Some(e) => r matches Err(x) && x@ == e,
            None => r is Ok,
        },
{
    let ghost all = labels.deep_view();
    let mut k: usize = 0;
    while k < labels.len()
        invariant
            all == labels.deep_view(),
            k <= labels@.len(),
            label_fault(all, 0) == label_fault(all, k as int),
        decreases labels.len() - k,
    {
        assert(all[k as int] == labels@[k as int].deep_view());
        session::ensure_no_injection(labels[k].1.as_str(), labels[k].0.as_str())?;
        k = k + 1;
    }
    Ok(())
}

fn check_volumes(volumes: &[String]) -> (r: Result<()>)
    ensures
        match volume_fault(volumes.deep_view(), 0) {
            Some(e) => r matches Err(x) && x@ == e,
            None => r is Ok,
        },
{
    let ghost all = volumes.deep_view();
    let n = volumes.len();
    let mut k: usize = 0;
    while k < n && n - k >= 2
        invariant
            all == volumes.deep_view(),
            n == volumes@.len(),
            k <= n,
            volume_fault(all, 0) == volume_fault(all, k as int),
        decreases n - k,
    {
        assert(all[k + 1] == volumes@[k + 1]@);
        session::ensure_no_injection(volumes[k + 1].as_str(), "volume")?;
        k = k + 2;
    }
    Ok(())
}

fn check_env(env: &[String]) -> (r: Result<()>)
    ensures
        match env_fault(env.deep_view(), 0) {
            Some(e) => r matches Err(x) && x@ == e,
            None => r is Ok,
        },
{
    let ghost all = env.deep_view();
    let mut k: usize = 0;
    while k < env.len()
        invariant
            all == env.deep_view(),
            k <= env@.len(),
            env_fault(all, 0) == env_fault(all, k as int),
        decreases env.len() - k,
    {
        assert(all[k as int] == env@[k as int]@);
        session::ensure_no_injection(env[k].as_str(), "environment")?;
        k = k + 1;
    }
    Ok(())
}

fn label(key: &str, value: &str) -> (l: (String, String))
    ensures
        l.deep_view() == (key@, value@),
{
    (key.to_owned(), value.to_owned())
}

fn labels_of(s: &Session, generic: &[(String, String)], key: Option<&str>) -> (out: Vec<
    (String, String),
>)
    ensures
        out.deep_view() == unit_labels(s.deep_view(), generic.deep_view(), key.deep_view()),
{
    let command = session::command_label(s.command.as_slice());
    let mut out: Vec<(String, String)> = Vec::new();
    out.push(label(LABEL_ID, s.id.as_str()));
    out.push(label(LABEL_DIRECTORY, s.directory.as_str()));
    out.push(label(LABEL_PROFILE, s.profile.as_str()));
    out.push(label(LABEL_PROFILE_DIGEST, s.profile_digest.as_str()));
    out.push(label(LABEL_IDENTITY, s.identity.as_str()));
    out.push(label(LABEL_COMMAND, command.as_str()));
    out.push(label(LABEL_IMAGE, s.image.as_str()));
    assert(out.deep_view() =~= driver_labels(s.deep_view()));
    let ghost drivers = out.deep_view();
    match key {
        Some(k) => {
            out.push(label(LABEL_RECONCILIATION_KEY, k));
        },
        None => {},
    }
    assert(out.deep_view() =~= drivers + key_label(key.deep_view()));
    let ghost own = out.deep_view();
    let ghost all = generic.deep_view();
    let mut k: usize = 0;
    while k < generic.len()
        invariant
            all == generic.deep_view(),
            k <= generic@.len(),
            out.deep_view() =~= own + all.take(k as int),
        decreases generic.len() - k,
    {
        let ghost before = out.deep_view();
        assert(all[k as int] == generic@[k as int].deep_view());
        out.push(label(generic[k].0.as_str(), generic[k].1.as_str()));
        assert(out.deep_view() =~= before.push(all[k as int]));
        k = k + 1;
    }
    assert(all.take(k as int) =~= all);
    out
}

fn push_line(lines: &mut Vec<String>, line: String)
    ensures
        final(lines).deep_view() == old(lines).deep_view().push(line@),
{
    lines.push(line);
    assert(lines.deep_view() =~= old(lines).deep_view().push(line@));
}

fn write_head(s: &Session) -> (lines: Vec<String>)
    ensures
        lines.deep_view() == head_lines(s.deep_view()),
{
    let home = text::cat("HOME=", s.container_home.as_str());
    let image = escape_percent(s.image.as_str());
    let mut lines: Vec<String> = Vec::new();
    push_line(&mut lines, "[Container]".to_owned());
    push_line(&mut lines, text::cat("ContainerName=", s.container_name().as_str()));
    push_line(&mut lines, text::cat("Image=", image.as_str()));
    push_line(&mut lines, "Pull=never".to_owned());
    push_line(&mut lines, "UserNS=keep-id".to_owned());
    push_line(&mut lines, "LogDriver=journald".to_owned());
    push_line(&mut lines, "Exec=sleep infinity".to_owned());
    push_line(&mut lines, text::cat("Environment=", quote_systemd(home.as_str()).as_str()));
    assert(lines.deep_view() =~= head_lines(s.deep_view()));
    lines
}

fn write_labels(lines: &mut Vec<String>, labels: &Vec<(String, String)>)
    ensures
        final(lines).deep_view() == old(lines).deep_view() + label_lines(labels.deep_view()),
{
    let ghost start = lines.deep_view();
    let ghost all = label_lines(labels.deep_view());
    let mut k: usize = 0;
    while k < labels.len()
        invariant
            all == label_lines(labels.deep_view()),
            k <= labels@.len(),
            lines.deep_view() =~= start + all.take(k as int),
        decreases labels.len() - k,
    {
        assert(labels.deep_view()[k as int] == labels@[k as int].deep_view());
        let value = quote_systemd(labels[k].1.as_str());
        push_line(lines, text::cat4("Label=", labels[k].0.as_str(), "=", value.as_str()));
        k = k + 1;
    }
    assert(all.take(k as int) =~= all);
}

fn write_volumes(lines: &mut Vec<String>, volumes: &[String])
    ensures
        final(lines).deep_view() == old(lines).deep_view() + volume_lines(volumes.deep_view(), 0),
{
    let ghost start = lines.deep_view();
    let ghost all = volumes.deep_view();
    let n = volumes.len();
    let mut k: usize = 0;
    while k < n && n - k >= 2
        invariant
            all == volumes.deep_view(),
            n == volumes@.len(),
            k <= n,
            start + volume_lines(all, 0) == lines.deep_view() + volume_lines(all, k as int),
        decreases n - k,
    {
        assert(all[k as int] == volumes@[k as int]@);
        assert(all[k + 1] == volumes@[k + 1]@);
        let ghost before = lines.deep_view();
        let directive = if text::eq(volumes[k].as_str(), "--tmpfs") {
            "Tmpfs="
        } else {
            "Volume="
        };
        let value = escape_percent(volumes[k + 1].as_str());
        push_line(lines, text::cat(directive, value.as_str()));
        assert(before + volume_lines(all, k as int) =~= lines.deep_view() + volume_lines(
            all,
            k + 2,
        ));
        k = k + 2;
    }
    assert(lines.deep_view() + volume_lines(all, k as int) =~= lines.deep_view());
}

fn write_env(lines: &mut Vec<String>, env: &[String])
    ensures
        final(lines).deep_view() == old(lines).deep_view() + env_lines(env.deep_view()),
{
    let ghost start = lines.deep_view();
    let ghost all = env_lines(env.deep_view());
    let mut k: usize = 0;
    while k < env.len()
        invariant
            all == env_lines(env.deep_view()),
            k <= env@.len(),
            lines.deep_view() =~= start + all.take(k as int),
        decreases env.len() - k,
    {
        assert(env.deep_view()[k as int] == env@[k as int]@);
        push_line(lines, text::cat("Environment=", quote_systemd(env[k].as_str()).as_str()));
        k = k + 1;
    }
    assert(all.take(k as int) =~= all);
}

/// Writes the unit of a session: its container, its labels (the
/// reconciliation key among them, so that a replacement peer finds the unit
/// by it), its volumes, and its environment. A value that could break out of
/// its line refuses.
pub fn generate_quadlet_unit(
    session: &Session,
    volumes: &[String],
    env: &[String],
    labels: &[(String, String)],
    key: Option<&str>,
) -> (r: Result<String>)
    ensures
        crate::error::agrees(
            r,
            unit_of(
                session.deep_view(),
                volumes.deep_view(),
                env.deep_view(),
                labels.deep_view(),
                key.deep_view(),
            ),
        ),
{
    check_session(session)?;
    let all = labels_of(session, labels, key);
    check_labels(&all)?;
    check_volumes(volumes)?;
    check_env(env)?;
    let mut lines = write_head(session);
    write_labels(&mut lines, &all);
    write_volumes(&mut lines, volumes);
    write_env(&mut lines, env);
    Ok(text::cat(text::join_with(&lines, "\n").as_str(), "\n"))
}

// ---------------------------------------------------------------------
// Reading back
// ---------------------------------------------------------------------

proof fn lemma_clean_concat(a: Seq<char>, b: Seq<char>)
    requires
        !text::has_control(a),
        !text::has_control(b),
    ensures
        !text::has_control(a + b),
{
    let s = a + b;
    if text::has_control(s) {
        let k = choose|k: int|
            0 <= k < s.len() && (s[k] == '\n' || s[k] == '\r' || s[k] == '\0');
        if k < a.len() {
            assert(a[k] == s[k]);
        } else {
            assert(b[k - a.len()] == s[k]);
        }
    }
}

proof fn lemma_clean_escapes(s: Seq<char>)
    requires
        !text::has_control(s),
    ensures
        !text::has_control(escaped(s)),
        !text::has_control(percent_escaped(s)),
        !text::has_control(quoted(s)),
    decreases s.len(),
{
    if s.len() > 0 {
        let rest = s.skip(1);
        assert(!text::has_control(rest)) by {
            if text::has_control(rest) {
                let k = choose|k: int|
                    0 <= k < rest.len() && (rest[k] == '\n' || rest[k] == '\r' || rest[k] == '\0');
                assert(s[k + 1] == rest[k]);
            }
        }
        lemma_clean_escapes(rest);
        assert(s[0] != '\n' && s[0] != '\r' && s[0] != '\0');
        assert(!text::has_control(mark(s[0])));
        assert(!text::has_control(seq![s[0]]));
        assert(!text::has_control(seq!['%', '%']));
        lemma_clean_concat(mark(s[0]), escaped(rest));
        lemma_clean_concat(seq![s[0]], percent_escaped(rest));
        lemma_clean_concat(seq!['%', '%'], percent_escaped(rest));
    }
    assert(!text::has_control(seq!['"']));
    lemma_clean_concat(seq!['"'], escaped(s));
    lemma_clean_concat(seq!['"'] + escaped(s), seq!['"']);
}

proof fn lemma_lines_read_back(lines: Seq<Seq<char>>)
    requires
        lines.len() > 0,
        forall|i: int| 0 <= i < lines.len() ==> !text::has_control(#[trigger] lines[i]),
    ensures
        text::lines_of(text_of(lines)) == lines,
{
    reveal_strlit("\n");
    assert("\n"@ =~= seq!['\n']);
    let none = Seq::<char>::empty();
    let all = lines.push(none);
    assert(all.drop_last() =~= lines);
    assert(text::join(all, seq!['\n']) =~= text_of(lines));
    assert forall|i: int| 0 <= i < all.len() implies !(#[trigger] all[i]).contains('\n') by {
        if i < lines.len() {
            assert(all[i] == lines[i]);
        }
    }
    path::lemma_split_join(all, '\n');
    let pieces = text::split(text_of(lines), '\n');
    assert(pieces == all);
    let ended = pieces.drop_last().map_values(|p: Seq<char>| text::strip_return(p));
    assert forall|i: int| 0 <= i < lines.len() implies ended[i] == #[trigger] lines[i] by {
        let line = lines[i];
        if line.len() > 0 {
            assert(!line.contains('\r'));
            assert(line.last() == line[line.len() - 1]);
        }
    }
    assert(ended =~= lines);
}

/// Whether a label's key stands on one line and ends at its `=`.
pub open spec fn fit_key(key: Seq<char>) -> bool {
    !text::has_control(key) && !key.contains('=')
}

proof fn lemma_validated_key_fits(key: Seq<char>, value: Seq<char>)
    requires
        session::label_fault(key, value) is None,
    ensures
        fit_key(key),
{
    reveal_strlit("._-");
    assert forall|i: int| 0 <= i < key.len() implies #[trigger] key[i] != '\n' && key[i] != '\r'
        && key[i] != '\0' && key[i] != '=' by {
        assert(text::in_class(key[i], true, true, true, "._-"@));
    }
}

proof fn lemma_driver_keys(s: SessionView, key: Option<Seq<char>>)
    ensures
        forall|i: int|
            0 <= i < (driver_labels(s) + key_label(key)).len() ==> fit_key(
                (#[trigger] (driver_labels(s) + key_label(key))[i]).0,
            ) && RESERVED_PREFIX@.is_prefix_of((driver_labels(s) + key_label(key))[i].0),
{
    reveal_strlit("cistella.");
    reveal_strlit("cistella.id");
    reveal_strlit("cistella.directory");
    reveal_strlit("cistella.profile");
    reveal_strlit("cistella.profile-digest");
    reveal_strlit("cistella.identity");
    reveal_strlit("cistella.command");
    reveal_strlit("cistella.image");
    reveal_strlit("cistella.reconciliation-key");
    assert(fit_key(LABEL_ID@) && RESERVED_PREFIX@.is_prefix_of(LABEL_ID@));
    assert(fit_key(LABEL_DIRECTORY@) && RESERVED_PREFIX@.is_prefix_of(LABEL_DIRECTORY@));
    assert(fit_key(LABEL_PROFILE@) && RESERVED_PREFIX@.is_prefix_of(LABEL_PROFILE@));
    assert(fit_key(LABEL_PROFILE_DIGEST@) && RESERVED_PREFIX@.is_prefix_of(LABEL_PROFILE_DIGEST@));
    assert(fit_key(LABEL_IDENTITY@) && RESERVED_PREFIX@.is_prefix_of(LABEL_IDENTITY@));
    assert(fit_key(LABEL_COMMAND@) && RESERVED_PREFIX@.is_prefix_of(LABEL_COMMAND@));
    assert(fit_key(LABEL_IMAGE@) && RESERVED_PREFIX@.is_prefix_of(LABEL_IMAGE@));
    assert(fit_key(LABEL_RECONCILIATION_KEY@) && RESERVED_PREFIX@.is_prefix_of(
        LABEL_RECONCILIATION_KEY@,
    ));
}

proof fn lemma_clean_labels(labels: Seq<(Seq<char>, Seq<char>)>, k: int)
    requires
        0 <= k,
        label_fault(labels, k) is None,
    ensures
        forall|i: int| k <= i < labels.len() ==> !text::has_control((#[trigger] labels[i]).1),
    decreases labels.len() - k,
{
    if k < labels.len() {
        lemma_clean_labels(labels, k + 1);
    }
}

proof fn lemma_clean_env(env: Seq<Seq<char>>, k: int)
    requires
        0 <= k,
        env_fault(env, k) is None,
    ensures
        forall|i: int| k <= i < env.len() ==> !text::has_control(#[trigger] env[i]),
    decreases env.len() - k,
{
    if k < env.len() {
        lemma_clean_env(env, k + 1);
    }
}

/// Whether a line is clean and holds no label.
pub open spec fn no_label(line: Seq<char>) -> bool {
    !text::has_control(line) && !"Label="@.is_prefix_of(line)
}

proof fn lemma_volume_lines(volumes: Seq<Seq<char>>, k: int)
    requires
        0 <= k,
        volume_fault(volumes, k) is None,
    ensures
        forall|i: int|
            0 <= i < volume_lines(volumes, k).len() ==> no_label(
                #[trigger] volume_lines(volumes, k)[i],
            ),
    decreases volumes.len() - k,
{
    if k + 1 < volumes.len() {
        lemma_volume_lines(volumes, k + 2);
        reveal_strlit("Label=");
        reveal_strlit("Tmpfs=");
        reveal_strlit("Volume=");
        let line = volume_line(volumes[k], volumes[k + 1]);
        assert(!text::has_control("Tmpfs="@) && !text::has_control("Volume="@));
        lemma_clean_escapes(volumes[k + 1]);
        lemma_clean_concat("Tmpfs="@, percent_escaped(volumes[k + 1]));
        lemma_clean_concat("Volume="@, percent_escaped(volumes[k + 1]));
        assert(line[0] == 'T' || line[0] == 'V');
        assert("Label="@[0] == 'L');
        assert(no_label(line));
        assert forall|i: int| 0 <= i < volume_lines(volumes, k).len() implies no_label(
            #[trigger] volume_lines(volumes, k)[i],
        ) by {
            if i > 0 {
                assert(volume_lines(volumes, k)[i] == volume_lines(volumes, k + 2)[i - 1]);
            }
        }
    }
}

proof fn lemma_env_line(e: Seq<char>)
    requires
        !text::has_control(e),
    ensures
        no_label(env_line(e)),
{
    reveal_strlit("Label=");
    reveal_strlit("Environment=");
    lemma_clean_escapes(e);
    assert(!text::has_control("Environment="@));
    lemma_clean_concat("Environment="@, quoted(e));
    assert(env_line(e)[0] == 'E');
    assert("Label="@[0] == 'L');
}

proof fn lemma_head_lines(s: SessionView)
    requires
        session_fault(s) is None,
    ensures
        forall|i: int|
            0 <= i < head_lines(s).len() ==> no_label(#[trigger] head_lines(s)[i]),
{
    reveal_strlit("");
    reveal_strlit("Label=");
    reveal_strlit("[Container]");
    reveal_strlit("ContainerName=");
    reveal_strlit("cistella-");
    reveal_strlit("Image=");
    reveal_strlit("Pull=never");
    reveal_strlit("UserNS=keep-id");
    reveal_strlit("LogDriver=journald");
    reveal_strlit("Exec=sleep infinity");
    reveal_strlit("HOME=");
    assert("Label="@[0] == 'L' && "Label="@[1] == 'a');
    assert(!text::has_control(s.id)) by {
        assert forall|i: int| 0 <= i < s.id.len() implies #[trigger] s.id[i] != '\n' && s.id[i]
            != '\r' && s.id[i] != '\0' by {
            assert(text::in_class(s.id[i], false, true, true, ""@));
        }
    }
    assert(!text::has_control("ContainerName="@) && !text::has_control("cistella-"@));
    lemma_clean_concat("cistella-"@, s.id);
    lemma_clean_concat("ContainerName="@, "cistella-"@ + s.id);
    assert(!text::has_control("Image="@));
    lemma_clean_escapes(s.image);
    lemma_clean_concat("Image="@, percent_escaped(s.image));
    assert(!text::has_control("HOME="@));
    lemma_clean_concat("HOME="@, s.container_home);
    lemma_env_line("HOME="@ + s.container_home);
    let h = head_lines(s);
    assert(h[0][0] == '[' && no_label(h[0]));
    assert(h[1][0] == 'C' && no_label(h[1]));
    assert(h[2][0] == 'I' && no_label(h[2]));
    assert(h[3][0] == 'P' && no_label(h[3]));
    assert(h[4][0] == 'U' && no_label(h[4]));
    assert(h[5][1] == 'o' && no_label(h[5]));
    assert(h[6][0] == 'E' && no_label(h[6]));
    assert(no_label(h[7]));
}

proof fn lemma_label_line_clean(l: (Seq<char>, Seq<char>))
    requires
        fit_key(l.0),
        !text::has_control(l.1),
    ensures
        !text::has_control(label_line(l)),
{
    reveal_strlit("Label=");
    reveal_strlit("=");
    assert(!text::has_control("Label="@) && !text::has_control("="@));
    lemma_clean_escapes(l.1);
    lemma_clean_concat("Label="@, l.0);
    lemma_clean_concat("Label="@ + l.0, "="@);
    lemma_clean_concat("Label="@ + l.0 + "="@, quoted(l.1));
}

/// Whether a session's unit is written and every label's key fits.
pub open spec fn sound_unit(
    s: SessionView,
    volumes: Seq<Seq<char>>,
    env: Seq<Seq<char>>,
    labels: Seq<(Seq<char>, Seq<char>)>,
) -> bool {
    &&& unit_fault(s, volumes, env, labels) is None
    &&& forall|i: int| 0 <= i < labels.len() ==> fit_key((#[trigger] labels[i]).0)
}

proof fn lemma_unit_reads_back(
    s: SessionView,
    volumes: Seq<Seq<char>>,
    env: Seq<Seq<char>>,
    labels: Seq<(Seq<char>, Seq<char>)>,
)
    requires
        sound_unit(s, volumes, env, labels),
    ensures
        text::lines_of(text_of(unit_lines(s, volumes, env, labels))) == unit_lines(
            s,
            volumes,
            env,
            labels,
        ),
{
    let lines = unit_lines(s, volumes, env, labels);
    let h = head_lines(s);
    let l = label_lines(labels);
    let v = volume_lines(volumes, 0);
    lemma_head_lines(s);
    lemma_clean_labels(labels, 0);
    lemma_volume_lines(volumes, 0);
    lemma_clean_env(env, 0);
    assert forall|i: int| 0 <= i < lines.len() implies !text::has_control(#[trigger] lines[i]) by {
        if i < h.len() {
            assert(lines[i] == h[i]);
        } else if i < h.len() + l.len() {
            let j = i - h.len();
            assert(lines[i] == label_line(labels[j]));
            lemma_label_line_clean(labels[j]);
        } else if i < h.len() + l.len() + v.len() {
            assert(lines[i] == v[i - h.len() - l.len()]);
        } else {
            let j = i - h.len() - l.len() - v.len();
            assert(lines[i] == env_line(env[j]));
            lemma_env_line(env[j]);
        }
    }
    lemma_lines_read_back(lines);
}

proof fn lemma_label_prefix(a: (Seq<char>, Seq<char>), key: Seq<char>)
    requires
        !a.0.contains('='),
        !key.contains('='),
    ensures
        ("Label="@ + key + "="@).is_prefix_of(label_line(a)) <==> a.0 == key,
{
    reveal_strlit("=");
    reveal_strlit("Label=");
    let p = "Label="@ + key + "="@;
    let line = label_line(a);
    assert(line =~= "Label="@ + a.0 + "="@ + quoted(a.1));
    if a.0 == key {
        assert(line.take(p.len() as int) =~= p);
    }
    if p.is_prefix_of(line) {
        let n = 6 + key.len();
        assert forall|i: int| 0 <= i < p.len() implies p[i] == #[trigger] line[i] by {
            assert(line.take(p.len() as int)[i] == line[i]);
        }
        assert(p[n as int] == '=');
        assert(line[(6 + a.0.len()) as int] == '=');
        if a.0.len() < key.len() {
            assert(key[a.0.len() as int] == p[(6 + a.0.len()) as int]);
            assert(p[(6 + a.0.len()) as int] == line[(6 + a.0.len()) as int]);
        } else if key.len() < a.0.len() {
            assert(a.0[key.len() as int] == line[n as int]);
        }
        assert(a.0.len() == key.len());
        assert forall|i: int| 0 <= i < key.len() implies #[trigger] key[i] == a.0[i] by {
            assert(p[6 + i] == key[i]);
            assert(line[6 + i] == a.0[i]);
        }
        assert(a.0 =~= key);
    }
}

proof fn lemma_skip_lines(lines: Seq<Seq<char>>, prefix: Seq<char>, from: int, to: int)
    requires
        0 <= from <= to <= lines.len(),
        forall|i: int| from <= i < to ==> !prefix.is_prefix_of(#[trigger] lines[i]),
    ensures
        registry::first_with_prefix(lines, prefix, from) == registry::first_with_prefix(
            lines,
            prefix,
            to,
        ),
    decreases to - from,
{
    if from < to {
        assert(!prefix.is_prefix_of(lines[from]));
        lemma_skip_lines(lines, prefix, from + 1, to);
    }
}

/// A label that a unit is written with is read back from the unit's text as
/// it was given: under its key, the first label of that key.
pub proof fn law_labels_read_back(
    s: SessionView,
    volumes: Seq<Seq<char>>,
    env: Seq<Seq<char>>,
    labels: Seq<(Seq<char>, Seq<char>)>,
    i: int,
)
    requires
        sound_unit(s, volumes, env, labels),
        0 <= i < labels.len(),
        forall|j: int| 0 <= j < i ==> (#[trigger] labels[j]).0 != labels[i].0,
    ensures
        registry::label_in(text_of(unit_lines(s, volumes, env, labels)), labels[i].0) == Some(
            labels[i].1,
        ),
{
    let lines = unit_lines(s, volumes, env, labels);
    let h = head_lines(s);
    let prefix = "Label="@ + labels[i].0 + "="@;
    let at = h.len() + i;
    lemma_unit_reads_back(s, volumes, env, labels);
    lemma_head_lines(s);
    assert forall|k: int| 0 <= k < at implies !prefix.is_prefix_of(#[trigger] lines[k]) by {
        if k < h.len() {
            assert(lines[k] == h[k]);
            if prefix.is_prefix_of(h[k]) {
                assert(h[k].take(prefix.len() as int) =~= prefix);
                assert("Label="@ =~= prefix.take("Label="@.len() as int));
                assert("Label="@ =~= h[k].take("Label="@.len() as int));
            }
        } else {
            assert(lines[k] == label_line(labels[k - h.len()]));
            lemma_label_prefix(labels[k - h.len()], labels[i].0);
        }
    }
    lemma_skip_lines(lines, prefix, 0, at);
    assert(lines[at] == label_line(labels[i]));
    lemma_label_prefix(labels[i], labels[i].0);
    let stored = quoted(labels[i].1);
    assert(lines[at].skip(prefix.len() as int) =~= stored);
    assert(stored[0] == '"' && stored.last() == '"');
    assert(!text::is_space('"'));
    assert(text::trimmed(stored) == stored);
    law_quoting_round_trips(labels[i].1);
}

proof fn lemma_generic_concat(a: Seq<Seq<char>>, b: Seq<Seq<char>>)
    ensures
        registry::generic_labels_of(a + b) == registry::generic_labels_of(a)
            + registry::generic_labels_of(b),
    decreases b.len(),
{
    if b.len() == 0 {
        assert(a + b =~= a);
    } else {
        lemma_generic_concat(a, b.drop_last());
        assert((a + b).drop_last() =~= a + b.drop_last());
        assert((a + b).last() == b.last());
    }
    assert(registry::generic_labels_of(a + b) =~= registry::generic_labels_of(a)
        + registry::generic_labels_of(b));
}

proof fn lemma_no_generic(lines: Seq<Seq<char>>)
    requires
        forall|i: int|
            0 <= i < lines.len() ==> registry::generic_label(#[trigger] lines[i]) is None,
    ensures
        registry::generic_labels_of(lines) == Seq::<(Seq<char>, Seq<char>)>::empty(),
    decreases lines.len(),
{
    if lines.len() > 0 {
        let front = lines.drop_last();
        assert forall|i: int| 0 <= i < front.len() implies registry::generic_label(
            #[trigger] front[i],
        ) is None by {
            assert(front[i] == lines[i]);
        }
        lemma_no_generic(front);
        assert(registry::generic_label(lines[lines.len() - 1]) is None);
    }
}

proof fn lemma_label_line_generic(l: (Seq<char>, Seq<char>))
    requires
        !l.0.contains('='),
    ensures
        registry::generic_label(label_line(l)) == (if RESERVED_PREFIX@.is_prefix_of(l.0) {
            None::<(Seq<char>, Seq<char>)>
        } else {
            Some(l)
        }),
{
    reveal_strlit("=");
    reveal_strlit("Label=");
    let line = label_line(l);
    assert(line =~= "Label="@ + (l.0 + "="@ + quoted(l.1)));
    assert(line.take(6) =~= "Label="@);
    let rest = line.skip(6);
    assert(rest =~= l.0 + "="@ + quoted(l.1));
    assert(rest[l.0.len() as int] == '=');
    assert(rest.contains('='));
    text::lemma_first_index_is(rest, '=', l.0.len() as int);
    assert(rest.take(l.0.len() as int) =~= l.0);
    assert(rest.skip((l.0.len() + 1) as int) =~= quoted(l.1));
    law_quoting_round_trips(l.1);
}

proof fn lemma_generic_lines(labels: Seq<(Seq<char>, Seq<char>)>)
    requires
        forall|i: int|
            0 <= i < labels.len() ==> !(#[trigger] labels[i]).0.contains('=')
                && !RESERVED_PREFIX@.is_prefix_of(labels[i].0),
    ensures
        registry::generic_labels_of(label_lines(labels)) == labels,
    decreases labels.len(),
{
    if labels.len() > 0 {
        let front = labels.drop_last();
        assert forall|i: int| 0 <= i < front.len() implies !(#[trigger] front[i]).0.contains('=')
            && !RESERVED_PREFIX@.is_prefix_of(front[i].0) by {
            assert(front[i] == labels[i]);
        }
        lemma_generic_lines(front);
        let last = labels[labels.len() - 1];
        lemma_label_line_generic(last);
        assert(label_lines(labels).drop_last() =~= label_lines(front));
        assert(label_lines(labels).last() == label_line(last));
    }
    assert(registry::generic_labels_of(label_lines(labels)) =~= labels);
}

/// The generic labels that a unit is written with are the ones that the
/// registry lists of its text, in order and with their values.
pub proof fn law_generic_labels_read_back(
    s: SessionView,
    volumes: Seq<Seq<char>>,
    env: Seq<Seq<char>>,
    generic: Seq<(Seq<char>, Seq<char>)>,
    key: Option<Seq<char>>,
)
    requires
        unit_of(s, volumes, env, generic, key) is Ok,
        forall|i: int|
            0 <= i < generic.len() ==> session::label_fault(
                (#[trigger] generic[i]).0,
                generic[i].1,
            ) is None,
    ensures
        registry::generic_labels_of(
            text::lines_of(unit_of(s, volumes, env, generic, key)->Ok_0),
        ) == generic,
{
    let own = driver_labels(s) + key_label(key);
    let labels = unit_labels(s, generic, key);
    let h = head_lines(s);
    let v = volume_lines(volumes, 0);
    let e = env_lines(env);
    lemma_sound(s, volumes, env, generic, key);
    lemma_unit_reads_back(s, volumes, env, labels);
    lemma_head_lines(s);
    lemma_no_generic(h);
    lemma_driver_keys(s, key);
    assert forall|i: int| 0 <= i < label_lines(own).len() implies registry::generic_label(
        #[trigger] label_lines(own)[i],
    ) is None by {
        assert(fit_key(own[i].0));
        lemma_label_line_generic(own[i]);
    }
    lemma_no_generic(label_lines(own));
    assert forall|i: int| 0 <= i < generic.len() implies !(#[trigger] generic[i]).0.contains('=')
        && !RESERVED_PREFIX@.is_prefix_of(generic[i].0) by {
        lemma_validated_key_fits(generic[i].0, generic[i].1);
    }
    lemma_generic_lines(generic);
    lemma_volume_lines(volumes, 0);
    lemma_no_generic(v);
    lemma_clean_env(env, 0);
    assert forall|i: int| 0 <= i < e.len() implies registry::generic_label(
        #[trigger] e[i],
    ) is None by {
        lemma_env_line(env[i]);
    }
    lemma_no_generic(e);
    assert(label_lines(labels) =~= label_lines(own) + label_lines(generic));
    lemma_generic_concat(label_lines(own), label_lines(generic));
    lemma_generic_concat(h, label_lines(labels));
    lemma_generic_concat(h + label_lines(labels), v);
    lemma_generic_concat(h + label_lines(labels) + v, e);
    let lines = unit_lines(s, volumes, env, labels);
    assert(registry::generic_labels_of(lines) =~= generic);
}

proof fn lemma_sound(
    s: SessionView,
    volumes: Seq<Seq<char>>,
    env: Seq<Seq<char>>,
    generic: Seq<(Seq<char>, Seq<char>)>,
    key: Option<Seq<char>>,
)
    requires
        unit_of(s, volumes, env, generic, key) is Ok,
        forall|i: int|
            0 <= i < generic.len() ==> session::label_fault(
                (#[trigger] generic[i]).0,
                generic[i].1,
            ) is None,
    ensures
        sound_unit(s, volumes, env, unit_labels(s, generic, key)),
{
    let own = driver_labels(s) + key_label(key);
    let labels = unit_labels(s, generic, key);
    lemma_driver_keys(s, key);
    assert forall|i: int| 0 <= i < labels.len() implies fit_key((#[trigger] labels[i]).0) by {
        if i < own.len() {
            assert(labels[i] == own[i]);
        } else {
            let g = generic[i - own.len()];
            assert(labels[i] == g);
            lemma_validated_key_fits(g.0, g.1);
        }
    }
}

/// What a unit is written with is what the registry lists of it: the
/// session's id, directory, profile, identity, and image, and the generic
/// labels.
pub proof fn law_written_units_are_listed(
    s: SessionView,
    volumes: Seq<Seq<char>>,
    env: Seq<Seq<char>>,
    generic: Seq<(Seq<char>, Seq<char>)>,
    key: Option<Seq<char>>,
    active_state: Option<Seq<char>>,
    present: Seq<Seq<char>>,
)
    requires
        unit_of(s, volumes, env, generic, key) is Ok,
        forall|i: int|
            0 <= i < generic.len() ==> session::label_fault(
                (#[trigger] generic[i]).0,
                generic[i].1,
            ) is None,
    ensures
        ({
            let row = registry::row_of(
                "cistella-"@ + s.id,
                Some(unit_of(s, volumes, env, generic, key)->Ok_0),
                active_state,
                present,
            );
            &&& row.id == s.id
            &&& row.directory == s.directory
            &&& row.profile == s.profile
            &&& row.identity == s.identity
            &&& row.image == s.image
            &&& row.generic_labels == generic
        }),
{
    let labels = unit_labels(s, generic, key);
    lemma_sound(s, volumes, env, generic, key);
    law_generic_labels_read_back(s, volumes, env, generic, key);
    lemma_key_lengths();
    assert(labels[0] == (LABEL_ID@, s.id));
    assert(labels[1] == (LABEL_DIRECTORY@, s.directory));
    assert(labels[2] == (LABEL_PROFILE@, s.profile));
    assert(labels[3].0 == LABEL_PROFILE_DIGEST@);
    assert(labels[4] == (LABEL_IDENTITY@, s.identity));
    assert(labels[5].0 == LABEL_COMMAND@);
    assert(labels[6] == (LABEL_IMAGE@, s.image));
    law_labels_read_back(s, volumes, env, labels, 0);
    law_labels_read_back(s, volumes, env, labels, 1);
    law_labels_read_back(s, volumes, env, labels, 2);
    law_labels_read_back(s, volumes, env, labels, 4);
    law_labels_read_back(s, volumes, env, labels, 6);
}

proof fn lemma_key_lengths()
    ensures
        LABEL_ID@.len() == 11,
        LABEL_DIRECTORY@.len() == 18,
        LABEL_PROFILE@.len() == 16,
        LABEL_PROFILE_DIGEST@.len() == 23,
        LABEL_IDENTITY@.len() == 17,
        LABEL_COMMAND@.len() == 16,
        LABEL_IMAGE@.len() == 14,
        LABEL_RECONCILIATION_KEY@.len() == 27,
{
    reveal_strlit("cistella.id");
    reveal_strlit("cistella.directory");
    reveal_strlit("cistella.profile");
    reveal_strlit("cistella.profile-digest");
    reveal_strlit("cistella.identity");
    reveal_strlit("cistella.command");
    reveal_strlit("cistella.image");
    reveal_strlit("cistella.reconciliation-key");
}

/// A written unit carries its reconciliation key and its session's id, so
/// that a scan of the unit files finds it after a crash between its install
/// and its registration.
pub proof fn law_written_units_carry_their_key(
    s: SessionView,
    volumes: Seq<Seq<char>>,
    env: Seq<Seq<char>>,
    generic: Seq<(Seq<char>, Seq<char>)>,
    key: Seq<char>,
)
    requires
        unit_of(s, volumes, env, generic, Some(key)) is Ok,
        forall|i: int|
            0 <= i < generic.len() ==> session::label_fault(
                (#[trigger] generic[i]).0,
                generic[i].1,
            ) is None,
    ensures
        ({
            let content = unit_of(s, volumes, env, generic, Some(key))->Ok_0;
            &&& registry::label_in(content, LABEL_RECONCILIATION_KEY@) == Some(key)
            &&& registry::label_in(content, LABEL_ID@) == Some(s.id)
        }),
{
    let labels = unit_labels(s, generic, Some(key));
    lemma_sound(s, volumes, env, generic, Some(key));
    lemma_key_lengths();
    assert(labels[0] == (LABEL_ID@, s.id));
    assert(labels[1].0 == LABEL_DIRECTORY@ && labels[2].0 == LABEL_PROFILE@);
    assert(labels[3].0 == LABEL_PROFILE_DIGEST@ && labels[4].0 == LABEL_IDENTITY@);
    assert(labels[5].0 == LABEL_COMMAND@ && labels[6].0 == LABEL_IMAGE@);
    assert(labels[7] == (LABEL_RECONCILIATION_KEY@, key));
    law_labels_read_back(s, volumes, env, labels, 0);
    law_labels_read_back(s, volumes, env, labels, 7);
}

// ---------------------------------------------------------------------
// What a unit says
// ---------------------------------------------------------------------

/// Quoting escapes backslashes and quotes by a backslash, doubles percent
/// signs, and keeps every other character; outside quotes only percent signs
/// are doubled.
pub proof fn law_escapes_mark_three_characters(c: char, rest: Seq<char>)
    ensures
        escaped(seq![c] + rest) == (if c == '\\' {
            seq!['\\', '\\']
        } else if c == '"' {
            seq!['\\', '"']
        } else if c == '%' {
            seq!['%', '%']
        } else {
            seq![c]
        }) + escaped(rest),
        percent_escaped(seq![c] + rest) == (if c == '%' {
            seq!['%', '%']
        } else {
            seq![c]
        }) + percent_escaped(rest),
        escaped(Seq::empty()) == Seq::<char>::empty(),
        percent_escaped(Seq::empty()) == Seq::<char>::empty(),
        quoted(rest) == seq!['"'] + escaped(rest) + seq!['"'],
{
    let s = seq![c] + rest;
    assert(s.skip(1) =~= rest);
    assert(s[0] == c);
}

proof fn lemma_volume_line_at(volumes: Seq<Seq<char>>, k: int, j: int)
    requires
        0 <= k,
        0 <= j,
        k + 2 * j + 1 < volumes.len(),
    ensures
        j < volume_lines(volumes, k).len(),
        volume_lines(volumes, k)[j] == volume_line(volumes[k + 2 * j], volumes[k + 2 * j + 1]),
    decreases j,
{
    if j > 0 {
        lemma_volume_line_at(volumes, k + 2, j - 1);
        assert(volume_lines(volumes, k)[j] == volume_lines(volumes, k + 2)[j - 1]);
    }
}

/// A written unit is its lines: the container under the session's name, from
/// its image, never pulled, in the user's namespace, logging to the journal,
/// asleep, with the session's home.
pub proof fn law_units_open_with_the_container(
    s: SessionView,
    volumes: Seq<Seq<char>>,
    env: Seq<Seq<char>>,
    generic: Seq<(Seq<char>, Seq<char>)>,
    key: Option<Seq<char>>,
)
    requires
        unit_of(s, volumes, env, generic, key) is Ok,
        forall|i: int|
            0 <= i < generic.len() ==> session::label_fault(
                (#[trigger] generic[i]).0,
                generic[i].1,
            ) is None,
    ensures
        ({
            let lines = text::lines_of(unit_of(s, volumes, env, generic, key)->Ok_0);
            &&& lines.len() >= 8
            &&& lines[0] == "[Container]"@
            &&& lines[1] == "ContainerName="@ + ("cistella-"@ + s.id)
            &&& lines[2] == "Image="@ + percent_escaped(s.image)
            &&& lines[3] == "Pull=never"@
            &&& lines[4] == "UserNS=keep-id"@
            &&& lines[5] == "LogDriver=journald"@
            &&& lines[6] == "Exec=sleep infinity"@
            &&& lines[7] == "Environment="@ + quoted("HOME="@ + s.container_home)
        }),
{
    let labels = unit_labels(s, generic, key);
    lemma_sound(s, volumes, env, generic, key);
    lemma_unit_reads_back(s, volumes, env, labels);
    let lines = unit_lines(s, volumes, env, labels);
    let h = head_lines(s);
    assert(lines[0] == h[0] && lines[1] == h[1] && lines[2] == h[2] && lines[3] == h[3]);
    assert(lines[4] == h[4] && lines[5] == h[5] && lines[6] == h[6] && lines[7] == h[7]);
}

/// A written unit binds every volume, sets every variable and carries every
/// label, with their values, and says nothing else.
pub proof fn law_units_say_every_volume_variable_and_label(
    s: SessionView,
    volumes: Seq<Seq<char>>,
    env: Seq<Seq<char>>,
    generic: Seq<(Seq<char>, Seq<char>)>,
    key: Option<Seq<char>>,
    j: int,
)
    requires
        unit_of(s, volumes, env, generic, key) is Ok,
        forall|i: int|
            0 <= i < generic.len() ==> session::label_fault(
                (#[trigger] generic[i]).0,
                generic[i].1,
            ) is None,
        volumes.len() % 2 == 0,
    ensures
        ({
            let lines = text::lines_of(unit_of(s, volumes, env, generic, key)->Ok_0);
            &&& 0 <= j && 2 * j + 1 < volumes.len() ==> lines.contains(
                (if volumes[2 * j] == "--tmpfs"@ {
                    "Tmpfs="@
                } else {
                    "Volume="@
                }) + percent_escaped(volumes[2 * j + 1]),
            )
            &&& 0 <= j < env.len() ==> lines.contains("Environment="@ + quoted(env[j]))
            &&& 0 <= j < generic.len() ==> lines.contains(
                "Label="@ + generic[j].0 + "="@ + quoted(generic[j].1),
            )
            &&& lines.contains("Label="@ + "cistella.id"@ + "="@ + quoted(s.id))
            &&& lines.contains("Label="@ + "cistella.directory"@ + "="@ + quoted(s.directory))
            &&& lines.contains("Label="@ + "cistella.profile"@ + "="@ + quoted(s.profile))
            &&& lines.contains(
                "Label="@ + "cistella.profile-digest"@ + "="@ + quoted(s.profile_digest),
            )
            &&& lines.contains("Label="@ + "cistella.identity"@ + "="@ + quoted(s.identity))
            &&& lines.contains(
                "Label="@ + "cistella.command"@ + "="@ + quoted(
                    session::json_strings_text(s.command),
                ),
            )
            &&& lines.contains("Label="@ + "cistella.image"@ + "="@ + quoted(s.image))
            &&& key is Some ==> lines.contains(
                "Label="@ + "cistella.reconciliation-key"@ + "="@ + quoted(key->0),
            )
            &&& lines.len() == 15 + (if key is Some {
                1int
            } else {
                0
            }) + generic.len() + volumes.len() / 2 + env.len()
        }),
{
    let labels = unit_labels(s, generic, key);
    lemma_sound(s, volumes, env, generic, key);
    lemma_unit_reads_back(s, volumes, env, labels);
    let lines = unit_lines(s, volumes, env, labels);
    let h = 8int;
    let l = labels.len() as int;
    let v = volume_lines(volumes, 0);
    lemma_volume_count(volumes, 0);
    if 0 <= j && 2 * j + 1 < volumes.len() {
        lemma_volume_line_at(volumes, 0, j);
        assert(lines[h + l + j] == v[j]);
    }
    if 0 <= j < env.len() {
        assert(lines[h + l + v.len() + j] == env_line(env[j]));
    }
    let own = driver_labels(s) + key_label(key);
    if 0 <= j < generic.len() {
        assert(labels[own.len() + j] == generic[j]);
        assert(lines[h + own.len() + j] == label_line(generic[j]));
    }
    assert(lines[h + 0] == label_line(labels[0]) && labels[0] == driver_labels(s)[0]);
    assert(lines[h + 1] == label_line(labels[1]) && labels[1] == driver_labels(s)[1]);
    assert(lines[h + 2] == label_line(labels[2]) && labels[2] == driver_labels(s)[2]);
    assert(lines[h + 3] == label_line(labels[3]) && labels[3] == driver_labels(s)[3]);
    assert(lines[h + 4] == label_line(labels[4]) && labels[4] == driver_labels(s)[4]);
    assert(lines[h + 5] == label_line(labels[5]) && labels[5] == driver_labels(s)[5]);
    assert(lines[h + 6] == label_line(labels[6]) && labels[6] == driver_labels(s)[6]);
    if key is Some {
        assert(labels[7] == key_label(key)[0]);
        assert(lines[h + 7] == label_line(labels[7]));
    }
}

proof fn lemma_volume_count(volumes: Seq<Seq<char>>, k: int)
    requires
        0 <= k <= volumes.len(),
        (volumes.len() - k) % 2 == 0,
    ensures
        volume_lines(volumes, k).len() == (volumes.len() - k) / 2,
    decreases volumes.len() - k,
{
    if k + 1 < volumes.len() {
        lemma_volume_count(volumes, k + 2);
    }
}

/// A session may be written exactly when its id is a minted one, its profile
/// and identity are plain, and its directory, image and home hold no control
/// character.
pub proof fn law_sound_sessions_are_written(s: SessionView)
    ensures
        session_fault(s) is None <==> {
            &&& text::byte_len(s.id) == 17 && forall|i: int|
                0 <= i < s.id.len() ==> 'a' <= #[trigger] s.id[i] <= 'z' || '0' <= s.id[i] <= '9'
            &&& 0 < s.profile.len() && text::byte_len(s.profile) <= 64 && session::plain_name(
                s.profile,
            ) && s.profile[0] != '-'
            &&& 0 < s.identity.len() && text::byte_len(s.identity) <= 64 && session::plain_name(
                s.identity,
            ) && s.identity[0] != '-'
            &&& !text::has_control(s.directory) && !text::has_control(s.image)
                && !text::has_control(s.container_home)
        },
{
    session::law_ids_are_lower_case(s.id);
    session::law_session_fields_are_plain(s.profile, "profile"@);
    session::law_session_fields_are_plain(s.identity, "identity"@);
}

/// A unit is written only for a session that may be, and with no control
/// character in a label, a volume or a variable.
pub proof fn law_units_hold_no_control_characters(
    s: SessionView,
    volumes: Seq<Seq<char>>,
    env: Seq<Seq<char>>,
    generic: Seq<(Seq<char>, Seq<char>)>,
    key: Option<Seq<char>>,
)
    ensures
        unit_of(s, volumes, env, generic, key) is Ok ==> {
            &&& session_fault(s) is None
            &&& forall|i: int| 0 <= i < env.len() ==> !text::has_control(#[trigger] env[i])
            &&& forall|i: int|
                0 <= i < generic.len() ==> !text::has_control((#[trigger] generic[i]).1)
            &&& forall|i: int|
                0 <= i && 2 * i + 1 < volumes.len() ==> !text::has_control(
                    #[trigger] volumes[2 * i + 1],
                )
        },
{
    if unit_of(s, volumes, env, generic, key) is Ok {
        let labels = unit_labels(s, generic, key);
        lemma_clean_labels(labels, 0);
        lemma_clean_env(env, 0);
        let n = (driver_labels(s) + key_label(key)).len() as int;
        assert forall|i: int| 0 <= i < generic.len() implies !text::has_control(
            (#[trigger] generic[i]).1,
        ) by {
            assert(labels[n + i] == generic[i]);
        }
        assert forall|i: int| 0 <= i && 2 * i + 1 < volumes.len() implies !text::has_control(
            #[trigger] volumes[2 * i + 1],
        ) by {
            lemma_clean_volume(volumes, 0, i);
        }
    }
}

proof fn lemma_clean_volume(volumes: Seq<Seq<char>>, k: int, i: int)
    requires
        0 <= k,
        0 <= i,
        k + 2 * i + 1 < volumes.len(),
        volume_fault(volumes, k) is None,
    ensures
        !text::has_control(volumes[k + 2 * i + 1]),
    decreases i,
{
    if i > 0 {
        lemma_clean_volume(volumes, k + 2, i - 1);
    }
}

} // verus!
