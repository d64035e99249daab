//! Template engine: qualified spans, supplements, environment.
//!
//! Spans (`{{context:name}}`) resolve per provider context: `core` is
//! driver-resolved, `supplement` is caller-provided, `environment` is the
//! host process environment under a compile-time allowlist with a hard
//! credential deny. [`expand_templates`] runs the `container-home` early
//! phase, exact span recognition, value resolution, and single-pass
//! substitution with no rescan.

use vstd::prelude::*;

use crate::error::{CistellaError, ErrorView, Result};
use crate::mount::{MountTriple, TripleView};
use crate::path;
use crate::profile;
use crate::profile::{Profile, ProfileView};
use crate::table;
use crate::text;

verus! {

/// Template span contexts (`{{context:name}}`): the context names the value
/// provider, so every span's provenance reads at a glance.
#[derive(Debug, Clone, Copy, PartialEq, Eq, Structural)]
pub enum TemplateContext {
    /// Driver-resolved values (`container-home`, `host-home`,
    /// `project-name`).
    Core,
    /// Caller-provided values (`--supplement k=v`).
    Supplement,
    /// Host process environment (compile-time allowlist, hard deny).
    Environment,
}

/// Context spelling used inside spans.
pub open spec fn context_text(c: TemplateContext) -> Seq<char> {
    match c {
        TemplateContext::Core => "core"@,
        TemplateContext::Supplement => "supplement"@,
        TemplateContext::Environment => "environment"@,
    }
}

impl TemplateContext {
    /// Returns the context spelling used inside spans.
    pub fn as_str(self) -> (s: &'static str)
        ensures
            s@ == context_text(self),
    {
        match self {
            TemplateContext::Core => "core",
            TemplateContext::Supplement => "supplement",
            TemplateContext::Environment => "environment",
        }
    }
}

/// A classified template span: provider context plus name.
#[derive(Debug)]
pub struct ClassifiedSpan {
    /// Value provider named by the span.
    pub context: TemplateContext,
    /// Name within the context (trimmed, non-empty).
    pub name: String,
}

/// What a classified span says.
pub struct SpanView {
    pub context: TemplateContext,
    pub name: Seq<char>,
}

impl DeepView for ClassifiedSpan {
    type V = SpanView;

    open spec fn deep_view(&self) -> SpanView {
        SpanView { context: self.context, name: self.name@ }
    }
}

impl Clone for ClassifiedSpan {
    fn clone(&self) -> (r: Self)
        ensures
            r.deep_view() == self.deep_view(),
    {
        ClassifiedSpan { context: self.context, name: self.name.clone() }
    }
}

fn same_span(a: &ClassifiedSpan, b: &ClassifiedSpan) -> (r: bool)
    ensures
        r == (a.deep_view() == b.deep_view()),
{
    a.context == b.context && text::eq(a.name.as_str(), b.name.as_str())
}

/// What a raw span interior classifies to.
pub open spec fn classified(inner: Seq<char>) -> std::result::Result<SpanView, ErrorView> {
    if !inner.contains(':') {
        Err(
            ErrorView::Profile(
                "bare template span {{"@ + inner
                    + "}}; qualify with a context (core:, supplement:, environment:)"@,
            ),
        )
    } else {
        let context = text::trimmed(inner.take(text::first_index(inner, ':')));
        let name = text::trimmed(inner.skip(text::first_index(inner, ':') + 1));
        if context == "core"@ {
            named_span(TemplateContext::Core, name)
        } else if context == "supplement"@ {
            named_span(TemplateContext::Supplement, name)
        } else if context == "environment"@ {
            named_span(TemplateContext::Environment, name)
        } else {
            Err(ErrorView::Profile("unknown template context "@ + context))
        }
    }
}

/// A span with its name, which must not be empty.
pub open spec fn named_span(context: TemplateContext, name: Seq<char>) -> std::result::Result<
    SpanView,
    ErrorView,
> {
    if name.len() == 0 {
        Err(ErrorView::Profile("empty template name in context "@ + context_text(context)))
    } else {
        Ok(SpanView { context, name })
    }
}

/// Classifies a raw span interior (`{{...}}` contents, trimmed) into a
/// provider context and name. Bare spans, unknown contexts and empty names
/// are refused.
pub fn classify_span(inner: &str) -> (r: Result<ClassifiedSpan>)
    ensures
        crate::error::agrees(r, classified(inner@)),
{
    let (context_raw, name_raw) = match text::split_once(inner, ':') {
        Some(p) => p,
        None => {
            return Err(
                CistellaError::Profile(
                    text::cat3(
                        "bare template span {{",
                        inner,
                        "}}; qualify with a context (core:, supplement:, environment:)",
                    ),
                ),
            );
        },
    };
    let context_text = text::trim(context_raw.as_str());
    let context = if text::eq(context_text.as_str(), "core") {
        TemplateContext::Core
    } else if text::eq(context_text.as_str(), "supplement") {
        TemplateContext::Supplement
    } else if text::eq(context_text.as_str(), "environment") {
        TemplateContext::Environment
    } else {
        return Err(
            CistellaError::Profile(
                text::cat("unknown template context ", context_text.as_str()),
            ),
        );
    };
    let name = text::trim(name_raw.as_str());
    if name.as_str().is_empty() {
        return Err(
            CistellaError::Profile(
                text::cat("empty template name in context ", context.as_str()),
            ),
        );
    }
    Ok(ClassifiedSpan { context, name })
}

/// Caller-provided template values (`--supplement k=v`, last-wins on
/// duplicate keys).
///
/// Values stay opaque until substitution: no charset gate applies to the
/// raw value, so a supplement may supply a whole path. Each fully
/// substituted sink applies its existing validator.
#[derive(Debug)]
pub struct Supplements {
    /// Deduplicated pairs in first-seen key order.
    pairs: Vec<(String, String)>,
}

impl View for Supplements {
    type V = Seq<(Seq<char>, Seq<char>)>;

    closed spec fn view(&self) -> Seq<(Seq<char>, Seq<char>)> {
        self.pairs.deep_view()
    }
}

impl Default for Supplements {
    fn default() -> (s: Self)
        ensures
            s@ == Seq::<(Seq<char>, Seq<char>)>::empty(),
    {
        let s = Supplements { pairs: Vec::new() };
        assert(s@ =~= Seq::<(Seq<char>, Seq<char>)>::empty());
        s
    }
}

impl Supplements {
    /// Builds the table from parsed pairs (later pairs win on duplicates).
    #[must_use]
    pub fn from_pairs(pairs: Vec<(String, String)>) -> (s: Self)
        ensures
            s@ == table::latest(pairs.deep_view()),
    {
        let ghost all = pairs.deep_view();
        let mut deduped: Vec<(String, String)> = Vec::new();
        let mut k: usize = 0;
        assert(all.take(0) =~= Seq::empty());
        assert(deduped.deep_view() =~= table::latest(all.take(0)));
        while k < pairs.len()
            invariant
                all == pairs.deep_view(),
                k <= pairs@.len(),
                deduped.deep_view() == table::latest(all.take(k as int)),
            decreases pairs.len() - k,
        {
            assert(all.take(k + 1).drop_last() =~= all.take(k as int));
            assert(all.take(k + 1).last() == pairs@[k as int].deep_view());
            table::set(&mut deduped, pairs[k].0.as_str(), pairs[k].1.as_str());
            k = k + 1;
        }
        assert(all.take(k as int) =~= all);
        Supplements { pairs: deduped }
    }

    /// Returns the value for a referenced supplement name, if supplied.
    #[must_use]
    pub fn get(&self, name: &str) -> (r: Option<&str>)
        ensures
            match r {
                Some(v) => table::lookup(self@, name@, 0) == Some(v@),
                None => table::lookup(self@, name@, 0) is None,
            },
    {
        table::lookup_text(&self.pairs, name)
    }
}

/// What is wrong with a supplement key, if anything.
pub open spec fn supplement_key_fault(key: Seq<char>) -> Option<ErrorView> {
    if key.len() == 0 {
        Some(ErrorView::Profile("supplement key must not be empty"@))
    } else if key == "cistella"@ || "cistella."@.is_prefix_of(key) {
        Some(ErrorView::Profile("supplement key must not use the cistella namespace: "@ + key))
    } else if !text::all_in_class(key, true, true, true, "-_. "@) {
        Some(ErrorView::Profile("supplement key must match [A-Za-z0-9_. -]+: "@ + key))
    } else {
        None
    }
}

/// What a `--supplement` argument parses to.
pub open spec fn parsed_supplement(arg: Seq<char>) -> std::result::Result<
    (Seq<char>, Seq<char>),
    ErrorView,
> {
    if !arg.contains('=') {
        Err(ErrorView::Profile("supplement must be k=v: "@ + arg))
    } else {
        let key = arg.take(text::first_index(arg, '='));
        match supplement_key_fault(key) {
            Some(e) => Err(e),
            None => Ok((key, arg.skip(text::first_index(arg, '=') + 1))),
        }
    }
}

/// Parses one `--supplement k=v` argument (key constraints enforced: not
/// empty, never `cistella` nor beginning with `cistella.`, and
/// `[A-Za-z0-9_. -]+`).
pub fn parse_supplement_arg(arg: &str) -> (r: Result<(String, String)>)
    ensures
        crate::error::agrees(r, parsed_supplement(arg@)),
{
    let (key, value) = match text::split_once(arg, '=') {
        Some(p) => p,
        None => {
            return Err(CistellaError::Profile(text::cat("supplement must be k=v: ", arg)));
        },
    };
    let k = key.as_str();
    if k.is_empty() {
        return Err(CistellaError::Profile("supplement key must not be empty".to_owned()));
    }
    if text::eq(k, "cistella") || text::starts_with(k, "cistella.") {
        return Err(
            CistellaError::Profile(
                text::cat("supplement key must not use the cistella namespace: ", k),
            ),
        );
    }
    if !text::all_in(k, true, true, true, "-_. ") {
        return Err(
            CistellaError::Profile(text::cat("supplement key must match [A-Za-z0-9_. -]+: ", k)),
        );
    }
    Ok((key, value))
}

/// ASCII uppercase of a character.
pub open spec fn upper_char(c: char) -> char {
    if 'a' <= c <= 'z' {
        ((c as u32) - 32) as char
    } else {
        c
    }
}

/// ASCII uppercase of a text.
pub open spec fn upper(s: Seq<char>) -> Seq<char> {
    s.map_values(|c: char| upper_char(c))
}

fn to_upper_char(c: char) -> (r: char)
    ensures
        r == upper_char(c),
{
    if 'a' <= c && c <= 'z' {
        let b: u8 = c as u8;
        (b - 32) as char
    } else {
        c
    }
}

fn to_upper(s: &str) -> (r: String)
    ensures
        r@ == upper(s@),
{
    let v = text::chars_of(s);
    let mut r = String::new();
    let mut i: usize = 0;
    while i < v.len()
        invariant
            v@ == s@,
            i <= v@.len(),
            r@ =~= upper(s@).take(i as int),
        decreases v.len() - i,
    {
        r.push(to_upper_char(v[i]));
        i = i + 1;
    }
    assert(upper(s@).take(i as int) =~= upper(s@));
    r
}

/// Whether an environment name is credential-shaped (case-insensitive):
/// exact `SSH_AUTH_SOCK`, `*_TOKEN` / `*_SECRET` / `*_KEY` / `*_PASSWORD`
/// suffixes, or `*CREDENTIAL*` infix.
pub open spec fn credential_shaped(name: Seq<char>) -> bool {
    let u = upper(name);
    ||| u == "SSH_AUTH_SOCK"@
    ||| "_TOKEN"@.is_suffix_of(u)
    ||| "_SECRET"@.is_suffix_of(u)
    ||| "_KEY"@.is_suffix_of(u)
    ||| "_PASSWORD"@.is_suffix_of(u)
    ||| text::occurs("CREDENTIAL"@, u)
}

/// Whether an environment name is credential-shaped. Deny overrides the
/// allowlist: templates must never exfiltrate ambient credentials.
pub fn environment_hard_denied(name: &str) -> (b: bool)
    ensures
        b == credential_shaped(name@),
{
    let u = to_upper(name);
    let u = u.as_str();
    text::eq(u, "SSH_AUTH_SOCK") || text::ends_with(u, "_TOKEN") || text::ends_with(u, "_SECRET")
        || text::ends_with(u, "_KEY") || text::ends_with(u, "_PASSWORD") || text::contains(
        u,
        "CREDENTIAL",
    )
}

/// Whether a name may be an environment variable: a letter or `_`, then
/// letters, digits and `_`.
pub open spec fn variable_name(name: Seq<char>) -> bool {
    name.len() > 0 && text::in_class(name[0], true, true, false, "_"@) && text::all_in_class(
        name,
        true,
        true,
        true,
        "_"@,
    )
}

/// What a referenced `{{environment:NAME}}` span resolves to: charset,
/// hard-deny, the compile-time allowlist (which holds `HOME` alone), then
/// the host's value.
pub open spec fn environment_value(name: Seq<char>, host_home: Option<Seq<char>>) -> std::result::Result<
    Seq<char>,
    ErrorView,
> {
    if !variable_name(name) {
        Err(ErrorView::Profile("invalid environment name: "@ + name))
    } else if credential_shaped(name) {
        Err(ErrorView::Profile("environment "@ + name + " refused (credential-shaped)"@))
    } else if name != "HOME"@ {
        Err(
            ErrorView::Profile(
                "environment "@ + name
                    + " is not allowlisted (allowlist is compile-time; extend by code-reviewed change)"@,
            ),
        )
    } else {
        match host_home {
            Some(v) => Ok(v),
            None => Err(ErrorView::Profile("environment "@ + name + " is not set"@)),
        }
    }
}

fn is_variable_name(name: &str) -> (b: bool)
    ensures
        b == variable_name(name@),
{
    let v = text::chars_of(name);
    if v.len() == 0 {
        return false;
    }
    let first = text::slice_of(&v, 0, 1);
    assert(first@ =~= seq![name@[0]]);
    let head = text::all_in(first.as_str(), true, true, false, "_");
    assert(head == text::in_class(name@[0], true, true, false, "_"@)) by {
        assert(first@[0] == name@[0]);
    }
    head && text::all_in(name, true, true, true, "_")
}

/// Resolves one referenced `{{environment:NAME}}` span. `host_home` is the
/// host's `HOME`, the only allowlisted variable. Diagnostics name only the
/// variable, never its value.
pub fn resolve_environment(name: &str, host_home: Option<&str>) -> (r: Result<String>)
    ensures
        crate::error::agrees(r, environment_value(name@, host_home.deep_view())),
{
    if !is_variable_name(name) {
        return Err(CistellaError::Profile(text::cat("invalid environment name: ", name)));
    }
    if environment_hard_denied(name) {
        return Err(
            CistellaError::Profile(
                text::cat3("environment ", name, " refused (credential-shaped)"),
            ),
        );
    }
    if !text::eq(name, "HOME") {
        return Err(
            CistellaError::Profile(
                text::cat3(
                    "environment ",
                    name,
                    " is not allowlisted (allowlist is compile-time; extend by code-reviewed change)",
                ),
            ),
        );
    }
    match host_home {
        Some(v) => Ok(v.to_owned()),
        None => Err(CistellaError::Profile(text::cat3("environment ", name, " is not set"))),
    }
}

/// No credential-shaped name ever resolves, whatever the host holds.
pub proof fn law_credentials_never_resolve(name: Seq<char>, host_home: Option<Seq<char>>)
    requires
        credential_shaped(name),
    ensures
        environment_value(name, host_home) is Err,
{
}

/// Project-name input for template expansion.
#[derive(Debug, Clone, Copy)]
pub enum ProjectName<'a> {
    /// Explicit `--project-name` flag value.
    Explicit(&'a str),
    /// Derive from the canonical session directory basename, lazily: only
    /// when a `{{core:project-name}}` span actually expands.
    DirectoryDefault(&'a str),
}

/// What a project-name input says.
pub enum ProjectView {
    Explicit(Seq<char>),
    DirectoryDefault(Seq<char>),
}

impl<'a> DeepView for ProjectName<'a> {
    type V = ProjectView;

    open spec fn deep_view(&self) -> ProjectView {
        match *self {
            ProjectName::Explicit(s) => ProjectView::Explicit(s@),
            ProjectName::DirectoryDefault(s) => ProjectView::DirectoryDefault(s@),
        }
    }
}

/// A project name, which must be ASCII alphanumeric plus `-_.`.
pub open spec fn valid_project(name: Seq<char>) -> std::result::Result<Seq<char>, ErrorView> {
    if name.len() == 0 || !text::all_in_class(name, true, true, true, "-_."@) {
        Err(ErrorView::Profile("project name must match [A-Za-z0-9-_.]+: "@ + name))
    } else {
        Ok(name)
    }
}

/// What `{{core:project-name}}` resolves to.
pub open spec fn project_value(project: ProjectView) -> std::result::Result<Seq<char>, ErrorView> {
    match project {
        ProjectView::Explicit(name) => valid_project(name),
        ProjectView::DirectoryDefault(directory) => match profile::default_project(directory) {
            Ok(name) => valid_project(name),
            Err(e) => Err(e),
        },
    }
}

fn validated_project(name: &str) -> (r: Result<String>)
    ensures
        crate::error::agrees(r, valid_project(name@)),
{
    if name.is_empty() || !text::all_in(name, true, true, true, "-_.") {
        return Err(
            CistellaError::Profile(text::cat("project name must match [A-Za-z0-9-_.]+: ", name)),
        );
    }
    Ok(name.to_owned())
}

fn resolve_project_value(project: ProjectName<'_>) -> (r: Result<String>)
    ensures
        crate::error::agrees(r, project_value(project.deep_view())),
{
    match project {
        ProjectName::Explicit(name) => validated_project(name),
        ProjectName::DirectoryDefault(directory) => match profile::default_project_name(
            directory,
        ) {
            Ok(name) => validated_project(name.as_str()),
            Err(e) => Err(e),
        },
    }
}

// ---------------------------------------------------------------------
// Spans
// ---------------------------------------------------------------------

/// One parsed piece of a template-bearing value.
#[derive(Debug)]
pub enum Part {
    /// Literal text, copied verbatim.
    Lit(String),
    /// Raw span interior (trimmed), classified at recognition.
    Name(String),
}

/// What a piece says.
pub enum PartView {
    Lit(Seq<char>),
    Name(Seq<char>),
}

impl DeepView for Part {
    type V = PartView;

    open spec fn deep_view(&self) -> PartView {
        match *self {
            Part::Lit(s) => PartView::Lit(s@),
            Part::Name(s) => PartView::Name(s@),
        }
    }
}

/// Literal piece of a text, when it is not empty.
pub open spec fn literal(s: Seq<char>) -> Seq<PartView> {
    if s.len() > 0 {
        seq![PartView::Lit(s)]
    } else {
        Seq::empty()
    }
}

/// Pieces of `s` from `from` on, or the index of an opening `{{` that is
/// never closed.
pub open spec fn pieces(s: Seq<char>, from: int) -> std::result::Result<Seq<PartView>, int>
    decreases s.len() - from,
{
    let open = text::find_from(s, "{{"@, from);
    if from < 0 || open < from {
        Ok(literal(s.skip(from)))
    } else {
        let close = text::find_from(s, "}}"@, open + 2);
        if close < open + 2 {
            Err(open)
        } else if close + 2 > s.len() {
            Err(open)
        } else {
            match pieces(s, close + 2) {
                Ok(rest) => Ok(
                    literal(s.subrange(from, open)) + seq![
                        PartView::Name(text::trimmed(s.subrange(open + 2, close))),
                    ] + rest,
                ),
                Err(at) => Err(at),
            }
        }
    }
}

/// Pieces of a value; an unterminated span is refused by its byte offset,
/// never by the value.
pub open spec fn parts_of(s: Seq<char>) -> std::result::Result<Seq<PartView>, ErrorView> {
    match pieces(s, 0) {
        Ok(p) => Ok(p),
        Err(at) => Err(
            ErrorView::Profile(
                "unterminated template span at byte "@ + text::dec(text::byte_len(s.take(at))),
            ),
        ),
    }
}

/// Splits a value into literal and template parts (exact `{{name}}` spans;
/// substituted output is never re-scanned by callers).
pub fn split_spans(value: &str) -> (r: Result<Vec<Part>>)
    ensures
        crate::error::agrees(r, parts_of(value@)),
{
    proof {
        reveal_strlit("{{");
        reveal_strlit("}}");
    }
    let v = text::chars_of(value);
    let open_mark = text::chars_of("{{");
    let close_mark = text::chars_of("}}");
    let mut parts: Vec<Part> = Vec::new();
    let mut from: usize = 0;
    loop
        invariant
            v@ == value@,
            open_mark@ == "{{"@,
            close_mark@ == "}}"@,
            "{{"@.len() == 2,
            "}}"@.len() == 2,
            from <= v@.len(),
            match pieces(value@, from as int) {
                Ok(rest) => pieces(value@, 0) == std::result::Result::<Seq<PartView>, int>::Ok(
                    parts.deep_view() + rest,
                ),
                Err(at) => pieces(value@, 0) == std::result::Result::<Seq<PartView>, int>::Err(at),
            },
        decreases v.len() - from,
    {
        let ghost before = parts.deep_view();
        proof {
            text::lemma_find_from(value@, "{{"@, from as int);
        }
        match text::find(&v, &open_mark, from) {
            None => {
                let tail = text::slice_of(&v, from, v.len());
                assert(tail@ =~= value@.skip(from as int));
                if from < v.len() {
                    parts.push(Part::Lit(tail));
                    assert(parts.deep_view() =~= before + literal(value@.skip(from as int)));
                } else {
                    assert(before + literal(value@.skip(from as int)) =~= before);
                }
                return Ok(parts);
            },
            Some(open) => {
                let ghost lit = literal(value@.subrange(from as int, open as int));
                if from < open {
                    parts.push(Part::Lit(text::slice_of(&v, from, open)));
                }
                assert(parts.deep_view() =~= before + lit);
                proof {
                    text::lemma_find_from(value@, "}}"@, open + 2);
                }
                match text::find(&v, &close_mark, open + 2) {
                    None => {
                        let head = text::slice_of(&v, 0, open);
                        assert(head@ =~= value@.take(open as int));
                        let offset: usize = text::len_bytes(head.as_str());
                        return Err(
                            CistellaError::Profile(
                                text::cat(
                                    "unterminated template span at byte ",
                                    text::dec_u64(offset as u64).as_str(),
                                ),
                            ),
                        );
                    },
                    Some(close) => {
                        let inner = text::slice_of(&v, open + 2, close);
                        let ghost name = PartView::Name(text::trimmed(inner@));
                        let ghost mid = parts.deep_view();
                        parts.push(Part::Name(text::trim(inner.as_str())));
                        assert(parts.deep_view() =~= mid.push(name));
                        proof {
                            match pieces(value@, close + 2) {
                                Ok(rest) => {
                                    assert(before + (lit + seq![name] + rest)
                                        =~= parts.deep_view() + rest);
                                },
                                Err(_) => {},
                            }
                        }
                        from = close + 2;
                    },
                }
            },
        }
    }
}

/// A text without `{{` is one literal piece: nothing in it expands.
pub proof fn law_span_free_text_is_literal(s: Seq<char>)
    requires
        !text::occurs("{{"@, s),
    ensures
        parts_of(s) == std::result::Result::<Seq<PartView>, ErrorView>::Ok(literal(s)),
{
    text::lemma_find_from(s, "{{"@, 0);
    let open = text::find_from(s, "{{"@, 0);
    if open != -1 {
        assert(text::occurs_at("{{"@, s, open));
    }
    assert(s.skip(0) =~= s);
}

// ---------------------------------------------------------------------
// Early home phase
// ---------------------------------------------------------------------

/// A span refusal with the field it stands in.
pub open spec fn in_field(e: ErrorView, field: Seq<char>) -> ErrorView {
    match e {
        ErrorView::Profile(m) => ErrorView::Profile(m + " in "@ + field),
        other => ErrorView::Profile(other.rendered() + " in "@ + field),
    }
}

fn name_field(e: CistellaError, field: &str) -> (r: CistellaError)
    ensures
        r@ == in_field(e@, field@),
{
    let inner = match e {
        CistellaError::Profile(m) => m,
        other => other.render(),
    };
    CistellaError::Profile(text::cat3(inner.as_str(), " in ", field))
}

/// What a supplied supplement resolves to.
pub open spec fn supplement_value(
    supplements: Seq<(Seq<char>, Seq<char>)>,
    name: Seq<char>,
) -> std::result::Result<Seq<char>, ErrorView> {
    match table::lookup(supplements, name, 0) {
        Some(v) => Ok(v),
        None => Err(ErrorView::Profile("unknown supplement: "@ + name)),
    }
}

fn resolve_supplement(supplements: &Supplements, name: &str) -> (r: Result<String>)
    ensures
        crate::error::agrees(r, supplement_value(supplements@, name@)),
{
    match supplements.get(name) {
        Some(v) => Ok(v.to_owned()),
        None => Err(CistellaError::Profile(text::cat("unknown supplement: ", name))),
    }
}

/// Text of one piece of `container-home`.
pub open spec fn early_value(
    part: PartView,
    supplements: Seq<(Seq<char>, Seq<char>)>,
    host_home: Option<Seq<char>>,
) -> std::result::Result<Seq<char>, ErrorView> {
    match part {
        PartView::Lit(s) => Ok(s),
        PartView::Name(raw) => match classified(raw) {
            Err(e) => Err(in_field(e, "container-home"@)),
            Ok(span) => match span.context {
                TemplateContext::Core => Err(
                    ErrorView::Profile(
                        "self-referential template {{"@ + raw + "}} in container-home"@,
                    ),
                ),
                TemplateContext::Supplement => supplement_value(supplements, span.name),
                TemplateContext::Environment => environment_value(span.name, host_home),
            },
        },
    }
}

/// Text of the pieces of `container-home`, or the first refusal.
pub open spec fn early_text(
    parts: Seq<PartView>,
    supplements: Seq<(Seq<char>, Seq<char>)>,
    host_home: Option<Seq<char>>,
) -> std::result::Result<Seq<char>, ErrorView>
    decreases parts.len(),
{
    if parts.len() == 0 {
        Ok(Seq::empty())
    } else {
        match early_text(parts.drop_last(), supplements, host_home) {
            Err(e) => Err(e),
            Ok(head) => match early_value(parts.last(), supplements, host_home) {
                Err(e) => Err(e),
                Ok(v) => Ok(head + v),
            },
        }
    }
}

/// `container-home` after its early phase.
pub open spec fn early_home(
    home: Seq<char>,
    supplements: Seq<(Seq<char>, Seq<char>)>,
    host_home: Option<Seq<char>>,
) -> std::result::Result<Seq<char>, ErrorView> {
    match parts_of(home) {
        Err(e) => Err(in_field(e, "container-home"@)),
        Ok(parts) => early_text(parts, supplements, host_home),
    }
}

fn early_part(part: &Part, supplements: &Supplements, host_home: Option<&str>) -> (r: Result<
    String,
>)
    ensures
        crate::error::agrees(
            r,
            early_value(part.deep_view(), supplements@, host_home.deep_view()),
        ),
{
    match part {
        Part::Lit(s) => Ok(s.clone()),
        Part::Name(raw) => match classify_span(raw.as_str()) {
            Err(e) => Err(name_field(e, "container-home")),
            Ok(span) => match span.context {
                TemplateContext::Core => Err(
                    CistellaError::Profile(
                        text::cat3(
                            "self-referential template {{",
                            raw.as_str(),
                            "}} in container-home",
                        ),
                    ),
                ),
                TemplateContext::Supplement => resolve_supplement(supplements, span.name.as_str()),
                TemplateContext::Environment => resolve_environment(span.name.as_str(), host_home),
            },
        },
    }
}

proof fn lemma_early_text_error(
    parts: Seq<PartView>,
    supplements: Seq<(Seq<char>, Seq<char>)>,
    host_home: Option<Seq<char>>,
    k: int,
)
    requires
        0 <= k <= parts.len(),
        early_text(parts.take(k), supplements, host_home) is Err,
    ensures
        early_text(parts, supplements, host_home) == early_text(
            parts.take(k),
            supplements,
            host_home,
        ),
    decreases parts.len() - k,
{
    if k < parts.len() {
        assert(parts.take(k + 1).drop_last() =~= parts.take(k));
        lemma_early_text_error(parts, supplements, host_home, k + 1);
    } else {
        assert(parts.take(k) =~= parts);
    }
}

/// Early `container-home` expansion phase: resolves allowlisted
/// `{{environment:*}}` and supplied `{{supplement:*}}` spans before
/// canonicalization. `{{core:*}}` spans are typed cycle errors (they derive
/// from this very field). Template-free literals pass through unchanged.
pub fn expand_early_home(home: &str, supplements: &Supplements, host_home: Option<&str>) -> (r:
    Result<String>)
    ensures
        crate::error::agrees(r, early_home(home@, supplements@, host_home.deep_view())),
{
    let parts = match split_spans(home) {
        Ok(p) => p,
        Err(e) => {
            return Err(name_field(e, "container-home"));
        },
    };
    let ghost all = parts.deep_view();
    let ghost sv = supplements@;
    let ghost hv = host_home.deep_view();
    let mut out = String::new();
    let mut k: usize = 0;
    assert(all.take(0) =~= Seq::<PartView>::empty());
    while k < parts.len()
        invariant
            all == parts.deep_view(),
            sv == supplements@,
            hv == host_home.deep_view(),
            k <= parts@.len(),
            early_text(all.take(k as int), sv, hv) == std::result::Result::<
                Seq<char>,
                ErrorView,
            >::Ok(out@),
            early_home(home@, sv, hv) == early_text(all, sv, hv),
        decreases parts.len() - k,
    {
        assert(all.take(k + 1).drop_last() =~= all.take(k as int));
        assert(all.take(k + 1).last() == parts@[k as int].deep_view());
        match early_part(&parts[k], supplements, host_home) {
            Ok(v) => {
                let ghost head = out@;
                out = text::cat(out.as_str(), v.as_str());
            },
            Err(e) => {
                proof {
                    lemma_early_text_error(all, sv, hv, k + 1);
                }
                return Err(e);
            },
        }
        k = k + 1;
    }
    assert(all.take(k as int) =~= all);
    Ok(out)
}


// ---------------------------------------------------------------------
// Recognition
// ---------------------------------------------------------------------

/// Texts with the field they stand in.
pub open spec fn labelled(field: Seq<char>, texts: Seq<Seq<char>>) -> Seq<(Seq<char>, Seq<char>)> {
    texts.map_values(|t: Seq<char>| (field, t))
}

/// Both sides of the mounts, host first.
pub open spec fn mount_texts(mounts: Seq<TripleView>) -> Seq<(Seq<char>, Seq<char>)>
    decreases mounts.len(),
{
    if mounts.len() == 0 {
        Seq::empty()
    } else {
        mount_texts(mounts.drop_last()) + seq![
            ("mount host_source"@, mounts.last().host),
            ("mount container_target"@, mounts.last().target),
        ]
    }
}

/// Values of a table, in order.
pub open spec fn table_values(entries: Seq<(Seq<char>, Seq<char>)>) -> Seq<Seq<char>> {
    entries.map_values(|e: (Seq<char>, Seq<char>)| e.1)
}

/// Argv of a profile; none counts as empty.
pub open spec fn argv_of(command: Option<Seq<Seq<char>>>) -> Seq<Seq<char>> {
    match command {
        Some(c) => c,
        None => Seq::empty(),
    }
}

/// All template-bearing texts of a profile with their field: triples both
/// sides, argv, env values, label values, and label keys (keys are scanned
/// for refusal, never substituted).
pub open spec fn template_values(p: ProfileView) -> Seq<(Seq<char>, Seq<char>)> {
    mount_texts(p.mounts) + labelled("command argv"@, argv_of(p.command)) + labelled(
        "env value"@,
        table_values(p.environment),
    ) + labelled("label value"@, table_values(p.labels)) + labelled(
        "label key"@,
        table::keys(p.labels),
    )
}

/// The spans known so far plus those of the pieces, each once, in
/// first-seen order.
pub open spec fn add_spans(
    known: Seq<SpanView>,
    parts: Seq<PartView>,
    field: Seq<char>,
) -> std::result::Result<Seq<SpanView>, ErrorView>
    decreases parts.len(),
{
    if parts.len() == 0 {
        Ok(known)
    } else {
        match add_spans(known, parts.drop_last(), field) {
            Err(e) => Err(e),
            Ok(spans) => match parts.last() {
                PartView::Lit(_) => Ok(spans),
                PartView::Name(raw) => match classified(raw) {
                    Err(e) => Err(in_field(e, field)),
                    Ok(span) => if spans.contains(span) {
                        Ok(spans)
                    } else {
                        Ok(spans.push(span))
                    },
                },
            },
        }
    }
}

/// Every span of the texts, each once, in first-seen order; the first
/// unterminated, bare, or unknown-context span refuses.
pub open spec fn recognized(values: Seq<(Seq<char>, Seq<char>)>) -> std::result::Result<
    Seq<SpanView>,
    ErrorView,
>
    decreases values.len(),
{
    if values.len() == 0 {
        Ok(Seq::empty())
    } else {
        match recognized(values.drop_last()) {
            Err(e) => Err(e),
            Ok(spans) => match parts_of(values.last().1) {
                Err(e) => Err(in_field(e, values.last().0)),
                Ok(parts) => add_spans(spans, parts, values.last().0),
            },
        }
    }
}

/// Whether a name is a known `core:` template.
pub open spec fn known_core(name: Seq<char>) -> bool {
    name == "container-home"@ || name == "host-home"@ || name == "project-name"@
}

/// First span at or after `k` that names an unknown core template.
pub open spec fn unknown_core(spans: Seq<SpanView>, k: int) -> Option<ErrorView>
    decreases spans.len() - k,
{
    if k < 0 || k >= spans.len() {
        None
    } else if spans[k].context == TemplateContext::Core && !known_core(spans[k].name) {
        Some(ErrorView::Profile("unknown core template: "@ + spans[k].name))
    } else {
        unknown_core(spans, k + 1)
    }
}

/// First span name among the pieces from `k` on.
pub open spec fn first_name(parts: Seq<PartView>, k: int) -> Option<Seq<char>>
    decreases parts.len() - k,
{
    if k < 0 || k >= parts.len() {
        None
    } else {
        match parts[k] {
            PartView::Name(raw) => Some(raw),
            PartView::Lit(_) => first_name(parts, k + 1),
        }
    }
}

/// First label key at or after `k` that holds a span. Keys are lookup
/// dimensions: they never expand.
pub open spec fn key_fault(keys: Seq<Seq<char>>, k: int) -> Option<ErrorView>
    decreases keys.len() - k,
{
    if k < 0 || k >= keys.len() {
        None
    } else {
        match parts_of(keys[k]) {
            Err(e) => Some(in_field(e, "label key"@)),
            Ok(parts) => match first_name(parts, 0) {
                Some(raw) => Some(ErrorView::Profile("template {{"@ + raw + "}} in label key"@)),
                None => key_fault(keys, k + 1),
            },
        }
    }
}

// ---------------------------------------------------------------------
// Resolution
// ---------------------------------------------------------------------

/// Inputs that span values come from.
pub struct Providers {
    pub home: Seq<char>,
    pub project: ProjectView,
    pub supplements: Seq<(Seq<char>, Seq<char>)>,
    pub host_home: Option<Seq<char>>,
}

/// What a span resolves to.
pub open spec fn span_value(span: SpanView, from: Providers) -> std::result::Result<
    Seq<char>,
    ErrorView,
> {
    match span.context {
        TemplateContext::Core => if span.name == "container-home"@ {
            Ok(from.home)
        } else if span.name == "host-home"@ {
            match from.host_home {
                Some(v) => Ok(v),
                None => Err(ErrorView::Profile("HOME not set for template expansion"@)),
            }
        } else if span.name == "project-name"@ {
            project_value(from.project)
        } else {
            Err(ErrorView::Profile("unknown core template: "@ + span.name))
        },
        TemplateContext::Supplement => supplement_value(from.supplements, span.name),
        TemplateContext::Environment => environment_value(span.name, from.host_home),
    }
}

/// Values of the spans in order; the first unresolvable span refuses.
pub open spec fn resolved(spans: Seq<SpanView>, from: Providers) -> std::result::Result<
    Seq<Seq<char>>,
    ErrorView,
>
    decreases spans.len(),
{
    if spans.len() == 0 {
        Ok(Seq::empty())
    } else {
        match resolved(spans.drop_last(), from) {
            Err(e) => Err(e),
            Ok(values) => match span_value(spans.last(), from) {
                Err(e) => Err(e),
                Ok(v) => Ok(values.push(v)),
            },
        }
    }
}

// ---------------------------------------------------------------------
// Substitution
// ---------------------------------------------------------------------

/// Value of a span by its first place among the known ones.
pub open spec fn value_of(spans: Seq<SpanView>, values: Seq<Seq<char>>, span: SpanView) -> Seq<
    char,
> {
    values[spans.index_of(span)]
}

/// Text of the pieces with every span replaced by its value. Values are
/// copied as they are: nothing in them is looked at again.
pub open spec fn filled(
    parts: Seq<PartView>,
    spans: Seq<SpanView>,
    values: Seq<Seq<char>>,
) -> Seq<char>
    decreases parts.len(),
{
    if parts.len() == 0 {
        Seq::empty()
    } else {
        filled(parts.drop_last(), spans, values) + match parts.last() {
            PartView::Lit(s) => s,
            PartView::Name(raw) => value_of(spans, values, classified(raw)->Ok_0),
        }
    }
}

/// A text with every span replaced by its value.
pub open spec fn substituted(s: Seq<char>, spans: Seq<SpanView>, values: Seq<Seq<char>>) -> Seq<
    char,
> {
    filled(parts_of(s)->Ok_0, spans, values)
}

/// The profile with every template-bearing value substituted.
pub open spec fn substituted_profile(
    p: ProfileView,
    spans: Seq<SpanView>,
    values: Seq<Seq<char>>,
) -> ProfileView {
    ProfileView {
        mounts: p.mounts.map_values(
            |t: TripleView|
                TripleView {
                    host: substituted(t.host, spans, values),
                    target: substituted(t.target, spans, values),
                    mode: t.mode,
                },
        ),
        command: match p.command {
            Some(c) => Some(c.map_values(|a: Seq<char>| substituted(a, spans, values))),
            None => None,
        },
        environment: p.environment.map_values(
            |e: (Seq<char>, Seq<char>)| (e.0, substituted(e.1, spans, values)),
        ),
        labels: p.labels.map_values(
            |e: (Seq<char>, Seq<char>)| (e.0, substituted(e.1, spans, values)),
        ),
        ..p
    }
}

/// The profile after expansion: early home, recognition, unknown core
/// names, label keys, project context, resolution, substitution, in this
/// order of refusal.
pub open spec fn expanded(
    p: ProfileView,
    project: Option<ProjectView>,
    supplements: Seq<(Seq<char>, Seq<char>)>,
    host_home: Option<Seq<char>>,
) -> std::result::Result<ProfileView, ErrorView> {
    match early_home(p.home, supplements, host_home) {
        Err(e) => Err(e),
        Ok(early) => match profile::normalized_home(early) {
            Err(e) => Err(e),
            Ok(home) => {
                let q = ProfileView { home, ..p };
                match recognized(template_values(q)) {
                    Err(e) => Err(e),
                    Ok(spans) => if let Some(e) = unknown_core(spans, 0) {
                        Err(e)
                    } else if let Some(e) = key_fault(table::keys(q.labels), 0) {
                        Err(e)
                    } else if spans.len() == 0 {
                        Ok(q)
                    } else {
                        match project {
                            None => Err(ErrorView::Profile("template requires project context"@)),
                            Some(project) => match resolved(
                                spans,
                                Providers { home, project, supplements, host_home },
                            ) {
                                Err(e) => Err(e),
                                Ok(values) => Ok(substituted_profile(q, spans, values)),
                            },
                        }
                    },
                }
            },
        },
    }
}

// ---------------------------------------------------------------------
// Lemmas
// ---------------------------------------------------------------------

/// Whether every span of the pieces is among the known ones.
pub open spec fn covered(parts: Seq<PartView>, spans: Seq<SpanView>) -> bool {
    forall|i: int|
        0 <= i < parts.len() ==> match #[trigger] parts[i] {
            PartView::Lit(_) => true,
            PartView::Name(raw) => classified(raw) is Ok && spans.contains(classified(raw)->Ok_0),
        }
}

/// Whether a text splits and all its spans are known.
pub open spec fn text_covered(s: Seq<char>, spans: Seq<SpanView>) -> bool {
    parts_of(s) is Ok && covered(parts_of(s)->Ok_0, spans)
}

proof fn lemma_covered_grows(parts: Seq<PartView>, a: Seq<SpanView>, b: Seq<SpanView>)
    requires
        covered(parts, a),
        forall|s: SpanView| a.contains(s) ==> b.contains(s),
    ensures
        covered(parts, b),
{
}

proof fn lemma_add_spans(known: Seq<SpanView>, parts: Seq<PartView>, field: Seq<char>)
    requires
        add_spans(known, parts, field) is Ok,
    ensures
        covered(parts, add_spans(known, parts, field)->Ok_0),
        forall|s: SpanView|
            known.contains(s) ==> add_spans(known, parts, field)->Ok_0.contains(s),
    decreases parts.len(),
{
    if parts.len() > 0 {
        let init = parts.drop_last();
        lemma_add_spans(known, init, field);
        let before = add_spans(known, init, field)->Ok_0;
        let after = add_spans(known, parts, field)->Ok_0;
        assert forall|s: SpanView| before.contains(s) implies after.contains(s) by {
            if after != before {
                let i = choose|i: int| 0 <= i < before.len() && before[i] == s;
                assert(after[i] == s);
            }
        }
        lemma_covered_grows(init, before, after);
        assert forall|i: int| 0 <= i < parts.len() implies match #[trigger] parts[i] {
            PartView::Lit(_) => true,
            PartView::Name(raw) => classified(raw) is Ok && after.contains(classified(raw)->Ok_0),
        } by {
            if i < init.len() {
                assert(init[i] == parts[i]);
            } else {
                assert(parts[i] == parts.last());
                match parts.last() {
                    PartView::Lit(_) => {},
                    PartView::Name(raw) => {
                        let span = classified(raw)->Ok_0;
                        if !before.contains(span) {
                            assert(after[before.len() as int] == span);
                        }
                    },
                }
            }
        }
    }
}

proof fn lemma_recognized(values: Seq<(Seq<char>, Seq<char>)>, i: int)
    requires
        recognized(values) is Ok,
        0 <= i < values.len(),
    ensures
        text_covered(values[i].1, recognized(values)->Ok_0),
    decreases values.len(),
{
    let init = values.drop_last();
    let before = recognized(init)->Ok_0;
    let parts = parts_of(values.last().1)->Ok_0;
    lemma_add_spans(before, parts, values.last().0);
    if i < init.len() {
        lemma_recognized(init, i);
        assert(init[i] == values[i]);
        lemma_covered_grows(parts_of(values[i].1)->Ok_0, before, recognized(values)->Ok_0);
    } else {
        assert(values[i] == values.last());
    }
}

proof fn lemma_recognized_error(values: Seq<(Seq<char>, Seq<char>)>, k: int)
    requires
        0 <= k <= values.len(),
        recognized(values.take(k)) is Err,
    ensures
        recognized(values) == recognized(values.take(k)),
    decreases values.len() - k,
{
    if k < values.len() {
        assert(values.take(k + 1).drop_last() =~= values.take(k));
        lemma_recognized_error(values, k + 1);
    } else {
        assert(values.take(k) =~= values);
    }
}

proof fn lemma_add_spans_error(known: Seq<SpanView>, parts: Seq<PartView>, field: Seq<char>, k: int)
    requires
        0 <= k <= parts.len(),
        add_spans(known, parts.take(k), field) is Err,
    ensures
        add_spans(known, parts, field) == add_spans(known, parts.take(k), field),
    decreases parts.len() - k,
{
    if k < parts.len() {
        assert(parts.take(k + 1).drop_last() =~= parts.take(k));
        lemma_add_spans_error(known, parts, field, k + 1);
    } else {
        assert(parts.take(k) =~= parts);
    }
}

proof fn lemma_resolved_error(spans: Seq<SpanView>, from: Providers, k: int)
    requires
        0 <= k <= spans.len(),
        resolved(spans.take(k), from) is Err,
    ensures
        resolved(spans, from) == resolved(spans.take(k), from),
    decreases spans.len() - k,
{
    if k < spans.len() {
        assert(spans.take(k + 1).drop_last() =~= spans.take(k));
        lemma_resolved_error(spans, from, k + 1);
    } else {
        assert(spans.take(k) =~= spans);
    }
}

proof fn lemma_resolved_len(spans: Seq<SpanView>, from: Providers)
    requires
        resolved(spans, from) is Ok,
    ensures
        resolved(spans, from)->Ok_0.len() == spans.len(),
    decreases spans.len(),
{
    if spans.len() > 0 {
        lemma_resolved_len(spans.drop_last(), from);
    }
}

/// Where the texts of a profile stand among its template values.
proof fn lemma_template_values_mount(p: ProfileView, i: int)
    requires
        0 <= i < p.mounts.len(),
    ensures
        mount_texts(p.mounts).len() == 2 * p.mounts.len(),
        2 * i + 1 < template_values(p).len(),
        template_values(p)[2 * i].1 == p.mounts[i].host,
        template_values(p)[2 * i + 1].1 == p.mounts[i].target,
{
    lemma_mount_texts(p.mounts, i);
    let m = mount_texts(p.mounts);
    assert(template_values(p)[2 * i] == m[2 * i]);
    assert(template_values(p)[2 * i + 1] == m[2 * i + 1]);
}

proof fn lemma_mount_texts(mounts: Seq<TripleView>, i: int)
    requires
        0 <= i < mounts.len(),
    ensures
        mount_texts(mounts).len() == 2 * mounts.len(),
        mount_texts(mounts)[2 * i].1 == mounts[i].host,
        mount_texts(mounts)[2 * i + 1].1 == mounts[i].target,
    decreases mounts.len(),
{
    let init = mounts.drop_last();
    lemma_mount_texts_len(init);
    let before = mount_texts(init);
    if i < init.len() {
        lemma_mount_texts(init, i);
        assert(mount_texts(mounts)[2 * i] == before[2 * i]);
        assert(mount_texts(mounts)[2 * i + 1] == before[2 * i + 1]);
    }
}

proof fn lemma_mount_texts_len(mounts: Seq<TripleView>)
    ensures
        mount_texts(mounts).len() == 2 * mounts.len(),
    decreases mounts.len(),
{
    if mounts.len() > 0 {
        lemma_mount_texts_len(mounts.drop_last());
    }
}

/// After recognition every text that substitution touches is covered.
proof fn lemma_profile_covered(p: ProfileView)
    requires
        recognized(template_values(p)) is Ok,
    ensures
        ({
            let spans = recognized(template_values(p))->Ok_0;
            &&& forall|i: int|
                0 <= i < p.mounts.len() ==> text_covered((#[trigger] p.mounts[i]).host, spans)
                    && text_covered(p.mounts[i].target, spans)
            &&& forall|i: int|
                0 <= i < argv_of(p.command).len() ==> text_covered(
                    #[trigger] argv_of(p.command)[i],
                    spans,
                )
            &&& forall|i: int|
                0 <= i < p.environment.len() ==> text_covered(
                    (#[trigger] p.environment[i]).1,
                    spans,
                )
            &&& forall|i: int|
                0 <= i < p.labels.len() ==> text_covered((#[trigger] p.labels[i]).1, spans)
        }),
{
    let values = template_values(p);
    let spans = recognized(values)->Ok_0;
    lemma_mount_texts_len(p.mounts);
    let n = 2 * p.mounts.len();
    let argv = argv_of(p.command);
    assert forall|i: int| 0 <= i < p.mounts.len() implies text_covered(
        (#[trigger] p.mounts[i]).host,
        spans,
    ) && text_covered(p.mounts[i].target, spans) by {
        lemma_template_values_mount(p, i);
        lemma_recognized(values, 2 * i);
        lemma_recognized(values, 2 * i + 1);
    }
    assert forall|i: int| 0 <= i < argv.len() implies text_covered(#[trigger] argv[i], spans) by {
        lemma_recognized(values, n + i);
        assert(values[n + i].1 == argv[i]);
    }
    assert forall|i: int| 0 <= i < p.environment.len() implies text_covered(
        (#[trigger] p.environment[i]).1,
        spans,
    ) by {
        lemma_recognized(values, n + argv.len() + i);
        assert(values[n + argv.len() + i].1 == p.environment[i].1);
    }
    assert forall|i: int| 0 <= i < p.labels.len() implies text_covered(
        (#[trigger] p.labels[i]).1,
        spans,
    ) by {
        let at = n + argv.len() + p.environment.len() + i;
        lemma_recognized(values, at);
        assert(values[at].1 == p.labels[i].1);
    }
}

// ---------------------------------------------------------------------
// Expansion
// ---------------------------------------------------------------------

fn has_span(spans: &Vec<ClassifiedSpan>, span: &ClassifiedSpan) -> (b: bool)
    ensures
        b == spans.deep_view().contains(span.deep_view()),
{
    let ghost all = spans.deep_view();
    let mut i: usize = 0;
    while i < spans.len()
        invariant
            all == spans.deep_view(),
            i <= spans@.len(),
            forall|k: int| 0 <= k < i ==> all[k] != span.deep_view(),
        decreases spans.len() - i,
    {
        assert(all[i as int] == spans@[i as int].deep_view());
        if same_span(&spans[i], span) {
            return true;
        }
        i = i + 1;
    }
    false
}

/// Adds the spans of one text to the known ones.
fn recognize_text(spans: &mut Vec<ClassifiedSpan>, field: &str, value: &str) -> (r: Result<()>)
    ensures
        match parts_of(value@) {
            Err(e) => r matches Err(x) && x@ == in_field(e, field@),
            Ok(parts) => match add_spans(old(spans).deep_view(), parts, field@) {
                Err(e) => r matches Err(x) && x@ == e,
                Ok(after) => r is Ok && final(spans).deep_view() == after,
            },
        },
{
    let parts = match split_spans(value) {
        Ok(p) => p,
        Err(e) => {
            return Err(name_field(e, field));
        },
    };
    let ghost pv = parts.deep_view();
    let ghost known = spans.deep_view();
    let mut k: usize = 0;
    assert(pv.take(0) =~= Seq::<PartView>::empty());
    while k < parts.len()
        invariant
            pv == parts.deep_view(),
            parts_of(value@) == std::result::Result::<Seq<PartView>, ErrorView>::Ok(pv),
            known == old(spans).deep_view(),
            k <= parts@.len(),
            add_spans(known, pv.take(k as int), field@) == std::result::Result::<
                Seq<SpanView>,
                ErrorView,
            >::Ok(spans.deep_view()),
        decreases parts.len() - k,
    {
        assert(pv.take(k + 1).drop_last() =~= pv.take(k as int));
        assert(pv.take(k + 1).last() == parts@[k as int].deep_view());
        let ghost before = spans.deep_view();
        match &parts[k] {
            Part::Lit(_) => {},
            Part::Name(raw) => match classify_span(raw.as_str()) {
                Err(e) => {
                    proof {
                        lemma_add_spans_error(known, pv, field@, k + 1);
                    }
                    return Err(name_field(e, field));
                },
                Ok(span) => {
                    if !has_span(spans, &span) {
                        spans.push(span);
                        assert(spans.deep_view() =~= before.push(span.deep_view()));
                    }
                },
            },
        }
        k = k + 1;
    }
    assert(pv.take(k as int) =~= pv);
    Ok(())
}

/// All template-bearing texts of a profile with their field.
fn texts_of(p: &Profile) -> (out: Vec<(String, String)>)
    ensures
        out.deep_view() == template_values(p.deep_view()),
{
    let ghost pv = p.deep_view();
    let mut out: Vec<(String, String)> = Vec::new();
    let mut k: usize = 0;
    assert(pv.mounts.take(0) =~= Seq::<TripleView>::empty());
    assert(out.deep_view() =~= mount_texts(pv.mounts.take(0)));
    while k < p.mounts.len()
        invariant
            pv == p.deep_view(),
            k <= p.mounts@.len(),
            out.deep_view() == mount_texts(pv.mounts.take(k as int)),
        decreases p.mounts.len() - k,
    {
        let ghost before = out.deep_view();
        assert(pv.mounts.take(k + 1).drop_last() =~= pv.mounts.take(k as int));
        assert(pv.mounts[k as int] == p.mounts@[k as int].deep_view());
        out.push(("mount host_source".to_owned(), p.mounts[k].host_source.clone()));
        out.push(("mount container_target".to_owned(), p.mounts[k].container_target.clone()));
        assert(out.deep_view() =~= before + seq![
            ("mount host_source"@, pv.mounts[k as int].host),
            ("mount container_target"@, pv.mounts[k as int].target),
        ]);
        k = k + 1;
    }
    assert(pv.mounts.take(k as int) =~= pv.mounts);
    let ghost a = out.deep_view();
    match &p.command {
        Some(c) => {
            push_texts(&mut out, "command argv", c);
        },
        None => {
            assert(a + labelled("command argv"@, Seq::<Seq<char>>::empty()) =~= a);
        },
    }
    push_table_side(&mut out, "env value", &p.environment_assignments, false);
    push_table_side(&mut out, "label value", &p.labels, false);
    push_table_side(&mut out, "label key", &p.labels, true);
    out
}

fn push_texts(out: &mut Vec<(String, String)>, field: &str, texts: &Vec<String>)
    ensures
        final(out).deep_view() == old(out).deep_view() + labelled(field@, texts.deep_view()),
{
    let ghost start = out.deep_view();
    let ghost all = labelled(field@, texts.deep_view());
    let mut i: usize = 0;
    assert(start + all.take(0) =~= start);
    while i < texts.len()
        invariant
            all == labelled(field@, texts.deep_view()),
            i <= texts@.len(),
            out.deep_view() =~= start + all.take(i as int),
        decreases texts.len() - i,
    {
        let ghost before = out.deep_view();
        out.push((field.to_owned(), texts[i].clone()));
        assert(out.deep_view() =~= before.push(all[i as int]));
        i = i + 1;
    }
    assert(all.take(i as int) =~= all);
}

fn push_table_side(
    out: &mut Vec<(String, String)>,
    field: &str,
    entries: &Vec<(String, String)>,
    key_side: bool,
)
    ensures
        final(out).deep_view() == old(out).deep_view() + labelled(
            field@,
            if key_side {
                table::keys(entries.deep_view())
            } else {
                table_values(entries.deep_view())
            },
        ),
{
    let ghost start = out.deep_view();
    let ghost side = if key_side {
        table::keys(entries.deep_view())
    } else {
        table_values(entries.deep_view())
    };
    let ghost all = labelled(field@, side);
    let mut i: usize = 0;
    assert(start + all.take(0) =~= start);
    while i < entries.len()
        invariant
            side == (if key_side {
                table::keys(entries.deep_view())
            } else {
                table_values(entries.deep_view())
            }),
            all == labelled(field@, side),
            i <= entries@.len(),
            out.deep_view() =~= start + all.take(i as int),
        decreases entries.len() - i,
    {
        let ghost before = out.deep_view();
        assert(entries.deep_view()[i as int] == entries@[i as int].deep_view());
        let t = if key_side {
            entries[i].0.clone()
        } else {
            entries[i].1.clone()
        };
        out.push((field.to_owned(), t));
        assert(out.deep_view() =~= before.push(all[i as int]));
        i = i + 1;
    }
    assert(all.take(i as int) =~= all);
}

/// Recognizes every span of a profile.
fn recognize(p: &Profile) -> (r: Result<Vec<ClassifiedSpan>>)
    ensures
        crate::error::agrees(r, recognized(template_values(p.deep_view()))),
{
    let texts = texts_of(p);
    let ghost all = template_values(p.deep_view());
    let mut spans: Vec<ClassifiedSpan> = Vec::new();
    let mut k: usize = 0;
    assert(all.take(0) =~= Seq::empty());
    assert(spans.deep_view() =~= Seq::<SpanView>::empty());
    while k < texts.len()
        invariant
            texts.deep_view() == all,
            all == template_values(p.deep_view()),
            k <= texts@.len(),
            recognized(all.take(k as int)) == std::result::Result::<Seq<SpanView>, ErrorView>::Ok(
                spans.deep_view(),
            ),
        decreases texts.len() - k,
    {
        assert(all.take(k + 1).drop_last() =~= all.take(k as int));
        assert(all.take(k + 1).last() == texts@[k as int].deep_view());
        match recognize_text(&mut spans, texts[k].0.as_str(), texts[k].1.as_str()) {
            Ok(_) => {},
            Err(e) => {
                proof {
                    lemma_recognized_error(all, k + 1);
                }
                return Err(e);
            },
        }
        k = k + 1;
    }
    assert(all.take(k as int) =~= all);
    Ok(spans)
}

fn check_core_names(spans: &Vec<ClassifiedSpan>) -> (r: Result<()>)
    ensures
        match unknown_core(spans.deep_view(), 0) {
            Some(e) => r matches Err(x) && x@ == e,
            None => r is Ok,
        },
{
    let ghost all = spans.deep_view();
    let mut k: usize = 0;
    while k < spans.len()
        invariant
            all == spans.deep_view(),
            k <= spans@.len(),
            unknown_core(all, 0) == unknown_core(all, k as int),
        decreases spans.len() - k,
    {
        assert(all[k as int] == spans@[k as int].deep_view());
        let name = spans[k].name.as_str();
        if spans[k].context == TemplateContext::Core && !(text::eq(name, "container-home")
            || text::eq(name, "host-home") || text::eq(name, "project-name")) {
            return Err(CistellaError::Profile(text::cat("unknown core template: ", name)));
        }
        k = k + 1;
    }
    Ok(())
}

fn first_span_name(parts: &Vec<Part>) -> (r: Option<String>)
    ensures
        r.deep_view() == first_name(parts.deep_view(), 0),
{
    let ghost all = parts.deep_view();
    let mut k: usize = 0;
    while k < parts.len()
        invariant
            all == parts.deep_view(),
            k <= parts@.len(),
            first_name(all, 0) == first_name(all, k as int),
        decreases parts.len() - k,
    {
        assert(all[k as int] == parts@[k as int].deep_view());
        match &parts[k] {
            Part::Name(raw) => {
                return Some(raw.clone());
            },
            Part::Lit(_) => {},
        }
        k = k + 1;
    }
    None
}

fn check_label_keys(labels: &Vec<(String, String)>) -> (r: Result<()>)
    ensures
        match key_fault(table::keys(labels.deep_view()), 0) {
            Some(e) => r matches Err(x) && x@ == e,
            None => r is Ok,
        },
{
    let ghost all = table::keys(labels.deep_view());
    let mut k: usize = 0;
    while k < labels.len()
        invariant
            all == table::keys(labels.deep_view()),
            k <= labels@.len(),
            key_fault(all, 0) == key_fault(all, k as int),
        decreases labels.len() - k,
    {
        assert(labels.deep_view()[k as int] == labels@[k as int].deep_view());
        assert(all[k as int] == labels@[k as int].0@);
        match split_spans(labels[k].0.as_str()) {
            Err(e) => {
                return Err(name_field(e, "label key"));
            },
            Ok(parts) => match first_span_name(&parts) {
                Some(raw) => {
                    return Err(
                        CistellaError::Profile(
                            text::cat3("template {{", raw.as_str(), "}} in label key"),
                        ),
                    );
                },
                None => {},
            },
        }
        k = k + 1;
    }
    Ok(())
}

fn resolve_span(
    span: &ClassifiedSpan,
    home: &str,
    project: ProjectName<'_>,
    supplements: &Supplements,
    host_home: Option<&str>,
) -> (r: Result<String>)
    ensures
        crate::error::agrees(
            r,
            span_value(
                span.deep_view(),
                (Providers {
                    home: home@,
                    project: project.deep_view(),
                    supplements: supplements@,
                    host_home: host_home.deep_view(),
                }),
            ),
        ),
{
    let name = span.name.as_str();
    match span.context {
        TemplateContext::Core => {
            if text::eq(name, "container-home") {
                Ok(home.to_owned())
            } else if text::eq(name, "host-home") {
                match host_home {
                    Some(v) => Ok(v.to_owned()),
                    None => Err(
                        CistellaError::Profile("HOME not set for template expansion".to_owned()),
                    ),
                }
            } else if text::eq(name, "project-name") {
                resolve_project_value(project)
            } else {
                Err(CistellaError::Profile(text::cat("unknown core template: ", name)))
            }
        },
        TemplateContext::Supplement => resolve_supplement(supplements, name),
        TemplateContext::Environment => resolve_environment(name, host_home),
    }
}

/// Values of the spans, resolved in first-seen order.
fn resolve_spans(
    spans: &Vec<ClassifiedSpan>,
    home: &str,
    project: ProjectName<'_>,
    supplements: &Supplements,
    host_home: Option<&str>,
) -> (r: Result<Vec<String>>)
    ensures
        crate::error::agrees(
            r,
            resolved(
                spans.deep_view(),
                (Providers {
                    home: home@,
                    project: project.deep_view(),
                    supplements: supplements@,
                    host_home: host_home.deep_view(),
                }),
            ),
        ),
{
    let ghost all = spans.deep_view();
    let ghost from = Providers {
        home: home@,
        project: project.deep_view(),
        supplements: supplements@,
        host_home: host_home.deep_view(),
    };
    let mut values: Vec<String> = Vec::new();
    let mut k: usize = 0;
    assert(all.take(0) =~= Seq::<SpanView>::empty());
    assert(values.deep_view() =~= Seq::<Seq<char>>::empty());
    while k < spans.len()
        invariant
            all == spans.deep_view(),
            from == (Providers {
                home: home@,
                project: project.deep_view(),
                supplements: supplements@,
                host_home: host_home.deep_view(),
            }),
            k <= spans@.len(),
            resolved(all.take(k as int), from) == std::result::Result::<
                Seq<Seq<char>>,
                ErrorView,
            >::Ok(values.deep_view()),
        decreases spans.len() - k,
    {
        let ghost before = values.deep_view();
        assert(all.take(k + 1).drop_last() =~= all.take(k as int));
        assert(all.take(k + 1).last() == spans@[k as int].deep_view());
        match resolve_span(&spans[k], home, project, supplements, host_home) {
            Ok(v) => {
                values.push(v);
                assert(values.deep_view() =~= before.push(v@));
            },
            Err(e) => {
                proof {
                    lemma_resolved_error(all, from, k + 1);
                }
                return Err(e);
            },
        }
        k = k + 1;
    }
    assert(all.take(k as int) =~= all);
    Ok(values)
}

/// Value of a known span.
fn find_value<'a>(
    spans: &Vec<ClassifiedSpan>,
    values: &'a Vec<String>,
    span: &ClassifiedSpan,
) -> (s: &'a str)
    requires
        spans.deep_view().contains(span.deep_view()),
        spans.deep_view().no_duplicates(),
        values@.len() == spans@.len(),
    ensures
        s@ == value_of(spans.deep_view(), values.deep_view(), span.deep_view()),
{
    let ghost all = spans.deep_view();
    let ghost at = all.index_of(span.deep_view());
    let mut i: usize = 0;
    while i < spans.len()
        invariant
            all == spans.deep_view(),
            at == all.index_of(span.deep_view()),
            all.contains(span.deep_view()),
            all.no_duplicates(),
            values@.len() == spans@.len(),
            i <= spans@.len(),
            forall|k: int| 0 <= k < i ==> all[k] != span.deep_view(),
        decreases spans.len() - i,
    {
        assert(all[i as int] == spans@[i as int].deep_view());
        if same_span(&spans[i], span) {
            assert(0 <= at < all.len() && all[at] == span.deep_view());
            assert(at == i);
            assert(values.deep_view()[i as int] == values@[i as int]@);
            return values[i].as_str();
        }
        i = i + 1;
    }
    assert(false);
    ""
}

/// Substitutes known spans into a text: single pass, no rescan.
fn substitute(value: &str, spans: &Vec<ClassifiedSpan>, values: &Vec<String>) -> (s: String)
    requires
        text_covered(value@, spans.deep_view()),
        spans.deep_view().no_duplicates(),
        values@.len() == spans@.len(),
    ensures
        s@ == substituted(value@, spans.deep_view(), values.deep_view()),
{
    let ghost sv = spans.deep_view();
    let ghost vv = values.deep_view();
    let parts = match split_spans(value) {
        Ok(p) => p,
        Err(_) => {
            assert(false);
            Vec::new()
        },
    };
    let ghost pv = parts.deep_view();
    let mut out = String::new();
    let mut k: usize = 0;
    assert(pv.take(0) =~= Seq::<PartView>::empty());
    while k < parts.len()
        invariant
            sv == spans.deep_view(),
            vv == values.deep_view(),
            pv == parts.deep_view(),
            covered(pv, sv),
            sv.no_duplicates(),
            values@.len() == spans@.len(),
            k <= parts@.len(),
            out@ == filled(pv.take(k as int), sv, vv),
        decreases parts.len() - k,
    {
        assert(pv.take(k + 1).drop_last() =~= pv.take(k as int));
        assert(pv.take(k + 1).last() == parts@[k as int].deep_view());
        assert(pv[k as int] == parts@[k as int].deep_view());
        match &parts[k] {
            Part::Lit(s) => {
                out = text::cat(out.as_str(), s.as_str());
            },
            Part::Name(raw) => match classify_span(raw.as_str()) {
                Ok(span) => {
                    out = text::cat(out.as_str(), find_value(spans, values, &span));
                },
                Err(_) => {
                    assert(false);
                },
            },
        }
        k = k + 1;
    }
    assert(pv.take(k as int) =~= pv);
    out
}

proof fn lemma_add_spans_distinct(known: Seq<SpanView>, parts: Seq<PartView>, field: Seq<char>)
    requires
        known.no_duplicates(),
        add_spans(known, parts, field) is Ok,
    ensures
        add_spans(known, parts, field)->Ok_0.no_duplicates(),
    decreases parts.len(),
{
    if parts.len() > 0 {
        lemma_add_spans_distinct(known, parts.drop_last(), field);
    }
}

proof fn lemma_recognized_distinct(values: Seq<(Seq<char>, Seq<char>)>)
    requires
        recognized(values) is Ok,
    ensures
        recognized(values)->Ok_0.no_duplicates(),
    decreases values.len(),
{
    if values.len() > 0 {
        lemma_recognized_distinct(values.drop_last());
        lemma_add_spans_distinct(
            recognized(values.drop_last())->Ok_0,
            parts_of(values.last().1)->Ok_0,
            values.last().0,
        );
    }
}

fn substitute_mounts(
    mounts: &Vec<MountTriple>,
    spans: &Vec<ClassifiedSpan>,
    values: &Vec<String>,
) -> (out: Vec<MountTriple>)
    requires
        forall|i: int|
            0 <= i < mounts.deep_view().len() ==> text_covered(
                (#[trigger] mounts.deep_view()[i]).host,
                spans.deep_view(),
            ) && text_covered(mounts.deep_view()[i].target, spans.deep_view()),
        spans.deep_view().no_duplicates(),
        values@.len() == spans@.len(),
    ensures
        out.deep_view() == mounts.deep_view().map_values(
            |t: TripleView|
                (TripleView {
                    host: substituted(t.host, spans.deep_view(), values.deep_view()),
                    target: substituted(t.target, spans.deep_view(), values.deep_view()),
                    mode: t.mode,
                }),
        ),
{
    let ghost all = mounts.deep_view();
    let ghost sv = spans.deep_view();
    let ghost vv = values.deep_view();
    let mut out: Vec<MountTriple> = Vec::new();
    let mut k: usize = 0;
    while k < mounts.len()
        invariant
            all == mounts.deep_view(),
            sv == spans.deep_view(),
            vv == values.deep_view(),
            forall|i: int|
                0 <= i < all.len() ==> text_covered((#[trigger] all[i]).host, sv) && text_covered(
                    all[i].target,
                    sv,
                ),
            sv.no_duplicates(),
            values@.len() == spans@.len(),
            k <= mounts@.len(),
            out@.len() == k,
            forall|i: int|
                0 <= i < k ==> (#[trigger] out@[i]).deep_view() == (TripleView {
                    host: substituted(all[i].host, sv, vv),
                    target: substituted(all[i].target, sv, vv),
                    mode: all[i].mode,
                }),
        decreases mounts.len() - k,
    {
        let t = &mounts[k];
        assert(all[k as int] == t.deep_view());
        out.push(
            MountTriple {
                host_source: substitute(t.host_source.as_str(), spans, values),
                container_target: substitute(t.container_target.as_str(), spans, values),
                mode: t.mode,
            },
        );
        k = k + 1;
    }
    assert(out.deep_view() =~= all.map_values(
        |t: TripleView|
            TripleView {
                host: substituted(t.host, sv, vv),
                target: substituted(t.target, sv, vv),
                mode: t.mode,
            },
    ));
    out
}

fn substitute_texts(
    texts: &Vec<String>,
    spans: &Vec<ClassifiedSpan>,
    values: &Vec<String>,
) -> (out: Vec<String>)
    requires
        forall|i: int|
            0 <= i < texts.deep_view().len() ==> text_covered(
                #[trigger] texts.deep_view()[i],
                spans.deep_view(),
            ),
        spans.deep_view().no_duplicates(),
        values@.len() == spans@.len(),
    ensures
        out.deep_view() == texts.deep_view().map_values(
            |a: Seq<char>| substituted(a, spans.deep_view(), values.deep_view()),
        ),
{
    let ghost all = texts.deep_view();
    let ghost sv = spans.deep_view();
    let ghost vv = values.deep_view();
    let mut out: Vec<String> = Vec::new();
    let mut k: usize = 0;
    while k < texts.len()
        invariant
            all == texts.deep_view(),
            sv == spans.deep_view(),
            vv == values.deep_view(),
            forall|i: int| 0 <= i < all.len() ==> text_covered(#[trigger] all[i], sv),
            sv.no_duplicates(),
            values@.len() == spans@.len(),
            k <= texts@.len(),
            out@.len() == k,
            forall|i: int| 0 <= i < k ==> (#[trigger] out@[i])@ == substituted(all[i], sv, vv),
        decreases texts.len() - k,
    {
        assert(all[k as int] == texts@[k as int]@);
        out.push(substitute(texts[k].as_str(), spans, values));
        k = k + 1;
    }
    assert(out.deep_view() =~= all.map_values(|a: Seq<char>| substituted(a, sv, vv)));
    out
}

fn substitute_table(
    entries: &Vec<(String, String)>,
    spans: &Vec<ClassifiedSpan>,
    values: &Vec<String>,
) -> (out: Vec<(String, String)>)
    requires
        forall|i: int|
            0 <= i < entries.deep_view().len() ==> text_covered(
                (#[trigger] entries.deep_view()[i]).1,
                spans.deep_view(),
            ),
        spans.deep_view().no_duplicates(),
        values@.len() == spans@.len(),
    ensures
        out.deep_view() == entries.deep_view().map_values(
            |e: (Seq<char>, Seq<char>)|
                (e.0, substituted(e.1, spans.deep_view(), values.deep_view())),
        ),
{
    let ghost all = entries.deep_view();
    let ghost sv = spans.deep_view();
    let ghost vv = values.deep_view();
    let mut out: Vec<(String, String)> = Vec::new();
    let mut k: usize = 0;
    while k < entries.len()
        invariant
            all == entries.deep_view(),
            sv == spans.deep_view(),
            vv == values.deep_view(),
            forall|i: int| 0 <= i < all.len() ==> text_covered((#[trigger] all[i]).1, sv),
            sv.no_duplicates(),
            values@.len() == spans@.len(),
            k <= entries@.len(),
            out@.len() == k,
            forall|i: int|
                0 <= i < k ==> (#[trigger] out@[i]).deep_view() == (
                    all[i].0,
                    substituted(all[i].1, sv, vv),
                ),
        decreases entries.len() - k,
    {
        assert(all[k as int] == entries@[k as int].deep_view());
        let v = substitute(entries[k].1.as_str(), spans, values);
        out.push((entries[k].0.clone(), v));
        k = k + 1;
    }
    assert(out.deep_view() =~= all.map_values(
        |e: (Seq<char>, Seq<char>)| (e.0, substituted(e.1, sv, vv)),
    ));
    out
}

/// Expands `{{context:name}}` templates in mount triples, command argv, env
/// values, and label values, after the `container-home` early phase.
///
/// `project` is `Some` on the conduct path and `None` for context-free
/// callers: with `None`, template-free profiles pass through and
/// template-bearing profiles are a typed error. `host_home` is the host's
/// `HOME`.
///
/// Structural span errors (unterminated, bare, unknown-context,
/// unknown-core) outrank every resolution error; values resolve in
/// first-seen order; substitution is a single pass with no rescan, so
/// brace-shaped values stay literal.
pub fn expand_templates(
    p: Profile,
    project: Option<ProjectName<'_>>,
    supplements: &Supplements,
    host_home: Option<&str>,
) -> (r: Result<Profile>)
    ensures
        crate::error::agrees(
            r,
            expanded(p.deep_view(), project.deep_view(), supplements@, host_home.deep_view()),
        ),
{
    let early = match expand_early_home(p.container_home.as_str(), supplements, host_home) {
        Ok(h) => h,
        Err(e) => {
            return Err(e);
        },
    };
    let home = match profile::normalize_container_home(early.as_str()) {
        Ok(h) => h,
        Err(e) => {
            return Err(e);
        },
    };
    let ghost q = ProfileView { home: home@, ..p.deep_view() };
    let mut p = p;
    p.container_home = home;
    assert(p.deep_view() == q);
    let spans = match recognize(&p) {
        Ok(s) => s,
        Err(e) => {
            return Err(e);
        },
    };
    match check_core_names(&spans) {
        Ok(_) => {},
        Err(e) => {
            return Err(e);
        },
    }
    match check_label_keys(&p.labels) {
        Ok(_) => {},
        Err(e) => {
            return Err(e);
        },
    }
    if spans.len() == 0 {
        return Ok(p);
    }
    let project = match project {
        Some(n) => n,
        None => {
            return Err(CistellaError::Profile("template requires project context".to_owned()));
        },
    };
    let values = match resolve_spans(
        &spans,
        p.container_home.as_str(),
        project,
        supplements,
        host_home,
    ) {
        Ok(v) => v,
        Err(e) => {
            return Err(e);
        },
    };
    proof {
        lemma_recognized_distinct(template_values(q));
        lemma_profile_covered(q);
        lemma_resolved_len(
            spans.deep_view(),
            Providers {
                home: q.home,
                project: project.deep_view(),
                supplements: supplements@,
                host_home: host_home.deep_view(),
            },
        );
        assert(values@.len() == values.deep_view().len());
        assert(spans@.len() == spans.deep_view().len());
    }
    let mounts = substitute_mounts(&p.mounts, &spans, &values);
    let command = match &p.command {
        Some(c) => {
            assert(argv_of(q.command) == c.deep_view());
            Some(substitute_texts(c, &spans, &values))
        },
        None => None,
    };
    let environment = substitute_table(&p.environment_assignments, &spans, &values);
    let labels = substitute_table(&p.labels, &spans, &values);
    let out = Profile {
        image: p.image,
        mounts,
        command,
        environment_assignments: environment,
        environment_acceptances: p.environment_acceptances,
        credential_surface: p.credential_surface,
        container_home: p.container_home,
        labels,
    };
    assert(out.deep_view() == substituted_profile(q, spans.deep_view(), values.deep_view()));
    Ok(out)
}

// ---------------------------------------------------------------------
// Laws
// ---------------------------------------------------------------------

/// A text without `{{` comes out of substitution unchanged.
pub proof fn law_span_free_text_unchanged(
    s: Seq<char>,
    spans: Seq<SpanView>,
    values: Seq<Seq<char>>,
)
    requires
        !text::occurs("{{"@, s),
    ensures
        substituted(s, spans, values) == s,
{
    law_span_free_text_is_literal(s);
    if s.len() > 0 {
        let parts = literal(s);
        assert(parts.drop_last() =~= Seq::<PartView>::empty());
        assert(filled(parts.drop_last(), spans, values) =~= Seq::<char>::empty());
        assert(Seq::<char>::empty() + s =~= s);
    } else {
        assert(s =~= Seq::<char>::empty());
    }
}

proof fn lemma_span_free_texts(values: Seq<(Seq<char>, Seq<char>)>)
    requires
        forall|i: int| 0 <= i < values.len() ==> !text::occurs("{{"@, (#[trigger] values[i]).1),
    ensures
        recognized(values) == std::result::Result::<Seq<SpanView>, ErrorView>::Ok(Seq::empty()),
    decreases values.len(),
{
    if values.len() > 0 {
        let front = values.drop_last();
        assert forall|i: int| 0 <= i < front.len() implies !text::occurs(
            "{{"@,
            (#[trigger] front[i]).1,
        ) by {
            assert(front[i] == values[i]);
        }
        lemma_span_free_texts(front);
        let s = values.last().1;
        law_span_free_text_is_literal(s);
        if s.len() > 0 {
            let parts = literal(s);
            assert(parts.drop_last() =~= Seq::<PartView>::empty());
            assert(add_spans(Seq::empty(), parts.drop_last(), values.last().0) is Ok);
        }
    }
}

proof fn lemma_span_free_keys(keys: Seq<Seq<char>>, k: int)
    requires
        0 <= k,
        forall|i: int| 0 <= i < keys.len() ==> !text::occurs("{{"@, #[trigger] keys[i]),
    ensures
        key_fault(keys, k) is None,
    decreases keys.len() - k,
{
    if k < keys.len() {
        law_span_free_text_is_literal(keys[k]);
        assert(first_name(literal(keys[k]), 1) is None);
        lemma_span_free_keys(keys, k + 1);
    }
}

/// A profile without `{{` expands to itself with its home normalized,
/// whatever the project, the supplements, and the host's environment: a
/// context that nothing refers to is never consulted.
pub proof fn law_span_free_profile_is_literal(
    p: ProfileView,
    project: Option<ProjectView>,
    supplements: Seq<(Seq<char>, Seq<char>)>,
    host_home: Option<Seq<char>>,
)
    requires
        !text::occurs("{{"@, p.home),
        forall|i: int|
            0 <= i < template_values(p).len() ==> !text::occurs(
                "{{"@,
                (#[trigger] template_values(p)[i]).1,
            ),
    ensures
        expanded(p, project, supplements, host_home) == match profile::normalized_home(p.home) {
            Err(e) => Err(e),
            Ok(home) => Ok(ProfileView { home, ..p }),
        },
{
    law_span_free_text_is_literal(p.home);
    if p.home.len() > 0 {
        let parts = literal(p.home);
        assert(parts.drop_last() =~= Seq::<PartView>::empty());
        assert(early_text(parts.drop_last(), supplements, host_home) == std::result::Result::<
            Seq<char>,
            ErrorView,
        >::Ok(Seq::empty()));
        assert(Seq::<char>::empty() + p.home =~= p.home);
    } else {
        assert(p.home =~= Seq::<char>::empty());
    }
    lemma_span_free_texts(template_values(p));
    let keys = table::keys(p.labels);
    let n = template_values(p).len() - keys.len();
    assert forall|i: int| 0 <= i < keys.len() implies !text::occurs("{{"@, #[trigger] keys[i]) by {
        assert(template_values(p)[n + i].1 == keys[i]);
    }
    lemma_span_free_keys(keys, 0);
}

/// Substitution does not rescan: a text that is one span comes out as
/// exactly the value of that span, whatever that value holds.
pub proof fn law_no_rescan(
    s: Seq<char>,
    raw: Seq<char>,
    spans: Seq<SpanView>,
    values: Seq<Seq<char>>,
)
    requires
        parts_of(s) == std::result::Result::<Seq<PartView>, ErrorView>::Ok(
            seq![PartView::Name(raw)],
        ),
    ensures
        substituted(s, spans, values) == value_of(spans, values, classified(raw)->Ok_0),
{
    let parts = seq![PartView::Name(raw)];
    assert(parts.drop_last() =~= Seq::<PartView>::empty());
    assert(filled(parts.drop_last(), spans, values) =~= Seq::<char>::empty());
    let v = value_of(spans, values, classified(raw)->Ok_0);
    assert(Seq::<char>::empty() + v =~= v);
}

/// Structural span errors outrank resolution: when recognition refuses, or
/// a core name is unknown, the refusal does not depend on the project, nor
/// on any value beyond those of `container-home`.
pub proof fn law_structure_outranks_resolution(
    p: ProfileView,
    project: Option<ProjectView>,
    other: Option<ProjectView>,
    supplements: Seq<(Seq<char>, Seq<char>)>,
    host_home: Option<Seq<char>>,
)
    requires
        early_home(p.home, supplements, host_home) is Ok,
        profile::normalized_home(early_home(p.home, supplements, host_home)->Ok_0) is Ok,
        ({
            let texts = template_values(p);
            recognized(texts) is Err || unknown_core(recognized(texts)->Ok_0, 0) is Some
        }),
    ensures
        expanded(p, project, supplements, host_home) is Err,
        expanded(p, project, supplements, host_home) == expanded(
            p,
            other,
            supplements,
            host_home,
        ),
        recognized(template_values(p)) is Err ==> expanded(p, project, supplements, host_home)
            == std::result::Result::<ProfileView, ErrorView>::Err(
            recognized(template_values(p))->Err_0,
        ),
{
    let home = profile::normalized_home(early_home(p.home, supplements, host_home)->Ok_0)->Ok_0;
    let q = ProfileView { home, ..p };
    assert(template_values(q) == template_values(p));
}

// ---------------------------------------------------------------------
// What expansion puts in place of spans
// ---------------------------------------------------------------------

/// Whether a value is what the text between `{{` and `}}` stands for: the
/// container home, the host's home, the project name, a supplement of the
/// name, or the host's `HOME`. `core` holds the container home and the
/// project, where core names may be used.
pub open spec fn provides(
    inner: Seq<char>,
    v: Seq<char>,
    core: Option<(Seq<char>, ProjectView)>,
    supplements: Seq<(Seq<char>, Seq<char>)>,
    host_home: Option<Seq<char>>,
) -> bool {
    let span = text::trimmed(inner);
    let at = text::first_index(span, ':');
    let context = text::trimmed(span.take(at));
    let name = text::trimmed(span.skip(at + 1));
    &&& span.contains(':')
    &&& {
        ||| context == "core"@ && name == "container-home"@ && core is Some && (core->0).0 == v
        ||| context == "core"@ && name == "host-home"@ && core is Some && host_home == Some(v)
        ||| context == "core"@ && name == "project-name"@ && core is Some && names_project(
            (core->0).1,
            v,
        )
        ||| context == "supplement"@ && name.len() > 0 && table::lookup(supplements, name, 0)
            == Some(v)
        ||| context == "environment"@ && name == "HOME"@ && host_home == Some(v)
    }
}

/// Whether a value is the project's name: given, or the last name of the
/// directory, and made of letters, digits, dashes, underscores and dots.
pub open spec fn names_project(project: ProjectView, v: Seq<char>) -> bool {
    &&& match project {
        ProjectView::Explicit(name) => name == v,
        ProjectView::DirectoryDefault(directory) => crate::path::file_name(directory) == Some(v),
    }
    &&& v.len() > 0
    &&& text::all_in_class(v, true, true, true, "-_."@)
}

/// Whether an output is a text from a place on with every span replaced by
/// what it stands for, and all else as it was.
pub open spec fn fills(
    s: Seq<char>,
    k: int,
    out: Seq<char>,
    core: Option<(Seq<char>, ProjectView)>,
    supplements: Seq<(Seq<char>, Seq<char>)>,
    host_home: Option<Seq<char>>,
) -> bool
    decreases s.len() - k,
{
    let open = text::find_from(s, "{{"@, k);
    let close = text::find_from(s, "}}"@, open + 2);
    if k < 0 || k > s.len() {
        false
    } else if open < k {
        out == s.skip(k)
    } else {
        &&& open + 2 <= close <= s.len() - 2
        &&& exists|v: Seq<char>|
            {
                &&& #[trigger] provides(
                    s.subrange(open + 2, close),
                    v,
                    core,
                    supplements,
                    host_home,
                )
                &&& (s.subrange(k, open) + v).is_prefix_of(out)
                &&& fills(s, close + 2, out.skip(open - k + v.len()), core, supplements, host_home)
            }
    }
}

proof fn lemma_home_is_no_credential()
    ensures
        variable_name("HOME"@),
        !credential_shaped("HOME"@),
{
    reveal_strlit("HOME");
    reveal_strlit("_");
    reveal_strlit("SSH_AUTH_SOCK");
    reveal_strlit("_TOKEN");
    reveal_strlit("_SECRET");
    reveal_strlit("_KEY");
    reveal_strlit("_PASSWORD");
    reveal_strlit("CREDENTIAL");
    let h = "HOME"@;
    assert(h =~= seq!['H', 'O', 'M', 'E']);
    assert(upper(h) =~= h);
    assert(h.last() == 'E');
    assert("_TOKEN"@.last() == 'N' && "_SECRET"@.last() == 'T' && "_KEY"@.last() == 'Y');
    assert("_PASSWORD"@.last() == 'D');
    if "_KEY"@.is_suffix_of(h) {
        assert(h.subrange(h.len() - "_KEY"@.len(), h.len() as int).last() == h.last());
    }
    if text::occurs("CREDENTIAL"@, h) {
        let i = choose|i: int| text::occurs_at("CREDENTIAL"@, h, i);
        assert(i + 10 <= 4);
    }
}

proof fn lemma_provides(
    inner: Seq<char>,
    v: Seq<char>,
    from: Providers,
)
    ensures
        provides(inner, v, Some((from.home, from.project)), from.supplements, from.host_home)
            <==> classified(text::trimmed(inner)) is Ok && span_value(
            classified(text::trimmed(inner))->Ok_0,
            from,
        ) == std::result::Result::<Seq<char>, ErrorView>::Ok(v),
{
    lemma_home_is_no_credential();
    reveal_strlit("core");
    reveal_strlit("supplement");
    reveal_strlit("environment");
    reveal_strlit("container-home");
    reveal_strlit("host-home");
    reveal_strlit("project-name");
    reveal_strlit("HOME");
    assert("core"@.len() == 4 && "supplement"@.len() == 10 && "environment"@.len() == 11);
    assert("container-home"@.len() == 14 && "host-home"@.len() == 9 && "project-name"@.len() == 12);
    assert("HOME"@.len() == 4);
}

proof fn lemma_early_provides(
    inner: Seq<char>,
    v: Seq<char>,
    supplements: Seq<(Seq<char>, Seq<char>)>,
    host_home: Option<Seq<char>>,
)
    ensures
        provides(inner, v, None, supplements, host_home) <==> early_value(
            PartView::Name(text::trimmed(inner)),
            supplements,
            host_home,
        ) == std::result::Result::<Seq<char>, ErrorView>::Ok(v),
{
    lemma_home_is_no_credential();
    reveal_strlit("core");
    reveal_strlit("supplement");
    reveal_strlit("environment");
    reveal_strlit("HOME");
    assert("core"@.len() == 4 && "supplement"@.len() == 10 && "environment"@.len() == 11);
    assert("HOME"@.len() == 4);
}

proof fn lemma_filled_append(
    a: Seq<PartView>,
    b: Seq<PartView>,
    spans: Seq<SpanView>,
    values: Seq<Seq<char>>,
)
    ensures
        filled(a + b, spans, values) == filled(a, spans, values) + filled(b, spans, values),
    decreases b.len(),
{
    if b.len() == 0 {
        assert(a + b =~= a);
        assert(filled(a, spans, values) + filled(b, spans, values) =~= filled(a, spans, values));
    } else {
        lemma_filled_append(a, b.drop_last(), spans, values);
        assert((a + b).drop_last() =~= a + b.drop_last());
        assert((a + b).last() == b.last());
        assert(filled(a + b, spans, values) =~= filled(a, spans, values) + filled(
            b,
            spans,
            values,
        ));
    }
}

proof fn lemma_filled_literal(s: Seq<char>, spans: Seq<SpanView>, values: Seq<Seq<char>>)
    ensures
        filled(literal(s), spans, values) == s,
{
    if s.len() > 0 {
        let parts = literal(s);
        assert(parts.drop_last() =~= Seq::<PartView>::empty());
        assert(filled(parts.drop_last(), spans, values) =~= Seq::<char>::empty());
        assert(Seq::<char>::empty() + s =~= s);
    } else {
        assert(s =~= Seq::<char>::empty());
    }
}

/// Whether every value is what its span resolves to.
spec fn valued(spans: Seq<SpanView>, values: Seq<Seq<char>>, from: Providers) -> bool {
    &&& values.len() == spans.len()
    &&& forall|k: int|
        0 <= k < spans.len() ==> span_value(#[trigger] spans[k], from) == std::result::Result::<
            Seq<char>,
            ErrorView,
        >::Ok(values[k])
}

proof fn lemma_resolved_values(spans: Seq<SpanView>, from: Providers)
    requires
        resolved(spans, from) is Ok,
    ensures
        valued(spans, resolved(spans, from)->Ok_0, from),
    decreases spans.len(),
{
    if spans.len() > 0 {
        let t = spans.drop_last();
        lemma_resolved_values(t, from);
        lemma_resolved_len(t, from);
        let values = resolved(spans, from)->Ok_0;
        let before = resolved(t, from)->Ok_0;
        assert forall|k: int| 0 <= k < spans.len() implies span_value(#[trigger] spans[k], from)
            == std::result::Result::<Seq<char>, ErrorView>::Ok(values[k]) by {
            if k < t.len() {
                assert(t[k] == spans[k]);
                assert(values[k] == before[k]);
            }
        }
    }
}

proof fn lemma_fills(
    s: Seq<char>,
    k: int,
    spans: Seq<SpanView>,
    values: Seq<Seq<char>>,
    from: Providers,
)
    requires
        0 <= k <= s.len(),
        pieces(s, k) is Ok,
        covered(pieces(s, k)->Ok_0, spans),
        valued(spans, values, from),
    ensures
        fills(
            s,
            k,
            filled(pieces(s, k)->Ok_0, spans, values),
            Some((from.home, from.project)),
            from.supplements,
            from.host_home,
        ),
    decreases s.len() - k,
{
    reveal_strlit("{{");
    reveal_strlit("}}");
    let open = text::find_from(s, "{{"@, k);
    text::lemma_find_from(s, "{{"@, k);
    let parts = pieces(s, k)->Ok_0;
    if open < k {
        lemma_filled_literal(s.skip(k), spans, values);
    } else {
        let close = text::find_from(s, "}}"@, open + 2);
        text::lemma_find_from(s, "}}"@, open + 2);
        let rest = pieces(s, close + 2)->Ok_0;
        let lit = s.subrange(k, open);
        let inner = s.subrange(open + 2, close);
        let raw = text::trimmed(inner);
        let one = seq![PartView::Name(raw)];
        let n = literal(lit).len() as int;
        assert(parts == literal(lit) + one + rest);
        assert(parts[n] == PartView::Name(raw));
        let span = classified(raw)->Ok_0;
        assert(spans.contains(span));
        let at = spans.index_of(span);
        assert(spans[at] == span) by {
            let w = choose|w: int| 0 <= w < spans.len() && spans[w] == span;
            assert(spans[w] == span);
        }
        let v = values[at];
        lemma_provides(inner, v, from);
        assert(covered(rest, spans)) by {
            assert forall|i: int| 0 <= i < rest.len() implies match #[trigger] rest[i] {
                PartView::Lit(_) => true,
                PartView::Name(raw) => classified(raw) is Ok && spans.contains(
                    classified(raw)->Ok_0,
                ),
            } by {
                assert(parts[n + 1 + i] == rest[i]);
            }
        }
        lemma_fills(s, close + 2, spans, values, from);
        lemma_filled_append(literal(lit) + one, rest, spans, values);
        lemma_filled_append(literal(lit), one, spans, values);
        lemma_filled_literal(lit, spans, values);
        assert(one.drop_last() =~= Seq::<PartView>::empty());
        assert(filled(one.drop_last(), spans, values) =~= Seq::<char>::empty());
        assert(filled(one, spans, values) =~= v);
        let out = filled(parts, spans, values);
        let tail = filled(rest, spans, values);
        assert(out == lit + v + tail);
        assert((lit + v) =~= out.subrange(0, (lit + v).len() as int));
        assert(out.skip(open - k + v.len()) =~= tail);
        assert(provides(
            inner,
            v,
            Some((from.home, from.project)),
            from.supplements,
            from.host_home,
        ));
    }
}

proof fn lemma_text_fills(
    s: Seq<char>,
    spans: Seq<SpanView>,
    values: Seq<Seq<char>>,
    from: Providers,
)
    requires
        text_covered(s, spans),
        valued(spans, values, from),
    ensures
        fills(
            s,
            0,
            substituted(s, spans, values),
            Some((from.home, from.project)),
            from.supplements,
            from.host_home,
        ),
{
    lemma_fills(s, 0, spans, values, from);
}

/// Expansion replaces the spans of every mount side, command argument,
/// environment value and label value by what they stand for and changes
/// nothing else: modes, keys, the image, the accepted names and the agent
/// stay, and so does every text outside a span.
pub proof fn law_expansion_fills_every_text(
    p: ProfileView,
    project: ProjectView,
    supplements: Seq<(Seq<char>, Seq<char>)>,
    host_home: Option<Seq<char>>,
    q: ProfileView,
)
    requires
        expanded(p, Some(project), supplements, host_home) == std::result::Result::<
            ProfileView,
            ErrorView,
        >::Ok(q),
    ensures
        q.image == p.image,
        q.acceptances == p.acceptances,
        q.agent == p.agent,
        q.mounts.len() == p.mounts.len(),
        forall|i: int|
            0 <= i < p.mounts.len() ==> (#[trigger] q.mounts[i]).mode == p.mounts[i].mode && fills(
                p.mounts[i].host,
                0,
                q.mounts[i].host,
                Some((q.home, project)),
                supplements,
                host_home,
            ) && fills(
                p.mounts[i].target,
                0,
                q.mounts[i].target,
                Some((q.home, project)),
                supplements,
                host_home,
            ),
        q.command is Some <==> p.command is Some,
        p.command is Some ==> q.command->0.len() == p.command->0.len() && forall|i: int|
            0 <= i < p.command->0.len() ==> fills(
                p.command->0[i],
                0,
                #[trigger] q.command->0[i],
                Some((q.home, project)),
                supplements,
                host_home,
            ),
        q.environment.len() == p.environment.len(),
        forall|i: int|
            0 <= i < p.environment.len() ==> (#[trigger] q.environment[i]).0 == p.environment[i].0
                && fills(
                p.environment[i].1,
                0,
                q.environment[i].1,
                Some((q.home, project)),
                supplements,
                host_home,
            ),
        q.labels.len() == p.labels.len(),
        forall|i: int|
            0 <= i < p.labels.len() ==> (#[trigger] q.labels[i]).0 == p.labels[i].0 && fills(
                p.labels[i].1,
                0,
                q.labels[i].1,
                Some((q.home, project)),
                supplements,
                host_home,
            ),
{
    let home = q.home;
    let b = ProfileView { home, ..p };
    let spans = recognized(template_values(b))->Ok_0;
    let from = Providers { home, project, supplements, host_home };
    lemma_profile_covered(b);
    let values = if spans.len() == 0 {
        Seq::empty()
    } else {
        resolved(spans, from)->Ok_0
    };
    if spans.len() > 0 {
        lemma_resolved_values(spans, from);
    }
    assert(valued(spans, values, from));
    let core = Some((home, project));
    assert forall|s: Seq<char>| #[trigger] text_covered(s, spans) && spans.len() == 0 implies
        substituted(s, spans, values) == s by {
        lemma_spanless(s, 0, spans, values);
        assert(s.skip(0) =~= s);
    }
    assert forall|i: int| 0 <= i < p.mounts.len() implies (#[trigger] q.mounts[i]).mode
        == p.mounts[i].mode && fills(
        p.mounts[i].host,
        0,
        q.mounts[i].host,
        core,
        supplements,
        host_home,
    ) && fills(p.mounts[i].target, 0, q.mounts[i].target, core, supplements, host_home) by {
        assert(text_covered(b.mounts[i].host, spans) && text_covered(b.mounts[i].target, spans));
        lemma_text_fills(p.mounts[i].host, spans, values, from);
        lemma_text_fills(p.mounts[i].target, spans, values, from);
    }
    if p.command is Some {
        assert forall|i: int| 0 <= i < p.command->0.len() implies fills(
            p.command->0[i],
            0,
            #[trigger] q.command->0[i],
            core,
            supplements,
            host_home,
        ) by {
            assert(text_covered(argv_of(b.command)[i], spans));
            lemma_text_fills(p.command->0[i], spans, values, from);
        }
    }
    assert forall|i: int| 0 <= i < p.environment.len() implies (#[trigger] q.environment[i]).0
        == p.environment[i].0 && fills(
        p.environment[i].1,
        0,
        q.environment[i].1,
        core,
        supplements,
        host_home,
    ) by {
        assert(text_covered(b.environment[i].1, spans));
        lemma_text_fills(p.environment[i].1, spans, values, from);
    }
    assert forall|i: int| 0 <= i < p.labels.len() implies (#[trigger] q.labels[i]).0
        == p.labels[i].0 && fills(
        p.labels[i].1,
        0,
        q.labels[i].1,
        core,
        supplements,
        host_home,
    ) by {
        assert(text_covered(b.labels[i].1, spans));
        lemma_text_fills(p.labels[i].1, spans, values, from);
    }
}

proof fn lemma_spanless(s: Seq<char>, k: int, spans: Seq<SpanView>, values: Seq<Seq<char>>)
    requires
        0 <= k <= s.len(),
        pieces(s, k) is Ok,
        covered(pieces(s, k)->Ok_0, spans),
        spans.len() == 0,
    ensures
        filled(pieces(s, k)->Ok_0, spans, values) == s.skip(k),
{
    reveal_strlit("{{");
    reveal_strlit("}}");
    let open = text::find_from(s, "{{"@, k);
    text::lemma_find_from(s, "{{"@, k);
    if open < k {
        lemma_filled_literal(s.skip(k), spans, values);
    } else {
        let close = text::find_from(s, "}}"@, open + 2);
        let lit = s.subrange(k, open);
        let n = literal(lit).len() as int;
        let raw = text::trimmed(s.subrange(open + 2, close));
        assert(pieces(s, k)->Ok_0[n] == PartView::Name(raw));
    }
}

proof fn lemma_early_append(
    a: Seq<PartView>,
    b: Seq<PartView>,
    supplements: Seq<(Seq<char>, Seq<char>)>,
    host_home: Option<Seq<char>>,
)
    requires
        early_text(a + b, supplements, host_home) is Ok,
    ensures
        early_text(a, supplements, host_home) is Ok,
        early_text(b, supplements, host_home) is Ok,
        early_text(a + b, supplements, host_home)->Ok_0 == early_text(
            a,
            supplements,
            host_home,
        )->Ok_0 + early_text(b, supplements, host_home)->Ok_0,
    decreases b.len(),
{
    if b.len() == 0 {
        assert(a + b =~= a);
        let x = early_text(a, supplements, host_home)->Ok_0;
        assert(x + Seq::<char>::empty() =~= x);
    } else {
        assert((a + b).drop_last() =~= a + b.drop_last());
        assert((a + b).last() == b.last());
        lemma_early_append(a, b.drop_last(), supplements, host_home);
        assert(early_text(a + b, supplements, host_home)->Ok_0 =~= early_text(
            a,
            supplements,
            host_home,
        )->Ok_0 + early_text(b, supplements, host_home)->Ok_0);
    }
}

proof fn lemma_early_fills(
    s: Seq<char>,
    k: int,
    supplements: Seq<(Seq<char>, Seq<char>)>,
    host_home: Option<Seq<char>>,
)
    requires
        0 <= k <= s.len(),
        pieces(s, k) is Ok,
        early_text(pieces(s, k)->Ok_0, supplements, host_home) is Ok,
    ensures
        fills(
            s,
            k,
            early_text(pieces(s, k)->Ok_0, supplements, host_home)->Ok_0,
            None,
            supplements,
            host_home,
        ),
    decreases s.len() - k,
{
    reveal_strlit("{{");
    reveal_strlit("}}");
    let open = text::find_from(s, "{{"@, k);
    text::lemma_find_from(s, "{{"@, k);
    let parts = pieces(s, k)->Ok_0;
    let out = early_text(parts, supplements, host_home)->Ok_0;
    if open < k {
        let rest = s.skip(k);
        if rest.len() > 0 {
            assert(parts.drop_last() =~= Seq::<PartView>::empty());
            assert(early_text(parts.drop_last(), supplements, host_home)->Ok_0 =~= Seq::<
                char,
            >::empty());
            assert(Seq::<char>::empty() + rest =~= rest);
        }
        assert(out =~= rest);
    } else {
        let close = text::find_from(s, "}}"@, open + 2);
        text::lemma_find_from(s, "}}"@, open + 2);
        let rest = pieces(s, close + 2)->Ok_0;
        let lit = s.subrange(k, open);
        let inner = s.subrange(open + 2, close);
        let one = seq![PartView::Name(text::trimmed(inner))];
        assert(parts == literal(lit) + one + rest);
        lemma_early_append(literal(lit) + one, rest, supplements, host_home);
        lemma_early_append(literal(lit), one, supplements, host_home);
        assert(one.drop_last() =~= Seq::<PartView>::empty());
        let e = early_text(Seq::<PartView>::empty(), supplements, host_home)->Ok_0;
        assert(e =~= Seq::<char>::empty());
        let v = early_value(one.last(), supplements, host_home)->Ok_0;
        assert(early_text(one, supplements, host_home)->Ok_0 =~= v);
        if lit.len() > 0 {
            assert(literal(lit).drop_last() =~= Seq::<PartView>::empty());
            assert(early_text(literal(lit), supplements, host_home)->Ok_0 =~= lit);
        } else {
            assert(early_text(literal(lit), supplements, host_home)->Ok_0 =~= lit);
        }
        lemma_early_provides(inner, v, supplements, host_home);
        lemma_early_fills(s, close + 2, supplements, host_home);
        let tail = early_text(rest, supplements, host_home)->Ok_0;
        assert(out == lit + v + tail);
        assert((lit + v) =~= out.subrange(0, (lit + v).len() as int));
        assert(out.skip(open - k + v.len()) =~= tail);
        assert(provides(inner, v, None, supplements, host_home));
    }
}

/// The container home is expanded first, from supplements and the host's
/// `HOME` alone, and then made canonical; an empty one is `/home/cistella`.
pub proof fn law_expansion_settles_the_home(
    p: ProfileView,
    project: Option<ProjectView>,
    supplements: Seq<(Seq<char>, Seq<char>)>,
    host_home: Option<Seq<char>>,
    q: ProfileView,
)
    requires
        expanded(p, project, supplements, host_home) == std::result::Result::<
            ProfileView,
            ErrorView,
        >::Ok(q),
    ensures
        exists|home: Seq<char>|
            {
                &&& #[trigger] fills(p.home, 0, home, None, supplements, host_home)
                &&& text::trimmed(home).len() > 0 ==> home[0] == '/' && q.home
                    == crate::path::canonical(home)
                &&& text::trimmed(home).len() == 0 ==> q.home == crate::path::canonical(
                    "/home/cistella"@,
                )
            },
{
    lemma_early_fills(p.home, 0, supplements, host_home);
    let home = early_home(p.home, supplements, host_home)->Ok_0;
    assert(fills(p.home, 0, home, None, supplements, host_home));
}

/// A text with one span comes out as what stood before it, what the span
/// stands for, and what stood after it.
pub proof fn law_one_span_is_replaced(
    lit: Seq<char>,
    inner: Seq<char>,
    rest: Seq<char>,
    out: Seq<char>,
    core: Option<(Seq<char>, ProjectView)>,
    supplements: Seq<(Seq<char>, Seq<char>)>,
    host_home: Option<Seq<char>>,
)
    requires
        !lit.contains('{'),
        !inner.contains('}'),
        !text::occurs("{{"@, rest),
        fills(lit + "{{"@ + inner + "}}"@ + rest, 0, out, core, supplements, host_home),
    ensures
        exists|v: Seq<char>| #[trigger]
            provides(inner, v, core, supplements, host_home) && out == lit + v + rest,
{
    reveal_strlit("{{");
    reveal_strlit("}}");
    let s = lit + "{{"@ + inner + "}}"@ + rest;
    let n = lit.len() as int;
    let m = inner.len() as int;
    let open = text::find_from(s, "{{"@, 0);
    text::lemma_find_from(s, "{{"@, 0);
    assert(s.subrange(n, n + 2) =~= "{{"@);
    assert(text::occurs_at("{{"@, s, n));
    assert(open == n) by {
        if open < n {
            assert(s.subrange(open, open + 2)[0] == '{');
            assert(lit[open] == '{');
        }
    }
    let close = text::find_from(s, "}}"@, open + 2);
    text::lemma_find_from(s, "}}"@, open + 2);
    assert(s.subrange(n + 2 + m, n + 4 + m) =~= "}}"@);
    assert(text::occurs_at("}}"@, s, n + 2 + m));
    assert(close == n + 2 + m) by {
        if close < n + 2 + m {
            assert(s.subrange(close, close + 2)[0] == '}');
            assert(inner[close - n - 2] == '}');
        }
    }
    assert(s.subrange(open + 2, close) =~= inner);
    assert(s.subrange(0, open) =~= lit);
    let v = choose|v: Seq<char>|
        {
            &&& #[trigger] provides(s.subrange(open + 2, close), v, core, supplements, host_home)
            &&& (s.subrange(0, open) + v).is_prefix_of(out)
            &&& fills(s, close + 2, out.skip(open - 0 + v.len()), core, supplements, host_home)
        };
    let again = text::find_from(s, "{{"@, close + 2);
    text::lemma_find_from(s, "{{"@, close + 2);
    assert(again == -1) by {
        if again != -1 {
            let i = again - (close + 2);
            assert(s.subrange(again, again + 2) =~= rest.subrange(i, i + 2));
            assert(text::occurs_at("{{"@, rest, i));
        }
    }
    assert(s.skip(close + 2) =~= rest);
    assert((lit + v) =~= out.subrange(0, (lit + v).len() as int));
    assert(out =~= lit + v + rest) by {
        assert(out.skip(n + v.len()) == rest);
        assert(out =~= out.subrange(0, n + v.len()) + out.skip(n + v.len()));
    }
    assert(provides(inner, v, core, supplements, host_home));
}

proof fn lemma_trimmed_plain(s: Seq<char>)
    requires
        s.len() > 0,
        !text::is_space(s[0]),
        !text::is_space(s.last()),
    ensures
        text::trimmed(s) == s,
{
    text::lemma_trim_start(s, 0);
    assert(s.skip(0) =~= s);
    text::lemma_trim_end(s, s.len() as int);
    assert(s.take(s.len() as int) =~= s);
}

/// `{{core:container-home}}` stands for the container home,
/// `{{core:host-home}}` and `{{environment:HOME}}` for the host's home,
/// `{{core:project-name}}` for the project, and `{{supplement:name}}` for
/// the supplement of that name.
pub proof fn law_spans_name_their_values(
    v: Seq<char>,
    core: (Seq<char>, ProjectView),
    supplements: Seq<(Seq<char>, Seq<char>)>,
    host_home: Option<Seq<char>>,
    name: Seq<char>,
)
    requires
        name.len() > 0,
        !text::is_space(name[0]),
        !text::is_space(name.last()),
    ensures
        provides("core:container-home"@, v, Some(core), supplements, host_home) <==> v == core.0,
        provides("core:host-home"@, v, Some(core), supplements, host_home) <==> host_home
            == Some(v),
        provides("core:project-name"@, v, Some(core), supplements, host_home) <==> names_project(
            core.1,
            v,
        ),
        provides("environment:HOME"@, v, Some(core), supplements, host_home) <==> host_home
            == Some(v),
        provides("supplement:"@ + name, v, Some(core), supplements, host_home) <==> table::lookup(
            supplements,
            name,
            0,
        ) == Some(v),
{
    reveal_strlit("core");
    reveal_strlit("supplement");
    reveal_strlit("environment");
    reveal_strlit("container-home");
    reveal_strlit("host-home");
    reveal_strlit("project-name");
    reveal_strlit("HOME");
    reveal_strlit("core:container-home");
    reveal_strlit("core:host-home");
    reveal_strlit("core:project-name");
    reveal_strlit("environment:HOME");
    reveal_strlit("supplement:");
    assert("core"@.len() == 4 && "supplement"@.len() == 10 && "environment"@.len() == 11);
    assert("container-home"@.len() == 14 && "host-home"@.len() == 9 && "project-name"@.len() == 12);
    assert("HOME"@.len() == 4);
    lemma_span_sides("core:container-home"@, "core"@, "container-home"@);
    lemma_span_sides("core:host-home"@, "core"@, "host-home"@);
    lemma_span_sides("core:project-name"@, "core"@, "project-name"@);
    lemma_span_sides("environment:HOME"@, "environment"@, "HOME"@);
    lemma_span_sides("supplement:"@ + name, "supplement"@, name);
}

proof fn lemma_span_sides(inner: Seq<char>, context: Seq<char>, name: Seq<char>)
    requires
        inner =~= context + seq![':'] + name,
        context.len() > 0,
        !context.contains(':'),
        !text::is_space(context[0]),
        !text::is_space(context.last()),
        name.len() > 0,
        !text::is_space(name[0]),
        !text::is_space(name.last()),
    ensures
        text::trimmed(inner) == inner,
        inner.contains(':'),
        text::trimmed(inner.take(text::first_index(inner, ':'))) == context,
        text::trimmed(inner.skip(text::first_index(inner, ':') + 1)) == name,
{
    let n = context.len() as int;
    assert(inner[0] == context[0]);
    assert(inner.last() == name.last());
    lemma_trimmed_plain(inner);
    assert(inner[n] == ':');
    assert forall|j: int| 0 <= j < n implies inner[j] != ':' by {
        assert(inner[j] == context[j]);
        assert(context.contains(context[j]));
    }
    text::lemma_first_index_is(inner, ':', n);
    assert(inner.take(n) =~= context);
    assert(inner.skip(n + 1) =~= name);
    lemma_trimmed_plain(context);
    lemma_trimmed_plain(name);
}

/// A `--supplement` argument is a key and a value around its first equals
/// sign; keys of the driver's namespace are refused.
pub proof fn law_supplements_say_key_and_value(key: Seq<char>, value: Seq<char>, arg: Seq<char>)
    requires
        !key.contains('='),
    ensures
        arg == key + "="@ + value && key.len() > 0 && key != "cistella"@
            && !"cistella."@.is_prefix_of(key) && text::all_in_class(key, true, true, true, "-_. "@)
            <==> parsed_supplement(arg) == std::result::Result::<
            (Seq<char>, Seq<char>),
            ErrorView,
        >::Ok((key, value)),
{
    reveal_strlit("=");
    let n = key.len() as int;
    if arg == key + "="@ + value {
        assert(arg[n] == '=');
        assert(arg.contains('='));
        assert forall|j: int| 0 <= j < n implies arg[j] != '=' by {
            assert(arg[j] == key[j]);
            assert(key.contains(key[j]));
        }
        text::lemma_first_index_is(arg, '=', n);
        assert(arg.take(n) =~= key);
        assert(arg.skip(n + 1) =~= value);
    }
    if arg.contains('=') {
        text::lemma_first_index(arg, '=');
        let at = text::first_index(arg, '=');
        assert(arg =~= arg.take(at) + "="@ + arg.skip(at + 1));
    }
}

/// `{{core:host-home}}` in the host side of a mount becomes the host's home,
/// with what stands around it kept.
pub proof fn law_host_home_mounts(
    p: ProfileView,
    project: ProjectView,
    supplements: Seq<(Seq<char>, Seq<char>)>,
    home: Seq<char>,
    q: ProfileView,
    i: int,
    lit: Seq<char>,
    rest: Seq<char>,
)
    requires
        expanded(p, Some(project), supplements, Some(home)) == std::result::Result::<
            ProfileView,
            ErrorView,
        >::Ok(q),
        0 <= i < p.mounts.len(),
        !lit.contains('{'),
        !text::occurs("{{"@, rest),
        p.mounts[i].host == lit + "{{"@ + "core:host-home"@ + "}}"@ + rest,
    ensures
        q.mounts[i].host == lit + home + rest,
{
    reveal_strlit("core:host-home");
    law_expansion_fills_every_text(p, project, supplements, Some(home), q);
    assert(q.mounts[i].mode == p.mounts[i].mode);
    let core = Some((q.home, project));
    law_one_span_is_replaced(
        lit,
        "core:host-home"@,
        rest,
        q.mounts[i].host,
        core,
        supplements,
        Some(home),
    );
    let v = choose|v: Seq<char>| #[trigger]
        provides("core:host-home"@, v, core, supplements, Some(home)) && q.mounts[i].host == lit + v
            + rest;
    reveal_strlit("HOME");
    law_spans_name_their_values(v, (q.home, project), supplements, Some(home), "HOME"@);
}

/// Whether a text's spans all stand for something.
pub open spec fn fillable(
    s: Seq<char>,
    core: Option<(Seq<char>, ProjectView)>,
    supplements: Seq<(Seq<char>, Seq<char>)>,
    host_home: Option<Seq<char>>,
) -> bool {
    exists|out: Seq<char>| #[trigger] fills(s, 0, out, core, supplements, host_home)
}

/// Whether every name among parts resolves.
spec fn resolvable(parts: Seq<PartView>, from: Providers) -> bool {
    forall|i: int|
        0 <= i < parts.len() ==> match #[trigger] parts[i] {
            PartView::Lit(_) => true,
            PartView::Name(raw) => classified(raw) is Ok && span_value(
                classified(raw)->Ok_0,
                from,
            ) is Ok,
        }
}

spec fn all_resolve(spans: Seq<SpanView>, from: Providers) -> bool {
    forall|k: int| 0 <= k < spans.len() ==> span_value(#[trigger] spans[k], from) is Ok
}

proof fn lemma_fills_resolvable(s: Seq<char>, k: int, out: Seq<char>, from: Providers)
    requires
        0 <= k <= s.len(),
        fills(s, k, out, Some((from.home, from.project)), from.supplements, from.host_home),
    ensures
        pieces(s, k) is Ok,
        resolvable(pieces(s, k)->Ok_0, from),
    decreases s.len() - k,
{
    reveal_strlit("{{");
    reveal_strlit("}}");
    let core = Some((from.home, from.project));
    let open = text::find_from(s, "{{"@, k);
    text::lemma_find_from(s, "{{"@, k);
    if open >= k {
        let close = text::find_from(s, "}}"@, open + 2);
        let inner = s.subrange(open + 2, close);
        let v = choose|v: Seq<char>|
            {
                &&& #[trigger] provides(inner, v, core, from.supplements, from.host_home)
                &&& (s.subrange(k, open) + v).is_prefix_of(out)
                &&& fills(
                    s,
                    close + 2,
                    out.skip(open - k + v.len()),
                    core,
                    from.supplements,
                    from.host_home,
                )
            };
        lemma_provides(inner, v, from);
        lemma_fills_resolvable(s, close + 2, out.skip(open - k + v.len()), from);
        let rest = pieces(s, close + 2)->Ok_0;
        let head = literal(s.subrange(k, open)) + seq![PartView::Name(text::trimmed(inner))];
        let parts = pieces(s, k)->Ok_0;
        assert(parts == head + rest);
        assert forall|i: int| 0 <= i < parts.len() implies match #[trigger] parts[i] {
            PartView::Lit(_) => true,
            PartView::Name(raw) => classified(raw) is Ok && span_value(
                classified(raw)->Ok_0,
                from,
            ) is Ok,
        } by {
            if i >= head.len() {
                assert(parts[i] == rest[i - head.len()]);
            } else {
                assert(parts[i] == head[i]);
            }
        }
    }
}

proof fn lemma_add_spans_resolve(
    known: Seq<SpanView>,
    parts: Seq<PartView>,
    field: Seq<char>,
    from: Providers,
)
    requires
        all_resolve(known, from),
        resolvable(parts, from),
    ensures
        add_spans(known, parts, field) is Ok,
        all_resolve(add_spans(known, parts, field)->Ok_0, from),
    decreases parts.len(),
{
    if parts.len() > 0 {
        let t = parts.drop_last();
        assert forall|i: int| 0 <= i < t.len() implies match #[trigger] t[i] {
            PartView::Lit(_) => true,
            PartView::Name(raw) => classified(raw) is Ok && span_value(
                classified(raw)->Ok_0,
                from,
            ) is Ok,
        } by {
            assert(t[i] == parts[i]);
        }
        lemma_add_spans_resolve(known, t, field, from);
        assert(parts[parts.len() - 1] == parts.last());
        let before = add_spans(known, t, field)->Ok_0;
        let after = add_spans(known, parts, field)->Ok_0;
        assert forall|k: int| 0 <= k < after.len() implies span_value(
            #[trigger] after[k],
            from,
        ) is Ok by {
            if k < before.len() {
                assert(after[k] == before[k]);
            }
        }
    }
}

proof fn lemma_recognized_resolve(values: Seq<(Seq<char>, Seq<char>)>, from: Providers)
    requires
        forall|i: int|
            0 <= i < values.len() ==> parts_of((#[trigger] values[i]).1) is Ok && resolvable(
                parts_of(values[i].1)->Ok_0,
                from,
            ),
    ensures
        recognized(values) is Ok,
        all_resolve(recognized(values)->Ok_0, from),
    decreases values.len(),
{
    if values.len() > 0 {
        let t = values.drop_last();
        assert forall|i: int| 0 <= i < t.len() implies parts_of((#[trigger] t[i]).1) is Ok
            && resolvable(parts_of(t[i].1)->Ok_0, from) by {
            assert(t[i] == values[i]);
        }
        lemma_recognized_resolve(t, from);
        assert(values[values.len() - 1] == values.last());
        lemma_add_spans_resolve(
            recognized(t)->Ok_0,
            parts_of(values.last().1)->Ok_0,
            values.last().0,
            from,
        );
    }
}

proof fn lemma_all_resolved(spans: Seq<SpanView>, from: Providers, k: int)
    requires
        all_resolve(spans, from),
        0 <= k,
    ensures
        resolved(spans, from) is Ok,
        unknown_core(spans, k) is None,
    decreases spans.len(), spans.len() - k,
{
    if spans.len() > 0 {
        let t = spans.drop_last();
        assert forall|i: int| 0 <= i < t.len() implies span_value(#[trigger] t[i], from) is Ok by {
            assert(t[i] == spans[i]);
        }
        lemma_all_resolved(t, from, 0);
        assert(span_value(spans[spans.len() - 1], from) is Ok);
    }
    if k < spans.len() {
        assert(span_value(spans[k], from) is Ok);
        lemma_all_resolved(spans, from, k + 1);
    }
}

proof fn lemma_template_value(p: ProfileView, i: int)
    requires
        0 <= i < template_values(p).len(),
    ensures
        ({
            let s = template_values(p)[i].1;
            ||| exists|j: int| 0 <= j < p.mounts.len() && (#[trigger] p.mounts[j]).host == s
            ||| exists|j: int| 0 <= j < p.mounts.len() && (#[trigger] p.mounts[j]).target == s
            ||| exists|j: int| 0 <= j < argv_of(p.command).len() && #[trigger] argv_of(p.command)[j] == s
            ||| exists|j: int|
                0 <= j < p.environment.len() && (#[trigger] p.environment[j]).1 == s
            ||| exists|j: int| 0 <= j < p.labels.len() && (#[trigger] p.labels[j]).1 == s
            ||| exists|j: int| 0 <= j < p.labels.len() && (#[trigger] p.labels[j]).0 == s
        }),
{
    lemma_mount_texts_len(p.mounts);
    let n = 2 * p.mounts.len() as int;
    let a = argv_of(p.command).len() as int;
    let e = p.environment.len() as int;
    let l = p.labels.len() as int;
    let all = template_values(p);
    if i < n {
        lemma_template_values_mount(p, i / 2);
        if i % 2 == 0 {
            assert(p.mounts[i / 2].host == all[i].1);
        } else {
            assert(p.mounts[i / 2].target == all[i].1);
        }
    } else if i < n + a {
        assert(argv_of(p.command)[i - n] == all[i].1);
    } else if i < n + a + e {
        assert(p.environment[i - n - a].1 == all[i].1);
    } else if i < n + a + e + l {
        assert(p.labels[i - n - a - e].1 == all[i].1);
    } else {
        assert(p.labels[i - n - a - e - l].0 == all[i].1);
    }
}

/// A profile whose home settles, whose label keys hold no span and whose
/// other texts hold only spans that stand for something expands.
pub proof fn law_fillable_profiles_expand(
    p: ProfileView,
    project: ProjectView,
    supplements: Seq<(Seq<char>, Seq<char>)>,
    host_home: Option<Seq<char>>,
    early: Seq<char>,
    home: Seq<char>,
)
    requires
        early_home(p.home, supplements, host_home) == std::result::Result::<
            Seq<char>,
            ErrorView,
        >::Ok(early),
        profile::normalized_home(early) == std::result::Result::<Seq<char>, ErrorView>::Ok(home),
        forall|i: int|
            0 <= i < p.mounts.len() ==> fillable(
                (#[trigger] p.mounts[i]).host,
                Some((home, project)),
                supplements,
                host_home,
            ) && fillable(
                p.mounts[i].target,
                Some((home, project)),
                supplements,
                host_home,
            ),
        p.command is Some ==> forall|i: int|
            0 <= i < p.command->0.len() ==> fillable(
                #[trigger] p.command->0[i],
                Some((home, project)),
                supplements,
                host_home,
            ),
        forall|i: int|
            0 <= i < p.environment.len() ==> fillable(
                (#[trigger] p.environment[i]).1,
                Some((home, project)),
                supplements,
                host_home,
            ),
        forall|i: int|
            0 <= i < p.labels.len() ==> !text::occurs("{{"@, (#[trigger] p.labels[i]).0)
                && fillable(p.labels[i].1, Some((home, project)), supplements, host_home),
    ensures
        expanded(p, Some(project), supplements, host_home) is Ok,
{
    let q = ProfileView { home, ..p };
    let from = Providers { home, project, supplements, host_home };
    let core = Some((home, project));
    let values = template_values(q);
    assert forall|i: int| 0 <= i < values.len() implies parts_of((#[trigger] values[i]).1) is Ok
        && resolvable(parts_of(values[i].1)->Ok_0, from) by {
        let s = values[i].1;
        lemma_template_value(q, i);
        if exists|j: int| 0 <= j < q.labels.len() && (#[trigger] q.labels[j]).0 == s {
            let j = choose|j: int| 0 <= j < q.labels.len() && (#[trigger] q.labels[j]).0 == s;
            assert(p.labels[j] == q.labels[j]);
            law_span_free_text_is_literal(s);
        } else {
            if exists|j: int| 0 <= j < argv_of(q.command).len() && #[trigger] argv_of(q.command)[j] == s {
                let j = choose|j: int| 0 <= j < argv_of(q.command).len() && #[trigger] argv_of(q.command)[j] == s;
                assert(p.command->0[j] == s);
            }
            assert(fillable(s, core, supplements, host_home));
            let out = choose|out: Seq<char>| #[trigger]
                fills(s, 0, out, core, supplements, host_home);
            lemma_fills_resolvable(s, 0, out, from);
        }
    }
    lemma_recognized_resolve(values, from);
    let spans = recognized(values)->Ok_0;
    lemma_all_resolved(spans, from, 0);
    let keys = table::keys(q.labels);
    assert forall|i: int| 0 <= i < keys.len() implies !text::occurs("{{"@, #[trigger] keys[i]) by {
        assert(p.labels[i].0 == keys[i]);
    }
    lemma_span_free_keys(keys, 0);
}

/// A view says what the fields hold, each under its own name.
pub proof fn law_views_say_the_fields(
    classified_span: ClassifiedSpan,
    part_value: Part,
)
    ensures
        classified_span.deep_view().context == classified_span.context,
        classified_span.deep_view().name == classified_span.name@,
        part_value matches Part::Lit(s) ==> part_value.deep_view() == PartView::Lit(s@),
        part_value matches Part::Name(s) ==> part_value.deep_view() == PartView::Name(s@),
{
}

/// A name that ends in `_TOKEN`, `_SECRET`, `_KEY` or `_PASSWORD`, holds
/// `CREDENTIAL` or is `SSH_AUTH_SOCK` is a credential's, in either case; one in
/// which none of these stands is not.
pub proof fn law_credentials_are_known_by_name(a: Seq<char>, b: Seq<char>)
    ensures
        credential_shaped("SSH_AUTH_SOCK"@),
        credential_shaped(a + "_TOKEN"@),
        credential_shaped(a + "_SECRET"@),
        credential_shaped(a + "_KEY"@),
        credential_shaped(a + "_PASSWORD"@),
        credential_shaped(a + "CREDENTIAL"@ + b),
        credential_shaped(a + "_token"@),
        credential_shaped(a + "_secret"@),
        credential_shaped(a + "_key"@),
        credential_shaped(a + "_password"@),
        credential_shaped(a + "credential"@ + b),
        !text::occurs("_TOKEN"@, upper(a)) && !text::occurs("_SECRET"@, upper(a)) && !text::occurs(
            "_KEY"@,
            upper(a),
        ) && !text::occurs("_PASSWORD"@, upper(a)) && !text::occurs("CREDENTIAL"@, upper(a))
            && upper(a) != "SSH_AUTH_SOCK"@ ==> !credential_shaped(a),
{
    reveal_strlit("SSH_AUTH_SOCK");
    reveal_strlit("_TOKEN");
    reveal_strlit("_SECRET");
    reveal_strlit("_KEY");
    reveal_strlit("_PASSWORD");
    reveal_strlit("CREDENTIAL");
    reveal_strlit("_token");
    reveal_strlit("_secret");
    reveal_strlit("_key");
    reveal_strlit("_password");
    reveal_strlit("credential");
    assert(upper("SSH_AUTH_SOCK"@) =~= "SSH_AUTH_SOCK"@);
    assert(upper("_TOKEN"@) =~= "_TOKEN"@ && upper("_token"@) =~= "_TOKEN"@);
    assert(upper("_SECRET"@) =~= "_SECRET"@ && upper("_secret"@) =~= "_SECRET"@);
    assert(upper("_KEY"@) =~= "_KEY"@ && upper("_key"@) =~= "_KEY"@);
    assert(upper("_PASSWORD"@) =~= "_PASSWORD"@ && upper("_password"@) =~= "_PASSWORD"@);
    assert(upper("CREDENTIAL"@) =~= "CREDENTIAL"@ && upper("credential"@) =~= "CREDENTIAL"@);
    lemma_upper_ends(a, "_TOKEN"@);
    lemma_upper_ends(a, "_SECRET"@);
    lemma_upper_ends(a, "_KEY"@);
    lemma_upper_ends(a, "_PASSWORD"@);
    lemma_upper_ends(a, "_token"@);
    lemma_upper_ends(a, "_secret"@);
    lemma_upper_ends(a, "_key"@);
    lemma_upper_ends(a, "_password"@);
    let n = a.len() as int;
    let x = upper(a + "CREDENTIAL"@ + b);
    let y = upper(a + "credential"@ + b);
    assert(x.subrange(n, n + 10) =~= upper("CREDENTIAL"@));
    assert(y.subrange(n, n + 10) =~= upper("credential"@));
    assert(text::occurs_at("CREDENTIAL"@, x, n));
    assert(text::occurs_at("CREDENTIAL"@, y, n));
    lemma_suffixes_occur("_TOKEN"@, upper(a));
    lemma_suffixes_occur("_SECRET"@, upper(a));
    lemma_suffixes_occur("_KEY"@, upper(a));
    lemma_suffixes_occur("_PASSWORD"@, upper(a));
}

proof fn lemma_upper_ends(a: Seq<char>, end: Seq<char>)
    ensures
        upper(end).is_suffix_of(upper(a + end)),
{
    let u = upper(a + end);
    assert(u.subrange(u.len() - upper(end).len(), u.len() as int) =~= upper(end));
}

proof fn lemma_suffixes_occur(end: Seq<char>, s: Seq<char>)
    ensures
        end.is_suffix_of(s) ==> text::occurs(end, s),
{
    if end.is_suffix_of(s) {
        assert(text::occurs_at(end, s, s.len() - end.len()));
    }
}

} // verus!
