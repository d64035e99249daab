//! Policy lattice: user `policies.toml`, compiled defaults, evaluation.
//!
//! Severity (`suppressible`/`inviolable`) x scope (`universal`/
//! `on-extensions`) enforced at two gates: pre-merge contribution
//! admissibility and pre-exec enforcement. Precedence is site, then user,
//! then compiled defaults, with tighten-only movement downward. Exact-name
//! acknowledgements live in user policy only. Diagnostics name variables,
//! never values.
//!
//! Compiled defaults are suppressible only. The shipped default guards
//! push credentials (`GITHUB_TOKEN`, `GH_TOKEN`, `GITHUB_PAT`,
//! case-insensitive) at universal scope; profile `environment-acceptances`
//! entries are grandfathered against compiled-default rules only.
//!
//! The site layer is a seam: no compiled default masquerades as site
//! authority. [`PolicySet`] carries an (empty) site rule list as the hook
//! where a root-owned source binds later.

use vstd::prelude::*;

use crate::digest;
use crate::error::{CistellaError, ErrorView, Result};
use crate::framework::contract::{
    ClaimView,
    PolicyClaim,
    Provenance,
    ProvenanceView,
    Scope,
    Severity,
};
use crate::framework::pattern;
use crate::framework::pattern::Pattern;
use crate::path;
use crate::profile;
use crate::table;
use crate::text;

verus! {

/// User policy file format version (only version 1 exists).
pub const POLICY_FORMAT_VERSION: u32 = 1;

/// Compiled-default rule: token-shaped push credentials, any provenance.
pub const DEFAULT_TOKEN_PATTERN: &'static str = "(?i)^(GITHUB_TOKEN|GH_TOKEN|GITHUB_PAT)$";

/// One `[[denials]]` entry in user policy.
#[derive(Debug)]
pub struct DenialEntry {
    /// Regex matched against variable names.
    pub pattern: String,
    /// Claimed severity.
    pub severity: Severity,
    /// Claimed scope.
    pub scope: Scope,
}

/// What a denial entry says.
impl DeepView for DenialEntry {
    type V = ClaimView;

    open spec fn deep_view(&self) -> ClaimView {
        ClaimView { pattern: self.pattern@, severity: self.severity, scope: self.scope }
    }
}

/// One `[[acknowledgements]]` entry in user policy.
#[derive(Debug)]
pub struct AcknowledgementEntry {
    /// Exact variable name acknowledged (env-name grammar).
    pub name: String,
}

impl DeepView for AcknowledgementEntry {
    type V = Seq<char>;

    open spec fn deep_view(&self) -> Seq<char> {
        self.name@
    }
}

/// On-disk user policy file shape.
#[derive(Debug)]
pub struct PolicyFile {
    /// Must be [`POLICY_FORMAT_VERSION`].
    pub format_version: u32,
    /// Denial rules.
    pub denials: Vec<DenialEntry>,
    /// Exact-name acknowledgements.
    pub acknowledgements: Vec<AcknowledgementEntry>,
}

/// What a policy file says.
pub struct FileView {
    pub format_version: u32,
    pub denials: Seq<ClaimView>,
    pub acknowledgements: Seq<Seq<char>>,
}

impl DeepView for PolicyFile {
    type V = FileView;

    open spec fn deep_view(&self) -> FileView {
        FileView {
            format_version: self.format_version,
            denials: self.denials.deep_view(),
            acknowledgements: self.acknowledgements.deep_view(),
        }
    }
}

/// One compiled rule: pattern plus lattice position plus layer.
#[derive(Debug)]
pub struct Rule {
    pattern: Pattern,
    severity: Severity,
    scope: Scope,
    is_default: bool,
}

/// What a rule says.
pub struct RuleView {
    pub pattern: Seq<char>,
    pub severity: Severity,
    pub scope: Scope,
    pub is_default: bool,
}

impl DeepView for Rule {
    type V = RuleView;

    closed spec fn deep_view(&self) -> RuleView {
        RuleView {
            pattern: self.pattern@,
            severity: self.severity,
            scope: self.scope,
            is_default: self.is_default,
        }
    }
}

/// Loaded policy: site (seam), user, and compiled-default rules plus
/// exact-name acknowledgements and the file content hash (which joins the
/// plan baseline binding).
#[derive(Debug)]
pub struct PolicySet {
    site: Vec<Rule>,
    user: Vec<Rule>,
    defaults: Vec<Rule>,
    acknowledgements: Vec<String>,
    /// Hex hash of the file bytes, or of no bytes when the file is absent.
    pub source_hash: String,
}

/// What a policy says.
pub struct PolicyView {
    pub site: Seq<RuleView>,
    pub user: Seq<RuleView>,
    pub defaults: Seq<RuleView>,
    pub acknowledgements: Seq<Seq<char>>,
    pub source_hash: Seq<char>,
}

impl View for PolicySet {
    type V = PolicyView;

    closed spec fn view(&self) -> PolicyView {
        PolicyView {
            site: self.site.deep_view(),
            user: self.user.deep_view(),
            defaults: self.defaults.deep_view(),
            acknowledgements: self.acknowledgements.deep_view(),
            source_hash: self.source_hash@,
        }
    }
}

impl DeepView for PolicySet {
    type V = PolicyView;

    open spec fn deep_view(&self) -> PolicyView {
        self@
    }
}

/// One upheld transaction claim: compiled pattern plus lattice position.
///
/// Enforced like a rule for the transaction's contributions, without
/// grandfathering and without persistence beyond the transaction.
#[derive(Debug)]
pub struct UpheldClaim {
    /// Compiled claim pattern.
    pub pattern: Pattern,
    /// Claimed severity.
    pub severity: Severity,
    /// Claimed scope.
    pub scope: Scope,
}

impl DeepView for UpheldClaim {
    type V = ClaimView;

    open spec fn deep_view(&self) -> ClaimView {
        ClaimView { pattern: self.pattern@, severity: self.severity, scope: self.scope }
    }
}

// ---------------------------------------------------------------------
// Model of loading
// ---------------------------------------------------------------------

/// Compiled-default ruleset (suppressible only, by construction).
pub open spec fn default_rules_view() -> std::result::Result<Seq<RuleView>, ErrorView> {
    match pattern::regex_error(DEFAULT_TOKEN_PATTERN@) {
        Some(m) => Err(ErrorView::Contract("default pattern: "@ + m)),
        None => Ok(
            seq![
                RuleView {
                    pattern: DEFAULT_TOKEN_PATTERN@,
                    severity: Severity::Suppressible,
                    scope: Scope::Universal,
                    is_default: true,
                },
            ],
        ),
    }
}

/// The rule of a denial entry.
pub open spec fn user_rule(d: ClaimView) -> RuleView {
    RuleView { pattern: d.pattern, severity: d.severity, scope: d.scope, is_default: false }
}

/// Fault of denial `k`, with the ones before it accepted.
pub open spec fn denial_fault(denials: Seq<ClaimView>, k: int) -> Option<ErrorView> {
    let d = denials[k];
    if exists|j: int| 0 <= j < k && #[trigger] denials[j] == d {
        Some(ErrorView::Contract("policies.toml duplicate denial: "@ + d.pattern))
    } else if d.severity == Severity::Inviolable && d.scope == Scope::Universal {
        Some(ErrorView::Contract("policies.toml: inviolable universal is site-authority only"@))
    } else {
        match pattern::regex_error(d.pattern) {
            Some(m) => Some(
                ErrorView::Contract("policies.toml bad pattern "@ + d.pattern + ": "@ + m),
            ),
            None => None,
        }
    }
}

/// First fault of the denials from `k` on.
pub open spec fn first_denial_fault(denials: Seq<ClaimView>, k: int) -> Option<ErrorView>
    decreases denials.len() - k,
{
    if k < 0 || k >= denials.len() {
        None
    } else {
        match denial_fault(denials, k) {
            Some(e) => Some(e),
            None => first_denial_fault(denials, k + 1),
        }
    }
}

/// Fault of acknowledgement `k`, with the ones before it accepted.
pub open spec fn ack_fault(names: Seq<Seq<char>>, k: int) -> Option<ErrorView> {
    let n = names[k];
    if !profile::env_name(n) {
        Some(
            ErrorView::Contract(
                "policies.toml bad acknowledgement: "@ + profile::env_name_error(
                    n,
                    "acknowledgement"@,
                ).rendered(),
            ),
        )
    } else if exists|j: int| 0 <= j < k && #[trigger] names[j] == n {
        Some(ErrorView::Contract("policies.toml duplicate acknowledgement: "@ + n))
    } else {
        None
    }
}

/// First fault of the acknowledgements from `k` on.
pub open spec fn first_ack_fault(names: Seq<Seq<char>>, k: int) -> Option<ErrorView>
    decreases names.len() - k,
{
    if k < 0 || k >= names.len() {
        None
    } else {
        match ack_fault(names, k) {
            Some(e) => Some(e),
            None => first_ack_fault(names, k + 1),
        }
    }
}

/// First denial at or after `k` that narrows the compiled default: its
/// pattern, at extension scope.
pub open spec fn weakening(denials: Seq<ClaimView>, k: int) -> Option<ErrorView>
    decreases denials.len() - k,
{
    if k < 0 || k >= denials.len() {
        None
    } else if denials[k].pattern == DEFAULT_TOKEN_PATTERN@ && denials[k].scope
        == Scope::OnExtensions {
        Some(ErrorView::Contract("policies.toml weakens default rule: "@ + denials[k].pattern))
    } else {
        weakening(denials, k + 1)
    }
}

/// The policy of a decoded file.
pub open spec fn policy_of_file(file: FileView, hash: Seq<char>) -> std::result::Result<
    PolicyView,
    ErrorView,
> {
    if file.format_version != POLICY_FORMAT_VERSION {
        Err(
            ErrorView::Contract(
                "policies.toml format_version "@ + text::dec(file.format_version as nat)
                    + " unsupported (want 1)"@,
            ),
        )
    } else if let Some(e) = first_denial_fault(file.denials, 0) {
        Err(e)
    } else if let Some(e) = first_ack_fault(file.acknowledgements, 0) {
        Err(e)
    } else {
        match default_rules_view() {
            Err(e) => Err(e),
            Ok(defaults) => match weakening(file.denials, 0) {
                Some(e) => Err(e),
                None => Ok(
                    PolicyView {
                        site: Seq::empty(),
                        user: file.denials.map_values(|d: ClaimView| user_rule(d)),
                        defaults,
                        acknowledgements: file.acknowledgements,
                        source_hash: hash,
                    },
                ),
            },
        }
    }
}

/// Whether each rule stands in its layer: the compiled defaults carry the
/// default mark and are suppressible, and no site or user rule carries it.
pub open spec fn layered(p: PolicyView) -> bool {
    &&& forall|i: int| 0 <= i < p.site.len() ==> !(#[trigger] p.site[i]).is_default
    &&& forall|i: int| 0 <= i < p.user.len() ==> !(#[trigger] p.user[i]).is_default
    &&& forall|i: int|
        0 <= i < p.defaults.len() ==> (#[trigger] p.defaults[i]).is_default
            && p.defaults[i].severity == Severity::Suppressible
}

/// The policy of file bytes, with the TOML decoder's reading of them. No
/// bytes mean compiled defaults only.
pub open spec fn policy_of(
    bytes: Seq<u8>,
    decoded: std::result::Result<FileView, Seq<char>>,
) -> std::result::Result<PolicyView, ErrorView> {
    let hash = digest::digest_text(bytes);
    if bytes.len() == 0 {
        match default_rules_view() {
            Err(e) => Err(e),
            Ok(defaults) => Ok(
                PolicyView {
                    site: Seq::empty(),
                    user: Seq::empty(),
                    defaults,
                    acknowledgements: Seq::empty(),
                    source_hash: hash,
                },
            ),
        }
    } else if !vstd::utf8::valid_utf8(bytes) {
        Err(ErrorView::Contract("policies.toml is not UTF-8"@))
    } else {
        match decoded {
            Err(m) => Err(ErrorView::Contract("policies.toml: "@ + m)),
            Ok(file) => policy_of_file(file, hash),
        }
    }
}

/// What a decoder's reading says.
pub open spec fn decoded_view(
    r: std::result::Result<PolicyFile, String>,
) -> std::result::Result<FileView, Seq<char>> {
    match r {
        Ok(f) => Ok(f.deep_view()),
        Err(m) => Err(m@),
    }
}

// ---------------------------------------------------------------------
// Model of evaluation
// ---------------------------------------------------------------------

/// Severity name in diagnostics.
pub open spec fn severity_text(s: Severity) -> Seq<char> {
    match s {
        Severity::Suppressible => "Suppressible"@,
        Severity::Inviolable => "Inviolable"@,
    }
}

/// Scope name in diagnostics.
pub open spec fn scope_text(s: Scope) -> Seq<char> {
    match s {
        Scope::Universal => "Universal"@,
        Scope::OnExtensions => "OnExtensions"@,
    }
}

/// Value-free denial diagnostic: name, scope, severity.
pub open spec fn denial_error(name: Seq<char>, severity: Severity, scope: Scope) -> ErrorView {
    ErrorView::Contract(
        "policy refuses "@ + name + ": "@ + scope_text(scope) + " "@ + severity_text(severity),
    )
}

/// Whether a pattern at a scope reaches a variable of the provenance.
pub open spec fn reaches(
    pattern: Seq<char>,
    scope: Scope,
    name: Seq<char>,
    provenance: ProvenanceView,
) -> bool {
    pattern::regex_matches(pattern, name) && (scope == Scope::Universal || provenance is Extension)
}

/// Whether a rule refuses a variable.
pub open spec fn rule_refuses(
    rule: RuleView,
    name: Seq<char>,
    provenance: ProvenanceView,
    accepted: bool,
    acknowledged: bool,
) -> bool {
    &&& reaches(rule.pattern, rule.scope, name, provenance)
    &&& !(rule.is_default && accepted)
    &&& !(rule.severity == Severity::Suppressible && acknowledged)
}

/// First rule at or after `k` that refuses.
pub open spec fn first_refusing_rule(
    rules: Seq<RuleView>,
    name: Seq<char>,
    provenance: ProvenanceView,
    accepted: bool,
    acknowledged: bool,
    k: int,
) -> Option<ErrorView>
    decreases rules.len() - k,
{
    if k < 0 || k >= rules.len() {
        None
    } else if rule_refuses(rules[k], name, provenance, accepted, acknowledged) {
        Some(denial_error(name, rules[k].severity, rules[k].scope))
    } else {
        first_refusing_rule(rules, name, provenance, accepted, acknowledged, k + 1)
    }
}

/// First claim at or after `k` that refuses. Claims know no grandfathering.
pub open spec fn first_refusing_claim(
    claims: Seq<ClaimView>,
    name: Seq<char>,
    provenance: ProvenanceView,
    acknowledged: bool,
    k: int,
) -> Option<ErrorView>
    decreases claims.len() - k,
{
    if k < 0 || k >= claims.len() {
        None
    } else if reaches(claims[k].pattern, claims[k].scope, name, provenance) && !(claims[k].severity
        == Severity::Suppressible && acknowledged) {
        Some(denial_error(name, claims[k].severity, claims[k].scope))
    } else {
        first_refusing_claim(claims, name, provenance, acknowledged, k + 1)
    }
}

/// All rules of a policy in precedence order.
pub open spec fn all_rules(p: PolicyView) -> Seq<RuleView> {
    p.site + p.user + p.defaults
}

/// The refusal of a variable, if any: rules in precedence order, then
/// claims.
pub open spec fn refusal(
    p: PolicyView,
    name: Seq<char>,
    provenance: ProvenanceView,
    acceptances: Seq<Seq<char>>,
    claims: Seq<ClaimView>,
) -> Option<ErrorView> {
    let acknowledged = p.acknowledgements.contains(name);
    match first_refusing_rule(
        all_rules(p),
        name,
        provenance,
        acceptances.contains(name),
        acknowledged,
        0,
    ) {
        Some(e) => Some(e),
        None => first_refusing_claim(claims, name, provenance, acknowledged, 0),
    }
}

/// The first refusal among the variables from `k` on.
pub open spec fn first_refusal(
    p: PolicyView,
    names: Seq<(Seq<char>, ProvenanceView)>,
    acceptances: Seq<Seq<char>>,
    claims: Seq<ClaimView>,
    k: int,
) -> Option<ErrorView>
    decreases names.len() - k,
{
    if k < 0 || k >= names.len() {
        None
    } else {
        match refusal(p, names[k].0, names[k].1, acceptances, claims) {
            Some(e) => Some(e),
            None => first_refusal(p, names, acceptances, claims, k + 1),
        }
    }
}

// ---------------------------------------------------------------------
// Model of claims
// ---------------------------------------------------------------------

/// Severity rank for weakening comparison.
pub open spec fn severity_rank(s: Severity) -> int {
    match s {
        Severity::Suppressible => 0,
        Severity::Inviolable => 1,
    }
}

/// Scope width for weakening comparison.
pub open spec fn scope_width(s: Scope) -> int {
    match s {
        Scope::OnExtensions => 0,
        Scope::Universal => 1,
    }
}

/// Whether a claim is weaker than a rule on the same pattern.
pub open spec fn weaker_than(claim: ClaimView, rule: RuleView) -> bool {
    rule.pattern == claim.pattern && (severity_rank(rule.severity) > severity_rank(claim.severity)
        || scope_width(rule.scope) > scope_width(claim.scope))
}

/// Whether some rule is stricter than a claim on the same pattern.
pub open spec fn outranked(claim: ClaimView, rules: Seq<RuleView>) -> bool {
    exists|i: int| 0 <= i < rules.len() && weaker_than(claim, #[trigger] rules[i])
}

/// Whether a claim matches a contributed name.
pub open spec fn claim_matches(pattern: Seq<char>, contributed: Seq<Seq<char>>) -> bool {
    exists|i: int|
        0 <= i < contributed.len() && pattern::regex_matches(pattern, #[trigger] contributed[i])
}

/// What refuses a whole transaction over one claim, if anything.
pub open spec fn claim_fault(claim: ClaimView, contributed: Seq<Seq<char>>) -> Option<ErrorView> {
    if claim.pattern.len() == 0 {
        Some(ErrorView::Contract("policy claim pattern must not be empty"@))
    } else if claim.severity == Severity::Inviolable && claim.scope == Scope::Universal {
        Some(
            ErrorView::Contract("policy claim impersonates site authority: "@ + claim.pattern),
        )
    } else {
        match pattern::regex_error(claim.pattern) {
            Some(m) => Some(
                ErrorView::Contract("bad policy claim pattern "@ + claim.pattern + ": "@ + m),
            ),
            None => if !claim_matches(claim.pattern, contributed) {
                Some(
                    ErrorView::Contract(
                        "policy claim reaches beyond its transaction: "@ + claim.pattern,
                    ),
                )
            } else {
                None
            },
        }
    }
}

/// Diagnostic for a claim that a stricter rule outranks.
pub open spec fn discard_text(claim: ClaimView) -> Seq<char> {
    "discards weakening claim for "@ + claim.pattern + " ("@ + severity_text(claim.severity) + " "@
        + scope_text(claim.scope) + "): stricter rule governs"@
}

/// Upheld claims and diagnostics of a transaction, or its refusal.
pub open spec fn partitioned(
    rules: Seq<RuleView>,
    claims: Seq<ClaimView>,
    contributed: Seq<Seq<char>>,
) -> std::result::Result<(Seq<ClaimView>, Seq<Seq<char>>), ErrorView>
    decreases claims.len(),
{
    if claims.len() == 0 {
        Ok((Seq::empty(), Seq::empty()))
    } else {
        match partitioned(rules, claims.drop_last(), contributed) {
            Err(e) => Err(e),
            Ok((upheld, diagnostics)) => match claim_fault(claims.last(), contributed) {
                Some(e) => Err(e),
                None => if outranked(claims.last(), rules) {
                    Ok((upheld, diagnostics.push(discard_text(claims.last()))))
                } else {
                    Ok((upheld.push(claims.last()), diagnostics))
                },
            },
        }
    }
}

// ---------------------------------------------------------------------
// Loading
// ---------------------------------------------------------------------

fn default_rules() -> (r: Result<Vec<Rule>>)
    ensures
        crate::error::agrees(r, default_rules_view()),
{
    match Pattern::compile(DEFAULT_TOKEN_PATTERN) {
        Err(m) => Err(CistellaError::Contract(text::cat("default pattern: ", m.as_str()))),
        Ok(pattern) => {
            let mut rules: Vec<Rule> = Vec::new();
            rules.push(
                Rule {
                    pattern,
                    severity: Severity::Suppressible,
                    scope: Scope::Universal,
                    is_default: true,
                },
            );
            assert(rules.deep_view() =~= seq![
                RuleView {
                    pattern: DEFAULT_TOKEN_PATTERN@,
                    severity: Severity::Suppressible,
                    scope: Scope::Universal,
                    is_default: true,
                },
            ]);
            Ok(rules)
        },
    }
}

fn same_denial(a: &DenialEntry, b: &DenialEntry) -> (r: bool)
    ensures
        r == (a.deep_view() == b.deep_view()),
{
    text::eq(a.pattern.as_str(), b.pattern.as_str()) && a.severity == b.severity && a.scope
        == b.scope
}

fn repeats_earlier(denials: &Vec<DenialEntry>, k: usize) -> (b: bool)
    requires
        k < denials@.len(),
    ensures
        b == exists|j: int|
            0 <= j < k && #[trigger] denials.deep_view()[j] == denials.deep_view()[k as int],
{
    let ghost all = denials.deep_view();
    let mut j: usize = 0;
    while j < k
        invariant
            all == denials.deep_view(),
            k < denials@.len(),
            j <= k,
            forall|i: int| 0 <= i < j ==> #[trigger] all[i] != all[k as int],
        decreases k - j,
    {
        assert(all[j as int] == denials@[j as int].deep_view());
        assert(all[k as int] == denials@[k as int].deep_view());
        if same_denial(&denials[j], &denials[k]) {
            return true;
        }
        j = j + 1;
    }
    false
}

fn compile_denials(denials: &Vec<DenialEntry>) -> (r: Result<Vec<Rule>>)
    ensures
        match first_denial_fault(denials.deep_view(), 0) {
            Some(e) => r matches Err(x) && x@ == e,
            None => r matches Ok(v) && v.deep_view() == denials.deep_view().map_values(
                |d: ClaimView| user_rule(d),
            ),
        },
{
    let ghost all = denials.deep_view();
    let ghost to_rule = |d: ClaimView| user_rule(d);
    let mut user: Vec<Rule> = Vec::new();
    let mut k: usize = 0;
    while k < denials.len()
        invariant
            all == denials.deep_view(),
            to_rule == (|d: ClaimView| user_rule(d)),
            k <= denials@.len(),
            user.deep_view() =~= all.map_values(to_rule).take(k as int),
            first_denial_fault(all, 0) == first_denial_fault(all, k as int),
        decreases denials.len() - k,
    {
        let entry = &denials[k];
        let ghost before = user.deep_view();
        assert(all[k as int] == entry.deep_view());
        if repeats_earlier(denials, k) {
            return Err(
                CistellaError::Contract(
                    text::cat("policies.toml duplicate denial: ", entry.pattern.as_str()),
                ),
            );
        }
        if entry.severity == Severity::Inviolable && entry.scope == Scope::Universal {
            return Err(
                CistellaError::Contract(
                    "policies.toml: inviolable universal is site-authority only".to_owned(),
                ),
            );
        }
        match Pattern::compile(entry.pattern.as_str()) {
            Err(m) => {
                return Err(
                    CistellaError::Contract(
                        text::cat4(
                            "policies.toml bad pattern ",
                            entry.pattern.as_str(),
                            ": ",
                            m.as_str(),
                        ),
                    ),
                );
            },
            Ok(pattern) => {
                user.push(
                    Rule {
                        pattern,
                        severity: entry.severity,
                        scope: entry.scope,
                        is_default: false,
                    },
                );
            },
        }
        assert(user.deep_view() =~= before.push(user_rule(all[k as int])));
        k = k + 1;
    }
    assert(all.map_values(to_rule).take(k as int) =~= all.map_values(to_rule));
    Ok(user)
}

fn collect_acknowledgements(entries: &Vec<AcknowledgementEntry>) -> (r: Result<Vec<String>>)
    ensures
        match first_ack_fault(entries.deep_view(), 0) {
            Some(e) => r matches Err(x) && x@ == e,
            None => r matches Ok(v) && v.deep_view() == entries.deep_view(),
        },
{
    let ghost all = entries.deep_view();
    let mut names: Vec<String> = Vec::new();
    let mut k: usize = 0;
    while k < entries.len()
        invariant
            all == entries.deep_view(),
            k <= entries@.len(),
            names.deep_view() =~= all.take(k as int),
            first_ack_fault(all, 0) == first_ack_fault(all, k as int),
        decreases entries.len() - k,
    {
        let name = entries[k].name.as_str();
        let ghost before = names.deep_view();
        assert(all[k as int] == name@);
        match profile::validate_env_name(name, "acknowledgement") {
            Ok(_) => {},
            Err(e) => {
                return Err(
                    CistellaError::Contract(
                        text::cat("policies.toml bad acknowledgement: ", e.render().as_str()),
                    ),
                );
            },
        }
        if text::has_text(&names, name) {
            proof {
                let j = choose|j: int| 0 <= j < before.len() && before[j] == name@;
                assert(all[j] == name@);
            }
            return Err(
                CistellaError::Contract(
                    text::cat("policies.toml duplicate acknowledgement: ", name),
                ),
            );
        }
        assert(!(exists|j: int| 0 <= j < k && #[trigger] all[j] == name@)) by {
            if exists|j: int| 0 <= j < k && #[trigger] all[j] == name@ {
                let j = choose|j: int| 0 <= j < k && #[trigger] all[j] == name@;
                assert(before[j] == name@);
            }
        }
        names.push(name.to_owned());
        assert(names.deep_view() =~= before.push(all[k as int]));
        k = k + 1;
    }
    Ok(names)
}

/// Tighten-only downward: a user rule with the pattern of the compiled
/// default must not narrow its scope.
fn check_tighten_only(denials: &Vec<DenialEntry>) -> (r: Result<()>)
    ensures
        match weakening(denials.deep_view(), 0) {
            Some(e) => r matches Err(x) && x@ == e,
            None => r is Ok,
        },
{
    let ghost all = denials.deep_view();
    let mut k: usize = 0;
    while k < denials.len()
        invariant
            all == denials.deep_view(),
            k <= denials@.len(),
            weakening(all, 0) == weakening(all, k as int),
        decreases denials.len() - k,
    {
        let d = &denials[k];
        assert(all[k as int] == d.deep_view());
        if text::eq(d.pattern.as_str(), DEFAULT_TOKEN_PATTERN) && d.scope == Scope::OnExtensions {
            return Err(
                CistellaError::Contract(
                    text::cat("policies.toml weakens default rule: ", d.pattern.as_str()),
                ),
            );
        }
        k = k + 1;
    }
    Ok(())
}

/// What reading the policy file came to.
#[derive(Debug)]
pub enum PolicyRead {
    /// Its bytes.
    Bytes(Vec<u8>),
    /// There is none.
    NotFound,
    /// It could not be read, with the system's text.
    Failed(String),
}

impl PolicySet {
    /// The policy of a file as it was read: an absent file means compiled
    /// defaults only, an unreadable one refuses.
    pub fn load(
        path: &str,
        read: PolicyRead,
        decoded: std::result::Result<PolicyFile, String>,
    ) -> (r: Result<Self>)
        ensures
            match read {
                PolicyRead::Failed(m) => r matches Err(e) && e@ == ErrorView::Contract(
                    "read "@ + path@ + ": "@ + m@,
                ),
                PolicyRead::NotFound => crate::error::agrees(
                    r,
                    policy_of(Seq::empty(), decoded_view(decoded)),
                ),
                PolicyRead::Bytes(bytes) => crate::error::agrees(
                    r,
                    policy_of(bytes@, decoded_view(decoded)),
                ),
            },
    {
        match read {
            PolicyRead::Failed(m) => Err(
                CistellaError::Contract(text::cat4("read ", path, ": ", m.as_str())),
            ),
            PolicyRead::NotFound => {
                let none: Vec<u8> = Vec::new();
                assert(none@ =~= Seq::<u8>::empty());
                Self::parse(none.as_slice(), decoded)
            },
            PolicyRead::Bytes(bytes) => Self::parse(bytes.as_slice(), decoded),
        }
    }

    /// The policy of file bytes; `decoded` is the TOML decoder's reading of
    /// them (its message when it refused them). No bytes, which is what an
    /// absent file holds, mean compiled defaults only. Unknown versions,
    /// duplicate entries, bad patterns, a user `inviolable x universal`
    /// entry, and a rule that weakens a compiled default refuse.
    pub fn parse(bytes: &[u8], decoded: std::result::Result<PolicyFile, String>) -> (r: Result<
        Self,
    >)
        ensures
            crate::error::agrees(r, policy_of(bytes@, decoded_view(decoded))),
    {
        let source_hash = digest::sha256_hex(bytes);
        if bytes.len() == 0 {
            return match default_rules() {
                Err(e) => Err(e),
                Ok(defaults) => {
                    let p = PolicySet {
                        site: Vec::new(),
                        user: Vec::new(),
                        defaults,
                        acknowledgements: Vec::new(),
                        source_hash,
                    };
                    assert(p@.site =~= Seq::empty());
                    assert(p@.user =~= Seq::empty());
                    assert(p@.acknowledgements =~= Seq::empty());
                    Ok(p)
                },
            };
        }
        if !digest::is_utf8(bytes) {
            return Err(CistellaError::Contract("policies.toml is not UTF-8".to_owned()));
        }
        let file = match decoded {
            Ok(f) => f,
            Err(m) => {
                return Err(CistellaError::Contract(text::cat("policies.toml: ", m.as_str())));
            },
        };
        if file.format_version != POLICY_FORMAT_VERSION {
            return Err(
                CistellaError::Contract(
                    text::cat3(
                        "policies.toml format_version ",
                        text::dec_u64(file.format_version as u64).as_str(),
                        " unsupported (want 1)",
                    ),
                ),
            );
        }
        let user = match compile_denials(&file.denials) {
            Ok(v) => v,
            Err(e) => {
                return Err(e);
            },
        };
        let acknowledgements = match collect_acknowledgements(&file.acknowledgements) {
            Ok(v) => v,
            Err(e) => {
                return Err(e);
            },
        };
        let defaults = match default_rules() {
            Ok(v) => v,
            Err(e) => {
                return Err(e);
            },
        };
        match check_tighten_only(&file.denials) {
            Ok(_) => {},
            Err(e) => {
                return Err(e);
            },
        }
        let p = PolicySet { site: Vec::new(), user, defaults, acknowledgements, source_hash };
        assert(p@.site =~= Seq::empty());
        Ok(p)
    }

    /// Evaluates one variable against the lattice plus upheld transaction
    /// claims.
    ///
    /// `acceptances` carries the profile's `environment-acceptances`
    /// entries, grandfathered against compiled-default rules only. Upheld
    /// claims enforce like rules without grandfathering. Diagnostics name
    /// the variable, its scope, and its severity, never its value.
    pub fn evaluate(
        &self,
        name: &str,
        provenance: &Provenance,
        acceptances: &Vec<String>,
        claims: &[UpheldClaim],
    ) -> (r: Result<()>)
        ensures
            match refusal(
                self@,
                name@,
                provenance.deep_view(),
                acceptances.deep_view(),
                claims.deep_view(),
            ) {
                Some(e) => r matches Err(x) && x@ == e,
                None => r is Ok,
            },
    {
        let accepted = text::has_text(acceptances, name);
        let acknowledged = text::has_text(&self.acknowledgements, name);
        let ghost pv = provenance.deep_view();
        proof {
            lemma_chained(self@, name@, pv, accepted, acknowledged);
        }
        match refuse_by_rules(&self.site, name, provenance, accepted, acknowledged) {
            Ok(_) => {},
            Err(e) => {
                return Err(e);
            },
        }
        match refuse_by_rules(&self.user, name, provenance, accepted, acknowledged) {
            Ok(_) => {},
            Err(e) => {
                return Err(e);
            },
        }
        match refuse_by_rules(&self.defaults, name, provenance, accepted, acknowledged) {
            Ok(_) => {},
            Err(e) => {
                return Err(e);
            },
        }
        let ghost all = claims.deep_view();
        let mut k: usize = 0;
        while k < claims.len()
            invariant
                all == claims.deep_view(),
                pv == provenance.deep_view(),
                k <= claims@.len(),
                refusal(self@, name@, pv, acceptances.deep_view(), all) == first_refusing_claim(
                    all,
                    name@,
                    pv,
                    acknowledged,
                    k as int,
                ),
            decreases claims.len() - k,
        {
            let claim = &claims[k];
            assert(all[k as int] == claim.deep_view());
            if pattern_reaches(&claim.pattern, claim.scope, name, provenance) && !(claim.severity
                == Severity::Suppressible && acknowledged) {
                return Err(denial(name, claim.severity, claim.scope));
            }
            k = k + 1;
        }
        Ok(())
    }

    /// Partitions transaction claims against the lattice.
    ///
    /// Each claim compiles, must not impersonate site authority
    /// (`inviolable x universal`), and must match at least one contributed
    /// name; otherwise the whole transaction refuses. A claim weaker than a
    /// same-pattern rule is discarded with a diagnostic while the stricter
    /// rule governs.
    pub fn partition_claims(&self, claims: &Vec<PolicyClaim>, contributed: &Vec<String>) -> (r:
        Result<(Vec<UpheldClaim>, Vec<String>)>)
        ensures
            crate::error::agrees(
                r,
                partitioned(all_rules(self@), claims.deep_view(), contributed.deep_view()),
            ),
    {
        let ghost all = claims.deep_view();
        let ghost names = contributed.deep_view();
        let ghost rules = all_rules(self@);
        let mut upheld: Vec<UpheldClaim> = Vec::new();
        let mut diagnostics: Vec<String> = Vec::new();
        let mut k: usize = 0;
        assert(all.take(0) =~= Seq::<ClaimView>::empty());
        assert(upheld.deep_view() =~= Seq::<ClaimView>::empty());
        assert(diagnostics.deep_view() =~= Seq::<Seq<char>>::empty());
        while k < claims.len()
            invariant
                all == claims.deep_view(),
                names == contributed.deep_view(),
                rules == all_rules(self@),
                k <= claims@.len(),
                partitioned(rules, all.take(k as int), names) == std::result::Result::<
                    (Seq<ClaimView>, Seq<Seq<char>>),
                    ErrorView,
                >::Ok((upheld.deep_view(), diagnostics.deep_view())),
            decreases claims.len() - k,
        {
            let claim = &claims[k];
            let ghost u0 = upheld.deep_view();
            let ghost d0 = diagnostics.deep_view();
            assert(all.take(k + 1).drop_last() =~= all.take(k as int));
            assert(all.take(k + 1).last() == claim.deep_view());
            match admit_claim(claim, contributed) {
                Err(e) => {
                    proof {
                        lemma_partitioned_error(rules, all, names, k + 1);
                    }
                    return Err(e);
                },
                Ok(pattern) => {
                    proof {
                        lemma_outranked_chain(claim.deep_view(), self@);
                    }
                    if outranked_by(claim, &self.site) || outranked_by(claim, &self.user)
                        || outranked_by(claim, &self.defaults) {
                        diagnostics.push(
                            text::cat(
                                text::cat6(
                                    "discards weakening claim for ",
                                    claim.pattern.as_str(),
                                    " (",
                                    severity_name(claim.severity),
                                    " ",
                                    scope_name(claim.scope),
                                ).as_str(),
                                "): stricter rule governs",
                            ),
                        );
                        assert(diagnostics.deep_view() =~= d0.push(
                            discard_text(claim.deep_view()),
                        ));
                    } else {
                        upheld.push(
                            UpheldClaim { pattern, severity: claim.severity, scope: claim.scope },
                        );
                        assert(upheld.deep_view() =~= u0.push(claim.deep_view()));
                    }
                },
            }
            k = k + 1;
        }
        assert(all.take(k as int) =~= all);
        Ok((upheld, diagnostics))
    }
}

fn severity_name(s: Severity) -> (t: &'static str)
    ensures
        t@ == severity_text(s),
{
    match s {
        Severity::Suppressible => "Suppressible",
        Severity::Inviolable => "Inviolable",
    }
}

fn scope_name(s: Scope) -> (t: &'static str)
    ensures
        t@ == scope_text(s),
{
    match s {
        Scope::Universal => "Universal",
        Scope::OnExtensions => "OnExtensions",
    }
}

fn denial(name: &str, severity: Severity, scope: Scope) -> (e: CistellaError)
    ensures
        e@ == denial_error(name@, severity, scope),
{
    CistellaError::Contract(
        text::cat6(
            "policy refuses ",
            name,
            ": ",
            scope_name(scope),
            " ",
            severity_name(severity),
        ),
    )
}

fn pattern_reaches(pattern: &Pattern, scope: Scope, name: &str, provenance: &Provenance) -> (b:
    bool)
    ensures
        b == reaches(pattern@, scope, name@, provenance.deep_view()),
{
    if !pattern.is_match(name) {
        return false;
    }
    match scope {
        Scope::Universal => true,
        Scope::OnExtensions => match provenance {
            Provenance::Extension(_) => true,
            Provenance::Profile => false,
        },
    }
}

fn refuse_by_rules(
    rules: &Vec<Rule>,
    name: &str,
    provenance: &Provenance,
    accepted: bool,
    acknowledged: bool,
) -> (r: Result<()>)
    ensures
        match first_refusing_rule(
            rules.deep_view(),
            name@,
            provenance.deep_view(),
            accepted,
            acknowledged,
            0,
        ) {
            Some(e) => r matches Err(x) && x@ == e,
            None => r is Ok,
        },
{
    let ghost all = rules.deep_view();
    let ghost pv = provenance.deep_view();
    let mut k: usize = 0;
    while k < rules.len()
        invariant
            all == rules.deep_view(),
            pv == provenance.deep_view(),
            k <= rules@.len(),
            first_refusing_rule(all, name@, pv, accepted, acknowledged, 0) == first_refusing_rule(
                all,
                name@,
                pv,
                accepted,
                acknowledged,
                k as int,
            ),
        decreases rules.len() - k,
    {
        let rule = &rules[k];
        assert(all[k as int] == rule.deep_view());
        if pattern_reaches(&rule.pattern, rule.scope, name, provenance) && !(rule.is_default
            && accepted) && !(rule.severity == Severity::Suppressible && acknowledged) {
            return Err(denial(name, rule.severity, rule.scope));
        }
        k = k + 1;
    }
    Ok(())
}

fn admit_claim(claim: &PolicyClaim, contributed: &Vec<String>) -> (r: Result<Pattern>)
    ensures
        match claim_fault(claim.deep_view(), contributed.deep_view()) {
            Some(e) => r matches Err(x) && x@ == e,
            None => r matches Ok(p) && p@ == claim.pattern@,
        },
{
    if claim.pattern.as_str().is_empty() {
        return Err(CistellaError::Contract("policy claim pattern must not be empty".to_owned()));
    }
    if claim.severity == Severity::Inviolable && claim.scope == Scope::Universal {
        return Err(
            CistellaError::Contract(
                text::cat("policy claim impersonates site authority: ", claim.pattern.as_str()),
            ),
        );
    }
    let pattern = match Pattern::compile(claim.pattern.as_str()) {
        Ok(p) => p,
        Err(m) => {
            return Err(
                CistellaError::Contract(
                    text::cat4(
                        "bad policy claim pattern ",
                        claim.pattern.as_str(),
                        ": ",
                        m.as_str(),
                    ),
                ),
            );
        },
    };
    let ghost names = contributed.deep_view();
    let mut i: usize = 0;
    while i < contributed.len()
        invariant
            names == contributed.deep_view(),
            pattern@ == claim.pattern@,
            claim_fault(claim.deep_view(), names) == (if claim_matches(claim.pattern@, names) {
                None::<ErrorView>
            } else {
                Some(
                    ErrorView::Contract(
                        "policy claim reaches beyond its transaction: "@ + claim.pattern@,
                    ),
                )
            }),
            i <= contributed@.len(),
            forall|k: int|
                0 <= k < i ==> !pattern::regex_matches(claim.pattern@, #[trigger] names[k]),
        decreases contributed.len() - i,
    {
        assert(names[i as int] == contributed@[i as int]@);
        if pattern.is_match(contributed[i].as_str()) {
            return Ok(pattern);
        }
        i = i + 1;
    }
    Err(
        CistellaError::Contract(
            text::cat("policy claim reaches beyond its transaction: ", claim.pattern.as_str()),
        ),
    )
}

fn outranked_by(claim: &PolicyClaim, rules: &Vec<Rule>) -> (b: bool)
    ensures
        b == outranked(claim.deep_view(), rules.deep_view()),
{
    let ghost all = rules.deep_view();
    let mut k: usize = 0;
    while k < rules.len()
        invariant
            all == rules.deep_view(),
            k <= rules@.len(),
            forall|i: int| 0 <= i < k ==> !weaker_than(claim.deep_view(), #[trigger] all[i]),
        decreases rules.len() - k,
    {
        let rule = &rules[k];
        assert(all[k as int] == rule.deep_view());
        let stricter = match rule.severity {
            Severity::Inviolable => claim.severity == Severity::Suppressible,
            Severity::Suppressible => false,
        };
        let wider = match rule.scope {
            Scope::Universal => claim.scope == Scope::OnExtensions,
            Scope::OnExtensions => false,
        };
        if text::eq(rule.pattern.as_str(), claim.pattern.as_str()) && (stricter || wider) {
            assert(weaker_than(claim.deep_view(), all[k as int]));
            return true;
        }
        k = k + 1;
    }
    false
}

/// Names of the profile's acceptances, each once: exactly the names listed.
#[must_use]
pub fn acceptance_set(names: &Vec<String>) -> (set: Vec<String>)
    ensures
        set.deep_view().no_duplicates(),
        forall|n: Seq<char>|
            #![trigger set.deep_view().contains(n)]
            set.deep_view().contains(n) <==> names.deep_view().contains(n),
{
    let ghost all = names.deep_view();
    let mut set: Vec<String> = Vec::new();
    let mut k: usize = 0;
    while k < names.len()
        invariant
            all == names.deep_view(),
            k <= names@.len(),
            set.deep_view().no_duplicates(),
            forall|n: Seq<char>|
                #![trigger set.deep_view().contains(n)]
                set.deep_view().contains(n) <==> all.take(k as int).contains(n),
        decreases names.len() - k,
    {
        let ghost before = set.deep_view();
        assert(all[k as int] == names@[k as int]@);
        assert(all.take(k + 1) =~= all.take(k as int).push(all[k as int]));
        if !text::has_text(&set, names[k].as_str()) {
            set.push(names[k].clone());
            assert(set.deep_view() =~= before.push(all[k as int]));
        }
        assert forall|n: Seq<char>|
            #![trigger set.deep_view().contains(n)]
            set.deep_view().contains(n) <==> all.take(k + 1).contains(n) by {
            broadcast use vstd::seq_lib::group_seq_properties;

            assert(all.take(k + 1).contains(n) <==> (all.take(k as int).contains(n) || n
                == all[k as int]));
            assert(before.push(all[k as int]).contains(n) <==> (before.contains(n) || n
                == all[k as int]));
        }
        k = k + 1;
    }
    assert(all.take(k as int) =~= all);
    set
}

/// Evaluates a batch of names (contributions or assignments), failing on
/// the first refusal.
pub fn evaluate_all(
    policy: &PolicySet,
    names: &Vec<(String, Provenance)>,
    acceptances: &Vec<String>,
    claims: &[UpheldClaim],
) -> (r: Result<()>)
    ensures
        match first_refusal(
            policy@,
            names.deep_view(),
            acceptances.deep_view(),
            claims.deep_view(),
            0,
        ) {
            Some(e) => r matches Err(x) && x@ == e,
            None => r is Ok,
        },
{
    let ghost all = names.deep_view();
    let ghost av = acceptances.deep_view();
    let ghost cv = claims.deep_view();
    let mut k: usize = 0;
    while k < names.len()
        invariant
            all == names.deep_view(),
            av == acceptances.deep_view(),
            cv == claims.deep_view(),
            k <= names@.len(),
            first_refusal(policy@, all, av, cv, 0) == first_refusal(
                policy@,
                all,
                av,
                cv,
                k as int,
            ),
        decreases names.len() - k,
    {
        assert(all[k as int] == names@[k as int].deep_view());
        match policy.evaluate(names[k].0.as_str(), &names[k].1, acceptances, claims) {
            Ok(_) => {},
            Err(e) => {
                return Err(e);
            },
        }
        k = k + 1;
    }
    Ok(())
}

/// Trail entry of one name.
pub open spec fn trail_entry(n: (Seq<char>, ProvenanceView)) -> (Seq<char>, Seq<char>) {
    (
        n.0,
        match n.1 {
            ProvenanceView::Profile => "profile"@,
            ProvenanceView::Extension(_) => "extension"@,
        },
    )
}

/// The policy-relevant evaluation trail: each name with its source, names
/// only. A name given twice keeps its last source.
#[must_use]
pub fn evaluation_trail(names: &Vec<(String, Provenance)>) -> (trail: Vec<(String, String)>)
    ensures
        trail.deep_view() == table::latest(
            names.deep_view().map_values(|n: (Seq<char>, ProvenanceView)| trail_entry(n)),
        ),
{
    let ghost entry = |n: (Seq<char>, ProvenanceView)| trail_entry(n);
    let ghost all = names.deep_view().map_values(entry);
    let mut trail: Vec<(String, String)> = Vec::new();
    let mut k: usize = 0;
    assert(all.take(0) =~= Seq::empty());
    assert(trail.deep_view() =~= table::latest(all.take(0)));
    while k < names.len()
        invariant
            entry == (|n: (Seq<char>, ProvenanceView)| trail_entry(n)),
            all == names.deep_view().map_values(entry),
            k <= names@.len(),
            trail.deep_view() == table::latest(all.take(k as int)),
        decreases names.len() - k,
    {
        assert(all.take(k + 1).drop_last() =~= all.take(k as int));
        assert(names.deep_view()[k as int] == names@[k as int].deep_view());
        assert(all.take(k + 1).last() == trail_entry(names.deep_view()[k as int]));
        let source = match &names[k].1 {
            Provenance::Profile => "profile",
            Provenance::Extension(_) => "extension",
        };
        table::set(&mut trail, names[k].0.as_str(), source);
        k = k + 1;
    }
    assert(all.take(k as int) =~= all);
    trail
}

/// Resolves the user policy path: override, `$XDG_CONFIG_HOME`, or
/// `~/.config` fallback. Unset variables count as empty.
pub fn policy_path(config_dir: Option<&str>, xdg: Option<&str>, home: Option<&str>) -> (p: String)
    ensures
        p@ == (match config_dir {
            Some(dir) => path::joined(dir@, "policies.toml"@),
            None => if xdg is Some && xdg->0@.len() > 0 {
                path::joined(xdg->0@, "cistella/policies.toml"@)
            } else {
                path::joined(
                    if home is Some {
                        home->0@
                    } else {
                        ""@
                    },
                    ".config/cistella/policies.toml"@,
                )
            },
        }),
{
    match config_dir {
        Some(dir) => path::join(dir, "policies.toml"),
        None => {
            match xdg {
                Some(base) => {
                    if !base.is_empty() {
                        return path::join(base, "cistella/policies.toml");
                    }
                },
                None => {},
            }
            let home = match home {
                Some(h) => h,
                None => "",
            };
            path::join(home, ".config/cistella/policies.toml")
        },
    }
}

// ---------------------------------------------------------------------
// Lemmas and laws
// ---------------------------------------------------------------------

proof fn lemma_rules_concat(
    a: Seq<RuleView>,
    b: Seq<RuleView>,
    name: Seq<char>,
    pv: ProvenanceView,
    accepted: bool,
    acknowledged: bool,
    k: int,
)
    requires
        0 <= k <= a.len(),
    ensures
        first_refusing_rule(a + b, name, pv, accepted, acknowledged, k) == match first_refusing_rule(
            a,
            name,
            pv,
            accepted,
            acknowledged,
            k,
        ) {
            Some(e) => Some(e),
            None => first_refusing_rule(b, name, pv, accepted, acknowledged, 0),
        },
    decreases a.len() - k,
{
    if k < a.len() {
        assert((a + b)[k] == a[k]);
        lemma_rules_concat(a, b, name, pv, accepted, acknowledged, k + 1);
    } else {
        lemma_rules_shift(a, b, name, pv, accepted, acknowledged, 0);
    }
}

proof fn lemma_rules_shift(
    a: Seq<RuleView>,
    b: Seq<RuleView>,
    name: Seq<char>,
    pv: ProvenanceView,
    accepted: bool,
    acknowledged: bool,
    k: int,
)
    requires
        0 <= k <= b.len(),
    ensures
        first_refusing_rule(a + b, name, pv, accepted, acknowledged, a.len() + k)
            == first_refusing_rule(b, name, pv, accepted, acknowledged, k),
    decreases b.len() - k,
{
    if k < b.len() {
        assert((a + b)[a.len() + k] == b[k]);
        lemma_rules_shift(a, b, name, pv, accepted, acknowledged, k + 1);
    }
}

proof fn lemma_chained(
    p: PolicyView,
    name: Seq<char>,
    pv: ProvenanceView,
    accepted: bool,
    acknowledged: bool,
)
    ensures
        first_refusing_rule(all_rules(p), name, pv, accepted, acknowledged, 0)
            == match first_refusing_rule(p.site, name, pv, accepted, acknowledged, 0) {
            Some(e) => Some(e),
            None => match first_refusing_rule(p.user, name, pv, accepted, acknowledged, 0) {
                Some(e) => Some(e),
                None => first_refusing_rule(p.defaults, name, pv, accepted, acknowledged, 0),
            },
        },
{
    lemma_rules_concat(p.site + p.user, p.defaults, name, pv, accepted, acknowledged, 0);
    lemma_rules_concat(p.site, p.user, name, pv, accepted, acknowledged, 0);
}

proof fn lemma_outranked_chain(claim: ClaimView, p: PolicyView)
    ensures
        outranked(claim, all_rules(p)) == (outranked(claim, p.site) || outranked(claim, p.user)
            || outranked(claim, p.defaults)),
{
    let all = all_rules(p);
    if outranked(claim, p.site) {
        let i = choose|i: int| 0 <= i < p.site.len() && weaker_than(claim, #[trigger] p.site[i]);
        assert(all[i] == p.site[i]);
    }
    if outranked(claim, p.user) {
        let i = choose|i: int| 0 <= i < p.user.len() && weaker_than(claim, #[trigger] p.user[i]);
        assert(all[p.site.len() + i] == p.user[i]);
    }
    if outranked(claim, p.defaults) {
        let i = choose|i: int|
            0 <= i < p.defaults.len() && weaker_than(claim, #[trigger] p.defaults[i]);
        assert(all[p.site.len() + p.user.len() + i] == p.defaults[i]);
    }
    if outranked(claim, all) {
        let i = choose|i: int| 0 <= i < all.len() && weaker_than(claim, #[trigger] all[i]);
        if i < p.site.len() {
            assert(p.site[i] == all[i]);
        } else if i < p.site.len() + p.user.len() {
            assert(p.user[i - p.site.len()] == all[i]);
        } else {
            assert(p.defaults[i - p.site.len() - p.user.len()] == all[i]);
        }
    }
}

proof fn lemma_partitioned_error(
    rules: Seq<RuleView>,
    claims: Seq<ClaimView>,
    contributed: Seq<Seq<char>>,
    k: int,
)
    requires
        0 <= k <= claims.len(),
        partitioned(rules, claims.take(k), contributed) is Err,
    ensures
        partitioned(rules, claims, contributed) == partitioned(rules, claims.take(k), contributed),
    decreases claims.len() - k,
{
    if k < claims.len() {
        assert(claims.take(k + 1).drop_last() =~= claims.take(k));
        lemma_partitioned_error(rules, claims, contributed, k + 1);
    } else {
        assert(claims.take(k) =~= claims);
    }
}

proof fn lemma_first_refusing_rule(
    rules: Seq<RuleView>,
    name: Seq<char>,
    pv: ProvenanceView,
    accepted: bool,
    acknowledged: bool,
    k: int,
    i: int,
)
    requires
        0 <= k <= i < rules.len(),
        rule_refuses(rules[i], name, pv, accepted, acknowledged),
    ensures
        first_refusing_rule(rules, name, pv, accepted, acknowledged, k) is Some,
    decreases i - k,
{
    if k < i {
        lemma_first_refusing_rule(rules, name, pv, accepted, acknowledged, k + 1, i);
    }
}

/// An inviolable rule that is no compiled default refuses whatever it
/// reaches: neither acknowledgements nor acceptances lift it.
pub proof fn law_inviolable_is_never_lifted(
    p: PolicyView,
    name: Seq<char>,
    pv: ProvenanceView,
    acceptances: Seq<Seq<char>>,
    claims: Seq<ClaimView>,
    i: int,
)
    requires
        0 <= i < all_rules(p).len(),
        all_rules(p)[i].severity == Severity::Inviolable,
        !all_rules(p)[i].is_default,
        reaches(all_rules(p)[i].pattern, all_rules(p)[i].scope, name, pv),
    ensures
        refusal(p, name, pv, acceptances, claims) is Some,
{
    lemma_first_refusing_rule(
        all_rules(p),
        name,
        pv,
        acceptances.contains(name),
        p.acknowledgements.contains(name),
        0,
        i,
    );
}

/// Acceptances lift compiled defaults only: a user or site rule that
/// reaches an unacknowledged variable refuses it, whatever the profile
/// accepts.
pub proof fn law_acceptances_lift_defaults_only(
    p: PolicyView,
    name: Seq<char>,
    pv: ProvenanceView,
    acceptances: Seq<Seq<char>>,
    claims: Seq<ClaimView>,
    i: int,
)
    requires
        0 <= i < all_rules(p).len(),
        !all_rules(p)[i].is_default,
        !p.acknowledgements.contains(name),
        reaches(all_rules(p)[i].pattern, all_rules(p)[i].scope, name, pv),
    ensures
        refusal(p, name, pv, acceptances, claims) is Some,
{
    lemma_first_refusing_rule(
        all_rules(p),
        name,
        pv,
        acceptances.contains(name),
        p.acknowledgements.contains(name),
        0,
        i,
    );
}

/// Claims only tighten: what the rules refuse stays refused, with the same
/// diagnostic.
pub proof fn law_claims_only_tighten(
    p: PolicyView,
    name: Seq<char>,
    pv: ProvenanceView,
    acceptances: Seq<Seq<char>>,
    claims: Seq<ClaimView>,
)
    requires
        refusal(p, name, pv, acceptances, Seq::empty()) is Some,
    ensures
        refusal(p, name, pv, acceptances, claims) == refusal(
            p,
            name,
            pv,
            acceptances,
            Seq::empty(),
        ),
{
}

/// Every loaded policy keeps its rules in their layers.
pub proof fn law_loaded_policies_are_layered(
    bytes: Seq<u8>,
    decoded: std::result::Result<FileView, Seq<char>>,
)
    requires
        policy_of(bytes, decoded) is Ok,
    ensures
        layered(policy_of(bytes, decoded)->Ok_0),
{
}

/// The compiled default refuses what it matches, in every loaded policy,
/// unless the name is accepted by the profile or acknowledged by the user.
pub proof fn law_default_denies_tokens(
    bytes: Seq<u8>,
    decoded: std::result::Result<FileView, Seq<char>>,
    name: Seq<char>,
    pv: ProvenanceView,
    acceptances: Seq<Seq<char>>,
    claims: Seq<ClaimView>,
)
    requires
        policy_of(bytes, decoded) is Ok,
        pattern::regex_matches(DEFAULT_TOKEN_PATTERN@, name),
        !acceptances.contains(name),
        !policy_of(bytes, decoded)->Ok_0.acknowledgements.contains(name),
    ensures
        refusal(policy_of(bytes, decoded)->Ok_0, name, pv, acceptances, claims) is Some,
{
    let p = policy_of(bytes, decoded)->Ok_0;
    let at = p.site.len() + p.user.len();
    assert(all_rules(p)[at as int] == p.defaults[0]);
    lemma_first_refusing_rule(
        all_rules(p),
        name,
        pv,
        false,
        p.acknowledgements.contains(name),
        0,
        at as int,
    );
}

proof fn lemma_first_denial_fault(denials: Seq<ClaimView>, k: int, i: int)
    requires
        first_denial_fault(denials, k) is None,
        0 <= k <= i < denials.len(),
    ensures
        denial_fault(denials, i) is None,
    decreases denials.len() - k,
{
    if k < i {
        lemma_first_denial_fault(denials, k + 1, i);
    }
}

proof fn lemma_weakening(denials: Seq<ClaimView>, k: int, i: int)
    requires
        weakening(denials, k) is None,
        0 <= k <= i < denials.len(),
    ensures
        !(denials[i].pattern == DEFAULT_TOKEN_PATTERN@ && denials[i].scope == Scope::OnExtensions),
    decreases denials.len() - k,
{
    if k < i {
        lemma_weakening(denials, k + 1, i);
    }
}

/// User policy tightens only: no user rule takes the site's inviolable
/// universal cell, none narrows the compiled default, and every pattern
/// compiles; the site layer stays empty.
pub proof fn law_user_policy_tightens_only(
    bytes: Seq<u8>,
    decoded: std::result::Result<FileView, Seq<char>>,
    i: int,
)
    requires
        policy_of(bytes, decoded) is Ok,
        0 <= i < policy_of(bytes, decoded)->Ok_0.user.len(),
    ensures
        ({
            let p = policy_of(bytes, decoded)->Ok_0;
            let rule = p.user[i];
            &&& p.site.len() == 0
            &&& !rule.is_default
            &&& !(rule.severity == Severity::Inviolable && rule.scope == Scope::Universal)
            &&& !(rule.pattern == DEFAULT_TOKEN_PATTERN@ && rule.scope == Scope::OnExtensions)
            &&& pattern::regex_error(rule.pattern) is None
        }),
{
    let denials = decoded->Ok_0.denials;
    lemma_first_denial_fault(denials, 0, i);
    lemma_weakening(denials, 0, i);
}

/// Every upheld claim stays within its transaction: it matches a
/// contributed name, does not impersonate site authority, and no rule on
/// its pattern is stricter.
pub proof fn law_upheld_claims_stay_in_bounds(
    rules: Seq<RuleView>,
    claims: Seq<ClaimView>,
    contributed: Seq<Seq<char>>,
    i: int,
)
    requires
        partitioned(rules, claims, contributed) is Ok,
        0 <= i < (partitioned(rules, claims, contributed)->Ok_0).0.len(),
    ensures
        ({
            let c = (partitioned(rules, claims, contributed)->Ok_0).0[i];
            &&& claims.contains(c)
            &&& claim_matches(c.pattern, contributed)
            &&& !(c.severity == Severity::Inviolable && c.scope == Scope::Universal)
            &&& !outranked(c, rules)
        }),
    decreases claims.len(),
{
    let init = claims.drop_last();
    let before = (partitioned(rules, init, contributed)->Ok_0).0;
    let c = (partitioned(rules, claims, contributed)->Ok_0).0[i];
    if i < before.len() {
        law_upheld_claims_stay_in_bounds(rules, init, contributed, i);
        assert(c == before[i]);
        let k = choose|k: int| 0 <= k < init.len() && init[k] == c;
        assert(claims[k] == c);
    } else {
        assert(c == claims.last());
        assert(claims[claims.len() - 1] == c);
    }
}

// ---------------------------------------------------------------------
// What policy refuses and upholds
// ---------------------------------------------------------------------

/// Whether a rule forbids a name: its pattern matches, its scope reaches the
/// contributor, and neither the profile's acceptance (of a default) nor the
/// user's acknowledgement (of a suppressible one) lifts it.
pub open spec fn forbids(
    rule: RuleView,
    name: Seq<char>,
    from_extension: bool,
    accepted: bool,
    acknowledged: bool,
) -> bool {
    &&& pattern::regex_matches(rule.pattern, name)
    &&& rule.scope == Scope::Universal || from_extension
    &&& !(rule.is_default && accepted)
    &&& rule.severity == Severity::Inviolable || !acknowledged
}

proof fn lemma_rules_refuse(
    rules: Seq<RuleView>,
    name: Seq<char>,
    pv: ProvenanceView,
    accepted: bool,
    acknowledged: bool,
    k: int,
)
    requires
        0 <= k <= rules.len(),
    ensures
        first_refusing_rule(rules, name, pv, accepted, acknowledged, k) is Some <==> exists|i: int|
            k <= i < rules.len() && forbids(
                #[trigger] rules[i],
                name,
                pv is Extension,
                accepted,
                acknowledged,
            ),
    decreases rules.len() - k,
{
    if k < rules.len() {
        lemma_rules_refuse(rules, name, pv, accepted, acknowledged, k + 1);
        if rule_refuses(rules[k], name, pv, accepted, acknowledged) {
            assert(forbids(rules[k], name, pv is Extension, accepted, acknowledged));
        }
    }
}

proof fn lemma_claims_refuse(
    claims: Seq<ClaimView>,
    name: Seq<char>,
    pv: ProvenanceView,
    acknowledged: bool,
    k: int,
)
    requires
        0 <= k <= claims.len(),
    ensures
        first_refusing_claim(claims, name, pv, acknowledged, k) is Some <==> exists|i: int|
            k <= i < claims.len() && forbids(
                user_rule(#[trigger] claims[i]),
                name,
                pv is Extension,
                false,
                acknowledged,
            ),
    decreases claims.len() - k,
{
    if k < claims.len() {
        lemma_claims_refuse(claims, name, pv, acknowledged, k + 1);
        if reaches(claims[k].pattern, claims[k].scope, name, pv) && !(claims[k].severity
            == Severity::Suppressible && acknowledged) {
            assert(forbids(user_rule(claims[k]), name, pv is Extension, false, acknowledged));
        }
    }
}

/// A name is refused exactly when a rule of the site, of the user or of the
/// defaults, or an upheld claim, forbids it.
pub proof fn law_policy_refuses_what_is_forbidden(
    p: PolicyView,
    name: Seq<char>,
    pv: ProvenanceView,
    acceptances: Seq<Seq<char>>,
    claims: Seq<ClaimView>,
)
    ensures
        refusal(p, name, pv, acceptances, claims) is Some <==> {
            let accepted = acceptances.contains(name);
            let acknowledged = p.acknowledgements.contains(name);
            let ext = pv is Extension;
            ||| exists|i: int|
                0 <= i < p.site.len() && forbids(
                    #[trigger] p.site[i],
                    name,
                    ext,
                    accepted,
                    acknowledged,
                )
            ||| exists|i: int|
                0 <= i < p.user.len() && forbids(
                    #[trigger] p.user[i],
                    name,
                    ext,
                    accepted,
                    acknowledged,
                )
            ||| exists|i: int|
                0 <= i < p.defaults.len() && forbids(
                    #[trigger] p.defaults[i],
                    name,
                    ext,
                    accepted,
                    acknowledged,
                )
            ||| exists|i: int|
                0 <= i < claims.len() && pattern::regex_matches(
                    (#[trigger] claims[i]).pattern,
                    name,
                ) && (claims[i].scope == Scope::Universal || ext) && (claims[i].severity
                    == Severity::Inviolable || !acknowledged)
        },
{
    let accepted = acceptances.contains(name);
    let acknowledged = p.acknowledgements.contains(name);
    let ext = pv is Extension;
    let all = all_rules(p);
    let a = p.site.len() as int;
    let b = p.user.len() as int;
    lemma_rules_refuse(all, name, pv, accepted, acknowledged, 0);
    lemma_claims_refuse(claims, name, pv, acknowledged, 0);
    if exists|i: int|
        0 <= i < all.len() && forbids(#[trigger] all[i], name, ext, accepted, acknowledged) {
        let i = choose|i: int|
            0 <= i < all.len() && forbids(#[trigger] all[i], name, ext, accepted, acknowledged);
        if i < a {
            assert(p.site[i] == all[i]);
        } else if i < a + b {
            assert(p.user[i - a] == all[i]);
        } else {
            assert(p.defaults[i - a - b] == all[i]);
        }
    }
    if exists|i: int|
        0 <= i < a && forbids(#[trigger] p.site[i], name, ext, accepted, acknowledged) {
        let i = choose|i: int|
            0 <= i < a && forbids(#[trigger] p.site[i], name, ext, accepted, acknowledged);
        assert(all[i] == p.site[i]);
    }
    if exists|i: int|
        0 <= i < b && forbids(#[trigger] p.user[i], name, ext, accepted, acknowledged) {
        let i = choose|i: int|
            0 <= i < b && forbids(#[trigger] p.user[i], name, ext, accepted, acknowledged);
        assert(all[a + i] == p.user[i]);
    }
    if exists|i: int|
        0 <= i < p.defaults.len() && forbids(
            #[trigger] p.defaults[i],
            name,
            ext,
            accepted,
            acknowledged,
        ) {
        let i = choose|i: int|
            0 <= i < p.defaults.len() && forbids(
                #[trigger] p.defaults[i],
                name,
                ext,
                accepted,
                acknowledged,
            );
        assert(all[a + b + i] == p.defaults[i]);
    }
    if exists|i: int|
        0 <= i < claims.len() && pattern::regex_matches((#[trigger] claims[i]).pattern, name) && (
        claims[i].scope == Scope::Universal || ext) && (claims[i].severity == Severity::Inviolable
            || !acknowledged) {
        let i = choose|i: int|
            0 <= i < claims.len() && pattern::regex_matches((#[trigger] claims[i]).pattern, name)
                && (claims[i].scope == Scope::Universal || ext) && (claims[i].severity
                == Severity::Inviolable || !acknowledged);
        assert(forbids(user_rule(claims[i]), name, ext, false, acknowledged));
    }
}

/// A list of names passes exactly when each of them does.
pub proof fn law_names_pass_one_by_one(
    p: PolicyView,
    names: Seq<(Seq<char>, ProvenanceView)>,
    acceptances: Seq<Seq<char>>,
    claims: Seq<ClaimView>,
    k: int,
)
    requires
        0 <= k <= names.len(),
    ensures
        first_refusal(p, names, acceptances, claims, k) is None <==> forall|i: int|
            k <= i < names.len() ==> refusal(
                p,
                (#[trigger] names[i]).0,
                names[i].1,
                acceptances,
                claims,
            ) is None,
    decreases names.len() - k,
{
    if k < names.len() {
        law_names_pass_one_by_one(p, names, acceptances, claims, k + 1);
        if first_refusal(p, names, acceptances, claims, k) is None {
            assert forall|i: int| k <= i < names.len() implies refusal(
                p,
                (#[trigger] names[i]).0,
                names[i].1,
                acceptances,
                claims,
            ) is None by {}
        }
    }
}

/// A loaded policy holds the file's denials as the user's rules, unchanged
/// and in order, its acknowledgements, no rule of the site, and the one
/// default: the tokens of the forge, suppressible, for everyone.
pub proof fn law_loaded_policies_say_the_file(
    bytes: Seq<u8>,
    file: FileView,
    p: PolicyView,
)
    requires
        bytes.len() > 0,
        policy_of(bytes, Ok(file)) == Ok::<PolicyView, ErrorView>(p),
    ensures
        file.format_version == 1,
        p.site.len() == 0,
        p.user.len() == file.denials.len(),
        forall|i: int|
            0 <= i < file.denials.len() ==> (#[trigger] p.user[i]).pattern
                == file.denials[i].pattern && p.user[i].severity == file.denials[i].severity
                && p.user[i].scope == file.denials[i].scope && !p.user[i].is_default,
        p.acknowledgements == file.acknowledgements,
        p.defaults.len() == 1,
        p.defaults[0].pattern == "(?i)^(GITHUB_TOKEN|GH_TOKEN|GITHUB_PAT)$"@,
        p.defaults[0].severity == Severity::Suppressible,
        p.defaults[0].scope == Scope::Universal,
        p.defaults[0].is_default,
        p.source_hash == digest::hex_text(digest::sha256_of(bytes)),
{
}

/// Without a file the policy is its default alone.
pub proof fn law_no_file_leaves_the_default(
    decoded: std::result::Result<FileView, Seq<char>>,
    p: PolicyView,
)
    requires
        policy_of(Seq::empty(), decoded) == Ok::<PolicyView, ErrorView>(p),
    ensures
        p.site.len() == 0 && p.user.len() == 0 && p.acknowledgements.len() == 0,
        p.defaults.len() == 1,
        p.defaults[0].pattern == "(?i)^(GITHUB_TOKEN|GH_TOKEN|GITHUB_PAT)$"@,
        p.defaults[0].severity == Severity::Suppressible,
        p.defaults[0].scope == Scope::Universal,
        p.defaults[0].is_default,
{
}

/// Whether a file of denials and acknowledgements may be used: the first
/// format, patterns that compile, none twice, none of the site's rank, none
/// that narrows the default, and distinct upper-case acknowledgements.
pub open spec fn sound_file(file: FileView) -> bool {
    &&& file.format_version == 1
    &&& forall|i: int|
        0 <= i < file.denials.len() ==> pattern::regex_error(
            (#[trigger] file.denials[i]).pattern,
        ) is None && !(file.denials[i].severity == Severity::Inviolable && file.denials[i].scope
            == Scope::Universal) && !(file.denials[i].pattern
            == "(?i)^(GITHUB_TOKEN|GH_TOKEN|GITHUB_PAT)$"@ && file.denials[i].scope
            == Scope::OnExtensions)
    &&& forall|i: int, j: int|
        0 <= i < j < file.denials.len() ==> #[trigger] file.denials[i] != #[trigger] file.denials[j]
    &&& forall|i: int|
        0 <= i < file.acknowledgements.len() ==> crate::framework::contract::upper_name(
            #[trigger] file.acknowledgements[i],
        )
    &&& forall|i: int, j: int|
        0 <= i < j < file.acknowledgements.len() ==> #[trigger] file.acknowledgements[i]
            != #[trigger] file.acknowledgements[j]
}

proof fn lemma_denials_pass(denials: Seq<ClaimView>, k: int)
    requires
        0 <= k <= denials.len(),
    ensures
        first_denial_fault(denials, k) is None <==> forall|i: int|
            k <= i < denials.len() ==> denial_fault(denials, i) is None,
        weakening(denials, k) is None <==> forall|i: int|
            k <= i < denials.len() ==> !((#[trigger] denials[i]).pattern == DEFAULT_TOKEN_PATTERN@
                && denials[i].scope == Scope::OnExtensions),
    decreases denials.len() - k,
{
    if k < denials.len() {
        lemma_denials_pass(denials, k + 1);
        if first_denial_fault(denials, k) is None {
            assert forall|i: int| k <= i < denials.len() implies denial_fault(denials, i) is None by {}
        }
    }
}

proof fn lemma_acks_pass(names: Seq<Seq<char>>, k: int)
    requires
        0 <= k <= names.len(),
    ensures
        first_ack_fault(names, k) is None <==> forall|i: int|
            k <= i < names.len() ==> ack_fault(names, i) is None,
    decreases names.len() - k,
{
    if k < names.len() {
        lemma_acks_pass(names, k + 1);
        if first_ack_fault(names, k) is None {
            assert forall|i: int| k <= i < names.len() implies ack_fault(names, i) is None by {}
        }
    }
}

/// A decoded file loads exactly when it is sound, given that the default
/// compiles.
pub proof fn law_sound_files_load(file: FileView, hash: Seq<char>)
    requires
        pattern::regex_error("(?i)^(GITHUB_TOKEN|GH_TOKEN|GITHUB_PAT)$"@) is None,
    ensures
        policy_of_file(file, hash) is Ok <==> sound_file(file),
{
    let ds = file.denials;
    let names = file.acknowledgements;
    lemma_denials_pass(ds, 0);
    lemma_acks_pass(names, 0);
    if policy_of_file(file, hash) is Ok {
        assert forall|i: int| 0 <= i < ds.len() implies pattern::regex_error(
            (#[trigger] ds[i]).pattern,
        ) is None && !(ds[i].severity == Severity::Inviolable && ds[i].scope == Scope::Universal)
            && !(ds[i].pattern == "(?i)^(GITHUB_TOKEN|GH_TOKEN|GITHUB_PAT)$"@ && ds[i].scope
            == Scope::OnExtensions) by {
            assert(denial_fault(ds, i) is None);
        }
        assert forall|i: int, j: int| 0 <= i < j < ds.len() implies #[trigger] ds[i]
            != #[trigger] ds[j] by {
            assert(denial_fault(ds, j) is None);
        }
        assert forall|i: int|
            0 <= i < names.len() implies crate::framework::contract::upper_name(
            #[trigger] names[i],
        ) by {
            assert(ack_fault(names, i) is None);
            crate::framework::contract::law_environment_names(names[i]);
        }
        assert forall|i: int, j: int| 0 <= i < j < names.len() implies #[trigger] names[i]
            != #[trigger] names[j] by {
            assert(ack_fault(names, j) is None);
        }
    }
    if sound_file(file) {
        assert forall|i: int| 0 <= i < ds.len() implies denial_fault(ds, i) is None by {
            assert(pattern::regex_error(ds[i].pattern) is None);
        }
        assert forall|i: int| 0 <= i < names.len() implies ack_fault(names, i) is None by {
            crate::framework::contract::law_environment_names(names[i]);
        }
    }
}

/// Whether a rule is stricter than a claim on its pattern: inviolable over
/// suppressible, or for everyone over for extensions only.
pub open spec fn stricter(rule: RuleView, claim: ClaimView) -> bool {
    rule.pattern == claim.pattern && ((rule.severity == Severity::Inviolable && claim.severity
        == Severity::Suppressible) || (rule.scope == Scope::Universal && claim.scope
        == Scope::OnExtensions))
}

/// Claims are upheld exactly where no rule is stricter, in their order, and
/// each of the others is reported as discarded; a claim without a pattern, of
/// the site's rank, that does not compile, or that matches nothing its guest
/// contributed refuses them all.
pub proof fn law_claims_are_upheld_unless_a_rule_is_stricter(
    rules: Seq<RuleView>,
    claims: Seq<ClaimView>,
    contributed: Seq<Seq<char>>,
    c: ClaimView,
)
    ensures
        partitioned(rules, claims, contributed) matches Ok(x) ==> {
            &&& x.0.contains(c) <==> claims.contains(c) && !exists|i: int|
                0 <= i < rules.len() && stricter(#[trigger] rules[i], c)
            &&& x.0.len() + x.1.len() == claims.len()
        },
        partitioned(rules, claims, contributed) is Ok <==> forall|i: int|
            0 <= i < claims.len() ==> (#[trigger] claims[i]).pattern.len() > 0 && !(
            claims[i].severity == Severity::Inviolable && claims[i].scope == Scope::Universal)
                && pattern::regex_error(claims[i].pattern) is None && exists|j: int|
                0 <= j < contributed.len() && pattern::regex_matches(
                    claims[i].pattern,
                    #[trigger] contributed[j],
                ),
    decreases claims.len(),
{
    assert(outranked(c, rules) <==> exists|i: int|
        0 <= i < rules.len() && stricter(#[trigger] rules[i], c)) by {
        if outranked(c, rules) {
            let i = choose|i: int| 0 <= i < rules.len() && weaker_than(c, #[trigger] rules[i]);
            assert(stricter(rules[i], c));
        }
        if exists|i: int| 0 <= i < rules.len() && stricter(#[trigger] rules[i], c) {
            let i = choose|i: int| 0 <= i < rules.len() && stricter(#[trigger] rules[i], c);
            assert(weaker_than(c, rules[i]));
        }
    }
    if claims.len() > 0 {
        let t = claims.drop_last();
        law_claims_are_upheld_unless_a_rule_is_stricter(rules, t, contributed, c);
        if partitioned(rules, claims, contributed) is Ok {
            let x = partitioned(rules, claims, contributed)->Ok_0;
            let y = partitioned(rules, t, contributed)->Ok_0;
            if x.0.contains(c) {
                let k = choose|k: int| 0 <= k < x.0.len() && x.0[k] == c;
                if k < y.0.len() {
                    assert(y.0[k] == c);
                    let m = choose|m: int| 0 <= m < t.len() && t[m] == c;
                    assert(claims[m] == c);
                } else {
                    assert(claims[claims.len() - 1] == c);
                }
            }
            if claims.contains(c) && !outranked(c, rules) {
                let m = choose|m: int| 0 <= m < claims.len() && claims[m] == c;
                if m < t.len() {
                    assert(t[m] == c);
                    let k = choose|k: int| 0 <= k < y.0.len() && y.0[k] == c;
                    assert(x.0[k] == c);
                } else {
                    assert(x.0[x.0.len() - 1] == c);
                }
            }
            assert forall|i: int| 0 <= i < claims.len() implies (
            #[trigger] claims[i]).pattern.len() > 0 && !(claims[i].severity == Severity::Inviolable
                && claims[i].scope == Scope::Universal) && pattern::regex_error(
                claims[i].pattern,
            ) is None && exists|j: int|
                0 <= j < contributed.len() && pattern::regex_matches(
                    claims[i].pattern,
                    #[trigger] contributed[j],
                ) by {
                if i < t.len() {
                    assert(t[i] == claims[i]);
                }
            }
        }
        if forall|i: int|
            0 <= i < claims.len() ==> (#[trigger] claims[i]).pattern.len() > 0 && !(
            claims[i].severity == Severity::Inviolable && claims[i].scope == Scope::Universal)
                && pattern::regex_error(claims[i].pattern) is None && exists|j: int|
                0 <= j < contributed.len() && pattern::regex_matches(
                    claims[i].pattern,
                    #[trigger] contributed[j],
                ) {
            assert forall|i: int| 0 <= i < t.len() implies (#[trigger] t[i]).pattern.len() > 0 && !(
            t[i].severity == Severity::Inviolable && t[i].scope == Scope::Universal)
                && pattern::regex_error(t[i].pattern) is None && exists|j: int|
                0 <= j < contributed.len() && pattern::regex_matches(
                    t[i].pattern,
                    #[trigger] contributed[j],
                ) by {
                assert(t[i] == claims[i]);
            }
            assert(claims[claims.len() - 1].pattern.len() > 0);
        }
    }
}

/// The trail says of each name whether the profile or an extension brought it,
/// the last one when it was brought twice.
pub proof fn law_trails_say_the_origin(names: Seq<(Seq<char>, ProvenanceView)>, i: int)
    requires
        0 <= i < names.len(),
        forall|j: int| i < j < names.len() ==> (#[trigger] names[j]).0 != names[i].0,
    ensures
        table::lookup(
            table::latest(names.map_values(|n: (Seq<char>, ProvenanceView)| trail_entry(n))),
            names[i].0,
            0,
        ) == Some(
            if names[i].1 is Profile {
                "profile"@
            } else {
                "extension"@
            },
        ),
{
    let all = names.map_values(|n: (Seq<char>, ProvenanceView)| trail_entry(n));
    assert(forall|j: int| 0 <= j < names.len() ==> all[j] == trail_entry(names[j]));
    table::law_latest_wins(all, names[i].0);
    table::law_last_values_are_last(all, names[i].0, i);
}

/// A view says what the fields hold, each under its own name.
pub proof fn law_views_say_the_fields(
    denial_entry: DenialEntry,
    acknowledgement_entry: AcknowledgementEntry,
    policy_file: PolicyFile,
    upheld_claim: UpheldClaim,
)
    ensures
        denial_entry.deep_view().pattern == denial_entry.pattern@,
        denial_entry.deep_view().severity == denial_entry.severity,
        denial_entry.deep_view().scope == denial_entry.scope,
        acknowledgement_entry.deep_view() == acknowledgement_entry.name@,
        policy_file.deep_view().format_version == policy_file.format_version,
        policy_file.deep_view().denials == policy_file.denials.deep_view(),
        policy_file.deep_view().acknowledgements == policy_file.acknowledgements.deep_view(),
        upheld_claim.deep_view().pattern == upheld_claim.pattern@,
        upheld_claim.deep_view().severity == upheld_claim.severity,
        upheld_claim.deep_view().scope == upheld_claim.scope,
{
}

/// A file that is not UTF-8, or that the decoder refuses, gives no policy; any
/// other gives the policy of what was decoded.
pub proof fn law_policies_are_read_from_text(bytes: Seq<u8>, file: FileView, m: Seq<char>)
    requires
        bytes.len() > 0,
    ensures
        !vstd::utf8::valid_utf8(bytes) ==> policy_of(bytes, Ok(file)) is Err,
        vstd::utf8::valid_utf8(bytes) ==> policy_of(bytes, Ok(file)) == policy_of_file(
            file,
            digest::hex_text(digest::sha256_of(bytes)),
        ),
        policy_of(bytes, Err(m)) is Err,
{
}

} // verus!
