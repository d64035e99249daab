//! Framework lifecycle/capability contract.
//!
//! The spine, contribution schemas, merge rules, and deadline ownership
//! that every isolator and extension obeys.
//!
//! The contract is three parts: [`Phase`] orders the nine spine phases;
//! [`PreparePlan`] plus [`merge_prepare`] define the single typed
//! prepare transaction and its atomic central merge; [`Deadlines`]
//! keeps every control-plane bound framework-owned.
//!
//! Planning is side-effect free by construction: plans are plain data, and
//! [`merge_prepare`] is a pure function.

use vstd::prelude::*;

use crate::error::{CistellaError, ErrorView, Result};
use crate::mount;
use crate::mount::{MountTriple, TripleView};
use crate::order;
use crate::profile;
use crate::session;
use crate::table;
use crate::text;

verus! {

/// Spine phases in execution order.
///
/// The harness lifetime is never capped: awaiting is unbounded by design,
/// only teardown ends it.
#[derive(Debug, Clone, Copy, PartialEq, Eq, PartialOrd, Ord, Structural)]
pub enum Phase {
    /// Pure planning: resolve input, negotiate capabilities, collect
    /// extension plans, merge centrally, evaluate policy.
    Planning,
    /// Gated host pre-create apply (resource revalidation first).
    GateHostPreCreate,
    /// Isolator create.
    Create,
    /// Isolator initiate/start.
    Initiate,
    /// Post-initiate guest probe and preparation.
    PostInitiatePrepare,
    /// Guest restriction/wrapper establishment.
    GuestRestriction,
    /// Bounded execute launch (launch never blocks for completion).
    ExecuteLaunch,
    /// Session-lifetime await/result (uncapped by design).
    AwaitResult,
    /// Reverse-order cleanup/teardown with residue-dominated reporting.
    Teardown,
}

/// Spine position of a phase.
pub open spec fn phase_position(p: Phase) -> int {
    match p {
        Phase::Planning => 0,
        Phase::GateHostPreCreate => 1,
        Phase::Create => 2,
        Phase::Initiate => 3,
        Phase::PostInitiatePrepare => 4,
        Phase::GuestRestriction => 5,
        Phase::ExecuteLaunch => 6,
        Phase::AwaitResult => 7,
        Phase::Teardown => 8,
    }
}

impl Phase {
    /// Spine position, 0 through 8.
    #[must_use]
    pub fn index(self) -> (i: u8)
        ensures
            i == phase_position(self),
    {
        match self {
            Phase::Planning => 0,
            Phase::GateHostPreCreate => 1,
            Phase::Create => 2,
            Phase::Initiate => 3,
            Phase::PostInitiatePrepare => 4,
            Phase::GuestRestriction => 5,
            Phase::ExecuteLaunch => 6,
            Phase::AwaitResult => 7,
            Phase::Teardown => 8,
        }
    }

    /// True for phases that must not mutate host or container state.
    #[must_use]
    pub fn is_planning(self) -> (b: bool)
        ensures
            b == (self == Phase::Planning || self == Phase::GateHostPreCreate || self
                == Phase::PostInitiatePrepare),
    {
        match self {
            Phase::Planning => true,
            Phase::GateHostPreCreate => true,
            Phase::PostInitiatePrepare => true,
            _ => false,
        }
    }
}

/// Spine positions tell phases apart and run from 0 to 8.
pub proof fn law_phase_positions(a: Phase, b: Phase)
    ensures
        0 <= phase_position(a) <= 8,
        phase_position(a) == phase_position(b) <==> a == b,
{
}

/// Contribution types a guest may return.
///
/// Capability advertisement declares which types each guest may return; the
/// merge refuses any non-empty set whose type was not advertised. Empty
/// sets contribute nothing and need no capability.
#[derive(Debug, Clone, Copy, PartialEq, Eq, Structural)]
pub enum Capability {
    /// Environment contribution set.
    Environment,
    /// Mount contribution set.
    Mounts,
    /// Policy claims.
    PolicyClaims,
    /// Guest-hook requests.
    GuestHooks,
    /// Credential contributions (strict handle variants only).
    Credentials,
}

/// Advertised capability set for one guest.
#[derive(Debug, Clone, Copy)]
pub struct CapabilitySet {
    environment: bool,
    mounts: bool,
    policy_claims: bool,
    guest_hooks: bool,
    credentials: bool,
}

impl View for CapabilitySet {
    type V = Set<Capability>;

    closed spec fn view(&self) -> Set<Capability> {
        Set::new(
            |c: Capability|
                match c {
                    Capability::Environment => self.environment,
                    Capability::Mounts => self.mounts,
                    Capability::PolicyClaims => self.policy_claims,
                    Capability::GuestHooks => self.guest_hooks,
                    Capability::Credentials => self.credentials,
                },
        )
    }
}

impl CapabilitySet {
    /// Advertises exactly these capabilities.
    #[must_use]
    pub fn new(capabilities: &[Capability]) -> (set: Self)
        ensures
            set@ == capabilities@.to_set(),
    {
        let mut set = CapabilitySet {
            environment: false,
            mounts: false,
            policy_claims: false,
            guest_hooks: false,
            credentials: false,
        };
        let mut i: usize = 0;
        assert(set@ =~= capabilities@.take(0).to_set());
        while i < capabilities.len()
            invariant
                i <= capabilities@.len(),
                set@ == capabilities@.take(i as int).to_set(),
            decreases capabilities.len() - i,
        {
            let ghost before = set@;
            let ghost c = capabilities@[i as int];
            match capabilities[i] {
                Capability::Environment => {
                    set.environment = true;
                },
                Capability::Mounts => {
                    set.mounts = true;
                },
                Capability::PolicyClaims => {
                    set.policy_claims = true;
                },
                Capability::GuestHooks => {
                    set.guest_hooks = true;
                },
                Capability::Credentials => {
                    set.credentials = true;
                },
            }
            assert(set@ =~= before.insert(c));
            assert(capabilities@.take(i + 1) =~= capabilities@.take(i as int).push(c));
            assert(capabilities@.take(i + 1).to_set() =~= capabilities@.take(
                i as int,
            ).to_set().insert(c)) by {
                broadcast use vstd::seq_lib::group_seq_properties;

            }
            i = i + 1;
        }
        assert(capabilities@.take(i as int) =~= capabilities@);
        set
    }

    /// True when the guest advertised this contribution type.
    #[must_use]
    pub fn allows(&self, capability: Capability) -> (b: bool)
        ensures
            b == self@.contains(capability),
    {
        match capability {
            Capability::Environment => self.environment,
            Capability::Mounts => self.mounts,
            Capability::PolicyClaims => self.policy_claims,
            Capability::GuestHooks => self.guest_hooks,
            Capability::Credentials => self.credentials,
        }
    }
}

/// Where a contribution came from.
///
/// Provenance drives policy scoping: `on-extensions` cells match extension
/// contributions only, never profile values.
#[derive(Debug)]
pub enum Provenance {
    /// Declared by the profile under conduct.
    Profile,
    /// Contributed by the named extension guest.
    Extension(String),
}

/// What a provenance says.
pub enum ProvenanceView {
    Profile,
    Extension(Seq<char>),
}

impl DeepView for Provenance {
    type V = ProvenanceView;

    open spec fn deep_view(&self) -> ProvenanceView {
        match *self {
            Provenance::Profile => ProvenanceView::Profile,
            Provenance::Extension(name) => ProvenanceView::Extension(name@),
        }
    }
}

impl Clone for Provenance {
    fn clone(&self) -> (r: Self)
        ensures
            r.deep_view() == self.deep_view(),
    {
        match self {
            Provenance::Profile => Provenance::Profile,
            Provenance::Extension(name) => Provenance::Extension(name.clone()),
        }
    }
}

/// One environment contribution: exact name plus opaque value.
///
/// Values are never rendered in diagnostics; refusals name the variable
/// only.
#[derive(Debug)]
pub struct EnvContribution {
    /// Exact variable name (`[A-Z_][A-Z0-9_]*`).
    pub name: String,
    /// Opaque value (control characters refused at merge).
    pub value: String,
    /// Contribution source for policy scoping.
    pub provenance: Provenance,
}

/// What an environment contribution says.
pub struct EnvView {
    pub name: Seq<char>,
    pub value: Seq<char>,
    pub provenance: ProvenanceView,
}

impl DeepView for EnvContribution {
    type V = EnvView;

    open spec fn deep_view(&self) -> EnvView {
        EnvView {
            name: self.name@,
            value: self.value@,
            provenance: self.provenance.deep_view(),
        }
    }
}

impl Clone for EnvContribution {
    fn clone(&self) -> (r: Self)
        ensures
            r.deep_view() == self.deep_view(),
    {
        EnvContribution {
            name: self.name.clone(),
            value: self.value.clone(),
            provenance: self.provenance.clone(),
        }
    }
}

/// One mount contribution: an allowlist triple plus provenance.
#[derive(Debug)]
pub struct MountContribution {
    /// Mount triple validated by the existing mount rules.
    pub triple: MountTriple,
    /// Contribution source for policy scoping.
    pub provenance: Provenance,
}

/// What a mount contribution says.
pub struct MountContributionView {
    pub triple: TripleView,
    pub provenance: ProvenanceView,
}

impl DeepView for MountContribution {
    type V = MountContributionView;

    open spec fn deep_view(&self) -> MountContributionView {
        MountContributionView {
            triple: self.triple.deep_view(),
            provenance: self.provenance.deep_view(),
        }
    }
}

impl Clone for MountContribution {
    fn clone(&self) -> (r: Self)
        ensures
            r.deep_view() == self.deep_view(),
    {
        MountContribution { triple: self.triple.clone(), provenance: self.provenance.clone() }
    }
}

/// Policy severity: acknowledgement-escapable or absolute.
#[derive(Debug, Clone, Copy, PartialEq, Eq, Structural)]
pub enum Severity {
    /// Refuses unless an exact-name acknowledgement exists (user policy
    /// only; compiled defaults are suppressible only).
    Suppressible,
    /// Refuses unconditionally; site authority only.
    Inviolable,
}

/// Policy scope: every value or extension contributions only.
#[derive(Debug, Clone, Copy, PartialEq, Eq, Structural)]
pub enum Scope {
    /// Matches any provenance.
    Universal,
    /// Matches extension contributions only.
    OnExtensions,
}

/// One policy claim inside a prepare transaction.
///
/// Shape-checked at merge (non-empty pattern); lattice evaluation against
/// site/user/defaults is the prepare transaction's work, not the merge's.
#[derive(Debug)]
pub struct PolicyClaim {
    /// Name or pattern the claim constrains.
    pub pattern: String,
    /// Claimed severity (tighten-only against applicable rules).
    pub severity: Severity,
    /// Claimed scope.
    pub scope: Scope,
}

/// What a policy claim says.
pub struct ClaimView {
    pub pattern: Seq<char>,
    pub severity: Severity,
    pub scope: Scope,
}

impl DeepView for PolicyClaim {
    type V = ClaimView;

    open spec fn deep_view(&self) -> ClaimView {
        ClaimView { pattern: self.pattern@, severity: self.severity, scope: self.scope }
    }
}

impl Clone for PolicyClaim {
    fn clone(&self) -> (r: Self)
        ensures
            r.deep_view() == self.deep_view(),
    {
        PolicyClaim { pattern: self.pattern.clone(), severity: self.severity, scope: self.scope }
    }
}

/// One guest-hook request: pre-exec wrapper presence.
///
/// The extension never selects channel numbers: ordering is an explicit
/// sequence position, and the framework assigns the diagnostics channel in
/// the accepted-plan response.
#[derive(Debug)]
pub struct GuestHookRequest {
    /// Composition position (duplicate positions across hooks refuse at
    /// merge).
    pub order: u32,
    /// Wrapper argv prefix; harness argv appends verbatim after it.
    pub argv_prefix: Vec<String>,
    /// Guest-context capability probe operation name.
    pub probe_op: String,
}

/// What a guest-hook request says.
pub struct HookView {
    pub order: u32,
    pub argv_prefix: Seq<Seq<char>>,
    pub probe_op: Seq<char>,
}

impl DeepView for GuestHookRequest {
    type V = HookView;

    open spec fn deep_view(&self) -> HookView {
        HookView {
            order: self.order,
            argv_prefix: self.argv_prefix.deep_view(),
            probe_op: self.probe_op@,
        }
    }
}

impl Clone for GuestHookRequest {
    fn clone(&self) -> (r: Self)
        ensures
            r.deep_view() == self.deep_view(),
    {
        GuestHookRequest {
            order: self.order,
            argv_prefix: text::copy_texts(&self.argv_prefix),
            probe_op: self.probe_op.clone(),
        }
    }
}

/// The single prepare transaction: separately-typed contribution sets.
///
/// Untrusted input at every step; [`merge_prepare`] validates and merges
/// atomically.
#[derive(Debug)]
pub struct PreparePlan {
    /// Environment contributions.
    pub environment: Vec<EnvContribution>,
    /// Mount contributions.
    pub mounts: Vec<MountContribution>,
    /// Policy claims scoped to this transaction.
    pub policy_claims: Vec<PolicyClaim>,
    /// Guest-hook requests.
    pub guest_hooks: Vec<GuestHookRequest>,
}

/// What a prepare transaction says.
pub struct PlanView {
    pub environment: Seq<EnvView>,
    pub mounts: Seq<MountContributionView>,
    pub policy_claims: Seq<ClaimView>,
    pub guest_hooks: Seq<HookView>,
}

impl DeepView for PreparePlan {
    type V = PlanView;

    open spec fn deep_view(&self) -> PlanView {
        PlanView {
            environment: self.environment.deep_view(),
            mounts: self.mounts.deep_view(),
            policy_claims: self.policy_claims.deep_view(),
            guest_hooks: self.guest_hooks.deep_view(),
        }
    }
}

/// Centrally merged plan: validated, spine-ordered, ready to gate.
///
/// Environment keeps first-seen spine order; mounts keep plan order after
/// topology validation; hooks sort by declared order.
#[derive(Debug)]
pub struct MergedPlan {
    /// Merged `(name, value)` pairs in spine order.
    pub environment: Vec<(String, String)>,
    /// Merged mount triples in plan order.
    pub mounts: Vec<MountTriple>,
    /// Shape-checked policy claims for lattice evaluation.
    pub policy_claims: Vec<PolicyClaim>,
    /// Guest hooks in composition order.
    pub guest_hooks: Vec<GuestHookRequest>,
}

/// What a merged plan says.
pub struct MergedView {
    pub environment: Seq<(Seq<char>, Seq<char>)>,
    pub mounts: Seq<TripleView>,
    pub policy_claims: Seq<ClaimView>,
    pub guest_hooks: Seq<HookView>,
}

impl DeepView for MergedPlan {
    type V = MergedView;

    open spec fn deep_view(&self) -> MergedView {
        MergedView {
            environment: self.environment.deep_view(),
            mounts: self.mounts.deep_view(),
            policy_claims: self.policy_claims.deep_view(),
            guest_hooks: self.guest_hooks.deep_view(),
        }
    }
}

/// Framework-owned baseline inputs for central merge.
///
/// The extension's sets never merge in isolation: environment contributions
/// collide against the full destination namespace, and mount contributions
/// validate jointly with the full emitted set.
#[derive(Debug)]
pub struct MergeContext {
    /// Container home for topology validation.
    pub container_home: String,
    /// Reserved env names (profile + driver namespace).
    pub reserved_env: Vec<String>,
    /// Already-emitted mount triples (profile/CLI/session/...).
    pub occupied_mounts: Vec<MountTriple>,
}

/// What a merge context says.
pub struct ContextView {
    pub container_home: Seq<char>,
    pub reserved_env: Seq<Seq<char>>,
    pub occupied_mounts: Seq<TripleView>,
}

impl DeepView for MergeContext {
    type V = ContextView;

    open spec fn deep_view(&self) -> ContextView {
        ContextView {
            container_home: self.container_home@,
            reserved_env: self.reserved_env.deep_view(),
            occupied_mounts: self.occupied_mounts.deep_view(),
        }
    }
}

impl MergeContext {
    /// Baseline inputs for central merge.
    pub fn new(
        container_home: &str,
        reserved_env: Vec<String>,
        occupied_mounts: Vec<MountTriple>,
    ) -> (c: Self)
        ensures
            c.container_home@ == container_home@,
            c.reserved_env == reserved_env,
            c.occupied_mounts == occupied_mounts,
    {
        MergeContext {
            container_home: container_home.to_owned(),
            reserved_env,
            occupied_mounts,
        }
    }

    /// Standalone merge with no baseline.
    ///
    /// Callers that conduct sessions must fill the full destination
    /// namespace and emitted mount set instead: an empty context skips
    /// collision checks.
    pub fn empty(container_home: &str) -> (c: Self)
        ensures
            c.container_home@ == container_home@,
            c.reserved_env@.len() == 0,
            c.occupied_mounts@.len() == 0,
    {
        MergeContext {
            container_home: container_home.to_owned(),
            reserved_env: Vec::new(),
            occupied_mounts: Vec::new(),
        }
    }
}

// ---------------------------------------------------------------------
// Merge model
// ---------------------------------------------------------------------

/// A refusal of another class, reported as a contract violation.
pub open spec fn as_contract(e: ErrorView) -> ErrorView {
    ErrorView::Contract(e.rendered())
}

/// Refusal of a contribution type that was not advertised.
pub open spec fn unadvertised(what: Seq<char>) -> Option<ErrorView> {
    Some(ErrorView::Contract("guest returned unadvertised contribution type: "@ + what))
}

/// First non-empty contribution set whose type was not advertised.
pub open spec fn gate_fault(plan: PlanView, advertised: Set<Capability>) -> Option<ErrorView> {
    if plan.environment.len() > 0 && !advertised.contains(Capability::Environment) {
        unadvertised("environment"@)
    } else if plan.mounts.len() > 0 && !advertised.contains(Capability::Mounts) {
        unadvertised("mounts"@)
    } else if plan.policy_claims.len() > 0 && !advertised.contains(Capability::PolicyClaims) {
        unadvertised("policy-claims"@)
    } else if plan.guest_hooks.len() > 0 && !advertised.contains(Capability::GuestHooks) {
        unadvertised("guest-hooks"@)
    } else {
        None
    }
}

/// First contribution at or after `k` with a bad name or value.
pub open spec fn env_shape_fault(env: Seq<EnvView>, k: int) -> Option<ErrorView>
    decreases env.len() - k,
{
    if k < 0 || k >= env.len() {
        None
    } else if !profile::env_name(env[k].name) {
        Some(as_contract(profile::env_name_error(env[k].name, "contribution"@)))
    } else if text::has_control(env[k].value) {
        Some(
            ErrorView::Contract(
                "contribution value must not contain control characters: "@ + env[k].name,
            ),
        )
    } else {
        env_shape_fault(env, k + 1)
    }
}

/// First contribution at or after `k` on a reserved name.
pub open spec fn reserved_fault(env: Seq<EnvView>, reserved: Seq<Seq<char>>, k: int) -> Option<
    ErrorView,
>
    decreases env.len() - k,
{
    if k < 0 || k >= env.len() {
        None
    } else if reserved.contains(env[k].name) {
        Some(ErrorView::Contract("contribution collides with reserved name: "@ + env[k].name))
    } else {
        reserved_fault(env, reserved, k + 1)
    }
}

/// First contribution at or after `k` whose name came before.
pub open spec fn env_duplicate(env: Seq<EnvView>, k: int) -> Option<ErrorView>
    decreases env.len() - k,
{
    if k < 0 || k >= env.len() {
        None
    } else if exists|j: int| 0 <= j < k && (#[trigger] env[j]).name == env[k].name {
        Some(ErrorView::Contract("duplicate environment contribution: "@ + env[k].name))
    } else {
        env_duplicate(env, k + 1)
    }
}

/// Name and value pairs of the contributions, in order.
pub open spec fn env_pairs(env: Seq<EnvView>) -> Seq<(Seq<char>, Seq<char>)> {
    env.map_values(|c: EnvView| (c.name, c.value))
}

/// Triples of the mount contributions, in order.
pub open spec fn contributed_triples(mounts: Seq<MountContributionView>) -> Seq<TripleView> {
    mounts.map_values(|c: MountContributionView| c.triple)
}

/// Whether every claim names something.
pub open spec fn claims_shaped(claims: Seq<ClaimView>) -> bool {
    forall|i: int| 0 <= i < claims.len() ==> (#[trigger] claims[i]).pattern.len() > 0
}

/// First hook at or after `k` without an argv prefix or a probe operation.
pub open spec fn hook_shape_fault(hooks: Seq<HookView>, k: int) -> Option<ErrorView>
    decreases hooks.len() - k,
{
    if k < 0 || k >= hooks.len() {
        None
    } else if hooks[k].argv_prefix.len() == 0 {
        Some(
            ErrorView::Contract(
                "guest hook argv prefix must not be empty: order "@ + text::dec(
                    hooks[k].order as nat,
                ),
            ),
        )
    } else if hooks[k].probe_op.len() == 0 {
        Some(
            ErrorView::Contract(
                "guest hook probe op must not be empty: order "@ + text::dec(hooks[k].order as nat),
            ),
        )
    } else {
        hook_shape_fault(hooks, k + 1)
    }
}

/// First hook at or after `k` whose order came before.
pub open spec fn hook_duplicate(hooks: Seq<HookView>, k: int) -> Option<ErrorView>
    decreases hooks.len() - k,
{
    if k < 0 || k >= hooks.len() {
        None
    } else if exists|j: int| 0 <= j < k && (#[trigger] hooks[j]).order == hooks[k].order {
        Some(
            ErrorView::Contract("duplicate guest hook order: "@ + text::dec(hooks[k].order as nat)),
        )
    } else {
        hook_duplicate(hooks, k + 1)
    }
}

/// Hook orders with the index of their hook.
pub open spec fn hook_entries(hooks: Seq<HookView>) -> Seq<(nat, int)> {
    Seq::new(hooks.len(), |i: int| (hooks[i].order as nat, i))
}

/// Hook indices in composition order.
pub open spec fn hook_order(hooks: Seq<HookView>) -> Seq<(nat, int)> {
    order::stable_sort(hook_entries(hooks), order::by_key::<order::Weight>())
}

/// Hooks in composition order.
pub open spec fn ordered_hooks(hooks: Seq<HookView>) -> Seq<HookView> {
    hook_order(hooks).map_values(|e: (nat, int)| hooks[e.1])
}

/// Resolved host paths of the contributed mounts: the ones behind those of
/// the occupied mounts.
pub open spec fn contributed_hosts(hosts: Seq<Seq<char>>, occupied: nat) -> Seq<Seq<char>> {
    if occupied <= hosts.len() {
        hosts.skip(occupied as int)
    } else {
        Seq::empty()
    }
}

/// First fault of the contributions each by its own type's rules:
/// environment, mounts, hooks.
pub open spec fn type_fault(
    plan: PlanView,
    context: ContextView,
    hosts: Seq<Seq<char>>,
) -> Option<ErrorView> {
    if let Some(e) = env_shape_fault(plan.environment, 0) {
        Some(e)
    } else if let Some(e) = mount::mounts_fault(
        contributed_triples(plan.mounts),
        context.container_home,
        contributed_hosts(hosts, context.occupied_mounts.len()),
    ) {
        Some(as_contract(e))
    } else {
        hook_shape_fault(plan.guest_hooks, 0)
    }
}

/// First collision of a contribution with what the framework holds: reserved
/// names, then mounts jointly with the occupied ones.
pub open spec fn collision_fault(
    plan: PlanView,
    context: ContextView,
    hosts: Seq<Seq<char>>,
) -> Option<ErrorView> {
    let joint = context.occupied_mounts + contributed_triples(plan.mounts);
    if let Some(e) = reserved_fault(plan.environment, context.reserved_env, 0) {
        Some(e)
    } else if let Some(e) = mount::mounts_fault(joint, context.container_home, hosts) {
        Some(as_contract(e))
    } else {
        None
    }
}

/// First duplicate among the contributions: names, then hook orders.
pub open spec fn duplicate_fault(plan: PlanView) -> Option<ErrorView> {
    if let Some(e) = env_duplicate(plan.environment, 0) {
        Some(e)
    } else {
        hook_duplicate(plan.guest_hooks, 0)
    }
}

/// What a prepare transaction merges to. The order of refusal: capability
/// gate, each type's own rules, collisions, duplicates, claim shapes.
pub open spec fn merged(
    plan: PlanView,
    advertised: Set<Capability>,
    context: ContextView,
    hosts: Seq<Seq<char>>,
) -> std::result::Result<MergedView, ErrorView> {
    if let Some(e) = gate_fault(plan, advertised) {
        Err(e)
    } else if let Some(e) = type_fault(plan, context, hosts) {
        Err(e)
    } else if let Some(e) = collision_fault(plan, context, hosts) {
        Err(e)
    } else if let Some(e) = duplicate_fault(plan) {
        Err(e)
    } else if !claims_shaped(plan.policy_claims) {
        Err(ErrorView::Contract("policy claim pattern must not be empty"@))
    } else {
        Ok(
            MergedView {
                environment: env_pairs(plan.environment),
                mounts: contributed_triples(plan.mounts),
                policy_claims: plan.policy_claims,
                guest_hooks: ordered_hooks(plan.guest_hooks),
            },
        )
    }
}

// ---------------------------------------------------------------------
// Merge
// ---------------------------------------------------------------------

/// Reports a refusal of another class as a contract violation.
pub fn contract_error(error: CistellaError) -> (e: CistellaError)
    ensures
        e@ == as_contract(error@),
{
    CistellaError::Contract(error.render())
}

fn refuse_unadvertised(what: &str) -> (r: Result<()>)
    ensures
        r matches Err(e) && Some(e@) == unadvertised(what@),
{
    Err(CistellaError::Contract(text::cat("guest returned unadvertised contribution type: ", what)))
}

fn gate_capabilities(plan: &PreparePlan, advertised: &CapabilitySet) -> (r: Result<()>)
    ensures
        match gate_fault(plan.deep_view(), advertised@) {
            Some(e) => r matches Err(x) && x@ == e,
            None => r is Ok,
        },
{
    if plan.environment.len() > 0 && !advertised.allows(Capability::Environment) {
        refuse_unadvertised("environment")
    } else if plan.mounts.len() > 0 && !advertised.allows(Capability::Mounts) {
        refuse_unadvertised("mounts")
    } else if plan.policy_claims.len() > 0 && !advertised.allows(Capability::PolicyClaims) {
        refuse_unadvertised("policy-claims")
    } else if plan.guest_hooks.len() > 0 && !advertised.allows(Capability::GuestHooks) {
        refuse_unadvertised("guest-hooks")
    } else {
        Ok(())
    }
}

fn check_env_shapes(contributions: &Vec<EnvContribution>) -> (r: Result<()>)
    ensures
        match env_shape_fault(contributions.deep_view(), 0) {
            Some(e) => r matches Err(x) && x@ == e,
            None => r is Ok,
        },
{
    let ghost env = contributions.deep_view();
    let mut k: usize = 0;
    while k < contributions.len()
        invariant
            env == contributions.deep_view(),
            k <= contributions@.len(),
            env_shape_fault(env, 0) == env_shape_fault(env, k as int),
        decreases contributions.len() - k,
    {
        let c = &contributions[k];
        assert(env[k as int] == c.deep_view());
        match profile::validate_env_name(c.name.as_str(), "contribution") {
            Ok(_) => {},
            Err(e) => {
                return Err(contract_error(e));
            },
        }
        if text::has_control_char(c.value.as_str()) {
            return Err(
                CistellaError::Contract(
                    text::cat(
                        "contribution value must not contain control characters: ",
                        c.name.as_str(),
                    ),
                ),
            );
        }
        k = k + 1;
    }
    Ok(())
}

fn check_reserved(contributions: &Vec<EnvContribution>, reserved: &Vec<String>) -> (r: Result<()>)
    ensures
        match reserved_fault(contributions.deep_view(), reserved.deep_view(), 0) {
            Some(e) => r matches Err(x) && x@ == e,
            None => r is Ok,
        },
{
    let ghost env = contributions.deep_view();
    let ghost res = reserved.deep_view();
    let mut k: usize = 0;
    while k < contributions.len()
        invariant
            env == contributions.deep_view(),
            res == reserved.deep_view(),
            k <= contributions@.len(),
            reserved_fault(env, res, 0) == reserved_fault(env, res, k as int),
        decreases contributions.len() - k,
    {
        let c = &contributions[k];
        assert(env[k as int] == c.deep_view());
        if text::has_text(reserved, c.name.as_str()) {
            return Err(
                CistellaError::Contract(
                    text::cat("contribution collides with reserved name: ", c.name.as_str()),
                ),
            );
        }
        k = k + 1;
    }
    Ok(())
}

/// The pairs of the contributions, or the first name that comes twice.
fn merge_environment(contributions: &Vec<EnvContribution>) -> (r: Result<Vec<(String, String)>>)
    ensures
        match env_duplicate(contributions.deep_view(), 0) {
            Some(e) => r matches Err(x) && x@ == e,
            None => r matches Ok(v) && v.deep_view() == env_pairs(contributions.deep_view()),
        },
{
    let ghost env = contributions.deep_view();
    let mut seen: Vec<String> = Vec::new();
    let mut merged: Vec<(String, String)> = Vec::new();
    let mut k: usize = 0;
    while k < contributions.len()
        invariant
            env == contributions.deep_view(),
            k <= contributions@.len(),
            seen.deep_view() =~= Seq::new(k as nat, |j: int| env[j].name),
            merged.deep_view() =~= env_pairs(env).take(k as int),
            env_duplicate(env, 0) == env_duplicate(env, k as int),
        decreases contributions.len() - k,
    {
        let c = &contributions[k];
        assert(env[k as int] == c.deep_view());
        let ghost before = seen.deep_view();
        let ghost pairs = merged.deep_view();
        if text::has_text(&seen, c.name.as_str()) {
            proof {
                let j = choose|j: int| 0 <= j < before.len() && before[j] == c.name@;
                assert(env[j].name == c.name@);
            }
            return Err(
                CistellaError::Contract(
                    text::cat("duplicate environment contribution: ", c.name.as_str()),
                ),
            );
        }
        assert(!(exists|j: int| 0 <= j < k && (#[trigger] env[j]).name == c.name@)) by {
            if exists|j: int| 0 <= j < k && (#[trigger] env[j]).name == c.name@ {
                let j = choose|j: int| 0 <= j < k && (#[trigger] env[j]).name == c.name@;
                assert(before[j] == c.name@);
            }
        }
        seen.push(c.name.clone());
        assert(seen.deep_view() =~= before.push(env[k as int].name));
        merged.push((c.name.clone(), c.value.clone()));
        assert(merged.deep_view() =~= pairs.push((env[k as int].name, env[k as int].value)));
        k = k + 1;
    }
    assert(env_pairs(env).take(k as int) =~= env_pairs(env));
    Ok(merged)
}

fn check_claims(claims: &Vec<PolicyClaim>) -> (r: Result<Vec<PolicyClaim>>)
    ensures
        if claims_shaped(claims.deep_view()) {
            r matches Ok(v) && v.deep_view() == claims.deep_view()
        } else {
            r matches Err(e) && e@ == ErrorView::Contract(
                "policy claim pattern must not be empty"@,
            )
        },
{
    let ghost all = claims.deep_view();
    let mut out: Vec<PolicyClaim> = Vec::new();
    let mut k: usize = 0;
    while k < claims.len()
        invariant
            all == claims.deep_view(),
            k <= claims@.len(),
            out.deep_view() =~= all.take(k as int),
            forall|i: int| 0 <= i < k ==> (#[trigger] all[i]).pattern.len() > 0,
        decreases claims.len() - k,
    {
        assert(all[k as int] == claims@[k as int].deep_view());
        let ghost before = out.deep_view();
        if claims[k].pattern.as_str().is_empty() {
            return Err(
                CistellaError::Contract("policy claim pattern must not be empty".to_owned()),
            );
        }
        out.push(claims[k].clone());
        assert(out.deep_view() =~= before.push(all[k as int]));
        k = k + 1;
    }
    Ok(out)
}

fn check_hook_shapes(hooks: &Vec<GuestHookRequest>) -> (r: Result<()>)
    ensures
        match hook_shape_fault(hooks.deep_view(), 0) {
            Some(e) => r matches Err(x) && x@ == e,
            None => r is Ok,
        },
{
    let ghost all = hooks.deep_view();
    let mut k: usize = 0;
    while k < hooks.len()
        invariant
            all == hooks.deep_view(),
            k <= hooks@.len(),
            hook_shape_fault(all, 0) == hook_shape_fault(all, k as int),
        decreases hooks.len() - k,
    {
        let h = &hooks[k];
        assert(all[k as int] == h.deep_view());
        let n = text::dec_u64(h.order as u64);
        if h.argv_prefix.len() == 0 {
            return Err(
                CistellaError::Contract(
                    text::cat("guest hook argv prefix must not be empty: order ", n.as_str()),
                ),
            );
        }
        if h.probe_op.as_str().is_empty() {
            return Err(
                CistellaError::Contract(
                    text::cat("guest hook probe op must not be empty: order ", n.as_str()),
                ),
            );
        }
        k = k + 1;
    }
    Ok(())
}

fn check_hook_orders(hooks: &Vec<GuestHookRequest>) -> (r: Result<()>)
    ensures
        match hook_duplicate(hooks.deep_view(), 0) {
            Some(e) => r matches Err(x) && x@ == e,
            None => r is Ok,
        },
{
    let ghost all = hooks.deep_view();
    let mut k: usize = 0;
    while k < hooks.len()
        invariant
            all == hooks.deep_view(),
            k <= hooks@.len(),
            hook_duplicate(all, 0) == hook_duplicate(all, k as int),
        decreases hooks.len() - k,
    {
        let h = &hooks[k];
        assert(all[k as int] == h.deep_view());
        let mut j: usize = 0;
        while j < k
            invariant
                all == hooks.deep_view(),
                k < hooks@.len(),
                h.deep_view() == all[k as int],
                j <= k,
                forall|i: int| 0 <= i < j ==> (#[trigger] all[i]).order != h.order,
                hook_duplicate(all, 0) == hook_duplicate(all, k as int),
            decreases k - j,
        {
            assert(all[j as int] == hooks@[j as int].deep_view());
            if hooks[j].order == h.order {
                let n = text::dec_u64(h.order as u64);
                return Err(
                    CistellaError::Contract(
                        text::cat("duplicate guest hook order: ", n.as_str()),
                    ),
                );
            }
            j = j + 1;
        }
        k = k + 1;
    }
    Ok(())
}

fn hosts_behind(hosts: &[String], occupied: usize) -> (out: Vec<String>)
    ensures
        out.deep_view() == contributed_hosts(hosts.deep_view(), occupied as nat),
{
    let ghost all = contributed_hosts(hosts.deep_view(), occupied as nat);
    let mut out: Vec<String> = Vec::new();
    let mut k: usize = occupied;
    while k < hosts.len()
        invariant
            all == contributed_hosts(hosts.deep_view(), occupied as nat),
            occupied <= k,
            k <= hosts@.len() || k == occupied,
            out.deep_view() =~= all.take(k - occupied),
        decreases hosts.len() - k,
    {
        let ghost before = out.deep_view();
        assert(all[k - occupied] == hosts@[k as int]@);
        out.push(hosts[k].clone());
        assert(out.deep_view() =~= before.push(all[k - occupied]));
        k = k + 1;
    }
    assert(out.deep_view() =~= all);
    out
}

fn type_checks(
    plan: &PreparePlan,
    contributed: &Vec<MountTriple>,
    context: &MergeContext,
    hosts: &[String],
) -> (r: Result<()>)
    requires
        contributed.deep_view() == contributed_triples(plan.mounts.deep_view()),
    ensures
        match type_fault(plan.deep_view(), context.deep_view(), hosts.deep_view()) {
            Some(e) => r matches Err(x) && x@ == e,
            None => r is Ok,
        },
{
    check_env_shapes(&plan.environment)?;
    let own = hosts_behind(hosts, context.occupied_mounts.len());
    match mount::validate_mounts(contributed, context.container_home.as_str(), &own) {
        Ok(_) => {},
        Err(e) => {
            return Err(contract_error(e));
        },
    }
    check_hook_shapes(&plan.guest_hooks)
}

fn collision_checks(
    plan: &PreparePlan,
    joint: &Vec<MountTriple>,
    context: &MergeContext,
    hosts: &[String],
) -> (r: Result<()>)
    requires
        joint.deep_view() == context.deep_view().occupied_mounts + contributed_triples(
            plan.mounts.deep_view(),
        ),
    ensures
        match collision_fault(plan.deep_view(), context.deep_view(), hosts.deep_view()) {
            Some(e) => r matches Err(x) && x@ == e,
            None => r is Ok,
        },
{
    check_reserved(&plan.environment, &context.reserved_env)?;
    match mount::validate_mounts(joint, context.container_home.as_str(), hosts) {
        Ok(_) => Ok(()),
        Err(e) => Err(contract_error(e)),
    }
}

/// Hooks in composition order.
fn order_hooks(hooks: &Vec<GuestHookRequest>) -> (out: Vec<GuestHookRequest>)
    ensures
        out.deep_view() == ordered_hooks(hooks.deep_view()),
{
    let ghost all = hooks.deep_view();
    let mut entries: Vec<(order::Weight, usize)> = Vec::new();
    let mut k: usize = 0;
    while k < hooks.len()
        invariant
            all == hooks.deep_view(),
            k <= hooks@.len(),
            order::entries_view(entries@) =~= hook_entries(all).take(k as int),
        decreases hooks.len() - k,
    {
        let ghost before = order::entries_view(entries@);
        assert(all[k as int] == hooks@[k as int].deep_view());
        entries.push((order::Weight { value: hooks[k].order as u64 }, k));
        assert(order::entries_view(entries@) =~= before.push(hook_entries(all)[k as int]));
        k = k + 1;
    }
    assert(order::entries_view(entries@) =~= hook_entries(all));
    let sorted = order::sort_entries(entries);
    let ghost e = hook_order(all);
    proof {
        lemma_hook_order(all);
    }
    let mut out: Vec<GuestHookRequest> = Vec::new();
    let mut i: usize = 0;
    while i < sorted.len()
        invariant
            all == hooks.deep_view(),
            e == order::entries_view(sorted@),
            e == hook_order(all),
            i <= sorted@.len(),
            forall|p: int| 0 <= p < e.len() ==> 0 <= (#[trigger] e[p]).1 < all.len(),
            out.deep_view() =~= ordered_hooks(all).take(i as int),
        decreases sorted.len() - i,
    {
        let ghost before = out.deep_view();
        assert(e[i as int] == (sorted@[i as int].0.deep_view(), sorted@[i as int].1 as int));
        let h = &hooks[sorted[i].1];
        assert(all[e[i as int].1] == h.deep_view());
        out.push(h.clone());
        assert(out.deep_view() =~= before.push(ordered_hooks(all)[i as int]));
        i = i + 1;
    }
    assert(ordered_hooks(all).take(i as int) =~= ordered_hooks(all));
    out
}

/// Validates and centrally merges one prepare transaction.
///
/// Atomic: the result is either a whole merged plan or a typed refusal. In
/// order: capability advertisement gate (non-empty sets need their type
/// advertised), per-type validation (name grammar, value gate, mount
/// topology, hook shapes), destination collisions (names against the
/// reserved ones, mounts jointly with the occupied set), duplicates (names,
/// hook orders), claim shapes. Diagnostics name variables, never values.
/// `canonical_hosts` holds the resolved host paths of the occupied mounts
/// followed by the contributed ones.
pub fn merge_prepare(
    plan: PreparePlan,
    advertised: &CapabilitySet,
    context: &MergeContext,
    canonical_hosts: &[String],
) -> (r: Result<MergedPlan>)
    ensures
        crate::error::agrees(
            r,
            merged(
                plan.deep_view(),
                advertised@,
                context.deep_view(),
                canonical_hosts.deep_view(),
            ),
        ),
{
    match gate_capabilities(&plan, advertised) {
        Ok(_) => {},
        Err(e) => {
            return Err(e);
        },
    }
    let mut triples = mount::copy_triples(&context.occupied_mounts);
    let mut contributed: Vec<MountTriple> = Vec::new();
    let ghost mv = plan.mounts.deep_view();
    let ghost occupied = context.occupied_mounts.deep_view();
    let mut k: usize = 0;
    assert(triples.deep_view() =~= occupied + contributed_triples(mv).take(0));
    while k < plan.mounts.len()
        invariant
            mv == plan.mounts.deep_view(),
            k <= plan.mounts@.len(),
            triples.deep_view() =~= occupied + contributed_triples(mv).take(k as int),
            contributed.deep_view() =~= contributed_triples(mv).take(k as int),
        decreases plan.mounts.len() - k,
    {
        let ghost t0 = triples.deep_view();
        let ghost c0 = contributed.deep_view();
        assert(mv[k as int] == plan.mounts@[k as int].deep_view());
        triples.push(plan.mounts[k].triple.clone());
        contributed.push(plan.mounts[k].triple.clone());
        assert(triples.deep_view() =~= t0.push(mv[k as int].triple));
        assert(contributed.deep_view() =~= c0.push(mv[k as int].triple));
        k = k + 1;
    }
    assert(contributed_triples(mv).take(k as int) =~= contributed_triples(mv));
    type_checks(&plan, &contributed, context, canonical_hosts)?;
    collision_checks(&plan, &triples, context, canonical_hosts)?;
    let environment = merge_environment(&plan.environment)?;
    check_hook_orders(&plan.guest_hooks)?;
    let policy_claims = check_claims(&plan.policy_claims)?;
    let guest_hooks = order_hooks(&plan.guest_hooks);
    Ok(MergedPlan { environment, mounts: contributed, policy_claims, guest_hooks })
}

// ---------------------------------------------------------------------
// Laws of the merge
// ---------------------------------------------------------------------

proof fn lemma_hook_order(hooks: Seq<HookView>)
    ensures
        hook_order(hooks).len() == hooks.len(),
        hook_order(hooks).no_duplicates(),
        forall|p: int|
            0 <= p < hook_order(hooks).len() ==> 0 <= (#[trigger] hook_order(hooks)[p]).1
                < hooks.len() && hook_order(hooks)[p].0 == hooks[hook_order(hooks)[p].1].order,
        forall|p: int, q: int|
            0 <= p < q < hook_order(hooks).len() ==> hook_order(hooks)[p].0 <= hook_order(
                hooks,
            )[q].0,
{
    let e = hook_order(hooks);
    let all = hook_entries(hooks);
    let le = order::by_key::<order::Weight>();
    order::lemma_stable_sort_members(all, le);
    order::lemma_stable_sort(all, le);
    assert forall|p: int| 0 <= p < e.len() implies 0 <= (#[trigger] e[p]).1 < hooks.len()
        && e[p].0 == hooks[e[p].1].order by {
        assert(e.contains(e[p]));
        assert(all.contains(e[p]));
    }
    assert(all.no_duplicates());
    all.lemma_multiset_has_no_duplicates();
    e.lemma_multiset_has_no_duplicates_conv();
    assert forall|p: int, q: int| 0 <= p < q < e.len() implies e[p].0 <= e[q].0 by {
        assert(le(e[p], e[q]));
    }
}

proof fn lemma_sound_env(env: Seq<EnvView>, reserved: Seq<Seq<char>>, k: int, i: int)
    requires
        env_shape_fault(env, k) is None,
        reserved_fault(env, reserved, k) is None,
        env_duplicate(env, k) is None,
        0 <= k <= i < env.len(),
    ensures
        profile::env_name(env[i].name),
        !text::has_control(env[i].value),
        !reserved.contains(env[i].name),
        forall|j: int| 0 <= j < i ==> (#[trigger] env[j]).name != env[i].name,
    decreases env.len() - k,
{
    if k < i {
        lemma_sound_env(env, reserved, k + 1, i);
    }
}

proof fn lemma_distinct_orders(hooks: Seq<HookView>, k: int, i: int)
    requires
        hook_duplicate(hooks, k) is None,
        0 <= k <= i < hooks.len(),
    ensures
        forall|j: int| 0 <= j < i ==> (#[trigger] hooks[j]).order != hooks[i].order,
    decreases hooks.len() - k,
{
    if k < i {
        lemma_distinct_orders(hooks, k + 1, i);
    }
}

/// A merged environment holds each contribution once, in order, with valid
/// names that are not reserved, and values without control characters.
pub proof fn law_merged_environment(
    plan: PlanView,
    advertised: Set<Capability>,
    context: ContextView,
    hosts: Seq<Seq<char>>,
    i: int,
    j: int,
)
    requires
        merged(plan, advertised, context, hosts) is Ok,
        0 <= i < j < plan.environment.len(),
    ensures
        ({
            let m = merged(plan, advertised, context, hosts)->Ok_0;
            &&& m.environment.len() == plan.environment.len()
            &&& m.environment[j] == (plan.environment[j].name, plan.environment[j].value)
            &&& m.environment[i].0 != m.environment[j].0
            &&& profile::env_name(m.environment[j].0)
            &&& !text::has_control(m.environment[j].1)
            &&& !context.reserved_env.contains(m.environment[j].0)
        }),
{
    lemma_sound_env(plan.environment, context.reserved_env, 0, j);
    assert(plan.environment[i].name != plan.environment[j].name);
}

/// Whether two lists of contributions have the same names, and values that
/// hold control characters in the same places.
pub open spec fn same_names(a: Seq<EnvView>, b: Seq<EnvView>) -> bool {
    &&& a.len() == b.len()
    &&& forall|i: int|
        0 <= i < a.len() ==> (#[trigger] a[i]).name == b[i].name && text::has_control(a[i].value)
            == text::has_control(b[i].value)
}

proof fn lemma_env_faults_name_no_values(
    a: Seq<EnvView>,
    b: Seq<EnvView>,
    reserved: Seq<Seq<char>>,
    k: int,
)
    requires
        0 <= k,
        same_names(a, b),
    ensures
        env_shape_fault(a, k) == env_shape_fault(b, k),
        reserved_fault(a, reserved, k) == reserved_fault(b, reserved, k),
        env_duplicate(a, k) == env_duplicate(b, k),
    decreases a.len() - k,
{
    if k < a.len() {
        assert(a[k].name == b[k].name);
        if exists|j: int| 0 <= j < k && (#[trigger] a[j]).name == a[k].name {
            let j = choose|j: int| 0 <= j < k && (#[trigger] a[j]).name == a[k].name;
            assert(b[j].name == b[k].name);
        }
        if exists|j: int| 0 <= j < k && (#[trigger] b[j]).name == b[k].name {
            let j = choose|j: int| 0 <= j < k && (#[trigger] b[j]).name == b[k].name;
            assert(a[j].name == a[k].name);
        }
        lemma_env_faults_name_no_values(a, b, reserved, k + 1);
    }
}

/// A refused merge names variables, never values: plans that differ only in
/// the values they contribute are refused in the same words.
pub proof fn law_refusals_name_no_values(
    p: PlanView,
    environment: Seq<EnvView>,
    advertised: Set<Capability>,
    context: ContextView,
    hosts: Seq<Seq<char>>,
)
    requires
        same_names(p.environment, environment),
    ensures
        ({
            let q = PlanView { environment, ..p };
            merged(p, advertised, context, hosts) is Err || merged(q, advertised, context, hosts) is Err
                ==> merged(p, advertised, context, hosts) == merged(q, advertised, context, hosts)
        }),
{
    lemma_env_faults_name_no_values(p.environment, environment, context.reserved_env, 0);
}

proof fn lemma_env_faults_are_contract_errors(
    env: Seq<EnvView>,
    reserved: Seq<Seq<char>>,
    k: int,
)
    ensures
        env_shape_fault(env, k) matches Some(e) ==> e is Contract,
        reserved_fault(env, reserved, k) matches Some(e) ==> e is Contract,
        env_duplicate(env, k) matches Some(e) ==> e is Contract,
    decreases env.len() - k,
{
    if 0 <= k < env.len() {
        lemma_env_faults_are_contract_errors(env, reserved, k + 1);
    }
}

proof fn lemma_hook_faults_are_contract_errors(hooks: Seq<HookView>, k: int)
    ensures
        hook_shape_fault(hooks, k) matches Some(e) ==> e is Contract,
        hook_duplicate(hooks, k) matches Some(e) ==> e is Contract,
    decreases hooks.len() - k,
{
    if 0 <= k < hooks.len() {
        lemma_hook_faults_are_contract_errors(hooks, k + 1);
    }
}

/// Whatever a merge refuses, it refuses as a contract violation.
pub proof fn law_merge_refusals_are_contract_errors(
    plan: PlanView,
    advertised: Set<Capability>,
    context: ContextView,
    hosts: Seq<Seq<char>>,
)
    ensures
        merged(plan, advertised, context, hosts) matches Err(e) ==> e is Contract,
{
    lemma_env_faults_are_contract_errors(plan.environment, context.reserved_env, 0);
    lemma_hook_faults_are_contract_errors(plan.guest_hooks, 0);
}

/// Merged hooks stand in strictly ascending order, one for each request.
pub proof fn law_merged_hooks_ascend(
    plan: PlanView,
    advertised: Set<Capability>,
    context: ContextView,
    hosts: Seq<Seq<char>>,
    p: int,
    q: int,
)
    requires
        merged(plan, advertised, context, hosts) is Ok,
        0 <= p < q < plan.guest_hooks.len(),
    ensures
        ({
            let m = merged(plan, advertised, context, hosts)->Ok_0;
            &&& m.guest_hooks.len() == plan.guest_hooks.len()
            &&& m.guest_hooks[p].order < m.guest_hooks[q].order
            &&& plan.guest_hooks.contains(m.guest_hooks[p])
            &&& plan.guest_hooks.contains(m.guest_hooks[q])
        }),
{
    let hooks = plan.guest_hooks;
    let e = hook_order(hooks);
    lemma_hook_order(hooks);
    let a = e[p].1;
    let b = e[q].1;
    assert(a != b) by {
        if a == b {
            assert(e[p] == e[q]);
        }
    }
    let (lo, hi) = if a < b {
        (a, b)
    } else {
        (b, a)
    };
    lemma_distinct_orders(hooks, 0, hi);
    assert(hooks[lo].order != hooks[hi].order);
}

/// A merge never takes contributions of a type the guest did not advertise.
pub proof fn law_merge_only_advertised(
    plan: PlanView,
    advertised: Set<Capability>,
    context: ContextView,
    hosts: Seq<Seq<char>>,
)
    requires
        merged(plan, advertised, context, hosts) is Ok,
    ensures
        plan.environment.len() > 0 ==> advertised.contains(Capability::Environment),
        plan.mounts.len() > 0 ==> advertised.contains(Capability::Mounts),
        plan.policy_claims.len() > 0 ==> advertised.contains(Capability::PolicyClaims),
        plan.guest_hooks.len() > 0 ==> advertised.contains(Capability::GuestHooks),
{
}

// ---------------------------------------------------------------------
// Identity types
// ---------------------------------------------------------------------

/// Isolator lifecycle state.
#[derive(Debug, Clone, Copy, PartialEq, Eq, Structural)]
pub enum LifecycleState {
    /// Created but not initiated.
    Created,
    /// Initiated/started but not executing.
    Initiated,
    /// Harness executing.
    Executing,
    /// Stopped but present (results replayable until remove).
    Stopped,
    /// Absent (teardown of absent succeeds).
    Absent,
}

/// Wire spelling of a lifecycle state.
pub open spec fn state_text(s: LifecycleState) -> Seq<char> {
    match s {
        LifecycleState::Created => "created"@,
        LifecycleState::Initiated => "initiated"@,
        LifecycleState::Executing => "executing"@,
        LifecycleState::Stopped => "stopped"@,
        LifecycleState::Absent => "absent"@,
    }
}

impl LifecycleState {
    /// Lowercase wire spelling.
    #[must_use]
    pub fn as_wire(self) -> (s: &'static str)
        ensures
            s@ == state_text(self),
    {
        match self {
            LifecycleState::Created => "created",
            LifecycleState::Initiated => "initiated",
            LifecycleState::Executing => "executing",
            LifecycleState::Stopped => "stopped",
            LifecycleState::Absent => "absent",
        }
    }
}

/// Opaque framework-issued unit handle.
///
/// Never a path, never guest-chosen.
#[derive(Debug)]
pub struct UnitHandle(pub String);

impl DeepView for UnitHandle {
    type V = Seq<char>;

    open spec fn deep_view(&self) -> Seq<char> {
        self.0@
    }
}

impl Clone for UnitHandle {
    fn clone(&self) -> (r: Self)
        ensures
            r.deep_view() == self.deep_view(),
    {
        UnitHandle(self.0.clone())
    }
}

impl UnitHandle {
    /// Mints a framework-issued handle at a timestamp with entropy.
    pub fn mint(ms: u64, entropy: &[u8; 5]) -> (h: Self)
        ensures
            h.deep_view() == session::minted_id(ms as nat, entropy@),
    {
        UnitHandle(session::mint_session_id(ms, entropy))
    }

    /// Opaque identifier for wire envelopes.
    #[must_use]
    pub fn as_str(&self) -> (s: &str)
        ensures
            s@ == self.deep_view(),
    {
        self.0.as_str()
    }
}

/// Opaque framework-issued execution handle.
///
/// Redeemed by a later `await_result`; results stay replayable until
/// `remove`.
#[derive(Debug)]
pub struct ExecutionHandle(pub String);

impl DeepView for ExecutionHandle {
    type V = Seq<char>;

    open spec fn deep_view(&self) -> Seq<char> {
        self.0@
    }
}

impl Clone for ExecutionHandle {
    fn clone(&self) -> (r: Self)
        ensures
            r.deep_view() == self.deep_view(),
    {
        ExecutionHandle(self.0.clone())
    }
}

impl ExecutionHandle {
    /// Mints a framework-issued handle at a timestamp with entropy.
    pub fn mint(ms: u64, entropy: &[u8; 5]) -> (h: Self)
        ensures
            h.deep_view() == session::minted_id(ms as nat, entropy@),
    {
        ExecutionHandle(session::mint_session_id(ms, entropy))
    }

    /// Opaque identifier for wire envelopes.
    #[must_use]
    pub fn as_str(&self) -> (s: &str)
        ensures
            s@ == self.deep_view(),
    {
        self.0.as_str()
    }
}

/// Client-supplied reconciliation key: durable resource identity.
///
/// One key per resource attempt, reused across retries of the same attempt.
/// A request-correlation id must never serve as a reconciliation key.
#[derive(Debug)]
pub struct ReconciliationKey(pub String);

impl DeepView for ReconciliationKey {
    type V = Seq<char>;

    open spec fn deep_view(&self) -> Seq<char> {
        self.0@
    }
}

impl Clone for ReconciliationKey {
    fn clone(&self) -> (r: Self)
        ensures
            r.deep_view() == self.deep_view(),
    {
        ReconciliationKey(self.0.clone())
    }
}

impl ReconciliationKey {
    /// Generates a fresh key for a new resource attempt.
    #[must_use]
    pub fn generate(ms: u64, entropy: &[u8; 5]) -> (k: Self)
        ensures
            k.deep_view() == session::minted_id(ms as nat, entropy@),
    {
        ReconciliationKey(session::mint_session_id(ms, entropy))
    }

    /// Reuses the caller-supplied key for a retry of the same attempt.
    #[must_use]
    pub fn reuse(key: &str) -> (k: Self)
        ensures
            k.deep_view() == key@,
    {
        ReconciliationKey(key.to_owned())
    }

    /// Key text for wire envelopes.
    #[must_use]
    pub fn as_str(&self) -> (s: &str)
        ensures
            s@ == self.deep_view(),
    {
        self.0.as_str()
    }
}

/// Pinned extension executable identity for baseline binding.
#[derive(Debug)]
pub struct ExtensionIdentity {
    /// Framework-resolved executable path (never PATH-searched).
    pub executable: String,
    /// Advertised version string.
    pub version: String,
    /// Digest of the opened/stable executable object.
    pub digest: String,
}

/// One named resource assumption covered by the baseline binding.
#[derive(Debug)]
pub struct Assumption {
    /// Assumption name (e.g. `profile`, `unit-image`, `mount-source`).
    pub key: String,
    /// Digest of the assumed state at plan time.
    pub digest: String,
}

impl DeepView for Assumption {
    type V = (Seq<char>, Seq<char>);

    open spec fn deep_view(&self) -> (Seq<char>, Seq<char>) {
        (self.key@, self.digest@)
    }
}

/// Baseline binding carried by every plan.
///
/// After the resource gate is acquired and before apply, the framework
/// revalidates assumptions against live state; drift fails the plan before
/// mutation.
#[derive(Debug)]
pub struct BaselineBinding {
    /// sha256 hex digest of the resolved profile/session input.
    pub profile_digest: String,
    /// Pinned extension identities.
    pub extensions: Vec<ExtensionIdentity>,
    /// Resource-state assumptions to confirm before launch.
    pub assumptions: Vec<Assumption>,
}

/// First assumption at or after `k` that live state does not confirm.
pub open spec fn drifted(
    assumptions: Seq<(Seq<char>, Seq<char>)>,
    live: Seq<(Seq<char>, Seq<char>)>,
    k: int,
) -> Option<Seq<char>>
    decreases assumptions.len() - k,
{
    if k < 0 || k >= assumptions.len() {
        None
    } else if table::lookup(live, assumptions[k].0, 0) == Some(assumptions[k].1) {
        drifted(assumptions, live, k + 1)
    } else {
        Some(assumptions[k].0)
    }
}

impl BaselineBinding {
    /// Revalidates assumptions against live `(key, digest)` state.
    ///
    /// The first drifted or missing assumption fails with an error naming
    /// the key, never the state.
    pub fn revalidate(&self, live: &[(String, String)]) -> (r: Result<()>)
        ensures
            match drifted(self.assumptions.deep_view(), live.deep_view(), 0) {
                Some(key) => r matches Err(e) && e@ == ErrorView::Contract(
                    "plan assumption drifted at gate: "@ + key,
                ),
                None => r is Ok,
            },
    {
        let ghost all = self.assumptions.deep_view();
        let ghost lv = live.deep_view();
        let mut k: usize = 0;
        while k < self.assumptions.len()
            invariant
                all == self.assumptions.deep_view(),
                lv == live.deep_view(),
                k <= self.assumptions@.len(),
                drifted(all, lv, 0) == drifted(all, lv, k as int),
            decreases self.assumptions.len() - k,
        {
            let a = &self.assumptions[k];
            assert(all[k as int] == a.deep_view());
            let held = match table::lookup_text(live, a.key.as_str()) {
                Some(digest) => text::eq(digest, a.digest.as_str()),
                None => false,
            };
            if !held {
                return Err(
                    CistellaError::Contract(
                        text::cat("plan assumption drifted at gate: ", a.key.as_str()),
                    ),
                );
            }
            k = k + 1;
        }
        Ok(())
    }
}

proof fn lemma_drifted(
    assumptions: Seq<(Seq<char>, Seq<char>)>,
    live: Seq<(Seq<char>, Seq<char>)>,
    k: int,
    i: int,
)
    requires
        drifted(assumptions, live, k) is None,
        0 <= k <= i < assumptions.len(),
    ensures
        table::lookup(live, assumptions[i].0, 0) == Some(assumptions[i].1),
    decreases assumptions.len() - k,
{
    if k < i {
        lemma_drifted(assumptions, live, k + 1, i);
    }
}

/// A plan passes its gate only when live state confirms every assumption.
pub proof fn law_revalidated_plan_has_no_drift(
    assumptions: Seq<(Seq<char>, Seq<char>)>,
    live: Seq<(Seq<char>, Seq<char>)>,
    i: int,
)
    requires
        drifted(assumptions, live, 0) is None,
        0 <= i < assumptions.len(),
    ensures
        table::lookup(live, assumptions[i].0, 0) == Some(assumptions[i].1),
{
    lemma_drifted(assumptions, live, 0, i);
}

/// Framework-owned cancellation flag with signal provenance.
///
/// Conduct-level traps record the signal number here; `0` means not
/// cancelled.
#[derive(Debug, Clone, Copy)]
pub struct CancelFlag {
    signum: i32,
}

impl View for CancelFlag {
    type V = i32;

    closed spec fn view(&self) -> i32 {
        self.signum
    }
}

impl CancelFlag {
    /// Fresh uncancelled flag.
    pub fn new() -> (f: Self)
        ensures
            f@ == 0,
    {
        CancelFlag { signum: 0 }
    }

    /// Cancels with the given signal number (e.g. `1`/`15`).
    pub fn cancel_with(&mut self, signum: i32)
        ensures
            final(self)@ == signum,
    {
        self.signum = signum;
    }

    /// True once cancelled.
    #[must_use]
    pub fn is_cancelled(&self) -> (b: bool)
        ensures
            b == (self@ != 0),
    {
        self.signum != 0
    }

    /// Pending signal number, if cancelled.
    #[must_use]
    pub fn signum(&self) -> (r: Option<i32>)
        ensures
            r == (if self@ == 0 {
                None
            } else {
                Some(self@)
            }),
    {
        if self.signum == 0 {
            None
        } else {
            Some(self.signum)
        }
    }
}

/// Framework-owned control-plane deadlines, in milliseconds.
///
/// Every bound is framework-chosen: guests never select timeouts.
#[derive(Debug, Clone, Copy, PartialEq, Eq, Structural)]
pub struct Deadlines {
    /// Hello/negotiation window (short).
    pub hello: u64,
    /// Plan-collection window per guest (bounded).
    pub plan: u64,
    /// Apply window per guest (bounded).
    pub apply: u64,
    /// SIGTERM grace before SIGKILL on teardown/kill.
    pub terminate_grace: u64,
    /// Frame-completion budget once any response byte arrives.
    pub frame_completion: u64,
}

impl Default for Deadlines {
    fn default() -> (d: Self)
        ensures
            d == (Deadlines {
                hello: 5_000,
                plan: 30_000,
                apply: 30_000,
                terminate_grace: 10_000,
                frame_completion: 60_000,
            }),
    {
        Deadlines {
            hello: 5_000,
            plan: 30_000,
            apply: 30_000,
            terminate_grace: 10_000,
            frame_completion: 60_000,
        }
    }
}

/// Control-plane interactions that carry a framework deadline.
///
/// The harness await itself is uncapped and has no entry here.
#[derive(Debug, Clone, Copy, PartialEq, Eq, Structural)]
pub enum ControlDeadline {
    /// Hello/negotiation exchange.
    Hello,
    /// Plan collection.
    Plan,
    /// Gated apply.
    Apply,
    /// SIGTERM grace before SIGKILL.
    TerminateGrace,
    /// Frame completion once response bytes arrive.
    FrameCompletion,
}

impl Deadlines {
    /// Looks up the bound for one control-plane interaction.
    #[must_use]
    pub fn for_interaction(self, interaction: ControlDeadline) -> (ms: u64)
        ensures
            ms == (match interaction {
                ControlDeadline::Hello => self.hello,
                ControlDeadline::Plan => self.plan,
                ControlDeadline::Apply => self.apply,
                ControlDeadline::TerminateGrace => self.terminate_grace,
                ControlDeadline::FrameCompletion => self.frame_completion,
            }),
    {
        match interaction {
            ControlDeadline::Hello => self.hello,
            ControlDeadline::Plan => self.plan,
            ControlDeadline::Apply => self.apply,
            ControlDeadline::TerminateGrace => self.terminate_grace,
            ControlDeadline::FrameCompletion => self.frame_completion,
        }
    }
}

// ---------------------------------------------------------------------
// What a merge keeps and when it succeeds
// ---------------------------------------------------------------------

/// A merge keeps what the guest contributed: every mount with its host, its
/// target and its mode, every variable with its value, and every claim, each
/// in the order of contribution.
pub proof fn law_merge_keeps_contributions(
    plan: PlanView,
    advertised: Set<Capability>,
    context: ContextView,
    hosts: Seq<Seq<char>>,
    m: MergedView,
)
    requires
        merged(plan, advertised, context, hosts) == std::result::Result::<
            MergedView,
            ErrorView,
        >::Ok(m),
    ensures
        m.mounts.len() == plan.mounts.len(),
        forall|i: int|
            0 <= i < plan.mounts.len() ==> (#[trigger] m.mounts[i]).host
                == plan.mounts[i].triple.host && m.mounts[i].target == plan.mounts[i].triple.target
                && m.mounts[i].mode == plan.mounts[i].triple.mode,
        m.environment.len() == plan.environment.len(),
        forall|i: int|
            0 <= i < plan.environment.len() ==> (#[trigger] m.environment[i]).0
                == plan.environment[i].name && m.environment[i].1 == plan.environment[i].value,
        m.policy_claims.len() == plan.policy_claims.len(),
        forall|i: int|
            0 <= i < plan.policy_claims.len() ==> (#[trigger] m.policy_claims[i]).pattern
                == plan.policy_claims[i].pattern && m.policy_claims[i].severity
                == plan.policy_claims[i].severity && m.policy_claims[i].scope
                == plan.policy_claims[i].scope,
{
}

/// A merge keeps every guest hook whole, once, and puts them in ascending
/// order.
pub proof fn law_merge_keeps_hooks(
    plan: PlanView,
    advertised: Set<Capability>,
    context: ContextView,
    hosts: Seq<Seq<char>>,
    m: MergedView,
    i: int,
)
    requires
        merged(plan, advertised, context, hosts) == std::result::Result::<
            MergedView,
            ErrorView,
        >::Ok(m),
        0 <= i < plan.guest_hooks.len(),
    ensures
        m.guest_hooks.len() == plan.guest_hooks.len(),
        m.guest_hooks.contains(plan.guest_hooks[i]),
        plan.guest_hooks.contains(m.guest_hooks[i]),
        forall|p: int, q: int|
            0 <= p < q < m.guest_hooks.len() ==> (#[trigger] m.guest_hooks[p]).order < (
            #[trigger] m.guest_hooks[q]).order,
{
    let hooks = plan.guest_hooks;
    let e = hook_order(hooks);
    lemma_hook_order(hooks);
    let all = hook_entries(hooks);
    order::lemma_stable_sort_members(all, order::by_key::<order::Weight>());
    assert(all.contains(all[i]));
    assert(e.contains(all[i]));
    let p = choose|p: int| 0 <= p < e.len() && e[p] == all[i];
    assert(m.guest_hooks[p] == hooks[i]);
    assert(m.guest_hooks[i] == hooks[e[i].1]);
    assert forall|p: int, q: int| 0 <= p < q < m.guest_hooks.len() implies (
    #[trigger] m.guest_hooks[p]).order < (#[trigger] m.guest_hooks[q]).order by {
        law_merged_hooks_ascend(plan, advertised, context, hosts, p, q);
    }
}

/// Whether a name is an upper-case variable name.
pub open spec fn upper_name(s: Seq<char>) -> bool {
    &&& s.len() > 0
    &&& !('0' <= s[0] <= '9')
    &&& forall|i: int|
        0 <= i < s.len() ==> 'A' <= #[trigger] s[i] <= 'Z' || '0' <= s[i] <= '9' || s[i] == '_'
}

/// Environment names are upper-case letters, digits and underscores, with no
/// digit in front.
pub proof fn law_environment_names(s: Seq<char>)
    ensures
        profile::env_name(s) <==> upper_name(s),
{
    reveal_strlit("_");
    assert("_"@ =~= seq!['_']);
    assert forall|c: char| #[trigger] "_"@.contains(c) <==> c == '_' by {
        if c == '_' {
            assert("_"@[0] == c);
        }
    }
    if profile::env_name(s) {
        assert forall|i: int| 0 <= i < s.len() implies 'A' <= #[trigger] s[i] <= 'Z' || '0' <= s[i]
            <= '9' || s[i] == '_' by {
            assert(text::in_class(s[i], true, false, true, "_"@));
        }
    }
    if upper_name(s) {
        assert('A' <= s[0] <= 'Z' || s[0] == '_');
        assert forall|i: int| 0 <= i < s.len() implies text::in_class(
            #[trigger] s[i],
            true,
            false,
            true,
            "_"@,
        ) by {}
    }
}

/// What merges is sound: names that are upper-case, unreserved and distinct,
/// values without control characters, claims with a pattern, hooks with a
/// prefix and a probe, and mounts that are valid beside those already there.
pub proof fn law_merged_contributions_are_sound(
    plan: PlanView,
    advertised: Set<Capability>,
    context: ContextView,
    hosts: Seq<Seq<char>>,
)
    requires
        merged(plan, advertised, context, hosts) is Ok,
    ensures
        forall|i: int|
            0 <= i < plan.environment.len() ==> upper_name((#[trigger] plan.environment[i]).name)
                && !context.reserved_env.contains(plan.environment[i].name)
                && !plan.environment[i].value.contains('\n')
                && !plan.environment[i].value.contains('\r')
                && !plan.environment[i].value.contains('\0'),
        forall|i: int, j: int|
            0 <= i < j < plan.environment.len() ==> (#[trigger] plan.environment[i]).name != (
            #[trigger] plan.environment[j]).name,
        forall|i: int|
            0 <= i < plan.policy_claims.len() ==> (#[trigger] plan.policy_claims[i]).pattern.len()
                > 0,
        forall|i: int|
            0 <= i < plan.guest_hooks.len() ==> (#[trigger] plan.guest_hooks[i]).argv_prefix.len()
                > 0 && plan.guest_hooks[i].probe_op.len() > 0,
        forall|i: int|
            0 <= i < plan.mounts.len() ==> !mount::in_system(
                crate::path::canonical((#[trigger] plan.mounts[i]).triple.target),
            ),
        forall|i: int, j: int|
            0 <= i < plan.mounts.len() && 0 <= j < context.occupied_mounts.len()
                ==> crate::path::canonical((#[trigger] plan.mounts[i]).triple.target)
                != crate::path::canonical((#[trigger] context.occupied_mounts[j]).target),
{
    let env = plan.environment;
    assert forall|i: int| 0 <= i < env.len() implies upper_name((#[trigger] env[i]).name)
        && !context.reserved_env.contains(env[i].name) && !env[i].value.contains('\n')
        && !env[i].value.contains('\r') && !env[i].value.contains('\0') by {
        lemma_sound_env(env, context.reserved_env, 0, i);
        law_environment_names(env[i].name);
    }
    assert forall|i: int, j: int| 0 <= i < j < env.len() implies (#[trigger] env[i]).name != (
    #[trigger] env[j]).name by {
        lemma_sound_env(env, context.reserved_env, 0, j);
    }
    assert forall|i: int| 0 <= i < plan.guest_hooks.len() implies (
    #[trigger] plan.guest_hooks[i]).argv_prefix.len() > 0 && plan.guest_hooks[i].probe_op.len()
        > 0 by {
        lemma_hook_shapes(plan.guest_hooks, 0, i);
    }
    let ours = contributed_triples(plan.mounts);
    let joint = context.occupied_mounts + ours;
    let n = context.occupied_mounts.len() as int;
    assert forall|i: int| 0 <= i < plan.mounts.len() implies !mount::in_system(
        crate::path::canonical((#[trigger] plan.mounts[i]).triple.target),
    ) by {
        assert(joint[n + i] == plan.mounts[i].triple);
        mount::law_valid_mounts_spare_the_system(joint, context.container_home, hosts, n + i);
    }
    assert forall|i: int, j: int|
        0 <= i < plan.mounts.len() && 0 <= j < context.occupied_mounts.len() implies crate::path::canonical(
        (#[trigger] plan.mounts[i]).triple.target) != crate::path::canonical(
        (#[trigger] context.occupied_mounts[j]).target,
    ) by {
        assert(joint[n + i] == plan.mounts[i].triple);
        assert(joint[j] == context.occupied_mounts[j]);
        mount::law_valid_targets_stack_over_read_only(
            joint,
            context.container_home,
            hosts,
            n + i,
            j,
        );
    }
}

proof fn lemma_hook_shapes(hooks: Seq<HookView>, k: int, i: int)
    requires
        hook_shape_fault(hooks, k) is None,
        0 <= k <= i < hooks.len(),
    ensures
        hooks[i].argv_prefix.len() > 0,
        hooks[i].probe_op.len() > 0,
    decreases hooks.len() - k,
{
    if k < i {
        lemma_hook_shapes(hooks, k + 1, i);
    }
}

proof fn lemma_env_passes(env: Seq<EnvView>, reserved: Seq<Seq<char>>, k: int)
    requires
        0 <= k,
        forall|i: int|
            0 <= i < env.len() ==> upper_name((#[trigger] env[i]).name) && !reserved.contains(
                env[i].name,
            ) && !text::has_control(env[i].value),
        forall|i: int, j: int|
            0 <= i < j < env.len() ==> (#[trigger] env[i]).name != (#[trigger] env[j]).name,
    ensures
        env_shape_fault(env, k) is None,
        reserved_fault(env, reserved, k) is None,
        env_duplicate(env, k) is None,
    decreases env.len() - k,
{
    if k < env.len() {
        law_environment_names(env[k].name);
        lemma_env_passes(env, reserved, k + 1);
    }
}

proof fn lemma_hooks_pass(hooks: Seq<HookView>, k: int)
    requires
        0 <= k,
        forall|i: int|
            0 <= i < hooks.len() ==> (#[trigger] hooks[i]).argv_prefix.len() > 0
                && hooks[i].probe_op.len() > 0,
        forall|i: int, j: int|
            0 <= i < j < hooks.len() ==> (#[trigger] hooks[i]).order != (#[trigger] hooks[j]).order,
    ensures
        hook_shape_fault(hooks, k) is None,
        hook_duplicate(hooks, k) is None,
    decreases hooks.len() - k,
{
    if k < hooks.len() {
        assert(hooks[k].argv_prefix.len() > 0);
        lemma_hooks_pass(hooks, k + 1);
    }
}

/// Sound contributions of advertised types merge: nothing else refuses them.
pub proof fn law_sound_contributions_merge(
    plan: PlanView,
    advertised: Set<Capability>,
    context: ContextView,
    hosts: Seq<Seq<char>>,
)
    requires
        plan.environment.len() > 0 ==> advertised.contains(Capability::Environment),
        plan.mounts.len() > 0 ==> advertised.contains(Capability::Mounts),
        plan.policy_claims.len() > 0 ==> advertised.contains(Capability::PolicyClaims),
        plan.guest_hooks.len() > 0 ==> advertised.contains(Capability::GuestHooks),
        forall|i: int|
            0 <= i < plan.environment.len() ==> upper_name((#[trigger] plan.environment[i]).name)
                && !context.reserved_env.contains(plan.environment[i].name) && !text::has_control(
                plan.environment[i].value,
            ),
        forall|i: int, j: int|
            0 <= i < j < plan.environment.len() ==> (#[trigger] plan.environment[i]).name != (
            #[trigger] plan.environment[j]).name,
        forall|i: int|
            0 <= i < plan.policy_claims.len() ==> (#[trigger] plan.policy_claims[i]).pattern.len()
                > 0,
        forall|i: int|
            0 <= i < plan.guest_hooks.len() ==> (#[trigger] plan.guest_hooks[i]).argv_prefix.len()
                > 0 && plan.guest_hooks[i].probe_op.len() > 0,
        forall|i: int, j: int|
            0 <= i < j < plan.guest_hooks.len() ==> (#[trigger] plan.guest_hooks[i]).order != (
            #[trigger] plan.guest_hooks[j]).order,
        mount::mounts_fault(
            plan.mounts.map_values(|c: MountContributionView| c.triple),
            context.container_home,
            if context.occupied_mounts.len() <= hosts.len() {
                hosts.skip(context.occupied_mounts.len() as int)
            } else {
                Seq::<Seq<char>>::empty()
            },
        ) is None,
        mount::mounts_fault(
            context.occupied_mounts + plan.mounts.map_values(
                |c: MountContributionView| c.triple,
            ),
            context.container_home,
            hosts,
        ) is None,
    ensures
        merged(plan, advertised, context, hosts) is Ok,
{
    lemma_env_passes(plan.environment, context.reserved_env, 0);
    lemma_hooks_pass(plan.guest_hooks, 0);
    assert(contributed_triples(plan.mounts) =~= plan.mounts.map_values(
        |c: MountContributionView| c.triple,
    ));
}

/// The phases of a session follow one another, from planning to teardown.
pub proof fn law_phases_follow_the_session()
    ensures
        phase_position(Phase::Planning) < phase_position(Phase::GateHostPreCreate)
            < phase_position(Phase::Create) < phase_position(Phase::Initiate) < phase_position(
            Phase::PostInitiatePrepare,
        ) < phase_position(Phase::GuestRestriction) < phase_position(Phase::ExecuteLaunch)
            < phase_position(Phase::AwaitResult) < phase_position(Phase::Teardown),
{
}

/// Lifecycle states travel in lower case, each under its own name.
pub proof fn law_states_travel_in_lower_case(s: LifecycleState)
    ensures
        state_text(s) == match s {
            LifecycleState::Created => "created"@,
            LifecycleState::Initiated => "initiated"@,
            LifecycleState::Executing => "executing"@,
            LifecycleState::Stopped => "stopped"@,
            LifecycleState::Absent => "absent"@,
        },
{
}

/// A plan whose assumptions all hold is revalidated, whatever else is live.
pub proof fn law_undrifted_plans_are_revalidated(
    assumptions: Seq<(Seq<char>, Seq<char>)>,
    live: Seq<(Seq<char>, Seq<char>)>,
    k: int,
)
    requires
        0 <= k,
        forall|i: int|
            0 <= i < assumptions.len() ==> table::lookup(live, (#[trigger] assumptions[i]).0, 0)
                == Some(assumptions[i].1),
    ensures
        drifted(assumptions, live, k) is None,
    decreases assumptions.len() - k,
{
    if k < assumptions.len() {
        law_undrifted_plans_are_revalidated(assumptions, live, k + 1);
    }
}

/// A merge without hooks has none.
pub proof fn lemma_no_hooks(
    plan: PlanView,
    advertised: Set<Capability>,
    context: ContextView,
    hosts: Seq<Seq<char>>,
    m: MergedView,
)
    requires
        merged(plan, advertised, context, hosts) == std::result::Result::<
            MergedView,
            ErrorView,
        >::Ok(m),
        plan.guest_hooks.len() == 0,
    ensures
        m.guest_hooks.len() == 0,
{
    lemma_hook_order(plan.guest_hooks);
}

/// A view says what the fields hold, each under its own name.
pub proof fn law_views_say_the_fields(
    provenance: Provenance,
    env_contribution: EnvContribution,
    mount_contribution: MountContribution,
    policy_claim: PolicyClaim,
    guest_hook_request: GuestHookRequest,
    prepare_plan: PreparePlan,
    merged_plan: MergedPlan,
    merge_context: MergeContext,
    unit_handle: UnitHandle,
    execution_handle: ExecutionHandle,
    reconciliation_key: ReconciliationKey,
    assumption: Assumption,
)
    ensures
        provenance matches Provenance::Profile ==> provenance.deep_view() == ProvenanceView::Profile,
        provenance matches Provenance::Extension(name) ==> provenance.deep_view() == ProvenanceView::Extension(name@),
        env_contribution.deep_view().name == env_contribution.name@,
        env_contribution.deep_view().value == env_contribution.value@,
        env_contribution.deep_view().provenance == env_contribution.provenance.deep_view(),
        mount_contribution.deep_view().triple == mount_contribution.triple.deep_view(),
        mount_contribution.deep_view().provenance == mount_contribution.provenance.deep_view(),
        policy_claim.deep_view().pattern == policy_claim.pattern@,
        policy_claim.deep_view().severity == policy_claim.severity,
        policy_claim.deep_view().scope == policy_claim.scope,
        guest_hook_request.deep_view().order == guest_hook_request.order,
        guest_hook_request.deep_view().argv_prefix == guest_hook_request.argv_prefix.deep_view(),
        guest_hook_request.deep_view().probe_op == guest_hook_request.probe_op@,
        prepare_plan.deep_view().environment == prepare_plan.environment.deep_view(),
        prepare_plan.deep_view().mounts == prepare_plan.mounts.deep_view(),
        prepare_plan.deep_view().policy_claims == prepare_plan.policy_claims.deep_view(),
        prepare_plan.deep_view().guest_hooks == prepare_plan.guest_hooks.deep_view(),
        merged_plan.deep_view().environment == merged_plan.environment.deep_view(),
        merged_plan.deep_view().mounts == merged_plan.mounts.deep_view(),
        merged_plan.deep_view().policy_claims == merged_plan.policy_claims.deep_view(),
        merged_plan.deep_view().guest_hooks == merged_plan.guest_hooks.deep_view(),
        merge_context.deep_view().container_home == merge_context.container_home@,
        merge_context.deep_view().reserved_env == merge_context.reserved_env.deep_view(),
        merge_context.deep_view().occupied_mounts == merge_context.occupied_mounts.deep_view(),
        unit_handle.deep_view() == unit_handle.0@,
        execution_handle.deep_view() == execution_handle.0@,
        reconciliation_key.deep_view() == reconciliation_key.0@,
        assumption.deep_view() == (assumption.key@, assumption.digest@),
{
}

} // verus!
