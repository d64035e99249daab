//! Prepare transaction.
//!
//! One `prepare` exchange per session per extension: the guest returns
//! separately-typed environment and mount sets, policy claims, guest-hook
//! requests and credential handles; the host validates each set with its
//! existing rules, merges centrally and atomically, partitions claims
//! against the lattice, and evaluates every contributed name. Extension
//! output is untrusted input at every step.

use vstd::prelude::*;

use crate::error::{CistellaError, ErrorView, Result};
use crate::framework::contract;
use crate::framework::contract::{
    Capability, CapabilitySet, ClaimView, ContextView, EnvContribution, EnvView, GuestHookRequest,
    HookView, MergeContext, MergedPlan, MergedView, MountContribution, MountContributionView,
    PlanView, PolicyClaim, PreparePlan, Provenance, ProvenanceView,
};
use crate::framework::credentials;
use crate::framework::credentials::{AdmittedCredential, CredentialHandle, HandleView};
use crate::framework::isolator::IsolatorCapabilities;
use crate::framework::policy;
use crate::framework::policy::{PolicySet, PolicyView};
use crate::mount;
use crate::mount::{MountMode, MountTriple, TripleView};
use crate::text;

verus! {

/// One environment contribution on the wire (provenance is injected by the
/// host, never trusted from the wire).
#[derive(Debug)]
pub struct EnvWire {
    /// Exact variable name.
    pub name: String,
    /// Opaque value.
    pub value: String,
}

impl DeepView for EnvWire {
    type V = (Seq<char>, Seq<char>);

    open spec fn deep_view(&self) -> (Seq<char>, Seq<char>) {
        (self.name@, self.value@)
    }
}

/// One mount contribution on the wire.
#[derive(Debug)]
pub struct MountWire {
    /// Host path.
    pub host_source: String,
    /// Container path.
    pub container_target: String,
    /// `ro` or `rw`.
    pub mode: String,
}

/// What a mount on the wire says.
pub struct MountWireView {
    pub host_source: Seq<char>,
    pub container_target: Seq<char>,
    pub mode: Seq<char>,
}

impl DeepView for MountWire {
    type V = MountWireView;

    open spec fn deep_view(&self) -> MountWireView {
        MountWireView {
            host_source: self.host_source@,
            container_target: self.container_target@,
            mode: self.mode@,
        }
    }
}

/// The single prepare response.
#[derive(Debug)]
pub struct PrepareResponse {
    /// Environment contributions.
    pub environment: Vec<EnvWire>,
    /// Mount contributions.
    pub mounts: Vec<MountWire>,
    /// Policy claims scoped to this transaction.
    pub policy_claims: Vec<PolicyClaim>,
    /// Guest-hook requests.
    pub guest_hooks: Vec<GuestHookRequest>,
    /// Credential handles, variants only, never values.
    pub credentials: Vec<CredentialHandle>,
}

/// What a prepare response says.
pub struct ResponseView {
    pub environment: Seq<(Seq<char>, Seq<char>)>,
    pub mounts: Seq<MountWireView>,
    pub policy_claims: Seq<ClaimView>,
    pub guest_hooks: Seq<HookView>,
    pub credentials: Seq<HandleView>,
}

impl DeepView for PrepareResponse {
    type V = ResponseView;

    open spec fn deep_view(&self) -> ResponseView {
        ResponseView {
            environment: self.environment.deep_view(),
            mounts: self.mounts.deep_view(),
            policy_claims: self.policy_claims.deep_view(),
            guest_hooks: self.guest_hooks.deep_view(),
            credentials: self.credentials.deep_view(),
        }
    }
}

/// Evaluated plan: merged contributions plus claim diagnostics and admitted
/// credentials.
///
/// The merged plan is whole or the transaction refused; partial application
/// never occurs.
#[derive(Debug)]
pub struct EvaluatedPlan {
    /// Centrally merged, policy-admitted plan.
    pub merged: MergedPlan,
    /// Weakening-discard notes from claim partition.
    pub diagnostics: Vec<String>,
    /// Admitted credential handles (kinds plus locator classes only).
    pub credentials: Vec<AdmittedCredential>,
}

/// What an evaluated plan says.
pub struct EvaluatedView {
    pub merged: MergedView,
    pub diagnostics: Seq<Seq<char>>,
    pub credentials: Seq<(Seq<char>, Seq<char>)>,
}

impl DeepView for EvaluatedPlan {
    type V = EvaluatedView;

    open spec fn deep_view(&self) -> EvaluatedView {
        EvaluatedView {
            merged: self.merged.deep_view(),
            diagnostics: self.diagnostics.deep_view(),
            credentials: self.credentials.deep_view(),
        }
    }
}

// ---------------------------------------------------------------------
// Capabilities
// ---------------------------------------------------------------------

/// Capability of an advertisement name.
pub open spec fn capability_named(name: Seq<char>) -> Option<Capability> {
    if name == "environment"@ {
        Some(Capability::Environment)
    } else if name == "mounts"@ {
        Some(Capability::Mounts)
    } else if name == "policy-claims"@ {
        Some(Capability::PolicyClaims)
    } else if name == "guest-hooks"@ {
        Some(Capability::GuestHooks)
    } else if name == "credentials"@ {
        Some(Capability::Credentials)
    } else {
        None
    }
}

/// Parses a capability advertisement name. Unknown names are ignored:
/// undeclared contribution types refuse, unknown advertisement strings do
/// not.
#[must_use]
pub fn parse_capability(name: &str) -> (r: Option<Capability>)
    ensures
        r == capability_named(name@),
{
    if text::eq(name, "environment") {
        Some(Capability::Environment)
    } else if text::eq(name, "mounts") {
        Some(Capability::Mounts)
    } else if text::eq(name, "policy-claims") {
        Some(Capability::PolicyClaims)
    } else if text::eq(name, "guest-hooks") {
        Some(Capability::GuestHooks)
    } else if text::eq(name, "credentials") {
        Some(Capability::Credentials)
    } else {
        None
    }
}

/// Capabilities that names advertise, in order.
pub open spec fn named_capabilities(names: Seq<Seq<char>>) -> Seq<Capability>
    decreases names.len(),
{
    if names.len() == 0 {
        Seq::empty()
    } else {
        match capability_named(names.last()) {
            Some(c) => named_capabilities(names.drop_last()).push(c),
            None => named_capabilities(names.drop_last()),
        }
    }
}

fn advertised_set(names: &[String]) -> (set: CapabilitySet)
    ensures
        set@ == named_capabilities(names.deep_view()).to_set(),
{
    let ghost all = names.deep_view();
    let mut caps: Vec<Capability> = Vec::new();
    let mut k: usize = 0;
    assert(all.take(0) =~= Seq::<Seq<char>>::empty());
    assert(caps@ =~= named_capabilities(all.take(0)));
    while k < names.len()
        invariant
            all == names.deep_view(),
            k <= names@.len(),
            caps@ == named_capabilities(all.take(k as int)),
        decreases names.len() - k,
    {
        assert(all.take(k + 1).drop_last() =~= all.take(k as int));
        assert(all.take(k + 1).last() == names@[k as int]@);
        match parse_capability(names[k].as_str()) {
            Some(c) => {
                caps.push(c);
            },
            None => {},
        }
        k = k + 1;
    }
    assert(all.take(k as int) =~= all);
    CapabilitySet::new(&caps)
}

// ---------------------------------------------------------------------
// Plan
// ---------------------------------------------------------------------

/// Typed environment contributions.
pub open spec fn typed_env(env: Seq<(Seq<char>, Seq<char>)>, p: ProvenanceView) -> Seq<EnvView> {
    env.map_values(
        |e: (Seq<char>, Seq<char>)| EnvView { name: e.0, value: e.1, provenance: p },
    )
}

/// Typed mount contributions, or the refusal of the first bad mode.
pub open spec fn typed_mounts(mounts: Seq<MountWireView>, p: ProvenanceView) -> std::result::Result<
    Seq<MountContributionView>,
    ErrorView,
>
    decreases mounts.len(),
{
    if mounts.len() == 0 {
        Ok(Seq::empty())
    } else {
        match typed_mounts(mounts.drop_last(), p) {
            Err(e) => Err(e),
            Ok(head) => match mount::parsed_mode(mounts.last().mode) {
                Err(e) => Err(ErrorView::Contract("bad mount mode: "@ + e.rendered())),
                Ok(mode) => Ok(
                    head.push(
                        MountContributionView {
                            triple: TripleView {
                                host: mounts.last().host_source,
                                target: mounts.last().container_target,
                                mode,
                            },
                            provenance: p,
                        },
                    ),
                ),
            },
        }
    }
}

proof fn lemma_typed_mounts_error(mounts: Seq<MountWireView>, p: ProvenanceView, k: int)
    requires
        0 <= k <= mounts.len(),
        typed_mounts(mounts.take(k), p) is Err,
    ensures
        typed_mounts(mounts, p) == typed_mounts(mounts.take(k), p),
    decreases mounts.len() - k,
{
    if k < mounts.len() {
        assert(mounts.take(k + 1).drop_last() =~= mounts.take(k));
        lemma_typed_mounts_error(mounts, p, k + 1);
    } else {
        assert(mounts.take(k) =~= mounts);
    }
}

fn type_mounts(mounts: &Vec<MountWire>, provenance: &Provenance) -> (r: Result<
    Vec<MountContribution>,
>)
    ensures
        crate::error::agrees(r, typed_mounts(mounts.deep_view(), provenance.deep_view())),
{
    let ghost all = mounts.deep_view();
    let ghost p = provenance.deep_view();
    let mut out: Vec<MountContribution> = Vec::new();
    let mut k: usize = 0;
    assert(all.take(0) =~= Seq::<MountWireView>::empty());
    assert(out.deep_view() =~= Seq::<MountContributionView>::empty());
    while k < mounts.len()
        invariant
            all == mounts.deep_view(),
            p == provenance.deep_view(),
            k <= mounts@.len(),
            typed_mounts(all.take(k as int), p) == std::result::Result::<
                Seq<MountContributionView>,
                ErrorView,
            >::Ok(out.deep_view()),
        decreases mounts.len() - k,
    {
        let ghost before = out.deep_view();
        assert(all.take(k + 1).drop_last() =~= all.take(k as int));
        assert(all.take(k + 1).last() == mounts@[k as int].deep_view());
        match MountMode::parse_flag(mounts[k].mode.as_str()) {
            Ok(mode) => {
                let c = MountContribution {
                    triple: MountTriple {
                        host_source: mounts[k].host_source.clone(),
                        container_target: mounts[k].container_target.clone(),
                        mode,
                    },
                    provenance: provenance.clone(),
                };
                let ghost cv = c.deep_view();
                out.push(c);
                assert(out.deep_view() =~= before.push(cv));
            },
            Err(e) => {
                proof {
                    lemma_typed_mounts_error(all, p, k + 1);
                }
                return Err(
                    CistellaError::Contract(text::cat("bad mount mode: ", e.render().as_str())),
                );
            },
        }
        k = k + 1;
    }
    assert(all.take(k as int) =~= all);
    Ok(out)
}

fn type_env(env: &Vec<EnvWire>, provenance: &Provenance) -> (out: Vec<EnvContribution>)
    ensures
        out.deep_view() == typed_env(env.deep_view(), provenance.deep_view()),
{
    let ghost all = env.deep_view();
    let ghost p = provenance.deep_view();
    let mut out: Vec<EnvContribution> = Vec::new();
    let mut k: usize = 0;
    while k < env.len()
        invariant
            all == env.deep_view(),
            p == provenance.deep_view(),
            k <= env@.len(),
            out.deep_view() =~= typed_env(all, p).take(k as int),
        decreases env.len() - k,
    {
        let ghost before = out.deep_view();
        let c = EnvContribution {
            name: env[k].name.clone(),
            value: env[k].value.clone(),
            provenance: provenance.clone(),
        };
        assert(all[k as int] == env@[k as int].deep_view());
        let ghost cv = c.deep_view();
        assert(cv == typed_env(all, p)[k as int]);
        out.push(c);
        assert(out.deep_view() =~= before.push(cv));
        k = k + 1;
    }
    assert(typed_env(all, p).take(k as int) =~= typed_env(all, p));
    out
}

/// Typed plan of a response, with the guest as its provenance.
pub open spec fn built_plan(w: ResponseView, p: ProvenanceView) -> std::result::Result<
    PlanView,
    ErrorView,
> {
    match typed_mounts(w.mounts, p) {
        Err(e) => Err(e),
        Ok(mounts) => Ok(
            PlanView {
                environment: typed_env(w.environment, p),
                mounts,
                policy_claims: w.policy_claims,
                guest_hooks: w.guest_hooks,
            },
        ),
    }
}

/// Names of pairs, in order.
pub open spec fn pair_names(env: Seq<(Seq<char>, Seq<char>)>) -> Seq<Seq<char>> {
    env.map_values(|e: (Seq<char>, Seq<char>)| e.0)
}

/// Names of pairs with one provenance.
pub open spec fn sourced_names(env: Seq<(Seq<char>, Seq<char>)>, p: ProvenanceView) -> Seq<
    (Seq<char>, ProvenanceView),
> {
    env.map_values(|e: (Seq<char>, Seq<char>)| (e.0, p))
}

fn names_of(env: &Vec<(String, String)>) -> (out: Vec<String>)
    ensures
        out.deep_view() == pair_names(env.deep_view()),
{
    let ghost all = env.deep_view();
    let mut out: Vec<String> = Vec::new();
    let mut k: usize = 0;
    while k < env.len()
        invariant
            all == env.deep_view(),
            k <= env@.len(),
            out.deep_view() =~= pair_names(all).take(k as int),
        decreases env.len() - k,
    {
        let ghost before = out.deep_view();
        assert(all[k as int] == env@[k as int].deep_view());
        out.push(env[k].0.clone());
        assert(out.deep_view() =~= before.push(all[k as int].0));
        k = k + 1;
    }
    assert(pair_names(all).take(k as int) =~= pair_names(all));
    out
}

fn sourced(env: &Vec<(String, String)>, provenance: &Provenance) -> (out: Vec<
    (String, Provenance),
>)
    ensures
        out.deep_view() == sourced_names(env.deep_view(), provenance.deep_view()),
{
    let ghost all = env.deep_view();
    let ghost p = provenance.deep_view();
    let mut out: Vec<(String, Provenance)> = Vec::new();
    let mut k: usize = 0;
    while k < env.len()
        invariant
            all == env.deep_view(),
            p == provenance.deep_view(),
            k <= env@.len(),
            out.deep_view() =~= sourced_names(all, p).take(k as int),
        decreases env.len() - k,
    {
        let ghost before = out.deep_view();
        assert(all[k as int] == env@[k as int].deep_view());
        out.push((env[k].0.clone(), provenance.clone()));
        assert(out.deep_view() =~= before.push((all[k as int].0, p)));
        k = k + 1;
    }
    assert(sourced_names(all, p).take(k as int) =~= sourced_names(all, p));
    out
}

// ---------------------------------------------------------------------
// Transaction
// ---------------------------------------------------------------------

/// What a prepare response comes to.
pub open spec fn prepared(
    response: Option<ResponseView>,
    guest: Seq<char>,
    capabilities: Seq<Seq<char>>,
    context: ContextView,
    hosts: Seq<Seq<char>>,
    p: PolicyView,
    acceptances: Seq<Seq<char>>,
) -> std::result::Result<EvaluatedView, ErrorView> {
    let provenance = ProvenanceView::Extension(guest);
    let advertised = named_capabilities(capabilities).to_set();
    match response {
        None => Err(ErrorView::Protocol("bad prepare response: shape violation"@)),
        Some(w) => if w.credentials.len() > 0 && !advertised.contains(Capability::Credentials) {
            Err(
                ErrorView::Contract(
                    "guest returned unadvertised contribution type: credentials"@,
                ),
            )
        } else {
            match credentials::all_admitted(w.credentials) {
                Err(e) => Err(e),
                Ok(admitted) => match built_plan(w, provenance) {
                    Err(e) => Err(e),
                    Ok(plan) => match contract::merged(plan, advertised, context, hosts) {
                        Err(e) => Err(e),
                        Ok(merged) => judged(merged, admitted, provenance, p, acceptances),
                    },
                },
            }
        },
    }
}

/// What policy makes of a merged plan.
pub open spec fn judged(
    merged: MergedView,
    admitted: Seq<(Seq<char>, Seq<char>)>,
    provenance: ProvenanceView,
    p: PolicyView,
    acceptances: Seq<Seq<char>>,
) -> std::result::Result<EvaluatedView, ErrorView> {
    match policy::partitioned(
        policy::all_rules(p),
        merged.policy_claims,
        pair_names(merged.environment),
    ) {
        Err(e) => Err(e),
        Ok((claims, diagnostics)) => match policy::first_refusal(
            p,
            sourced_names(merged.environment, provenance),
            acceptances,
            claims,
            0,
        ) {
            Some(e) => Err(e),
            None => Ok(EvaluatedView { merged, diagnostics, credentials: admitted }),
        },
    }
}

/// Evaluates one prepare response; an absent one could not be decoded, which
/// is a protocol error. Every later refusal is a contract error.
///
/// Gates contribution types against the negotiated capabilities, admits
/// credential handles, merges atomically against the framework-owned
/// baseline, partitions claims, and evaluates every contributed name against
/// the lattice. Any refusal rejects the whole transaction.
/// `canonical_hosts` holds the resolved host paths of the occupied mounts
/// followed by the contributed ones.
pub fn run_prepare(
    response: Option<PrepareResponse>,
    guest_id: &str,
    capabilities: &[String],
    context: &MergeContext,
    canonical_hosts: &[String],
    policy_set: &PolicySet,
    acceptances: &Vec<String>,
) -> (r: Result<EvaluatedPlan>)
    ensures
        crate::error::agrees(
            r,
            prepared(
                response.deep_view(),
                guest_id@,
                capabilities.deep_view(),
                context.deep_view(),
                canonical_hosts.deep_view(),
                policy_set@,
                acceptances.deep_view(),
            ),
        ),
{
    let response = match response {
        None => {
            return Err(
                CistellaError::Protocol("bad prepare response: shape violation".to_owned()),
            );
        },
        Some(response) => response,
    };
    let ghost w = response.deep_view();
    let provenance = Provenance::Extension(guest_id.to_owned());
    let ghost p = provenance.deep_view();
    let advertised = advertised_set(capabilities);
    assert(response.credentials@.len() == w.credentials.len());
    if response.credentials.len() > 0 && !advertised.allows(Capability::Credentials) {
        return Err(
            CistellaError::Contract(
                "guest returned unadvertised contribution type: credentials".to_owned(),
            ),
        );
    }
    let admitted = match credentials::admit_all(&response.credentials) {
        Ok(admitted) => admitted,
        Err(e) => {
            return Err(e);
        },
    };
    let mounts = match type_mounts(&response.mounts, &provenance) {
        Ok(mounts) => mounts,
        Err(e) => {
            return Err(e);
        },
    };
    let plan = PreparePlan {
        environment: type_env(&response.environment, &provenance),
        mounts,
        policy_claims: response.policy_claims,
        guest_hooks: response.guest_hooks,
    };
    let merged = match contract::merge_prepare(plan, &advertised, context, canonical_hosts) {
        Ok(merged) => merged,
        Err(e) => {
            return Err(e);
        },
    };
    let contributed = names_of(&merged.environment);
    let (claims, diagnostics) = match policy_set.partition_claims(
        &merged.policy_claims,
        &contributed,
    ) {
        Ok(x) => x,
        Err(e) => {
            return Err(e);
        },
    };
    let names = sourced(&merged.environment, &provenance);
    match policy::evaluate_all(policy_set, &names, acceptances, &claims) {
        Ok(_) => {},
        Err(e) => {
            return Err(e);
        },
    }
    Ok(EvaluatedPlan { merged, diagnostics, credentials: admitted })
}

/// Refusal of a contribution type that the isolator did not declare.
pub open spec fn unrealizable(backend: Seq<char>, what: Seq<char>) -> Option<ErrorView> {
    Some(
        ErrorView::Contract(
            "isolator "@ + backend + " does not realize contribution type: "@ + what,
        ),
    )
}

/// First non-empty contribution set whose type the isolator did not declare.
pub open spec fn realization_fault(
    plan: EvaluatedView,
    backend: Seq<char>,
    supports: Seq<Capability>,
) -> Option<ErrorView> {
    if plan.merged.environment.len() > 0 && !supports.contains(Capability::Environment) {
        unrealizable(backend, "environment"@)
    } else if plan.merged.mounts.len() > 0 && !supports.contains(Capability::Mounts) {
        unrealizable(backend, "mounts"@)
    } else if plan.merged.policy_claims.len() > 0 && !supports.contains(Capability::PolicyClaims) {
        unrealizable(backend, "policy-claims"@)
    } else if plan.merged.guest_hooks.len() > 0 && !supports.contains(Capability::GuestHooks) {
        unrealizable(backend, "guest-hooks"@)
    } else if plan.credentials.len() > 0 && !supports.contains(Capability::Credentials) {
        unrealizable(backend, "credentials"@)
    } else {
        None
    }
}

fn gate(isolator: &IsolatorCapabilities, nonempty: bool, kind: Capability, what: &str) -> (r:
    Result<()>)
    ensures
        if nonempty && !isolator.supports@.contains(kind) {
            r matches Err(e) && Some(e@) == unrealizable(isolator.backend@, what@)
        } else {
            r is Ok
        },
{
    if nonempty && !isolator.supports(kind) {
        return Err(
            CistellaError::Contract(
                text::cat4(
                    "isolator ",
                    isolator.backend,
                    " does not realize contribution type: ",
                    what,
                ),
            ),
        );
    }
    Ok(())
}

/// Gates a prepared plan against the active isolator: a contribution whose
/// capability the isolator did not declare refuses.
pub fn gate_isolator(plan: &EvaluatedPlan, isolator: &IsolatorCapabilities) -> (r: Result<()>)
    ensures
        match realization_fault(plan.deep_view(), isolator.backend@, isolator.supports@) {
            Some(e) => r matches Err(x) && x@ == e,
            None => r is Ok,
        },
{
    let merged = &plan.merged;
    gate(isolator, merged.environment.len() > 0, Capability::Environment, "environment")?;
    gate(isolator, merged.mounts.len() > 0, Capability::Mounts, "mounts")?;
    gate(isolator, merged.policy_claims.len() > 0, Capability::PolicyClaims, "policy-claims")?;
    gate(isolator, merged.guest_hooks.len() > 0, Capability::GuestHooks, "guest-hooks")?;
    gate(isolator, plan.credentials.len() > 0, Capability::Credentials, "credentials")
}

/// A plan that the isolator can realize holds no contribution of a type that
/// it did not declare.
pub proof fn law_gated_plans_are_declared(
    plan: EvaluatedView,
    backend: Seq<char>,
    supports: Seq<Capability>,
)
    requires
        realization_fault(plan, backend, supports) is None,
    ensures
        plan.merged.environment.len() > 0 ==> supports.contains(Capability::Environment),
        plan.merged.mounts.len() > 0 ==> supports.contains(Capability::Mounts),
        plan.merged.policy_claims.len() > 0 ==> supports.contains(Capability::PolicyClaims),
        plan.merged.guest_hooks.len() > 0 ==> supports.contains(Capability::GuestHooks),
        plan.credentials.len() > 0 ==> supports.contains(Capability::Credentials),
{
}

/// A guest that advertises nothing contributes nothing: its prepared plan is
/// empty in every set, or the transaction refuses.
pub proof fn law_unadvertised_guests_contribute_nothing(
    w: ResponseView,
    guest: Seq<char>,
    context: ContextView,
    hosts: Seq<Seq<char>>,
    p: PolicyView,
    acceptances: Seq<Seq<char>>,
    plan: EvaluatedView,
)
    requires
        prepared(Some(w), guest, Seq::empty(), context, hosts, p, acceptances) == Ok::<
            EvaluatedView,
            ErrorView,
        >(plan),
    ensures
        plan.merged.environment.len() == 0,
        plan.merged.mounts.len() == 0,
        plan.merged.policy_claims.len() == 0,
        plan.merged.guest_hooks.len() == 0,
        plan.credentials.len() == 0,
{
    let names = Seq::<Seq<char>>::empty();
    let advertised = named_capabilities(names).to_set();
    assert(named_capabilities(names) =~= Seq::<Capability>::empty());
    assert(advertised =~= Set::<Capability>::empty());
    assert(w.credentials.len() == 0);
    let provenance = ProvenanceView::Extension(guest);
    let built = built_plan(w, provenance)->Ok_0;
    assert(contract::gate_fault(built, advertised) is None);
}

/// Every contributed variable of a prepared plan passed the policy with the
/// transaction's own upheld claims.
pub proof fn law_prepared_names_pass_policy(
    merged: MergedView,
    admitted: Seq<(Seq<char>, Seq<char>)>,
    provenance: ProvenanceView,
    p: PolicyView,
    acceptances: Seq<Seq<char>>,
    i: int,
)
    requires
        judged(merged, admitted, provenance, p, acceptances) is Ok,
        0 <= i < merged.environment.len(),
    ensures
        ({
            let claims = policy::partitioned(
                policy::all_rules(p),
                merged.policy_claims,
                pair_names(merged.environment),
            )->Ok_0.0;
            policy::refusal(p, merged.environment[i].0, provenance, acceptances, claims) is None
        }),
{
    let claims = policy::partitioned(
        policy::all_rules(p),
        merged.policy_claims,
        pair_names(merged.environment),
    )->Ok_0.0;
    lemma_first_refusal(
        p,
        sourced_names(merged.environment, provenance),
        acceptances,
        claims,
        0,
        i,
    );
}

proof fn lemma_first_refusal(
    p: PolicyView,
    names: Seq<(Seq<char>, ProvenanceView)>,
    acceptances: Seq<Seq<char>>,
    claims: Seq<ClaimView>,
    k: int,
    i: int,
)
    requires
        policy::first_refusal(p, names, acceptances, claims, k) is None,
        0 <= k <= i < names.len(),
    ensures
        policy::refusal(p, names[i].0, names[i].1, acceptances, claims) is None,
    decreases i - k,
{
    if k < i {
        lemma_first_refusal(p, names, acceptances, claims, k + 1, i);
    }
}

proof fn lemma_admissions_refuse_by_contract(handles: Seq<HandleView>)
    ensures
        credentials::all_admitted(handles) matches Err(e) ==> e is Contract,
    decreases handles.len(),
{
    if handles.len() > 0 {
        lemma_admissions_refuse_by_contract(handles.drop_last());
    }
}

proof fn lemma_mount_modes_refuse_by_contract(mounts: Seq<MountWireView>, p: ProvenanceView)
    ensures
        typed_mounts(mounts, p) matches Err(e) ==> e is Contract,
    decreases mounts.len(),
{
    if mounts.len() > 0 {
        lemma_mount_modes_refuse_by_contract(mounts.drop_last(), p);
    }
}

proof fn lemma_claims_refuse_by_contract(
    rules: Seq<policy::RuleView>,
    claims: Seq<ClaimView>,
    contributed: Seq<Seq<char>>,
)
    ensures
        policy::partitioned(rules, claims, contributed) matches Err(e) ==> e is Contract,
    decreases claims.len(),
{
    if claims.len() > 0 {
        lemma_claims_refuse_by_contract(rules, claims.drop_last(), contributed);
    }
}

proof fn lemma_rules_refuse_by_contract(
    rules: Seq<policy::RuleView>,
    name: Seq<char>,
    pv: ProvenanceView,
    accepted: bool,
    acknowledged: bool,
    k: int,
)
    ensures
        policy::first_refusing_rule(rules, name, pv, accepted, acknowledged, k) matches Some(e)
            ==> e is Contract,
    decreases rules.len() - k,
{
    if 0 <= k < rules.len() {
        lemma_rules_refuse_by_contract(rules, name, pv, accepted, acknowledged, k + 1);
    }
}

proof fn lemma_upheld_refuse_by_contract(
    claims: Seq<ClaimView>,
    name: Seq<char>,
    pv: ProvenanceView,
    acknowledged: bool,
    k: int,
)
    ensures
        policy::first_refusing_claim(claims, name, pv, acknowledged, k) matches Some(e)
            ==> e is Contract,
    decreases claims.len() - k,
{
    if 0 <= k < claims.len() {
        lemma_upheld_refuse_by_contract(claims, name, pv, acknowledged, k + 1);
    }
}

proof fn lemma_policy_refuses_by_contract(
    p: PolicyView,
    names: Seq<(Seq<char>, ProvenanceView)>,
    acceptances: Seq<Seq<char>>,
    claims: Seq<ClaimView>,
    k: int,
)
    ensures
        policy::first_refusal(p, names, acceptances, claims, k) matches Some(e) ==> e is Contract,
    decreases names.len() - k,
{
    if 0 <= k < names.len() {
        let (name, pv) = names[k];
        let acknowledged = p.acknowledgements.contains(name);
        lemma_rules_refuse_by_contract(
            policy::all_rules(p),
            name,
            pv,
            acceptances.contains(name),
            acknowledged,
            0,
        );
        lemma_upheld_refuse_by_contract(claims, name, pv, acknowledged, 0);
        lemma_policy_refuses_by_contract(p, names, acceptances, claims, k + 1);
    }
}

/// A response that cannot be decoded is a protocol error; a decoded one is
/// refused as a contract violation, whatever refuses it.
pub proof fn law_prepare_refusals_have_their_class(
    response: Option<ResponseView>,
    guest: Seq<char>,
    capabilities: Seq<Seq<char>>,
    context: ContextView,
    hosts: Seq<Seq<char>>,
    p: PolicyView,
    acceptances: Seq<Seq<char>>,
)
    ensures
        response is None ==> (prepared(
            response,
            guest,
            capabilities,
            context,
            hosts,
            p,
            acceptances,
        ) matches Err(e) && e is Protocol),
        response is Some ==> (prepared(
            response,
            guest,
            capabilities,
            context,
            hosts,
            p,
            acceptances,
        ) matches Err(e) ==> e is Contract),
{
    if response is Some {
        let w = response->0;
        let provenance = ProvenanceView::Extension(guest);
        let advertised = named_capabilities(capabilities).to_set();
        lemma_admissions_refuse_by_contract(w.credentials);
        lemma_mount_modes_refuse_by_contract(w.mounts, provenance);
        if let Ok(plan) = built_plan(w, provenance) {
            contract::law_merge_refusals_are_contract_errors(plan, advertised, context, hosts);
            if let Ok(merged) = contract::merged(plan, advertised, context, hosts) {
                let names = pair_names(merged.environment);
                lemma_claims_refuse_by_contract(policy::all_rules(p), merged.policy_claims, names);
                if let Ok((claims, _)) = policy::partitioned(
                    policy::all_rules(p),
                    merged.policy_claims,
                    names,
                ) {
                    lemma_policy_refuses_by_contract(
                        p,
                        sourced_names(merged.environment, provenance),
                        acceptances,
                        claims,
                        0,
                    );
                }
            }
        }
    }
}

// ---------------------------------------------------------------------
// What a prepared plan keeps
// ---------------------------------------------------------------------

/// Capabilities are advertised under these names and no others.
pub proof fn law_capability_names(name: Seq<char>)
    ensures
        capability_named(name) == Some(Capability::Environment) <==> name == "environment"@,
        capability_named(name) == Some(Capability::Mounts) <==> name == "mounts"@,
        capability_named(name) == Some(Capability::PolicyClaims) <==> name == "policy-claims"@,
        capability_named(name) == Some(Capability::GuestHooks) <==> name == "guest-hooks"@,
        capability_named(name) == Some(Capability::Credentials) <==> name == "credentials"@,
{
    reveal_strlit("environment");
    reveal_strlit("mounts");
    reveal_strlit("policy-claims");
    reveal_strlit("guest-hooks");
    reveal_strlit("credentials");
    assert("environment"@[0] == 'e' && "mounts"@[0] == 'm' && "policy-claims"@[0] == 'p');
    assert("guest-hooks"@[0] == 'g' && "credentials"@[0] == 'c');
}

/// A guest has a capability exactly when it advertised its name.
pub proof fn law_advertised_names_are_granted(names: Seq<Seq<char>>, c: Capability)
    ensures
        named_capabilities(names).to_set().contains(c) <==> names.contains(
            match c {
                Capability::Environment => "environment"@,
                Capability::Mounts => "mounts"@,
                Capability::PolicyClaims => "policy-claims"@,
                Capability::GuestHooks => "guest-hooks"@,
                Capability::Credentials => "credentials"@,
            },
        ),
    decreases names.len(),
{
    let s = named_capabilities(names);
    if names.len() > 0 {
        let t = names.drop_last();
        let before = named_capabilities(t);
        law_advertised_names_are_granted(t, c);
        law_capability_names(names.last());
        let want = match c {
            Capability::Environment => "environment"@,
            Capability::Mounts => "mounts"@,
            Capability::PolicyClaims => "policy-claims"@,
            Capability::GuestHooks => "guest-hooks"@,
            Capability::Credentials => "credentials"@,
        };
        if s.contains(c) {
            let k = choose|k: int| 0 <= k < s.len() && s[k] == c;
            if k < before.len() {
                assert(before[k] == c);
                let m = choose|m: int| 0 <= m < t.len() && t[m] == want;
                assert(names[m] == want);
            } else {
                assert(names[names.len() - 1] == want);
            }
        }
        if names.contains(want) {
            let m = choose|m: int| 0 <= m < names.len() && names[m] == want;
            if m < t.len() {
                assert(t[m] == want);
                let k = choose|k: int| 0 <= k < before.len() && before[k] == c;
                assert(s[k] == c);
            } else {
                assert(s[s.len() - 1] == c);
            }
        }
    }
}

proof fn lemma_typed_mounts(mounts: Seq<MountWireView>, p: ProvenanceView)
    ensures
        typed_mounts(mounts, p) matches Ok(out) ==> out.len() == mounts.len() && forall|i: int|
            0 <= i < mounts.len() ==> (#[trigger] out[i]).triple.host == mounts[i].host_source
                && out[i].triple.target == mounts[i].container_target && mount::parsed_mode(
                mounts[i].mode,
            ) == Ok::<mount::MountMode, ErrorView>(out[i].triple.mode),
    decreases mounts.len(),
{
    if mounts.len() > 0 {
        let t = mounts.drop_last();
        lemma_typed_mounts(t, p);
        if typed_mounts(mounts, p) is Ok {
            let out = typed_mounts(mounts, p)->Ok_0;
            let head = typed_mounts(t, p)->Ok_0;
            assert forall|i: int| 0 <= i < mounts.len() implies (#[trigger] out[i]).triple.host
                == mounts[i].host_source && out[i].triple.target == mounts[i].container_target
                && mount::parsed_mode(mounts[i].mode) == Ok::<mount::MountMode, ErrorView>(
                out[i].triple.mode,
            ) by {
                if i < t.len() {
                    assert(t[i] == mounts[i]);
                    assert(out[i] == head[i]);
                }
            }
        }
    }
}

/// A prepared plan is what the guest answered: its variables and their
/// values, its mounts with host, target and mode, its claims, its hooks, and
/// one admission for each credential, in the order of the answer.
pub proof fn law_prepared_plans_say_the_answer(
    w: ResponseView,
    guest: Seq<char>,
    capabilities: Seq<Seq<char>>,
    context: ContextView,
    hosts: Seq<Seq<char>>,
    p: PolicyView,
    acceptances: Seq<Seq<char>>,
    plan: EvaluatedView,
)
    requires
        prepared(Some(w), guest, capabilities, context, hosts, p, acceptances) == Ok::<
            EvaluatedView,
            ErrorView,
        >(plan),
    ensures
        plan.merged.environment.len() == w.environment.len(),
        forall|i: int|
            0 <= i < w.environment.len() ==> (#[trigger] plan.merged.environment[i]).0
                == w.environment[i].0 && plan.merged.environment[i].1 == w.environment[i].1,
        plan.merged.mounts.len() == w.mounts.len(),
        forall|i: int|
            0 <= i < w.mounts.len() ==> (#[trigger] plan.merged.mounts[i]).host
                == w.mounts[i].host_source && plan.merged.mounts[i].target
                == w.mounts[i].container_target && w.mounts[i].mode == (
            if plan.merged.mounts[i].mode == mount::MountMode::Ro {
                "ro"@
            } else {
                "rw"@
            }),
        plan.merged.policy_claims.len() == w.policy_claims.len(),
        forall|i: int|
            0 <= i < w.policy_claims.len() ==> (#[trigger] plan.merged.policy_claims[i]).pattern
                == w.policy_claims[i].pattern && plan.merged.policy_claims[i].severity
                == w.policy_claims[i].severity && plan.merged.policy_claims[i].scope
                == w.policy_claims[i].scope,
        plan.merged.guest_hooks.len() == w.guest_hooks.len(),
        forall|i: int|
            0 <= i < w.guest_hooks.len() ==> plan.merged.guest_hooks.contains(
                #[trigger] w.guest_hooks[i],
            ),
        plan.credentials.len() == w.credentials.len(),
        w.credentials.len() > 0 ==> capabilities.contains("credentials"@),
        w.mounts.len() > 0 ==> capabilities.contains("mounts"@),
        w.environment.len() > 0 ==> capabilities.contains("environment"@),
        w.policy_claims.len() > 0 ==> capabilities.contains("policy-claims"@),
        w.guest_hooks.len() > 0 ==> capabilities.contains("guest-hooks"@),
{
    let provenance = ProvenanceView::Extension(guest);
    let advertised = named_capabilities(capabilities).to_set();
    let built = built_plan(w, provenance)->Ok_0;
    let m = contract::merged(built, advertised, context, hosts)->Ok_0;
    assert(plan.merged == m);
    contract::law_merge_keeps_contributions(built, advertised, context, hosts, m);
    contract::law_merge_only_advertised(built, advertised, context, hosts);
    lemma_typed_mounts(w.mounts, provenance);
    lemma_admitted_len(w.credentials);
    law_advertised_names_are_granted(capabilities, Capability::Environment);
    law_advertised_names_are_granted(capabilities, Capability::Mounts);
    law_advertised_names_are_granted(capabilities, Capability::PolicyClaims);
    law_advertised_names_are_granted(capabilities, Capability::GuestHooks);
    law_advertised_names_are_granted(capabilities, Capability::Credentials);
    assert forall|i: int| 0 <= i < w.mounts.len() implies (#[trigger] plan.merged.mounts[i]).host
        == w.mounts[i].host_source && plan.merged.mounts[i].target == w.mounts[i].container_target
        && w.mounts[i].mode == (if plan.merged.mounts[i].mode == mount::MountMode::Ro {
        "ro"@
    } else {
        "rw"@
    }) by {
        assert(m.mounts[i].host == built.mounts[i].triple.host);
        mount::law_modes_are_ro_and_rw(w.mounts[i].mode, built.mounts[i].triple.mode);
    }
    assert forall|i: int| 0 <= i < w.guest_hooks.len() implies plan.merged.guest_hooks.contains(
        #[trigger] w.guest_hooks[i],
    ) by {
        contract::law_merge_keeps_hooks(built, advertised, context, hosts, m, i);
    }
    if w.guest_hooks.len() > 0 {
        contract::law_merge_keeps_hooks(built, advertised, context, hosts, m, 0);
    } else {
        contract::lemma_no_hooks(built, advertised, context, hosts, m);
    }
}

proof fn lemma_admitted_len(handles: Seq<HandleView>)
    ensures
        credentials::all_admitted(handles) matches Ok(out) ==> out.len() == handles.len(),
    decreases handles.len(),
{
    if handles.len() > 0 {
        lemma_admitted_len(handles.drop_last());
    }
}

/// An answer that merges, whose credentials are admitted and whose names and
/// claims pass policy, is prepared.
pub proof fn law_sound_answers_are_prepared(
    w: ResponseView,
    guest: Seq<char>,
    capabilities: Seq<Seq<char>>,
    context: ContextView,
    hosts: Seq<Seq<char>>,
    p: PolicyView,
    acceptances: Seq<Seq<char>>,
)
    requires
        w.credentials.len() > 0 ==> capabilities.contains("credentials"@),
        credentials::all_admitted(w.credentials) is Ok,
        built_plan(w, ProvenanceView::Extension(guest)) is Ok,
        ({
            let m = contract::merged(
                built_plan(w, ProvenanceView::Extension(guest))->Ok_0,
                named_capabilities(capabilities).to_set(),
                context,
                hosts,
            );
            let names = w.environment.map_values(|e: (Seq<char>, Seq<char>)| e.0);
            let claims = policy::partitioned(policy::all_rules(p), w.policy_claims, names);
            &&& m is Ok
            &&& claims is Ok
            &&& forall|i: int|
                0 <= i < w.environment.len() ==> policy::refusal(
                    p,
                    (#[trigger] w.environment[i]).0,
                    ProvenanceView::Extension(guest),
                    acceptances,
                    (claims->Ok_0).0,
                ) is None
        }),
    ensures
        prepared(Some(w), guest, capabilities, context, hosts, p, acceptances) is Ok,
{
    let pv = ProvenanceView::Extension(guest);
    law_advertised_names_are_granted(capabilities, Capability::Credentials);
    let built = built_plan(w, pv)->Ok_0;
    let m = contract::merged(
        built,
        named_capabilities(capabilities).to_set(),
        context,
        hosts,
    )->Ok_0;
    contract::law_merge_keeps_contributions(
        built,
        named_capabilities(capabilities).to_set(),
        context,
        hosts,
        m,
    );
    let names = w.environment.map_values(|e: (Seq<char>, Seq<char>)| e.0);
    assert(pair_names(m.environment) =~= names) by {
        assert forall|i: int| 0 <= i < names.len() implies pair_names(m.environment)[i]
            == names[i] by {
            assert(m.environment[i].0 == built.environment[i].name);
        }
    }
    assert(m.policy_claims =~= w.policy_claims) by {
        assert forall|i: int| 0 <= i < w.policy_claims.len() implies m.policy_claims[i]
            == w.policy_claims[i] by {
            assert(m.policy_claims[i].pattern == built.policy_claims[i].pattern);
        }
    }
    let claims = (policy::partitioned(policy::all_rules(p), w.policy_claims, names)->Ok_0).0;
    let sourced = sourced_names(m.environment, pv);
    assert forall|i: int| 0 <= i < sourced.len() implies policy::refusal(
        p,
        (#[trigger] sourced[i]).0,
        sourced[i].1,
        acceptances,
        claims,
    ) is None by {
        assert(m.environment[i].0 == built.environment[i].name);
        assert(w.environment[i].0 == sourced[i].0);
    }
    policy::law_names_pass_one_by_one(p, sourced, acceptances, claims, 0);
}

/// A plan can be realized exactly when the isolator supports every
/// kind of contribution in it.
pub proof fn law_supported_plans_are_realized(
    plan: EvaluatedView,
    backend: Seq<char>,
    supports: Seq<Capability>,
)
    ensures
        realization_fault(plan, backend, supports) is None <==> {
            &&& plan.merged.environment.len() > 0 ==> supports.contains(Capability::Environment)
            &&& plan.merged.mounts.len() > 0 ==> supports.contains(Capability::Mounts)
            &&& plan.merged.policy_claims.len() > 0 ==> supports.contains(
                Capability::PolicyClaims,
            )
            &&& plan.merged.guest_hooks.len() > 0 ==> supports.contains(Capability::GuestHooks)
            &&& plan.credentials.len() > 0 ==> supports.contains(Capability::Credentials)
        },
{
}

/// A view says what the fields hold, each under its own name.
pub proof fn law_views_say_the_fields(
    env_wire: EnvWire,
    mount_wire: MountWire,
    prepare_response: PrepareResponse,
    evaluated_plan: EvaluatedPlan,
)
    ensures
        env_wire.deep_view() == (env_wire.name@, env_wire.value@),
        mount_wire.deep_view().host_source == mount_wire.host_source@,
        mount_wire.deep_view().container_target == mount_wire.container_target@,
        mount_wire.deep_view().mode == mount_wire.mode@,
        prepare_response.deep_view().environment == prepare_response.environment.deep_view(),
        prepare_response.deep_view().mounts == prepare_response.mounts.deep_view(),
        prepare_response.deep_view().policy_claims == prepare_response.policy_claims.deep_view(),
        prepare_response.deep_view().guest_hooks == prepare_response.guest_hooks.deep_view(),
        prepare_response.deep_view().credentials == prepare_response.credentials.deep_view(),
        evaluated_plan.deep_view().merged == evaluated_plan.merged.deep_view(),
        evaluated_plan.deep_view().diagnostics == evaluated_plan.diagnostics.deep_view(),
        evaluated_plan.deep_view().credentials == evaluated_plan.credentials.deep_view(),
{
}

/// A refusal names the isolator and the first kind of contribution that it does
/// not realize.
pub proof fn law_refused_kinds_are_named(
    plan: EvaluatedView,
    backend: Seq<char>,
    supports: Seq<Capability>,
)
    requires
        realization_fault(plan, backend, supports) is Some,
    ensures
        ({
            let refusal = |kind: Seq<char>|
                ErrorView::Contract(
                    "isolator "@ + backend + " does not realize contribution type: "@ + kind,
                );
            let e = realization_fault(plan, backend, supports)->0;
            ||| e == refusal("environment"@) && plan.merged.environment.len() > 0
                && !supports.contains(Capability::Environment)
            ||| e == refusal("mounts"@) && plan.merged.mounts.len() > 0 && !supports.contains(
                Capability::Mounts,
            )
            ||| e == refusal("policy-claims"@) && plan.merged.policy_claims.len() > 0
                && !supports.contains(Capability::PolicyClaims)
            ||| e == refusal("guest-hooks"@) && plan.merged.guest_hooks.len() > 0
                && !supports.contains(Capability::GuestHooks)
            ||| e == refusal("credentials"@) && plan.credentials.len() > 0 && !supports.contains(
                Capability::Credentials,
            )
        }),
{
}

} // verus!
