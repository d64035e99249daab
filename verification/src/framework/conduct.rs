//! Conduct-side profile evaluation through the policy lattice.
//!
//! Token-shaped assignment names are suppressible under the compiled
//! default, excusable only by exact-name user acknowledgement; profile
//! `environment-acceptances` stay grandfathered against compiled defaults
//! only; user rules take precedence over both.

use vstd::prelude::*;

use crate::error::Result;
use crate::framework::contract::{ClaimView, Provenance, ProvenanceView};
use crate::framework::policy;
use crate::framework::policy::PolicySet;
use crate::profile::Profile;
use crate::table;

verus! {

/// Names that a conduct evaluates: assignment keys, then accepted names, as
/// profile contributions.
pub open spec fn conduct_names(
    environment: Seq<(Seq<char>, Seq<char>)>,
    accepted: Seq<(Seq<char>, Seq<char>)>,
) -> Seq<(Seq<char>, ProvenanceView)> {
    (table::keys(environment) + table::keys(accepted)).map_values(
        |n: Seq<char>| (n, ProvenanceView::Profile),
    )
}

/// Evaluates conduct's fully resolved environment contributions (assignment
/// keys plus snapshotted acceptance names) against the lattice as profile
/// provenance with the profile's acceptance set and no transaction claims.
///
/// Only names take part; values are never looked at. Call before
/// unit/scratch creation: a refusal leaves no residue.
pub fn evaluate_profile_contributions(
    profile: &Profile,
    accepted_env: &Vec<(String, String)>,
    policy: &PolicySet,
) -> (r: Result<()>)
    ensures
        match policy::first_refusal(
            policy@,
            conduct_names(profile.deep_view().environment, accepted_env.deep_view()),
            profile.deep_view().acceptances,
            Seq::<ClaimView>::empty(),
            0,
        ) {
            Some(e) => r matches Err(x) && x@ == e,
            None => r is Ok,
        },
{
    let ghost env = profile.environment_assignments.deep_view();
    let ghost acc = accepted_env.deep_view();
    let ghost model = conduct_names(env, acc);
    let mut names: Vec<(String, Provenance)> = Vec::new();
    let mut k: usize = 0;
    while k < profile.environment_assignments.len()
        invariant
            env == profile.environment_assignments.deep_view(),
            model == conduct_names(env, acc),
            k <= profile.environment_assignments@.len(),
            names.deep_view() =~= model.take(k as int),
        decreases profile.environment_assignments.len() - k,
    {
        let ghost before = names.deep_view();
        assert(env[k as int] == profile.environment_assignments@[k as int].deep_view());
        names.push((profile.environment_assignments[k].0.clone(), Provenance::Profile));
        assert(names.deep_view() =~= before.push(model[k as int]));
        k = k + 1;
    }
    let mut j: usize = 0;
    while j < accepted_env.len()
        invariant
            acc == accepted_env.deep_view(),
            model == conduct_names(env, acc),
            j <= accepted_env@.len(),
            names.deep_view() =~= model.take(env.len() + j),
        decreases accepted_env.len() - j,
    {
        let ghost before = names.deep_view();
        assert(acc[j as int] == accepted_env@[j as int].deep_view());
        names.push((accepted_env[j].0.clone(), Provenance::Profile));
        assert(names.deep_view() =~= before.push(model[env.len() + j]));
        j = j + 1;
    }
    assert(model.take(env.len() + j) =~= model);
    let acceptances = policy::acceptance_set(&profile.environment_acceptances);
    let claims: Vec<policy::UpheldClaim> = Vec::new();
    assert(claims.deep_view() =~= Seq::<ClaimView>::empty());
    proof {
        lemma_same_acceptances(
            policy@,
            model,
            acceptances.deep_view(),
            profile.environment_acceptances.deep_view(),
            0,
        );
    }
    policy::evaluate_all(policy, &names, &acceptances, claims.as_slice())
}

/// Refusals depend only on which names are accepted.
proof fn lemma_same_acceptances(
    p: policy::PolicyView,
    names: Seq<(Seq<char>, ProvenanceView)>,
    a: Seq<Seq<char>>,
    b: Seq<Seq<char>>,
    k: int,
)
    requires
        forall|n: Seq<char>| #![trigger a.contains(n)] a.contains(n) <==> b.contains(n),
        0 <= k,
    ensures
        policy::first_refusal(p, names, a, Seq::empty(), k) == policy::first_refusal(
            p,
            names,
            b,
            Seq::empty(),
            k,
        ),
    decreases names.len() - k,
{
    if k < names.len() {
        assert(a.contains(names[k].0) == b.contains(names[k].0));
        lemma_same_acceptances(p, names, a, b, k + 1);
    }
}

/// Every variable that a profile assigns, and every one that was accepted, is put
/// to the policy as the profile's own, and nothing else is.
pub proof fn law_every_name_is_put_to_the_policy(
    environment: Seq<(Seq<char>, Seq<char>)>,
    accepted: Seq<(Seq<char>, Seq<char>)>,
    name: Seq<char>,
)
    ensures
        ({
            let put = conduct_names(environment, accepted);
            &&& put.len() == environment.len() + accepted.len()
            &&& forall|i: int|
                0 <= i < environment.len() ==> #[trigger] put[i] == (
                    environment[i].0,
                    ProvenanceView::Profile,
                )
            &&& forall|i: int|
                0 <= i < accepted.len() ==> #[trigger] put[environment.len() + i] == (
                    accepted[i].0,
                    ProvenanceView::Profile,
                )
        }),
{
}

} // verus!
