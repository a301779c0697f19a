//! Orders the operators of an engine manifest so that each runs after the
//! operators it depends on.
use crate::dependency::{
    dependencies_resolve, dependency_edges, dependency_order, is_plan_of, lists_at,
    lemma_cycles_ignore_listing_order, order_operators, plannable, sorted_indices,
};
use crate::graph::{has_cycle, is_topological_order, on_cycle, order_view};
use crate::dag::manifest::{Manifest, Operator, PlanError};
use vstd::prelude::*;

verus! {

/// `r` is what the planner makes of the sort result `sorted` for `ops`: the
/// operators at the sorted indices, or `CycleDetected` with the id of the
/// operator at the reported index.
pub open spec fn planned_from(
    ops: Seq<Operator>,
    sorted: Result<Seq<usize>, usize>,
    r: Result<Vec<&Operator>, PlanError>,
) -> bool {
    match sorted {
        Ok(order) => r matches Ok(v) && lists_at(ops, order, v@),
        Err(c) => r matches Err(e) && e matches PlanError::CycleDetected(id) && id@ == ops[c as int].id@,
    }
}

/// Turns the result of the topological sort of the manifest's dependency
/// graph into the plan: the operators at the sorted indices, or
/// `CycleDetected` with the id of the operator at the reported index.
pub fn plan_from_order(manifest: &Manifest, sorted: Result<Vec<usize>, usize>) -> (r: Result<
    Vec<&Operator>,
    PlanError,
>)
    requires
        sorted matches Ok(order) ==> forall|i: int|
            0 <= i < order@.len() ==> #[trigger] order@[i] < manifest.operators@.len(),
        sorted matches Err(c) ==> c < manifest.operators@.len(),
    ensures
        planned_from(manifest.operators@, order_view(sorted), r),
{
    match sorted {
        Ok(order) => Ok(order_operators(&manifest.operators, &order)),
        Err(c) => {
            let op = &manifest.operators[c];
            Err(PlanError::CycleDetected(op.id.clone()))
        },
    }
}

/// Plans the manifest: its operators in an order in which every operator
/// comes after the operators it depends on, or `CycleDetected` with the id of
/// an operator on a cycle when there is no such order. Which order, and which
/// operator of a cycle, is what petgraph's topological sort gives for the
/// dependency graph (`sorted_indices`).
///
/// Every dependency must name an operator (the id lookup has no answer for
/// one that does not), and the dependency graph indexes nodes and edges with
/// `u32`: `plannable` states both, and `is_plannable` tests them.
pub fn plan_dag(manifest: &Manifest) -> (r: Result<Vec<&Operator>, PlanError>)
    requires
        plannable(manifest.operators@),
    ensures
        r is Ok <==> !has_cycle(dependency_edges(manifest.operators@)),
        r matches Ok(sorted) ==> is_plan_of(manifest.operators@, sorted@),
        r matches Err(e) ==> e matches PlanError::CycleDetected(id) && exists|c: int|
            0 <= c < manifest.operators@.len() && #[trigger] on_cycle(
                dependency_edges(manifest.operators@),
                c,
            ) && id@ == manifest.operators@[c].id@,
        planned_from(manifest.operators@, sorted_indices(manifest.operators@), r),
{
    let sorted = dependency_order(&manifest.operators);
    let ghost ops = manifest.operators@;
    let ghost sv = order_view(sorted);
    proof {
        if let Ok(order) = sv {
            let ord = order.map_values(|i: usize| i as int);
            assert forall|i: int| 0 <= i < order.len() implies #[trigger] order[i] < ops.len() by {
                assert(0 <= ord[i] < ops.len());
            }
        }
    }
    let r = plan_from_order(manifest, sorted);
    proof {
        if let Ok(order) = sv {
            let ord = order.map_values(|i: usize| i as int);
            let v = r->Ok_0;
            assert(is_topological_order(ord, ops.len() as int, dependency_edges(ops)));
            assert forall|k: int| 0 <= k < v@.len() implies *v@[k] == ops[ord[k]] by {
                assert(ord[k] == order[k] as int);
            }
        }
    }
    r
}

/// Two plans of one manifest agree: both succeed with the same operators in
/// the same order, or both report the same cycle id.
pub proof fn lemma_plan_is_deterministic(
    ops: Seq<Operator>,
    r1: Result<Vec<&Operator>, PlanError>,
    r2: Result<Vec<&Operator>, PlanError>,
)
    requires
        planned_from(ops, sorted_indices(ops), r1),
        planned_from(ops, sorted_indices(ops), r2),
    ensures
        r1 is Ok <==> r2 is Ok,
        r1 is Ok ==> r1->Ok_0@.len() == r2->Ok_0@.len() && forall|k: int|
            0 <= k < r1->Ok_0@.len() ==> *r1->Ok_0@[k] == *r2->Ok_0@[k],
        r1 is Err ==> r1->Err_0 is CycleDetected && r2->Err_0 is CycleDetected
            && r1->Err_0->CycleDetected_0@ == r2->Err_0->CycleDetected_0@,
{
}

/// Whether a manifest can be planned does not depend on the order in which
/// its operators are listed: plans of two manifests with the same operators,
/// as a multiset, succeed together or fail together.
pub proof fn lemma_plan_exists_whatever_the_listing_order(
    ops1: Seq<Operator>,
    ops2: Seq<Operator>,
    r1: Result<Vec<&Operator>, PlanError>,
    r2: Result<Vec<&Operator>, PlanError>,
)
    requires
        dependencies_resolve(ops1),
        ops1.to_multiset() == ops2.to_multiset(),
        r1 is Ok <==> !has_cycle(dependency_edges(ops1)),
        r2 is Ok <==> !has_cycle(dependency_edges(ops2)),
    ensures
        r1 is Ok <==> r2 is Ok,
{
    lemma_cycles_ignore_listing_order(ops1, ops2);
}

} // verus!
