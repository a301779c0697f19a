//! The dependency graph of a list of operators, and its topological order.
//!
//! Operators are found by id; where several operators share an id, the last
//! of them is the one that the id names.
use crate::graph::{
    is_path, path_step, position_in, add_edge, add_node, edges_in_range, graph_edges, graph_nodes, has_cycle,
    is_topological_order, lemma_topological_order_acyclic, new_graph, node_weight, on_cycle,
    order_view, toposort, toposort_of,
};
use crate::lookup::{
    is_last_index, last_index, lemma_last_index_absent, lemma_last_index_found,
    lemma_last_index_is, lemma_last_index_range,
};
use vstd::prelude::*;

verus! {

/// An operator of a pipeline: it has an id and names the ids of the
/// operators that it depends on.
pub trait DependencyNode {
    /// The id of the operator.
    spec fn node_id(&self) -> Seq<char>;

    /// The ids of the operators that this one depends on, in order.
    spec fn node_depends(&self) -> Seq<Seq<char>>;

    fn id_ref(&self) -> (r: &String)
        ensures
            r@ == self.node_id(),
    ;

    fn depends_ref(&self) -> (r: &Vec<String>)
        ensures
            r@.len() == self.node_depends().len(),
            forall|k: int| 0 <= k < r@.len() ==> #[trigger] r@[k]@ == self.node_depends()[k],
    ;
}

/// The ids of the operators, in order.
pub open spec fn node_ids<T: DependencyNode>(ops: Seq<T>) -> Seq<Seq<char>> {
    ops.map_values(|o: T| o.node_id())
}

/// `i` is the index of the last operator whose id is `id`.
pub open spec fn is_last_with_id<T: DependencyNode>(ops: Seq<T>, id: Seq<char>, i: int) -> bool {
    is_last_index(node_ids(ops), id, i)
}

/// The index of the operator that `id` names: the last one with that id, or
/// -1 where no operator has it.
pub open spec fn id_index<T: DependencyNode>(ops: Seq<T>, id: Seq<char>) -> int {
    last_index(node_ids(ops), id)
}

/// Every dependency of every operator names an operator.
pub open spec fn dependencies_resolve<T: DependencyNode>(ops: Seq<T>) -> bool {
    forall|j: int, k: int|
        0 <= j < ops.len() && 0 <= k < ops[j].node_depends().len() ==> #[trigger] id_index(
            ops,
            ops[j].node_depends()[k],
        ) >= 0
}

/// The edges that operator `j` brings: one from each of its dependencies to
/// the operator that its own id names, in the order of its dependencies.
pub open spec fn op_edges<T: DependencyNode>(ops: Seq<T>, j: int) -> Seq<(int, int)> {
    ops[j].node_depends().map_values(
        |d: Seq<char>| (id_index(ops, d), id_index(ops, ops[j].node_id())),
    )
}

/// The edges of the operators `0..m`, operator by operator.
pub open spec fn edges_upto<T: DependencyNode>(ops: Seq<T>, m: int) -> Seq<(int, int)>
    decreases m,
{
    if m <= 0 {
        Seq::empty()
    } else {
        edges_upto(ops, m - 1) + op_edges(ops, m - 1)
    }
}

/// The dependency graph of the operators: nodes are operator indices, and an
/// edge `(a, b)` says that operator `b` must run after operator `a`.
pub open spec fn dependency_edges<T: DependencyNode>(ops: Seq<T>) -> Seq<(int, int)> {
    edges_upto(ops, ops.len() as int)
}

/// The node weights of the dependency graph of `n` operators: operator
/// index `t` at node `t`.
pub open spec fn identity_nodes(n: int) -> Seq<usize> {
    Seq::new(n as nat, |t: int| t as usize)
}

/// What petgraph's topological sort gives for the dependency graph of `ops`:
/// operator indices in its order, or the index of the operator on a cycle
/// that it reports.
pub open spec fn sorted_indices<T: DependencyNode>(ops: Seq<T>) -> Result<Seq<usize>, usize> {
    toposort_of(identity_nodes(ops.len() as int), dependency_edges(ops))
}

/// `sorted` holds the operators of `ops` at the indices of `order`.
pub open spec fn lists_at<T>(ops: Seq<T>, order: Seq<usize>, sorted: Seq<&T>) -> bool {
    &&& sorted.len() == order.len()
    &&& forall|k: int| 0 <= k < sorted.len() ==> *sorted[k] == ops[order[k] as int]
}

/// `sorted` lists the operators of `ops` in a topological order of their
/// dependency graph: each operator exactly once, after every operator that it
/// depends on.
pub open spec fn is_plan_of<T: DependencyNode>(ops: Seq<T>, sorted: Seq<&T>) -> bool {
    exists|order: Seq<int>|
        #[trigger] is_topological_order(order, ops.len() as int, dependency_edges(ops))
            && sorted.len() == ops.len() && forall|k: int|
            0 <= k < sorted.len() ==> *sorted[k] == ops[order[k]]
}

/// The operators can be handed to the planner: every dependency names an
/// operator, and the counts of operators and of dependencies stay below the
/// index limit of the graph (`u32::MAX`).
pub open spec fn plannable<T: DependencyNode>(ops: Seq<T>) -> bool {
    &&& ops.len() < u32::MAX
    &&& dependency_edges(ops).len() < u32::MAX
    &&& dependencies_resolve(ops)
}

proof fn lemma_id_index_is<T: DependencyNode>(ops: Seq<T>, id: Seq<char>, i: int)
    requires
        is_last_with_id(ops, id, i),
    ensures
        id_index(ops, id) == i,
{
    lemma_last_index_is(node_ids(ops), id, i);
}

proof fn lemma_id_index_range<T: DependencyNode>(ops: Seq<T>, id: Seq<char>)
    ensures
        -1 <= id_index(ops, id) < ops.len(),
        id_index(ops, id) >= 0 ==> is_last_with_id(ops, id, id_index(ops, id)),
        id_index(ops, id) >= 0 ==> ops[id_index(ops, id)].node_id() == id,
{
    lemma_last_index_range(node_ids(ops), id);
}

/// Where operator `i` has id `id`, the id names an operator with that id.
proof fn lemma_id_index_found<T: DependencyNode>(ops: Seq<T>, id: Seq<char>, i: int)
    requires
        0 <= i < ops.len(),
        ops[i].node_id() == id,
    ensures
        0 <= id_index(ops, id) < ops.len(),
        ops[id_index(ops, id)].node_id() == id,
{
    assert(node_ids(ops)[i] == id);
    lemma_last_index_found(node_ids(ops), id, i);
}

proof fn lemma_edges_upto_len<T: DependencyNode>(ops: Seq<T>, m: int, n: int)
    requires
        0 <= m <= n,
    ensures
        edges_upto(ops, m).len() <= edges_upto(ops, n).len(),
    decreases n - m,
{
    if m < n {
        lemma_edges_upto_len(ops, m, n - 1);
    }
}

proof fn lemma_edges_upto_contains<T: DependencyNode>(ops: Seq<T>, j: int, k: int, m: int)
    requires
        0 <= j < m,
        0 <= k < op_edges(ops, j).len(),
    ensures
        edges_upto(ops, m).contains(op_edges(ops, j)[k]),
    decreases m,
{
    let e = op_edges(ops, j)[k];
    if j == m - 1 {
        let off = edges_upto(ops, m - 1).len() as int;
        assert(edges_upto(ops, m)[off + k] == e);
    } else {
        lemma_edges_upto_contains(ops, j, k, m - 1);
        let prev = edges_upto(ops, m - 1);
        let x = choose|x: int| 0 <= x < prev.len() && #[trigger] prev[x] == e;
        assert(edges_upto(ops, m)[x] == e);
    }
}

/// Operator ids are pairwise distinct.
pub open spec fn ids_distinct<T: DependencyNode>(ops: Seq<T>) -> bool {
    forall|i: int, j: int| 0 <= i < j < ops.len() ==> ops[i].node_id() != ops[j].node_id()
}

/// Where operator ids are distinct, every operator comes, in any topological
/// order of the dependency graph, after each operator that one of its
/// dependencies names.
pub proof fn lemma_dependencies_come_first<T: DependencyNode>(
    ops: Seq<T>,
    order: Seq<int>,
    b: int,
    k: int,
)
    requires
        ids_distinct(ops),
        dependencies_resolve(ops),
        is_topological_order(order, ops.len() as int, dependency_edges(ops)),
        0 <= b < ops.len(),
        0 <= k < ops[b].node_depends().len(),
    ensures
        0 <= id_index(ops, ops[b].node_depends()[k]) < ops.len(),
        ops[id_index(ops, ops[b].node_depends()[k])].node_id() == ops[b].node_depends()[k],
        position_in(order, id_index(ops, ops[b].node_depends()[k])) < position_in(order, b),
{
    let d = ops[b].node_depends()[k];
    let a = id_index(ops, d);
    assert(id_index(ops, d) >= 0);
    lemma_id_index_range(ops, d);
    assert forall|t: int| b < t < ops.len() implies #[trigger] ops[t].node_id() != ops[b].node_id() by {
    }
    lemma_id_index_is(ops, ops[b].node_id(), b);
    assert(op_edges(ops, b)[k] == (a, b));
    lemma_edges_upto_contains(ops, b, k, ops.len() as int);
    assert(order.contains(a));
    assert(order.contains(b));
    let i = position_in(order, a);
    let j = position_in(order, b);
    assert(dependency_edges(ops).contains((order[i], order[j])));
}

/// In a plan of operators with distinct ids, every operator is listed after
/// the operator that each of its dependencies names.
pub proof fn lemma_plan_puts_dependencies_first<T: DependencyNode>(
    ops: Seq<T>,
    sorted: Seq<&T>,
    b: int,
    k: int,
)
    requires
        is_plan_of(ops, sorted),
        ids_distinct(ops),
        dependencies_resolve(ops),
        0 <= b < ops.len(),
        0 <= k < ops[b].node_depends().len(),
    ensures
        exists|p: int, q: int|
            #![trigger sorted[p], sorted[q]]
            0 <= p < q < sorted.len() && *sorted[q] == ops[b] && sorted[p].node_id()
                == ops[b].node_depends()[k],
{
    let order = choose|order: Seq<int>|
        #[trigger] is_topological_order(order, ops.len() as int, dependency_edges(ops))
            && sorted.len() == ops.len() && forall|t: int|
            0 <= t < sorted.len() ==> *sorted[t] == ops[order[t]];
    lemma_dependencies_come_first(ops, order, b, k);
    let a = id_index(ops, ops[b].node_depends()[k]);
    assert(order.contains(a));
    assert(order.contains(b));
    let p = position_in(order, a);
    let q = position_in(order, b);
    assert(*sorted[q] == ops[b]);
    assert(sorted[p].node_id() == ops[b].node_depends()[k]);
}

/// Every edge of the dependency graph of the operators `0..m` comes from a
/// dependency of one of them.
proof fn lemma_edge_source<T: DependencyNode>(ops: Seq<T>, m: int, e: (int, int))
    requires
        0 <= m,
        edges_upto(ops, m).contains(e),
    ensures
        exists|j: int, k: int|
            0 <= j < m && 0 <= k < ops[j].node_depends().len() && #[trigger] op_edges(ops, j)[k]
                == e,
    decreases m,
{
    if m > 0 {
        let prev = edges_upto(ops, m - 1);
        let all = edges_upto(ops, m);
        let x = choose|x: int| 0 <= x < all.len() && #[trigger] all[x] == e;
        if x < prev.len() {
            assert(prev[x] == e);
            lemma_edge_source(ops, m - 1, e);
        } else {
            let k = x - prev.len();
            assert(op_edges(ops, m - 1)[k] == e);
        }
    }
}

/// The dependencies of `ops2` name operators wherever those of `ops1` do and
/// every operator of either list is one of the other.
proof fn lemma_resolve_carries_over<T: DependencyNode>(ops1: Seq<T>, ops2: Seq<T>)
    requires
        dependencies_resolve(ops1),
        forall|x: int| 0 <= x < ops1.len() ==> ops2.contains(#[trigger] ops1[x]),
        forall|y: int| 0 <= y < ops2.len() ==> ops1.contains(#[trigger] ops2[y]),
    ensures
        dependencies_resolve(ops2),
{
    assert forall|y: int, k: int|
        0 <= y < ops2.len() && 0 <= k < ops2[y].node_depends().len() implies #[trigger] id_index(
        ops2,
        ops2[y].node_depends()[k],
    ) >= 0 by {
        let d = ops2[y].node_depends()[k];
        assert(ops1.contains(ops2[y]));
        let x = choose|x: int| 0 <= x < ops1.len() && ops1[x] == ops2[y];
        assert(id_index(ops1, ops1[x].node_depends()[k]) >= 0);
        lemma_id_index_range(ops1, d);
        let a = id_index(ops1, d);
        assert(ops2.contains(ops1[a]));
        let z = choose|z: int| 0 <= z < ops2.len() && ops2[z] == ops1[a];
        lemma_id_index_found(ops2, d, z);
    }
}

/// An edge of the dependency graph of `ops1`, with both ends taken by id to
/// `ops2`, is an edge of the dependency graph of `ops2`, where every operator
/// of `ops1` is one of `ops2`.
proof fn lemma_edge_carries_over<T: DependencyNode>(ops1: Seq<T>, ops2: Seq<T>, a: int, b: int)
    requires
        dependencies_resolve(ops1),
        forall|x: int| 0 <= x < ops1.len() ==> ops2.contains(#[trigger] ops1[x]),
        dependency_edges(ops1).contains((a, b)),
    ensures
        0 <= a < ops1.len(),
        0 <= b < ops1.len(),
        dependency_edges(ops2).contains(
            (id_index(ops2, ops1[a].node_id()), id_index(ops2, ops1[b].node_id())),
        ),
{
    lemma_edge_source(ops1, ops1.len() as int, (a, b));
    let (j, k) = choose|j: int, k: int|
        0 <= j < ops1.len() && 0 <= k < ops1[j].node_depends().len() && #[trigger] op_edges(
            ops1,
            j,
        )[k] == (a, b);
    let d = ops1[j].node_depends()[k];
    assert(op_edges(ops1, j)[k] == (id_index(ops1, d), id_index(ops1, ops1[j].node_id())));
    assert(id_index(ops1, ops1[j].node_depends()[k]) >= 0);
    lemma_id_index_range(ops1, d);
    lemma_id_index_found(ops1, ops1[j].node_id(), j);
    assert(ops2.contains(ops1[j]));
    let y = choose|y: int| 0 <= y < ops2.len() && ops2[y] == ops1[j];
    assert(op_edges(ops2, y)[k] == (id_index(ops2, d), id_index(ops2, ops2[y].node_id())));
    lemma_edges_upto_contains(ops2, y, k, ops2.len() as int);
}

/// A cycle among the dependencies of `ops1` is one among those of `ops2`,
/// where every operator of `ops1` is one of `ops2`.
proof fn lemma_cycle_carries_over<T: DependencyNode>(ops1: Seq<T>, ops2: Seq<T>)
    requires
        dependencies_resolve(ops1),
        forall|x: int| 0 <= x < ops1.len() ==> ops2.contains(#[trigger] ops1[x]),
        has_cycle(dependency_edges(ops1)),
    ensures
        has_cycle(dependency_edges(ops2)),
{
    let e1 = dependency_edges(ops1);
    let e2 = dependency_edges(ops2);
    let v = choose|v: int| #[trigger] on_cycle(e1, v);
    let p = choose|p: Seq<int>| #[trigger] is_path(e1, p) && p[0] == v && p.last() == v;
    let q = p.map_values(|x: int| id_index(ops2, ops1[x].node_id()));
    assert forall|i: int| 0 <= i < q.len() - 1 implies #[trigger] path_step(e2, q, i) by {
        assert(path_step(e1, p, i));
        lemma_edge_carries_over(ops1, ops2, p[i], p[i + 1]);
    }
    assert(is_path(e2, q));
    assert(q[0] == q.last());
    assert(on_cycle(e2, q[0]));
}

/// Whether the dependencies hold a cycle does not depend on the order in
/// which the operators are listed: two lists with the same operators, as a
/// multiset, have a cycle together or not at all.
pub proof fn lemma_cycles_ignore_listing_order<T: DependencyNode>(ops1: Seq<T>, ops2: Seq<T>)
    requires
        dependencies_resolve(ops1),
        ops1.to_multiset() == ops2.to_multiset(),
    ensures
        has_cycle(dependency_edges(ops1)) <==> has_cycle(dependency_edges(ops2)),
{
    broadcast use vstd::seq_lib::group_to_multiset_ensures;

    assert forall|x: int| 0 <= x < ops1.len() implies ops2.contains(#[trigger] ops1[x]) by {
        assert(ops1.contains(ops1[x]));
        assert(ops1.to_multiset().count(ops1[x]) > 0);
    }
    assert forall|y: int| 0 <= y < ops2.len() implies ops1.contains(#[trigger] ops2[y]) by {
        assert(ops2.contains(ops2[y]));
        assert(ops2.to_multiset().count(ops2[y]) > 0);
    }
    lemma_resolve_carries_over(ops1, ops2);
    if has_cycle(dependency_edges(ops1)) {
        lemma_cycle_carries_over(ops1, ops2);
    }
    if has_cycle(dependency_edges(ops2)) {
        lemma_cycle_carries_over(ops2, ops1);
    }
}

/// The number of dependencies of all the operators.
pub open spec fn total_deps<T: DependencyNode>(ops: Seq<T>) -> int
    decreases ops.len(),
{
    if ops.len() == 0 {
        0
    } else {
        total_deps(ops.drop_last()) + ops.last().node_depends().len()
    }
}

/// Every dependency of every operator is the id of some operator of the
/// list, wherever in the list that operator stands.
pub open spec fn every_dependency_names_some_operator<T: DependencyNode>(ops: Seq<T>) -> bool {
    forall|j: int, k: int|
        #![trigger ops[j].node_depends()[k]]
        0 <= j < ops.len() && 0 <= k < ops[j].node_depends().len() ==> exists|i: int|
            0 <= i < ops.len() && #[trigger] ops[i].node_id() == ops[j].node_depends()[k]
}

proof fn lemma_edges_upto_total<T: DependencyNode>(ops: Seq<T>, m: int)
    requires
        0 <= m <= ops.len(),
    ensures
        edges_upto(ops, m).len() == total_deps(ops.take(m)),
    decreases m,
{
    if m > 0 {
        lemma_edges_upto_total(ops, m - 1);
        assert(ops.take(m).drop_last() =~= ops.take(m - 1));
    }
}

/// The operators can be planned exactly when there are fewer than
/// `u32::MAX` of them and of their dependencies, and every dependency is the
/// id of some operator of the list, wherever that operator is listed.
pub proof fn lemma_plannable_exactly_when<T: DependencyNode>(ops: Seq<T>)
    ensures
        plannable(ops) <==> {
            &&& ops.len() < u32::MAX
            &&& total_deps(ops) < u32::MAX
            &&& every_dependency_names_some_operator(ops)
        },
{
    lemma_edges_upto_total(ops, ops.len() as int);
    assert(ops.take(ops.len() as int) =~= ops);
    if dependencies_resolve(ops) {
        assert forall|j: int, k: int|
            #![trigger ops[j].node_depends()[k]]
            0 <= j < ops.len() && 0 <= k < ops[j].node_depends().len() implies exists|i: int|
                0 <= i < ops.len() && #[trigger] ops[i].node_id() == ops[j].node_depends()[k] by {
            let d = ops[j].node_depends()[k];
            assert(id_index(ops, ops[j].node_depends()[k]) >= 0);
            lemma_id_index_range(ops, d);
            assert(ops[id_index(ops, d)].node_id() == d);
        }
    }
    if every_dependency_names_some_operator(ops) {
        assert forall|j: int, k: int|
            0 <= j < ops.len() && 0 <= k < ops[j].node_depends().len() implies #[trigger] id_index(
            ops,
            ops[j].node_depends()[k],
        ) >= 0 by {
            let d = ops[j].node_depends()[k];
            let i = choose|i: int| 0 <= i < ops.len() && #[trigger] ops[i].node_id() == d;
            lemma_id_index_found(ops, d, i);
        }
    }
}

proof fn lemma_total_deps_remove<T: DependencyNode>(ops: Seq<T>, i: int)
    requires
        0 <= i < ops.len(),
    ensures
        total_deps(ops) == total_deps(ops.remove(i)) + ops[i].node_depends().len(),
    decreases ops.len(),
{
    if i < ops.len() - 1 {
        let r = ops.remove(i);
        assert(r.drop_last() =~= ops.drop_last().remove(i));
        assert(r.last() == ops.last());
        lemma_total_deps_remove(ops.drop_last(), i);
    } else {
        assert(ops.remove(i) =~= ops.drop_last());
    }
}

proof fn lemma_total_deps_permutation<T: DependencyNode>(ops1: Seq<T>, ops2: Seq<T>)
    requires
        ops1.to_multiset() == ops2.to_multiset(),
    ensures
        total_deps(ops1) == total_deps(ops2),
    decreases ops1.len(),
{
    broadcast use vstd::seq_lib::group_to_multiset_ensures;

    if ops1.len() == 0 {
        assert(ops2.to_multiset().len() == 0);
    } else {
        let x = ops1.last();
        let init = ops1.drop_last();
        assert(ops1 =~= init.push(x));
        assert(ops1.contains(x));
        assert(ops2.to_multiset().count(x) > 0);
        let i = choose|i: int| 0 <= i < ops2.len() && ops2[i] == x;
        let rest = ops2.remove(i);
        assert(rest.to_multiset() =~= ops2.to_multiset().remove(x));
        assert(ops1.to_multiset() =~= init.to_multiset().insert(x));
        assert(rest.to_multiset() =~= init.to_multiset());
        lemma_total_deps_permutation(init, rest);
        lemma_total_deps_remove(ops2, i);
    }
}

/// Whether the operators can be planned does not depend on the order in
/// which they are listed: two lists with the same operators, as a multiset,
/// are plannable together or not at all.
pub proof fn lemma_plannable_ignores_listing_order<T: DependencyNode>(ops1: Seq<T>, ops2: Seq<T>)
    requires
        ops1.to_multiset() == ops2.to_multiset(),
    ensures
        plannable(ops1) <==> plannable(ops2),
{
    broadcast use vstd::seq_lib::group_to_multiset_ensures;

    ops1.to_multiset_ensures();
    ops2.to_multiset_ensures();
    assert(ops1.len() == ops2.len());
    lemma_total_deps_permutation(ops1, ops2);
    lemma_plannable_exactly_when(ops1);
    lemma_plannable_exactly_when(ops2);
    assert forall|x: int| 0 <= x < ops1.len() implies ops2.contains(#[trigger] ops1[x]) by {
        assert(ops1.contains(ops1[x]));
        assert(ops1.to_multiset().count(ops1[x]) > 0);
    }
    assert forall|y: int| 0 <= y < ops2.len() implies ops1.contains(#[trigger] ops2[y]) by {
        assert(ops2.contains(ops2[y]));
        assert(ops2.to_multiset().count(ops2[y]) > 0);
    }
    if dependencies_resolve(ops1) {
        lemma_resolve_carries_over(ops1, ops2);
    }
    if dependencies_resolve(ops2) {
        lemma_resolve_carries_over(ops2, ops1);
    }
}

/// Finds the operator that `name` names: the last one with that id.
fn find_id<T: DependencyNode>(ops: &Vec<T>, name: &String) -> (r: Option<usize>)
    ensures
        r matches Some(i) ==> i == id_index(ops@, name@) && is_last_with_id(ops@, name@, i as int),
        r is None ==> id_index(ops@, name@) == -1,
        r is None ==> forall|k: int| 0 <= k < ops.len() ==> #[trigger] ops@[k].node_id() != name@,
{
    let mut i = ops.len();
    while i > 0
        invariant
            i <= ops.len(),
            forall|k: int| i <= k < ops.len() ==> #[trigger] ops@[k].node_id() != name@,
        decreases i,
    {
        i = i - 1;
        if ops[i].id_ref().eq(name) {
            proof {
                assert forall|k: int| i < k < ops@.len() implies #[trigger] node_ids(ops@)[k]
                    != name@ by {
                    assert(node_ids(ops@)[k] == ops@[k].node_id());
                }
                lemma_id_index_is(ops@, name@, i as int);
            }
            return Some(i);
        }
    }
    proof {
        assert forall|k: int| 0 <= k < ops@.len() implies #[trigger] node_ids(ops@)[k] != name@ by {
            assert(node_ids(ops@)[k] == ops@[k].node_id());
        }
        lemma_last_index_absent(node_ids(ops@), name@);
    }
    None
}

/// The operators of `ops` at the given indices, in order.
pub fn order_operators<'a, T>(ops: &'a Vec<T>, order: &Vec<usize>) -> (r: Vec<&'a T>)
    requires
        forall|i: int| 0 <= i < order@.len() ==> #[trigger] order@[i] < ops@.len(),
    ensures
        lists_at(ops@, order@, r@),
{
    let mut r: Vec<&'a T> = Vec::new();
    for t in 0..order.len()
        invariant
            forall|i: int| 0 <= i < order@.len() ==> #[trigger] order@[i] < ops@.len(),
            r@.len() == t,
            forall|k: int| 0 <= k < t ==> *r@[k] == ops@[order@[k] as int],
    {
        assert(order@[t as int] < ops@.len());
        r.push(&ops[order[t]]);
    }
    r
}

/// Tells whether the operators can be handed to `dependency_order`.
pub fn is_plannable<T: DependencyNode>(ops: &Vec<T>) -> (r: bool)
    ensures
        r == plannable(ops@),
{
    if ops.len() >= 4294967295 {
        return false;
    }
    let n = ops.len();
    let mut total: usize = 0;
    let mut j: usize = 0;
    while j < n
        invariant
            j <= n,
            n == ops.len(),
            total == edges_upto(ops@, j as int).len(),
            total < u32::MAX,
            forall|a: int, k: int|
                0 <= a < j && 0 <= k < ops@[a].node_depends().len() ==> #[trigger] id_index(
                    ops@,
                    ops@[a].node_depends()[k],
                ) >= 0,
        decreases n - j,
    {
        let deps = ops[j].depends_ref();
        let mut k: usize = 0;
        while k < deps.len()
            invariant
                j < n,
                n == ops.len(),
                k <= deps@.len(),
                deps@.len() == ops@[j as int].node_depends().len(),
                forall|t: int| 0 <= t < deps@.len() ==> #[trigger] deps@[t]@ == ops@[j as int].node_depends()[t],
                forall|t: int| 0 <= t < k ==> #[trigger] id_index(
                    ops@,
                    ops@[j as int].node_depends()[t],
                ) >= 0,
            decreases deps@.len() - k,
        {
            if find_id(ops, &deps[k]).is_none() {
                assert(id_index(ops@, ops@[j as int].node_depends()[k as int]) < 0);
                proof {
                    lemma_not_plannable_at(ops@, j as int, k as int);
                }
                return false;
            }
            k = k + 1;
        }
        if deps.len() >= 4294967295 - total {
            proof {
                lemma_edges_upto_len(ops@, j + 1, ops@.len() as int);
            }
            return false;
        }
        total = total + deps.len();
        j = j + 1;
    }
    true
}

proof fn lemma_not_plannable_at<T: DependencyNode>(ops: Seq<T>, j: int, k: int)
    requires
        0 <= j < ops.len(),
        0 <= k < ops[j].node_depends().len(),
        id_index(ops, ops[j].node_depends()[k]) < 0,
    ensures
        !dependencies_resolve(ops),
{
}

/// Builds the dependency graph of `ops` with petgraph and sorts it
/// topologically: on success the operator indices in an order in which every
/// operator comes after the operators it depends on; on a cycle the index of
/// an operator that lies on a cycle.
pub fn dependency_order<T: DependencyNode>(ops: &Vec<T>) -> (r: Result<Vec<usize>, usize>)
    requires
        plannable(ops@),
    ensures
        r matches Ok(order) ==> is_topological_order(
            order@.map_values(|i: usize| i as int),
            ops@.len() as int,
            dependency_edges(ops@),
        ),
        r matches Err(c) ==> c < ops@.len() && on_cycle(dependency_edges(ops@), c as int),
        r is Ok <==> !has_cycle(dependency_edges(ops@)),
        order_view(r) == sorted_indices(ops@),
{
    let n = ops.len();
    let mut graph = new_graph();
    let mut i: usize = 0;
    while i < n
        invariant
            i <= n,
            n == ops.len(),
            n < u32::MAX,
            graph_nodes(graph) == Seq::new(i as nat, |t: int| t as usize),
            graph_edges(graph) == Seq::<(int, int)>::empty(),
        decreases n - i,
    {
        add_node(&mut graph, i);
        i = i + 1;
        assert(graph_nodes(graph) =~= Seq::new(i as nat, |t: int| t as usize));
    }
    let mut j: usize = 0;
    while j < n
        invariant
            j <= n,
            n == ops.len(),
            plannable(ops@),
            graph_nodes(graph) == Seq::new(n as nat, |t: int| t as usize),
            graph_edges(graph) == edges_upto(ops@, j as int),
            edges_in_range(graph_edges(graph), n as int),
        decreases n - j,
    {
        let op = &ops[j];
        let dest = find_id(ops, op.id_ref()).unwrap();
        let deps = op.depends_ref();
        let ghost before = graph_edges(graph);
        let mut k: usize = 0;
        while k < deps.len()
            invariant
                j < n,
                n == ops.len(),
                plannable(ops@),
                *op == ops@[j as int],
                k <= deps@.len(),
                deps@.len() == ops@[j as int].node_depends().len(),
                forall|t: int| 0 <= t < deps@.len() ==> #[trigger] deps@[t]@ == ops@[j as int].node_depends()[t],
                dest == id_index(ops@, ops@[j as int].node_id()),
                dest < n,
                before == edges_upto(ops@, j as int),
                graph_nodes(graph) == Seq::new(n as nat, |t: int| t as usize),
                graph_edges(graph) == before + op_edges(ops@, j as int).take(k as int),
                edges_in_range(graph_edges(graph), n as int),
            decreases deps@.len() - k,
        {
            assert(id_index(ops@, ops@[j as int].node_depends()[k as int]) >= 0);
            let src = find_id(ops, &deps[k]).unwrap();
            proof {
                lemma_edges_upto_len(ops@, j + 1, n as int);
                assert(edges_upto(ops@, j + 1) == before + op_edges(ops@, j as int));
            }
            let ghost prev = graph_edges(graph);
            add_edge(&mut graph, src, dest);
            assert forall|e: (int, int)| #[trigger] graph_edges(graph).contains(e) implies 0 <= e.0
                < n && 0 <= e.1 < n by {
                if e != (src as int, dest as int) {
                    let x = choose|x: int| 0 <= x < graph_edges(graph).len() && graph_edges(graph)[x] == e;
                    assert(prev[x] == e);
                    assert(prev.contains(e));
                }
            }
            assert(op_edges(ops@, j as int).take(k + 1) =~= op_edges(ops@, j as int).take(
                k as int,
            ).push((src as int, dest as int)));
            k = k + 1;
        }
        assert(op_edges(ops@, j as int).take(k as int) =~= op_edges(ops@, j as int));
        j = j + 1;
    }
    assert(graph_nodes(graph) =~= identity_nodes(n as int));
    let result = toposort(&graph);
    let ghost expected = sorted_indices(ops@);
    assert(order_view(result) == expected);
    match result {
        Ok(sorted) => {
            let ghost order = sorted@.map_values(|t: usize| t as int);
            let mut ordered: Vec<usize> = Vec::new();
            let mut t: usize = 0;
            while t < sorted.len()
                invariant
                    t <= sorted@.len(),
                    n == ops.len(),
                    n < u32::MAX,
                    order == sorted@.map_values(|t: usize| t as int),
                    is_topological_order(order, n as int, graph_edges(graph)),
                    graph_nodes(graph) == Seq::new(n as nat, |t: int| t as usize),
                    ordered@ == sorted@.take(t as int),
                decreases sorted@.len() - t,
            {
                assert(0 <= order[t as int] < n);
                let w = node_weight(&graph, sorted[t]).unwrap();
                ordered.push(w);
                assert(ordered@ =~= sorted@.take(t + 1));
                t = t + 1;
            }
            assert(ordered@ =~= sorted@);
            assert(order_view(Ok(ordered)) == expected);
            proof {
                lemma_topological_order_acyclic(order, n as int, graph_edges(graph));
            }
            Ok(ordered)
        },
        Err(c) => {
            let w = node_weight(&graph, c).unwrap();
            assert(w == c);
            Err(w)
        },
    }
}

} // verus!
