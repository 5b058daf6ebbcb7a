//! Laws of the canonical store and of the algebra, stated over the
//! mathematical model and proved from it.

use vstd::prelude::*;
use num::complex::Complex64;
use crate::store::{
    all_same, children_of, edge_matches, first_edge, first_node, node_matches, Edge, Node, Store,
    BLOCKS,
};
use crate::weight::{
    complex_product, complex_quotient, complex_sum, exactly_zero, negligible, same_weight, unit,
};

verus! {

/// The search for an edge ends at the first edge that stands for the content
/// sought, or behind the last edge when there is none.
pub proof fn lemma_first_edge(edges: Seq<Edge>, target: Option<usize>, weight: Complex64, from: nat)
    requires
        from <= edges.len(),
    ensures
        from <= first_edge(edges, target, weight, from) <= edges.len(),
        forall|j: int|
            from <= j < first_edge(edges, target, weight, from) ==> !edge_matches(
                #[trigger] edges[j],
                target,
                weight,
            ),
        first_edge(edges, target, weight, from) < edges.len() ==> edge_matches(
            edges[first_edge(edges, target, weight, from) as int],
            target,
            weight,
        ),
    decreases edges.len() - from,
{
    if from < edges.len() && !edge_matches(edges[from as int], target, weight) {
        lemma_first_edge(edges, target, weight, from + 1);
    }
}

/// An edge that stands for the content sought, with none before it that
/// does, is where the search ends.
pub proof fn lemma_first_edge_at(
    edges: Seq<Edge>,
    target: Option<usize>,
    weight: Complex64,
    from: nat,
    at: nat,
)
    requires
        from <= at < edges.len(),
        edge_matches(edges[at as int], target, weight),
        forall|j: int| from <= j < at ==> !edge_matches(#[trigger] edges[j], target, weight),
    ensures
        first_edge(edges, target, weight, from) == at,
    decreases at - from,
{
    if from < at {
        lemma_first_edge_at(edges, target, weight, from + 1, at);
    }
}

/// The search for a node ends at the first node that stands for the content
/// sought, or behind the last node when there is none.
pub proof fn lemma_first_node(nodes: Seq<Node>, variable: usize, children: [usize; 4], from: nat)
    requires
        from <= nodes.len(),
    ensures
        from <= first_node(nodes, variable, children, from) <= nodes.len(),
        forall|j: int|
            from <= j < first_node(nodes, variable, children, from) ==> !node_matches(
                #[trigger] nodes[j],
                variable,
                children,
            ),
        first_node(nodes, variable, children, from) < nodes.len() ==> node_matches(
            nodes[first_node(nodes, variable, children, from) as int],
            variable,
            children,
        ),
    decreases nodes.len() - from,
{
    if from < nodes.len() && !node_matches(nodes[from as int], variable, children) {
        lemma_first_node(nodes, variable, children, from + 1);
    }
}

/// A node that stands for the content sought, with none before it that
/// does, is where the search ends.
pub proof fn lemma_first_node_at(
    nodes: Seq<Node>,
    variable: usize,
    children: [usize; 4],
    from: nat,
    at: nat,
)
    requires
        from <= at < nodes.len(),
        node_matches(nodes[at as int], variable, children),
        forall|j: int| from <= j < at ==> !node_matches(#[trigger] nodes[j], variable, children),
    ensures
        first_node(nodes, variable, children, from) == at,
    decreases at - from,
{
    if from < at {
        lemma_first_node_at(nodes, variable, children, from + 1, at);
    }
}

/// Interning an edge never shrinks the store and never touches its nodes,
/// and the edge it returns has the target asked for and either the weight
/// asked for or one that is the same within the tolerance.
pub proof fn lemma_intern_edge_grows(store: Store, target: Option<usize>, weight: Complex64)
    ensures
        ({
            let (grown, id) = store.intern_edge(target, weight);
            let at = first_edge(store.edges, target, weight, 0);
            &&& store.within(grown)
            &&& grown.nodes == store.nodes
            &&& at < grown.edges.len()
            &&& grown.edges[at as int].target == target
            &&& grown.edges[at as int].weight == weight || same_weight(
                grown.edges[at as int].weight,
                weight,
            )
            &&& id == at as usize
        }),
{
    lemma_first_edge(store.edges, target, weight, 0);
}

/// Canonicalization is idempotent on edges: interning the same content a
/// second time returns the identity that the first time returned, and
/// leaves the store as the first time left it.
///
/// The weight must be the same as itself within the tolerance, which a
/// weight with a part that is not a number is not.
pub proof fn lemma_intern_edge_twice(store: Store, target: Option<usize>, weight: Complex64)
    requires
        same_weight(weight, weight),
    ensures
        ({
            let (once, id) = store.intern_edge(target, weight);
            once.intern_edge(target, weight) == (once, id)
        }),
{
    lemma_intern_edge_kept(store, store.intern_edge(target, weight).0, target, weight);
}

/// Once an edge has been interned, interning the same content in any store
/// grown from the result returns the same identity and adds nothing.
pub proof fn lemma_intern_edge_kept(
    store: Store,
    later: Store,
    target: Option<usize>,
    weight: Complex64,
)
    requires
        same_weight(weight, weight),
        store.intern_edge(target, weight).0.within(later),
    ensures
        later.intern_edge(target, weight) == (later, store.intern_edge(target, weight).1),
{
    let at = first_edge(store.edges, target, weight, 0);
    lemma_first_edge(store.edges, target, weight, 0);
    lemma_first_edge_at(later.edges, target, weight, 0, at);
}

impl Store {
    /// Whether the weights that normalising `children` produces are each the
    /// same as itself within the tolerance.
    pub open spec fn repeatable(self, children: [usize; 4]) -> bool {
        let divisor = self.edges[children[0] as int].weight;
        exactly_zero(divisor) || forall|k: int|
            0 <= k < BLOCKS ==> same_weight(
                complex_quotient((#[trigger] self.edges[children[k] as int]).weight, divisor),
                complex_quotient(self.edges[children[k] as int].weight, divisor),
            )
    }
}

/// Interning children with divided weights never shrinks the store, never
/// touches its nodes, and returns one edge of the store for each child.
pub proof fn lemma_intern_divided_grows(
    store: Store,
    children: [usize; 4],
    divisor: Complex64,
    count: nat,
)
    requires
        count <= BLOCKS,
    ensures
        ({
            let (grown, ids) = store.intern_divided(children, divisor, count);
            &&& store.within(grown)
            &&& grown.nodes == store.nodes
            &&& ids.len() == count
        }),
    decreases count,
{
    if count > 0 {
        lemma_intern_divided_grows(store, children, divisor, (count - 1) as nat);
    }
}

/// Once children have been interned with divided weights, doing the same in
/// any store grown from the result returns the same edges and adds nothing.
pub proof fn lemma_intern_divided_kept(
    store: Store,
    later: Store,
    children: [usize; 4],
    divisor: Complex64,
    count: nat,
)
    requires
        count <= BLOCKS,
        store.valid_children(children),
        store.intern_divided(children, divisor, count).0.within(later),
        forall|k: int|
            0 <= k < count ==> same_weight(
                complex_quotient((#[trigger] store.edges[children[k] as int]).weight, divisor),
                complex_quotient(store.edges[children[k] as int].weight, divisor),
            ),
    ensures
        later.intern_divided(children, divisor, count) == (
            later,
            store.intern_divided(children, divisor, count).1,
        ),
    decreases count,
{
    if count > 0 {
        let before = store.intern_divided(children, divisor, (count - 1) as nat).0;
        let edge = store.edges[children[count - 1] as int];
        lemma_intern_divided_grows(store, children, divisor, count);
        lemma_intern_divided_kept(store, later, children, divisor, (count - 1) as nat);
        lemma_intern_edge_kept(before, later, edge.target, complex_quotient(edge.weight, divisor));
    }
}

/// Whether the children are alike does not change as the store grows.
pub proof fn lemma_uniform_kept(store: Store, later: Store, children: [usize; 4])
    requires
        store.valid_children(children),
        store.within(later),
    ensures
        later.uniform(children) == store.uniform(children),
{
    assert(children[0] < store.edges.len());
    assert forall|k: int| 0 <= k < BLOCKS implies later.alike(children, k) == store.alike(
        children,
        k,
    ) by {
        assert(children[k] < store.edges.len());
    }
    if store.uniform(children) {
        assert forall|k: int| 0 <= k < BLOCKS implies #[trigger] later.alike(children, k) by {
            assert(store.alike(children, k));
        }
    }
    if later.uniform(children) {
        assert forall|k: int| 0 <= k < BLOCKS implies #[trigger] store.alike(children, k) by {
            assert(later.alike(children, k));
        }
    }
}

/// Canonicalization is idempotent on nodes: interning the same variable and
/// children a second time returns what the first time returned, and leaves
/// the store as the first time left it.
///
/// The children must be edges of the store, and the weights that
/// normalising them produces must each be the same as itself within the
/// tolerance.
pub proof fn lemma_intern_node_twice(store: Store, variable: usize, children: [usize; 4])
    requires
        store.valid_children(children),
        store.repeatable(children),
    ensures
        ({
            let (once, target) = store.intern_node(variable, children);
            once.intern_node(variable, children) == (once, target)
        }),
{
    if !store.uniform(children) {
        let once = store.intern_node(variable, children).0;
        let (reduced, normal) = store.normalize(children);
        let divisor = store.edges[children[0] as int].weight;
        assert(children[0] < store.edges.len());
        if !exactly_zero(divisor) {
            lemma_intern_divided_grows(store, children, divisor, BLOCKS as nat);
            lemma_intern_divided_kept(store, once, children, divisor, BLOCKS as nat);
        }
        assert(store.within(once));
        lemma_uniform_kept(store, once, children);
        if !all_same(normal) {
            let found = first_node(reduced.nodes, variable, normal, 0);
            lemma_first_node(reduced.nodes, variable, normal, 0);
            if found == reduced.nodes.len() {
                lemma_first_node_at(once.nodes, variable, normal, 0, found);
            }
        }
    }
}

/// The reduction rule: where all four children are one and the same edge,
/// and its weight is exactly zero, no node is made. The store stays as it
/// is, and the target of that edge is handed back in the node's place.
pub proof fn lemma_uniform_zero_children_collapse(
    store: Store,
    variable: usize,
    children: [usize; 4],
)
    requires
        all_same(children),
        exactly_zero(store.edges[children[0] as int].weight),
    ensures
        store.intern_node(variable, children) == (store, store.edges[children[0] as int].target),
{
}

/// The reduction rule in general: where the four children have one target
/// and, after dividing by the first weight, weights that are the same as the
/// first within the tolerance, no node is made. The store stays as it is, the
/// target of the first child is handed back in the node's place, and the
/// factor is the first child's whole weight.
pub proof fn lemma_alike_children_collapse(store: Store, variable: usize, children: [usize; 4])
    requires
        store.uniform(children),
    ensures
        store.intern_node(variable, children) == (store, store.edges[children[0] as int].target),
        store.node_factor(children) == store.edges[children[0] as int].weight,
{
}

/// Whenever the children collapse, no node is made, the target of the first
/// child is handed back in the node's place, and the factor is the first
/// child's whole weight: the edge that stands in the node's place is the
/// first child as it was given.
pub proof fn lemma_children_collapse(store: Store, variable: usize, children: [usize; 4])
    requires
        store.collapses(children),
        store.intern_node(variable, children).0.wf(),
    ensures
        store.intern_node(variable, children).0.nodes == store.nodes,
        store.intern_node(variable, children).1 == store.edges[children[0] as int].target,
        store.node_factor(children) == store.edges[children[0] as int].weight,
{
    let first = store.edges[children[0] as int].weight;
    if !store.uniform(children) && !exactly_zero(first) {
        lemma_intern_divided_grows(store, children, first, BLOCKS as nat);
        lemma_intern_divided_child(store, children, first, BLOCKS as nat, 0);
    }
}

/// Zero-weight absorption: the sum with a leaf of negligible weight is the
/// other operand as it is, interned with its own target and its own weight.
pub proof fn lemma_sum_absorbs_zero(
    store: Store,
    weight: Complex64,
    target: Option<usize>,
    other: Complex64,
)
    requires
        store.wf(),
        negligible(weight),
    ensures
        store.sum(None, weight, target, other) == store.intern_edge(target, other),
        !(target is None && negligible(other)) ==> store.sum(target, other, None, weight)
            == store.intern_edge(target, other),
        ({
            let (grown, id) = store.sum(None, weight, target, other);
            grown.edges[id as int].target == target && (grown.edges[id as int].weight == other
                || same_weight(grown.edges[id as int].weight, other))
        }),
{
    lemma_first_edge(store.edges, target, other, 0);
}

/// The sum of two leaves, neither of negligible weight, is the leaf that
/// carries the sum of their weights.
pub proof fn lemma_sum_of_leaves(store: Store, first: Complex64, second: Complex64)
    requires
        !negligible(first),
        !negligible(second),
    ensures
        store.sum(None, first, None, second) == store.intern_edge(
            None,
            complex_sum(first, second),
        ),
{
}

/// What interning a node hands back where the children do not collapse: a
/// node of the grown store with the variable asked for and the normalised
/// children.
pub proof fn lemma_intern_node_target(store: Store, variable: usize, children: [usize; 4])
    requires
        !store.collapses(children),
        store.intern_node(variable, children).0.nodes.len() <= usize::MAX,
    ensures
        ({
            let normal = store.normalize(children).1;
            let (grown, target) = store.intern_node(variable, children);
            &&& target matches Some(m)
            &&& m < grown.nodes.len()
            &&& node_matches(grown.nodes[m as int], variable, normal)
        }),
{
    let (reduced, normal) = store.normalize(children);
    lemma_first_node(reduced.nodes, variable, normal, 0);
}

/// Kronecker shape: below a node, unless the four combined children
/// collapse into one, the Kronecker product is an edge to a node whose
/// variable is the sum of the variables of the two operands.
pub proof fn lemma_tensor_variable(
    store: Store,
    t0: Option<usize>,
    w0: Complex64,
    t1: Option<usize>,
    w1: Complex64,
)
    requires
        store.wf(),
        store.valid_target(t0),
        store.valid_target(t1),
        t0 is Some,
        store.variable_of(t0) + store.variable_of(t1) <= usize::MAX,
        store.tensor(t0, w0, t1, w1).0.wf(),
        ({
            let (combined, ids) = store.tensor_blocks(store, t0->0 as int, t1, w1, BLOCKS as nat);
            !combined.collapses(children_of(ids))
        }),
    ensures
        ({
            let (grown, id) = store.tensor(t0, w0, t1, w1);
            &&& id < grown.edges.len()
            &&& grown.edges[id as int].target matches Some(m)
            &&& m < grown.nodes.len()
            &&& grown.nodes[m as int].variable == store.variable_of(t0) + store.variable_of(t1)
        }),
{
    let (combined, ids) = store.tensor_blocks(store, t0->0 as int, t1, w1, BLOCKS as nat);
    let blocks = children_of(ids);
    let variable = (store.variable_of(t0) + store.variable_of(t1)) as usize;
    let (noded, node) = combined.intern_node(variable, blocks);
    let weight = complex_product(w0, combined.node_factor(blocks));
    assert(store.tensor(t0, w0, t1, w1) == noded.intern_edge(node, weight));
    lemma_intern_edge_grows(noded, node, weight);
    lemma_intern_node_target(combined, variable, blocks);
}

/// What interning children with divided weights returns for child `k`: an
/// edge of the grown store with the target of the child given and with its
/// weight divided by the divisor, or with a weight that is the same as that
/// within the tolerance.
pub proof fn lemma_intern_divided_child(
    store: Store,
    children: [usize; 4],
    divisor: Complex64,
    count: nat,
    k: int,
)
    requires
        0 <= k < count <= BLOCKS,
        store.intern_divided(children, divisor, count).0.edges.len() <= usize::MAX,
    ensures
        ({
            let (grown, ids) = store.intern_divided(children, divisor, count);
            let given = store.edges[children[k] as int];
            let quotient = complex_quotient(given.weight, divisor);
            &&& ids.len() == count
            &&& ids[k] < grown.edges.len()
            &&& grown.edges[ids[k] as int].target == given.target
            &&& grown.edges[ids[k] as int].weight == quotient || same_weight(
                grown.edges[ids[k] as int].weight,
                quotient,
            )
        }),
    decreases count,
{
    let (before, ids) = store.intern_divided(children, divisor, (count - 1) as nat);
    let last = store.edges[children[count - 1] as int];
    lemma_intern_divided_grows(store, children, divisor, (count - 1) as nat);
    lemma_intern_edge_grows(before, last.target, complex_quotient(last.weight, divisor));
    if k < count - 1 {
        lemma_intern_divided_child(store, children, divisor, (count - 1) as nat, k);
    }
}

/// Normalising takes out exactly the factor. Where the children do not
/// collapse, interning hands back a node whose child `k` has the target of
/// the child given. Its weight is that of the child given where the first
/// weight is exactly zero and the factor is one; otherwise the factor is the
/// first weight, and the weight is that of the child given divided by the
/// factor, or the same as that within the tolerance.
pub proof fn lemma_node_factor(store: Store, variable: usize, children: [usize; 4], k: int)
    requires
        0 <= k < BLOCKS,
        store.intern_node(variable, children).0.wf(),
        !store.collapses(children),
    ensures
        ({
            let (grown, target) = store.intern_node(variable, children);
            let first = store.edges[children[0] as int].weight;
            let given = store.edges[children[k] as int];
            let factor = store.node_factor(children);
            let quotient = complex_quotient(given.weight, factor);
            &&& target matches Some(m)
            &&& m < grown.nodes.len()
            &&& grown.child(m as int, k).target == given.target
            &&& exactly_zero(first) ==> factor == unit() && grown.child(m as int, k).weight
                == given.weight
            &&& !exactly_zero(first) ==> factor == first && (grown.child(m as int, k).weight
                == quotient || same_weight(grown.child(m as int, k).weight, quotient))
        }),
{
    let first = store.edges[children[0] as int].weight;
    lemma_intern_node_target(store, variable, children);
    if !exactly_zero(first) {
        lemma_intern_divided_grows(store, children, first, BLOCKS as nat);
        lemma_intern_divided_child(store, children, first, BLOCKS as nat, k);
    }
}

/// The entries below a node are the entries below its four children, in the
/// order of the children, each reached with the value so far times the
/// weight of the child.
pub proof fn lemma_paths_of_node(store: Store, n: usize, value: Complex64)
    requires
        store.wf(),
        n < store.nodes.len(),
    ensures
        store.paths(Some(n), value) == store.paths(
            store.child(n as int, 0).target,
            complex_product(value, store.child(n as int, 0).weight),
        ) + store.paths(
            store.child(n as int, 1).target,
            complex_product(value, store.child(n as int, 1).weight),
        ) + store.paths(
            store.child(n as int, 2).target,
            complex_product(value, store.child(n as int, 2).weight),
        ) + store.paths(
            store.child(n as int, 3).target,
            complex_product(value, store.child(n as int, 3).weight),
        ),
{
    assert(store.paths_through(n as int, value, 0) == Seq::<Complex64>::empty());
    assert(store.paths_through(n as int, value, 1) == store.paths_through(n as int, value, 0)
        + store.paths(
        store.child(n as int, 0).target,
        complex_product(value, store.child(n as int, 0).weight),
    ));
    assert(store.paths_through(n as int, value, 2) == store.paths_through(n as int, value, 1)
        + store.paths(
        store.child(n as int, 1).target,
        complex_product(value, store.child(n as int, 1).weight),
    ));
    assert(store.paths_through(n as int, value, 3) == store.paths_through(n as int, value, 2)
        + store.paths(
        store.child(n as int, 2).target,
        complex_product(value, store.child(n as int, 2).weight),
    ));
    assert(store.paths_through(n as int, value, 4) == store.paths_through(n as int, value, 3)
        + store.paths(
        store.child(n as int, 3).target,
        complex_product(value, store.child(n as int, 3).weight),
    ));
    assert(Seq::<Complex64>::empty() + store.paths(
        store.child(n as int, 0).target,
        complex_product(value, store.child(n as int, 0).weight),
    ) =~= store.paths(
        store.child(n as int, 0).target,
        complex_product(value, store.child(n as int, 0).weight),
    ));
}

} // verus!
