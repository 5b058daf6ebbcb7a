//! The canonical store: an arena of nodes and edges in which equal content
//! shares one identity.
//!
//! Nodes and edges are only ever appended, so an identifier, once handed out,
//! keeps its meaning for as long as the store lives.

use vstd::prelude::*;
use num::complex::Complex64;
use crate::weight::{
    complex_quotient, exactly_zero, is_exactly_zero, one, same_weight, unit, weight_quotient,
    weights_match,
};

verus! {

/// The branching radix: a node splits a matrix into `R` by `R` blocks.
pub const R: usize = 2;

/// The number of children of a node.
pub const BLOCKS: usize = R * R;

/// A decision point with one child edge per block, in row-major order.
#[derive(Debug, Clone, Copy)]
pub struct Node {
    pub id: usize,
    pub variable: usize,
    pub edges: [usize; 4],
}

/// A weighted reference to a node, or, without a target, a scalar leaf.
#[derive(Debug, Clone, Copy)]
pub struct Edge {
    pub id: usize,
    pub target: Option<usize>,
    pub weight: Complex64,
}

/// The contents of a store as mathematical sequences. The identifier of a
/// node or an edge is its position.
pub struct Store {
    pub nodes: Seq<Node>,
    pub edges: Seq<Edge>,
}

/// How far a target is from the leaves at most: zero for a leaf, and one more
/// than the node's identifier otherwise.
pub open spec fn rank(target: Option<usize>) -> nat {
    match target {
        Some(n) => n as nat + 1,
        None => 0,
    }
}

/// Whether the stored edge `e` stands for the pair `(target, weight)`.
pub open spec fn edge_matches(e: Edge, target: Option<usize>, weight: Complex64) -> bool {
    e.target == target && same_weight(e.weight, weight)
}

/// Whether the stored node `n` stands for the pair `(variable, children)`.
pub open spec fn node_matches(n: Node, variable: usize, children: [usize; 4]) -> bool {
    n.variable == variable && n.edges == children
}

/// Whether all children are one and the same edge.
pub open spec fn all_same(children: [usize; 4]) -> bool {
    forall|k: int| 0 <= k < BLOCKS ==> #[trigger] children[k] == children[0]
}

/// The first position at or after `from` whose edge stands for
/// `(target, weight)`, or the length of `edges` when there is none.
pub open spec fn first_edge(edges: Seq<Edge>, target: Option<usize>, weight: Complex64, from: nat) -> nat
    decreases edges.len() - from,
{
    if from >= edges.len() {
        edges.len()
    } else if edge_matches(edges[from as int], target, weight) {
        from
    } else {
        first_edge(edges, target, weight, from + 1)
    }
}

/// The first position at or after `from` whose node stands for
/// `(variable, children)`, or the length of `nodes` when there is none.
pub open spec fn first_node(nodes: Seq<Node>, variable: usize, children: [usize; 4], from: nat) -> nat
    decreases nodes.len() - from,
{
    if from >= nodes.len() {
        nodes.len()
    } else if node_matches(nodes[from as int], variable, children) {
        from
    } else {
        first_node(nodes, variable, children, from + 1)
    }
}

/// The array that holds the first four entries of `ids`.
pub open spec fn children_of(ids: Seq<usize>) -> [usize; 4] {
    [ids[0], ids[1], ids[2], ids[3]]
}

impl Store {
    /// The store without nodes or edges.
    pub open spec fn empty() -> Store {
        Store { nodes: Seq::empty(), edges: Seq::empty() }
    }

    /// Whether `target` is a leaf or names a node of this store.
    pub open spec fn valid_target(self, target: Option<usize>) -> bool {
        target matches Some(n) ==> n < self.nodes.len()
    }

    /// Whether every entry of `children` names an edge of this store.
    pub open spec fn valid_children(self, children: [usize; 4]) -> bool {
        forall|k: int| 0 <= k < BLOCKS ==> #[trigger] children[k] < self.edges.len()
    }

    /// The identifier of child `k` of node `n`.
    pub open spec fn child_id(self, n: int, k: int) -> usize {
        self.nodes[n].edges[k]
    }

    /// Child `k` of node `n`.
    pub open spec fn child(self, n: int, k: int) -> Edge {
        self.edges[self.child_id(n, k) as int]
    }

    /// Every edge carries its position as identifier and points into the store.
    pub open spec fn edges_wf(self) -> bool {
        forall|e: int|
            0 <= e < self.edges.len() ==> {
                &&& (#[trigger] self.edges[e]).id == e
                &&& self.valid_target(self.edges[e].target)
            }
    }

    /// Every node carries its position as identifier, and each of its children
    /// is an edge of the store that leads to a leaf or to an earlier node.
    pub open spec fn nodes_wf(self) -> bool {
        &&& forall|n: int| 0 <= n < self.nodes.len() ==> (#[trigger] self.nodes[n]).id == n
        &&& forall|n: int, k: int|
            0 <= n < self.nodes.len() && 0 <= k < BLOCKS ==> {
                &&& (#[trigger] self.child_id(n, k)) < self.edges.len()
                &&& rank(self.child(n, k).target) <= n
            }
    }

    /// No edge stands for the content of a later edge.
    pub open spec fn edges_distinct(self) -> bool {
        forall|i: int, j: int|
            0 <= i < j < self.edges.len() ==> !edge_matches(
                #[trigger] self.edges[i],
                (#[trigger] self.edges[j]).target,
                self.edges[j].weight,
            )
    }

    /// No two nodes have the same variable and the same children.
    pub open spec fn nodes_distinct(self) -> bool {
        forall|m: int, n: int|
            0 <= m < n < self.nodes.len() ==> !node_matches(
                #[trigger] self.nodes[m],
                (#[trigger] self.nodes[n]).variable,
                self.nodes[n].edges,
            )
    }

    /// No node has four times the same child.
    pub open spec fn nodes_reduced(self) -> bool {
        forall|n: int| 0 <= n < self.nodes.len() ==> !all_same((#[trigger] self.nodes[n]).edges)
    }

    /// The store is well formed: identifiers are machine integers, references
    /// resolve, every path ends in a leaf, and the content is canonical.
    pub open spec fn wf(self) -> bool {
        &&& self.nodes.len() <= usize::MAX
        &&& self.edges.len() <= usize::MAX
        &&& self.edges_wf()
        &&& self.nodes_wf()
        &&& self.edges_distinct()
        &&& self.nodes_distinct()
        &&& self.nodes_reduced()
    }

    /// Whether `later` holds everything this store holds, under the same
    /// identifiers.
    pub open spec fn within(self, later: Store) -> bool {
        &&& self.nodes.len() <= later.nodes.len()
        &&& self.edges.len() <= later.edges.len()
        &&& forall|n: int| 0 <= n < self.nodes.len() ==> #[trigger] later.nodes[n] == self.nodes[n]
        &&& forall|e: int| 0 <= e < self.edges.len() ==> #[trigger] later.edges[e] == self.edges[e]
    }

    /// Whether the variable of each of the first `count` nodes is at most
    /// `bound`.
    pub open spec fn bounded(self, count: int, bound: int) -> bool {
        forall|n: int|
            0 <= n < count && n < self.nodes.len() ==> (#[trigger] self.nodes[n]).variable <= bound
    }

    /// The largest variable among the nodes that `target` leads to, and zero
    /// for a leaf.
    pub open spec fn reach(self, target: Option<usize>) -> nat
        decreases rank(target), 0nat,
    {
        match target {
            None => 0,
            Some(n) => if self.wf() && n < self.nodes.len() {
                let below = self.reach_through(n as int, BLOCKS as nat);
                if self.nodes[n as int].variable > below {
                    self.nodes[n as int].variable as nat
                } else {
                    below
                }
            } else {
                0
            },
        }
    }

    /// The largest variable among the nodes that the first `count` children
    /// of node `n` lead to.
    pub open spec fn reach_through(self, n: int, count: nat) -> nat
        decreases n, count,
    {
        if self.wf() && 0 <= n < self.nodes.len() && 0 < count <= BLOCKS {
            let before = self.reach_through(n, (count - 1) as nat);
            let here = self.reach(self.child(n, count - 1).target);
            if here > before {
                here
            } else {
                before
            }
        } else {
            0
        }
    }

    /// The store with one more edge.
    pub open spec fn with_edge(self, target: Option<usize>, weight: Complex64) -> Store {
        Store {
            nodes: self.nodes,
            edges: self.edges.push(Edge { id: self.edges.len() as usize, target, weight }),
        }
    }

    /// The store with one more node.
    pub open spec fn with_node(self, variable: usize, children: [usize; 4]) -> Store {
        Store {
            nodes: self.nodes.push(Node { id: self.nodes.len() as usize, variable, edges: children }),
            edges: self.edges,
        }
    }

    /// Interning an edge: the first edge that stands for `(target, weight)`
    /// if there is one, and a new edge at the end otherwise.
    pub open spec fn intern_edge(self, target: Option<usize>, weight: Complex64) -> (Store, usize) {
        let found = first_edge(self.edges, target, weight, 0);
        if found < self.edges.len() {
            (self, found as usize)
        } else {
            (self.with_edge(target, weight), found as usize)
        }
    }

    /// Interns the first `count` of `children`, each with its weight divided
    /// by `divisor`, in order.
    pub open spec fn intern_divided(self, children: [usize; 4], divisor: Complex64, count: nat) -> (
        Store,
        Seq<usize>,
    )
        decreases count,
    {
        if count == 0 {
            (self, Seq::empty())
        } else {
            let (store, ids) = self.intern_divided(children, divisor, (count - 1) as nat);
            let edge = self.edges[children[count - 1] as int];
            let (store, id) = store.intern_edge(edge.target, complex_quotient(edge.weight, divisor));
            (store, ids.push(id))
        }
    }

    /// Normalising the children of a node about to be made: every child's
    /// weight is divided by the weight of the first child, and the results are
    /// interned. Where the first child's weight is exactly zero the children
    /// stay as they are.
    pub open spec fn normalize(self, children: [usize; 4]) -> (Store, [usize; 4]) {
        let divisor = self.edges[children[0] as int].weight;
        if exactly_zero(divisor) {
            (self, children)
        } else {
            let (store, ids) = self.intern_divided(children, divisor, BLOCKS as nat);
            (store, children_of(ids))
        }
    }

    /// The weight of child `k` after dividing by the weight of the first
    /// child, and as it is where that weight is exactly zero.
    pub open spec fn divided(self, children: [usize; 4], k: int) -> Complex64 {
        let first = self.edges[children[0] as int].weight;
        let weight = self.edges[children[k] as int].weight;
        if exactly_zero(first) {
            weight
        } else {
            complex_quotient(weight, first)
        }
    }

    /// Whether child `k` is like the first child: it has the same target,
    /// and after dividing its weight is the same within the tolerance.
    pub open spec fn alike(self, children: [usize; 4], k: int) -> bool {
        &&& self.edges[children[k] as int].target == self.edges[children[0] as int].target
        &&& same_weight(self.divided(children, 0), self.divided(children, k))
    }

    /// Whether all four children are like the first.
    pub open spec fn uniform(self, children: [usize; 4]) -> bool {
        forall|k: int| 0 <= k < BLOCKS ==> #[trigger] self.alike(children, k)
    }

    /// Whether the children collapse into one: they are all like the first,
    /// or normalising leaves four times the same edge.
    pub open spec fn collapses(self, children: [usize; 4]) -> bool {
        self.uniform(children) || all_same(self.normalize(children).1)
    }

    /// Interning a node. Where the four children are alike, no node is made,
    /// the store stays as it is, and the first child's target stands in the
    /// node's place. Otherwise the children are normalised; if they are then
    /// all the same edge, no node is made either and that edge's target
    /// stands in its place; otherwise the result is the first node with this
    /// variable and these children if there is one, and a new node at the
    /// end otherwise.
    pub open spec fn intern_node(self, variable: usize, children: [usize; 4]) -> (
        Store,
        Option<usize>,
    ) {
        if self.uniform(children) {
            (self, self.edges[children[0] as int].target)
        } else {
            let (store, normal) = self.normalize(children);
            if all_same(normal) {
                (store, store.edges[normal[0] as int].target)
            } else {
                let found = first_node(store.nodes, variable, normal, 0);
                if found < store.nodes.len() {
                    (store, Some(found as usize))
                } else {
                    (store.with_node(variable, normal), Some(found as usize))
                }
            }
        }
    }

    /// The factor that interning a node takes out of it: the weight under
    /// which what `intern_node` hands back stands for the node asked for.
    ///
    /// Normalising divides the children by the first child's weight, so the
    /// node that is made has to be scaled by that weight. Where the first
    /// weight is exactly zero nothing is divided and the factor is one. Where
    /// the children collapse into one, what is handed back is the first
    /// child's target, and the factor is the first child's whole weight, zero
    /// included: the edge that stands in the node's place is the first child.
    pub open spec fn node_factor(self, children: [usize; 4]) -> Complex64 {
        let first = self.edges[children[0] as int].weight;
        if exactly_zero(first) && !self.collapses(children) {
            unit()
        } else {
            first
        }
    }
}

/// A diagram: a canonical store and the edge at which reading starts.
#[derive(Clone, Debug)]
pub struct QMDD {
    root: usize,
    nodes: Vec<Node>,
    edges: Vec<Edge>,
}

/// Whether two targets are the same.
fn same_target(a: Option<usize>, b: Option<usize>) -> (same: bool)
    ensures
        same == (a == b),
{
    match (a, b) {
        (Some(m), Some(n)) => m == n,
        (None, None) => true,
        _ => false,
    }
}

/// Whether two arrays of children hold the same edges.
fn same_children(a: &[usize; 4], b: &[usize; 4]) -> (same: bool)
    ensures
        same == (*a == *b),
{
    let mut k: usize = 0;
    while k < BLOCKS
        invariant
            k <= BLOCKS,
            forall|j: int| 0 <= j < k ==> a[j] == b[j],
        decreases BLOCKS - k,
    {
        if a[k] != b[k] {
            return false;
        }
        k += 1;
    }
    assert(*a =~= *b);
    true
}

/// Whether all children are one and the same edge.
fn is_uniform(children: &[usize; 4]) -> (uniform: bool)
    ensures
        uniform == all_same(*children),
{
    let mut k: usize = 1;
    while k < BLOCKS
        invariant
            1 <= k <= BLOCKS,
            forall|j: int| 0 <= j < k ==> #[trigger] children[j] == children[0],
        decreases BLOCKS - k,
    {
        if children[k] != children[0] {
            return false;
        }
        k += 1;
    }
    true
}

impl QMDD {
    /// Whether all four children are like the first: of the same target, and
    /// after dividing by the first weight of the same weight within the
    /// tolerance.
    fn children_alike(&self, edges: &[usize; 4]) -> (alike: bool)
        requires
            self.store().valid_children(*edges),
        ensures
            alike == self.store().uniform(*edges),
    {
        let first = self.edges[edges[0]];
        let skip = is_exactly_zero(first.weight);
        let base = if skip {
            first.weight
        } else {
            weight_quotient(first.weight, first.weight)
        };
        let mut k: usize = 0;
        while k < BLOCKS
            invariant
                k <= BLOCKS,
                self.store().valid_children(*edges),
                first == self.store().edges[edges[0] as int],
                skip == exactly_zero(first.weight),
                base == self.store().divided(*edges, 0),
                forall|j: int| 0 <= j < k ==> #[trigger] self.store().alike(*edges, j),
            decreases BLOCKS - k,
        {
            let edge = self.edges[edges[k]];
            let weight = if skip {
                edge.weight
            } else {
                weight_quotient(edge.weight, first.weight)
            };
            if !(same_target(edge.target, first.target) && weights_match(base, weight)) {
                assert(!self.store().alike(*edges, k as int));
                return false;
            }
            k += 1;
        }
        true
    }

    /// The contents of the store.
    pub closed spec fn store(&self) -> Store {
        Store { nodes: self.nodes@, edges: self.edges@ }
    }

    /// The identifier of the root edge.
    pub closed spec fn root(&self) -> usize {
        self.root
    }

    /// The store is well formed.
    pub open spec fn wf(&self) -> bool {
        self.store().wf()
    }

    /// The root names an edge of the store.
    pub open spec fn has_root(&self) -> bool {
        self.root() < self.store().edges.len()
    }

    /// The root edge.
    pub open spec fn root_edge(&self) -> Edge {
        self.store().edges[self.root() as int]
    }

    /// An empty store. Its root names no edge yet.
    pub fn new() -> (diagram: Self)
        ensures
            diagram.wf(),
            diagram.store() == Store::empty(),
            diagram.root() == 0,
    {
        QMDD { root: 0, nodes: Vec::new(), edges: Vec::new() }
    }

    /// The number of edges in the store.
    pub fn edge_count(&self) -> (count: usize)
        ensures
            count == self.store().edges.len(),
    {
        self.edges.len()
    }

    /// The number of nodes in the store.
    pub fn node_count(&self) -> (count: usize)
        ensures
            count == self.store().nodes.len(),
    {
        self.nodes.len()
    }

    /// Whether the root names an edge of the store.
    pub fn is_rooted(&self) -> (rooted: bool)
        ensures
            rooted == self.has_root(),
    {
        self.root < self.edges.len()
    }

    /// Makes `edge` the root.
    pub fn set_root(&mut self, edge: usize)
        requires
            edge < old(self).store().edges.len(),
        ensures
            final(self).store() == old(self).store(),
            final(self).root() == edge,
    {
        self.root = edge;
    }

    /// The root edge.
    pub fn get_root(&self) -> (edge: &Edge)
        requires
            self.has_root(),
        ensures
            *edge == self.root_edge(),
    {
        &self.edges[self.root]
    }

    /// The edge with identifier `id`.
    pub fn get_edge(&self, id: usize) -> (edge: &Edge)
        requires
            id < self.store().edges.len(),
        ensures
            *edge == self.store().edges[id as int],
    {
        &self.edges[id]
    }

    /// The node with identifier `id`.
    pub fn get_node(&self, id: usize) -> (node: &Node)
        requires
            id < self.store().nodes.len(),
        ensures
            *node == self.store().nodes[id as int],
    {
        &self.nodes[id]
    }

    /// The largest variable among the nodes that the root edge leads to.
    pub open spec fn top(&self) -> nat {
        self.store().reach(self.root_edge().target)
    }

    /// The largest variable among the nodes that the root edge leads to, and
    /// zero where the root edge is a leaf.
    pub fn top_variable(&self) -> (top: usize)
        requires
            self.wf(),
            self.has_root(),
        ensures
            top == self.top(),
    {
        match self.edges[self.root].target {
            None => 0,
            Some(n) => {
                let mut tops: Vec<usize> = Vec::new();
                let mut at: usize = 0;
                while at <= n
                    invariant
                        at <= n + 1,
                        n < self.nodes@.len(),
                        self.wf(),
                        tops@.len() == at,
                        forall|m: int|
                            0 <= m < at ==> (#[trigger] tops@[m]) == self.store().reach(
                                Some(m as usize),
                            ),
                    decreases n + 1 - at,
                {
                    let node = &self.nodes[at];
                    let mut top = node.variable;
                    let mut k: usize = 0;
                    while k < BLOCKS
                        invariant
                            k <= BLOCKS,
                            at <= n < self.nodes@.len(),
                            self.wf(),
                            *node == self.nodes@[at as int],
                            tops@.len() == at,
                            forall|m: int|
                                0 <= m < at ==> (#[trigger] tops@[m]) == self.store().reach(
                                    Some(m as usize),
                                ),
                            top == if node.variable > self.store().reach_through(
                                at as int,
                                k as nat,
                            ) {
                                node.variable as nat
                            } else {
                                self.store().reach_through(at as int, k as nat)
                            },
                        decreases BLOCKS - k,
                    {
                        assert(self.store().child_id(at as int, k as int) == node.edges[k as int]);
                        let target = self.edges[node.edges[k]].target;
                        assert(target == self.store().child(at as int, k as int).target);
                        assert(rank(target) <= at);
                        let ghost before = self.store().reach_through(at as int, k as nat);
                        let ghost here = self.store().reach(target);
                        assert(self.store().reach_through(at as int, (k + 1) as nat) == if here
                            > before {
                            here
                        } else {
                            before
                        });
                        if let Some(below) = target {
                            assert(tops@[below as int] == here);
                            if tops[below] > top {
                                top = tops[below];
                            }
                        }
                        k += 1;
                    }
                    tops.push(top);
                    at += 1;
                }
                tops[n]
            },
        }
    }

    /// Returns the identifier of the first edge that stands for
    /// `(target, weight)`: one with this target whose weight is the same
    /// within the tolerance. Where the store has none, the edge is appended
    /// and its new identifier returned.
    pub fn create_edge(&mut self, target: Option<usize>, weight: Complex64) -> (id: usize)
        requires
            old(self).wf(),
            old(self).store().valid_target(target),
        ensures
            final(self).wf(),
            final(self).root() == old(self).root(),
            (final(self).store(), id) == old(self).store().intern_edge(target, weight),
            old(self).store().within(final(self).store()),
            final(self).store().nodes == old(self).store().nodes,
            id < final(self).store().edges.len(),
            final(self).store().edges[id as int].target == target,
    {
        let count = self.edges.len();
        let mut at: usize = 0;
        while at < count
            invariant
                at <= count,
                count == self.edges@.len(),
                self.edges@ == old(self).edges@,
                self.nodes@ == old(self).nodes@,
                self.root == old(self).root,
                old(self).wf(),
                first_edge(self.edges@, target, weight, 0) == first_edge(
                    self.edges@,
                    target,
                    weight,
                    at as nat,
                ),
                forall|j: int| 0 <= j < at ==> !edge_matches(#[trigger] self.edges@[j], target, weight),
            decreases count - at,
        {
            let edge = &self.edges[at];
            if same_target(edge.target, target) && weights_match(edge.weight, weight) {
                return at;
            }
            at += 1;
        }
        self.edges.push(Edge { id: count, target, weight });
        assert(self.edges.len() == count + 1);
        proof {
            lemma_with_edge_wf(old(self).store(), target, weight);
        }
        count
    }

    /// Returns what stands for the node `(variable, edges)` in the canonical
    /// store. The weights of the four children are first divided by the weight
    /// of the first child, unless that weight is exactly zero. If the
    /// children then all have one target and weights that are the same as the
    /// first within the tolerance, no node is made, the store stays as it is,
    /// and the first child's target is returned. Otherwise the divided
    /// children are interned. If they are then four times the same edge, no
    /// node is made either and that edge's target is returned. Otherwise the result
    /// is the first node with this variable and these children, appended
    /// where the store has none. The factor that dividing took out is not
    /// returned; `create_node_with_factor` returns it as well.
    pub fn create_node(&mut self, variable: usize, edges: [usize; 4]) -> (target: Option<usize>)
        requires
            old(self).wf(),
            old(self).store().valid_children(edges),
        ensures
            final(self).wf(),
            final(self).root() == old(self).root(),
            (final(self).store(), target) == old(self).store().intern_node(variable, edges),
            old(self).store().within(final(self).store()),
            final(self).store().valid_target(target),
            forall|n: int|
                old(self).store().nodes.len() <= n < final(self).store().nodes.len() ==> (
                #[trigger] final(self).store().nodes[n]).variable == variable,
            target == old(self).store().edges[edges[0] as int].target || (target matches Some(n)
                && final(self).store().nodes[n as int].variable == variable),
    {
        if self.children_alike(&edges) {
            return self.edges[edges[0]].target;
        }
        let ghost before = self.store();
        let divisor = self.edges[edges[0]].weight;
        let mut normal = edges;
        if !is_exactly_zero(divisor) {
            let mut k: usize = 0;
            let ghost mut ids: Seq<usize> = Seq::empty();
            while k < BLOCKS
                invariant
                    k <= BLOCKS,
                    before.wf(),
                    before.valid_children(edges),
                    self.wf(),
                    self.root == old(self).root,
                    before.within(self.store()),
                    self.nodes@ == before.nodes,
                    (self.store(), ids) == before.intern_divided(edges, divisor, k as nat),
                    ids.len() == k,
                    forall|j: int| 0 <= j < k ==> #[trigger] normal[j] == ids[j],
                    forall|j: int| 0 <= j < k ==> (#[trigger] ids[j]) < self.edges@.len(),
                    k > 0 ==> self.edges@[ids[0] as int].target == before.edges[edges[0] as int].target,
                decreases BLOCKS - k,
            {
                let edge = self.edges[edges[k]];
                let id = self.create_edge(edge.target, weight_quotient(edge.weight, divisor));
                normal[k] = id;
                proof {
                    ids = ids.push(id);
                }
                k += 1;
            }
        }
        assert((self.store(), normal) == before.normalize(edges));
        if is_uniform(&normal) {
            return self.edges[normal[0]].target;
        }
        let count = self.nodes.len();
        let mut at: usize = 0;
        while at < count
            invariant
                at <= count,
                count == self.nodes@.len(),
                self.wf(),
                self.root == old(self).root,
                before == old(self).store(),
                before.within(self.store()),
                self.nodes@ == before.nodes,
                !before.uniform(edges),
                (self.store(), normal) == before.normalize(edges),
                self.store().valid_children(normal),
                !all_same(normal),
                first_node(self.nodes@, variable, normal, 0) == first_node(
                    self.nodes@,
                    variable,
                    normal,
                    at as nat,
                ),
                forall|j: int| 0 <= j < at ==> !node_matches(#[trigger] self.nodes@[j], variable, normal),
            decreases count - at,
        {
            let node = &self.nodes[at];
            if node.variable == variable && same_children(&node.edges, &normal) {
                return Some(at);
            }
            at += 1;
        }
        let ghost reduced = self.store();
        self.nodes.push(Node { id: count, variable, edges: normal });
        assert(self.nodes.len() == count + 1);
        proof {
            lemma_with_node_wf(reduced, variable, normal);
        }
        Some(count)
    }

    /// Does what `create_node` does, and returns beside the target the
    /// factor that normalising took out: the weight that an edge to the
    /// target must carry for it to stand for the node with the children as
    /// they were given.
    pub fn create_node_with_factor(&mut self, variable: usize, edges: [usize; 4]) -> (made: (
        Option<usize>,
        Complex64,
    ))
        requires
            old(self).wf(),
            old(self).store().valid_children(edges),
        ensures
            final(self).wf(),
            final(self).root() == old(self).root(),
            (final(self).store(), made.0) == old(self).store().intern_node(variable, edges),
            made.1 == old(self).store().node_factor(edges),
            old(self).store().within(final(self).store()),
            final(self).store().valid_target(made.0),
            forall|n: int|
                old(self).store().nodes.len() <= n < final(self).store().nodes.len() ==> (
                #[trigger] final(self).store().nodes[n]).variable == variable,
            made.0 == old(self).store().edges[edges[0] as int].target || (made.0 matches Some(n)
                && final(self).store().nodes[n as int].variable == variable),
    {
        let first = self.edges[edges[0]].weight;
        let factor = if is_exactly_zero(first) && !self.children_alike(&edges) && !is_uniform(
            &edges,
        ) {
            one()
        } else {
            first
        };
        let target = self.create_node(variable, edges);
        (target, factor)
    }
}

/// Appending a node that no stored node stands for, whose children are edges
/// of the store and not all the same, keeps a store well formed.
pub proof fn lemma_with_node_wf(store: Store, variable: usize, children: [usize; 4])
    requires
        store.wf(),
        store.valid_children(children),
        !all_same(children),
        store.nodes.len() < usize::MAX,
        forall|j: int|
            0 <= j < store.nodes.len() ==> !node_matches(#[trigger] store.nodes[j], variable, children),
    ensures
        store.with_node(variable, children).wf(),
        store.within(store.with_node(variable, children)),
{
    let next = store.with_node(variable, children);
    let last = store.nodes.len() as int;
    assert forall|n: int, k: int| 0 <= n < next.nodes.len() && 0 <= k < BLOCKS implies {
        &&& (#[trigger] next.child_id(n, k)) < next.edges.len()
        &&& rank(next.child(n, k).target) <= n
    } by {
        if n < last {
            assert(next.child_id(n, k) == store.child_id(n, k));
        } else {
            assert(next.child_id(n, k) == children[k]);
            assert(store.valid_target(store.edges[children[k] as int].target));
        }
    }
}

/// Whatever the first `count` children of a node lead to, the node leads to.
pub proof fn lemma_reach_through(store: Store, n: int, k: int, count: nat)
    requires
        store.wf(),
        0 <= n < store.nodes.len(),
        0 <= k < count <= BLOCKS,
    ensures
        store.reach(store.child(n, k).target) <= store.reach_through(n, count),
    decreases count,
{
    if k < count - 1 {
        lemma_reach_through(store, n, k, (count - 1) as nat);
    }
}

/// A node leads to itself and to whatever its children lead to.
pub proof fn lemma_reach_child(store: Store, n: int, k: int)
    requires
        store.wf(),
        0 <= n < store.nodes.len(),
        0 <= k < BLOCKS,
    ensures
        store.nodes[n].variable <= store.reach(Some(n as usize)),
        store.reach(store.child(n, k).target) <= store.reach(Some(n as usize)),
{
    lemma_reach_through(store, n, k, BLOCKS as nat);
}

/// A grown store holds the children of every earlier node unchanged, and each
/// of them leads to a leaf or to a node before its parent.
pub proof fn lemma_within_child(store: Store, later: Store, n: int, k: int)
    requires
        store.wf(),
        store.within(later),
        0 <= n < store.nodes.len(),
        0 <= k < BLOCKS,
    ensures
        later.nodes[n] == store.nodes[n],
        later.child_id(n, k) == store.child_id(n, k),
        later.child(n, k) == store.child(n, k),
        store.child_id(n, k) < store.edges.len(),
        store.valid_target(store.child(n, k).target),
        later.valid_target(store.child(n, k).target),
        rank(store.child(n, k).target) <= n,
{
}

/// Appending an edge that no stored edge stands for keeps a store well formed.
pub proof fn lemma_with_edge_wf(store: Store, target: Option<usize>, weight: Complex64)
    requires
        store.wf(),
        store.valid_target(target),
        store.edges.len() < usize::MAX,
        forall|j: int| 0 <= j < store.edges.len() ==> !edge_matches(#[trigger] store.edges[j], target, weight),
    ensures
        store.with_edge(target, weight).wf(),
        store.within(store.with_edge(target, weight)),
{
    let next = store.with_edge(target, weight);
    assert forall|n: int, k: int| 0 <= n < next.nodes.len() && 0 <= k < BLOCKS implies {
        &&& (#[trigger] next.child_id(n, k)) < next.edges.len()
        &&& rank(next.child(n, k).target) <= n
    } by {
        assert(next.child_id(n, k) == store.child_id(n, k));
        assert(next.child(n, k) == store.child(n, k));
    }
}

} // verus!
