//! The structural algebra: elementwise sum, matrix product and Kronecker
//! product of diagrams.
//!
//! Every operation builds its result in a fresh store. The operands are
//! first copied into that store; from then on the operation reads and
//! appends in that one store only, so that nothing the result refers to
//! belongs to an operand.
//!
//! A node is normalised when it is made. The factor that normalising takes
//! out of it goes into the weight of the edge above it, so that the result
//! keeps its scale.

use vstd::prelude::*;
use num::complex::Complex64;
use crate::store::{
    children_of, lemma_reach_child, lemma_within_child, rank, Edge, Store, BLOCKS, QMDD, R,
};
use crate::weight::{
    complex_product, complex_sum, is_negligible, negligible, one, same_weight, unit,
    weight_product, weight_sum, weights_match,
};

verus! {

impl Store {
    /// Copying the edge `(target, weight)` of the store `from` into this
    /// store: the node below it is rebuilt child by child and interned, and
    /// the edge to it is interned with the given weight times the factor
    /// which normalising took out of the node.
    pub open spec fn import(self, from: Store, target: Option<usize>, weight: Complex64) -> (
        Store,
        usize,
    )
        decreases rank(target), 0nat,
    {
        match target {
            None => self.intern_edge(None, weight),
            Some(n) => if from.wf() && n < from.nodes.len() {
                let (store, ids) = self.import_children(from, n as int, BLOCKS as nat);
                let copies = children_of(ids);
                let (grown, copy) = store.intern_node(from.nodes[n as int].variable, copies);
                grown.intern_edge(copy, complex_product(weight, store.node_factor(copies)))
            } else {
                (self, 0)
            },
        }
    }

    /// Copying the first `count` children of node `n` of the store `from`.
    pub open spec fn import_children(self, from: Store, n: int, count: nat) -> (Store, Seq<usize>)
        decreases n, count,
    {
        if from.wf() && 0 <= n < from.nodes.len() && 0 < count <= BLOCKS {
            let (store, ids) = self.import_children(from, n, (count - 1) as nat);
            let child = from.child(n, count - 1);
            let (store, id) = store.import(from, child.target, child.weight);
            (store, ids.push(id))
        } else {
            (self, Seq::empty())
        }
    }

    /// Block `k` of the matrix that the edge `(target, weight)` stands for:
    /// child `k` of the target with its weight scaled by `weight`. A leaf
    /// stands for a matrix whose entries are all the same, so each of its
    /// blocks is the leaf itself.
    pub open spec fn block(self, target: Option<usize>, weight: Complex64, k: int) -> (
        Option<usize>,
        Complex64,
    ) {
        match target {
            None => (None, weight),
            Some(n) => (
                self.child(n as int, k).target,
                complex_product(weight, self.child(n as int, k).weight),
            ),
        }
    }

    /// The variable of the node below `target`, and zero for a leaf.
    pub open spec fn variable_of(self, target: Option<usize>) -> usize {
        match target {
            None => 0,
            Some(n) => self.nodes[n as int].variable,
        }
    }

    /// The elementwise sum of the edges `(t0, w0)` and `(t1, w1)` of this
    /// store.
    ///
    /// A leaf whose weight is negligible leaves the other operand as it is.
    /// Two leaves give the leaf with the sum of their weights. In every
    /// other case the sum is taken block by block, and the four results are
    /// made into a node, with the variable of the first operand that has
    /// one, under an edge that carries the factor which normalising took out
    /// of the node.
    pub open spec fn sum(
        self,
        t0: Option<usize>,
        w0: Complex64,
        t1: Option<usize>,
        w1: Complex64,
    ) -> (Store, usize)
        decreases rank(t0) + rank(t1), BLOCKS + 1,
    {
        if t0 is None && negligible(w0) {
            self.intern_edge(t1, w1)
        } else if t1 is None && negligible(w1) {
            self.intern_edge(t0, w0)
        } else if t0 is None && t1 is None {
            self.intern_edge(None, complex_sum(w0, w1))
        } else if self.wf() && self.valid_target(t0) && self.valid_target(t1) {
            let (store, ids) = self.sum_blocks(self, t0, w0, t1, w1, BLOCKS as nat);
            let variable = if t0 is Some {
                self.variable_of(t0)
            } else {
                self.variable_of(t1)
            };
            let sums = children_of(ids);
            let (grown, node) = store.intern_node(variable, sums);
            grown.intern_edge(node, store.node_factor(sums))
        } else {
            (self, 0)
        }
    }

    /// The sums of the first `count` blocks of two edges of the store `base`,
    /// of which at least one has a target, appended to this store.
    pub open spec fn sum_blocks(
        self,
        base: Store,
        t0: Option<usize>,
        w0: Complex64,
        t1: Option<usize>,
        w1: Complex64,
        count: nat,
    ) -> (Store, Seq<usize>)
        decreases rank(t0) + rank(t1), count,
    {
        if base.wf() && base.valid_target(t0) && base.valid_target(t1) && (t0 is Some || t1 is Some)
            && 0 < count <= BLOCKS {
            let (store, ids) = self.sum_blocks(base, t0, w0, t1, w1, (count - 1) as nat);
            let p = base.block(t0, w0, count - 1);
            let q = base.block(t1, w1, count - 1);
            let (store, id) = store.sum(p.0, p.1, q.0, q.1);
            (store, ids.push(id))
        } else {
            (self, Seq::empty())
        }
    }

    /// The matrix product of the edges `(t0, w0)` and `(t1, w1)` of this
    /// store.
    ///
    /// Where either operand is a leaf the product is scalar scaling: the
    /// other operand's target under the product of the two weights. Otherwise
    /// the block in row `i` and column `j` is the sum over `k` of the products
    /// of block `(i, k)` of the first and block `(k, j)` of the second, and the
    /// four blocks are made into a node, with the first operand's variable,
    /// under an edge that carries the factor which normalising took out of
    /// the node.
    pub open spec fn product(
        self,
        t0: Option<usize>,
        w0: Complex64,
        t1: Option<usize>,
        w1: Complex64,
    ) -> (Store, usize)
        decreases rank(t0) + rank(t1), 2nat, 0nat,
    {
        if t0 is None {
            self.intern_edge(t1, complex_product(w0, w1))
        } else if t1 is None {
            self.intern_edge(t0, complex_product(w0, w1))
        } else if self.wf() && self.valid_target(t0) && self.valid_target(t1) {
            let (store, ids) = self.product_blocks(self, t0, w0, t1, w1, BLOCKS as nat);
            let blocks = children_of(ids);
            let (grown, node) = store.intern_node(self.variable_of(t0), blocks);
            grown.intern_edge(node, store.node_factor(blocks))
        } else {
            (self, 0)
        }
    }

    /// The first `count` blocks, in row-major order, of the product of two
    /// edges of the store `base` that both have a target, appended to this
    /// store.
    pub open spec fn product_blocks(
        self,
        base: Store,
        t0: Option<usize>,
        w0: Complex64,
        t1: Option<usize>,
        w1: Complex64,
        count: nat,
    ) -> (Store, Seq<usize>)
        decreases rank(t0) + rank(t1), 1nat, count,
    {
        if base.wf() && base.valid_target(t0) && base.valid_target(t1) && t0 is Some && t1 is Some
            && 0 < count <= BLOCKS {
            let (store, ids) = self.product_blocks(base, t0, w0, t1, w1, (count - 1) as nat);
            let (store, id) = store.product_entry(
                base,
                t0,
                w0,
                t1,
                w1,
                (count - 1) / (R as int),
                (count - 1) % (R as int),
                R as nat,
            );
            (store, ids.push(id))
        } else {
            (self, Seq::empty())
        }
    }

    /// The sum of the first `terms` products that make up the block in row
    /// `i` and column `j` of the product of two edges of the store `base`,
    /// appended to this store. The products are added up from the left.
    pub open spec fn product_entry(
        self,
        base: Store,
        t0: Option<usize>,
        w0: Complex64,
        t1: Option<usize>,
        w1: Complex64,
        i: int,
        j: int,
        terms: nat,
    ) -> (Store, usize)
        decreases rank(t0) + rank(t1), 0nat, terms,
    {
        if base.wf() && base.valid_target(t0) && base.valid_target(t1) && t0 is Some && t1 is Some
            && 0 <= i < R && 0 <= j < R && 0 < terms <= R {
            let k = terms - 1;
            let p = base.block(t0, w0, i * R + k);
            let q = base.block(t1, w1, k * R + j);
            if terms == 1 {
                self.product(p.0, p.1, q.0, q.1)
            } else {
                let (store, so_far) = self.product_entry(base, t0, w0, t1, w1, i, j, (terms - 1) as nat);
                let (store, term) = store.product(p.0, p.1, q.0, q.1);
                let a = store.edges[so_far as int];
                let b = store.edges[term as int];
                store.sum(a.target, a.weight, b.target, b.weight)
            }
        } else {
            (self, 0)
        }
    }

    /// The Kronecker product of the edges `(t0, w0)` and `(t1, w1)` of this
    /// store.
    ///
    /// A leaf with negligible weight stays that leaf. A leaf whose weight is
    /// the same as one gives the second operand unchanged, and any other leaf
    /// gives the second operand's target under the product of the two
    /// weights. Below a node, every child of the first operand, as it is
    /// stored, is combined with the whole second operand, and the four
    /// results are made into a node whose variable is the sum of the two
    /// operands' variables. The edge to it carries the first operand's own
    /// weight times the factor which normalising took out of the node.
    pub open spec fn tensor(
        self,
        t0: Option<usize>,
        w0: Complex64,
        t1: Option<usize>,
        w1: Complex64,
    ) -> (Store, usize)
        decreases rank(t0), BLOCKS + 1,
    {
        match t0 {
            None => if negligible(w0) {
                self.intern_edge(None, w0)
            } else if same_weight(w0, unit()) {
                self.intern_edge(t1, w1)
            } else {
                self.intern_edge(t1, complex_product(w0, w1))
            },
            Some(n) => if self.wf() && n < self.nodes.len() {
                let (store, ids) = self.tensor_blocks(self, n as int, t1, w1, BLOCKS as nat);
                let variable = (self.variable_of(t0) + self.variable_of(t1)) as usize;
                let blocks = children_of(ids);
                let (grown, node) = store.intern_node(variable, blocks);
                grown.intern_edge(node, complex_product(w0, store.node_factor(blocks)))
            } else {
                (self, 0)
            },
        }
    }

    /// The Kronecker products of the first `count` children of node `n` of
    /// the store `base` with the edge `(t1, w1)`, appended to this store.
    pub open spec fn tensor_blocks(
        self,
        base: Store,
        n: int,
        t1: Option<usize>,
        w1: Complex64,
        count: nat,
    ) -> (Store, Seq<usize>)
        decreases n + 1, count,
    {
        if base.wf() && 0 <= n < base.nodes.len() && 0 < count <= BLOCKS {
            let (store, ids) = self.tensor_blocks(base, n, t1, w1, (count - 1) as nat);
            let child = base.child(n, count - 1);
            let (store, id) = store.tensor(child.target, child.weight, t1, w1);
            (store, ids.push(id))
        } else {
            (self, Seq::empty())
        }
    }

    /// Whether the variable of every node up to `target`, added to
    /// `variable`, is a machine integer.
    pub open spec fn variables_fit(self, target: Option<usize>, variable: usize) -> bool {
        forall|n: int|
            0 <= n < rank(target) && n < self.nodes.len() ==> (#[trigger] self.nodes[n]).variable
                + variable <= usize::MAX
    }
}

impl QMDD {
    /// Block `k` of the edge `(target, weight)`.
    fn block_of(&self, target: Option<usize>, weight: Complex64, k: usize) -> (block: (
        Option<usize>,
        Complex64,
    ))
        requires
            self.wf(),
            self.store().valid_target(target),
            k < BLOCKS,
        ensures
            block == self.store().block(target, weight, k as int),
    {
        match target {
            None => (None, weight),
            Some(n) => {
                proof {
                    lemma_within_child(self.store(), self.store(), n as int, k as int);
                }
                let child = self.get_edge(self.get_node(n).edges[k]);
                (child.target, weight_product(weight, child.weight))
            },
        }
    }

    /// The variable of the node below `target`, and zero for a leaf.
    fn variable_below(&self, target: Option<usize>) -> (variable: usize)
        requires
            self.store().valid_target(target),
        ensures
            variable == self.store().variable_of(target),
    {
        match target {
            None => 0,
            Some(n) => self.get_node(n).variable,
        }
    }

    /// Appends the elementwise sum of the edges `(t0, w0)` and `(t1, w1)` of
    /// this store and returns the identifier of the edge that stands for it.
    pub(crate) fn add_edges(
        &mut self,
        t0: Option<usize>,
        w0: Complex64,
        t1: Option<usize>,
        w1: Complex64,
    ) -> (id: usize)
        requires
            old(self).wf(),
            old(self).store().valid_target(t0),
            old(self).store().valid_target(t1),
        ensures
            final(self).wf(),
            final(self).root() == old(self).root(),
            (final(self).store(), id) == old(self).store().sum(t0, w0, t1, w1),
            old(self).store().within(final(self).store()),
            id < final(self).store().edges.len(),
        decreases rank(t0) + rank(t1),
    {
        if t0.is_none() && is_negligible(w0) {
            return self.create_edge(t1, w1);
        }
        if t1.is_none() && is_negligible(w1) {
            return self.create_edge(t0, w0);
        }
        if t0.is_none() && t1.is_none() {
            return self.create_edge(None, weight_sum(w0, w1));
        }
        let ghost base = self.store();
        let variable = if t0.is_some() {
            self.variable_below(t0)
        } else {
            self.variable_below(t1)
        };
        let mut sums: [usize; 4] = [0; 4];
        let ghost mut ids: Seq<usize> = Seq::empty();
        let mut k: usize = 0;
        while k < BLOCKS
            invariant
                k <= BLOCKS,
                self.wf(),
                self.root() == old(self).root(),
                base == old(self).store(),
                base.wf(),
                base.valid_target(t0),
                base.valid_target(t1),
                t0 is Some || t1 is Some,
                base.within(self.store()),
                (self.store(), ids) == base.sum_blocks(base, t0, w0, t1, w1, k as nat),
                ids.len() == k,
                forall|j: int| 0 <= j < k ==> #[trigger] sums[j] == ids[j],
                forall|j: int| 0 <= j < k ==> (#[trigger] ids[j]) < self.store().edges.len(),
            decreases BLOCKS - k,
        {
            let p = self.block_of(t0, w0, k);
            let q = self.block_of(t1, w1, k);
            let id = self.add_edges(p.0, p.1, q.0, q.1);
            sums[k] = id;
            proof {
                ids = ids.push(id);
            }
            k += 1;
        }
        assert(sums =~= children_of(ids));
        let (node, factor) = self.create_node_with_factor(variable, sums);
        self.create_edge(node, factor)
    }

    /// Appends the matrix product of the edges `(t0, w0)` and `(t1, w1)` of
    /// this store and returns the identifier of the edge that stands for it.
    pub(crate) fn multiply_edges(
        &mut self,
        t0: Option<usize>,
        w0: Complex64,
        t1: Option<usize>,
        w1: Complex64,
    ) -> (id: usize)
        requires
            old(self).wf(),
            old(self).store().valid_target(t0),
            old(self).store().valid_target(t1),
        ensures
            final(self).wf(),
            final(self).root() == old(self).root(),
            (final(self).store(), id) == old(self).store().product(t0, w0, t1, w1),
            old(self).store().within(final(self).store()),
            id < final(self).store().edges.len(),
        decreases rank(t0) + rank(t1),
    {
        if t0.is_none() {
            return self.create_edge(t1, weight_product(w0, w1));
        }
        if t1.is_none() {
            return self.create_edge(t0, weight_product(w0, w1));
        }
        let ghost base = self.store();
        let variable = self.variable_below(t0);
        let mut blocks: [usize; 4] = [0; 4];
        let ghost mut ids: Seq<usize> = Seq::empty();
        let mut at: usize = 0;
        while at < BLOCKS
            invariant
                at <= BLOCKS,
                self.wf(),
                self.root() == old(self).root(),
                base == old(self).store(),
                base.wf(),
                base.valid_target(t0),
                base.valid_target(t1),
                t0 is Some,
                t1 is Some,
                base.within(self.store()),
                (self.store(), ids) == base.product_blocks(base, t0, w0, t1, w1, at as nat),
                ids.len() == at,
                forall|j: int| 0 <= j < at ==> #[trigger] blocks[j] == ids[j],
                forall|j: int| 0 <= j < at ==> (#[trigger] ids[j]) < self.store().edges.len(),
            decreases BLOCKS - at,
        {
            let i = at / R;
            let j = at % R;
            let ghost start = self.store();
            let mut entry: usize = 0;
            let mut k: usize = 0;
            while k < R
                invariant
                    k <= R,
                    i < R,
                    j < R,
                    self.wf(),
                    self.root() == old(self).root(),
                    base.wf(),
                    base.valid_target(t0),
                    base.valid_target(t1),
                    t0 is Some,
                    t1 is Some,
                    base.within(start),
                    start.within(self.store()),
                    k == 0 ==> self.store() == start,
                    k > 0 ==> (self.store(), entry) == start.product_entry(
                        base,
                        t0,
                        w0,
                        t1,
                        w1,
                        i as int,
                        j as int,
                        k as nat,
                    ),
                    k > 0 ==> entry < self.store().edges.len(),
                decreases R - k,
            {
                let p = self.block_of(t0, w0, i * R + k);
                let q = self.block_of(t1, w1, k * R + j);
                let term = self.multiply_edges(p.0, p.1, q.0, q.1);
                if k == 0 {
                    entry = term;
                } else {
                    let a = *self.get_edge(entry);
                    let b = *self.get_edge(term);
                    entry = self.add_edges(a.target, a.weight, b.target, b.weight);
                }
                k += 1;
            }
            blocks[at] = entry;
            proof {
                ids = ids.push(entry);
            }
            at += 1;
        }
        assert(blocks =~= children_of(ids));
        let (node, factor) = self.create_node_with_factor(variable, blocks);
        self.create_edge(node, factor)
    }

    /// Appends the Kronecker product of the edges `(t0, w0)` and `(t1, w1)`
    /// of this store and returns the identifier of the edge that stands for
    /// it.
    pub(crate) fn kronecker_edges(
        &mut self,
        t0: Option<usize>,
        w0: Complex64,
        t1: Option<usize>,
        w1: Complex64,
    ) -> (id: usize)
        requires
            old(self).wf(),
            old(self).store().valid_target(t0),
            old(self).store().valid_target(t1),
            old(self).store().variables_fit(t0, old(self).store().variable_of(t1)),
        ensures
            final(self).wf(),
            final(self).root() == old(self).root(),
            (final(self).store(), id) == old(self).store().tensor(t0, w0, t1, w1),
            old(self).store().within(final(self).store()),
            id < final(self).store().edges.len(),
        decreases rank(t0),
    {
        match t0 {
            None => {
                if is_negligible(w0) {
                    self.create_edge(None, w0)
                } else if weights_match(w0, one()) {
                    self.create_edge(t1, w1)
                } else {
                    self.create_edge(t1, weight_product(w0, w1))
                }
            },
            Some(n) => {
                let ghost base = self.store();
                let ghost stacked = base.variable_of(t1);
                let variable = self.variable_below(t0) + self.variable_below(t1);
                let mut blocks: [usize; 4] = [0; 4];
                let ghost mut ids: Seq<usize> = Seq::empty();
                let mut k: usize = 0;
                while k < BLOCKS
                    invariant
                        k <= BLOCKS,
                        self.wf(),
                        self.root() == old(self).root(),
                        base == old(self).store(),
                        base.wf(),
                        t0 == Some(n),
                        n < base.nodes.len(),
                        base.valid_target(t1),
                        stacked == base.variable_of(t1),
                        base.variables_fit(t0, stacked),
                        base.within(self.store()),
                        (self.store(), ids) == base.tensor_blocks(base, n as int, t1, w1, k as nat),
                        ids.len() == k,
                        forall|j: int| 0 <= j < k ==> #[trigger] blocks[j] == ids[j],
                        forall|j: int| 0 <= j < k ==> (#[trigger] ids[j]) < self.store().edges.len(),
                    decreases BLOCKS - k,
                {
                    proof {
                        lemma_within_child(base, self.store(), n as int, k as int);
                    }
                    let child = *self.get_edge(self.get_node(n).edges[k]);
                    let id = self.kronecker_edges(child.target, child.weight, t1, w1);
                    blocks[k] = id;
                    proof {
                        ids = ids.push(id);
                    }
                    k += 1;
                }
                assert(blocks =~= children_of(ids));
                let (node, factor) = self.create_node_with_factor(variable, blocks);
                self.create_edge(node, weight_product(w0, factor))
            },
        }
    }

    /// Copies the edge `(target, weight)` of `from` into this store and
    /// returns the identifier of the copy. No variable of a node made on the
    /// way, nor the variable below the copy, exceeds a bound on the variables
    /// of the nodes that the copied edge leads to.
    pub(crate) fn import_edge(
        &mut self,
        from: &QMDD,
        target: Option<usize>,
        weight: Complex64,
        Ghost(bound): Ghost<int>,
    ) -> (id: usize)
        requires
            old(self).wf(),
            from.wf(),
            from.store().valid_target(target),
            from.store().reach(target) <= bound,
            0 <= bound,
        ensures
            final(self).wf(),
            final(self).root() == old(self).root(),
            (final(self).store(), id) == old(self).store().import(from.store(), target, weight),
            old(self).store().within(final(self).store()),
            id < final(self).store().edges.len(),
            forall|m: int|
                old(self).store().nodes.len() <= m < final(self).store().nodes.len() ==> (
                #[trigger] final(self).store().nodes[m]).variable <= bound,
            final(self).store().variable_of(final(self).store().edges[id as int].target) <= bound,
        decreases rank(target),
    {
        match target {
            None => self.create_edge(None, weight),
            Some(n) => {
                let ghost before = self.store();
                let node = from.get_node(n);
                let mut copies: [usize; 4] = [0; 4];
                let ghost mut ids: Seq<usize> = Seq::empty();
                let mut k: usize = 0;
                while k < BLOCKS
                    invariant
                        k <= BLOCKS,
                        from.wf(),
                        self.wf(),
                        self.root() == old(self).root(),
                        target == Some(n),
                        n < from.store().nodes.len(),
                        *node == from.store().nodes[n as int],
                        before == old(self).store(),
                        before.within(self.store()),
                        from.store().reach(Some(n)) <= bound,
                        0 <= bound,
                        forall|m: int|
                            before.nodes.len() <= m < self.store().nodes.len() ==> (
                            #[trigger] self.store().nodes[m]).variable <= bound,
                        k > 0 ==> self.store().variable_of(self.store().edges[ids[0] as int].target)
                            <= bound,
                        (self.store(), ids) == before.import_children(from.store(), n as int, k as nat),
                        ids.len() == k,
                        forall|j: int| 0 <= j < k ==> #[trigger] copies[j] == ids[j],
                        forall|j: int| 0 <= j < k ==> (#[trigger] ids[j]) < self.store().edges.len(),
                    decreases BLOCKS - k,
                {
                    proof {
                        lemma_within_child(from.store(), from.store(), n as int, k as int);
                        lemma_reach_child(from.store(), n as int, k as int);
                    }
                    let child = from.get_edge(node.edges[k]);
                    let id = self.import_edge(from, child.target, child.weight, Ghost(bound));
                    copies[k] = id;
                    proof {
                        ids = ids.push(id);
                    }
                    k += 1;
                }
                assert(copies =~= children_of(ids));
                let (copy, factor) = self.create_node_with_factor(node.variable, copies);
                self.create_edge(copy, weight_product(weight, factor))
            },
        }
    }
}

impl QMDD {
    /// The store in which an operation on this diagram and `other` starts:
    /// the empty store into which first this diagram's root edge and then
    /// the other's has been copied, with the identifiers of the two copies.
    pub open spec fn operands(&self, other: &QMDD) -> (Store, usize, usize) {
        let (store, left) = Store::empty().import(
            self.store(),
            self.root_edge().target,
            self.root_edge().weight,
        );
        let (store, right) = store.import(
            other.store(),
            other.root_edge().target,
            other.root_edge().weight,
        );
        (store, left, right)
    }

    /// The store and the root of the elementwise sum of this diagram and
    /// `other`.
    pub open spec fn sum_with(&self, other: &QMDD) -> (Store, usize) {
        let (store, left, right) = self.operands(other);
        let a = store.edges[left as int];
        let b = store.edges[right as int];
        store.sum(a.target, a.weight, b.target, b.weight)
    }

    /// The store and the root of the matrix product of this diagram and
    /// `other`.
    pub open spec fn product_with(&self, other: &QMDD) -> (Store, usize) {
        let (store, left, right) = self.operands(other);
        let a = store.edges[left as int];
        let b = store.edges[right as int];
        store.product(a.target, a.weight, b.target, b.weight)
    }

    /// The store and the root of the Kronecker product of this diagram and
    /// `other`.
    pub open spec fn tensor_with(&self, other: &QMDD) -> (Store, usize) {
        let (store, left, right) = self.operands(other);
        let a = store.edges[left as int];
        let b = store.edges[right as int];
        store.tensor(a.target, a.weight, b.target, b.weight)
    }

    /// Copies the roots of this diagram and of `other` into a fresh store.
    fn gather(&self, other: &QMDD) -> (start: (QMDD, Edge, Edge))
        requires
            self.wf(),
            other.wf(),
            self.has_root(),
            other.has_root(),
        ensures
            start.0.wf(),
            start.0.store() == self.operands(other).0,
            start.1 == start.0.store().edges[self.operands(other).1 as int],
            start.2 == start.0.store().edges[self.operands(other).2 as int],
            start.0.store().valid_target(start.1.target),
            start.0.store().valid_target(start.2.target),
            start.0.store().bounded(rank(start.1.target) as int, self.top() as int),
            start.0.store().variable_of(start.2.target) <= other.top(),
    {
        let mut result = QMDD::new();
        let a = *self.get_root();
        let b = *other.get_root();
        let left = result.import_edge(self, a.target, a.weight, Ghost(self.top() as int));
        let right = result.import_edge(other, b.target, b.weight, Ghost(other.top() as int));
        let copied = (*result.get_edge(left), *result.get_edge(right));
        (result, copied.0, copied.1)
    }

    /// The elementwise sum of this diagram and `other`, in a store of its
    /// own. Neither operand is changed.
    pub fn add(&self, other: &QMDD) -> (result: QMDD)
        requires
            self.wf(),
            other.wf(),
            self.has_root(),
            other.has_root(),
        ensures
            result.wf(),
            result.has_root(),
            (result.store(), result.root()) == self.sum_with(other),
    {
        let (mut result, a, b) = self.gather(other);
        let root = result.add_edges(a.target, a.weight, b.target, b.weight);
        result.set_root(root);
        result
    }

    /// The matrix product of this diagram and `other`, in a store of its
    /// own. Neither operand is changed.
    pub fn multiply(&self, other: &QMDD) -> (result: QMDD)
        requires
            self.wf(),
            other.wf(),
            self.has_root(),
            other.has_root(),
        ensures
            result.wf(),
            result.has_root(),
            (result.store(), result.root()) == self.product_with(other),
    {
        let (mut result, a, b) = self.gather(other);
        let root = result.multiply_edges(a.target, a.weight, b.target, b.weight);
        result.set_root(root);
        result
    }

    /// The Kronecker product of this diagram and `other`, in a store of its
    /// own. Neither operand is changed. The variables of the two operands
    /// are added up, so the largest variable that each root leads to must add
    /// up to a machine integer.
    pub fn kronecker(&self, other: &QMDD) -> (result: QMDD)
        requires
            self.wf(),
            other.wf(),
            self.has_root(),
            other.has_root(),
            self.top() + other.top() <= usize::MAX,
        ensures
            result.wf(),
            result.has_root(),
            (result.store(), result.root()) == self.tensor_with(other),
    {
        let (mut result, a, b) = self.gather(other);
        let root = result.kronecker_edges(a.target, a.weight, b.target, b.weight);
        result.set_root(root);
        result
    }
}

} // verus!
