//! Reading a diagram: the scalar at the end of every path from the root to a
//! leaf, each the product of the weights along its path.

use vstd::prelude::*;
use num::complex::Complex64;
use crate::store::{rank, Store, BLOCKS, QMDD};
use crate::weight::{complex_product, weight_product};

verus! {

impl Store {
    /// The values at the leaves below `target`, in the order of the children,
    /// when `value` is the product of the weights on the way down to `target`.
    pub open spec fn paths(self, target: Option<usize>, value: Complex64) -> Seq<Complex64>
        decreases rank(target), 0nat,
    {
        match target {
            None => seq![value],
            Some(n) => if self.wf() && n < self.nodes.len() {
                self.paths_through(n as int, value, BLOCKS as nat)
            } else {
                Seq::empty()
            },
        }
    }

    /// The values at the leaves below the first `count` children of node `n`.
    pub open spec fn paths_through(self, n: int, value: Complex64, count: nat) -> Seq<Complex64>
        decreases n, count,
    {
        if self.wf() && 0 <= n < self.nodes.len() && 0 < count <= BLOCKS {
            let child = self.child(n, count - 1);
            self.paths_through(n, value, (count - 1) as nat) + self.paths(
                child.target,
                complex_product(value, child.weight),
            )
        } else {
            Seq::empty()
        }
    }
}

impl QMDD {
    /// The entries of the diagram: the value of every path from the root to a
    /// leaf, starting from the root edge's own weight. A diagram without a
    /// root has none.
    pub open spec fn entries(&self) -> Seq<Complex64> {
        if self.has_root() {
            let root = self.store().edges[self.root() as int];
            self.store().paths(root.target, root.weight)
        } else {
            Seq::empty()
        }
    }

    /// Evaluates the diagram: walks it depth first from the root, visiting
    /// all children of every node in order, and returns the value of every
    /// path to a leaf.
    pub fn traverse(&self) -> (values: Vec<Complex64>)
        requires
            self.wf(),
        ensures
            values@ == self.entries(),
    {
        let mut results = Vec::new();
        if self.is_rooted() {
            let root = self.get_root();
            self.traverse_inner(root.target, root.weight, &mut results);
        }
        results
    }

    /// Appends to `results` the values at the leaves below `target`, in the
    /// order of the children, where `value` is the product of the weights on
    /// the way down to `target`. What `results` held stays in front.
    pub fn traverse_inner(
        &self,
        target: Option<usize>,
        value: Complex64,
        results: &mut Vec<Complex64>,
    )
        requires
            self.wf(),
            self.store().valid_target(target),
        ensures
            final(results)@ == old(results)@ + self.store().paths(target, value),
        decreases rank(target),
    {
        match target {
            None => {
                results.push(value);
            },
            Some(n) => {
                let node = self.get_node(n);
                let mut k: usize = 0;
                while k < BLOCKS
                    invariant
                        k <= BLOCKS,
                        self.wf(),
                        target == Some(n),
                        n < self.store().nodes.len(),
                        *node == self.store().nodes[n as int],
                        results@ == old(results)@ + self.store().paths_through(
                            n as int,
                            value,
                            k as nat,
                        ),
                    decreases BLOCKS - k,
                {
                    let child = self.get_edge(node.edges[k]);
                    assert(rank(self.store().child(n as int, k as int).target) <= n);
                    self.traverse_inner(child.target, weight_product(value, child.weight), results);
                    k += 1;
                }
            },
        }
    }
}

} // verus!
