//! Construction helpers: single-level diagrams for small fixed matrices.

use vstd::prelude::*;
use num::complex::Complex64;
use crate::store::{children_of, Store, BLOCKS, QMDD};
use crate::weight::{
    complex_of, complex_product, complex_quotient, complex_root_of, null, one, unit, weight_of,
    weight_product, weight_quotient, weight_root_of, zero,
};

verus! {

impl Store {
    /// Interns a leaf for each of the first `count` of `weights`, in order.
    pub open spec fn intern_leaves(self, weights: [Complex64; 4], count: nat) -> (Store, Seq<usize>)
        decreases count,
    {
        if 0 < count <= BLOCKS {
            let (store, ids) = self.intern_leaves(weights, (count - 1) as nat);
            let (store, id) = store.intern_edge(None, weights[count - 1]);
            (store, ids.push(id))
        } else {
            (self, Seq::empty())
        }
    }

    /// The store and the root of the single-level diagram for four weights
    /// and a scale: the four leaves are interned in order, then the node of
    /// variable zero over them, which normalises them, then the edge to it,
    /// which carries `scale` times the factor that normalising took out.
    pub open spec fn single_level(weights: [Complex64; 4], scale: Complex64) -> (Store, usize) {
        let (store, ids) = Store::empty().intern_leaves(weights, BLOCKS as nat);
        let leaves = children_of(ids);
        let (grown, node) = store.intern_node(0, leaves);
        grown.intern_edge(node, complex_product(scale, store.node_factor(leaves)))
    }
}

impl QMDD {
    /// A single-level diagram in a store of its own, for the two by two
    /// matrix whose entries, in row-major order, are `weights`, each times
    /// `scale`. The leaves of its one node, of variable zero, carry the
    /// weights divided by the first of them, unless that is exactly zero, and
    /// the root edge carries `scale` times the factor so taken out.
    pub fn from_blocks(weights: [Complex64; 4], scale: Complex64) -> (diagram: QMDD)
        ensures
            diagram.wf(),
            diagram.has_root(),
            (diagram.store(), diagram.root()) == Store::single_level(weights, scale),
    {
        let mut diagram = QMDD::new();
        let mut leaves: [usize; 4] = [0; 4];
        let ghost mut ids: Seq<usize> = Seq::empty();
        let mut k: usize = 0;
        while k < BLOCKS
            invariant
                k <= BLOCKS,
                diagram.wf(),
                (diagram.store(), ids) == Store::empty().intern_leaves(weights, k as nat),
                ids.len() == k,
                forall|j: int| 0 <= j < k ==> #[trigger] leaves[j] == ids[j],
                forall|j: int| 0 <= j < k ==> (#[trigger] ids[j]) < diagram.store().edges.len(),
            decreases BLOCKS - k,
        {
            let id = diagram.create_edge(None, weights[k]);
            leaves[k] = id;
            proof {
                ids = ids.push(id);
            }
            k += 1;
        }
        assert(leaves =~= children_of(ids));
        let (node, factor) = diagram.create_node_with_factor(0, leaves);
        let root = diagram.create_edge(node, weight_product(scale, factor));
        diagram.set_root(root);
        diagram
    }

    /// The identity-like block: ones in the first column, zeros in the second.
    pub fn eye() -> (diagram: QMDD)
        ensures
            diagram.wf(),
            diagram.has_root(),
            (diagram.store(), diagram.root()) == Store::single_level(
                [unit(), null(), unit(), null()],
                unit(),
            ),
    {
        QMDD::from_blocks([one(), zero(), one(), zero()], one())
    }

    /// The Hadamard-like block: ones with a minus one in the last place, all
    /// times one over the square root of two.
    pub fn hadamard() -> (diagram: QMDD)
        ensures
            diagram.wf(),
            diagram.has_root(),
            (diagram.store(), diagram.root()) == Store::single_level(
                [unit(), unit(), unit(), complex_of(-1, 0)],
                complex_quotient(unit(), complex_root_of(2)),
            ),
    {
        let scale = weight_quotient(one(), weight_root_of(2));
        QMDD::from_blocks([one(), one(), one(), weight_of(-1, 0)], scale)
    }

    /// The anti-diagonal-like block: zeros in the first column, ones in the
    /// second.
    pub fn antieye() -> (diagram: QMDD)
        ensures
            diagram.wf(),
            diagram.has_root(),
            (diagram.store(), diagram.root()) == Store::single_level(
                [null(), unit(), null(), unit()],
                unit(),
            ),
    {
        QMDD::from_blocks([zero(), one(), zero(), one()], one())
    }
}

} // verus!
