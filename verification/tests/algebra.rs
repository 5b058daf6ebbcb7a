use num::complex::Complex64;
use qmdd::QMDD;

fn c(re: f64, im: f64) -> Complex64 {
    Complex64::new(re, im)
}

fn assert_entries(values: &[Complex64], expected: &[Complex64]) {
    assert_eq!(values.len(), expected.len(), "{:?}", values);
    for (v, e) in values.iter().zip(expected.iter()) {
        assert!((v - e).norm() < 1e-10, "{:?} is not {:?}", values, expected);
    }
}

fn reals(values: &[f64]) -> Vec<Complex64> {
    values.iter().map(|&v| c(v, 0.0)).collect()
}

fn leaf(weight: Complex64) -> QMDD {
    let mut d = QMDD::new();
    let root = d.create_edge(None, weight);
    d.set_root(root);
    d
}

fn block(weights: [f64; 4]) -> QMDD {
    QMDD::from_blocks(
        [c(weights[0], 0.0), c(weights[1], 0.0), c(weights[2], 0.0), c(weights[3], 0.0)],
        c(1.0, 0.0),
    )
}

fn with_variable(variable: usize, weights: [f64; 4]) -> QMDD {
    let mut d = QMDD::new();
    let kids = [
        d.create_edge(None, c(weights[0], 0.0)),
        d.create_edge(None, c(weights[1], 0.0)),
        d.create_edge(None, c(weights[2], 0.0)),
        d.create_edge(None, c(weights[3], 0.0)),
    ];
    let node = d.create_node(variable, kids);
    let root = d.create_edge(node, c(1.0, 0.0));
    d.set_root(root);
    d
}

fn root_variable(d: &QMDD) -> Option<usize> {
    d.get_root().target.map(|n| d.get_node(n).variable)
}

#[test]
fn add_leaves_adds_their_weights() {
    let sum = leaf(c(1.5, -1.0)).add(&leaf(c(2.25, 4.0)));
    assert_eq!(sum.traverse(), vec![c(3.75, 3.0)]);
}

#[test]
fn add_blocks_adds_entry_by_entry() {
    let a = block([1.0, 2.0, 3.0, 4.0]);
    let b = block([0.0, 5.0, 6.0, 7.0]);
    assert_entries(&a.add(&b).traverse(), &reals(&[1.0, 7.0, 9.0, 11.0]));
}

#[test]
fn add_antieye_to_itself_doubles_it() {
    let a = QMDD::antieye();
    assert_entries(&a.add(&a).traverse(), &reals(&[0.0, 2.0, 0.0, 2.0]));
}

#[test]
fn add_is_the_same_in_either_order() {
    let pairs = [
        (QMDD::eye(), QMDD::antieye()),
        (QMDD::hadamard(), QMDD::antieye()),
        (QMDD::hadamard(), QMDD::eye()),
        (block([1.0, 2.0, 3.0, 4.0]), block([0.0, 5.0, 6.0, 7.0])),
        (leaf(c(2.0, 0.0)), QMDD::hadamard()),
        (leaf(c(0.0, 0.0)), QMDD::eye()),
    ];
    for (a, b) in pairs.iter() {
        let forth = a.add(b).traverse();
        let back = b.add(a).traverse();
        assert_entries(&forth, &back);
    }
}

#[test]
fn add_hadamard_and_antieye() {
    let s = 1.0 / 2.0f64.sqrt();
    let sum = QMDD::hadamard().add(&QMDD::antieye());
    assert_entries(&sum.traverse(), &reals(&[s, s + 1.0, s, 1.0 - s]));
    // The node is normalised by its first entry, which the root edge carries.
    assert!((sum.get_root().weight - c(s, 0.0)).norm() < 1e-10);
}

#[test]
fn add_hadamard_to_itself_doubles_it() {
    let r = 2.0f64.sqrt();
    let h = QMDD::hadamard();
    assert_entries(&h.add(&h).traverse(), &reals(&[r, r, r, -r]));
}

#[test]
fn add_eye_to_itself_doubles_it() {
    let e = QMDD::eye();
    assert_entries(&e.add(&e).traverse(), &reals(&[2.0, 0.0, 2.0, 0.0]));
}

#[test]
fn add_scaled_blocks_adds_entry_by_entry() {
    let a = QMDD::from_blocks([c(2.0, 0.0), c(4.0, 0.0), c(6.0, 0.0), c(8.0, 0.0)], c(0.5, 0.0));
    let b = QMDD::from_blocks([c(3.0, 0.0), c(0.0, 1.0), c(-1.0, 0.0), c(0.0, 0.0)], c(2.0, 0.0));
    assert_entries(
        &a.add(&b).traverse(),
        &[c(7.0, 0.0), c(2.0, 2.0), c(1.0, 0.0), c(4.0, 0.0)],
    );
}

#[test]
fn add_of_opposite_blocks_is_the_zero_leaf() {
    let a = block([1.0, 2.0, 3.0, 4.0]);
    let b = block([-1.0, -2.0, -3.0, -4.0]);
    assert_eq!(a.add(&b).traverse(), vec![c(0.0, 0.0)]);
}

#[test]
fn add_of_two_level_diagrams_adds_entry_by_entry() {
    let h = QMDD::hadamard();
    let k = h.kronecker(&h);
    let doubled: Vec<Complex64> = k.traverse().iter().map(|v| v + v).collect();
    assert_entries(&k.add(&k).traverse(), &doubled);
}

#[test]
fn add_of_a_uniform_sum_collapses_to_a_leaf() {
    let sum = QMDD::eye().add(&QMDD::antieye());
    assert_eq!(sum.get_root().target, None);
    assert_eq!(sum.traverse(), vec![c(1.0, 0.0)]);
}

#[test]
fn add_zero_leaf_returns_the_other_operand() {
    let h = QMDD::hadamard();
    for zero in [leaf(c(0.0, 0.0)), leaf(c(1e-11, 0.0)), leaf(c(0.0, -5e-11))] {
        let left = zero.add(&h);
        let right = h.add(&zero);
        assert_eq!(left.traverse(), h.traverse());
        assert_eq!(right.traverse(), h.traverse());
        assert_eq!(left.get_root().weight, h.get_root().weight);
        assert_eq!(right.get_root().weight, h.get_root().weight);
    }
}

#[test]
fn add_zero_leaf_to_a_leaf_returns_that_leaf() {
    let sum = leaf(c(0.0, 0.0)).add(&leaf(c(4.0, -1.0)));
    assert_eq!(sum.traverse(), vec![c(4.0, -1.0)]);
    let sum = leaf(c(4.0, -1.0)).add(&leaf(c(1e-12, 0.0)));
    assert_eq!(sum.traverse(), vec![c(4.0, -1.0)]);
}

#[test]
fn add_leaf_to_a_block_adds_it_to_every_entry() {
    let sum = leaf(c(1.0, 0.0)).add(&QMDD::eye());
    assert_entries(&sum.traverse(), &reals(&[2.0, 1.0, 2.0, 1.0]));
    let sum = QMDD::eye().add(&leaf(c(1.0, 0.0)));
    assert_entries(&sum.traverse(), &reals(&[2.0, 1.0, 2.0, 1.0]));
}

#[test]
fn add_takes_the_variable_of_the_first_operand_with_a_node() {
    let a = with_variable(3, [1.0, 2.0, 3.0, 4.0]);
    let b = with_variable(5, [0.0, 1.0, 1.0, 1.0]);
    assert_eq!(root_variable(&a.add(&b)), Some(3));
    assert_eq!(root_variable(&b.add(&a)), Some(5));
    assert_eq!(root_variable(&leaf(c(1.0, 0.0)).add(&b)), Some(5));
}

#[test]
fn multiply_hadamard_by_itself_is_the_identity() {
    let h = QMDD::hadamard();
    assert_entries(&h.multiply(&h).traverse(), &reals(&[1.0, 0.0, 0.0, 1.0]));
}

#[test]
fn multiply_blocks_is_the_matrix_product() {
    let a = block([1.0, 2.0, 3.0, 4.0]);
    let b = block([1.0, 1.0, 0.0, 2.0]);
    // [1 2; 3 4] * [1 1; 0 2] = [1 5; 3 11]
    assert_entries(&a.multiply(&b).traverse(), &reals(&[1.0, 5.0, 3.0, 11.0]));
}

#[test]
fn multiply_by_a_permutation_swaps_the_columns() {
    let a = block([1.0, 2.0, 3.0, 4.0]);
    let b = block([0.0, 1.0, 1.0, 0.0]);
    // [1 2; 3 4] * [0 1; 1 0] = [2 1; 4 3], and the other way round [3 4; 1 2].
    assert_entries(&a.multiply(&b).traverse(), &reals(&[2.0, 1.0, 4.0, 3.0]));
    assert_entries(&b.multiply(&a).traverse(), &reals(&[3.0, 4.0, 1.0, 2.0]));
}

#[test]
fn multiply_scaled_blocks_is_the_matrix_product() {
    let a = QMDD::from_blocks([c(2.0, 0.0), c(4.0, 0.0), c(6.0, 0.0), c(8.0, 0.0)], c(0.5, 0.0));
    let b = QMDD::from_blocks([c(0.0, 1.0), c(2.0, 0.0), c(3.0, 0.0), c(0.0, 0.0)], c(2.0, 0.0));
    // [1 2; 3 4] * [2i 4; 6 0] = [12+2i 4; 24+6i 12]
    assert_entries(
        &a.multiply(&b).traverse(),
        &[c(12.0, 2.0), c(4.0, 0.0), c(24.0, 6.0), c(12.0, 0.0)],
    );
}

#[test]
fn multiply_by_the_zero_block_is_the_zero_leaf() {
    let a = block([1.0, 2.0, 3.0, 4.0]);
    let z = with_variable(0, [0.0, 0.0, 1.0, 0.0]);
    let n = block([0.0, 0.0, 0.0, 5.0]);
    // [0 0; 1 0] * [0 0; 0 5] = 0
    assert_eq!(z.multiply(&n).traverse(), vec![c(0.0, 0.0)]);
    assert_entries(&a.multiply(&z).traverse(), &reals(&[2.0, 0.0, 4.0, 0.0]));
}

#[test]
fn multiply_of_two_level_hadamards_is_the_identity() {
    let h = QMDD::hadamard();
    let k = h.kronecker(&h);
    // The two zero blocks off the diagonal are one leaf each.
    assert_entries(
        &k.multiply(&k).traverse(),
        &reals(&[1.0, 0.0, 0.0, 1.0, 0.0, 0.0, 1.0, 0.0, 0.0, 1.0]),
    );
}

#[test]
fn multiply_eye_by_antieye() {
    let product = QMDD::eye().multiply(&QMDD::antieye());
    assert_entries(&product.traverse(), &reals(&[0.0, 1.0, 0.0, 1.0]));
}

#[test]
fn multiply_by_a_leaf_scales() {
    let s = 1.0 / 2.0f64.sqrt();
    let h = QMDD::hadamard();
    let expected = [c(0.0, 2.0 * s), c(0.0, 2.0 * s), c(0.0, 2.0 * s), c(0.0, -2.0 * s)];
    assert_entries(&leaf(c(0.0, 2.0)).multiply(&h).traverse(), &expected);
    assert_entries(&h.multiply(&leaf(c(0.0, 2.0))).traverse(), &expected);
}

#[test]
fn multiply_leaves_multiplies_their_weights() {
    let product = leaf(c(1.0, 2.0)).multiply(&leaf(c(3.0, -1.0)));
    assert_eq!(product.traverse(), vec![c(5.0, 5.0)]);
}

#[test]
fn multiply_keeps_the_variable_of_the_first_operand() {
    let a = with_variable(3, [1.0, 2.0, 3.0, 4.0]);
    let b = with_variable(5, [1.0, 1.0, 0.0, 2.0]);
    assert_eq!(root_variable(&a.multiply(&b)), Some(3));
    assert_eq!(root_variable(&b.multiply(&a)), Some(5));
}

#[test]
fn kronecker_of_hadamards_has_sixteen_entries() {
    let h = QMDD::hadamard();
    let k = h.kronecker(&h);
    assert_eq!(root_variable(&k), Some(0));
    let values = k.traverse();
    assert_eq!(values.len(), h.traverse().len() * h.traverse().len());
    assert_entries(
        &values,
        &reals(&[
            0.5, 0.5, 0.5, -0.5, 0.5, 0.5, 0.5, -0.5, 0.5, 0.5, 0.5, -0.5, -0.5, -0.5, -0.5, 0.5,
        ]),
    );
}

#[test]
fn kronecker_adds_the_variables() {
    let a = with_variable(2, [1.0, 2.0, 3.0, 4.0]);
    let b = with_variable(3, [1.0, 0.0, 0.0, 5.0]);
    assert!(a.top_variable().checked_add(b.top_variable()).is_some());
    let k = a.kronecker(&b);
    assert_eq!(root_variable(&k), Some(5));
    assert_eq!(k.traverse().len(), 16);
    let k = b.kronecker(&a);
    assert_eq!(root_variable(&k), Some(5));
}

#[test]
fn kronecker_replaces_every_leaf_by_the_second_operand() {
    let a = block([1.0, 2.0, 3.0, 4.0]);
    let b = block([1.0, 0.5, 0.25, 2.0]);
    let values = a.kronecker(&b).traverse();
    let mut expected = Vec::new();
    for x in [1.0, 2.0, 3.0, 4.0] {
        for y in [1.0, 0.5, 0.25, 2.0] {
            expected.push(c(x * y, 0.0));
        }
    }
    assert_entries(&values, &expected);
}

#[test]
fn kronecker_of_a_zero_leaf_is_that_leaf() {
    let k = leaf(c(0.0, 0.0)).kronecker(&QMDD::hadamard());
    assert_eq!(k.get_root().target, None);
    assert_eq!(k.traverse(), vec![c(0.0, 0.0)]);
    let k = leaf(c(1e-11, 0.0)).kronecker(&QMDD::hadamard());
    assert_eq!(k.traverse(), vec![c(1e-11, 0.0)]);
}

#[test]
fn kronecker_of_a_unit_leaf_is_the_second_operand() {
    let h = QMDD::hadamard();
    let k = leaf(c(1.0, 0.0)).kronecker(&h);
    assert_eq!(k.traverse(), h.traverse());
    assert_eq!(k.get_root().weight, h.get_root().weight);
    // A leaf within the tolerance of one counts as one.
    let k = leaf(c(1.0 + 1e-11, 0.0)).kronecker(&h);
    assert_entries(&k.traverse(), &h.traverse());
}

#[test]
fn kronecker_of_a_leaf_scales_the_second_operand() {
    let s = 1.0 / 2.0f64.sqrt();
    let k = leaf(c(3.0, 0.0)).kronecker(&QMDD::hadamard());
    assert_entries(&k.traverse(), &reals(&[3.0 * s, 3.0 * s, 3.0 * s, -3.0 * s]));
}

#[test]
fn kronecker_with_a_leaf_keeps_the_first_variable() {
    let a = with_variable(4, [1.0, 2.0, 3.0, 4.0]);
    let k = a.kronecker(&leaf(c(2.0, 0.0)));
    assert_eq!(root_variable(&k), Some(4));
    assert_entries(&k.traverse(), &reals(&[2.0, 4.0, 6.0, 8.0]));
}

#[test]
fn kronecker_skips_zero_leaves_of_the_first_operand() {
    let k = QMDD::eye().kronecker(&QMDD::hadamard());
    assert_eq!(k.traverse().len(), 10);
}

#[test]
fn operations_leave_their_operands_unchanged() {
    let a = QMDD::hadamard();
    let b = QMDD::eye();
    let (a_nodes, a_edges, a_values) = (a.node_count(), a.edge_count(), a.traverse());
    let (b_nodes, b_edges, b_values) = (b.node_count(), b.edge_count(), b.traverse());
    let _ = a.add(&b);
    let _ = a.multiply(&b);
    let _ = a.kronecker(&b);
    assert_eq!((a.node_count(), a.edge_count(), a.traverse()), (a_nodes, a_edges, a_values));
    assert_eq!((b.node_count(), b.edge_count(), b.traverse()), (b_nodes, b_edges, b_values));
}

#[test]
fn results_stand_on_their_own() {
    let product = {
        let a = block([1.0, 2.0, 3.0, 4.0]);
        let b = block([1.0, 1.0, 0.0, 2.0]);
        a.multiply(&b)
    };
    assert!(product.is_rooted());
    for e in 0..product.edge_count() {
        if let Some(n) = product.get_edge(e).target {
            assert!(n < product.node_count());
        }
    }
    for n in 0..product.node_count() {
        for k in 0..4 {
            assert!(product.get_node(n).edges[k] < product.edge_count());
        }
    }
    assert_entries(&product.traverse(), &reals(&[1.0, 5.0, 3.0, 11.0]));
}

#[test]
fn results_can_be_operands() {
    let h = QMDD::hadamard();
    let identity = h.multiply(&h);
    let again = identity.multiply(&identity);
    assert_entries(&again.traverse(), &reals(&[1.0, 0.0, 0.0, 1.0]));
    let sum = identity.add(&QMDD::antieye());
    assert_entries(&sum.traverse(), &reals(&[1.0, 1.0, 0.0, 2.0]));
}

fn assert_references_resolve(d: &QMDD) {
    assert!(d.is_rooted());
    for e in 0..d.edge_count() {
        assert_eq!(d.get_edge(e).id, e);
        if let Some(n) = d.get_edge(e).target {
            assert!(n < d.node_count());
        }
    }
    for n in 0..d.node_count() {
        let node = d.get_node(n);
        assert_eq!(node.id, n);
        assert!(!(node.edges[1] == node.edges[0]
            && node.edges[2] == node.edges[0]
            && node.edges[3] == node.edges[0]));
        for k in 0..4 {
            assert!(node.edges[k] < d.edge_count());
            if let Some(below) = d.get_edge(node.edges[k]).target {
                assert!(below < n);
            }
        }
    }
}

#[test]
fn nested_operations_keep_the_store_canonical() {
    let h = QMDD::hadamard();
    let a = block([1.0, 2.0, 3.0, 4.0]);
    let two_levels = a.kronecker(&h);
    assert_references_resolve(&two_levels);
    assert_eq!(two_levels.traverse().len(), 16);
    let product = two_levels.multiply(&two_levels);
    assert_references_resolve(&product);
    assert!(!product.traverse().is_empty());
    let sum = two_levels.add(&h.kronecker(&a));
    assert_references_resolve(&sum);
    assert!(!sum.traverse().is_empty());
    let mixed = two_levels.add(&h);
    assert_references_resolve(&mixed);
    let three_levels = two_levels.kronecker(&a);
    assert_references_resolve(&three_levels);
    let scaled = leaf(c(0.0, 1.0)).multiply(&two_levels);
    assert_references_resolve(&scaled);
    assert_eq!(scaled.traverse().len(), 16);
}

#[test]
fn kronecker_of_eye_with_itself() {
    // Every one of the first operand becomes a copy of the second; every zero stays a leaf.
    let e = QMDD::eye();
    let ee = e.kronecker(&e);
    assert_eq!(ee.node_count(), 2);
    assert_eq!(
        ee.traverse(),
        reals(&[1.0, 0.0, 1.0, 0.0, 0.0, 1.0, 0.0, 1.0, 0.0, 0.0])
    );
}

#[test]
fn kronecker_applies_the_weights_of_both_roots() {
    let a = QMDD::from_blocks([c(2.0, 0.0), c(4.0, 0.0), c(6.0, 0.0), c(8.0, 0.0)], c(0.5, 0.0));
    let b = QMDD::from_blocks([c(3.0, 0.0), c(0.0, 3.0), c(-3.0, 0.0), c(1.5, 0.0)], c(2.0, 0.0));
    let mut expected = Vec::new();
    for x in a.traverse() {
        for y in b.traverse() {
            expected.push(x * y);
        }
    }
    assert_eq!(expected.len(), 16);
    assert_entries(&a.kronecker(&b).traverse(), &expected);
}

#[test]
fn kronecker_of_three_levels() {
    let a = block([1.0, 2.0, 3.0, 4.0]);
    let b = block([2.0, 0.5, 0.25, 1.0]);
    let d = QMDD::hadamard();
    let ab = a.kronecker(&b);
    let abd = ab.kronecker(&d);
    let mut expected = Vec::new();
    for x in ab.traverse() {
        for y in d.traverse() {
            expected.push(x * y);
        }
    }
    assert_eq!(expected.len(), 64);
    assert_entries(&abd.traverse(), &expected);
}
