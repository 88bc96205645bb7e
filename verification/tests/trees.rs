//! Tree construction, the prefix encoding, evaluation and variation.

use treegp::data::Data;
use treegp::individual::Individual;
use treegp::node::Node;
use treegp::variation::{geometric_semantic, standard};

fn bv(xs: &[f32]) -> Vec<u32> {
    xs.iter().map(|x| x.to_bits()).collect()
}

/// Two input variables over three instances; the last row is the target.
fn dataset() -> Data {
    let train = vec![bv(&[1.0, 2.0, 3.0]), bv(&[2.0, 3.0, 4.0]), bv(&[3.0, 5.0, 7.0])];
    let test = vec![bv(&[1.5, 2.5, 3.5]), bv(&[2.5, 3.5, 4.5]), bv(&[4.0, 6.0, 8.0])];
    Data::new(train, test).unwrap()
}

fn evaluated(core: Vec<Node>, data: &Data) -> Individual {
    let mut ind = Individual::new();
    ind.plug_in_core(core);
    ind.compute_semantics(data).unwrap();
    ind.evaluate(data);
    ind.compute_depth();
    ind
}

#[test]
fn dataset_accessors_expose_the_matrices() {
    let d = dataset();
    assert_eq!(d.dims(), 2);
    assert_eq!(d.train().len(), 3);
    assert_eq!(d.test().len(), 3);
    assert_eq!(d.train_targets(), &bv(&[3.0, 5.0, 7.0]));
    assert_eq!(d.test_targets(), &bv(&[4.0, 6.0, 8.0]));
}

#[test]
fn dataset_rejects_a_ragged_matrix() {
    let train = vec![bv(&[1.0, 2.0]), bv(&[1.0])];
    let test = vec![bv(&[1.0, 2.0]), bv(&[1.0, 2.0])];
    assert!(Data::new(train, test).is_none());
    assert!(Data::new(vec![bv(&[1.0])], vec![bv(&[1.0])]).is_none());
}

#[test]
fn full_trees_have_all_leaves_at_the_target_depth() {
    let d = dataset();
    for depth in 0..4usize {
        let mut ind = Individual::full(depth, &d);
        // The whole sequence is one complete subtree.
        assert_eq!(ind.count_subtree_nodes(0), ind.size());
        ind.compute_depth();
        assert_eq!(ind.depth(), depth);
        // In a full tree of depth d every terminal sits at depth exactly d,
        // so a tree of depth >= 1 has no terminal before index 1.
        if depth >= 1 {
            assert!(ind.clone_core()[0].arity() >= 1);
        }
    }
}

#[test]
fn grow_trees_never_exceed_the_depth_budget() {
    let d = dataset();
    for _ in 0..10 {
        let mut ind = Individual::grow(4, &d);
        assert_eq!(ind.count_subtree_nodes(0), ind.size());
        ind.compute_depth();
        assert!(ind.depth() <= 4);
    }
}

#[test]
fn subtree_sizes_agree_with_the_recursive_walk() {
    let d = dataset();
    // (Add (Mul x0 0.25) (Cos x1)) in pre-order.
    let core = vec![
        Node::Addition,
        Node::Multiplication,
        Node::Input(0),
        Node::Constant(0.25f32.to_bits()),
        Node::Cosine,
        Node::Input(1),
    ];
    let ind = evaluated(core, &d);
    assert_eq!(ind.count_subtree_nodes(0), 6);
    assert_eq!(ind.count_subtree_nodes(1), 3);
    assert_eq!(ind.count_subtree_nodes(2), 1);
    assert_eq!(ind.count_subtree_nodes(3), 1);
    assert_eq!(ind.count_subtree_nodes(4), 2);
    assert_eq!(ind.count_subtree_nodes(5), 1);
}

#[test]
fn evaluation_follows_the_tree_bottom_up() {
    let d = dataset();
    // (Sub x1 x0) gives 1.0 on every training instance.
    let core = vec![Node::Subtraction, Node::Input(1), Node::Input(0)];
    let ind = evaluated(core, &d);
    assert_eq!(ind.train_semantics(), bv(&[1.0, 1.0, 1.0]));
    assert_eq!(ind.test_semantics(), bv(&[1.0, 1.0, 1.0]));
}

#[test]
fn evaluation_fails_on_an_empty_tree() {
    let d = dataset();
    let mut ind = Individual::new();
    assert_eq!(ind.compute_semantics(&d), Err(treegp::errors::GpError::EmptyTree));
}

#[test]
fn depth_recomputation_is_a_no_op() {
    let d = dataset();
    let mut ind = Individual::new();
    ind.plug_in_core(vec![Node::Input(0)]);
    ind.compute_semantics(&d).unwrap();
    ind.evaluate(&d);
    ind.depth = Some(17);
    ind.compute_depth();
    assert_eq!(ind.depth(), 17);
}

#[test]
fn copies_of_core_ranges_are_faithful() {
    let d = dataset();
    let core = vec![Node::Addition, Node::Input(0), Node::Input(1)];
    let ind = evaluated(core.clone(), &d);
    assert_eq!(ind.clone_core(), core);
    assert_eq!(ind.outer_left_copy(1), vec![Node::Addition]);
    assert_eq!(ind.outer_right_copy(2), vec![Node::Input(1)]);
    assert_eq!(ind.copy_subtree(1, 2), vec![Node::Input(0), Node::Input(1)]);
}

#[test]
fn standard_crossover_offspring_are_complete_and_evaluated() {
    let d = dataset();
    for _ in 0..10 {
        let p1 = {
            let mut p = Individual::full(3, &d);
            p.compute_semantics(&d).unwrap();
            p.evaluate(&d);
            p.compute_depth();
            p
        };
        let p2 = {
            let mut p = Individual::grow(3, &d);
            p.compute_semantics(&d).unwrap();
            p.evaluate(&d);
            p.compute_depth();
            p
        };
        let off = standard::crossover(&p1, &p2, &d);
        // Round trip: the structural walk consumes exactly the whole tree,
        // so re-deriving depth and size never leaves the encoding.
        assert_eq!(off.count_subtree_nodes(0), off.size());
        assert!(off.train().is_some() && off.test().is_some());
        assert_eq!(off.train_semantics().len(), 3);
    }
}

#[test]
fn standard_mutation_offspring_are_complete_and_evaluated() {
    let d = dataset();
    for _ in 0..10 {
        let p1 = {
            let mut p = Individual::full(2, &d);
            p.compute_semantics(&d).unwrap();
            p.evaluate(&d);
            p.compute_depth();
            p
        };
        let off = standard::mutation(&p1, &d);
        assert_eq!(off.count_subtree_nodes(0), off.size());
        assert!(off.train().is_some() && off.test().is_some());
    }
}

#[test]
fn gs_mutation_with_zero_step_keeps_the_parent_semantics() {
    let d = dataset();
    let parent = evaluated(vec![Node::Input(0)], &d);
    let off = geometric_semantic::mutation(&parent, &d, 0.0f32.to_bits(), true);
    assert_eq!(off.train_semantics(), parent.train_semantics());
    assert_eq!(off.test_semantics(), parent.test_semantics());
}

#[test]
fn gs_crossover_carries_the_analytic_size_and_depth() {
    let d = dataset();
    let p1 = evaluated(vec![Node::Input(0)], &d);
    let p2 = evaluated(vec![Node::Input(1)], &d);
    let off = geometric_semantic::crossover(&p1, &p2, &d);
    // size = size(p1) + size(p2) + 2 * size(r1) + 5, with size(r1) >= 2.
    assert!(off.size() >= 1 + 1 + 2 * 2 + 5);
    assert_eq!(off.clone_core().len(), 0);
    // depth = max(max(d1, d2) + 2, depth(r1) + 4), with depth(r1) in [1, 7].
    assert!(off.depth() >= 2 && off.depth() <= 11);
    assert!(off.train().is_some() && off.test().is_some());
    assert_eq!(off.train_semantics().len(), 3);
}

#[test]
fn gs_crossover_semantics_mix_the_parents() {
    let d = dataset();
    // Both parents constant: p1 = 1.0, p2 = 0.0; the mix r*1 + (1-r)*0 = r
    // must land in [0, 1] since the random tree is bounded.
    let p1 = evaluated(vec![Node::Constant(1.0f32.to_bits())], &d);
    let p2 = evaluated(vec![Node::Constant(0.0f32.to_bits())], &d);
    for _ in 0..10 {
        let off = geometric_semantic::crossover(&p1, &p2, &d);
        for s in off.train_semantics() {
            let v = f32::from_bits(s);
            assert!(v.is_nan() || (0.0..=1.0).contains(&v));
        }
    }
}

#[test]
fn prepending_a_node_bounds_a_tree() {
    let d = dataset();
    let mut r1 = Individual::grow(3, &d);
    let before = r1.clone_core();
    r1.prepend_node(Node::LogFunction);
    let after = r1.clone_core();
    assert_eq!(after[0], Node::LogFunction);
    assert_eq!(&after[1..], &before[..]);
    r1.compute_depth();
    assert!(r1.depth() >= 1);
    r1.compute_semantics(&d).unwrap();
    for s in r1.train_semantics() {
        let v = f32::from_bits(s);
        assert!(v.is_nan() || (0.0..=1.0).contains(&v));
    }
}
