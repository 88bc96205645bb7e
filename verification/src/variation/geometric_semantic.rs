//! Geometric-semantic variation: recombination directly in semantics space.
//!
//! No combined tree is materialized: the offspring carries the combined
//! semantics, the errors computed from them, and an analytic size and depth
//! derived from the parents' and the random trees' measures (saturating at
//! the largest `usize`). The random trees are squashed into [0, 1] by a
//! prepended `LogFunction` node (always for crossover, optionally for
//! mutation).

use vstd::prelude::*;
use crate::data::Data;
use crate::node::{Node, un_bits};
use crate::individual::Individual;
use crate::encoding::{
    eval_bits, lemma_compose1, lemma_depth_compose1, lemma_inputs_below_single,
    lemma_inputs_below_concat,
};
use crate::fbits::{
    add_bits, sub_bits, mul_bits, is_nan_b, is_finite_b, unit_or_nan, lemma_logistic_unit,
    fadd, fsub, fmul, ONE_BITS, POS_ZERO, NEG_ZERO,
};
use crate::utils::{rmse_bits, sat_cap, sat_add, sat_double};

verus! {

/// The geometric-semantic crossover combination: elementwise
/// `p1 * r + (1 - r) * p2`.
pub open spec fn gsxo_sem(a: Seq<u32>, b: Seq<u32>, r: Seq<u32>) -> Seq<u32> {
    Seq::new(
        a.len(),
        |i: int| add_bits(mul_bits(a[i], r[i]), mul_bits(sub_bits(ONE_BITS, r[i]), b[i])),
    )
}

/// The geometric-semantic mutation combination: elementwise
/// `p + step * (r1 - r2)`.
pub open spec fn gsmut_sem(p: Seq<u32>, r1: Seq<u32>, r2: Seq<u32>, step: u32) -> Seq<u32> {
    Seq::new(p.len(), |i: int| add_bits(p[i], mul_bits(step, sub_bits(r1[i], r2[i]))))
}

/// The analytic size and depth of a crossover offspring: the combination
/// formula contributes five synthesized nodes and uses the random tree
/// twice; its depth puts each parent two levels down and the random tree
/// four.
pub open spec fn gsxo_shape(
    off: Individual,
    p1: Individual,
    p2: Individual,
    sr: int,
    dr: int,
) -> bool {
    &&& 2 <= sr
    &&& 1 <= dr <= 7
    &&& off.size matches Some(s) && s as int == sat_cap(
        p1.size_spec() + p2.size_spec() + 2 * sr + 5,
    )
    &&& off.depth matches Some(d) && d as int == ({
        let dp = if p1.depth->0 >= p2.depth->0 {
            p1.depth->0 as int
        } else {
            p2.depth->0 as int
        };
        let a = sat_cap(dp + 2);
        let b = sat_cap(dr + 4);
        if a >= b {
            a
        } else {
            b
        }
    })
}

/// The analytic size and depth of a mutation offspring: the combination
/// formula contributes four synthesized nodes around the two random trees;
/// its depth puts the random trees three levels down and the parent one.
pub open spec fn gsmut_shape(
    off: Individual,
    p1: Individual,
    sr1: int,
    sr2: int,
    dr1: int,
    dr2: int,
) -> bool {
    &&& 1 <= sr1 && 1 <= sr2
    &&& 0 <= dr1 <= 7 && 0 <= dr2 <= 7
    &&& off.size matches Some(s) && s as int == sat_cap(p1.size_spec() + 4 + sr1 + sr2)
    &&& off.depth matches Some(d) && d as int == ({
        let dm = if dr1 >= dr2 {
            dr1
        } else {
            dr2
        };
        let a = sat_cap(dm + 3);
        let b = sat_cap(p1.depth->0 + 1);
        if a >= b {
            a
        } else {
            b
        }
    })
}

/// Elementwise `p1 * r1 + (1 - r1) * p2`.
fn gs_crossover_semantics(p1_semantics: Vec<u32>, p2_semantics: Vec<u32>, r1_semantics: Vec<u32>)
    -> (r: Vec<u32>)
    requires
        p1_semantics@.len() == p2_semantics@.len(),
        p1_semantics@.len() == r1_semantics@.len(),
    ensures
        r@ == gsxo_sem(p1_semantics@, p2_semantics@, r1_semantics@),
{
    let n = p1_semantics.len();
    let mut r: Vec<u32> = Vec::new();
    let mut i: usize = 0;
    while i < n
        invariant
            i <= n,
            n == p1_semantics@.len(),
            p2_semantics@.len() == n,
            r1_semantics@.len() == n,
            r@.len() == i,
            forall|j: int|
                0 <= j < i ==> r@[j] == add_bits(
                    mul_bits(p1_semantics@[j], r1_semantics@[j]),
                    mul_bits(sub_bits(ONE_BITS, r1_semantics@[j]), p2_semantics@[j]),
                ),
        decreases n - i,
    {
        let t1 = fmul(p1_semantics[i], r1_semantics[i]);
        let t2 = fmul(fsub(ONE_BITS, r1_semantics[i]), p2_semantics[i]);
        r.push(fadd(t1, t2));
        i += 1;
    }
    proof {
        assert(r@ =~= gsxo_sem(p1_semantics@, p2_semantics@, r1_semantics@));
    }
    r
}

/// Elementwise `p + step * (r1 - r2)`. The second clause is the law that a
/// mutation step of +0.0 leaves the parent's semantics unchanged, element by
/// element, wherever the parent's element is not a NaN or -0.0 and the
/// random trees' difference is finite.
fn gs_mutation_semantics(p1_sems: Vec<u32>, r1_sems: Vec<u32>, r2_sems: Vec<u32>, mut_step: u32)
    -> (r: Vec<u32>)
    requires
        p1_sems@.len() == r1_sems@.len(),
        p1_sems@.len() == r2_sems@.len(),
    ensures
        r@ == gsmut_sem(p1_sems@, r1_sems@, r2_sems@, mut_step),
        forall|i: int|
            0 <= i < p1_sems@.len() && mut_step == POS_ZERO && !is_nan_b(p1_sems@[i])
                && p1_sems@[i] != NEG_ZERO && is_finite_b(sub_bits(r1_sems@[i], r2_sems@[i]))
                ==> r@[i] == p1_sems@[i],
{
    let n = p1_sems.len();
    let mut r: Vec<u32> = Vec::new();
    let mut i: usize = 0;
    while i < n
        invariant
            i <= n,
            n == p1_sems@.len(),
            r1_sems@.len() == n,
            r2_sems@.len() == n,
            r@.len() == i,
            forall|j: int|
                0 <= j < i ==> r@[j] == add_bits(
                    p1_sems@[j],
                    mul_bits(mut_step, sub_bits(r1_sems@[j], r2_sems@[j])),
                ),
            forall|j: int|
                0 <= j < i && mut_step == POS_ZERO && !is_nan_b(p1_sems@[j]) && p1_sems@[j]
                    != NEG_ZERO && is_finite_b(sub_bits(r1_sems@[j], r2_sems@[j])) ==> r@[j]
                    == p1_sems@[j],
        decreases n - i,
    {
        let d = fsub(r1_sems[i], r2_sems[i]);
        let z = fmul(mut_step, d);
        r.push(fadd(p1_sems[i], z));
        i += 1;
    }
    proof {
        assert(r@ =~= gsmut_sem(p1_sems@, r1_sems@, r2_sems@, mut_step));
    }
    r
}

/// A random tree of maximum depth 6 squashed by a prepended `LogFunction`,
/// with its depth and semantics computed. Every element of its semantics is
/// in [0, 1] or a NaN.
fn bounded_random_tree(data: &Data) -> (r: Individual)
    requires
        data.wf(),
    ensures
        r.has_tree(),
        r.semantics_ok(data),
        r.depth matches Some(d) && 1 <= d <= 7,
        r.size is None,
        r.core@.len() >= 2,
        forall|i: int|
            0 <= i < data.n_train() ==> unit_or_nan(#[trigger] r.train_semantics->0@[i]),
        forall|i: int| 0 <= i < data.n_test() ==> unit_or_nan(#[trigger] r.test_semantics->0@[i]),
{
    let mut r1 = Individual::grow(6, data);
    let ghost grown = r1.core@;
    r1.prepend_node(Node::LogFunction);
    proof {
        lemma_compose1(Node::LogFunction, grown);
        lemma_depth_compose1(Node::LogFunction, grown);
        lemma_inputs_below_single(Node::LogFunction, data.dimensions as nat);
        lemma_inputs_below_concat(seq![Node::LogFunction], grown, data.dimensions as nat);
        assert(r1.core@ == seq![Node::LogFunction] + grown);
    }
    r1.compute_depth();
    let _ = r1.compute_semantics(data);
    proof {
        let s = r1.core@;
        assert(s.skip(1) =~= grown);
        let o_train = eval_bits(grown, data.train@, data.n_train());
        assert(eval_bits(s, data.train@, data.n_train()) == Seq::new(
            data.n_train(),
            |i: int| un_bits(Node::LogFunction, o_train[i]),
        ));
        assert forall|i: int| 0 <= i < data.n_train() implies unit_or_nan(
            #[trigger] r1.train_semantics->0@[i],
        ) by {
            lemma_logistic_unit(o_train[i]);
        }
        let o_test = eval_bits(grown, data.test@, data.n_test());
        assert(eval_bits(s, data.test@, data.n_test()) == Seq::new(
            data.n_test(),
            |i: int| un_bits(Node::LogFunction, o_test[i]),
        ));
        assert forall|i: int| 0 <= i < data.n_test() implies unit_or_nan(
            #[trigger] r1.test_semantics->0@[i],
        ) by {
            lemma_logistic_unit(o_test[i]);
        }
    }
    r1
}

/// Geometric-semantic crossover: one random bounded tree `r1` mixes the
/// parents' semantics elementwise as `p1 * r1 + (1 - r1) * p2` on each
/// split; the offspring carries those semantics, their errors, and the
/// analytic size and depth, but no tree.
pub fn crossover(p1: &Individual, p2: &Individual, data: &Data) -> (off: Individual)
    requires
        data.wf(),
        p1.ready_gs(data),
        p2.ready_gs(data),
    ensures
        off.core@.len() == 0,
        off.ready_gs(data),
        exists|rt: Seq<u32>|
            #![trigger gsxo_sem(p1.train_semantics->0@, p2.train_semantics->0@, rt)]
            rt.len() == data.n_train() && (forall|i: int| 0 <= i < rt.len() ==> unit_or_nan(rt[i]))
                && off.train_semantics->0@ == gsxo_sem(
                p1.train_semantics->0@,
                p2.train_semantics->0@,
                rt,
            ),
        exists|rt: Seq<u32>|
            #![trigger gsxo_sem(p1.test_semantics->0@, p2.test_semantics->0@, rt)]
            rt.len() == data.n_test() && (forall|i: int| 0 <= i < rt.len() ==> unit_or_nan(rt[i]))
                && off.test_semantics->0@ == gsxo_sem(
                p1.test_semantics->0@,
                p2.test_semantics->0@,
                rt,
            ),
        off.train == Some(
            rmse_bits(off.train_semantics->0@, data.train@[data.train@.len() - 1]@),
        ),
        off.test == Some(rmse_bits(off.test_semantics->0@, data.test@[data.test@.len() - 1]@)),
        exists|sr: int, dr: int| #[trigger] gsxo_shape(off, *p1, *p2, sr, dr),
{
    let r1 = bounded_random_tree(data);
    let r1_semantics = r1.semantics();
    let p1_semantics = p1.semantics();
    let p2_semantics = p2.semantics();

    let train_semantics = gs_crossover_semantics(p1_semantics.0, p2_semantics.0, r1_semantics.0);
    let test_semantics = gs_crossover_semantics(p1_semantics.1, p2_semantics.1, r1_semantics.1);

    let mut offspring = Individual::new();
    offspring.train_semantics = Some(train_semantics);
    offspring.test_semantics = Some(test_semantics);
    offspring.evaluate(data);
    offspring.size = Some(calc_xo_offspring_size(p1, p2, &r1));
    offspring.depth = Some(calc_xo_offspring_depth(p1, p2, &r1));
    proof {
        assert(gsxo_shape(
            offspring,
            *p1,
            *p2,
            r1.core@.len() as int,
            r1.depth->0 as int,
        ));
    }
    offspring
}

/// The analytic node count of a crossover offspring.
fn calc_xo_offspring_size(p1: &Individual, p2: &Individual, r1: &Individual) -> (r: usize)
    requires
        p1.core@.len() > 0 || p1.size is Some,
        p2.core@.len() > 0 || p2.size is Some,
        r1.core@.len() > 0,
    ensures
        r as int == sat_cap(p1.size_spec() + p2.size_spec() + 2 * (r1.core@.len() as int) + 5),
{
    sat_add(sat_add(sat_add(p1.size(), p2.size()), sat_double(r1.size())), 5)
}

/// The analytic depth of a crossover offspring.
fn calc_xo_offspring_depth(p1: &Individual, p2: &Individual, r1: &Individual) -> (r: usize)
    requires
        p1.depth is Some,
        p2.depth is Some,
        r1.depth is Some,
    ensures
        r as int == ({
            let dp = if p1.depth->0 >= p2.depth->0 {
                p1.depth->0 as int
            } else {
                p2.depth->0 as int
            };
            let a = sat_cap(dp + 2);
            let b = sat_cap(r1.depth->0 + 4);
            if a >= b {
                a
            } else {
                b
            }
        }),
{
    let d1 = p1.depth();
    let d2 = p2.depth();
    let deepest = if d1 >= d2 {
        d1
    } else {
        d2
    };
    let a = sat_add(deepest, 2);
    let b = sat_add(r1.depth(), 4);
    if a >= b {
        a
    } else {
        b
    }
}

/// Geometric-semantic mutation: two random trees (squashed when `bounded`)
/// move the parent's semantics elementwise by `mut_step * (r1 - r2)` on each
/// split. With a mutation step of +0.0 the offspring's semantics equal the
/// parent's wherever the parent's element is not a NaN or -0.0 and the
/// random trees' difference is finite.
pub fn mutation(p1: &Individual, data: &Data, mut_step: u32, bounded_mutation: bool) -> (off:
    Individual)
    requires
        data.wf(),
        p1.ready_gs(data),
    ensures
        off.core@.len() == 0,
        off.ready_gs(data),
        exists|r1s: Seq<u32>, r2s: Seq<u32>|
            #![trigger gsmut_sem(p1.train_semantics->0@, r1s, r2s, mut_step)]
            r1s.len() == data.n_train() && r2s.len() == data.n_train()
                && off.train_semantics->0@ == gsmut_sem(
                p1.train_semantics->0@,
                r1s,
                r2s,
                mut_step,
            ) && (bounded_mutation ==> (forall|i: int|
                0 <= i < r1s.len() ==> unit_or_nan(#[trigger] r1s[i]) && unit_or_nan(
                    #[trigger] r2s[i],
                ))) && (forall|i: int|
                0 <= i < r1s.len() && mut_step == POS_ZERO && !is_nan_b(
                    p1.train_semantics->0@[i],
                ) && p1.train_semantics->0@[i] != NEG_ZERO && is_finite_b(
                    sub_bits(r1s[i], r2s[i]),
                ) ==> off.train_semantics->0@[i] == p1.train_semantics->0@[i]),
        exists|r1s: Seq<u32>, r2s: Seq<u32>|
            #![trigger gsmut_sem(p1.test_semantics->0@, r1s, r2s, mut_step)]
            r1s.len() == data.n_test() && r2s.len() == data.n_test() && off.test_semantics->0@
                == gsmut_sem(p1.test_semantics->0@, r1s, r2s, mut_step),
        off.train == Some(
            rmse_bits(off.train_semantics->0@, data.train@[data.train@.len() - 1]@),
        ),
        off.test == Some(rmse_bits(off.test_semantics->0@, data.test@[data.test@.len() - 1]@)),
        exists|sr1: int, sr2: int, dr1: int, dr2: int|
            #[trigger] gsmut_shape(off, *p1, sr1, sr2, dr1, dr2),
{
    let (r1, r2) = if bounded_mutation {
        (bounded_random_tree(data), bounded_random_tree(data))
    } else {
        let mut a = Individual::grow(6, data);
        a.compute_depth();
        let _ = a.compute_semantics(data);
        let mut b = Individual::grow(6, data);
        b.compute_depth();
        let _ = b.compute_semantics(data);
        (a, b)
    };

    let p1_semantics = p1.semantics();
    let r1_semantics = r1.semantics();
    let r2_semantics = r2.semantics();

    let train_semantics = gs_mutation_semantics(
        p1_semantics.0,
        r1_semantics.0,
        r2_semantics.0,
        mut_step,
    );
    let test_semantics = gs_mutation_semantics(
        p1_semantics.1,
        r1_semantics.1,
        r2_semantics.1,
        mut_step,
    );

    let mut offspring = Individual::new();
    offspring.train_semantics = Some(train_semantics);
    offspring.test_semantics = Some(test_semantics);
    offspring.evaluate(data);
    offspring.size = Some(calc_mut_offspring_size(p1, &r1, &r2));
    offspring.depth = Some(calc_mut_offspring_depth(p1, &r1, &r2));
    proof {
        assert(gsmut_shape(
            offspring,
            *p1,
            r1.core@.len() as int,
            r2.core@.len() as int,
            r1.depth->0 as int,
            r2.depth->0 as int,
        ));
    }
    offspring
}

/// The analytic node count of a mutation offspring.
fn calc_mut_offspring_size(p1: &Individual, r1: &Individual, r2: &Individual) -> (r: usize)
    requires
        p1.core@.len() > 0 || p1.size is Some,
        r1.core@.len() > 0,
        r2.core@.len() > 0,
    ensures
        r as int == sat_cap(
            p1.size_spec() + 4 + r1.core@.len() as int + r2.core@.len() as int,
        ),
{
    sat_add(sat_add(sat_add(sat_add(p1.size(), 3), r1.size()), 1), r2.size())
}

/// The analytic depth of a mutation offspring.
fn calc_mut_offspring_depth(p1: &Individual, r1: &Individual, r2: &Individual) -> (r: usize)
    requires
        p1.depth is Some,
        r1.depth is Some,
        r2.depth is Some,
    ensures
        r as int == ({
            let dm = if r1.depth->0 >= r2.depth->0 {
                r1.depth->0 as int
            } else {
                r2.depth->0 as int
            };
            let a = sat_cap(dm + 3);
            let b = sat_cap(p1.depth->0 + 1);
            if a >= b {
                a
            } else {
                b
            }
        }),
{
    let d1 = r1.depth();
    let d2 = r2.depth();
    let max_depth = if d1 >= d2 {
        d1
    } else {
        d2
    };
    let a = sat_add(max_depth, 3);
    let b = sat_add(p1.depth(), 1);
    if a >= b {
        a
    } else {
        b
    }
}

} // verus!
