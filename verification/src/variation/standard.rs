//! Standard (structural) variation: sub-tree exchange and sub-tree
//! replacement on the flattened encoding.

use vstd::prelude::*;
use crate::data::Data;
use crate::node::Node;
use crate::individual::Individual;
use crate::encoding::{
    walk, is_complete, depth_of, inputs_below, splice_of, lemma_replace,
    lemma_inputs_below_concat, lemma_inputs_below_sub,
};
use crate::rng::rand_below;

verus! {

/// Splices `mid` (a complete subtree over the same variables) into `parent`
/// in place of the subtree spanning `[point, point + extent)`, then
/// evaluates the spliced offspring. The offspring's tree is proved complete:
/// this is what keeps every structural walk over it in bounds.
fn splice_and_evaluate(
    parent: &Individual,
    point: usize,
    extent: usize,
    mid: Vec<Node>,
    data: &Data,
) -> (off: Individual)
    requires
        data.wf(),
        parent.has_tree(),
        inputs_below(parent.core@, data.dimensions as nat),
        point < parent.core@.len(),
        walk(parent.core@.skip(point as int), 1) == Some(extent as int),
        point + extent <= parent.core@.len(),
        is_complete(mid@),
        mid@.len() >= 1,
        inputs_below(mid@, data.dimensions as nat),
    ensures
        off.tree_evaluated(data),
        inputs_below(off.core@, data.dimensions as nat),
        off.size == Some(off.core@.len() as usize),
        splice_of(off.core@, parent.core@, mid@, point as int, point as int + extent as int),
{
    let ghost mids = mid@;
    let parent_len = parent.core.len();
    proof {
        assert(point + extent <= parent_len);
    }
    let mut offspring = Individual::new();
    let left = parent.outer_left_copy(point);
    let right = parent.outer_right_copy(point + extent);
    offspring.plug_in_core(left);
    offspring.plug_in_core(mid);
    offspring.plug_in_core(right);
    proof {
        let p = parent.core@;
        let i = point as int;
        let e = point as int + extent as int;
        assert(offspring.core@ =~= p.take(i) + mids + p.skip(e));
        lemma_replace(p, 1, i, mids);
        assert(walk(offspring.core@, 1) == Some(i + mids.len() + (p.len() - i - (e - i))));
        assert(offspring.core@.len() == i + mids.len() + (p.len() - e));
        assert(is_complete(offspring.core@));
        lemma_inputs_below_sub(p, data.dimensions as nat, 0, i);
        assert(p.subrange(0, i) =~= p.take(i));
        lemma_inputs_below_sub(p, data.dimensions as nat, e, p.len() as int);
        assert(p.subrange(e, p.len() as int) =~= p.skip(e));
        lemma_inputs_below_concat(p.take(i), mids, data.dimensions as nat);
        lemma_inputs_below_concat(p.take(i) + mids, p.skip(e), data.dimensions as nat);
        assert((p.take(i) + mids) + p.skip(e) =~= p.take(i) + mids + p.skip(e));
    }
    let _ = offspring.compute_semantics(data);
    offspring.evaluate(data);
    offspring.size = Some(offspring.core.len());
    offspring.compute_depth();
    offspring
}

/// Standard crossover: a random crossover point in each parent; the
/// offspring is the first parent with its chosen subtree replaced by the
/// second parent's chosen subtree, evaluated against the dataset. The
/// offspring's tree is always a complete prefix encoding.
pub fn crossover(p1: &Individual, p2: &Individual, data: &Data) -> (off: Individual)
    requires
        data.wf(),
        p1.has_tree(),
        inputs_below(p1.core@, data.dimensions as nat),
        p2.has_tree(),
        inputs_below(p2.core@, data.dimensions as nat),
    ensures
        off.tree_evaluated(data),
        inputs_below(off.core@, data.dimensions as nat),
        off.size == Some(off.core@.len() as usize),
        exists|i: int, e: int, i2: int, e2: int|
            #![trigger splice_of(off.core@, p1.core@, p2.core@.subrange(i2, e2), i, e)]
            0 <= i2 <= e2 <= p2.core@.len() && splice_of(
                off.core@,
                p1.core@,
                p2.core@.subrange(i2, e2),
                i,
                e,
            ),
{
    let xo_point_p1 = rand_below(p1.size());
    let xo_point_p2 = rand_below(p2.size());
    let subnodes_p1 = p1.count_subtree_nodes(xo_point_p1);
    let subnodes_p2 = p2.count_subtree_nodes(xo_point_p2);
    let p2_subtree_copy = p2.copy_subtree(xo_point_p2, subnodes_p2);
    proof {
        lemma_inputs_below_sub(
            p2.core@,
            data.dimensions as nat,
            xo_point_p2 as int,
            xo_point_p2 as int + subnodes_p2 as int,
        );
    }
    let off = splice_and_evaluate(p1, xo_point_p1, subnodes_p1, p2_subtree_copy, data);
    proof {
        assert(splice_of(
            off.core@,
            p1.core@,
            p2.core@.subrange(xo_point_p2 as int, xo_point_p2 as int + subnodes_p2 as int),
            xo_point_p1 as int,
            xo_point_p1 as int + subnodes_p1 as int,
        ));
    }
    off
}

/// Standard mutation: a random point in the parent; the subtree there is
/// replaced by a freshly grown tree of maximum depth 6 (no depth limit is
/// imposed on the offspring), and the offspring is evaluated.
pub fn mutation(p1: &Individual, data: &Data) -> (off: Individual)
    requires
        data.wf(),
        p1.has_tree(),
        inputs_below(p1.core@, data.dimensions as nat),
    ensures
        off.tree_evaluated(data),
        inputs_below(off.core@, data.dimensions as nat),
        off.size == Some(off.core@.len() as usize),
        exists|i: int, e: int, mid: Seq<Node>|
            #![trigger splice_of(off.core@, p1.core@, mid, i, e)]
            depth_of(mid) <= 6 && splice_of(off.core@, p1.core@, mid, i, e),
{
    let mutation_point = rand_below(p1.size());
    let subnodes_p1 = p1.count_subtree_nodes(mutation_point);
    let replacement = Individual::grow(6, data);
    let mid = replacement.clone_core();
    let off = splice_and_evaluate(p1, mutation_point, subnodes_p1, mid, data);
    off
}

} // verus!
