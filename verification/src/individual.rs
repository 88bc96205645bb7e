//! One candidate model: a flattened expression tree with its cached
//! evaluation results.

use vstd::prelude::*;
use crate::data::Data;
use crate::errors::GpError;
use crate::node::{Node, bin_bits, un_bits};
use crate::encoding::{
    walk, is_complete, first_len, depth_of, min_leaf_depth, inputs_below, eval_bits,
    lemma_walk_bounds, lemma_walk_extend, lemma_walk_take, lemma_walk_comp, lemma_walk_prefix_some,
    lemma_subtree_at, lemma_single_terminal, lemma_compose1, lemma_compose2, lemma_depth_compose1,
    lemma_depth_compose2, lemma_inputs_below_concat, lemma_inputs_below_single,
};
use crate::utils::{rmse, rmse_bits, copy_scalars, pdiv};
use crate::fbits::{fadd, fsub, fmul, fcos, flogistic};

verus! {

/// A candidate model. `core` is the pre-order tree; the remaining fields are
/// caches filled by evaluation. A geometric-semantic offspring has an empty
/// `core` and carries analytic `size` and `depth` instead.
pub struct Individual {
    pub core: Vec<Node>,
    pub train_semantics: Option<Vec<u32>>,
    pub test_semantics: Option<Vec<u32>>,
    pub train: Option<u32>,
    pub test: Option<u32>,
    pub size: Option<usize>,
    pub depth: Option<usize>,
}

impl Individual {
    /// The tree is present and is a complete prefix encoding.
    pub open spec fn has_tree(&self) -> bool {
        self.core@.len() > 0 && is_complete(self.core@)
    }

    /// Both semantics vectors are present, one output per instance of the
    /// respective split.
    pub open spec fn semantics_ok(&self, data: &Data) -> bool {
        &&& self.train_semantics matches Some(v) && v@.len() == data.n_train()
        &&& self.test_semantics matches Some(v) && v@.len() == data.n_test()
    }

    /// Both error caches are present.
    pub open spec fn scored(&self) -> bool {
        self.train is Some && self.test is Some
    }

    /// The individual carries a tree and every cache agrees with it: the
    /// semantics are the tree's evaluation on each split, the errors are the
    /// root-mean-squared errors of those semantics against the targets, and
    /// the depth is the tree's depth.
    pub open spec fn tree_evaluated(&self, data: &Data) -> bool {
        &&& self.has_tree()
        &&& self.train_semantics matches Some(v) && v@.len() == data.n_train() && v@ == eval_bits(
            self.core@,
            data.train@,
            data.n_train(),
        )
        &&& self.test_semantics matches Some(v) && v@.len() == data.n_test() && v@ == eval_bits(
            self.core@,
            data.test@,
            data.n_test(),
        )
        &&& self.train == Some(
            rmse_bits(
                eval_bits(self.core@, data.train@, data.n_train()),
                data.train@[data.train@.len() - 1]@,
            ),
        )
        &&& self.test == Some(
            rmse_bits(
                eval_bits(self.core@, data.test@, data.n_test()),
                data.test@[data.test@.len() - 1]@,
            ),
        )
        &&& self.depth == Some(depth_of(self.core@) as usize)
    }

    /// What geometric-semantic variation needs of a parent: semantics of the
    /// right lengths, both errors, a depth, and a size.
    pub open spec fn ready_gs(&self, data: &Data) -> bool {
        &&& self.semantics_ok(data)
        &&& self.scored()
        &&& self.depth is Some
        &&& self.core@.len() > 0 || self.size is Some
    }

    /// The number of nodes this individual counts as: the tree's length when
    /// a tree is present, else the analytic size.
    pub open spec fn size_spec(&self) -> int {
        if self.core@.len() > 0 {
            self.core@.len() as int
        } else {
            self.size->0 as int
        }
    }

    /// An owned copy of a node sequence.
    pub(crate) fn copy_nodes(v: &Vec<Node>) -> (r: Vec<Node>)
        ensures
            r@ == v@,
    {
        let n = v.len();
        let mut r: Vec<Node> = Vec::new();
        let mut i: usize = 0;
        while i < n
            invariant
                i <= n,
                n == v@.len(),
                r@ == v@.take(i as int),
            decreases n - i,
        {
            r.push(v[i]);
            i += 1;
        }
        proof {
            assert(v@.take(n as int) =~= v@);
        }
        r
    }

    /// `a` carries the same tree, semantics, errors, size and depth as `b`
    /// (an independent copy: the vectors are equal in content, not aliased).
    pub open spec fn is_copy_of(a: Individual, b: Individual) -> bool {
        &&& a.core@ == b.core@
        &&& (a.train_semantics is Some <==> b.train_semantics is Some)
        &&& (a.train_semantics is Some ==> a.train_semantics->0@ == b.train_semantics->0@)
        &&& (a.test_semantics is Some <==> b.test_semantics is Some)
        &&& (a.test_semantics is Some ==> a.test_semantics->0@ == b.test_semantics->0@)
        &&& a.train == b.train
        &&& a.test == b.test
        &&& a.size == b.size
        &&& a.depth == b.depth
    }

    /// An independent copy of this individual.
    pub fn duplicate(&self) -> (r: Individual)
        ensures
            Self::is_copy_of(r, *self),
    {
        let r = Individual {
            core: Self::copy_nodes(&self.core),
            train_semantics: match &self.train_semantics {
                Some(v) => Some(copy_scalars(v)),
                None => None,
            },
            test_semantics: match &self.test_semantics {
                Some(v) => Some(copy_scalars(v)),
                None => None,
            },
            train: self.train,
            test: self.test,
            size: self.size,
            depth: self.depth,
        };
        r
    }

    /// An owned copy of the tree.
    pub fn clone_core(&self) -> (r: Vec<Node>)
        ensures
            r@ == self.core@,
    {
        Self::copy_nodes(&self.core)
    }

    pub fn train(&self) -> (r: Option<u32>)
        ensures
            r == self.train,
    {
        self.train
    }

    pub fn test(&self) -> (r: Option<u32>)
        ensures
            r == self.test,
    {
        self.test
    }

    /// Number of nodes: the tree's length, or, for a geometric-semantic
    /// offspring without a materialized tree, the analytic size.
    pub fn size(&self) -> (r: usize)
        requires
            self.core@.len() > 0 || self.size is Some,
        ensures
            r == self.size_spec(),
    {
        if self.core.len() > 0 {
            self.core.len()
        } else {
            match self.size {
                Some(s) => s,
                None => 0,
            }
        }
    }

    pub fn depth(&self) -> (r: usize)
        requires
            self.depth is Some,
        ensures
            r == self.depth->0,
    {
        match self.depth {
            Some(d) => d,
            None => 0,
        }
    }

    pub fn train_semantics(&self) -> (r: Vec<u32>)
        requires
            self.train_semantics is Some,
        ensures
            r@ == self.train_semantics->0@,
    {
        match &self.train_semantics {
            Some(v) => copy_scalars(v),
            None => Vec::new(),
        }
    }

    pub fn test_semantics(&self) -> (r: Vec<u32>)
        requires
            self.test_semantics is Some,
        ensures
            r@ == self.test_semantics->0@,
    {
        match &self.test_semantics {
            Some(v) => copy_scalars(v),
            None => Vec::new(),
        }
    }

    pub fn semantics(&self) -> (r: (Vec<u32>, Vec<u32>))
        requires
            self.train_semantics is Some,
            self.test_semantics is Some,
        ensures
            r.0@ == self.train_semantics->0@,
            r.1@ == self.test_semantics->0@,
    {
        (self.train_semantics(), self.test_semantics())
    }

    /// An empty individual, to be filled by a generator or by splicing.
    pub fn new() -> (r: Individual)
        ensures
            r.core@.len() == 0,
            r.train_semantics is None,
            r.test_semantics is None,
            r.train is None,
            r.test is None,
            r.size is None,
            r.depth is None,
    {
        Individual {
            core: Vec::new(),
            train_semantics: None,
            test_semantics: None,
            train: None,
            test: None,
            size: None,
            depth: None,
        }
    }

    /// The `full` generator's recursion: an operator at every level until
    /// the depth budget runs out, then a terminal, so every leaf sits at
    /// exactly the budget's depth.
    fn inner_full(depth_left: usize, dims: usize) -> (r: Vec<Node>)
        requires
            dims >= 1,
        ensures
            r@.len() >= 1,
            is_complete(r@),
            depth_of(r@) == depth_left,
            min_leaf_depth(r@) == depth_left,
            inputs_below(r@, dims as nat),
        decreases depth_left,
    {
        if depth_left == 0 {
            let t = Node::random_terminal(dims);
            let mut r: Vec<Node> = Vec::new();
            r.push(t);
            proof {
                assert(r@ =~= seq![t]);
                lemma_single_terminal(t);
                lemma_inputs_below_single(t, dims as nat);
            }
            r
        } else {
            let f = Node::get_random_functional();
            let a = f.arity();
            let mut r: Vec<Node> = Vec::new();
            r.push(f);
            let mut c1 = Self::inner_full(depth_left - 1, dims);
            let ghost c1s = c1@;
            r.append(&mut c1);
            if a == 2 {
                let mut c2 = Self::inner_full(depth_left - 1, dims);
                let ghost c2s = c2@;
                r.append(&mut c2);
                proof {
                    assert(r@ =~= seq![f] + c1s + c2s);
                    lemma_compose2(f, c1s, c2s);
                    lemma_depth_compose2(f, c1s, c2s);
                    lemma_inputs_below_single(f, dims as nat);
                    lemma_inputs_below_concat(seq![f], c1s, dims as nat);
                    lemma_inputs_below_concat(seq![f] + c1s, c2s, dims as nat);
                }
            } else {
                proof {
                    assert(r@ =~= seq![f] + c1s);
                    lemma_compose1(f, c1s);
                    lemma_depth_compose1(f, c1s);
                    lemma_inputs_below_single(f, dims as nat);
                    lemma_inputs_below_concat(seq![f], c1s, dims as nat);
                }
            }
            r
        }
    }

    /// The `grow` generator's recursion: below the depth budget a coin picks
    /// between an operator and an early terminal, so no leaf sits deeper
    /// than the budget.
    fn inner_grow(depth_left: usize, dims: usize) -> (r: Vec<Node>)
        requires
            dims >= 1,
        ensures
            r@.len() >= 1,
            is_complete(r@),
            depth_of(r@) <= depth_left,
            inputs_below(r@, dims as nat),
        decreases depth_left,
    {
        if depth_left == 0 {
            let t = Node::random_terminal(dims);
            let mut r: Vec<Node> = Vec::new();
            r.push(t);
            proof {
                assert(r@ =~= seq![t]);
                lemma_single_terminal(t);
                lemma_inputs_below_single(t, dims as nat);
            }
            r
        } else if crate::rng::rand_flip() {
            let f = Node::get_random_functional();
            let a = f.arity();
            let mut r: Vec<Node> = Vec::new();
            r.push(f);
            let mut c1 = Self::inner_grow(depth_left - 1, dims);
            let ghost c1s = c1@;
            r.append(&mut c1);
            if a == 2 {
                let mut c2 = Self::inner_grow(depth_left - 1, dims);
                let ghost c2s = c2@;
                r.append(&mut c2);
                proof {
                    assert(r@ =~= seq![f] + c1s + c2s);
                    lemma_compose2(f, c1s, c2s);
                    lemma_depth_compose2(f, c1s, c2s);
                    lemma_inputs_below_single(f, dims as nat);
                    lemma_inputs_below_concat(seq![f], c1s, dims as nat);
                    lemma_inputs_below_concat(seq![f] + c1s, c2s, dims as nat);
                }
            } else {
                proof {
                    assert(r@ =~= seq![f] + c1s);
                    lemma_compose1(f, c1s);
                    lemma_depth_compose1(f, c1s);
                    lemma_inputs_below_single(f, dims as nat);
                    lemma_inputs_below_concat(seq![f], c1s, dims as nat);
                }
            }
            r
        } else {
            let t = Node::random_terminal(dims);
            let mut r: Vec<Node> = Vec::new();
            r.push(t);
            proof {
                assert(r@ =~= seq![t]);
                lemma_single_terminal(t);
                lemma_inputs_below_single(t, dims as nat);
            }
            r
        }
    }

    /// Generate a random individual with the `full` method: a complete tree
    /// in which every leaf sits at depth exactly `max_depth`.
    pub fn full(max_depth: usize, data_ref: &Data) -> (r: Individual)
        requires
            data_ref.wf(),
        ensures
            r.has_tree(),
            depth_of(r.core@) == max_depth,
            min_leaf_depth(r.core@) == max_depth,
            inputs_below(r.core@, data_ref.dimensions as nat),
            r.train_semantics is None,
            r.test_semantics is None,
            r.train is None,
            r.test is None,
            r.size is None,
            r.depth is None,
    {
        let mut i = Individual::new();
        i.core = Self::inner_full(max_depth, data_ref.dims());
        i
    }

    /// Generate a random individual with the `grow` method: a complete tree
    /// in which no leaf sits deeper than `max_depth`.
    pub fn grow(max_depth: usize, data_ref: &Data) -> (r: Individual)
        requires
            data_ref.wf(),
        ensures
            r.has_tree(),
            depth_of(r.core@) <= max_depth,
            inputs_below(r.core@, data_ref.dimensions as nat),
            r.train_semantics is None,
            r.test_semantics is None,
            r.train is None,
            r.test is None,
            r.size is None,
            r.depth is None,
    {
        let mut i = Individual::new();
        i.core = Self::inner_grow(max_depth, data_ref.dims());
        i
    }

    /// Prepends one node to the tree (used to bound a random tree with
    /// `LogFunction` for geometric-semantic variation).
    pub fn prepend_node(&mut self, node: Node)
        ensures
            final(self).core@ == seq![node] + old(self).core@,
            final(self).train_semantics == old(self).train_semantics,
            final(self).test_semantics == old(self).test_semantics,
            final(self).train == old(self).train,
            final(self).test == old(self).test,
            final(self).size == old(self).size,
            final(self).depth == old(self).depth,
    {
        self.core.insert(0, node);
        proof {
            assert(self.core@ =~= seq![node] + old(self).core@);
        }
    }

    /// Extends the tree with the given nodes: the sole mutation primitive
    /// offspring are assembled from.
    pub fn plug_in_core(&mut self, nodes: Vec<Node>)
        ensures
            final(self).core@ == old(self).core@ + nodes@,
            final(self).train_semantics == old(self).train_semantics,
            final(self).test_semantics == old(self).test_semantics,
            final(self).train == old(self).train,
            final(self).test == old(self).test,
            final(self).size == old(self).size,
            final(self).depth == old(self).depth,
    {
        let n = nodes.len();
        let mut i: usize = 0;
        while i < n
            invariant
                i <= n,
                n == nodes@.len(),
                self.core@ == old(self).core@ + nodes@.take(i as int),
                self.train_semantics == old(self).train_semantics,
                self.test_semantics == old(self).test_semantics,
                self.train == old(self).train,
                self.test == old(self).test,
                self.size == old(self).size,
                self.depth == old(self).depth,
            decreases n - i,
        {
            self.core.push(nodes[i]);
            proof {
                assert(old(self).core@ + nodes@.take(i as int) + seq![nodes@[i as int]] =~= old(
                    self,
                ).core@ + nodes@.take(i as int + 1));
            }
            i += 1;
        }
        proof {
            assert(nodes@.take(n as int) =~= nodes@);
        }
    }

    /// A copy of the nodes strictly before `excluding_node_at`.
    pub fn outer_left_copy(&self, excluding_node_at: usize) -> (r: Vec<Node>)
        requires
            excluding_node_at <= self.core@.len(),
        ensures
            r@ == self.core@.take(excluding_node_at as int),
    {
        let mut r: Vec<Node> = Vec::new();
        let mut i: usize = 0;
        while i < excluding_node_at
            invariant
                i <= excluding_node_at <= self.core@.len(),
                r@ == self.core@.subrange(0, i as int),
            decreases excluding_node_at - i,
        {
            r.push(self.core[i]);
            proof {
                assert(self.core@.subrange(0, i as int) + seq![self.core@[i as int]]
                    =~= self.core@.subrange(0, i as int + 1));
            }
            i += 1;
        }
        r
    }

    /// A copy of the nodes from `including_node_at` to the end.
    pub fn outer_right_copy(&self, including_node_at: usize) -> (r: Vec<Node>)
        requires
            including_node_at <= self.core@.len(),
        ensures
            r@ == self.core@.skip(including_node_at as int),
    {
        let n = self.core.len();
        let mut r: Vec<Node> = Vec::new();
        let mut i: usize = including_node_at;
        while i < n
            invariant
                including_node_at <= i <= n,
                n == self.core@.len(),
                r@ == self.core@.subrange(including_node_at as int, i as int),
            decreases n - i,
        {
            r.push(self.core[i]);
            proof {
                assert(self.core@.subrange(including_node_at as int, i as int) + seq![
                    self.core@[i as int],
                ] =~= self.core@.subrange(including_node_at as int, i as int + 1));
            }
            i += 1;
        }
        r
    }

    /// A copy of `subtree_nodes` nodes starting at `from_node`.
    pub fn copy_subtree(&self, from_node: usize, subtree_nodes: usize) -> (r: Vec<Node>)
        requires
            from_node + subtree_nodes <= self.core@.len(),
        ensures
            r@ == self.core@.subrange(from_node as int, from_node as int + subtree_nodes as int),
    {
        let n = self.core.len();
        let mut r: Vec<Node> = Vec::new();
        let mut i: usize = from_node;
        while i < from_node + subtree_nodes
            invariant
                from_node + subtree_nodes <= n,
                n == self.core@.len(),
                from_node <= i <= from_node + subtree_nodes <= self.core@.len(),
                r@ == self.core@.subrange(from_node as int, i as int),
            decreases from_node + subtree_nodes - i,
        {
            r.push(self.core[i]);
            proof {
                assert(self.core@.subrange(from_node as int, i as int) + seq![
                    self.core@[i as int],
                ] =~= self.core@.subrange(from_node as int, i as int + 1));
            }
            i += 1;
        }
        r
    }

    /// The extent of the subtree rooted at `start`: this recursion is the
    /// arity-driven pre-order walk itself, so the result is exactly what
    /// `walk` consumes from `start` for one pending subtree.
    fn subtree_size_rec(core: &Vec<Node>, start: usize) -> (r: usize)
        requires
            start < core@.len(),
            walk(core@.skip(start as int), 1) is Some,
        ensures
            r as int == walk(core@.skip(start as int), 1)->0,
            1 <= r,
            start + r <= core@.len(),
        decreases core@.len() - start,
    {
        let len = core.len();
        proof {
            lemma_walk_bounds(core@.skip(start as int), 1);
            assert(core@.skip(start as int)[0] == core@[start as int]);
            assert(core@.skip(start as int).skip(1) =~= core@.skip(start as int + 1));
        }
        let node = core[start];
        let a = node.arity();
        if a == 0 {
            proof {
                assert(walk(core@.skip(start as int + 1), 0) == Some(0int));
            }
            1
        } else if a == 1 {
            proof {
                assert(walk(core@.skip(start as int + 1), 1) is Some);
                lemma_walk_bounds(core@.skip(start as int + 1), 1);
            }
            let m1 = Self::subtree_size_rec(core, start + 1);
            1 + m1
        } else {
            proof {
                assert(a == 2);
                assert(walk(core@.skip(start as int + 1), 2) is Some);
                lemma_walk_prefix_some(core@.skip(start as int + 1), 1, 1);
                lemma_walk_bounds(core@.skip(start as int + 1), 1);
            }
            let m1 = Self::subtree_size_rec(core, start + 1);
            proof {
                lemma_walk_comp(core@.skip(start as int + 1), 1, 1);
                assert(core@.skip(start as int + 1).skip(m1 as int) =~= core@.skip(
                    start as int + 1 + m1,
                ));
                lemma_walk_bounds(core@.skip(start as int + 1 + m1), 1);
            }
            let m2 = Self::subtree_size_rec(core, start + 1 + m1);
            1 + m1 + m2
        }
    }

    /// The depth computation's recursion: walks the subtree rooted at
    /// `start` with the shared cursor, returning its extent and its depth.
    fn inner_compute_depth(core: &Vec<Node>, start: usize) -> (res: (usize, usize))
        requires
            start < core@.len(),
            walk(core@.skip(start as int), 1) is Some,
        ensures
            res.0 as int == walk(core@.skip(start as int), 1)->0,
            1 <= res.0,
            start + res.0 <= core@.len(),
            res.1 < res.0,
            res.1 as nat == depth_of(
                core@.subrange(start as int, start as int + res.0 as int),
            ),
        decreases core@.len() - start,
    {
        let len = core.len();
        proof {
            lemma_walk_bounds(core@.skip(start as int), 1);
            assert(core@.skip(start as int)[0] == core@[start as int]);
            assert(core@.skip(start as int).skip(1) =~= core@.skip(start as int + 1));
        }
        let node = core[start];
        let a = node.arity();
        if a == 0 {
            proof {
                assert(walk(core@.skip(start as int + 1), 0) == Some(0int));
                assert(core@.subrange(start as int, start as int + 1).len() == 1);
            }
            (1, 0)
        } else if a == 1 {
            proof {
                assert(walk(core@.skip(start as int + 1), 1) is Some);
                lemma_walk_bounds(core@.skip(start as int + 1), 1);
            }
            let (m1, d1) = Self::inner_compute_depth(core, start + 1);
            proof {
                let c1 = core@.subrange(start as int + 1, start as int + 1 + m1 as int);
                lemma_walk_take(core@.skip(start as int + 1), 1);
                assert(core@.skip(start as int + 1).take(m1 as int) =~= c1);
                lemma_depth_compose1(node, c1);
                assert(core@.subrange(start as int, start as int + 1 + m1 as int) =~= seq![node]
                    + c1);
            }
            (1 + m1, 1 + d1)
        } else {
            proof {
                assert(a == 2);
                assert(walk(core@.skip(start as int + 1), 2) is Some);
                lemma_walk_prefix_some(core@.skip(start as int + 1), 1, 1);
                lemma_walk_bounds(core@.skip(start as int + 1), 1);
            }
            let (m1, d1) = Self::inner_compute_depth(core, start + 1);
            proof {
                lemma_walk_comp(core@.skip(start as int + 1), 1, 1);
                assert(core@.skip(start as int + 1).skip(m1 as int) =~= core@.skip(
                    start as int + 1 + m1,
                ));
                lemma_walk_bounds(core@.skip(start as int + 1 + m1), 1);
            }
            let (m2, d2) = Self::inner_compute_depth(core, start + 1 + m1);
            let d = if d1 >= d2 {
                d1
            } else {
                d2
            };
            proof {
                let c1 = core@.subrange(start as int + 1, start as int + 1 + m1 as int);
                let c2 = core@.subrange(
                    start as int + 1 + m1 as int,
                    start as int + 1 + m1 as int + m2 as int,
                );
                lemma_walk_take(core@.skip(start as int + 1), 1);
                assert(core@.skip(start as int + 1).take(m1 as int) =~= c1);
                lemma_walk_take(core@.skip(start as int + 1 + m1), 1);
                assert(core@.skip(start as int + 1 + m1).take(m2 as int) =~= c2);
                lemma_depth_compose2(node, c1, c2);
                assert(core@.subrange(start as int, start as int + 1 + m1 as int + m2 as int)
                    =~= seq![node] + c1 + c2);
            }
            (1 + m1 + m2, 1 + d)
        }
    }

    /// Computes `depth` by a recursive pre-order pass. Recomputing a depth
    /// that is already cached is a no-op (the cache may be the analytic
    /// depth of a geometric-semantic offspring and must not be clobbered).
    pub fn compute_depth(&mut self)
        requires
            old(self).depth is Some || old(self).has_tree(),
        ensures
            final(self).depth == (if old(self).depth is Some {
                old(self).depth
            } else {
                Some(depth_of(old(self).core@) as usize)
            }),
            final(self).core@ == old(self).core@,
            final(self).train_semantics == old(self).train_semantics,
            final(self).test_semantics == old(self).test_semantics,
            final(self).train == old(self).train,
            final(self).test == old(self).test,
            final(self).size == old(self).size,
    {
        match self.depth {
            Some(_) => {},
            None => {
                proof {
                    assert(self.core@.skip(0) =~= self.core@);
                }
                let (m, d) = Self::inner_compute_depth(&self.core, 0);
                proof {
                    assert(m as int == self.core@.len() as int);
                    assert(self.core@.subrange(0, m as int) =~= self.core@);
                }
                self.depth = Some(d);
            },
        }
    }

    /// Elementwise application of a binary operator to two output vectors.
    fn apply_bin(n: Node, x: &Vec<u32>, y: &Vec<u32>) -> (r: Vec<u32>)
        requires
            n.arity_spec() == 2,
            x@.len() == y@.len(),
        ensures
            r@ == Seq::new(x@.len(), |i: int| bin_bits(n, x@[i], y@[i])),
    {
        let len = x.len();
        let mut r: Vec<u32> = Vec::new();
        let mut i: usize = 0;
        while i < len
            invariant
                i <= len,
                len == x@.len(),
                y@.len() == len,
                n.arity_spec() == 2,
                r@.len() == i,
                forall|j: int| 0 <= j < i ==> r@[j] == bin_bits(n, x@[j], y@[j]),
            decreases len - i,
        {
            let v = match n {
                Node::Addition => fadd(x[i], y[i]),
                Node::Subtraction => fsub(x[i], y[i]),
                Node::Multiplication => fmul(x[i], y[i]),
                Node::Division => pdiv(x[i], y[i]),
                _ => {
                    proof {
                        assert(false);
                    }
                    x[i]
                },
            };
            r.push(v);
            i += 1;
        }
        proof {
            assert(r@ =~= Seq::new(x@.len(), |i: int| bin_bits(n, x@[i], y@[i])));
        }
        r
    }

    /// Elementwise application of a unary operator to an output vector.
    fn apply_un(n: Node, x: &Vec<u32>) -> (r: Vec<u32>)
        requires
            n.arity_spec() == 1,
        ensures
            r@ == Seq::new(x@.len(), |i: int| un_bits(n, x@[i])),
    {
        let len = x.len();
        let mut r: Vec<u32> = Vec::new();
        let mut i: usize = 0;
        while i < len
            invariant
                i <= len,
                len == x@.len(),
                n.arity_spec() == 1,
                r@.len() == i,
                forall|j: int| 0 <= j < i ==> r@[j] == un_bits(n, x@[j]),
            decreases len - i,
        {
            let v = match n {
                Node::Cosine => fcos(x[i]),
                Node::LogFunction => flogistic(x[i]),
                _ => {
                    proof {
                        assert(false);
                    }
                    x[i]
                },
            };
            r.push(v);
            i += 1;
        }
        proof {
            assert(r@ =~= Seq::new(x@.len(), |i: int| un_bits(n, x@[i])));
        }
        r
    }

    /// A vector of `n` copies of one scalar (a constant's semantics).
    fn broadcast_scalar(c: u32, n: usize) -> (r: Vec<u32>)
        ensures
            r@ == Seq::new(n as nat, |i: int| c),
    {
        let mut r: Vec<u32> = Vec::new();
        let mut i: usize = 0;
        while i < n
            invariant
                i <= n,
                r@.len() == i,
                forall|j: int| 0 <= j < i ==> r@[j] == c,
            decreases n - i,
        {
            r.push(c);
            i += 1;
        }
        proof {
            assert(r@ =~= Seq::new(n as nat, |i: int| c));
        }
        r
    }

    /// The evaluation recursion: computes the per-instance outputs of the
    /// subtree rooted at `start` over the column-major matrix `df`, with a
    /// shared pre-order cursor (terminals short-circuit; an operator first
    /// evaluates exactly `arity()` children). Returns the subtree's extent
    /// and its output vector.
    fn output(core: &Vec<Node>, start: usize, df: &Vec<Vec<u32>>, ninst: usize) -> (res: (
        usize,
        Vec<u32>,
    ))
        requires
            start < core@.len(),
            walk(core@.skip(start as int), 1) is Some,
            inputs_below(core@, df@.len() as nat),
            forall|i: int| 0 <= i < df@.len() ==> (#[trigger] df@[i])@.len() == ninst,
        ensures
            res.0 as int == walk(core@.skip(start as int), 1)->0,
            1 <= res.0,
            start + res.0 <= core@.len(),
            res.1@.len() == ninst,
            res.1@ == eval_bits(
                core@.subrange(start as int, start as int + res.0 as int),
                df@,
                ninst as nat,
            ),
        decreases core@.len() - start,
    {
        let len = core.len();
        proof {
            lemma_walk_bounds(core@.skip(start as int), 1);
            assert(core@.skip(start as int)[0] == core@[start as int]);
            assert(core@.skip(start as int).skip(1) =~= core@.skip(start as int + 1));
        }
        let node = core[start];
        let a = node.arity();
        if a == 0 {
            proof {
                assert(walk(core@.skip(start as int + 1), 0) == Some(0int));
            }
            let ghost slice = core@.subrange(start as int, start as int + 1);
            proof {
                assert(slice.len() == 1 && slice[0] == node);
            }
            match node {
                Node::Constant(c) => {
                    let v = Self::broadcast_scalar(c, ninst);
                    (1, v)
                },
                Node::Input(j) => {
                    proof {
                        assert(core@[start as int] matches Node::Input(jj) ==> jj < df@.len());
                    }
                    let v = copy_scalars(&df[j]);
                    proof {
                        assert(v@.len() == ninst);
                    }
                    (1, v)
                },
                _ => {
                    proof {
                        assert(false);
                    }
                    (1, Vec::new())
                },
            }
        } else if a == 1 {
            proof {
                assert(walk(core@.skip(start as int + 1), 1) is Some);
                lemma_walk_bounds(core@.skip(start as int + 1), 1);
            }
            let (m1, v1) = Self::output(core, start + 1, df, ninst);
            let r = Self::apply_un(node, &v1);
            proof {
                let slice = core@.subrange(start as int, start as int + 1 + m1 as int);
                let c1 = core@.subrange(start as int + 1, start as int + 1 + m1 as int);
                assert(slice[0] == node);
                assert(slice.skip(1) =~= c1);
                assert(v1@ == eval_bits(slice.skip(1), df@, ninst as nat));
                assert(r@ =~= Seq::new(
                    ninst as nat,
                    |i: int| un_bits(slice[0], eval_bits(slice.skip(1), df@, ninst as nat)[i]),
                ));
                assert(r@ == eval_bits(slice, df@, ninst as nat));
            }
            (1 + m1, r)
        } else {
            proof {
                assert(a == 2);
                assert(walk(core@.skip(start as int + 1), 2) is Some);
                lemma_walk_prefix_some(core@.skip(start as int + 1), 1, 1);
                lemma_walk_bounds(core@.skip(start as int + 1), 1);
            }
            let (m1, v1) = Self::output(core, start + 1, df, ninst);
            proof {
                lemma_walk_comp(core@.skip(start as int + 1), 1, 1);
                assert(core@.skip(start as int + 1).skip(m1 as int) =~= core@.skip(
                    start as int + 1 + m1,
                ));
                lemma_walk_bounds(core@.skip(start as int + 1 + m1), 1);
            }
            let (m2, v2) = Self::output(core, start + 1 + m1, df, ninst);
            let r = Self::apply_bin(node, &v1, &v2);
            proof {
                let slice = core@.subrange(
                    start as int,
                    start as int + 1 + m1 as int + m2 as int,
                );
                let c1 = core@.subrange(start as int + 1, start as int + 1 + m1 as int);
                let c2 = core@.subrange(
                    start as int + 1 + m1 as int,
                    start as int + 1 + m1 as int + m2 as int,
                );
                assert(slice.len() == 1 + m1 + m2);
                assert(slice[0] == node);
                assert(slice.skip(1) =~= c1 + c2);
                lemma_walk_take(core@.skip(start as int + 1), 1);
                assert(core@.skip(start as int + 1).take(m1 as int) =~= c1);
                lemma_walk_extend(c1, c2, 1);
                assert(first_len(slice.skip(1)) == m1 as int);
                assert(slice.subrange(1, 1 + m1 as int) =~= c1);
                assert(slice.subrange(1 + m1 as int, slice.len() as int) =~= c2);
                assert(v1@ == eval_bits(slice.subrange(1, 1 + m1 as int), df@, ninst as nat));
                assert(v2@ == eval_bits(
                    slice.subrange(1 + m1 as int, slice.len() as int),
                    df@,
                    ninst as nat,
                ));
                assert(r@ =~= Seq::new(
                    ninst as nat,
                    |i: int|
                        bin_bits(
                            slice[0],
                            eval_bits(slice.subrange(1, 1 + m1 as int), df@, ninst as nat)[i],
                            eval_bits(
                                slice.subrange(1 + m1 as int, slice.len() as int),
                                df@,
                                ninst as nat,
                            )[i],
                        ),
                ));
                assert(r@ == eval_bits(slice, df@, ninst as nat));
            }
            (1 + m1 + m2, r)
        }
    }

    /// Computes the train and test semantics: the recursive bottom-up
    /// evaluation of the tree over both splits. Fails with `EmptyTree`,
    /// touching nothing, when there is no tree to evaluate.
    pub fn compute_semantics(&mut self, data: &Data) -> (r: Result<(), GpError>)
        requires
            old(self).core@.len() > 0 ==> is_complete(old(self).core@) && inputs_below(
                old(self).core@,
                data.dimensions as nat,
            ),
            data.wf(),
        ensures
            (r is Ok) <==> old(self).core@.len() > 0,
            r is Err ==> *final(self) == *old(self) && r == Err::<(), GpError>(GpError::EmptyTree),
            final(self).core@ == old(self).core@,
            r is Ok ==> (final(self).train_semantics matches Some(v) && v@.len()
                == data.n_train() && v@ == eval_bits(old(self).core@, data.train@, data.n_train())),
            r is Ok ==> (final(self).test_semantics matches Some(v) && v@.len() == data.n_test()
                && v@ == eval_bits(old(self).core@, data.test@, data.n_test())),
            final(self).train == old(self).train,
            final(self).test == old(self).test,
            final(self).size == old(self).size,
            final(self).depth == old(self).depth,
    {
        if self.core.len() == 0 {
            return Err(GpError::EmptyTree);
        }
        proof {
            assert(self.core@.skip(0) =~= self.core@);
            assert forall|i: int| 0 <= i < self.core@.len() implies (#[trigger] self.core@[i]
                matches Node::Input(j) ==> j < data.train@.len()) by {
                assert(self.core@[i] matches Node::Input(j) ==> j < data.dimensions);
            }
            assert forall|i: int| 0 <= i < self.core@.len() implies (#[trigger] self.core@[i]
                matches Node::Input(j) ==> j < data.test@.len()) by {
                assert(self.core@[i] matches Node::Input(j) ==> j < data.dimensions);
            }
        }
        let n_train = data.train[0].len();
        let (m1, tr) = Self::output(&self.core, 0, &data.train, n_train);
        proof {
            assert(m1 as int == self.core@.len() as int);
            assert(self.core@.subrange(0, m1 as int) =~= self.core@);
        }
        self.train_semantics = Some(tr);
        let n_test = data.test[0].len();
        let (m2, te) = Self::output(&self.core, 0, &data.test, n_test);
        proof {
            assert(m2 as int == self.core@.len() as int);
            assert(self.core@.subrange(0, m2 as int) =~= self.core@);
        }
        self.test_semantics = Some(te);
        Ok(())
    }

    /// Computes the training and test errors: the root-mean-squared error of
    /// each semantics vector against its split's target column.
    pub fn evaluate(&mut self, data: &Data)
        requires
            data.wf(),
            old(self).semantics_ok(data),
        ensures
            final(self).core@ == old(self).core@,
            final(self).train_semantics == old(self).train_semantics,
            final(self).test_semantics == old(self).test_semantics,
            final(self).size == old(self).size,
            final(self).depth == old(self).depth,
            final(self).train == Some(
                rmse_bits(
                    old(self).train_semantics->0@,
                    data.train@[data.train@.len() - 1]@,
                ),
            ),
            final(self).test == Some(
                rmse_bits(old(self).test_semantics->0@, data.test@[data.test@.len() - 1]@),
            ),
    {
        let tr = match &self.train_semantics {
            Some(v) => rmse(v, data.train_targets()),
            None => {
                proof {
                    assert(false);
                }
                0
            },
        };
        self.train = Some(tr);
        let te = match &self.test_semantics {
            Some(v) => rmse(v, data.test_targets()),
            None => {
                proof {
                    assert(false);
                }
                0
            },
        };
        self.test = Some(te);
    }

    /// The number of nodes of the subtree rooted at `starting_index`: one
    /// for the node itself plus the extents of its `arity()` children, found
    /// by the recursive pre-order walk.
    pub fn count_subtree_nodes(&self, starting_index: usize) -> (r: usize)
        requires
            self.has_tree(),
            starting_index < self.core@.len(),
        ensures
            Some(r as int) == walk(self.core@.skip(starting_index as int), 1),
            1 <= r,
            starting_index + r <= self.core@.len(),
            is_complete(
                self.core@.subrange(starting_index as int, starting_index as int + r as int),
            ),
    {
        proof {
            lemma_subtree_at(self.core@, 1, starting_index as int);
        }
        let r = Self::subtree_size_rec(&self.core, starting_index);
        proof {
            lemma_walk_take(self.core@.skip(starting_index as int), 1);
            assert(self.core@.skip(starting_index as int).take(r as int) =~= self.core@.subrange(
                starting_index as int,
                starting_index as int + r as int,
            ));
        }
        r
    }
}

} // verus!
