//! The prefix (pre-order) tree encoding and its laws.
//!
//! A tree is a flat sequence of nodes in pre-order: every operator is
//! immediately followed by as many complete subtrees as its arity. `walk`
//! is the arity-driven cursor that reconstructs structure: it says how many
//! nodes a pre-order walk consumes to complete a given number of pending
//! subtrees. A sequence is a complete encoding exactly when one pending
//! subtree consumes the whole sequence.

use vstd::prelude::*;
use crate::node::Node;

verus! {

/// How many nodes a pre-order walk starting at the front of `s` consumes to
/// complete `pending` subtrees; `None` when `s` runs out first.
pub open spec fn walk(s: Seq<Node>, pending: nat) -> Option<int>
    decreases s.len(),
{
    if pending == 0 {
        Some(0)
    } else if s.len() == 0 {
        None::<int>
    } else {
        match walk(s.skip(1), (pending - 1 + s[0].arity_spec()) as nat) {
            Some(m) => Some(m + 1),
            None => None::<int>,
        }
    }
}

/// `s` is one complete subtree: the walk for one pending subtree consumes
/// exactly the whole sequence.
pub open spec fn is_complete(s: Seq<Node>) -> bool {
    walk(s, 1) == Some(s.len() as int)
}

/// The extent of the first subtree of `s` (0 when there is none).
pub open spec fn first_len(s: Seq<Node>) -> int {
    match walk(s, 1) {
        Some(m) => m,
        None => 0,
    }
}

/// A successful walk consumes at least one node per pending subtree and at
/// most the whole sequence.
pub proof fn lemma_walk_bounds(s: Seq<Node>, k: nat)
    requires
        walk(s, k) is Some,
    ensures
        k <= walk(s, k)->0 <= s.len(),
    decreases s.len(),
{
    if k == 0 {
    } else {
        lemma_walk_bounds(s.skip(1), (k - 1 + s[0].arity_spec()) as nat);
    }
}

/// What a walk consumes is decided by the consumed prefix alone: appending
/// more nodes after a complete walk does not change it.
pub proof fn lemma_walk_extend(s: Seq<Node>, t: Seq<Node>, k: nat)
    requires
        walk(s, k) == Some(s.len() as int),
    ensures
        walk(s + t, k) == Some(s.len() as int),
    decreases s.len(),
{
    if k == 0 {
        assert(s.len() == 0);
        assert(s + t =~= t);
    } else {
        assert(s.len() > 0);
        assert((s + t).skip(1) =~= s.skip(1) + t);
        lemma_walk_extend(s.skip(1), t, (k - 1 + s[0].arity_spec()) as nat);
    }
}

/// A walk restricted to exactly what it consumed is a complete walk.
pub proof fn lemma_walk_take(s: Seq<Node>, k: nat)
    requires
        walk(s, k) is Some,
    ensures
        walk(s.take(walk(s, k)->0), k) == Some(walk(s, k)->0),
    decreases s.len(),
{
    if k == 0 {
        assert(s.take(0) =~= Seq::<Node>::empty());
    } else {
        let m = walk(s, k)->0;
        lemma_walk_bounds(s, k);
        lemma_walk_take(s.skip(1), (k - 1 + s[0].arity_spec()) as nat);
        assert(s.take(m).skip(1) =~= s.skip(1).take(m - 1));
        assert(s.take(m).len() > 0);
        assert(s.take(m)[0] == s[0]);
    }
}

/// Walks compose: consuming `j + k` subtrees is consuming `j`, then `k` more
/// from where the first walk stopped.
pub proof fn lemma_walk_comp(s: Seq<Node>, j: nat, k: nat)
    requires
        walk(s, j) is Some,
    ensures
        walk(s, (j + k) as nat) == (match walk(s.skip(walk(s, j)->0), k) {
            Some(r) => Some(walk(s, j)->0 + r),
            None => None::<int>,
        }),
    decreases s.len(),
{
    if j == 0 {
        assert(s.skip(0) =~= s);
    } else {
        let a = s[0].arity_spec();
        let m = walk(s, j)->0;
        lemma_walk_bounds(s, j);
        lemma_walk_comp(s.skip(1), (j - 1 + a) as nat, k);
        assert(s.skip(1).skip(m - 1) =~= s.skip(m));
        assert((j - 1 + a) + k == (j + k) - 1 + a);
    }
}

/// If a walk for `j + k` pending subtrees succeeds, the walk for the first
/// `j` succeeds too and consumes no more.
pub proof fn lemma_walk_prefix_some(s: Seq<Node>, j: nat, k: nat)
    requires
        walk(s, (j + k) as nat) is Some,
    ensures
        walk(s, j) is Some,
        walk(s, j)->0 <= walk(s, (j + k) as nat)->0,
    decreases s.len(),
{
    if j == 0 {
        lemma_walk_bounds(s, (j + k) as nat);
    } else {
        let a = s[0].arity_spec();
        assert(s.len() > 0);
        assert((j + k) - 1 + a == (j - 1 + a) + k);
        lemma_walk_prefix_some(s.skip(1), (j - 1 + a) as nat, k);
    }
}

/// In a sequence fully consumed by a walk, every position starts a complete
/// subtree.
pub proof fn lemma_subtree_at(s: Seq<Node>, k: nat, i: int)
    requires
        walk(s, k) == Some(s.len() as int),
        0 <= i < s.len(),
    ensures
        walk(s.skip(i), 1) is Some,
        1 <= walk(s.skip(i), 1)->0 <= s.len() - i,
    decreases s.len(),
{
    assert(k > 0);
    if i == 0 {
        assert(s.skip(0) =~= s);
        lemma_walk_prefix_some(s, 1, (k - 1) as nat);
        lemma_walk_bounds(s, 1);
    } else {
        let a = s[0].arity_spec();
        lemma_subtree_at(s.skip(1), (k - 1 + a) as nat, i - 1);
        assert(s.skip(1).skip(i - 1) =~= s.skip(i));
    }
}

/// Splicing: replacing the complete subtree that starts at position `i` by
/// any other complete subtree keeps the whole walk complete. This is the law
/// that makes crossover and mutation well-formed.
pub proof fn lemma_replace(s: Seq<Node>, k: nat, i: int, y: Seq<Node>)
    requires
        walk(s, k) == Some(s.len() as int),
        0 <= i < s.len(),
        is_complete(y),
    ensures
        ({
            let m = walk(s.skip(i), 1)->0;
            walk(s.take(i) + y + s.skip(i + m), k) == Some(i + y.len() + (s.len() - i - m))
        }),
    decreases s.len(),
{
    lemma_subtree_at(s, k, i);
    let m = walk(s.skip(i), 1)->0;
    assert(k > 0);
    if i == 0 {
        assert(s.skip(0) =~= s);
        lemma_walk_comp(s, 1, (k - 1) as nat);
        let mm = walk(s, 1)->0;
        assert(mm == m);
        assert(walk(s.skip(m), (k - 1) as nat) == Some(s.len() - m));
        lemma_walk_extend(y, s.skip(m), 1);
        lemma_walk_comp(y + s.skip(m), 1, (k - 1) as nat);
        assert((y + s.skip(m)).skip(y.len() as int) =~= s.skip(m));
        assert(s.take(0) + y + s.skip(m) =~= y + s.skip(m));
    } else {
        let a = s[0].arity_spec();
        assert(s.skip(1).skip(i - 1) =~= s.skip(i));
        lemma_replace(s.skip(1), (k - 1 + a) as nat, i - 1, y);
        let new_tail = s.skip(1).take(i - 1) + y + s.skip(1).skip(i - 1 + m);
        assert(walk(new_tail, (k - 1 + a) as nat) == Some(
            (i - 1) + y.len() + (s.len() - i - m),
        ));
        let new_s = s.take(i) + y + s.skip(i + m);
        assert(new_s[0] == s[0]);
        assert(new_s.len() > 0);
        assert(new_s.skip(1) =~= new_tail);
    }
}

/// `off` arises from `parent` by replacing the complete subtree spanning
/// `[i, e)` with the complete subtree `mid`.
pub open spec fn splice_of(off: Seq<Node>, parent: Seq<Node>, mid: Seq<Node>, i: int, e: int) -> bool {
    &&& 0 <= i <= e <= parent.len()
    &&& walk(parent.skip(i), 1) == Some(e - i)
    &&& is_complete(mid)
    &&& off == parent.take(i) + mid + parent.skip(e)
}

/// A terminal alone is a complete subtree.
pub proof fn lemma_single_terminal(n: Node)
    requires
        n.arity_spec() == 0,
    ensures
        is_complete(seq![n]),
{
    assert(seq![n].skip(1) =~= Seq::<Node>::empty());
    assert(walk(Seq::<Node>::empty(), 0) == Some(0int));
    assert(seq![n].len() == 1 && seq![n][0] == n);
}

/// A unary operator followed by one complete subtree is a complete subtree.
pub proof fn lemma_compose1(n: Node, c: Seq<Node>)
    requires
        n.arity_spec() == 1,
        is_complete(c),
    ensures
        is_complete(seq![n] + c),
{
    let s = seq![n] + c;
    assert(s.len() == 1 + c.len());
    assert(s[0] == n);
    assert(s.skip(1) =~= c);
}

/// A binary operator followed by two complete subtrees is a complete subtree.
pub proof fn lemma_compose2(n: Node, c1: Seq<Node>, c2: Seq<Node>)
    requires
        n.arity_spec() == 2,
        is_complete(c1),
        is_complete(c2),
    ensures
        is_complete(seq![n] + c1 + c2),
{
    let s = seq![n] + c1 + c2;
    assert(s[0] == n);
    lemma_walk_extend(c1, c2, 1);
    lemma_walk_comp(c1 + c2, 1, 1);
    assert((c1 + c2).skip(c1.len() as int) =~= c2);
    assert(walk(c1 + c2, 2) == Some((c1.len() + c2.len()) as int));
    assert(s.skip(1) =~= c1 + c2);
}

/// Every `Input` node in `s` indexes a variable below `dims`.
pub open spec fn inputs_below(s: Seq<Node>, dims: nat) -> bool {
    forall|i: int| 0 <= i < s.len() ==> (#[trigger] s[i] matches Node::Input(j) ==> j < dims)
}

/// A one-node sequence keeps every input index below `dims`.
pub proof fn lemma_inputs_below_single(n: Node, dims: nat)
    requires
        n matches Node::Input(j) ==> j < dims,
    ensures
        inputs_below(seq![n], dims),
{
    assert forall|i: int| 0 <= i < 1 implies (#[trigger] seq![n][i] matches Node::Input(j) ==> j
        < dims) by {
        assert(seq![n][i] == n);
    }
}

/// Concatenation keeps every input index below `dims`.
pub proof fn lemma_inputs_below_concat(x: Seq<Node>, y: Seq<Node>, dims: nat)
    requires
        inputs_below(x, dims),
        inputs_below(y, dims),
    ensures
        inputs_below(x + y, dims),
{
    assert forall|i: int| 0 <= i < (x + y).len() implies (#[trigger] (x + y)[i] matches
        Node::Input(j) ==> j < dims) by {
        if i < x.len() {
            assert((x + y)[i] == x[i]);
        } else {
            assert((x + y)[i] == y[i - x.len()]);
        }
    }
}

/// A contiguous slice keeps every input index below `dims`.
pub proof fn lemma_inputs_below_sub(s: Seq<Node>, dims: nat, lo: int, hi: int)
    requires
        inputs_below(s, dims),
        0 <= lo <= hi <= s.len(),
    ensures
        inputs_below(s.subrange(lo, hi), dims),
{
    assert forall|i: int| 0 <= i < hi - lo implies (#[trigger] s.subrange(lo, hi)[i] matches
        Node::Input(j) ==> j < dims) by {
        assert(s.subrange(lo, hi)[i] == s[lo + i]);
    }
}

/// The per-instance outputs the complete subtree `s` computes on the
/// column-major matrix `df` with `n` instances: a constant broadcasts, an
/// input copies its variable's row, a binary operator combines its
/// children's outputs elementwise through the named arithmetic, and a unary
/// operator maps its child's output through the cosine or the bounding
/// sigmoid. (On sequences that are not complete subtrees, or inputs out of
/// range, the definition is still total but means nothing.)
pub open spec fn eval_bits(s: Seq<Node>, df: Seq<Vec<u32>>, n: nat) -> Seq<u32>
    decreases s.len(),
{
    if s.len() == 0 {
        Seq::new(n, |i: int| 0u32)
    } else {
        match s[0] {
            Node::Constant(c) => Seq::new(n, |i: int| c),
            Node::Input(j) => if j < df.len() {
                df[j as int]@
            } else {
                Seq::new(n, |i: int| 0u32)
            },
            _ => {
                let a = s[0].arity_spec();
                if a == 1 {
                    let o = eval_bits(s.skip(1), df, n);
                    Seq::new(n, |i: int| crate::node::un_bits(s[0], o[i]))
                } else if s.len() < 3 {
                    Seq::new(n, |i: int| 0u32)
                } else {
                    let m = first_len(s.skip(1));
                    let m2 = if 1 <= m <= s.len() - 2 {
                        m
                    } else {
                        1
                    };
                    let o1 = eval_bits(s.subrange(1, 1 + m2), df, n);
                    let o2 = eval_bits(s.subrange(1 + m2, s.len() as int), df, n);
                    Seq::new(n, |i: int| crate::node::bin_bits(s[0], o1[i], o2[i]))
                }
            },
        }
    }
}

/// The depth of the complete subtree `s`: the largest number of edges from
/// its root to a leaf. (On sequences that are not complete subtrees the
/// definition is still total but means nothing.)
pub open spec fn depth_of(s: Seq<Node>) -> nat
    decreases s.len(),
{
    if s.len() <= 1 {
        0
    } else {
        let a = s[0].arity_spec();
        if a == 0 {
            0
        } else if a == 1 {
            (1 + depth_of(s.skip(1))) as nat
        } else {
            let m = first_len(s.skip(1));
            let m2 = if 1 <= m <= s.len() - 1 {
                m
            } else {
                1
            };
            let d1 = depth_of(s.subrange(1, 1 + m2));
            let d2 = depth_of(s.subrange(1 + m2, s.len() as int));
            (1 + if d1 >= d2 {
                d1
            } else {
                d2
            }) as nat
        }
    }
}

/// The smallest number of edges from the root of `s` to a leaf.
pub open spec fn min_leaf_depth(s: Seq<Node>) -> nat
    decreases s.len(),
{
    if s.len() <= 1 {
        0
    } else {
        let a = s[0].arity_spec();
        if a == 0 {
            0
        } else if a == 1 {
            (1 + min_leaf_depth(s.skip(1))) as nat
        } else {
            let m = first_len(s.skip(1));
            let m2 = if 1 <= m <= s.len() - 1 {
                m
            } else {
                1
            };
            let d1 = min_leaf_depth(s.subrange(1, 1 + m2));
            let d2 = min_leaf_depth(s.subrange(1 + m2, s.len() as int));
            (1 + if d1 <= d2 {
                d1
            } else {
                d2
            }) as nat
        }
    }
}

/// Depth of a tree whose root is a unary operator.
pub proof fn lemma_depth_compose1(n: Node, c: Seq<Node>)
    requires
        n.arity_spec() == 1,
        is_complete(c),
    ensures
        depth_of(seq![n] + c) == 1 + depth_of(c),
        min_leaf_depth(seq![n] + c) == 1 + min_leaf_depth(c),
{
    let s = seq![n] + c;
    lemma_walk_bounds(c, 1);
    assert(c.len() >= 1);
    assert(s.len() >= 2);
    assert(s[0] == n);
    assert(s.skip(1) =~= c);
}

/// Depth of a tree whose root is a binary operator.
pub proof fn lemma_depth_compose2(n: Node, c1: Seq<Node>, c2: Seq<Node>)
    requires
        n.arity_spec() == 2,
        is_complete(c1),
        is_complete(c2),
    ensures
        depth_of(seq![n] + c1 + c2) == 1 + if depth_of(c1) >= depth_of(c2) {
            depth_of(c1)
        } else {
            depth_of(c2)
        },
        min_leaf_depth(seq![n] + c1 + c2) == 1 + if min_leaf_depth(c1) <= min_leaf_depth(c2) {
            min_leaf_depth(c1)
        } else {
            min_leaf_depth(c2)
        },
{
    let s = seq![n] + c1 + c2;
    lemma_walk_bounds(c1, 1);
    lemma_walk_bounds(c2, 1);
    assert(s.len() == 1 + c1.len() + c2.len());
    assert(s[0] == n);
    assert(s.skip(1) =~= c1 + c2);
    lemma_walk_extend(c1, c2, 1);
    assert(first_len(s.skip(1)) == c1.len());
    assert(s.subrange(1, 1 + c1.len() as int) =~= c1);
    assert(s.subrange(1 + c1.len() as int, s.len() as int) =~= c2);
}

} // verus!
