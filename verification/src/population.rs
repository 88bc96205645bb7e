//! An ordered collection of individuals: initialization, selection, sorting
//! and truncation.
//!
//! Training errors are non-negative binary32 values, and non-negative bit
//! patterns order exactly as the values they stand for (a NaN's pattern is
//! larger than every number's), so the population compares and sorts errors
//! as plain `u32` keys.

use vstd::prelude::*;
use crate::data::Data;
use crate::errors::GpError;
use crate::individual::Individual;
use crate::encoding::{depth_of, inputs_below};
use crate::rng::rand_below;

verus! {

broadcast use vstd::seq_lib::group_to_multiset_ensures;

/// The sort and selection key: the cached training error's bit pattern.
pub open spec fn te_key(ind: Individual) -> u32 {
    ind.train->0
}

/// Every individual has a cached training error.
pub open spec fn all_train_scored(s: Seq<Individual>) -> bool {
    forall|i: int| 0 <= i < s.len() ==> (#[trigger] s[i]).train is Some
}

/// Ascending by training-error key.
pub open spec fn sorted_by_te_key(s: Seq<Individual>) -> bool {
    forall|i: int, j: int| 0 <= i < j < s.len() ==> te_key(#[trigger] s[i]) <= te_key(#[trigger] s[j])
}

/// The winner of a tournament over the drawn indices: the first draw, then
/// each later draw replaces the holder only on a strictly smaller key, so
/// ties keep the earliest drawn.
pub open spec fn best_of_draws(s: Seq<Individual>, draws: Seq<int>) -> int
    decreases draws.len(),
{
    if draws.len() == 0 {
        0
    } else if draws.len() == 1 {
        draws[0]
    } else {
        let w = best_of_draws(s, draws.drop_last());
        if te_key(s[draws.last()]) < te_key(s[w]) {
            draws.last()
        } else {
            w
        }
    }
}

/// A container for a group of individuals.
pub struct Population {
    pub core: Vec<Individual>,
}

impl Population {
    /// Returns size of the population.
    pub fn size(&self) -> (r: usize)
        ensures
            r == self.core@.len(),
    {
        self.core.len()
    }

    /// Returns an empty population.
    pub fn new() -> (r: Population)
        ensures
            r.core@.len() == 0,
    {
        Population { core: Vec::new() }
    }

    /// Returns `true` when there are no individuals in the population.
    pub fn is_empty(&self) -> (r: bool)
        ensures
            r == (self.core@.len() == 0),
    {
        self.core.len() == 0
    }

    /// Adds an owned individual to the population.
    pub fn add_individual(&mut self, new_guy: Individual)
        ensures
            final(self).core@ == old(self).core@.push(new_guy),
    {
        self.core.push(new_guy);
    }

    /// Adds individuals in a batch, keeping their order.
    pub fn add_individuals(&mut self, new_guys: Vec<Individual>)
        ensures
            final(self).core@ == old(self).core@ + new_guys@,
    {
        let ghost orig = new_guys@;
        let mut new_guys = new_guys;
        while new_guys.len() > 0
            invariant
                new_guys@.len() <= orig.len(),
                new_guys@ == orig.skip(orig.len() - new_guys@.len()),
                self.core@ == old(self).core@ + orig.take(orig.len() - new_guys@.len()),
            decreases new_guys@.len(),
        {
            let ghost k = orig.len() - new_guys@.len();
            let x = new_guys.remove(0);
            proof {
                assert(x == orig[k]);
                assert(new_guys@ =~= orig.skip(k + 1));
                assert(old(self).core@ + orig.take(k) + seq![orig[k]] =~= old(self).core@
                    + orig.take(k + 1));
            }
            self.core.push(x);
        }
        proof {
            assert(orig.take(orig.len() as int) =~= orig);
        }
    }

    /// Returns a mutable reference to the individuals of the population.
    pub fn core_mut(&mut self) -> (r: &mut Vec<Individual>)
        ensures
            *r == old(self).core,
            final(self).core == *final(r),
    {
        &mut self.core
    }

    /// Returns a reference to the individuals of the population.
    pub fn individuals(&self) -> (r: &Vec<Individual>)
        ensures
            r == &self.core,
    {
        &self.core
    }

    /// How many individuals ramped half-and-half initialization puts in the
    /// given depth group: the population size divided evenly over the depth
    /// groups, with the remainder absorbed by the deepest group.
    pub fn depth_group_size(pop_size: usize, max_init_depth: usize, depth: usize) -> (r: usize)
        requires
            1 <= depth <= max_init_depth,
        ensures
            r == pop_size as int / max_init_depth as int + if depth == max_init_depth {
                pop_size as int % max_init_depth as int
            } else {
                0
            },
    {
        proof {
            vstd::arithmetic::div_mod::lemma_fundamental_div_mod(
                pop_size as int,
                max_init_depth as int,
            );
            assert(pop_size as int / max_init_depth as int + pop_size as int
                % max_init_depth as int <= pop_size as int) by (nonlinear_arith)
                requires
                    max_init_depth >= 1,
                    pop_size >= 0,
            ;
        }
        let ipd = pop_size / max_init_depth;
        if depth == max_init_depth {
            ipd + pop_size % max_init_depth
        } else {
            ipd
        }
    }

    /// Initializes a filled population with ramped half-and-half: the target
    /// size is spread over the depth groups `1 ..= max_init_depth` (the
    /// deepest group absorbing the remainder), each group split between
    /// `full`-built individuals (the ceiling half) and `grow`-built ones
    /// (the floor half), and every individual is evaluated immediately.
    pub fn new_rhh(pop_size: usize, max_init_depth: usize, data: &Data) -> (r: Population)
        requires
            data.wf(),
            1 <= max_init_depth < usize::MAX,
        ensures
            r.core@.len() == pop_size,
            forall|i: int|
                0 <= i < pop_size ==> (#[trigger] r.core@[i]).tree_evaluated(data) && depth_of(
                    r.core@[i].core@,
                ) <= max_init_depth && inputs_below(r.core@[i].core@, data.dimensions as nat),
    {
        let mut p = Population::new();
        let ghost ipd = pop_size as int / max_init_depth as int;
        let mut depth: usize = 1;
        while depth <= max_init_depth
            invariant
                1 <= depth <= max_init_depth + 1,
                data.wf(),
                1 <= max_init_depth < usize::MAX,
                p.core@.len() == (depth - 1) * ipd + if depth > max_init_depth {
                    pop_size as int % max_init_depth as int
                } else {
                    0
                },
                ipd == pop_size as int / max_init_depth as int,
                forall|i: int|
                    0 <= i < p.core@.len() ==> (#[trigger] p.core@[i]).tree_evaluated(data)
                        && depth_of(p.core@[i].core@) <= max_init_depth && inputs_below(
                        p.core@[i].core@,
                        data.dimensions as nat,
                    ),
            decreases max_init_depth + 1 - depth,
        {
            let group = Self::depth_group_size(pop_size, max_init_depth, depth);
            let full_n = group / 2 + group % 2;
            let grow_n = group / 2;
            let ghost len_before = p.core@.len();
            let mut made: usize = 0;
            while made < full_n
                invariant
                    made <= full_n,
                    data.wf(),
                    max_init_depth >= 1,
                    1 <= depth <= max_init_depth,
                    p.core@.len() == len_before + made,
                    forall|i: int|
                        0 <= i < p.core@.len() ==> (#[trigger] p.core@[i]).tree_evaluated(data)
                            && depth_of(p.core@[i].core@) <= max_init_depth && inputs_below(
                            p.core@[i].core@,
                            data.dimensions as nat,
                        ),
                decreases full_n - made,
            {
                let mut ind = Individual::full(depth, data);
                let _ = ind.compute_semantics(data);
                ind.evaluate(data);
                ind.compute_depth();
                p.add_individual(ind);
                made += 1;
            }
            let mut made2: usize = 0;
            while made2 < grow_n
                invariant
                    made2 <= grow_n,
                    data.wf(),
                    max_init_depth >= 1,
                    1 <= depth <= max_init_depth,
                    p.core@.len() == len_before + full_n + made2,
                    forall|i: int|
                        0 <= i < p.core@.len() ==> (#[trigger] p.core@[i]).tree_evaluated(data)
                            && depth_of(p.core@[i].core@) <= max_init_depth && inputs_below(
                            p.core@[i].core@,
                            data.dimensions as nat,
                        ),
                decreases grow_n - made2,
            {
                let mut ind = Individual::grow(depth, data);
                let _ = ind.compute_semantics(data);
                ind.evaluate(data);
                ind.compute_depth();
                p.add_individual(ind);
                made2 += 1;
            }
            proof {
                assert(full_n + grow_n == group);
                assert(depth * ipd == (depth - 1) * ipd + ipd) by (nonlinear_arith);
            }
            depth += 1;
        }
        proof {
            vstd::arithmetic::div_mod::lemma_fundamental_div_mod(
                pop_size as int,
                max_init_depth as int,
            );
            assert(max_init_depth * ipd == ipd * max_init_depth) by (nonlinear_arith);
        }
        p
    }

    /// The training-error key of one individual.
    fn get_key(ind: &Individual) -> (k: u32)
        requires
            ind.train is Some,
        ensures
            k == te_key(*ind),
    {
        match ind.train {
            Some(k) => k,
            None => {
                proof {
                    assert(false);
                }
                0
            },
        }
    }

    /// The position of the first individual with the smallest training-error
    /// key.
    fn min_key_index(v: &Vec<Individual>) -> (mi: usize)
        requires
            v@.len() >= 1,
            all_train_scored(v@),
        ensures
            mi < v@.len(),
            forall|j: int| 0 <= j < v@.len() ==> te_key(v@[mi as int]) <= te_key(#[trigger] v@[j]),
    {
        let mut mi: usize = 0;
        let mut i: usize = 1;
        while i < v.len()
            invariant
                mi < i <= v@.len(),
                all_train_scored(v@),
                forall|j: int| 0 <= j < i ==> te_key(v@[mi as int]) <= te_key(#[trigger] v@[j]),
            decreases v@.len() - i,
        {
            if Self::get_key(&v[i]) < Self::get_key(&v[mi]) {
                mi = i;
            }
            i += 1;
        }
        mi
    }

    /// Sorts the population ascending by training error (extracting the
    /// first minimum repeatedly, so the order of equal keys is kept). Fails
    /// with `UnevaluatedIndividual`, leaving the population unchanged, when
    /// some individual has no cached training error.
    pub fn sort_by_te(&mut self) -> (r: Result<(), GpError>)
        ensures
            (r is Ok) <==> all_train_scored(old(self).core@),
            r is Ok ==> sorted_by_te_key(final(self).core@) && final(self).core@.to_multiset()
                == old(self).core@.to_multiset() && final(self).core@.len()
                == old(self).core@.len(),
            r is Err ==> final(self).core@ == old(self).core@ && r == Err::<(), GpError>(
                GpError::UnevaluatedIndividual,
            ),
    {
        let n = self.core.len();
        let mut i: usize = 0;
        while i < n
            invariant
                i <= n,
                n == self.core@.len(),
                *self == *old(self),
                forall|j: int| 0 <= j < i ==> (#[trigger] self.core@[j]).train is Some,
            decreases n - i,
        {
            if matches!(self.core[i].train, None) {
                return Err(GpError::UnevaluatedIndividual);
            }
            i += 1;
        }
        let mut out: Vec<Individual> = Vec::new();
        while self.core.len() > 0
            invariant
                all_train_scored(self.core@),
                all_train_scored(out@),
                sorted_by_te_key(out@),
                out@.to_multiset().add(self.core@.to_multiset()) =~= old(self).core@.to_multiset(),
                out@.len() + self.core@.len() == old(self).core@.len(),
                forall|a: int, b: int|
                    0 <= a < out@.len() && 0 <= b < self.core@.len() ==> te_key(#[trigger] out@[a])
                        <= te_key(#[trigger] self.core@[b]),
            decreases self.core@.len(),
        {
            let mi = Self::min_key_index(&self.core);
            let x = self.core.remove(mi);
            out.push(x);
        }
        self.core = out;
        Ok(())
    }

    /// The first individual (the fittest, after a sort).
    pub fn get_first(&self) -> (r: &Individual)
        requires
            self.core@.len() >= 1,
        ensures
            *r == self.core@[0],
    {
        &self.core[0]
    }

    /// Independent copies of the first `k` individuals (the `k` best when
    /// the population is sorted; this method assumes a prior sort and does
    /// not sort by itself). Fewer when the population is smaller than `k`.
    pub fn clone_k_best(&self, k: usize) -> (r: Vec<Individual>)
        ensures
            r@.len() == (if k <= self.core@.len() {
                k as int
            } else {
                self.core@.len() as int
            }),
            forall|i: int|
                0 <= i < r@.len() ==> Individual::is_copy_of(#[trigger] r@[i], self.core@[i]),
    {
        let m = if k <= self.core.len() {
            k
        } else {
            self.core.len()
        };
        let mut r: Vec<Individual> = Vec::new();
        let mut i: usize = 0;
        while i < m
            invariant
                i <= m,
                m <= self.core@.len(),
                r@.len() == i,
                forall|j: int|
                    0 <= j < i ==> Individual::is_copy_of(#[trigger] r@[j], self.core@[j]),
            decreases m - i,
        {
            r.push(self.core[i].duplicate());
            i += 1;
        }
        r
    }

    /// Sorts by training error, then keeps only the best `k` individuals.
    /// Fails with `UnevaluatedIndividual`, leaving the population unchanged,
    /// when some individual has no cached training error.
    pub fn keep_k_best(&mut self, k: usize) -> (r: Result<(), GpError>)
        ensures
            (r is Ok) <==> all_train_scored(old(self).core@),
            r is Ok ==> sorted_by_te_key(final(self).core@) && final(self).core@.len() == (if k
                <= old(self).core@.len() {
                k as int
            } else {
                old(self).core@.len() as int
            }) && exists|s: Seq<Individual>|
                #![trigger s.to_multiset()]
                s.to_multiset() == old(self).core@.to_multiset() && sorted_by_te_key(s)
                    && final(self).core@ == s.take(final(self).core@.len() as int),
            r is Err ==> final(self).core@ == old(self).core@ && r == Err::<(), GpError>(
                GpError::UnevaluatedIndividual,
            ),
    {
        match self.sort_by_te() {
            Ok(_) => {},
            Err(e) => {
                return Err(e);
            },
        }
        let ghost sorted_view = self.core@;
        self.core.truncate(k);
        proof {
            if k <= sorted_view.len() {
                assert(self.core@ == sorted_view.take(k as int));
            } else {
                assert(self.core@ == sorted_view);
                assert(sorted_view.take(sorted_view.len() as int) =~= sorted_view);
            }
        }
        Ok(())
    }

    /// Tournament selection: draws `pool_size` individuals independently and
    /// uniformly with replacement and returns the first one with the lowest
    /// training error. Fails with `InvalidPoolSize` when `pool_size < 1`. In
    /// a population of one, any tournament returns that individual.
    pub fn tournament_select(&self, pool_size: usize) -> (r: Result<&Individual, GpError>)
        requires
            self.core@.len() >= 1,
            all_train_scored(self.core@),
        ensures
            (r is Ok) <==> pool_size >= 1,
            pool_size < 1 ==> r == Err::<&Individual, GpError>(GpError::InvalidPoolSize),
            r matches Ok(ind) ==> exists|draws: Seq<int>|
                #![trigger best_of_draws(self.core@, draws)]
                draws.len() == pool_size && (forall|t: int|
                    0 <= t < draws.len() ==> 0 <= #[trigger] draws[t] < self.core@.len()) && 0
                    <= best_of_draws(self.core@, draws) < self.core@.len() && *ind
                    == self.core@[best_of_draws(self.core@, draws)],
            self.core@.len() == 1 && pool_size >= 1 ==> (r matches Ok(ind) && *ind
                == self.core@[0]),
    {
        if pool_size < 1 {
            return Err(GpError::InvalidPoolSize);
        }
        let mut widx = rand_below(self.core.len());
        let ghost mut draws: Seq<int> = seq![widx as int];
        let mut t: usize = 1;
        while t < pool_size
            invariant
                1 <= t <= pool_size,
                self.core@.len() >= 1,
                all_train_scored(self.core@),
                widx < self.core@.len(),
                draws.len() == t,
                forall|q: int| 0 <= q < draws.len() ==> 0 <= #[trigger] draws[q] < self.core@.len(),
                widx as int == best_of_draws(self.core@, draws),
            decreases pool_size - t,
        {
            let c = rand_below(self.core.len());
            let ghost prev = draws;
            proof {
                draws = draws.push(c as int);
                assert(draws.drop_last() =~= prev);
                assert(draws.last() == c as int);
            }
            if Self::get_key(&self.core[c]) < Self::get_key(&self.core[widx]) {
                widx = c;
            }
            t += 1;
        }
        Ok(&self.core[widx])
    }

    /// Fitness-proportionate selection is a declared policy without an
    /// implementation: it fails loudly instead of silently falling back.
    pub fn fitness_proportionate_select(&self, pool_size: usize) -> (r: Result<
        &Individual,
        GpError,
    >)
        ensures
            r == Err::<&Individual, GpError>(GpError::NotImplemented),
    {
        let _ = pool_size;
        Err(GpError::NotImplemented)
    }

    /// Rank selection is a declared policy without an implementation: it
    /// fails loudly instead of silently falling back.
    pub fn rank_select(&self, pool_size: usize) -> (r: Result<&Individual, GpError>)
        ensures
            r == Err::<&Individual, GpError>(GpError::NotImplemented),
    {
        let _ = pool_size;
        Err(GpError::NotImplemented)
    }

    /// Pareto-rank selection is a declared policy without an implementation:
    /// it fails loudly instead of silently falling back.
    pub fn pareto_rank_select(&self, pool_size: usize) -> (r: Result<&Individual, GpError>)
        ensures
            r == Err::<&Individual, GpError>(GpError::NotImplemented),
    {
        let _ = pool_size;
        Err(GpError::NotImplemented)
    }
}

} // verus!
