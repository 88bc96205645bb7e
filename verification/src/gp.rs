//! The state of one genetic-programming run and its generational loop.

use vstd::prelude::*;
use crate::data::Data;
use crate::errors::GpError;
use crate::individual::Individual;
use crate::population::{Population, all_train_scored, sorted_by_te_key};
use crate::encoding::inputs_below;
use crate::rng::rand_below;
use crate::fbits::f_of_u64;
use crate::variation::{geometric_semantic, standard};

verus! {

broadcast use vstd::seq_lib::group_to_multiset_ensures;

/// The phenotypic search policy: how parents are picked. Only tournament
/// selection is implemented; the others are declared policies that fail
/// loudly when invoked.
#[derive(Clone, Copy, Debug, PartialEq, Eq, Structural)]
pub enum Selection {
    Tournament,
    FitnessProportionate,
    Rank,
}

/// The genotypic search policy: how offspring are made. `GeometricSemantic`
/// carries the mutation step (binary32 bits) and whether mutation's random
/// trees are squashed into [0, 1].
#[derive(Clone, Copy, Debug, PartialEq, Eq, Structural)]
pub enum Variation {
    Standard,
    GeometricSemantic(u32, bool),
}

/// One genetic-programming run: a dataset, a population, and the
/// configuration that drives the generational loop.
pub struct GP {
    pub data: Data,
    pub pop: Population,
    pub crossover_probability: u32,
    pub pop_size: usize,
    pub pool_size: usize,
    pub selection_method: Selection,
    pub variation_method: Variation,
}

/// What the generational loop needs of every individual in the population:
/// under standard variation a complete tree over the dataset's variables and
/// a cached training error; under geometric-semantic variation, semantics of
/// the splits' lengths, both errors, a depth and a size.
pub open spec fn member_ok(ind: Individual, data: &Data, variation: Variation) -> bool {
    match variation {
        Variation::Standard => ind.has_tree() && inputs_below(ind.core@, data.dimensions as nat)
            && ind.train is Some && ind.test is Some,
        Variation::GeometricSemantic(_, _) => ind.ready_gs(data),
    }
}

impl GP {
    /// Every individual of the population is fit for the generational loop.
    pub open spec fn pop_ok(&self) -> bool {
        forall|i: int|
            0 <= i < self.pop.core@.len() ==> member_ok(
                #[trigger] self.pop.core@[i],
                &self.data,
                self.variation_method,
            )
    }

    /// The configuration lets a run proceed: a positive selection pool and
    /// an implemented selection policy.
    pub open spec fn config_ok(&self) -> bool {
        self.pool_size >= 1 && self.selection_method is Tournament
    }

    /// `b` carries the same dataset and configuration as `a` (only the
    /// population may differ).
    pub open spec fn same_config(a: GP, b: GP) -> bool {
        &&& a.data == b.data
        &&& a.crossover_probability == b.crossover_probability
        &&& a.pop_size == b.pop_size
        &&& a.pool_size == b.pool_size
        &&& a.selection_method == b.selection_method
        &&& a.variation_method == b.variation_method
    }

    /// Returns a new standard GP: crossover rate 0.9 (bits of the binary32
    /// value), population size 100, pool size 4, tournament selection.
    pub fn new_gp(dataset: Data) -> (r: GP)
        ensures
            r.data == dataset,
            r.pop.core@.len() == 0,
            r.crossover_probability == 0x3F66_6666u32,
            r.pop_size == 100,
            r.pool_size == 4,
            r.selection_method is Tournament,
            r.variation_method is Standard,
    {
        GP {
            data: dataset,
            pop: Population::new(),
            crossover_probability: 0x3F66_6666,
            pop_size: 100,
            pool_size: 4,
            selection_method: Selection::Tournament,
            variation_method: Variation::Standard,
        }
    }

    /// Returns a geometric-semantic GP: crossover rate 0.0, mutation step
    /// 1.0 (bits), bounded mutation; other defaults as `new_gp`.
    pub fn new_gsgp(dataset: Data) -> (r: GP)
        ensures
            r.data == dataset,
            r.pop.core@.len() == 0,
            r.crossover_probability == 0x0000_0000u32,
            r.pop_size == 100,
            r.pool_size == 4,
            r.selection_method is Tournament,
            r.variation_method == Variation::GeometricSemantic(0x3F80_0000u32, true),
    {
        GP {
            data: dataset,
            pop: Population::new(),
            crossover_probability: 0x0000_0000,
            pop_size: 100,
            pool_size: 4,
            selection_method: Selection::Tournament,
            variation_method: Variation::GeometricSemantic(0x3F80_0000, true),
        }
    }

    /// Sets the population to a previously initialized or evolved one; its
    /// size must match this run's `pop_size`.
    pub fn set_pop(self, pop: Population) -> (r: GP)
        requires
            pop.core@.len() == self.pop_size,
        ensures
            r.pop == pop,
            Self::same_config(self, r),
    {
        GP { pop, ..self }
    }

    /// Sets the population size.
    pub fn set_pop_size(self, size: usize) -> (r: GP)
        ensures
            r == (GP { pop_size: size, ..self }),
    {
        GP { pop_size: size, ..self }
    }

    /// Sets the crossover rate (binary32 bits of a value in [0, 1]: every
    /// such bit pattern is at most the bits of 1.0).
    pub fn set_xo_rate(self, xo_rate: u32) -> (r: GP)
        requires
            xo_rate <= 0x3F80_0000u32,
        ensures
            r == (GP { crossover_probability: xo_rate, ..self }),
    {
        GP { crossover_probability: xo_rate, ..self }
    }

    /// Sets how many individuals a selection draws.
    pub fn set_pool_size(self, ps: usize) -> (r: GP)
        ensures
            r == (GP { pool_size: ps, ..self }),
    {
        GP { pool_size: ps, ..self }
    }

    /// Picks the selection policy.
    pub fn set_selection_method(self, sm: Selection) -> (r: GP)
        ensures
            r == (GP { selection_method: sm, ..self }),
    {
        GP { selection_method: sm, ..self }
    }

    /// An immutable reference to the population.
    pub fn pop(&self) -> (r: &Population)
        ensures
            r == &self.pop,
    {
        &self.pop
    }

    /// A mutable reference to the population.
    pub fn pop_mut(&mut self) -> (r: &mut Population)
        ensures
            *r == old(self).pop,
            final(self).pop == *final(r),
            final(self).data == old(self).data,
            final(self).crossover_probability == old(self).crossover_probability,
            final(self).pop_size == old(self).pop_size,
            final(self).pool_size == old(self).pool_size,
            final(self).selection_method == old(self).selection_method,
            final(self).variation_method == old(self).variation_method,
    {
        &mut self.pop
    }

    /// Replaces the population with a fresh ramped half-and-half one of
    /// `pop_size` individuals at maximum initial depth 6.
    pub fn init_new_pop(&mut self)
        requires
            old(self).data.wf(),
        ensures
            Self::same_config(*old(self), *final(self)),
            final(self).pop.core@.len() == old(self).pop_size,
            forall|i: int|
                0 <= i < final(self).pop.core@.len()
                    ==> (#[trigger] final(self).pop.core@[i]).tree_evaluated(&old(self).data),
            final(self).pop_ok(),
    {
        self.pop = Population::new_rhh(self.pop_size, 6, &self.data);
        proof {
            assert forall|i: int| 0 <= i < self.pop.core@.len() implies member_ok(
                #[trigger] self.pop.core@[i],
                &self.data,
                self.variation_method,
            ) by {
                assert(self.pop.core@[i].tree_evaluated(&self.data));
            }
        }
    }

    /// A uniformly random binary32 fraction in [0, 1), with 2^-24
    /// granularity, as bits.
    fn random_unit_fraction() -> u32 {
        let k = rand_below(0x0100_0000);
        crate::fbits::fmul(f_of_u64(k as u64), 0x3380_0000)
    }

    /// Dispatches to the configured selection policy.
    fn select(&self) -> (r: Result<&Individual, GpError>)
        requires
            self.pop.core@.len() >= 1,
            all_train_scored(self.pop.core@),
        ensures
            (r is Ok) <==> self.config_ok(),
            r matches Ok(ind) ==> exists|i: int|
                0 <= i < self.pop.core@.len() && *ind == #[trigger] self.pop.core@[i],
    {
        match self.selection_method {
            Selection::Tournament => self.pop.tournament_select(self.pool_size),
            Selection::FitnessProportionate => self.pop.fitness_proportionate_select(
                self.pool_size,
            ),
            Selection::Rank => self.pop.rank_select(self.pool_size),
        }
    }

    /// Dispatches to the configured crossover.
    fn crossover(&self, p1: &Individual, p2: &Individual, data: &Data) -> (off: Individual)
        requires
            data.wf(),
            member_ok(*p1, data, self.variation_method),
            member_ok(*p2, data, self.variation_method),
        ensures
            member_ok(off, data, self.variation_method),
            self.variation_method is Standard ==> off.tree_evaluated(data),
            off.train is Some,
            off.test is Some,
    {
        match self.variation_method {
            Variation::Standard => standard::crossover(p1, p2, data),
            Variation::GeometricSemantic(_, _) => geometric_semantic::crossover(p1, p2, data),
        }
    }

    /// Dispatches to the configured mutation.
    fn mutation(&self, p1: &Individual, data: &Data) -> (off: Individual)
        requires
            data.wf(),
            member_ok(*p1, data, self.variation_method),
        ensures
            member_ok(off, data, self.variation_method),
            self.variation_method is Standard ==> off.tree_evaluated(data),
            off.train is Some,
            off.test is Some,
    {
        match self.variation_method {
            Variation::Standard => standard::mutation(p1, data),
            Variation::GeometricSemantic(step, bounded) => geometric_semantic::mutation(
                p1,
                data,
                step,
                bounded,
            ),
        }
    }

    /// Evolves the population for `gens` generations: each generation fills
    /// a fresh offspring population by selecting a parent, applying the
    /// configured crossover (with the configured probability, against a
    /// second selected parent) or mutation, and replaces the population with
    /// it, sorted by training error. An empty population is initialized
    /// first. Fails, leaving the run untouched, when the pool size is not
    /// positive or the selection policy is not implemented.
    pub fn evolve(&mut self, gens: usize) -> (r: Result<(), GpError>)
        requires
            old(self).data.wf(),
            old(self).pop_ok(),
        ensures
            Self::same_config(*old(self), *final(self)),
            (r is Ok) <==> old(self).config_ok(),
            r is Err ==> final(self).pop == old(self).pop && (r == Err::<(), GpError>(
                GpError::InvalidPoolSize,
            ) || r == Err::<(), GpError>(GpError::NotImplemented)),
            r is Ok ==> final(self).pop_ok() && all_train_scored(final(self).pop.core@)
                && final(self).pop.core@.len() == (if old(self).pop.core@.len() == 0 {
                old(self).pop_size as int
            } else {
                old(self).pop.core@.len() as int
            }) && (gens >= 1 ==> sorted_by_te_key(final(self).pop.core@)),
            r is Ok && gens >= 1 && old(self).variation_method is Standard ==> forall|i: int|
                0 <= i < final(self).pop.core@.len()
                    ==> (#[trigger] final(self).pop.core@[i]).tree_evaluated(&old(self).data),
    {
        if self.pool_size < 1 {
            return Err(GpError::InvalidPoolSize);
        }
        match self.selection_method {
            Selection::Tournament => {},
            _ => {
                return Err(GpError::NotImplemented);
            },
        }
        if self.pop.size() == 0 {
            self.init_new_pop();
        }
        let ghost target_len = self.pop.core@.len();
        let mut gen: usize = 0;
        while gen < gens
            invariant
                gen <= gens,
                self.data.wf(),
                Self::same_config(*old(self), *self),
                self.pool_size >= 1,
                self.selection_method is Tournament,
                self.pop_ok(),
                all_train_scored(self.pop.core@),
                self.pop.core@.len() == target_len,
                gen >= 1 ==> sorted_by_te_key(self.pop.core@),
                gen >= 1 && self.variation_method is Standard ==> forall|i: int|
                    0 <= i < self.pop.core@.len()
                        ==> (#[trigger] self.pop.core@[i]).tree_evaluated(&self.data),
            decreases gens - gen,
        {
            let target = self.pop.size();
            let mut offspring_pop = Population::new();
            while offspring_pop.size() < target
                invariant
                    self.data.wf(),
                    Self::same_config(*old(self), *self),
                    self.pool_size >= 1,
                    self.selection_method is Tournament,
                    self.pop_ok(),
                    all_train_scored(self.pop.core@),
                    self.pop.core@.len() == target_len,
                    target == target_len,
                    offspring_pop.core@.len() <= target,
                    forall|i: int|
                        0 <= i < offspring_pop.core@.len() ==> member_ok(
                            #[trigger] offspring_pop.core@[i],
                            &self.data,
                            self.variation_method,
                        ) && offspring_pop.core@[i].train is Some
                            && offspring_pop.core@[i].test is Some,
                    self.variation_method is Standard ==> forall|i: int|
                        0 <= i < offspring_pop.core@.len()
                            ==> (#[trigger] offspring_pop.core@[i]).tree_evaluated(&self.data),
                decreases target - offspring_pop.core@.len(),
            {
                let p1 = match self.select() {
                    Ok(p) => p,
                    Err(e) => {
                        proof {
                            assert(false);
                        }
                        return Err(e);
                    },
                };
                let draw = Self::random_unit_fraction();
                let offspring = if draw < self.crossover_probability {
                    let p2 = match self.select() {
                        Ok(p) => p,
                        Err(e) => {
                            proof {
                                assert(false);
                            }
                            return Err(e);
                        },
                    };
                    self.crossover(p1, p2, &self.data)
                } else {
                    self.mutation(p1, &self.data)
                };
                offspring_pop.add_individual(offspring);
            }
            self.pop = offspring_pop;
            let ghost pre_sort = self.pop.core@;
            match self.pop.sort_by_te() {
                Ok(_) => {},
                Err(e) => {
                    proof {
                        assert(false);
                    }
                    return Err(e);
                },
            }
            proof {
                assert forall|i: int| 0 <= i < self.pop.core@.len() implies member_ok(
                    #[trigger] self.pop.core@[i],
                    &self.data,
                    self.variation_method,
                ) && self.pop.core@[i].train is Some && self.pop.core@[i].test is Some && (
                self.variation_method is Standard ==> self.pop.core@[i].tree_evaluated(
                    &self.data,
                )) by {
                    let x = self.pop.core@[i];
                    assert(self.pop.core@.to_multiset().count(x) > 0);
                    assert(pre_sort.contains(x));
                }
            }
            gen += 1;
        }
        Ok(())
    }

    /// Removes the excess individuals, the least fit first: sorts by
    /// training error and keeps the best `pop_size`.
    pub fn clean(&mut self) -> (r: Result<(), GpError>)
        requires
            old(self).data.wf(),
            old(self).pop_ok(),
        ensures
            Self::same_config(*old(self), *final(self)),
            (r is Ok) <==> all_train_scored(old(self).pop.core@),
            r is Ok ==> final(self).pop_ok() && all_train_scored(final(self).pop.core@)
                && sorted_by_te_key(final(self).pop.core@) && final(self).pop.core@.len() == (if old(
                self,
            ).pop_size <= old(self).pop.core@.len() {
                old(self).pop_size as int
            } else {
                old(self).pop.core@.len() as int
            }),
            r is Err ==> final(self).pop == old(self).pop,
    {
        let ghost pre = self.pop.core@;
        let r = self.pop.keep_k_best(self.pop_size);
        proof {
            if r is Ok {
                let s = choose|s: Seq<Individual>|
                    #![trigger s.to_multiset()]
                    s.to_multiset() == pre.to_multiset() && crate::population::sorted_by_te_key(s)
                        && self.pop.core@ == s.take(self.pop.core@.len() as int);
                assert(s.to_multiset().len() == s.len());
                assert(pre.to_multiset().len() == pre.len());
                assert(s.len() == pre.len());
                assert forall|i: int| 0 <= i < self.pop.core@.len() implies member_ok(
                    #[trigger] self.pop.core@[i],
                    &self.data,
                    self.variation_method,
                ) && self.pop.core@[i].train is Some && self.pop.core@[i].test is Some by {
                    let x = self.pop.core@[i];
                    assert(x == s.take(self.pop.core@.len() as int)[i]);
                    assert(x == s[i]);
                    assert(s.contains(x));
                    assert(s.to_multiset().count(x) > 0);
                    assert(pre.contains(x));
                }
            }
        }
        r
    }
}

} // verus!
