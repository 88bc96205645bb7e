//! The multi-population coordinator: several independent runs evolving in
//! parallel, trading their best individuals in a ring between turns.

use vstd::prelude::*;
use rayon::iter::{IntoParallelRefMutIterator, ParallelIterator};
use crate::errors::GpError;
use crate::gp::{GP, member_ok};
use crate::individual::Individual;
use crate::population::{all_train_scored, sorted_by_te_key};
use crate::data::Data;

verus! {

/// What one call of `GP::evolve` guarantees, as a relation between the state
/// before and after (the call's own `Result` is not kept): the dataset and
/// configuration are unchanged; with a valid configuration the new
/// population is fit for further evolution, fully scored, of the expected
/// size and (for at least one generation) sorted; with an invalid one the
/// population is untouched.
pub open spec fn evolve_rel(pre: GP, post: GP, gens: nat) -> bool {
    &&& GP::same_config(pre, post)
    &&& pre.config_ok() ==> post.pop_ok() && all_train_scored(post.pop.core@)
        && post.pop.core@.len() == (if pre.pop.core@.len() == 0 {
        pre.pop_size as int
    } else {
        pre.pop.core@.len() as int
    }) && (gens >= 1 ==> sorted_by_te_key(post.pop.core@))
    &&& !pre.config_ok() ==> post.pop == pre.pop
}

/// What one call of `GP::init_new_pop` guarantees, as a relation.
pub open spec fn init_rel(pre: GP, post: GP) -> bool {
    &&& GP::same_config(pre, post)
    &&& post.pop.core@.len() == pre.pop_size
    &&& post.pop_ok()
    &&& all_train_scored(post.pop.core@)
}

/// Relies on rayon's `par_iter_mut().for_each`: the closure is applied
/// exactly once to each element, elements are neither added, removed nor
/// reordered, and the closure here is the verified `GP::evolve`, whose
/// contract relates each element's new state to its old one.
#[verifier::external_body]
fn par_evolve_all(gps: &mut Vec<GP>, gens: usize)
    requires
        forall|i: int|
            0 <= i < old(gps)@.len() ==> (#[trigger] old(gps)@[i]).data.wf() && old(
                gps,
            )@[i].pop_ok(),
    ensures
        final(gps)@.len() == old(gps)@.len(),
        forall|i: int|
            0 <= i < old(gps)@.len() ==> evolve_rel(
                old(gps)@[i],
                #[trigger] final(gps)@[i],
                gens as nat,
            ),
{
    gps.par_iter_mut().for_each(|gp| {
        let _ = gp.evolve(gens);
    });
}

/// Relies on rayon's `par_iter_mut().for_each`: the closure is applied
/// exactly once to each element, elements are neither added, removed nor
/// reordered, and the closure here is the verified `GP::init_new_pop`.
#[verifier::external_body]
fn par_init_all(gps: &mut Vec<GP>)
    requires
        forall|i: int| 0 <= i < old(gps)@.len() ==> (#[trigger] old(gps)@[i]).data.wf(),
    ensures
        final(gps)@.len() == old(gps)@.len(),
        forall|i: int|
            0 <= i < old(gps)@.len() ==> init_rel(old(gps)@[i], #[trigger] final(gps)@[i]),
{
    gps.par_iter_mut().for_each(|gp| {
        gp.init_new_pop();
    });
}

/// `m` is a sequence of independent copies of the first `k` individuals of
/// `src` (all of `src` when it is shorter than `k`).
pub open spec fn copies_of_prefix(m: Seq<Individual>, src: Seq<Individual>, k: int) -> bool {
    &&& m.len() == (if k <= src.len() {
        k
    } else {
        src.len() as int
    })
    &&& forall|j: int| 0 <= j < m.len() ==> Individual::is_copy_of(#[trigger] m[j], src[j])
}

/// `post` is `pre` with copies of the first `k` individuals of `src`
/// appended to its population; nothing else changed.
pub open spec fn migrated_into(post: GP, pre: GP, src: GP, k: int) -> bool {
    &&& GP::same_config(pre, post)
    &&& post.pop.core@.len() == pre.pop.core@.len() + (if k <= src.pop.core@.len() {
        k
    } else {
        src.pop.core@.len() as int
    })
    &&& post.pop.core@.take(pre.pop.core@.len() as int) == pre.pop.core@
    &&& copies_of_prefix(
        post.pop.core@.skip(pre.pop.core@.len() as int),
        src.pop.core@,
        k,
    )
}

/// The sum of the first `k` sub-populations' configured sizes.
pub open spec fn sizes_sum(s: Seq<GP>, k: int) -> int
    decreases k,
{
    if k <= 0 {
        0
    } else {
        sizes_sum(s, k - 1) + s[k - 1].pop_size
    }
}

/// A group of independently configured runs over a shared dataset.
pub struct Mgp {
    pub core: Vec<GP>,
    pub pop_size: usize,
}

impl Mgp {
    /// Every sub-population can run: its dataset is well-formed and its
    /// individuals fit its variation policy.
    pub open spec fn wf(&self) -> bool {
        forall|i: int|
            0 <= i < self.core@.len() ==> (#[trigger] self.core@[i]).data.wf()
                && self.core@[i].pop_ok()
    }

    /// The sub-populations share one dataset and one kind of variation, so a
    /// migrant from any of them fits any other.
    pub open spec fn compatible(&self) -> bool {
        forall|i: int, j: int|
            0 <= i < self.core@.len() && 0 <= j < self.core@.len() ==> (#[trigger] self.core@[i]).data
                == (#[trigger] self.core@[j]).data && ((self.core@[i].variation_method
                is Standard) <==> (self.core@[j].variation_method is Standard))
    }

    /// Returns a blank coordinator to be configured.
    pub fn new() -> (r: Mgp)
        ensures
            r.core@.len() == 0,
            r.pop_size == 0,
    {
        Mgp { core: Vec::new(), pop_size: 0 }
    }

    /// Adds a sub-population.
    pub fn add_subpop(self, s: GP) -> (r: Mgp)
        ensures
            r.core@ == self.core@.push(s),
            r.pop_size == self.pop_size,
    {
        let mut m = self;
        m.core.push(s);
        m
    }

    /// Initializes every sub-population independently (in parallel) and
    /// records the total size as the sum of the sub-populations' configured
    /// sizes (saturating).
    pub fn init(&mut self)
        requires
            forall|i: int| 0 <= i < old(self).core@.len() ==> (#[trigger] old(self).core@[i]).data.wf(),
        ensures
            final(self).core@.len() == old(self).core@.len(),
            final(self).pop_size as int == crate::utils::sat_cap(
                sizes_sum(old(self).core@, old(self).core@.len() as int),
            ),
            forall|i: int|
                0 <= i < old(self).core@.len() ==> init_rel(
                    old(self).core@[i],
                    #[trigger] final(self).core@[i],
                ),
    {
        let n = self.core.len();
        let mut total: usize = 0;
        let mut i: usize = 0;
        while i < n
            invariant
                i <= n,
                n == self.core@.len(),
                *self == *old(self),
                total as int == crate::utils::sat_cap(sizes_sum(self.core@, i as int)),
            decreases n - i,
        {
            total = crate::utils::sat_add(total, self.core[i].pop_size);
            i += 1;
        }
        self.pop_size = total;
        par_init_all(&mut self.core);
    }

    /// One ring-migration step: every sub-population receives independent
    /// copies of the `k` first (best, after the sort that ends a turn)
    /// individuals of its predecessor, the first sub-population receiving
    /// the last one's, so the ring closes. Populations only gain these
    /// copies; nothing is removed or reordered.
    pub fn migrate_ring(&mut self, k: usize)
        requires
            old(self).core@.len() >= 1,
        ensures
            final(self).core@.len() == old(self).core@.len(),
            forall|i: int|
                1 <= i < old(self).core@.len() ==> migrated_into(
                    #[trigger] final(self).core@[i],
                    old(self).core@[i],
                    old(self).core@[i - 1],
                    k as int,
                ),
            migrated_into(
                final(self).core@[0],
                old(self).core@[0],
                old(self).core@[old(self).core@.len() - 1],
                k as int,
            ),
    {
        let n = self.core.len();
        let mut migrants: Vec<Vec<Individual>> = Vec::new();
        let mut i: usize = 0;
        while i < n
            invariant
                i <= n,
                n == self.core@.len(),
                *self == *old(self),
                migrants@.len() == i,
                forall|q: int|
                    0 <= q < i ==> copies_of_prefix(
                        (#[trigger] migrants@[q])@,
                        self.core@[q].pop.core@,
                        k as int,
                    ),
            decreases n - i,
        {
            migrants.push(self.core[i].pop().clone_k_best(k));
            i += 1;
        }
        let last_m = match migrants.pop() {
            Some(m) => m,
            None => {
                proof {
                    assert(false);
                }
                Vec::new()
            },
        };
        let mut j: usize = 1;
        while j < n
            invariant
                1 <= j <= n,
                n == self.core@.len(),
                self.core@.len() == old(self).core@.len(),
                migrants@.len() == n - j,
                forall|q: int|
                    0 <= q < migrants@.len() ==> copies_of_prefix(
                        (#[trigger] migrants@[q])@,
                        old(self).core@[q + j - 1].pop.core@,
                        k as int,
                    ),
                self.core@[0] == old(self).core@[0],
                forall|q: int| j <= q < n ==> #[trigger] self.core@[q] == old(self).core@[q],
                forall|q: int|
                    1 <= q < j ==> migrated_into(
                        #[trigger] self.core@[q],
                        old(self).core@[q],
                        old(self).core@[q - 1],
                        k as int,
                    ),
            decreases n - j,
        {
            let ghost pre_core = self.core@;
            let mig = migrants.remove(0);
            let mut gp = self.core.remove(j);
            let ghost pre_pop = gp.pop.core@;
            gp.pop.add_individuals(mig);
            self.core.insert(j, gp);
            proof {
                assert(self.core@ =~= pre_core.update(j as int, gp));
                assert(gp.pop.core@.take(pre_pop.len() as int) =~= pre_pop);
                assert(gp.pop.core@.skip(pre_pop.len() as int) =~= mig@);
            }
            j += 1;
        }
        let ghost pre_core = self.core@;
        let mut gp0 = self.core.remove(0);
        let ghost pre_pop = gp0.pop.core@;
        gp0.pop.add_individuals(last_m);
        self.core.insert(0, gp0);
        proof {
            assert(self.core@ =~= pre_core.update(0, gp0));
            assert(gp0.pop.core@.take(pre_pop.len() as int) =~= pre_pop);
            assert(gp0.pop.core@.skip(pre_pop.len() as int) =~= last_m@);
        }
    }

    /// Truncates every sub-population back to its configured size.
    fn clean_all(&mut self) -> (r: Result<(), GpError>)
        requires
            forall|i: int|
                0 <= i < old(self).core@.len() ==> (#[trigger] old(self).core@[i]).data.wf() && old(
                    self,
                ).core@[i].pop_ok() && all_train_scored(old(self).core@[i].pop.core@),
        ensures
            final(self).core@.len() == old(self).core@.len(),
            r is Ok,
            forall|i: int|
                0 <= i < old(self).core@.len() ==> GP::same_config(
                    old(self).core@[i],
                    #[trigger] final(self).core@[i],
                ) && final(self).core@[i].pop_ok() && all_train_scored(
                    final(self).core@[i].pop.core@,
                ) && final(self).core@[i].pop.core@.len() == (if old(self).core@[i].pop_size <= old(
                    self,
                ).core@[i].pop.core@.len() {
                    old(self).core@[i].pop_size as int
                } else {
                    old(self).core@[i].pop.core@.len() as int
                }),
            final(self).pop_size == old(self).pop_size,
    {
        let n = self.core.len();
        let mut j: usize = 0;
        while j < n
            invariant
                j <= n,
                n == self.core@.len(),
                self.core@.len() == old(self).core@.len(),
                self.pop_size == old(self).pop_size,
                forall|q: int|
                    0 <= q < n ==> (#[trigger] old(self).core@[q]).data.wf()
                        && old(self).core@[q].pop_ok() && all_train_scored(
                        old(self).core@[q].pop.core@,
                    ),
                forall|q: int| j <= q < n ==> #[trigger] self.core@[q] == old(self).core@[q],
                forall|q: int|
                    0 <= q < j ==> GP::same_config(
                        old(self).core@[q],
                        #[trigger] self.core@[q],
                    ) && self.core@[q].pop_ok() && all_train_scored(self.core@[q].pop.core@)
                        && self.core@[q].pop.core@.len() == (if old(self).core@[q].pop_size <= old(
                        self,
                    ).core@[q].pop.core@.len() {
                        old(self).core@[q].pop_size as int
                    } else {
                        old(self).core@[q].pop.core@.len() as int
                    }),
            decreases n - j,
        {
            let ghost pre_core = self.core@;
            let mut gp = self.core.remove(j);
            proof {
                assert(gp == old(self).core@[j as int]);
            }
            let r = gp.clean();
            proof {
                assert(r is Ok);
            }
            self.core.insert(j, gp);
            proof {
                assert(self.core@ =~= pre_core.update(j as int, gp));
            }
            j += 1;
        }
        Ok(())
    }

    /// Evolves all sub-populations for `turns` turns of `gens_per_turn`
    /// generations each, in parallel, with a ring migration of each
    /// sub-population's best 4 individuals between turns (none after the
    /// last turn), truncating every sub-population back to its configured
    /// size after each migration. Fails, touching nothing, when some
    /// sub-population's pool size is not positive or its selection policy is
    /// not implemented.
    pub fn evolve_in_parallel(&mut self, turns: u8, gens_per_turn: usize) -> (r: Result<
        (),
        GpError,
    >)
        requires
            old(self).wf(),
            old(self).compatible(),
            forall|i: int|
                0 <= i < old(self).core@.len() ==> (#[trigger] old(self).core@[i]).pop.core@.len()
                    == 0 || old(self).core@[i].pop.core@.len() == old(self).core@[i].pop_size,
        ensures
            final(self).core@.len() == old(self).core@.len(),
            (r is Ok) <==> (old(self).core@.len() >= 1 && (forall|i: int|
                0 <= i < old(self).core@.len() ==> (#[trigger] old(self).core@[i]).config_ok())),
            old(self).core@.len() == 0 ==> r == Err::<(), GpError>(GpError::InvalidPopulationSize),
            r is Err ==> *final(self) == *old(self),
            r is Ok ==> forall|i: int|
                0 <= i < old(self).core@.len() ==> GP::same_config(
                    old(self).core@[i],
                    #[trigger] final(self).core@[i],
                ) && final(self).core@[i].pop_ok() && all_train_scored(
                    final(self).core@[i].pop.core@,
                ) && final(self).core@[i].pop.core@.len() == old(self).core@[i].pop_size && (
                gens_per_turn >= 1 ==> sorted_by_te_key(final(self).core@[i].pop.core@)),
    {
        let n = self.core.len();
        if n == 0 {
            return Err(GpError::InvalidPopulationSize);
        }
        let mut i: usize = 0;
        while i < n
            invariant
                i <= n,
                n == self.core@.len(),
                *self == *old(self),
                forall|q: int| 0 <= q < i ==> (#[trigger] self.core@[q]).config_ok(),
            decreases n - i,
        {
            if self.core[i].pool_size < 1 {
                return Err(GpError::InvalidPoolSize);
            }
            match self.core[i].selection_method {
                crate::gp::Selection::Tournament => {},
                _ => {
                    return Err(GpError::NotImplemented);
                },
            }
            i += 1;
        }
        let mut turn: u8 = 1;
        while turn < turns
            invariant
                n == self.core@.len(),
                self.core@.len() == old(self).core@.len(),
                n >= 1,
                forall|q: int|
                    0 <= q < n ==> GP::same_config(
                        old(self).core@[q],
                        #[trigger] self.core@[q],
                    ),
                forall|q: int| 0 <= q < n ==> (#[trigger] self.core@[q]).data.wf(),
                forall|q: int| 0 <= q < n ==> (#[trigger] self.core@[q]).pop_ok(),
                forall|q: int| 0 <= q < n ==> (#[trigger] self.core@[q]).config_ok(),
                forall|q: int, w: int|
                    0 <= q < n && 0 <= w < n ==> (#[trigger] self.core@[q]).data == (
                    #[trigger] self.core@[w]).data && ((self.core@[q].variation_method
                        is Standard) <==> (self.core@[w].variation_method is Standard)),
                forall|q: int|
                    0 <= q < n ==> (#[trigger] self.core@[q]).pop.core@.len() == 0
                        || self.core@[q].pop.core@.len() == self.core@[q].pop_size,
            decreases turns - turn,
        {
            self.evolve_once_and_migrate(gens_per_turn);
            turn += 1;
        }
        par_evolve_all(&mut self.core, gens_per_turn);
        Ok(())
    }

    /// One turn: evolve every sub-population in parallel, migrate in a ring,
    /// truncate back to the configured sizes.
    fn evolve_once_and_migrate(&mut self, gens_per_turn: usize)
        requires
            old(self).core@.len() >= 1,
            old(self).wf(),
            old(self).compatible(),
            forall|i: int| 0 <= i < old(self).core@.len() ==> (#[trigger] old(self).core@[i]).config_ok(),
            forall|i: int|
                0 <= i < old(self).core@.len() ==> (#[trigger] old(self).core@[i]).pop.core@.len()
                    == 0 || old(self).core@[i].pop.core@.len() == old(self).core@[i].pop_size,
        ensures
            final(self).core@.len() == old(self).core@.len(),
            final(self).wf(),
            final(self).compatible(),
            forall|i: int|
                0 <= i < old(self).core@.len() ==> GP::same_config(
                    old(self).core@[i],
                    #[trigger] final(self).core@[i],
                ) && final(self).core@[i].pop.core@.len() == old(self).core@[i].pop_size,
    {
        par_evolve_all(&mut self.core, gens_per_turn);
        let ghost evolved = self.core@;
        self.migrate_ring(4);
        proof {
            assert forall|q: int| 0 <= q < self.core@.len() implies (
            #[trigger] self.core@[q]).data.wf() && self.core@[q].pop_ok() && all_train_scored(
                self.core@[q].pop.core@,
            ) by {
                let src = if q == 0 {
                    evolved.len() - 1
                } else {
                    q - 1
                };
                assert(migrated_into(self.core@[q], evolved[q], evolved[src], 4));
                let pre = evolved[q].pop.core@;
                let post = self.core@[q].pop.core@;
                assert forall|w: int| 0 <= w < post.len() implies member_ok(
                    #[trigger] post[w],
                    &self.core@[q].data,
                    self.core@[q].variation_method,
                ) && post[w].train is Some by {
                    if w < pre.len() {
                        assert(post[w] == post.take(pre.len() as int)[w]);
                        assert(post[w] == pre[w]);
                    } else {
                        let m = post.skip(pre.len() as int);
                        assert(post[w] == m[w - pre.len()]);
                        assert(Individual::is_copy_of(m[w - pre.len()], evolved[src].pop.core@[w
                            - pre.len()]));
                        lemma_copy_member_ok(
                            m[w - pre.len()],
                            evolved[src].pop.core@[w - pre.len()],
                            &self.core@[q].data,
                            self.core@[q].variation_method,
                            self.core@[src].variation_method,
                        );
                    }
                }
            }
        }
        let r = self.clean_all();
        proof {
            assert(r is Ok);
        }
    }
}

/// A copy of an individual fit for one variation policy is fit for any
/// policy of the same kind over the same data.
proof fn lemma_copy_member_ok(
    copy: Individual,
    orig: Individual,
    data: &Data,
    v_dst: crate::gp::Variation,
    v_src: crate::gp::Variation,
)
    requires
        Individual::is_copy_of(copy, orig),
        member_ok(orig, data, v_src),
        (v_dst is Standard) <==> (v_src is Standard),
    ensures
        member_ok(copy, data, v_dst),
        copy.train is Some,
{
}

} // verus!
