//! Populations, selection, the generational loop and ring migration.

use treegp::data::Data;
use treegp::errors::GpError;
use treegp::gp::{GP, Selection};
use treegp::individual::Individual;
use treegp::multi_gp::Mgp;
use treegp::population::Population;

fn bv(xs: &[f32]) -> Vec<u32> {
    xs.iter().map(|x| x.to_bits()).collect()
}

fn dataset() -> Data {
    let train = vec![bv(&[1.0, 2.0, 3.0]), bv(&[2.0, 3.0, 4.0]), bv(&[3.0, 5.0, 7.0])];
    let test = vec![bv(&[1.5, 2.5, 3.5]), bv(&[2.5, 3.5, 4.5]), bv(&[4.0, 6.0, 8.0])];
    Data::new(train, test).unwrap()
}

/// A constant tree, fully evaluated: its training error grows with the
/// distance of `c` from the target column, so distinct constants give
/// distinct, ordered errors.
fn constant_individual(c: f32, data: &Data) -> Individual {
    let mut ind = Individual::new();
    ind.plug_in_core(vec![treegp::node::Node::Constant(c.to_bits())]);
    ind.compute_semantics(data).unwrap();
    ind.evaluate(data);
    ind.compute_depth();
    ind
}

fn constant_population(cs: &[f32], data: &Data) -> Population {
    let mut p = Population::new();
    for c in cs {
        p.add_individual(constant_individual(*c, data));
    }
    p
}

#[test]
fn ramped_half_and_half_fills_the_population_exactly() {
    let d = dataset();
    let p = Population::new_rhh(10, 2, &d);
    assert_eq!(p.size(), 10);
    assert!(!p.is_empty());
    for ind in p.individuals() {
        assert!(ind.train().is_some() && ind.test().is_some());
    }
}

#[test]
fn ramped_half_and_half_splits_the_depth_groups_evenly() {
    // popSize = 10, maxDepth = 2: both depth groups get 5.
    assert_eq!(Population::depth_group_size(10, 2, 1), 5);
    assert_eq!(Population::depth_group_size(10, 2, 2), 5);
    // The deepest group absorbs the remainder.
    assert_eq!(Population::depth_group_size(7, 3, 1), 2);
    assert_eq!(Population::depth_group_size(7, 3, 2), 2);
    assert_eq!(Population::depth_group_size(7, 3, 3), 3);
}

#[test]
fn sorting_orders_by_training_error() {
    let d = dataset();
    // Targets are [3, 5, 7]: larger constants up to 3 fit better.
    let mut p = constant_population(&[0.0, 1.0, 0.5], &d);
    p.sort_by_te().unwrap();
    let keys: Vec<u32> = p.individuals().iter().map(|i| i.train().unwrap()).collect();
    assert!(keys[0] <= keys[1] && keys[1] <= keys[2]);
    let first = p.get_first().train().unwrap();
    assert_eq!(first, keys[0]);
}

#[test]
fn sorting_fails_on_an_unevaluated_individual() {
    let d = dataset();
    let mut p = constant_population(&[0.0], &d);
    p.add_individual(Individual::new());
    assert_eq!(p.sort_by_te(), Err(GpError::UnevaluatedIndividual));
}

#[test]
fn keep_k_best_truncates_to_the_fittest() {
    let d = dataset();
    let mut p = constant_population(&[0.0, 1.0, 0.5, -1.0], &d);
    let best = {
        let mut keys: Vec<u32> = p.individuals().iter().map(|i| i.train().unwrap()).collect();
        keys.sort();
        keys[0]
    };
    p.keep_k_best(2).unwrap();
    assert_eq!(p.size(), 2);
    assert_eq!(p.get_first().train().unwrap(), best);
}

#[test]
fn clone_k_best_copies_the_leading_individuals() {
    let d = dataset();
    let p = constant_population(&[0.25, 0.5], &d);
    let copies = p.clone_k_best(4);
    assert_eq!(copies.len(), 2);
    assert_eq!(copies[0].train(), p.individuals()[0].train());
    assert_eq!(copies[0].clone_core(), p.individuals()[0].clone_core());
}

#[test]
fn tournament_over_a_population_of_one_returns_that_individual() {
    let d = dataset();
    let p = constant_population(&[0.75], &d);
    for pool_size in [1usize, 2, 5, 9] {
        let winner = p.tournament_select(pool_size).unwrap();
        assert_eq!(winner.train(), p.individuals()[0].train());
    }
}

#[test]
fn tournament_rejects_an_empty_pool() {
    let d = dataset();
    let p = constant_population(&[0.75], &d);
    assert!(matches!(p.tournament_select(0), Err(GpError::InvalidPoolSize)));
}

#[test]
fn declared_selection_policies_fail_loudly() {
    let d = dataset();
    let p = constant_population(&[0.75], &d);
    assert!(matches!(p.fitness_proportionate_select(3), Err(GpError::NotImplemented)));
    assert!(matches!(p.rank_select(3), Err(GpError::NotImplemented)));
    assert!(matches!(p.pareto_rank_select(3), Err(GpError::NotImplemented)));
}

#[test]
fn evolve_runs_a_standard_generation_loop() {
    let gp = GP::new_gp(dataset());
    let mut gp = gp.set_pop_size(8).set_pool_size(3).set_xo_rate(0.5f32.to_bits());
    gp.evolve(2).unwrap();
    assert_eq!(gp.pop().size(), 8);
    let keys: Vec<u32> = gp.pop().individuals().iter().map(|i| i.train().unwrap()).collect();
    for w in keys.windows(2) {
        assert!(w[0] <= w[1]);
    }
}

#[test]
fn evolve_runs_a_geometric_semantic_generation_loop() {
    let mut gp = GP::new_gsgp(dataset()).set_pop_size(6).set_pool_size(2);
    gp.evolve(2).unwrap();
    assert_eq!(gp.pop().size(), 6);
    for ind in gp.pop().individuals() {
        assert!(ind.train().is_some());
        assert!(ind.size() > 0);
    }
}

#[test]
fn evolve_rejects_an_unimplemented_selection_policy() {
    let mut gp = GP::new_gp(dataset()).set_pop_size(4).set_selection_method(Selection::Rank);
    assert_eq!(gp.evolve(1), Err(GpError::NotImplemented));
}

#[test]
fn evolve_rejects_an_empty_selection_pool() {
    let mut gp = GP::new_gp(dataset()).set_pop_size(4).set_pool_size(0);
    assert_eq!(gp.evolve(1), Err(GpError::InvalidPoolSize));
}

#[test]
fn clean_restores_the_population_ceiling() {
    let d = dataset();
    let pop = constant_population(&[0.0, 0.25, 0.5, 0.75, 1.0], &d);
    let mut gp = GP::new_gp(dataset()).set_pop_size(5).set_pop(pop);
    gp = gp.set_pop_size(3);
    gp.clean().unwrap();
    assert_eq!(gp.pop().size(), 3);
}

#[test]
fn ring_migration_feeds_each_population_from_its_predecessor() {
    // Three sub-populations with recognizable error keys; after one
    // migration step (before truncation) each holds its own individuals
    // followed by copies of its predecessor's best 4; the last feeds the
    // first, closing the ring.
    let gp_of = |cs: &[f32]| {
        let d = dataset();
        let pop = constant_population(cs, &d);
        GP::new_gp(dataset()).set_pop_size(4).set_pop(pop)
    };
    let a = gp_of(&[0.0, 0.25, 0.5, 0.75]);
    let b = gp_of(&[-0.25, -0.5, -0.75, -1.0]);
    let c = gp_of(&[1.0, 0.0, -1.0, 0.25]);
    let keys =
        |gp: &GP| -> Vec<u32> { gp.pop().individuals().iter().map(|i| i.train().unwrap()).collect() };
    let (ka, kb, kc) = (keys(&a), keys(&b), keys(&c));
    let mut mgp = Mgp::new().add_subpop(a).add_subpop(b).add_subpop(c);
    mgp.migrate_ring(4);
    let ka2 = keys(&mgp.core[0]);
    let kb2 = keys(&mgp.core[1]);
    let kc2 = keys(&mgp.core[2]);
    assert_eq!(ka2.len(), 8);
    assert_eq!(&ka2[..4], &ka[..]);
    assert_eq!(&ka2[4..], &kc[..], "A receives C's best");
    assert_eq!(&kb2[..4], &kb[..]);
    assert_eq!(&kb2[4..], &ka[..], "B receives A's best");
    assert_eq!(&kc2[..4], &kc[..]);
    assert_eq!(&kc2[4..], &kb[..], "C receives B's best");
}

#[test]
fn multi_population_evolution_initializes_and_keeps_sizes() {
    let gp1 = GP::new_gp(dataset()).set_pop_size(5).set_pool_size(2).set_xo_rate(
        0.5f32.to_bits(),
    );
    let gp2 = GP::new_gp(dataset()).set_pop_size(5).set_pool_size(2).set_xo_rate(
        0.5f32.to_bits(),
    );
    let mut mgp = Mgp::new().add_subpop(gp1).add_subpop(gp2);
    mgp.init();
    assert_eq!(mgp.pop_size, 10);
    assert_eq!(mgp.core[0].pop().size(), 5);
    assert_eq!(mgp.core[1].pop().size(), 5);
    mgp.evolve_in_parallel(3, 1).unwrap();
    assert_eq!(mgp.core[0].pop().size(), 5);
    assert_eq!(mgp.core[1].pop().size(), 5);
}

#[test]
fn parallel_evolution_fills_empty_populations() {
    // `evolve` initializes an empty population itself, so a run over
    // never-initialized sub-populations must still come back full: this
    // fails if the parallel fan-out never ran the closure.
    let gp1 = GP::new_gp(dataset()).set_pop_size(4).set_pool_size(2);
    let gp2 = GP::new_gp(dataset()).set_pop_size(4).set_pool_size(2);
    let mut mgp = Mgp::new().add_subpop(gp1).add_subpop(gp2);
    mgp.evolve_in_parallel(1, 1).unwrap();
    assert_eq!(mgp.core[0].pop().size(), 4);
    assert_eq!(mgp.core[1].pop().size(), 4);
}

#[test]
fn parallel_evolution_rejects_an_empty_coordinator() {
    let mut mgp = Mgp::new();
    assert_eq!(mgp.evolve_in_parallel(2, 1), Err(GpError::InvalidPopulationSize));
}

#[test]
fn parallel_evolution_rejects_a_bad_subpopulation_config() {
    let gp1 = GP::new_gp(dataset()).set_pop_size(4).set_pool_size(0);
    let mut mgp = Mgp::new().add_subpop(gp1);
    assert_eq!(mgp.evolve_in_parallel(2, 1), Err(GpError::InvalidPoolSize));
}

#[test]
fn population_accessors_expose_and_update_members() {
    let d = dataset();
    let mut p = constant_population(&[0.5], &d);
    assert_eq!(p.individuals().len(), 1);
    p.core_mut().push(constant_individual(0.25, &d));
    assert_eq!(p.size(), 2);
    let mut gp = GP::new_gp(dataset()).set_pop_size(2).set_pop(p);
    gp.pop_mut().add_individual(constant_individual(0.75, &d));
    assert_eq!(gp.pop().size(), 3);
}
