use gras::child::{
    child_seed, draw_operator, founder_origin, lineage, random_child, random_origin, replay_parity,
    replay_segments, Crossing, Crossover, RandomChild, Settled,
};
use gras::config::{DimRange, RaceConfig, TopologyOptions};
use gras::generation::{
    compute_gen_stats, count_survivors, crossover_pairs, data_source, draw_mutation,
    find_first_places, gen_file_name, genetics_seed, improves, keep_finite, mutates, pair_crosses,
    refill_seeds, reorder_scores, test_seed, train_seed, DataSource, Draws, GenStep, PoolSizes,
};
use gras::labels::{Activation, CombineOp, CrossoverOp, StandardizeOp};
use gras::net::{Net, NetMetrics};
use gras::options::{
    BuiltIns, CrossoverMethod, EngineOptions, MutationMethod, OptionsError, SelectionMethod, Split,
};
use gras::population::{choose_population, draw_topology, gene_pools, pick_seed, Pick, SPARE_DRAWS};
use gras::race::Race;
use gras::robustness::{export_header, export_row, sort_report, RobustnessTable, SpreadTexts};
use gras::score::{Direction, Score};
use gras::seeds::{derive_seed, sample_hidden_dim, split_dataset, GenePools};
use gras::tensor_file::Dtype;

fn score(x: f32) -> Score {
    Score::from_bits(x.to_bits())
}

fn built_ins() -> BuiltIns {
    BuiltIns {
        combine_ops: vec![CombineOp::Add, CombineOp::Mean, CombineOp::Max, CombineOp::Min],
        activations: vec![
            Activation::Identity,
            Activation::ReLU,
            Activation::GeLU,
            Activation::SiLU,
            Activation::SELU,
            Activation::Tanh,
            Activation::Sigmoid,
            Activation::Mish,
            Activation::LeakyReLU,
            Activation::ELU,
            Activation::GeluTanh,
            Activation::Softplus,
            Activation::HardSwish,
            Activation::HardSigmoid,
            Activation::Sin,
            Activation::Cos,
        ],
        standardize_ops: vec![StandardizeOp::Identity],
    }
}

#[test]
fn test_engine_builder_chains_and_validates() {
    let tournament = SelectionMethod::Tournament { tournament_size: 2 };
    let one_point = CrossoverMethod::OnePoint { action_prob: score(0.5) };
    let mutation = MutationMethod::Activation { prob: score(0.1) };
    let opts = EngineOptions::builder()
        .set_pop_size(15)
        .set_num_generations(3)
        .set_seed(Some(42))
        .set_hidden_dim(16)
        .set_hidden_dim_pool(DimRange { start: 8, end: 32 })
        .set_combine_op_pool(vec![CombineOp::Add, CombineOp::Mean])
        .set_activation_pool(vec![Activation::ReLU, Activation::GeLU])
        .set_selection(tournament)
        .set_crossover(one_point)
        .set_mutation(mutation)
        .set_train_num_batches(4)
        .set_test_num_batches(4)
        .set_train_batch_size(32)
        .set_test_batch_size(32)
        .set_num_threads(2)
        .set_dtype(Dtype::Float32)
        .build(built_ins())
        .unwrap();
    assert_eq!(opts.pop_size, Some(15));
    assert_eq!(opts.num_generations, Some(3));
    assert_eq!(opts.seed, Some(42));
    assert_eq!(opts.hidden_dim_pool, DimRange { start: 8, end: 32 });
    assert_eq!(opts.combine_op_pool, vec![CombineOp::Add, CombineOp::Mean]);
    assert_eq!(opts.train_num_batches, 4);
    assert_eq!(opts.test_num_batches, 4);
    assert_eq!(opts.train_batch_size, 32);
    assert_eq!(opts.test_batch_size, 32);
    assert_eq!(opts.dtype, Dtype::Float32);
    assert!(EngineOptions::builder().set_pop_size(0).build(built_ins()).is_err());
    assert!(
        EngineOptions::builder()
            .set_train_num_batches(2)
            .set_train_batch_size(0)
            .build(built_ins())
            .is_err()
    );
    assert!(
        EngineOptions::builder()
            .set_pop_size(4)
            .set_num_generations(1)
            .set_hidden_dim_pool(DimRange { start: 4, end: 4 })
            .set_train_num_batches(2)
            .set_test_num_batches(2)
            .set_train_batch_size(8)
            .set_test_batch_size(8)
            .set_num_epochs(1)
            .build(built_ins())
            .is_err()
    );
    let opts = EngineOptions::builder()
        .set_pop_size(4)
        .set_num_generations(1)
        .set_selection(tournament)
        .set_crossover(one_point)
        .set_mutation(mutation)
        .set_combine_op_pool(vec![])
        .build(built_ins())
        .unwrap();
    assert_eq!(opts.combine_op_pool.len(), 4);
    let opts = EngineOptions::builder()
        .set_pop_size(4)
        .set_num_generations(1)
        .set_selection(tournament)
        .set_crossover(one_point)
        .set_mutation(mutation)
        .set_activation_pool(vec![])
        .build(built_ins())
        .unwrap();
    assert_eq!(opts.activation_pool.len(), 16);
}

fn complete() -> gras::options::EngineOptionsBuilder {
    EngineOptions::builder()
        .set_pop_size(4)
        .set_num_generations(1)
        .set_selection(SelectionMethod::Tournament { tournament_size: 2 })
        .set_crossover(CrossoverMethod::default())
        .set_mutation(MutationMethod::CombineOp { prob: score(0.1) })
}

#[test]
fn every_missing_option_is_named() {
    let err = |b: gras::options::EngineOptionsBuilder| b.build(built_ins()).unwrap_err();
    let new = EngineOptions::builder;
    assert_eq!(err(new()), OptionsError::PopSizeMissing);
    assert_eq!(err(complete().set_pop_size(1)), OptionsError::PopSizeTooSmall);
    assert_eq!(err(new().set_pop_size(2)), OptionsError::GenerationsMissing);
    assert_eq!(err(complete().set_num_generations(0)), OptionsError::NoGeneration);
    assert_eq!(err(complete().set_elite_count(0)), OptionsError::NoElite);
    let split = Split {
        train: score(0.8),
        test: score(0.1),
        sums_to_one: false,
        shown: "0.8+0.1=0.90".to_string(),
    };
    let refused = err(complete().set_train_test_split(split));
    assert_eq!(refused, OptionsError::SplitSum);
    assert_eq!(
        refused.message("0.8+0.1=0.90"),
        "train_test_split must sum to 1.0, got 0.8+0.1=0.90"
    );
    assert_eq!(
        err(new().set_pop_size(2).set_num_generations(1)),
        OptionsError::SelectionMissing
    );
    assert_eq!(
        err(new()
            .set_pop_size(2)
            .set_num_generations(1)
            .set_selection(SelectionMethod::Tournament { tournament_size: 2 })),
        OptionsError::CrossoverMissing
    );
    assert_eq!(
        err(complete().set_mutation(MutationMethod::Standardize { prob: score(-0.0) })),
        OptionsError::MutationMissing
    );
    let both = complete()
        .set_resume_from("run".to_string())
        .set_prior_topology("a.json".to_string());
    let refused = err(both);
    assert_eq!(refused, OptionsError::ResumeWithPriors);
    assert!(refused.message("").contains("mutually exclusive"));
    assert_eq!(
        OptionsError::PopSizeMissing.message(""),
        "set_pop_size() is required — must be >= 2"
    );
}

#[test]
fn test_engine_rejects_bad_budget() {
    let mut bad = complete().build(built_ins()).unwrap();
    bad.train_num_batches = 2;
    bad.test_num_batches = 2;
    bad.train_batch_size = 0;
    bad.test_batch_size = 0;
    let e = bad.validate_and_fill_options(built_ins()).unwrap_err();
    assert_eq!(e, OptionsError::TrainBatchSize);
    assert_eq!(e.message(""), "train_num_batches > 0 requires train_batch_size > 0");
    bad.train_batch_size = 1;
    assert_eq!(
        bad.validate_and_fill_options(built_ins()).unwrap_err(),
        OptionsError::TestBatchSize
    );
}

#[test]
fn a_run_fills_in_what_it_needs() {
    let mut o = EngineOptions::defaults();
    o.train_num_batches = 0;
    o.train_batch_size = 0;
    o.test_num_batches = 3;
    o.hidden_dim_stride = 0;
    o.hidden_dim_pool = DimRange { start: 9, end: 2 };
    o.train_y_proportional = true;
    o.validate_and_fill_options(built_ins()).unwrap();
    assert_eq!((o.train_num_batches, o.train_batch_size), (16, 32));
    assert_eq!(o.training.num_batches_train, 16);
    assert_eq!(o.training.num_batches_eval, 3);
    assert_eq!(o.training.batch_size_eval, 32);
    assert!(o.training.train_y_proportional);
    assert_eq!(o.hidden_dim_stride, 1);
    assert_eq!(o.hidden_dim_pool, DimRange { start: 4, end: 8 });
    assert_eq!(o.activation_pool.len(), 16);
    assert_eq!(o.dropout_prob, score(0.1));
    assert_eq!(o.train_test_split.train, score(0.8));
    assert_eq!(o.train_test_split.test, score(0.2));
}

#[test]
fn shares_are_brought_into_range_and_strides_are_positive() {
    let drop = |p: f32| EngineOptions::builder().set_dropout_prob(score(p)).inner.dropout_prob;
    for p in [-1.0f32, 0.0, 0.25, 1.0, 7.0, f32::INFINITY, f32::NEG_INFINITY] {
        assert_eq!(drop(p), score(p.clamp(0.0, 1.0)), "{p}");
    }
    assert!(drop(f32::NAN).is_nan());
    assert_eq!(EngineOptions::builder().set_hidden_dim_stride(0).inner.hidden_dim_stride, 1);
    assert_eq!(
        CrossoverMethod::default(),
        CrossoverMethod::Uniform { action_prob: score(0.7), swap_prob: score(0.5) }
    );
    assert_eq!(CrossoverMethod::default().action_prob(), score(0.7));
    let o = EngineOptions::builder()
        .set_prior_topologies(vec!["a".to_string(), "b".to_string()])
        .set_prior_topology("c".to_string())
        .inner;
    assert_eq!(o.prior_topology_paths, vec!["a", "b", "c"]);
    assert_eq!(o.derive_topology_options(7).topology_seed, Some(7));
    let mut t = TopologyOptions::unset();
    t.input_dim = Some(3);
    let o = EngineOptions::builder().set_topology_options(t).set_max_hidden_num_nodes(9).inner;
    assert_eq!(o.topology_options.input_dim, Some(3));
    assert_eq!(o.topology_options.max_hidden_num_nodes, Some(9));
}

#[test]
fn test_hidden_dim_stride() {
    let mut state: u64 = 42;
    let mut sample = |pool: DimRange, stride: usize| {
        let (v, next) = sample_hidden_dim(pool, stride, state);
        state = next;
        v
    };
    let pool = DimRange { start: 32, end: 64 };
    let mut seen = std::collections::HashSet::new();
    for _ in 0..200 {
        let v = sample(pool, 16);
        seen.insert(v);
        assert!(v >= 32 && v <= 64, "out of range: {v}");
        assert!((v - 32) % 16 == 0, "not on stride: {v}");
    }
    assert_eq!(seen, std::collections::HashSet::from([32, 48, 64]));

    let pool2 = DimRange { start: 4, end: 8 };
    let mut seen2 = std::collections::HashSet::new();
    for _ in 0..200 {
        seen2.insert(sample(pool2, 1));
    }
    assert_eq!(seen2, std::collections::HashSet::from([4, 5, 6, 7, 8]));

    let pool3 = DimRange { start: 50, end: 100 };
    let mut seen3 = std::collections::HashSet::new();
    for _ in 0..200 {
        let v = sample(pool3, 16);
        seen3.insert(v);
        assert!((v - 50) % 16 == 0, "not on stride: {v}");
    }
    assert_eq!(seen3, std::collections::HashSet::from([50, 66, 82, 98]));
}

#[test]
fn draws_are_those_of_the_generator() {
    let mut rng = fastrand::Rng::with_seed(42);
    let mut state: u64 = 42;
    for _ in 0..100 {
        let (v, next) = sample_hidden_dim(DimRange { start: 50, end: 100 }, 16, state);
        state = next;
        assert_eq!(v, 50 + rng.usize(0..4) * 16);
    }
    assert_eq!(derive_seed(5, 0), 5);
    assert_eq!(derive_seed(5, 1), 5u64.wrapping_add(0x9E37_79B9_7F4A_7C15));
}

// ── The first population ─────────────────────────────────────────────────

fn tiny_config(pop: usize) -> RaceConfig {
    let mut cfg = RaceConfig::defaults();
    cfg.pop_size = pop;
    cfg.hidden_dim_pool = Some(DimRange { start: 4, end: 4 });
    cfg
}

/// The first population of a configuration, each topology as a text.
fn initial_population(cfg: &RaceConfig, pools: (usize, usize, usize), run_seed: u64) -> Vec<String> {
    let pools = gene_pools(cfg, pools.0, pools.1, pools.2);
    let draw = |ordinal: usize| format!("{:?}", draw_topology(pools, 1, 1, run_seed, ordinal).hidden);
    let initial: Vec<Option<String>> = (0..cfg.pop_size).map(|i| Some(draw(i))).collect();
    let spare: Vec<Option<String>> =
        (0..SPARE_DRAWS).map(|k| Some(draw(cfg.pop_size + k))).collect();
    choose_population(&initial, &spare)
        .into_iter()
        .map(|p| match p {
            Pick::Initial(i) => initial[i].clone().unwrap(),
            Pick::Spare(k) => spare[k].clone().unwrap(),
        })
        .collect()
}

#[test]
fn population_size_is_preserved_despite_duplicates() {
    let cfg = tiny_config(6);
    let topos = initial_population(&cfg, (18, 7, 4), 42);
    assert_eq!(topos.len(), 6, "dedupe must not shrink the population");
}

#[test]
fn population_has_no_duplicate_hashes() {
    let cfg = tiny_config(6);
    let mut hashes = initial_population(&cfg, (18, 7, 4), 42);
    let total = hashes.len();
    hashes.sort();
    hashes.dedup();
    assert_eq!(hashes.len(), total, "no two topologies may share a hash");
}

#[test]
fn population_is_deterministic_given_seed() {
    let cfg = tiny_config(6);
    let a = initial_population(&cfg, (18, 7, 4), 42);
    let b = initial_population(&cfg, (18, 7, 4), 42);
    assert_eq!(a, b, "same seed ⇒ bit-identical population");
    assert_ne!(a, initial_population(&cfg, (18, 7, 4), 43));
}

#[test]
fn forced_space_of_one_keeps_exactly_one_unique() {
    let cfg = tiny_config(3);
    let mut topos = initial_population(&cfg, (1, 1, 1), 42);
    assert_eq!(topos.len(), 3, "pop size preserved even when trapped");
    topos.dedup();
    assert_eq!(topos.len(), 1);
}

#[test]
fn a_repeat_is_kept_when_no_spare_that_is_tried_is_fresh() {
    let some = |s: &str| Some(s.to_string());
    let initial = vec![some("a"), some("a")];
    let mut spare = vec![some("a"); SPARE_DRAWS];
    spare.push(some("b"));
    assert_eq!(choose_population(&initial, &spare), vec![Pick::Initial(0), Pick::Initial(1)]);
    spare[SPARE_DRAWS - 1] = some("b");
    assert_eq!(
        choose_population(&initial, &spare),
        vec![Pick::Initial(0), Pick::Spare(SPARE_DRAWS - 1)]
    );
}

#[test]
fn a_repeat_is_replaced_by_the_first_fresh_spare() {
    let some = |s: &str| Some(s.to_string());
    let picks = choose_population(
        &vec![some("a"), some("a"), None, some("b"), some("b"), some("a")],
        &vec![None, some("b"), some("c"), some("d")],
    );
    assert_eq!(
        picks,
        vec![
            Pick::Initial(0),
            Pick::Spare(1),
            Pick::Initial(2),
            Pick::Spare(2),
            Pick::Spare(3),
            Pick::Initial(5),
        ]
    );
    assert_eq!(pick_seed(9, 6, Pick::Spare(2)), derive_seed(9, 8));
    assert_eq!(pick_seed(9, 6, Pick::Initial(2)), derive_seed(9, 2));
}

#[test]
fn the_default_range_and_stride_stand_in() {
    let mut cfg = RaceConfig::defaults();
    cfg.hidden_dim_pool = None;
    cfg.hidden_dim_stride = 0;
    assert_eq!(
        gene_pools(&cfg, 1, 2, 3),
        GenePools {
            dims: DimRange { start: 4, end: 8 },
            stride: 1,
            activations: 1,
            combines: 2,
            standardizes: 3,
        }
    );
}

// ── Children ─────────────────────────────────────────────────────────────

#[test]
fn core_child_generation_is_deterministic_per_run_seed_and_clock() {
    let pools = gene_pools(&RaceConfig::defaults(), 5, 5, 5);
    let a = random_child(pools, 1, 6, 123, 3, 0);
    let b = random_child(pools, 1, 6, 123, 3, 0);
    assert_eq!(a.seed, b.seed);
    assert_eq!(a.hidden, b.hidden, "same seed + clock ⇒ same child topology");
    assert_eq!(a.seed, child_seed(123, 3, 0));
    assert_eq!(a.seed, derive_seed(123, 3 * 1024));
    assert_ne!(a.seed, random_child(pools, 1, 6, 123, 3, 1).seed, "siblings differ");
}

#[test]
fn core_mutation_prob_zero_and_one_flips_mut_suffix() {
    assert_eq!(lineage(random_origin(), &vec![], false), "random");
    assert_eq!(lineage(random_origin(), &vec![], true), "random+mut");
    let parents = vec!["h1".to_string(), "h2".to_string()];
    assert_eq!(
        lineage("crossover-uniform", &parents, false),
        "crossover-uniform:parents=h1,h2"
    );
    assert_eq!(founder_origin(12), "founder-12");
}

#[test]
fn core_failed_crossover_after_three_attempts_is_a_noop() {
    let mut race = Race::new(Direction::Minimize, 1, 10);
    for h in ["a", "b"] {
        race.insert(Net::fresh(h.to_string(), 1, 0, None, 10));
    }
    let mut crossing = begin(&race, 0.0);
    for pair in 1..3 {
        assert_eq!(crossing.pair, pair);
        crossing = match crossing.settle(&race, &vec![0, 1], false, 70 + pair as u64) {
            Settled::DrawAgain(next) => next,
            other => panic!("other parents are to be drawn: {other:?}"),
        };
        assert_eq!(crossing.state, 70 + pair as u64);
        assert_eq!(crossing.op, CrossoverOp::Uniform, "the operator stays");
    }
    let last = crossing.settle(&race, &vec![0, 1], false, 9);
    assert!(
        matches!(last, Settled::Spent),
        "3 failed crossovers ⇒ spent roll (no child), not a random fallback"
    );
    assert_eq!(race.live_count(), 2, "population must be untouched by a spent crossover roll");
}

/// Begins a crossover of the one operator for a number drawn below 0.5.
fn begin(race: &Race, draw: f32) -> Crossing {
    match race.begin_crossover(score(draw), score(0.5), &vec![CrossoverOp::Uniform], 7) {
        Crossover::Draw(c) => c,
        other => panic!("the roll fires: {other:?}"),
    }
}

#[test]
fn a_crossing_names_its_parents() {
    let mut race = Race::new(Direction::Maximize, 1, 10);
    for h in ["a", "b", "c"] {
        race.insert(Net::fresh(h.to_string(), 1, 0, None, 10));
    }
    race.carry_step(1, score(0.9), None, score(0.9));
    let crossing = begin(&race, 0.25);
    assert_eq!(crossing.ranked[0].index, 1, "the best net leads");
    match crossing.settle(&race, &vec![0, 2], true, 0) {
        Settled::Born { lineage } => assert_eq!(lineage, "crossover-uniform:parents=b,c"),
        other => panic!("a child is born: {other:?}"),
    }
    let ops = vec![CrossoverOp::OnePoint];
    let high = race.begin_crossover(score(0.5), score(0.5), &ops, 7);
    assert!(matches!(high, Crossover::NotFired));
    let nan = race.begin_crossover(score(0.0), score(f32::NAN), &ops, 7);
    assert!(matches!(nan, Crossover::NotFired));
    let empty = Race::new(Direction::Maximize, 1, 10);
    assert!(matches!(
        empty.begin_crossover(score(0.0), score(0.5), &ops, 7),
        Crossover::NoParents
    ));
}

#[test]
fn an_operator_is_drawn_from_the_pool() {
    let ops = vec![CrossoverOp::Uniform];
    let (op, state) = draw_operator(&ops, 7);
    assert_eq!(op, CrossoverOp::Uniform);
    let mut rng = fastrand::Rng::with_seed(7);
    rng.u64(0..=0);
    assert_eq!(state, rng.get_seed());
    assert_eq!(op.required_parents(), 2);
}

#[test]
fn a_random_child_has_eight_tries_to_be_new() {
    let mut race = Race::new(Direction::Minimize, 1, 10);
    race.insert(Net::fresh("a".to_string(), 1, 0, None, 10));
    for attempt in 0..7 {
        assert_eq!(race.judge_random_child(5, 2, attempt, "a"), RandomChild::TryAgain);
    }
    assert_eq!(race.judge_random_child(5, 2, 7, "a"), RandomChild::GiveUp);
    assert_eq!(race.judge_random_child(5, 2, 3, "b"), RandomChild::Taken);
    assert_eq!(race.next_child_ordinal(5), 6, "the ordinals tried are used up");
}

#[test]
fn a_net_replays_the_clocks_it_trained() {
    assert_eq!(replay_segments(0, 0, None), vec![]);
    assert_eq!(replay_segments(4, 0, None), vec![(0, 4)]);
    assert_eq!(replay_segments(4, 0, Some(3)), vec![(0, 4)], "a founder skips nothing");
    assert_eq!(replay_segments(3, 0, Some(3)), vec![(1, 4)], "it joined at clock 0");
    assert_eq!(replay_segments(5, 2, Some(5)), vec![(0, 2), (3, 6)]);
    assert_eq!(replay_segments(5, 5, Some(5)), vec![(0, 5)]);
    assert_eq!(replay_segments(2, 9, Some(5)), vec![(0, 6)]);
}

#[test]
fn parity_is_exact_and_a_nan_breaks_it() {
    let m = |fitness: f32, eval: Option<f32>| {
        Some(NetMetrics {
            step: 3,
            train_loss: score(0.5),
            eval_loss: eval.map(score),
            fitness: score(fitness),
            informative: vec![score(1.0)],
        })
    };
    assert!(replay_parity(&m(1.0, None), &m(1.0, None)));
    assert!(replay_parity(&m(0.0, Some(2.0)), &m(-0.0, Some(2.0))), "the zeros are equal");
    assert!(!replay_parity(&m(1.0, None), &m(1.0000001, None)));
    assert!(!replay_parity(&m(1.0, Some(1.0)), &m(1.0, None)));
    assert!(!replay_parity(&m(f32::NAN, None), &m(f32::NAN, None)));
    assert!(replay_parity(&None, &m(1.0, None)), "nothing recorded, nothing to compare");
}

#[test]
fn parents_are_read_off_the_ranking() {
    let mut race = Race::new(Direction::Maximize, 1, 10);
    for h in ["a", "b", "c"] {
        race.insert(Net::fresh(h.to_string(), 1, 0, None, 10));
    }
    race.carry_step(1, score(0.9), None, score(0.9));
    race.carry_step(2, score(0.5), None, score(0.5));
    let ranked = race.rank_parents();
    assert_eq!(race.parents_at(&ranked, &vec![0, 2, 1, 0]), vec!["b", "a", "c", "b"]);
}

// ── Generations ──────────────────────────────────────────────────────────

#[test]
fn the_statistics_find_best_worst_and_the_different() {
    let some = |s: &str| Some(s.to_string());
    let scores = vec![score(0.5), score(0.1), score(0.9), score(0.1)];
    let losses = vec![Some(score(1.0)), None, Some(score(3.0))];
    let params = vec![10, 20, 30, 40];
    let keys = vec![some("x"), some("y"), some("x"), None];
    let s = compute_gen_stats(&scores, &losses, &params, Direction::Minimize, &keys);
    assert_eq!((s.best_idx, s.worst_idx), (1, 2), "the first of two that tie");
    assert_eq!((s.best_score, s.worst_score), (score(0.1), score(0.9)));
    assert_eq!((s.best_loss, s.worst_loss), (None, Some(score(3.0))));
    assert_eq!((s.best_params, s.worst_params), (20, 30));
    assert_eq!(s.unique_topos, 2);
    let s = compute_gen_stats(&scores, &losses, &params, Direction::Maximize, &keys);
    assert_eq!((s.best_idx, s.worst_idx), (2, 1));
    assert_eq!(find_first_places(&keys), vec![0, 1]);
    assert!(improves(Direction::Minimize, None, score(5.0)));
    assert!(improves(Direction::Minimize, Some(score(5.0)), score(4.0)));
    assert!(!improves(Direction::Minimize, Some(score(5.0)), score(5.0)));
}

#[test]
fn means_leave_out_what_is_not_finite() {
    let all: Vec<Score> = [1.0, f32::NAN, -2.0, f32::INFINITY, f32::NEG_INFINITY, 0.0, f32::MAX]
        .iter()
        .map(|x| score(*x))
        .collect();
    let kept: Vec<Score> = all
        .iter()
        .copied()
        .filter(|s| f32::from_bits(s.bits).is_finite())
        .collect();
    assert_eq!(keep_finite(&all), kept);
}

#[test]
fn neighbours_are_crossed_and_the_odd_one_is_left() {
    let kind = CrossoverMethod::OnePoint { action_prob: score(0.5) };
    assert_eq!(crossover_pairs(5, &kind), vec![(0, 1), (2, 3)]);
    assert_eq!(crossover_pairs(1, &kind), vec![]);
    let never = CrossoverMethod::OnePoint { action_prob: score(0.0) };
    assert_eq!(crossover_pairs(5, &never), vec![]);
    assert!(pair_crosses(score(0.49), &kind));
    assert!(!pair_crosses(score(0.5), &kind));
}

#[test]
fn survivors_are_counted_once() {
    assert_eq!(count_survivors(&vec![2, 2, 0, 2], 4), 2);
    assert_eq!(
        reorder_scores(&vec![score(1.0), score(2.0), score(3.0)], &vec![2, 2, 0]),
        vec![score(3.0), score(3.0), score(1.0)]
    );
}

#[test]
fn a_mutation_hits_a_hidden_node_and_a_pool_entry() {
    let sizes = PoolSizes { activations: 3, combine_ops: 0, standardize_ops: 5 };
    let hidden = vec![false, true, true, false];
    let method = MutationMethod::Activation { prob: score(1.0) };
    let (m, state) = draw_mutation(&hidden, &method, sizes, 17);
    let mut rng = fastrand::Rng::with_seed(17);
    let node = 1 + rng.usize(0..2);
    let entry = rng.usize(0..3);
    let m = m.unwrap();
    assert_eq!((m.node, m.entry), (node, entry));
    assert_eq!(state, rng.get_seed());
    let combine = MutationMethod::CombineOp { prob: score(1.0) };
    assert!(draw_mutation(&hidden, &combine, sizes, 17).0.is_none(), "the pool is empty");
    assert_eq!(draw_mutation(&vec![false], &method, sizes, 17), (None, 17));
    assert!(mutates(score(0.05), &MutationMethod::Activation { prob: score(0.1) }));
    assert!(!mutates(score(0.1), &MutationMethod::Activation { prob: score(0.1) }));
    assert!(!mutates(score(-1.0), &MutationMethod::Activation { prob: score(0.0) }));
}

#[test]
fn the_seeds_of_a_generation_are_its_own() {
    assert_eq!(train_seed(9, 4, true), derive_seed(9, 12));
    assert_eq!(train_seed(9, 4, false), derive_seed(9, 0));
    assert_eq!(test_seed(9, 4, true), derive_seed(9, 13));
    assert_eq!(test_seed(9, 4, false), derive_seed(9, usize::MAX));
    assert_eq!(genetics_seed(9, 4, Draws::Selection), derive_seed(9, 13));
    assert_eq!(genetics_seed(9, 4, Draws::Crossover), derive_seed(9, 14));
    assert_eq!(genetics_seed(9, 4, Draws::Mutation), derive_seed(9, 15));
    assert_eq!(
        refill_seeds(9, 2, 5, 3),
        vec![derive_seed(9, 1_000_013), derive_seed(9, 1_000_014)]
    );
    assert!(refill_seeds(9, 2, 5, 5).is_empty());
}

#[test]
fn a_generation_runs_its_steps_in_order() {
    let run = |dedup: bool, added: usize| {
        let mut steps = vec![GenStep::Select];
        while *steps.last().unwrap() != GenStep::Done {
            steps.push(steps.last().unwrap().next(dedup, added));
        }
        steps
    };
    assert_eq!(
        run(true, 2),
        vec![
            GenStep::Select,
            GenStep::Cross,
            GenStep::Dedup,
            GenStep::Refill,
            GenStep::DedupAgain,
            GenStep::Mutate,
            GenStep::Done,
        ]
    );
    assert_eq!(
        run(false, 0),
        vec![GenStep::Select, GenStep::Cross, GenStep::Refill, GenStep::Mutate, GenStep::Done]
    );
}

#[test]
fn converted_data_comes_first() {
    assert_eq!(data_source(true, true, true), Some(DataSource::Cached));
    assert_eq!(data_source(false, true, true), Some(DataSource::Direct));
    assert_eq!(data_source(false, false, true), Some(DataSource::Table));
    assert_eq!(data_source(false, false, false), None);
    assert_eq!(gen_file_name(3, 2, "json"), "gen_03.json");
    assert_eq!(gen_file_name(123, 2, "md"), "gen_123.md");
}

#[test]
fn a_split_is_a_shuffled_partition() {
    let n = 64usize;
    let split = split_dataset(n, 13, 42);
    assert_eq!(split.eval.len(), 13);
    let mut rows: Vec<usize> = split.train.iter().chain(split.eval.iter()).copied().collect();
    rows.sort();
    assert_eq!(rows, (0..n).collect::<Vec<_>>());
    let mut expected: Vec<usize> = (0..n).collect();
    let mut rng = fastrand::Rng::with_seed(42);
    for i in (1..n).rev() {
        let j = rng.usize(0..=i);
        expected.swap(i, j);
    }
    assert_eq!(split.eval, expected[..13].to_vec());
    assert_eq!(split.train, expected[13..].to_vec());
}

#[test]
fn robust_topologies_are_reported_first() {
    let mut table = RobustnessTable::new();
    table.record("a".to_string(), score(0.5), score(0.5), 10);
    table.record("b".to_string(), score(0.9), score(0.9), 20);
    table.record("c".to_string(), score(0.7), score(0.7), 30);
    table.record("a".to_string(), score(0.3), score(0.4), 99);
    table.record("a".to_string(), score(0.6), score(0.46), 99);
    assert_eq!(table.keys, vec!["a", "b", "c"]);
    let a = table.entries[0];
    assert_eq!(a.count, 3);
    assert_eq!((a.min_fitness, a.max_fitness), (score(0.3), score(0.6)));
    assert_eq!((a.mean, a.param_count), (score(0.46), 10));
    assert_eq!(table.find("b"), Some(1));
    assert_eq!(table.find("z"), None);
    assert_eq!(sort_report(&table.entries), vec![0, 1, 2]);
    table.record("c".to_string(), score(0.7), score(0.7), 30);
    assert_eq!(sort_report(&table.entries), vec![0, 2, 1]);
}

#[test]
fn a_topology_that_is_put_back_goes_on_counting() {
    let mut table = RobustnessTable::new();
    table.record("a".to_string(), score(0.5), score(0.5), 3);
    let mut entry = table.entries[0];
    entry.count = 7;
    table.restore("b".to_string(), entry);
    table.restore("a".to_string(), entry);
    assert_eq!(table.keys, vec!["a", "b"]);
    assert_eq!(table.entries, vec![entry, entry]);
    table.record("b".to_string(), score(0.75), score(0.6), 9);
    assert_eq!((table.entries[1].count, table.entries[1].param_count), (8, 3));
    assert_eq!(table.entries[1].max_fitness, score(0.75));
    assert_eq!(table.entries[1].mean, score(0.6));
}

#[test]
fn the_robustness_export_has_loss_columns_only_with_losses() {
    let spread = |x: &str| SpreadTexts {
        mean: format!("{x}1"),
        sd: format!("{x}2"),
        min: format!("{x}3"),
        max: format!("{x}4"),
    };
    assert_eq!(
        export_header(false),
        "topo_id,appearances,fit_mean,fit_sd,fit_min,fit_max,params\n"
    );
    assert_eq!(
        export_header(true),
        "topo_id,appearances,fit_mean,fit_sd,fit_min,fit_max,loss_mean,loss_sd,loss_min,loss_max,params\n"
    );
    assert_eq!(export_row("id", 3, &spread("f"), &None, 12), "id,3,f1,f2,f3,f4,12\n");
    assert_eq!(
        export_row("id", 3, &spread("f"), &Some(spread("l")), 12),
        "id,3,f1,f2,f3,f4,l1,l2,l3,l4,12\n"
    );
}
