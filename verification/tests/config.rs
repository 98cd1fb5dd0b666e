use gras::config::{
    CrossCullPolicy, CrossoverGate, DimRange, MutationCullPolicy, PopPruner, PopPrunerMethod,
    RaceConfig, RaceConfigBuilder, RunMode, StopReason, TopologyOptions, DEFAULT_CHECKPOINT_EVERY,
};
use gras::labels::{Activation, CombineOp, CrossoverOp, StandardizeOp};
use gras::race::Race;
use gras::run_spec::{
    bind_dims, header_dims, stream_geometry, validate_spec, FitnessSource, SpecKind, StreamShape,
};
use gras::score::{Direction, Score};

fn score(x: f32) -> Score {
    Score::from_bits(x.to_bits())
}

fn conservative() {
    let cfg = RaceConfig::defaults();
    assert_eq!(cfg.pop_size, 5);
    assert_eq!(cfg.checkpoint_every, DEFAULT_CHECKPOINT_EVERY);
    assert_eq!(cfg.crossover_rolls, 1);
    assert_eq!(cfg.mutate_rolls, 1);
    assert_eq!(cfg.crossover_gate, CrossoverGate::Hard);
    assert_eq!(cfg.crossover_cull_policy, CrossCullPolicy::Worst);
    assert_eq!(cfg.checkpoint_every, DEFAULT_CHECKPOINT_EVERY);
    assert_eq!(cfg.max_steps, None, "budgets inactive by default");
    assert!(cfg.max_target_fitness.is_none());
    assert!(cfg.hidden_dim_pool.is_some());
    assert_eq!(cfg.pop_size, 5);
}

#[test]
fn core_race_config_defaults_are_conservative() {
    conservative();
}

#[test]
fn race_engine_race_config_defaults_are_conservative() {
    conservative();
}

#[test]
fn stop_setters_are_exclusive_last_writer_wins() {
    let cfg = RaceConfig::builder()
        .set_stop_max_steps(Some(15))
        .set_stop_target_fitness(Some(score(3050.0)))
        .build();
    assert_eq!(cfg.max_steps, None, "fitness flag cleared the step budget");
    assert_eq!(cfg.max_target_fitness, Some(score(3050.0)));

    let cfg = RaceConfig::builder()
        .set_stop_target_fitness(Some(score(3050.0)))
        .set_stop_max_steps(Some(15))
        .build();
    assert_eq!(cfg.max_steps, Some(15));
    assert_eq!(cfg.max_target_fitness, None, "step flag cleared the fitness bar");
}

fn both_stops() {
    let mut rebuilt = RaceConfig::builder().set_run_pop_size(2).build();
    rebuilt.max_steps = Some(20);
    rebuilt.max_target_fitness = Some(score(0.5));
    RaceConfigBuilder::validate_single_stop(&rebuilt)
        .unwrap_or_else(|e| panic!("invalid RaceConfig: {e}"));
}

#[test]
#[should_panic(expected = "only one stop criteria can be used at a time")]
fn core_stop_criteria_both_set_panics_at_build() {
    both_stops();
}

#[test]
#[should_panic(expected = "only one stop criteria can be used at a time")]
fn race_engine_stop_criteria_both_set_panics_at_build() {
    both_stops();
}

fn undeclared_rl() {
    let mut config = RaceConfig::defaults();
    config.pop_size = 2;
    config.max_steps = Some(1);
    let err = match validate_spec(SpecKind::Rl, &config, FitnessSource::Reported) {
        Err(e) => e.message(),
        Ok(_) => panic!("RL spec without set_run_mode(RunMode::Rl) must be rejected"),
    };
    assert!(err.contains("set_run_mode(RunMode::Rl)"), "error must name the fix: {err}");
}

#[test]
fn core_rl_spec_requires_declared_rl_mode() {
    undeclared_rl();
}

#[test]
fn race_engine_rl_spec_requires_declared_rl_mode() {
    undeclared_rl();
}

fn computed_rl() {
    let mut config = RaceConfig::defaults();
    config.pop_size = 2;
    config.max_steps = Some(1);
    config.mode = RunMode::Rl;
    let mut topo = TopologyOptions::unset();
    topo.input_dim = Some(1);
    topo.output_dim = Some(1);
    config.topology_options = topo;
    let err = match validate_spec(SpecKind::Rl, &config, FitnessSource::Computed) {
        Err(e) => e.message(),
        Ok(_) => panic!("RL spec with Computed fitness must be rejected at construction"),
    };
    assert!(err.contains("Fitness::reported"), "error must name the fix: {err}");
}

#[test]
fn core_rl_spec_rejects_computed_fitness() {
    computed_rl();
}

#[test]
fn race_engine_rl_spec_rejects_computed_fitness() {
    computed_rl();
}

#[test]
fn core_fresh_start_rejected_on_tabular_at_construction() {
    let mut config = RaceConfig::defaults();
    config.pop_size = 2;
    config.immigrant_fresh_start = true;
    let err = match validate_spec(SpecKind::Tabular, &config, FitnessSource::Computed) {
        Ok(_) => panic!("tabular + fresh-start must fail at construction"),
        Err(e) => e.message(),
    };
    assert!(err.contains("requires RL mode"), "error names the RL-only rule: {err}");
}

#[test]
fn a_data_run_needs_the_data_mode() {
    let mut config = RaceConfig::defaults();
    config.mode = RunMode::Nlp;
    let err = validate_spec(SpecKind::Tabular, &config, FitnessSource::Computed).unwrap_err();
    assert!(err.message().contains("config declares Nlp"));
    config.mode = RunMode::Tabular;
    assert!(validate_spec(SpecKind::Tabular, &config, FitnessSource::Computed).is_ok());
    assert!(validate_spec(SpecKind::Tabular, &config, FitnessSource::Reported).is_ok());
    config.mode = RunMode::Rl;
    assert!(validate_spec(SpecKind::Rl, &config, FitnessSource::Reported).is_ok());
}

fn stops_fire_alone() {
    let mut race = Race::new(Direction::Minimize, 1, 10);
    let mut net = gras::net::Net::fresh("a".to_string(), 1, 0, None, 10);
    net.record_step(
        gras::net::NetMetrics {
            step: 0,
            train_loss: score(0.0),
            eval_loss: None,
            fitness: score(0.5),
            informative: vec![],
        },
        score(0.5),
        10,
    );
    race.insert(net);
    let mut cfg = RaceConfig::defaults();
    cfg.max_steps = Some(20);
    assert_eq!(race.check_stop(&cfg, 19, false, false), None, "not fired yet");
    assert_eq!(race.check_stop(&cfg, 20, false, false), Some(StopReason::MaxSteps));

    let mut cfg = RaceConfig::defaults();
    cfg.max_target_fitness = Some(score(0.6));
    assert_eq!(race.check_stop(&cfg, 10, false, false), Some(StopReason::TargetScore));
}

#[test]
fn core_stop_criteria_single_each_fires() {
    stops_fire_alone();
}

#[test]
fn core_single_stop_criterion_still_works() {
    let race = Race::new(Direction::Minimize, 1, 10);
    let mut cfg = RaceConfig::defaults();
    cfg.max_steps = Some(7);
    assert_eq!(race.check_stop(&cfg, 6, false, false), None);
    assert_eq!(race.check_stop(&cfg, 7, false, false), Some(StopReason::MaxSteps));
}

#[test]
fn an_interrupt_outranks_every_stop_and_a_custom_one_comes_last() {
    let race = Race::new(Direction::Minimize, 1, 10);
    let mut cfg = RaceConfig::defaults();
    cfg.max_steps = Some(3);
    assert_eq!(race.check_stop(&cfg, 9, true, true), Some(StopReason::Interrupted));
    assert_eq!(race.check_stop(&cfg, 9, false, true), Some(StopReason::MaxSteps));
    assert_eq!(race.check_stop(&cfg, 2, false, true), Some(StopReason::CustomStop));
}

#[test]
fn every_setter_reaches_its_knob() {
    let cfg = RaceConfig::builder()
        .set_run_pop_size(9)
        .set_crossover_rolls(2)
        .set_mutate_rolls(3)
        .set_crossover_gate(CrossoverGate::Soft)
        .set_crossover_retries(4)
        .set_crossover_cull_policy(CrossCullPolicy::Random)
        .set_mutation_cull_policy(MutationCullPolicy::Worst)
        .set_elite_count(2)
        .set_elite_freeze(false)
        .build();
    assert_eq!(cfg.pop_size, 9);
    assert_eq!(cfg.crossover_rolls, 2);
    assert_eq!(cfg.mutate_rolls, 3);
    assert_eq!(cfg.crossover_gate, CrossoverGate::Soft);
    assert_eq!(cfg.crossover_retries, 4);
    assert_eq!(cfg.crossover_attempts(), 5, "retries come on top of the first try");
    assert_eq!(cfg.crossover_cull_policy, CrossCullPolicy::Random);
    assert_eq!(cfg.mutation_cull_policy, MutationCullPolicy::Worst);
    assert_eq!(cfg.elite_count, 2);
    assert!(!cfg.freeze_elites);
}

#[test]
fn pruner_knobs_compose_in_any_order() {
    let cfg = RaceConfig::builder().set_pruner_steps(7).set_pruner_enabled(true).build();
    assert_eq!(
        cfg.pop_pruner,
        Some(PopPruner { method: PopPrunerMethod::Hard, steps: 7 })
    );
    let cfg = RaceConfig::builder().set_pruner_enabled(true).set_pruner_steps(7).build();
    assert_eq!(
        cfg.pop_pruner,
        Some(PopPruner { method: PopPrunerMethod::Hard, steps: 7 })
    );
    let cfg = RaceConfig::builder().set_pruner_steps(7).build();
    assert_eq!(cfg.pop_pruner, None, "knobs alone leave the pruner off");
}

#[test]
fn pools_resolve_labels_in_any_case_and_name_the_unknown_one() {
    let mut cfg = RaceConfig::defaults();
    assert_eq!(
        cfg.resolved_crossover_ops().unwrap(),
        vec![CrossoverOp::OnePoint, CrossoverOp::Uniform]
    );
    assert_eq!(
        cfg.resolved_activation_pool(vec![Activation::Sin]).unwrap(),
        vec![Activation::Sin],
        "an empty pool stands for all"
    );
    cfg.crossover_ops_pool = vec!["OnePoint".to_string(), "UNIFORM".to_string()];
    assert_eq!(
        cfg.resolved_crossover_ops().unwrap(),
        vec![CrossoverOp::OnePoint, CrossoverOp::Uniform]
    );
    cfg.activation_pool = vec!["ReLU".to_string(), "LogSoftmax".to_string()];
    assert_eq!(
        cfg.resolved_activation_pool(vec![]).unwrap(),
        vec![Activation::ReLU, Activation::LogSoftmax]
    );
    cfg.combine_op_pool = vec!["MUL".to_string(), "divide".to_string()];
    assert_eq!(
        cfg.resolved_combine_pool(vec![]).unwrap(),
        vec![CombineOp::Multiply, CombineOp::Divide]
    );
    cfg.standardize_op_pool = vec!["Identity".to_string()];
    assert_eq!(
        cfg.resolved_standardize_pool(vec![]).unwrap(),
        vec![StandardizeOp::Identity]
    );
    cfg.crossover_ops_pool = vec!["Two".to_string()];
    assert_eq!(
        cfg.resolved_crossover_ops().unwrap_err(),
        "unknown crossover op 'two' (use \"one_point\" or \"uniform\")"
    );
    cfg.activation_pool = vec!["relu".to_string(), "Nope".to_string()];
    assert_eq!(
        cfg.resolved_activation_pool(vec![]).unwrap_err(),
        "unknown activation 'nope'"
    );
}

#[test]
fn dims_come_from_the_data_or_have_to_be_set() {
    let opts = TopologyOptions::unset();
    let bound = bind_dims(opts, Some((4, 3))).unwrap();
    assert_eq!(bound.input_dim, Some(4));
    assert_eq!(bound.output_dim, Some(3));
    assert_eq!(header_dims(bound, Some((4, 3))), (4, 3));
    let mut wrong = TopologyOptions::unset();
    wrong.input_dim = Some(9);
    let err = bind_dims(wrong, Some((4, 3))).unwrap_err();
    assert!(err.contains("input_dim = 9 but data_dir has 4 features"), "{err}");
    let err = bind_dims(TopologyOptions::unset(), None).unwrap_err();
    assert!(err.contains("set_topology_input_dim"), "{err}");
    assert!(err.contains("; "), "both complaints are listed: {err}");
    assert!(err.contains("set_topology_output_dim"), "{err}");
}

#[test]
fn the_stream_follows_the_trainer_and_the_record() {
    let g = stream_geometry(None, None, None, 50);
    assert_eq!((g.batch_size, g.eval_batch_size, g.held_out_rows), (16, 16, 256));
    assert_eq!(g.split_ratio, score(0.2));
    let g = stream_geometry(
        Some(StreamShape::uniform(8).with_eval_batch_size(4)),
        Some(score(0.5)),
        Some(33),
        7,
    );
    assert_eq!((g.batch_size, g.eval_batch_size, g.held_out_rows), (8, 4, 33));
    assert_eq!(g.split_ratio, score(0.5));
    assert_eq!(g.checkpoint_every, 7);
}

#[test]
fn hidden_dims_default_to_a_range() {
    let cfg = RaceConfig::defaults();
    assert_eq!(cfg.hidden_dim_pool, Some(DimRange { start: 4, end: 8 }));
}
