use gras::config::{CrossCullPolicy, MutationCullPolicy, RaceConfig, StopReason};
use gras::evolve::CullReason;
use gras::net::{Net, NetMetrics};
use gras::race::Race;
use gras::score::{Direction, Score};
use gras::smoothing::{divergence_bounds, RollingBuffer};
use gras::step::{CrownChange, StepPlan};

fn score(x: f32) -> Score {
    Score::from_bits(x.to_bits())
}

fn number(s: Score) -> f32 {
    f32::from_bits(s.bits)
}

fn mean(values: &[Score]) -> f32 {
    if values.is_empty() {
        return 0.0;
    }
    values.iter().map(|s| number(*s)).sum::<f32>() / values.len() as f32
}

fn metrics(step: usize, fitness: f32) -> NetMetrics {
    NetMetrics {
        step,
        train_loss: score(0.0),
        eval_loss: None,
        fitness: score(fitness),
        informative: vec![],
    }
}

fn race(direction: Direction, elite_count: usize, hashes: &[&str]) -> Race {
    let mut race = Race::new(direction, elite_count, 10);
    for (i, h) in hashes.iter().enumerate() {
        race.insert(Net::fresh(h.to_string(), i, 0, None, 10));
    }
    race
}

/// Lets a net measure a fitness without training.
fn measure(race: &mut Race, i: usize, fitness: f32) {
    let window = race.nets[i].fitness_window_after(score(fitness));
    let mean = mean(&window);
    race.carry_step(i, score(fitness), None, score(mean));
}

fn rolling_mean(buf: &RollingBuffer) -> f32 {
    mean(&buf.values())
}

fn empty_mean() {
    let buf = RollingBuffer::new(5);
    assert_eq!(rolling_mean(&buf), 0.0);
}

fn windowed_mean() {
    let mut buf = RollingBuffer::new(3);
    for v in [1.0, 2.0, 3.0, 4.0] {
        buf.push(score(v));
    }
    assert_eq!(rolling_mean(&buf), 3.0);
}

#[test]
fn smoothing_rolling_mean_empty_is_zero() {
    empty_mean();
}

#[test]
fn divergence_rolling_mean_empty_is_zero() {
    empty_mean();
}

#[test]
fn smoothing_rolling_mean_is_windowed() {
    windowed_mean();
}

#[test]
fn divergence_rolling_mean_is_windowed() {
    windowed_mean();
}

fn built_in_divergence(smoothed: &[f32]) -> f32 {
    let scores: Vec<Score> = smoothed.iter().map(|x| score(*x)).collect();
    match divergence_bounds(&scores) {
        Some((max, min)) => (number(max) - number(min)) / number(max),
        None => 0.0,
    }
}

#[test]
fn built_in_divergence_edges() {
    assert_eq!(built_in_divergence(&[]), 0.0);
    assert_eq!(built_in_divergence(&[0.0, 0.0]), 0.0);
    assert!((built_in_divergence(&[0.2, 0.8]) - 0.75).abs() < 1e-6);
    assert_eq!(built_in_divergence(&[f32::NAN, -1.0]), 0.0);
    assert_eq!(built_in_divergence(&[2.0, f32::NAN, 1.0]), 0.5);
    assert_eq!(built_in_divergence(&[-1.0, 2.0]), 1.0, "bounded by 1");
    assert_eq!(built_in_divergence(&[0.0, 2.0]), 1.0);
}

#[test]
fn test_direction_semantics() {
    assert!(Direction::Minimize.is_better(score(0.5), score(1.0)));
    assert!(!Direction::Minimize.is_better(score(1.0), score(0.5)));
    assert!(Direction::Maximize.is_better(score(1.0), score(0.5)));
    assert!(!Direction::Maximize.is_better(score(0.5), score(1.0)));
}

#[test]
fn scores_compare_as_single_precision_numbers_do() {
    let values = [
        0.0f32,
        -0.0,
        1.0,
        -1.0,
        f32::MIN_POSITIVE,
        1e-45,
        -1e-45,
        f32::MAX,
        f32::MIN,
        f32::INFINITY,
        f32::NEG_INFINITY,
        f32::NAN,
        0.1,
        0.1000001,
    ];
    for a in values {
        assert_eq!(score(a).is_nan(), a.is_nan());
        for b in values {
            assert_eq!(score(a).less_than(score(b)), a < b, "{a} < {b}");
            assert_eq!(Direction::Minimize.is_better(score(a), score(b)), a < b);
            assert_eq!(Direction::Maximize.is_better(score(a), score(b)), a > b);
            assert_eq!(gras::score::roll_fires(score(a), score(b)), !(a >= b));
            let order = a.partial_cmp(&b).unwrap_or(std::cmp::Ordering::Equal);
            assert_eq!(Direction::Maximize.cmp(score(a), score(b)), order);
            assert_eq!(Direction::Minimize.cmp(score(a), score(b)), order.reverse());
        }
    }
    assert_eq!(Direction::Minimize.arrow(), "↓");
    assert_eq!(Direction::Maximize.arrow(), "↑");
}

#[test]
fn a_rolling_buffer_keeps_the_newest() {
    let mut buf = RollingBuffer::from_values(2, &[score(1.0), score(2.0), score(3.0)]);
    assert_eq!(buf.values(), vec![score(2.0), score(3.0)]);
    assert_eq!(buf.len(), 2);
    assert_eq!(buf.cap_value(), 2);
    assert!(!buf.is_empty());
    buf.clear();
    assert!(buf.is_empty());
    let mut none = RollingBuffer::new(0);
    none.push(score(1.0));
    assert!(none.is_empty(), "a window of 0 keeps nothing");
}

#[test]
fn core_champion_hashes_match_ranked_elites() {
    let hashes = ["a", "b", "c"];
    let mut race = race(Direction::Minimize, 2, &hashes);
    for i in 0..3 {
        measure(&mut race, i, 0.5 + i as f32 * 0.1);
    }
    race.record_champions();
    let champs = race.champion_hashes().clone();
    assert_eq!(champs.len(), 2, "elite_count champions recorded");
    assert_eq!(champs[0], hashes[0], "lowest smoothed fitness first (Minimize)");
    assert_eq!(champs[1], hashes[1], "second-lowest second");
    assert!(!champs.iter().any(|c| c == hashes[2]), "worst net excluded");
}

#[test]
fn core_select_random_victim_is_deterministic_and_alive() {
    let mut race = race(Direction::Minimize, 1, &["a", "b", "c"]);
    for i in 0..3 {
        measure(&mut race, i, 0.5);
    }
    let v1 = race.select_random_victim_at(42, 3, 0).unwrap();
    let v2 = race.select_random_victim_at(42, 3, 0).unwrap();
    assert_eq!(v1, v2, "victim is a pure function of (run_seed, clock)");
    assert!(v1 < race.live_count());
    assert!(race.select_random_victim_at(42, 4, 0).unwrap() < race.live_count());
}

#[test]
fn core_elite_guard_protects_top_k_from_all_culls() {
    let mut race = race(Direction::Minimize, 1, &["a", "b", "c"]);
    for i in 0..3 {
        measure(&mut race, i, 0.1 + i as f32 * 0.3);
    }
    let elite = race.elite_hashes();
    assert_eq!(elite.len(), 1, "guard of 1 protects exactly one net");
    assert_eq!(elite[0], "a", "the fittest net is the elite");
    for clock in 0..20 {
        let v = race.select_random_victim_at(42, clock, 0).unwrap();
        assert_ne!(race.nets[v].hash, elite[0], "elite must never be a crossover victim");
        for policy in [
            MutationCullPolicy::InverseFitness,
            MutationCullPolicy::Worst,
            MutationCullPolicy::Random,
        ] {
            for pick in 0..3 {
                let v = race.select_mutation_victim(policy, 42, clock, 0, pick).unwrap();
                assert_ne!(race.nets[v].hash, elite[0], "elite must never be a mutation victim");
            }
        }
    }
    let field = race.roulette_candidates().unwrap();
    assert!(field.iter().all(|r| race.nets[r.index].hash != elite[0]));
}

#[test]
fn core_step_clock_is_zero_when_empty() {
    assert_eq!(Race::new(Direction::Minimize, 1, 10).step_clock(), 0);
}

#[test]
fn core_step_clock_reads_from_live_net_after_populate() {
    let race = race(Direction::Minimize, 1, &["a"]);
    assert_eq!(race.step_clock(), 0);
}

#[test]
fn core_step_clock_continues_past_the_recorded_clock_not_the_training_count() {
    let mut race = race(Direction::Minimize, 1, &["a", "b"]);
    for _ in 0..4 {
        race.record_step(0, metrics(3, 0.5), score(0.5));
    }
    for _ in 0..3 {
        race.record_step(1, metrics(3, 0.5), score(0.5));
    }
    assert_eq!(race.step_clock(), 4, "next clock is last recorded + 1");
}

#[test]
fn core_freeze_elites_excludes_top_k_from_trainer_call() {
    let mut race = race(Direction::Minimize, 1, &["a", "b"]);
    measure(&mut race, 0, 0.5);
    measure(&mut race, 1, 0.1);
    assert_eq!(race.elite_hashes(), vec!["b".to_string()]);
    race.nets[1].last_metrics = Some(metrics(3, 0.5));
    race.nets[1].trainings = 1;
    let before = race.nets[1].fitness_window.len();
    let start = race.begin_step(1, true);
    assert_eq!(start.plan, StepPlan::Carry { fitness: score(0.5), eval_loss: None });
    measure(&mut race, 1, 0.5);
    let after = race.nets[1].fitness_window.values();
    assert_eq!(after.len(), before + 1, "carried metric appended");
    assert_eq!(*after.last().unwrap(), score(0.5), "carried the frozen skill value");
    assert_eq!(race.nets[1].trainings, 1, "no trainer step");
    assert_eq!(race.begin_step(0, true).plan, StepPlan::Train);
    assert_eq!(race.begin_step(1, false).plan, StepPlan::Train);
}

#[test]
fn core_freeze_crown_logs_on_transition_only() {
    let mut race = race(Direction::Minimize, 1, &["a", "b"]);
    assert!(race.nets.iter().all(|n| !n.crowned), "no crown before any frozen step");
    measure(&mut race, 1, 0.1);
    assert_eq!(race.elite_hashes(), vec!["b".to_string()]);
    race.nets[1].last_metrics = Some(metrics(3, 0.1));
    let start = race.begin_step(1, true);
    assert!(matches!(start.crown, Some(CrownChange::Crowned)));
    assert!(race.nets[1].crowned);
    let again = race.begin_step(1, true);
    assert!(again.crown.is_none(), "a stable crown is silent");
    assert!(race.nets[1].crowned);
    measure(&mut race, 0, 0.05);
    race.nets[0].last_metrics = Some(metrics(6, 0.05));
    let moved = race.begin_step(0, true);
    match moved.crown {
        Some(CrownChange::Moved { from }) => assert_eq!(from, "b"),
        other => panic!("crown moved to the new champion: {other:?}"),
    }
    assert!(race.nets[0].crowned);
    assert!(!race.nets[1].crowned);
    assert_eq!(moved.dethroned, vec!["b".to_string()]);
}

#[test]
fn a_seat_is_lost_without_a_successor() {
    let mut race = race(Direction::Minimize, 1, &["a", "b"]);
    measure(&mut race, 0, 0.1);
    race.nets[0].last_metrics = Some(metrics(0, 0.1));
    assert!(matches!(race.begin_step(0, true).crown, Some(CrownChange::Crowned)));
    race.nets[0].demoted = true;
    assert!(race.elite_hashes().is_empty(), "nobody else has a verdict");
    let start = race.begin_step(0, true);
    assert_eq!(start.plan, StepPlan::Train);
    assert!(start.crown.is_none());
    assert_eq!(start.dethroned, vec!["a".to_string()]);
    assert!(!race.nets[0].crowned);
    let again = race.begin_step(0, true);
    assert!(again.crown.is_none() && again.dethroned.is_empty(), "a seat is lost once");
    race.nets[0].demoted = false;
    let back = race.begin_step(0, true);
    assert!(matches!(back.crown, Some(CrownChange::Crowned)), "nobody had it in between");
    assert!(back.dethroned.is_empty() && race.nets[0].crowned);
}

#[test]
fn the_crown_moves_from_a_net_that_stepped_before() {
    let mut race = race(Direction::Minimize, 1, &["a", "b"]);
    measure(&mut race, 0, 0.1);
    race.nets[0].last_metrics = Some(metrics(0, 0.1));
    race.nets[1].last_metrics = Some(metrics(0, 0.05));
    race.begin_step(0, true);
    measure(&mut race, 1, 0.05);
    let left = race.begin_step(0, true);
    assert_eq!((left.plan, left.dethroned), (StepPlan::Train, vec!["a".to_string()]));
    let taken = race.begin_step(1, true);
    match taken.crown {
        Some(CrownChange::Moved { from }) => assert_eq!(from, "a"),
        other => panic!("{other:?}"),
    }
    assert!(taken.dethroned.is_empty(), "it is named once");
    assert!(race.nets[1].crowned && !race.nets[0].crowned);
}

#[test]
fn several_seats_are_counted_by_rank() {
    let mut race = race(Direction::Maximize, 2, &["a", "b", "c"]);
    measure(&mut race, 0, 0.1);
    measure(&mut race, 1, 0.3);
    measure(&mut race, 2, 0.2);
    for i in 0..3 {
        race.nets[i].last_metrics = Some(metrics(0, 0.0));
    }
    match race.begin_step(2, true).crown {
        Some(CrownChange::Seat { place, seats }) => assert_eq!((place, seats), (2, 2)),
        other => panic!("{other:?}"),
    }
    assert!(race.begin_step(0, true).crown.is_none());
    race.nets[2].demoted = true;
    assert_eq!(race.begin_step(2, true).dethroned, vec!["c".to_string()]);
}

#[test]
fn core_regression_demotion_denies_elite_and_fronts_cull_line() {
    let mut race = race(Direction::Minimize, 1, &["a", "b", "c", "d"]);
    let tol = 0.7f32;
    let guard = |race: &mut Race, i: usize| {
        let smoothed = number(race.nets[i].smoothed_or_zero());
        let collapsed = match race.nets[i].floor {
            Some(f) => smoothed - number(f) > (1.0 - tol) * number(f).abs().max(1.0),
            None => false,
        };
        race.update_regression_guard(i, collapsed);
    };
    measure(&mut race, 0, 0.1);
    guard(&mut race, 0);
    measure(&mut race, 0, 1.0);
    guard(&mut race, 0);
    measure(&mut race, 1, 0.5);
    guard(&mut race, 1);
    measure(&mut race, 2, 0.7);
    guard(&mut race, 2);
    measure(&mut race, 3, 0.75);
    guard(&mut race, 3);
    assert!(race.nets[0].demoted, "collapsed net is demoted");
    assert!(!race.nets[1].demoted);
    assert!(!race.nets[2].demoted);
    measure(&mut race, 0, 0.4);
    guard(&mut race, 0);
    assert!(race.nets[0].demoted, "staying far worse than the floor keeps the demotion");
    assert!(!race.elite_hashes().iter().any(|h| h == "a"), "demoted net cannot hold elite");
    for _ in 0..5 {
        measure(&mut race, 0, 1.0);
        guard(&mut race, 0);
    }
    let mut demoted_picks = 0usize;
    let mut healthy_picks = 0usize;
    let runs = 400;
    for seed in 0..runs {
        fastrand::seed(seed);
        match drawn(&race) {
            0 => demoted_picks += 1,
            3 => healthy_picks += 1,
            _ => {}
        }
    }
    assert!(
        demoted_picks > healthy_picks,
        "collapsed fitness must up-weight the demoted net in the roulette \
         (demoted {demoted_picks} vs healthy {healthy_picks} of {runs})"
    );
    assert!(demoted_picks < runs as usize, "demotion must not be a guaranteed eviction");
}

/// The position the inverse-fitness roulette stops at, for a race to minimize.
fn drawn(race: &Race) -> usize {
    let field = race.roulette_candidates().unwrap();
    let best = number(race.roulette_best());
    let weights: Vec<f32> = field.iter().map(|r| number(r.score) - best).collect();
    let total: f32 = weights.iter().sum();
    let mut pick = if total > 0.0 { field.len() - 1 } else { fastrand::usize(0..field.len()) };
    let mut left = fastrand::f32() * total;
    if total > 0.0 {
        for (i, w) in weights.iter().enumerate() {
            left -= w;
            if left <= 0.0 {
                pick = i;
                break;
            }
        }
    }
    race.select_mutation_victim(MutationCullPolicy::InverseFitness, 1, 1, 0, pick).unwrap()
}

#[test]
fn core_mutation_targets_worst_most_often() {
    let mut race = race(Direction::Minimize, 1, &["a", "b", "c"]);
    for i in 0..3 {
        measure(&mut race, i, 0.1 + i as f32 * 0.3);
    }
    let mut worst_picks = 0usize;
    let mut best_picks = 0usize;
    for _ in 0..200 {
        match drawn(&race) {
            2 => worst_picks += 1,
            0 => best_picks += 1,
            _ => {}
        }
    }
    assert!(
        worst_picks > best_picks * 5,
        "worst net picked {worst_picks} times vs best {best_picks}"
    );
}

#[test]
fn the_best_of_the_cullable_is_never_drawn() {
    let mut race = race(Direction::Minimize, 1, &["a", "b", "c", "d", "e"]);
    for (i, f) in [0.1, 0.5, 0.5, 0.7, 0.9].iter().enumerate() {
        measure(&mut race, i, *f);
    }
    let field = race.roulette_candidates().unwrap();
    assert_eq!(field.iter().map(|r| r.index).collect::<Vec<_>>(), vec![3, 4]);
    assert_eq!(race.roulette_best(), score(0.5));
    for pick in 0..9 {
        let v = race.select_mutation_victim(MutationCullPolicy::InverseFitness, 1, 1, 0, pick);
        assert!(v.unwrap() >= 3);
    }
}

#[test]
fn all_that_tie_can_be_drawn() {
    let mut race = race(Direction::Maximize, 0, &["a", "b", "c"]);
    for i in 0..3 {
        measure(&mut race, i, 0.5);
    }
    let field = race.roulette_candidates().unwrap();
    assert_eq!(field.iter().map(|r| r.index).collect::<Vec<_>>(), vec![0, 1, 2]);
}

#[test]
fn a_target_is_reached_by_equality() {
    let mut cfg = RaceConfig::defaults();
    cfg.max_target_fitness = Some(score(0.5));
    for (direction, short, past) in
        [(Direction::Minimize, 0.6, 0.4), (Direction::Maximize, 0.4, 0.6)]
    {
        for (fitness, stops) in [(short, false), (0.5, true), (past, true), (f32::NAN, false)] {
            let mut race = race(direction, 1, &["a"]);
            measure(&mut race, 0, fitness);
            let reason = race.check_stop(&cfg, 3, false, false);
            let expected = if stops { Some(StopReason::TargetScore) } else { None };
            assert_eq!(reason, expected, "{direction:?} {fitness}");
        }
    }
}

#[test]
fn core_demoted_victim_cull_reason_says_regressed() {
    let mut race = race(Direction::Minimize, 1, &["a", "b", "c"]);
    measure(&mut race, 0, 0.85);
    measure(&mut race, 1, 0.5);
    measure(&mut race, 2, 0.8);
    race.update_regression_guard(0, false);
    race.update_regression_guard(0, true);
    assert!(race.nets[0].demoted);
    let gone = race.evict_for_immigrant(MutationCullPolicy::Worst, 29, 4, 0, 0).unwrap();
    assert_eq!(gone.net.hash, "a");
    assert_eq!(gone.reason, CullReason::Regressed);
    assert_eq!(gone.reason.label(), "regressed");
    let gone = race.evict_for_immigrant(MutationCullPolicy::Worst, 29, 4, 0, 0).unwrap();
    assert_eq!(gone.net.hash, "c");
    assert_eq!(gone.reason.label(), "immigrant-slot");
    assert_eq!(race.culls, 2);
}

#[test]
fn core_fittest_net_is_deterministic_given_same_state() {
    let race = race(Direction::Minimize, 1, &["a", "b"]);
    assert_eq!(race.fittest_net_hash(), race.fittest_net_hash());
    assert!(race.fittest_net_hash().is_some());
}

#[test]
fn core_worst_nets_returns_empty_for_empty_pop() {
    let race = Race::new(Direction::Minimize, 1, 10);
    assert!(race.worst_nets_by_smoothed_fitness(1).is_empty());
}

#[test]
fn core_worst_nets_culls_the_worst_under_both_directions() {
    let mut e = race(Direction::Minimize, 1, &["a", "b"]);
    measure(&mut e, 0, 0.2);
    measure(&mut e, 1, 0.8);
    assert_eq!(e.worst_nets_by_smoothed_fitness(1)[0], "b", "Minimize: highest loss is worst");
    let mut e = race(Direction::Maximize, 1, &["a", "b"]);
    measure(&mut e, 0, 0.2);
    measure(&mut e, 1, 0.8);
    assert_eq!(e.worst_nets_by_smoothed_fitness(1)[0], "a", "Maximize: lowest score is worst");
}

#[test]
fn core_pruner_keeps_top_elite_count_nets() {
    let mut race = race(Direction::Minimize, 2, &["a", "b", "c", "d"]);
    for i in 0..4 {
        measure(&mut race, i, 0.5 + i as f32 * 0.1);
    }
    let gone = race.prune(7);
    assert_eq!(race.live_count(), 2, "elite_count=2 keeps two nets racing");
    assert_eq!(race.live_hashes(), vec!["a".to_string(), "b".to_string()]);
    assert_eq!(gone.len(), 2);
    assert!(gone.iter().all(|t| t.reason == CullReason::Pruned && t.culled_at_step == 7));
    assert_eq!(race.culls, 2);
}

#[test]
fn the_population_stands_in_hash_order_and_holds_a_hash_once() {
    let mut race = race(Direction::Minimize, 1, &["c", "a", "b"]);
    assert_eq!(race.live_hashes(), vec!["a", "b", "c"]);
    race.insert(Net::fresh("b".to_string(), 77, 0, None, 10));
    assert_eq!(race.live_count(), 3);
    assert_eq!(race.nets[race.position("b").unwrap()].net_seed, 77);
    assert!(race.is_live("c"));
    assert!(!race.is_live("d"));
}

#[test]
fn a_crossover_child_replaces_the_worst_unprotected_net() {
    let mut race = race(Direction::Minimize, 1, &["a", "b", "c"]);
    measure(&mut race, 0, 0.1);
    measure(&mut race, 1, 0.9);
    measure(&mut race, 2, 0.5);
    let child = Net::fresh("x".to_string(), 1, 4, None, 10);
    let gone = race.admit_crossover(child, CrossCullPolicy::Worst, 1, 4).unwrap();
    assert_eq!(gone.net.hash, "b");
    assert_eq!(gone.reason.label(), "crossover");
    assert_eq!(race.live_hashes(), vec!["a", "c", "x"]);
}

#[test]
fn the_snapshot_sees_best_and_worst_by_direction() {
    let mut race = race(Direction::Maximize, 1, &["a", "b", "c"]);
    measure(&mut race, 0, 0.1);
    measure(&mut race, 1, 0.9);
    let shot = race.snapshot(5, score(0.5), 12);
    assert_eq!(shot.best_smoothed_fitness, score(0.9));
    assert_eq!(shot.worst_smoothed_fitness, score(0.1), "a net without a verdict is left out");
    assert_eq!((shot.live_count, shot.step, shot.elapsed_seconds), (3, 5, 12));
    assert_eq!(race.best_smoothed_fitness(), score(0.9));
    assert_eq!(race.smoothed_fitness_values(), vec![score(0.1), score(0.9)]);
}

#[test]
fn child_ordinals_never_repeat_within_a_clock() {
    let mut race = Race::new(Direction::Minimize, 1, 10);
    assert_eq!(race.next_child_ordinal(3), 0);
    assert_eq!(race.next_child_ordinal(3), 1);
    assert_eq!(race.next_child_ordinal(4), 0);
    race.consume_ordinals(3, 9);
    assert_eq!(race.next_child_ordinal(3), 9);
}
