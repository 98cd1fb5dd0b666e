use gras::child::{random_child, replay_parity, replay_segments, RandomChild};
use gras::config::{DimRange, PopPruner, PopPrunerMethod, RaceConfig, StopReason};
use gras::endgame::{EndAction, EndState};
use gras::history::{History, MetricTexts};
use gras::net::{Net, NetMetrics};
use gras::race::{Checkpoint, Race};
use gras::resume::{load_checkpoints, make_entry, restore_ledger, SavedCheckpoint};
use gras::roll::record_pruning;
use gras::run_loop::{advance, Action, Event, LoopKnobs, LoopState};
use gras::run_spec::{stream_geometry, StreamShape};
use gras::score::{Direction, Score};
use gras::seeds::GenePools;
use gras::step::StepPlan;

fn score(x: f32) -> Score {
    Score::from_bits(x.to_bits())
}

fn number(s: Score) -> f32 {
    f32::from_bits(s.bits)
}

fn mean(values: &[Score]) -> Score {
    score(values.iter().map(|s| number(*s)).sum::<f32>() / values.len().max(1) as f32)
}

/// A race whose nets get better by training: the fitness of a net depends on
/// its seed and on the clock alone.
struct Run {
    cfg: RaceConfig,
    race: Race,
    history: History,
    lines: String,
    trained: Vec<(String, usize)>,
    written: Vec<EndAction>,
}

fn fitness_at(net_seed: usize, clock: usize) -> f32 {
    1.0 / (1.0 + (net_seed % 97) as f32 + clock as f32)
}

fn measured(net_seed: usize, clock: usize) -> NetMetrics {
    let fitness = score(fitness_at(net_seed, clock));
    NetMetrics {
        step: clock,
        train_loss: fitness,
        eval_loss: Some(fitness),
        fitness,
        informative: vec![],
    }
}

impl Run {
    fn new(cfg: RaceConfig, seeds: &[usize]) -> Run {
        let mut race = Race::new(Direction::Minimize, cfg.elite_count, cfg.smoothing_window);
        for s in seeds {
            let window = cfg.smoothing_window;
            race.insert(Net::fresh(format!("net-{s}"), *s, 0, None, window));
        }
        let history = History::new(true, vec![]);
        Run { cfg, race, history, lines: String::new(), trained: vec![], written: vec![] }
    }

    fn step(&mut self, i: usize, clock: usize) {
        let start = self.race.begin_step(i, self.cfg.freeze_elites);
        match start.plan {
            StepPlan::Carry { fitness, eval_loss } => {
                let m = mean(&self.race.nets[i].fitness_window_after(fitness));
                self.race.carry_step(i, fitness, eval_loss, m);
            }
            StepPlan::Train => {
                let metrics = measured(self.race.nets[i].net_seed, clock);
                self.trained.push((self.race.nets[i].hash.clone(), clock));
                let m = mean(&self.race.nets[i].fitness_window_after(metrics.fitness));
                self.race.record_step(i, metrics, m);
            }
        }
    }

    fn log(&mut self, clock: usize) {
        let numbers: Vec<MetricTexts> = self
            .race
            .nets
            .iter()
            .map(|_| MetricTexts {
                train_loss: "0".to_string(),
                eval_loss: None,
                fitness: "0".to_string(),
                informative: vec![],
            })
            .collect();
        self.history.append_metrics(clock, &self.race.nets, &numbers);
        if let Some(text) = self.history.flush(true) {
            self.lines.push_str(&text);
        }
    }

    fn run(&mut self) -> StopReason {
        let knobs = LoopKnobs::of(&self.cfg);
        let mut state = LoopState::start();
        let mut clock = self.race.step_clock();
        let mut event = Event::Begin { clock, culls: self.race.culls };
        loop {
            let (next, action) = advance(&knobs, state, self.race.live_count(), false, event);
            state = next;
            event = match action {
                Action::StepNet { net } => {
                    self.step(net, clock);
                    Event::Done
                }
                Action::AppendMetrics => {
                    self.log(clock);
                    Event::Done
                }
                Action::DrawCrossover { .. } | Action::DrawMutation { .. } => {
                    Event::Drawn(score(1.0))
                }
                Action::CountCulls => Event::Culls(self.race.culls),
                Action::SumUp { .. } => {
                    Event::Stop(self.race.check_stop(&self.cfg, clock, false, false))
                }
                Action::NextStep => {
                    clock = self.race.step_clock();
                    Event::Begin { clock, culls: self.race.culls }
                }
                Action::Finish { reason, clock } => return self.finish(reason, clock),
                other => panic!("{other:?}"),
            };
        }
    }

    fn finish(&mut self, reason: StopReason, clock: usize) -> StopReason {
        let mut state = EndState::begin(reason, clock, self.cfg.pop_pruner);
        let mut culled = 0;
        loop {
            let (next, action) = state.advance(self.race.live_count(), culled);
            state = next;
            match action {
                EndAction::Prune => {
                    let live = self.race.live_count();
                    let gone = self.race.prune(clock);
                    record_pruning(&gone, clock, live, &mut self.history);
                    culled = gone.len();
                }
                EndAction::WriteCulls => {
                    if let Some(text) = self.history.flush(true) {
                        self.lines.push_str(&text);
                    }
                }
                EndAction::StepNet { net, clock } => self.step(net, clock),
                EndAction::AppendMetrics { clock } => self.log(clock),
                EndAction::Stop { reason } => return reason,
                other => self.written.push(other),
            }
        }
    }
}

/// No roll fires: what the race does is what its nets do.
fn quiet(keep: usize, solo: Option<usize>) -> RaceConfig {
    let mut cfg = RaceConfig::defaults();
    cfg.elite_count = keep;
    cfg.max_steps = Some(2);
    cfg.crossover_prob = score(0.5);
    cfg.mutate_prob = score(0.5);
    cfg.pop_pruner = solo.map(|steps| PopPruner { method: PopPrunerMethod::Hard, steps });
    cfg
}

#[test]
fn core_pruner_disabled_stops_at_max_steps() {
    let mut run = Run::new(quiet(1, None), &[7, 8, 9]);
    assert_eq!(run.run(), StopReason::MaxSteps);
    assert_eq!(run.race.live_count(), 3, "pruner off: nobody is culled at stop");
    assert_eq!(run.race.step_clock(), 3, "the criterion is asked after the step");
}

#[test]
fn the_pruner_trains_the_survivor_alone() {
    let mut cfg = quiet(1, Some(3));
    cfg.freeze_elites = false;
    let mut run = Run::new(cfg, &[7, 8, 9]);
    assert_eq!(run.run(), StopReason::MaxSteps);
    assert_eq!(run.race.live_hashes(), vec!["net-9"], "the fittest is left");
    assert_eq!(run.race.nets[0].trainings, 3 + 3, "survivor advanced through solo phase");
    assert!(run.lines.contains("pruner"), "culls are recorded as pruner attempt rows");
    for solo_step in [3usize, 4, 5] {
        assert!(run.lines.contains(&format!("metric,{solo_step},")), "{}", run.lines);
    }
}

#[test]
fn a_frozen_champion_trains_again_once_it_is_alone() {
    let mut run = Run::new(quiet(1, Some(3)), &[7, 8, 9]);
    assert_eq!(run.run(), StopReason::MaxSteps);
    assert_eq!(run.race.live_hashes(), vec!["net-9"]);
    let clocks: Vec<usize> =
        run.trained.iter().filter(|(h, _)| h == "net-9").map(|(_, c)| *c).collect();
    assert_eq!(clocks, vec![0, 3, 4, 5], "carried while others race, trained when alone");
    assert_eq!(run.race.nets[0].trainings, 4);
}

#[test]
fn the_counters_are_recorded_at_every_end() {
    for solo in [None, Some(0), Some(2)] {
        let mut run = Run::new(quiet(1, solo), &[7, 8, 9]);
        run.run();
        let tail = [EndAction::WriteFrontier, EndAction::WriteCounters];
        assert!(run.written.ends_with(&tail), "{solo:?}: {:?}", run.written);
        let worst = run.written.iter().filter(|a| **a == EndAction::SaveWorst).count();
        let best = run.written.iter().filter(|a| **a == EndAction::SaveChampions).count();
        assert_eq!((worst, best), (1, 1));
    }
}

/// A net stepped at some clocks by the trainer of these tests.
fn step_net(net: &mut Net, clock: usize) {
    let metrics = measured(net.net_seed, clock);
    let m = mean(&net.fitness_window_after(metrics.fitness));
    net.record_step(metrics, m, 10);
}

#[test]
fn core_resume_then_continue_matches_uninterrupted_twin() {
    let fresh = || Net::fresh("twin".to_string(), 123, 0, None, 10);
    let mut a = fresh();
    for clock in 0..5 {
        step_net(&mut a, clock);
    }
    let mut stopped = fresh();
    for clock in 0..3 {
        step_net(&mut stopped, clock);
    }
    let last = stopped.last_metrics.as_ref().map(|m| m.step);
    let mut b = fresh();
    for (from, to) in replay_segments(stopped.trainings, 0, last) {
        for clock in from..to {
            let metrics = measured(b.net_seed, clock);
            let m = mean(&b.fitness_window_after(metrics.fitness));
            b.record_catch_up(metrics, m, 10);
        }
    }
    assert!(replay_parity(&stopped.last_metrics, &b.last_metrics));
    b.warm_loss_windows(10);
    assert_eq!(b.trainings, 3);
    let mut race = Race::new(Direction::Minimize, 1, 10);
    race.restore(vec![b], vec![], 0, std::collections::HashMap::new());
    assert_eq!(race.step_clock(), 3);
    step_net(&mut race.nets[0], 3);
    step_net(&mut race.nets[0], 4);
    let b = &race.nets[0];
    assert!(replay_parity(&a.last_metrics, &b.last_metrics), "bit for bit");
    assert_eq!(a.last_metrics.as_ref().unwrap().fitness, b.last_metrics.as_ref().unwrap().fitness);
    assert_eq!(a.trainings, b.trainings);
    assert_eq!(a.fitness_window.values(), b.fitness_window.values());
    assert_eq!(a.smoothed, b.smoothed);
}

#[test]
fn a_net_that_was_frozen_is_taken_up_as_it_was_trained() {
    let fresh = || Net::fresh("twin".to_string(), 123, 0, None, 10);
    let carry = |net: &mut Net| {
        let f = net.last_metrics.as_ref().unwrap().fitness;
        let m = mean(&net.fitness_window_after(f));
        net.carry_step(f, None, m, 10);
    };
    let mut whole = fresh();
    step_net(&mut whole, 0);
    carry(&mut whole);
    step_net(&mut whole, 2);
    let mut back = fresh();
    for clock in [0, 2] {
        let metrics = measured(back.net_seed, clock);
        let m = mean(&back.fitness_window_after(metrics.fitness));
        back.record_catch_up(metrics, m, 10);
    }
    back.warm_loss_windows(10);
    assert_eq!((whole.trainings, back.trainings), (2, 2));
    assert!(replay_parity(&whole.last_metrics, &back.last_metrics));
    assert_eq!((whole.fitness_window.len(), back.fitness_window.len()), (3, 2));
    for net in [&mut whole, &mut back] {
        carry(net);
        step_net(net, 4);
    }
    assert_eq!((whole.trainings, back.trainings), (3, 3));
    assert!(replay_parity(&whole.last_metrics, &back.last_metrics));
    assert_ne!(whole.smoothed, back.smoothed, "the carried value still counts");
    for net in [&mut whole, &mut back] {
        for clock in 5..13 {
            step_net(net, clock);
        }
    }
    assert_eq!(whole.fitness_window.values(), back.fitness_window.values());
    assert_eq!(whole.smoothed, back.smoothed, "it has left the window");
}

#[test]
fn core_pruner_is_deterministic() {
    let mut a = Run::new(quiet(1, Some(2)), &[7, 8, 9]);
    let mut b = Run::new(quiet(1, Some(2)), &[7, 8, 9]);
    a.run();
    b.run();
    assert_eq!(a.race.live_hashes(), b.race.live_hashes(), "same seed, same survivor");
    assert_eq!(a.race.nets[0].trainings, b.race.nets[0].trainings);
    let fitness = |r: &Run| r.race.nets[0].last_metrics.as_ref().map(|m| m.fitness);
    assert_eq!(fitness(&a), fitness(&b));
}

#[test]
fn core_step_one_net_advances_the_net_step_and_records_metrics() {
    let mut run = Run::new(quiet(1, None), &[7]);
    run.step(0, 0);
    let net = &run.race.nets[0];
    assert_eq!(net.trainings, 1);
    let m = net.last_metrics.as_ref().unwrap();
    assert_eq!(m.step, 0);
    assert!(number(m.train_loss).is_finite());
    assert!(number(m.fitness).is_finite());
}

fn small_pools() -> GenePools {
    GenePools {
        dims: DimRange { start: 4, end: 8 },
        stride: 1,
        activations: 5,
        combines: 4,
        standardizes: 3,
    }
}

#[test]
fn core_catch_up_replays_steps_zero_to_clock() {
    let clock = 5;
    let genes = random_child(small_pools(), 1, 3, 42, clock, 0);
    let origin = Some("random".to_string());
    let mut child = Net::fresh("child".to_string(), genes.seed as usize, clock, origin, 10);
    for step in 0..clock {
        let metrics = measured(child.net_seed, step);
        let m = mean(&child.fitness_window_after(metrics.fitness));
        child.record_catch_up(metrics, m, 10);
    }
    assert_eq!(child.trainings, clock);
    assert_eq!(child.last_metrics.as_ref().unwrap().step, clock - 1);
    assert!(child.train_window.is_empty(), "the loss windows start with the first group step");
}

#[test]
fn core_immigrant_evolution_keeps_pop_constant() {
    let mut run = Run::new(quiet(1, None), &[0, 1, 2, 3]);
    for i in 0..4 {
        run.step(i, 0);
    }
    let policy = run.cfg.mutation_cull_policy;
    let mut seeds = vec![];
    for _ in 0..3 {
        let gone = run.race.evict_for_immigrant(policy, 99, 7, 0, 0).unwrap();
        let start = run.race.next_child_ordinal(7);
        let genes = random_child(small_pools(), 1, 3, 99, 7, start);
        let hash = format!("child-{}", genes.seed);
        assert_eq!(run.race.judge_random_child(7, start, 0, &hash), RandomChild::Taken);
        seeds.push(genes.seed);
        let origin = Some("random".to_string());
        let window = run.race.window;
        let child = Net::fresh(hash, genes.seed as usize, 7, origin, window);
        let history = &mut run.history;
        let detail = run.race.close_immigration(child, &gone, 7, false, &None, history);
        assert!(detail.contains("inserted (no gate)"), "{detail}");
    }
    assert_eq!(run.race.live_count(), 4, "each round culls one and brings one in");
    assert_eq!(run.race.culls, 3);
    seeds.sort();
    seeds.dedup();
    assert_eq!(seeds.len(), 3, "siblings of one clock differ");
}

#[test]
fn core_resume_held_out_eval_rows_ride_the_header() {
    let g = stream_geometry(Some(StreamShape::none()), None, Some(64), 50);
    assert_eq!(g.held_out_rows, 64, "resumed stream honors the recorded rows");
}

#[test]
fn core_resume_checkpoint_ledger_gate_parity() {
    let mut run = Run::new(quiet(1, None), &[7, 8]);
    for clock in 0..3 {
        run.step(0, clock);
        run.step(1, clock);
    }
    let expected_mean = mean(&run.race.smoothed_fitness_values());
    let entry = make_entry(2, number(expected_mean).to_string(), "0.5".to_string());
    let file = format!("[{}]", entry.text());
    let saved: Vec<SavedCheckpoint> = load_checkpoints(&file)
        .unwrap()
        .into_iter()
        .map(|e| SavedCheckpoint {
            step: Some(e.step),
            pop_mean_fitness: e.pop_mean_fitness.map(|t| score(t.parse::<f32>().unwrap())),
            exam_mean_fitness: e.exam_mean_fitness.map(|t| score(t.parse::<f32>().unwrap())),
        })
        .collect();
    let ledger: Vec<Checkpoint> = restore_ledger(&saved);
    assert_eq!(ledger.len(), 1, "ledger reloaded");
    assert_eq!(ledger[0].step, 2);
    assert_eq!(ledger[0].pop_mean_fitness, expected_mean);
    assert!(!ledger[0].exam_mean_fitness.is_nan(), "exam reading persisted");
}
