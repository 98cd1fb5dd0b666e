use gras::calendar::{build_stamp, civil_from_days, utc_stamp};
use gras::config::{CrossCullPolicy, CrossoverGate, MutationCullPolicy, RaceConfig, StopReason};
use gras::gate::{collect_means, current_gate_bar, make_gate_bars, GateRun};
use gras::history::{header_line, Attempt, History, MetricTexts};
use gras::labels::{crossover_op_of, CrossoverOp, LogLevel};
use gras::net::{Net, NetMetrics};
use gras::race::{Checkpoint, Race};
use gras::report::{
    age_label, artifact_name, badge, frame, heading, make_table_rows, resume_hint, step_line, Guards,
    TableTexts,
};
use gras::roll::{record_pruning, Opening, TrialTexts};
use gras::run_loop::{advance, Action, Event, LoopKnobs, LoopState, Phase, StepEvolve};
use gras::score::{Direction, Score};
use gras::text::{csv_field, decimal, short};

fn score(x: f32) -> Score {
    Score::from_bits(x.to_bits())
}

fn measured(hash: &str, seed: usize, fitness: f32) -> Net {
    let mut net = Net::fresh(hash.to_string(), seed, 0, Some("founder-0".to_string()), 10);
    net.record_step(
        NetMetrics {
            step: 0,
            train_loss: score(0.25),
            eval_loss: None,
            fitness: score(fitness),
            informative: vec![],
        },
        score(fitness),
        10,
    );
    net
}

fn field(nets: &[(&str, f32)]) -> Race {
    let mut race = Race::new(Direction::Minimize, 1, 10);
    for (i, (h, f)) in nets.iter().enumerate() {
        race.insert(measured(h, i, *f));
    }
    race
}

// ── Text ─────────────────────────────────────────────────────────────────

#[test]
fn fields_are_quoted_only_where_they_must_be() {
    assert_eq!(csv_field("plain"), "plain");
    assert_eq!(csv_field("crossover:parents=h1,h2"), "\"crossover:parents=h1,h2\"");
    assert_eq!(csv_field("say \"hi\""), "\"say \"\"hi\"\"\"");
    assert_eq!(csv_field("a\nb"), "\"a\nb\"");
    assert_eq!(decimal(0), "0");
    assert_eq!(decimal(u64::MAX), u64::MAX.to_string());
    assert_eq!(short("0123456789"), "01234567");
    assert_eq!(short("abc"), "abc");
}

#[test]
fn labels_in_any_script_are_lowered() {
    assert_eq!(LogLevel::parse("  Minimal "), Some(LogLevel::Minimal));
    let mut cfg = RaceConfig::defaults();
    cfg.crossover_ops_pool = vec!["ÉCLAIR".to_string()];
    assert_eq!(
        cfg.resolved_crossover_ops().unwrap_err(),
        "unknown crossover op 'éclair' (use \"one_point\" or \"uniform\")"
    );
    assert_eq!(crossover_op_of("onepoint"), Ok(CrossoverOp::OnePoint));
}

// ── Calendar ─────────────────────────────────────────────────────────────

#[test]
fn days_have_their_dates() {
    assert_eq!(civil_from_days(0), (1970, 1, 1));
    assert_eq!(civil_from_days(-1), (1969, 12, 31));
    assert_eq!(civil_from_days(11_016), (2000, 2, 29));
    assert_eq!(civil_from_days(11_017), (2000, 3, 1));
    assert_eq!(civil_from_days(-25_509), (1900, 2, 28));
    assert_eq!(civil_from_days(-25_508), (1900, 3, 1));
    assert_eq!(civil_from_days(-719_468), (0, 3, 1));
    assert_eq!(civil_from_days(-719_469), (0, 2, 29));
    let (mut y, mut m, mut d) = (1970i64, 1u32, 1u32);
    for z in 0..200_000i64 {
        assert_eq!(civil_from_days(z), (y, m, d));
        let leap = y % 4 == 0 && (y % 100 != 0 || y % 400 == 0);
        let len = match m {
            2 => 28 + leap as u32,
            4 | 6 | 9 | 11 => 30,
            _ => 31,
        };
        d += 1;
        if d > len {
            d = 1;
            m += 1;
        }
        if m > 12 {
            m = 1;
            y += 1;
        }
    }
}

#[test]
fn a_build_is_stamped_with_its_time_and_place() {
    assert_eq!(utc_stamp(0), "1970-01-01 00:00:00Z");
    assert_eq!(utc_stamp(1_709_210_096), "2024-02-29 12:34:56Z");
    assert_eq!(
        build_stamp("0.1.0", true, Some(0), Some("/bin/gras")),
        "gras 0.1.0 [debug] built 1970-01-01 00:00:00Z — exe /bin/gras"
    );
    assert_eq!(
        build_stamp("0.1.0", false, None, None),
        "gras 0.1.0 [release] built unknown — exe -"
    );
}

// ── History ──────────────────────────────────────────────────────────────

#[test]
fn the_history_lines_up_with_its_header() {
    let labels = vec!["acc".to_string(), "f1".to_string()];
    let header = header_line(&labels);
    assert_eq!(
        header,
        "type,step,hash,net_seed,origin,entered_at_step,train_loss,eval_loss,fitness,acc,f1,\
         branch,attempt,outcome,gate_index,child_fitness,bar,victim,victim_net_seed,pop_size\n"
    );
    let mut history = History::new(true, labels);
    history.record_attempt(&Attempt::pruned(7, "hash", Some(3)), 4);
    let text = history.flush(true).unwrap();
    assert_eq!(text, "attempt,7,,,pruned,,,,,,,\"pruner\",0,pruned,,,,hash,3,4\n");
    assert_eq!(
        text.split(',').count(),
        header.split(',').count(),
        "every cell stands in its column"
    );
    let branch = header.trim_end().split(',').position(|c| c == "branch").unwrap();
    assert_eq!(text.split(',').nth(branch), Some("\"pruner\""));
}

#[test]
fn measurements_are_recorded_for_nets_that_have_one() {
    let race = field(&[("a", 0.5)]);
    let mut nets = race.nets;
    nets.push(Net::fresh("b".to_string(), 9, 0, None, 10));
    let texts = |eval: Option<&str>| MetricTexts {
        train_loss: "0.25".to_string(),
        eval_loss: eval.map(|e| e.to_string()),
        fitness: "0.5".to_string(),
        informative: vec!["1".to_string()],
    };
    let mut history = History::new(true, vec!["acc".to_string()]);
    history.append_metrics(3, &nets, &vec![texts(None), texts(None)]);
    history.append_metrics(4, &nets, &vec![texts(Some("0.75")), texts(None)]);
    let text = history.flush(false).unwrap();
    let lines: Vec<&str> = text.lines().collect();
    assert_eq!(lines.len(), 3);
    assert!(lines[0].starts_with("type,step,"));
    assert_eq!(lines[1], "metric,3,a,0,founder-0,0,0.25,nan,0.5,1");
    assert_eq!(lines[2], "metric,4,a,0,founder-0,0,0.25,0.75,0.5,1");
    assert_eq!(history.flush(false), None, "nothing waits");
    let mut off = History::new(false, vec![]);
    off.append_metrics(3, &nets, &vec![texts(None), texts(None)]);
    off.record_attempt(&Attempt::duplicate(1, 1), 2);
    assert_eq!(off.flush(false), None, "no history is kept");
}

// ── Rolls ────────────────────────────────────────────────────────────────

fn texts() -> TrialTexts {
    TrialTexts {
        fitness: "0.3".to_string(),
        bar: "0.4".to_string(),
        shown_fitness: "0.3000".to_string(),
        shown_bar: "0.4000".to_string(),
    }
}

#[test]
fn a_roll_without_a_child_is_spent() {
    let race = field(&[("aaaaaaaaaa", 0.5), ("b", 0.6)]);
    let mut history = History::new(true, vec![]);
    let nothing = race.open_crossover(None, 2, 5, CrossoverGate::Hard, score(0.0), &mut history);
    match nothing {
        Opening::Spent(o) => {
            assert!(!o.survived);
            assert_eq!(
                o.detail,
                "no child: 3 parent-pairing draw(s) × 2 gate attempt(s) all incompatible (no compatible pivot/dims)"
            );
        }
        Opening::Trial(_) => panic!("there is no child"),
    }
    assert_eq!(history.buffer, "");
    let twin = Net::fresh("aaaaaaaaaa".to_string(), 3, 5, None, 10);
    let again =
        race.open_crossover(Some(twin), 1, 5, CrossoverGate::Hard, score(0.0), &mut history);
    match again {
        Opening::Spent(o) => {
            assert_eq!(o.detail, "child aaaaaaaa duplicates a live topology → discarded");
        }
        Opening::Trial(_) => panic!("the child is alive already"),
    }
    assert_eq!(
        history.buffer,
        "attempt,5,,,duplicate-discarded,,,,,\"crossover\",1,rejected_duplicate,,,,,,2\n"
    );
}

fn ledger() -> Vec<Checkpoint> {
    [(2usize, 0.6f32), (4, 0.4), (9, 0.1)]
        .iter()
        .map(|(step, f)| Checkpoint {
            step: *step,
            pop_mean_fitness: score(*f),
            exam_mean_fitness: score(0.0),
        })
        .collect()
}

#[test]
fn a_child_that_falls_short_changes_nothing() {
    let mut race = field(&[("a", 0.5), ("b", 0.6)]);
    race.checkpoints = ledger();
    let mut history = History::new(true, vec![]);
    let child = Net::fresh("xxxxxxxxxx".to_string(), 8, 5, Some("crossover-uniform".to_string()), 10);
    let opened =
        race.open_crossover(Some(child), 1, 5, CrossoverGate::Hard, score(0.5), &mut history);
    let mut trial = match opened {
        Opening::Trial(t) => t,
        Opening::Spent(_) => panic!("the child goes on trial"),
    };
    assert_eq!(trial.checkpoints, 2);
    assert_eq!(trial.run.next_replay(), Some((0, 2)));
    assert!(trial.run.judge(Direction::Minimize, score(0.5)));
    assert_eq!(trial.run.next_replay(), Some((2, 4)));
    assert!(!trial.run.judge(Direction::Minimize, score(0.4)), "a tie does not beat the bar");
    assert_eq!(trial.run.next_replay(), None);
    let closed = race.close_crossover(
        trial,
        CrossoverGate::Hard,
        CrossCullPolicy::Worst,
        1,
        5,
        1,
        &texts(),
        &mut history,
    );
    assert!(!closed.outcome.survived);
    assert!(closed.gone.is_none());
    assert_eq!(
        closed.outcome.detail,
        "child xxxxxxxx rejected by hard gate 2/2 (↓0.3000 vs bar 0.4000) → discarded at step 4"
    );
    assert_eq!(race.live_hashes(), vec!["a", "b"]);
    assert_eq!(
        history.buffer,
        "attempt,5,xxxxxxxxxx,8,crossover-uniform,,,,,\"crossover\",1,rejected_gate,2,0.3,0.4,,,2\n"
    );
}

#[test]
fn a_child_that_passes_takes_the_place_of_the_worst() {
    let mut race = field(&[("a", 0.5), ("b", 0.9), ("c", 0.6)]);
    race.checkpoints = ledger();
    let mut history = History::new(true, vec![]);
    let child = Net::fresh("xxxxxxxxxx".to_string(), 8, 5, None, 10);
    let opened =
        race.open_crossover(Some(child), 2, 5, CrossoverGate::Soft, score(0.5), &mut history);
    let mut trial = match opened {
        Opening::Trial(t) => t,
        Opening::Spent(_) => panic!("the child goes on trial"),
    };
    assert_eq!(trial.run.next_replay(), Some((0, 4)), "one bar, at the last checkpoint");
    assert!(trial.run.judge(Direction::Minimize, score(0.45)));
    assert!(trial.run.passed());
    assert_eq!(trial.run.final_replay(5), (4, 5));
    let closed = race.close_crossover(
        trial,
        CrossoverGate::Soft,
        CrossCullPolicy::Worst,
        1,
        5,
        2,
        &texts(),
        &mut history,
    );
    assert!(closed.outcome.survived);
    assert_eq!(closed.gone.unwrap().net.hash, "b");
    assert_eq!(
        closed.outcome.detail,
        "child xxxxxxxx (?) inserted | gate soft 0.3000 vs bar 0.4000, victim b culled"
    );
    assert_eq!(race.live_hashes(), vec!["a", "c", "xxxxxxxxxx"]);
    assert_eq!(
        history.buffer,
        "attempt,5,xxxxxxxxxx,8,,,,,,\"crossover\",2,inserted,,0.3,,b,1,3\n"
    );
}

#[test]
fn a_child_born_before_the_first_checkpoint_faces_no_bar() {
    let mut race = field(&[("a", 0.5), ("b", 0.9)]);
    race.checkpoints = ledger();
    assert!(make_gate_bars(CrossoverGate::Hard, &race.checkpoints, 1, score(0.0)).is_empty());
    assert_eq!(current_gate_bar(CrossoverGate::Hard, &race.checkpoints, 1, score(0.0)), None);
    assert_eq!(
        current_gate_bar(CrossoverGate::Hard, &race.checkpoints, 5, score(0.5)),
        Some(score(0.4))
    );
    assert_eq!(
        current_gate_bar(CrossoverGate::Soft, &race.checkpoints, 5, score(0.5)),
        Some(score(0.5))
    );
    assert!(GateRun::new(vec![]).passed());
}

#[test]
fn a_child_that_does_not_catch_up_faces_no_bar() {
    let mut race = field(&[("a", 0.1), ("b", 0.9)]);
    for c in ledger() {
        race.record_checkpoint(c);
    }
    assert_eq!(race.checkpoints, ledger());
    let mut history = History::new(true, vec![]);
    let open = |race: &Race, history: &mut History| {
        let child = Net::fresh("x".to_string(), 7, 50, None, 10);
        let gate = CrossoverGate::Hard;
        match race.open_crossover(Some(child), 1, 50, gate, score(0.0), history) {
            Opening::Trial(t) => t,
            Opening::Spent(o) => panic!("{}", o.detail),
        }
    };
    let held = open(&race, &mut history).held_if(true);
    assert_eq!(held.checkpoints, held.run.bars.len());
    assert!(held.checkpoints > 0);
    assert_eq!(held.last_replay(true, 50), None, "the bars come first");
    let waived = open(&race, &mut history).held_if(false);
    assert_eq!((waived.checkpoints, waived.run.bars.len()), (0, 0));
    assert!(waived.run.passed());
    assert_eq!(waived.last_replay(false, 50), None, "and nothing is replayed");
    assert_eq!(waived.last_replay(true, 50), Some((0, 50)));
}

#[test]
fn the_means_behind_a_soft_gate_stop_at_the_clock() {
    let all = ledger();
    let means = collect_means(&all, usize::MAX);
    assert_eq!(means, all.iter().map(|c| c.pop_mean_fitness).collect::<Vec<_>>());
    let until = collect_means(&all, all[0].step);
    assert_eq!(until, vec![all[0].pop_mean_fitness]);
}

#[test]
fn core_fresh_start_immigrant_skips_catch_up() {
    let mut race = field(&[("a", 0.1), ("b", 0.9)]);
    let mut history = History::new(true, vec![]);
    let gone = race.evict_for_immigrant(MutationCullPolicy::InverseFitness, 31, 5, 0, 0).unwrap();
    assert_eq!(gone.net.hash, "b");
    let newcomer = Net::fresh("n".to_string(), 4, 5, Some("random".to_string()), 10);
    let detail = race.close_immigration(newcomer, &gone, 5, true, &None, &mut history);
    assert_eq!(race.live_count(), 2, "cull+insert keeps size");
    let n = &race.nets[race.position("n").unwrap()];
    assert_eq!(n.trainings, 0, "fresh-start: no replayed training count");
    assert!(n.last_metrics.is_none(), "fresh-start: no replayed metrics");
    assert_eq!(
        detail,
        "victim b culled (immigrant-slot), immigrant n inserted (no gate, FRESH-START at step 5 — no catch-up)"
    );
    assert_eq!(
        history.buffer,
        "attempt,5,n,4,random,,,,,\"mutation\",1,inserted,,,,b,1,1\n"
    );
}

#[test]
fn the_pruner_is_recorded_net_by_net() {
    let mut race = field(&[("a", 0.1), ("b", 0.9), ("c", 0.5)]);
    let live = race.live_count();
    let gone = race.prune(9);
    let mut history = History::new(true, vec![]);
    record_pruning(&gone, 9, live, &mut history);
    assert_eq!(
        history.buffer,
        "attempt,9,,,pruned,,,,,\"pruner\",0,pruned,,,,b,1,3\n\
         attempt,9,,,pruned,,,,,\"pruner\",0,pruned,,,,c,2,2\n"
    );
    assert_eq!(race.live_hashes(), vec!["a"]);
}

// ── Reports ──────────────────────────────────────────────────────────────

#[test]
fn the_badge_lists_the_elites_in_order() {
    assert_eq!(badge(&vec![]), "");
    assert_eq!(
        badge(&vec!["bbbbbbbbbbbb".to_string(), "a".to_string(), "b".to_string()]),
        " │ ★ a b bbbbbbbb"
    );
    assert_eq!(
        step_line(
            7,
            5,
            "0.50 ± 0.10",
            true,
            "0.40 ± 0.10",
            "unused",
            Direction::Maximize,
            "0.90 ± 0.05",
            "1.2",
            &vec!["abc".to_string()],
        ),
        "step 7 │ pop 5 │ train_loss↓ 0.50 ± 0.10 │ eval_loss↓ 0.40 ± 0.10 │ fitness↑ 0.90 ± 0.05 │ took 1.2s │ ★ abc"
    );
}

#[test]
fn the_table_is_framed_by_its_widest_row() {
    let rows = make_table_rows(
        5,
        false,
        Direction::Minimize,
        &TableTexts {
            train: "0.50".to_string(),
            eval: "0.40".to_string(),
            volume: "matches 3".to_string(),
            fitness: "0.90 (∆-0.10)".to_string(),
            took: "1.2".to_string(),
        },
        &StepEvolve {
            culls: 1,
            inserts: 2,
            cross_fired: 3,
            cross_survived: 1,
            cross_discarded: 2,
            mutate_fired: 4,
        },
        &Guards { elites: Some(vec!["b".to_string(), "a".to_string()]), demoted: Some(2) },
    );
    assert_eq!(
        rows,
        vec![
            "pop   5 │ train_loss↓ 0.50 │ matches 3",
            "fitness↓ 0.90 (∆-0.10) │ culls 1 │ inserts 2",
            "crossover fired 3 (1 inserted, 2 spent) │ mutation rolled 4 (4 immigrant(s))",
            "step took 1.2s",
            "elite: a b │ demoted: 2",
        ]
    );
    let lines = frame(&rows);
    let inner = rows.iter().map(|r| r.chars().count()).max().unwrap();
    assert_eq!(lines.len(), rows.len() + 2);
    assert_eq!(lines[0], format!("┌{}┐", "-".repeat(inner + 2)));
    assert!(lines.iter().all(|l| l.chars().count() == inner + 4), "the right border lines up");
    assert_eq!(lines[6], format!("└{}┘", "-".repeat(inner + 2)));
    assert_eq!(frame(&vec!["x".to_string()])[1], format!("│ x{} │", " ".repeat(19)));
    assert!(frame(&vec!["x".to_string()]).iter().all(|l| l.chars().count() == 24));
}

#[test]
fn files_and_headings_name_the_champions() {
    assert_eq!(artifact_name(true, "0123456789", "md"), "elite-01234567.md");
    assert_eq!(artifact_name(false, "012", "safetensors"), "worst-012.safetensors");
    assert_eq!(
        heading(Some(0), 1, Direction::Minimize, "0.5000", "body"),
        "**Elite · fitness ↓ (smoothed) = 0.5000**\n\nbody"
    );
    assert_eq!(
        heading(Some(1), 3, Direction::Maximize, "0.5000", ""),
        "**Elite #2 · fitness ↑ (smoothed) = 0.5000**\n\n"
    );
    assert_eq!(
        heading(None, 3, Direction::Maximize, "0.1000", "x"),
        "**Worst · fitness ↑ (smoothed) = 0.1000**\n\nx"
    );
    assert_eq!(age_label(true, 3), "frozen@3");
    assert_eq!(age_label(false, 3), "last_step 3");
    assert_eq!(
        resume_hint(5, 40, "results/1"),
        "  5 live net(s) at step 40 → resume with: --resume results/1 --pop 5"
    );
}

// ── The loop ─────────────────────────────────────────────────────────────

fn start() -> LoopState {
    LoopState {
        phase: Phase::Top,
        clock: 0,
        group: 0,
        evolve: StepEvolve::default(),
        culls_before: 0,
    }
}

#[test]
fn one_step_of_the_loop_runs_through() {
    let mut cfg = RaceConfig::defaults();
    cfg.checkpoint_every = 2;
    let knobs = LoopKnobs::of(&cfg);
    let mut s = start();
    let mut go = |event: Event| {
        let (next, action) = advance(&knobs, s, 2, false, event);
        s = next;
        action
    };
    assert_eq!(go(Event::Begin { clock: 2, culls: 5 }), Action::StepNet { net: 0 });
    assert_eq!(go(Event::Done), Action::StepNet { net: 1 });
    assert_eq!(go(Event::Done), Action::AppendMetrics);
    assert_eq!(go(Event::Done), Action::TakeCheckpoint { era: 1 });
    assert_eq!(go(Event::Done), Action::DrawCrossover { roll: 0 });
    assert_eq!(go(Event::Drawn(score(0.0))), Action::TryCrossover { roll: 0, attempt: 1 });
    assert_eq!(go(Event::Tried { survived: false }), Action::DrawMutation { roll: 0 });
    assert_eq!(go(Event::Drawn(score(0.0))), Action::Immigrate { roll: 0 });
    assert_eq!(go(Event::Done), Action::CountCulls);
    assert_eq!(go(Event::Culls(6)), Action::SumUp { flush: false });
    assert_eq!(go(Event::Stop(None)), Action::NextStep);
    assert_eq!(go(Event::Tried { survived: true }), Action::Unexpected);
}

#[test]
fn an_interrupt_gives_the_step_up() {
    let knobs = LoopKnobs::of(&RaceConfig::defaults());
    let (s, _) = advance(&knobs, start(), 3, false, Event::Begin { clock: 7, culls: 0 });
    let (_, action) = advance(&knobs, s, 3, true, Event::Failed);
    assert_eq!(action, Action::Finish { reason: StopReason::Interrupted, clock: 6 });
    let (_, action) = advance(&knobs, s, 3, false, Event::Failed);
    assert_eq!(action, Action::Abort);
    let (_, action) = advance(&knobs, start(), 0, false, Event::Begin { clock: 0, culls: 0 });
    assert_eq!(action, Action::Halt { reason: StopReason::MaxSteps });
}

#[test]
fn core_crossover_prob_zero_means_spent_roll() {
    let mut cfg = RaceConfig::defaults();
    cfg.crossover_prob = score(0.0);
    cfg.mutate_rolls = 0;
    let knobs = LoopKnobs::of(&cfg);
    for clock in 0..4 {
        let at = LoopState { phase: Phase::CrossRoll { roll: 0 }, clock, ..start() };
        let mut rng = fastrand::Rng::with_seed(clock as u64);
        let (_, action) = advance(&knobs, at, 2, false, Event::Drawn(score(rng.f32())));
        assert_eq!(action, Action::CountCulls, "no child at clock {clock}");
    }
}
