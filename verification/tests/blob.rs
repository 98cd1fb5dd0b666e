use gras::blob::{assert_trainer_blob_matches, diff_json};
use gras::config::{DimRange, RunMode, TopologyOptions};
use gras::json::{Json, Member};
use gras::net::{Net, NetMetrics};
use gras::race::{Checkpoint, Race};
use gras::records::{
    dataset_meta, generation_json, load_past, make_generation, make_past, make_seen, read_past, read_seen,
    HistoryValues, IndividualMetrics, RunEnvelope, SeenValues, StatValues,
};
use gras::resume::{
    check_population, check_rl_resume, check_tabular_resume, check_window, find_members,
    load_checkpoints, make_entry, restore_ledger, write_checkpoints, LedgerRecord, SavedCheckpoint,
    SavedNet, Standing,
};
use gras::saved::{
    load_checkpoint, load_prior_topology, make_checkpoint, prior_topology, read_checkpoint,
    save_checkpoint, CheckpointError, IndividualRecord,
};
use gras::score::{Direction, Score};
use gras::seeds::derive_seed;
use std::collections::HashMap;

fn number(text: &str) -> Json {
    Json::Number(text.to_string())
}

fn text(s: &str) -> Json {
    Json::Text(s.to_string())
}

fn object(members: Vec<(&str, Json)>) -> Json {
    Json::Object(
        members
            .into_iter()
            .map(|(k, value)| Member { key: k.to_string(), value })
            .collect(),
    )
}

/// A value of the outside crate as a value of the library.
fn convert(v: &serde_json::Value) -> Json {
    match v {
        serde_json::Value::Null => Json::Null,
        serde_json::Value::Bool(b) => Json::Bool(*b),
        serde_json::Value::Number(n) => Json::Number(n.to_string()),
        serde_json::Value::String(s) => Json::Text(s.clone()),
        serde_json::Value::Array(a) => Json::Array(a.iter().map(convert).collect()),
        serde_json::Value::Object(m) => Json::Object(
            m.iter()
                .map(|(k, v)| Member { key: k.clone(), value: convert(v) })
                .collect(),
        ),
    }
}

fn parse(raw: &str) -> Json {
    convert(&serde_json::from_str::<serde_json::Value>(raw).unwrap())
}

fn nested_and_missing() {
    let run = parse(
        r#"{"update": "reinforce", "match_length": {"random": {"min": 48, "max": 240}}}"#,
    );
    let incoming = parse(
        r#"{"update": "value_head", "match_length": {"random": {"min": 48, "max": 120}}, "grad_clip": 1.0}"#,
    );
    let mut diffs = Vec::new();
    diff_json("", &run, &incoming, &mut diffs);
    let joined = diffs.join("; ");
    assert!(
        joined.contains("\"update\": run had \"reinforce\", incoming has \"value_head\""),
        "{joined}"
    );
    assert!(
        joined.contains("\"match_length.random.max\": run had 240, incoming has 120"),
        "{joined}"
    );
    assert!(
        joined.contains("\"grad_clip\": incoming declares 1.0, run didn't record it"),
        "{joined}"
    );
    assert!(!joined.contains("random.min"), "{joined}");
}

#[test]
fn core_trainer_blob_diff_reports_nested_and_missing_keys() {
    nested_and_missing();
}

#[test]
fn race_engine_trainer_blob_diff_reports_nested_and_missing_keys() {
    nested_and_missing();
}

fn legacy_headers() {
    let recorded: Option<Json> = None;
    let incoming = Some(object(vec![("learning_rate", number("0.001"))]));
    assert!(
        assert_trainer_blob_matches(&recorded, &incoming, "resume").is_ok(),
        "no recorded blob ⇒ nothing to compare ⇒ resume proceeds"
    );
    assert!(assert_trainer_blob_matches(&incoming, &recorded, "resume").is_ok());
}

#[test]
fn core_resume_skips_blob_check_for_legacy_headers() {
    legacy_headers();
}

#[test]
fn race_engine_resume_skips_blob_check_for_legacy_headers() {
    legacy_headers();
}

#[test]
fn core_resume_rejects_changed_trainer_const_naming_the_key() {
    let recorded = Some(object(vec![("learning_rate", number("0.001"))]));
    let incoming = Some(object(vec![("learning_rate", number("0.5"))]));
    let msg = assert_trainer_blob_matches(&recorded, &incoming, "resume").unwrap_err();
    assert!(
        msg.contains("learning_rate") && msg.contains("0.5") && msg.contains("0.001"),
        "error must NAME the drifted key and both values, got: {msg}"
    );
    assert_eq!(
        msg,
        "resume: trainer blob mismatch (consts changed since the run started?) — \
         \"learning_rate\": run had 0.001, incoming has 0.5"
    );
}

#[test]
fn core_resume_allows_identical_trainer_blob() {
    let make = || Some(parse(r#"{"a": [1, 2], "b": {"c": null, "d": true}}"#));
    assert!(assert_trainer_blob_matches(&make(), &make(), "resume").is_ok());
}

#[test]
fn only_the_recorded_description_passes() {
    let recorded = Some(parse(r#"{"a": [1, {"b": "1"}], "c": 0.5}"#));
    for other in [
        r#"{"a": [1, {"b": 1}], "c": 0.5}"#,
        r#"{"a": [{"b": "1"}, 1], "c": 0.5}"#,
        r#"{"a": [1, {"b": "1"}, null], "c": 0.5}"#,
        r#"{"a": [1, {"e": "1"}], "c": 0.5}"#,
        r#"{"a": [1, {"b": "1"}], "c": "0.5"}"#,
        r#"{"a": [1, {"b": "1"}], "c": 0.5, "d": null}"#,
        "null",
    ] {
        let incoming = Some(parse(other));
        assert!(assert_trainer_blob_matches(&recorded, &incoming, "resume").is_err(), "{other}");
        assert!(!recorded.as_ref().unwrap().same(incoming.as_ref().unwrap()), "{other}");
    }
    let again = Some(parse(r#"{"c": 5e-1, "a": [1, {"b": "1"}]}"#));
    assert!(assert_trainer_blob_matches(&recorded, &again, "resume").is_ok());
    assert!(recorded.unwrap().same(&again.unwrap()));
}

#[test]
fn a_key_the_trainer_dropped_is_named() {
    let mut diffs = Vec::new();
    diff_json(
        "",
        &object(vec![("a", object(vec![("b", number("1"))]))]),
        &object(vec![("a", object(vec![]))]),
        &mut diffs,
    );
    assert_eq!(diffs, vec!["\"a.b\": run had 1, incoming doesn't declare it"]);
}

#[test]
fn a_value_prints_as_the_outside_crate_prints_it() {
    let raw = r#"{"z":[1,2.5,-3,"q\"uo\\te\n\u0001é"],"a":{"b":null,"c":[],"d":{}},"t":true,"f":false}"#;
    let v: serde_json::Value = serde_json::from_str(raw).unwrap();
    assert_eq!(convert(&v).text(), v.to_string());
    assert_eq!(text("tab\t").text(), "\"tab\\t\"");
    assert_eq!(text("\u{8}\u{c}\n\r").text(), r#""\b\f\n\r""#);
    assert_eq!(text("\u{1}\u{1f}\u{7f}é").text(), "\"\\u0001\\u001f\u{7f}é\"");
}

#[test]
fn a_changed_order_of_a_list_is_a_difference() {
    let mut diffs = Vec::new();
    diff_json("pool", &parse("[1,2]"), &parse("[2,1]"), &mut diffs);
    assert_eq!(diffs, vec!["\"pool\": run had [1,2], incoming has [2,1]"]);
}

// ── Resume ───────────────────────────────────────────────────────────────

#[test]
fn core_resume_validates_pop_size_mismatch() {
    let err = check_population(3, 2, "run/nets").unwrap_err();
    assert!(err.contains("resume: expected 3 live nets"));
    assert_eq!(
        err,
        "resume: expected 3 live nets in population (per config.pop_size), but found 2 live nets in run/nets"
    );
    assert!(check_population(2, 2, "run/nets").is_ok());
}

#[test]
fn core_rl_resume_rejects_a_tabular_run_dir() {
    let err = check_rl_resume(
        RunMode::Rl,
        &None,
        &None,
        &Some("tabular".to_string()),
        "tabular",
        "run",
    )
    .unwrap_err();
    assert!(err.contains("not \"rl\""), "error must name the mismatch: {err}");
    assert_eq!(
        err,
        "resume_rl: run was recorded as mode \"tabular\", not \"rl\" — use RaceEngine::resume with its data_dir"
    );
}

#[test]
fn an_rl_run_is_taken_up_only_as_one() {
    let rl = Some("rl".to_string());
    assert!(check_rl_resume(RunMode::Rl, &None, &None, &rl, "rl", "run").is_ok());
    let err = check_rl_resume(RunMode::Tabular, &None, &None, &rl, "rl", "run").unwrap_err();
    assert_eq!(
        err,
        "resume_rl requires .set_run_mode(RunMode::Rl) on the config (got Tabular)"
    );
    let a = Some(object(vec![("lr", number("1"))]));
    let b = Some(object(vec![("lr", number("2"))]));
    let err = check_rl_resume(RunMode::Rl, &a, &b, &rl, "rl", "run").unwrap_err();
    assert!(err.starts_with("resume_rl: trainer blob mismatch"), "{err}");
    let err = check_tabular_resume(&rl, &None, &None, "run").unwrap_err();
    assert_eq!(
        err,
        "resume: run was recorded as mode \"rl\", not \"tabular\" — use RlEngine::resume for RL runs"
    );
    assert!(check_tabular_resume(&None, &a, &a, "run").is_ok());
    assert!(check_tabular_resume(&Some("tabular".to_string()), &a, &b, "run").is_err());
}

#[test]
fn another_smoothing_window_is_refused() {
    assert!(check_window(10, 10).is_ok());
    let err = check_window(10, 5).unwrap_err();
    assert!(err.contains("run recorded 10 but the resume config sets 5"), "{err}");
    assert!(err.contains("set_fitness_smoothing_window(10)"), "{err}");
}

#[test]
fn the_dead_and_the_never_born_are_skipped() {
    let net = |is_alive, entered_at_step, last_step| SavedNet { is_alive, entered_at_step, last_step };
    assert_eq!(net(false, 0, None).standing(), Standing::Tombstone);
    assert_eq!(net(true, 5, Some(3)).standing(), Standing::Phantom);
    assert_eq!(net(true, 5, Some(4)).standing(), Standing::Member);
    assert_eq!(net(true, 5, None).standing(), Standing::Member);
    assert_eq!(net(true, 0, Some(0)).standing(), Standing::Member);
    assert_eq!(
        find_members(&vec![
            net(true, 0, Some(9)),
            net(false, 0, Some(9)),
            net(true, 8, Some(2)),
            net(true, 8, Some(9)),
        ]),
        vec![0, 3]
    );
}

fn bits(x: f32) -> Score {
    Score::from_bits(x.to_bits())
}

fn replayed(hash: &str, last: usize) -> Net {
    let mut net = Net::fresh(hash.to_string(), 1, 0, None, 10);
    net.record_catch_up(
        NetMetrics {
            step: last,
            train_loss: bits(0.125),
            eval_loss: Some(bits(0.75)),
            fitness: bits(0.5),
            informative: vec![],
        },
        bits(0.5),
        10,
    );
    net.warm_loss_windows(10);
    net
}

#[test]
fn core_resume_restores_run_counters() {
    let mut births = HashMap::new();
    births.insert(1usize, 2usize);
    births.insert(3usize, 5usize);
    let mut race = Race::new(Direction::Minimize, 1, 10);
    race.restore(vec![replayed("a", 1), replayed("b", 1)], vec![], 7, births);
    assert_eq!(race.culls, 7, "cull budget continues, not resets");
    assert_eq!(race.births.get(&1), Some(&2), "child ordinals restored");
    assert_eq!(race.births.get(&3), Some(&5));
    assert_eq!(race.next_child_ordinal(3), 5, "ordinals go on where they were");
    let session = std::time::Instant::now();
    let age = 120 + session.elapsed().as_secs();
    let snap = race.snapshot(2, bits(0.5), age);
    assert!(snap.elapsed_seconds >= 120, "the run's true age is kept");
    assert_eq!(snap.culls, 7);
}

#[test]
fn a_restored_race_has_its_ledger_and_warm_windows() {
    let ledger = restore_ledger(&vec![
        SavedCheckpoint {
            step: Some(10),
            pop_mean_fitness: Some(bits(0.5)),
            exam_mean_fitness: Some(bits(0.25)),
        },
        SavedCheckpoint { step: None, pop_mean_fitness: None, exam_mean_fitness: None },
    ]);
    assert_eq!(
        ledger[0],
        Checkpoint { step: 10, pop_mean_fitness: bits(0.5), exam_mean_fitness: bits(0.25) }
    );
    assert_eq!(
        ledger[1],
        Checkpoint { step: 0, pop_mean_fitness: bits(0.0), exam_mean_fitness: bits(0.0) },
        "what is missing counts as 0"
    );
    let mut race = Race::new(Direction::Minimize, 1, 10);
    race.restore(vec![replayed("b", 4), replayed("a", 6)], ledger, 17, HashMap::new());
    assert_eq!(race.live_hashes(), vec!["a", "b"]);
    assert_eq!(race.checkpoints.len(), 2);
    assert_eq!(race.step_clock(), 7);
    assert_eq!(race.nets[0].train_window.values(), vec![bits(0.125)]);
    assert_eq!(race.nets[0].eval_window.values(), vec![bits(0.75)]);
    assert_eq!(race.nets[0].fitness_window.values(), vec![bits(0.5)]);
}

#[test]
fn the_ledger_is_written_and_read() {
    let record = |step: usize, pop: &str, exam: &str| LedgerRecord {
        step,
        pop_mean_fitness: pop.to_string(),
        exam_mean_fitness: exam.to_string(),
    };
    let text = write_checkpoints(&vec![record(10, "0.5", "-0.25"), record(20, "1.50", "NaN")]);
    assert_eq!(
        text,
        "[\n  {\n    \"exam_mean_fitness\": -0.25,\n    \"pop_mean_fitness\": 0.5,\n    \"step\": 10\n  },\n  {\n    \"exam_mean_fitness\": null,\n    \"pop_mean_fitness\": 1.5,\n    \"step\": 20\n  }\n]"
    );
    let back = load_checkpoints(&text).unwrap();
    assert_eq!(back[0].step, 10);
    assert_eq!(back[0].exam_mean_fitness.as_deref(), Some("-0.25"));
    assert_eq!(back[1].exam_mean_fitness, None, "null is no number");
    assert_eq!(write_checkpoints(&vec![]), "[]");
}

// ── Generational files ───────────────────────────────────────────────────

#[test]
fn a_prior_topology_is_found_in_any_of_its_fields() {
    let best = parse(r#"{"topology": "c", "best_topology": "a", "file_topology": "b"}"#);
    assert_eq!(prior_topology(&best, "p").unwrap(), "a");
    let file = parse(r#"{"topology": "c", "file_topology": {"nodes": [1]}}"#);
    assert_eq!(prior_topology(&file, "p").unwrap(), "{\"nodes\":[1]}");
    let plain = parse(r#"{"topology": "c"}"#);
    assert_eq!(prior_topology(&plain, "p").unwrap(), "c");
    assert_eq!(
        prior_topology(&parse("{}"), "p").unwrap_err(),
        "prior topology file has no 'best_topology', 'file_topology', or 'topology' field: p"
    );
    assert!(prior_topology(&parse("[1]"), "p").is_err());
}

#[test]
fn a_file_that_is_no_json_is_refused_with_the_readers_words() {
    let why = serde_json::from_str::<serde_json::Value>("{oops").unwrap_err().to_string();
    assert_eq!(
        load_prior_topology("{oops", "p").unwrap_err(),
        format!("prior topology parse: {why}")
    );
    assert_eq!(load_prior_topology(r#"{"topology": "t"}"#, "p").unwrap(), "t");
    assert!(load_prior_topology("{}", "p").unwrap_err().ends_with("field: p"));
    let refused = load_checkpoint("{oops").unwrap_err();
    assert_eq!(refused, CheckpointError::Parse(why.clone()));
    assert_eq!(refused.message(), format!("checkpoint parse: {why}"));
    assert_eq!(load_checkpoints("{oops").unwrap_err(), format!("checkpoints parse: {why}"));
}

#[test]
fn a_text_is_read_as_the_outside_crate_reads_it() {
    let raw = r#" {"b": [1, -2, 3.50, 1e3, null], "a": {"x": "é\n\u0041"}, "c": true} "#;
    let outside: serde_json::Value = serde_json::from_str(raw).unwrap();
    let inside = Json::parse(raw).unwrap();
    assert_eq!(inside.text(), outside.to_string());
    assert_eq!(inside.text(), convert(&outside).text());
    assert_eq!(inside.copy().text(), inside.text());
    assert_eq!(inside.get_number("b"), None);
    assert_eq!(inside.get("a").unwrap().get("x").unwrap().text(), "\"é\\nA\"");
    assert_eq!(Json::number(u64::MAX).as_whole_number(), Some(u64::MAX));
    assert_eq!(number("18446744073709551616").as_whole_number(), None);
    assert_eq!(number("-1").as_whole_number(), None);
    assert_eq!(number("1.0").as_whole_number(), None);
    assert_eq!(number("").as_whole_number(), None);
}

#[test]
fn a_checkpoint_reads_back() {
    let individuals = vec![
        IndividualRecord { seed: 5, rng_state: 99, topology: "{\"a\":1}".to_string() },
        IndividualRecord { seed: 6, rng_state: u64::MAX, topology: "t\n\"".to_string() },
    ];
    let printed = save_checkpoint(u64::MAX, 12, &individuals);
    let outside: serde_json::Value = serde_json::from_str(&printed).unwrap();
    assert_eq!(serde_json::to_string_pretty(&outside).unwrap(), printed);
    assert_eq!(outside["pop_size"].as_u64(), Some(2));
    assert_eq!(outside["individuals"][1]["seed"].as_u64(), Some(6));
    assert_eq!(make_checkpoint(u64::MAX, 12, &individuals).text(), outside.to_string());
    let loaded = load_checkpoint(&printed).unwrap();
    assert_eq!(loaded.run_seed, u64::MAX);
    assert_eq!(loaded.generation, 12);
    assert_eq!(loaded.individuals.len(), 2);
    assert_eq!(loaded.individuals[0].topology, "{\"a\":1}");
    assert_eq!(loaded.individuals[0].rng_state, Some(99));
    assert_eq!(loaded.individuals[1].topology, "t\n\"");
    assert_eq!(loaded.individuals[1].rng_state, Some(u64::MAX));
}

#[test]
fn what_is_missing_in_a_checkpoint_is_named() {
    let err = |raw: &str| match load_checkpoint(raw) {
        Ok(_) => panic!("{raw} must be refused"),
        Err(e) => e,
    };
    assert_eq!(err("{}"), CheckpointError::RunSeed);
    assert_eq!(err(r#"{"run_seed": -1}"#), CheckpointError::RunSeed);
    assert_eq!(err(r#"{"run_seed": 1.0}"#), CheckpointError::RunSeed);
    assert_eq!(err(r#"{"run_seed": 1}"#), CheckpointError::Generation);
    assert_eq!(err(r#"{"run_seed": 1, "generation": 2}"#), CheckpointError::Individuals);
    assert_eq!(
        err(r#"{"run_seed": 1, "generation": 2, "individuals": [{"seed": 1}]}"#),
        CheckpointError::Topology
    );
    assert_eq!(CheckpointError::RunSeed.message(), "checkpoint missing run_seed");
    assert_eq!(CheckpointError::Generation.message(), "checkpoint missing generation");
    assert_eq!(CheckpointError::Individuals.message(), "checkpoint missing individuals");
    assert_eq!(CheckpointError::Topology.message(), "checkpoint individual missing topology");
    let ok = read_checkpoint(&parse(
        r#"{"run_seed": 1, "generation": 2, "individuals": [{"topology": {"x": 1}}]}"#,
    ))
    .unwrap();
    assert_eq!(ok.individuals[0].topology, "{\"x\":1}");
    assert_eq!(ok.individuals[0].rng_state, None, "an older file does not say");
}

#[test]
fn the_ledger_is_read_entry_by_entry() {
    let file = format!(
        "[{}, {}]",
        make_entry(10, "0.5".to_string(), "-0.25".to_string()).text(),
        r#"{"step": "x", "pop_mean_fitness": "0.5", "exam_mean_fitness": 3}"#
    );
    let ledger = load_checkpoints(&file).unwrap();
    assert_eq!(ledger.len(), 2);
    assert_eq!(ledger[0].step, 10);
    assert_eq!(ledger[0].pop_mean_fitness.as_deref(), Some("0.5"));
    assert_eq!(ledger[0].exam_mean_fitness.as_deref(), Some("-0.25"));
    assert_eq!(ledger[1].step, 0, "what is missing counts as 0");
    assert_eq!(ledger[1].pop_mean_fitness, None);
    assert_eq!(ledger[1].exam_mean_fitness.as_deref(), Some("3"));
    assert!(load_checkpoints("{}").unwrap().is_empty(), "no list, no entry");
}

// ── Records ──────────────────────────────────────────────────────────────

#[test]
fn a_generation_is_recorded_with_every_individual() {
    let inds = vec![IndividualMetrics {
        seed: 7,
        dropout_prob: number("0.1"),
        fitness: number("0.5"),
        loss: Json::Null,
        params: 12,
        train_losses: vec![number("0.9"), number("0.8")],
        eval_losses: vec![],
        topo_hash: "abc".to_string(),
        topology: "{}".to_string(),
    }];
    let stats = StatValues {
        best_score: number("0.5"),
        best_loss: Json::Null,
        avg_score: number("0.5"),
        avg_loss: Json::Null,
        avg_params: number("12"),
    };
    let pretty = generation_json(9, 4, 1, &stats, &inds).unwrap();
    let record = make_generation(9, 4, 1, &stats, &inds).text();
    let outside: serde_json::Value = serde_json::from_str(&record).unwrap();
    assert_eq!(outside.to_string(), record, "the keys stand in order");
    assert_eq!(serde_json::to_string_pretty(&outside).unwrap(), pretty);
    assert_eq!(outside["gen_seed"].as_u64(), Some(derive_seed(9, 4)));
    assert_eq!(outside["generation"].as_u64(), Some(4));
    assert_eq!(outside["unique_topos"].as_u64(), Some(1));
    assert_eq!(outside["stats"]["avg_params"].as_u64(), Some(12));
    assert!(outside["stats"]["best_loss"].is_null());
    let ind = &outside["individuals"][0];
    assert_eq!(ind["idx"].as_u64(), Some(0));
    assert_eq!(ind["seed"].as_u64(), Some(7));
    assert_eq!(ind["params"].as_u64(), Some(12));
    assert_eq!(ind["fitness"].as_f64(), Some(0.5));
    assert_eq!(ind["train_losses"].to_string(), "[0.9,0.8]");
    assert_eq!(ind["eval_losses"].to_string(), "[]");
    assert_eq!(ind["topo_hash"].as_str(), Some("abc"));
    assert_eq!(ind["topology"].as_str(), Some("{}"));
}

#[test]
fn the_envelope_of_a_run_holds_its_options() {
    let mut topology = TopologyOptions::unset();
    topology.input_dim = Some(3);
    topology.max_hidden_num_nodes = Some(9);
    let mut envelope = RunEnvelope {
        run_id: "17".to_string(),
        run_seed: 42,
        generation: 2,
        pop_size: 5,
        fitness_label: "mse".to_string(),
        direction: Direction::Minimize,
        options: object(vec![("pop_size", number("5"))]),
        topology,
        hidden_dim_pool: DimRange { start: 8, end: 32 },
        hidden_dim_stride: 4,
        history: vec![],
        robustness: Json::Array(vec![]),
    };
    let text = envelope.build_envelope().text();
    let v: serde_json::Value = serde_json::from_str(&text).unwrap();
    assert_eq!(v.to_string(), text, "the keys stand in order");
    assert_eq!(v["run_id"].as_str(), Some("17"));
    assert_eq!(v["run_seed"].as_u64(), Some(42));
    assert_eq!(v["fitness_direction"].as_str(), Some("Minimize"));
    assert_eq!(v["input_dim"].as_u64(), Some(3));
    assert!(v["output_dim"].is_null());
    assert_eq!(v["options"]["pop_size"].as_u64(), Some(5));
    assert_eq!(v["topology_options"]["hidden_dim_pool"].as_str(), Some("8..=32"));
    assert_eq!(v["topology_options"]["max_hidden_num_nodes"].as_u64(), Some(9));
    assert!(v["topology_options"]["min_hidden_num_nodes"].is_null());
    assert!(v["history"].is_null(), "no history was kept");
    envelope.history.push(number("1"));
    envelope.direction = Direction::Maximize;
    let text = envelope.build_envelope().text();
    assert!(text.contains("\"history\":[1]") && text.contains("\"Maximize\""), "{text}");
    let v: serde_json::Value = serde_json::from_str(&text).unwrap();
    assert_eq!(envelope.to_json().unwrap(), serde_json::to_string_pretty(&v).unwrap());
    envelope.options = object(vec![("b", Json::Null), ("a", Json::Null)]);
    assert_eq!(envelope.to_json(), None, "keys out of order");
}

#[test]
fn the_past_of_a_finished_run_is_taken_back() {
    let past = make_past(&HistoryValues {
        generation: 3,
        best_score: number("0.5"),
        best_loss: Json::Null,
        worst_score: number("0.75"),
        worst_loss: Json::Null,
        avg_score: number("0.625"),
        avg_loss: Json::Null,
        best_params: 10,
        avg_params: number("12.5"),
        unique_topos: 4,
    });
    let seen = make_seen(&SeenValues {
        count: 2,
        min_fitness: number("0.25"),
        max_fitness: number("0.5"),
        mean: number("0.375"),
        m2: number("0.03125"),
        param_count: 10,
        topology: "{}".to_string(),
    });
    assert!(past.is_ordered() && seen.is_ordered());
    let envelope = RunEnvelope {
        run_id: "17".to_string(),
        run_seed: 42,
        generation: 4,
        pop_size: 5,
        fitness_label: "mse".to_string(),
        direction: Direction::Minimize,
        options: Json::Null,
        topology: TopologyOptions::unset(),
        hidden_dim_pool: DimRange { start: 8, end: 32 },
        hidden_dim_stride: 4,
        history: vec![past.copy()],
        robustness: Json::Array(vec![seen.copy()]),
    };
    let (history, robustness) = load_past(&envelope.to_json().unwrap());
    assert_eq!(history.len(), 1);
    assert_eq!(history[0].text(), past.text());
    assert_eq!(history[0].get_number("generation"), Some(3));
    assert_eq!(robustness.len(), 1);
    assert_eq!(robustness[0].text(), seen.text());
    let back = read_seen(&robustness[0]).unwrap();
    assert_eq!((back.count, back.param_count), (2, 10));
    assert_eq!((back.mean.as_str(), back.m2.as_str()), ("0.375", "0.03125"));
    assert_eq!((back.min_fitness.as_str(), back.max_fitness.as_str()), ("0.25", "0.5"));
    assert_eq!(back.topology, "{}");
    assert!(read_seen(&past).is_none(), "another kind of entry");
    let then = read_past(&history[0]).unwrap();
    assert_eq!((then.generation, then.best_params, then.unique_topos), (3, 10, 4));
    assert_eq!((then.best_score.as_str(), then.worst_score.as_str()), ("0.5", "0.75"));
    assert_eq!((then.avg_score.as_str(), then.avg_params.as_str()), ("0.625", "12.5"));
    assert_eq!((then.best_loss, then.worst_loss, then.avg_loss), (None, None, None));
    assert!(read_past(&seen).is_none(), "another kind of entry");
    for raw in ["{oops", "[]", r#"{"history": null, "robustness": 3}"#, "{}"] {
        let (history, robustness) = load_past(raw);
        assert!(history.is_empty() && robustness.is_empty(), "{raw}");
    }
}

#[test]
fn a_history_with_a_foreign_entry_is_no_history() {
    let entry = |best: &str, loss: &str, topos: &str| {
        format!(
            "{{\"generation\": 1, \"best_score\": {best}, {loss} \"worst_score\": -2, \
             \"worst_loss\": null, \"avg_score\": 1e3, \"avg_loss\": 0.25, \"best_params\": 7, \
             \"avg_params\": 8.5, \"unique_topos\": {topos}, \"more\": []}}"
        )
    };
    let count = |entries: &[String]| {
        load_past(&format!("{{\"history\": [{}]}}", entries.join(", "))).0.len()
    };
    let good = entry("0.5", "", "2");
    let with_loss = entry("0.5", "\"best_loss\": 3,", "2");
    assert_eq!(count(&[good.clone(), with_loss.clone()]), 2);
    let (history, _) = load_past(&format!("{{\"history\": [{with_loss}]}}"));
    let then = read_past(&history[0]).unwrap();
    assert_eq!(then.best_loss, Some("3".to_string()));
    assert_eq!((then.worst_loss, then.avg_loss), (None, Some("0.25".to_string())));
    for bad in [
        entry("null", "", "2"),
        entry("\"0.5\"", "", "2"),
        entry("0.5", "\"best_loss\": false,", "2"),
        entry("0.5", "", "-2"),
        entry("0.5", "", "2.0"),
        "{}".to_string(),
        "4".to_string(),
    ] {
        assert_eq!(count(&[good.clone(), bad.clone()]), 0, "{bad}");
    }
    let seen = r#"{"count": 1, "min_fitness": 1, "max_fitness": 2, "mean": 1.5, "m2": 0,
        "param_count": 3, "topology_json": "{}"}"#;
    let report = |entries: &str| load_past(&format!("{{\"robustness\": [{entries}]}}")).1.len();
    assert_eq!(report(seen), 1);
    assert_eq!(report(&format!("{seen}, {{}}")), 0);
}

#[test]
fn a_value_is_laid_out_with_its_numbers_as_they_read() {
    let v = object(vec![("a", number("1.50")), ("b", Json::Array(vec![number("007")]))]);
    assert_eq!(v.to_json().unwrap(), "{\n  \"a\": 1.5,\n  \"b\": [\n    null\n  ]\n}");
    let nested = Json::Array(vec![object(vec![("b", Json::Null), ("a", Json::Null)])]);
    assert!(!nested.is_ordered());
    assert_eq!(nested.to_json(), None);
    let twice = object(vec![("a", Json::Null), ("a", Json::Null)]);
    assert_eq!(twice.to_json(), None);
}

#[test]
fn the_shapes_of_a_dataset_are_written_beside_it() {
    let text = dataset_meta(&vec![100, 4], &vec![100, 1]);
    let v: serde_json::Value = serde_json::from_str(&text).unwrap();
    assert_eq!(v["inputs_shape"].to_string(), "[100,4]");
    assert_eq!(v["targets_shape"].to_string(), "[100,1]");
    assert_eq!(serde_json::to_string_pretty(&v).unwrap(), text);
}
