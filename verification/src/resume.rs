//! Taking a stopped run up again: which saved nets belong to the population,
//! what must agree with the record, and how the race is put together.

use std::collections::HashMap;
use vstd::prelude::*;

use crate::blob::{assert_trainer_blob_matches, blob_differences, described, mismatch_text};
use crate::config::RunMode;
use crate::json::{
    array_says, as_read, field, key_is_found, number_field, number_is_plain, number_value,
    object_says, ordered, pairs, parsed_json, pretty_text, put, values, Json, JsonView, Member,
};
use crate::net::Net;
use crate::race::{
    holds, in_hash_order, next_clock, next_clock_is_new, slot_finds, with_net,
    with_net_keeps_order, Checkpoint, Race,
};
use crate::score::Score;
use crate::smoothing::last_window;
use crate::text::{decimal, decimal_text, same_text, text_below};

verus! {

// ── Which files are members ──────────────────────────────────────────────

/// What a net's file says about its life.
#[derive(Clone, Copy, Debug, PartialEq, Eq, Structural)]
pub struct SavedNet {
    pub is_alive: bool,
    pub entered_at_step: usize,
    /// The last clock the net was measured at.
    pub last_step: Option<usize>,
}

/// What a file is.
#[derive(Clone, Copy, Debug, PartialEq, Eq, Structural)]
pub enum Standing {
    /// The net was culled.
    Tombstone,
    /// The net was measured only before it could have joined: a child that
    /// never did.
    Phantom,
    /// The net belongs to the population.
    Member,
}

/// What a file is. A net that joined at some clock cannot have been measured
/// last more than one clock before.
pub open spec fn standing(s: SavedNet) -> Standing {
    if !s.is_alive {
        Standing::Tombstone
    } else if s.last_step matches Some(last) && s.entered_at_step > last + 1 {
        Standing::Phantom
    } else {
        Standing::Member
    }
}

impl SavedNet {
    pub fn standing(&self) -> (r: Standing)
        ensures
            r == standing(*self),
    {
        if !self.is_alive {
            return Standing::Tombstone;
        }
        if self.entered_at_step > 0 {
            if let Some(last) = self.last_step {
                if self.entered_at_step - 1 > last {
                    return Standing::Phantom;
                }
            }
        }
        Standing::Member
    }
}

/// The positions of the members among some files.
pub open spec fn members(saved: Seq<SavedNet>) -> Seq<usize>
    decreases saved.len(),
{
    if saved.len() == 0 {
        Seq::empty()
    } else if standing(saved.last()) == Standing::Member {
        members(saved.drop_last()).push((saved.len() - 1) as usize)
    } else {
        members(saved.drop_last())
    }
}

/// Finds the members among some files.
pub fn find_members(saved: &Vec<SavedNet>) -> (r: Vec<usize>)
    ensures
        r@ == members(saved@),
{
    let mut out: Vec<usize> = Vec::new();
    let mut i: usize = 0;
    assert(saved@.take(0) =~= Seq::empty());
    while i < saved.len()
        invariant
            i <= saved@.len(),
            out@ == members(saved@.take(i as int)),
        decreases saved@.len() - i,
    {
        assert(saved@.take(i + 1).drop_last() =~= saved@.take(i as int));
        match saved[i].standing() {
            Standing::Member => {
                out.push(i);
            },
            _ => {},
        }
        i = i + 1;
    }
    assert(saved@.take(saved@.len() as int) =~= saved@);
    out
}

/// A file is among the members exactly if its net is alive and could have lived
/// the life it records.
pub proof fn members_are_the_living(saved: Seq<SavedNet>, i: usize)
    requires
        saved.len() <= usize::MAX,
    ensures
        members(saved).contains(i) <==> i < saved.len() && standing(saved[i as int])
            == Standing::Member,
    decreases saved.len(),
{
    if saved.len() > 0 {
        let rest = saved.drop_last();
        let front = members(rest);
        members_are_the_living(rest, i);
        if standing(saved.last()) == Standing::Member {
            let last = (saved.len() - 1) as usize;
            if front.contains(i) {
                let k = choose|k: int| 0 <= k < front.len() && front[k] == i;
                assert(front.push(last)[k] == i);
            }
            if i == last {
                assert(front.push(last)[front.len() as int] == i);
            }
            if members(saved).contains(i) && i != last {
                let k = choose|k: int| 0 <= k < members(saved).len() && members(saved)[k] == i;
                assert(front[k] == i);
            }
        }
    }
}

// ── What must agree ──────────────────────────────────────────────────────

/// The complaint about another smoothing window.
pub open spec fn window_text(recorded: usize, config: usize) -> Seq<char> {
    "resume: smoothing_window mismatch — run recorded "@ + decimal_text(recorded as nat)
        + " but the resume config sets "@ + decimal_text(config as nat)
        + " — ranking semantics would change; set set_fitness_smoothing_window("@ + decimal_text(
        recorded as nat,
    ) + ") (or omit) to resume"@
}

/// A run is taken up with the smoothing window it recorded: another one would
/// rank its past anew.
pub fn check_window(recorded: usize, config: usize) -> (r: Result<(), String>)
    ensures
        match r {
            Ok(_) => recorded == config,
            Err(e) => recorded != config && e@ == window_text(recorded, config),
        },
{
    if recorded == config {
        return Ok(());
    }
    let mut out = String::from_str("resume: smoothing_window mismatch — run recorded ");
    out.append(decimal(recorded as u64).as_str());
    out.append(" but the resume config sets ");
    out.append(decimal(config as u64).as_str());
    out.append(" — ranking semantics would change; set set_fitness_smoothing_window(");
    out.append(decimal(recorded as u64).as_str());
    out.append(") (or omit) to resume");
    Err(out)
}

/// The complaint about another size of the population.
pub open spec fn population_text(pop_size: usize, found: usize, dir: Seq<char>) -> Seq<char> {
    "resume: expected "@ + decimal_text(pop_size as nat)
        + " live nets in population (per config.pop_size), but found "@ + decimal_text(
        found as nat,
    ) + " live nets in "@ + dir
}

/// A run is taken up with as many nets as its config asks for.
pub fn check_population(pop_size: usize, found: usize, dir: &str) -> (r: Result<(), String>)
    ensures
        match r {
            Ok(_) => found == pop_size,
            Err(e) => found != pop_size && e@ == population_text(pop_size, found, dir@),
        },
{
    if found == pop_size {
        return Ok(());
    }
    let mut out = String::from_str("resume: expected ");
    out.append(decimal(pop_size as u64).as_str());
    out.append(" live nets in population (per config.pop_size), but found ");
    out.append(decimal(found as u64).as_str());
    out.append(" live nets in ");
    out.append(dir);
    Err(out)
}

/// A recorded mode is this one.
pub open spec fn recorded_as(mode: Option<String>, name: Seq<char>) -> bool {
    mode matches Some(m) && m@ == name
}

/// Why an environment run cannot be taken up, if it cannot.
pub open spec fn rl_resume_error(
    mode: RunMode,
    recorded: Option<Json>,
    incoming: Option<Json>,
    engine_mode: Option<String>,
    recorded_mode: Seq<char>,
    dir: Seq<char>,
) -> Option<Seq<char>> {
    if mode != RunMode::Rl {
        Some(
            "resume_rl requires .set_run_mode(RunMode::Rl) on the config (got "@ + mode.name_text()
                + ")"@,
        )
    } else if blob_differences(described(recorded), described(incoming)).len() > 0 {
        Some(mismatch_text("resume_rl"@, blob_differences(described(recorded), described(incoming))))
    } else if !recorded_as(engine_mode, "rl"@) {
        Some(
            "resume_rl: "@ + dir + " was recorded as mode \""@ + recorded_mode
                + "\", not \"rl\" — use RaceEngine::resume with its data_dir"@,
        )
    } else {
        None
    }
}

/// Decides whether a run can be taken up as one on an environment: the config
/// must say so, the trainer must describe itself as the recorded one did, and
/// the run must have been recorded as such.
pub fn check_rl_resume(
    mode: RunMode,
    recorded: &Option<Json>,
    incoming: &Option<Json>,
    engine_mode: &Option<String>,
    recorded_mode: &str,
    dir: &str,
) -> (r: Result<(), String>)
    ensures
        match (
            r,
            rl_resume_error(mode, *recorded, *incoming, *engine_mode, recorded_mode@, dir@),
        ) {
            (Ok(_), None) => true,
            (Err(e), Some(t)) => e@ == t,
            _ => false,
        },
{
    if mode != RunMode::Rl {
        let mut out = String::from_str(
            "resume_rl requires .set_run_mode(RunMode::Rl) on the config (got ",
        );
        out.append(mode.name());
        out.append(")");
        return Err(out);
    }
    match assert_trainer_blob_matches(recorded, incoming, "resume_rl") {
        Ok(_) => {},
        Err(e) => {
            return Err(e);
        },
    }
    if let Some(m) = engine_mode {
        if same_text(m.as_str(), "rl") {
            return Ok(());
        }
    }
    let mut out = String::from_str("resume_rl: ");
    out.append(dir);
    out.append(" was recorded as mode \"");
    out.append(recorded_mode);
    out.append("\", not \"rl\" — use RaceEngine::resume with its data_dir");
    Err(out)
}

/// Why a run on data cannot be taken up, if it cannot.
pub open spec fn tabular_resume_error(
    engine_mode: Option<String>,
    recorded: Option<Json>,
    incoming: Option<Json>,
    dir: Seq<char>,
) -> Option<Seq<char>> {
    if engine_mode is Some && !recorded_as(engine_mode, "tabular"@) {
        Some(
            "resume: "@ + dir + " was recorded as mode \""@ + engine_mode->0@
                + "\", not \"tabular\" — use RlEngine::resume for RL runs"@,
        )
    } else if blob_differences(described(recorded), described(incoming)).len() > 0 {
        Some(mismatch_text("resume"@, blob_differences(described(recorded), described(incoming))))
    } else {
        None
    }
}

/// Decides whether a run can be taken up as one on data. A run that recorded no
/// mode is one.
pub fn check_tabular_resume(
    engine_mode: &Option<String>,
    recorded: &Option<Json>,
    incoming: &Option<Json>,
    dir: &str,
) -> (r: Result<(), String>)
    ensures
        match (r, tabular_resume_error(*engine_mode, *recorded, *incoming, dir@)) {
            (Ok(_), None) => true,
            (Err(e), Some(t)) => e@ == t,
            _ => false,
        },
{
    if let Some(m) = engine_mode {
        if !same_text(m.as_str(), "tabular") {
            let mut out = String::from_str("resume: ");
            out.append(dir);
            out.append(" was recorded as mode \"");
            out.append(m.as_str());
            out.append("\", not \"tabular\" — use RlEngine::resume for RL runs");
            return Err(out);
        }
    }
    assert_trainer_blob_matches(recorded, incoming, "resume")
}

/// No run is taken up as both kinds.
pub proof fn a_run_has_one_kind(
    recorded: Option<Json>,
    incoming: Option<Json>,
    engine_mode: Option<String>,
    recorded_mode: Seq<char>,
    dir: Seq<char>,
)
    ensures
        rl_resume_error(RunMode::Rl, recorded, incoming, engine_mode, recorded_mode, dir) is Some
            || tabular_resume_error(engine_mode, recorded, incoming, dir) is Some,
{
    reveal_strlit("rl");
    reveal_strlit("tabular");
    assert("rl"@.len() == 2);
    assert("tabular"@.len() == 7);
}

// ── The file of the checkpoint ledger ────────────────────────────────────

/// An entry of the ledger as it stands in its file; the means are texts of
/// numbers.
#[derive(Debug)]
pub struct LedgerTexts {
    pub step: usize,
    pub pop_mean_fitness: Option<String>,
    pub exam_mean_fitness: Option<String>,
}

/// The text of the number in a field.
pub open spec fn number_text(v: JsonView, key: Seq<char>) -> Option<Seq<char>> {
    match field(v, key) {
        Some(JsonView::Number(t)) => Some(t),
        _ => None,
    }
}

/// What an optional text says.
pub open spec fn optional_view(t: Option<String>) -> Option<Seq<char>> {
    match t {
        Some(s) => Some(s@),
        None => None,
    }
}

/// An entry is what the file says; a step that is missing counts as 0.
pub open spec fn is_entry(e: LedgerTexts, v: JsonView) -> bool {
    &&& e.step == (match number_field(v, "step"@) {
        Some(n) => n as usize,
        None => 0,
    })
    &&& optional_view(e.pop_mean_fitness) == number_text(v, "pop_mean_fitness"@)
    &&& optional_view(e.exam_mean_fitness) == number_text(v, "exam_mean_fitness"@)
}

/// The entries in the file of a ledger; none if it holds no list.
pub open spec fn ledger_entries(v: JsonView) -> Seq<JsonView> {
    match v {
        JsonView::Array(items) => items,
        _ => Seq::empty(),
    }
}

pub(crate) fn get_number_text(v: &Json, key: &str) -> (r: Option<String>)
    ensures
        optional_view(r) == number_text(v@, key@),
{
    match v.get(key) {
        Some(x) => match x {
            Json::Number(t) => Some(t.clone()),
            _ => None,
        },
        None => None,
    }
}

/// Loads the checkpoint ledger from the text of its file.
pub fn load_checkpoints(raw: &str) -> (r: Result<Vec<LedgerTexts>, String>)
    ensures
        match (r, parsed_json(raw@)) {
            (Ok(l), Ok(v)) => l@.len() == ledger_entries(v).len() && forall|i: int|
                0 <= i < l@.len() ==> is_entry(#[trigger] l@[i], ledger_entries(v)[i]),
            (Err(e), Err(why)) => e@ == "checkpoints parse: "@ + why,
            _ => false,
        },
{
    let v = match Json::parse(raw) {
        Ok(v) => v,
        Err(why) => {
            let mut out = String::from_str("checkpoints parse: ");
            out.append(why.as_str());
            return Err(out);
        },
    };
    let mut out: Vec<LedgerTexts> = Vec::new();
    if let Json::Array(items) = &v {
        proof {
            array_says(*items);
        }
        let mut i: usize = 0;
        while i < items.len()
            invariant
                i <= items@.len(),
                ledger_entries(v@) == values(items@),
                out@.len() == i,
                forall|j: int|
                    0 <= j < i ==> is_entry(#[trigger] out@[j], ledger_entries(v@)[j]),
            decreases items@.len() - i,
        {
            let step: usize = match items[i].get_number("step") {
                Some(n) => n as usize,
                None => 0,
            };
            out.push(
                LedgerTexts {
                    step,
                    pop_mean_fitness: get_number_text(&items[i], "pop_mean_fitness"),
                    exam_mean_fitness: get_number_text(&items[i], "exam_mean_fitness"),
                },
            );
            i = i + 1;
        }
    }
    Ok(out)
}

/// The record of an entry; the means are texts of numbers.
pub open spec fn entry_value(
    step: usize,
    pop_mean_fitness: Seq<char>,
    exam_mean_fitness: Seq<char>,
) -> JsonView {
    JsonView::Object(
        seq![
            ("exam_mean_fitness"@, JsonView::Number(exam_mean_fitness)),
            ("pop_mean_fitness"@, JsonView::Number(pop_mean_fitness)),
            ("step"@, number_value(step as nat)),
        ],
    )
}

/// The record of an entry of the ledger.
pub fn make_entry(step: usize, pop_mean_fitness: String, exam_mean_fitness: String) -> (r: Json)
    ensures
        r@ == entry_value(step, pop_mean_fitness@, exam_mean_fitness@),
{
    let mut m: Vec<Member> = Vec::new();
    put(&mut m, "exam_mean_fitness", Json::Number(exam_mean_fitness));
    put(&mut m, "pop_mean_fitness", Json::Number(pop_mean_fitness));
    put(&mut m, "step", Json::number(step as u64));
    proof {
        object_says(m);
        assert(pairs(m@) =~= entry_value(
            step,
            pop_mean_fitness@,
            exam_mean_fitness@,
        )->Object_0);
    }
    Json::Object(m)
}

/// An entry of the ledger as it is written; the means are texts of numbers.
#[derive(Debug)]
pub struct LedgerRecord {
    pub step: usize,
    pub pop_mean_fitness: String,
    pub exam_mean_fitness: String,
}

/// The record of the ledger.
pub open spec fn ledger_value(entries: Seq<LedgerRecord>) -> JsonView {
    JsonView::Array(
        entries.map_values(
            |e: LedgerRecord| entry_value(e.step, e.pop_mean_fitness@, e.exam_mean_fitness@),
        ),
    )
}

proof fn entries_are_ordered(step: usize, pop: Seq<char>, exam: Seq<char>)
    ensures
        ordered(entry_value(step, pop, exam)),
{
    let m = entry_value(step, pop, exam)->Object_0;
    reveal_strlit("exam_mean_fitness");
    reveal_strlit("pop_mean_fitness");
    reveal_strlit("step");
    assert(text_below(m[0].0, m[1].0));
    assert(text_below(m[1].0, m[2].0));
    crate::json::members_are_ordered(m);
}

/// The text of the ledger's file.
pub fn write_checkpoints(entries: &Vec<LedgerRecord>) -> (r: String)
    ensures
        r@ == pretty_text(as_read(ledger_value(entries@))),
{
    let ghost all = ledger_value(entries@)->Array_0;
    let mut items: Vec<Json> = Vec::new();
    let mut i: usize = 0;
    while i < entries.len()
        invariant
            i <= entries@.len(),
            all == ledger_value(entries@)->Array_0,
            values(items@) =~= all.take(i as int),
        decreases entries@.len() - i,
    {
        let ghost before = items@;
        let e = &entries[i];
        items.push(
            make_entry(e.step, e.pop_mean_fitness.clone(), e.exam_mean_fitness.clone()),
        );
        assert(values(items@) =~= values(before).push(all[i as int]));
        i = i + 1;
    }
    proof {
        array_says(items);
        assert(values(items@) =~= all);
        assert forall|k: int| 0 <= k < all.len() implies ordered(#[trigger] all[k]) by {
            let e = entries@[k];
            entries_are_ordered(e.step, e.pop_mean_fitness@, e.exam_mean_fitness@);
        }
        crate::json::items_are_ordered(all);
    }
    Json::Array(items).to_json().unwrap()
}

/// An entry that was written reads back: the step it belongs to, and the texts
/// of its means.
pub proof fn ledger_entries_read_back(e: LedgerTexts, step: usize, pop: Seq<char>, exam: Seq<char>)
    requires
        is_entry(e, entry_value(step, pop, exam)),
    ensures
        e.step == step,
        optional_view(e.pop_mean_fitness) == Some(pop),
        optional_view(e.exam_mean_fitness) == Some(exam),
{
    reveal_strlit("exam_mean_fitness");
    reveal_strlit("pop_mean_fitness");
    reveal_strlit("step");
    if let JsonView::Object(m) = entry_value(step, pop, exam) {
        assert("exam_mean_fitness"@.len() == 17 && "pop_mean_fitness"@.len() == 16);
        assert("step"@.len() == 4);
        key_is_found(m, "exam_mean_fitness"@, 0);
        key_is_found(m, "pop_mean_fitness"@, 1);
        key_is_found(m, "step"@, 2);
        number_is_plain(step as u64);
    }
}

// ── The checkpoint ledger ────────────────────────────────────────────────

/// A ledger entry as it was found; what is missing counts as 0.
#[derive(Clone, Copy, Debug, PartialEq, Eq, Structural)]
pub struct SavedCheckpoint {
    pub step: Option<usize>,
    pub pop_mean_fitness: Option<Score>,
    pub exam_mean_fitness: Option<Score>,
}

pub open spec fn number_or_zero(s: Option<Score>) -> Score {
    match s {
        Some(v) => v,
        None => Score { bits: 0 },
    }
}

pub open spec fn restored_checkpoint(c: SavedCheckpoint) -> Checkpoint {
    Checkpoint {
        step: match c.step {
            Some(s) => s,
            None => 0,
        },
        pop_mean_fitness: number_or_zero(c.pop_mean_fitness),
        exam_mean_fitness: number_or_zero(c.exam_mean_fitness),
    }
}

/// The ledger of the entries found, in their order.
pub fn restore_ledger(saved: &Vec<SavedCheckpoint>) -> (r: Vec<Checkpoint>)
    ensures
        r@ == saved@.map_values(|c: SavedCheckpoint| restored_checkpoint(c)),
{
    let mut out: Vec<Checkpoint> = Vec::new();
    let mut i: usize = 0;
    while i < saved.len()
        invariant
            i <= saved@.len(),
            out@ =~= saved@.map_values(|c: SavedCheckpoint| restored_checkpoint(c)).take(i as int),
        decreases saved@.len() - i,
    {
        let c = saved[i];
        out.push(
            Checkpoint {
                step: match c.step {
                    Some(s) => s,
                    None => 0,
                },
                pop_mean_fitness: match c.pop_mean_fitness {
                    Some(v) => v,
                    None => Score { bits: 0 },
                },
                exam_mean_fitness: match c.exam_mean_fitness {
                    Some(v) => v,
                    None => Score { bits: 0 },
                },
            },
        );
        i = i + 1;
    }
    out
}

// ── The population ───────────────────────────────────────────────────────

/// A replayed net once its loss windows hold its last measurement.
pub open spec fn warmed(before: Net, after: Net, window: usize) -> bool {
    &&& after == (Net {
        train_window: after.train_window,
        eval_window: after.eval_window,
        ..before
    })
    &&& after.train_window@ == (match before.last_metrics {
        Some(m) => last_window(before.train_window@.push(m.train_loss), window as nat),
        None => before.train_window@,
    })
    &&& after.eval_window@ == (match before.last_metrics {
        Some(m) => match m.eval_loss {
            Some(e) => last_window(before.eval_window@.push(e), window as nat),
            None => before.eval_window@,
        },
        None => before.eval_window@,
    })
}

impl Net {
    /// Starts the loss windows of a replayed net with its last measurement. Its
    /// fitness window is as the replay left it.
    pub fn warm_loss_windows(&mut self, window: usize)
        requires
            old(self).well_formed(window as nat),
        ensures
            final(self).well_formed(window as nat),
            warmed(*old(self), *final(self), window),
    {
        if let Some(m) = &self.last_metrics {
            self.train_window.push(m.train_loss);
            if let Some(e) = m.eval_loss {
                self.eval_window.push(e);
            }
        }
    }
}

/// The population once some nets have joined, one after the other.
pub open spec fn joined(nets: Seq<Net>, more: Seq<Net>) -> Seq<Net>
    decreases more.len(),
{
    if more.len() == 0 {
        nets
    } else {
        with_net(joined(nets, more.drop_last()), more.last())
    }
}

impl Race {
    /// Puts a stopped race together again: its nets, its ledger and its
    /// counters.
    pub fn restore(
        &mut self,
        nets: Vec<Net>,
        checkpoints: Vec<Checkpoint>,
        culls: usize,
        births: HashMap<usize, usize>,
    )
        requires
            old(self).well_formed(),
            forall|i: int|
                0 <= i < nets@.len() ==> (#[trigger] nets@[i]).well_formed(old(self).window as nat),
        ensures
            final(self).well_formed(),
            final(self).nets@ == joined(old(self).nets@, nets@),
            final(self).checkpoints == checkpoints,
            final(self).culls == culls,
            final(self).births == births,
            final(self).direction == old(self).direction,
            final(self).elite_count == old(self).elite_count,
            final(self).window == old(self).window,
            final(self).champions == old(self).champions,
            final(self).last_crowned == old(self).last_crowned,
    {
        let ghost all = nets@;
        let ghost before = self.nets@;
        let mut rest = nets;
        let mut n: usize = 0;
        let total: usize = rest.len();
        assert(all.take(0) =~= Seq::empty());
        assert(all.skip(0) =~= all);
        while n < total
            invariant
                n <= total,
                total == all.len(),
                rest@ == all.skip(n as int),
                self.well_formed(),
                self.same_but_nets(*old(self)),
                self.nets@ == joined(before, all.take(n as int)),
                forall|i: int|
                    0 <= i < all.len() ==> (#[trigger] all[i]).well_formed(
                        old(self).window as nat,
                    ),
            decreases total - n,
        {
            let net = rest.remove(0);
            assert(net == all[n as int]);
            assert(all.take(n + 1).drop_last() =~= all.take(n as int));
            assert(rest@ =~= all.skip(n + 1));
            self.insert(net);
            n = n + 1;
        }
        assert(all.take(total as int) =~= all);
        self.checkpoints = checkpoints;
        self.culls = culls;
        self.births = births;
    }
}

/// No two nets have the same hash.
pub open spec fn hashes_differ(nets: Seq<Net>) -> bool {
    forall|i: int, j: int|
        0 <= i < j < nets.len() ==> (#[trigger] nets[i]).hash@ != (#[trigger] nets[j]).hash@
}

proof fn joining_adds_one(nets: Seq<Net>, net: Net)
    requires
        in_hash_order(nets),
        !holds(nets, net.hash@),
    ensures
        in_hash_order(with_net(nets, net)),
        with_net(nets, net).len() == nets.len() + 1,
        with_net(nets, net).contains(net),
        forall|m: Net| nets.contains(m) ==> #[trigger] with_net(nets, net).contains(m),
        forall|m: Net| #[trigger] with_net(nets, net).contains(m) ==> m == net || nets.contains(m),
{
    with_net_keeps_order(nets, net);
    slot_finds(nets, net.hash@);
    let p = crate::race::slot(nets, net.hash@);
    let after = with_net(nets, net);
    assert(after[p] == net);
    assert forall|m: Net| nets.contains(m) implies #[trigger] after.contains(m) by {
        let k = choose|k: int| 0 <= k < nets.len() && nets[k] == m;
        let kk = if k < p { k } else { k + 1 };
        assert(after[kk] == m);
    }
    assert forall|m: Net| #[trigger] after.contains(m) implies m == net || nets.contains(m) by {
        let k = choose|k: int| 0 <= k < after.len() && after[k] == m;
        if k != p {
            let kk = if k < p { k } else { k - 1 };
            assert(nets[kk] == m);
        }
    }
}

/// A restored race has exactly the nets it was given, whatever the order in
/// which they were found.
pub proof fn restoring_loses_no_net(nets: Seq<Net>)
    requires
        hashes_differ(nets),
    ensures
        in_hash_order(joined(Seq::empty(), nets)),
        joined(Seq::empty(), nets).len() == nets.len(),
        forall|m: Net| #[trigger] joined(Seq::empty(), nets).contains(m) <==> nets.contains(m),
    decreases nets.len(),
{
    let all = joined(Seq::empty(), nets);
    if nets.len() > 0 {
        let rest = nets.drop_last();
        let net = nets.last();
        assert(hashes_differ(rest)) by {
            assert forall|i: int, j: int| 0 <= i < j < rest.len() implies (#[trigger] rest[i]).hash@
                != (#[trigger] rest[j]).hash@ by {
                assert(rest[i] == nets[i] && rest[j] == nets[j]);
            }
        }
        restoring_loses_no_net(rest);
        let before = joined(Seq::empty(), rest);
        slot_finds(before, net.hash@);
        if holds(before, net.hash@) {
            let k = choose|k: int| 0 <= k < before.len() && (#[trigger] before[k]).hash@ == net.hash@;
            assert(before.contains(before[k]));
            let j = choose|j: int| 0 <= j < rest.len() && rest[j] == before[k];
            assert(nets[j].hash@ != nets[nets.len() - 1].hash@);
        }
        joining_adds_one(before, net);
        assert forall|m: Net| #[trigger] all.contains(m) <==> nets.contains(m) by {
            if nets.contains(m) {
                let k = choose|k: int| 0 <= k < nets.len() && nets[k] == m;
                if k < rest.len() {
                    assert(rest[k] == m);
                }
            }
            if rest.contains(m) {
                let k = choose|k: int| 0 <= k < rest.len() && rest[k] == m;
                assert(nets[k] == m);
            }
            if m == net {
                assert(nets[nets.len() - 1] == m);
            }
        }
    } else {
        assert(all =~= Seq::empty());
        assert(nets =~= Seq::empty());
    }
}

proof fn clock_is_reached(nets: Seq<Net>)
    ensures
        next_clock(nets) == 0 || exists|i: int|
            0 <= i < nets.len() && (#[trigger] nets[i]).last_metrics is Some && next_clock(nets)
                == nets[i].last_metrics->0.step + 1,
    decreases nets.len(),
{
    if nets.len() > 0 {
        let rest = nets.drop_last();
        clock_is_reached(rest);
        if next_clock(nets) == next_clock(rest) && next_clock(rest) != 0 {
            let i = choose|i: int|
                0 <= i < rest.len() && (#[trigger] rest[i]).last_metrics is Some && next_clock(
                    rest,
                ) == rest[i].last_metrics->0.step + 1;
            assert(nets[i] == rest[i]);
        } else {
            assert(nets[nets.len() - 1] == nets.last());
        }
    }
}

/// The clock of a restored race is the one behind the last measurement of any
/// of its nets: no clock is trained twice and none is skipped.
pub proof fn restored_race_keeps_its_clock(nets: Seq<Net>)
    requires
        hashes_differ(nets),
    ensures
        next_clock(joined(Seq::empty(), nets)) == next_clock(nets),
{
    restoring_loses_no_net(nets);
    let all = joined(Seq::empty(), nets);
    clock_is_reached(all);
    clock_is_reached(nets);
    if next_clock(all) != 0 {
        let i = choose|i: int|
            0 <= i < all.len() && (#[trigger] all[i]).last_metrics is Some && next_clock(all)
                == all[i].last_metrics->0.step + 1;
        assert(all.contains(all[i]));
        let j = choose|j: int| 0 <= j < nets.len() && nets[j] == all[i];
        next_clock_is_new(nets, j);
    }
    if next_clock(nets) != 0 {
        let i = choose|i: int|
            0 <= i < nets.len() && (#[trigger] nets[i]).last_metrics is Some && next_clock(nets)
                == nets[i].last_metrics->0.step + 1;
        assert(nets.contains(nets[i]));
        assert(all.contains(nets[i]));
        let j = choose|j: int| 0 <= j < all.len() && all[j] == nets[i];
        next_clock_is_new(all, j);
    }
    clock_is_counted_up(all);
    clock_is_counted_up(nets);
}

proof fn clock_is_counted_up(nets: Seq<Net>)
    ensures
        next_clock(nets) >= 0,
    decreases nets.len(),
{
    if nets.len() > 0 {
        clock_is_counted_up(nets.drop_last());
    }
}

// ── Who is taken up ──────────────────────────────────────────────────────

/// A file is taken up exactly if its net is alive and was measured last no
/// earlier than one clock before it joined, or never; the files are taken up in
/// order.
pub proof fn only_those_who_joined_are_taken_up(saved: Seq<SavedNet>, i: usize)
    requires
        saved.len() <= usize::MAX,
    ensures
        members(saved).contains(i) <==> i < saved.len() && saved[i as int].is_alive && match saved[i as int].last_step {
            Some(last) => saved[i as int].entered_at_step <= last + 1,
            None => true,
        },
        forall|j: int, k: int|
            0 <= j < k < members(saved).len() ==> (#[trigger] members(saved)[j]) < (
            #[trigger] members(saved)[k]),
{
    members_are_the_living(saved, i);
    members_ascend(saved);
}

proof fn members_ascend(saved: Seq<SavedNet>)
    requires
        saved.len() <= usize::MAX,
    ensures
        forall|j: int|
            0 <= j < members(saved).len() ==> (#[trigger] members(saved)[j]) < saved.len(),
        forall|j: int, k: int|
            0 <= j < k < members(saved).len() ==> (#[trigger] members(saved)[j]) < (
            #[trigger] members(saved)[k]),
    decreases saved.len(),
{
    if saved.len() > 0 {
        let rest = saved.drop_last();
        let front = members(rest);
        let all = members(saved);
        members_ascend(rest);
        assert forall|j: int| 0 <= j < all.len() implies (#[trigger] all[j]) < saved.len() by {
            if j < front.len() {
                assert(all[j] == front[j]);
            }
        }
        assert forall|j: int, k: int| 0 <= j < k < all.len() implies (#[trigger] all[j]) < (
        #[trigger] all[k]) by {
            assert(all[j] == front[j]);
            if k < front.len() {
                assert(all[k] == front[k]);
            }
        }
    }
}

/// The trainer is the recorded one, as far as both describe themselves.
pub open spec fn same_trainer(recorded: Option<Json>, incoming: Option<Json>) -> bool {
    match (recorded, incoming) {
        (Some(a), Some(b)) => crate::blob::agree(a@, b@),
        _ => true,
    }
}

/// An environment run is taken up exactly if the config says that it is one, it
/// was recorded as one, and the trainer is the recorded one.
pub proof fn an_environment_run_is_taken_up(
    mode: RunMode,
    recorded: Option<Json>,
    incoming: Option<Json>,
    engine_mode: Option<String>,
    recorded_mode: Seq<char>,
    dir: Seq<char>,
)
    ensures
        rl_resume_error(mode, recorded, incoming, engine_mode, recorded_mode, dir) is None <==> {
            &&& mode == RunMode::Rl
            &&& engine_mode matches Some(m) && m@ == "rl"@
            &&& same_trainer(recorded, incoming)
        },
{
    if let (Some(a), Some(b)) = (recorded, incoming) {
        crate::blob::silent_means_agreement(""@, a@, b@);
    }
}

/// A run on data is taken up exactly if it was not recorded as another kind and
/// the trainer is the recorded one.
pub proof fn a_run_on_data_is_taken_up(
    recorded: Option<Json>,
    incoming: Option<Json>,
    engine_mode: Option<String>,
    dir: Seq<char>,
)
    ensures
        tabular_resume_error(engine_mode, recorded, incoming, dir) is None <==> {
            &&& engine_mode matches Some(m) ==> m@ == "tabular"@
            &&& same_trainer(recorded, incoming)
        },
{
    if let (Some(a), Some(b)) = (recorded, incoming) {
        crate::blob::silent_means_agreement(""@, a@, b@);
    }
}

/// A replayed net is warm: its loss windows end with its last losses, and
/// nothing else of it changes.
pub proof fn a_replayed_net_is_warm(before: Net, after: Net, window: usize)
    requires
        before.well_formed(window as nat),
        warmed(before, after, window),
        window > 0,
    ensures
        before.last_metrics matches Some(m) ==> {
            &&& crate::smoothing::moved_on(
                after.train_window@,
                before.train_window@,
                m.train_loss,
                window as int,
            )
            &&& m.eval_loss matches Some(e) ==> crate::smoothing::moved_on(
                after.eval_window@,
                before.eval_window@,
                e,
                window as int,
            )
            &&& m.eval_loss is None ==> after.eval_window@ == before.eval_window@
        },
        before.last_metrics is None ==> after.train_window@ == before.train_window@
            && after.eval_window@ == before.eval_window@,
        after.fitness_window == before.fitness_window,
        after == (Net {
            train_window: after.train_window,
            eval_window: after.eval_window,
            ..before
        }),
{
    if let Some(m) = before.last_metrics {
        crate::smoothing::the_newest_stays(before.train_window@, m.train_loss, window as nat);
        if let Some(e) = m.eval_loss {
            crate::smoothing::the_newest_stays(before.eval_window@, e, window as nat);
        }
    }
}

/// A ledger that was written reads back: as many entries, in their order, each
/// with its step and its means.
pub proof fn a_ledger_reads_back(entries: Seq<LedgerRecord>, l: Seq<LedgerTexts>, i: int)
    requires
        l.len() == ledger_entries(ledger_value(entries)).len(),
        forall|k: int|
            0 <= k < l.len() ==> is_entry(
                #[trigger] l[k],
                ledger_entries(ledger_value(entries))[k],
            ),
    ensures
        l.len() == entries.len(),
        0 <= i < l.len() ==> {
            &&& l[i].step == entries[i].step
            &&& optional_view(l[i].pop_mean_fitness) == Some(entries[i].pop_mean_fitness@)
            &&& optional_view(l[i].exam_mean_fitness) == Some(entries[i].exam_mean_fitness@)
        },
{
    if 0 <= i < l.len() {
        let e = entries[i];
        assert(is_entry(l[i], entry_value(e.step, e.pop_mean_fitness@, e.exam_mean_fitness@)));
        ledger_entries_read_back(l[i], e.step, e.pop_mean_fitness@, e.exam_mean_fitness@);
    }
}

/// A restored checkpoint is the one that was saved; what the file lacks is 0.
pub proof fn a_checkpoint_is_restored(c: SavedCheckpoint)
    ensures
        ({
            let r = restored_checkpoint(c);
            &&& c.step matches Some(s) ==> r.step == s
            &&& c.step is None ==> r.step == 0
            &&& c.pop_mean_fitness matches Some(v) ==> r.pop_mean_fitness == v
            &&& c.pop_mean_fitness is None ==> r.pop_mean_fitness.bits == 0
            &&& c.exam_mean_fitness matches Some(v) ==> r.exam_mean_fitness == v
            &&& c.exam_mean_fitness is None ==> r.exam_mean_fitness.bits == 0
        }),
{
}

} // verus!
