//! What a generational run writes down and reads back: the topology of an
//! earlier run, and the population a stopped run was about to score.

use vstd::prelude::*;

use crate::json::{
    array_says, depth, field, json_text, key_is_found, number_field, number_is_plain, number_value,
    object_says, pairs, parsed_json, part_depth, parts_bound_depth, plain, pretty_text, put,
    reads_as, values, Json, JsonView, Member,
};
use crate::text::text_below;

verus! {

// ── A prior topology ─────────────────────────────────────────────────────

/// The text of a topology: a string holds it, anything else is it.
pub open spec fn topology_text(v: JsonView) -> Seq<char> {
    match v {
        JsonView::Text(s) => s,
        _ => json_text(v),
    }
}

fn as_topology(v: &Json) -> (r: String)
    ensures
        r@ == topology_text(v@),
{
    match v {
        Json::Text(s) => s.clone(),
        _ => v.text(),
    }
}

/// The field of a file that holds its topology: that of the best individual,
/// else that of the file, else the plain one.
pub open spec fn topology_field(v: JsonView) -> Option<JsonView> {
    if field(v, "best_topology"@) is Some {
        field(v, "best_topology"@)
    } else if field(v, "file_topology"@) is Some {
        field(v, "file_topology"@)
    } else {
        field(v, "topology"@)
    }
}

/// What is said of a file without a topology.
pub open spec fn no_topology_text(path: Seq<char>) -> Seq<char> {
    "prior topology file has no 'best_topology', 'file_topology', or 'topology' field: "@ + path
}

/// The topology in one of the files of an earlier run.
pub fn prior_topology(v: &Json, path: &str) -> (r: Result<String, String>)
    ensures
        match (r, topology_field(v@)) {
            (Ok(t), Some(f)) => t@ == topology_text(f),
            (Err(e), None) => e@ == no_topology_text(path@),
            _ => false,
        },
{
    if let Some(f) = v.get("best_topology") {
        return Ok(as_topology(f));
    }
    if let Some(f) = v.get("file_topology") {
        return Ok(as_topology(f));
    }
    if let Some(f) = v.get("topology") {
        return Ok(as_topology(f));
    }
    let mut out = String::from_str(
        "prior topology file has no 'best_topology', 'file_topology', or 'topology' field: ",
    );
    out.append(path);
    Err(out)
}

/// Reads the topology of an earlier run from the text of one of its files.
pub fn load_prior_topology(raw: &str, path: &str) -> (r: Result<String, String>)
    ensures
        match (r, parsed_json(raw@)) {
            (Ok(t), Ok(v)) => topology_field(v) is Some && t@ == topology_text(
                topology_field(v)->0,
            ),
            (Err(e), Ok(v)) => topology_field(v) is None && e@ == no_topology_text(path@),
            (Err(e), Err(why)) => e@ == "prior topology parse: "@ + why,
            (Ok(_), Err(_)) => false,
        },
{
    match Json::parse(raw) {
        Ok(v) => prior_topology(&v, path),
        Err(why) => {
            let mut out = String::from_str("prior topology parse: ");
            out.append(why.as_str());
            Err(out)
        },
    }
}

// ── A stopped run ────────────────────────────────────────────────────────

/// An individual of a stopped run.
#[derive(Debug)]
pub struct SavedIndividual {
    pub topology: String,
    /// Where its generator stood; none if the file does not say.
    pub rng_state: Option<u64>,
}

/// What a stopped run was about to do.
#[derive(Debug)]
pub struct LoadedCheckpoint {
    pub run_seed: u64,
    pub generation: usize,
    pub individuals: Vec<SavedIndividual>,
}

/// What is wrong with a checkpoint.
#[derive(Debug, PartialEq)]
pub enum CheckpointError {
    /// It is no JSON, for this reason.
    Parse(String),
    RunSeed,
    Generation,
    Individuals,
    Topology,
}

impl CheckpointError {
    pub open spec fn message_text(self) -> Seq<char> {
        match self {
            CheckpointError::Parse(why) => "checkpoint parse: "@ + why@,
            CheckpointError::RunSeed => "checkpoint missing run_seed"@,
            CheckpointError::Generation => "checkpoint missing generation"@,
            CheckpointError::Individuals => "checkpoint missing individuals"@,
            CheckpointError::Topology => "checkpoint individual missing topology"@,
        }
    }

    pub fn message(&self) -> (r: String)
        ensures
            r@ == self.message_text(),
    {
        match self {
            CheckpointError::Parse(why) => {
                let mut out = String::from_str("checkpoint parse: ");
                out.append(why.as_str());
                out
            },
            CheckpointError::RunSeed => String::from_str("checkpoint missing run_seed"),
            CheckpointError::Generation => String::from_str("checkpoint missing generation"),
            CheckpointError::Individuals => String::from_str("checkpoint missing individuals"),
            CheckpointError::Topology => String::from_str("checkpoint individual missing topology"),
        }
    }
}

/// The list of individuals in a checkpoint.
pub open spec fn individuals_of(v: JsonView) -> Option<Seq<JsonView>> {
    match field(v, "individuals"@) {
        Some(JsonView::Array(items)) => Some(items),
        _ => None,
    }
}

/// What is missing first.
pub open spec fn checkpoint_error(v: JsonView) -> Option<CheckpointError> {
    if number_field(v, "run_seed"@) is None {
        Some(CheckpointError::RunSeed)
    } else if number_field(v, "generation"@) is None || number_field(v, "generation"@)->0
        > usize::MAX {
        Some(CheckpointError::Generation)
    } else if individuals_of(v) is None {
        Some(CheckpointError::Individuals)
    } else if exists|i: int|
        0 <= i < individuals_of(v)->0.len() && field(
            #[trigger] individuals_of(v)->0[i],
            "topology"@,
        ) is None {
        Some(CheckpointError::Topology)
    } else {
        None
    }
}

/// An individual is what the file says.
pub open spec fn restored_individual(ind: SavedIndividual, v: JsonView) -> bool {
    &&& field(v, "topology"@) is Some
    &&& ind.topology@ == topology_text(field(v, "topology"@)->0)
    &&& ind.rng_state == number_field(v, "rng_state"@)
}

/// What came of reading a checkpoint is what the file says.
pub open spec fn read_as(r: Result<LoadedCheckpoint, CheckpointError>, v: JsonView) -> bool {
    match (r, checkpoint_error(v)) {
        (Ok(c), None) => {
            &&& number_field(v, "run_seed"@) == Some(c.run_seed)
            &&& number_field(v, "generation"@) == Some(c.generation as u64)
            &&& c.individuals@.len() == individuals_of(v)->0.len()
            &&& forall|i: int|
                0 <= i < c.individuals@.len() ==> restored_individual(
                    #[trigger] c.individuals@[i],
                    individuals_of(v)->0[i],
                )
        },
        (Err(e), Some(x)) => e == x,
        _ => false,
    }
}

/// Reads the checkpoint of a stopped run. Nothing is read past the first thing
/// that is missing.
pub fn read_checkpoint(v: &Json) -> (r: Result<LoadedCheckpoint, CheckpointError>)
    ensures
        read_as(r, v@),
{
    let run_seed: u64 = match v.get_number("run_seed") {
        Some(n) => n,
        None => {
            return Err(CheckpointError::RunSeed);
        },
    };
    let generation: usize = match v.get_number("generation") {
        Some(n) => {
            if n > usize::MAX as u64 {
                return Err(CheckpointError::Generation);
            }
            n as usize
        },
        None => {
            return Err(CheckpointError::Generation);
        },
    };
    let items = match v.get("individuals") {
        Some(x) => match x {
            Json::Array(items) => items,
            _ => {
                return Err(CheckpointError::Individuals);
            },
        },
        None => {
            return Err(CheckpointError::Individuals);
        },
    };
    let ghost all = values(items@);
    proof {
        array_says(*items);
    }
    let mut individuals: Vec<SavedIndividual> = Vec::new();
    let mut i: usize = 0;
    while i < items.len()
        invariant
            i <= items@.len(),
            all == values(items@),
            individuals_of(v@) == Some(all),
            number_field(v@, "run_seed"@) is Some,
            number_field(v@, "generation"@) is Some,
            number_field(v@, "generation"@)->0 <= usize::MAX,
            individuals@.len() == i,
            forall|j: int| 0 <= j < i ==> restored_individual(#[trigger] individuals@[j], all[j]),
        decreases items@.len() - i,
    {
        match items[i].get("topology") {
            Some(t) => {
                individuals.push(
                    SavedIndividual {
                        topology: as_topology(t),
                        rng_state: items[i].get_number("rng_state"),
                    },
                );
            },
            None => {
                assert(field(individuals_of(v@)->0[i as int], "topology"@) is None);
                return Err(CheckpointError::Topology);
            },
        }
        i = i + 1;
    }
    proof {
        if exists|k: int|
            0 <= k < all.len() && field(#[trigger] individuals_of(v@)->0[k], "topology"@) is None {
            let k = choose|k: int|
                0 <= k < all.len() && field(
                    #[trigger] individuals_of(v@)->0[k],
                    "topology"@,
                ) is None;
            assert(restored_individual(individuals@[k], all[k]));
        }
    }
    Ok(LoadedCheckpoint { run_seed, generation, individuals })
}

/// What came of loading a checkpoint is what its text says.
pub open spec fn loaded_as(
    r: Result<LoadedCheckpoint, CheckpointError>,
    raw: Seq<char>,
) -> bool {
    match parsed_json(raw) {
        Ok(v) => read_as(r, v),
        Err(why) => r matches Err(e) && e matches CheckpointError::Parse(t) && t@ == why,
    }
}

/// Loads the checkpoint of a stopped run from the text of its file.
pub fn load_checkpoint(raw: &str) -> (r: Result<LoadedCheckpoint, CheckpointError>)
    ensures
        loaded_as(r, raw@),
{
    match Json::parse(raw) {
        Ok(v) => read_checkpoint(&v),
        Err(why) => Err(CheckpointError::Parse(why)),
    }
}

// ── Writing a checkpoint ─────────────────────────────────────────────────

/// An individual as it is written.
#[derive(Debug)]
pub struct IndividualRecord {
    pub seed: usize,
    /// Where its generator stands.
    pub rng_state: u64,
    pub topology: String,
}

/// The record of an individual.
pub open spec fn individual_value(ind: IndividualRecord) -> JsonView {
    JsonView::Object(
        seq![
            ("rng_state"@, number_value(ind.rng_state as nat)),
            ("seed"@, number_value(ind.seed as nat)),
            ("topology"@, JsonView::Text(ind.topology@)),
        ],
    )
}

/// The records of a population.
pub open spec fn population_values(inds: Seq<IndividualRecord>) -> Seq<JsonView> {
    inds.map_values(|ind: IndividualRecord| individual_value(ind))
}

/// The checkpoint of a run.
pub open spec fn checkpoint_value(
    run_seed: u64,
    generation: usize,
    inds: Seq<IndividualRecord>,
) -> JsonView {
    JsonView::Object(
        seq![
            ("generation"@, number_value(generation as nat)),
            ("individuals"@, JsonView::Array(population_values(inds))),
            ("pop_size"@, number_value(inds.len())),
            ("run_seed"@, number_value(run_seed as nat)),
        ],
    )
}

/// The checkpoint of a run: the population that is about to be scored, and the
/// generation it belongs to.
pub fn make_checkpoint(run_seed: u64, generation: usize, inds: &Vec<IndividualRecord>) -> (r: Json)
    ensures
        r@ == checkpoint_value(run_seed, generation, inds@),
{
    let mut items: Vec<Json> = Vec::new();
    let mut i: usize = 0;
    while i < inds.len()
        invariant
            i <= inds@.len(),
            values(items@) =~= population_values(inds@).take(i as int),
        decreases inds@.len() - i,
    {
        let mut m: Vec<Member> = Vec::new();
        put(&mut m, "rng_state", Json::number(inds[i].rng_state));
        put(&mut m, "seed", Json::number(inds[i].seed as u64));
        put(&mut m, "topology", Json::Text(inds[i].topology.clone()));
        let ghost done = items@;
        proof {
            object_says(m);
            assert(JsonView::Object(pairs(m@)) == individual_value(inds@[i as int])) by {
                assert(pairs(m@) =~= individual_value(inds@[i as int])->Object_0);
            }
        }
        items.push(Json::Object(m));
        assert(values(items@) =~= values(done).push(individual_value(inds@[i as int])));
        i = i + 1;
    }
    let mut m: Vec<Member> = Vec::new();
    proof {
        array_says(items);
        assert(values(items@) =~= population_values(inds@));
    }
    put(&mut m, "generation", Json::number(generation as u64));
    put(&mut m, "individuals", Json::Array(items));
    put(&mut m, "pop_size", Json::number(inds.len() as u64));
    put(&mut m, "run_seed", Json::number(run_seed));
    proof {
        object_says(m);
        assert(pairs(m@) =~= checkpoint_value(run_seed, generation, inds@)->Object_0);
    }
    Json::Object(m)
}

/// The text of the checkpoint of a run.
pub fn save_checkpoint(run_seed: u64, generation: usize, inds: &Vec<IndividualRecord>) -> (r: String)
    ensures
        r@ == pretty_text(checkpoint_value(run_seed, generation, inds@)),
        reads_as(r@, checkpoint_value(run_seed, generation, inds@)),
{
    let v = make_checkpoint(run_seed, generation, inds);
    proof {
        assert(inds@.len() == inds.len());
        checkpoints_are_plain(run_seed, generation, inds@);
    }
    v.pretty()
}

proof fn individuals_are_plain(ind: IndividualRecord)
    ensures
        plain(individual_value(ind)),
        depth(individual_value(ind)) <= 1,
{
    let v = individual_value(ind);
    reveal_strlit("rng_state");
    reveal_strlit("seed");
    reveal_strlit("topology");
    number_is_plain(ind.rng_state);
    number_is_plain(ind.seed as u64);
    if let JsonView::Object(m) = v {
        assert(text_below(m[0].0, m[1].0) && text_below(m[0].0, m[2].0) && text_below(
            m[1].0,
            m[2].0,
        ));
        assert forall|i: int| 0 <= i < m.len() implies plain((#[trigger] m[i]).1) by {
            assert(i == 0 || i == 1 || i == 2);
        }
        assert(part_depth(v, 0) == 0 && part_depth(v, 1) == 0 && part_depth(v, 2) == 0);
        parts_bound_depth(v, 3, 0);
    }
}

proof fn checkpoints_are_plain(run_seed: u64, generation: usize, inds: Seq<IndividualRecord>)
    requires
        inds.len() <= usize::MAX,
    ensures
        plain(checkpoint_value(run_seed, generation, inds)),
        depth(checkpoint_value(run_seed, generation, inds)) <= 3,
{
    let v = checkpoint_value(run_seed, generation, inds);
    let list = JsonView::Array(population_values(inds));
    reveal_strlit("generation");
    reveal_strlit("individuals");
    reveal_strlit("pop_size");
    reveal_strlit("run_seed");
    number_is_plain(generation as u64);
    number_is_plain(inds.len() as u64);
    number_is_plain(run_seed);
    assert forall|i: int| 0 <= i < inds.len() implies plain(
        #[trigger] population_values(inds)[i],
    ) && part_depth(list, i) <= 1 by {
        individuals_are_plain(inds[i]);
    }
    parts_bound_depth(list, inds.len(), 1);
    if let JsonView::Object(m) = v {
        assert(text_below(m[0].0, m[1].0) && text_below(m[0].0, m[2].0) && text_below(
            m[0].0,
            m[3].0,
        ));
        assert(text_below(m[1].0, m[2].0) && text_below(m[1].0, m[3].0) && text_below(
            m[2].0,
            m[3].0,
        ));
        assert(plain(list));
        assert forall|i: int| 0 <= i < m.len() implies plain((#[trigger] m[i]).1) by {
            assert(i == 0 || i == 1 || i == 2 || i == 3);
        }
        assert(part_depth(v, 0) == 0 && part_depth(v, 1) <= 2 && part_depth(v, 2) == 0
            && part_depth(v, 3) == 0);
        parts_bound_depth(v, 4, 2);
    }
}

proof fn individual_is_read(ind: IndividualRecord)
    ensures
        field(individual_value(ind), "topology"@) == Some(JsonView::Text(ind.topology@)),
        number_field(individual_value(ind), "rng_state"@) == Some(ind.rng_state),
{
    reveal_strlit("rng_state");
    reveal_strlit("seed");
    reveal_strlit("topology");
    if let JsonView::Object(m) = individual_value(ind) {
        assert("rng_state"@.len() == 9 && "seed"@.len() == 4 && "topology"@.len() == 8);
        key_is_found(m, "rng_state"@, 0);
        key_is_found(m, "topology"@, 2);
        number_is_plain(ind.rng_state);
    }
}

/// A stopped run is taken up where it was: what is loaded from the text of a
/// checkpoint is what was saved.
pub proof fn checkpoints_read_back(
    run_seed: u64,
    generation: usize,
    inds: Seq<IndividualRecord>,
    raw: Seq<char>,
    r: Result<LoadedCheckpoint, CheckpointError>,
)
    requires
        reads_as(raw, checkpoint_value(run_seed, generation, inds)),
        loaded_as(r, raw),
    ensures
        r matches Ok(c) && {
            &&& c.run_seed == run_seed
            &&& c.generation == generation
            &&& c.individuals@.len() == inds.len()
            &&& forall|i: int|
                0 <= i < inds.len() ==> (#[trigger] c.individuals@[i]).topology@
                    == inds[i].topology@ && c.individuals@[i].rng_state == Some(inds[i].rng_state)
        },
{
    let v = checkpoint_value(run_seed, generation, inds);
    reveal_strlit("generation");
    reveal_strlit("individuals");
    reveal_strlit("pop_size");
    reveal_strlit("run_seed");
    if let JsonView::Object(m) = v {
        assert("generation"@.len() == 10 && "individuals"@.len() == 11);
        assert("pop_size"@.len() == 8 && "run_seed"@.len() == 8);
        assert("pop_size"@[0] == 'p' && "run_seed"@[0] == 'r');
        key_is_found(m, "generation"@, 0);
        key_is_found(m, "individuals"@, 1);
        key_is_found(m, "run_seed"@, 3);
        number_is_plain(generation as u64);
        number_is_plain(run_seed);
        let items = population_values(inds);
        assert(individuals_of(v) == Some(items));
        assert forall|i: int| 0 <= i < inds.len() implies field(
            #[trigger] individuals_of(v)->0[i],
            "topology"@,
        ) == Some(JsonView::Text(inds[i].topology@)) && number_field(
            individuals_of(v)->0[i],
            "rng_state"@,
        ) == Some(inds[i].rng_state) by {
            individual_is_read(inds[i]);
        }
        assert(checkpoint_error(v) is None);
        if let Ok(c) = r {
            assert forall|i: int| 0 <= i < inds.len() implies (
            #[trigger] c.individuals@[i]).topology@ == inds[i].topology@
                && c.individuals@[i].rng_state == Some(inds[i].rng_state) by {
                assert(restored_individual(c.individuals@[i], individuals_of(v)->0[i]));
            }
        }
    }
}

/// An earlier run gives its best topology if it names one, else that of the file,
/// else the plain one, and nothing only if it has none of them. A topology that
/// is a string is that string.
pub proof fn the_best_topology_is_taken(v: JsonView, s: Seq<char>)
    ensures
        field(v, "best_topology"@) matches Some(f) ==> topology_field(v) == Some(f),
        field(v, "best_topology"@) is None ==> (field(v, "file_topology"@) matches Some(f)
            ==> topology_field(v) == Some(f)),
        field(v, "best_topology"@) is None && field(v, "file_topology"@) is None ==> (field(
            v,
            "topology"@,
        ) matches Some(f) ==> topology_field(v) == Some(f)),
        topology_field(v) is None <==> field(v, "best_topology"@) is None && field(
            v,
            "file_topology"@,
        ) is None && field(v, "topology"@) is None,
        topology_text(JsonView::Text(s)) == s,
{
}

/// A checkpoint is taken up exactly if it says the seed, the generation and the
/// individuals, and every individual its topology; otherwise it is refused for
/// what is missing first. An individual whose generator it does not know is taken
/// up without.
pub proof fn a_checkpoint_is_taken_up(
    r: Result<LoadedCheckpoint, CheckpointError>,
    v: JsonView,
    i: int,
)
    requires
        read_as(r, v),
    ensures
        number_field(v, "run_seed"@) is None ==> r == Err::<LoadedCheckpoint, _>(
            CheckpointError::RunSeed,
        ),
        number_field(v, "run_seed"@) is Some && number_field(v, "generation"@) is None ==> r
            == Err::<LoadedCheckpoint, _>(CheckpointError::Generation),
        r matches Ok(c) ==> {
            &&& number_field(v, "run_seed"@) == Some(c.run_seed)
            &&& number_field(v, "generation"@) == Some(c.generation as u64)
            &&& field(v, "individuals"@) matches Some(JsonView::Array(items)) && {
                &&& c.individuals@.len() == items.len()
                &&& 0 <= i < items.len() ==> {
                    &&& field(items[i], "topology"@) is Some
                    &&& field(items[i], "topology"@) matches Some(JsonView::Text(t))
                        ==> c.individuals@[i].topology@ == t
                    &&& c.individuals@[i].rng_state == number_field(items[i], "rng_state"@)
                }
            }
        },
        number_field(v, "run_seed"@) is Some && (number_field(v, "generation"@) matches Some(g) && g
            <= usize::MAX) && (field(v, "individuals"@) matches Some(JsonView::Array(items)) && (
        forall|k: int|
            0 <= k < items.len() ==> field(#[trigger] items[k], "topology"@) is Some)) ==> r is Ok,
        r matches Err(e) ==> match e {
            CheckpointError::RunSeed => number_field(v, "run_seed"@) is None,
            CheckpointError::Generation => number_field(v, "run_seed"@) is Some && (number_field(
                v,
                "generation"@,
            ) matches Some(g) ==> g > usize::MAX),
            CheckpointError::Individuals => !(field(v, "individuals"@) matches Some(
                JsonView::Array(items),
            )),
            CheckpointError::Topology => field(v, "individuals"@) matches Some(
                JsonView::Array(items),
            ) && exists|k: int|
                0 <= k < items.len() && field(#[trigger] items[k], "topology"@) is None,
            CheckpointError::Parse(t) => false,
        },
{
    if let Ok(c) = r {
        let items = individuals_of(v)->0;
        if 0 <= i < items.len() {
            assert(restored_individual(c.individuals@[i], items[i]));
        }
    }
}

} // verus!
