//! One net's step: who trains, who is frozen, and what is recorded.

use vstd::prelude::*;

use crate::net::{Net, NetMetrics};
use crate::race::{in_hash_order, Race};
use crate::ranking::is_among;
use crate::resume::optional_view;
use crate::score::Score;
use crate::text::{same_text, texts};

verus! {

/// What a net does in a step.
#[derive(Clone, Copy, Debug, PartialEq, Eq, Structural)]
pub enum StepPlan {
    /// A frozen elite: its last measurement counts once more.
    Carry { fitness: Score, eval_loss: Option<Score> },
    /// Everyone else trains.
    Train,
}

/// How the set of frozen elites changed.
#[derive(Debug)]
pub enum CrownChange {
    /// The only seat is taken, and nobody else had it before.
    Crowned,
    /// The only seat is taken over from the net with this hash.
    Moved { from: String },
    /// One of several seats is taken.
    Seat { place: usize, seats: usize },
}

/// What `begin_step` found.
#[derive(Debug)]
pub struct StepStart {
    pub plan: StepPlan,
    pub crown: Option<CrownChange>,
    /// The nets that lost a seat, in order.
    pub dethroned: Vec<String>,
}

/// Whether the net at `i` is frozen: an elite of a run that freezes them.
pub open spec fn is_frozen(race: Race, freeze: bool, i: int) -> bool {
    freeze && race.elite_set().contains(i as usize)
}

/// Whether the net at `i` takes a seat it did not hold.
pub open spec fn takes_seat(race: Race, freeze: bool, i: int) -> bool {
    is_frozen(race, freeze, i) && !race.nets@[i].crowned
}

/// Whether the net at `i` loses its seat: it holds one and is not frozen any
/// more, whether or not somebody else is.
pub open spec fn leaves_seat(race: Race, freeze: bool, i: int) -> bool {
    race.nets@[i].crowned && !is_frozen(race, freeze, i)
}

/// The seats once the net at `i` took one: it has one, and everyone else keeps
/// a seat only while an elite.
pub open spec fn seat_after(race: Race, i: int, j: int) -> bool {
    j == i || (race.nets@[j].crowned && race.elite_set().contains(j as usize))
}

/// The race once it was decided what the net at `i` does: the seats are handed
/// out anew if it takes one, it loses its own if it is not frozen any more, and
/// nothing else changes.
pub open spec fn seated(before: Race, after: Race, freeze: bool, i: int) -> bool {
    if takes_seat(before, freeze, i) {
        &&& after == (Race { nets: after.nets, last_crowned: after.last_crowned, ..before })
        &&& after.last_crowned matches Some(hash) && hash@ == before.nets@[i].hash@
        &&& after.nets@.len() == before.nets@.len()
        &&& forall|j: int|
            0 <= j < before.nets@.len() ==> #[trigger] after.nets@[j] == (Net {
                crowned: seat_after(before, i, j),
                ..before.nets@[j]
            })
    } else if leaves_seat(before, freeze, i) {
        &&& after.same_but_nets(before)
        &&& only_changed(after.nets@, before.nets@, i)
        &&& after.nets@[i] == (Net { crowned: false, ..before.nets@[i] })
    } else {
        after == before
    }
}

/// The plan for the net at `i`.
pub open spec fn plan_of(race: Race, freeze: bool, i: int) -> StepPlan {
    match race.nets@[i].last_metrics {
        Some(m) => if is_frozen(race, freeze, i) {
            StepPlan::Carry { fitness: m.fitness, eval_loss: m.eval_loss }
        } else {
            StepPlan::Train
        },
        None => StepPlan::Train,
    }
}

/// The hashes of the nets among the first `n` that lose a seat to the net at
/// `i`.
pub open spec fn losers(race: Race, i: int, n: nat) -> Seq<Seq<char>>
    decreases n,
{
    if n == 0 {
        Seq::empty()
    } else {
        let rest = losers(race, i, (n - 1) as nat);
        let j = n - 1;
        if race.nets@[j].crowned && !seat_after(race, i, j) {
            rest.push(race.nets@[j].hash@)
        } else {
            rest
        }
    }
}

/// The hashes of the nets that lose a seat when the net at `i` begins a step.
pub open spec fn dethroned(race: Race, freeze: bool, i: int) -> Seq<Seq<char>> {
    if takes_seat(race, freeze, i) {
        losers(race, i, race.nets@.len())
    } else if leaves_seat(race, freeze, i) {
        seq![race.nets@[i].hash@]
    } else {
        Seq::empty()
    }
}

/// The place of `x` in `s`, counted from 1; 0 if it is not there.
pub open spec fn place_in(s: Seq<usize>, x: usize) -> nat
    decreases s.len(),
{
    if s.len() == 0 {
        0
    } else {
        let p = place_in(s.drop_last(), x);
        if p > 0 {
            p
        } else if s.last() == x {
            s.len()
        } else {
            0
        }
    }
}

/// Whose seat the net at `i` takes over: that of the net that took a seat last,
/// unless that is the net itself.
pub open spec fn predecessor(race: Race, i: int) -> Option<Seq<char>> {
    match race.last_crowned {
        Some(hash) => if hash@ == race.nets@[i].hash@ {
            None
        } else {
            Some(hash@)
        },
        None => None,
    }
}

/// What the log says about a net that takes a seat.
pub open spec fn crown_change(race: Race, i: int, c: CrownChange) -> bool {
    let seats = race.elite_set().len();
    match c {
        CrownChange::Crowned => seats == 1 && predecessor(race, i) is None,
        CrownChange::Moved { from } => seats == 1 && predecessor(race, i) == Some(from@),
        CrownChange::Seat { place, seats: n } => seats != 1 && n == seats && place == place_in(
            race.elite_set(),
            i as usize,
        ),
    }
}

fn find_place(s: &Vec<usize>, x: usize) -> (r: usize)
    ensures
        r == place_in(s@, x),
{
    let mut place: usize = 0;
    let mut i: usize = 0;
    assert(s@.take(0) =~= Seq::empty());
    while i < s.len()
        invariant
            i <= s@.len(),
            place <= i,
            place == place_in(s@.take(i as int), x),
        decreases s@.len() - i,
    {
        assert(s@.take(i + 1).drop_last() =~= s@.take(i as int));
        if place == 0 && s[i] == x {
            place = i + 1;
        }
        i = i + 1;
    }
    assert(s@.take(s@.len() as int) =~= s@);
    place
}

impl Race {
    fn find_predecessor(&self, i: usize) -> (r: Option<String>)
        requires
            i < self.nets@.len(),
        ensures
            optional_view(r) == predecessor(*self, i as int),
    {
        match &self.last_crowned {
            Some(hash) => if same_text(hash.as_str(), self.nets[i].hash.as_str()) {
                None
            } else {
                Some(hash.clone())
            },
            None => None,
        }
    }

    /// Decides what the net at position `i` does in this step. A frozen elite
    /// that holds no seat yet takes one, and nets that are no longer elites
    /// lose theirs. A net that holds a seat and is not frozen any more loses it,
    /// also if nobody takes it over.
    pub fn begin_step(&mut self, i: usize, freeze: bool) -> (r: StepStart)
        requires
            old(self).well_formed(),
            i < old(self).nets@.len(),
        ensures
            final(self).well_formed(),
            r.plan == plan_of(*old(self), freeze, i as int),
            r.crown is Some <==> takes_seat(*old(self), freeze, i as int),
            r.crown matches Some(c) ==> crown_change(*old(self), i as int, c),
            texts(r.dethroned@) == dethroned(*old(self), freeze, i as int),
            seated(*old(self), *final(self), freeze, i as int),
            final(self).nets@[i as int].crowned == is_frozen(*old(self), freeze, i as int),
    {
        let elite = self.elite_positions();
        let frozen = freeze && is_among(i, &elite);
        let plan = match &self.nets[i].last_metrics {
            Some(m) => {
                if frozen {
                    StepPlan::Carry { fitness: m.fitness, eval_loss: m.eval_loss }
                } else {
                    StepPlan::Train
                }
            },
            None => StepPlan::Train,
        };
        let mut dethroned: Vec<String> = Vec::new();
        assert(texts(dethroned@) =~= Seq::empty());
        if !frozen && self.nets[i].crowned {
            let ghost start = *self;
            dethroned.push(self.nets[i].hash.clone());
            assert(texts(dethroned@) =~= seq![start.nets@[i as int].hash@]);
            self.nets[i].crowned = false;
            proof {
                change_keeps_order(start.nets@, self.nets@, i as int);
                assert forall|k: int| 0 <= k < self.nets@.len() implies (
                #[trigger] self.nets@[k]).well_formed(self.window as nat) by {
                    assert(start.nets@[k].well_formed(start.window as nat));
                }
            }
            return StepStart { plan, crown: None, dethroned };
        }
        if !frozen || self.nets[i].crowned {
            return StepStart { plan, crown: None, dethroned };
        }
        let crown = if elite.len() == 1 {
            match self.find_predecessor(i) {
                Some(from) => CrownChange::Moved { from },
                None => CrownChange::Crowned,
            }
        } else {
            CrownChange::Seat { place: find_place(&elite, i), seats: elite.len() }
        };
        let ghost start = *self;
        let hash = self.nets[i].hash.clone();
        let mut j: usize = 0;
        while j < self.nets.len()
            invariant
                j <= self.nets@.len(),
                i < start.nets@.len(),
                self.nets@.len() == start.nets@.len(),
                self.same_but_nets(start),
                elite@ == start.elite_set(),
                texts(dethroned@) == losers(start, i as int, j as nat),
                forall|k: int|
                    0 <= k < j ==> #[trigger] self.nets@[k] == (Net {
                        crowned: seat_after(start, i as int, k),
                        ..start.nets@[k]
                    }),
                forall|k: int|
                    j <= k < start.nets@.len() ==> #[trigger] self.nets@[k] == start.nets@[k],
            decreases self.nets@.len() - j,
        {
            let keeps = j == i || (self.nets[j].crowned && is_among(j, &elite));
            if self.nets[j].crowned && !keeps {
                let ghost before = dethroned@;
                dethroned.push(self.nets[j].hash.clone());
                assert(texts(dethroned@) =~= texts(before).push(
                    start.nets@[j as int].hash@,
                ));
            }
            self.nets[j].crowned = keeps;
            j = j + 1;
        }
        proof {
            assert(in_hash_order(self.nets@)) by {
                assert forall|a: int, b: int| 0 <= a < b < self.nets@.len() implies crate::text::text_below(
                    (#[trigger] self.nets@[a]).hash@,
                    (#[trigger] self.nets@[b]).hash@,
                ) by {
                    assert(self.nets@[a].hash == start.nets@[a].hash);
                    assert(self.nets@[b].hash == start.nets@[b].hash);
                }
            }
            assert forall|k: int| 0 <= k < self.nets@.len() implies (
            #[trigger] self.nets@[k]).well_formed(self.window as nat) by {
                assert(start.nets@[k].well_formed(start.window as nat));
            }
        }
        self.last_crowned = Some(hash);
        StepStart { plan, crown: Some(crown), dethroned }
    }

    /// Records a training step of the net at position `i`. `mean` is the mean
    /// of its fitness window with the new fitness in it.
    pub fn record_step(&mut self, i: usize, metrics: NetMetrics, mean: Score)
        requires
            old(self).well_formed(),
            i < old(self).nets@.len(),
            old(self).nets@[i as int].trainings < usize::MAX,
        ensures
            final(self).well_formed(),
            final(self).same_but_nets(*old(self)),
            only_changed(final(self).nets@, old(self).nets@, i as int),
            final(self).nets@[i as int].trained(
                old(self).nets@[i as int],
                metrics,
                mean,
                old(self).window,
            ),
    {
        let ghost start = *self;
        let window: usize = self.window;
        self.nets[i].record_step(metrics, mean, window);
        proof {
            change_keeps_order(start.nets@, self.nets@, i as int);
        }
    }

    /// Counts the last measurement of the frozen net at position `i` once more.
    pub fn carry_step(
        &mut self,
        i: usize,
        fitness: Score,
        eval_loss: Option<Score>,
        mean: Score,
    )
        requires
            old(self).well_formed(),
            i < old(self).nets@.len(),
        ensures
            final(self).well_formed(),
            final(self).same_but_nets(*old(self)),
            only_changed(final(self).nets@, old(self).nets@, i as int),
            final(self).nets@[i as int].carried(
                old(self).nets@[i as int],
                fitness,
                eval_loss,
                mean,
            ),
    {
        let ghost start = *self;
        let window: usize = self.window;
        self.nets[i].carry_step(fitness, eval_loss, mean, window);
        proof {
            change_keeps_order(start.nets@, self.nets@, i as int);
        }
    }

    /// Updates the regression guard of the net at position `i`.
    pub fn update_regression_guard(&mut self, i: usize, collapsed: bool)
        requires
            old(self).well_formed(),
            i < old(self).nets@.len(),
        ensures
            final(self).well_formed(),
            final(self).same_but_nets(*old(self)),
            only_changed(final(self).nets@, old(self).nets@, i as int),
            final(self).nets@[i as int] == guarded(old(self).nets@[i as int], collapsed),
    {
        let ghost start = *self;
        self.nets[i].update_regression_guard(collapsed);
        proof {
            change_keeps_order(start.nets@, self.nets@, i as int);
        }
    }
}

/// A net after the regression guard looked at it: the first verdict is its
/// floor; from then on it is demoted exactly while collapsed.
pub open spec fn guarded(net: Net, collapsed: bool) -> Net {
    if net.smoothed is None {
        net
    } else if net.floor is None {
        Net { floor: net.smoothed, ..net }
    } else {
        Net { demoted: collapsed, ..net }
    }
}

/// Only the net at `i` differs, and it kept its hash.
pub open spec fn only_changed(after: Seq<Net>, before: Seq<Net>, i: int) -> bool {
    &&& after.len() == before.len()
    &&& after[i].hash == before[i].hash
    &&& forall|j: int| 0 <= j < before.len() && j != i ==> #[trigger] after[j] == before[j]
}

proof fn change_keeps_order(before: Seq<Net>, after: Seq<Net>, i: int)
    requires
        in_hash_order(before),
        0 <= i < before.len(),
        only_changed(after, before, i),
    ensures
        in_hash_order(after),
{
    assert forall|a: int, b: int| 0 <= a < b < after.len() implies crate::text::text_below(
        (#[trigger] after[a]).hash@,
        (#[trigger] after[b]).hash@,
    ) by {
        assert(after[a].hash == before[a].hash);
        assert(after[b].hash == before[b].hash);
    }
}

/// A net that is demoted holds no seat of the elite guard.
pub proof fn demoted_nets_are_no_elites(race: Race, i: int)
    requires
        0 <= i < race.nets@.len() <= usize::MAX,
        race.nets@[i].demoted,
    ensures
        !race.elite_set().contains(i as usize),
{
    crate::ranking::elites_are_sound(
        race.direction,
        race.elite_count as nat,
        crate::race::score_column(race.nets@),
        crate::race::demoted_column(race.nets@),
    );
    if race.elite_set().contains(i as usize) {
        let k = choose|k: int| 0 <= k < race.elite_set().len() && race.elite_set()[k] == i as usize;
        assert(!crate::race::demoted_column(race.nets@)[race.elite_set()[k] as int]);
    }
}

/// Without freezing nothing is carried: every net trains.
pub proof fn unfrozen_nets_train(race: Race, i: int)
    ensures
        plan_of(race, false, i) == StepPlan::Train,
        !takes_seat(race, false, i),
{
}

/// A demoted net holds no seat once it begins a step, and is named among those
/// that lost theirs if it held one, whoever else is an elite.
pub proof fn demoted_nets_lose_their_seat(before: Race, after: Race, freeze: bool, i: int)
    requires
        0 <= i < before.nets@.len() <= usize::MAX,
        before.nets@[i].demoted,
        seated(before, after, freeze, i),
    ensures
        !after.nets@[i].crowned,
        before.nets@[i].crowned ==> dethroned(before, freeze, i) == seq![before.nets@[i].hash@],
{
    demoted_nets_are_no_elites(before, i);
}

/// Whether a net trains or is carried: carried exactly if the run freezes its
/// elites, the net is one of them and it was measured before, and then with its
/// own last fitness and loss.
pub proof fn only_measured_elites_are_carried(race: Race, freeze: bool, i: int)
    ensures
        plan_of(race, freeze, i) is Carry <==> freeze && race.elite_set().contains(i as usize)
            && race.nets@[i].last_metrics is Some,
        plan_of(race, freeze, i) matches StepPlan::Carry { fitness, eval_loss } ==> fitness
            == race.nets@[i].last_metrics->0.fitness && eval_loss
            == race.nets@[i].last_metrics->0.eval_loss,
{
}

/// Once a net began its step: it holds a seat exactly if it is frozen. Whoever
/// else held one keeps it, unless the net took one anew; then only those who are
/// elites keep theirs. Nobody gains a seat but the net itself, and nothing but
/// seats changes.
pub proof fn seats_change_hands(before: Race, after: Race, freeze: bool, i: int, j: int)
    requires
        0 <= i < before.nets@.len() <= usize::MAX,
        0 <= j < before.nets@.len(),
        seated(before, after, freeze, i),
    ensures
        after.nets@.len() == before.nets@.len(),
        after.nets@[i].crowned <==> freeze && before.elite_set().contains(i as usize),
        j != i && after.nets@[j].crowned ==> before.nets@[j].crowned,
        j != i && before.nets@[j].crowned && before.elite_set().contains(j as usize)
            ==> after.nets@[j].crowned,
        j != i && before.nets@[j].crowned && !after.nets@[j].crowned
            ==> !before.nets@[i].crowned && after.nets@[i].crowned,
        j != i && !before.elite_set().contains(j as usize) && !before.nets@[i].crowned
            && after.nets@[i].crowned ==> !after.nets@[j].crowned,
        after.nets@[j] == (Net { crowned: after.nets@[j].crowned, ..before.nets@[j] }),
        after == (Race { nets: after.nets, last_crowned: after.last_crowned, ..before }),
{
    if !takes_seat(before, freeze, i) && leaves_seat(before, freeze, i) {
        assert(after == (Race { nets: after.nets, last_crowned: after.last_crowned, ..before }));
    }
}

/// The nets that are said to have lost a seat are exactly those that lost one.
pub proof fn whoever_lost_a_seat_is_named(before: Race, after: Race, freeze: bool, i: int, j: int)
    requires
        0 <= i < before.nets@.len() <= usize::MAX,
        0 <= j < before.nets@.len(),
        seated(before, after, freeze, i),
    ensures
        before.nets@[j].crowned && !after.nets@[j].crowned ==> dethroned(before, freeze, i).contains(
            before.nets@[j].hash@,
        ),
        forall|k: int|
            0 <= k < dethroned(before, freeze, i).len() ==> exists|x: int|
                0 <= x < before.nets@.len() && (#[trigger] before.nets@[x]).crowned
                    && !after.nets@[x].crowned && before.nets@[x].hash@ == #[trigger] dethroned(
                    before,
                    freeze,
                    i,
                )[k],
{
    let named = dethroned(before, freeze, i);
    if takes_seat(before, freeze, i) {
        losers_are_named(before, i, before.nets@.len());
        assert(after.nets@[j].crowned == seat_after(before, i, j));
        assert forall|k: int| 0 <= k < named.len() implies exists|x: int|
            0 <= x < before.nets@.len() && (#[trigger] before.nets@[x]).crowned
                && !after.nets@[x].crowned && before.nets@[x].hash@ == #[trigger] named[k] by {
            let x = choose|x: int|
                0 <= x < before.nets@.len() && (#[trigger] before.nets@[x]).crowned && !seat_after(
                    before,
                    i,
                    x,
                ) && before.nets@[x].hash@ == losers(before, i, before.nets@.len())[k];
            assert(after.nets@[x].crowned == seat_after(before, i, x));
        }
    } else if leaves_seat(before, freeze, i) {
        assert(named[0] == before.nets@[i].hash@);
        if j != i {
            assert(after.nets@[j] == before.nets@[j]);
        }
    }
}

proof fn losers_are_named(race: Race, i: int, n: nat)
    requires
        n <= race.nets@.len(),
    ensures
        forall|x: int|
            0 <= x < n && (#[trigger] race.nets@[x]).crowned && !seat_after(race, i, x) ==> losers(
                race,
                i,
                n,
            ).contains(race.nets@[x].hash@),
        forall|k: int|
            0 <= k < losers(race, i, n).len() ==> exists|x: int|
                0 <= x < n && (#[trigger] race.nets@[x]).crowned && !seat_after(race, i, x)
                    && race.nets@[x].hash@ == #[trigger] losers(race, i, n)[k],
    decreases n,
{
    if n > 0 {
        losers_are_named(race, i, (n - 1) as nat);
        let rest = losers(race, i, (n - 1) as nat);
        let all = losers(race, i, n);
        assert forall|x: int|
            0 <= x < n && (#[trigger] race.nets@[x]).crowned && !seat_after(race, i, x) implies all.contains(
            race.nets@[x].hash@,
        ) by {
            if x < n - 1 {
                let k = choose|k: int| 0 <= k < rest.len() && rest[k] == race.nets@[x].hash@;
                assert(all[k] == race.nets@[x].hash@);
            } else {
                assert(all[all.len() - 1] == race.nets@[x].hash@);
            }
        }
        assert forall|k: int| 0 <= k < all.len() implies exists|x: int|
            0 <= x < n && (#[trigger] race.nets@[x]).crowned && !seat_after(race, i, x)
                && race.nets@[x].hash@ == #[trigger] all[k] by {
            if k < rest.len() {
                assert(all[k] == rest[k]);
                let x = choose|x: int|
                    0 <= x < n - 1 && (#[trigger] race.nets@[x]).crowned && !seat_after(
                        race,
                        i,
                        x,
                    ) && race.nets@[x].hash@ == rest[k];
                assert(race.nets@[x].crowned);
            } else {
                assert(race.nets@[n - 1].crowned);
            }
        }
    }
}

/// The regression guard: the first verdict becomes the floor and stays it; from
/// then on a net is demoted exactly while it is collapsed, so that one that
/// recovers is not demoted any more. Nothing else changes, and nothing at all
/// before the first verdict.
pub proof fn the_guard_remembers_the_floor(net: Net, collapsed: bool)
    ensures
        ({
            let after = guarded(net, collapsed);
            &&& net.floor is Some ==> after.floor == net.floor
            &&& net.floor is None ==> after.floor == net.smoothed && after.demoted == net.demoted
            &&& net.floor is Some && net.smoothed is Some ==> after.demoted == collapsed
            &&& net.smoothed is None ==> after == net
            &&& after == (Net { floor: after.floor, demoted: after.demoted, ..net })
            &&& guarded(after, false).floor == after.floor
            &&& after.floor is Some && net.smoothed is Some ==> !guarded(after, false).demoted
        }),
{
}

/// A place in the guard is counted from 1, the first of its kind, and 0 for
/// whoever has none.
pub proof fn a_place_is_counted_from_one(s: Seq<usize>, x: usize)
    ensures
        place_in(s, x) == 0 <==> !s.contains(x),
        place_in(s, x) > 0 ==> place_in(s, x) <= s.len() && s[place_in(s, x) - 1] == x,
        forall|j: int| 0 <= j < place_in(s, x) - 1 ==> #[trigger] s[j] != x,
    decreases s.len(),
{
    if s.len() > 0 {
        let front = s.drop_last();
        a_place_is_counted_from_one(front, x);
        if front.contains(x) {
            let m = choose|m: int| 0 <= m < front.len() && front[m] == x;
            assert(s[m] == x);
        }
        if s.contains(x) {
            let m = choose|m: int| 0 <= m < s.len() && s[m] == x;
            if m < front.len() {
                assert(front[m] == x);
            }
        }
        assert forall|j: int| 0 <= j < place_in(s, x) - 1 implies #[trigger] s[j] != x by {
            assert(s[j] == front[j]);
        }
    }
}

/// Whoever took a seat last is the predecessor of the next one, and nobody's
/// own.
pub proof fn the_crown_is_handed_on(before: Race, after: Race, freeze: bool, i: int, j: int)
    requires
        0 <= i < before.nets@.len(),
        0 <= j < before.nets@.len(),
        seated(before, after, freeze, i),
        freeze,
        before.elite_set().contains(i as usize),
        !before.nets@[i].crowned,
    ensures
        predecessor(after, i) is None,
        before.nets@[j].hash@ != before.nets@[i].hash@ ==> predecessor(after, j) == Some(
            before.nets@[i].hash@,
        ),
        after.last_crowned is Some,
{
    assert(takes_seat(before, freeze, i));
    assert(after.nets@[i].hash == before.nets@[i].hash);
    assert(after.nets@[j].hash == before.nets@[j].hash);
}

/// A new crown says where it comes from. Where there is one seat, it moved if
/// another net had it last, and names that one; otherwise it is simply new. Where
/// there are more, it names the seat, counted from the best.
pub proof fn a_crown_says_where_it_comes_from(race: Race, i: int, c: CrownChange)
    requires
        0 <= i < race.nets@.len() <= usize::MAX,
        race.elite_set().contains(i as usize),
        crown_change(race, i, c),
    ensures
        race.elite_set().len() == 1 && race.last_crowned is None ==> c == CrownChange::Crowned,
        race.elite_set().len() == 1 ==> (race.last_crowned matches Some(last) ==> {
            &&& last@ == race.nets@[i].hash@ ==> c == CrownChange::Crowned
            &&& last@ != race.nets@[i].hash@ ==> (c matches CrownChange::Moved { from } && from@
                == last@)
        }),
        race.elite_set().len() > 1 ==> (c matches CrownChange::Seat { place, seats } && seats
            == race.elite_set().len() && 1 <= place <= seats && race.elite_set()[place - 1] == i),
{
    a_place_is_counted_from_one(race.elite_set(), i as usize);
}

} // verus!
