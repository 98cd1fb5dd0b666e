//! One net of the population, as the race sees it.

use vstd::prelude::*;

use crate::score::Score;
use crate::smoothing::{last_window, moved_on, RollingBuffer};

verus! {

/// What one step measured of a net.
#[derive(Debug)]
pub struct NetMetrics {
    /// The clock at which the step ran.
    pub step: usize,
    pub train_loss: Score,
    pub eval_loss: Option<Score>,
    pub fitness: Score,
    /// The informative metrics, in the order of their labels.
    pub informative: Vec<Score>,
}

/// A live net: who it is, what it has done, and where it stands.
#[derive(Debug)]
pub struct Net {
    pub hash: String,
    pub net_seed: usize,
    /// The clock at which the net joined.
    pub entered_at_step: usize,
    /// Where the net comes from.
    pub created_from: Option<String>,
    /// How many steps the net has trained.
    pub trainings: usize,
    pub last_metrics: Option<NetMetrics>,
    pub fitness_window: RollingBuffer,
    pub train_window: RollingBuffer,
    pub eval_window: RollingBuffer,
    /// The mean of the fitness window; none before the first verdict.
    pub smoothed: Option<Score>,
    /// The smoothed fitness of the first verdict, for the regression guard.
    pub floor: Option<Score>,
    /// Whether the net fell below its floor.
    pub demoted: bool,
    /// Whether the net holds a frozen elite seat.
    pub crowned: bool,
}

impl Net {
    /// The windows have the given capacity, and the net has a smoothed fitness
    /// exactly if its fitness window holds a value.
    pub open spec fn well_formed(self, window: nat) -> bool {
        &&& self.fitness_window.well_formed()
        &&& self.train_window.well_formed()
        &&& self.eval_window.well_formed()
        &&& self.fitness_window.capacity() == window
        &&& self.train_window.capacity() == window
        &&& self.eval_window.capacity() == window
        &&& self.smoothed is Some <==> self.fitness_window@.len() > 0
    }

    /// The smoothed fitness, 0 before the first verdict.
    pub open spec fn score_or_zero(self) -> Score {
        match self.smoothed {
            Some(s) => s,
            None => Score { bits: 0 },
        }
    }

    pub fn smoothed_or_zero(&self) -> (r: Score)
        ensures
            r == self.score_or_zero(),
    {
        match self.smoothed {
            Some(s) => s,
            None => Score { bits: 0 },
        }
    }

    /// A net that has not trained yet.
    pub fn fresh(
        hash: String,
        net_seed: usize,
        entered_at_step: usize,
        created_from: Option<String>,
        window: usize,
    ) -> (r: Net)
        ensures
            r.hash == hash,
            r.net_seed == net_seed,
            r.entered_at_step == entered_at_step,
            r.created_from == created_from,
            r.trainings == 0,
            r.last_metrics is None,
            r.fitness_window@.len() == 0,
            r.train_window@.len() == 0,
            r.eval_window@.len() == 0,
            r.smoothed is None,
            r.floor is None,
            !r.demoted,
            !r.crowned,
            r.well_formed(window as nat),
    {
        Net {
            hash,
            net_seed,
            entered_at_step,
            created_from,
            trainings: 0,
            last_metrics: None,
            fitness_window: RollingBuffer::new(window),
            train_window: RollingBuffer::new(window),
            eval_window: RollingBuffer::new(window),
            smoothed: None,
            floor: None,
            demoted: false,
            crowned: false,
        }
    }

    /// The fitness window as it will be once `fitness` is measured; its mean is
    /// the smoothed fitness to record with it.
    pub fn fitness_window_after(&self, fitness: Score) -> (r: Vec<Score>)
        requires
            self.fitness_window.well_formed(),
        ensures
            r@ == last_window(
                self.fitness_window@.push(fitness),
                self.fitness_window.capacity(),
            ),
    {
        let mut values = self.fitness_window.values();
        values.push(fitness);
        let window = RollingBuffer::from_values(self.fitness_window.cap_value(), values.as_slice());
        window.values()
    }

    /// Nothing but the measurement changed, and the windows moved on by one.
    pub open spec fn after_measure(
        self,
        before: Net,
        fitness: Score,
        eval_loss: Option<Score>,
        mean: Score,
    ) -> bool {
        &&& self.hash == before.hash
        &&& self.net_seed == before.net_seed
        &&& self.entered_at_step == before.entered_at_step
        &&& self.created_from == before.created_from
        &&& self.floor == before.floor
        &&& self.demoted == before.demoted
        &&& self.crowned == before.crowned
        &&& self.fitness_window@ == last_window(
            before.fitness_window@.push(fitness),
            before.fitness_window.capacity(),
        )
        &&& self.eval_window@ == (match eval_loss {
            Some(e) => last_window(before.eval_window@.push(e), before.eval_window.capacity()),
            None => before.eval_window@,
        })
        &&& self.smoothed == (if before.fitness_window.capacity() > 0 {
            Some(mean)
        } else {
            None
        })
    }

    /// The net after a training step.
    pub open spec fn trained(
        self,
        before: Net,
        metrics: NetMetrics,
        mean: Score,
        window: usize,
    ) -> bool {
        &&& self.after_measure(before, metrics.fitness, metrics.eval_loss, mean)
        &&& self.train_window@ == last_window(
            before.train_window@.push(metrics.train_loss),
            window as nat,
        )
        &&& self.trainings == before.trainings + 1
        &&& self.last_metrics == Some(metrics)
    }

    /// The net after a step that it caught up with.
    pub open spec fn caught_up(self, before: Net, metrics: NetMetrics, mean: Score) -> bool {
        &&& self.after_measure(before, metrics.fitness, None, mean)
        &&& self.train_window == before.train_window
        &&& self.trainings == before.trainings + 1
        &&& self.last_metrics == Some(metrics)
    }

    /// The net after a step in which its last measurement was carried forward.
    pub open spec fn carried(
        self,
        before: Net,
        fitness: Score,
        eval_loss: Option<Score>,
        mean: Score,
    ) -> bool {
        &&& self.after_measure(before, fitness, eval_loss, mean)
        &&& self.train_window == before.train_window
        &&& self.trainings == before.trainings
        &&& self.last_metrics == before.last_metrics
    }

    /// Records a training step. `mean` is the mean of the fitness window once
    /// the new fitness is in it.
    pub fn record_step(&mut self, metrics: NetMetrics, mean: Score, window: usize)
        requires
            old(self).well_formed(window as nat),
            old(self).trainings < usize::MAX,
        ensures
            final(self).well_formed(window as nat),
            final(self).trained(*old(self), metrics, mean, window),
    {
        self.fitness_window.push(metrics.fitness);
        self.train_window.push(metrics.train_loss);
        if let Some(e) = metrics.eval_loss {
            self.eval_window.push(e);
        }
        self.smoothed = if window > 0 {
            Some(mean)
        } else {
            None
        };
        self.trainings = self.trainings + 1;
        self.last_metrics = Some(metrics);
    }

    /// Records a catch-up step of a child: the fitness window moves, the loss
    /// windows do not.
    pub fn record_catch_up(&mut self, metrics: NetMetrics, mean: Score, window: usize)
        requires
            old(self).well_formed(window as nat),
            old(self).trainings < usize::MAX,
        ensures
            final(self).well_formed(window as nat),
            final(self).caught_up(*old(self), metrics, mean),
    {
        self.fitness_window.push(metrics.fitness);
        self.smoothed = if window > 0 {
            Some(mean)
        } else {
            None
        };
        self.trainings = self.trainings + 1;
        self.last_metrics = Some(metrics);
    }

    /// Carries the last measurement of a frozen net forward: the windows move,
    /// nothing is trained.
    pub fn carry_step(&mut self, fitness: Score, eval_loss: Option<Score>, mean: Score, window: usize)
        requires
            old(self).well_formed(window as nat),
        ensures
            final(self).well_formed(window as nat),
            final(self).carried(*old(self), fitness, eval_loss, mean),
    {
        self.fitness_window.push(fitness);
        if let Some(e) = eval_loss {
            self.eval_window.push(e);
        }
        self.smoothed = if window > 0 {
            Some(mean)
        } else {
            None
        };
    }

    /// Updates the regression guard: the first verdict sets the floor; after
    /// that `collapsed` says whether the net has fallen too far below it. A net
    /// without a verdict is left alone.
    pub fn update_regression_guard(&mut self, collapsed: bool)
        ensures
            *final(self) == (Net {
                floor: final(self).floor,
                demoted: final(self).demoted,
                ..*old(self)
            }),
            old(self).smoothed is None ==> *final(self) == *old(self),
            old(self).smoothed is Some && old(self).floor is None ==> final(self).floor == old(
                self,
            ).smoothed && final(self).demoted == old(self).demoted,
            old(self).smoothed is Some && old(self).floor is Some ==> final(self).floor == old(
                self,
            ).floor && final(self).demoted == collapsed,
    {
        if let Some(s) = self.smoothed {
            if self.floor.is_none() {
                self.floor = Some(s);
            } else {
                self.demoted = collapsed;
            }
        }
    }
}

/// What a training leaves behind: one training more, the measurement as the last
/// one, and its numbers as the newest of their windows; the net stays the same
/// individual.
pub proof fn a_training_is_recorded(
    after: Net,
    before: Net,
    metrics: NetMetrics,
    mean: Score,
    window: usize,
)
    requires
        before.well_formed(window as nat),
        after.trained(before, metrics, mean, window),
        window > 0,
    ensures
        after.trainings == before.trainings + 1,
        after.last_metrics == Some(metrics),
        after.smoothed == Some(mean),
        moved_on(after.fitness_window@, before.fitness_window@, metrics.fitness, window as int),
        moved_on(after.train_window@, before.train_window@, metrics.train_loss, window as int),
        metrics.eval_loss matches Some(e) ==> moved_on(
            after.eval_window@,
            before.eval_window@,
            e,
            window as int,
        ),
        metrics.eval_loss is None ==> after.eval_window@ == before.eval_window@,
        after.hash == before.hash && after.net_seed == before.net_seed,
        after.entered_at_step == before.entered_at_step && after.created_from
            == before.created_from,
        after.floor == before.floor && after.demoted == before.demoted && after.crowned
            == before.crowned,
{
    crate::smoothing::the_newest_stays(before.fitness_window@, metrics.fitness, window as nat);
    crate::smoothing::the_newest_stays(before.train_window@, metrics.train_loss, window as nat);
    if let Some(e) = metrics.eval_loss {
        crate::smoothing::the_newest_stays(before.eval_window@, e, window as nat);
    }
}

/// What a carried step leaves behind: the carried fitness is the newest of its
/// window once more, but nothing was trained and nothing was measured.
pub proof fn a_carried_step_trains_nothing(
    after: Net,
    before: Net,
    fitness: Score,
    eval_loss: Option<Score>,
    mean: Score,
    window: usize,
)
    requires
        before.well_formed(window as nat),
        after.carried(before, fitness, eval_loss, mean),
        window > 0,
    ensures
        after.trainings == before.trainings,
        after.last_metrics == before.last_metrics,
        after.smoothed == Some(mean),
        moved_on(after.fitness_window@, before.fitness_window@, fitness, window as int),
        eval_loss matches Some(e) ==> moved_on(
            after.eval_window@,
            before.eval_window@,
            e,
            window as int,
        ),
        eval_loss is None ==> after.eval_window@ == before.eval_window@,
        after.train_window@ == before.train_window@,
        after.hash == before.hash && after.net_seed == before.net_seed,
        after.floor == before.floor && after.demoted == before.demoted && after.crowned
            == before.crowned,
{
    crate::smoothing::the_newest_stays(before.fitness_window@, fitness, window as nat);
    if let Some(e) = eval_loss {
        crate::smoothing::the_newest_stays(before.eval_window@, e, window as nat);
    }
}

/// A step that is caught up with counts as a training, and moves the fitness
/// window alone.
pub proof fn a_caught_up_step_counts(
    after: Net,
    before: Net,
    metrics: NetMetrics,
    mean: Score,
    window: usize,
)
    requires
        before.well_formed(window as nat),
        after.caught_up(before, metrics, mean),
        window > 0,
    ensures
        after.trainings == before.trainings + 1,
        after.last_metrics == Some(metrics),
        after.smoothed == Some(mean),
        moved_on(after.fitness_window@, before.fitness_window@, metrics.fitness, window as int),
        after.train_window@ == before.train_window@,
        after.eval_window@ == before.eval_window@,
        after.hash == before.hash && after.net_seed == before.net_seed,
        after.entered_at_step == before.entered_at_step && after.created_from
            == before.created_from,
        after.floor == before.floor && after.demoted == before.demoted && after.crowned
            == before.crowned,
{
    crate::smoothing::the_newest_stays(before.fitness_window@, metrics.fitness, window as nat);
}

} // verus!
