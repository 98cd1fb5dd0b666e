//! Fitness smoothing: the window of recent values behind every ranking.
//!
//! Rankings never read a raw per-step value, which bounces with batch
//! difficulty. They read the mean of the last few values, and this buffer is
//! what that mean is taken over.

use std::collections::VecDeque;
use vstd::prelude::*;

use crate::score::Score;

verus! {

/// The last `cap` elements of `s`, or all of it if it is shorter.
pub open spec fn last_window<T>(s: Seq<T>, cap: nat) -> Seq<T> {
    if s.len() <= cap {
        s
    } else {
        s.skip(s.len() - cap)
    }
}

/// A fixed-capacity window over a stream of values: it keeps the newest `cap`.
#[derive(Clone, Debug)]
pub struct RollingBuffer {
    inner: VecDeque<Score>,
    cap: usize,
}

impl View for RollingBuffer {
    type V = Seq<Score>;

    closed spec fn view(&self) -> Seq<Score> {
        self.inner@
    }
}

impl RollingBuffer {
    /// How many values the window holds at most.
    pub closed spec fn capacity(self) -> nat {
        self.cap as nat
    }

    /// The window never holds more than its capacity.
    pub open spec fn well_formed(self) -> bool {
        self@.len() <= self.capacity()
    }

    /// An empty window of the given capacity.
    pub fn new(cap: usize) -> (r: RollingBuffer)
        ensures
            r.well_formed(),
            r.capacity() == cap,
            r@ == Seq::<Score>::empty(),
    {
        RollingBuffer { inner: VecDeque::new(), cap }
    }

    /// Appends a value and drops the oldest one if the window is over capacity.
    pub fn push(&mut self, v: Score)
        requires
            old(self).well_formed(),
        ensures
            final(self).well_formed(),
            final(self).capacity() == old(self).capacity(),
            final(self)@ == last_window(old(self)@.push(v), old(self).capacity()),
    {
        self.inner.push_back(v);
        if self.inner.len() > self.cap {
            let _ = self.inner.pop_front();
        }
        assert(self@ =~= last_window(old(self)@.push(v), old(self).capacity()));
    }

    /// The values of the window, oldest first.
    pub fn values(&self) -> (r: Vec<Score>)
        ensures
            r@ == self@,
    {
        let mut out: Vec<Score> = Vec::new();
        let mut i: usize = 0;
        while i < self.inner.len()
            invariant
                i <= self.inner@.len(),
                out@ =~= self.inner@.take(i as int),
            decreases self.inner@.len() - i,
        {
            out.push(self.inner[i]);
            i = i + 1;
        }
        out
    }

    /// How many values the window holds at most.
    pub fn cap_value(&self) -> (r: usize)
        ensures
            r == self.capacity(),
    {
        self.cap
    }

    pub fn is_empty(&self) -> (r: bool)
        ensures
            r == (self@.len() == 0),
    {
        self.inner.len() == 0
    }

    pub fn len(&self) -> (r: usize)
        ensures
            r == self@.len(),
    {
        self.inner.len()
    }

    /// Empties the window; its capacity stays.
    pub fn clear(&mut self)
        ensures
            final(self).well_formed(),
            final(self).capacity() == old(self).capacity(),
            final(self)@ == Seq::<Score>::empty(),
    {
        self.inner.clear();
    }

    /// A window that has seen `values`, in order.
    pub fn from_values(cap: usize, values: &[Score]) -> (r: RollingBuffer)
        ensures
            r.well_formed(),
            r.capacity() == cap,
            r@ == last_window(values@, cap as nat),
    {
        let mut buf = RollingBuffer::new(cap);
        let mut i: usize = 0;
        while i < values.len()
            invariant
                i <= values@.len(),
                buf.well_formed(),
                buf.capacity() == cap,
                buf@ == last_window(values@.take(i as int), cap as nat),
            decreases values@.len() - i,
        {
            proof {
                window_of_window(values@.take(i as int), values@[i as int], cap as nat);
                assert(values@.take(i as int).push(values@[i as int]) =~= values@.take(i + 1));
            }
            buf.push(values[i]);
            i = i + 1;
        }
        assert(values@.take(values@.len() as int) =~= values@);
        buf
    }
}

/// Windowing before an append changes nothing: a window fed one value at a
/// time holds exactly the newest `cap` values of everything it was fed.
pub proof fn window_of_window<T>(s: Seq<T>, v: T, cap: nat)
    ensures
        last_window(last_window(s, cap).push(v), cap) == last_window(s.push(v), cap),
{
    assert(last_window(last_window(s, cap).push(v), cap) =~= last_window(s.push(v), cap));
}

// ── Divergence ───────────────────────────────────────────────────────────

/// `s` is the greatest of the numbers that are no NaN.
pub open spec fn is_greatest(scores: Seq<Score>, s: Score) -> bool {
    &&& scores.contains(s)
    &&& !s.nan()
    &&& forall|i: int|
        0 <= i < scores.len() && !(#[trigger] scores[i]).nan() ==> scores[i].key() <= s.key()
}

/// `s` is the least of the numbers that are no NaN.
pub open spec fn is_least(scores: Seq<Score>, s: Score) -> bool {
    &&& scores.contains(s)
    &&& !s.nan()
    &&& forall|i: int|
        0 <= i < scores.len() && !(#[trigger] scores[i]).nan() ==> s.key() <= scores[i].key()
}

/// `s` is the least of the numbers that are no NaN, or 0 if that is below 0.
pub open spec fn is_floor(scores: Seq<Score>, s: Score) -> bool {
    if is_least(scores, s) {
        s.key() >= 0
    } else {
        &&& s.bits == 0
        &&& exists|i: int|
            0 <= i < scores.len() && !(#[trigger] scores[i]).nan() && scores[i].key() < 0
    }
}

/// The greatest smoothed fitness and the least one, not less than 0. Their
/// distance relative to the greatest is the divergence of a population, which
/// so lies between 0 and 1. None, for a divergence of 0, if no fitness is above
/// 0. A NaN does not count.
pub fn divergence_bounds(smoothed: &Vec<Score>) -> (r: Option<(Score, Score)>)
    ensures
        match r {
            Some((max, min)) => {
                &&& is_greatest(smoothed@, max)
                &&& is_floor(smoothed@, min)
                &&& 0 <= min.key() <= max.key()
                &&& max.key() > 0
            },
            None => forall|i: int|
                0 <= i < smoothed@.len() && !(#[trigger] smoothed@[i]).nan() ==> smoothed@[i].key()
                    <= 0,
        },
{
    let mut best: Option<(Score, Score)> = None;
    let mut i: usize = 0;
    while i < smoothed.len()
        invariant
            i <= smoothed@.len(),
            match best {
                Some((max, min)) => {
                    &&& is_greatest(smoothed@.take(i as int), max)
                    &&& is_least(smoothed@.take(i as int), min)
                },
                None => forall|j: int| 0 <= j < i ==> (#[trigger] smoothed@[j]).nan(),
            },
        decreases smoothed@.len() - i,
    {
        let v = smoothed[i];
        let ghost before = smoothed@.take(i as int);
        let ghost after = smoothed@.take(i + 1);
        assert(after =~= before.push(v));
        assert(after[i as int] == v);
        if !v.is_nan() {
            best = match best {
                Some((max, min)) => {
                    proof {
                        let a = choose|a: int| 0 <= a < before.len() && before[a] == max;
                        let b = choose|b: int| 0 <= b < before.len() && before[b] == min;
                        assert(after[a] == max && after[b] == min);
                    }
                    Some(
                        (
                            if max.less_than(v) {
                                v
                            } else {
                                max
                            },
                            if v.less_than(min) {
                                v
                            } else {
                                min
                            },
                        ),
                    )
                },
                None => Some((v, v)),
            };
        } else if let Some((max, min)) = best {
            proof {
                let a = choose|a: int| 0 <= a < before.len() && before[a] == max;
                let b = choose|b: int| 0 <= b < before.len() && before[b] == min;
                assert(after[a] == max && after[b] == min);
            }
        }
        assert forall|j: int| 0 <= j < after.len() implies #[trigger] after[j] == (if j < i {
            before[j]
        } else {
            v
        }) by {}
        proof {
            if let Some((max, min)) = best {
                assert forall|j: int| 0 <= j < after.len() && !(#[trigger] after[j]).nan() implies {
                    &&& after[j].key() <= max.key()
                    &&& min.key() <= after[j].key()
                } by {
                    if j < i {
                        assert(before[j] == after[j]);
                        assert(smoothed@[j] == after[j]);
                    }
                }
            }
        }
        i = i + 1;
    }
    assert(smoothed@.take(smoothed@.len() as int) =~= smoothed@);
    match best {
        Some((max, min)) => {
            let zero = Score::zero();
            if zero.less_than(max) {
                proof {
                    let b = choose|b: int| 0 <= b < smoothed@.len() && smoothed@[b] == min;
                    assert(smoothed@[b].key() <= max.key());
                }
                if min.less_than(zero) {
                    Some((max, zero))
                } else {
                    Some((max, min))
                }
            } else {
                None
            }
        },
        None => None,
    }
}

/// What a window keeps of what it was fed: the newest value is its last, it
/// grows by one until it is full, and then the oldest value leaves.
pub proof fn the_newest_stays<T>(s: Seq<T>, v: T, cap: nat)
    requires
        0 < cap,
        s.len() <= cap,
    ensures
        ({
            let w = last_window(s.push(v), cap);
            &&& w.len() > 0
            &&& w.last() == v
            &&& s.len() < cap ==> w.len() == s.len() + 1 && w.drop_last() == s
            &&& s.len() == cap ==> w.len() == cap && w.drop_last() == s.skip(1)
        }),
{
    let w = last_window(s.push(v), cap);
    if s.len() < cap {
        assert(w.drop_last() =~= s);
    } else {
        assert(w.drop_last() =~= s.skip(1));
    }
}

/// A window holds the end of what it was fed: as much as it can, and counted
/// from behind the same values.
pub proof fn a_window_is_the_end<T>(s: Seq<T>, cap: nat, i: int)
    ensures
        last_window(s, cap).len() == (if s.len() < cap {
            s.len()
        } else {
            cap
        }),
        0 < i <= last_window(s, cap).len() ==> last_window(s, cap)[last_window(s, cap).len() - i]
            == s[s.len() - i],
{
}

/// A window has taken in one more value: it is the newest, the others are those
/// from before in their order, and the oldest is gone only if there was no room.
pub open spec fn moved_on<T>(after: Seq<T>, before: Seq<T>, newest: T, cap: int) -> bool {
    &&& after.len() > 0
    &&& after.last() == newest
    &&& before.len() < cap ==> after.drop_last() == before
    &&& before.len() >= cap ==> after.drop_last() == before.skip(1)
}

/// The bounds of a population hold every number of it: nothing is above the
/// greatest, nothing that is not negative is below the floor, and the floor is
/// the least number or 0, whichever is greater.
pub proof fn the_bounds_hold_everyone(scores: Seq<Score>, max: Score, min: Score, i: int)
    requires
        is_greatest(scores, max),
        is_floor(scores, min),
        0 <= i < scores.len(),
        !scores[i].nan(),
    ensures
        scores[i].key() <= max.key(),
        scores[i].key() >= 0 ==> min.key() <= scores[i].key(),
        min.key() >= 0,
        scores.contains(max) && !max.nan(),
        min.bits == 0 || scores.contains(min),
{
}

} // verus!
