use vstd::prelude::*;

verus! {

/// Largest magnitude of a duration or tick length, in fixed-point units.
pub const TIME_LIMIT: i64 = 1_000_000_000_000_000;

/// One countdown: an id, its full duration, the time left and whether it
/// starts over each time it fires.
#[derive(Clone, Copy, Debug, PartialEq, Eq, Structural)]
pub struct Countdown {
    pub id: usize,
    pub start_time: i64,
    pub time_remaining: i64,
    pub is_interval: bool,
}

/// The countdown after a tick of length `delta`: an interval that ran out is
/// rescheduled, with the overshoot carried over.
pub open spec fn ticked(c: Countdown, delta: int) -> Countdown {
    let left = c.time_remaining - delta;
    Countdown {
        time_remaining: (if left <= 0 && c.is_interval { c.start_time + left } else { left }) as i64,
        ..c
    }
}

/// The ids that fire during a tick, in the order of the countdowns.
pub open spec fn fired_ids(s: Seq<Countdown>, delta: int) -> Seq<usize>
    decreases s.len(),
{
    if s.len() == 0 {
        seq![]
    } else {
        let rest = fired_ids(s.drop_last(), delta);
        if s.last().time_remaining - delta <= 0 {
            rest.push(s.last().id)
        } else {
            rest
        }
    }
}

/// The countdowns that remain after a tick: each one ticked, and the one-shot
/// countdowns that fired removed. An interval always stays; one that overshot
/// by more than its period fires again on the next tick.
pub open spec fn kept_after(s: Seq<Countdown>, delta: int) -> Seq<Countdown>
    decreases s.len(),
{
    if s.len() == 0 {
        seq![]
    } else {
        let rest = kept_after(s.drop_last(), delta);
        let c = ticked(s.last(), delta);
        if c.is_interval || c.time_remaining > 0 {
            rest.push(c)
        } else {
            rest
        }
    }
}

pub open spec fn countdown_wf(c: Countdown) -> bool {
    -TIME_LIMIT <= c.start_time <= TIME_LIMIT && -2 * TIME_LIMIT <= c.time_remaining <= TIME_LIMIT
}

/// After a tick of length `delta` the countdown's time left stays within
/// `TIME_LIMIT` either way.
pub open spec fn tick_fits(c: Countdown, delta: int) -> bool {
    -TIME_LIMIT <= c.time_remaining - delta <= TIME_LIMIT
}

/// A tick in which every countdown is an interval keeps them all, each ticked.
pub proof fn lemma_intervals_stay(s: Seq<Countdown>, delta: int)
    requires
        forall|i: int| 0 <= i < s.len() ==> (#[trigger] s[i]).is_interval,
    ensures
        kept_after(s, delta) == s.map_values(|c: Countdown| ticked(c, delta)),
    decreases s.len(),
{
    if s.len() > 0 {
        let p = s.drop_last();
        assert forall|i: int| 0 <= i < p.len() implies (#[trigger] p[i]).is_interval by {
            assert(p[i] == s[i]);
        }
        lemma_intervals_stay(p, delta);
        assert(s.last().is_interval);
        assert(kept_after(s, delta) =~= s.map_values(|c: Countdown| ticked(c, delta)));
    } else {
        assert(kept_after(s, delta) =~= s.map_values(|c: Countdown| ticked(c, delta)));
    }
}

/// A set of countdowns, kept in the order in which they were added.
pub struct Timer {
    countdowns: Vec<Countdown>,
}

impl View for Timer {
    type V = Seq<Countdown>;

    closed spec fn view(&self) -> Seq<Countdown> {
        self.countdowns@
    }
}

impl Timer {
    pub open spec fn wf(&self) -> bool {
        forall|i: int| 0 <= i < self@.len() ==> countdown_wf(#[trigger] self@[i])
    }

    pub fn new() -> (r: Timer)
        ensures
            r@ == Seq::<Countdown>::empty(),
            r.wf(),
    {
        Timer { countdowns: Vec::new() }
    }

    /// Advances every countdown by `delta` and returns the ids that fired.
    pub fn update(&mut self, delta: i64) -> (fired: Vec<usize>)
        requires
            old(self).wf(),
            -TIME_LIMIT <= delta <= TIME_LIMIT,
            forall|i: int| 0 <= i < old(self)@.len() ==> tick_fits(#[trigger] old(self)@[i], delta as int),
        ensures
            fired@ == fired_ids(old(self)@, delta as int),
            final(self)@ == kept_after(old(self)@, delta as int),
            final(self).wf(),
    {
        let mut fired: Vec<usize> = Vec::new();
        let mut kept: Vec<Countdown> = Vec::new();
        let n = self.countdowns.len();
        let mut i: usize = 0;
        while i < n
            invariant
                n == self.countdowns@.len(),
                self@ == old(self)@,
                old(self).wf(),
                -TIME_LIMIT <= delta <= TIME_LIMIT,
                forall|i: int| 0 <= i < old(self)@.len() ==> tick_fits(#[trigger] old(self)@[i], delta as int),
                i <= n,
                fired@ == fired_ids(self@.take(i as int), delta as int),
                kept@ == kept_after(self@.take(i as int), delta as int),
                forall|k: int| 0 <= k < kept@.len() ==> countdown_wf(#[trigger] kept@[k]),
            decreases n - i,
        {
            let cd = self.countdowns[i];
            assert(countdown_wf(self@[i as int]));
            assert(tick_fits(self@[i as int], delta as int));
            assert(self@.take(i as int + 1).drop_last() =~= self@.take(i as int));
            assert(self@.take(i as int + 1).last() == self@[i as int]);
            let left = cd.time_remaining - delta;
            if left <= 0 {
                fired.push(cd.id);
            }
            let remaining = if left <= 0 && cd.is_interval { cd.start_time + left } else { left };
            if cd.is_interval || remaining > 0 {
                kept.push(Countdown { time_remaining: remaining, ..cd });
            }
            i = i + 1;
        }
        assert(self@.take(n as int) =~= self@);
        self.countdowns = kept;
        assert(self@ == kept@);
        fired
    }

    /// Whether `update(delta)` may be called: the tick is within bounds and
    /// leaves every countdown's time left within `TIME_LIMIT` either way.
    pub fn can_update(&self, delta: i64) -> (r: bool)
        ensures
            r == (-TIME_LIMIT <= delta <= TIME_LIMIT && forall|i: int|
                0 <= i < self@.len() ==> tick_fits(#[trigger] self@[i], delta as int)),
    {
        if delta < -TIME_LIMIT || delta > TIME_LIMIT {
            return false;
        }
        let mut i: usize = 0;
        while i < self.countdowns.len()
            invariant
                -TIME_LIMIT <= delta <= TIME_LIMIT,
                i <= self@.len(),
                forall|k: int| 0 <= k < i ==> tick_fits(#[trigger] self@[k], delta as int),
            decreases self@.len() - i,
        {
            let left = (self.countdowns[i].time_remaining as i128) - (delta as i128);
            if left < -(TIME_LIMIT as i128) || left > TIME_LIMIT as i128 {
                return false;
            }
            i = i + 1;
        }
        true
    }

    /// Adds a countdown of `time` units with the given id; ids need not be unique.
    pub fn add(&mut self, id: usize, time: i64, repeat: bool)
        requires
            old(self).wf(),
            -TIME_LIMIT <= time <= TIME_LIMIT,
        ensures
            final(self)@ == old(self)@.push(
                Countdown { id, start_time: time, time_remaining: time, is_interval: repeat },
            ),
            final(self).wf(),
    {
        let ghost before = self@;
        self.countdowns.push(Countdown { id, start_time: time, time_remaining: time, is_interval: repeat });
        assert forall|k: int| 0 <= k < self@.len() implies countdown_wf(#[trigger] self@[k]) by {
            if k < before.len() {
                assert(self@[k] == before[k]);
            }
        }
    }
}

} // verus!
