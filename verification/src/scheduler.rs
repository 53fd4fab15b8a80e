//! When a data source is written: never while a write is in flight, never
//! sooner than a cooldown after the last write ended, and only when what
//! would be written differs from what was last handed to the writer.

use vstd::prelude::*;

verus! {

/// The state of one data source's writer. `writing` is the state in which a
/// write is in flight; otherwise the writer is idle.
#[derive(Clone, Copy, Debug)]
pub struct Scheduler {
    /// The time, in milliseconds, that must have passed since
    /// `flushed_at` before a write starts.
    pub cooldown: u64,
    /// When the last write ended, whatever its outcome; before the first
    /// one, when the scheduler was made.
    pub flushed_at: u64,
    /// Whether a write is in flight.
    pub writing: bool,
}

/// How a write ended. Either way the writer is idle again and the cooldown
/// runs from the moment the end was seen.
#[derive(Clone, Copy, Debug, PartialEq, Eq)]
pub enum WriteOutcome {
    Done,
    Failed,
}

/// What one poll observes.
pub struct Tick {
    /// The current time in milliseconds.
    pub now: u64,
    /// Whether the write in flight, if there is one, has ended.
    pub finished: bool,
    /// Whether the data differs from what was last handed to the writer.
    pub dirty: bool,
}

/// The time that has passed at `now` since `since`; none where the clock
/// reads earlier than `since`.
pub open spec fn elapsed(since: u64, now: u64) -> int {
    if now >= since {
        now - since
    } else {
        0
    }
}

impl Scheduler {
    /// Whether a write may start at `now`, were the data dirty.
    pub open spec fn due(self, now: u64) -> bool {
        !self.writing && elapsed(self.flushed_at, now) > self.cooldown
    }

    /// Whether the poll `tick` starts a write.
    pub open spec fn starts(self, tick: Tick) -> bool {
        self.due(tick.now) && tick.dirty
    }

    /// Whether the poll `tick` sees the write in flight end.
    pub open spec fn completes(self, tick: Tick) -> bool {
        self.writing && tick.finished
    }

    /// The state after the poll `tick`. A poll that sees a write end does
    /// not start the next one.
    pub open spec fn after(self, tick: Tick) -> Scheduler {
        if self.completes(tick) {
            Scheduler { cooldown: self.cooldown, flushed_at: tick.now, writing: false }
        } else if self.starts(tick) {
            Scheduler { cooldown: self.cooldown, flushed_at: self.flushed_at, writing: true }
        } else {
            self
        }
    }

    /// The state after the polls `ticks`, in order.
    pub open spec fn after_all(self, ticks: Seq<Tick>) -> Scheduler
        decreases ticks.len(),
    {
        if ticks.len() == 0 {
            self
        } else {
            self.after_all(ticks.drop_last()).after(ticks.last())
        }
    }

    /// An idle scheduler whose cooldown runs from `now`.
    pub fn new(cooldown: u64, now: u64) -> (scheduler: Scheduler)
        ensures
            scheduler == (Scheduler { cooldown, flushed_at: now, writing: false }),
    {
        Scheduler { cooldown, flushed_at: now, writing: false }
    }

    /// Whether the cooldown has passed at `now`.
    pub fn can_flush(&self, now: u64) -> (can: bool)
        ensures
            can == (elapsed(self.flushed_at, now) > self.cooldown),
    {
        now >= self.flushed_at && now - self.flushed_at > self.cooldown
    }

    /// The first half of a poll: notes the end of the write in flight.
    /// Returns whether a write was in flight when the poll began; where it
    /// returns `false` the state is untouched and the caller goes on to
    /// `can_flush` and, where the data is dirty, `begin`.
    pub fn settle(&mut self, now: u64, finished: bool) -> (was_writing: bool)
        ensures
            was_writing == old(self).writing,
            *final(self) == (if old(self).writing && finished {
                Scheduler { cooldown: old(self).cooldown, flushed_at: now, writing: false }
            } else {
                *old(self)
            }),
    {
        let was_writing = self.writing;
        if was_writing && finished {
            self.flushed_at = now;
            self.writing = false;
        }
        was_writing
    }

    /// Notes that a write has been handed out.
    pub fn begin(&mut self)
        ensures
            *final(self) == (Scheduler {
                cooldown: old(self).cooldown,
                flushed_at: old(self).flushed_at,
                writing: true,
            }),
    {
        self.writing = true;
    }

    /// One whole poll: the state moves to `after(tick)`, and the result
    /// says whether a write is to be started now.
    pub fn poll(&mut self, now: u64, finished: bool, dirty: bool) -> (start: bool)
        ensures
            *final(self) == old(self).after(Tick { now, finished, dirty }),
            start == (!old(self).completes(Tick { now, finished, dirty }) && old(self).starts(
                Tick { now, finished, dirty },
            )),
    {
        if self.settle(now, finished) {
            false
        } else if dirty && self.can_flush(now) {
            self.begin();
            true
        } else {
            false
        }
    }
}

/// Whether the clock never runs backwards over `ticks`.
pub open spec fn clock_monotonic(ticks: Seq<Tick>) -> bool {
    forall|i: int, j: int| 0 <= i <= j < ticks.len() ==> ticks[i].now <= ticks[j].now
}

/// A poll that finds the data unchanged starts no write, however long ago
/// the last write ended.
pub proof fn lemma_clean_data_is_not_written(scheduler: Scheduler, tick: Tick)
    requires
        !tick.dirty,
    ensures
        !scheduler.starts(tick),
        scheduler.after(tick).writing ==> scheduler.writing,
{
}

/// While a write is in flight no other is started.
pub proof fn lemma_single_write_in_flight(scheduler: Scheduler, tick: Tick)
    requires
        scheduler.writing,
    ensures
        !scheduler.starts(tick),
{
}

/// What holds of the state after `upto` polls, where poll `first` saw a
/// write end: the cooldown baseline is the time of that poll or later than
/// a cooldown after it, and a write is in flight only where the clock has
/// passed the cooldown.
proof fn lemma_after_completion(scheduler: Scheduler, ticks: Seq<Tick>, first: int, upto: int)
    requires
        clock_monotonic(ticks),
        0 <= first < upto <= ticks.len(),
        scheduler.after_all(ticks.take(first)).completes(ticks[first]),
    ensures
        ({
            let state = scheduler.after_all(ticks.take(upto));
            &&& state.cooldown == scheduler.after_all(ticks.take(first)).cooldown
            &&& (state.flushed_at == ticks[first].now || state.flushed_at > ticks[first].now
                + state.cooldown)
            &&& (state.writing ==> ticks[upto - 1].now > ticks[first].now + state.cooldown)
        }),
    decreases upto,
{
    assert(ticks.take(upto).drop_last() == ticks.take(upto - 1));
    assert(ticks.take(upto).last() == ticks[upto - 1]);
    if upto > first + 1 {
        lemma_after_completion(scheduler, ticks, first, upto - 1);
    }
}

/// Debounce: two writes never end within one cooldown of each other. Where
/// the polls `first` and `second` of a run each see a write end, more than
/// the cooldown lies between them, however many polls and changes of the
/// data there were.
pub proof fn lemma_debounce(scheduler: Scheduler, ticks: Seq<Tick>, first: int, second: int)
    requires
        clock_monotonic(ticks),
        0 <= first < second < ticks.len(),
        scheduler.after_all(ticks.take(first)).completes(ticks[first]),
        scheduler.after_all(ticks.take(second)).completes(ticks[second]),
    ensures
        ticks[second].now - ticks[first].now > scheduler.cooldown,
{
    lemma_after_completion(scheduler, ticks, first, second);
    lemma_cooldown_is_kept(scheduler, ticks.take(first));
}

/// No poll changes the cooldown.
pub proof fn lemma_cooldown_is_kept(scheduler: Scheduler, ticks: Seq<Tick>)
    ensures
        scheduler.after_all(ticks).cooldown == scheduler.cooldown,
    decreases ticks.len(),
{
    if ticks.len() > 0 {
        lemma_cooldown_is_kept(scheduler, ticks.drop_last());
    }
}

} // verus!
