//! The timer state record: a small state machine over wall-clock timestamps,
//! persisted by the surrounding binary between process invocations.

use vstd::prelude::*;

verus! {

/// The default duration of the timer in seconds
pub const DEFAULT_TIMER_DURATION: i64 = 25 * 60;

/// Defines the state of the timer
#[derive(Debug, Clone, Copy, PartialEq, Eq, Structural)]
pub enum TimerState {
    Running,
    Paused,
    Finished,
}

/// Defines the timer info data structure (stored as a JSON document by the
/// surrounding binary)
#[derive(Debug, Clone, Copy, PartialEq, Eq, Structural)]
pub struct TimerInfo {
    pub state: TimerState,
    pub start_time: i64,
    pub pause_time: i64,
    pub duration: i64,
    pub silent: bool,
    pub notify: bool,
}

/// Relies on `chrono::Utc::now().timestamp()`: the current wall-clock time as
/// seconds since the Unix epoch. The result depends on the machine's clock,
/// so nothing is promised of it. `Utc::now` itself panics on a system clock
/// set before the epoch; the panic happens inside the outside call, which
/// the no-panic guarantee of the verified functions does not cover.
#[verifier::external_body]
fn now_timestamp() -> i64 {
    chrono::Utc::now().timestamp()
}

impl TimerInfo {
    /// Well-formedness: timestamps and duration are non-negative, and a
    /// paused timer was paused no earlier than it was started, so its frozen
    /// elapsed time is non-negative.
    pub open spec fn wf(self) -> bool {
        &&& 0 <= self.start_time
        &&& 0 <= self.pause_time
        &&& 0 <= self.duration
        &&& self.state == TimerState::Paused ==> self.start_time <= self.pause_time
    }

    /// Elapsed seconds as observed at clock reading `now`: frozen at
    /// `pause_time - start_time` while paused, exactly `duration` once
    /// finished, and `now - start_time` clamped to zero while running.
    pub open spec fn elapsed_spec(self, now: i64) -> int {
        match self.state {
            TimerState::Finished => self.duration as int,
            TimerState::Paused => self.pause_time - self.start_time,
            TimerState::Running => if now > self.start_time {
                now - self.start_time
            } else {
                0
            },
        }
    }

    /// Remaining seconds as observed at clock reading `now`; negative once
    /// the timer is overdue.
    pub open spec fn remaining_spec(self, now: i64) -> int {
        self.duration - self.elapsed_spec(now)
    }

    /// Return true if the timer is in `Running` state
    pub fn is_running(&self) -> (r: bool)
        ensures
            r == (self.state == TimerState::Running),
    {
        self.state == TimerState::Running
    }

    /// Elapsed seconds against an explicitly supplied clock reading.
    pub fn get_time_elapsed_at(&self, now: i64) -> (r: i64)
        requires
            self.wf(),
        ensures
            r == self.elapsed_spec(now),
            r >= 0,
    {
        match self.state {
            TimerState::Finished => self.duration,
            TimerState::Paused => self.pause_time - self.start_time,
            TimerState::Running => {
                if now > self.start_time {
                    now - self.start_time
                } else {
                    0
                }
            },
        }
    }

    /// Remaining seconds against an explicitly supplied clock reading.
    pub fn get_time_left_at(&self, now: i64) -> (r: i64)
        requires
            self.wf(),
        ensures
            r == self.remaining_spec(now),
    {
        self.duration - self.get_time_elapsed_at(now)
    }

    /// Returns the time elapsed since start in seconds, read against the
    /// current wall clock. The clock reading itself is unconstrained, so for
    /// a running timer only non-negativity is promised.
    pub fn get_time_elapsed(&self) -> (r: i64)
        requires
            self.wf(),
        ensures
            r >= 0,
            self.state == TimerState::Finished ==> r == self.duration,
            self.state == TimerState::Paused ==> r == self.pause_time - self.start_time,
    {
        let now = now_timestamp();
        self.get_time_elapsed_at(now)
    }

    /// Returns the time left in the timer in seconds, read against the
    /// current wall clock.
    pub fn get_time_left(&self) -> (r: i64)
        requires
            self.wf(),
        ensures
            r <= self.duration,
            self.state == TimerState::Finished ==> r == 0,
            self.state == TimerState::Paused ==> r == self.duration - (self.pause_time
                - self.start_time),
    {
        let now = now_timestamp();
        self.get_time_left_at(now)
    }

    /// Resume a paused timer at clock reading `now`: shift `start_time`
    /// forward by the pause gap, so the elapsed time observed at `now` is
    /// exactly the elapsed time that was frozen while paused.
    pub fn start(&mut self, now: i64)
        requires
            old(self).wf(),
            old(self).state == TimerState::Paused,
            old(self).pause_time <= now,
        ensures
            final(self).wf(),
            final(self).state == TimerState::Running,
            final(self).start_time == now - (old(self).pause_time - old(self).start_time),
            final(self).elapsed_spec(now) == old(self).elapsed_spec(now),
            final(self).pause_time == old(self).pause_time,
            final(self).duration == old(self).duration,
            final(self).silent == old(self).silent,
            final(self).notify == old(self).notify,
    {
        let gap = self.pause_time - self.start_time;
        self.start_time = now - gap;
        self.state = TimerState::Running;
    }

    /// Pause a running timer at clock reading `now`: stamp `pause_time`, so
    /// the elapsed time freezes at the value observed at `now`, whatever the
    /// clock reads later.
    pub fn pause(&mut self, now: i64)
        requires
            old(self).wf(),
            old(self).state == TimerState::Running,
            old(self).start_time <= now,
        ensures
            final(self).wf(),
            final(self).state == TimerState::Paused,
            final(self).pause_time == now,
            forall|t: i64| final(self).elapsed_spec(t) == old(self).elapsed_spec(now),
            final(self).start_time == old(self).start_time,
            final(self).duration == old(self).duration,
            final(self).silent == old(self).silent,
            final(self).notify == old(self).notify,
    {
        self.pause_time = now;
        self.state = TimerState::Paused;
    }

    /// Finish the timer: from now on the configured duration is reported as
    /// the elapsed time, regardless of the timestamp fields.
    pub fn finish(&mut self)
        requires
            old(self).wf(),
        ensures
            final(self).wf(),
            final(self).state == TimerState::Finished,
            forall|t: i64| final(self).elapsed_spec(t) == final(self).duration,
            final(self).start_time == old(self).start_time,
            final(self).pause_time == old(self).pause_time,
            final(self).duration == old(self).duration,
            final(self).silent == old(self).silent,
            final(self).notify == old(self).notify,
    {
        self.state = TimerState::Finished;
    }

    /// The zero-state record as of clock reading `now`: paused, both
    /// timestamps stamped at `now` — clamped to zero should the clock report
    /// a pre-epoch time, so that the record is well-formed for every reading
    /// — the default duration, notifications off.
    pub fn default_at(now: i64) -> (r: Self)
        ensures
            r.wf(),
            r.state == TimerState::Paused,
            r.start_time == if now >= 0 {
                now as int
            } else {
                0
            },
            r.pause_time == r.start_time,
            r.duration == DEFAULT_TIMER_DURATION,
            !r.silent,
            !r.notify,
    {
        let start_time = if now >= 0 {
            now
        } else {
            0
        };
        TimerInfo {
            state: TimerState::Paused,
            start_time,
            pause_time: start_time,
            duration: DEFAULT_TIMER_DURATION,
            silent: false,
            notify: false,
        }
    }

    /// Replace the configured duration and reset to a fresh paused timer with
    /// both timestamps stamped at `now`; notification flags are kept.
    pub fn reconfigure(&mut self, duration: i64, now: i64)
        requires
            0 <= duration,
            0 <= now,
        ensures
            final(self).wf(),
            final(self).state == TimerState::Paused,
            final(self).duration == duration,
            final(self).start_time == now,
            final(self).pause_time == now,
            forall|t: i64| final(self).elapsed_spec(t) == 0,
            final(self).silent == old(self).silent,
            final(self).notify == old(self).notify,
    {
        self.duration = duration;
        self.start_time = now;
        self.pause_time = now;
        self.state = TimerState::Paused;
    }
}

impl Default for TimerInfo {
    /// The zero-state record stamped at the current clock reading.
    /// `default_at` fixes the whole record for every reading; here the
    /// reading itself is unconstrained, so the timestamps are promised
    /// non-negative and equal but not tied to a value.
    fn default() -> (r: Self)
        ensures
            r.wf(),
            r.state == TimerState::Paused,
            r.pause_time == r.start_time,
            r.duration == DEFAULT_TIMER_DURATION,
            !r.silent,
            !r.notify,
    {
        let now = now_timestamp();
        Self::default_at(now)
    }
}

/// While paused, the elapsed time is frozen: it does not depend on the clock
/// reading, and equals `pause_time - start_time`; the remaining time is the
/// configured duration minus that.
pub proof fn lemma_paused_elapsed_frozen(r: TimerInfo, t1: i64, t2: i64)
    requires
        r.state == TimerState::Paused,
    ensures
        r.elapsed_spec(t1) == r.elapsed_spec(t2),
        r.elapsed_spec(t1) == r.pause_time - r.start_time,
        r.remaining_spec(t1) == r.duration - (r.pause_time - r.start_time),
{
}

/// A finished timer reports its configured duration as the elapsed time,
/// regardless of the timestamp fields and of the clock reading.
pub proof fn lemma_finished_elapsed(r: TimerInfo, t: i64)
    requires
        r.state == TimerState::Finished,
    ensures
        r.elapsed_spec(t) == r.duration,
        r.remaining_spec(t) == 0,
{
}

/// A running timer never reports a negative elapsed time, even when
/// `start_time` lies in the future relative to the clock reading.
pub proof fn lemma_running_elapsed_nonnegative(r: TimerInfo, t: i64)
    requires
        r.state == TimerState::Running,
    ensures
        r.elapsed_spec(t) >= 0,
        t <= r.start_time ==> r.elapsed_spec(t) == 0,
{
}

} // verus!
