//! The split-timing engine.
//!
//! A [`Stopwatch`] accumulates elapsed wall-clock time across pauses: its
//! total is the accumulated interval plus, while running, whatever the
//! clock has added since the last start. A [`StopSplit`] times one
//! sub-segment against snapshots of that total, so a completed split's
//! duration is frozen and never drifts with further clock reads.
//!
//! The clock is read only through [`crate::clock`]; what a reading returns
//! is not promised, so every contract here states what holds of the state
//! machine whatever the clock said.

use vstd::prelude::*;

use crate::clock::interval_since;
use crate::interval::Interval;
use crate::timestamp::Timestamp;

use std::time::Instant;

verus! {

/// What a stopwatch is, mathematically: whether it is running, and the
/// elapsed nanoseconds it had accumulated when it last stopped running.
pub struct StopwatchModel {
    pub running: bool,
    pub accumulated: nat,
}

/// The run-level timing state machine: an optional mark of the instant it
/// last started running, plus the interval accumulated before that mark.
pub struct Stopwatch {
    pub start_time: Option<Instant>,
    pub elapsed: Interval,
}

impl View for Stopwatch {
    type V = StopwatchModel;

    open spec fn view(&self) -> StopwatchModel {
        StopwatchModel { running: self.start_time is Some, accumulated: self.elapsed@ }
    }
}

/// How one `pause` call relates the state before it, the state after it,
/// and the returned total (all in nanoseconds): the stopwatch ends idle
/// holding exactly the returned total; pausing an idle stopwatch changes
/// nothing and returns what it holds; and the total never shrinks.
pub open spec fn pause_transition(pre: StopwatchModel, post: StopwatchModel, total: nat) -> bool {
    &&& post.running == false
    &&& post.accumulated == total
    &&& total >= pre.accumulated
    &&& (!pre.running ==> post == pre && total == pre.accumulated)
}

/// Pausing is idempotent: a second `pause` straight after a first returns
/// the same total and leaves the same state, whatever the clock did.
pub proof fn lemma_pause_idempotent(
    s0: StopwatchModel,
    s1: StopwatchModel,
    s2: StopwatchModel,
    total1: nat,
    total2: nat,
)
    requires
        pause_transition(s0, s1, total1),
        pause_transition(s1, s2, total2),
    ensures
        s2 == s1,
        total2 == total1,
{
}

impl Stopwatch {
    /// Well-formed: the accumulated interval is well-formed.
    pub open spec fn wf(&self) -> bool {
        self.elapsed.wf()
    }

    /// A stopwatch that is already running with nothing accumulated.
    pub fn start_new() -> (r: Stopwatch)
        ensures
            r.wf(),
            r@.running,
            r@.accumulated == 0,
    {
        Stopwatch { start_time: Some(Instant::now()), elapsed: Interval::zero() }
    }

    /// An idle stopwatch with nothing accumulated.
    pub fn new() -> (r: Stopwatch)
        ensures
            r.wf(),
            !r@.running,
            r@.accumulated == 0,
    {
        Stopwatch { start_time: None, elapsed: Interval::zero() }
    }

    /// True exactly while the stopwatch is running.
    pub fn is_running(&self) -> (r: bool)
        ensures
            r == self@.running,
    {
        self.start_time.is_some()
    }

    /// The running total: the accumulated interval plus, while running,
    /// what the clock has added since the last start. Reading it changes
    /// nothing; idle, it is exactly the accumulated interval.
    pub fn time_elapsed(&self) -> (r: Interval)
        requires
            self.wf(),
        ensures
            r.wf(),
            r@ >= self@.accumulated,
            !self@.running ==> r@ == self@.accumulated,
    {
        match &self.start_time {
            None => self.elapsed,
            Some(mark) => self.elapsed.saturating_add(interval_since(mark)),
        }
    }

    /// The running total as a timestamp.
    pub fn timestamp(&self) -> (r: Timestamp)
        requires
            self.wf(),
        ensures
            r.wf(),
            r.interval_view() >= self@.accumulated,
            !self@.running ==> r.interval_view() == self@.accumulated,
    {
        let t = self.time_elapsed();
        Timestamp::from_interval(&t)
    }

    /// Start running; a stopwatch that is already running is unchanged.
    pub fn start(&mut self)
        requires
            old(self).wf(),
        ensures
            final(self).wf(),
            final(self)@.running,
            final(self)@.accumulated == old(self)@.accumulated,
            old(self)@.running ==> *final(self) == *old(self),
    {
        if self.start_time.is_none() {
            self.start_time = Some(Instant::now());
        }
    }

    /// Stop running, folding the live part of the total into the
    /// accumulated interval, and return the total; see
    /// [`pause_transition`] for the exact relation.
    pub fn pause(&mut self) -> (total: Interval)
        requires
            old(self).wf(),
        ensures
            final(self).wf(),
            total.wf(),
            pause_transition(old(self)@, final(self)@, total@),
    {
        if self.start_time.is_some() {
            let total = self.time_elapsed();
            self.start_time = None;
            self.elapsed = total;
            total
        } else {
            self.elapsed
        }
    }

    /// One-keystroke control: pause when running (returning false), start
    /// when idle (returning true).
    pub fn toggle(&mut self) -> (started: bool)
        requires
            old(self).wf(),
        ensures
            final(self).wf(),
            started == !old(self)@.running,
            final(self)@.running == !old(self)@.running,
            !old(self)@.running ==> final(self)@.accumulated == old(self)@.accumulated,
            old(self)@.running ==> pause_transition(
                old(self)@,
                final(self)@,
                final(self)@.accumulated,
            ),
    {
        if self.is_running() {
            let _ = self.pause();
            false
        } else {
            self.start();
            true
        }
    }

    /// Back to idle with nothing accumulated; any in-progress interval is
    /// discarded.
    pub fn clear(&mut self)
        ensures
            final(self).wf(),
            !final(self)@.running,
            final(self)@.accumulated == 0,
    {
        self.start_time = None;
        self.elapsed = Interval::zero();
    }

    /// Read the running total and, while running, fold it into the
    /// accumulated interval and restart the live mark at the clock's
    /// current reading; idle, nothing changes.
    pub fn update_start_time(&mut self) -> (total: Interval)
        requires
            old(self).wf(),
        ensures
            final(self).wf(),
            total.wf(),
            total@ >= old(self)@.accumulated,
            final(self)@.running == old(self)@.running,
            !old(self)@.running ==> *final(self) == *old(self) && total@ == old(self)@.accumulated,
            old(self)@.running ==> final(self)@.accumulated == total@,
    {
        let total = self.time_elapsed();
        if self.start_time.is_some() {
            self.start_time = Some(Instant::now());
            self.elapsed = total;
        }
        total
    }
}

// ---------------------------------------------------------------------------
// Split timer
// ---------------------------------------------------------------------------

/// What a split timer is, mathematically: the stopwatch total (nanoseconds)
/// at which the split began, if it has begun; the split's own elapsed
/// nanoseconds; and whether it is completed.
pub struct StopSplitModel {
    pub split_start: Option<nat>,
    pub elapsed: nat,
    pub completed: bool,
}

/// Per-segment timing state, driven by snapshots of the stopwatch's
/// running total; one instance exists per split slot.
pub struct StopSplit {
    pub split_start: Option<Interval>,
    pub elapsed: Interval,
    pub completed: bool,
}

impl View for StopSplit {
    type V = StopSplitModel;

    open spec fn view(&self) -> StopSplitModel {
        StopSplitModel {
            split_start: match self.split_start {
                Some(iv) => Some(iv@),
                None => None,
            },
            elapsed: self.elapsed@,
            completed: self.completed,
        }
    }
}

/// Starting a split seeds it with the reference total; a split that has
/// already started is unchanged.
pub open spec fn split_start_transition(s: StopSplitModel, reference: nat) -> StopSplitModel {
    if s.split_start is None {
        StopSplitModel { split_start: Some(reference), elapsed: 0, completed: false }
    } else {
        s
    }
}

/// Stopping a started, not yet completed split freezes its elapsed time at
/// the distance from its start to the reference total; any other split is
/// unchanged.
pub open spec fn split_stop_transition(s: StopSplitModel, reference: nat) -> StopSplitModel {
    if s.split_start is Some && !s.completed {
        StopSplitModel {
            split_start: s.split_start,
            elapsed: (reference - s.split_start->Some_0) as nat,
            completed: true,
        }
    } else {
        s
    }
}

/// Resuming un-freezes a started split for live display; an unstarted
/// split is unchanged.
pub open spec fn split_resume_transition(s: StopSplitModel) -> StopSplitModel {
    if s.split_start is Some {
        StopSplitModel { split_start: s.split_start, elapsed: s.elapsed, completed: false }
    } else {
        s
    }
}

/// The single-control cycle: start an unstarted split, resume a completed
/// one, stop a running one.
pub open spec fn split_toggle_transition(s: StopSplitModel, reference: nat) -> StopSplitModel {
    if s.split_start is None {
        split_start_transition(s, reference)
    } else if s.completed {
        split_resume_transition(s)
    } else {
        split_stop_transition(s, reference)
    }
}

/// What a split reports against a reference total: zero before it starts,
/// its frozen elapsed time once completed, and the live distance from its
/// start otherwise.
pub open spec fn split_elapsed_at(s: StopSplitModel, reference: nat) -> nat {
    if s.split_start is None {
        0
    } else if s.completed {
        s.elapsed
    } else {
        (reference - s.split_start->Some_0) as nat
    }
}

/// Starting a fresh split at zero and stopping it at total `t` freezes its
/// elapsed time at exactly `t`: every later query reports `t`, whatever
/// reference it is given, and further stops change nothing.
pub proof fn lemma_stop_freezes_split(s0: StopSplitModel, t: nat, any_reference: nat, again: nat)
    requires
        s0.split_start is None,
    ensures
        split_elapsed_at(split_stop_transition(split_start_transition(s0, 0), t), any_reference)
            == t,
        split_stop_transition(split_stop_transition(split_start_transition(s0, 0), t), again)
            == split_stop_transition(split_start_transition(s0, 0), t),
{
}

/// A completed split is frozen: stopping it again changes nothing, and its
/// reported time ignores the reference.
pub proof fn lemma_completed_split_frozen(s: StopSplitModel, reference: nat, query: nat)
    requires
        s.split_start is Some,
        s.completed,
    ensures
        split_stop_transition(s, reference) == s,
        split_elapsed_at(s, query) == s.elapsed,
{
}

impl StopSplit {
    /// Well-formed: the stored intervals are well-formed.
    pub open spec fn wf(&self) -> bool {
        &&& self.elapsed.wf()
        &&& (self.split_start is Some ==> self.split_start->Some_0.wf())
    }

    /// An unstarted split.
    pub fn new() -> (r: StopSplit)
        ensures
            r.wf(),
            r@.split_start is None,
            r@.elapsed == 0,
            !r@.completed,
    {
        StopSplit { split_start: None, elapsed: Interval::zero(), completed: false }
    }

    /// A split started at the stopwatch's current total.
    pub fn new_started(sw: &Stopwatch) -> (r: StopSplit)
        requires
            sw.wf(),
        ensures
            r.wf(),
            r@.split_start is Some,
            r@.split_start->Some_0 >= sw@.accumulated,
            !sw@.running ==> r@.split_start->Some_0 == sw@.accumulated,
            r@.elapsed == 0,
            !r@.completed,
    {
        let split_start = sw.time_elapsed();
        StopSplit { split_start: Some(split_start), elapsed: Interval::zero(), completed: false }
    }

    /// True until the split is started.
    pub fn not_started(&self) -> (r: bool)
        ensures
            r == (self@.split_start is None),
    {
        self.split_start.is_none()
    }

    /// True exactly when the split has started and completed.
    pub fn is_done(&self) -> (r: bool)
        ensures
            r == (self@.split_start is Some && self@.completed),
    {
        !self.not_started() && self.completed
    }

    /// The split's time against a reference total; see
    /// [`split_elapsed_at`]. A started, live split must be queried with a
    /// reference no earlier than its start.
    pub fn time_elapsed(&self, reference: Interval) -> (r: Interval)
        requires
            self.wf(),
            reference.wf(),
            self@.split_start is Some && !self@.completed ==> reference@ >= self@.split_start->Some_0,
        ensures
            r.wf(),
            r@ == split_elapsed_at(self@, reference@),
    {
        match &self.split_start {
            None => Interval::zero(),
            Some(start) => {
                if self.completed {
                    self.elapsed
                } else {
                    reference.sub(*start)
                }
            },
        }
    }

    /// Start the split at the reference total; see
    /// [`split_start_transition`].
    pub fn start(&mut self, reference: Interval)
        requires
            old(self).wf(),
            reference.wf(),
        ensures
            final(self).wf(),
            final(self)@ == split_start_transition(old(self)@, reference@),
    {
        if self.split_start.is_none() {
            self.elapsed = Interval::zero();
            self.completed = false;
            self.split_start = Some(reference);
        }
    }

    /// Start the split at total zero: the first split of a run begins
    /// exactly when the stopwatch does.
    pub fn start_at_zero(&mut self)
        requires
            old(self).wf(),
        ensures
            final(self).wf(),
            final(self)@ == split_start_transition(old(self)@, 0),
    {
        self.start(Interval::zero());
    }

    /// Freeze the split at the reference total; see
    /// [`split_stop_transition`]. A started, live split must be stopped at
    /// a reference no earlier than its start.
    pub fn stop(&mut self, reference: Interval)
        requires
            old(self).wf(),
            reference.wf(),
            old(self)@.split_start is Some && !old(self)@.completed ==> reference@ >= old(
                self,
            )@.split_start->Some_0,
        ensures
            final(self).wf(),
            final(self)@ == split_stop_transition(old(self)@, reference@),
    {
        match &self.split_start {
            None => {},
            Some(start) => {
                if !self.completed {
                    self.elapsed = reference.sub(*start);
                    self.completed = true;
                }
            },
        }
    }

    /// Un-freeze a started split for live re-display; see
    /// [`split_resume_transition`].
    pub fn resume(&mut self)
        requires
            old(self).wf(),
        ensures
            final(self).wf(),
            final(self)@ == split_resume_transition(old(self)@),
    {
        if self.split_start.is_some() {
            self.completed = false;
        }
    }

    /// The single-control cycle; see [`split_toggle_transition`]. A
    /// started, live split must be toggled at a reference no earlier than
    /// its start.
    pub fn toggle_split(&mut self, reference: Interval)
        requires
            old(self).wf(),
            reference.wf(),
            old(self)@.split_start is Some && !old(self)@.completed ==> reference@ >= old(
                self,
            )@.split_start->Some_0,
        ensures
            final(self).wf(),
            final(self)@ == split_toggle_transition(old(self)@, reference@),
    {
        if self.not_started() {
            self.start(reference);
        } else if self.completed {
            self.resume();
        } else {
            self.stop(reference);
        }
    }

    /// Back to the unstarted state.
    pub fn clear(&mut self)
        ensures
            final(self).wf(),
            final(self)@.split_start is None,
            final(self)@.elapsed == 0,
            !final(self)@.completed,
    {
        self.split_start = None;
        self.elapsed = Interval::zero();
        self.completed = false;
    }
}

} // verus!
