use vstd::prelude::*;
use crate::clock::{Stamp, STAMP_MAX};
use crate::status::{RunStatus, ScheduleDay};

verus! {

/// Largest magnitude, in seconds, that an estimate or elapsed time may have.
pub const DUR_MAX: i64 = 4611686018427387904;

/// Keeps a duration inside the supported range.
pub open spec fn clamp_dur(x: int) -> int {
    if x > DUR_MAX {
        DUR_MAX as int
    } else if x < -DUR_MAX {
        -DUR_MAX
    } else {
        x
    }
}

/// Time that passed from `from` to `to`; never negative.
pub open spec fn span(from: int, to: int) -> int {
    if to >= from {
        to - from
    } else {
        0
    }
}

/// State transition event for tracking task history.
#[derive(Debug, Clone, Copy)]
pub struct StateEvent {
    /// When the transition occurred.
    pub timestamp: Stamp,
    /// Previous status (none for the initial event).
    pub from_status: Option<RunStatus>,
    /// New status after transition.
    pub to_status: RunStatus,
}

impl StateEvent {
    /// An event at `now`.
    pub fn new(from_status: Option<RunStatus>, to_status: RunStatus, now: Stamp) -> (r: Self)
        ensures
            r == (StateEvent { timestamp: now, from_status, to_status }),
    {
        StateEvent { timestamp: now, from_status, to_status }
    }
}

/// A history is in range and in chronological order.
pub open spec fn history_ok(h: Seq<StateEvent>) -> bool {
    &&& forall|i: int| 0 <= i < h.len() ==> (#[trigger] h[i]).timestamp.wf()
    &&& forall|i: int, j: int| 0 <= i <= j < h.len() ==> h[i].timestamp.secs <= h[j].timestamp.secs
}

/// The timestamp given to an event recorded at `now`: never earlier than the last one.
pub open spec fn next_stamp(h: Seq<StateEvent>, now: Stamp) -> Stamp {
    if h.len() > 0 && now.secs < h.last().timestamp.secs {
        Stamp { secs: h.last().timestamp.secs, offset: now.offset }
    } else {
        now
    }
}

/// The history with one more event recorded at `now`.
pub open spec fn pushed(h: Seq<StateEvent>, from: Option<RunStatus>, to: RunStatus, now: Stamp) -> Seq<StateEvent> {
    h.push(StateEvent { timestamp: next_stamp(h, now), from_status: from, to_status: to })
}

/// Time tracking information for a task or subtask; durations are in seconds.
#[derive(Debug, Clone, Copy)]
pub struct TimeTracking {
    /// Estimated duration for completion.
    pub estimate: i64,
    /// Total elapsed time accumulated.
    pub elapsed: i64,
    /// When the timer was last started or re-baselined (seconds since the epoch).
    pub started_at: Option<i64>,
}

impl TimeTracking {
    /// Durations and the running-since mark are in range.
    pub open spec fn wf(self) -> bool {
        &&& -DUR_MAX <= self.estimate <= DUR_MAX
        &&& -DUR_MAX <= self.elapsed <= DUR_MAX
        &&& self.started_at is Some ==> -STAMP_MAX <= self.started_at->0 <= STAMP_MAX
    }

    /// The tracker after folding the running span up to `now` into elapsed.
    pub open spec fn folded(self, now: int) -> int {
        match self.started_at {
            Some(s) => clamp_dur(self.elapsed + span(s as int, now)),
            None => self.elapsed as int,
        }
    }

    /// The tracker after pausing at `now`.
    pub open spec fn spec_pause(self, now: int) -> TimeTracking {
        TimeTracking { elapsed: self.folded(now) as i64, started_at: None, ..self }
    }

    /// The tracker after a tick at `now`: elapsed folded in and the timer re-baselined.
    pub open spec fn spec_tick(self, now: int) -> TimeTracking {
        match self.started_at {
            Some(_) => TimeTracking { elapsed: self.folded(now) as i64, started_at: Some(now as i64), ..self },
            None => self,
        }
    }

    /// A stopped tracker with nothing elapsed.
    pub fn new(estimate: i64) -> (r: Self)
        ensures
            r == (TimeTracking { estimate, elapsed: 0, started_at: None }),
    {
        TimeTracking { estimate, elapsed: 0, started_at: None }
    }

    /// Start the timer.
    pub fn start(&mut self, now: Stamp)
        ensures
            *final(self) == (TimeTracking { started_at: Some(now.secs), ..*old(self) }),
    {
        self.started_at = Some(now.secs);
    }

    fn folded_exec(&self, now: Stamp) -> (r: i64)
        requires
            self.wf(),
            now.wf(),
        ensures
            r == self.folded(now.secs as int),
    {
        match self.started_at {
            Some(s) => {
                let d: i64 = if now.secs >= s { now.secs - s } else { 0 };
                let t: i64 = self.elapsed + d;
                if t > DUR_MAX { DUR_MAX } else { t }
            },
            None => self.elapsed,
        }
    }

    /// Pause the timer and accumulate elapsed time.
    pub fn pause(&mut self, now: Stamp)
        requires
            old(self).wf(),
            now.wf(),
        ensures
            *final(self) == old(self).spec_pause(now.secs as int),
            final(self).wf(),
    {
        self.elapsed = self.folded_exec(now);
        self.started_at = None;
    }

    /// Fold the running span into elapsed and re-baseline the timer at `now`.
    pub fn tick(&mut self, now: Stamp)
        requires
            old(self).wf(),
            now.wf(),
        ensures
            *final(self) == old(self).spec_tick(now.secs as int),
            final(self).wf(),
    {
        if self.started_at.is_some() {
            self.elapsed = self.folded_exec(now);
            self.started_at = Some(now.secs);
        }
    }

    /// Whether elapsed time has reached or exceeded the estimate.
    pub fn is_over_estimate(&self) -> (r: bool)
        ensures
            r == (self.elapsed >= self.estimate),
    {
        self.elapsed >= self.estimate
    }
}


/// Where the span of event `i` ends: at the next event, or at `end` for the
/// last one.
pub open spec fn end_of(h: Seq<StateEvent>, i: int, end: int) -> int {
    if i + 1 < h.len() {
        h[i + 1].timestamp.secs as int
    } else {
        end
    }
}

/// The length of the span of event `i`.
pub open spec fn span_of(h: Seq<StateEvent>, i: int, end: int) -> int {
    end_of(h, i, end) - h[i].timestamp.secs
}

/// Time spent with status `st` over the first `n` events.
pub open spec fn state_time(h: Seq<StateEvent>, n: nat, end: int, st: RunStatus) -> int
    decreases n,
{
    if n == 0 {
        0
    } else {
        state_time(h, (n - 1) as nat, end, st) + if h[n - 1].to_status == st {
            span_of(h, n - 1, end)
        } else {
            0
        }
    }
}

/// Time covered by the spans of the first `n` events, whatever their status.
pub open spec fn covered_time(h: Seq<StateEvent>, n: nat, end: int) -> int
    decreases n,
{
    if n == 0 {
        0
    } else {
        covered_time(h, (n - 1) as nat, end) + span_of(h, n - 1, end)
    }
}

/// Time spent in the statuses that no bucket counts (Done, Postponed).
pub open spec fn uncounted_time(h: Seq<StateEvent>, n: nat, end: int) -> int {
    state_time(h, n, end, RunStatus::Done) + state_time(h, n, end, RunStatus::Postponed)
}

/// Every span is covered by exactly one status, and the spans of an ordered
/// history add up to the time from the first event to the end of the last span.
pub proof fn lemma_spans_partition(h: Seq<StateEvent>, n: nat, end: int)
    requires
        history_ok(h),
        n <= h.len(),
    ensures
        state_time(h, n, end, RunStatus::Running) + state_time(h, n, end, RunStatus::Paused)
            + state_time(h, n, end, RunStatus::Idle) + uncounted_time(h, n, end)
            == covered_time(h, n, end),
        n > 0 ==> covered_time(h, n, end) == end_of(h, n - 1, end) - h[0].timestamp.secs,
        n < h.len() ==> 0 <= state_time(h, n, end, RunStatus::Running) <= covered_time(h, n, end),
        n < h.len() ==> 0 <= state_time(h, n, end, RunStatus::Paused) <= covered_time(h, n, end),
        n < h.len() ==> 0 <= state_time(h, n, end, RunStatus::Idle) <= covered_time(h, n, end),
        n < h.len() ==> 0 <= uncounted_time(h, n, end),
        n < h.len() ==> covered_time(h, n, end) <= 2 * STAMP_MAX,
        n == h.len() && -STAMP_MAX <= end <= STAMP_MAX ==> {
            &&& -2 * STAMP_MAX <= state_time(h, n, end, RunStatus::Running) <= 4 * STAMP_MAX
            &&& -2 * STAMP_MAX <= state_time(h, n, end, RunStatus::Paused) <= 4 * STAMP_MAX
            &&& -2 * STAMP_MAX <= state_time(h, n, end, RunStatus::Idle) <= 4 * STAMP_MAX
        },
    decreases n,
{
    if n > 0 {
        lemma_spans_partition(h, (n - 1) as nat, end);
        assert(h[0].timestamp.wf());
        assert(h[n - 1].timestamp.wf());
        assert(h[0].timestamp.secs <= h[n - 1].timestamp.secs);
        if n < h.len() {
            assert(h[n as int].timestamp.wf());
            assert(h[n - 1].timestamp.secs <= h[n as int].timestamp.secs);
            assert(span_of(h, n - 1, end) >= 0);
        }
    }
}

/// Time spent in each status according to a history.
pub open spec fn time_split(h: Seq<StateEvent>, end: int) -> (int, int, int) {
    (
        state_time(h, h.len(), end, RunStatus::Running),
        state_time(h, h.len(), end, RunStatus::Paused),
        state_time(h, h.len(), end, RunStatus::Idle),
    )
}

/// Number of events that match a status pair, over the first `n` events.
pub open spec fn count_interruptions(h: Seq<StateEvent>, n: nat) -> nat
    decreases n,
{
    if n == 0 {
        0
    } else {
        count_interruptions(h, (n - 1) as nat) + if h[n - 1].from_status == Some(RunStatus::Running)
            && h[n - 1].to_status == RunStatus::Paused {
            1nat
        } else {
            0nat
        }
    }
}

/// Number of events that enter Running, over the first `n` events.
pub open spec fn count_sessions(h: Seq<StateEvent>, n: nat) -> nat
    decreases n,
{
    if n == 0 {
        0
    } else {
        count_sessions(h, (n - 1) as nat) + if h[n - 1].to_status == RunStatus::Running {
            1nat
        } else {
            0nat
        }
    }
}

/// Closed running intervals and the start of an open one, over the first `n` events.
pub open spec fn run_scan(h: Seq<StateEvent>, n: nat) -> (int, Option<int>)
    decreases n,
{
    if n == 0 {
        (0, None)
    } else {
        let prev = run_scan(h, (n - 1) as nat);
        let e = h[n - 1];
        if e.to_status == RunStatus::Running {
            (prev.0, Some(e.timestamp.secs as int))
        } else {
            match prev.1 {
                Some(st) => (prev.0 + e.timestamp.secs - st, None),
                None => prev,
            }
        }
    }
}

/// Relies on uuid's `Uuid::new_v4` (as a 128-bit number): a random identifier;
/// nothing is promised of its value.
#[verifier::external_body]
fn fresh_id() -> u128 {
    uuid::Uuid::new_v4().as_u128()
}


/// A task or subtask item.
#[derive(Debug)]
pub struct Item {
    /// Identifier for in-memory references; regenerated on each load.
    pub id: u128,
    /// Task title.
    pub title: String,
    /// Multi-line notes.
    pub notes: String,
    /// Time tracking info.
    pub track: TimeTracking,
    /// Current status.
    pub status: RunStatus,
    /// Schedule bucket.
    pub schedule: ScheduleDay,
    /// Whether subtasks are shown expanded.
    pub expanded: bool,
    /// Subtasks (one level deep).
    pub subtasks: Vec<Item>,
    /// Tags for categorization.
    pub tags: Vec<String>,
    /// When the task was created.
    pub created_at: Stamp,
    /// When the task was completed, if it was.
    pub completed_at: Option<Stamp>,
    /// History of state transitions.
    pub state_history: Vec<StateEvent>,
}

/// The fields that status transitions never touch are equal.
pub open spec fn same_record(a: Item, b: Item) -> bool {
    &&& a.id == b.id
    &&& a.title == b.title
    &&& a.notes == b.notes
    &&& a.schedule == b.schedule
    &&& a.expanded == b.expanded
    &&& a.tags == b.tags
    &&& a.created_at == b.created_at
}

impl Item {
    /// The item's own fields are in range and its history is ordered.
    pub open spec fn own_ok(self) -> bool {
        &&& self.created_at.wf()
        &&& self.completed_at is Some ==> self.completed_at->0.wf()
        &&& self.track.wf()
        &&& history_ok(self.state_history@)
    }

    /// A subtask: well-formed and without subtasks of its own.
    pub open spec fn leaf_ok(self) -> bool {
        self.own_ok() && self.subtasks@.len() == 0
    }

    /// Well-formed: its own fields, and each subtask a leaf.
    pub open spec fn wf(self) -> bool {
        &&& self.own_ok()
        &&& forall|i: int| 0 <= i < self.subtasks@.len() ==> (#[trigger] self.subtasks@[i]).leaf_ok()
    }

    /// Where the span of the last event ends: completion, or else `now`.
    pub open spec fn spec_end(self, now: Stamp) -> int {
        match self.completed_at {
            Some(c) => c.secs as int,
            None => now.secs as int,
        }
    }

    /// A new idle item created at `now`, with its first history event.
    pub fn new(title: String, estimate: i64, schedule: ScheduleDay, now: Stamp) -> (r: Self)
        ensures
            r.title == title,
            r.notes@ == Seq::<char>::empty(),
            r.track == (TimeTracking { estimate, elapsed: 0, started_at: None }),
            r.status == RunStatus::Idle,
            r.schedule == schedule,
            r.expanded,
            r.subtasks@.len() == 0,
            r.tags@.len() == 0,
            r.created_at == now,
            r.completed_at is None,
            r.state_history@ == seq![(StateEvent { timestamp: now, from_status: None, to_status: RunStatus::Idle })],
            now.wf() && -DUR_MAX <= estimate <= DUR_MAX ==> r.wf(),
    {
        let mut history: Vec<StateEvent> = Vec::new();
        history.push(StateEvent::new(None, RunStatus::Idle, now));
        Item {
            id: fresh_id(),
            title,
            notes: String::new(),
            track: TimeTracking::new(estimate),
            status: RunStatus::Idle,
            schedule,
            expanded: true,
            subtasks: Vec::new(),
            tags: Vec::new(),
            created_at: now,
            completed_at: None,
            state_history: history,
        }
    }

    /// Append an event, never earlier than the last recorded one.
    fn record(&mut self, from: Option<RunStatus>, to: RunStatus, now: Stamp)
        requires
            old(self).own_ok(),
            now.wf(),
        ensures
            final(self).state_history@ == pushed(old(self).state_history@, from, to, now),
            final(self).own_ok(),
            *final(self) == (Item { state_history: final(self).state_history, ..*old(self) }),
    {
        let n = self.state_history.len();
        let stamp = if n > 0 && now.secs < self.state_history[n - 1].timestamp.secs {
            Stamp { secs: self.state_history[n - 1].timestamp.secs, offset: now.offset }
        } else {
            now
        };
        self.state_history.push(StateEvent::new(from, to, stamp));
        proof {
            let h = final(self).state_history@;
            let h0 = old(self).state_history@;
            assert forall|i: int, j: int| 0 <= i <= j < h.len() implies h[i].timestamp.secs <= h[j].timestamp.secs by {
                if j == h.len() - 1 && i < j {
                    assert(h[i] == h0[i]);
                    assert(h0[i].timestamp.secs <= h0[h0.len() - 1].timestamp.secs);
                }
            }
            assert forall|i: int| 0 <= i < h.len() implies (#[trigger] h[i]).timestamp.wf() by {
                if i < h0.len() {
                    assert(h[i] == h0[i]);
                }
            }
        }
    }

    /// Start running this item (no change if it already runs).
    pub fn start(&mut self, now: Stamp)
        requires
            old(self).wf(),
            now.wf(),
        ensures
            final(self).wf(),
            same_record(*final(self), *old(self)),
            final(self).subtasks == old(self).subtasks,
            final(self).completed_at == old(self).completed_at,
            old(self).status == RunStatus::Running ==> *final(self) == *old(self),
            old(self).status != RunStatus::Running ==> {
                &&& final(self).status == RunStatus::Running
                &&& final(self).track == (TimeTracking { started_at: Some(now.secs), ..old(self).track })
                &&& final(self).state_history@ == pushed(old(self).state_history@, Some(old(self).status), RunStatus::Running, now)
            },
            old(self).status != RunStatus::Running ==> started_from(*old(self), *final(self), now),
    {
        if self.status != RunStatus::Running {
            let prev = self.status;
            self.status = RunStatus::Running;
            self.track.start(now);
            self.record(Some(prev), RunStatus::Running, now);
        }
    }

    /// Pause this item (only when it runs).
    pub fn pause(&mut self, now: Stamp)
        requires
            old(self).wf(),
            now.wf(),
        ensures
            final(self).wf(),
            same_record(*final(self), *old(self)),
            final(self).subtasks == old(self).subtasks,
            final(self).completed_at == old(self).completed_at,
            old(self).status != RunStatus::Running ==> *final(self) == *old(self),
            old(self).status == RunStatus::Running ==> {
                &&& final(self).status == RunStatus::Paused
                &&& final(self).track == old(self).track.spec_pause(now.secs as int)
                &&& final(self).state_history@ == pushed(old(self).state_history@, Some(RunStatus::Running), RunStatus::Paused, now)
            },
            old(self).status == RunStatus::Running ==> paused_from(*old(self), *final(self), now),
    {
        if self.status == RunStatus::Running {
            self.status = RunStatus::Paused;
            self.track.pause(now);
            self.record(Some(RunStatus::Running), RunStatus::Paused, now);
        }
    }

    /// Set this item to idle (stops the timer if it runs).
    pub fn set_idle(&mut self, now: Stamp)
        requires
            old(self).wf(),
            now.wf(),
        ensures
            final(self).wf(),
            same_record(*final(self), *old(self)),
            final(self).subtasks == old(self).subtasks,
            final(self).completed_at == old(self).completed_at,
            !(old(self).status is Running || old(self).status is Paused) ==> *final(self) == *old(self),
            (old(self).status is Running || old(self).status is Paused) ==> {
                &&& final(self).status == RunStatus::Idle
                &&& final(self).track == if old(self).status is Running {
                    old(self).track.spec_pause(now.secs as int)
                } else {
                    old(self).track
                }
                &&& final(self).state_history@ == pushed(old(self).state_history@, Some(old(self).status), RunStatus::Idle, now)
            },
    {
        if self.status == RunStatus::Running || self.status == RunStatus::Paused {
            if self.status == RunStatus::Running {
                self.track.pause(now);
            }
            let prev = self.status;
            self.status = RunStatus::Idle;
            self.record(Some(prev), RunStatus::Idle, now);
        }
    }

    /// Toggle between running and paused (idle starts; done and postponed stay).
    pub fn toggle_run_pause(&mut self, now: Stamp)
        requires
            old(self).wf(),
            now.wf(),
        ensures
            final(self).wf(),
            same_record(*final(self), *old(self)),
            final(self).subtasks == old(self).subtasks,
            final(self).completed_at == old(self).completed_at,
            (old(self).status is Idle || old(self).status is Paused) ==> {
                &&& final(self).status == RunStatus::Running
                &&& final(self).track == (TimeTracking { started_at: Some(now.secs), ..old(self).track })
                &&& final(self).state_history@ == pushed(old(self).state_history@, Some(old(self).status), RunStatus::Running, now)
            },
            old(self).status is Running ==> {
                &&& final(self).status == RunStatus::Paused
                &&& final(self).track == old(self).track.spec_pause(now.secs as int)
                &&& final(self).state_history@ == pushed(old(self).state_history@, Some(RunStatus::Running), RunStatus::Paused, now)
            },
            (old(self).status is Done || old(self).status is Postponed) ==> *final(self) == *old(self),
            toggled_from(*old(self), *final(self), now),
    {
        match self.status {
            RunStatus::Idle | RunStatus::Paused => self.start(now),
            RunStatus::Running => self.pause(now),
            _ => {},
        }
    }

    /// Mark as done: pause if running, record completion at `now`.
    pub fn mark_done(&mut self, now: Stamp)
        requires
            old(self).wf(),
            now.wf(),
        ensures
            final(self).wf(),
            same_record(*final(self), *old(self)),
            final(self).subtasks == old(self).subtasks,
            final(self).status == RunStatus::Done,
            final(self).completed_at == Some(now),
            final(self).track == if old(self).status is Running {
                old(self).track.spec_pause(now.secs as int)
            } else {
                old(self).track
            },
            final(self).state_history@ == pushed(old(self).state_history@, Some(old(self).status), RunStatus::Done, now),
            done_from(*old(self), *final(self), now),
    {
        if self.status == RunStatus::Running {
            self.track.pause(now);
        }
        let prev = self.status;
        self.status = RunStatus::Done;
        self.completed_at = Some(now);
        self.record(Some(prev), RunStatus::Done, now);
    }

    /// Postpone: pause if running, then return to Idle unless already idle.
    pub fn postpone(&mut self, now: Stamp)
        requires
            old(self).wf(),
            now.wf(),
        ensures
            final(self).wf(),
            same_record(*final(self), *old(self)),
            final(self).subtasks == old(self).subtasks,
            final(self).completed_at == old(self).completed_at,
            final(self).status == RunStatus::Idle,
            final(self).track == if old(self).status is Running {
                old(self).track.spec_pause(now.secs as int)
            } else {
                old(self).track
            },
            old(self).status is Idle ==> final(self).state_history == old(self).state_history,
            !(old(self).status is Idle) ==> final(self).state_history@ == pushed(
                old(self).state_history@,
                Some(old(self).status),
                RunStatus::Idle,
                now,
            ),
    {
        if self.status == RunStatus::Running {
            self.track.pause(now);
        }
        if self.status != RunStatus::Idle {
            let prev = self.status;
            self.status = RunStatus::Idle;
            self.record(Some(prev), RunStatus::Idle, now);
        }
    }

    /// The item's own tracker after a tick at `now` (only while running).
    pub open spec fn ticked_track(self, now: Stamp) -> TimeTracking {
        if self.status is Running {
            self.track.spec_tick(now.secs as int)
        } else {
            self.track
        }
    }

    fn tick_own(&mut self, now: Stamp)
        requires
            old(self).own_ok(),
            now.wf(),
        ensures
            final(self).own_ok(),
            *final(self) == (Item { track: old(self).ticked_track(now), ..*old(self) }),
    {
        if self.status == RunStatus::Running {
            self.track.tick(now);
        }
    }

    /// Update elapsed time of this item and of its subtasks that run.
    pub fn tick(&mut self, now: Stamp)
        requires
            old(self).wf(),
            now.wf(),
        ensures
            final(self).wf(),
            same_record(*final(self), *old(self)),
            final(self).status == old(self).status,
            final(self).completed_at == old(self).completed_at,
            final(self).state_history == old(self).state_history,
            final(self).track == old(self).ticked_track(now),
            final(self).subtasks@.len() == old(self).subtasks@.len(),
            forall|i: int| 0 <= i < old(self).subtasks@.len() ==> (#[trigger] final(self).subtasks@[i]) == (Item {
                track: old(self).subtasks@[i].ticked_track(now),
                ..old(self).subtasks@[i]
            }),
    {
        self.tick_own(now);
        let n = self.subtasks.len();
        let mut i: usize = 0;
        while i < n
            invariant
                n == old(self).subtasks@.len(),
                self.subtasks@.len() == n,
                i <= n,
                now.wf(),
                self.own_ok(),
                same_record(*self, *old(self)),
                self.status == old(self).status,
                self.completed_at == old(self).completed_at,
                self.state_history == old(self).state_history,
                self.track == old(self).ticked_track(now),
                forall|k: int| 0 <= k < n ==> (#[trigger] self.subtasks@[k]).leaf_ok(),
                forall|k: int| 0 <= k < i ==> (#[trigger] self.subtasks@[k]) == (Item {
                    track: old(self).subtasks@[k].ticked_track(now),
                    ..old(self).subtasks@[k]
                }),
                forall|k: int| i <= k < n ==> (#[trigger] self.subtasks@[k]) == old(self).subtasks@[k],
            decreases n - i,
        {
            self.subtasks[i].tick_own(now);
            i = i + 1;
        }
    }

    /// Increase the estimate (kept within the supported range).
    pub fn increase_estimate(&mut self, amount: i64)
        requires
            old(self).wf(),
        ensures
            final(self).wf(),
            *final(self) == (Item {
                track: TimeTracking { estimate: clamp_dur(old(self).track.estimate + amount) as i64, ..old(self).track },
                ..*old(self)
            }),
    {
        let t: i128 = self.track.estimate as i128 + amount as i128;
        self.track.estimate = if t > DUR_MAX as i128 { DUR_MAX } else if t < -(DUR_MAX as i128) { -DUR_MAX } else { t as i64 };
    }

    /// Decrease the estimate, never below zero.
    pub fn decrease_estimate(&mut self, amount: i64)
        requires
            old(self).wf(),
        ensures
            final(self).wf(),
            *final(self) == (Item {
                track: TimeTracking {
                    estimate: clamp_dur(if old(self).track.estimate - amount > 0 { old(self).track.estimate - amount } else { 0 }) as i64,
                    ..old(self).track
                },
                ..*old(self)
            }),
    {
        let t: i128 = self.track.estimate as i128 - amount as i128;
        self.track.estimate = if t > DUR_MAX as i128 { DUR_MAX } else if t > 0 { t as i64 } else { 0 };
    }

    /// The item runs and has reached its estimate.
    pub open spec fn is_over_spec(self) -> bool {
        self.status == RunStatus::Running && self.track.elapsed >= self.track.estimate
    }

    /// Whether the item runs and has reached its estimate.
    pub fn is_over_estimate(&self) -> (r: bool)
        ensures
            r == self.is_over_spec(),
    {
        self.status == RunStatus::Running && self.track.is_over_estimate()
    }

    /// Add a subtask at the end.
    pub fn add_subtask(&mut self, subtask: Item)
        requires
            old(self).wf(),
            subtask.leaf_ok(),
        ensures
            final(self).wf(),
            *final(self) == (Item { subtasks: final(self).subtasks, ..*old(self) }),
            final(self).subtasks@ == old(self).subtasks@.push(subtask),
    {
        self.subtasks.push(subtask);
        proof {
            let s = final(self).subtasks@;
            assert forall|i: int| 0 <= i < s.len() implies (#[trigger] s[i]).leaf_ok() by {
                if i < s.len() - 1 {
                    assert(s[i] == old(self).subtasks@[i]);
                }
            }
        }
    }

    /// Whether any subtask runs.
    pub fn has_running_subtasks(&self) -> (r: bool)
        ensures
            r == exists|i: int| 0 <= i < self.subtasks@.len() && (#[trigger] self.subtasks@[i]).status == RunStatus::Running,
    {
        let mut i: usize = 0;
        while i < self.subtasks.len()
            invariant
                i <= self.subtasks@.len(),
                forall|k: int| 0 <= k < i ==> (#[trigger] self.subtasks@[k]).status != RunStatus::Running,
            decreases self.subtasks@.len() - i,
        {
            if self.subtasks[i].status == RunStatus::Running {
                return true;
            }
            i = i + 1;
        }
        false
    }

    /// Total estimate of all subtasks.
    pub fn subtask_total_estimate(&self) -> (r: i128)
        requires
            self.wf(),
        ensures
            r == sum_estimates(self.subtasks@, self.subtasks@.len()),
    {
        let mut total: i128 = 0;
        let mut i: usize = 0;
        while i < self.subtasks.len()
            invariant
                self.wf(),
                i <= self.subtasks@.len(),
                total == sum_estimates(self.subtasks@, i as nat),
                -(i as int) * DUR_MAX <= total <= (i as int) * DUR_MAX,
            decreases self.subtasks@.len() - i,
        {
            assert(self.subtasks@[i as int].leaf_ok());
            total = total + self.subtasks[i].track.estimate as i128;
            i = i + 1;
        }
        total
    }

    /// Total elapsed time of all subtasks.
    pub fn subtask_total_elapsed(&self) -> (r: i128)
        requires
            self.wf(),
        ensures
            r == sum_elapsed(self.subtasks@, self.subtasks@.len()),
    {
        let mut total: i128 = 0;
        let mut i: usize = 0;
        while i < self.subtasks.len()
            invariant
                self.wf(),
                i <= self.subtasks@.len(),
                total == sum_elapsed(self.subtasks@, i as nat),
                -(i as int) * DUR_MAX <= total <= (i as int) * DUR_MAX,
            decreases self.subtasks@.len() - i,
        {
            assert(self.subtasks@[i as int].leaf_ok());
            total = total + self.subtasks[i].track.elapsed as i128;
            i = i + 1;
        }
        total
    }
}

impl Item {
    /// Time spent running, paused and idle according to the history.
    pub open spec fn spec_time_split(self, now: Stamp) -> (int, int, int) {
        time_split(self.state_history@, self.spec_end(now))
    }

    /// Calculate time spent in each state from the history:
    /// (running, paused, idle), in seconds.
    pub fn time_in_each_state(&self, now: Stamp) -> (r: (i64, i64, i64))
        requires
            self.own_ok(),
            now.wf(),
        ensures
            r.0 as int == self.spec_time_split(now).0,
            r.1 as int == self.spec_time_split(now).1,
            r.2 as int == self.spec_time_split(now).2,
            -2 * STAMP_MAX <= r.0 <= 4 * STAMP_MAX,
            -2 * STAMP_MAX <= r.1 <= 4 * STAMP_MAX,
            -2 * STAMP_MAX <= r.2 <= 4 * STAMP_MAX,
    {
        let h = &self.state_history;
        let end: i64 = match self.completed_at {
            Some(c) => c.secs,
            None => now.secs,
        };
        let ghost hs = h@;
        let mut running: i64 = 0;
        let mut paused: i64 = 0;
        let mut idle: i64 = 0;
        let n = h.len();
        let mut i: usize = 0;
        while i < n
            invariant
                hs == self.state_history@,
                h@ == hs,
                n == hs.len(),
                history_ok(hs),
                end == self.spec_end(now),
                -STAMP_MAX <= end <= STAMP_MAX,
                i <= n,
                running == state_time(hs, i as nat, end as int, RunStatus::Running),
                paused == state_time(hs, i as nat, end as int, RunStatus::Paused),
                idle == state_time(hs, i as nat, end as int, RunStatus::Idle),
            decreases n - i,
        {
            let ts = h[i].timestamp.secs;
            let stop: i64 = if i + 1 < n {
                h[i + 1].timestamp.secs
            } else {
                end
            };
            proof {
                lemma_spans_partition(hs, i as nat, end as int);
                assert(hs[i as int].timestamp.wf());
                assert(hs[0].timestamp.wf());
                assert(hs[0].timestamp.secs <= hs[i as int].timestamp.secs);
                if i + 1 < n {
                    assert(hs[i + 1].timestamp.wf());
                }
            }
            let d: i64 = stop - ts;
            match h[i].to_status {
                RunStatus::Running => running = running + d,
                RunStatus::Paused => paused = paused + d,
                RunStatus::Idle => idle = idle + d,
                _ => {},
            }
            i = i + 1;
        }
        proof {
            lemma_spans_partition(hs, n as nat, end as int);
            if n > 0 {
                assert(hs[0].timestamp.wf());
                assert(hs[n - 1].timestamp.wf());
            }
        }
        (running, paused, idle)
    }

    /// The item with the elapsed time of itself and each subtask taken from history.
    pub open spec fn resynced_leaf(self, now: Stamp) -> Item {
        Item { track: TimeTracking { elapsed: self.spec_time_split(now).0 as i64, ..self.track }, ..self }
    }

    fn sync_own_elapsed(&mut self, now: Stamp)
        requires
            old(self).own_ok(),
            now.wf(),
        ensures
            final(self).own_ok(),
            *final(self) == (Item { subtasks: old(self).subtasks, ..old(self).resynced_leaf(now) }),
    {
        let (running, _paused, _idle) = self.time_in_each_state(now);
        self.track.elapsed = running;
    }

    /// Recompute elapsed time (of this item and its subtasks) from history.
    pub fn sync_elapsed_from_history(&mut self, now: Stamp)
        requires
            old(self).wf(),
            now.wf(),
        ensures
            final(self).wf(),
            synced_from(*final(self), *old(self), now),
    {
        self.sync_own_elapsed(now);
        let n = self.subtasks.len();
        let mut i: usize = 0;
        while i < n
            invariant
                n == old(self).subtasks@.len(),
                self.subtasks@.len() == n,
                i <= n,
                now.wf(),
                self.own_ok(),
                *self == (Item { subtasks: self.subtasks, ..old(self).resynced_leaf(now) }),
                forall|k: int| 0 <= k < n ==> (#[trigger] old(self).subtasks@[k]).leaf_ok(),
                forall|k: int| 0 <= k < i ==> (#[trigger] self.subtasks@[k]) == old(self).subtasks@[k].resynced_leaf(now),
                forall|k: int| i <= k < n ==> (#[trigger] self.subtasks@[k]) == old(self).subtasks@[k],
            decreases n - i,
        {
            self.subtasks[i].sync_own_elapsed(now);
            i = i + 1;
        }
        proof {
            let s = final(self).subtasks@;
            assert forall|k: int| 0 <= k < s.len() implies (#[trigger] s[k]).leaf_ok() by {
                assert(s[k] == old(self).subtasks@[k].resynced_leaf(now));
                lemma_running_bound(old(self).subtasks@[k], now);
            }
        }
    }

    /// The status after a load: a running item counts as paused.
    pub open spec fn coerced(st: RunStatus) -> RunStatus {
        if st is Running {
            RunStatus::Paused
        } else {
            st
        }
    }

    /// Coerce this item and its subtasks from running to paused (for startup).
    pub fn coerce_running_to_paused(&mut self)
        requires
            old(self).wf(),
        ensures
            final(self).wf(),
            *final(self) == (Item { status: Self::coerced(old(self).status), subtasks: final(self).subtasks, ..*old(self) }),
            final(self).subtasks@.len() == old(self).subtasks@.len(),
            forall|i: int| 0 <= i < old(self).subtasks@.len() ==> (#[trigger] final(self).subtasks@[i]) == (Item {
                status: Self::coerced(old(self).subtasks@[i].status),
                ..old(self).subtasks@[i]
            }),
    {
        if self.status == RunStatus::Running {
            self.status = RunStatus::Paused;
        }
        let n = self.subtasks.len();
        let mut i: usize = 0;
        while i < n
            invariant
                n == old(self).subtasks@.len(),
                self.subtasks@.len() == n,
                i <= n,
                *self == (Item { status: Self::coerced(old(self).status), subtasks: self.subtasks, ..*old(self) }),
                forall|k: int| 0 <= k < n ==> (#[trigger] old(self).subtasks@[k]).leaf_ok(),
                forall|k: int| 0 <= k < i ==> (#[trigger] self.subtasks@[k]) == (Item {
                    status: Self::coerced(old(self).subtasks@[k].status),
                    ..old(self).subtasks@[k]
                }),
                forall|k: int| i <= k < n ==> (#[trigger] self.subtasks@[k]) == old(self).subtasks@[k],
            decreases n - i,
        {
            if self.subtasks[i].status == RunStatus::Running {
                self.subtasks[i].status = RunStatus::Paused;
            }
            i = i + 1;
        }
        proof {
            let s = final(self).subtasks@;
            assert forall|k: int| 0 <= k < s.len() implies (#[trigger] s[k]).leaf_ok() by {
                assert(old(self).subtasks@[k].leaf_ok());
            }
        }
    }

    /// Give this item and its subtasks fresh identifiers.
    pub fn regenerate_ids(&mut self)
        requires
            old(self).wf(),
        ensures
            final(self).wf(),
            *final(self) == (Item { id: final(self).id, subtasks: final(self).subtasks, ..*old(self) }),
            final(self).subtasks@.len() == old(self).subtasks@.len(),
            forall|i: int| 0 <= i < old(self).subtasks@.len() ==> (#[trigger] final(self).subtasks@[i]) == (Item {
                id: final(self).subtasks@[i].id,
                ..old(self).subtasks@[i]
            }),
    {
        self.id = fresh_id();
        let n = self.subtasks.len();
        let mut i: usize = 0;
        while i < n
            invariant
                n == old(self).subtasks@.len(),
                self.subtasks@.len() == n,
                i <= n,
                *self == (Item { id: self.id, subtasks: self.subtasks, ..*old(self) }),
                forall|k: int| 0 <= k < n ==> (#[trigger] old(self).subtasks@[k]).leaf_ok(),
                forall|k: int| 0 <= k < i ==> (#[trigger] self.subtasks@[k]) == (Item { id: self.subtasks@[k].id, ..old(self).subtasks@[k] }),
                forall|k: int| i <= k < n ==> (#[trigger] self.subtasks@[k]) == old(self).subtasks@[k],
            decreases n - i,
        {
            self.subtasks[i].id = fresh_id();
            i = i + 1;
        }
        proof {
            let s = final(self).subtasks@;
            assert forall|k: int| 0 <= k < s.len() implies (#[trigger] s[k]).leaf_ok() by {
                assert(old(self).subtasks@[k].leaf_ok());
            }
        }
    }

    /// Wall-clock time from creation to completion, once completed.
    pub fn calendar_time(&self) -> (r: Option<i64>)
        requires
            self.own_ok(),
        ensures
            r == match self.completed_at {
                Some(c) => Some((c.secs - self.created_at.secs) as i64),
                None => None::<i64>,
            },
    {
        match self.completed_at {
            Some(c) => Some(c.secs - self.created_at.secs),
            None => None,
        }
    }

    /// Total time in Running: each run lasts from an event that enters Running
    /// to the next event that does not; one still open lasts until completion or `now`.
    pub fn running_time(&self, now: Stamp) -> (r: i64)
        requires
            self.own_ok(),
            now.wf(),
        ensures
            r == match run_scan(self.state_history@, self.state_history@.len()).1 {
                Some(st) => run_scan(self.state_history@, self.state_history@.len()).0 + self.spec_end(now) - st,
                None => run_scan(self.state_history@, self.state_history@.len()).0,
            },
    {
        let h = &self.state_history;
        let ghost hs = h@;
        let mut total: i64 = 0;
        let mut open: Option<i64> = None;
        let mut i: usize = 0;
        while i < h.len()
            invariant
                hs == self.state_history@,
                h@ == hs,
                history_ok(hs),
                i <= hs.len(),
                total == run_scan(hs, i as nat).0,
                open == match run_scan(hs, i as nat).1 {
                    Some(v) => Some(v as i64),
                    None => None::<i64>,
                },
                0 <= total,
                i > 0 ==> total <= hs[i - 1].timestamp.secs - hs[0].timestamp.secs,
                open is Some ==> i > 0 && hs[0].timestamp.secs <= open->0 <= hs[i - 1].timestamp.secs,
                open is Some ==> i > 0 && total <= open->0 - hs[0].timestamp.secs,
            decreases hs.len() - i,
        {
            let e = h[i];
            proof {
                assert(hs[i as int].timestamp.wf());
                assert(hs[0].timestamp.wf());
                assert(hs[0].timestamp.secs <= hs[i as int].timestamp.secs);
                if i > 0 {
                    assert(hs[i - 1].timestamp.secs <= hs[i as int].timestamp.secs);
                }
            }
            if e.to_status == RunStatus::Running {
                open = Some(e.timestamp.secs);
            } else {
                match open {
                    Some(st) => {
                        total = total + (e.timestamp.secs - st);
                        open = None;
                    },
                    None => {},
                }
            }
            i = i + 1;
        }
        let end: i64 = match self.completed_at {
            Some(c) => c.secs,
            None => now.secs,
        };
        match open {
            Some(st) => {
                proof {
                    assert(hs[0].timestamp.wf());
                }
                total + (end - st)
            },
            None => total,
        }
    }

    /// Count interruptions (transitions from Running to Paused).
    pub fn interruption_count(&self) -> (r: usize)
        ensures
            r == count_interruptions(self.state_history@, self.state_history@.len()),
    {
        let mut c: usize = 0;
        let mut i: usize = 0;
        while i < self.state_history.len()
            invariant
                i <= self.state_history@.len(),
                c == count_interruptions(self.state_history@, i as nat),
                c <= i,
            decreases self.state_history@.len() - i,
        {
            let e = self.state_history[i];
            if e.from_status == Some(RunStatus::Running) && e.to_status == RunStatus::Paused {
                c = c + 1;
            }
            i = i + 1;
        }
        c
    }

    /// Count work sessions (transitions into Running).
    pub fn session_count(&self) -> (r: usize)
        ensures
            r == count_sessions(self.state_history@, self.state_history@.len()),
    {
        let mut c: usize = 0;
        let mut i: usize = 0;
        while i < self.state_history.len()
            invariant
                i <= self.state_history@.len(),
                c == count_sessions(self.state_history@, i as nat),
                c <= i,
            decreases self.state_history@.len() - i,
        {
            if self.state_history[i].to_status == RunStatus::Running {
                c = c + 1;
            }
            i = i + 1;
        }
        c
    }
}

/// The three buckets of `time_in_each_state`, together with the time spent
/// in Done or Postponed, add up exactly to the span from the first event to
/// completion (or now); with no Done or Postponed event, the three buckets
/// alone add up to it.
pub proof fn lemma_buckets_cover_history(item: Item, now: Stamp)
    requires
        item.own_ok(),
        now.wf(),
        item.state_history@.len() > 0,
    ensures
        ({
            let h = item.state_history@;
            let end = item.spec_end(now);
            let b = item.spec_time_split(now);
            &&& b.0 + b.1 + b.2 + uncounted_time(h, h.len(), end) == end - h[0].timestamp.secs
            &&& (forall|i: int| 0 <= i < h.len() ==> (#[trigger] h[i]).to_status.spec_is_active())
                ==> b.0 + b.1 + b.2 == end - h[0].timestamp.secs
        }),
{
    let h = item.state_history@;
    let end = item.spec_end(now);
    lemma_spans_partition(h, h.len(), end);
    if forall|i: int| 0 <= i < h.len() ==> (#[trigger] h[i]).to_status.spec_is_active() {
        lemma_no_uncounted(h, h.len(), end);
    }
}

proof fn lemma_no_uncounted(h: Seq<StateEvent>, n: nat, end: int)
    requires
        n <= h.len(),
        forall|i: int| 0 <= i < h.len() ==> (#[trigger] h[i]).to_status.spec_is_active(),
    ensures
        uncounted_time(h, n, end) == 0,
    decreases n,
{
    if n > 0 {
        assert(h[n - 1].to_status.spec_is_active());
        lemma_no_uncounted(h, (n - 1) as nat, end);
    }
}

/// The running bucket of a well-formed item lies within the supported range.
pub proof fn lemma_running_bound(item: Item, now: Stamp)
    requires
        item.own_ok(),
        now.wf(),
    ensures
        -2 * STAMP_MAX <= item.spec_time_split(now).0 <= 4 * STAMP_MAX,
        item.resynced_leaf(now).own_ok(),
{
    let h = item.state_history@;
    lemma_spans_partition(h, h.len(), item.spec_end(now));
    if h.len() > 0 {
        assert(h[0].timestamp.wf());
        assert(h[h.len() - 1].timestamp.wf());
    }
}

/// `after` is `before` with the elapsed time of itself and of each subtask
/// taken from its history.
pub open spec fn synced_from(after: Item, before: Item, now: Stamp) -> bool {
    &&& after == (Item { subtasks: after.subtasks, ..before.resynced_leaf(now) })
    &&& after.subtasks@.len() == before.subtasks@.len()
    &&& forall|i: int| 0 <= i < before.subtasks@.len() ==> (#[trigger] after.subtasks@[i]) == before.subtasks@[i].resynced_leaf(now)
}

/// Resynchronising elapsed time from history twice, with no event between,
/// gives the same item as doing it once (the same elapsed time for the item
/// and for each subtask, and nothing else changed).
pub proof fn lemma_resync_idempotent(once: Item, twice: Item, item: Item, now: Stamp)
    requires
        synced_from(once, item, now),
        synced_from(twice, once, now),
    ensures
        twice == (Item { subtasks: twice.subtasks, ..once }),
        twice.subtasks@.len() == once.subtasks@.len(),
        forall|i: int| 0 <= i < once.subtasks@.len() ==> (#[trigger] twice.subtasks@[i]) == once.subtasks@[i],
{
    assert(once.resynced_leaf(now) == (Item { subtasks: once.subtasks, ..once }));
    assert forall|i: int| 0 <= i < once.subtasks@.len() implies (#[trigger] twice.subtasks@[i]) == once.subtasks@[i] by {
        let s = item.subtasks@[i];
        assert(s.resynced_leaf(now).resynced_leaf(now) == s.resynced_leaf(now));
    }
}

/// Two items hold the same values, field by field, without their subtasks.
pub open spec fn same_leaf(a: Item, b: Item) -> bool {
    &&& a.id == b.id
    &&& a.title@ == b.title@
    &&& a.notes@ == b.notes@
    &&& a.track == b.track
    &&& a.status == b.status
    &&& a.schedule == b.schedule
    &&& a.expanded == b.expanded
    &&& crate::codec::views(a.tags@) == crate::codec::views(b.tags@)
    &&& a.created_at == b.created_at
    &&& a.completed_at == b.completed_at
    &&& a.state_history@ == b.state_history@
}

/// Two items hold the same values, their subtasks included.
pub open spec fn same_item(a: Item, b: Item) -> bool {
    &&& same_leaf(a, b)
    &&& a.subtasks@.len() == b.subtasks@.len()
    &&& forall|j: int| 0 <= j < a.subtasks@.len() ==> same_leaf(#[trigger] a.subtasks@[j], b.subtasks@[j])
}

fn copy_tags(tags: &Vec<String>) -> (r: Vec<String>)
    ensures
        crate::codec::views(r@) == crate::codec::views(tags@),
{
    let mut v: Vec<String> = Vec::new();
    let mut i: usize = 0;
    while i < tags.len()
        invariant
            i <= tags@.len(),
            v@.len() == i,
            forall|k: int| 0 <= k < i ==> (#[trigger] v@[k])@ == tags@[k]@,
        decreases tags@.len() - i,
    {
        v.push(tags[i].clone());
        i = i + 1;
    }
    assert(crate::codec::views(v@) =~= crate::codec::views(tags@));
    v
}

fn copy_history(h: &Vec<StateEvent>) -> (r: Vec<StateEvent>)
    ensures
        r@ == h@,
{
    let mut v: Vec<StateEvent> = Vec::new();
    let mut i: usize = 0;
    while i < h.len()
        invariant
            i <= h@.len(),
            v@ == h@.subrange(0, i as int),
        decreases h@.len() - i,
    {
        v.push(h[i]);
        i = i + 1;
    }
    assert(h@.subrange(0, h@.len() as int) == h@);
    v
}

impl Item {
    fn copy_leaf(&self) -> (r: Item)
        ensures
            same_leaf(*self, r),
            r.subtasks@.len() == 0,
            self.own_ok() ==> r.leaf_ok(),
    {
        Item {
            id: self.id,
            title: self.title.clone(),
            notes: self.notes.clone(),
            track: self.track,
            status: self.status,
            schedule: self.schedule,
            expanded: self.expanded,
            subtasks: Vec::new(),
            tags: copy_tags(&self.tags),
            created_at: self.created_at,
            completed_at: self.completed_at,
            state_history: copy_history(&self.state_history),
        }
    }

    /// A full copy of the item and its subtasks (a snapshot for undo).
    pub fn duplicate(&self) -> (r: Item)
        requires
            self.wf(),
        ensures
            same_item(*self, r),
            r.wf(),
    {
        let mut r = self.copy_leaf();
        let mut i: usize = 0;
        while i < self.subtasks.len()
            invariant
                self.wf(),
                same_leaf(*self, r),
                r.own_ok(),
                i <= self.subtasks@.len(),
                r.subtasks@.len() == i,
                forall|k: int| 0 <= k < i ==> same_leaf(#[trigger] self.subtasks@[k], r.subtasks@[k]),
                forall|k: int| 0 <= k < i ==> (#[trigger] r.subtasks@[k]).leaf_ok(),
            decreases self.subtasks@.len() - i,
        {
            assert(self.subtasks@[i as int].leaf_ok());
            let c = self.subtasks[i].copy_leaf();
            r.subtasks.push(c);
            i = i + 1;
        }
        r
    }
}

impl Item {
    /// Pause this item and each subtask that runs (the others keep their status);
    /// with `to_idle`, running and paused ones go to Idle instead.
    pub fn settle_all_running(&mut self, to_idle: bool, now: Stamp)
        requires
            old(self).wf(),
            now.wf(),
        ensures
            final(self).wf(),
            final(self).id == old(self).id,
            final(self).status == Self::quieted(old(self).status, to_idle),
            final(self).subtasks@.len() == old(self).subtasks@.len(),
            forall|j: int| 0 <= j < old(self).subtasks@.len() ==> (#[trigger] final(self).subtasks@[j]).status
                == Self::quieted(old(self).subtasks@[j].status, to_idle),
    {
        if to_idle {
            self.set_idle(now);
        } else {
            self.pause(now);
        }
        let n = self.subtasks.len();
        let mut j: usize = 0;
        while j < n
            invariant
                n == old(self).subtasks@.len(),
                self.subtasks@.len() == n,
                j <= n,
                now.wf(),
                self.own_ok(),
                self.id == old(self).id,
                self.status == Self::quieted(old(self).status, to_idle),
                forall|k: int| 0 <= k < n ==> (#[trigger] self.subtasks@[k]).leaf_ok(),
                forall|k: int| 0 <= k < j ==> (#[trigger] self.subtasks@[k]).status == Self::quieted(old(self).subtasks@[k].status, to_idle),
                forall|k: int| j <= k < n ==> (#[trigger] self.subtasks@[k]) == old(self).subtasks@[k],
            decreases n - j,
        {
            if to_idle {
                self.subtasks[j].set_idle(now);
            } else {
                self.subtasks[j].pause(now);
            }
            j = j + 1;
        }
    }

    /// The status after pausing (or, with `to_idle`, stopping) everything.
    pub open spec fn quieted(st: RunStatus, to_idle: bool) -> RunStatus {
        if to_idle {
            if st is Running || st is Paused { RunStatus::Idle } else { st }
        } else {
            if st is Running { RunStatus::Paused } else { st }
        }
    }
}

/// `after` differs from `before` at most in status, tracker and history.
pub open spec fn own_run_change(before: Item, after: Item) -> bool {
    after == (Item { status: after.status, track: after.track, state_history: after.state_history, ..before })
}

/// `after` is `before` started at `now`.
pub open spec fn started_from(before: Item, after: Item, now: Stamp) -> bool {
    &&& own_run_change(before, after)
    &&& after.status == RunStatus::Running
    &&& after.track == (TimeTracking { started_at: Some(now.secs), ..before.track })
    &&& after.state_history@ == pushed(before.state_history@, Some(before.status), RunStatus::Running, now)
}

/// `after` is the running `before` paused at `now`.
pub open spec fn paused_from(before: Item, after: Item, now: Stamp) -> bool {
    &&& own_run_change(before, after)
    &&& after.status == RunStatus::Paused
    &&& after.track == before.track.spec_pause(now.secs as int)
    &&& after.state_history@ == pushed(before.state_history@, Some(RunStatus::Running), RunStatus::Paused, now)
}

/// `after` is `before` marked done at `now` (paused first if it ran).
pub open spec fn done_from(before: Item, after: Item, now: Stamp) -> bool {
    &&& after == (Item {
        status: RunStatus::Done,
        track: after.track,
        state_history: after.state_history,
        completed_at: Some(now),
        ..before
    })
    &&& after.track == if before.status is Running {
        before.track.spec_pause(now.secs as int)
    } else {
        before.track
    }
    &&& after.state_history@ == pushed(before.state_history@, Some(before.status), RunStatus::Done, now)
}

/// `after` is `before` toggled at `now`: idle or paused starts, running pauses,
/// done and postponed stay.
pub open spec fn toggled_from(before: Item, after: Item, now: Stamp) -> bool {
    if before.status is Idle || before.status is Paused {
        started_from(before, after, now)
    } else if before.status is Running {
        paused_from(before, after, now)
    } else {
        after == before
    }
}

/// `after` is `before` with its own run state brought in line with the
/// subtasks that `after` holds: started when one runs, paused when it ran and
/// every subtask is paused or idle, otherwise unchanged.
pub open spec fn parent_synced(before: Item, after: Item, now: Stamp) -> bool {
    let subs = after.subtasks@;
    let b = Item { subtasks: after.subtasks, ..before };
    if subs.len() > 0 && some_running(subs) && before.status != RunStatus::Running {
        started_from(b, after, now)
    } else if subs.len() > 0 && !some_running(subs) && all_paused_or_idle(subs) && before.status == RunStatus::Running {
        paused_from(b, after, now)
    } else {
        after == b
    }
}

/// `after` is `before` with subtask `idx` toggled and the parent brought in line.
pub open spec fn subtask_toggled(before: Item, after: Item, idx: int, now: Stamp) -> bool {
    &&& after.subtasks@.len() == before.subtasks@.len()
    &&& forall|k: int| 0 <= k < before.subtasks@.len() && k != idx ==> (#[trigger] after.subtasks@[k]) == before.subtasks@[k]
    &&& toggled_from(before.subtasks@[idx], after.subtasks@[idx], now)
    &&& parent_synced(before, after, now)
}

/// `after` is `before` with subtask `idx` paused if it ran, and the parent
/// paused if it ran and no subtask runs any more (nothing is started).
pub open spec fn subtask_paused(before: Item, after: Item, idx: int, now: Stamp) -> bool {
    let subs = after.subtasks@;
    let b = Item { subtasks: after.subtasks, ..before };
    &&& subs.len() == before.subtasks@.len()
    &&& forall|k: int| 0 <= k < before.subtasks@.len() && k != idx ==> (#[trigger] subs[k]) == before.subtasks@[k]
    &&& before.subtasks@[idx].status == RunStatus::Running ==> paused_from(before.subtasks@[idx], subs[idx], now)
    &&& before.subtasks@[idx].status != RunStatus::Running ==> subs[idx] == before.subtasks@[idx]
    &&& if !some_running(subs) && all_paused_or_idle(subs) && before.status == RunStatus::Running {
        paused_from(b, after, now)
    } else {
        after == b
    }
}

/// Some subtask runs.
pub open spec fn some_running(subs: Seq<Item>) -> bool {
    exists|i: int| 0 <= i < subs.len() && (#[trigger] subs[i]).status == RunStatus::Running
}

/// Every subtask is paused or idle.
pub open spec fn all_paused_or_idle(subs: Seq<Item>) -> bool {
    forall|i: int| 0 <= i < subs.len() ==> (#[trigger] subs[i]).status is Paused || subs[i].status is Idle
}

/// The parent/child rule after a subtask changed: a running subtask makes
/// the parent run; with every subtask paused or idle the parent does not run,
/// and a parent that ran is paused.
pub open spec fn parent_in_sync(before: Item, after: Item) -> bool {
    let subs = after.subtasks@;
    &&& some_running(subs) ==> after.status == RunStatus::Running
    &&& !some_running(subs) && all_paused_or_idle(subs) && before.status == RunStatus::Running
        ==> after.status == RunStatus::Paused
    &&& !some_running(subs) && all_paused_or_idle(subs) ==> after.status != RunStatus::Running
}

fn all_subtasks_paused_or_idle(subs: &Vec<Item>) -> (r: bool)
    ensures
        r == all_paused_or_idle(subs@),
{
    let mut i: usize = 0;
    while i < subs.len()
        invariant
            i <= subs@.len(),
            forall|k: int| 0 <= k < i ==> (#[trigger] subs@[k]).status is Paused || subs@[k].status is Idle,
        decreases subs@.len() - i,
    {
        if !(subs[i].status == RunStatus::Paused || subs[i].status == RunStatus::Idle) {
            return false;
        }
        i = i + 1;
    }
    true
}

impl Item {
    /// Derive the parent's run state from its subtasks: start it when a
    /// subtask runs; pause it when it runs and every subtask is paused or idle.
    pub fn sync_parent_status(&mut self, now: Stamp)
        requires
            old(self).wf(),
            now.wf(),
        ensures
            final(self).wf(),
            final(self).subtasks == old(self).subtasks,
            same_record(*final(self), *old(self)),
            old(self).subtasks@.len() == 0 ==> *final(self) == *old(self),
            old(self).subtasks@.len() > 0 ==> parent_in_sync(*old(self), *final(self)),
            old(self).status != RunStatus::Running && !some_running(old(self).subtasks@) ==> *final(self) == *old(self),
            parent_synced(*old(self), *final(self), now),
    {
        if self.subtasks.len() == 0 {
            return;
        }
        let running = self.has_running_subtasks();
        if running {
            if self.status != RunStatus::Running {
                self.start(now);
            }
        } else {
            let quiet = all_subtasks_paused_or_idle(&self.subtasks);
            if quiet && self.status == RunStatus::Running {
                self.pause(now);
            }
        }
    }

    /// Toggle subtask `idx` between running and paused, then bring the parent in line.
    pub fn toggle_subtask(&mut self, idx: usize, now: Stamp)
        requires
            old(self).wf(),
            now.wf(),
            idx < old(self).subtasks@.len(),
        ensures
            final(self).wf(),
            same_record(*final(self), *old(self)),
            final(self).subtasks@.len() == old(self).subtasks@.len(),
            forall|k: int| 0 <= k < old(self).subtasks@.len() && k != idx ==> (#[trigger] final(self).subtasks@[k]) == old(self).subtasks@[k],
            final(self).subtasks@[idx as int].status == match old(self).subtasks@[idx as int].status {
                RunStatus::Idle | RunStatus::Paused => RunStatus::Running,
                RunStatus::Running => RunStatus::Paused,
                st => st,
            },
            parent_in_sync(*old(self), *final(self)),
            subtask_toggled(*old(self), *final(self), idx as int, now),
    {
        let ghost s0 = self.subtasks@;
        self.subtasks[idx].toggle_run_pause(now);
        proof {
            let s = self.subtasks@;
            assert forall|k: int| 0 <= k < s.len() implies (#[trigger] s[k]).leaf_ok() by {
                if k != idx {
                    assert(s[k] == s0[k]);
                }
            }
        }
        self.sync_parent_status(now);
    }

    /// Pause subtask `idx` if it runs; pause the parent too when it ran and no
    /// subtask runs any more. Nothing is started.
    pub fn pause_subtask(&mut self, idx: usize, now: Stamp)
        requires
            old(self).wf(),
            now.wf(),
            idx < old(self).subtasks@.len(),
        ensures
            final(self).wf(),
            subtask_paused(*old(self), *final(self), idx as int, now),
    {
        let ghost s0 = self.subtasks@;
        self.subtasks[idx].pause(now);
        proof {
            let s = self.subtasks@;
            assert forall|k: int| 0 <= k < s.len() implies (#[trigger] s[k]).leaf_ok() by {
                if k != idx {
                    assert(s[k] == s0[k]);
                }
            }
        }
        let running = self.has_running_subtasks();
        let quiet = all_subtasks_paused_or_idle(&self.subtasks);
        if !running && quiet && self.status == RunStatus::Running {
            self.pause(now);
        }
    }
}

/// Sum of the estimates of the first `n` items.
pub open spec fn sum_estimates(s: Seq<Item>, n: nat) -> int
    decreases n,
{
    if n == 0 {
        0
    } else {
        sum_estimates(s, (n - 1) as nat) + s[n - 1].track.estimate
    }
}

/// Sum of the elapsed times of the first `n` items.
pub open spec fn sum_elapsed(s: Seq<Item>, n: nat) -> int
    decreases n,
{
    if n == 0 {
        0
    } else {
        sum_elapsed(s, (n - 1) as nat) + s[n - 1].track.elapsed
    }
}

} // verus!
