use vstd::prelude::*;
use crate::clock::Stamp;
use crate::item::{span, Item, DUR_MAX};
use crate::status::{GlobalMode, RunStatus};

verus! {

/// Global mode, the items paused by leaving Working, and time per mode.
#[derive(Debug)]
pub struct AppMetadata {
    pub global_mode: GlobalMode,
    /// Identifiers of the items that leaving Working paused.
    pub paused_by_mode_task_ids: Vec<u128>,
    /// Seconds spent in each mode today.
    pub mode_time_working_secs: i64,
    pub mode_time_break_secs: i64,
    pub mode_time_lunch_secs: i64,
    pub mode_time_gym_secs: i64,
    pub mode_time_dinner_secs: i64,
    pub mode_time_personal_secs: i64,
    pub mode_time_sleep_secs: i64,
    /// When the mode last changed.
    pub last_mode_change_timestamp: Option<Stamp>,
}

impl Default for AppMetadata {
    fn default() -> (r: Self)
        ensures
            r.global_mode == GlobalMode::Working,
            r.paused_by_mode_task_ids@.len() == 0,
            r.counters_zero(),
            r.last_mode_change_timestamp is None,
    {
        AppMetadata {
            global_mode: GlobalMode::Working,
            paused_by_mode_task_ids: Vec::new(),
            mode_time_working_secs: 0,
            mode_time_break_secs: 0,
            mode_time_lunch_secs: 0,
            mode_time_gym_secs: 0,
            mode_time_dinner_secs: 0,
            mode_time_personal_secs: 0,
            mode_time_sleep_secs: 0,
            last_mode_change_timestamp: None,
        }
    }
}

impl AppMetadata {
    /// All seven counters are zero.
    pub open spec fn counters_zero(self) -> bool {
        &&& self.mode_time_working_secs == 0
        &&& self.mode_time_break_secs == 0
        &&& self.mode_time_lunch_secs == 0
        &&& self.mode_time_gym_secs == 0
        &&& self.mode_time_dinner_secs == 0
        &&& self.mode_time_personal_secs == 0
        &&& self.mode_time_sleep_secs == 0
    }

    /// The counter of a mode.
    pub open spec fn spec_counter(self, m: GlobalMode) -> i64 {
        match m {
            GlobalMode::Working => self.mode_time_working_secs,
            GlobalMode::Break => self.mode_time_break_secs,
            GlobalMode::Lunch => self.mode_time_lunch_secs,
            GlobalMode::Gym => self.mode_time_gym_secs,
            GlobalMode::Dinner => self.mode_time_dinner_secs,
            GlobalMode::Personal => self.mode_time_personal_secs,
            GlobalMode::Sleep => self.mode_time_sleep_secs,
        }
    }

    /// Whether the last mode change fell on another local calendar day than `today`.
    pub open spec fn spec_stale(self, today: Stamp) -> bool {
        match self.last_mode_change_timestamp {
            Some(t) => t.spec_local_day() != today.spec_local_day(),
            None => false,
        }
    }

    /// Reset the per-mode counters when the last mode change was on another day.
    pub fn reset_if_new_day(&mut self, today: Stamp)
        requires
            today.wf(),
            old(self).last_mode_change_timestamp is Some ==> old(self).last_mode_change_timestamp->0.wf(),
        ensures
            old(self).spec_stale(today) ==> final(self).counters_zero(),
            !old(self).spec_stale(today) ==> final(self).spec_counter(GlobalMode::Working) == old(self).spec_counter(GlobalMode::Working)
                && final(self).spec_counter(GlobalMode::Break) == old(self).spec_counter(GlobalMode::Break)
                && final(self).spec_counter(GlobalMode::Lunch) == old(self).spec_counter(GlobalMode::Lunch)
                && final(self).spec_counter(GlobalMode::Gym) == old(self).spec_counter(GlobalMode::Gym)
                && final(self).spec_counter(GlobalMode::Dinner) == old(self).spec_counter(GlobalMode::Dinner)
                && final(self).spec_counter(GlobalMode::Personal) == old(self).spec_counter(GlobalMode::Personal)
                && final(self).spec_counter(GlobalMode::Sleep) == old(self).spec_counter(GlobalMode::Sleep),
            final(self).global_mode == old(self).global_mode,
            final(self).paused_by_mode_task_ids == old(self).paused_by_mode_task_ids,
            final(self).last_mode_change_timestamp == old(self).last_mode_change_timestamp,
    {
        let stale = match self.last_mode_change_timestamp {
            Some(t) => t.local_day() != today.local_day(),
            None => false,
        };
        if stale {
            self.mode_time_working_secs = 0;
            self.mode_time_break_secs = 0;
            self.mode_time_lunch_secs = 0;
            self.mode_time_gym_secs = 0;
            self.mode_time_dinner_secs = 0;
            self.mode_time_personal_secs = 0;
            self.mode_time_sleep_secs = 0;
        }
    }

    /// Add seconds to the counter of a mode (kept within the supported range).
    fn add_mode_time(&mut self, m: GlobalMode, secs: i64)
        requires
            0 <= secs,
        ensures
            final(self).spec_counter(m) == crate::item::clamp_dur(old(self).spec_counter(m) + secs),
            forall|o: GlobalMode| o != m ==> final(self).spec_counter(o) == old(self).spec_counter(o),
            final(self).global_mode == old(self).global_mode,
            final(self).paused_by_mode_task_ids == old(self).paused_by_mode_task_ids,
            final(self).last_mode_change_timestamp == old(self).last_mode_change_timestamp,
    {
        let cur: i64 = match m {
            GlobalMode::Working => self.mode_time_working_secs,
            GlobalMode::Break => self.mode_time_break_secs,
            GlobalMode::Lunch => self.mode_time_lunch_secs,
            GlobalMode::Gym => self.mode_time_gym_secs,
            GlobalMode::Dinner => self.mode_time_dinner_secs,
            GlobalMode::Personal => self.mode_time_personal_secs,
            GlobalMode::Sleep => self.mode_time_sleep_secs,
        };
        let t: i128 = cur as i128 + secs as i128;
        let v: i64 = if t > DUR_MAX as i128 { DUR_MAX } else if t < -(DUR_MAX as i128) { -DUR_MAX } else { t as i64 };
        match m {
            GlobalMode::Working => self.mode_time_working_secs = v,
            GlobalMode::Break => self.mode_time_break_secs = v,
            GlobalMode::Lunch => self.mode_time_lunch_secs = v,
            GlobalMode::Gym => self.mode_time_gym_secs = v,
            GlobalMode::Dinner => self.mode_time_dinner_secs = v,
            GlobalMode::Personal => self.mode_time_personal_secs = v,
            GlobalMode::Sleep => self.mode_time_sleep_secs = v,
        }
    }
}

impl AppMetadata {
    /// The time of a mode including, for the current mode, the time since the last change.
    pub open spec fn spec_mode_time(self, m: GlobalMode, now: Stamp) -> int {
        crate::item::clamp_dur(self.spec_counter(m) + if m == self.global_mode {
            match self.last_mode_change_timestamp {
                Some(t) => span(t.secs as int, now.secs as int),
                None => 0,
            }
        } else {
            0
        })
    }

    /// Time spent in each mode, in display order, the current one counted up to `now`.
    pub fn get_mode_times(&self, now: Stamp) -> (r: Vec<(GlobalMode, i64)>)
        requires
            now.wf(),
            self.last_mode_change_timestamp is Some ==> self.last_mode_change_timestamp->0.wf(),
        ensures
            r@.len() == 7,
            forall|k: int| 0 <= k < 7 ==> (#[trigger] r@[k]).0 == GlobalMode::all_spec()[k] && r@[k].1 == self.spec_mode_time(
                r@[k].0,
                now,
            ),
    {
        let current: i64 = match self.last_mode_change_timestamp {
            Some(t) => if now.secs >= t.secs { now.secs - t.secs } else { 0 },
            None => 0,
        };
        let modes = GlobalMode::all();
        let mut out: Vec<(GlobalMode, i64)> = Vec::new();
        let mut i: usize = 0;
        while i < modes.len()
            invariant
                modes@ == GlobalMode::all_spec(),
                i <= 7,
                out@.len() == i,
                0 <= current,
                current == match self.last_mode_change_timestamp {
                    Some(t) => span(t.secs as int, now.secs as int),
                    None => 0,
                },
                forall|k: int| 0 <= k < i ==> (#[trigger] out@[k]).0 == GlobalMode::all_spec()[k] && out@[k].1
                    == self.spec_mode_time(out@[k].0, now),
            decreases 7 - i,
        {
            let m = modes[i];
            let base: i64 = match m {
                GlobalMode::Working => self.mode_time_working_secs,
                GlobalMode::Break => self.mode_time_break_secs,
                GlobalMode::Lunch => self.mode_time_lunch_secs,
                GlobalMode::Gym => self.mode_time_gym_secs,
                GlobalMode::Dinner => self.mode_time_dinner_secs,
                GlobalMode::Personal => self.mode_time_personal_secs,
                GlobalMode::Sleep => self.mode_time_sleep_secs,
            };
            let extra: i64 = if m == self.global_mode { current } else { 0 };
            let t: i128 = base as i128 + extra as i128;
            let v: i64 = if t > DUR_MAX as i128 { DUR_MAX } else if t < -(DUR_MAX as i128) { -DUR_MAX } else { t as i64 };
            out.push((m, v));
            i = i + 1;
        }
        out
    }
}

/// Whether `id` is in the list.
pub fn contains_id(ids: &Vec<u128>, id: u128) -> (r: bool)
    ensures
        r == ids@.contains(id),
{
    let mut i: usize = 0;
    while i < ids.len()
        invariant
            i <= ids@.len(),
            forall|k: int| 0 <= k < i ==> ids@[k] != id,
        decreases ids@.len() - i,
    {
        if ids[i] == id {
            assert(ids@[i as int] == id);
            return true;
        }
        i = i + 1;
    }
    false
}

/// The identifiers of the running items among the first `n` subtasks.
pub open spec fn running_sub_ids(subs: Seq<Item>, n: nat) -> Set<u128>
    decreases n,
{
    if n == 0 {
        Set::empty()
    } else {
        let prev = running_sub_ids(subs, (n - 1) as nat);
        if subs[n - 1].status == RunStatus::Running {
            prev.insert(subs[n - 1].id)
        } else {
            prev
        }
    }
}

/// The identifiers of an item and its subtasks that run.
pub open spec fn item_running_ids(it: Item) -> Set<u128> {
    let own = if it.status == RunStatus::Running { set![it.id] } else { Set::empty() };
    own + running_sub_ids(it.subtasks@, it.subtasks@.len())
}

/// The identifiers of the running items among the first `n` tasks and their subtasks.
pub open spec fn running_ids(tasks: Seq<Item>, n: nat) -> Set<u128>
    decreases n,
{
    if n == 0 {
        Set::empty()
    } else {
        running_ids(tasks, (n - 1) as nat) + item_running_ids(tasks[n - 1])
    }
}

/// Each item of `after` is its counterpart in `before`, paused if it ran.
pub open spec fn paused_for_mode(before: Seq<Item>, after: Seq<Item>, now: Stamp) -> bool {
    &&& after.len() == before.len()
    &&& forall|i: int| 0 <= i < before.len() ==> {
        &&& (#[trigger] after[i]).status == if before[i].status == RunStatus::Running { RunStatus::Paused } else { before[i].status }
        &&& after[i].id == before[i].id
        &&& after[i].wf()
        &&& after[i].subtasks@.len() == before[i].subtasks@.len()
        &&& forall|j: int| 0 <= j < before[i].subtasks@.len() ==> {
            &&& (#[trigger] after[i].subtasks@[j]).status == if before[i].subtasks@[j].status == RunStatus::Running {
                RunStatus::Paused
            } else {
                before[i].subtasks@[j].status
            }
            &&& after[i].subtasks@[j].id == before[i].subtasks@[j].id
        }
    }
}

/// Each item of `after` runs if its identifier is in `ids`, and is otherwise its
/// counterpart in `before` unchanged in status.
pub open spec fn resumed_for_mode(before: Seq<Item>, after: Seq<Item>, ids: Seq<u128>) -> bool {
    &&& after.len() == before.len()
    &&& forall|i: int| 0 <= i < before.len() ==> {
        &&& (#[trigger] after[i]).status == if ids.contains(before[i].id) { RunStatus::Running } else { before[i].status }
        &&& after[i].id == before[i].id
        &&& after[i].wf()
        &&& after[i].subtasks@.len() == before[i].subtasks@.len()
        &&& forall|j: int| 0 <= j < before[i].subtasks@.len() ==> {
            &&& (#[trigger] after[i].subtasks@[j]).status == if ids.contains(before[i].subtasks@[j].id) {
                RunStatus::Running
            } else {
                before[i].subtasks@[j].status
            }
            &&& after[i].subtasks@[j].id == before[i].subtasks@[j].id
        }
    }
}

/// `after` is `before` paused if it ran, and `before` itself otherwise.
pub open spec fn mode_paused(before: Item, after: Item, now: Stamp) -> bool {
    if before.status == RunStatus::Running {
        crate::item::paused_from(before, after, now)
    } else {
        after == before
    }
}

/// `after` is `before` started if its identifier is listed and it did not
/// run, and `before` itself otherwise.
pub open spec fn mode_resumed(before: Item, after: Item, ids: Seq<u128>, now: Stamp) -> bool {
    if ids.contains(before.id) && before.status != RunStatus::Running {
        crate::item::started_from(before, after, now)
    } else {
        after == before
    }
}

/// Timers and histories after leaving Working: each running item (task or
/// subtask) paused with one Running -> Paused event, every other one unchanged.
pub open spec fn paused_in_full(before: Seq<Item>, after: Seq<Item>, now: Stamp) -> bool {
    &&& after.len() == before.len()
    &&& forall|i: int| 0 <= i < before.len() ==> {
        &&& mode_paused(Item { subtasks: (#[trigger] after[i]).subtasks, ..before[i] }, after[i], now)
        &&& after[i].subtasks@.len() == before[i].subtasks@.len()
        &&& forall|j: int| 0 <= j < before[i].subtasks@.len() ==> mode_paused(
            before[i].subtasks@[j],
            #[trigger] after[i].subtasks@[j],
            now,
        )
    }
}

/// Timers and histories after returning to Working: each listed item that
/// did not run started with one Running event, every other one unchanged.
pub open spec fn resumed_in_full(before: Seq<Item>, after: Seq<Item>, ids: Seq<u128>, now: Stamp) -> bool {
    &&& after.len() == before.len()
    &&& forall|i: int| 0 <= i < before.len() ==> {
        &&& mode_resumed(Item { subtasks: (#[trigger] after[i]).subtasks, ..before[i] }, after[i], ids, now)
        &&& after[i].subtasks@.len() == before[i].subtasks@.len()
        &&& forall|j: int| 0 <= j < before[i].subtasks@.len() ==> mode_resumed(
            before[i].subtasks@[j],
            #[trigger] after[i].subtasks@[j],
            ids,
            now,
        )
    }
}

/// All items are well-formed.
pub open spec fn all_wf(tasks: Seq<Item>) -> bool {
    forall|i: int| 0 <= i < tasks.len() ==> (#[trigger] tasks[i]).wf()
}


/// Pause an item and its subtasks that run, recording their identifiers.
fn pause_item_for_mode(it: &mut Item, ids: &mut Vec<u128>, now: Stamp)
    requires
        old(it).wf(),
        now.wf(),
    ensures
        final(it).wf(),
        final(it).id == old(it).id,
        final(it).status == if old(it).status == RunStatus::Running { RunStatus::Paused } else { old(it).status },
        final(it).subtasks@.len() == old(it).subtasks@.len(),
        forall|j: int| 0 <= j < old(it).subtasks@.len() ==> {
            &&& (#[trigger] final(it).subtasks@[j]).status == if old(it).subtasks@[j].status == RunStatus::Running {
                RunStatus::Paused
            } else {
                old(it).subtasks@[j].status
            }
            &&& final(it).subtasks@[j].id == old(it).subtasks@[j].id
        },
        forall|id: u128| final(ids)@.contains(id) <==> (old(ids)@.contains(id) || item_running_ids(*old(it)).contains(id)),
        mode_paused(Item { subtasks: final(it).subtasks, ..*old(it) }, *final(it), now),
        forall|j: int| 0 <= j < old(it).subtasks@.len() ==> mode_paused(old(it).subtasks@[j], #[trigger] final(it).subtasks@[j], now),
{
    if it.status == RunStatus::Running {
        ids.push(it.id);
        it.pause(now);
    }
    let ghost ids1 = ids@;
    let ghost mid = *it;
    proof {
        assert forall|id: u128| ids1.contains(id) <==> (old(ids)@.contains(id) || (old(it).status == RunStatus::Running && id == old(it).id)) by {
            if old(it).status == RunStatus::Running {
                lemma_push_contains(old(ids)@, old(it).id, id);
            }
        }
    }
    let n = it.subtasks.len();
    let mut j: usize = 0;
    while j < n
        invariant
            n == old(it).subtasks@.len(),
            it.subtasks@.len() == n,
            j <= n,
            now.wf(),
            it.own_ok(),
            it.id == old(it).id,
            it.status == mid.status,
            mid.subtasks == old(it).subtasks,
            mode_paused(*old(it), mid, now),
            *it == (Item { subtasks: it.subtasks, ..mid }),
            forall|k: int| 0 <= k < n ==> (#[trigger] it.subtasks@[k]).leaf_ok(),
            forall|k: int| 0 <= k < j ==> {
                &&& (#[trigger] it.subtasks@[k]).status == if old(it).subtasks@[k].status == RunStatus::Running {
                    RunStatus::Paused
                } else {
                    old(it).subtasks@[k].status
                }
                &&& it.subtasks@[k].id == old(it).subtasks@[k].id
                &&& mode_paused(old(it).subtasks@[k], it.subtasks@[k], now)
            },
            forall|k: int| j <= k < n ==> (#[trigger] it.subtasks@[k]) == old(it).subtasks@[k],
            forall|id: u128| #[trigger] ids@.contains(id) <==> (ids1.contains(id) || running_sub_ids(old(it).subtasks@, j as nat).contains(id)),
        decreases n - j,
    {
        let ghost before = ids@;
        let ghost subs = old(it).subtasks@;
        proof {
            assert(it.subtasks@[j as int] == subs[j as int]);
            assert(running_sub_ids(subs, (j + 1) as nat) == if subs[j as int].status == RunStatus::Running {
                running_sub_ids(subs, j as nat).insert(subs[j as int].id)
            } else {
                running_sub_ids(subs, j as nat)
            });
        }
        let running = it.subtasks[j].status == RunStatus::Running;
        if running {
            let sid = it.subtasks[j].id;
            ids.push(sid);
            it.subtasks[j].pause(now);
        }
        proof {
            assert forall|id: u128| #[trigger] ids@.contains(id) <==> (ids1.contains(id) || running_sub_ids(subs, (j + 1) as nat).contains(id)) by {
                assert(before.contains(id) <==> (ids1.contains(id) || running_sub_ids(subs, j as nat).contains(id)));
                if running {
                    lemma_push_contains(before, subs[j as int].id, id);
                } else {
                    assert(ids@ == before);
                }
            }
        }
        j = j + 1;
    }
    proof {
        assert forall|id: u128| final(ids)@.contains(id) <==> (old(ids)@.contains(id) || item_running_ids(*old(it)).contains(id)) by {
            assert(final(ids)@.contains(id) <==> (ids1.contains(id) || running_sub_ids(old(it).subtasks@, n as nat).contains(id)));
            if old(it).status == RunStatus::Running {
                assert(set![old(it).id].contains(id) <==> id == old(it).id);
            } else {
                assert(!Set::<u128>::empty().contains(id));
            }
        }
    }
}

/// Start an item and its subtasks whose identifiers are listed.
fn resume_item_for_mode(it: &mut Item, ids: &Vec<u128>, now: Stamp)
    requires
        old(it).wf(),
        now.wf(),
    ensures
        final(it).wf(),
        final(it).id == old(it).id,
        final(it).status == if ids@.contains(old(it).id) { RunStatus::Running } else { old(it).status },
        final(it).subtasks@.len() == old(it).subtasks@.len(),
        forall|j: int| 0 <= j < old(it).subtasks@.len() ==> {
            &&& (#[trigger] final(it).subtasks@[j]).status == if ids@.contains(old(it).subtasks@[j].id) {
                RunStatus::Running
            } else {
                old(it).subtasks@[j].status
            }
            &&& final(it).subtasks@[j].id == old(it).subtasks@[j].id
        },
        mode_resumed(Item { subtasks: final(it).subtasks, ..*old(it) }, *final(it), ids@, now),
        forall|j: int| 0 <= j < old(it).subtasks@.len() ==> mode_resumed(old(it).subtasks@[j], #[trigger] final(it).subtasks@[j], ids@, now),
{
    if contains_id(ids, it.id) {
        it.start(now);
    }
    let ghost mid = *it;
    let n = it.subtasks.len();
    let mut j: usize = 0;
    while j < n
        invariant
            n == old(it).subtasks@.len(),
            it.subtasks@.len() == n,
            j <= n,
            now.wf(),
            it.own_ok(),
            it.id == old(it).id,
            it.status == if ids@.contains(old(it).id) { RunStatus::Running } else { old(it).status },
            mid.subtasks == old(it).subtasks,
            mode_resumed(*old(it), mid, ids@, now),
            *it == (Item { subtasks: it.subtasks, ..mid }),
            forall|k: int| 0 <= k < n ==> (#[trigger] it.subtasks@[k]).leaf_ok(),
            forall|k: int| 0 <= k < j ==> {
                &&& (#[trigger] it.subtasks@[k]).status == if ids@.contains(old(it).subtasks@[k].id) {
                    RunStatus::Running
                } else {
                    old(it).subtasks@[k].status
                }
                &&& it.subtasks@[k].id == old(it).subtasks@[k].id
                &&& mode_resumed(old(it).subtasks@[k], it.subtasks@[k], ids@, now)
            },
            forall|k: int| j <= k < n ==> (#[trigger] it.subtasks@[k]) == old(it).subtasks@[k],
        decreases n - j,
    {
        if contains_id(ids, it.subtasks[j].id) {
            it.subtasks[j].start(now);
        }
        j = j + 1;
    }
}

/// Start every task and subtask whose identifier was recorded when the mode
/// left Working, then forget the record.
pub fn resume_all_from_mode(tasks: &mut Vec<Item>, meta: &mut AppMetadata, now: Stamp)
    requires
        all_wf(old(tasks)@),
        now.wf(),
    ensures
        all_wf(final(tasks)@),
        resumed_for_mode(old(tasks)@, final(tasks)@, old(meta).paused_by_mode_task_ids@),
        resumed_in_full(old(tasks)@, final(tasks)@, old(meta).paused_by_mode_task_ids@, now),
        final(meta).paused_by_mode_task_ids@.len() == 0,
        final(meta).global_mode == old(meta).global_mode,
        final(meta).last_mode_change_timestamp == old(meta).last_mode_change_timestamp,
        forall|o: GlobalMode| final(meta).spec_counter(o) == old(meta).spec_counter(o),
{
    let n = tasks.len();
    let mut i: usize = 0;
    while i < n
        invariant
            n == old(tasks)@.len(),
            tasks@.len() == n,
            i <= n,
            now.wf(),
            *meta == *old(meta),
            all_wf(old(tasks)@),
            forall|k: int| 0 <= k < n ==> (#[trigger] tasks@[k]).wf(),
            resumed_for_mode(old(tasks)@.subrange(0, i as int), tasks@.subrange(0, i as int), meta.paused_by_mode_task_ids@),
            forall|k: int| 0 <= k < i ==> {
                &&& mode_resumed(Item { subtasks: (#[trigger] tasks@[k]).subtasks, ..old(tasks)@[k] }, tasks@[k], meta.paused_by_mode_task_ids@, now)
                &&& tasks@[k].subtasks@.len() == old(tasks)@[k].subtasks@.len()
                &&& forall|j: int| 0 <= j < old(tasks)@[k].subtasks@.len() ==> mode_resumed(
                    old(tasks)@[k].subtasks@[j],
                    #[trigger] tasks@[k].subtasks@[j],
                    meta.paused_by_mode_task_ids@,
                    now,
                )
            },
            forall|k: int| i <= k < n ==> (#[trigger] tasks@[k]) == old(tasks)@[k],
        decreases n - i,
    {
        let ghost before = tasks@;
        let ghost ids = meta.paused_by_mode_task_ids@;
        assert(tasks@[i as int] == old(tasks)@[i as int]);
        resume_item_for_mode(&mut tasks[i], &meta.paused_by_mode_task_ids, now);
        proof {
            let a = old(tasks)@.subrange(0, i + 1);
            let b = tasks@.subrange(0, i + 1);
            assert forall|k: int| 0 <= k < i + 1 implies {
                &&& (#[trigger] b[k]).status == if ids.contains(a[k].id) { RunStatus::Running } else { a[k].status }
                &&& b[k].id == a[k].id
                &&& b[k].wf()
                &&& b[k].subtasks@.len() == a[k].subtasks@.len()
                &&& forall|j: int| 0 <= j < a[k].subtasks@.len() ==> {
                    &&& (#[trigger] b[k].subtasks@[j]).status == if ids.contains(a[k].subtasks@[j].id) {
                        RunStatus::Running
                    } else {
                        a[k].subtasks@[j].status
                    }
                    &&& b[k].subtasks@[j].id == a[k].subtasks@[j].id
                }
            } by {
                if k < i {
                    assert(b[k] == before.subrange(0, i as int)[k]);
                    assert(a[k] == old(tasks)@.subrange(0, i as int)[k]);
                }
            }
        }
        i = i + 1;
    }
    proof {
        assert(old(tasks)@.subrange(0, n as int) == old(tasks)@);
        assert(tasks@.subrange(0, n as int) == tasks@);
    }
    let ghost ids0 = meta.paused_by_mode_task_ids@;
    meta.paused_by_mode_task_ids = Vec::new();
    proof {
        let b = final(tasks)@;
        assert(ids0 == old(meta).paused_by_mode_task_ids@);
        assert forall|k: int| 0 <= k < n implies {
            &&& mode_resumed(Item { subtasks: (#[trigger] b[k]).subtasks, ..old(tasks)@[k] }, b[k], ids0, now)
            &&& b[k].subtasks@.len() == old(tasks)@[k].subtasks@.len()
            &&& forall|j: int| 0 <= j < old(tasks)@[k].subtasks@.len() ==> mode_resumed(
                old(tasks)@[k].subtasks@[j],
                #[trigger] b[k].subtasks@[j],
                ids0,
                now,
            )
        } by {}
    }
}

/// Switch the global mode at `now`: the time since the last change goes to
/// the counter of the mode being left; leaving Working pauses the running
/// items, and returning to Working resumes exactly those recorded then.
/// Moving between two other modes leaves the items alone.
pub fn set_global_mode(tasks: &mut Vec<Item>, meta: &mut AppMetadata, mode: GlobalMode, now: Stamp)
    requires
        all_wf(old(tasks)@),
        now.wf(),
        old(meta).last_mode_change_timestamp is Some ==> old(meta).last_mode_change_timestamp->0.wf(),
    ensures
        all_wf(final(tasks)@),
        final(meta).global_mode == mode,
        final(meta).last_mode_change_timestamp == Some(now),
        final(meta).spec_counter(old(meta).global_mode) == crate::item::clamp_dur(
            old(meta).spec_counter(old(meta).global_mode) + match old(meta).last_mode_change_timestamp {
                Some(t) => span(t.secs as int, now.secs as int),
                None => 0,
            },
        ),
        forall|o: GlobalMode| o != old(meta).global_mode ==> final(meta).spec_counter(o) == old(meta).spec_counter(o),
        mode.spec_pauses_timers() && !old(meta).global_mode.spec_pauses_timers() ==> {
            &&& paused_for_mode(old(tasks)@, final(tasks)@, now)
            &&& paused_in_full(old(tasks)@, final(tasks)@, now)
            &&& forall|id: u128| final(meta).paused_by_mode_task_ids@.contains(id) <==> running_ids(old(tasks)@, old(tasks)@.len()).contains(id)
        },
        !mode.spec_pauses_timers() && old(meta).global_mode.spec_pauses_timers() ==> {
            &&& resumed_for_mode(old(tasks)@, final(tasks)@, old(meta).paused_by_mode_task_ids@)
            &&& resumed_in_full(old(tasks)@, final(tasks)@, old(meta).paused_by_mode_task_ids@, now)
            &&& final(meta).paused_by_mode_task_ids@.len() == 0
        },
        mode.spec_pauses_timers() == old(meta).global_mode.spec_pauses_timers() ==> {
            &&& final(tasks)@ == old(tasks)@
            &&& final(meta).paused_by_mode_task_ids == old(meta).paused_by_mode_task_ids
        },
{
    let previous = meta.global_mode;
    let add: i64 = match meta.last_mode_change_timestamp {
        Some(t) => if now.secs >= t.secs { now.secs - t.secs } else { 0 },
        None => 0,
    };
    meta.add_mode_time(previous, add);
    meta.global_mode = mode;
    meta.last_mode_change_timestamp = Some(now);
    if mode.should_pause_timers() && !previous.should_pause_timers() {
        pause_all_for_mode(tasks, meta, now);
    } else if !mode.should_pause_timers() && previous.should_pause_timers() {
        resume_all_from_mode(tasks, meta, now);
    }
}

/// Leaving Working and coming back, with nothing in between, leaves each
/// task and subtask that ran running again and every other one in the status
/// it had: exactly the items running at the first switch are paused and then
/// resumed (given that no item shares its identifier with a running item but itself).
pub proof fn lemma_mode_round_trip(before: Seq<Item>, between: Seq<Item>, after: Seq<Item>, ids: Seq<u128>, now: Stamp)
    requires
        paused_for_mode(before, between, now),
        forall|id: u128| ids.contains(id) <==> running_ids(before, before.len()).contains(id),
        resumed_for_mode(between, after, ids),
        forall|i: int| 0 <= i < before.len() ==> !running_ids(before, before.len()).contains(#[trigger] before[i].id)
            || before[i].status == RunStatus::Running,
        forall|i: int, j: int| 0 <= i < before.len() && 0 <= j < before[i].subtasks@.len() ==> !running_ids(
            before,
            before.len(),
        ).contains(#[trigger] before[i].subtasks@[j].id) || before[i].subtasks@[j].status == RunStatus::Running,
    ensures
        after.len() == before.len(),
        forall|i: int| 0 <= i < before.len() ==> (#[trigger] after[i]).status == before[i].status,
        forall|i: int, j: int| 0 <= i < before.len() && 0 <= j < before[i].subtasks@.len() ==> (#[trigger] after[i].subtasks@[j]).status
            == before[i].subtasks@[j].status,
{
    assert forall|i: int| 0 <= i < before.len() implies (#[trigger] after[i]).status == before[i].status by {
        assert(between[i].id == before[i].id);
        if before[i].status == RunStatus::Running {
            lemma_running_ids_has(before, before.len(), i);
        }
    }
    assert forall|i: int, j: int| 0 <= i < before.len() && 0 <= j < before[i].subtasks@.len() implies (#[trigger] after[i].subtasks@[j]).status
        == before[i].subtasks@[j].status by {
        assert(between[i].subtasks@[j].id == before[i].subtasks@[j].id);
        if before[i].subtasks@[j].status == RunStatus::Running {
            lemma_running_sub_ids_has(before[i].subtasks@, before[i].subtasks@.len(), j);
            lemma_running_ids_from_item(before, before.len(), i, before[i].subtasks@[j].id);
        }
    }
}

proof fn lemma_running_sub_ids_has(subs: Seq<Item>, n: nat, j: int)
    requires
        0 <= j < n <= subs.len(),
        subs[j].status == RunStatus::Running,
    ensures
        running_sub_ids(subs, n).contains(subs[j].id),
    decreases n,
{
    if j < n - 1 {
        lemma_running_sub_ids_has(subs, (n - 1) as nat, j);
    }
}

proof fn lemma_running_ids_from_item(tasks: Seq<Item>, n: nat, i: int, id: u128)
    requires
        0 <= i < n <= tasks.len(),
        running_sub_ids(tasks[i].subtasks@, tasks[i].subtasks@.len()).contains(id),
    ensures
        running_ids(tasks, n).contains(id),
    decreases n,
{
    if i < n - 1 {
        lemma_running_ids_from_item(tasks, (n - 1) as nat, i, id);
    } else {
        assert(item_running_ids(tasks[i]).contains(id));
    }
}

proof fn lemma_running_ids_has(tasks: Seq<Item>, n: nat, i: int)
    requires
        0 <= i < n <= tasks.len(),
        tasks[i].status == RunStatus::Running,
    ensures
        running_ids(tasks, n).contains(tasks[i].id),
    decreases n,
{
    if i < n - 1 {
        lemma_running_ids_has(tasks, (n - 1) as nat, i);
    } else {
        assert(item_running_ids(tasks[i]).contains(tasks[i].id));
    }
}

proof fn lemma_push_contains(s: Seq<u128>, x: u128, y: u128)
    ensures
        s.push(x).contains(y) <==> (s.contains(y) || x == y),
{
    let p = s.push(x);
    if s.contains(y) {
        let k = choose|k: int| 0 <= k < s.len() && s[k] == y;
        assert(p[k] == y);
    }
    if x == y {
        assert(p[s.len() as int] == y);
    }
    if p.contains(y) {
        let k = choose|k: int| 0 <= k < p.len() && p[k] == y;
        if k < s.len() {
            assert(s[k] == y);
        }
    }
}

/// Pause every running task and subtask because the mode leaves Working;
/// the identifiers of exactly those items are recorded.
pub fn pause_all_for_mode(tasks: &mut Vec<Item>, meta: &mut AppMetadata, now: Stamp)
    requires
        all_wf(old(tasks)@),
        now.wf(),
    ensures
        all_wf(final(tasks)@),
        paused_for_mode(old(tasks)@, final(tasks)@, now),
        paused_in_full(old(tasks)@, final(tasks)@, now),
        forall|id: u128| final(meta).paused_by_mode_task_ids@.contains(id) <==> running_ids(old(tasks)@, old(tasks)@.len()).contains(id),
        final(meta).global_mode == old(meta).global_mode,
        final(meta).last_mode_change_timestamp == old(meta).last_mode_change_timestamp,
        forall|o: GlobalMode| final(meta).spec_counter(o) == old(meta).spec_counter(o),
{
    let mut ids: Vec<u128> = Vec::new();
    let n = tasks.len();
    let mut i: usize = 0;
    while i < n
        invariant
            n == old(tasks)@.len(),
            tasks@.len() == n,
            i <= n,
            now.wf(),
            all_wf(old(tasks)@),
            forall|k: int| 0 <= k < n ==> (#[trigger] tasks@[k]).wf(),
            paused_for_mode(old(tasks)@.subrange(0, i as int), tasks@.subrange(0, i as int), now),
            forall|k: int| 0 <= k < i ==> {
                &&& mode_paused(Item { subtasks: (#[trigger] tasks@[k]).subtasks, ..old(tasks)@[k] }, tasks@[k], now)
                &&& tasks@[k].subtasks@.len() == old(tasks)@[k].subtasks@.len()
                &&& forall|j: int| 0 <= j < old(tasks)@[k].subtasks@.len() ==> mode_paused(
                    old(tasks)@[k].subtasks@[j],
                    #[trigger] tasks@[k].subtasks@[j],
                    now,
                )
            },
            forall|k: int| i <= k < n ==> (#[trigger] tasks@[k]) == old(tasks)@[k],
            forall|id: u128| ids@.contains(id) <==> running_ids(old(tasks)@, i as nat).contains(id),
        decreases n - i,
    {
        let ghost before = tasks@;
        assert(tasks@[i as int] == old(tasks)@[i as int]);
        pause_item_for_mode(&mut tasks[i], &mut ids, now);
        proof {
            let a = old(tasks)@.subrange(0, i + 1);
            let b = tasks@.subrange(0, i + 1);
            assert forall|k: int| 0 <= k < i + 1 implies (#[trigger] b[k]).status == (if a[k].status == RunStatus::Running { RunStatus::Paused } else { a[k].status }) by {
                if k < i {
                    assert(b[k] == before.subrange(0, i as int)[k]);
                    assert(a[k] == old(tasks)@.subrange(0, i as int)[k]);
                }
            }
            assert forall|k: int| 0 <= k < i + 1 implies {
                &&& (#[trigger] b[k]).id == a[k].id
                &&& b[k].wf()
                &&& b[k].subtasks@.len() == a[k].subtasks@.len()
                &&& forall|j: int| 0 <= j < a[k].subtasks@.len() ==> {
                    &&& (#[trigger] b[k].subtasks@[j]).status == if a[k].subtasks@[j].status == RunStatus::Running {
                        RunStatus::Paused
                    } else {
                        a[k].subtasks@[j].status
                    }
                    &&& b[k].subtasks@[j].id == a[k].subtasks@[j].id
                }
            } by {
                if k < i {
                    assert(b[k] == before.subrange(0, i as int)[k]);
                    assert(a[k] == old(tasks)@.subrange(0, i as int)[k]);
                }
            }
        }
        i = i + 1;
    }
    proof {
        assert(old(tasks)@.subrange(0, n as int) == old(tasks)@);
        assert(tasks@.subrange(0, n as int) == tasks@);
    }
    meta.paused_by_mode_task_ids = ids;
    proof {
        let b = final(tasks)@;
        assert forall|k: int| 0 <= k < n implies {
            &&& mode_paused(Item { subtasks: (#[trigger] b[k]).subtasks, ..old(tasks)@[k] }, b[k], now)
            &&& b[k].subtasks@.len() == old(tasks)@[k].subtasks@.len()
            &&& forall|j: int| 0 <= j < old(tasks)@[k].subtasks@.len() ==> mode_paused(
                old(tasks)@[k].subtasks@[j],
                #[trigger] b[k].subtasks@[j],
                now,
            )
        } by {}
    }
}

} // verus!
