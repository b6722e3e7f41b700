use vstd::prelude::*;
use crate::clock::Stamp;
use crate::item::{paused_from, same_item, subtask_paused, subtask_toggled, toggled_from, Item};
use crate::modes::{all_wf, AppMetadata};
use crate::status::RunStatus;
use crate::views::{flat_rows, flatten_tasks, MAX_ROWS};

verus! {

/// How many actions the undo stack keeps.
pub const UNDO_CAPACITY: usize = 10;


/// Where a removed item came from, with a snapshot of it.
#[derive(Debug)]
pub struct Removed {
    /// The item as it was before the action.
    pub item: Item,
    pub was_subtask: bool,
    pub parent_task_index: Option<usize>,
    pub subtask_index: Option<usize>,
    pub task_index: usize,
}

/// An action that can be undone.
#[derive(Debug)]
pub enum UndoAction {
    MarkedDone(Removed),
    Deleted(Removed),
    Archived(Removed),
}

impl UndoAction {
    /// The snapshot and place an action recorded.
    pub open spec fn removed(self) -> Removed {
        match self {
            UndoAction::MarkedDone(r) => r,
            UndoAction::Deleted(r) => r,
            UndoAction::Archived(r) => r,
        }
    }
}

/// A snapshot fits where it goes back: a subtask is a leaf, a task is well-formed.
pub open spec fn removed_ok(r: Removed) -> bool {
    &&& if r.was_subtask {
        r.item.leaf_ok()
    } else {
        r.item.wf()
    }
    &&& r.item.subtasks@.len() < MAX_ROWS
}

/// The lists of the day, the selection and the undo stack.
#[derive(Debug)]
pub struct AppState {
    pub tasks: Vec<Item>,
    pub done_today: Vec<Item>,
    pub archived_today: Vec<Item>,
    /// Index of the selected row of the flattened task list.
    pub selected_index: usize,
    /// Most recent action last.
    pub undo_stack: Vec<UndoAction>,
    pub meta: AppMetadata,
    /// Seconds by which the estimate keys change an estimate.
    pub estimate_step: i64,
}

/// Default step of the estimate keys: fifteen minutes.
pub const ESTIMATE_STEP: i64 = 900;

/// The task list is within the board's capacity.
pub open spec fn tasks_fit(tasks: Seq<Item>) -> bool {
    &&& tasks.len() < MAX_ROWS
    &&& forall|i: int| 0 <= i < tasks.len() ==> (#[trigger] tasks[i]).subtasks@.len() < MAX_ROWS
}

/// The task and subtask a row stands for exist.
pub proof fn lemma_rows_point_inside(tasks: Seq<Item>, n: nat)
    requires
        n <= tasks.len(),
        tasks_fit(tasks),
    ensures
        forall|k: int| 0 <= k < flat_rows(tasks, n).len() ==> {
            &&& (#[trigger] flat_rows(tasks, n)[k]).task_index < n
            &&& (flat_rows(tasks, n)[k].subtask_index is Some ==> flat_rows(tasks, n)[k].subtask_index->0
                < tasks[flat_rows(tasks, n)[k].task_index as int].subtasks@.len())
        },
    decreases n,
{
    if n > 0 {
        lemma_rows_point_inside(tasks, (n - 1) as nat);
        let prev = flat_rows(tasks, (n - 1) as nat);
        let rows = flat_rows(tasks, n);
        assert forall|k: int| 0 <= k < rows.len() implies {
            &&& (#[trigger] rows[k]).task_index < n
            &&& (rows[k].subtask_index is Some ==> rows[k].subtask_index->0 < tasks[rows[k].task_index as int].subtasks@.len())
        } by {
            let t = tasks[n - 1];
            if k < prev.len() {
                assert(rows[k] == prev[k]);
            } else if k == prev.len() {
                assert(rows[k].task_index == (n - 1) as usize);
                assert(rows[k].subtask_index is None);
            } else {
                let j = k - prev.len() - 1;
                assert(t.expanded);
                assert(0 <= j < t.subtasks@.len());
                assert(t.subtasks@.len() < MAX_ROWS);
                assert(rows[k].task_index == (n - 1) as usize);
                assert(rows[k].subtask_index == Some(j as usize));
            }
        }
    }
}

impl AppState {
    /// All lists well-formed and within capacity; the undo stack bounded and its snapshots fit.
    pub open spec fn wf(self) -> bool {
        &&& all_wf(self.tasks@)
        &&& all_wf(self.done_today@)
        &&& all_wf(self.archived_today@)
        &&& tasks_fit(self.tasks@)
        &&& self.undo_stack@.len() <= UNDO_CAPACITY
        &&& forall|i: int| 0 <= i < self.undo_stack@.len() ==> removed_ok((#[trigger] self.undo_stack@[i]).removed())
    }

    /// The selected item itself (meaningful when there is a selection).
    pub open spec fn spec_selected_item(self) -> Item {
        match self.spec_selected() {
            Some((t, None)) => self.tasks@[t as int],
            Some((t, Some(st))) => self.tasks@[t as int].subtasks@[st as int],
            None => self.tasks@[0],
        }
    }

    /// The undo stack after recording `a`: pushed, the oldest dropped beyond capacity.
    pub open spec fn pushed_undo(stack: Seq<UndoAction>, a: UndoAction) -> Seq<UndoAction> {
        if stack.len() + 1 > UNDO_CAPACITY {
            stack.push(a).remove(0)
        } else {
            stack.push(a)
        }
    }

    /// The tasks after putting a snapshot back: a subtask at the end of its
    /// parent's subtasks when that parent still exists and has room, a task at
    /// its old position (or the end) when there is room; otherwise unchanged.
    pub open spec fn restored_tasks(tasks: Seq<Item>, rem: Removed, after: Seq<Item>) -> bool {
        if rem.was_subtask {
            match rem.parent_task_index {
                Some(p) => if p < tasks.len() && tasks[p as int].subtasks@.len() + 1 < MAX_ROWS {
                    &&& after.len() == tasks.len()
                    &&& after[p as int] == (Item { subtasks: after[p as int].subtasks, ..tasks[p as int] })
                    &&& after[p as int].subtasks@ == tasks[p as int].subtasks@.push(rem.item)
                    &&& forall|k: int| 0 <= k < tasks.len() && k != p ==> (#[trigger] after[k]) == tasks[k]
                } else {
                    after == tasks
                },
                None => after == tasks,
            }
        } else if tasks.len() + 1 < MAX_ROWS {
            after == tasks.insert(if rem.task_index < tasks.len() { rem.task_index as int } else { tasks.len() as int }, rem.item)
        } else {
            after == tasks
        }
    }

    /// The task and subtask that the selected row stands for.
    pub open spec fn spec_selected(self) -> Option<(usize, Option<usize>)> {
        let rows = flat_rows(self.tasks@, self.tasks@.len());
        if self.selected_index < rows.len() {
            Some((rows[self.selected_index as int].task_index, rows[self.selected_index as int].subtask_index))
        } else {
            None
        }
    }

    /// A board over loaded lists, nothing selected but the first row.
    pub fn new(tasks: Vec<Item>, done_today: Vec<Item>, archived_today: Vec<Item>, meta: AppMetadata) -> (r: Self)
        ensures
            r.tasks == tasks,
            r.done_today == done_today,
            r.archived_today == archived_today,
            r.selected_index == 0,
            r.undo_stack@.len() == 0,
            r.estimate_step == ESTIMATE_STEP,
            r.meta == meta,
            all_wf(tasks@) && all_wf(done_today@) && all_wf(archived_today@) && tasks_fit(tasks@) ==> r.wf(),
    {
        AppState { tasks, done_today, archived_today, selected_index: 0, undo_stack: Vec::new(), meta, estimate_step: ESTIMATE_STEP }
    }

    /// The selected task index and, for a subtask row, its subtask index.
    pub fn get_selected_item(&self) -> (r: Option<(usize, Option<usize>)>)
        requires
            self.wf(),
        ensures
            r == self.spec_selected(),
            r is Some ==> r.unwrap().0 < self.tasks@.len(),
            r is Some && r.unwrap().1 is Some ==> r.unwrap().1.unwrap() < self.tasks@[r.unwrap().0 as int].subtasks@.len(),
    {
        let rows = flatten_tasks(&self.tasks);
        proof {
            lemma_rows_point_inside(self.tasks@, self.tasks@.len());
        }
        if self.selected_index < rows.len() {
            let row = rows[self.selected_index];
            Some((row.task_index, row.subtask_index))
        } else {
            None
        }
    }

    /// Move the selection one row up.
    pub fn move_selection_up(&mut self)
        ensures
            final(self).selected_index == if old(self).selected_index > 0 { (old(self).selected_index - 1) as usize } else { 0 },
            final(self).tasks == old(self).tasks,
    {
        if self.selected_index > 0 {
            self.selected_index = self.selected_index - 1;
        }
    }

    /// Move the selection one row down, if there is a row below.
    pub fn move_selection_down(&mut self)
        requires
            old(self).wf(),
        ensures
            final(self).wf(),
            final(self).selected_index == if old(self).selected_index + 1 < flat_rows(old(self).tasks@, old(self).tasks@.len()).len() {
                (old(self).selected_index + 1) as usize
            } else {
                old(self).selected_index
            },
            final(self).tasks == old(self).tasks,
    {
        let rows = flatten_tasks(&self.tasks);
        if self.selected_index < rows.len() && self.selected_index + 1 < rows.len() {
            self.selected_index = self.selected_index + 1;
        }
    }

    /// Keep the selection on a row after the list shrank.
    fn clamp_selection(&mut self)
        requires
            old(self).wf(),
        ensures
            final(self).wf(),
            final(self).tasks == old(self).tasks,
            final(self).done_today == old(self).done_today,
            final(self).archived_today == old(self).archived_today,
            final(self).undo_stack == old(self).undo_stack,
    {
        let rows = flatten_tasks(&self.tasks);
        if rows.len() == 0 {
            self.selected_index = 0;
        } else if self.selected_index >= rows.len() {
            self.selected_index = rows.len() - 1;
        }
    }

    /// Record an action; only the most recent ones are kept.
    fn push_undo(&mut self, action: UndoAction)
        requires
            old(self).wf(),
            removed_ok(action.removed()),
        ensures
            final(self).wf(),
            final(self).undo_stack@.len() >= 1,
            final(self).undo_stack@.last() == action,
            final(self).undo_stack@ == if old(self).undo_stack@.len() + 1 > UNDO_CAPACITY {
                old(self).undo_stack@.push(action).remove(0)
            } else {
                old(self).undo_stack@.push(action)
            },
            final(self).tasks == old(self).tasks,
            final(self).done_today == old(self).done_today,
            final(self).archived_today == old(self).archived_today,
            final(self).selected_index == old(self).selected_index,
    {
        let ghost s0 = self.undo_stack@;
        self.undo_stack.push(action);
        if self.undo_stack.len() > UNDO_CAPACITY {
            self.undo_stack.remove(0);
        }
        proof {
            let s = self.undo_stack@;
            assert forall|i: int| 0 <= i < s.len() implies removed_ok((#[trigger] s[i]).removed()) by {
                if s0.len() + 1 > UNDO_CAPACITY {
                    assert(s[i] == s0.push(action)[i + 1]);
                } else {
                    assert(s[i] == s0.push(action)[i]);
                }
            }
        }
    }

    /// Take the selected item out of the task list, with a snapshot and its place.
    fn take_selected(&mut self, task_idx: usize, subtask_idx: Option<usize>) -> (r: (Item, Removed))
        requires
            old(self).wf(),
            task_idx < old(self).tasks@.len(),
            subtask_idx is Some ==> subtask_idx->0 < old(self).tasks@[task_idx as int].subtasks@.len(),
        ensures
            final(self).wf(),
            final(self).done_today == old(self).done_today,
            final(self).archived_today == old(self).archived_today,
            final(self).undo_stack == old(self).undo_stack,
            removed_ok(r.1),
            r.1.was_subtask == subtask_idx is Some,
            r.1.task_index == task_idx,
            r.1.subtask_index == subtask_idx,
            r.1.parent_task_index == if subtask_idx is Some { Some(task_idx) } else { None::<usize> },
            r.0.wf(),
            subtask_idx is None ==> {
                &&& r.0 == old(self).tasks@[task_idx as int]
                &&& same_item(r.0, r.1.item)
                &&& final(self).tasks@ == old(self).tasks@.remove(task_idx as int)
            },
            subtask_idx is Some ==> {
                &&& r.0 == old(self).tasks@[task_idx as int].subtasks@[subtask_idx->0 as int]
                &&& same_item(r.0, r.1.item)
                &&& final(self).tasks@.len() == old(self).tasks@.len()
                &&& final(self).tasks@[task_idx as int].subtasks@ == old(self).tasks@[task_idx as int].subtasks@.remove(
                    subtask_idx->0 as int,
                )
                &&& forall|k: int| 0 <= k < old(self).tasks@.len() && k != task_idx ==> (#[trigger] final(self).tasks@[k])
                    == old(self).tasks@[k]
            },
    {
        let ghost t0 = self.tasks@;
        match subtask_idx {
            Some(st) => {
                assert(self.tasks@[task_idx as int].subtasks@[st as int].leaf_ok());
                let snap = self.tasks[task_idx].subtasks[st].duplicate();
                let ghost p0 = self.tasks@[task_idx as int];
                let item = self.tasks[task_idx].subtasks.remove(st);
                proof {
                    let p = self.tasks@[task_idx as int];
                    assert(p == Item { subtasks: p.subtasks, ..p0 });
                    assert forall|k: int| 0 <= k < p.subtasks@.len() implies (#[trigger] p.subtasks@[k]).leaf_ok() by {
                        if k < st {
                            assert(p.subtasks@[k] == p0.subtasks@[k]);
                        } else {
                            assert(p.subtasks@[k] == p0.subtasks@[k + 1]);
                        }
                    }
                    assert forall|k: int| 0 <= k < self.tasks@.len() implies (#[trigger] self.tasks@[k]).wf() by {
                        if k != task_idx {
                            assert(self.tasks@[k] == t0[k]);
                        }
                    }
                    assert forall|k: int| 0 <= k < self.tasks@.len() implies (#[trigger] self.tasks@[k]).subtasks@.len() < MAX_ROWS by {
                        if k != task_idx {
                            assert(self.tasks@[k] == t0[k]);
                        }
                    }
                }
                let rem = Removed {
                    item: snap,
                    was_subtask: true,
                    parent_task_index: Some(task_idx),
                    subtask_index: Some(st),
                    task_index: task_idx,
                };
                (item, rem)
            },
            None => {
                let snap = self.tasks[task_idx].duplicate();
                let item = self.tasks.remove(task_idx);
                proof {
                    assert forall|k: int| 0 <= k < self.tasks@.len() implies (#[trigger] self.tasks@[k]).wf()
                        && self.tasks@[k].subtasks@.len() < MAX_ROWS by {
                        if k < task_idx {
                            assert(self.tasks@[k] == t0[k]);
                        } else {
                            assert(self.tasks@[k] == t0[k + 1]);
                        }
                    }
                }
                let rem = Removed {
                    item: snap,
                    was_subtask: false,
                    parent_task_index: None,
                    subtask_index: None,
                    task_index: task_idx,
                };
                (item, rem)
            },
        }
    }
}


impl AppState {
    /// Mark the selected item done: it leaves the task list for the done
    /// list, and a snapshot of it goes on the undo stack.
    pub fn mark_done(&mut self, now: Stamp)
        requires
            old(self).wf(),
            now.wf(),
        ensures
            final(self).wf(),
            old(self).spec_selected() is None ==> final(self).tasks == old(self).tasks && final(self).done_today
                == old(self).done_today,
            old(self).spec_selected() is Some ==> {
                &&& final(self).done_today@.len() == old(self).done_today@.len() + 1
                &&& final(self).done_today@.last().status == RunStatus::Done
                &&& final(self).done_today@.last().completed_at == Some(now)
                &&& final(self).undo_stack@.last() is MarkedDone
            },
            old(self).spec_selected() matches Some((t, None)) ==> final(self).tasks@ == old(self).tasks@.remove(t as int)
                && final(self).done_today@.last().id == old(self).tasks@[t as int].id,
            old(self).spec_selected() matches Some((t, Some(st))) ==> final(self).tasks@.len() == old(self).tasks@.len()
                && final(self).tasks@[t as int].subtasks@ == old(self).tasks@[t as int].subtasks@.remove(st as int),
            old(self).spec_selected() is Some ==> {
                &&& final(self).done_today@.drop_last() == old(self).done_today@
                &&& crate::item::done_from(old(self).spec_selected_item(), final(self).done_today@.last(), now)
                &&& final(self).undo_stack@ == Self::pushed_undo(old(self).undo_stack@, final(self).undo_stack@.last())
                &&& final(self).undo_stack@.last() is MarkedDone
                &&& same_item(old(self).spec_selected_item(), final(self).undo_stack@.last().removed().item)
                &&& final(self).undo_stack@.last().removed().task_index == old(self).spec_selected().unwrap().0
                &&& final(self).undo_stack@.last().removed().subtask_index == old(self).spec_selected().unwrap().1
            },
            final(self).archived_today == old(self).archived_today,
    {
        match self.get_selected_item() {
            None => {},
            Some((task_idx, subtask_idx)) => {
                let (mut item, rem) = self.take_selected(task_idx, subtask_idx);
                item.mark_done(now);
                self.push_undo(UndoAction::MarkedDone(rem));
                let ghost d0 = self.done_today@;
                self.done_today.push(item);
                proof {
                    assert forall|k: int| 0 <= k < self.done_today@.len() implies (#[trigger] self.done_today@[k]).wf() by {
                        if k < d0.len() {
                            assert(self.done_today@[k] == d0[k]);
                        }
                    }
                }
                self.clamp_selection();
            },
        }
    }

    /// Move the selected item to the archived list, with a snapshot on the undo stack.
    pub fn archive_selected(&mut self)
        requires
            old(self).wf(),
        ensures
            final(self).wf(),
            old(self).spec_selected() is None ==> final(self).tasks == old(self).tasks && final(self).archived_today
                == old(self).archived_today,
            old(self).spec_selected() is Some ==> {
                &&& final(self).archived_today@.len() == old(self).archived_today@.len() + 1
                &&& final(self).undo_stack@.last() is Archived
            },
            old(self).spec_selected() matches Some((t, None)) ==> final(self).tasks@ == old(self).tasks@.remove(t as int)
                && final(self).archived_today@.last() == old(self).tasks@[t as int],
    {
        match self.get_selected_item() {
            None => {},
            Some((task_idx, subtask_idx)) => {
                let (item, rem) = self.take_selected(task_idx, subtask_idx);
                self.push_undo(UndoAction::Archived(rem));
                let ghost a0 = self.archived_today@;
                self.archived_today.push(item);
                proof {
                    assert forall|k: int| 0 <= k < self.archived_today@.len() implies (#[trigger] self.archived_today@[k]).wf() by {
                        if k < a0.len() {
                            assert(self.archived_today@[k] == a0[k]);
                        }
                    }
                }
                self.clamp_selection();
            },
        }
    }

    /// Delete the selected item, with a snapshot on the undo stack. A task
    /// that still has subtasks is not deleted.
    pub fn delete_selected(&mut self)
        requires
            old(self).wf(),
        ensures
            final(self).wf(),
            final(self).done_today == old(self).done_today,
            final(self).archived_today == old(self).archived_today,
            old(self).spec_selected() is None ==> final(self).tasks == old(self).tasks,
            old(self).spec_selected() matches Some((t, None)) ==> (old(self).tasks@[t as int].subtasks@.len() > 0
                ==> *final(self) == *old(self)),
            old(self).spec_selected() matches Some((t, None)) ==> (old(self).tasks@[t as int].subtasks@.len() == 0
                ==> final(self).tasks@ == old(self).tasks@.remove(t as int) && final(self).undo_stack@.last() is Deleted),
            old(self).spec_selected() matches Some((t, Some(st))) ==> final(self).tasks@[t as int].subtasks@
                == old(self).tasks@[t as int].subtasks@.remove(st as int) && final(self).undo_stack@.last() is Deleted,
    {
        match self.get_selected_item() {
            None => {},
            Some((task_idx, subtask_idx)) => {
                if subtask_idx.is_none() && self.tasks[task_idx].subtasks.len() > 0 {
                    return;
                }
                let (_item, rem) = self.take_selected(task_idx, subtask_idx);
                self.push_undo(UndoAction::Deleted(rem));
                self.clamp_selection();
            },
        }
    }

    /// Put a snapshot back: a subtask at the end of its parent's subtasks (if
    /// that parent still exists), a task at its old position or at the end.
    fn restore(&mut self, rem: Removed)
        requires
            old(self).wf(),
            removed_ok(rem),
        ensures
            final(self).wf(),
            final(self).done_today == old(self).done_today,
            final(self).archived_today == old(self).archived_today,
            final(self).undo_stack == old(self).undo_stack,
            Self::restored_tasks(old(self).tasks@, rem, final(self).tasks@),
    {
        if rem.was_subtask {
            match rem.parent_task_index {
                Some(p) => {
                    if p < self.tasks.len() && self.tasks[p].subtasks.len() + 1 < MAX_ROWS {
                        let ghost t0 = self.tasks@;
                        let ghost p0 = self.tasks@[p as int];
                        self.tasks[p].subtasks.push(rem.item);
                        proof {
                            let q = self.tasks@[p as int];
                            assert forall|k: int| 0 <= k < q.subtasks@.len() implies (#[trigger] q.subtasks@[k]).leaf_ok() by {
                                if k < p0.subtasks@.len() {
                                    assert(q.subtasks@[k] == p0.subtasks@[k]);
                                }
                            }
                            assert forall|k: int| 0 <= k < self.tasks@.len() implies (#[trigger] self.tasks@[k]).wf()
                                && self.tasks@[k].subtasks@.len() < MAX_ROWS by {
                                if k != p {
                                    assert(self.tasks@[k] == t0[k]);
                                }
                            }
                        }
                    }
                },
                None => {},
            }
        } else if self.tasks.len() + 1 < MAX_ROWS {
            let ghost t0 = self.tasks@;
            let pos = if rem.task_index < self.tasks.len() { rem.task_index } else { self.tasks.len() };
            self.tasks.insert(pos, rem.item);
            proof {
                assert forall|k: int| 0 <= k < self.tasks@.len() implies (#[trigger] self.tasks@[k]).wf()
                    && self.tasks@[k].subtasks@.len() < MAX_ROWS by {
                    if k < pos {
                        assert(self.tasks@[k] == t0[k]);
                    } else if k > pos {
                        assert(self.tasks@[k] == t0[k - 1]);
                    } else {
                        assert(self.tasks@[k] == rem.item);
                    }
                }
            }
        }
    }

    /// Undo the most recent recorded action (best effort on the position).
    pub fn undo(&mut self)
        requires
            old(self).wf(),
        ensures
            final(self).wf(),
            old(self).undo_stack@.len() == 0 ==> final(self).tasks == old(self).tasks && final(self).done_today
                == old(self).done_today && final(self).archived_today == old(self).archived_today,
            old(self).undo_stack@.len() > 0 ==> final(self).undo_stack@ == old(self).undo_stack@.drop_last(),
            old(self).undo_stack@.len() > 0 ==> Self::restored_tasks(
                old(self).tasks@,
                old(self).undo_stack@.last().removed(),
                final(self).tasks@,
            ),
            old(self).undo_stack@.len() > 0 ==> final(self).done_today@ == if old(self).undo_stack@.last() is MarkedDone {
                without_id(old(self).done_today@, old(self).undo_stack@.last().removed().item.id)
            } else {
                old(self).done_today@
            },
            old(self).undo_stack@.len() > 0 ==> final(self).archived_today@ == if old(self).undo_stack@.last() is Archived {
                without_id(old(self).archived_today@, old(self).undo_stack@.last().removed().item.id)
            } else {
                old(self).archived_today@
            },
    {
        match self.undo_stack.pop() {
            None => {},
            Some(action) => {
                proof {
                    assert(removed_ok(old(self).undo_stack@.last().removed()));
                    assert forall|i: int| 0 <= i < self.undo_stack@.len() implies removed_ok((#[trigger] self.undo_stack@[i]).removed()) by {
                        assert(self.undo_stack@[i] == old(self).undo_stack@[i]);
                    }
                }
                match action {
                    UndoAction::MarkedDone(rem) => {
                        remove_by_id(&mut self.done_today, rem.item.id);
                        self.restore(rem);
                    },
                    UndoAction::Deleted(rem) => {
                        self.restore(rem);
                    },
                    UndoAction::Archived(rem) => {
                        remove_by_id(&mut self.archived_today, rem.item.id);
                        self.restore(rem);
                    },
                }
            },
        }
    }

    /// Start or pause the selected item. Outside Working mode an item can only
    /// be paused. After a subtask changes, its parent follows it.
    pub fn toggle_run_pause(&mut self, now: Stamp)
        requires
            old(self).wf(),
            now.wf(),
        ensures
            final(self).wf(),
            final(self).tasks@.len() == old(self).tasks@.len(),
            final(self).meta == old(self).meta,
            final(self).done_today == old(self).done_today,
            final(self).archived_today == old(self).archived_today,
            final(self).undo_stack == old(self).undo_stack,
            old(self).spec_selected() is None ==> final(self).tasks == old(self).tasks,
            old(self).spec_selected() matches Some((t, _)) ==> forall|k: int| 0 <= k < old(self).tasks@.len() && k != t
                ==> (#[trigger] final(self).tasks@[k]) == old(self).tasks@[k],
            old(self).spec_selected() matches Some((t, None)) ==> (!old(self).meta.global_mode.spec_pauses_timers()
                ==> toggled_from(old(self).tasks@[t as int], final(self).tasks@[t as int], now)),
            old(self).spec_selected() matches Some((t, None)) ==> (old(self).meta.global_mode.spec_pauses_timers() ==> if old(
                self,
            ).tasks@[t as int].status == RunStatus::Running {
                paused_from(old(self).tasks@[t as int], final(self).tasks@[t as int], now)
            } else {
                final(self).tasks@[t as int] == old(self).tasks@[t as int]
            }),
            old(self).spec_selected() matches Some((t, Some(st))) ==> (!old(self).meta.global_mode.spec_pauses_timers()
                ==> subtask_toggled(old(self).tasks@[t as int], final(self).tasks@[t as int], st as int, now)),
            old(self).spec_selected() matches Some((t, Some(st))) ==> (!old(self).meta.global_mode.spec_pauses_timers()
                ==> crate::item::parent_in_sync(old(self).tasks@[t as int], final(self).tasks@[t as int])),
            old(self).spec_selected() matches Some((t, Some(st))) ==> (old(self).meta.global_mode.spec_pauses_timers()
                ==> subtask_paused(old(self).tasks@[t as int], final(self).tasks@[t as int], st as int, now)),
            old(self).meta.global_mode.spec_pauses_timers() ==> forall|k: int| 0 <= k < old(self).tasks@.len()
                ==> (#[trigger] final(self).tasks@[k]).status == RunStatus::Running ==> old(self).tasks@[k].status
                == RunStatus::Running,
            old(self).meta.global_mode.spec_pauses_timers() ==> forall|k: int, j: int| 0 <= k < old(self).tasks@.len() && 0
                <= j < old(self).tasks@[k].subtasks@.len() ==> (#[trigger] final(self).tasks@[k].subtasks@[j]).status
                == RunStatus::Running ==> old(self).tasks@[k].subtasks@[j].status == RunStatus::Running,
    {
        match self.get_selected_item() {
            None => {},
            Some((task_idx, subtask_idx)) => {
                let ghost t0 = self.tasks@;
                let pausing_only = self.meta.global_mode.should_pause_timers();
                match subtask_idx {
                    Some(st) => {
                        if !pausing_only {
                            self.tasks[task_idx].toggle_subtask(st, now);
                        } else {
                            self.tasks[task_idx].pause_subtask(st, now);
                        }
                    },
                    None => {
                        if !pausing_only {
                            self.tasks[task_idx].toggle_run_pause(now);
                        } else if self.tasks[task_idx].status == RunStatus::Running {
                            self.tasks[task_idx].pause(now);
                        }
                    },
                }
                proof {
                    assert forall|k: int| 0 <= k < self.tasks@.len() implies (#[trigger] self.tasks@[k]).wf()
                        && self.tasks@[k].subtasks@.len() < MAX_ROWS by {
                        if k != task_idx {
                            assert(self.tasks@[k] == t0[k]);
                        }
                    }
                }
            },
        }
    }

    /// Add a task at the end (the board ignores it when full).
    pub fn add_task(&mut self, title: String, estimate: i64, now: Stamp)
        requires
            old(self).wf(),
            now.wf(),
            -crate::item::DUR_MAX <= estimate <= crate::item::DUR_MAX,
        ensures
            final(self).wf(),
            old(self).tasks@.len() + 1 < MAX_ROWS ==> final(self).tasks@.len() == old(self).tasks@.len() + 1
                && final(self).tasks@.drop_last() == old(self).tasks@ && final(self).tasks@.last().title == title
                && final(self).tasks@.last().status == RunStatus::Idle,
            old(self).tasks@.len() + 1 >= MAX_ROWS ==> final(self).tasks == old(self).tasks,
    {
        if self.tasks.len() + 1 < MAX_ROWS {
            let item = Item::new(title, estimate, crate::status::ScheduleDay::Today, now);
            let ghost t0 = self.tasks@;
            self.tasks.push(item);
            proof {
                assert(self.tasks@.drop_last() == t0);
                assert forall|k: int| 0 <= k < self.tasks@.len() implies (#[trigger] self.tasks@[k]).wf()
                    && self.tasks@[k].subtasks@.len() < MAX_ROWS by {
                    if k < t0.len() {
                        assert(self.tasks@[k] == t0[k]);
                    }
                }
            }
        }
    }

    /// Add a subtask under the selected task (or the parent of the selected subtask).
    pub fn add_subtask(&mut self, title: String, estimate: i64, now: Stamp)
        requires
            old(self).wf(),
            now.wf(),
            -crate::item::DUR_MAX <= estimate <= crate::item::DUR_MAX,
        ensures
            final(self).wf(),
            final(self).tasks@.len() == old(self).tasks@.len(),
            old(self).spec_selected() matches Some((t, _)) ==> (old(self).tasks@[t as int].subtasks@.len() + 1 < MAX_ROWS
                ==> final(self).tasks@[t as int].subtasks@.len() == old(self).tasks@[t as int].subtasks@.len() + 1
                && final(self).tasks@[t as int].subtasks@.last().title == title),
            old(self).spec_selected() is None ==> final(self).tasks == old(self).tasks,
    {
        match self.get_selected_item() {
            None => {},
            Some((task_idx, _)) => {
                if self.tasks[task_idx].subtasks.len() + 1 < MAX_ROWS {
                    let item = Item::new(title, estimate, crate::status::ScheduleDay::Today, now);
                    let ghost t0 = self.tasks@;
                    self.tasks[task_idx].add_subtask(item);
                    proof {
                        assert forall|k: int| 0 <= k < self.tasks@.len() implies (#[trigger] self.tasks@[k]).wf()
                            && self.tasks@[k].subtasks@.len() < MAX_ROWS by {
                            if k != task_idx {
                                assert(self.tasks@[k] == t0[k]);
                            }
                        }
                    }
                }
            },
        }
    }

    /// Raise the selected item's estimate by the step.
    pub fn increase_estimate(&mut self)
        requires
            old(self).wf(),
        ensures
            final(self).wf(),
            final(self).tasks@.len() == old(self).tasks@.len(),
            old(self).spec_selected() matches Some((t, None)) ==> final(self).tasks@[t as int].track.estimate
                == crate::item::clamp_dur(old(self).tasks@[t as int].track.estimate + old(self).estimate_step),
            old(self).spec_selected() matches Some((t, Some(st))) ==> final(self).tasks@[t as int].subtasks@[st as int].track.estimate
                == crate::item::clamp_dur(old(self).tasks@[t as int].subtasks@[st as int].track.estimate + old(self).estimate_step),
    {
        let step = self.estimate_step;
        match self.get_selected_item() {
            None => {},
            Some((task_idx, subtask_idx)) => {
                let ghost t0 = self.tasks@;
                match subtask_idx {
                    Some(st) => {
                        let ghost p0 = self.tasks@[task_idx as int];
                        assert(p0.subtasks@[st as int].leaf_ok());
                        self.tasks[task_idx].subtasks[st].increase_estimate(step);
                        proof {
                            let p = self.tasks@[task_idx as int];
                            assert forall|k: int| 0 <= k < p.subtasks@.len() implies (#[trigger] p.subtasks@[k]).leaf_ok() by {
                                if k != st {
                                    assert(p.subtasks@[k] == p0.subtasks@[k]);
                                }
                            }
                        }
                    },
                    None => {
                        self.tasks[task_idx].increase_estimate(step);
                    },
                }
                proof {
                    assert forall|k: int| 0 <= k < self.tasks@.len() implies (#[trigger] self.tasks@[k]).wf()
                        && self.tasks@[k].subtasks@.len() < MAX_ROWS by {
                        if k != task_idx {
                            assert(self.tasks@[k] == t0[k]);
                        }
                    }
                }
            },
        }
    }

    /// Lower the selected item's estimate by the step, never below zero.
    pub fn decrease_estimate(&mut self)
        requires
            old(self).wf(),
        ensures
            final(self).wf(),
            final(self).tasks@.len() == old(self).tasks@.len(),
            old(self).spec_selected() matches Some((t, None)) ==> final(self).tasks@[t as int].track.estimate
                == crate::item::clamp_dur(if old(self).tasks@[t as int].track.estimate - old(self).estimate_step > 0 {
                    old(self).tasks@[t as int].track.estimate - old(self).estimate_step
                } else {
                    0
                }),
            old(self).spec_selected() matches Some((t, Some(st))) ==> final(self).tasks@[t as int].subtasks@[st as int].track.estimate
                == crate::item::clamp_dur(if old(self).tasks@[t as int].subtasks@[st as int].track.estimate - old(self).estimate_step > 0 {
                    old(self).tasks@[t as int].subtasks@[st as int].track.estimate - old(self).estimate_step
                } else {
                    0
                }),
    {
        let step = self.estimate_step;
        match self.get_selected_item() {
            None => {},
            Some((task_idx, subtask_idx)) => {
                let ghost t0 = self.tasks@;
                match subtask_idx {
                    Some(st) => {
                        let ghost p0 = self.tasks@[task_idx as int];
                        assert(p0.subtasks@[st as int].leaf_ok());
                        self.tasks[task_idx].subtasks[st].decrease_estimate(step);
                        proof {
                            let p = self.tasks@[task_idx as int];
                            assert forall|k: int| 0 <= k < p.subtasks@.len() implies (#[trigger] p.subtasks@[k]).leaf_ok() by {
                                if k != st {
                                    assert(p.subtasks@[k] == p0.subtasks@[k]);
                                }
                            }
                        }
                    },
                    None => {
                        self.tasks[task_idx].decrease_estimate(step);
                    },
                }
                proof {
                    assert forall|k: int| 0 <= k < self.tasks@.len() implies (#[trigger] self.tasks@[k]).wf()
                        && self.tasks@[k].subtasks@.len() < MAX_ROWS by {
                        if k != task_idx {
                            assert(self.tasks@[k] == t0[k]);
                        }
                    }
                }
            },
        }
    }

    /// Switch the global mode (see `modes::set_global_mode`).
    pub fn set_global_mode(&mut self, mode: crate::status::GlobalMode, now: Stamp)
        requires
            old(self).wf(),
            now.wf(),
            old(self).meta.last_mode_change_timestamp is Some ==> old(self).meta.last_mode_change_timestamp->0.wf(),
        ensures
            final(self).wf(),
            final(self).meta.global_mode == mode,
            final(self).meta.last_mode_change_timestamp == Some(now),
            final(self).meta.spec_counter(old(self).meta.global_mode) == crate::item::clamp_dur(
                old(self).meta.spec_counter(old(self).meta.global_mode) + match old(self).meta.last_mode_change_timestamp {
                    Some(t) => crate::item::span(t.secs as int, now.secs as int),
                    None => 0,
                },
            ),
            forall|o: crate::status::GlobalMode| o != old(self).meta.global_mode ==> final(self).meta.spec_counter(o)
                == old(self).meta.spec_counter(o),
            mode.spec_pauses_timers() && !old(self).meta.global_mode.spec_pauses_timers() ==> {
                &&& crate::modes::paused_for_mode(old(self).tasks@, final(self).tasks@, now)
                &&& crate::modes::paused_in_full(old(self).tasks@, final(self).tasks@, now)
                &&& forall|id: u128| final(self).meta.paused_by_mode_task_ids@.contains(id) <==> crate::modes::running_ids(
                    old(self).tasks@,
                    old(self).tasks@.len(),
                ).contains(id)
            },
            !mode.spec_pauses_timers() && old(self).meta.global_mode.spec_pauses_timers() ==> {
                &&& crate::modes::resumed_for_mode(old(self).tasks@, final(self).tasks@, old(self).meta.paused_by_mode_task_ids@)
                &&& crate::modes::resumed_in_full(
                    old(self).tasks@,
                    final(self).tasks@,
                    old(self).meta.paused_by_mode_task_ids@,
                    now,
                )
                &&& final(self).meta.paused_by_mode_task_ids@.len() == 0
            },
            mode.spec_pauses_timers() == old(self).meta.global_mode.spec_pauses_timers() ==> {
                &&& final(self).tasks@ == old(self).tasks@
                &&& final(self).meta.paused_by_mode_task_ids == old(self).meta.paused_by_mode_task_ids
            },
            final(self).done_today == old(self).done_today,
            final(self).archived_today == old(self).archived_today,
            final(self).undo_stack == old(self).undo_stack,
            final(self).selected_index == old(self).selected_index,
    {
        let ghost t0 = self.tasks@;
        crate::modes::set_global_mode(&mut self.tasks, &mut self.meta, mode, now);
        proof {
            assert forall|k: int| 0 <= k < self.tasks@.len() implies (#[trigger] self.tasks@[k]).subtasks@.len() < MAX_ROWS by {
                assert(self.tasks@[k].subtasks@.len() == t0[k].subtasks@.len());
            }
        }
    }

    /// Running time from history and estimates, over the tasks and the done
    /// list (subtasks are not counted separately).
    pub fn get_totals(&self, now: Stamp) -> (r: (i128, i128))
        requires
            self.wf(),
            now.wf(),
            self.done_today@.len() < MAX_ROWS,
        ensures
            r.0 == running_sum(self.tasks@, self.tasks@.len(), now) + running_sum(self.done_today@, self.done_today@.len(), now),
            r.1 == crate::item::sum_estimates(self.tasks@, self.tasks@.len()) + crate::item::sum_estimates(
                self.done_today@,
                self.done_today@.len(),
            ),
    {
        let (a, b) = totals_of(&self.tasks, now);
        let (c, d) = totals_of(&self.done_today, now);
        (a + c, b + d)
    }

    /// Tick every task: running timers fold their span into elapsed.
    pub fn tick(&mut self, now: Stamp)
        requires
            old(self).wf(),
            now.wf(),
        ensures
            final(self).wf(),
            final(self).tasks@.len() == old(self).tasks@.len(),
            forall|k: int| 0 <= k < old(self).tasks@.len() ==> (#[trigger] final(self).tasks@[k]).track
                == old(self).tasks@[k].ticked_track(now),
            forall|k: int| 0 <= k < old(self).tasks@.len() ==> (#[trigger] final(self).tasks@[k]).subtasks@.len()
                == old(self).tasks@[k].subtasks@.len(),
            forall|k: int, j: int| 0 <= k < old(self).tasks@.len() && 0 <= j < old(self).tasks@[k].subtasks@.len()
                ==> (#[trigger] final(self).tasks@[k].subtasks@[j]) == (Item {
                track: old(self).tasks@[k].subtasks@[j].ticked_track(now),
                ..old(self).tasks@[k].subtasks@[j]
            }),
    {
        let n = self.tasks.len();
        let mut i: usize = 0;
        while i < n
            invariant
                n == old(self).tasks@.len(),
                self.tasks@.len() == n,
                i <= n,
                now.wf(),
                *self == (AppState { tasks: self.tasks, ..*old(self) }),
                forall|k: int| 0 <= k < n ==> (#[trigger] self.tasks@[k]).wf() && self.tasks@[k].subtasks@.len() < MAX_ROWS,
                forall|k: int| 0 <= k < i ==> (#[trigger] self.tasks@[k]).track == old(self).tasks@[k].ticked_track(now),
                forall|k: int| 0 <= k < i ==> (#[trigger] self.tasks@[k]).subtasks@.len() == old(self).tasks@[k].subtasks@.len(),
                forall|k: int, j: int| 0 <= k < i && 0 <= j < old(self).tasks@[k].subtasks@.len()
                    ==> (#[trigger] self.tasks@[k].subtasks@[j]) == (Item {
                    track: old(self).tasks@[k].subtasks@[j].ticked_track(now),
                    ..old(self).tasks@[k].subtasks@[j]
                }),
                forall|k: int| i <= k < n ==> (#[trigger] self.tasks@[k]) == old(self).tasks@[k],
            decreases n - i,
        {
            self.tasks[i].tick(now);
            i = i + 1;
        }
    }
}

/// Seconds between idle checks, and the grace period after one is shown.
pub const IDLE_CHECK_SECS: i64 = 1800;

/// What the idle watch asks the front end to do.
#[derive(Debug, Clone, Copy, PartialEq, Eq, Structural)]
pub enum IdleAction {
    Nothing,
    /// Ask the user whether they are still working.
    AskUser,
    /// Nobody answered in time: pause everything that runs.
    AutoPause,
}

/// When the last idle check happened, and the deadline of an open question.
#[derive(Debug, Clone, Copy, PartialEq, Eq, Structural)]
pub struct IdleWatch {
    pub last_check: i64,
    pub deadline: Option<i64>,
}

impl IdleWatch {
    /// Decide at `now`: an open question past its deadline pauses everything;
    /// otherwise, in normal mode with something running and a full interval
    /// since the last check, a question opens with a deadline one interval away.
    pub fn check(&mut self, now: i64, normal_mode: bool, has_running: bool) -> (r: IdleAction)
        requires
            -crate::clock::STAMP_MAX <= now <= crate::clock::STAMP_MAX,
            -crate::clock::STAMP_MAX <= old(self).last_check <= crate::clock::STAMP_MAX,
        ensures
            old(self).deadline matches Some(d) && now >= d ==> r == IdleAction::AutoPause
                && *final(self) == (IdleWatch { last_check: now, deadline: None }),
            !(old(self).deadline matches Some(d) && now >= d) && normal_mode && has_running && now - old(self).last_check
                >= IDLE_CHECK_SECS ==> r == IdleAction::AskUser
                && *final(self) == (IdleWatch { last_check: old(self).last_check, deadline: Some((now + IDLE_CHECK_SECS) as i64) }),
            !(old(self).deadline matches Some(d) && now >= d) && !(normal_mode && has_running && now - old(self).last_check
                >= IDLE_CHECK_SECS) ==> r == IdleAction::Nothing && *final(self) == *old(self),
    {
        match self.deadline {
            Some(d) => {
                if now >= d {
                    self.deadline = None;
                    self.last_check = now;
                    return IdleAction::AutoPause;
                }
            },
            None => {},
        }
        if normal_mode && has_running && now - self.last_check >= IDLE_CHECK_SECS {
            self.deadline = Some(now + IDLE_CHECK_SECS);
            IdleAction::AskUser
        } else {
            IdleAction::Nothing
        }
    }

    /// The user confirmed activity at `now`.
    pub fn confirm_working(&mut self, now: i64)
        ensures
            *final(self) == (IdleWatch { last_check: now, deadline: None }),
    {
        self.last_check = now;
        self.deadline = None;
    }
}

impl AppState {
    /// The identifier of the first running task or subtask that reached its estimate.
    pub fn find_over_estimate(&self) -> (r: Option<u128>)
        ensures
            r is Some ==> exists|i: int| 0 <= i < self.tasks@.len() && ((#[trigger] self.tasks@[i]).is_over_spec()
                && self.tasks@[i].id == r->0 || exists|j: int| 0 <= j < self.tasks@[i].subtasks@.len()
                && (#[trigger] self.tasks@[i].subtasks@[j]).is_over_spec() && self.tasks@[i].subtasks@[j].id == r->0),
            r is None ==> forall|i: int| 0 <= i < self.tasks@.len() ==> !(#[trigger] self.tasks@[i]).is_over_spec()
                && forall|j: int| 0 <= j < self.tasks@[i].subtasks@.len() ==> !(#[trigger] self.tasks@[i].subtasks@[j]).is_over_spec(),
    {
        let mut i: usize = 0;
        while i < self.tasks.len()
            invariant
                i <= self.tasks@.len(),
                forall|k: int| 0 <= k < i ==> !(#[trigger] self.tasks@[k]).is_over_spec()
                    && forall|j: int| 0 <= j < self.tasks@[k].subtasks@.len() ==> !(#[trigger] self.tasks@[k].subtasks@[j]).is_over_spec(),
            decreases self.tasks@.len() - i,
        {
            let t = &self.tasks[i];
            if t.is_over_estimate() {
                return Some(t.id);
            }
            let mut j: usize = 0;
            while j < t.subtasks.len()
                invariant
                    i < self.tasks@.len(),
                    self.tasks@[i as int] == *t,
                    !t.is_over_spec(),
                    j <= t.subtasks@.len(),
                    forall|q: int| 0 <= q < j ==> !(#[trigger] t.subtasks@[q]).is_over_spec(),
                decreases t.subtasks@.len() - j,
            {
                if t.subtasks[j].is_over_estimate() {
                    assert(self.tasks@[i as int].subtasks@[j as int].is_over_spec());
                    return Some(t.subtasks[j].id);
                }
                j = j + 1;
            }
            i = i + 1;
        }
        None
    }
}

impl AppState {
    fn quiet_all(&mut self, to_idle: bool, now: Stamp)
        requires
            old(self).wf(),
            now.wf(),
        ensures
            final(self).wf(),
            final(self).tasks@.len() == old(self).tasks@.len(),
            forall|k: int| 0 <= k < old(self).tasks@.len() ==> {
                &&& (#[trigger] final(self).tasks@[k]).status == Item::quieted(old(self).tasks@[k].status, to_idle)
                &&& final(self).tasks@[k].subtasks@.len() == old(self).tasks@[k].subtasks@.len()
                &&& forall|j: int| 0 <= j < old(self).tasks@[k].subtasks@.len() ==> (#[trigger] final(self).tasks@[k].subtasks@[j]).status
                    == Item::quieted(old(self).tasks@[k].subtasks@[j].status, to_idle)
            },
    {
        let n = self.tasks.len();
        let mut i: usize = 0;
        while i < n
            invariant
                n == old(self).tasks@.len(),
                self.tasks@.len() == n,
                i <= n,
                now.wf(),
                *self == (AppState { tasks: self.tasks, ..*old(self) }),
                forall|k: int| 0 <= k < n ==> (#[trigger] self.tasks@[k]).wf() && self.tasks@[k].subtasks@.len() < MAX_ROWS,
                forall|k: int| 0 <= k < i ==> {
                    &&& (#[trigger] self.tasks@[k]).status == Item::quieted(old(self).tasks@[k].status, to_idle)
                    &&& self.tasks@[k].subtasks@.len() == old(self).tasks@[k].subtasks@.len()
                    &&& forall|j: int| 0 <= j < old(self).tasks@[k].subtasks@.len() ==> (#[trigger] self.tasks@[k].subtasks@[j]).status
                        == Item::quieted(old(self).tasks@[k].subtasks@[j].status, to_idle)
                },
                forall|k: int| i <= k < n ==> (#[trigger] self.tasks@[k]) == old(self).tasks@[k],
            decreases n - i,
        {
            self.tasks[i].settle_all_running(to_idle, now);
            i = i + 1;
        }
    }

    /// Pause every running task and subtask (when nobody confirmed activity).
    pub fn auto_pause_all(&mut self, now: Stamp)
        requires
            old(self).wf(),
            now.wf(),
        ensures
            final(self).wf(),
            final(self).tasks@.len() == old(self).tasks@.len(),
            forall|k: int| 0 <= k < old(self).tasks@.len() ==> {
                &&& (#[trigger] final(self).tasks@[k]).status == Item::quieted(old(self).tasks@[k].status, false)
                &&& forall|j: int| 0 <= j < old(self).tasks@[k].subtasks@.len() ==> (#[trigger] final(self).tasks@[k].subtasks@[j]).status
                    == Item::quieted(old(self).tasks@[k].subtasks@[j].status, false)
            },
    {
        self.quiet_all(false, now);
    }

    /// Move every running or paused task and subtask to Idle (on exit).
    pub fn auto_idle_all(&mut self, now: Stamp)
        requires
            old(self).wf(),
            now.wf(),
        ensures
            final(self).wf(),
            final(self).tasks@.len() == old(self).tasks@.len(),
            forall|k: int| 0 <= k < old(self).tasks@.len() ==> {
                &&& (#[trigger] final(self).tasks@[k]).status == Item::quieted(old(self).tasks@[k].status, true)
                &&& forall|j: int| 0 <= j < old(self).tasks@[k].subtasks@.len() ==> (#[trigger] final(self).tasks@[k].subtasks@[j]).status
                    == Item::quieted(old(self).tasks@[k].subtasks@[j].status, true)
            },
    {
        self.quiet_all(true, now);
    }
}

impl AppState {
    /// Take the selected item out for tomorrow: it is postponed (paused if it
    /// ran, then idle) and handed back for tomorrow's file; no undo is recorded.
    pub fn postpone_to_tomorrow(&mut self, now: Stamp) -> (r: Option<Item>)
        requires
            old(self).wf(),
            now.wf(),
        ensures
            final(self).wf(),
            r is None <==> old(self).spec_selected() is None,
            r is Some ==> r->0.status == RunStatus::Idle && r->0.wf(),
            old(self).spec_selected() matches Some((t, None)) ==> final(self).tasks@ == old(self).tasks@.remove(t as int)
                && r->0.id == old(self).tasks@[t as int].id,
            final(self).done_today == old(self).done_today,
            final(self).undo_stack == old(self).undo_stack,
    {
        match self.get_selected_item() {
            None => None,
            Some((task_idx, subtask_idx)) => {
                let (mut item, _snapshot) = self.take_selected(task_idx, subtask_idx);
                item.postpone(now);
                self.clamp_selection();
                Some(item)
            },
        }
    }

    /// Collapse or expand the subtasks of the selected task.
    pub fn toggle_expand(&mut self)
        requires
            old(self).wf(),
        ensures
            final(self).wf(),
            final(self).tasks@.len() == old(self).tasks@.len(),
            old(self).spec_selected() matches Some((t, None)) ==> final(self).tasks@[t as int].expanded
                == !old(self).tasks@[t as int].expanded,
    {
        match self.get_selected_item() {
            Some((task_idx, None)) => {
                let ghost t0 = self.tasks@;
                let e = self.tasks[task_idx].expanded;
                self.tasks[task_idx].expanded = !e;
                proof {
                    assert forall|k: int| 0 <= k < self.tasks@.len() implies (#[trigger] self.tasks@[k]).wf()
                        && self.tasks@[k].subtasks@.len() < MAX_ROWS by {
                        if k != task_idx {
                            assert(self.tasks@[k] == t0[k]);
                        }
                    }
                }
            },
            _ => {},
        }
    }

    /// Move the selected task (or subtask, among its siblings) one place up.
    pub fn move_item_up(&mut self)
        requires
            old(self).wf(),
        ensures
            final(self).wf(),
            final(self).tasks@.len() == old(self).tasks@.len(),
            old(self).spec_selected() matches Some((t, None)) ==> (t > 0 ==> final(self).tasks@ == old(self).tasks@.update(
                t as int,
                old(self).tasks@[t - 1],
            ).update(t - 1, old(self).tasks@[t as int])),
            old(self).spec_selected() matches Some((t, Some(st))) ==> (st > 0 ==> final(self).tasks@[t as int].subtasks@
                == old(self).tasks@[t as int].subtasks@.update(st as int, old(self).tasks@[t as int].subtasks@[st - 1]).update(
                st - 1,
                old(self).tasks@[t as int].subtasks@[st as int],
            )),
    {
        match self.get_selected_item() {
            None => {},
            Some((task_idx, Some(st))) => {
                if st > 0 {
                    let ghost t0 = self.tasks@;
                    let ghost p0 = self.tasks@[task_idx as int];
                    swap_down(&mut self.tasks[task_idx].subtasks, st);
                    proof {
                        let p = self.tasks@[task_idx as int];
                        assert forall|k: int| 0 <= k < p.subtasks@.len() implies (#[trigger] p.subtasks@[k]).leaf_ok() by {
                            if k == st { assert(p.subtasks@[k] == p0.subtasks@[st - 1]); }
                            else if k == st - 1 { assert(p.subtasks@[k] == p0.subtasks@[st as int]); }
                            else { assert(p.subtasks@[k] == p0.subtasks@[k]); }
                        }
                        assert forall|k: int| 0 <= k < self.tasks@.len() implies (#[trigger] self.tasks@[k]).wf()
                            && self.tasks@[k].subtasks@.len() < MAX_ROWS by {
                            if k != task_idx {
                                assert(self.tasks@[k] == t0[k]);
                            }
                        }
                    }
                    if self.selected_index > 0 {
                        self.selected_index = self.selected_index - 1;
                    }
                }
            },
            Some((task_idx, None)) => {
                if task_idx > 0 {
                    let ghost t0 = self.tasks@;
                    swap_down(&mut self.tasks, task_idx);
                    proof {
                        assert forall|k: int| 0 <= k < self.tasks@.len() implies (#[trigger] self.tasks@[k]).wf()
                            && self.tasks@[k].subtasks@.len() < MAX_ROWS by {
                            if k == task_idx { assert(self.tasks@[k] == t0[task_idx - 1]); }
                            else if k == task_idx - 1 { assert(self.tasks@[k] == t0[task_idx as int]); }
                            else { assert(self.tasks@[k] == t0[k]); }
                        }
                    }
                    let step: usize = if self.tasks[task_idx].subtasks.len() > 0 && self.tasks[task_idx].expanded {
                        self.tasks[task_idx].subtasks.len() + 1
                    } else {
                        1
                    };
                    self.selected_index = if self.selected_index >= step { self.selected_index - step } else { 0 };
                }
            },
        }
    }
}

impl AppState {
    /// Move the selected task (or subtask, among its siblings) one place down.
    pub fn move_item_down(&mut self)
        requires
            old(self).wf(),
        ensures
            final(self).wf(),
            final(self).tasks@.len() == old(self).tasks@.len(),
            old(self).spec_selected() matches Some((t, None)) ==> (t + 1 < old(self).tasks@.len() ==> final(self).tasks@
                == old(self).tasks@.update(t + 1, old(self).tasks@[t as int]).update(t as int, old(self).tasks@[t + 1])),
            old(self).spec_selected() matches Some((t, Some(st))) ==> (st + 1 < old(self).tasks@[t as int].subtasks@.len()
                ==> final(self).tasks@[t as int].subtasks@ == old(self).tasks@[t as int].subtasks@.update(
                st + 1,
                old(self).tasks@[t as int].subtasks@[st as int],
            ).update(st as int, old(self).tasks@[t as int].subtasks@[st + 1])),
    {
        match self.get_selected_item() {
            None => {},
            Some((task_idx, Some(st))) => {
                if st + 1 < self.tasks[task_idx].subtasks.len() {
                    let ghost t0 = self.tasks@;
                    let ghost p0 = self.tasks@[task_idx as int];
                    swap_down(&mut self.tasks[task_idx].subtasks, st + 1);
                    proof {
                        let p = self.tasks@[task_idx as int];
                        assert forall|k: int| 0 <= k < p.subtasks@.len() implies (#[trigger] p.subtasks@[k]).leaf_ok() by {
                            if k == st + 1 { assert(p.subtasks@[k] == p0.subtasks@[st as int]); }
                            else if k == st { assert(p.subtasks@[k] == p0.subtasks@[st + 1]); }
                            else { assert(p.subtasks@[k] == p0.subtasks@[k]); }
                        }
                        assert forall|k: int| 0 <= k < self.tasks@.len() implies (#[trigger] self.tasks@[k]).wf()
                            && self.tasks@[k].subtasks@.len() < MAX_ROWS by {
                            if k != task_idx {
                                assert(self.tasks@[k] == t0[k]);
                            }
                        }
                    }
                    if self.selected_index < usize::MAX {
                        self.selected_index = self.selected_index + 1;
                    }
                }
            },
            Some((task_idx, None)) => {
                if task_idx + 1 < self.tasks.len() {
                    let ghost t0 = self.tasks@;
                    swap_down(&mut self.tasks, task_idx + 1);
                    proof {
                        assert forall|k: int| 0 <= k < self.tasks@.len() implies (#[trigger] self.tasks@[k]).wf()
                            && self.tasks@[k].subtasks@.len() < MAX_ROWS by {
                            if k == task_idx + 1 { assert(self.tasks@[k] == t0[task_idx as int]); }
                            else if k == task_idx { assert(self.tasks@[k] == t0[task_idx + 1]); }
                            else { assert(self.tasks@[k] == t0[k]); }
                        }
                    }
                    let step: usize = if self.tasks[task_idx + 1].subtasks.len() > 0 && self.tasks[task_idx + 1].expanded {
                        self.tasks[task_idx + 1].subtasks.len() + 1
                    } else {
                        1
                    };
                    if self.selected_index < MAX_ROWS * MAX_ROWS {
                        self.selected_index = self.selected_index + step;
                    }
                }
            },
        }
    }
}

/// Exchange the items at `i - 1` and `i`.
fn swap_down(v: &mut Vec<Item>, i: usize)
    requires
        0 < i < old(v)@.len(),
    ensures
        final(v)@ == old(v)@.update(i as int, old(v)@[i - 1]).update(i - 1, old(v)@[i as int]),
{
    let x = v.remove(i);
    v.insert(i - 1, x);
    assert(v@ =~= old(v)@.update(i as int, old(v)@[i - 1]).update(i - 1, old(v)@[i as int]));
}

/// One of the three time buckets of an item: 0 running, 1 paused, 2 idle.
pub open spec fn bucket(it: Item, now: Stamp, which: nat) -> int {
    if which == 0 {
        it.spec_time_split(now).0
    } else if which == 1 {
        it.spec_time_split(now).1
    } else {
        it.spec_time_split(now).2
    }
}

/// A bucket summed over the first `n` items.
pub open spec fn bucket_sum(items: Seq<Item>, n: nat, now: Stamp, which: nat) -> int
    decreases n,
{
    if n == 0 {
        0
    } else {
        bucket_sum(items, (n - 1) as nat, now, which) + bucket(items[n - 1], now, which)
    }
}

/// Time over estimate summed over the first `n` items.
pub open spec fn overrun_sum(items: Seq<Item>, n: nat) -> int
    decreases n,
{
    if n == 0 {
        0
    } else {
        overrun_sum(items, (n - 1) as nat) + if items[n - 1].track.elapsed > items[n - 1].track.estimate {
            items[n - 1].track.elapsed - items[n - 1].track.estimate
        } else {
            0
        }
    }
}

/// Number of items over estimate among the first `n`.
pub open spec fn overrun_count(items: Seq<Item>, n: nat) -> nat
    decreases n,
{
    if n == 0 {
        0
    } else {
        overrun_count(items, (n - 1) as nat) + if items[n - 1].track.elapsed > items[n - 1].track.estimate {
            1nat
        } else {
            0nat
        }
    }
}

/// Estimate left over elapsed, summed over the first `n` items not done.
pub open spec fn remaining_sum(items: Seq<Item>, n: nat) -> int
    decreases n,
{
    if n == 0 {
        0
    } else {
        remaining_sum(items, (n - 1) as nat) + if items[n - 1].status != RunStatus::Done && items[n - 1].track.estimate
            > items[n - 1].track.elapsed {
            items[n - 1].track.estimate - items[n - 1].track.elapsed
        } else {
            0
        }
    }
}

fn bucket_total(items: &Vec<Item>, now: Stamp, which: usize) -> (r: i128)
    requires
        all_wf(items@),
        items@.len() < MAX_ROWS,
        now.wf(),
        which <= 2,
    ensures
        r == bucket_sum(items@, items@.len(), now, which as nat),
        -(MAX_ROWS as int) * crate::item::DUR_MAX <= r <= (MAX_ROWS as int) * crate::item::DUR_MAX,
{
    let mut total: i128 = 0;
    let mut i: usize = 0;
    while i < items.len()
        invariant
            all_wf(items@),
            items@.len() < MAX_ROWS,
            now.wf(),
            which <= 2,
            i <= items@.len(),
            total == bucket_sum(items@, i as nat, now, which as nat),
            -(i as int) * crate::item::DUR_MAX <= total <= (i as int) * crate::item::DUR_MAX,
        decreases items@.len() - i,
    {
        let it = &items[i];
        assert(it.wf());
        let (r0, r1, r2) = it.time_in_each_state(now);
        proof {
            crate::item::lemma_spans_partition(it.state_history@, it.state_history@.len(), it.spec_end(now));
            let h = it.state_history@;
            if h.len() > 0 {
                assert(h[0].timestamp.wf());
                assert(h[h.len() - 1].timestamp.wf());
            }
        }
        let v: i64 = if which == 0 { r0 } else if which == 1 { r1 } else { r2 };
        total = total + v as i128;
        i = i + 1;
    }
    total
}

impl AppState {
    /// Time in the given bucket (0 running, 1 paused, 2 idle) over the tasks
    /// and the done list, by their own histories.
    fn todays_bucket(&self, now: Stamp, which: usize) -> (r: i128)
        requires
            self.wf(),
            now.wf(),
            self.done_today@.len() < MAX_ROWS,
            which <= 2,
        ensures
            r == bucket_sum(self.tasks@, self.tasks@.len(), now, which as nat) + bucket_sum(
                self.done_today@,
                self.done_today@.len(),
                now,
                which as nat,
            ),
    {
        bucket_total(&self.tasks, now, which) + bucket_total(&self.done_today, now, which)
    }

    /// Time spent running, by history, over the tasks and the done list.
    pub fn get_running_tasks_time(&self, now: Stamp) -> (r: i128)
        requires
            self.wf(),
            now.wf(),
            self.done_today@.len() < MAX_ROWS,
        ensures
            r == bucket_sum(self.tasks@, self.tasks@.len(), now, 0) + bucket_sum(self.done_today@, self.done_today@.len(), now, 0),
    {
        self.todays_bucket(now, 0)
    }

    /// Time spent paused, by history, over the tasks and the done list.
    pub fn get_paused_tasks_time(&self, now: Stamp) -> (r: i128)
        requires
            self.wf(),
            now.wf(),
            self.done_today@.len() < MAX_ROWS,
        ensures
            r == bucket_sum(self.tasks@, self.tasks@.len(), now, 1) + bucket_sum(self.done_today@, self.done_today@.len(), now, 1),
    {
        self.todays_bucket(now, 1)
    }

    /// Time spent idle, by history, over the tasks and the done list.
    pub fn get_idle_tasks_time(&self, now: Stamp) -> (r: i128)
        requires
            self.wf(),
            now.wf(),
            self.done_today@.len() < MAX_ROWS,
        ensures
            r == bucket_sum(self.tasks@, self.tasks@.len(), now, 2) + bucket_sum(self.done_today@, self.done_today@.len(), now, 2),
    {
        self.todays_bucket(now, 2)
    }

    /// Elapsed time beyond the estimate, summed over the tasks and the done list.
    pub fn get_over_estimate_time(&self) -> (r: i128)
        requires
            self.wf(),
            self.done_today@.len() < MAX_ROWS,
        ensures
            r == overrun_sum(self.tasks@, self.tasks@.len()) + overrun_sum(self.done_today@, self.done_today@.len()),
    {
        overrun_of(&self.tasks).0 + overrun_of(&self.done_today).0
    }

    /// Number of tasks (and done items) over their estimate.
    pub fn get_over_estimate_count(&self) -> (r: usize)
        requires
            self.wf(),
            self.done_today@.len() < MAX_ROWS,
        ensures
            r == overrun_count(self.tasks@, self.tasks@.len()) + overrun_count(self.done_today@, self.done_today@.len()),
    {
        overrun_of(&self.tasks).1 + overrun_of(&self.done_today).1
    }

    /// Estimate not yet used up, over the tasks that are not done.
    pub fn get_remaining_time(&self) -> (r: i128)
        requires
            self.wf(),
        ensures
            r == remaining_sum(self.tasks@, self.tasks@.len()),
    {
        let mut total: i128 = 0;
        let mut i: usize = 0;
        while i < self.tasks.len()
            invariant
                self.wf(),
                i <= self.tasks@.len(),
                total == remaining_sum(self.tasks@, i as nat),
                0 <= total <= (i as int) * 2 * crate::item::DUR_MAX,
            decreases self.tasks@.len() - i,
        {
            let t = &self.tasks[i];
            assert(t.wf());
            if t.status != RunStatus::Done && t.track.estimate > t.track.elapsed {
                total = total + (t.track.estimate as i128 - t.track.elapsed as i128);
            }
            i = i + 1;
        }
        total
    }
}

fn overrun_of(items: &Vec<Item>) -> (r: (i128, usize))
    requires
        all_wf(items@),
        items@.len() < MAX_ROWS,
    ensures
        r.0 == overrun_sum(items@, items@.len()),
        r.1 == overrun_count(items@, items@.len()),
        0 <= r.0 <= (MAX_ROWS as int) * 2 * crate::item::DUR_MAX,
        r.1 <= items@.len(),
{
    let mut total: i128 = 0;
    let mut count: usize = 0;
    let mut i: usize = 0;
    while i < items.len()
        invariant
            all_wf(items@),
            items@.len() < MAX_ROWS,
            i <= items@.len(),
            total == overrun_sum(items@, i as nat),
            count == overrun_count(items@, i as nat),
            0 <= total <= (i as int) * 2 * crate::item::DUR_MAX,
            count <= i,
        decreases items@.len() - i,
    {
        let t = &items[i];
        assert(t.wf());
        if t.track.elapsed > t.track.estimate {
            total = total + (t.track.elapsed as i128 - t.track.estimate as i128);
            count = count + 1;
        }
        i = i + 1;
    }
    (total, count)
}

/// Running time from history over the first `n` items.
pub open spec fn running_sum(items: Seq<Item>, n: nat, now: Stamp) -> int
    decreases n,
{
    if n == 0 {
        0
    } else {
        running_sum(items, (n - 1) as nat, now) + items[n - 1].spec_time_split(now).0
    }
}

fn totals_of(items: &Vec<Item>, now: Stamp) -> (r: (i128, i128))
    requires
        all_wf(items@),
        items@.len() < MAX_ROWS,
        now.wf(),
    ensures
        r.0 == running_sum(items@, items@.len(), now),
        r.1 == crate::item::sum_estimates(items@, items@.len()),
        -(MAX_ROWS as int) * crate::item::DUR_MAX <= r.0 <= (MAX_ROWS as int) * crate::item::DUR_MAX,
        -(MAX_ROWS as int) * crate::item::DUR_MAX <= r.1 <= (MAX_ROWS as int) * crate::item::DUR_MAX,
{
    let mut run: i128 = 0;
    let mut est: i128 = 0;
    let mut i: usize = 0;
    while i < items.len()
        invariant
            all_wf(items@),
            items@.len() < MAX_ROWS,
            now.wf(),
            i <= items@.len(),
            run == running_sum(items@, i as nat, now),
            est == crate::item::sum_estimates(items@, i as nat),
            -(i as int) * crate::item::DUR_MAX <= run <= (i as int) * crate::item::DUR_MAX,
            -(i as int) * crate::item::DUR_MAX <= est <= (i as int) * crate::item::DUR_MAX,
        decreases items@.len() - i,
    {
        let it = &items[i];
        assert(it.wf());
        let (r0, _, _) = it.time_in_each_state(now);
        run = run + r0 as i128;
        est = est + it.track.estimate as i128;
        i = i + 1;
    }
    (run, est)
}

/// The position of the first item with the identifier, if any.
pub open spec fn first_with_id(items: Seq<Item>, id: u128, from: int) -> Option<int>
    decreases items.len() - from,
{
    if from < 0 || from >= items.len() {
        None
    } else if items[from].id == id {
        Some(from)
    } else {
        first_with_id(items, id, from + 1)
    }
}

/// The items without the first one that has the identifier.
pub open spec fn without_id(items: Seq<Item>, id: u128) -> Seq<Item> {
    match first_with_id(items, id, 0) {
        Some(k) => items.remove(k),
        None => items,
    }
}

/// Remove the first item with the identifier, if there is one.
fn remove_by_id(items: &mut Vec<Item>, id: u128)
    requires
        all_wf(old(items)@),
    ensures
        all_wf(final(items)@),
        final(items)@.len() <= old(items)@.len(),
        final(items)@ == without_id(old(items)@, id),
{
    let mut i: usize = 0;
    while i < items.len()
        invariant
            i <= items@.len(),
            items@ == old(items)@,
            all_wf(old(items)@),
            first_with_id(old(items)@, id, 0) == first_with_id(old(items)@, id, i as int),
        decreases items@.len() - i,
    {
        if items[i].id == id {
            let ghost t0 = items@;
            items.remove(i);
            proof {
                assert forall|k: int| 0 <= k < items@.len() implies (#[trigger] items@[k]).wf() by {
                    if k < i {
                        assert(items@[k] == t0[k]);
                    } else {
                        assert(items@[k] == t0[k + 1]);
                    }
                }
            }
            return;
        }
        i = i + 1;
    }
}

} // verus!
