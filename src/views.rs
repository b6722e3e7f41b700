use vstd::prelude::*;
use crate::item::{Item, TimeTracking, DUR_MAX};
use crate::status::{GlobalState, RunStatus};
use crate::text::{chars_of, int_text, push_chars, push_int, push_text};

verus! {

/// Default tick interval in milliseconds.
pub const DEFAULT_TICK_MS: u64 = 250;

/// The duration `Duration::from_millis` builds.
pub uninterp spec fn duration_of_millis(ms: u64) -> std::time::Duration;

/// Relies on `std::time::Duration::from_millis`: a duration of that many milliseconds.
pub assume_specification[ std::time::Duration::from_millis ](millis: u64) -> (r: std::time::Duration)
    ensures
        r == duration_of_millis(millis),
;

/// The period of the tick that drives elapsed-time re-baselining.
pub fn tick_duration() -> (r: std::time::Duration)
    ensures
        r == duration_of_millis(DEFAULT_TICK_MS),
{
    std::time::Duration::from_millis(DEFAULT_TICK_MS)
}

/// Input form state for adding tasks.
#[derive(Debug)]
pub struct InputFormState {
    pub title: String,
    pub notes: String,
    /// Comma-separated tags.
    pub tags: String,
    pub is_subtask: bool,
    /// Field being edited: 0 title, 1 notes, 2 tags.
    pub editing_field: usize,
}

/// A row of the flattened task list.
#[derive(Debug, Clone, Copy, PartialEq, Eq, Structural)]
pub struct FlatRow {
    /// Index in the flattened list.
    pub index: usize,
    /// Depth in the tree (0 for a task, 1 for a subtask).
    pub depth: usize,
    /// Whether this is the last subtask of its parent.
    pub is_last: bool,
    /// Index of the task.
    pub task_index: usize,
    /// Index of the subtask, for a subtask row.
    pub subtask_index: Option<usize>,
}

/// Most tasks, and most subtasks under one task, that a list may hold to be
/// shown as rows.
pub const MAX_ROWS: usize = 0x8000;

/// The rows of tasks `0..n`: each task, then its subtasks when expanded.
pub open spec fn flat_rows(tasks: Seq<Item>, n: nat) -> Seq<FlatRow>
    decreases n,
{
    if n == 0 {
        Seq::empty()
    } else {
        let prev = flat_rows(tasks, (n - 1) as nat);
        let t = tasks[n - 1];
        let head = seq![FlatRow { index: prev.len() as usize, depth: 0, is_last: false, task_index: (n - 1) as usize, subtask_index: None }];
        let subs = if t.expanded {
            Seq::new(t.subtasks@.len(), |j: int| FlatRow {
                index: (prev.len() + 1 + j) as usize,
                depth: 1,
                is_last: j == t.subtasks@.len() - 1,
                task_index: (n - 1) as usize,
                subtask_index: Some(j as usize),
            })
        } else {
            Seq::empty()
        };
        prev + head + subs
    }
}

/// Flatten a task list into rows for display.
pub fn flatten_tasks(tasks: &[Item]) -> (r: Vec<FlatRow>)
    requires
        tasks@.len() < MAX_ROWS,
        forall|i: int| 0 <= i < tasks@.len() ==> (#[trigger] tasks@[i]).subtasks@.len() < MAX_ROWS,
    ensures
        r@ == flat_rows(tasks@, tasks@.len()),
{
    let mut rows: Vec<FlatRow> = Vec::new();
    let mut i: usize = 0;
    while i < tasks.len()
        invariant
            i <= tasks@.len(),
            tasks@.len() < MAX_ROWS,
            forall|k: int| 0 <= k < tasks@.len() ==> (#[trigger] tasks@[k]).subtasks@.len() < MAX_ROWS,
            rows@ == flat_rows(tasks@, i as nat),
            rows@.len() <= i * MAX_ROWS,
        decreases tasks@.len() - i,
    {
        let ghost prev = rows@;
        let t = &tasks[i];
        proof {
            assert(rows@.len() + 1 + t.subtasks@.len() <= (i + 1) * MAX_ROWS) by (nonlinear_arith)
                requires rows@.len() <= i * MAX_ROWS, t.subtasks@.len() < MAX_ROWS;
            assert((i + 1) * MAX_ROWS <= MAX_ROWS * MAX_ROWS) by (nonlinear_arith)
                requires i < MAX_ROWS;
        }
        let base = rows.len();
        rows.push(FlatRow { index: base, depth: 0, is_last: false, task_index: i, subtask_index: None });
        if t.expanded {
            let m = t.subtasks.len();
            let mut j: usize = 0;
            while j < m
                invariant
                    j <= m,
                    m == t.subtasks@.len(),
                    base == prev.len(),
                    base + 1 + m <= usize::MAX,
                    rows@ == prev + seq![FlatRow { index: base, depth: 0, is_last: false, task_index: i, subtask_index: None }]
                        + Seq::new(j as nat, |q: int| FlatRow {
                            index: (prev.len() + 1 + q) as usize,
                            depth: 1,
                            is_last: q == m - 1,
                            task_index: i,
                            subtask_index: Some(q as usize),
                        }),
                decreases m - j,
            {
                rows.push(FlatRow { index: base + 1 + j, depth: 1, is_last: j == m - 1, task_index: i, subtask_index: Some(j) });
                proof {
                    let f = |q: int| FlatRow {
                        index: (prev.len() + 1 + q) as usize,
                        depth: 1,
                        is_last: q == m - 1,
                        task_index: i,
                        subtask_index: Some(q as usize),
                    };
                    assert(Seq::new((j + 1) as nat, f) == Seq::new(j as nat, f).push(f(j as int)));
                }
                j = j + 1;
            }
        } else {
            assert(rows@ == prev + seq![FlatRow { index: base, depth: 0, is_last: false, task_index: i, subtask_index: None }] + Seq::<FlatRow>::empty());
        }
        i = i + 1;
    }
    rows
}

/// Elapsed and estimate totals over the first `n` tasks, counting a task
/// itself only when it has no subtasks, and every subtask.
pub open spec fn leaf_totals(tasks: Seq<Item>, n: nat) -> (int, int)
    decreases n,
{
    if n == 0 {
        (0, 0)
    } else {
        let prev = leaf_totals(tasks, (n - 1) as nat);
        let t = tasks[n - 1];
        let subs = t.subtasks@;
        if subs.len() == 0 {
            (prev.0 + t.track.elapsed, prev.1 + t.track.estimate)
        } else {
            (
                prev.0 + crate::item::sum_elapsed(subs, subs.len()),
                prev.1 + crate::item::sum_estimates(subs, subs.len()),
            )
        }
    }
}

/// Total elapsed and estimate of the leaf items, so that a parent and its
/// subtasks are not counted twice.
pub fn compute_totals(tasks: &[Item]) -> (r: (i128, i128))
    requires
        forall|i: int| 0 <= i < tasks@.len() ==> (#[trigger] tasks@[i]).wf(),
        tasks@.len() < 0x1_0000_0000,
        forall|i: int| 0 <= i < tasks@.len() ==> (#[trigger] tasks@[i]).subtasks@.len() < 0x1_0000_0000,
    ensures
        r.0 == leaf_totals(tasks@, tasks@.len()).0,
        r.1 == leaf_totals(tasks@, tasks@.len()).1,
{
    let mut el: i128 = 0;
    let mut es: i128 = 0;
    let mut i: usize = 0;
    while i < tasks.len()
        invariant
            i <= tasks@.len(),
            tasks@.len() < 0x1_0000_0000,
            forall|k: int| 0 <= k < tasks@.len() ==> (#[trigger] tasks@[k]).wf(),
            forall|k: int| 0 <= k < tasks@.len() ==> (#[trigger] tasks@[k]).subtasks@.len() < 0x1_0000_0000,
            el == leaf_totals(tasks@, i as nat).0,
            es == leaf_totals(tasks@, i as nat).1,
            -(i as int) * 0x1_0000_0000 * DUR_MAX <= el <= (i as int) * 0x1_0000_0000 * DUR_MAX,
            -(i as int) * 0x1_0000_0000 * DUR_MAX <= es <= (i as int) * 0x1_0000_0000 * DUR_MAX,
        decreases tasks@.len() - i,
    {
        let t = &tasks[i];
        assert(t.wf());
        if t.subtasks.len() == 0 {
            proof {
                assert(0x1_0000_0000 * DUR_MAX <= (i + 1) as int * 0x1_0000_0000 * DUR_MAX - (i as int) * 0x1_0000_0000 * DUR_MAX) by (nonlinear_arith);
            }
            el = el + t.track.elapsed as i128;
            es = es + t.track.estimate as i128;
        } else {
            let a = t.subtask_total_elapsed();
            let b = t.subtask_total_estimate();
            proof {
                lemma_sum_bounds(t.subtasks@, t.subtasks@.len());
                let m = t.subtasks@.len() as int;
                assert(m * DUR_MAX <= 0x1_0000_0000 * DUR_MAX) by (nonlinear_arith)
                    requires m < 0x1_0000_0000;
                assert((i as int) * 0x1_0000_0000 * DUR_MAX + 0x1_0000_0000 * DUR_MAX == (i + 1) as int * 0x1_0000_0000 * DUR_MAX) by (nonlinear_arith);
            }
            el = el + a;
            es = es + b;
        }
        i = i + 1;
    }
    (el, es)
}

proof fn lemma_sum_bounds(subs: Seq<Item>, n: nat)
    requires
        n <= subs.len(),
        forall|k: int| 0 <= k < subs.len() ==> (#[trigger] subs[k]).leaf_ok(),
    ensures
        -(n as int) * DUR_MAX <= crate::item::sum_elapsed(subs, n) <= (n as int) * DUR_MAX,
        -(n as int) * DUR_MAX <= crate::item::sum_estimates(subs, n) <= (n as int) * DUR_MAX,
    decreases n,
{
    if n > 0 {
        lemma_sum_bounds(subs, (n - 1) as nat);
        assert(subs[n - 1].leaf_ok());
    }
}

/// Status badge text.
pub open spec fn badge_text(st: RunStatus) -> Seq<char> {
    match st {
        RunStatus::Running => "⏱ RUNNING"@,
        RunStatus::Paused => "⏸ PAUSED"@,
        RunStatus::Idle => "🌿 IDLE"@,
        RunStatus::Done => "✓ DONE"@,
        RunStatus::Postponed => "→ TOMORROW"@,
    }
}

/// Get the status badge text of an item.
pub fn status_badge(item: &Item) -> (r: &'static str)
    ensures
        r@ == badge_text(item.status),
{
    match item.status {
        RunStatus::Running => "⏱ RUNNING",
        RunStatus::Paused => "⏸ PAUSED",
        RunStatus::Idle => "🌿 IDLE",
        RunStatus::Done => "✓ DONE",
        RunStatus::Postponed => "→ TOMORROW",
    }
}

/// Get the tree connector drawn before a subtask.
pub fn tree_connector(is_last: bool) -> (r: &'static str)
    ensures
        r@ == if is_last { "└─"@ } else { "├─"@ },
{
    if is_last {
        "└─"
    } else {
        "├─"
    }
}

/// The text cut to at most `max_len` characters, ending in `...` when cut
/// (when there is room for it).
pub open spec fn truncated(s: Seq<char>, max_len: nat) -> Seq<char> {
    if s.len() <= max_len {
        s
    } else if max_len > 3 {
        s.subrange(0, max_len - 3) + "..."@
    } else {
        s.subrange(0, max_len as int)
    }
}

/// Cut a string to at most `max_len` characters.
pub fn truncate_string(s: &str, max_len: usize) -> (r: String)
    ensures
        r@ == truncated(s@, max_len as nat),
{
    let cs = chars_of(s);
    let mut out = String::new();
    if cs.len() <= max_len {
        push_chars(&mut out, &cs);
    } else if max_len > 3 {
        let head = crate::text::slice_of(&cs, 0, max_len - 3);
        push_chars(&mut out, &head);
        push_text(&mut out, "...");
    } else {
        let head = crate::text::slice_of(&cs, 0, max_len);
        push_chars(&mut out, &head);
    }
    out
}

/// Division truncated toward zero by a positive divisor.
pub open spec fn tdiv(a: int, b: int) -> int {
    if a >= 0 {
        a / b
    } else {
        -((-a) / b)
    }
}

/// A duration as `Xh Ym`, `Xh` or `Ym` (whole minutes, truncated toward zero).
pub open spec fn duration_text(secs: int) -> Seq<char> {
    let total = tdiv(secs, 60);
    let h = tdiv(total, 60);
    let m = total - 60 * h;
    if h > 0 && m > 0 {
        int_text(h) + "h "@ + int_text(m) + "m"@
    } else if h > 0 {
        int_text(h) + "h"@
    } else {
        int_text(m) + "m"@
    }
}

/// Format a duration as `Xh Ym` (zero parts left out).
pub fn format_duration(secs: i64) -> (r: String)
    ensures
        r@ == duration_text(secs as int),
{
    let total: i64 = if secs >= 0 { secs / 60 } else { -((-(secs as i128)) / 60) as i64 };
    let h: i64 = if total >= 0 { total / 60 } else { -((-total) / 60) };
    let m: i64 = total - 60 * h;
    let mut out = String::new();
    if h > 0 && m > 0 {
        push_int(&mut out, h);
        push_text(&mut out, "h ");
        push_int(&mut out, m);
        push_text(&mut out, "m");
    } else if h > 0 {
        push_int(&mut out, h);
        push_text(&mut out, "h");
    } else {
        push_int(&mut out, m);
        push_text(&mut out, "m");
    }
    out
}

impl TimeTracking {
    /// Format elapsed time as `Xh Ym`.
    pub fn elapsed_formatted(&self) -> (r: String)
        ensures
            r@ == duration_text(self.elapsed as int),
    {
        format_duration(self.elapsed)
    }

    /// Format the estimate as `Xh Ym`.
    pub fn estimate_formatted(&self) -> (r: String)
        ensures
            r@ == duration_text(self.estimate as int),
    {
        format_duration(self.estimate)
    }
}

/// Whether any task or subtask has the status.
pub open spec fn any_with(tasks: Seq<Item>, st: RunStatus) -> bool {
    exists|i: int| 0 <= i < tasks.len() && ((#[trigger] tasks[i]).status == st
        || exists|j: int| 0 <= j < tasks[i].subtasks@.len() && (#[trigger] tasks[i].subtasks@[j]).status == st)
}

fn any_with_exec(tasks: &[Item], st: RunStatus) -> (r: bool)
    ensures
        r == any_with(tasks@, st),
{
    let mut i: usize = 0;
    while i < tasks.len()
        invariant
            i <= tasks@.len(),
            forall|k: int| 0 <= k < i ==> !((#[trigger] tasks@[k]).status == st
                || exists|j: int| 0 <= j < tasks@[k].subtasks@.len() && (#[trigger] tasks@[k].subtasks@[j]).status == st),
        decreases tasks@.len() - i,
    {
        let t = &tasks[i];
        if t.status == st {
            return true;
        }
        let mut j: usize = 0;
        while j < t.subtasks.len()
            invariant
                i < tasks@.len(),
                tasks@[i as int] == *t,
                j <= t.subtasks@.len(),
                forall|q: int| 0 <= q < j ==> (#[trigger] t.subtasks@[q]).status != st,
            decreases t.subtasks@.len() - j,
        {
            if t.subtasks[j].status == st {
                assert(tasks@[i as int].subtasks@[j as int].status == st);
                return true;
            }
            j = j + 1;
        }
        i = i + 1;
    }
    false
}

/// The global activity state: running if anything runs, else paused if
/// anything is paused, else idle.
pub fn get_global_state(tasks: &[Item]) -> (r: GlobalState)
    ensures
        r == if any_with(tasks@, RunStatus::Running) {
            GlobalState::Running
        } else if any_with(tasks@, RunStatus::Paused) {
            GlobalState::Paused
        } else {
            GlobalState::Idle
        },
{
    if any_with_exec(tasks, RunStatus::Running) {
        GlobalState::Running
    } else if any_with_exec(tasks, RunStatus::Paused) {
        GlobalState::Paused
    } else {
        GlobalState::Idle
    }
}

/// Path of a file inside the data directory.
fn in_dir(dir: &str, name: &str) -> (r: String)
    ensures
        r@ == dir@ + "/"@ + name@,
{
    let mut out = String::new();
    push_text(&mut out, dir);
    push_text(&mut out, "/");
    push_text(&mut out, name);
    out
}

/// Path of the legacy done log inside the data directory.
pub fn done_log_file(dir: &str) -> (r: String)
    ensures
        r@ == dir@ + "/"@ + "done.log.md"@,
{
    in_dir(dir, "done.log.md")
}

/// Path of the legacy archive inside the data directory.
pub fn archive_file(dir: &str) -> (r: String)
    ensures
        r@ == dir@ + "/"@ + "archive.md"@,
{
    in_dir(dir, "archive.md")
}

/// Path of the metadata file inside the data directory.
pub fn meta_file(dir: &str) -> (r: String)
    ensures
        r@ == dir@ + "/"@ + "meta.json"@,
{
    in_dir(dir, "meta.json")
}

} // verus!
