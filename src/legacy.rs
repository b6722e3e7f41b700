use vstd::prelude::*;
use crate::clock::Stamp;
use crate::codec::{
    after_block, blank_text, dur_or_zero, event_text, field_rest, hours_field, joined, line_views, lines_of, parse_markdown,
    push_event_text, push_hours_field, push_joined, push_minutes_hours, rest_after, spec_running_time, views,
    whole_minutes, split_lines,
};
use crate::hours::duration_of_chars;
use crate::item::{count_interruptions, count_sessions, history_ok, Item, StateEvent};
use crate::migration::{settle_all, settled};
use crate::modes::all_wf;
use crate::status::{RunStatus, ScheduleDay};
use crate::text::{has_prefix, nat_text, push_nat, push_text, starts_with, string_of, trim, trimmed};

verus! {

/// The history lines of a done-log entry.
pub open spec fn log_history_text(h: Seq<StateEvent>) -> Seq<char>
    decreases h.len(),
{
    if h.len() == 0 {
        Seq::empty()
    } else {
        log_history_text(h.drop_last()) + "  - "@ + crate::clock::ymd_hms_text(
            h.last().timestamp.secs as int,
            h.last().timestamp.offset as int,
        ) + ": "@ + event_text(h.last()) + "\n"@
    }
}

/// The elapsed, estimate and status lines of a done-log entry.
pub open spec fn log_times_text(it: Item) -> Seq<char> {
    "Elapsed: "@ + hours_field(it.track.elapsed as int) + "\n"@
        + "Estimate: "@ + hours_field(it.track.estimate as int) + "\n"@
        + "Status: Done\n"@
}

/// The calendar-time line of a done-log entry, when completed.
pub open spec fn log_calendar_text(it: Item) -> Seq<char> {
    match it.completed_at {
        Some(c) => "Calendar Time: "@ + hours_field(whole_minutes(c.secs - it.created_at.secs)) + "\n"@,
        None => Seq::<char>::empty(),
    }
}

/// The active-time and counting lines of a done-log entry.
pub open spec fn log_counts_text(it: Item, now: Stamp) -> Seq<char> {
    let h = it.state_history@;
    "Active Time: "@ + hours_field(whole_minutes(spec_running_time(it, now))) + "\n"@
        + "Interruptions: "@ + nat_text(count_interruptions(h, h.len())) + "\n"@
        + "Sessions: "@ + nat_text(count_sessions(h, h.len())) + "\n"@
}

/// The metrics of a done-log entry.
pub open spec fn log_metrics_text(it: Item, now: Stamp) -> Seq<char> {
    log_times_text(it) + log_calendar_text(it) + log_counts_text(it, now)
}

/// The tags, history and notes of a done-log entry.
pub open spec fn log_tail_text(it: Item) -> Seq<char> {
    (if it.tags@.len() > 0 { "Tags: "@ + joined(views(it.tags@)) + "\n"@ } else { Seq::<char>::empty() })
        + (if it.state_history@.len() > 0 {
            "History:\n"@ + log_history_text(it.state_history@)
        } else {
            Seq::<char>::empty()
        })
        + (if !crate::codec::is_blank_text(it.notes@) {
            "Notes:\n"@ + it.notes@ + "\n"@
        } else {
            Seq::<char>::empty()
        })
        + "\n"@
}

/// A done-log entry written at `now`.
pub open spec fn done_entry_text(it: Item, now: Stamp) -> Seq<char> {
    "## "@ + now.spec_text() + "\n"@ + "Task: \""@ + it.title@ + "\"\n"@ + log_metrics_text(it, now) + log_tail_text(it)
}

fn push_log_times(out: &mut String, it: &Item)
    ensures
        final(out)@ == old(out)@ + log_times_text(*it),
{
    push_text(out, "Elapsed: ");
    push_hours_field(out, it.track.elapsed);
    push_text(out, "\n");
    push_text(out, "Estimate: ");
    push_hours_field(out, it.track.estimate);
    push_text(out, "\n");
    push_text(out, "Status: Done\n");
}

fn push_log_calendar(out: &mut String, it: &Item)
    requires
        it.own_ok(),
    ensures
        final(out)@ == old(out)@ + log_calendar_text(*it),
{
    match it.calendar_time() {
        Some(cal) => {
            push_text(out, "Calendar Time: ");
            push_minutes_hours(out, cal);
            push_text(out, "\n");
        },
        None => {
            assert(old(out)@ + Seq::<char>::empty() == old(out)@);
        },
    }
}

fn push_log_counts(out: &mut String, it: &Item, now: Stamp)
    requires
        it.own_ok(),
        now.wf(),
    ensures
        final(out)@ == old(out)@ + log_counts_text(*it, now),
{
    let run = it.running_time(now);
    proof {
        crate::codec::lemma_running_time_bound(*it, now);
    }
    push_text(out, "Active Time: ");
    push_minutes_hours(out, run);
    push_text(out, "\n");
    push_text(out, "Interruptions: ");
    push_nat(out, it.interruption_count() as u64);
    push_text(out, "\n");
    push_text(out, "Sessions: ");
    push_nat(out, it.session_count() as u64);
    push_text(out, "\n");
}

fn push_log_metrics(out: &mut String, it: &Item, now: Stamp)
    requires
        it.own_ok(),
        now.wf(),
    ensures
        final(out)@ == old(out)@ + log_metrics_text(*it, now),
{
    push_log_times(out, it);
    push_log_calendar(out, it);
    push_log_counts(out, it, now);
}

fn push_log_history(out: &mut String, h: &Vec<StateEvent>)
    requires
        history_ok(h@),
    ensures
        final(out)@ == old(out)@ + log_history_text(h@),
{
    let mut i: usize = 0;
    while i < h.len()
        invariant
            history_ok(h@),
            i <= h@.len(),
            out@ == old(out)@ + log_history_text(h@.subrange(0, i as int)),
        decreases h@.len() - i,
    {
        assert(h@[i as int].timestamp.wf());
        push_text(out, "  - ");
        let ts = h[i].timestamp.ymd_hms();
        push_text(out, ts.as_str());
        push_text(out, ": ");
        push_event_text(out, &h[i]);
        push_text(out, "\n");
        proof {
            let p = h@.subrange(0, i + 1);
            assert(p.drop_last() == h@.subrange(0, i as int));
            assert(p.last() == h@[i as int]);
        }
        i = i + 1;
    }
    assert(h@.subrange(0, h@.len() as int) == h@);
}

fn push_log_tail(out: &mut String, it: &Item)
    requires
        it.own_ok(),
    ensures
        final(out)@ == old(out)@ + log_tail_text(*it),
{
    let ghost o0 = out@;
    if it.tags.len() > 0 {
        push_text(out, "Tags: ");
        push_joined(out, &it.tags);
        push_text(out, "\n");
    }
    let ghost o1 = out@;
    if it.state_history.len() > 0 {
        push_text(out, "History:\n");
        push_log_history(out, &it.state_history);
    }
    let ghost o2 = out@;
    if !blank_text(&it.notes) {
        push_text(out, "Notes:\n");
        push_text(out, it.notes.as_str());
        push_text(out, "\n");
    }
    let ghost o3 = out@;
    push_text(out, "\n");
    proof {
        let a = if it.tags@.len() > 0 { "Tags: "@ + joined(views(it.tags@)) + "\n"@ } else { Seq::<char>::empty() };
        let b = if it.state_history@.len() > 0 {
            "History:\n"@ + log_history_text(it.state_history@)
        } else {
            Seq::<char>::empty()
        };
        let c = if !crate::codec::is_blank_text(it.notes@) {
            "Notes:\n"@ + it.notes@ + "\n"@
        } else {
            Seq::<char>::empty()
        };
        assert(o1 == o0 + a);
        assert(o2 == o1 + b);
        assert(o3 == o2 + c);
    }
}

/// Serialize an entry of the legacy done log, written at `now`.
pub fn serialize_done_entry(item: &Item, now: Stamp) -> (r: String)
    requires
        item.own_ok(),
        now.wf(),
    ensures
        r@ == done_entry_text(*item, now),
{
    let mut out = String::new();
    push_text(&mut out, "## ");
    let ts = now.to_rfc3339();
    push_text(&mut out, ts.as_str());
    push_text(&mut out, "\n");
    push_text(&mut out, "Task: \"");
    push_text(&mut out, item.title.as_str());
    push_text(&mut out, "\"\n");
    push_log_metrics(&mut out, item, now);
    push_log_tail(&mut out, item);
    out
}

/// The name of a status as an archive entry writes it.
pub open spec fn status_name(st: RunStatus) -> Seq<char> {
    match st {
        RunStatus::Idle => "Idle"@,
        RunStatus::Running => "Running"@,
        RunStatus::Paused => "Paused"@,
        RunStatus::Done => "Done"@,
        RunStatus::Postponed => "Postponed"@,
    }
}

fn status_name_exec(st: RunStatus) -> (r: &'static str)
    ensures
        r@ == status_name(st),
{
    match st {
        RunStatus::Idle => "Idle",
        RunStatus::Running => "Running",
        RunStatus::Paused => "Paused",
        RunStatus::Done => "Done",
        RunStatus::Postponed => "Postponed",
    }
}

/// The subtask lines of an archive entry.
pub open spec fn archive_subtasks_text(subs: Seq<Item>) -> Seq<char>
    decreases subs.len(),
{
    if subs.len() == 0 {
        Seq::empty()
    } else {
        archive_subtasks_text(subs.drop_last()) + "  - "@ + subs.last().title@ + "\n"@
            + "    Elapsed: "@ + hours_field(subs.last().track.elapsed as int) + "\n"@
            + "    Estimate: "@ + hours_field(subs.last().track.estimate as int) + "\n"@
    }
}

/// The head of an archive entry: timestamp, title, times and status.
pub open spec fn archive_head_text(it: Item, now: Stamp) -> Seq<char> {
    "## "@ + now.spec_text() + "\n"@ + "Task: \""@ + it.title@ + "\"\n"@
        + "Elapsed: "@ + hours_field(it.track.elapsed as int) + "\n"@
        + "Estimate: "@ + hours_field(it.track.estimate as int) + "\n"@
        + "Status: "@ + status_name(it.status) + "\n"@
}

/// An entry of the legacy archive, written at `now`.
pub open spec fn archive_entry_text(it: Item, now: Stamp) -> Seq<char> {
    archive_head_text(it, now)
        + (if it.tags@.len() > 0 { "Tags: "@ + joined(views(it.tags@)) + "\n"@ } else { Seq::<char>::empty() })
        + (if !crate::codec::is_blank_text(it.notes@) {
            "Notes:\n"@ + it.notes@ + "\n"@
        } else {
            Seq::<char>::empty()
        })
        + (if it.subtasks@.len() > 0 {
            "Subtasks:\n"@ + archive_subtasks_text(it.subtasks@)
        } else {
            Seq::<char>::empty()
        })
        + "\n"@
}

#[verifier::rlimit(40)]
fn push_archive_head(out: &mut String, it: &Item, now: Stamp)
    requires
        now.wf(),
    ensures
        final(out)@ == old(out)@ + archive_head_text(*it, now),
{
    push_text(out, "## ");
    let ts = now.to_rfc3339();
    push_text(out, ts.as_str());
    push_text(out, "\n");
    push_text(out, "Task: \"");
    push_text(out, it.title.as_str());
    push_text(out, "\"\n");
    push_text(out, "Elapsed: ");
    push_hours_field(out, it.track.elapsed);
    push_text(out, "\n");
    push_text(out, "Estimate: ");
    push_hours_field(out, it.track.estimate);
    push_text(out, "\n");
    push_text(out, "Status: ");
    push_text(out, status_name_exec(it.status));
    push_text(out, "\n");
}

fn push_archive_subtasks(out: &mut String, subs: &Vec<Item>)
    ensures
        final(out)@ == old(out)@ + archive_subtasks_text(subs@),
{
    let mut i: usize = 0;
    while i < subs.len()
        invariant
            i <= subs@.len(),
            out@ == old(out)@ + archive_subtasks_text(subs@.subrange(0, i as int)),
        decreases subs@.len() - i,
    {
        let st = &subs[i];
        push_text(out, "  - ");
        push_text(out, st.title.as_str());
        push_text(out, "\n");
        push_text(out, "    Elapsed: ");
        push_hours_field(out, st.track.elapsed);
        push_text(out, "\n");
        push_text(out, "    Estimate: ");
        push_hours_field(out, st.track.estimate);
        push_text(out, "\n");
        proof {
            let p = subs@.subrange(0, i + 1);
            assert(p.drop_last() == subs@.subrange(0, i as int));
            assert(p.last() == subs@[i as int]);
        }
        i = i + 1;
    }
    assert(subs@.subrange(0, subs@.len() as int) == subs@);
}

/// Serialize an entry of the legacy archive, written at `now`.
pub fn serialize_archive_entry(item: &Item, now: Stamp) -> (r: String)
    requires
        now.wf(),
    ensures
        r@ == archive_entry_text(*item, now),
{
    let mut out = String::new();
    push_archive_head(&mut out, item, now);
    let ghost o1 = out@;
    if item.tags.len() > 0 {
        push_text(&mut out, "Tags: ");
        push_joined(&mut out, &item.tags);
        push_text(&mut out, "\n");
    }
    let ghost o2 = out@;
    if !blank_text(&item.notes) {
        push_text(&mut out, "Notes:\n");
        push_text(&mut out, item.notes.as_str());
        push_text(&mut out, "\n");
    }
    let ghost o3 = out@;
    if item.subtasks.len() > 0 {
        push_text(&mut out, "Subtasks:\n");
        push_archive_subtasks(&mut out, &item.subtasks);
    }
    let ghost o4 = out@;
    push_text(&mut out, "\n");
    proof {
        let a = if item.tags@.len() > 0 { "Tags: "@ + joined(views(item.tags@)) + "\n"@ } else { Seq::<char>::empty() };
        let b = if !crate::codec::is_blank_text(item.notes@) {
            "Notes:\n"@ + item.notes@ + "\n"@
        } else {
            Seq::<char>::empty()
        };
        let c = if item.subtasks@.len() > 0 {
            "Subtasks:\n"@ + archive_subtasks_text(item.subtasks@)
        } else {
            Seq::<char>::empty()
        };
        assert(o2 == o1 + a);
        assert(o3 == o2 + b);
        assert(o4 == o3 + c);
    }
    out
}

/// What a done-log entry holds, as its lines are read.
pub struct EntryView {
    pub title: Seq<char>,
    pub el: int,
    pub est: int,
    pub notes: Seq<char>,
    pub in_notes: bool,
    pub has_notes: bool,
}

/// An entry before any of its lines was read.
pub open spec fn empty_entry() -> EntryView {
    EntryView { title: Seq::empty(), el: 0, est: 0, notes: Seq::empty(), in_notes: false, has_notes: false }
}

/// The text without trailing double quotes.
pub open spec fn strip_quotes(s: Seq<char>) -> Seq<char>
    decreases s.len(),
{
    if s.len() > 0 && s.last() == '"' {
        strip_quotes(s.drop_last())
    } else {
        s
    }
}

/// The lines of a done-log entry from line `i` up to the next `## ` header.
pub open spec fn entry_scan(ls: Seq<Seq<char>>, i: int, e: EntryView) -> (EntryView, int)
    decreases ls.len() - i,
{
    if i < 0 || i >= ls.len() {
        (e, i)
    } else {
        let l = ls[i];
        if starts_with(l, "## "@) {
            (e, i)
        } else if starts_with(l, "Task: \""@) {
            entry_scan(ls, i + 1, EntryView { title: strip_quotes(l.subrange("Task: \""@.len() as int, l.len() as int)), in_notes: false, ..e })
        } else if starts_with(l, "Elapsed: "@) {
            entry_scan(ls, i + 1, EntryView { el: dur_or_zero(rest_after(l, "Elapsed: "@.len() as int)), in_notes: false, ..e })
        } else if starts_with(l, "Estimate at finish: "@) {
            entry_scan(ls, i + 1, EntryView { est: dur_or_zero(rest_after(l, "Estimate at finish: "@.len() as int)), in_notes: false, ..e })
        } else if starts_with(l, "Estimate: "@) {
            entry_scan(ls, i + 1, EntryView { est: dur_or_zero(rest_after(l, "Estimate: "@.len() as int)), in_notes: false, ..e })
        } else if starts_with(l, "Notes:"@) {
            entry_scan(ls, i + 1, EntryView { in_notes: true, ..e })
        } else if e.in_notes && trim(l).len() > 0 {
            entry_scan(ls, i + 1, EntryView {
                notes: e.notes + (if e.has_notes { seq!['\n'] } else { Seq::<char>::empty() }) + l,
                has_notes: true,
                ..e
            })
        } else if starts_with(l, "History:"@) {
            entry_scan(ls, i + 1, EntryView { in_notes: false, ..e })
        } else {
            entry_scan(ls, i + 1, e)
        }
    }
}

/// The entries of a done log from line `i` on whose header falls on local day `today`.
pub open spec fn log_scan(ls: Seq<Seq<char>>, i: int, today: int, acc: Seq<EntryView>) -> Seq<EntryView>
    decreases ls.len() - i,
{
    if i < 0 || i >= ls.len() {
        acc
    } else {
        let t = trim(ls[i]);
        if starts_with(t, "## "@) {
            match Stamp::spec_parse(rest_after(t, "## "@.len() as int)) {
                Some(st) => if st.spec_local_day() == today {
                    let r = entry_scan(ls, i + 1, empty_entry());
                    log_scan(ls, after_block(ls, i, r.1), today, acc.push(r.0))
                } else {
                    log_scan(ls, i + 1, today, acc)
                },
                None => log_scan(ls, i + 1, today, acc),
            }
        } else {
            log_scan(ls, i + 1, today, acc)
        }
    }
}

/// An item is the done-log entry read, marked done at `now`.
pub open spec fn entry_match(it: Item, e: EntryView, now: Stamp) -> bool {
    &&& it.title@ == e.title
    &&& it.track.elapsed == e.el
    &&& it.track.estimate == e.est
    &&& it.notes@ == e.notes
    &&& it.status == RunStatus::Done
    &&& it.completed_at == Some(now)
}

/// Each item is the entry read at the same position.
pub open spec fn entries_match(items: Seq<Item>, es: Seq<EntryView>, now: Stamp) -> bool {
    &&& items.len() == es.len()
    &&& forall|k: int| 0 <= k < items.len() ==> entry_match(#[trigger] items[k], es[k], now)
}

/// Read one legacy done-log entry after its `## <timestamp>` line: title,
/// elapsed, estimate and notes; the item is then marked done at `now`.
fn parse_done_entry(lines: &Vec<Vec<char>>, start: usize, now: Stamp) -> (r: (Item, usize))
    requires
        start < lines@.len(),
        now.wf(),
    ensures
        start < r.1 <= lines@.len(),
        r.0.wf(),
        r.0.status == RunStatus::Done,
        r.1 == entry_scan(line_views(lines@), start + 1, empty_entry()).1,
        entry_match(r.0, entry_scan(line_views(lines@), start + 1, empty_entry()).0, now),
{
    let mut title: Vec<char> = Vec::new();
    let mut elapsed: i64 = 0;
    let mut estimate: i64 = 0;
    let mut notes = String::new();
    let mut in_notes = false;
    let mut has_notes = false;
    let nlines = lines.len();
    let mut i = start + 1;
    let ghost ls = line_views(lines@);
    assert(notes@ =~= Seq::<char>::empty());
    assert(title@ =~= Seq::<char>::empty());
    while i < lines.len()
        invariant
            start < i <= lines@.len(),
            -4000000000000000 < elapsed < 4000000000000000,
            -4000000000000000 < estimate < 4000000000000000,
            ls == line_views(lines@),
            entry_scan(ls, start + 1, empty_entry()) == entry_scan(ls, i as int, EntryView {
                title: title@,
                el: elapsed as int,
                est: estimate as int,
                notes: notes@,
                in_notes,
                has_notes,
            }),
        ensures
            start < i <= lines@.len(),
            -4000000000000000 < elapsed < 4000000000000000,
            -4000000000000000 < estimate < 4000000000000000,
            entry_scan(ls, start + 1, empty_entry()) == (EntryView {
                title: title@,
                el: elapsed as int,
                est: estimate as int,
                notes: notes@,
                in_notes,
                has_notes,
            }, i as int),
        decreases lines@.len() - i,
    {
        let line = &lines[i];
        assert(ls[i as int] == line@);
        if has_prefix(line, "## ") {
            break;
        }
        if has_prefix(line, "Task: \"") {
            let skip = crate::text::chars_of("Task: \"").len();
            let rest = crate::text::slice_of(line, skip, line.len());
            let mut end = rest.len();
            assert(rest@.subrange(0, rest@.len() as int) == rest@);
            while end > 0 && rest[end - 1] == '"'
                invariant
                    end <= rest@.len(),
                    strip_quotes(rest@.subrange(0, end as int)) == strip_quotes(rest@),
                decreases end,
            {
                assert(rest@.subrange(0, end as int).drop_last() == rest@.subrange(0, end - 1));
                end = end - 1;
            }
            title = crate::text::slice_of(&rest, 0, end);
            in_notes = false;
        } else if has_prefix(line, "Elapsed: ") {
            elapsed = match duration_of_chars(&field_rest(line, "Elapsed: ")) {
                Some(v) => v,
                None => 0,
            };
            in_notes = false;
        } else if has_prefix(line, "Estimate at finish: ") {
            estimate = match duration_of_chars(&field_rest(line, "Estimate at finish: ")) {
                Some(v) => v,
                None => 0,
            };
            in_notes = false;
        } else if has_prefix(line, "Estimate: ") {
            estimate = match duration_of_chars(&field_rest(line, "Estimate: ")) {
                Some(v) => v,
                None => 0,
            };
            in_notes = false;
        } else if has_prefix(line, "Notes:") {
            in_notes = true;
        } else if in_notes && trimmed(line).len() > 0 {
            let ghost n0 = notes@;
            if has_notes {
                notes.push('\n');
            }
            crate::text::push_chars(&mut notes, line);
            assert(notes@ == n0 + (if has_notes { seq!['\n'] } else { Seq::<char>::empty() }) + line@);
            has_notes = true;
        } else if has_prefix(line, "History:") {
            in_notes = false;
        }
        i = i + 1;
    }
    let mut item = Item::new(string_of(&title), estimate, ScheduleDay::Today, now);
    item.track.elapsed = elapsed;
    item.notes = notes;
    item.mark_done(now);
    (item, i)
}

/// The entries of a legacy done log whose header timestamp falls on the
/// local calendar day of `now`.
pub fn parse_done_log_today(content: &str, now: Stamp) -> (r: Vec<Item>)
    requires
        now.wf(),
    ensures
        all_wf(r@),
        forall|k: int| 0 <= k < r@.len() ==> (#[trigger] r@[k]).status == RunStatus::Done,
        entries_match(r@, log_scan(lines_of(content@), 0, now.spec_local_day(), Seq::empty()), now),
{
    let cs = crate::text::chars_of(content);
    let lines = split_lines(&cs);
    let today = now.local_day();
    let mut items: Vec<Item> = Vec::new();
    let mut i: usize = 0;
    let ghost ls = lines_of(content@);
    let ghost mut acc: Seq<EntryView> = Seq::empty();
    assert(line_views(lines@) =~= ls);
    while i < lines.len()
        invariant
            line_views(lines@) == ls,
            today == now.spec_local_day(),
            log_scan(ls, 0, today as int, Seq::empty()) == log_scan(ls, i as int, today as int, acc),
            entries_match(items@, acc, now),
            i <= lines@.len(),
            now.wf(),
            all_wf(items@),
            forall|k: int| 0 <= k < items@.len() ==> (#[trigger] items@[k]).status == RunStatus::Done,
        decreases lines@.len() - i,
    {
        assert(ls[i as int] == lines@[i as int]@);
        let t = trimmed(&lines[i]);
        let mut next = i + 1;
        if has_prefix(&t, "## ") {
            let ts = string_of(&field_rest(&t, "## "));
            match Stamp::parse(ts.as_str()) {
                Some(st) => {
                    if st.local_day() == today {
                        let (item, after) = parse_done_entry(&lines, i, now);
                        let ghost a0 = items@;
                        items.push(item);
                        proof {
                            acc = acc.push(entry_scan(ls, i + 1, empty_entry()).0);
                            assert forall|k: int| 0 <= k < items@.len() implies entry_match(#[trigger] items@[k], acc[k], now) by {
                                if k < a0.len() { assert(items@[k] == a0[k]); }
                            }
                            assert forall|k: int| 0 <= k < items@.len() implies (#[trigger] items@[k]).wf() && items@[k].status == RunStatus::Done by {
                                if k < a0.len() { assert(items@[k] == a0[k]); }
                            }
                        }
                        next = after;
                    }
                },
                None => {},
            }
        }
        i = next;
    }
    items
}

/// Bring the older three-file layout into one day: tomorrow's items move to
/// today after today's, all are resynchronised from history with nothing left
/// running, and today's entries of the done log become the done list.
pub fn migrate_legacy_format(today: &str, tomorrow: &str, done_log: &str, now: Stamp) -> (r: (Vec<Item>, Vec<Item>))
    requires
        now.wf(),
    ensures
        all_wf(r.0@),
        all_wf(r.1@),
        forall|k: int| 0 <= k < r.0@.len() ==> settled(#[trigger] r.0@[k], now) && r.0@[k].schedule == ScheduleDay::Today,
        forall|k: int| 0 <= k < r.1@.len() ==> (#[trigger] r.1@[k]).status == RunStatus::Done,
        crate::migration::loaded_matches(
            r.0@,
            crate::codec::markdown_scan(lines_of(today@), 0, Seq::empty()) + crate::codec::markdown_scan(
                lines_of(tomorrow@),
                0,
                Seq::empty(),
            ),
            now,
        ),
        entries_match(r.1@, log_scan(lines_of(done_log@), 0, now.spec_local_day(), Seq::empty()), now),
{
    let mut items = match parse_markdown(today, ScheduleDay::Today, now) {
        Ok(v) => v,
        Err(_) => Vec::new(),
    };
    let mut later = match parse_markdown(tomorrow, ScheduleDay::Tomorrow, now) {
        Ok(v) => v,
        Err(_) => Vec::new(),
    };
    let ghost a0 = items@;
    let ghost b0 = later@;
    items.append(&mut later);
    proof {
        let all = items@;
        assert forall|q: int| 0 <= q < all.len() implies (#[trigger] all[q]).wf() by {
            if q < a0.len() {
                assert(all[q] == a0[q]);
            } else {
                assert(all[q] == b0[q - a0.len()]);
            }
        }
    }
    let ghost c0 = items@;
    settle_all(&mut items, true, now);
    proof {
        let ta = crate::codec::markdown_scan(lines_of(today@), 0, Seq::empty());
        let tb = crate::codec::markdown_scan(lines_of(tomorrow@), 0, Seq::empty());
        let v = ta + tb;
        assert forall|k: int| 0 <= k < items@.len() implies crate::migration::loaded_match(#[trigger] items@[k], v[k], now) by {
            if k < a0.len() {
                assert(c0[k] == a0[k]);
                assert(crate::codec::top_match(a0[k], ta[k], now));
            } else {
                assert(c0[k] == b0[k - a0.len()]);
                assert(crate::codec::top_match(b0[k - a0.len()], tb[k - a0.len()], now));
            }
            crate::migration::lemma_settled_match(c0[k], items@[k], v[k], now);
        }
    }
    let done = parse_done_log_today(done_log, now);
    (items, done)
}

} // verus!
