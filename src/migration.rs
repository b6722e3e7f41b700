use vstd::prelude::*;
use crate::clock::Stamp;
use crate::codec::{daily_scan, lines_of, parse_daily_file, sub_match, top_match, tops_match, views, Section, TopView};
use crate::item::{Item, TimeTracking};
use crate::modes::all_wf;
use crate::status::{RunStatus, ScheduleDay};

verus! {

/// An item as it stands after a load: elapsed time taken from history and
/// nothing left running, for it and each subtask.
pub open spec fn settled(it: Item, now: Stamp) -> bool {
    &&& it.wf()
    &&& it.status != RunStatus::Running
    &&& it.track.elapsed == it.spec_time_split(now).0
    &&& forall|j: int| 0 <= j < it.subtasks@.len() ==> {
        &&& (#[trigger] it.subtasks@[j]).status != RunStatus::Running
        &&& it.subtasks@[j].track.elapsed == it.subtasks@[j].spec_time_split(now).0
    }
}

/// `after` is `before` resynchronised from history and with running coerced to paused.
pub open spec fn settled_from(before: Item, after: Item, now: Stamp) -> bool {
    &&& settled(after, now)
    &&& after.title == before.title
    &&& after.status == Item::coerced(before.status)
    &&& after.state_history == before.state_history
    &&& after.track.estimate == before.track.estimate
    &&& after.subtasks@.len() == before.subtasks@.len()
    &&& forall|j: int| 0 <= j < before.subtasks@.len() ==> (#[trigger] after.subtasks@[j]).status == Item::coerced(
        before.subtasks@[j].status,
    )
    &&& after == (Item { status: after.status, track: after.track, subtasks: after.subtasks, schedule: after.schedule, ..before })
    &&& after.track == (TimeTracking { elapsed: after.track.elapsed, ..before.track })
    &&& forall|j: int| 0 <= j < before.subtasks@.len() ==> {
        &&& (#[trigger] after.subtasks@[j]) == (Item {
            status: after.subtasks@[j].status,
            track: after.subtasks@[j].track,
            ..before.subtasks@[j]
        })
        &&& after.subtasks@[j].track == (TimeTracking { elapsed: after.subtasks@[j].track.elapsed, ..before.subtasks@[j].track })
    }
}

/// Resynchronise an item from history and coerce it (and its subtasks) from running to paused.
pub fn settle_item(it: &mut Item, now: Stamp)
    requires
        old(it).wf(),
        now.wf(),
    ensures
        settled_from(*old(it), *final(it), now),
        final(it).schedule == old(it).schedule,
{
    it.sync_elapsed_from_history(now);
    let ghost mid = *it;
    it.coerce_running_to_paused();
    proof {
        let f = *it;
        assert forall|j: int| 0 <= j < f.subtasks@.len() implies {
            &&& (#[trigger] f.subtasks@[j]).status != RunStatus::Running
            &&& f.subtasks@[j].track.elapsed == f.subtasks@[j].spec_time_split(now).0
        } by {
            assert(mid.subtasks@[j] == old(it).subtasks@[j].resynced_leaf(now));
            assert(old(it).subtasks@[j].leaf_ok());
            crate::item::lemma_running_bound(old(it).subtasks@[j], now);
        }
        crate::item::lemma_running_bound(*old(it), now);
    }
}

/// Settle every item of a list; with `retag`, move each to today's schedule.
pub(crate) fn settle_all(items: &mut Vec<Item>, retag: bool, now: Stamp)
    requires
        all_wf(old(items)@),
        now.wf(),
    ensures
        final(items)@.len() == old(items)@.len(),
        forall|k: int| 0 <= k < old(items)@.len() ==> settled_from(old(items)@[k], #[trigger] final(items)@[k], now),
        forall|k: int| 0 <= k < old(items)@.len() ==> (#[trigger] final(items)@[k]).schedule == if retag {
            ScheduleDay::Today
        } else {
            old(items)@[k].schedule
        },
{
    let n = items.len();
    let mut i: usize = 0;
    while i < n
        invariant
            n == old(items)@.len(),
            items@.len() == n,
            i <= n,
            now.wf(),
            all_wf(old(items)@),
            forall|k: int| 0 <= k < i ==> settled_from(old(items)@[k], #[trigger] items@[k], now),
            forall|k: int| 0 <= k < i ==> (#[trigger] items@[k]).schedule == if retag {
                ScheduleDay::Today
            } else {
                old(items)@[k].schedule
            },
            forall|k: int| i <= k < n ==> (#[trigger] items@[k]) == old(items)@[k],
        decreases n - i,
    {
        assert(items@[i as int] == old(items)@[i as int]);
        settle_item(&mut items[i], now);
        if retag {
            items[i].schedule = ScheduleDay::Today;
        }
        i = i + 1;
    }
}

/// A loaded item is the record read, resynchronised from history and with
/// running coerced to paused (itself and each subtask).
pub open spec fn loaded_match(it: Item, v: TopView, now: Stamp) -> bool {
    &&& it.status == Item::coerced(v.status)
    &&& it.title@ == v.title
    &&& it.track.estimate == v.fields.est
    &&& views(it.tags@) == v.fields.tags
    &&& it.created_at == match v.fields.created {
        Some(c) => c,
        None => now,
    }
    &&& it.completed_at == v.fields.completed
    &&& it.state_history@ == crate::codec::history_or_initial(v.fields.history, now)
    &&& it.notes@ == v.fields.notes
    &&& it.track.elapsed == it.spec_time_split(now).0
    &&& it.subtasks@.len() == v.subs.len()
    &&& forall|j: int| 0 <= j < v.subs.len() ==> {
        &&& (#[trigger] it.subtasks@[j]).status == Item::coerced(v.subs[j].status)
        &&& it.subtasks@[j].title@ == v.subs[j].title
        &&& it.subtasks@[j].track.estimate == v.subs[j].fields.est
        &&& views(it.subtasks@[j].tags@) == v.subs[j].fields.tags
        &&& it.subtasks@[j].created_at == match v.subs[j].fields.created {
            Some(c) => c,
            None => now,
        }
        &&& it.subtasks@[j].completed_at == v.subs[j].fields.completed
        &&& it.subtasks@[j].state_history@ == crate::codec::history_or_initial(v.subs[j].fields.history, now)
        &&& it.subtasks@[j].notes@ == v.subs[j].fields.notes
        &&& it.subtasks@[j].track.elapsed == it.subtasks@[j].spec_time_split(now).0
    }
}

/// Each loaded item is the record read at the same position.
pub open spec fn loaded_matches(items: Seq<Item>, vs: Seq<TopView>, now: Stamp) -> bool {
    &&& items.len() == vs.len()
    &&& forall|k: int| 0 <= k < items.len() ==> loaded_match(#[trigger] items[k], vs[k], now)
}

/// Settling an item read from a record gives the loaded form of that record.
pub proof fn lemma_settled_match(p: Item, it: Item, v: TopView, now: Stamp)
    requires
        top_match(p, v, now),
        settled_from(p, it, now),
    ensures
        loaded_match(it, v, now),
{
    assert forall|j: int| 0 <= j < v.subs.len() implies {
        &&& (#[trigger] it.subtasks@[j]).status == Item::coerced(v.subs[j].status)
        &&& it.subtasks@[j].title@ == v.subs[j].title
        &&& it.subtasks@[j].track.estimate == v.subs[j].fields.est
        &&& views(it.subtasks@[j].tags@) == v.subs[j].fields.tags
        &&& it.subtasks@[j].created_at == match v.subs[j].fields.created {
            Some(c) => c,
            None => now,
        }
        &&& it.subtasks@[j].completed_at == v.subs[j].fields.completed
        &&& it.subtasks@[j].state_history@ == crate::codec::history_or_initial(v.subs[j].fields.history, now)
        &&& it.subtasks@[j].notes@ == v.subs[j].fields.notes
        &&& it.subtasks@[j].track.elapsed == it.subtasks@[j].spec_time_split(now).0
    } by {
        assert(sub_match(p.subtasks@[j], v.subs[j], now));
    }
}

/// Decide what to load at startup from today's and yesterday's daily files
/// (their contents when they exist). Today's file gives all three lists;
/// otherwise yesterday's file gives its active list only, moved to today;
/// otherwise everything starts empty. Active items loaded either way are
/// resynchronised from history and nothing is left running.
pub fn load_and_migrate(today: Option<&str>, yesterday: Option<&str>, now: Stamp) -> (r: (Vec<Item>, Vec<Item>, Vec<Item>))
    requires
        now.wf(),
    ensures
        all_wf(r.0@),
        all_wf(r.1@),
        all_wf(r.2@),
        forall|k: int| 0 <= k < r.0@.len() ==> settled(#[trigger] r.0@[k], now),
        today is None ==> r.1@.len() == 0 && r.2@.len() == 0,
        today is None && yesterday is Some ==> forall|k: int| 0 <= k < r.0@.len() ==> (#[trigger] r.0@[k]).schedule
            == ScheduleDay::Today,
        today is None && yesterday is None ==> r.0@.len() == 0,
        today matches Some(c) ==> {
            let sc = daily_scan(lines_of(c@), 0, Section::Active, Seq::empty(), Seq::empty(), Seq::empty());
            &&& loaded_matches(r.0@, sc.0, now)
            &&& tops_match(r.1@, sc.1, now)
            &&& tops_match(r.2@, sc.2, now)
        },
        today is None ==> (yesterday matches Some(c) ==> loaded_matches(
            r.0@,
            daily_scan(lines_of(c@), 0, Section::Active, Seq::empty(), Seq::empty(), Seq::empty()).0,
            now,
        )),
{
    match today {
        Some(content) => {
            let (mut active, done, archived) = match parse_daily_file(content, now) {
                Ok(v) => v,
                Err(_) => (Vec::new(), Vec::new(), Vec::new()),
            };
            let ghost a0 = active@;
            settle_all(&mut active, false, now);
            proof {
                let sc = daily_scan(lines_of(content@), 0, Section::Active, Seq::empty(), Seq::empty(), Seq::empty());
                assert forall|k: int| 0 <= k < active@.len() implies loaded_match(#[trigger] active@[k], sc.0[k], now) by {
                    assert(top_match(a0[k], sc.0[k], now));
                    lemma_settled_match(a0[k], active@[k], sc.0[k], now);
                }
            }
            (active, done, archived)
        },
        None => match yesterday {
            Some(content) => {
                let (mut active, _done, _archived) = match parse_daily_file(content, now) {
                    Ok(v) => v,
                    Err(_) => (Vec::new(), Vec::new(), Vec::new()),
                };
                let ghost a0 = active@;
                settle_all(&mut active, true, now);
                proof {
                    let sc = daily_scan(lines_of(content@), 0, Section::Active, Seq::empty(), Seq::empty(), Seq::empty());
                    assert forall|k: int| 0 <= k < active@.len() implies loaded_match(#[trigger] active@[k], sc.0[k], now) by {
                        assert(top_match(a0[k], sc.0[k], now));
                        lemma_settled_match(a0[k], active@[k], sc.0[k], now);
                    }
                }
                (active, Vec::new(), Vec::new())
            },
            None => (Vec::new(), Vec::new(), Vec::new()),
        },
    }
}

} // verus!
