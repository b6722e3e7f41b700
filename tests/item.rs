use centre::clock::Stamp;
use centre::item::{Item, StateEvent, TimeTracking};
use centre::status::{RunStatus, ScheduleDay};

const HOUR: i64 = 3600;
const MINUTE: i64 = 60;

fn at(secs: i64) -> Stamp {
    Stamp { secs: 1_762_800_000 + secs, offset: 3600 }
}

#[test]
fn test_time_tracking_new() {
    let estimate = 2 * HOUR;
    let track = TimeTracking::new(estimate);
    assert_eq!(track.estimate, estimate);
    assert_eq!(track.elapsed, 0);
    assert!(track.started_at.is_none());
}

#[test]
fn test_time_tracking_formatted() {
    let track1 = TimeTracking { estimate: 5400, elapsed: 2700, started_at: None };
    assert_eq!(track1.estimate_formatted(), "1h 30m");
    assert_eq!(track1.elapsed_formatted(), "45m");

    let track2 = TimeTracking { estimate: 2 * HOUR, elapsed: HOUR, started_at: None };
    assert_eq!(track2.estimate_formatted(), "2h");
    assert_eq!(track2.elapsed_formatted(), "1h");

    let track3 = TimeTracking { estimate: 1800, elapsed: 900, started_at: None };
    assert_eq!(track3.estimate_formatted(), "30m");
    assert_eq!(track3.elapsed_formatted(), "15m");

    let track4 = TimeTracking { estimate: 125 * MINUTE, elapsed: 65 * MINUTE, started_at: None };
    assert_eq!(track4.estimate_formatted(), "2h 5m");
    assert_eq!(track4.elapsed_formatted(), "1h 5m");
}

#[test]
fn test_time_tracking_is_over_estimate() {
    let mut track = TimeTracking { estimate: 2 * HOUR, elapsed: HOUR, started_at: None };
    assert!(!track.is_over_estimate());

    track.elapsed = 2 * HOUR;
    assert!(track.is_over_estimate());

    track.elapsed = 3 * HOUR;
    assert!(track.is_over_estimate());
}

#[test]
fn test_item_new() {
    let item = Item::new("Test task".to_string(), HOUR, ScheduleDay::Today, at(0));
    assert_eq!(item.title, "Test task");
    assert_eq!(item.status, RunStatus::Idle);
    assert_eq!(item.schedule, ScheduleDay::Today);
    assert!(item.expanded);
    assert!(item.subtasks.is_empty());
}

#[test]
fn test_item_toggle_run_pause() {
    let mut item = Item::new("Test".to_string(), HOUR, ScheduleDay::Today, at(0));

    item.toggle_run_pause(at(1));
    assert_eq!(item.status, RunStatus::Running);
    assert!(item.track.started_at.is_some());

    item.toggle_run_pause(at(2));
    assert_eq!(item.status, RunStatus::Paused);
    assert!(item.track.started_at.is_none());

    item.toggle_run_pause(at(3));
    assert_eq!(item.status, RunStatus::Running);
}

#[test]
fn test_item_mark_done() {
    let mut item = Item::new("Test".to_string(), HOUR, ScheduleDay::Today, at(0));
    item.start(at(1));
    item.mark_done(at(2));
    assert_eq!(item.status, RunStatus::Done);
    assert!(item.track.started_at.is_none());
}

#[test]
fn test_item_postpone() {
    let mut item = Item::new("Test".to_string(), HOUR, ScheduleDay::Today, at(0));
    item.start(at(1));
    item.postpone(at(2));
    assert_eq!(item.status, RunStatus::Idle);
    assert!(item.track.started_at.is_none());
}

#[test]
fn test_item_estimate_adjustment() {
    let mut item = Item::new("Test".to_string(), HOUR, ScheduleDay::Today, at(0));

    item.increase_estimate(30 * MINUTE);
    assert_eq!(item.track.estimate, 90 * MINUTE);

    item.decrease_estimate(30 * MINUTE);
    assert_eq!(item.track.estimate, HOUR);

    item.decrease_estimate(2 * HOUR);
    assert_eq!(item.track.estimate, 0);
}

#[test]
fn test_item_coerce_running_to_paused() {
    let mut item = Item::new("Test".to_string(), HOUR, ScheduleDay::Today, at(0));
    item.start(at(1));

    let mut subtask = Item::new("Subtask".to_string(), 30 * MINUTE, ScheduleDay::Today, at(0));
    subtask.start(at(1));
    item.add_subtask(subtask);

    item.coerce_running_to_paused();

    assert_eq!(item.status, RunStatus::Paused);
    assert_eq!(item.subtasks[0].status, RunStatus::Paused);
}

#[test]
fn test_sync_elapsed_from_history() {
    let now = at(0);
    let mut item = Item::new("Test".to_string(), HOUR, ScheduleDay::Today, now);

    let start1 = at(-40 * MINUTE);
    let end1 = at(-30 * MINUTE);
    let start2 = at(-20 * MINUTE);
    let end2 = at(0);

    item.state_history.push(StateEvent { timestamp: start1, from_status: Some(RunStatus::Idle), to_status: RunStatus::Running });
    item.state_history.push(StateEvent { timestamp: end1, from_status: Some(RunStatus::Running), to_status: RunStatus::Paused });
    item.state_history.push(StateEvent { timestamp: start2, from_status: Some(RunStatus::Paused), to_status: RunStatus::Running });
    item.state_history.push(StateEvent { timestamp: end2, from_status: Some(RunStatus::Running), to_status: RunStatus::Paused });

    item.track.elapsed = 0;
    item.sync_elapsed_from_history(now);

    let expected = 30 * MINUTE;
    assert!(
        (item.track.elapsed - expected).abs() < 1,
        "Expected elapsed to be ~30 minutes, got {} minutes",
        item.track.elapsed / MINUTE
    );
}

#[test]
fn test_sync_elapsed_from_history_with_subtasks() {
    let now = at(0);
    let mut item = Item::new("Parent".to_string(), 2 * HOUR, ScheduleDay::Today, now);
    let mut subtask = Item::new("Child".to_string(), HOUR, ScheduleDay::Today, now);

    let start = at(-20 * MINUTE);
    item.state_history.push(StateEvent { timestamp: start, from_status: Some(RunStatus::Idle), to_status: RunStatus::Running });
    item.state_history.push(StateEvent { timestamp: now, from_status: Some(RunStatus::Running), to_status: RunStatus::Paused });

    let sub_start = at(-10 * MINUTE);
    subtask.state_history.push(StateEvent { timestamp: sub_start, from_status: Some(RunStatus::Idle), to_status: RunStatus::Running });
    subtask.state_history.push(StateEvent { timestamp: now, from_status: Some(RunStatus::Running), to_status: RunStatus::Paused });

    item.add_subtask(subtask);

    item.track.elapsed = 5 * MINUTE;
    item.subtasks[0].track.elapsed = 2 * MINUTE;

    item.sync_elapsed_from_history(now);

    assert!(
        (item.track.elapsed - 20 * MINUTE).abs() < 1,
        "Expected parent elapsed to be ~20 minutes, got {} minutes",
        item.track.elapsed / MINUTE
    );
    assert!(
        (item.subtasks[0].track.elapsed - 10 * MINUTE).abs() < 1,
        "Expected subtask elapsed to be ~10 minutes, got {} minutes",
        item.subtasks[0].track.elapsed / MINUTE
    );
}

#[test]
fn start_tick_pause_scenario() {
    let mut item = Item::new("Write".to_string(), 2 * HOUR, ScheduleDay::Today, at(0));
    item.start(at(0));
    item.tick(at(30 * MINUTE));
    item.pause(at(30 * MINUTE));
    assert_eq!(item.track.elapsed, 30 * MINUTE);
    assert!(!item.is_over_estimate());
}

#[test]
fn tick_rebaselines_running_timer() {
    let mut item = Item::new("Write".to_string(), HOUR, ScheduleDay::Today, at(0));
    item.start(at(0));
    item.tick(at(100));
    assert_eq!(item.track.elapsed, 100);
    assert_eq!(item.track.started_at, Some(at(100).secs));
    item.tick(at(250));
    assert_eq!(item.track.elapsed, 250);
}

#[test]
fn over_estimate_only_while_running() {
    let mut item = Item::new("Write".to_string(), 60, ScheduleDay::Today, at(0));
    item.start(at(0));
    item.tick(at(90));
    assert!(item.is_over_estimate());
    item.pause(at(90));
    assert!(!item.is_over_estimate());
}

#[test]
fn buckets_cover_the_whole_history() {
    let mut item = Item::new("Write".to_string(), HOUR, ScheduleDay::Today, at(0));
    item.start(at(600));
    item.pause(at(1500));
    item.set_idle(at(1800));
    let (running, paused, idle) = item.time_in_each_state(at(2400));
    assert_eq!(running, 900);
    assert_eq!(paused, 300);
    assert_eq!(idle, 600 + 600);
    assert_eq!(running + paused + idle, 2400);
}

#[test]
fn resync_twice_equals_once() {
    let mut item = Item::new("Write".to_string(), HOUR, ScheduleDay::Today, at(0));
    item.start(at(60));
    item.pause(at(360));
    item.track.elapsed = 5;
    item.sync_elapsed_from_history(at(900));
    let once = item.track.elapsed;
    item.sync_elapsed_from_history(at(900));
    assert_eq!(item.track.elapsed, once);
    assert_eq!(once, 300);
}

#[test]
fn history_stays_ordered_when_clock_goes_back() {
    let mut item = Item::new("Write".to_string(), HOUR, ScheduleDay::Today, at(100));
    item.start(at(50));
    assert_eq!(item.state_history.len(), 2);
    assert_eq!(item.state_history[1].timestamp.secs, at(100).secs);
}

#[test]
fn analytics_counts() {
    let mut item = Item::new("Write".to_string(), HOUR, ScheduleDay::Today, at(0));
    item.start(at(10));
    item.pause(at(20));
    item.start(at(30));
    item.mark_done(at(50));
    assert_eq!(item.interruption_count(), 1);
    assert_eq!(item.session_count(), 2);
    assert_eq!(item.running_time(at(100)), 30);
    assert_eq!(item.calendar_time(), Some(50));
}

#[test]
fn subtask_toggle_keeps_parent_in_line() {
    let mut parent = Item::new("Parent".to_string(), HOUR, ScheduleDay::Today, at(0));
    parent.add_subtask(Item::new("A".to_string(), 600, ScheduleDay::Today, at(0)));
    parent.add_subtask(Item::new("B".to_string(), 600, ScheduleDay::Today, at(0)));
    parent.toggle_subtask(0, at(10));
    assert_eq!(parent.subtasks[0].status, RunStatus::Running);
    assert_eq!(parent.status, RunStatus::Running);
    parent.toggle_subtask(0, at(20));
    assert_eq!(parent.subtasks[0].status, RunStatus::Paused);
    assert_eq!(parent.status, RunStatus::Paused);
}

#[test]
fn subtask_totals() {
    let mut parent = Item::new("Parent".to_string(), HOUR, ScheduleDay::Today, at(0));
    let mut a = Item::new("A".to_string(), 600, ScheduleDay::Today, at(0));
    a.track.elapsed = 120;
    parent.add_subtask(a);
    parent.add_subtask(Item::new("B".to_string(), 900, ScheduleDay::Today, at(0)));
    assert_eq!(parent.subtask_total_estimate(), 1500);
    assert_eq!(parent.subtask_total_elapsed(), 120);
    assert!(!parent.has_running_subtasks());
}

#[test]
fn last_span_counts_end_minus_start_even_when_negative() {
    let mut item = Item::new("Late".to_string(), HOUR, ScheduleDay::Today, at(1000));
    item.completed_at = Some(at(950));
    let (running, paused, idle) = item.time_in_each_state(at(2000));
    assert_eq!((running, paused, idle), (0, 0, -50));
}

#[test]
fn running_time_agrees_with_running_bucket() {
    let mut item = Item::new("Run".to_string(), HOUR, ScheduleDay::Today, at(0));
    item.start(at(1000));
    assert_eq!(item.running_time(at(900)), -100);
    assert_eq!(item.time_in_each_state(at(900)).0, -100);
}

#[test]
fn day_change_is_seen() {
    let now = at(0);
    let today = now.local_day();
    assert!(!Stamp::has_day_changed(today, now));
    assert!(Stamp::has_day_changed(today - 1, now));
}
