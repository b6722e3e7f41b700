use centre::clock::Stamp;
use centre::item::Item;
use centre::migration::load_and_migrate;
use centre::status::{RunStatus, ScheduleDay};

fn now() -> Stamp {
    Stamp { secs: 1_762_941_600, offset: 3600 }
}

#[test]
fn test_coerce_running_to_paused() {
    let mut item = Item::new("Test".to_string(), 3600, ScheduleDay::Today, now());
    item.status = RunStatus::Running;
    item.track.start(now());

    let mut subtask = Item::new("Subtask".to_string(), 30 * 60, ScheduleDay::Today, now());
    subtask.status = RunStatus::Running;
    subtask.track.start(now());
    item.add_subtask(subtask);

    item.coerce_running_to_paused();

    assert_eq!(item.status, RunStatus::Paused);
    assert_eq!(item.subtasks[0].status, RunStatus::Paused);
}

#[test]
fn test_schedule_promotion() {
    let mut item = Item::new("Tomorrow task".to_string(), 3600, ScheduleDay::Tomorrow, now());

    item.schedule = ScheduleDay::Today;
    assert_eq!(item.schedule, ScheduleDay::Today);
}

#[test]
fn rollover_from_yesterday_keeps_idle_item() {
    let yesterday = "# 2025-11-11\n\n## ACTIVE\n\n- [IDLE] Carry\n  est: 1.00h\n  elapsed: 0.00h\n  created: 2025-11-11T10:00:00+01:00\n  history:\n    - 2025-11-11T10:00:00+01:00: IDLE\n\n## DONE\n\n- [DONE] Old\n  est: 1.00h\n  elapsed: 0.00h\n";
    let (active, done, archived) = load_and_migrate(None, Some(yesterday), now());
    assert_eq!(active.len(), 1);
    assert_eq!(active[0].title, "Carry");
    assert_eq!(active[0].schedule, ScheduleDay::Today);
    assert_eq!(active[0].status, RunStatus::Idle);
    assert_eq!(active[0].track.estimate, 3600);
    assert_eq!(active[0].track.elapsed, 0);
    assert!(done.is_empty());
    assert!(archived.is_empty());
}

#[test]
fn today_file_is_loaded_and_running_is_paused() {
    let today = "## ACTIVE\n- [RUNNING] Work\n  est: 2.00h\n  elapsed: 0.10h\n  created: 2025-11-12T09:00:00+01:00\n  history:\n    - 2025-11-12T09:00:00+01:00: IDLE\n    - 2025-11-12T09:30:00+01:00: IDLE -> RUNNING\n## DONE\n- [DONE] Finished\n  est: 1.00h\n";
    let (active, done, archived) = load_and_migrate(Some(today), Some("- [IDLE] Ignored\n"), now());
    assert_eq!(active.len(), 1);
    assert_eq!(active[0].status, RunStatus::Paused);
    // 09:30 to 11:00 local time spent running
    assert_eq!(active[0].track.elapsed, 90 * 60);
    assert_eq!(done.len(), 1);
    assert!(archived.is_empty());
}

#[test]
fn nothing_on_disk_starts_empty() {
    let (active, done, archived) = load_and_migrate(None, None, now());
    assert!(active.is_empty() && done.is_empty() && archived.is_empty());
}
