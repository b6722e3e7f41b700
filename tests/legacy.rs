use centre::clock::Stamp;
use centre::item::Item;
use centre::legacy::{migrate_legacy_format, parse_done_log_today, serialize_archive_entry, serialize_done_entry};
use centre::status::{RunStatus, ScheduleDay};

fn now() -> Stamp {
    Stamp { secs: 1_762_855_200, offset: 3600 }
}

fn create_test_item(title: &str, status: RunStatus) -> Item {
    let mut item = Item::new(title.to_string(), 2 * 3600, ScheduleDay::Today, now());
    item.status = status;
    item.track.elapsed = 78 * 60;
    item.notes = "Test notes".to_string();
    item
}

#[test]
fn test_serialize_done_entry() {
    let item = create_test_item("Completed task", RunStatus::Done);
    let output = serialize_done_entry(&item, now());

    assert!(output.contains("##"));
    assert!(output.contains("Task: \"Completed task\""));
    assert!(output.contains("Elapsed: 1.30h"));
    assert!(output.contains("Estimate: 2.00h"));
    assert!(output.contains("Status: Done"));
    assert!(output.contains("Active Time:"));
    assert!(output.contains("Interruptions:"));
    assert!(output.contains("Sessions:"));
    assert!(output.contains("History:"));
    assert!(output.contains("Notes:"));
    assert!(output.contains("Test notes"));
}

#[test]
fn done_entry_history_lines_use_local_time() {
    let item = create_test_item("Completed task", RunStatus::Done);
    let output = serialize_done_entry(&item, now());
    assert!(output.contains("History:\n  - 2025-11-11 11:00:00: IDLE\n"));
    assert!(output.starts_with("## 2025-11-11T11:00:00+01:00\n"));
}

#[test]
fn archive_entry_lists_subtasks() {
    let mut item = create_test_item("Parent", RunStatus::Idle);
    item.add_subtask(create_test_item("Child", RunStatus::Idle));
    let output = serialize_archive_entry(&item, now());
    assert!(output.contains("Status: Idle\n"));
    assert!(output.contains("Subtasks:\n  - Child\n    Elapsed: 1.30h\n    Estimate: 2.00h\n"));
}

#[test]
fn done_log_keeps_only_today() {
    let log = "## 2025-11-11T09:00:00+01:00\nTask: \"Today one\"\nElapsed: 0.50h\nEstimate: 1.00h\nStatus: Done\nNotes:\nremember\n\n## 2025-11-10T09:00:00+01:00\nTask: \"Yesterday one\"\nElapsed: 0.50h\n";
    let items = parse_done_log_today(log, now());
    assert_eq!(items.len(), 1);
    assert_eq!(items[0].title, "Today one");
    assert_eq!(items[0].status, RunStatus::Done);
    assert_eq!(items[0].track.elapsed, 1800);
    assert_eq!(items[0].track.estimate, 3600);
    assert_eq!(items[0].notes, "remember");
}

#[test]
fn legacy_files_merge_into_one_day() {
    let today = "# Today (2025-11-11)\n\n- [RUNNING] A\n  est: 1.0h\n";
    let tomorrow = "# Tomorrow (2025-11-11)\n\n- [IDLE] B\n  est: 2.0h\n";
    let (active, done) = migrate_legacy_format(today, tomorrow, "", now());
    assert_eq!(active.len(), 2);
    assert_eq!(active[0].title, "A");
    assert_eq!(active[0].status, RunStatus::Paused);
    assert_eq!(active[1].title, "B");
    assert_eq!(active[1].schedule, ScheduleDay::Today);
    assert!(done.is_empty());
}
