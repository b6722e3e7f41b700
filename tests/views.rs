use centre::clock::Stamp;
use centre::item::Item;
use centre::status::{GlobalState, RunStatus, ScheduleDay};
use centre::views::{
    compute_totals, done_log_file, flatten_tasks, format_duration, get_global_state, meta_file, status_badge,
    tick_duration, tree_connector, truncate_string,
};

fn create_test_item(title: &str) -> Item {
    Item::new(title.to_string(), 3600, ScheduleDay::Today, Stamp { secs: 1_762_855_200, offset: 0 })
}

#[test]
fn test_tick_duration() {
    let duration = tick_duration();
    assert_eq!(duration, std::time::Duration::from_millis(250));
}

#[test]
fn test_truncate_string() {
    assert_eq!(truncate_string("Hello World", 20), "Hello World");
    assert_eq!(truncate_string("Hello World", 8), "Hello...");
    assert_eq!(truncate_string("Hello World", 5), "He...");
}

#[test]
fn truncate_short_limits() {
    assert_eq!(truncate_string("Hello", 2), "He");
    assert_eq!(truncate_string("", 0), "");
}

#[test]
fn test_tree_connector() {
    assert_eq!(tree_connector(false), "├─");
    assert_eq!(tree_connector(true), "└─");
}

#[test]
fn test_status_badge() {
    let mut item = create_test_item("Test");

    item.status = RunStatus::Running;
    assert_eq!(status_badge(&item), "⏱ RUNNING");

    item.status = RunStatus::Paused;
    assert_eq!(status_badge(&item), "⏸ PAUSED");

    item.status = RunStatus::Idle;
    assert_eq!(status_badge(&item), "🌿 IDLE");
}

#[test]
fn test_flatten_tasks_simple() {
    let tasks = vec![create_test_item("Task 1"), create_test_item("Task 2")];

    let rows = flatten_tasks(&tasks);
    assert_eq!(rows.len(), 2);
    assert_eq!(rows[0].depth, 0);
    assert_eq!(rows[0].task_index, 0);
    assert_eq!(rows[1].depth, 0);
    assert_eq!(rows[1].task_index, 1);
}

#[test]
fn test_flatten_tasks_with_subtasks() {
    let mut task = create_test_item("Parent");
    task.add_subtask(create_test_item("Subtask 1"));
    task.add_subtask(create_test_item("Subtask 2"));

    let tasks = vec![task];
    let rows = flatten_tasks(&tasks);

    assert_eq!(rows.len(), 3);
    assert_eq!(rows[0].depth, 0);
    assert_eq!(rows[1].depth, 1);
    assert_eq!(rows[2].depth, 1);
    assert!(!rows[1].is_last);
    assert!(rows[2].is_last);
}

#[test]
fn test_flatten_tasks_collapsed() {
    let mut task = create_test_item("Parent");
    task.add_subtask(create_test_item("Subtask 1"));
    task.expanded = false;

    let tasks = vec![task];
    let rows = flatten_tasks(&tasks);

    assert_eq!(rows.len(), 1);
}

#[test]
fn test_compute_totals() {
    let mut task1 = create_test_item("Task 1");
    task1.track.elapsed = 30 * 60;

    let mut task2 = create_test_item("Task 2");
    task2.track.elapsed = 45 * 60;

    let mut subtask = create_test_item("Subtask");
    subtask.track.elapsed = 15 * 60;
    task2.add_subtask(subtask);

    let tasks = vec![task1, task2];
    let (elapsed, estimate) = compute_totals(&tasks);

    assert_eq!(elapsed, 45 * 60);
    assert_eq!(estimate, 2 * 3600);
}

#[test]
fn test_format_duration() {
    assert_eq!(format_duration(30 * 60), "30m");
    assert_eq!(format_duration(60 * 60), "1h");
    assert_eq!(format_duration(90 * 60), "1h 30m");
    assert_eq!(format_duration(125 * 60), "2h 5m");
    assert_eq!(format_duration(0), "0m");
}

#[test]
fn global_state_reflects_items() {
    let mut a = create_test_item("A");
    let b = create_test_item("B");
    assert_eq!(get_global_state(&[]), GlobalState::Idle);
    a.status = RunStatus::Paused;
    let tasks = vec![a, b];
    assert_eq!(get_global_state(&tasks), GlobalState::Paused);
    let mut parent = create_test_item("P");
    let mut sub = create_test_item("S");
    sub.status = RunStatus::Running;
    parent.add_subtask(sub);
    assert_eq!(get_global_state(&[parent]), GlobalState::Running);
}

#[test]
fn data_file_paths() {
    assert_eq!(done_log_file("/d"), "/d/done.log.md");
    assert_eq!(meta_file("/d"), "/d/meta.json");
}
