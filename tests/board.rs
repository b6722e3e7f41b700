use centre::board::{AppState, IdleAction, IdleWatch};
use centre::clock::Stamp;
use centre::item::{Item, StateEvent};
use centre::modes::AppMetadata;
use centre::status::{GlobalMode, RunStatus, ScheduleDay};

const MINUTE: i64 = 60;
const HOUR: i64 = 3600;

fn at(secs: i64) -> Stamp {
    Stamp { secs: 1_762_855_200 + secs, offset: 0 }
}

fn create_test_app() -> AppState {
    let task1 = Item::new("Task 1".to_string(), HOUR, ScheduleDay::Today, at(0));
    let task2 = Item::new("Task 2".to_string(), 2 * HOUR, ScheduleDay::Today, at(0));
    AppState::new(vec![task1, task2], Vec::new(), Vec::new(), AppMetadata::default())
}

#[test]
fn test_app_state_new() {
    let app = create_test_app();
    assert_eq!(app.tasks.len(), 2);
    assert_eq!(app.selected_index, 0);
    assert!(app.undo_stack.is_empty());
    assert_eq!(app.meta.global_mode, GlobalMode::Working);
}

#[test]
fn test_move_selection() {
    let mut app = create_test_app();

    app.move_selection_down();
    assert_eq!(app.selected_index, 1);

    app.move_selection_up();
    assert_eq!(app.selected_index, 0);

    app.move_selection_up();
    assert_eq!(app.selected_index, 0);
}

#[test]
fn test_get_selected_item() {
    let app = create_test_app();
    let (task_idx, subtask_idx) = app.get_selected_item().unwrap();
    assert_eq!(task_idx, 0);
    assert!(subtask_idx.is_none());
}

#[test]
fn test_toggle_run_pause() {
    let mut app = create_test_app();

    app.toggle_run_pause(at(1));
    assert_eq!(app.tasks[0].status, RunStatus::Running);

    app.toggle_run_pause(at(2));
    assert_eq!(app.tasks[0].status, RunStatus::Paused);
}

#[test]
fn test_add_task() {
    let mut app = create_test_app();
    app.add_task("New task".to_string(), HOUR, at(1));

    assert_eq!(app.tasks.len(), 3);
    assert_eq!(app.tasks[2].title, "New task");
}

#[test]
fn test_add_subtask() {
    let mut app = create_test_app();
    app.add_subtask("New subtask".to_string(), 30 * MINUTE, at(1));

    assert_eq!(app.tasks[0].subtasks.len(), 1);
    assert_eq!(app.tasks[0].subtasks[0].title, "New subtask");
}

#[test]
fn test_archive_task() {
    let mut app = create_test_app();
    assert_eq!(app.tasks.len(), 2);

    app.archive_selected();
    assert_eq!(app.tasks.len(), 1);
    assert_eq!(app.tasks[0].title, "Task 2");
}

#[test]
fn test_archive_subtask() {
    let mut app = create_test_app();
    app.add_subtask("Subtask 1".to_string(), 30 * MINUTE, at(1));
    app.add_subtask("Subtask 2".to_string(), 30 * MINUTE, at(1));
    assert_eq!(app.tasks[0].subtasks.len(), 2);

    app.move_selection_down();

    app.archive_selected();
    assert_eq!(app.tasks[0].subtasks.len(), 1);
    assert_eq!(app.tasks[0].subtasks[0].title, "Subtask 2");
}

#[test]
fn test_archive_all_tasks() {
    let mut app = create_test_app();

    app.archive_selected();
    app.archive_selected();

    assert_eq!(app.tasks.len(), 0);
    assert_eq!(app.selected_index, 0);
}

#[test]
fn test_estimate_adjustment() {
    let mut app = create_test_app();
    let before = app.tasks[0].track.estimate;

    app.increase_estimate();
    assert_eq!(app.tasks[0].track.estimate, before + 15 * MINUTE);

    app.decrease_estimate();
    assert_eq!(app.tasks[0].track.estimate, before);
}

#[test]
fn test_get_totals() {
    let mut app = create_test_app();
    let now = at(0);

    let start1 = at(-30 * MINUTE);
    app.tasks[0].state_history.push(StateEvent { timestamp: start1, from_status: Some(RunStatus::Idle), to_status: RunStatus::Running });
    app.tasks[0].state_history.push(StateEvent { timestamp: now, from_status: Some(RunStatus::Running), to_status: RunStatus::Paused });

    let start2 = at(-45 * MINUTE);
    app.tasks[1].state_history.push(StateEvent { timestamp: start2, from_status: Some(RunStatus::Idle), to_status: RunStatus::Running });
    app.tasks[1].state_history.push(StateEvent { timestamp: now, from_status: Some(RunStatus::Running), to_status: RunStatus::Paused });

    let (elapsed, estimate) = app.get_totals(now);
    assert_eq!(elapsed, (75 * MINUTE) as i128);
    assert_eq!(estimate, (3 * HOUR) as i128);
}

#[test]
fn test_undo_mark_done() {
    let mut app = create_test_app();
    let initial_task_count = app.tasks.len();
    let task_title = app.tasks[0].title.clone();

    app.mark_done(at(5));

    assert_eq!(app.tasks.len(), initial_task_count - 1);
    assert_eq!(app.done_today.len(), 1);
    assert_eq!(app.done_today[0].title, task_title);
    assert_eq!(app.undo_stack.len(), 1);

    app.undo();

    assert_eq!(app.tasks.len(), initial_task_count);
    assert_eq!(app.done_today.len(), 0);
    assert_eq!(app.tasks[0].title, task_title);
    assert_eq!(app.undo_stack.len(), 0);
}

#[test]
fn test_undo_mark_done_subtask() {
    let mut app = create_test_app();
    app.add_subtask("Test subtask".to_string(), 30 * MINUTE, at(1));

    let initial_subtask_count = app.tasks[0].subtasks.len();
    let subtask_title = app.tasks[0].subtasks[0].title.clone();

    app.move_selection_down();
    app.mark_done(at(5));

    assert_eq!(app.tasks[0].subtasks.len(), initial_subtask_count - 1);
    assert_eq!(app.done_today.len(), 1);
    assert_eq!(app.done_today[0].title, subtask_title);

    app.undo();

    assert_eq!(app.tasks[0].subtasks.len(), initial_subtask_count);
    assert_eq!(app.done_today.len(), 0);
    assert_eq!(app.tasks[0].subtasks[0].title, subtask_title);
}

#[test]
fn test_undo_multiple_actions() {
    let mut app = create_test_app();
    app.add_task("Task 3".to_string(), HOUR, at(1));

    let task1_title = app.tasks[0].title.clone();
    let task2_title = app.tasks[1].title.clone();

    app.mark_done(at(5));
    assert_eq!(app.tasks.len(), 2);
    assert_eq!(app.done_today.len(), 1);

    app.mark_done(at(6));
    assert_eq!(app.tasks.len(), 1);
    assert_eq!(app.done_today.len(), 2);

    app.undo();
    assert_eq!(app.tasks.len(), 2);
    assert_eq!(app.done_today.len(), 1);
    assert_eq!(app.tasks[0].title, task2_title);

    app.undo();
    assert_eq!(app.tasks.len(), 3);
    assert_eq!(app.done_today.len(), 0);
    assert_eq!(app.tasks[0].title, task1_title);
}

#[test]
fn test_cannot_start_tasks_in_non_working_mode() {
    let mut app = create_test_app();

    assert_eq!(app.tasks[0].status, RunStatus::Idle);

    app.toggle_run_pause(at(1));
    assert_eq!(app.tasks[0].status, RunStatus::Running);

    app.toggle_run_pause(at(2));
    assert_eq!(app.tasks[0].status, RunStatus::Paused);

    app.set_global_mode(GlobalMode::Lunch, at(3));

    app.toggle_run_pause(at(4));
    assert_eq!(app.tasks[0].status, RunStatus::Paused);

    app.set_global_mode(GlobalMode::Working, at(5));

    app.toggle_run_pause(at(6));
    assert_eq!(app.tasks[0].status, RunStatus::Running);
}

#[test]
fn test_undo_delete() {
    let mut app = create_test_app();
    let initial_task_count = app.tasks.len();
    let task_title = app.tasks[0].title.clone();

    app.delete_selected();
    assert_eq!(app.tasks.len(), initial_task_count - 1);
    assert_eq!(app.undo_stack.len(), 1);

    app.undo();
    assert_eq!(app.tasks.len(), initial_task_count);
    assert_eq!(app.tasks[0].title, task_title);
    assert_eq!(app.undo_stack.len(), 0);
}

#[test]
fn test_undo_delete_subtask() {
    let mut app = create_test_app();
    app.add_subtask("Test subtask".to_string(), 30 * MINUTE, at(1));

    let initial_subtask_count = app.tasks[0].subtasks.len();
    let subtask_title = app.tasks[0].subtasks[0].title.clone();

    app.move_selection_down();
    app.delete_selected();
    assert_eq!(app.tasks[0].subtasks.len(), initial_subtask_count - 1);

    app.undo();
    assert_eq!(app.tasks[0].subtasks.len(), initial_subtask_count);
    assert_eq!(app.tasks[0].subtasks[0].title, subtask_title);
}

#[test]
fn test_undo_archive() {
    let mut app = create_test_app();
    let initial_task_count = app.tasks.len();
    let task_title = app.tasks[0].title.clone();

    app.archive_selected();
    assert_eq!(app.tasks.len(), initial_task_count - 1);
    assert_eq!(app.archived_today.len(), 1);
    assert_eq!(app.archived_today[0].title, task_title);
    assert_eq!(app.undo_stack.len(), 1);

    app.undo();
    assert_eq!(app.tasks.len(), initial_task_count);
    assert_eq!(app.archived_today.len(), 0);
    assert_eq!(app.tasks[0].title, task_title);
    assert_eq!(app.undo_stack.len(), 0);
}

#[test]
fn test_undo_archive_subtask() {
    let mut app = create_test_app();
    app.add_subtask("Test subtask".to_string(), 30 * MINUTE, at(1));

    let initial_subtask_count = app.tasks[0].subtasks.len();
    let subtask_title = app.tasks[0].subtasks[0].title.clone();

    app.move_selection_down();
    app.archive_selected();
    assert_eq!(app.tasks[0].subtasks.len(), initial_subtask_count - 1);
    assert_eq!(app.archived_today.len(), 1);
    assert_eq!(app.archived_today[0].title, subtask_title);

    app.undo();
    assert_eq!(app.tasks[0].subtasks.len(), initial_subtask_count);
    assert_eq!(app.archived_today.len(), 0);
    assert_eq!(app.tasks[0].subtasks[0].title, subtask_title);
}

#[test]
fn test_undo_mixed_actions() {
    let mut app = create_test_app();
    app.add_task("Task 3".to_string(), HOUR, at(1));

    app.archive_selected();
    assert_eq!(app.tasks.len(), 2);
    assert_eq!(app.archived_today.len(), 1);

    app.mark_done(at(5));
    assert_eq!(app.tasks.len(), 1);
    assert_eq!(app.done_today.len(), 1);

    app.delete_selected();
    assert_eq!(app.tasks.len(), 0);

    app.undo();
    assert_eq!(app.tasks.len(), 1);

    app.undo();
    assert_eq!(app.tasks.len(), 2);
    assert_eq!(app.done_today.len(), 0);

    app.undo();
    assert_eq!(app.tasks.len(), 3);
    assert_eq!(app.archived_today.len(), 0);
}

#[test]
fn undo_keeps_only_ten_actions() {
    let mut app = AppState::new(Vec::new(), Vec::new(), Vec::new(), AppMetadata::default());
    for k in 0..12 {
        app.add_task(format!("T{}", k), HOUR, at(1));
    }
    for _ in 0..12 {
        app.delete_selected();
    }
    assert_eq!(app.undo_stack.len(), 10);
    assert!(app.tasks.is_empty());
}

#[test]
fn parent_with_subtasks_is_not_deleted() {
    let mut app = create_test_app();
    app.add_subtask("Child".to_string(), 600, at(1));
    app.delete_selected();
    assert_eq!(app.tasks.len(), 2);
    assert!(app.undo_stack.is_empty());
}

#[test]
fn undo_restores_status_before_done() {
    let mut app = create_test_app();
    app.toggle_run_pause(at(1));
    app.mark_done(at(10));
    assert_eq!(app.done_today[0].status, RunStatus::Done);
    app.undo();
    assert_eq!(app.tasks[0].status, RunStatus::Running);
    assert_eq!(app.tasks[0].completed_at, None);
}

#[test]
fn idle_watch_asks_then_pauses() {
    let mut w = IdleWatch { last_check: 0, deadline: None };
    assert_eq!(w.check(100, true, true), IdleAction::Nothing);
    assert_eq!(w.check(1800, true, true), IdleAction::AskUser);
    assert_eq!(w.deadline, Some(3600));
    assert_eq!(w.check(2000, false, true), IdleAction::Nothing);
    assert_eq!(w.check(3600, true, true), IdleAction::AutoPause);
    assert_eq!(w, IdleWatch { last_check: 3600, deadline: None });
    w.confirm_working(4000);
    assert_eq!(w.check(5000, true, false), IdleAction::Nothing);
}

#[test]
fn estimate_hit_is_found_on_running_items_only() {
    let mut app = create_test_app();
    assert_eq!(app.find_over_estimate(), None);
    app.tasks[1].track.elapsed = 3 * HOUR;
    assert_eq!(app.find_over_estimate(), None);
    app.tasks[1].start(at(1));
    assert_eq!(app.find_over_estimate(), Some(app.tasks[1].id));
}

#[test]
fn auto_pause_and_idle_everything() {
    let mut app = create_test_app();
    app.toggle_run_pause(at(1));
    app.add_subtask("S".to_string(), 600, at(1));
    app.move_selection_down();
    app.toggle_run_pause(at(2));
    app.auto_pause_all(at(3));
    assert_eq!(app.tasks[0].status, RunStatus::Paused);
    assert_eq!(app.tasks[0].subtasks[0].status, RunStatus::Paused);
    assert_eq!(app.tasks[1].status, RunStatus::Idle);
    app.auto_idle_all(at(4));
    assert_eq!(app.tasks[0].status, RunStatus::Idle);
    assert_eq!(app.tasks[0].subtasks[0].status, RunStatus::Idle);
}

#[test]
fn move_items_follow_selection() {
    let mut app = create_test_app();
    app.move_item_down();
    assert_eq!(app.tasks[0].title, "Task 2");
    assert_eq!(app.tasks[1].title, "Task 1");
    assert_eq!(app.selected_index, 1);
    app.move_item_up();
    assert_eq!(app.tasks[0].title, "Task 1");
    assert_eq!(app.selected_index, 0);
}

#[test]
fn move_subtasks_among_siblings() {
    let mut app = create_test_app();
    app.add_subtask("A".to_string(), 600, at(1));
    app.add_subtask("B".to_string(), 600, at(1));
    app.move_selection_down();
    app.move_item_down();
    assert_eq!(app.tasks[0].subtasks[0].title, "B");
    assert_eq!(app.tasks[0].subtasks[1].title, "A");
    assert_eq!(app.selected_index, 2);
    app.move_item_up();
    assert_eq!(app.tasks[0].subtasks[0].title, "A");
}

#[test]
fn postpone_hands_the_item_over() {
    let mut app = create_test_app();
    app.toggle_run_pause(at(1));
    let item = app.postpone_to_tomorrow(at(100)).unwrap();
    assert_eq!(item.title, "Task 1");
    assert_eq!(item.status, RunStatus::Idle);
    assert_eq!(item.track.elapsed, 99);
    assert_eq!(app.tasks.len(), 1);
}

#[test]
fn collapse_hides_subtask_rows() {
    let mut app = create_test_app();
    app.add_subtask("A".to_string(), 600, at(1));
    app.toggle_expand();
    assert!(!app.tasks[0].expanded);
    app.move_selection_down();
    assert_eq!(app.get_selected_item(), Some((1, None)));
}

#[test]
fn day_statistics() {
    let mut app = create_test_app();
    app.toggle_run_pause(at(0));
    app.toggle_run_pause(at(600));
    app.tasks[1].track.elapsed = 3 * HOUR;
    assert_eq!(app.get_running_tasks_time(at(900)), 600);
    assert_eq!(app.get_paused_tasks_time(at(900)), 300);
    assert_eq!(app.get_idle_tasks_time(at(900)), 900);
    assert_eq!(app.get_over_estimate_time(), HOUR as i128);
    assert_eq!(app.get_over_estimate_count(), 1);
    assert_eq!(app.get_remaining_time(), (HOUR - 600) as i128);
}
