use centre::clock::Stamp;
use centre::item::Item;
use centre::modes::{set_global_mode, AppMetadata};
use centre::status::{GlobalMode, RunStatus, ScheduleDay};

fn at(secs: i64) -> Stamp {
    Stamp { secs: 1_762_855_200 + secs, offset: 0 }
}

#[test]
fn leaving_working_and_returning_resumes_exactly_the_paused() {
    let mut a = Item::new("A".to_string(), 3600, ScheduleDay::Today, at(0));
    let b = Item::new("B".to_string(), 3600, ScheduleDay::Today, at(0));
    a.start(at(1));
    let mut tasks = vec![a, b];
    let mut meta = AppMetadata::default();
    set_global_mode(&mut tasks, &mut meta, GlobalMode::Lunch, at(10));
    assert_eq!(tasks[0].status, RunStatus::Paused);
    assert_eq!(tasks[1].status, RunStatus::Idle);
    assert_eq!(meta.paused_by_mode_task_ids, vec![tasks[0].id]);

    set_global_mode(&mut tasks, &mut meta, GlobalMode::Gym, at(20));
    assert_eq!(tasks[0].status, RunStatus::Paused);
    assert_eq!(meta.paused_by_mode_task_ids.len(), 1);

    set_global_mode(&mut tasks, &mut meta, GlobalMode::Working, at(30));
    assert_eq!(tasks[0].status, RunStatus::Running);
    assert_eq!(tasks[1].status, RunStatus::Idle);
    assert!(meta.paused_by_mode_task_ids.is_empty());
    assert_eq!(meta.mode_time_lunch_secs, 10);
    assert_eq!(meta.mode_time_gym_secs, 10);
}

#[test]
fn subtasks_are_paused_and_resumed_too() {
    let mut parent = Item::new("P".to_string(), 3600, ScheduleDay::Today, at(0));
    parent.add_subtask(Item::new("S".to_string(), 600, ScheduleDay::Today, at(0)));
    parent.toggle_subtask(0, at(5));
    let mut tasks = vec![parent];
    let mut meta = AppMetadata::default();
    set_global_mode(&mut tasks, &mut meta, GlobalMode::Break, at(10));
    assert_eq!(tasks[0].status, RunStatus::Paused);
    assert_eq!(tasks[0].subtasks[0].status, RunStatus::Paused);
    assert_eq!(meta.paused_by_mode_task_ids.len(), 2);
    set_global_mode(&mut tasks, &mut meta, GlobalMode::Working, at(20));
    assert_eq!(tasks[0].status, RunStatus::Running);
    assert_eq!(tasks[0].subtasks[0].status, RunStatus::Running);
}

#[test]
fn counters_reset_on_a_new_day() {
    let mut meta = AppMetadata::default();
    meta.mode_time_working_secs = 500;
    meta.last_mode_change_timestamp = Some(at(0));
    meta.reset_if_new_day(at(3600));
    assert_eq!(meta.mode_time_working_secs, 500);
    meta.reset_if_new_day(at(86400 * 2));
    assert_eq!(meta.mode_time_working_secs, 0);
}

#[test]
fn mode_times_count_the_current_mode_up_to_now() {
    let mut tasks: Vec<Item> = Vec::new();
    let mut meta = AppMetadata::default();
    set_global_mode(&mut tasks, &mut meta, GlobalMode::Lunch, at(0));
    set_global_mode(&mut tasks, &mut meta, GlobalMode::Working, at(600));
    let times = meta.get_mode_times(at(900));
    assert_eq!(times.len(), 7);
    assert_eq!(times[0], (GlobalMode::Working, 300));
    assert_eq!(times[2], (GlobalMode::Lunch, 600));
    assert_eq!(times[1], (GlobalMode::Break, 0));
}
