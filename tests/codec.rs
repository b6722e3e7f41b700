use centre::clock::Stamp;
use centre::codec::{
    parse_daily_file, parse_markdown, parse_tags, parse_task_line, serialize_daily_file,
    serialize_daily_file_with_date, serialize_item, serialize_to_markdown, ParseError,
};
use centre::hours::parse_duration;
use centre::item::Item;
use centre::status::{RunStatus, ScheduleDay};

fn now() -> Stamp {
    Stamp { secs: 1_762_855_200, offset: 3600 }
}

fn create_test_item(title: &str, status: RunStatus) -> Item {
    let mut item = Item::new(title.to_string(), 2 * 3600, ScheduleDay::Today, now());
    item.status = status;
    item.track.elapsed = 78 * 60;
    item.notes = "Test notes".to_string();
    item
}

#[test]
fn test_parse_task_line() {
    let (status, title) = parse_task_line("- [RUNNING] Write tests").unwrap();
    assert_eq!(status, RunStatus::Running);
    assert_eq!(title, "Write tests");

    let (status, title) = parse_task_line("- [IDLE] Review code").unwrap();
    assert_eq!(status, RunStatus::Idle);
    assert_eq!(title, "Review code");
}

#[test]
fn task_line_errors() {
    assert_eq!(parse_task_line("- RUNNING Write").unwrap_err(), ParseError::MissingBracket);
    assert_eq!(parse_task_line("- [BOGUS] X").unwrap_err(), ParseError::UnknownStatus);
    assert_eq!(parse_task_line("- [IDLE]   ").unwrap_err(), ParseError::EmptyTitle);
}

#[test]
fn test_parse_duration() {
    let dur = parse_duration("1.5h").unwrap();
    assert_eq!(dur, 5400);

    let dur = parse_duration("2.0h").unwrap();
    assert_eq!(dur, 2 * 3600);
}

#[test]
fn duration_edge_cases() {
    assert_eq!(parse_duration("1.30h"), Some(4680));
    assert_eq!(parse_duration(" 0.25h "), Some(900));
    assert_eq!(parse_duration("-0.50h"), Some(-1800));
    assert_eq!(parse_duration("3"), Some(10800));
    assert_eq!(parse_duration(".5h"), Some(1800));
    assert_eq!(parse_duration("h"), None);
    assert_eq!(parse_duration("abc"), None);
    assert_eq!(parse_duration("1.2.3h"), None);
}

#[test]
fn test_parse_tags_list() {
    assert_eq!(parse_tags("work, deep,, focus "), vec!["work".to_string(), "deep".to_string(), "focus".to_string()]);
    assert!(parse_tags("").is_empty());
}

#[test]
fn test_parse_simple_task() {
    let content = "# Today (2025-11-10)\n\n- [RUNNING] Write project proposal\n  est: 2.0h\n  elapsed: 1.3h\n  notes: |\n    finalize argument for timeline\n";

    let items = parse_markdown(content, ScheduleDay::Today, now()).unwrap();
    assert_eq!(items.len(), 1);

    let item = &items[0];
    assert_eq!(item.title, "Write project proposal");
    assert_eq!(item.status, RunStatus::Running);
    assert_eq!(item.track.estimate, 2 * 3600);
    assert_eq!(item.track.elapsed, 4680);
    assert_eq!(item.notes.trim(), "finalize argument for timeline");
    assert_eq!(item.subtasks.len(), 0);
}

#[test]
fn test_parse_task_with_subtasks() {
    let content = "# Today (2025-11-10)\n\n- [RUNNING] Write project proposal\n  est: 2.0h\n  elapsed: 1.3h\n  notes: |\n    finalize argument for timeline\n  subtasks:\n    - [PAUSED] Outline sections\n      est: 1.0h\n      elapsed: 0.7h\n      notes: |\n        bullet the main points\n    - [RUNNING] Draft intro\n      est: 1.0h\n      elapsed: 0.6h\n      notes: |\n        tone: concise, confident\n";

    let items = parse_markdown(content, ScheduleDay::Today, now()).unwrap();
    assert_eq!(items.len(), 1);

    let item = &items[0];
    assert_eq!(item.subtasks.len(), 2);

    let subtask1 = &item.subtasks[0];
    assert_eq!(subtask1.title, "Outline sections");
    assert_eq!(subtask1.status, RunStatus::Paused);

    let subtask2 = &item.subtasks[1];
    assert_eq!(subtask2.title, "Draft intro");
    assert_eq!(subtask2.status, RunStatus::Running);
}

#[test]
fn test_parse_multiple_tasks() {
    let content = "# Today (2025-11-10)\n\n- [RUNNING] Task 1\n  est: 1.0h\n  elapsed: 0.5h\n  notes: |\n    notes for task 1\n\n- [IDLE] Task 2\n  est: 2.0h\n  elapsed: 0.0h\n  notes: |\n    notes for task 2\n";

    let items = parse_markdown(content, ScheduleDay::Today, now()).unwrap();
    assert_eq!(items.len(), 2);
    assert_eq!(items[0].title, "Task 1");
    assert_eq!(items[1].title, "Task 2");
}

#[test]
fn test_parse_empty_file() {
    let content = "";
    let items = parse_markdown(content, ScheduleDay::Today, now()).unwrap();
    assert_eq!(items.len(), 0);
}

#[test]
fn test_parse_daily_file_sections() {
    let content = "# 2025-11-11\n\n## ACTIVE\n\n- [IDLE] Active task\n  est: 1.00h\n  elapsed: 0.00h\n  created: 2025-11-11T10:00:00+01:00\n  history:\n    - 2025-11-11T10:00:00+01:00: IDLE\n\n## DONE\n\n- [DONE] Done task\n  est: 1.00h\n  elapsed: 0.50h\n  completed: 2025-11-11T11:00:00+01:00\n  created: 2025-11-11T10:00:00+01:00\n  history:\n    - 2025-11-11T10:00:00+01:00: IDLE\n    - 2025-11-11T11:00:00+01:00: IDLE -> DONE\n\n## ARCHIVED\n\n- [IDLE] Archived task\n  est: 1.00h\n  elapsed: 0.00h\n  created: 2025-11-11T10:00:00+01:00\n  history:\n    - 2025-11-11T10:00:00+01:00: IDLE\n";

    let (active, done, archived) = parse_daily_file(content, now()).unwrap();

    println!("Active: {}", active.len());
    println!("Done: {}", done.len());
    println!("Archived: {}", archived.len());

    assert_eq!(active.len(), 1, "Should have 1 active task");
    assert_eq!(done.len(), 1, "Should have 1 done task");
    assert_eq!(archived.len(), 1, "Should have 1 archived task");

    assert_eq!(active[0].title, "Active task");
    assert_eq!(done[0].title, "Done task");
    assert_eq!(archived[0].title, "Archived task");

    assert_eq!(active[0].status, RunStatus::Idle);
    assert_eq!(done[0].status, RunStatus::Done);
    assert_eq!(archived[0].status, RunStatus::Idle);

    assert_eq!(done[0].state_history.len(), 2);
    assert_eq!(done[0].state_history[1].from_status, Some(RunStatus::Idle));
    assert_eq!(done[0].completed_at, Some(Stamp { secs: 1_762_855_200, offset: 3600 }));
    assert_eq!(active[0].created_at, Stamp { secs: 1_762_851_600, offset: 3600 });
}

#[test]
fn parse_running_record_under_active() {
    let content = "## ACTIVE\n- [RUNNING] Foo\n  est: 2.00h\n  elapsed: 1.30h\n";
    let (active, done, archived) = parse_daily_file(content, now()).unwrap();
    assert_eq!(active.len(), 1);
    assert!(done.is_empty() && archived.is_empty());
    assert_eq!(active[0].status, RunStatus::Running);
    assert_eq!(active[0].track.estimate, 2 * 3600);
    assert_eq!(active[0].track.elapsed, 3600 + 18 * 60);
}

#[test]
fn bogus_record_is_skipped_and_neighbours_kept() {
    let content = "## ACTIVE\n- [IDLE] Before\n  est: 1.00h\n- [BOGUS] X\n  est: 1.00h\n- [PAUSED] After\n  est: 0.50h\n";
    let (active, _, _) = parse_daily_file(content, now()).unwrap();
    assert_eq!(active.len(), 2);
    assert_eq!(active[0].title, "Before");
    assert_eq!(active[0].track.estimate, 3600);
    assert_eq!(active[1].title, "After");
    assert_eq!(active[1].status, RunStatus::Paused);
    assert_eq!(active[1].track.estimate, 1800);
}

#[test]
fn no_header_means_active() {
    let content = "- [IDLE] Loose\n";
    let (active, done, archived) = parse_daily_file(content, now()).unwrap();
    assert_eq!(active.len(), 1);
    assert!(done.is_empty() && archived.is_empty());
}

#[test]
fn bad_duration_reads_as_zero() {
    let content = "- [IDLE] Broken\n  est: lots\n  elapsed: 0.5h\n- [IDLE] Fine\n";
    let (active, _, _) = parse_daily_file(content, now()).unwrap();
    assert_eq!(active.len(), 2);
    assert_eq!(active[0].title, "Broken");
    assert_eq!(active[0].track.estimate, 0);
    assert_eq!(active[0].track.elapsed, 1800);
    assert_eq!(active[1].title, "Fine");
}

#[test]
fn header_inside_notes_ends_the_block() {
    let content = "- [IDLE] A\n  notes: |\n    hello\n## DONE\n- [DONE] B\n";
    let (active, done, _) = parse_daily_file(content, now()).unwrap();
    assert_eq!(active.len(), 1);
    assert_eq!(active[0].notes, "hello");
    assert_eq!(done.len(), 1);
    assert_eq!(done[0].title, "B");
}

#[test]
fn test_serialize_simple_task() {
    let item = create_test_item("Write tests", RunStatus::Running);
    let items = vec![item];
    let output = serialize_to_markdown(&items, ScheduleDay::Today, now(), now());

    assert!(output.contains("# Today"));
    assert!(output.contains("- [RUNNING] Write tests"));
    assert!(output.contains("est: 2.00h"));
    assert!(output.contains("elapsed: 1.30h"));
    assert!(output.contains("notes: |"));
    assert!(output.contains("Test notes"));
}

#[test]
fn test_serialize_with_subtasks() {
    let mut item = create_test_item("Parent task", RunStatus::Running);
    let subtask1 = create_test_item("Subtask 1", RunStatus::Paused);
    let subtask2 = create_test_item("Subtask 2", RunStatus::Idle);

    item.add_subtask(subtask1);
    item.add_subtask(subtask2);

    let items = vec![item];
    let output = serialize_to_markdown(&items, ScheduleDay::Today, now(), now());

    assert!(output.contains("- [RUNNING] Parent task"));
    assert!(output.contains("subtasks:"));
    assert!(output.contains("- [PAUSED] Subtask 1"));
    assert!(output.contains("- [IDLE] Subtask 2"));
}

#[test]
fn test_serialize_excludes_done() {
    let item1 = create_test_item("Active task", RunStatus::Running);
    let item2 = create_test_item("Done task", RunStatus::Done);

    let items = vec![item1, item2];
    let output = serialize_to_markdown(&items, ScheduleDay::Today, now(), now());

    assert!(output.contains("Active task"));
    assert!(!output.contains("Done task"));
}

#[test]
fn test_serialize_empty_notes() {
    let mut item = create_test_item("Task", RunStatus::Idle);
    item.notes = String::new();

    let items = vec![item];
    let output = serialize_to_markdown(&items, ScheduleDay::Today, now(), now());

    assert!(!output.contains("notes: |"));
}

#[test]
fn test_serialize_daily_file_with_done_items() {
    let active_item = create_test_item("Active task", RunStatus::Idle);
    let done_item = create_test_item("Done task", RunStatus::Done);
    let archived_item = create_test_item("Archived task", RunStatus::Idle);

    let active_items = vec![active_item];
    let done_items = vec![done_item];
    let archived_items = vec![archived_item];

    let output = serialize_daily_file(&active_items, &done_items, &archived_items, now());

    println!("Output:\n{}", output);

    assert!(output.contains("## ACTIVE"));
    assert!(output.contains("## DONE"));
    assert!(output.contains("## ARCHIVED"));

    assert!(output.contains("Active task"));
    assert!(output.contains("Done task"));
    assert!(output.contains("Archived task"));
}

#[test]
fn serialized_record_layout() {
    let mut item = Item::new("Plan".to_string(), 5400, ScheduleDay::Today, now());
    item.tags = vec!["a".to_string(), "b".to_string()];
    let text = serialize_item(&item, false, now());
    let expected = "- [IDLE] Plan\n  est: 1.50h\n  elapsed: 0.00h\n  tags: a, b\n  created: 2025-11-11T11:00:00+01:00\n  history:\n    - 2025-11-11T11:00:00+01:00: IDLE\n";
    assert_eq!(text, expected);
}

#[test]
fn daily_file_header_and_empty_sections() {
    let out = serialize_daily_file_with_date(&[], &[], &[], now(), now());
    assert_eq!(out, "# 2025-11-11\n\n## ACTIVE\n\n");
}

#[test]
fn done_records_carry_analytics() {
    let mut item = Item::new("Ship".to_string(), 3600, ScheduleDay::Today, now());
    item.start(Stamp { secs: now().secs + 60, offset: 3600 });
    item.mark_done(Stamp { secs: now().secs + 1860, offset: 3600 });
    let out = serialize_daily_file_with_date(&[], &[item], &[], now(), now());
    assert!(out.contains("## DONE"));
    assert!(out.contains("  Analytics:\n    Calendar Time: 0.52h\n    Active Time: 0.50h\n    Interruptions: 0\n    Sessions: 1\n"));
    assert!(out.contains("  completed: 2025-11-11T11:31:00+01:00\n"));
}

#[test]
fn serialize_then_parse_keeps_fields() {
    let mut parent = Item::new("Parent".to_string(), 7200, ScheduleDay::Today, now());
    parent.notes = "line one\nline two".to_string();
    parent.tags = vec!["x".to_string(), "y".to_string()];
    parent.start(Stamp { secs: now().secs + 36, offset: 3600 });
    parent.pause(Stamp { secs: now().secs + 72, offset: 3600 });
    let mut child = Item::new("Child".to_string(), 1800, ScheduleDay::Today, now());
    child.start(Stamp { secs: now().secs + 36, offset: 3600 });
    parent.add_subtask(child);
    let text = serialize_daily_file_with_date(&[parent], &[], &[], now(), now());
    let (active, _, _) = parse_daily_file(&text, now()).unwrap();
    assert_eq!(active.len(), 1);
    let p = &active[0];
    assert_eq!(p.title, "Parent");
    assert_eq!(p.status, RunStatus::Paused);
    assert_eq!(p.track.estimate, 7200);
    assert_eq!(p.track.elapsed, 36);
    assert_eq!(p.notes, "line one\nline two");
    assert_eq!(p.tags, vec!["x".to_string(), "y".to_string()]);
    assert_eq!(p.state_history.len(), 3);
    assert_eq!(p.subtasks.len(), 1);
    assert_eq!(p.subtasks[0].title, "Child");
    assert_eq!(p.subtasks[0].status, RunStatus::Running);
    assert_eq!(p.subtasks[0].state_history.len(), 2);
    assert_eq!(p.subtasks[0].state_history[1].timestamp.secs, now().secs + 36);
}
