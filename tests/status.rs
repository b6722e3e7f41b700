use centre::status::{GlobalMode, RunStatus};

#[test]
fn test_run_status_from_tag() {
    assert_eq!(RunStatus::from_tag("IDLE"), Some(RunStatus::Idle));
    assert_eq!(RunStatus::from_tag("RUNNING"), Some(RunStatus::Running));
    assert_eq!(RunStatus::from_tag("PAUSED"), Some(RunStatus::Paused));
    assert_eq!(RunStatus::from_tag("running"), Some(RunStatus::Running));
    assert_eq!(RunStatus::from_tag("INVALID"), None);
}

#[test]
fn test_run_status_to_tag() {
    assert_eq!(RunStatus::Idle.to_tag(), "IDLE");
    assert_eq!(RunStatus::Running.to_tag(), "RUNNING");
    assert_eq!(RunStatus::Paused.to_tag(), "PAUSED");
}

#[test]
fn test_run_status_is_active() {
    assert!(RunStatus::Idle.is_active());
    assert!(RunStatus::Running.is_active());
    assert!(RunStatus::Paused.is_active());
    assert!(!RunStatus::Done.is_active());
    assert!(!RunStatus::Postponed.is_active());
}

#[test]
fn tags_round_trip_for_every_status() {
    for st in [RunStatus::Idle, RunStatus::Running, RunStatus::Paused, RunStatus::Done, RunStatus::Postponed] {
        assert_eq!(RunStatus::from_tag(st.to_tag()), Some(st));
    }
}

#[test]
fn mixed_case_tags_are_read() {
    assert_eq!(RunStatus::from_tag("Paused"), Some(RunStatus::Paused));
    assert_eq!(RunStatus::from_tag("postponed"), Some(RunStatus::Postponed));
    assert_eq!(RunStatus::from_tag(""), None);
}

#[test]
fn modes_and_their_names() {
    let all = GlobalMode::all();
    assert_eq!(all.len(), 7);
    assert_eq!(all[0], GlobalMode::Working);
    assert_eq!(GlobalMode::Lunch.name(), "Lunch");
    assert!(!GlobalMode::Working.should_pause_timers());
    assert!(GlobalMode::Sleep.should_pause_timers());
    assert_eq!(GlobalMode::Working.contextual_phrase(), "");
}
