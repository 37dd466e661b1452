use stat_diary_tools::status::{ActiveTask, DBStatus, DBStatusError};

#[test]
fn task_ids() {
    assert_eq!(ActiveTask::Idle.task_id(), 0);
    assert_eq!(ActiveTask::RegenerateCaches.task_id(), 1);
    assert_eq!(ActiveTask::MergeTags("a".to_string(), "b".to_string()).task_id(), 2);
    assert_eq!(ActiveTask::RenameTag("a".to_string(), "b".to_string()).task_id(), 3);
}

#[test]
fn task_lines() {
    assert_eq!(ActiveTask::Idle.to_data_string(), "0|");
    assert_eq!(ActiveTask::RegenerateCaches.to_data_string(), "1|");
    assert_eq!(
        ActiveTask::MergeTags("Lunch".to_string(), "Dinner".to_string()).to_data_string(),
        "2|Lunch Dinner"
    );
    assert_eq!(
        ActiveTask::RenameTag("Old".to_string(), "New".to_string()).to_data_string(),
        "3|Old New"
    );
}

#[test]
fn task_parse_round_trips() {
    let tasks = vec![
        ActiveTask::Idle,
        ActiveTask::RegenerateCaches,
        ActiveTask::MergeTags("Lunch".to_string(), "Dinner".to_string()),
        ActiveTask::RenameTag("Old".to_string(), "New".to_string()),
    ];
    for t in tasks {
        let line = t.to_data_string();
        let back = ActiveTask::parse(&line).unwrap();
        assert_eq!(back.to_data_string(), line);
    }
}

#[test]
fn task_parse_tolerates_bare_digits() {
    assert!(matches!(ActiveTask::parse("0"), Ok(ActiveTask::Idle)));
    assert!(matches!(ActiveTask::parse("1"), Ok(ActiveTask::RegenerateCaches)));
}

#[test]
fn task_parse_rejects_unknown_lines() {
    for bad in ["", "junk", "4|", "2|onearg", "2|a  b", "2|", "3| b", "3|a "] {
        assert!(
            matches!(ActiveTask::parse(bad), Err(DBStatusError::UnknownTask)),
            "accepted: {bad:?}"
        );
    }
}

#[test]
fn ledger_mutual_exclusion_scenario() {
    // First activation on an idle database claims it.
    let (state, first) = DBStatus::activate(None, ActiveTask::RegenerateCaches);
    let handle = first.unwrap();
    assert_eq!(state.as_deref(), Some("1|"));

    // A second activation with no intervening deactivate is refused,
    // carrying the first task's descriptor.
    let (state2, second) = DBStatus::activate(
        state,
        ActiveTask::RenameTag("a".to_string(), "b".to_string()),
    );
    assert_eq!(state2.as_deref(), Some("1|"));
    match second {
        Err(DBStatusError::DataBaseBusy(t, _)) => {
            assert!(matches!(t, ActiveTask::RegenerateCaches));
        }
        _ => panic!("second activate was not refused"),
    }

    // After deactivate, a fresh activation succeeds.
    let state3 = handle.deactivate();
    assert!(state3.is_none());
    let (state4, third) = DBStatus::activate(state3, ActiveTask::Idle);
    assert!(third.is_ok());
    assert_eq!(state4.as_deref(), Some("0|"));
}

#[test]
fn activate_on_unreadable_marker_fails() {
    let (state, r) = DBStatus::activate(Some("what".to_string()), ActiveTask::Idle);
    assert_eq!(state.as_deref(), Some("what"));
    assert!(matches!(r, Err(DBStatusError::UnknownTask)));
}
