use system_check::connect::{check_batch_connections, check_connection_status};

#[test]
fn ping_success_is_online() {
    assert!(check_connection_status(Some(true)));
}

#[test]
fn ping_nonzero_exit_is_offline() {
    assert!(!check_connection_status(Some(false)));
}

#[test]
fn ping_spawn_failure_is_offline() {
    assert!(!check_connection_status(None));
}

#[test]
fn batch_keeps_completed_checks_only() {
    let outcomes = vec![
        Some(("alpha".to_string(), true)),
        None,
        Some(("beta".to_string(), false)),
    ];
    let n = outcomes.len();
    let result = check_batch_connections(outcomes);
    assert!(result.len() <= n);
    assert_eq!(result.len(), 2);
    assert!(result.contains(&("alpha".to_string(), true)));
    assert!(result.contains(&("beta".to_string(), false)));
    assert!(!result.iter().any(|(h, _)| h == "gamma"));
}

#[test]
fn batch_all_failed_gives_empty_mapping() {
    let outcomes: Vec<Option<(String, bool)>> = vec![None, None, None];
    let result = check_batch_connections(outcomes);
    assert!(result.is_empty());
}

#[test]
fn batch_later_outcome_for_same_host_wins() {
    let outcomes = vec![
        Some(("alpha".to_string(), true)),
        Some(("alpha".to_string(), false)),
    ];
    let result = check_batch_connections(outcomes);
    assert_eq!(result, vec![("alpha".to_string(), false)]);
}
