use vcp_mobile::lifecycle_controller::{
    begin_transition, finish_restore_attempt, has_log_configuration, is_app_in_foreground,
    plan_background, plan_foreground, transition_matches, DistributedRestore, LifecycleState,
    LogRestore, Settings,
};

#[test]
fn transition_epoch_rejects_stale_async_work() {
    let mut state = LifecycleState::new();
    assert!(transition_matches(&state, 0, true));

    state.is_foreground = false;
    state.transition_epoch = 1;
    assert!(transition_matches(&state, 1, false));
    assert!(!transition_matches(&state, 0, true));

    state.is_foreground = true;
    state.transition_epoch = 2;
    assert!(transition_matches(&state, 2, true));
    assert!(!transition_matches(&state, 1, false));
}

#[test]
fn restore_flag_is_cleared_only_after_success() {
    let mut flag = true;

    assert!(!finish_restore_attempt(&mut flag, &Err("offline".to_string())));
    assert!(flag);

    assert!(finish_restore_attempt(&mut flag, &Ok(())));
    assert!(!flag);
}

#[test]
fn log_configuration_requires_both_values() {
    let mut settings = Settings {
        vcp_log_url: "ws://localhost:6005".to_string(),
        ..Settings::default()
    };
    assert!(!has_log_configuration(&settings));

    settings.vcp_log_key = "key".to_string();
    assert!(has_log_configuration(&settings));
}

#[test]
fn blank_log_values_do_not_count_as_configured() {
    let settings = Settings {
        vcp_log_url: "   ".to_string(),
        vcp_log_key: "key".to_string(),
        ..Settings::default()
    };
    assert!(!has_log_configuration(&settings));
}

#[test]
fn begin_transition_advances_epoch_only_on_change() {
    let mut state = LifecycleState::new();
    assert_eq!(begin_transition(&mut state, true), None);
    assert_eq!(state.transition_epoch, 0);
    assert_eq!(begin_transition(&mut state, false), Some(1));
    assert!(!state.is_foreground);
    assert!(!transition_matches(&state, 0, true));
    assert_eq!(begin_transition(&mut state, true), Some(2));
    assert!(transition_matches(&state, 2, true));
}

#[test]
fn epoch_wraps_at_the_top() {
    let mut state = LifecycleState::new();
    state.transition_epoch = u64::MAX;
    assert_eq!(begin_transition(&mut state, false), Some(0));
}

#[test]
fn foreground_defaults_to_true_without_state() {
    assert!(is_app_in_foreground(None));
    let mut state = LifecycleState::new();
    state.is_foreground = false;
    assert!(!is_app_in_foreground(Some(&state)));
}

#[test]
fn background_lingers_when_logs_are_open_or_configured() {
    let settings = Settings {
        vcp_log_url: "ws://h".to_string(),
        vcp_log_key: "k".to_string(),
        ..Settings::default()
    };
    let p = plan_background(Some(&settings), "closed", "closed", false);
    assert!(p.linger_log);
    assert!(!p.linger_distributed);

    let p = plan_background(None, "closed", "open", true);
    assert!(p.linger_log);
    assert!(p.linger_distributed);

    let p = plan_background(None, "closed", "closed", false);
    assert!(!p.linger_log);
}

#[test]
fn foreground_restores_only_what_was_cut() {
    let mut settings = Settings::default();
    let p = plan_foreground(&settings, false, false);
    assert!(p.log == LogRestore::FlushCachedLogs);
    assert!(p.distributed == DistributedRestore::Nothing);

    let p = plan_foreground(&settings, true, true);
    assert!(p.log == LogRestore::ClearFlagAndFlush);
    assert!(p.distributed == DistributedRestore::ClearFlag);

    settings.vcp_log_url = "ws://h".to_string();
    settings.vcp_log_key = "k".to_string();
    settings.distributed_enabled = true;
    let p = plan_foreground(&settings, true, true);
    assert!(p.log == LogRestore::Reconnect);
    assert!(p.distributed == DistributedRestore::Reconcile);
    assert!(p.disable_keepalive);
}
