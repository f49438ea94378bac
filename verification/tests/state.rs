use healthcheck_service::clock::{has_span, Timestamp};
use healthcheck_service::models::{
    default_alert_after_secs, default_check_path, default_degraded_threshold,
    default_healthy_threshold, default_heartbeat_timeout_secs, default_interval_secs,
    default_timeout_secs, default_unhealthy_threshold, CheckType, ServiceConfig, ServiceState,
    ServiceStatus,
};
use healthcheck_service::state::{next_status, AppState};

fn make_config(name: &str) -> ServiceConfig {
    ServiceConfig {
        name: name.to_string(),
        url: "http://localhost".to_string(),
        check_type: CheckType::Http,
        check_path: "/health".to_string(),
        interval_secs: 30,
        timeout_secs: 5,
        unhealthy_threshold: 3,
        degraded_threshold: 2,
        healthy_threshold: 2,
        dependencies: vec![],
        passive: false,
        heartbeat_timeout_secs: 60,
        alert_after_secs: 60,
        command: None,
        command_args: vec![],
    }
}

fn at(secs: i64) -> Timestamp {
    Timestamp::from_unix(secs, 0).unwrap()
}

fn err() -> Option<String> {
    Some("err".to_string())
}

#[test]
fn test_initial_status_is_unknown() {
    let state = ServiceState::new("test".to_string());
    assert_eq!(state.status, ServiceStatus::Unknown);
}

#[test]
fn test_unknown_to_healthy_on_first_success() {
    let mut app = AppState::new();
    app.add_service(make_config("svc"));
    let result = app.apply_check_result("svc", true, None);
    assert_eq!(result, Some(ServiceStatus::Healthy));
}

#[test]
fn test_unknown_to_unhealthy_on_first_failure() {
    let mut app = AppState::new();
    app.add_service(make_config("svc"));
    let result = app.apply_check_result("svc", false, Some("err".to_string()));
    assert_eq!(result, Some(ServiceStatus::Unhealthy));
}

#[test]
fn test_healthy_to_degraded_after_threshold_failures() {
    let mut app = AppState::new();
    let mut cfg = make_config("svc");
    cfg.degraded_threshold = 2;
    app.add_service(cfg);

    app.apply_check_result("svc", true, None);

    let result = app.apply_check_result("svc", false, Some("err".to_string()));
    assert_eq!(result, None, "第1次失败不应降级");

    let result = app.apply_check_result("svc", false, Some("err".to_string()));
    assert_eq!(result, Some(ServiceStatus::Degraded), "第2次失败应降级到亚健康");
}

#[test]
fn test_degraded_to_unhealthy_after_threshold_failures() {
    let mut app = AppState::new();
    let mut cfg = make_config("svc");
    cfg.degraded_threshold = 2;
    cfg.unhealthy_threshold = 3;
    app.add_service(cfg);

    app.apply_check_result("svc", true, None);
    app.apply_check_result("svc", false, Some("err".to_string()));
    app.apply_check_result("svc", false, Some("err".to_string()));

    let state = app.services.get("svc").unwrap();
    assert_eq!(state.status, ServiceStatus::Degraded);
    assert_eq!(state.consecutive_failures, 2);

    let result = app.apply_check_result("svc", false, Some("err".to_string()));
    assert_eq!(result, Some(ServiceStatus::Unhealthy), "第3次失败应降级到不可用");
}

#[test]
fn test_unhealthy_to_degraded_after_threshold_successes() {
    let mut app = AppState::new();
    let mut cfg = make_config("svc");
    cfg.healthy_threshold = 2;
    app.add_service(cfg);

    app.apply_check_result("svc", false, Some("err".to_string()));
    assert_eq!(app.services.get("svc").unwrap().status, ServiceStatus::Unhealthy);

    let result = app.apply_check_result("svc", true, None);
    assert_eq!(result, None, "第1次成功不应升级");

    let result = app.apply_check_result("svc", true, None);
    assert_eq!(result, Some(ServiceStatus::Degraded), "第2次成功应升级到亚健康");
}

#[test]
fn test_degraded_to_healthy_after_threshold_successes() {
    let mut app = AppState::new();
    let mut cfg = make_config("svc");
    cfg.degraded_threshold = 1;
    cfg.healthy_threshold = 2;
    app.add_service(cfg);

    app.apply_check_result("svc", true, None);
    app.apply_check_result("svc", false, Some("err".to_string()));
    assert_eq!(app.services.get("svc").unwrap().status, ServiceStatus::Degraded);

    let result = app.apply_check_result("svc", true, None);
    assert_eq!(result, None, "第1次成功不应升级");

    let result = app.apply_check_result("svc", true, None);
    assert_eq!(result, Some(ServiceStatus::Healthy), "第2次成功应升级到健康");
}

#[test]
fn test_success_resets_failure_counter() {
    let mut app = AppState::new();
    let mut cfg = make_config("svc");
    cfg.degraded_threshold = 3;
    app.add_service(cfg);

    app.apply_check_result("svc", true, None);
    app.apply_check_result("svc", false, Some("err".to_string()));
    app.apply_check_result("svc", false, Some("err".to_string()));

    let state = app.services.get("svc").unwrap();
    assert_eq!(state.consecutive_failures, 2);

    app.apply_check_result("svc", true, None);

    let state = app.services.get("svc").unwrap();
    assert_eq!(state.consecutive_failures, 0);
    assert_eq!(state.consecutive_successes, 1);
}

#[test]
fn test_history_is_recorded() {
    let mut app = AppState::new();
    app.add_service(make_config("svc"));

    app.apply_check_result("svc", true, None);
    app.apply_check_result("svc", false, Some("err".to_string()));
    app.apply_check_result("svc", false, Some("err".to_string()));

    let history = app.get_history("svc");
    assert_eq!(history.len(), 2);
    assert_eq!(history[0].to, ServiceStatus::Degraded);
    assert_eq!(history[1].to, ServiceStatus::Healthy);
}

#[test]
fn mod_test_report_summary() {
    let mut app = AppState::new();

    let cfg1 = make_config("svc1");
    app.add_service(cfg1);
    app.apply_check_result("svc1", true, None);

    let cfg2 = make_config("svc2");
    app.add_service(cfg2);
    app.apply_check_result("svc2", false, Some("err".to_string()));
    app.apply_check_result("svc2", true, None);
    app.apply_check_result("svc2", true, None);

    let cfg3 = make_config("svc3");
    app.add_service(cfg3);

    let summary = app.get_report_summary();
    assert_eq!(summary.total, 3);
    assert_eq!(summary.healthy, 1);
    assert_eq!(summary.degraded, 1);
    assert_eq!(summary.unknown, 1);
}

#[test]
fn a_change_tells_when_and_why() {
    let mut app = AppState::default();
    app.add_service_at(make_config("svc"), at(10));
    app.apply_check_result_at("svc", true, None, at(20));
    app.apply_check_result_at("svc", false, err(), at(30));
    app.apply_check_result_at("svc", false, None, at(40));

    let history = app.get_history("svc");
    assert_eq!(history[0].from, ServiceStatus::Healthy);
    assert_eq!(history[0].timestamp, at(40));
    assert_eq!(history[0].reason, "连续 2 次检查失败: 未知错误");
    assert_eq!(history[1].from, ServiceStatus::Unknown);
    assert_eq!(history[1].timestamp, at(20));
    assert_eq!(history[1].reason, "连续 1 次检查成功");

    app.apply_check_result_at("svc", false, err(), at(50));
    assert_eq!(app.get_history("svc")[0].reason, "连续 3 次检查失败: err");

    let state = app.services.get("svc").unwrap();
    assert_eq!(state.last_check, Some(at(50)));
    assert_eq!(state.last_success, Some(at(20)));
    assert_eq!(state.last_error, err());
    assert_eq!(state.status_since, at(50));
}

#[test]
fn only_the_last_hundred_changes_are_kept() {
    let mut app = AppState::new();
    let mut cfg = make_config("svc");
    cfg.degraded_threshold = 1;
    cfg.healthy_threshold = 1;
    app.add_service_at(cfg, at(0));
    for i in 1..=250 {
        let changed = app.apply_check_result_at("svc", i % 2 == 1, err(), at(i));
        assert!(changed.is_some());
    }
    let history = app.get_history("svc");
    assert_eq!(history.len(), 100);
    assert_eq!(history[0].timestamp, at(250));
    assert_eq!(history[0].to, ServiceStatus::Degraded);
    assert_eq!(history[99].timestamp, at(151));
    assert_eq!(history[99].to, ServiceStatus::Healthy);
    for i in 0..99 {
        assert_eq!(history[i].from, history[i + 1].to);
    }
}

#[test]
fn a_heartbeat_counts_as_a_success() {
    let mut app = AppState::new();
    app.add_service_at(make_config("svc"), at(0));
    assert_eq!(app.record_heartbeat_at("svc", at(5)), Some(ServiceStatus::Healthy));
    assert_eq!(app.record_heartbeat("svc"), None);
    let state = app.services.get("svc").unwrap();
    assert_eq!(state.consecutive_successes, 2);
    assert!(state.last_heartbeat.is_some());
    assert_eq!(app.get_history("svc")[0].reason, "收到心跳");
}

fn passive_app(timeout: u64) -> AppState {
    let mut app = AppState::new();
    let mut cfg = make_config("svc");
    cfg.passive = true;
    cfg.heartbeat_timeout_secs = timeout;
    cfg.degraded_threshold = 1;
    app.add_service_at(cfg, at(0));
    app
}

#[test]
fn a_heartbeat_lasts_until_its_timeout() {
    let mut app = passive_app(60);
    app.record_heartbeat_at("svc", at(1000));
    assert_eq!(app.check_heartbeat_timeout_at("svc", at(1060), at(1060)), None);
    assert_eq!(app.services.get("svc").unwrap().consecutive_failures, 0);
    let just_after = Timestamp::from_unix(1060, 1).unwrap();
    assert_eq!(
        app.check_heartbeat_timeout_at("svc", just_after, at(1061)),
        Some(ServiceStatus::Degraded)
    );
    let state = app.services.get("svc").unwrap();
    assert_eq!(state.last_error.as_deref(), Some("心跳超时"));
    assert_eq!(state.last_check, Some(at(1061)));
    assert_eq!(app.get_history("svc")[0].reason, "连续 1 次检查失败: 心跳超时");
}

#[test]
fn a_service_that_never_gave_a_heartbeat_fails() {
    let mut app = passive_app(60);
    assert_eq!(app.check_heartbeat_timeout("svc"), Some(ServiceStatus::Unhealthy));
    assert_eq!(app.check_heartbeat_timeout("svc"), None);
    assert_eq!(app.services.get("svc").unwrap().consecutive_failures, 2);
}

#[test]
fn a_fresh_heartbeat_is_in_time() {
    let mut app = passive_app(60);
    app.record_heartbeat("svc");
    assert_eq!(app.check_heartbeat_timeout("svc"), None);
    assert_eq!(app.services.get("svc").unwrap().status, ServiceStatus::Healthy);
}

#[test]
fn a_timeout_beyond_the_signed_range_is_negative() {
    let mut app = passive_app(u64::MAX);
    app.record_heartbeat_at("svc", at(1000));
    assert_eq!(app.check_heartbeat_timeout_at("svc", at(999), at(999)), None);
    assert_eq!(
        app.check_heartbeat_timeout_at("svc", at(1000), at(1000)),
        Some(ServiceStatus::Degraded)
    );
}

#[test]
fn active_services_need_no_heartbeat() {
    let mut app = AppState::new();
    app.add_service(make_config("svc"));
    assert_eq!(app.check_heartbeat_timeout("svc"), None);
    assert_eq!(app.services.get("svc").unwrap().consecutive_failures, 0);
}

#[test]
fn unknown_services_are_ignored() {
    let mut app = AppState::new();
    assert_eq!(app.apply_check_result("nobody", true, None), None);
    assert_eq!(app.record_heartbeat("nobody"), None);
    assert_eq!(app.check_heartbeat_timeout("nobody"), None);
    assert!(app.get_history("nobody").is_empty());
    assert_eq!(app.get_report_summary().total, 0);
}

#[test]
fn a_removed_service_is_forgotten() {
    let mut app = AppState::new();
    app.add_service(make_config("a"));
    app.add_service(make_config("b"));
    app.add_service(make_config("c"));
    app.apply_check_result("a", true, None);
    app.apply_check_result("c", false, err());
    app.remove_service("a");
    assert!(app.services.get("a").is_none());
    assert!(app.configs.get("a").is_none());
    assert!(app.get_history("a").is_empty());
    assert_eq!(app.services.get("c").unwrap().status, ServiceStatus::Unhealthy);
    let summary = app.get_report_summary();
    assert_eq!(summary.total, 2);
    assert_eq!(summary.unhealthy, 1);
    assert_eq!(summary.unknown, 1);
}

#[test]
fn another_configuration_keeps_the_state() {
    let mut app = AppState::new();
    app.add_service(make_config("svc"));
    app.apply_check_result("svc", true, None);
    let mut cfg = make_config("svc");
    cfg.degraded_threshold = 1;
    app.update_service_config(cfg);
    assert_eq!(app.services.get("svc").unwrap().status, ServiceStatus::Healthy);
    assert_eq!(app.get_history("svc").len(), 1);
    assert_eq!(app.apply_check_result("svc", false, err()), Some(ServiceStatus::Degraded));
}

#[test]
fn a_service_that_is_added_again_starts_anew() {
    let mut app = AppState::new();
    app.add_service(make_config("svc"));
    app.apply_check_result("svc", true, None);
    app.add_service_at(make_config("svc"), at(7));
    let state = app.services.get("svc").unwrap();
    assert_eq!(state.status, ServiceStatus::Unknown);
    assert_eq!(state.status_since, at(7));
    assert!(app.get_history("svc").is_empty());
}

#[test]
fn statuses_move_one_step_at_a_time() {
    let cfg = make_config("svc");
    let mut state = ServiceState::new_at("svc".to_string(), at(0));
    state.consecutive_failures = 100;
    state.consecutive_successes = 100;
    assert_eq!(
        next_status(ServiceStatus::Healthy, false, &state, &cfg),
        ServiceStatus::Degraded
    );
    assert_eq!(
        next_status(ServiceStatus::Unhealthy, true, &state, &cfg),
        ServiceStatus::Degraded
    );
    assert_eq!(
        next_status(ServiceStatus::Healthy, true, &state, &cfg),
        ServiceStatus::Healthy
    );
    assert_eq!(
        next_status(ServiceStatus::Unhealthy, false, &state, &cfg),
        ServiceStatus::Unhealthy
    );
}

#[test]
fn statuses_have_lower_case_names() {
    assert_eq!(ServiceStatus::Unknown.to_string(), "unknown");
    assert_eq!(ServiceStatus::Healthy.to_string(), "healthy");
    assert_eq!(ServiceStatus::Degraded.to_string(), "degraded");
    assert_eq!(ServiceStatus::Unhealthy.to_string(), "unhealthy");
}

#[test]
fn settings_have_defaults() {
    assert_eq!(default_check_path(), "/health");
    assert_eq!(default_interval_secs(), 30);
    assert_eq!(default_timeout_secs(), 5);
    assert_eq!(default_unhealthy_threshold(), 3);
    assert_eq!(default_degraded_threshold(), 2);
    assert_eq!(default_healthy_threshold(), 2);
    assert_eq!(default_heartbeat_timeout_secs(), 60);
    assert_eq!(default_alert_after_secs(), 60);
}

#[test]
fn timestamps_keep_to_the_calendar() {
    assert_eq!(at(-5).to_unix(), (-5, 0));
    let last = Timestamp::from_unix(8_210_266_876_799, 999_999_999).unwrap();
    assert_eq!(last.to_unix(), (8_210_266_876_799, 999_999_999));
    let first = Timestamp::from_unix(-8_334_601_228_800, 0).unwrap();
    assert_eq!(first.to_unix(), (-8_334_601_228_800, 0));
    assert!(Timestamp::from_unix(8_210_266_876_800, 0).is_none());
    assert!(Timestamp::from_unix(-8_334_601_228_801, 0).is_none());
    assert!(Timestamp::from_unix(0, 1_000_000_000).is_none());
}

#[test]
fn the_calendar_is_as_long_as_it_says() {
    let mut app = passive_app(60);
    let first = at(-8_334_601_228_800);
    let last = Timestamp::from_unix(8_210_266_876_799, 999_999_999).unwrap();
    app.record_heartbeat_at("svc", last);
    assert_eq!(app.check_heartbeat_timeout_at("svc", first, first), None);
    app.record_heartbeat_at("svc", first);
    assert_eq!(
        app.check_heartbeat_timeout_at("svc", last, last),
        Some(ServiceStatus::Degraded)
    );
}

#[test]
fn a_new_service_is_new_since_the_current_time() {
    let before = chrono::Utc::now().timestamp();
    let state = ServiceState::new("svc".to_string());
    let after = chrono::Utc::now().timestamp();
    let (secs, _) = state.status_since.to_unix();
    assert!(before <= secs && secs <= after);
}

#[test]
fn counters_end_at_their_limit() {
    let mut app = passive_app(60);
    assert!(app.can_count("svc", true));
    assert!(app.can_count("svc", false));
    assert!(app.can_watch("svc"));
    app.services.get_mut("svc").unwrap().consecutive_failures = u32::MAX;
    assert!(app.can_count("svc", true));
    assert!(!app.can_count("svc", false));
    assert!(!app.can_watch("svc"));
    app.services.get_mut("svc").unwrap().consecutive_successes = u32::MAX;
    assert!(!app.can_count("svc", true));
    assert!(app.can_count("nobody", true));
    assert!(app.can_watch("nobody"));
}

#[test]
fn only_some_timeouts_make_a_time_span() {
    assert!(has_span(0));
    assert!(has_span(9_223_372_036_854_775));
    assert!(!has_span(9_223_372_036_854_776));
    assert!(has_span(u64::MAX));
    assert!(has_span((-9_223_372_036_854_775_i64) as u64));
    assert!(!has_span((-9_223_372_036_854_776_i64) as u64));
    assert!(!passive_app(9_223_372_036_854_776).can_watch("svc"));

    let mut longest = passive_app(9_223_372_036_854_775);
    longest.record_heartbeat_at("svc", at(0));
    assert_eq!(longest.check_heartbeat_timeout_at("svc", at(8_000_000_000_000), at(1)), None);
    assert!(chrono::TimeDelta::try_seconds(9_223_372_036_854_775).is_some());
    assert!(chrono::TimeDelta::try_seconds(9_223_372_036_854_776).is_none());
    assert!(chrono::TimeDelta::try_seconds(-9_223_372_036_854_775).is_some());
    assert!(chrono::TimeDelta::try_seconds(-9_223_372_036_854_776).is_none());
}

#[test]
fn results_that_agree_with_a_status_change_nothing() {
    let mut app = AppState::new();
    app.add_service_at(make_config("bad"), at(0));
    app.add_service_at(make_config("good"), at(0));
    for i in 1..=20 {
        app.apply_check_result_at("bad", false, err(), at(i));
        app.apply_check_result_at("good", true, None, at(i));
    }
    assert_eq!(app.services.get("bad").unwrap().status, ServiceStatus::Unhealthy);
    assert_eq!(app.services.get("bad").unwrap().consecutive_failures, 20);
    assert_eq!(app.services.get("good").unwrap().status, ServiceStatus::Healthy);
    assert_eq!(app.get_history("bad").len(), 1);
    assert_eq!(app.get_history("good").len(), 1);
}

#[test]
fn removing_a_service_undoes_adding_it() {
    let mut app = AppState::new();
    app.add_service_at(make_config("stays"), at(0));
    app.apply_check_result_at("stays", true, None, at(1));
    app.add_service_at(make_config("svc"), at(2));
    app.apply_check_result_at("svc", false, err(), at(3));
    app.remove_service("svc");
    assert_eq!(app.services.len(), 1);
    assert_eq!(app.configs.len(), 1);
    assert_eq!(app.history.len(), 1);
    assert_eq!(app.services.get("stays").unwrap().status, ServiceStatus::Healthy);
    assert_eq!(app.services.name_at(0), "stays");
    assert_eq!(app.services.value_at(0).last_check, Some(at(1)));
}
