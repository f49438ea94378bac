use healthcheck_service::alert::{Alert, AlertEvent, AlertManager};
use healthcheck_service::clock::Timestamp;
use healthcheck_service::config::{
    default_host, default_level, default_port, reload_wanted, AlertConfig, ServerConfig,
    WebhookConfig,
};
use healthcheck_service::models::{ServiceState, ServiceStatus};

fn at(secs: i64) -> Timestamp {
    Timestamp::from_unix(secs, 0).unwrap()
}

fn state(status: ServiceStatus, since: i64) -> ServiceState {
    let mut state = ServiceState::new_at("svc".to_string(), at(since));
    state.status = status;
    state.last_success = Some(at(3));
    state.last_error = Some("boom".to_string());
    state
}

fn webhooks() -> AlertConfig {
    let webhook = |url: &str, level: &str| WebhookConfig {
        url: url.to_string(),
        level: level.to_string(),
    };
    AlertConfig {
        webhooks: vec![
            webhook("http://one", "critical"),
            webhook("http://two", "warn"),
            webhook("http://three", "info"),
        ],
    }
}

fn look(manager: &mut AlertManager, state: &ServiceState, now: i64) -> Option<Alert> {
    manager.check_and_send_alerts_at("svc", state, 60, at(now), at(now + 1), at(now + 2))
}

fn event(alert: Option<Alert>) -> Option<String> {
    alert.map(|alert| alert.message.event)
}

#[test]
fn an_unhealthy_service_is_told_once_it_lasts() {
    let mut manager = AlertManager::new(webhooks());
    let bad = state(ServiceStatus::Unhealthy, 100);
    assert!(look(&mut manager, &bad, 159).is_none());
    let alert = look(&mut manager, &bad, 160).unwrap();
    assert_eq!(alert.message.service, "svc");
    assert_eq!(alert.message.status, ServiceStatus::Unhealthy);
    assert_eq!(alert.message.event, "服务不可用");
    assert_eq!(alert.message.timestamp, at(161));
    assert_eq!(alert.message.last_success, Some(at(3)));
    assert_eq!(alert.message.error.as_deref(), Some("boom"));
    assert_eq!(alert.urls, vec!["http://one", "http://two", "http://three"]);
}

#[test]
fn an_unhealthy_service_is_told_again_after_a_while() {
    let mut manager = AlertManager::new(webhooks());
    let bad = state(ServiceStatus::Unhealthy, 100);
    assert!(look(&mut manager, &bad, 200).is_some());
    assert!(look(&mut manager, &bad, 259).is_none());
    assert_eq!(event(look(&mut manager, &bad, 260)).as_deref(), Some("服务不可用"));
    assert!(look(&mut manager, &bad, 261).is_none());
}

#[test]
fn parts_of_a_second_do_not_count_before_the_first_alert() {
    let mut manager = AlertManager::new(webhooks());
    let bad = state(ServiceStatus::Unhealthy, 100);
    let early = Timestamp::from_unix(159, 999_999_999).unwrap();
    let alert = manager.check_and_send_alerts_at("svc", &bad, 60, early, early, early);
    assert!(alert.is_none());
}

#[test]
fn parts_of_a_second_count_between_alerts() {
    let mut manager = AlertManager::new(webhooks());
    let bad = state(ServiceStatus::Unhealthy, 100);
    let first = Timestamp::from_unix(200, 500_000_000).unwrap();
    let early = Timestamp::from_unix(260, 499_999_999).unwrap();
    let due = Timestamp::from_unix(260, 500_000_000).unwrap();
    assert!(manager.check_and_send_alerts_at("svc", &bad, 60, first, first, first).is_some());
    assert!(manager.check_and_send_alerts_at("svc", &bad, 60, early, early, early).is_none());
    assert!(manager.check_and_send_alerts_at("svc", &bad, 60, due, due, due).is_some());
}

#[test]
fn a_degraded_service_is_told_once_after_it_was_unhealthy() {
    let mut manager = AlertManager::new(webhooks());
    let weak = state(ServiceStatus::Degraded, 300);
    assert!(look(&mut manager, &weak, 400).is_none());
    assert!(look(&mut manager, &state(ServiceStatus::Unhealthy, 400), 500).is_some());
    let alert = look(&mut manager, &weak, 510).unwrap();
    assert_eq!(alert.message.event, "服务降级为亚健康");
    assert_eq!(alert.urls, vec!["http://two"]);
    assert!(look(&mut manager, &weak, 520).is_none());
    assert!(look(&mut manager, &weak, 5200).is_none());
}

#[test]
fn the_wait_starts_anew_when_a_degraded_service_was_told() {
    let mut manager = AlertManager::new(webhooks());
    let bad = state(ServiceStatus::Unhealthy, 0);
    assert!(look(&mut manager, &bad, 500).is_some());
    assert!(look(&mut manager, &state(ServiceStatus::Degraded, 510), 550).is_some());
    assert!(look(&mut manager, &bad, 611).is_none());
    assert!(look(&mut manager, &bad, 612).is_some());
}

#[test]
fn a_recovery_is_told_once() {
    let mut manager = AlertManager::new(webhooks());
    let good = state(ServiceStatus::Healthy, 600);
    assert!(look(&mut manager, &good, 610).is_none());
    assert!(look(&mut manager, &state(ServiceStatus::Unhealthy, 400), 500).is_some());
    let alert = look(&mut manager, &good, 610).unwrap();
    assert_eq!(alert.message.event, "服务已恢复");
    assert_eq!(alert.message.status, ServiceStatus::Healthy);
    assert_eq!(alert.urls, vec!["http://three"]);
    assert!(look(&mut manager, &good, 620).is_none());
    assert!(look(&mut manager, &state(ServiceStatus::Degraded, 620), 630).is_none());
}

#[test]
fn an_unknown_service_is_never_told() {
    let mut manager = AlertManager::new(webhooks());
    assert!(look(&mut manager, &state(ServiceStatus::Unhealthy, 0), 100).is_some());
    assert!(look(&mut manager, &state(ServiceStatus::Unknown, 0), 1000).is_none());
}

#[test]
fn services_are_told_apart() {
    let mut manager = AlertManager::new(webhooks());
    let bad = state(ServiceStatus::Unhealthy, 0);
    assert!(look(&mut manager, &bad, 100).is_some());
    let other = manager.check_and_send_alerts_at("other", &bad, 60, at(101), at(101), at(101));
    assert_eq!(other.unwrap().message.service, "other");
    let good = state(ServiceStatus::Healthy, 102);
    assert!(look(&mut manager, &good, 103).is_some());
    let other = manager.check_and_send_alerts_at("other", &good, 60, at(104), at(104), at(104));
    assert!(other.is_some());
}

#[test]
fn other_webhooks_take_over() {
    let mut manager = AlertManager::new(AlertConfig::default());
    assert!(manager.has_no_webhooks());
    let bad = state(ServiceStatus::Unhealthy, 0);
    assert!(look(&mut manager, &bad, 100).unwrap().urls.is_empty());
    manager.update_config(webhooks());
    assert!(!manager.has_no_webhooks());
    assert!(look(&mut manager, &bad, 101).is_none());
    assert_eq!(look(&mut manager, &bad, 200).unwrap().urls.len(), 3);
}

#[test]
fn a_wait_beyond_the_signed_range_is_negative() {
    let mut manager = AlertManager::new(webhooks());
    let bad = state(ServiceStatus::Unhealthy, 100);
    for _ in 0..2 {
        let alert =
            manager.check_and_send_alerts_at("svc", &bad, u64::MAX, at(99), at(99), at(99));
        assert!(alert.is_some());
    }
}

#[test]
fn alerts_can_go_out_at_the_current_time() {
    let mut manager = AlertManager::new(webhooks());
    let bad = state(ServiceStatus::Unhealthy, 0);
    let alert = manager.check_and_send_alerts("svc", &bad, 60).unwrap();
    assert!(alert.message.timestamp.to_unix().0 > 1_000_000_000);
    assert!(manager.check_and_send_alerts("svc", &bad, 60).is_none());
    assert!(manager.check_and_send_alerts("svc", &state(ServiceStatus::Healthy, 0), 60).is_some());
}

#[test]
fn an_alert_names_the_event_that_it_is_given() {
    let manager = AlertManager::new(webhooks());
    let alert =
        manager.send_alert("svc", &state(ServiceStatus::Degraded, 0), AlertEvent::Recovered, at(9));
    assert_eq!(alert.message.event, "服务已恢复");
    assert_eq!(alert.message.timestamp, at(9));
    assert_eq!(alert.urls, vec!["http://two"]);
}

#[test]
fn the_configuration_has_defaults() {
    assert!(AlertConfig::default().webhooks.is_empty());
    assert_eq!(default_level(), "critical");
    assert_eq!(default_host(), "0.0.0.0");
    assert_eq!(default_port(), 8080);
    let server = ServerConfig::default();
    assert_eq!(server.host, "0.0.0.0");
    assert_eq!(server.port, 8080);
}

#[test]
fn a_changed_or_new_file_is_read_again() {
    assert!(reload_wanted(true, false));
    assert!(reload_wanted(false, true));
    assert!(reload_wanted(true, true));
    assert!(!reload_wanted(false, false));
}
