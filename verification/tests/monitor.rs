use healthcheck_service::alert::AlertManager;
use healthcheck_service::checker::CheckResult;
use healthcheck_service::clock::Timestamp;
use healthcheck_service::config::{AlertConfig, AppConfig, ServerConfig, WebhookConfig};
use healthcheck_service::dependency::DependencyGraph;
use healthcheck_service::models::{CheckType, ServiceConfig, ServiceStatus};
use healthcheck_service::monitor::{
    can_take, check_step, finish_check, finish_check_at, listen_address, register, reload,
    schedules, Step,
};
use healthcheck_service::state::AppState;

fn service(name: &str, dependencies: &[&str]) -> ServiceConfig {
    ServiceConfig {
        name: name.to_string(),
        url: "http://localhost".to_string(),
        check_type: CheckType::Http,
        check_path: "/health".to_string(),
        interval_secs: 30,
        timeout_secs: 5,
        unhealthy_threshold: 3,
        degraded_threshold: 2,
        healthy_threshold: 2,
        dependencies: dependencies.iter().map(|d| d.to_string()).collect(),
        passive: false,
        heartbeat_timeout_secs: 60,
        alert_after_secs: 60,
        command: None,
        command_args: vec![],
    }
}

fn config(services: Vec<ServiceConfig>) -> AppConfig {
    AppConfig { services, alert: AlertConfig::default(), server: ServerConfig::default() }
}

fn at(secs: i64) -> Timestamp {
    Timestamp::from_unix(secs, 0).unwrap()
}

fn failed() -> CheckResult {
    CheckResult { success: false, error: Some("down".to_string()) }
}

fn passed() -> CheckResult {
    CheckResult { success: true, error: None }
}

#[test]
fn a_start_takes_up_all_services() {
    let mut state = AppState::new();
    let mut graph = DependencyGraph::new();
    register(&mut state, &mut graph, &vec![service("a", &["b"]), service("b", &[])]);
    assert_eq!(state.get_report_summary().total, 2);
    assert_eq!(state.get_report_summary().unknown, 2);
    assert_eq!(graph.find_roots(), vec!["a"]);
    assert_eq!(graph.build_tree("a").dependencies[0].name, "b");
}

#[test]
fn the_last_of_two_configurations_counts() {
    let mut state = AppState::new();
    let mut graph = DependencyGraph::new();
    let mut second = service("a", &["c"]);
    second.interval_secs = 7;
    register(&mut state, &mut graph, &vec![service("a", &["b"]), second]);
    assert_eq!(state.get_report_summary().total, 1);
    assert_eq!(state.configs.get("a").unwrap().interval_secs, 7);
    assert_eq!(graph.build_tree("a").dependencies[0].name, "c");
}

#[test]
fn a_new_configuration_keeps_what_is_known() {
    let mut state = AppState::new();
    let mut graph = DependencyGraph::new();
    let mut alerts = AlertManager::new(AlertConfig::default());
    register(&mut state, &mut graph, &vec![service("kept", &["old"]), service("gone", &[])]);
    state.apply_check_result("kept", true, None);
    state.apply_check_result("gone", true, None);
    graph.update_status("gone", ServiceStatus::Healthy);

    let mut kept = service("kept", &["new"]);
    kept.timeout_secs = 9;
    let mut next = config(vec![kept, service("new", &[])]);
    next.alert = AlertConfig {
        webhooks: vec![WebhookConfig {
            url: "http://hook".to_string(),
            level: "critical".to_string(),
        }],
    };
    reload(&mut state, &mut graph, &mut alerts, &next);

    assert!(state.services.get("gone").is_none());
    assert!(state.configs.get("gone").is_none());
    assert!(state.get_history("gone").is_empty());
    assert_eq!(state.services.get("kept").unwrap().status, ServiceStatus::Healthy);
    assert_eq!(state.get_history("kept").len(), 1);
    assert_eq!(state.configs.get("kept").unwrap().timeout_secs, 9);
    assert_eq!(state.services.get("new").unwrap().status, ServiceStatus::Unknown);
    assert_eq!(graph.build_tree("kept").dependencies[0].name, "new");
    assert_eq!(graph.get_status("gone"), ServiceStatus::Healthy);
    assert!(graph.find_roots().contains(&"gone".to_string()));
    assert!(!alerts.has_no_webhooks());
}

#[test]
fn active_services_are_scheduled() {
    let mut quiet = service("quiet", &[]);
    quiet.passive = true;
    let mut slow = service("slow", &[]);
    slow.interval_secs = 300;
    let listed = schedules(&config(vec![service("a", &[]), quiet, slow]));
    let listed: Vec<(&str, u64)> =
        listed.iter().map(|s| (s.name.as_str(), s.interval_secs)).collect();
    assert_eq!(listed, vec![("a", 30), ("slow", 300)]);
}

#[test]
fn a_check_step_depends_on_the_configuration() {
    let mut state = AppState::new();
    let mut graph = DependencyGraph::new();
    let mut quiet = service("quiet", &[]);
    quiet.passive = true;
    register(&mut state, &mut graph, &vec![service("a", &[]), quiet]);
    match check_step(&state, "a") {
        Step::Probe(config) => assert_eq!(config.name, "a"),
        other => panic!("unexpected step: {:?}", other),
    }
    assert!(matches!(check_step(&state, "quiet"), Step::Watch));
    assert!(matches!(check_step(&state, "nobody"), Step::Skip));
}

#[test]
fn a_result_reaches_the_graph_and_the_alerts() {
    let mut state = AppState::new();
    let mut graph = DependencyGraph::new();
    let mut alerts = AlertManager::new(AlertConfig::default());
    register(&mut state, &mut graph, &vec![service("a", &[])]);
    let times = |now: i64| (at(now), at(now + 1), at(now + 2));

    let alert = finish_check_at(
        &mut state, &mut graph, &mut alerts, "a", failed(), 60, at(100), times(100),
    );
    assert!(alert.is_none());
    assert_eq!(graph.get_status("a"), ServiceStatus::Unhealthy);

    let alert = finish_check_at(
        &mut state, &mut graph, &mut alerts, "a", failed(), 60, at(160), times(160),
    );
    let alert = alert.unwrap();
    assert_eq!(alert.message.event, "服务不可用");
    assert_eq!(alert.message.error.as_deref(), Some("down"));
    assert_eq!(alert.message.timestamp, at(161));

    finish_check_at(&mut state, &mut graph, &mut alerts, "a", passed(), 60, at(170), times(170));
    assert_eq!(graph.get_status("a"), ServiceStatus::Unhealthy);
    let alert = finish_check_at(
        &mut state, &mut graph, &mut alerts, "a", passed(), 60, at(180), times(180),
    );
    assert_eq!(graph.get_status("a"), ServiceStatus::Degraded);
    assert_eq!(alert.unwrap().message.event, "服务降级为亚健康");
}

#[test]
fn a_result_for_a_service_that_is_gone_does_nothing() {
    let mut state = AppState::new();
    let mut graph = DependencyGraph::new();
    let mut alerts = AlertManager::new(AlertConfig::default());
    assert!(finish_check(&mut state, &mut graph, &mut alerts, "a", failed(), 60).is_none());
    assert_eq!(graph.get_status("a"), ServiceStatus::Unknown);
}

#[test]
fn a_result_can_come_at_the_current_time() {
    let mut state = AppState::new();
    let mut graph = DependencyGraph::new();
    let mut alerts = AlertManager::new(AlertConfig::default());
    register(&mut state, &mut graph, &vec![service("a", &[])]);
    let alert = finish_check(&mut state, &mut graph, &mut alerts, "a", failed(), 0);
    assert_eq!(alert.unwrap().message.service, "a");
    assert_eq!(state.services.get("a").unwrap().status, ServiceStatus::Unhealthy);
}

#[test]
fn the_address_joins_host_and_port() {
    assert_eq!(listen_address(&ServerConfig::default()), "0.0.0.0:8080");
    let server = ServerConfig { host: "127.0.0.1".to_string(), port: 65535 };
    assert_eq!(listen_address(&server), "127.0.0.1:65535");
    let server = ServerConfig { host: "h".to_string(), port: 0 };
    assert_eq!(listen_address(&server), "h:0");
}

#[test]
fn a_result_that_cannot_be_counted_is_not_taken() {
    let mut state = AppState::new();
    let mut graph = DependencyGraph::new();
    let mut alerts = AlertManager::new(AlertConfig::default());
    register(&mut state, &mut graph, &vec![service("a", &[])]);
    let wait = (-9_223_372_036_854_776_i64) as u64;
    assert!(can_take(&state, &alerts, "nobody", true, wait));
    assert!(can_take(&state, &alerts, "a", false, wait));
    assert!(!alerts.has_to_wait("a"));
    assert!(finish_check(&mut state, &mut graph, &mut alerts, "a", failed(), wait).is_some());
    assert!(alerts.has_to_wait("a"));
    assert!(!can_take(&state, &alerts, "a", false, wait));
    assert!(can_take(&state, &alerts, "a", false, 60));
    assert!(!can_take(&state, &alerts, "a", true, wait));
    state.services.get_mut("a").unwrap().status = ServiceStatus::Degraded;
    assert!(can_take(&state, &alerts, "a", true, wait));
    state.services.get_mut("a").unwrap().consecutive_successes = u32::MAX;
    assert!(!can_take(&state, &alerts, "a", true, 60));
}

#[test]
fn a_copy_of_a_configuration_says_the_same() {
    let mut original = config(vec![service("a", &["b"]), service("c", &[])]);
    original.server.port = 9;
    let copy = original.clone();
    assert_eq!(format!("{:?}", copy), format!("{:?}", original));
    let result = failed().clone();
    assert!(!result.success);
    assert_eq!(result.error.as_deref(), Some("down"));
}
