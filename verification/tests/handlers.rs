use healthcheck_service::clock::Timestamp;
use healthcheck_service::dependency::DependencyGraph;
use healthcheck_service::handlers::{
    get_dependencies, get_history, get_report, get_service, health_check, heartbeat, heartbeat_at,
    list_services, not_found, problem, trigger_check, trigger_reply, ACCEPTED, NOT_FOUND, OK,
    SERVICE_UNAVAILABLE,
};
use healthcheck_service::models::{CheckType, HeartbeatRequest, ServiceConfig, ServiceStatus};
use healthcheck_service::state::AppState;

fn make_test_config(name: &str) -> ServiceConfig {
    ServiceConfig {
        name: name.to_string(),
        url: "http://localhost".to_string(),
        check_type: CheckType::Http,
        check_path: "/health".to_string(),
        interval_secs: 30,
        timeout_secs: 5,
        unhealthy_threshold: 3,
        degraded_threshold: 2,
        healthy_threshold: 2,
        dependencies: vec![],
        passive: false,
        heartbeat_timeout_secs: 60,
        alert_after_secs: 60,
        command: None,
        command_args: vec![],
    }
}

fn setup_test_app() -> (AppState, DependencyGraph) {
    let mut state = AppState::new();
    let mut graph = DependencyGraph::new();

    let svc1 = make_test_config("service-a");
    let svc2 = make_test_config("service-b");
    let mut svc3 = make_test_config("service-c");
    svc3.passive = true;
    svc3.dependencies = vec!["service-a".to_string()];

    state.add_service(svc1);
    state.add_service(svc2);
    state.add_service(svc3);

    graph.add_service("service-a".to_string(), vec![]);
    graph.add_service("service-b".to_string(), vec![]);
    graph.add_service("service-c".to_string(), vec!["service-a".to_string()]);

    state.apply_check_result("service-a", true, None);
    state.apply_check_result("service-b", true, None);
    state.apply_check_result("service-b", false, Some("connection refused".to_string()));
    state.apply_check_result("service-b", false, Some("connection refused".to_string()));

    graph.update_status("service-a", ServiceStatus::Healthy);
    graph.update_status("service-b", ServiceStatus::Degraded);

    (state, graph)
}

fn request(name: &str) -> HeartbeatRequest {
    HeartbeatRequest { name: name.to_string(), status: None }
}

#[test]
fn test_health_endpoint() {
    let reply = health_check();

    assert_eq!(reply.status, OK);
    assert_eq!(reply.body.status, "healthy");
    assert_eq!(reply.body.service, "healthcheck-service");
}

#[test]
fn test_list_services() {
    let (state, _graph) = setup_test_app();
    let reply = list_services(&state);

    assert_eq!(reply.status, OK);
    let services = reply.body;
    assert_eq!(services.len(), 3);

    let names: Vec<&str> = services.iter().map(|s| s.name.as_str()).collect();
    assert!(names.contains(&"service-a"));
    assert!(names.contains(&"service-b"));
    assert!(names.contains(&"service-c"));
}

#[test]
fn test_get_service_details() {
    let (state, _graph) = setup_test_app();
    let reply = get_service(&state, "service-a").unwrap();

    assert_eq!(reply.status, OK);
    assert_eq!(reply.body.name, "service-a");
    assert_eq!(reply.body.status, ServiceStatus::Healthy);
    assert!(reply.body.last_check.is_some());
    assert!(reply.body.last_success.is_some());
    assert_eq!(reply.body.history.len(), 1);
    assert_eq!(reply.body.config.unwrap().name, "service-a");
    assert_eq!(reply.body.consecutive_successes, 1);
    assert_eq!(reply.body.consecutive_failures, 0);
    assert_eq!(reply.body.last_error, None);
}

#[test]
fn test_get_service_not_found() {
    let (state, _graph) = setup_test_app();
    let problem = get_service(&state, "nonexistent").unwrap_err();

    assert_eq!(problem.status, NOT_FOUND);
    assert_eq!(problem.title, "Not Found");
    assert_eq!(problem.status, 404);
    assert!(problem.detail.contains("不存在"));
    assert_eq!(problem.detail, "服务 'nonexistent' 不存在");
}

#[test]
fn integration_test_test_report_summary() {
    let (state, _graph) = setup_test_app();
    let reply = get_report(&state);

    assert_eq!(reply.status, OK);
    assert_eq!(reply.body.total, 3);
    assert_eq!(reply.body.healthy, 1);
    assert_eq!(reply.body.degraded, 1);
    assert_eq!(reply.body.unknown, 1);
    assert_eq!(reply.body.unhealthy, 0);
}

#[test]
fn test_heartbeat() {
    let (mut state, _graph) = setup_test_app();
    let reply = heartbeat(&mut state, &request("service-c")).unwrap();

    assert_eq!(reply.status, OK);
    assert_eq!(reply.body.name, "service-c");
    assert!(reply.body.status_changed);
    assert_eq!(reply.body.message, "心跳已接收，状态更新为 healthy");
}

#[test]
fn test_heartbeat_service_not_found() {
    let (mut state, _graph) = setup_test_app();
    let problem = heartbeat(&mut state, &request("nonexistent-service")).unwrap_err();

    assert_eq!(problem.status, NOT_FOUND);
    assert_eq!(problem.title, "Not Found");
    assert_eq!(problem.detail, "服务 'nonexistent-service' 未注册");
}

#[test]
fn test_trigger_check() {
    let (state, _graph) = setup_test_app();
    assert!(trigger_check(&state, "service-a").is_ok());

    let reply = trigger_reply("service-a", true).unwrap();
    assert_eq!(reply.status, ACCEPTED);
    assert!(reply.body.contains("触发"));
    assert_eq!(reply.body, "已触发服务 'service-a' 的检查");
}

#[test]
fn test_trigger_check_not_found() {
    let (state, _graph) = setup_test_app();
    let problem = trigger_check(&state, "nonexistent").unwrap_err();

    assert_eq!(problem.status, NOT_FOUND);
    assert_eq!(problem.detail, "服务 'nonexistent' 不存在");
}

#[test]
fn test_get_history() {
    let (state, _graph) = setup_test_app();
    let reply = get_history(&state, "service-b").unwrap();

    assert_eq!(reply.status, OK);
    assert!(reply.body.len() >= 1);
    assert_eq!(reply.body.len(), 2);
    assert_eq!(reply.body[0].to, ServiceStatus::Degraded);
    assert_eq!(reply.body[0].reason, "连续 2 次检查失败: connection refused");
}

#[test]
fn test_dependencies() {
    let (_state, graph) = setup_test_app();
    let reply = get_dependencies(&graph);

    assert_eq!(reply.status, OK);
    assert_eq!(reply.body.trees.len(), 2);
    assert_eq!(reply.body.root_causes.len(), 1);
    assert_eq!(reply.body.root_causes[0].service, "service-b");
    assert_eq!(reply.body.root_causes[0].depth, 1);
}

#[test]
fn test_not_found_fallback() {
    let problem = not_found();

    assert_eq!(problem.status, NOT_FOUND);
    assert_eq!(problem.title, "Not Found");
    assert_eq!(problem.status, 404);
    assert_eq!(problem.detail, "请求的资源不存在");
}

#[test]
fn test_degraded_service_in_list() {
    let (state, _graph) = setup_test_app();
    let reply = list_services(&state);

    assert_eq!(reply.status, OK);
    let svc_b = reply.body.iter().find(|s| s.name == "service-b").unwrap();
    assert_eq!(svc_b.status.to_string(), "degraded");
}

#[test]
fn test_problem_details_format() {
    let (state, _graph) = setup_test_app();
    let problem = get_service(&state, "unknown").unwrap_err();

    assert_eq!(problem.status, NOT_FOUND);
    assert_eq!(problem.problem_type, "about:blank");
    assert!(!problem.title.is_empty());
    assert!(!problem.detail.is_empty());
}

#[test]
fn a_closed_queue_is_a_problem() {
    let problem = trigger_reply("service-a", false).unwrap_err();
    assert_eq!(problem.status, SERVICE_UNAVAILABLE);
    assert_eq!(problem.status, 503);
    assert_eq!(problem.title, "Service Unavailable");
    assert_eq!(problem.detail, "检查任务通道已关闭");
}

#[test]
fn a_history_of_a_stranger_is_a_problem() {
    let (state, _graph) = setup_test_app();
    assert_eq!(get_history(&state, "x").unwrap_err().detail, "服务 'x' 不存在");
}

#[test]
fn a_heartbeat_without_a_change_says_so() {
    let (mut state, _graph) = setup_test_app();
    let now = Timestamp::from_unix(77, 0).unwrap();
    let reply = heartbeat_at(&mut state, &request("service-a"), now).unwrap();
    assert!(!reply.body.status_changed);
    assert_eq!(reply.body.message, "心跳已接收");
    assert_eq!(state.services.get("service-a").unwrap().last_heartbeat, Some(now));
}

#[test]
fn a_problem_says_what_it_is_given() {
    let problem = problem(418, "Teapot", "short and stout");
    assert_eq!(problem.problem_type, "about:blank");
    assert_eq!(problem.status, 418);
    assert_eq!(problem.title, "Teapot");
    assert_eq!(problem.detail, "short and stout");
}

#[test]
fn a_copy_of_a_heartbeat_says_the_same() {
    let mut original = request("a");
    original.status = Some(ServiceStatus::Degraded);
    let copy = original.clone();
    assert_eq!(copy.name, "a");
    assert_eq!(copy.status, Some(ServiceStatus::Degraded));
}
