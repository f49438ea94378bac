use healthcheck_service::checker::{
    describe_exit, describe_status, do_check, judge, run_check, Answer, CheckResult, Ending, Probe,
};
use healthcheck_service::models::{CheckType, ServiceConfig};

fn make_config(check_type: CheckType) -> ServiceConfig {
    ServiceConfig {
        name: "test".to_string(),
        url: "http://localhost:9999".to_string(),
        check_type,
        check_path: "/health".to_string(),
        interval_secs: 30,
        timeout_secs: 2,
        unhealthy_threshold: 3,
        degraded_threshold: 2,
        healthy_threshold: 2,
        dependencies: vec![],
        passive: false,
        heartbeat_timeout_secs: 60,
        alert_after_secs: 60,
        command: None,
        command_args: vec![],
    }
}

/// Checks with an answer that is given for every probe.
fn check_with(config: &ServiceConfig, answer: Option<Answer>) -> CheckResult {
    let ending = match (do_check(config), answer) {
        (Err(why), _) => Ending::Refused(why),
        (Ok(_), Some(answer)) => Ending::Answered(answer),
        (Ok(_), None) => Ending::TimedOut,
    };
    run_check(config, ending)
}

#[test]
fn test_http_check_timeout() {
    let mut cfg = make_config(CheckType::Http);
    cfg.url = "http://10.255.255.1:9999".to_string();
    cfg.timeout_secs = 1;

    let result = check_with(&cfg, None);
    assert!(!result.success);
    assert!(result.error.is_some());
    assert_eq!(result.error.as_deref(), Some("检查超时 (1秒)"));
}

#[test]
fn test_tcp_check_connection_refused() {
    let mut cfg = make_config(CheckType::Tcp);
    cfg.url = "127.0.0.1:1".to_string();
    cfg.timeout_secs = 1;

    let result = check_with(&cfg, Some(Answer::TcpFailed("Connection refused".to_string())));
    assert!(!result.success);
    assert_eq!(result.error.as_deref(), Some("TCP 连接失败: Connection refused"));
}

#[test]
fn test_command_check_missing_command() {
    let mut cfg = make_config(CheckType::Command);
    cfg.command = None;

    let result = check_with(&cfg, None);
    assert!(!result.success);
    assert!(result.error.unwrap().contains("未配置命令"));
}

#[test]
fn test_command_check_failure() {
    let mut cfg = make_config(CheckType::Command);
    cfg.command = Some("cmd.exe".to_string());
    cfg.command_args = vec!["/c".to_string(), "exit 1".to_string()];

    let answer = Answer::CommandExited { success: false, code: Some(1), stderr: vec![] };
    let result = check_with(&cfg, Some(answer));
    assert!(!result.success);
    assert_eq!(result.error.as_deref(), Some("命令退出码: 1, stderr: "));
}

#[test]
fn an_http_probe_joins_address_and_path() {
    let mut cfg = make_config(CheckType::Http);
    cfg.url = "http://host//".to_string();
    match do_check(&cfg) {
        Ok(Probe::Http { url, timeout_secs }) => {
            assert_eq!(url, "http://host/health");
            assert_eq!(timeout_secs, 2);
        }
        other => panic!("unexpected probe: {:?}", other),
    }
    cfg.url = "///".to_string();
    cfg.check_path = "ping".to_string();
    match do_check(&cfg) {
        Ok(Probe::Http { url, .. }) => assert_eq!(url, "ping"),
        other => panic!("unexpected probe: {:?}", other),
    }
}

#[test]
fn a_tcp_probe_takes_the_address_as_it_is() {
    let mut cfg = make_config(CheckType::Tcp);
    cfg.url = "localhost:5432".to_string();
    match do_check(&cfg) {
        Ok(Probe::Tcp { address }) => assert_eq!(address, "localhost:5432"),
        other => panic!("unexpected probe: {:?}", other),
    }
}

#[test]
fn a_command_probe_hands_on_its_arguments() {
    let mut cfg = make_config(CheckType::Command);
    cfg.command = Some("/bin/probe".to_string());
    cfg.command_args = vec!["--verbose".to_string(), "x y".to_string()];
    match do_check(&cfg) {
        Ok(Probe::Command { program, args }) => {
            assert_eq!(program, "/bin/probe");
            assert_eq!(args, vec!["--verbose", "x y"]);
        }
        other => panic!("unexpected probe: {:?}", other),
    }
}

#[test]
fn a_good_status_is_a_success() {
    assert_eq!(judge(&Answer::HttpStatus(200)), Ok(()));
    assert_eq!(judge(&Answer::HttpStatus(299)), Ok(()));
    assert_eq!(judge(&Answer::TcpConnected), Ok(()));
    let cfg = make_config(CheckType::Http);
    let result = check_with(&cfg, Some(Answer::HttpStatus(204)));
    assert!(result.success);
    assert_eq!(result.error, None);
}

#[test]
fn a_bad_status_is_named() {
    assert_eq!(judge(&Answer::HttpStatus(404)), Err("HTTP 状态码: 404 Not Found".to_string()));
    assert_eq!(
        judge(&Answer::HttpStatus(503)),
        Err("HTTP 状态码: 503 Service Unavailable".to_string())
    );
    assert_eq!(
        judge(&Answer::HttpStatus(199)),
        Err("HTTP 状态码: 199 <unknown status code>".to_string())
    );
    assert_eq!(judge(&Answer::HttpStatus(300)), Err("HTTP 状态码: 300 Multiple Choices".to_string()));
    assert_eq!(describe_status("418 I'm a teapot"), "HTTP 状态码: 418 I'm a teapot");
}

#[test]
fn failures_are_named() {
    assert_eq!(judge(&Answer::NoClient("no tls".to_string())), Err("no tls".to_string()));
    assert_eq!(
        judge(&Answer::HttpFailed("no route".to_string())),
        Err("HTTP 请求失败: no route".to_string())
    );
    assert_eq!(
        judge(&Answer::CommandFailed("not found".to_string())),
        Err("执行命令失败: not found".to_string())
    );
}

#[test]
fn a_failed_command_tells_what_it_wrote() {
    let answer = Answer::CommandExited {
        success: false,
        code: Some(-12),
        stderr: b" \t broken pipe\n\n".to_vec(),
    };
    assert_eq!(judge(&answer), Err("命令退出码: -12, stderr: broken pipe".to_string()));

    let answer = Answer::CommandExited { success: false, code: None, stderr: vec![0x61, 0xff] };
    assert_eq!(judge(&answer), Err("命令退出码: -1, stderr: a\u{fffd}".to_string()));

    let answer = Answer::CommandExited { success: true, code: Some(0), stderr: b"warn".to_vec() };
    assert_eq!(judge(&answer), Ok(()));

    assert_eq!(
        describe_exit(Some(i32::MIN), "\u{3000}a b\u{2028}"),
        "命令退出码: -2147483648, stderr: a b"
    );
}

#[test]
fn only_white_space_is_trimmed() {
    assert_eq!(describe_exit(Some(2), ""), "命令退出码: 2, stderr: ");
    assert_eq!(describe_exit(Some(2), " \r\n\u{85} "), "命令退出码: 2, stderr: ");
    for code in 0..0x11_0000 {
        if let Some(c) = char::from_u32(code) {
            let text = [c, 'x', c, 'y', c].iter().collect::<String>();
            let said = describe_exit(None, &text);
            assert!(said.ends_with(&format!("stderr: {}", text.trim())), "{:x}", code);
        }
    }
}
