use wsl_memory_agent::network::{
    address_text, candidate_port, port_report, unreachable_text, PortCheckResult, PING,
};
use wsl_memory_agent::ordering::order_by_key;
use wsl_memory_agent::{
    diagnose_port_conflicts, ConnectionMode, ConnectionTarget, MultiPathConfig,
    MultiPathConnector, PortManager, RECOMMENDED_PORTS,
};

#[test]
fn test_port_availability() {
    let results = PortManager::check_ports(&[80, 443, 5555], &|_| true);
    assert_eq!(results.len(), 3);
}

#[test]
fn test_find_available_port() {
    let port = PortManager::find_available_port(&RECOMMENDED_PORTS, &|_| true);
    assert!(port.is_some());
}

#[test]
fn test_select_best_port() {
    let port = PortManager::select_best_port(&|_| true);
    assert!(port > 0);
}

#[test]
fn test_build_guest_targets() {
    let targets = MultiPathConnector::build_guest_targets(&[15555, 15556], "172.28.112.1");
    assert!(!targets.is_empty());
    assert_eq!(targets[0].host, "172.28.112.1");
    assert_eq!(targets[0].mode, ConnectionMode::Nat);
}

#[test]
fn targets_of_a_guest_in_full() {
    let targets = MultiPathConnector::build_guest_targets(&[15555, 15556], "172.20.0.1");
    let mut expected = vec![
        ("172.20.0.1".to_string(), 15555u16),
        ("172.20.0.1".to_string(), 15556),
    ];
    for k in 16..32 {
        if k != 20 {
            expected.push((format!("172.{}.0.1", k), 15555));
        }
    }
    assert_eq!(targets.len(), expected.len());
    for (i, t) in targets.iter().enumerate() {
        assert_eq!((t.host.clone(), t.port), expected[i]);
        assert_eq!(t.priority as usize, i);
        assert_eq!(t.mode, ConnectionMode::Nat);
        assert_eq!(t.socket_addr(), format!("{}:{}", expected[i].0, expected[i].1));
    }
    // a gateway outside of the usual networks takes none of them away
    assert_eq!(
        MultiPathConnector::build_guest_targets(&RECOMMENDED_PORTS, "10.0.0.1").len(),
        22
    );
}

#[test]
fn checked_ports_carry_their_errors() {
    let results = PortManager::check_ports(&[80, 443, 5555], &|p| p != 443);
    assert!(results[0].available && results[0].error.is_none());
    assert_eq!(results[0].port, 80);
    assert!(!results[1].available);
    assert_eq!(results[1].error.as_deref(), Some("端口 443 已被占用"));
    assert!(results[2].available);
}

#[test]
fn first_available_port_is_found() {
    let odd = |p: u16| p == 25555 || p == 5555;
    assert_eq!(
        PortManager::find_available_port(&RECOMMENDED_PORTS, &odd),
        Some(25555)
    );
    assert_eq!(
        PortManager::find_available_port(&RECOMMENDED_PORTS, &|_| false),
        None
    );
    assert_eq!(PortManager::find_available_port(&[], &|_| true), None);
}

#[test]
fn random_ports_are_the_last_resort() {
    let not_recommended = |p: u16| !RECOMMENDED_PORTS.contains(&p);
    let mut seen: Vec<u16> = Vec::new();
    for _ in 0..50 {
        let port = PortManager::select_best_port(&not_recommended);
        assert!((10000..65535).contains(&port));
        if !seen.contains(&port) {
            seen.push(port);
        }
    }
    assert!(seen.len() > 10, "the ports are drawn at random");
    assert_eq!(PortManager::select_best_port(&|_| false), 15555);
    assert_eq!(PortManager::select_best_port(&|p| p == 35555), 35555);
}

#[test]
fn draws_stand_for_ports() {
    assert_eq!(candidate_port(0), 10000);
    assert_eq!(candidate_port(55534), 65534);
    assert_eq!(candidate_port(55535), 10000);
    assert_eq!(candidate_port(65535), 20000);
    assert_eq!(
        PortManager::fall_back_port(&[1, 2, 3], &|p| p > 10001),
        10002
    );
    assert_eq!(PortManager::fall_back_port(&[1, 2, 3], &|_| false), 15555);
}

#[test]
fn report_on_ports() {
    let report = diagnose_port_conflicts(&|p| p == 25555 || p == 5555);
    let expected = "=== 端口可用性诊断 ===\n\n\
        端口 15555: ✗ 占用\n  原因: 端口 15555 已被占用\n\
        端口 15556: ✗ 占用\n  原因: 端口 15556 已被占用\n\
        端口 25555: ✓ 可用\n\
        端口 35555: ✗ 占用\n  原因: 端口 35555 已被占用\n\
        端口 45555: ✗ 占用\n  原因: 端口 45555 已被占用\n\
        端口 5555: ✓ 可用\n\
        \n可用端口: 2/6\n\
        \n推荐使用端口: 25555\n";
    assert_eq!(report, expected);
    let none = diagnose_port_conflicts(&|_| false);
    assert!(none.ends_with(
        "\n可用端口: 0/6\n\n⚠️  警告: 所有推荐端口都被占用！\n建议: 使用自动端口选择功能\n推荐使用端口: 15555\n"
    ));
}

#[test]
fn report_of_given_results() {
    let results = vec![PortCheckResult {
        port: 80,
        available: true,
        error: None,
    }];
    assert_eq!(
        port_report(&results, 80),
        "=== 端口可用性诊断 ===\n\n端口 80: ✓ 可用\n\n可用端口: 1/1\n\n推荐使用端口: 80\n"
    );
}

fn target(host: &str, priority: u8) -> ConnectionTarget {
    ConnectionTarget {
        host: host.to_string(),
        port: 15555,
        mode: ConnectionMode::Direct,
        priority,
    }
}

#[test]
fn targets_are_tried_by_priority_and_again() {
    let connector = MultiPathConnector::new(MultiPathConfig {
        targets: vec![target("b", 7), target("a", 1), target("c", 7)],
        max_retries: 2,
        ..MultiPathConfig::default()
    });
    let mut plan = connector.plan();
    let mut tried: Vec<(String, bool)> = Vec::new();
    while let Some(i) = plan.current() {
        let host = connector.config().targets[i].host.clone();
        let pause = plan.fail();
        tried.push((host, pause));
    }
    let expected = vec![
        ("a".to_string(), true),
        ("a".to_string(), false),
        ("b".to_string(), true),
        ("b".to_string(), false),
        ("c".to_string(), true),
        ("c".to_string(), false),
    ];
    assert_eq!(tried, expected);
    assert!(!plan.fail());
    assert_eq!(plan.current(), None);
    assert_eq!(unreachable_text(), "所有连接目标都失败");
}

#[test]
fn nothing_is_tried_without_targets_or_retries() {
    let none = MultiPathConnector::new(MultiPathConfig::default());
    assert_eq!(none.plan().current(), None);
    let never = MultiPathConnector::new(MultiPathConfig {
        targets: vec![target("a", 1)],
        max_retries: 0,
        ..MultiPathConfig::default()
    });
    assert_eq!(never.plan().current(), None);
    let config = MultiPathConfig::default();
    assert_eq!(config.connect_timeout.as_nanos(), 3_000_000_000);
    assert_eq!(config.max_retries, 3);
}

#[test]
fn udp_targets_are_the_valid_addresses() {
    let connector = MultiPathConnector::new_udp(&[1, 2, 3], "172.20.0.1", &|a: &String| {
        !a.ends_with(":2")
    });
    assert_eq!(
        connector.udp_targets(),
        &vec!["172.20.0.1:1".to_string(), "172.20.0.1:3".to_string()]
    );
    assert_eq!(PING, r#"{"msg_type":"ping"}"#);
}

#[test]
fn addresses_and_orders() {
    assert_eq!(address_text("::1", 80), "::1:80");
    assert_eq!(order_by_key(&[3, 1, 2, 1, -5]), vec![4, 1, 3, 2, 0]);
    assert_eq!(order_by_key(&[]), Vec::<usize>::new());
}
