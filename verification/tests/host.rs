use wsl_memory_agent::binary::Single;
use wsl_memory_agent::elastic_reclaim::GB;
use wsl_memory_agent::host_config::{
    address_port, auto_port, config_dir, config_path, default_token_path, ensure_token,
    existing_token, expected_token, generate_token, join, load_or_create, select_available_port,
    token_of, HostConfig, HostOptions, Platform, CHARSET,
};
use wsl_memory_agent::protocol::{
    build_action_command, generate_cmd_id, process_elastic_metrics, system_metrics, CommandMsg,
    ConnectionState, GuestMetricsMsg, HostInfo,
};
use wsl_memory_agent::server::{
    classify, message_kind, tcp_step, token_accepted, validate_token, Incoming, Peer, TcpStep,
    UdpServer, UdpStep, PONG,
};
use wsl_memory_agent::time::Timestamp;
use wsl_memory_agent::windows::{
    add_rule, check_wslconfig, configure_service_recovery, get_wslconfig_memory_limit,
    remove_rule, vmmem_rss, Process,
};
use wsl_memory_agent::{PressureLevel, ReclamationAction, ReclamationConfig};

fn windows() -> Platform {
    Platform::Windows { appdata: None }
}

/// A stand-in for the system, which marks what it was asked.
fn ask(base: &String, part: &String) -> String {
    format!("<{}|{}>", base, part)
}

fn unix() -> Platform {
    Platform::Unix { home: None }
}

/// The configuration that a YAML document gives, where it says something.
fn read_config(yaml: &str) -> HostConfig {
    let value: serde_yml::Value = serde_yml::from_str(yaml).expect("valid yaml host config");
    let mut cfg = HostConfig::default_at(&windows());
    if let Some(s) = value.get("listen_ip").and_then(|v| v.as_str()) {
        cfg.listen_ip = s.to_string();
    }
    if let Some(n) = value.get("listen_port").and_then(|v| v.as_u64()) {
        cfg.listen_port = n as u16;
    }
    if let Some(s) = value.get("listen_addr").and_then(|v| v.as_str()) {
        cfg.listen_addr = Some(s.to_string());
    }
    if let Some(s) = value.get("token_path").and_then(|v| v.as_str()) {
        cfg.token_path = s.to_string();
    }
    cfg
}

#[test]
fn parses_yaml_host_config() {
    let yaml = r#"
listen_addr: "0.0.0.0:15555"
token_path: 'C:\Users\Public\wsl_agent_token'
"#;
    let cfg = read_config(yaml);
    assert_eq!(cfg.effective_listen_addr(), "0.0.0.0:15555");
    assert_eq!(cfg.token_path, r"C:\Users\Public\wsl_agent_token");
}

#[test]
fn parses_split_ip_port_config() {
    let yaml = r#"
listen_ip: "127.0.0.1"
listen_port: 15556
token_path: 'C:\Users\Public\wsl_agent_token'
"#;
    let cfg = read_config(yaml);
    assert_eq!(cfg.effective_listen_addr(), "127.0.0.1:15556");
}

#[test]
fn listen_ports_of_addresses() {
    let mut cfg = HostConfig::default_at(&windows());
    assert_eq!(cfg.effective_listen_port(), Some(15555));
    cfg.listen_port = 0;
    assert_eq!(cfg.effective_listen_port(), Some(0));
    cfg.listen_addr = Some("[::1]:25555".to_string());
    assert_eq!(cfg.effective_listen_addr(), "[::1]:25555");
    assert_eq!(cfg.effective_listen_port(), Some(25555));
    for (addr, port) in [
        ("localhost", None),
        ("localhost:", None),
        ("localhost:http", None),
        (":80", Some(80)),
        ("a:b:+7", Some(7)),
        ("h:65535", Some(65535)),
        ("h:65536", None),
        ("h:99999999999999999999", None),
        ("h:-1", None),
        ("", None),
    ] {
        assert_eq!(address_port(addr), port, "{}", addr);
    }
}

#[test]
fn paths_of_the_host() {
    assert_eq!(config_dir(&windows(), &ask), r"C:\ProgramData\WSLMemoryAgent");
    assert_eq!(
        config_path(
            &Platform::Windows {
                appdata: Some(r"D:\Data\".to_string())
            },
            &ask
        ),
        r"D:\Data\WSLMemoryAgent\config.yaml"
    );
    assert_eq!(
        default_token_path(&windows()),
        r"C:\Users\Public\wsl_agent_token"
    );
    assert_eq!(config_dir(&unix(), &ask), "/tmp/.config/wsl-memory-agent");
    let home = Platform::Unix {
        home: Some("/root".to_string()),
    };
    assert_eq!(
        config_path(&home, &ask),
        "/root/.config/wsl-memory-agent/config.yaml"
    );
    assert_eq!(
        default_token_path(&home),
        "/root/.config/wsl-memory-agent/token"
    );
}

#[test]
fn joints_of_paths() {
    assert_eq!(join(false, "", "a", &ask), "a");
    assert_eq!(join(false, "/", "a", &ask), "/a");
    assert_eq!(join(false, "C:", "a", &ask), "C:/a");
    assert_eq!(join(false, r"x\", "a", &ask), r"x\/a");
    assert_eq!(join(true, "C:", "a", &ask), "C:a");
    assert_eq!(join(true, "1:", "a", &ask), r"1:\a");
    assert_eq!(join(true, "x/", "a", &ask), "x/a");
    assert_eq!(join(true, r"x\", "a", &ask), r"x\a");
    assert_eq!(join(true, "", "a", &ask), "a");
    // what stands below a verbatim path is asked of the system
    assert_eq!(join(true, r"\\?\C:\x\..", "a", &ask), r"<\\?\C:\x\..|a>");
    assert_eq!(join(false, r"\\?\C:", "a", &ask), r"\\?\C:/a");
    let verbatim = Platform::Windows {
        appdata: Some(r"\\?\C:\d".to_string()),
    };
    assert_eq!(config_dir(&verbatim, &ask), r"<\\?\C:\d|WSLMemoryAgent>");
    let plainly = |base: &String, part: &String| format!(r"{}\{}", base, part);
    assert_eq!(
        config_path(&verbatim, &plainly),
        r"\\?\C:\d\WSLMemoryAgent\config.yaml"
    );
}

#[test]
fn later_starts_find_the_configuration() {
    let (first, new) = load_or_create(None, &windows(), &|p| p == 25555);
    assert!(new);
    assert_eq!(first.listen_port, 25555);
    assert_eq!(first.token_path, r"C:\Users\Public\wsl_agent_token");
    let (second, new) = load_or_create(Some(first), &unix(), &|p| p == 15555);
    assert!(!new);
    assert_eq!(second.listen_port, 25555);
    assert_eq!(second.token_path, r"C:\Users\Public\wsl_agent_token");
    let (fallback, _) = load_or_create(None, &windows(), &|_| false);
    assert_eq!(fallback.listen_port, 15555);

    assert_eq!(auto_port(&None, true, &|p| p == 45555), Some(45555));
    assert_eq!(auto_port(&None, false, &|_| true), None);
    assert_eq!(auto_port(&Some(second), true, &|_| true), None);
}

#[test]
fn default_host_config() {
    let cfg = HostConfig::default_at(&windows());
    assert_eq!(cfg.listen_ip, "0.0.0.0");
    assert_eq!(cfg.listen_port, 15555);
    assert!(cfg.listen_addr.is_none());
    assert!(!cfg.token_path_locked);
    assert_eq!(cfg.remote_ips, vec!["127.0.0.1", "::1", "172.16.0.0/12"]);
    assert_eq!(cfg.reclamation.baseline_gap, 2 * GB);
    assert_eq!(cfg.logging.level, "info");
}

#[test]
fn new_config_takes_the_first_available_port() {
    assert_eq!(select_available_port(&|p| p == 35555 || p == 5555), 35555);
    assert_eq!(select_available_port(&|_| false), 15555);
    let cfg = HostConfig::create(&windows(), &|p| p == 15556);
    assert_eq!(cfg.listen_port, 15556);
    assert_eq!(cfg.effective_listen_addr(), "0.0.0.0:15556");
}

#[test]
fn command_line_of_the_host() {
    let cfg = HostConfig::default_at(&windows());
    let silent = HostOptions {
        listen: "0.0.0.0:15555".to_string(),
        token: None,
        port: None,
    };
    let same = cfg.clone().merged_with_cli(&silent);
    assert_eq!(same.effective_listen_addr(), "0.0.0.0:15555");
    assert!(same.listen_addr.is_none());
    assert!(!same.token_path_locked);
    let other = cfg.clone().merged_with_cli(&HostOptions {
        listen: "127.0.0.1:80".to_string(),
        token: Some("/t".to_string()),
        port: None,
    });
    assert_eq!(other.effective_listen_addr(), "127.0.0.1:80");
    assert_eq!(other.token_path, "/t");
    assert!(other.token_path_locked);
    let auto = cfg.clone().merged_with_cli(&HostOptions {
        port: Some(12345),
        ..silent
    });
    assert_eq!(auto.effective_listen_addr(), "0.0.0.0:12345");

    let mut read = HostConfig::default_at(&windows());
    read.token_path = "/new".to_string();
    read.listen_port = 1;
    let mut free = same;
    free.reload(&read);
    assert_eq!(free.token_path, "/new");
    assert_eq!(free.listen_port, 15555);
    let mut locked = other;
    locked.reload(&read);
    assert_eq!(locked.token_path, "/t");
}

#[test]
fn tokens() {
    let a = generate_token();
    let b = generate_token();
    assert_eq!(a.chars().count(), 32);
    assert!(a.chars().all(|c| CHARSET.contains(c)));
    assert!(a != b, "tokens are drawn at random");
    assert_eq!(token_of(&vec![0, 25, 26, 51, 52, 61]), "AZaz09");
    assert_eq!(existing_token(" \tabc\r\n"), Some("abc".to_string()));
    assert_eq!(existing_token(" \n"), None);
    assert_eq!(
        ensure_token(&Some("abc\n".to_string())),
        ("abc".to_string(), false)
    );
    for content in [None, Some("  ".to_string())] {
        let (token, new) = ensure_token(&content);
        assert!(new);
        assert_eq!(token.len(), 32);
    }
    assert_eq!(expected_token(&None), None);
    assert_eq!(
        expected_token(&Some(" x ".to_string())),
        Some("x".to_string())
    );
}

#[test]
fn firewall_rules() {
    let calls = add_rule(&[15555, 80], &vec!["10.0.0.1".to_string(), "::1".to_string()]);
    assert_eq!(
        calls,
        vec![
            vec![
                "advfirewall",
                "firewall",
                "add",
                "rule",
                "name=WSL Memory Agent TCP",
                "dir=in",
                "action=allow",
                "protocol=TCP",
                "localport=15555,80",
                "remoteip=10.0.0.1,::1",
            ],
            vec![
                "advfirewall",
                "firewall",
                "add",
                "rule",
                "name=WSL Memory Agent UDP",
                "dir=in",
                "action=allow",
                "protocol=UDP",
                "localport=15555,80",
                "remoteip=10.0.0.1,::1",
            ],
        ]
    );
    let calls = add_rule(&[], &Vec::new());
    assert_eq!(calls[0][8], "localport=");
    assert_eq!(calls[0][9], "remoteip=127.0.0.1,::1,172.16.0.0/12");
    assert_eq!(
        remove_rule(),
        vec![
            vec!["advfirewall", "firewall", "delete", "rule", "name=WSL Memory Agent TCP"],
            vec!["advfirewall", "firewall", "delete", "rule", "name=WSL Memory Agent UDP"],
        ]
    );
}

#[test]
fn service_recovery() {
    let calls = configure_service_recovery();
    let arguments: Vec<Vec<String>> = calls.iter().map(|c| c.arguments.clone()).collect();
    assert_eq!(
        arguments,
        vec![
            vec![
                "failure",
                "WSLMemoryHost",
                "reset=",
                "86400",
                "actions=",
                "restart/5000/restart/30000/restart/60000",
            ],
            vec!["failureflag", "WSLMemoryHost", "1"],
            vec!["config", "WSLMemoryHost", "start=", "delayed-auto"],
        ]
    );
    assert_eq!(calls[1].complaint, "failed to enable service failure actions: ");
}

#[test]
fn memory_limit_of_wslconfig() {
    for (text, limit) in [
        ("[wsl2]\nmemory=8GB\n", Some(8 * GB)),
        ("[wsl2]\r\n  memory = 4 gb \r\nmemory=1GB", Some(4 * GB)),
        ("memory=512MB", Some(512 * 1024 * 1024)),
        ("memory=512mb", Some(512 * 1024 * 1024)),
        ("memory=eightGB\nmemory=8GB", None),
        ("memory=8\nmemory=2GB", Some(2 * GB)),
        ("memory=8Gb", None),
        ("memory  =8GB", None),
        ("#memory=8GB", None),
        ("memory=8GB=9GB", Some(8 * GB)),
        ("memory=GB", None),
        ("", None),
    ] {
        assert!(check_wslconfig(text));
        assert_eq!(get_wslconfig_memory_limit(text), limit, "{}", text);
    }
    assert!(check_wslconfig("memory=17179869183GB"));
    assert!(!check_wslconfig("memory=17179869184GB"));
}

#[test]
fn size_of_vmmem() {
    let p = |name: &str, memory: u64| Process {
        name: name.to_string(),
        memory,
    };
    assert_eq!(vmmem_rss(&vec![p("a", 1), p("VmMem", 2), p("vmmem", 3)]), 2);
    assert_eq!(vmmem_rss(&vec![p("vmmemWSL", 1), p("wmmem", 5)]), 0);
    assert_eq!(vmmem_rss(&Vec::new()), 0);
}

fn single(x: f32) -> Option<Single> {
    Some(Single::from_bits(x.to_bits()))
}

fn report() -> GuestMetricsMsg {
    GuestMetricsMsg {
        distro: Some("Ubuntu".to_string()),
        resident: 8 * GB,
        file_cache: 7 * GB,
        mem_total: Some(16 * GB),
        mem_available: Some(8 * GB),
        cpu_percent: single(1.0),
        io_rate: single(0.5),
    }
}

fn host_info(gap: u64, used_pct: u64) -> HostInfo {
    HostInfo {
        vmmem_rss: 8 * GB + gap,
        memory_total: 32 * GB,
        memory_avail: 32 * GB / 100 * (100 - used_pct),
        wslconfig_memory_limit: None,
    }
}

fn at(secs: u64) -> Timestamp {
    Timestamp::from_nanos(secs as u128 * 1_000_000_000)
}

#[test]
fn samples_of_reports() {
    let s = system_metrics(&report(), &host_info(GB, 50));
    assert_eq!(s.vmmem_rss, 9 * GB);
    assert_eq!(s.gap, GB);
    assert_eq!(s.guest_resident, 8 * GB);
    assert_eq!(s.guest_file_cache, 7 * GB);
    assert_eq!(s.guest_mem_total, 16 * GB);
    assert_eq!(s.guest_mem_available, 8 * GB);
    assert_eq!(f32::from_bits(s.guest_cpu_percent.to_bits()), 1.0f32 / 100.0);
    assert_eq!(f32::from_bits(s.guest_io_rate.to_bits()), 0.5);
    let bare = GuestMetricsMsg {
        distro: None,
        resident: 20 * GB,
        file_cache: 0,
        mem_total: None,
        mem_available: None,
        cpu_percent: None,
        io_rate: None,
    };
    let s = system_metrics(&bare, &host_info(GB, 50));
    assert_eq!(s.gap, 0);
    assert_eq!(s.guest_mem_total, 0);
    assert_eq!(f32::from_bits(s.guest_cpu_percent.to_bits()), 0.0);
    assert_eq!(f32::from_bits(s.guest_io_rate.to_bits()), 0.0);
}

#[test]
fn commands_of_actions() {
    assert!(
        build_action_command(ReclamationAction::NoAction, "d", PressureLevel::Mild, 1).is_none()
    );
    let c = build_action_command(
        ReclamationAction::GradualReclaim { bytes: 7 },
        "d",
        PressureLevel::Moderate,
        17,
    )
    .expect("a command");
    assert_eq!(c.msg_type, "command");
    assert_eq!(c.cmd_id, "17");
    assert_eq!(c.action, "reclaim");
    assert_eq!(c.bytes, Some(7));
    assert_eq!(c.level, None);
    assert_eq!(c.reason, "elastic reclaim: d");
    assert_eq!(c.pressure_level.as_deref(), Some("Moderate"));
    let c = build_action_command(ReclamationAction::Compact, "d", PressureLevel::Critical, 0)
        .expect("a command");
    assert_eq!(c.action, "compact");
    assert_eq!(c.bytes, None);
    assert_eq!(c.reason, "memory compaction: d");
    assert_eq!(c.pressure_level.as_deref(), Some("Heavy"));
    let c = build_action_command(
        ReclamationAction::DropCaches { level: 3 },
        "d",
        PressureLevel::Heavy,
        0,
    )
    .expect("a command");
    assert_eq!(c.action, "drop_caches");
    assert_eq!(c.level, Some(3));
    assert_eq!(c.reason, "CRITICAL pressure: d");
    assert_eq!(c.pressure_level.as_deref(), Some("Critical"));
    assert_eq!(generate_cmd_id(u128::MAX), u128::MAX.to_string());
    assert!(generate_cmd_id(10) != generate_cmd_id(1));
}

#[test]
fn reports_lead_to_commands() {
    let mut state = ConnectionState::new(ReclamationConfig::default());
    assert_eq!(state.distro_name(), "unknown");
    let cmd = process_elastic_metrics(&report(), &mut state, &host_info(4 * GB, 82), at(5), 99);
    assert_eq!(state.distro_name(), "Ubuntu");
    let cmd: CommandMsg = cmd.expect("a command");
    assert_eq!(cmd.action, "reclaim");
    assert_eq!(cmd.cmd_id, "99");
    assert_eq!(cmd.reason, format!("elastic reclaim: {}", state.get_diagnostics()));
    assert_eq!(cmd.pressure_level.as_deref(), Some("Moderate"));
    let anonymous = GuestMetricsMsg {
        distro: None,
        ..report()
    };
    let cmd = process_elastic_metrics(&anonymous, &mut state, &host_info(0, 10), at(6), 100);
    assert!(cmd.is_none());
    assert_eq!(state.distro_name(), "unknown");
}

#[test]
fn messages_are_told_apart() {
    let token = Some("s3".to_string());
    for (message, kind) in [
        (r#"{"msg_type":"ping"}"#, Incoming::Ping),
        (r#"{"msg_type":"result","cmd_id":"1"}"#, Incoming::Outcome),
        (r#"{"msg_type":"metrics","token":"s3"}"#, Incoming::Metrics),
        (r#"{"msg_type":"metrics","token":"s4"}"#, Incoming::Refused),
        (r#"{"msg_type":"metrics","token":3}"#, Incoming::Refused),
        (r#"{"msg_type":"metrics"}"#, Incoming::Refused),
        (r#"{"msg_type":"hello","token":"s3"}"#, Incoming::Ignored),
        (r#"{"msg_type":1}"#, Incoming::Ignored),
        (r#"["msg_type","ping"]"#, Incoming::Ignored),
        (r#"{"msg_type":"ping""#, Incoming::Ignored),
        ("", Incoming::Ignored),
    ] {
        assert_eq!(classify(message.as_bytes(), &token), kind, "{}", message);
    }
    assert_eq!(classify(b"{\"msg_type\":\"p\xffng\"}", &token), Incoming::Ignored);
    assert_eq!(classify(br#"{"msg_type":"metrics"}"#, &None), Incoming::Metrics);
    assert_eq!(
        message_kind(&Some("metrics".to_string()), false),
        Incoming::Refused
    );
    assert_eq!(message_kind(&None, true), Incoming::Ignored);
    assert!(token_accepted(&None, &None));
    assert!(!token_accepted(&None, &token));
    assert!(token_accepted(&token, &token));
    let value: serde_json::Value =
        serde_json::from_str(r#"{"token":"s3"}"#).expect("valid json");
    assert!(validate_token(&value, &token));
    assert!(!validate_token(&value, &Some("S3".to_string())));
}

#[test]
fn tcp_connections() {
    let token = Some("t".to_string());
    assert_eq!(
        tcp_step(br#"{"msg_type":"metrics","token":"t"}"#, &token),
        TcpStep::Measure
    );
    assert_eq!(
        tcp_step(br#"{"msg_type":"metrics","token":"u"}"#, &token),
        TcpStep::Close
    );
    assert_eq!(tcp_step(br#"{"msg_type":"result"}"#, &token), TcpStep::Continue);
    assert_eq!(tcp_step(br#"{"msg_type":"ping"}"#, &token), TcpStep::Continue);
    assert_eq!(tcp_step(b"garbage", &token), TcpStep::Continue);
}

#[test]
fn udp_commands_are_sent_until_their_result() {
    let token = Some("t".to_string());
    let metrics = br#"{"msg_type":"metrics","token":"t"}"#;
    let peer = Peer::V4 {
        ip: 0x7f00_0001,
        port: 4000,
    };
    let other = Peer::V6 {
        ip: 1,
        port: 4000,
        flow: 0,
        scope: 0,
    };
    let mut server = UdpServer::new(ReclamationConfig::default());
    assert_eq!(
        server.receive(peer, br#"{"msg_type":"ping"}"#, &token),
        UdpStep::Pong
    );
    assert_eq!(PONG, r#"{"msg_type":"pong"}"#);
    assert_eq!(server.receive(peer, metrics, &token), UdpStep::Measure);
    let sent = server.measure(peer, &report(), &host_info(4 * GB, 82), at(0), 1);
    assert!(sent.resent.is_none());
    assert_eq!(sent.issued.expect("a command").cmd_id, "1");
    // still cooling down, and still without a result
    let sent = server.measure(peer, &report(), &host_info(4 * GB, 82), at(4), 2);
    assert_eq!(sent.resent.expect("the same command").cmd_id, "1");
    assert!(sent.issued.is_none());
    // another guest is another matter
    let sent = server.measure(other, &report(), &host_info(4 * GB, 82), at(5), 3);
    assert!(sent.resent.is_none());
    assert_eq!(sent.issued.expect("a command").cmd_id, "3");
    // a refused report settles nothing
    assert_eq!(
        server.receive(peer, br#"{"msg_type":"metrics","token":"x"}"#, &token),
        UdpStep::Nothing
    );
    let sent = server.measure(peer, &report(), &host_info(4 * GB, 82), at(12), 4);
    assert_eq!(sent.resent.expect("the same command").cmd_id, "1");
    assert_eq!(sent.issued.expect("a new command").cmd_id, "4");
    assert_eq!(
        server.receive(peer, br#"{"msg_type":"result"}"#, &token),
        UdpStep::Nothing
    );
    let sent = server.measure(peer, &report(), &host_info(4 * GB, 82), at(13), 5);
    assert!(sent.resent.is_none());
    assert!(sent.issued.is_none());
    let sent = server.measure(other, &report(), &host_info(4 * GB, 82), at(14), 6);
    assert_eq!(sent.resent.expect("the same command").cmd_id, "3");
    server.settle(Peer::V4 { ip: 9, port: 9 });
    server.settle(other);
    let sent = server.measure(other, &report(), &host_info(0, 10), at(60), 7);
    assert!(sent.resent.is_none());
}
