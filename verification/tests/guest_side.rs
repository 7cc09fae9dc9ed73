use wsl_memory_agent::binary::Single;
use wsl_memory_agent::cgroup::{
    detect_memory_reclaim_path, find_cgroup, memory_reclaim_path, probe_capabilities,
};
use wsl_memory_agent::commands::{
    begin, begin_reclaim, result_message, CommandCache, Event, GuestCommand, Outcome, Phase,
    ReclaimCapabilities, Step,
};
use wsl_memory_agent::guest::{
    after_read, collect_metrics, current_runtime, discover_gateway_ip, is_automatic,
    resolve_host_addr, runtime_config, systemd_unit, AddressError, GuestConfig, GuestOptions,
    ReadStep, Route, TokenError,
};
use wsl_memory_agent::procfs::{
    check_meminfo, check_proc_stat, count_sectors, local_metrics, parse_meminfo, parse_proc_stat,
    CpuSampler, IoSampler,
};

fn caps(path: Option<&str>, compact: bool, drop_caches: bool) -> ReclaimCapabilities {
    ReclaimCapabilities {
        memory_reclaim: path.map(|p| p.to_string()),
        compact,
        drop_caches,
    }
}

fn command(action: &str, bytes: Option<u64>, level: Option<u8>) -> GuestCommand {
    GuestCommand {
        cmd_id: "7".to_string(),
        action: action.to_string(),
        bytes,
        level,
    }
}

/// What is done, step by step, and what comes of it.
fn play(
    phase: Option<Phase>,
    caps: &ReclaimCapabilities,
    events: Vec<Event>,
) -> (Vec<String>, Outcome) {
    let mut phase = phase.expect("a command that is executed");
    let mut steps: Vec<String> = Vec::new();
    let mut i = 0;
    loop {
        match phase.step() {
            Step::Measure => steps.push("measure".to_string()),
            Step::Write { path, content } => steps.push(format!("{}>{}", content, path)),
            Step::Pause => steps.push("pause".to_string()),
            Step::Shell { script } => steps.push(format!("sh {}", script)),
            Step::Done => {
                let outcome = phase.outcome().expect("an outcome").clone();
                return (steps, outcome);
            }
        }
        phase = phase.next(caps, &events[i]);
        i += 1;
    }
}

fn measured(cache: u64) -> Event {
    Event::Measured { cache }
}

fn failed() -> Event {
    Event::Failed {
        error: "no".to_string(),
    }
}

#[test]
fn reclaim_through_the_cgroup() {
    let caps = caps(Some("/cg"), true, true);
    let (steps, outcome) = play(
        begin(&command("reclaim", Some(1000), None), false, &caps),
        &caps,
        vec![measured(500), Event::Taken, Event::Taken, measured(200)],
    );
    assert_eq!(steps, vec!["measure", "1000>/cg", "pause", "measure"]);
    assert!(outcome.ok);
    assert_eq!(outcome.freed, Some(300));
    assert_eq!(outcome.note, "reclaim executed");
}

#[test]
fn reclaim_falls_back_to_compaction() {
    for (path, first) in [(Some("/cg"), true), (None, false)] {
        let caps = caps(path, true, false);
        let mut events = vec![measured(500)];
        if first {
            events.push(failed());
        }
        events.extend(vec![failed(), Event::Taken, measured(700)]);
        let (steps, outcome) = play(Some(begin_reclaim(8)), &caps, events);
        assert_eq!(
            steps[steps.len() - 3..],
            ["1>/proc/sys/vm/compact_memory", "pause", "measure"]
        );
        assert!(outcome.ok);
        assert_eq!(outcome.freed, Some(0));
    }
}

#[test]
fn reclaim_without_any_interface() {
    for path in [None, Some("/cg")] {
        let caps = caps(path, false, true);
        let (_, outcome) = play(
            begin(&command("reclaim", Some(1), None), true, &caps),
            &caps,
            vec![measured(1), failed()],
        );
        assert!(!outcome.ok);
        assert_eq!(outcome.freed, None);
        assert_eq!(
            outcome.note,
            "no reclamation interface available: memory.reclaim requires cgroup v2 + \
             kernel >= 5.19; compact_memory requires CONFIG_COMPACTION=y"
        );
    }
}

#[test]
fn compaction() {
    let there = caps(None, true, false);
    let (steps, outcome) = play(
        begin(&command("compact", None, None), false, &there),
        &there,
        vec![Event::Taken, Event::Taken],
    );
    assert_eq!(steps, vec!["1>/proc/sys/vm/compact_memory", "pause"]);
    assert!(outcome.ok && outcome.freed.is_none());
    assert_eq!(outcome.note, "compact executed");
    let (_, outcome) = play(
        begin(&command("compact", None, None), false, &there),
        &there,
        vec![failed()],
    );
    assert!(!outcome.ok);
    assert_eq!(outcome.note, "compact write failed: no");
    let missing = caps(Some("/cg"), false, true);
    let (steps, outcome) = play(
        begin(&command("compact", None, None), false, &missing),
        &missing,
        Vec::new(),
    );
    assert!(steps.is_empty());
    assert_eq!(
        outcome.note,
        "compact_memory unavailable (CONFIG_COMPACTION not enabled)"
    );
}

#[test]
fn dropping_of_caches() {
    let there = caps(None, false, true);
    let (steps, outcome) = play(
        begin(&command("drop_caches", None, Some(1)), true, &there),
        &there,
        vec![Event::Taken],
    );
    assert_eq!(steps, vec!["sh sync && echo 1 > /proc/sys/vm/drop_caches"]);
    assert!(outcome.ok);
    assert_eq!(outcome.note, "drop_caches executed");
    let (steps, outcome) = play(
        begin(&command("drop_caches", None, None), true, &there),
        &there,
        vec![failed()],
    );
    assert_eq!(steps, vec!["sh sync && echo 3 > /proc/sys/vm/drop_caches"]);
    assert!(!outcome.ok);
    assert_eq!(outcome.note, "drop_caches failed: no");
    let (steps, outcome) = play(
        begin(&command("drop_caches", None, Some(3)), false, &there),
        &there,
        Vec::new(),
    );
    assert!(steps.is_empty());
    assert_eq!(outcome.note, "drop_caches not allowed (use --allow-drop)");
    let missing = caps(None, true, false);
    let (_, outcome) = play(
        begin(&command("drop_caches", None, Some(3)), true, &missing),
        &missing,
        Vec::new(),
    );
    assert_eq!(outcome.note, "drop_caches unavailable on this kernel");
}

#[test]
fn commands_that_are_not_answered() {
    let caps = caps(Some("/cg"), true, true);
    assert!(begin(&command("reclaim", None, None), true, &caps).is_none());
    assert!(begin(&command("reboot", Some(1), Some(1)), true, &caps).is_none());
    assert!(begin(&command("", None, None), true, &caps).is_none());
}

#[test]
fn results_in_words() {
    let outcome = Outcome {
        ok: true,
        freed: Some(5),
        note: "n".to_string(),
    };
    let m = result_message("9", &outcome);
    assert_eq!(m.msg_type, "result");
    assert_eq!(m.cmd_id, "9");
    assert_eq!(m.status, "ok");
    assert_eq!(m.freed_bytes, Some(5));
    assert_eq!(m.note, "n");
    let outcome = Outcome {
        ok: false,
        ..outcome
    };
    assert_eq!(result_message("9", &outcome).status, "error");
}

#[test]
fn answers_are_remembered() {
    let mut cache = CommandCache::new();
    let id = |n: usize| format!("c{}", n);
    assert_eq!(cache.lookup(&id(0)), None);
    for n in 0..32 {
        cache.store(id(n), vec![n as u8]);
    }
    assert_eq!(cache.lookup(&id(0)), Some(vec![0]));
    assert_eq!(cache.lookup(&id(31)), Some(vec![31]));
    cache.store(id(32), vec![32]);
    assert_eq!(cache.lookup(&id(0)), None);
    assert_eq!(cache.lookup(&id(1)), Some(vec![1]));
    assert_eq!(cache.lookup(&id(32)), Some(vec![32]));
    assert_eq!(cache.conclude(&id(33), None), None);
    assert_eq!(cache.lookup(&id(33)), None);
    assert_eq!(cache.lookup(&id(1)), Some(vec![1]));
    assert_eq!(cache.conclude(&id(33), Some(vec![33])), Some(vec![33]));
    assert_eq!(cache.lookup(&id(33)), Some(vec![33]));
    assert_eq!(cache.lookup(&id(1)), None);
    // of two answers to one command the older one is given
    cache.store(id(32), vec![99]);
    assert_eq!(cache.lookup(&id(32)), Some(vec![32]));
}

#[test]
fn own_cgroup_and_its_path() {
    for (content, cgroup, path) in [
        (None, "/", "/sys/fs/cgroup/memory.reclaim"),
        (Some("0::/\n"), "/", "/sys/fs/cgroup/memory.reclaim"),
        (
            Some("1:cpu:/x\n0::/user.slice/a.scope\n0::/b\n"),
            "/user.slice/a.scope",
            "/sys/fs/cgroup/user.slice/a.scope/memory.reclaim",
        ),
        (
            Some("0::0:: /docker/x/ \r\n"),
            "/docker/x/",
            "/sys/fs/cgroup/docker/x/memory.reclaim",
        ),
        (Some("12:memory:/y"), "/", "/sys/fs/cgroup/memory.reclaim"),
        (Some(""), "/", "/sys/fs/cgroup/memory.reclaim"),
        (Some("0::"), "", "/sys/fs/cgroup/memory.reclaim"),
    ] {
        let found = find_cgroup(&content.map(|c: &str| c.to_string()));
        assert_eq!(found, cgroup);
        assert_eq!(memory_reclaim_path(&found), path);
    }
}

#[test]
fn capabilities_of_a_kernel() {
    let content = Some("0::/a\n".to_string());
    let own = "/sys/fs/cgroup/a/memory.reclaim";
    let root = "/sys/fs/cgroup/memory.reclaim";
    let both = |_: &String| true;
    assert_eq!(
        detect_memory_reclaim_path(&content, &both).as_deref(),
        Some(own)
    );
    assert_eq!(
        detect_memory_reclaim_path(&content, &|p: &String| p == root).as_deref(),
        Some(root)
    );
    assert_eq!(
        detect_memory_reclaim_path(&content, &|_: &String| false),
        None
    );
    let c = probe_capabilities(&content, &|p: &String| p == "/proc/sys/vm/drop_caches");
    assert_eq!(c.memory_reclaim, None);
    assert!(!c.compact && c.drop_caches);
    let c = probe_capabilities(&None, &|p: &String| p != "/proc/sys/vm/drop_caches");
    assert_eq!(c.memory_reclaim.as_deref(), Some(root));
    assert!(c.compact && !c.drop_caches);
}

const MEMINFO: &str = "MemTotal:       16000000 kB\n\
                       MemFree:         2000000 kB\n\
                       MemAvailable:    9000000 kB\n\
                       Buffers:          100000 kB\n\
                       Cached:          5000000 kB\n\
                       SwapCached:            7 kB\n\
                       SReclaimable:     300000 kB\n\
                       HugePages_Total:       0\n\
                       Lonely:\n";

fn zero() -> Single {
    Single::zero()
}

#[test]
fn memory_of_the_guest() {
    assert!(check_meminfo(MEMINFO));
    assert_eq!(
        parse_meminfo(MEMINFO),
        (14000000 * 1024, 5400000 * 1024, 8600000 * 1024)
    );
    let m = local_metrics(MEMINFO, zero(), zero());
    assert_eq!(m.mem_total, 16000000 * 1024);
    assert_eq!(m.mem_available, 9000000 * 1024);
    assert_eq!(m.file_cache, 5400000 * 1024);
    assert_eq!(m.resident, 14000000 * 1024);
    // the last line counts, unreadable numbers are zero
    assert_eq!(
        parse_meminfo("MemTotal: 9\nMemTotal: 5 kB\nMemFree: x\nCached: +2"),
        (5 * 1024, 2 * 1024, 3 * 1024)
    );
    assert_eq!(parse_meminfo("MemFree: 5\nCached: 7"), (0, 7 * 1024, 0));
    assert_eq!(parse_meminfo(""), (0, 0, 0));
    assert!(!check_meminfo("Other: 18446744073709551615"));
    assert!(check_meminfo("Other: 18446744073709551616"));
    assert!(!check_meminfo(
        "Cached: 18014398509481983\nBuffers: 18014398509481983"
    ));
}

#[test]
fn ticks_of_the_cpu() {
    let stat = "cpu  100 20 30 400 50 6 7 8\ncpu0 1 1 1 1 1\n";
    assert!(check_proc_stat(stat));
    assert_eq!(parse_proc_stat(stat), (600, 150));
    assert_eq!(parse_proc_stat("cpu 1 x 3"), (4, 4));
    assert_eq!(parse_proc_stat("cpu0 1 2 3 4 5"), (0, 0));
    assert_eq!(parse_proc_stat("intr 1\ncpu 1 2 3 4 5"), (0, 0));
    assert_eq!(parse_proc_stat(""), (0, 0));
    assert!(!check_proc_stat(
        "cpu 18446744073709551615 1 0 0 0"
    ));
    let mut cpu = CpuSampler::new((600, 150));
    let value = |s: Single| f32::from_bits(s.to_bits());
    assert_eq!(value(cpu.sample((700, 175))), 25.0);
    assert_eq!(value(cpu.sample((700, 175))), 0.0);
    assert_eq!(value(cpu.sample((100, 300))), 0.0);
    assert_eq!(value(cpu.sample((103, 301))), 1.0f32 / 3.0 * 100.0);
}

#[test]
fn sectors_of_the_disks() {
    let stats = "   8       0 sda 1 2 1000 4 5 6 2000 8 9 10 11\n\
                 8 1 sda1 1 2 x 4 5 6 7 8\n\
                 8 2 sda2 1 2 3\n\
                 8 16 sdb 1 2 10 4 5 6 20\n";
    assert_eq!(count_sectors(stats), Some(3030));
    assert_eq!(count_sectors(""), Some(0));
    let large = "8 0 sda 1 2 18446744073709551615 4 5 6 1";
    assert_eq!(count_sectors(large), None);
    let mut io = IoSampler::new(1000);
    let value = |s: Single| f32::from_bits(s.to_bits());
    let secs = |x: f32| Single::from_bits(x.to_bits());
    assert_eq!(value(io.sample(1000 + 4096, secs(2.0))), 1.0);
    assert_eq!(value(io.sample(10, secs(2.0))), 0.0);
    assert_eq!(value(io.sample(20, secs(0.0))), 0.0);
    assert_eq!(
        value(io.sample(1020, secs(3.0))),
        1000.0f32 * 512.0 / 1024.0 / 1024.0 / 3.0
    );
}

#[test]
fn reports_of_the_guest() {
    let m = collect_metrics("tok", &None, MEMINFO, zero(), zero());
    assert_eq!(m.msg_type, "metrics");
    assert_eq!(m.token, "tok");
    assert_eq!(m.distro, "wsl");
    assert_eq!(m.resident, 14000000 * 1024);
    assert_eq!(m.file_cache, 5400000 * 1024);
    assert_eq!(m.anon, 8600000 * 1024);
    assert_eq!(m.mem_total, 16000000 * 1024);
    assert_eq!(m.mem_available, 9000000 * 1024);
    let m = collect_metrics("tok", &Some("Debian".to_string()), MEMINFO, zero(), zero());
    assert_eq!(m.distro, "Debian");
}

#[test]
fn gateway_to_the_host() {
    let resolv = Some("# x\nnameserver\nnameserver 10.255.255.254\n".to_string());
    let route = "default via 172.20.0.1 dev eth0\n172.20.0.0/20 dev eth0\n";
    assert_eq!(
        discover_gateway_ip(route, &resolv).as_deref(),
        Some("172.20.0.1")
    );
    assert_eq!(
        discover_gateway_ip("default dev eth0\ndefault via 1.2.3.4", &resolv).as_deref(),
        Some("1.2.3.4")
    );
    // a route without its gateway ends the search
    assert_eq!(discover_gateway_ip("default via\n", &resolv), None);
    assert_eq!(
        discover_gateway_ip("10.0.0.0/8 via 9.9.9.9", &resolv).as_deref(),
        Some("10.255.255.254")
    );
    assert_eq!(discover_gateway_ip("", &None), None);
    assert_eq!(discover_gateway_ip("", &Some("search x".to_string())), None);
}

#[test]
fn address_of_the_host() {
    let gateway = Some("172.20.0.1".to_string());
    for (host, address) in [
        ("auto:multi", "172.20.0.1:15555"),
        ("auto:25555", "172.20.0.1:25555"),
        ("auto:", "172.20.0.1:15555"),
        ("auto:70000", "172.20.0.1:15555"),
        ("auto:1:2", "172.20.0.1:15555"),
        ("10.0.0.1:80", "10.0.0.1:80"),
        ("auto", "auto"),
    ] {
        assert_eq!(resolve_host_addr(host, &gateway), Ok(address.to_string()));
    }
    assert_eq!(
        resolve_host_addr("auto:multi", &None),
        Err(AddressError::NoGateway)
    );
    assert_eq!(
        AddressError::NoGateway.message(),
        "failed to discover gateway ip"
    );
    assert_eq!(
        resolve_host_addr("h:1", &None),
        Ok("h:1".to_string())
    );
    assert!(is_automatic("auto:x") && !is_automatic("aut"));
}

fn silent() -> GuestOptions {
    GuestOptions {
        host: None,
        token_path: None,
        interval: None,
        allow_drop: false,
        multi_path: false,
        no_multi_path: false,
        tcp: false,
        udp: false,
    }
}

#[test]
fn configuration_of_the_guest() {
    let cfg = GuestConfig::default();
    assert_eq!(cfg.host, "auto:multi");
    assert_eq!(cfg.token_path, "/mnt/c/Users/Public/wsl_agent_token");
    assert_eq!(cfg.interval, 4);
    assert!(!cfg.allow_drop && cfg.multi_path && !cfg.tcp);
    assert_eq!(cfg.local_reclaim.sustained_ticks, 3);
    let same = cfg.clone().merged_with_cli(&silent());
    assert_eq!(same.host, cfg.host);
    assert_eq!(same.interval, 4);
    assert!(same.multi_path);
    let opt = GuestOptions {
        host: Some("h:1".to_string()),
        token_path: Some("/t".to_string()),
        interval: Some(0),
        allow_drop: true,
        no_multi_path: true,
        tcp: true,
        ..silent()
    };
    let other = cfg.merged_with_cli(&opt);
    assert_eq!(other.host, "h:1");
    assert_eq!(other.token_path, "/t");
    assert_eq!(other.interval, 0);
    assert!(other.allow_drop && !other.multi_path && other.tcp);
    let twice = other.clone().merged_with_cli(&opt);
    assert!(twice.allow_drop && !twice.multi_path && twice.tcp);
    let back = other.merged_with_cli(&GuestOptions {
        multi_path: true,
        udp: true,
        ..silent()
    });
    assert!(back.multi_path && !back.tcp && back.allow_drop);
}

#[test]
fn runtime_configuration() {
    let mut cfg = GuestConfig::default();
    cfg.interval = 0;
    cfg.allow_drop = true;
    let rt = runtime_config(&cfg, " tok\n").expect("a token");
    assert_eq!(rt.token, "tok");
    assert_eq!(rt.interval, 1);
    assert!(rt.allow_drop);
    cfg.interval = 9;
    assert_eq!(runtime_config(&cfg, "t").expect("a token").interval, 9);
    assert_eq!(
        runtime_config(&cfg, " \n").expect_err("no token"),
        TokenError::Empty
    );
    let same = current_runtime(Some(&rt));
    assert_eq!(same.token, "tok");
    assert!(same.allow_drop);
    let none = current_runtime(None);
    assert_eq!(none.token, "");
    assert_eq!(none.interval, 4);
    assert!(!none.allow_drop);
}

#[test]
fn routes_to_the_host() {
    let mut cfg = GuestConfig::default();
    assert_eq!(cfg.route(), Route::UdpPaths);
    cfg.tcp = true;
    assert_eq!(cfg.route(), Route::TcpPaths);
    cfg.multi_path = false;
    assert_eq!(cfg.route(), Route::TcpDirect);
    cfg.tcp = false;
    assert_eq!(cfg.route(), Route::UdpDirect);
    cfg.multi_path = true;
    cfg.host = "1.2.3.4:5".to_string();
    assert_eq!(cfg.route(), Route::UdpDirect);
    assert_eq!(Route::UdpPaths.retry_delay(false), 10);
    assert_eq!(Route::TcpPaths.retry_delay(false), 10);
    assert_eq!(Route::TcpPaths.retry_delay(true), 3);
    assert_eq!(Route::TcpDirect.retry_delay(false), 3);
    assert_eq!(Route::UdpDirect.retry_delay(true), 3);
    assert_eq!(after_read(true, Some(0)), ReadStep::Closed);
    assert_eq!(after_read(false, Some(0)), ReadStep::Idle);
    assert_eq!(after_read(false, Some(1)), ReadStep::Handle);
    assert_eq!(after_read(true, Some(1)), ReadStep::Handle);
    assert_eq!(after_read(true, None), ReadStep::Idle);
}

#[test]
fn unit_of_the_guest() {
    let unit = systemd_unit("/etc/x.yaml");
    assert!(unit.starts_with("[Unit]\nDescription=WSL Memory Guest Agent\n"));
    assert!(unit.contains(
        "\nExecStart=/usr/local/bin/wsl-memory-guest --config /etc/x.yaml\nRestart=always\n"
    ));
    assert!(unit.contains("\nSyslogIdentifier=wsl-memory-guest\n"));
    assert!(unit.contains("\nLogRateLimitIntervalSec=30s\nLogRateLimitBurst=10000\n"));
    assert!(unit.ends_with("\n\n[Install]\nWantedBy=multi-user.target\n"));
}
