use wsl_memory_agent::binary::Single;
use wsl_memory_agent::elastic_reclaim::{clamp, score_to_level, GB, HISTORY};
use wsl_memory_agent::time::{Interval, Timestamp};
use wsl_memory_agent::{
    ElasticReclaimer, GuestLocalAction, GuestLocalConfig, GuestLocalMetrics, GuestLocalReclaimer,
    PressureLevel, ReclamationAction, ReclamationConfig, SystemMetrics,
};

fn single(x: f32) -> Single {
    Single::from_bits(x.to_bits())
}

fn at(secs: u64) -> Timestamp {
    Timestamp::from_nanos(secs as u128 * 1_000_000_000)
}

/// Metrics of a host with `host_gb` of memory, and of a guest that has half of
/// its own memory available.
fn make_metrics(
    host_gb: f64,
    gap_gb: f64,
    host_used_pct: f64,
    wslconfig_gb: Option<f64>,
    cache_pct: f64,
    guest_cpu: f32,
    guest_io: f32,
) -> SystemMetrics {
    let host_total = (host_gb * GB as f64) as u64;
    let host_avail = ((1.0 - host_used_pct / 100.0) * host_total as f64) as u64;
    let guest_resident: u64 = 8 * GB;
    let guest_file_cache = (guest_resident as f64 * cache_pct / 100.0) as u64;
    let vmmem_rss = guest_resident + (gap_gb * GB as f64) as u64;
    SystemMetrics {
        vmmem_rss,
        host_memory_total: host_total,
        host_memory_avail: host_avail,
        wslconfig_memory_limit: wslconfig_gb.map(|g| (g * GB as f64) as u64),
        guest_resident,
        guest_file_cache,
        guest_mem_total: 16 * GB,
        guest_mem_available: 8 * GB,
        guest_cpu_percent: single(guest_cpu),
        guest_io_rate: single(guest_io),
        gap: (gap_gb * GB as f64) as u64,
    }
}

#[test]
fn test_baseline_subtracted() {
    let mut r = ElasticReclaimer::new(ReclamationConfig::default());
    r.push_metrics(make_metrics(32.0, 2.5, 50.0, None, 30.0, 0.1, 1.0));
    assert_eq!(
        r.calculate_pressure_level(),
        PressureLevel::NoPressure,
        "baseline subtraction should suppress pressure from WSL2 overhead"
    );
}

#[test]
fn test_gap_within_baseline_is_none() {
    let mut r = ElasticReclaimer::new(ReclamationConfig::default());
    r.push_metrics(make_metrics(32.0, 1.5, 50.0, None, 30.0, 0.1, 1.0));
    assert_eq!(r.calculate_pressure_level(), PressureLevel::NoPressure);
}

#[test]
fn test_moderate_on_32gb_host() {
    let mut r = ElasticReclaimer::new(ReclamationConfig::default());
    r.push_metrics(make_metrics(32.0, 4.0, 82.0, None, 65.0, 0.1, 1.0));
    assert_eq!(r.calculate_pressure_level(), PressureLevel::Moderate);
}

#[test]
fn test_scales_with_host_size() {
    let mut r64 = ElasticReclaimer::new(ReclamationConfig::default());
    r64.push_metrics(make_metrics(64.0, 4.0, 82.0, None, 65.0, 0.1, 1.0));

    let mut r128 = ElasticReclaimer::new(ReclamationConfig::default());
    r128.push_metrics(make_metrics(128.0, 4.0, 50.0, None, 30.0, 0.1, 1.0));

    assert!(r64.calculate_pressure_level() >= PressureLevel::Moderate);
    assert!(r128.calculate_pressure_level() <= PressureLevel::Mild);
}

#[test]
fn test_heavy_pressure() {
    let mut r = ElasticReclaimer::new(ReclamationConfig::default());
    r.push_metrics(make_metrics(32.0, 6.0, 92.0, Some(10.0), 85.0, 0.1, 1.0));
    assert!(
        r.calculate_pressure_level() >= PressureLevel::Heavy,
        "got {:?}",
        r.calculate_pressure_level()
    );
}

#[test]
fn test_critical_reachable() {
    let mut r = ElasticReclaimer::new(ReclamationConfig::default());
    let m = make_metrics(32.0, 8.0, 96.0, Some(12.0), 92.0, 0.01, 0.5);
    r.push_metrics(m.clone());
    r.push_metrics(m.clone());
    r.push_metrics(m);
    assert_eq!(
        r.calculate_pressure_level(),
        PressureLevel::Critical,
        "Critical must be reachable"
    );
}

#[test]
fn test_compact_on_sustained_heavy() {
    let mut r = ElasticReclaimer::new(ReclamationConfig::default());
    for _ in 0..3 {
        r.push_metrics(make_metrics(32.0, 6.0, 92.0, None, 85.0, 0.1, 1.0));
    }
    let action = r.decide_action(at(0));
    assert!(
        matches!(action, ReclamationAction::Compact),
        "expected Compact on sustained heavy, got {:?}",
        action
    );
}

#[test]
fn test_reclaim_scales_with_host_size() {
    let cfg = ReclamationConfig::default();

    let mut r32 = ElasticReclaimer::new(cfg.clone());
    r32.push_metrics(make_metrics(32.0, 4.0, 82.0, None, 65.0, 0.1, 1.0));
    let a32 = r32.decide_action(at(0));

    let mut r64 = ElasticReclaimer::new(cfg);
    r64.push_metrics(make_metrics(64.0, 6.0, 82.0, None, 65.0, 0.1, 1.0));
    let a64 = r64.decide_action(at(0));

    if let (
        ReclamationAction::GradualReclaim { bytes: b32 },
        ReclamationAction::GradualReclaim { bytes: b64 },
    ) = (&a32, &a64)
    {
        assert!(
            b64 > b32,
            "64 GB host should reclaim more: {} vs {}",
            b64,
            b32
        );
    }
    // the caps, 0.8 % of the host's memory
    let cap = |gb: u64| ((gb * GB) as f64 * 0.008f32 as f64) as u64;
    assert_eq!(a32, ReclamationAction::GradualReclaim { bytes: cap(32) });
    assert_eq!(a64, ReclamationAction::GradualReclaim { bytes: cap(64) });
}

#[test]
fn test_sustained_multi_dimensional() {
    let mut r = ElasticReclaimer::new(ReclamationConfig::default());
    for _ in 0..3 {
        r.push_metrics(make_metrics(32.0, 6.0, 85.0, None, 75.0, 0.1, 1.0));
    }
    assert_eq!(r.check_sustained_pressure(), 3);
}

#[test]
fn test_default_baseline_exists() {
    let cfg = ReclamationConfig::default();
    assert_eq!(cfg.baseline_gap, 2 * GB);
}

fn make_local(mem_gb: f64, cache_pct: f64, avail_pct: f64) -> GuestLocalMetrics {
    let total = (mem_gb * GB as f64) as u64;
    GuestLocalMetrics {
        mem_total: total,
        mem_available: (total as f64 * avail_pct / 100.0) as u64,
        file_cache: (total as f64 * cache_pct / 100.0) as u64,
        resident: (total as f64 * (1.0 - avail_pct / 100.0)) as u64,
        cpu_percent: single(0.01),
        io_rate: single(0.5),
    }
}

#[test]
fn test_local_no_action_low_cache() {
    let mut r = GuestLocalReclaimer::new(GuestLocalConfig::default());
    for _ in 0..5 {
        r.push(make_local(8.0, 30.0, 50.0));
    }
    assert!(matches!(r.decide(None, at(0)), GuestLocalAction::Nothing));
}

#[test]
fn test_local_reclaim_high_cache_sustained() {
    let mut r = GuestLocalReclaimer::new(GuestLocalConfig::default());
    for _ in 0..4 {
        r.push(make_local(8.0, 75.0, 40.0));
    }
    let action = r.decide(None, at(0));
    assert!(
        matches!(action, GuestLocalAction::Reclaim { bytes } if bytes > 0),
        "expected Reclaim, got {:?}",
        action
    );
}

#[test]
fn test_local_defers_to_host() {
    let mut r = GuestLocalReclaimer::new(GuestLocalConfig::default());
    for _ in 0..4 {
        r.push(make_local(8.0, 75.0, 40.0));
    }
    let action = r.decide(Some(at(100)), at(100));
    assert!(
        matches!(action, GuestLocalAction::Nothing),
        "should defer to host"
    );
    // and again once the host has been silent for thirty seconds
    assert_eq!(r.decide(Some(at(100)), at(129)), GuestLocalAction::Nothing);
    assert!(r.decide(Some(at(100)), at(130)) != GuestLocalAction::Nothing);
}

#[test]
fn test_local_scales_with_mem_size() {
    let mut r8 = GuestLocalReclaimer::new(GuestLocalConfig::default());
    for _ in 0..4 {
        r8.push(make_local(8.0, 75.0, 40.0));
    }
    let a8 = r8.decide(None, at(0));

    let mut r32 = GuestLocalReclaimer::new(GuestLocalConfig::default());
    for _ in 0..4 {
        r32.push(make_local(32.0, 75.0, 40.0));
    }
    let a32 = r32.decide(None, at(0));

    if let (GuestLocalAction::Reclaim { bytes: b8 }, GuestLocalAction::Reclaim { bytes: b32 }) =
        (&a8, &a32)
    {
        assert!(b32 > b8, "32 GB should reclaim more: {} vs {}", b32, b8);
    } else {
        panic!("expected both Reclaim, got {:?} / {:?}", a8, a32);
    }
    // the caps, one per cent of the guest's memory
    let cap = |gb: u64| ((gb * GB) as f64 * 0.010f32 as f64) as u64;
    assert_eq!(a8, GuestLocalAction::Reclaim { bytes: cap(8) });
    assert_eq!(a32, GuestLocalAction::Reclaim { bytes: cap(32) });
}

#[test]
fn test_local_moderate_requires_idle() {
    let cfg = GuestLocalConfig::default();
    let mut r = GuestLocalReclaimer::new(cfg);
    for _ in 0..4 {
        r.push(GuestLocalMetrics {
            mem_total: 8 * GB,
            mem_available: 4 * GB,
            file_cache: (8.0 * 0.55 * GB as f64) as u64,
            resident: 5 * GB,
            cpu_percent: single(50.0),
            io_rate: single(200.0),
        });
    }
    assert!(matches!(r.decide(None, at(0)), GuestLocalAction::Nothing));
}

#[test]
fn moderate_local_reclaim_of_an_idle_guest() {
    let cfg = GuestLocalConfig::default();
    let cache = (8.0 * 0.55 * GB as f64) as u64;
    let sample = |cpu: f32, io: f32| GuestLocalMetrics {
        mem_total: 8 * GB,
        mem_available: 4 * GB,
        file_cache: cache,
        resident: 5 * GB,
        cpu_percent: single(cpu),
        io_rate: single(io),
    };
    // idle means below five per cent of CPU and below ten MiB per second
    for (cpu, io, acts) in [
        (4.9f32, 9.9f32, true),
        (5.0, 9.9, false),
        (4.9, 10.0, false),
    ] {
        let mut r = GuestLocalReclaimer::new(cfg);
        for _ in 0..3 {
            r.push(sample(cpu, io));
        }
        let action = r.decide(None, at(7));
        if acts {
            // a tenth of the cache is more than one per cent of all memory
            let cap = ((8 * GB) as f64 * 0.010f32 as f64) as u64;
            assert_eq!(action, GuestLocalAction::Reclaim { bytes: cap });
        } else {
            assert_eq!(action, GuestLocalAction::Nothing);
        }
    }
}

#[test]
fn local_reclaim_needs_three_samples_and_cools_down() {
    let cfg = GuestLocalConfig::default();
    assert_eq!(cfg.sustained_ticks, 3);
    let mut r = GuestLocalReclaimer::new(cfg);
    assert_eq!(r.decide(None, at(0)), GuestLocalAction::Nothing);
    r.push(make_local(8.0, 75.0, 40.0));
    r.push(make_local(8.0, 75.0, 40.0));
    assert_eq!(r.decide(None, at(0)), GuestLocalAction::Nothing);
    r.push(make_local(8.0, 75.0, 40.0));
    let first = r.decide(None, at(1));
    assert!(matches!(first, GuestLocalAction::Reclaim { .. }));
    assert_eq!(r.decide(None, at(2)), GuestLocalAction::Nothing);
    assert_eq!(r.decide(None, at(15)), GuestLocalAction::Nothing);
    assert_eq!(r.decide(None, at(16)), first);
}

#[test]
fn low_available_memory_makes_a_moderate_cache_heavy() {
    let cfg = GuestLocalConfig::default();
    let busy = |avail_pct: f64| GuestLocalMetrics {
        cpu_percent: single(80.0),
        ..make_local(8.0, 55.0, avail_pct)
    };
    let mut r = GuestLocalReclaimer::new(cfg);
    for _ in 0..3 {
        r.push(busy(14.0));
    }
    assert!(matches!(
        r.decide(None, at(0)),
        GuestLocalAction::Reclaim { .. }
    ));
    let mut r = GuestLocalReclaimer::new(cfg);
    for _ in 0..3 {
        r.push(busy(16.0));
    }
    assert_eq!(r.decide(None, at(0)), GuestLocalAction::Nothing);
}

#[test]
fn levels_begin_at_their_scores() {
    for (score, level) in [
        (0, PressureLevel::NoPressure),
        (49, PressureLevel::NoPressure),
        (50, PressureLevel::Mild),
        (149, PressureLevel::Mild),
        (150, PressureLevel::Moderate),
        (249, PressureLevel::Moderate),
        (250, PressureLevel::Heavy),
        (349, PressureLevel::Heavy),
        (350, PressureLevel::Critical),
        (390, PressureLevel::Critical),
    ] {
        assert_eq!(score_to_level(score), level);
    }
}

#[test]
fn full_score_of_every_dimension() {
    let mut r = ElasticReclaimer::new(ReclamationConfig::default());
    let m = make_metrics(32.0, 8.0, 96.0, Some(12.0), 92.0, 0.01, 0.5);
    for _ in 0..3 {
        r.push_metrics(m);
    }
    assert_eq!(r.score_metrics(&m), 390);
    let calm = make_metrics(32.0, 1.0, 10.0, None, 10.0, 0.01, 0.5);
    assert_eq!(r.score_metrics(&calm), 30);
}

#[test]
fn ten_samples_are_remembered() {
    let mut cfg = ReclamationConfig::default();
    cfg.sustained_windows = HISTORY;
    let pressed = make_metrics(32.0, 8.0, 96.0, None, 92.0, 0.01, 0.5);
    let calm = make_metrics(32.0, 1.0, 10.0, None, 10.0, 0.01, 0.5);
    let mut r = ElasticReclaimer::new(cfg);
    r.push_metrics(calm);
    for _ in 0..9 {
        r.push_metrics(pressed);
    }
    assert_eq!(r.check_sustained_pressure(), 0);
    r.push_metrics(pressed);
    assert_eq!(r.check_sustained_pressure(), 3);
    cfg.sustained_windows = HISTORY + 1;
    let mut r = ElasticReclaimer::new(cfg);
    for _ in 0..20 {
        r.push_metrics(pressed);
    }
    assert_eq!(r.check_sustained_pressure(), 0);
}

#[test]
fn moderate_reclaim_cools_down_for_ten_seconds() {
    let mut r = ElasticReclaimer::new(ReclamationConfig::default());
    let m = make_metrics(32.0, 4.0, 82.0, None, 65.0, 0.1, 1.0);
    r.push_metrics(m);
    let first = r.decide_action(at(100));
    assert!(matches!(first, ReclamationAction::GradualReclaim { .. }));
    assert_eq!(r.decide_action(at(109)), ReclamationAction::NoAction);
    assert_eq!(r.decide_action(at(110)), first);
}

#[test]
fn heavy_actions_cool_down_for_thirty_seconds() {
    let mut r = ElasticReclaimer::new(ReclamationConfig::default());
    let m = make_metrics(32.0, 6.0, 92.0, Some(10.0), 85.0, 0.1, 1.0);
    r.push_metrics(m);
    assert_eq!(r.calculate_pressure_level(), PressureLevel::Heavy);
    let first = r.decide_action(at(100));
    // half of the effective gap is more than 1.6 % of the host's memory
    let cap = ((32 * GB) as f64 * 0.016f32 as f64) as u64;
    assert_eq!(first, ReclamationAction::GradualReclaim { bytes: cap });
    assert_eq!(r.decide_action(at(129)), ReclamationAction::NoAction);
    r.push_metrics(m);
    r.push_metrics(m);
    assert_eq!(r.check_sustained_pressure(), 3);
    assert_eq!(r.decide_action(at(129)), ReclamationAction::NoAction);
    assert_eq!(r.decide_action(at(130)), ReclamationAction::Compact);
}

#[test]
fn caches_of_a_quiet_guest_are_dropped_once_in_ten_minutes() {
    let mut r = ElasticReclaimer::new(ReclamationConfig::default());
    let m = make_metrics(32.0, 8.0, 96.0, Some(12.0), 92.0, 0.01, 500.0);
    for _ in 0..3 {
        r.push_metrics(m);
    }
    assert!(r.is_system_idle(), "traffic does not matter");
    assert_eq!(
        r.decide_action(at(1)),
        ReclamationAction::DropCaches { level: 3 }
    );
    // what follows is a heavy reclaim
    assert!(matches!(
        r.decide_action(at(2)),
        ReclamationAction::GradualReclaim { .. }
    ));
    assert_eq!(r.decide_action(at(3)), ReclamationAction::NoAction);
    assert!(matches!(
        r.decide_action(at(600)),
        ReclamationAction::GradualReclaim { .. }
    ));
    assert_eq!(
        r.decide_action(at(601)),
        ReclamationAction::DropCaches { level: 3 }
    );
}

#[test]
fn busy_or_crowded_guest_keeps_its_caches() {
    let quiet = make_metrics(32.0, 8.0, 96.0, Some(12.0), 92.0, 0.01, 0.5);
    let busy = SystemMetrics {
        guest_cpu_percent: single(0.05),
        ..quiet
    };
    let crowded = SystemMetrics {
        guest_mem_available: 2 * GB,
        ..quiet
    };
    let unknown = SystemMetrics {
        guest_mem_total: 0,
        guest_mem_available: 0,
        ..quiet
    };
    for m in [busy, crowded, unknown] {
        let mut r = ElasticReclaimer::new(ReclamationConfig::default());
        for _ in 0..3 {
            r.push_metrics(m);
        }
        assert_eq!(r.calculate_pressure_level(), PressureLevel::Critical);
        assert!(!r.is_system_idle());
        assert!(matches!(
            r.decide_action(at(1)),
            ReclamationAction::GradualReclaim { .. }
        ));
        assert_eq!(r.decide_action(at(2)), ReclamationAction::NoAction);
    }
}

#[test]
fn no_sample_means_no_pressure() {
    let mut r = ElasticReclaimer::new(ReclamationConfig::default());
    assert_eq!(r.calculate_pressure_level(), PressureLevel::NoPressure);
    assert_eq!(r.decide_action(at(0)), ReclamationAction::NoAction);
    assert!(!r.is_system_idle());
    assert_eq!(r.get_diagnostics(), "No metrics available");
}

#[test]
fn diagnostics_in_words() {
    let mut r = ElasticReclaimer::new(ReclamationConfig::default());
    r.push_metrics(make_metrics(32.0, 4.0, 82.0, None, 65.0, 0.1, 1.0));
    assert_eq!(
        r.get_diagnostics(),
        "Pressure: Moderate (score=1.80, sustained=0/3), Gap: 4.00GB (eff 2.00GB, base 2.0GB), \
         Host: 82.0% used, Cache: 5.20GB (65%)"
    );
}

#[test]
fn score_of_a_host_four_times_as_large() {
    let mut cfg = ReclamationConfig::default();
    let m = make_metrics(30.7, 4.3, 82.1, Some(11.3), 65.7, 0.1, 1.0);
    let r = ElasticReclaimer::new(cfg);
    let score = r.score_metrics(&m);
    cfg.baseline_gap *= 4;
    let big = SystemMetrics {
        vmmem_rss: m.vmmem_rss * 4,
        host_memory_total: m.host_memory_total * 4,
        host_memory_avail: m.host_memory_avail * 4,
        wslconfig_memory_limit: m.wslconfig_memory_limit.map(|l| l * 4),
        guest_resident: m.guest_resident * 4,
        guest_file_cache: m.guest_file_cache * 4,
        gap: m.gap * 4,
        ..m
    };
    assert_eq!(ElasticReclaimer::new(cfg).score_metrics(&big), score);
}

#[test]
fn sizes_are_held_between_floor_and_cap() {
    assert_eq!(clamp(5, 10, 20), 10);
    assert_eq!(clamp(15, 10, 20), 15);
    assert_eq!(clamp(25, 10, 20), 20);
    assert_eq!(clamp(25, 10, 5), 10);
    assert_eq!(clamp(7, 10, 5), 10);
}

#[test]
fn default_thresholds() {
    let c = ReclamationConfig::default();
    let bits = |s: Single| f32::from_bits(s.to_bits());
    assert_eq!(bits(c.gap_ratio_mild), 0.01);
    assert_eq!(bits(c.gap_ratio_moderate), 0.03);
    assert_eq!(bits(c.gap_ratio_heavy), 0.06);
    assert_eq!(bits(c.gap_ratio_critical), 0.12);
    assert_eq!(bits(c.host_memory_warning), 0.70);
    assert_eq!(bits(c.host_memory_pressure), 0.80);
    assert_eq!(bits(c.guest_cpu_idle), 0.05);
    assert_eq!(bits(c.guest_mem_available_idle_ratio), 0.15);
    assert_eq!(bits(c.guest_io_idle), 10.0);
    assert_eq!(bits(c.reclaim_ratio_moderate), 0.20);
    assert_eq!(bits(c.reclaim_ratio_heavy), 0.50);
    assert_eq!(bits(c.reclaim_floor_ratio), 0.001);
    assert_eq!(bits(c.reclaim_cap_moderate), 0.008);
    assert_eq!(bits(c.reclaim_cap_heavy), 0.016);
    assert_eq!(c.sustained_windows, 3);
    assert_eq!(c.cooldown_moderate.as_nanos(), 10_000_000_000);
    assert_eq!(c.cooldown_heavy.as_nanos(), 30_000_000_000);
    assert_eq!(c.cooldown_critical.as_nanos(), 600_000_000_000);
    let l = GuestLocalConfig::default();
    assert_eq!(bits(l.cache_ratio_moderate), 0.50);
    assert_eq!(bits(l.cache_ratio_heavy), 0.70);
    assert_eq!(bits(l.avail_ratio_low), 0.15);
    assert_eq!(bits(l.cpu_idle), 5.0);
    assert_eq!(bits(l.io_idle), 10.0);
    assert_eq!(bits(l.reclaim_fraction_moderate), 0.10);
    assert_eq!(bits(l.reclaim_fraction_heavy), 0.25);
    assert_eq!(bits(l.reclaim_floor_ratio), 0.002);
    assert_eq!(bits(l.reclaim_cap_ratio), 0.010);
    assert_eq!(l.cooldown.as_nanos(), Interval::from_secs(15).as_nanos());
    assert_eq!(l.host_defer.as_nanos(), Interval::from_secs(30).as_nanos());
    assert_eq!(l.check_interval.as_nanos(), Interval::from_secs(5).as_nanos());
}

#[test]
fn more_pressure_never_scores_less() {
    let r = ElasticReclaimer::new(ReclamationConfig::default());
    let mut last = 0;
    for step in 0..40u64 {
        let x = step as f64;
        let m = make_metrics(32.0, x / 5.0, 60.0 + x, Some(12.0), 30.0 + x * 1.7, 0.1, 1.0);
        let score = r.score_metrics(&m);
        assert!(score >= last, "{} after {}", score, last);
        last = score;
    }
    assert!(last >= 350);
}

#[test]
fn reclaims_grow_with_the_host() {
    let mut last = 0;
    for gb in 8..100u64 {
        let mut r = ElasticReclaimer::new(ReclamationConfig::default());
        let mut m = make_metrics(gb as f64, 5.0, 82.0, None, 65.0, 0.1, 1.0);
        m.host_memory_avail = 0;
        r.push_metrics(m);
        match r.decide_action(at(0)) {
            ReclamationAction::GradualReclaim { bytes } => {
                // sizes are capped at different shares
                if r.calculate_pressure_level() == PressureLevel::Moderate {
                    assert!(bytes >= last);
                    last = bytes;
                }
            }
            other => assert_eq!(other, ReclamationAction::NoAction),
        }
    }
    assert!(last > 0);
}
