use wsl_memory_agent::binary::{scale, Double, Single};
use wsl_memory_agent::elastic_reclaim::{score_to_level, GB};
use wsl_memory_agent::{ElasticReclaimer, ReclamationConfig, SystemMetrics};

fn single(x: f32) -> Single {
    Single::from_bits(x.to_bits())
}

fn native(x: Single) -> f32 {
    f32::from_bits(x.to_bits())
}

/// A sequence of numbers that look random.
fn next(seed: &mut u64) -> u64 {
    *seed ^= *seed << 13;
    *seed ^= *seed >> 7;
    *seed ^= *seed << 17;
    *seed
}

/// A number with a random number of bits.
fn some(seed: &mut u64) -> u64 {
    let shift = next(seed) % 64;
    next(seed) >> shift
}

fn same(a: f32, b: f32) -> bool {
    a == b || (a.is_nan() && b.is_nan())
}

#[test]
fn bits_are_kept() {
    for bits in [0u32, 1, 0x8000_0000, 0x7f80_0000, 0x7fc0_0000, 0xffff_ffff] {
        assert_eq!(Single::from_bits(bits).to_bits(), bits);
    }
}

#[test]
fn single_ratios_are_those_of_the_hardware() {
    for (n, d) in [(1u64, 100u64), (3, 100), (70, 100), (8, 1000), (10, 1), (1, 3)] {
        let exact = n as f64 / d as f64;
        assert_eq!(native(Single::ratio(n, d)), exact as f32);
    }
}

#[test]
fn comparison_of_singles() {
    let values = [
        0.0f32,
        -0.0,
        1.0,
        -1.0,
        0.05,
        1e-45,
        -1e-45,
        f32::MAX,
        f32::MIN,
        f32::INFINITY,
        f32::NEG_INFINITY,
        f32::NAN,
    ];
    for a in values {
        for b in values {
            assert_eq!(single(a).less(single(b)), a < b, "{} < {}", a, b);
        }
    }
}

#[test]
fn hundredths_are_those_of_the_hardware() {
    let mut seed = 0x1234_5678_9abc_def1u64;
    for _ in 0..200_000 {
        let x = f32::from_bits(next(&mut seed) as u32);
        let got = native(single(x).hundredth());
        assert!(same(got, x / 100.0), "{:e}: {:e}", x, got);
    }
    for x in [0.0f32, -0.0, 1e-45, 1e-44, 5e-44, 3.7, 100.0, f32::MAX, f32::INFINITY] {
        assert!(same(native(single(x).hundredth()), x / 100.0));
    }
}

#[test]
fn percentages_are_those_of_the_hardware() {
    let mut seed = 0x9e37_79b9_7f4a_7c15u64;
    for _ in 0..200_000 {
        let (a, b) = (some(&mut seed), some(&mut seed));
        let expected = if b > 0 { a as f32 / b as f32 * 100.0 } else { 0.0 };
        assert_eq!(native(Single::percentage(a, b)), expected, "{} / {}", a, b);
    }
    assert_eq!(native(Single::percentage(1, 3)), 1.0f32 / 3.0 * 100.0);
    assert_eq!(native(Single::percentage(5, 0)), 0.0);
}

#[test]
fn transfer_rates_are_those_of_the_hardware() {
    let mut seed = 0xdead_beef_cafe_f00du64;
    for _ in 0..200_000 {
        let sectors = some(&mut seed);
        let elapsed = (some(&mut seed) % 1_000_000_000_000) as f32 / 1e9;
        let expected = if elapsed > 0.0 {
            sectors as f32 * 512.0 / 1024.0 / 1024.0 / elapsed
        } else {
            0.0
        };
        let got = native(Single::transfer_rate(sectors, single(elapsed)));
        assert_eq!(got, expected, "{} in {}", sectors, elapsed);
    }
    assert_eq!(native(Single::transfer_rate(2048, single(1.0))), 1.0);
    assert_eq!(native(Single::transfer_rate(2048, single(0.0))), 0.0);
}

#[test]
fn scaled_sizes_are_those_of_the_hardware() {
    let mut seed = 0x0123_4567_89ab_cdefu64;
    for i in 0..200_000u64 {
        let n = some(&mut seed);
        let f = if i % 2 == 0 {
            (next(&mut seed) % 1_000_000) as f32 / 1_000_000.0
        } else {
            f32::from_bits(next(&mut seed) as u32)
        };
        assert_eq!(scale(n, single(f)), (n as f64 * f as f64) as u64, "{} {:e}", n, f);
    }
    for f in [f32::NAN, f32::INFINITY, f32::NEG_INFINITY, -1.0, -0.0, f32::MAX] {
        for n in [0u64, 1, u64::MAX] {
            assert_eq!(scale(n, single(f)), (n as f64 * f as f64) as u64, "{} {:e}", n, f);
        }
    }
}

#[test]
fn quotients_compare_like_those_of_the_hardware() {
    let mut seed = 0xfeed_face_dead_c0deu64;
    for _ in 0..200_000 {
        let (a, b) = (some(&mut seed), some(&mut seed).max(1));
        let x = a as f64 / b as f64;
        let q = Double::ratio(a, b);
        // a threshold near the quotient, or anywhere
        let near = f32::from_bits((x as f32).to_bits() ^ (next(&mut seed) % 4) as u32);
        let t = if next(&mut seed) % 2 == 0 { near } else { f32::from_bits(next(&mut seed) as u32) };
        assert_eq!(q.at_least(single(t)), x >= t as f64, "{} >= {}", x, t);
        assert_eq!(q.above(single(t)), x > t as f64, "{} > {}", x, t);
        assert_eq!(q.below(single(t)), x < t as f64, "{} < {}", x, t);
        let (c, d) = (some(&mut seed), some(&mut seed).max(1));
        let y = c as f64 / d as f64;
        assert_eq!(q.smaller(Double::ratio(c, d)), x < y);
        assert_eq!(q.complement().smaller(Double::ratio(c, d)), 1.0 - x < y);
        assert_eq!(q.complement().above(single(t)), 1.0 - x > t as f64);
    }
}

/// What the engine says of a sample in words, in the arithmetic of the
/// hardware.
fn native_words(cfg: &ReclamationConfig, m: &SystemMetrics, score: f32, sustained: u8) -> String {
    format!(
        "Pressure: {} (score={:.2}, sustained={}/3), Gap: {:.2}GB (eff {:.2}GB, base {:.1}GB), Host: {:.1}% used, Cache: {:.2}GB ({:.0}%)",
        native_level(score),
        score,
        sustained,
        m.gap as f64 / GB as f64,
        m.gap.saturating_sub(cfg.baseline_gap) as f64 / GB as f64,
        cfg.baseline_gap as f64 / GB as f64,
        if m.host_memory_total > 0 {
            (1.0 - m.host_memory_avail as f64 / m.host_memory_total as f64) * 100.0
        } else {
            0.0
        },
        m.guest_file_cache as f64 / GB as f64,
        if m.guest_resident > 0 {
            m.guest_file_cache as f64 / m.guest_resident as f64 * 100.0
        } else {
            0.0
        },
    )
}

/// The score of a sample in the arithmetic of the hardware.
fn native_score(cfg: &ReclamationConfig, m: &SystemMetrics, sustained: f64) -> f32 {
    let f = |s: Single| native(s) as f64;
    let gap = if m.host_memory_total > 0 {
        m.gap.saturating_sub(cfg.baseline_gap) as f64 / m.host_memory_total as f64
    } else {
        0.0
    };
    let gap_score = if gap >= f(cfg.gap_ratio_critical) {
        4.0
    } else if gap >= f(cfg.gap_ratio_heavy) {
        3.0
    } else if gap >= f(cfg.gap_ratio_moderate) {
        2.0
    } else if gap >= f(cfg.gap_ratio_mild) {
        1.0
    } else {
        0.0
    };
    let used = if m.host_memory_total > 0 {
        1.0 - m.host_memory_avail as f64 / m.host_memory_total as f64
    } else {
        0.0
    };
    let host_score = if used > 0.95 {
        4.0
    } else if used > 0.90 {
        3.0
    } else if used > f(cfg.host_memory_pressure) {
        2.0
    } else if used > f(cfg.host_memory_warning) {
        1.0
    } else {
        0.0
    };
    let limit_score = match m.wslconfig_memory_limit {
        Some(limit) if limit > 0 => {
            let r = m.vmmem_rss as f64 / limit as f64;
            if r > 0.98 {
                4.0
            } else if r > 0.95 {
                3.0
            } else if r > 0.85 {
                2.0
            } else if r > 0.70 {
                1.0
            } else {
                0.0
            }
        }
        _ => 0.0,
    };
    let cache = if m.guest_resident > 0 {
        m.guest_file_cache as f64 / m.guest_resident as f64
    } else {
        0.0
    };
    let cache_score = if cache > 0.90 {
        4.0
    } else if cache > 0.80 {
        3.0
    } else if cache > 0.60 {
        2.0
    } else if cache > 0.40 {
        1.0
    } else {
        0.0
    };
    (gap_score * 0.30
        + host_score * 0.25
        + limit_score * 0.15
        + cache_score * 0.20
        + sustained * 0.10) as f32
}

/// The level of a score in the arithmetic of the hardware.
fn native_level(score: f32) -> &'static str {
    if score >= 3.5 {
        "Critical"
    } else if score >= 2.5 {
        "Heavy"
    } else if score >= 1.5 {
        "Moderate"
    } else if score >= 0.5 {
        "Mild"
    } else {
        "None"
    }
}

#[test]
fn scores_of_random_samples() {
    let cfg = ReclamationConfig::default();
    let mut seed = 0xabcd_ef01_2345_6789u64;
    for _ in 0..20_000 {
        let total = 8 * GB + next(&mut seed) % (120 * GB);
        let resident = GB + next(&mut seed) % (16 * GB);
        let m = SystemMetrics {
            vmmem_rss: next(&mut seed) % (20 * GB),
            host_memory_total: total,
            host_memory_avail: next(&mut seed) % total,
            wslconfig_memory_limit: if next(&mut seed) % 3 == 0 {
                None
            } else {
                Some(next(&mut seed) % (20 * GB))
            },
            guest_resident: resident,
            guest_file_cache: next(&mut seed) % resident,
            guest_mem_total: 16 * GB,
            guest_mem_available: next(&mut seed) % (16 * GB),
            guest_cpu_percent: single(0.1),
            guest_io_rate: single(1.0),
            gap: next(&mut seed) % (20 * GB),
        };
        let mut r = ElasticReclaimer::new(cfg);
        r.push_metrics(m);
        let expected = native_score(&cfg, &m, 0.0);
        let got = r.score_metrics(&m);
        assert_eq!(format!("{:.2}", expected), format!("{:.2}", got as f64 / 100.0));
        assert_eq!(r.calculate_pressure_level().name(), native_level(expected));
        let words = native_words(&cfg, &m, expected, 0);
        assert_eq!(r.get_diagnostics(), words);
    }
}

#[test]
fn levels_of_all_scores() {
    for gap in 0..5u64 {
        for host in 0..5u64 {
            for limit in 0..5u64 {
                for cache in 0..5u64 {
                    for sustained in 0..4u64 {
                        let sum = gap as f64 * 0.30
                            + host as f64 * 0.25
                            + limit as f64 * 0.15
                            + cache as f64 * 0.20
                            + sustained as f64 * 0.10;
                        let points =
                            gap * 30 + host * 25 + limit * 15 + cache * 20 + sustained * 10;
                        let level = score_to_level(points);
                        assert_eq!(level.name(), native_level(sum as f32));
                        assert_eq!(
                            format!("{:.2}", sum as f32),
                            format!("{}.{:02}", points / 100, points % 100)
                        );
                    }
                }
            }
        }
    }
}

#[test]
fn odd_samples_in_words() {
    let mut cfg = ReclamationConfig::default();
    let mut seed = 0x5555_aaaa_1234_4321u64;
    for i in 0..20_000u64 {
        // sizes of any magnitude, available memory beyond all memory, and
        // halves between two decimals
        let any = |seed: &mut u64| {
            if i % 2 == 0 {
                some(seed)
            } else {
                next(seed) % 4096 * (GB / 1024)
            }
        };
        cfg.baseline_gap = any(&mut seed);
        let m = SystemMetrics {
            vmmem_rss: any(&mut seed),
            host_memory_total: if i % 17 == 0 { 0 } else { any(&mut seed) },
            host_memory_avail: any(&mut seed),
            wslconfig_memory_limit: Some(any(&mut seed)),
            guest_resident: if i % 13 == 0 { 0 } else { any(&mut seed) },
            guest_file_cache: any(&mut seed),
            guest_mem_total: 0,
            guest_mem_available: 0,
            guest_cpu_percent: single(0.1),
            guest_io_rate: single(1.0),
            gap: any(&mut seed),
        };
        let mut r = ElasticReclaimer::new(cfg);
        r.push_metrics(m);
        let score = native_score(&cfg, &m, 0.0);
        assert_eq!(r.get_diagnostics(), native_words(&cfg, &m, score, 0));
        assert_eq!(r.score_metrics(&m), (score * 100.0).round() as u64);
    }
}
