//! The host's decision engine: how pressing memory is, and what to do about it.

use crate::binary;
use crate::binary::{scale, Double, Single};
use crate::rounding;
use crate::text;
use crate::text::{push_decimal, push_places};
use crate::time;
use crate::time::{cooldown_elapsed, Interval, Timestamp};
use std::collections::VecDeque;
use vstd::prelude::*;
use vstd::string::*;

verus! {

/// One GiB.
pub const GB: u64 = 1_073_741_824;

/// How many samples the engine remembers.
pub const HISTORY: usize = 10;

/// Pressure levels, graduated like a rubber band under tension.
#[derive(Debug, Clone, Copy, PartialEq, Eq, PartialOrd, Ord, Structural)]
pub enum PressureLevel {
    NoPressure,
    Mild,
    Moderate,
    Heavy,
    Critical,
}

/// One sample of host and guest. Sizes are in bytes.
#[derive(Debug, Clone, Copy)]
pub struct SystemMetrics {
    pub vmmem_rss: u64,
    pub host_memory_total: u64,
    pub host_memory_avail: u64,
    pub wslconfig_memory_limit: Option<u64>,
    pub guest_resident: u64,
    pub guest_file_cache: u64,
    /// `MemTotal` of the guest.
    pub guest_mem_total: u64,
    /// `MemAvailable` of the guest.
    pub guest_mem_available: u64,
    /// Share of the guest's CPU time that is in use, from zero to one.
    pub guest_cpu_percent: Single,
    /// MiB per second.
    pub guest_io_rate: Single,
    pub gap: u64,
}

/// All thresholds are ratios, not byte counts, so the engine scales across
/// 16 GB laptops and 128 GB servers.
///
/// The one absolute value is `baseline_gap`, the overhead of WSL2 itself that
/// should never be reclaimed.
#[derive(Debug, Clone, Copy)]
pub struct ReclamationConfig {
    /// The gap that is expected overhead and subtracted before scoring.
    pub baseline_gap: u64,
    // gap thresholds, as fractions of the host's memory
    pub gap_ratio_mild: Single,
    pub gap_ratio_moderate: Single,
    pub gap_ratio_heavy: Single,
    pub gap_ratio_critical: Single,
    // thresholds of the host's memory utilisation
    pub host_memory_warning: Single,
    pub host_memory_pressure: Single,
    // when the guest counts as idle
    pub guest_cpu_idle: Single,
    pub guest_mem_available_idle_ratio: Single,
    /// Kept for older configuration files; it gates nothing.
    pub guest_io_idle: Single,
    // sizing of a reclaim
    pub reclaim_ratio_moderate: Single,
    pub reclaim_ratio_heavy: Single,
    pub reclaim_floor_ratio: Single,
    pub reclaim_cap_moderate: Single,
    pub reclaim_cap_heavy: Single,
    // timing
    pub sustained_windows: usize,
    pub cooldown_moderate: Interval,
    pub cooldown_heavy: Interval,
    pub cooldown_critical: Interval,
}

/// What the guest is told to do.
#[derive(Debug, Clone, Copy, PartialEq, Eq, Structural)]
pub enum ReclamationAction {
    NoAction,
    GradualReclaim { bytes: u64 },
    Compact,
    DropCaches { level: u8 },
}

/// The part of the gap that is not expected overhead.
pub open spec fn effective_gap(m: SystemMetrics, baseline: u64) -> u64 {
    if m.gap >= baseline {
        (m.gap - baseline) as u64
    } else {
        0
    }
}

/// The effective gap as a fraction of the host's memory.
pub open spec fn gap_ratio(m: SystemMetrics, baseline: u64) -> nat {
    if m.host_memory_total > 0 {
        binary::ratio(effective_gap(m, baseline), m.host_memory_total)
    } else {
        0
    }
}

/// The share of the host's memory that is in use.
pub open spec fn host_used(m: SystemMetrics) -> int {
    if m.host_memory_total > 0 {
        binary::complement(binary::ratio(m.host_memory_avail, m.host_memory_total))
    } else {
        0
    }
}

/// The share of the guest's resident memory that is file cache.
pub open spec fn cache_ratio(m: SystemMetrics) -> nat {
    if m.guest_resident > 0 {
        binary::ratio(m.guest_file_cache, m.guest_resident)
    } else {
        0
    }
}

/// `n` per cent.
pub open spec fn percent(n: u64) -> int {
    binary::ratio(n, 100) as int
}

/// Gap dimension, zero to four.
pub open spec fn gap_score(m: SystemMetrics, cfg: ReclamationConfig) -> nat {
    let r = gap_ratio(m, cfg.baseline_gap) as int;
    if binary::at_least(r, cfg.gap_ratio_critical@) {
        4
    } else if binary::at_least(r, cfg.gap_ratio_heavy@) {
        3
    } else if binary::at_least(r, cfg.gap_ratio_moderate@) {
        2
    } else if binary::at_least(r, cfg.gap_ratio_mild@) {
        1
    } else {
        0
    }
}

/// Host memory dimension, zero to four.
pub open spec fn host_score(m: SystemMetrics, cfg: ReclamationConfig) -> nat {
    let used = host_used(m);
    if used > percent(95) {
        4
    } else if used > percent(90) {
        3
    } else if binary::above(used, cfg.host_memory_pressure@) {
        2
    } else if binary::above(used, cfg.host_memory_warning@) {
        1
    } else {
        0
    }
}

/// Dimension of the limit set in `.wslconfig`, zero to four.
pub open spec fn limit_score(m: SystemMetrics) -> nat {
    match m.wslconfig_memory_limit {
        Some(limit) if limit > 0 => {
            let r = binary::ratio(m.vmmem_rss, limit) as int;
            if r > percent(98) {
                4
            } else if r > percent(95) {
                3
            } else if r > percent(85) {
                2
            } else if r > percent(70) {
                1
            } else {
                0
            }
        },
        _ => 0,
    }
}

/// Cache dimension, zero to four.
pub open spec fn cache_score(m: SystemMetrics) -> nat {
    let r = cache_ratio(m) as int;
    if r > percent(90) {
        4
    } else if r > percent(80) {
        3
    } else if r > percent(60) {
        2
    } else if r > percent(40) {
        1
    } else {
        0
    }
}

/// A sample in which the gap is above its moderate threshold.
pub open spec fn gap_pressed(m: SystemMetrics, cfg: ReclamationConfig) -> bool {
    binary::at_least(gap_ratio(m, cfg.baseline_gap) as int, cfg.gap_ratio_moderate@)
}

/// A sample in which the host's memory is under pressure.
pub open spec fn host_pressed(m: SystemMetrics, cfg: ReclamationConfig) -> bool {
    m.host_memory_total > 0 && binary::above(host_used(m), cfg.host_memory_pressure@)
}

/// A sample in which most of the guest's memory is cache.
pub open spec fn cache_pressed(m: SystemMetrics) -> bool {
    m.guest_resident > 0 && cache_ratio(m) > percent(60)
}

/// One if `holds`, else zero.
pub open spec fn tally(holds: bool) -> nat {
    if holds {
        1
    } else {
        0
    }
}

/// How many of gap, host memory and cache have been pressed in each of the
/// last `sustained_windows` samples.
pub open spec fn sustained(cfg: ReclamationConfig, history: Seq<SystemMetrics>) -> nat {
    let n = cfg.sustained_windows;
    if history.len() < n {
        0
    } else {
        let recent = history.skip(history.len() - n);
        tally(forall|i: int| 0 <= i < recent.len() ==> gap_pressed(#[trigger] recent[i], cfg))
            + tally(
            forall|i: int| 0 <= i < recent.len() ==> host_pressed(#[trigger] recent[i], cfg),
        ) + tally(forall|i: int| 0 <= i < recent.len() ==> cache_pressed(#[trigger] recent[i]))
    }
}

/// The weighted score of a sample, in hundredths:
///
/// | dimension | weight | max | weighted max |
/// |-----------|--------|-----|--------------|
/// | gap       |    30% |   4 |         1.20 |
/// | host      |    25% |   4 |         1.00 |
/// | limit     |    15% |   4 |         0.60 |
/// | cache     |    20% |   4 |         0.80 |
/// | sustained |    10% |   3 |         0.30 |
pub open spec fn score(
    cfg: ReclamationConfig,
    history: Seq<SystemMetrics>,
    m: SystemMetrics,
) -> nat {
    gap_score(m, cfg) * 30 + host_score(m, cfg) * 25 + limit_score(m) * 15 + cache_score(m) * 20
        + sustained(cfg, history) * 10
}

/// The level of a score in hundredths.
pub open spec fn level_of(score: nat) -> PressureLevel {
    if score >= 350 {
        PressureLevel::Critical
    } else if score >= 250 {
        PressureLevel::Heavy
    } else if score >= 150 {
        PressureLevel::Moderate
    } else if score >= 50 {
        PressureLevel::Mild
    } else {
        PressureLevel::NoPressure
    }
}

/// What the engine knows.
pub struct Engine {
    pub config: ReclamationConfig,
    /// The latest samples, oldest first.
    pub history: Seq<SystemMetrics>,
    pub last_moderate: Option<Timestamp>,
    pub last_heavy: Option<Timestamp>,
    pub last_critical: Option<Timestamp>,
}

/// `history` with one more sample, the oldest dropped where there are too many.
pub open spec fn remember<T>(history: Seq<T>, m: T) -> Seq<T> {
    let longer = history.push(m);
    if longer.len() > HISTORY {
        longer.skip(1)
    } else {
        longer
    }
}

impl Engine {
    /// The engine remembers a bounded number of samples.
    pub open spec fn wf(self) -> bool {
        self.history.len() <= HISTORY
    }

    /// The pressure of the latest sample.
    pub open spec fn level(self) -> PressureLevel {
        if self.history.len() == 0 {
            PressureLevel::NoPressure
        } else {
            level_of(score(self.config, self.history, self.history.last()))
        }
    }

    /// Whether the guest is quiet: little CPU time in use and enough memory
    /// available.
    pub open spec fn idle(self) -> bool {
        self.history.len() > 0 && {
            let m = self.history.last();
            &&& binary::less(m.guest_cpu_percent@, self.config.guest_cpu_idle@)
            &&& binary::at_least(
                guest_available(m) as int,
                self.config.guest_mem_available_idle_ratio@,
            )
        }
    }

    /// A reclaim of `fraction` of the effective gap, at least `floor` and, if
    /// that is not less, at most `cap` of the host's memory.
    pub open spec fn reclaim(self, fraction: Single, floor: Single, cap: Single)
        -> ReclamationAction {
        if self.history.len() == 0 {
            ReclamationAction::NoAction
        } else {
            let m = self.history.last();
            ReclamationAction::GradualReclaim {
                bytes: clamped(
                    binary::scaled(effective_gap(m, self.config.baseline_gap), fraction@),
                    binary::scaled(m.host_memory_total, floor@),
                    binary::scaled(m.host_memory_total, cap@),
                ),
            }
        }
    }

    pub open spec fn reclaim_moderate(self) -> ReclamationAction {
        self.reclaim(
            self.config.reclaim_ratio_moderate,
            self.config.reclaim_floor_ratio,
            self.config.reclaim_cap_moderate,
        )
    }

    pub open spec fn reclaim_heavy(self) -> ReclamationAction {
        self.reclaim(
            self.config.reclaim_ratio_heavy,
            self.config.reclaim_floor_ratio,
            self.config.reclaim_cap_heavy,
        )
    }

    /// The heavy reclaim, unless it is cooling down.
    pub open spec fn fall_back(self, now: Timestamp) -> (Engine, ReclamationAction) {
        if time::cooled_down(self.last_heavy, self.config.cooldown_heavy, now) {
            (Engine { last_heavy: Some(now), ..self }, self.reclaim_heavy())
        } else {
            (self, ReclamationAction::NoAction)
        }
    }

    /// The decision taken at `now`, and what the engine knows afterwards.
    pub open spec fn decide(self, now: Timestamp) -> (Engine, ReclamationAction) {
        match self.level() {
            PressureLevel::NoPressure | PressureLevel::Mild => (self, ReclamationAction::NoAction),
            PressureLevel::Moderate => if time::cooled_down(
                self.last_moderate,
                self.config.cooldown_moderate,
                now,
            ) {
                (Engine { last_moderate: Some(now), ..self }, self.reclaim_moderate())
            } else {
                (self, ReclamationAction::NoAction)
            },
            PressureLevel::Heavy => if time::cooled_down(
                self.last_heavy,
                self.config.cooldown_heavy,
                now,
            ) {
                (
                    Engine { last_heavy: Some(now), ..self },
                    if sustained(self.config, self.history) >= 2 {
                        ReclamationAction::Compact
                    } else {
                        self.reclaim_heavy()
                    },
                )
            } else {
                (self, ReclamationAction::NoAction)
            },
            PressureLevel::Critical => if time::cooled_down(
                self.last_critical,
                self.config.cooldown_critical,
                now,
            ) && self.idle() {
                (
                    Engine { last_critical: Some(now), ..self },
                    ReclamationAction::DropCaches { level: 3 },
                )
            } else {
                self.fall_back(now)
            },
        }
    }
}

/// The share of the guest's memory that is available.
pub open spec fn guest_available(m: SystemMetrics) -> nat {
    if m.guest_mem_total > 0 {
        binary::ratio(m.guest_mem_available, m.guest_mem_total)
    } else {
        0
    }
}

/// `n` held between `floor` and `cap`, or at `floor` where `cap` is less.
pub open spec fn clamped(n: u64, floor: u64, cap: u64) -> u64 {
    if n < floor {
        floor
    } else if n > cap {
        if cap > floor {
            cap
        } else {
            floor
        }
    } else {
        n
    }
}

/// Holds `n` between `floor` and the larger of `cap` and `floor`.
pub fn clamp(n: u64, floor: u64, cap: u64) -> (r: u64)
    ensures
        r == clamped(n, floor, cap),
{
    let cap: u64 = if cap > floor { cap } else { floor };
    if n < floor {
        floor
    } else if n > cap {
        cap
    } else {
        n
    }
}

/// A double-precision percentage.
fn per_cent(n: u64) -> (r: Double)
    ensures
        r@ == percent(n),
        r.wf(),
{
    Double::ratio(n, 100)
}

impl SystemMetrics {
    fn effective_gap(&self, baseline: u64) -> (r: u64)
        ensures
            r == effective_gap(*self, baseline),
    {
        self.gap.saturating_sub(baseline)
    }

    fn gap_ratio(&self, baseline: u64) -> (r: Double)
        ensures
            r@ == gap_ratio(*self, baseline),
            r.wf(),
            !r.negative,
            r.magnitude.exponent <= 171,
    {
        if self.host_memory_total > 0 {
            Double::ratio(self.effective_gap(baseline), self.host_memory_total)
        } else {
            Double::zero()
        }
    }

    fn host_used(&self) -> (r: Double)
        ensures
            r@ == host_used(*self),
            r.wf(),
            r.negative == (r@ < 0),
            r.magnitude.exponent <= 175,
    {
        if self.host_memory_total > 0 {
            Double::ratio(self.host_memory_avail, self.host_memory_total).complement()
        } else {
            Double::zero()
        }
    }

    fn cache_ratio(&self) -> (r: Double)
        ensures
            r@ == cache_ratio(*self),
            r.wf(),
            !r.negative,
            r.magnitude.exponent <= 171,
    {
        if self.guest_resident > 0 {
            Double::ratio(self.guest_file_cache, self.guest_resident)
        } else {
            Double::zero()
        }
    }

    fn gap_score(&self, cfg: &ReclamationConfig) -> (s: u64)
        ensures
            s == gap_score(*self, *cfg),
            s <= 4,
    {
        let r = self.gap_ratio(cfg.baseline_gap);
        if r.at_least(cfg.gap_ratio_critical) {
            4
        } else if r.at_least(cfg.gap_ratio_heavy) {
            3
        } else if r.at_least(cfg.gap_ratio_moderate) {
            2
        } else if r.at_least(cfg.gap_ratio_mild) {
            1
        } else {
            0
        }
    }

    fn host_score(&self, cfg: &ReclamationConfig) -> (s: u64)
        ensures
            s == host_score(*self, *cfg),
            s <= 4,
    {
        let used = self.host_used();
        if per_cent(95).smaller(used) {
            4
        } else if per_cent(90).smaller(used) {
            3
        } else if used.above(cfg.host_memory_pressure) {
            2
        } else if used.above(cfg.host_memory_warning) {
            1
        } else {
            0
        }
    }

    fn limit_score(&self) -> (s: u64)
        ensures
            s == limit_score(*self),
            s <= 4,
    {
        match self.wslconfig_memory_limit {
            Some(limit) => {
                if limit == 0 {
                    return 0;
                }
                let r = Double::ratio(self.vmmem_rss, limit);
                if per_cent(98).smaller(r) {
                    4
                } else if per_cent(95).smaller(r) {
                    3
                } else if per_cent(85).smaller(r) {
                    2
                } else if per_cent(70).smaller(r) {
                    1
                } else {
                    0
                }
            },
            None => 0,
        }
    }

    fn cache_score(&self) -> (s: u64)
        ensures
            s == cache_score(*self),
            s <= 4,
    {
        let r = self.cache_ratio();
        if per_cent(90).smaller(r) {
            4
        } else if per_cent(80).smaller(r) {
            3
        } else if per_cent(60).smaller(r) {
            2
        } else if per_cent(40).smaller(r) {
            1
        } else {
            0
        }
    }

    fn gap_pressed(&self, cfg: &ReclamationConfig) -> (r: bool)
        ensures
            r == gap_pressed(*self, *cfg),
    {
        self.gap_ratio(cfg.baseline_gap).at_least(cfg.gap_ratio_moderate)
    }

    fn host_pressed(&self, cfg: &ReclamationConfig) -> (r: bool)
        ensures
            r == host_pressed(*self, *cfg),
    {
        self.host_memory_total > 0 && self.host_used().above(cfg.host_memory_pressure)
    }

    fn cache_pressed(&self) -> (r: bool)
        ensures
            r == cache_pressed(*self),
    {
        self.guest_resident > 0 && per_cent(60).smaller(self.cache_ratio())
    }

    fn guest_available(&self) -> (r: Double)
        ensures
            r@ == guest_available(*self),
            r.wf(),
    {
        if self.guest_mem_total > 0 {
            Double::ratio(self.guest_mem_available, self.guest_mem_total)
        } else {
            Double::zero()
        }
    }
}

/// The level of a score in hundredths.
pub fn score_to_level(score: u64) -> (level: PressureLevel)
    ensures
        level == level_of(score as nat),
{
    if score >= 350 {
        PressureLevel::Critical
    } else if score >= 250 {
        PressureLevel::Heavy
    } else if score >= 150 {
        PressureLevel::Moderate
    } else if score >= 50 {
        PressureLevel::Mild
    } else {
        PressureLevel::NoPressure
    }
}

/// The host's decision engine for one guest.
pub struct ElasticReclaimer {
    config: ReclamationConfig,
    metrics_history: VecDeque<SystemMetrics>,
    last_moderate_time: Option<Timestamp>,
    last_heavy_time: Option<Timestamp>,
    last_critical_time: Option<Timestamp>,
}

impl View for ElasticReclaimer {
    type V = Engine;

    closed spec fn view(&self) -> Engine {
        Engine {
            config: self.config,
            history: self.metrics_history@,
            last_moderate: self.last_moderate_time,
            last_heavy: self.last_heavy_time,
            last_critical: self.last_critical_time,
        }
    }
}

impl ElasticReclaimer {
    /// An engine that has seen nothing yet.
    pub fn new(config: ReclamationConfig) -> (r: Self)
        ensures
            r@ == (Engine {
                config,
                history: Seq::empty(),
                last_moderate: None,
                last_heavy: None,
                last_critical: None,
            }),
            r@.wf(),
    {
        ElasticReclaimer {
            config,
            metrics_history: VecDeque::with_capacity(HISTORY),
            last_moderate_time: None,
            last_heavy_time: None,
            last_critical_time: None,
        }
    }

    /// Remembers a sample, and forgets the oldest where there are too many.
    pub fn push_metrics(&mut self, metrics: SystemMetrics)
        ensures
            final(self)@ == (Engine {
                history: remember(old(self)@.history, metrics),
                ..old(self)@
            }),
            old(self)@.wf() ==> final(self)@.wf(),
    {
        self.metrics_history.push_back(metrics);
        if self.metrics_history.len() > HISTORY {
            self.metrics_history.pop_front();
        }
    }

    /// The latest sample.
    fn latest(&self) -> (r: Option<SystemMetrics>)
        ensures
            r == (if self@.history.len() > 0 {
                Some(self@.history.last())
            } else {
                None
            }),
    {
        let n = self.metrics_history.len();
        if n > 0 {
            Some(self.metrics_history[n - 1])
        } else {
            None
        }
    }

    /// The pressure of the latest sample.
    pub fn calculate_pressure_level(&self) -> (level: PressureLevel)
        ensures
            level == self@.level(),
    {
        match self.latest() {
            Some(m) => score_to_level(self.score_metrics(&m)),
            None => PressureLevel::NoPressure,
        }
    }

    /// The weighted score of a sample, in hundredths.
    pub fn score_metrics(&self, m: &SystemMetrics) -> (s: u64)
        ensures
            s == score(self@.config, self@.history, *m),
            s <= 390,
    {
        let cfg = &self.config;
        let gap: u64 = m.gap_score(cfg);
        let host: u64 = m.host_score(cfg);
        let limit: u64 = m.limit_score();
        let cache: u64 = m.cache_score();
        let sustained = self.check_sustained_pressure();
        gap * 30 + host * 25 + limit * 15 + cache * 20 + sustained as u64 * 10
    }

    /// How many of gap, host memory and cache have been pressed for the last
    /// `sustained_windows` samples.
    pub fn check_sustained_pressure(&self) -> (n: u8)
        ensures
            n == sustained(self@.config, self@.history),
            n <= 3,
    {
        let windows = self.config.sustained_windows;
        let len = self.metrics_history.len();
        if len < windows {
            return 0;
        }
        let cfg = self.config;
        let start = len - windows;
        let ghost recent = self@.history.skip(start as int);
        let mut gap = true;
        let mut host = true;
        let mut cache = true;
        let mut i: usize = start;
        while i < len
            invariant
                len == self.metrics_history@.len(),
                start <= i <= len,
                cfg == self.config,
                recent == self.metrics_history@.skip(start as int),
                gap == (forall|j: int|
                    0 <= j < i - start ==> gap_pressed(#[trigger] recent[j], cfg)),
                host == (forall|j: int|
                    0 <= j < i - start ==> host_pressed(#[trigger] recent[j], cfg)),
                cache == (forall|j: int|
                    0 <= j < i - start ==> cache_pressed(#[trigger] recent[j])),
            decreases len - i,
        {
            let m = self.metrics_history[i];
            assert(recent[i - start] == m);
            gap = gap && m.gap_pressed(&cfg);
            host = host && m.host_pressed(&cfg);
            cache = cache && m.cache_pressed();
            i = i + 1;
        }
        let mut level: u8 = 0;
        if gap {
            level = level + 1;
        }
        if host {
            level = level + 1;
        }
        if cache {
            level = level + 1;
        }
        level
    }

    /// Whether the guest is quiet, by CPU time and available memory.
    pub fn is_system_idle(&self) -> (r: bool)
        ensures
            r == self@.idle(),
    {
        match self.latest() {
            Some(m) => m.guest_cpu_percent.less(self.config.guest_cpu_idle)
                && m.guest_available().at_least(self.config.guest_mem_available_idle_ratio),
            None => false,
        }
    }

    /// Decides what the guest should do, at the time `now`.
    pub fn decide_action(&mut self, now: Timestamp) -> (action: ReclamationAction)
        ensures
            (final(self)@, action) == old(self)@.decide(now),
            old(self)@.wf() ==> final(self)@.wf(),
    {
        match self.calculate_pressure_level() {
            PressureLevel::NoPressure | PressureLevel::Mild => ReclamationAction::NoAction,
            PressureLevel::Moderate => {
                if !cooldown_elapsed(self.last_moderate_time, self.config.cooldown_moderate, now) {
                    return ReclamationAction::NoAction;
                }
                self.last_moderate_time = Some(now);
                self.reclaim_action(
                    self.config.reclaim_ratio_moderate,
                    self.config.reclaim_floor_ratio,
                    self.config.reclaim_cap_moderate,
                )
            },
            PressureLevel::Heavy => {
                if !cooldown_elapsed(self.last_heavy_time, self.config.cooldown_heavy, now) {
                    return ReclamationAction::NoAction;
                }
                self.last_heavy_time = Some(now);
                if self.check_sustained_pressure() >= 2 {
                    ReclamationAction::Compact
                } else {
                    self.reclaim_action(
                        self.config.reclaim_ratio_heavy,
                        self.config.reclaim_floor_ratio,
                        self.config.reclaim_cap_heavy,
                    )
                }
            },
            PressureLevel::Critical => {
                if !cooldown_elapsed(self.last_critical_time, self.config.cooldown_critical, now) {
                    return self.fallback_heavy(now);
                }
                if self.is_system_idle() {
                    self.last_critical_time = Some(now);
                    ReclamationAction::DropCaches { level: 3 }
                } else {
                    // a busy guest keeps its caches
                    self.fallback_heavy(now)
                }
            },
        }
    }

    fn fallback_heavy(&mut self, now: Timestamp) -> (action: ReclamationAction)
        ensures
            (final(self)@, action) == old(self)@.fall_back(now),
    {
        if !cooldown_elapsed(self.last_heavy_time, self.config.cooldown_heavy, now) {
            return ReclamationAction::NoAction;
        }
        self.last_heavy_time = Some(now);
        self.reclaim_action(
            self.config.reclaim_ratio_heavy,
            self.config.reclaim_floor_ratio,
            self.config.reclaim_cap_heavy,
        )
    }

    /// A reclaim sized as a fraction of the effective gap, held between a
    /// floor and a cap that are fractions of the host's memory.
    fn reclaim_action(&self, gap_fraction: Single, floor_ratio: Single, cap_ratio: Single)
        -> (action: ReclamationAction)
        ensures
            action == self@.reclaim(gap_fraction, floor_ratio, cap_ratio),
    {
        match self.latest() {
            Some(m) => {
                let target = scale(m.effective_gap(self.config.baseline_gap), gap_fraction);
                let floor = scale(m.host_memory_total, floor_ratio);
                let cap = scale(m.host_memory_total, cap_ratio);
                ReclamationAction::GradualReclaim { bytes: clamp(target, floor, cap) }
            },
            None => ReclamationAction::NoAction,
        }
    }
}

impl ReclamationConfig {
    /// The values that are used unless told otherwise.
    pub open spec fn is_default(self) -> bool {
        &&& self.baseline_gap == 2 * GB
        &&& self.gap_ratio_mild@ == binary::single_ratio(1, 100)
        &&& self.gap_ratio_moderate@ == binary::single_ratio(3, 100)
        &&& self.gap_ratio_heavy@ == binary::single_ratio(6, 100)
        &&& self.gap_ratio_critical@ == binary::single_ratio(12, 100)
        &&& self.host_memory_warning@ == binary::single_ratio(70, 100)
        &&& self.host_memory_pressure@ == binary::single_ratio(80, 100)
        &&& self.guest_cpu_idle@ == binary::single_ratio(5, 100)
        &&& self.guest_mem_available_idle_ratio@ == binary::single_ratio(15, 100)
        &&& self.guest_io_idle@ == binary::single_ratio(10, 1)
        &&& self.reclaim_ratio_moderate@ == binary::single_ratio(20, 100)
        &&& self.reclaim_ratio_heavy@ == binary::single_ratio(50, 100)
        &&& self.reclaim_floor_ratio@ == binary::single_ratio(1, 1000)
        &&& self.reclaim_cap_moderate@ == binary::single_ratio(8, 1000)
        &&& self.reclaim_cap_heavy@ == binary::single_ratio(16, 1000)
        &&& self.sustained_windows == 3
        &&& self.cooldown_moderate == (Interval { secs: 10, nanos: 0 })
        &&& self.cooldown_heavy == (Interval { secs: 30, nanos: 0 })
        &&& self.cooldown_critical == (Interval { secs: 600, nanos: 0 })
    }
}

impl Default for ReclamationConfig {
    fn default() -> (r: Self)
        ensures
            r.is_default(),
    {
        ReclamationConfig {
            baseline_gap: 2 * GB,
            gap_ratio_mild: Single::ratio(1, 100),
            gap_ratio_moderate: Single::ratio(3, 100),
            gap_ratio_heavy: Single::ratio(6, 100),
            gap_ratio_critical: Single::ratio(12, 100),
            host_memory_warning: Single::ratio(70, 100),
            host_memory_pressure: Single::ratio(80, 100),
            guest_cpu_idle: Single::ratio(5, 100),
            guest_mem_available_idle_ratio: Single::ratio(15, 100),
            guest_io_idle: Single::ratio(10, 1),
            reclaim_ratio_moderate: Single::ratio(20, 100),
            reclaim_ratio_heavy: Single::ratio(50, 100),
            reclaim_floor_ratio: Single::ratio(1, 1000),
            reclaim_cap_moderate: Single::ratio(8, 1000),
            reclaim_cap_heavy: Single::ratio(16, 1000),
            sustained_windows: 3,
            cooldown_moderate: Interval::from_secs(10),
            cooldown_heavy: Interval::from_secs(30),
            cooldown_critical: Interval::from_secs(600),
        }
    }
}

impl PressureLevel {
    /// The name of the level.
    pub open spec fn spec_name(self) -> Seq<char> {
        match self {
            PressureLevel::NoPressure => "None"@,
            PressureLevel::Mild => "Mild"@,
            PressureLevel::Moderate => "Moderate"@,
            PressureLevel::Heavy => "Heavy"@,
            PressureLevel::Critical => "Critical"@,
        }
    }

    /// The name of the level.
    pub fn name(self) -> (s: &'static str)
        ensures
            s@ == self.spec_name(),
    {
        match self {
            PressureLevel::NoPressure => "None",
            PressureLevel::Mild => "Mild",
            PressureLevel::Moderate => "Moderate",
            PressureLevel::Heavy => "Heavy",
            PressureLevel::Critical => "Critical",
        }
    }
}

/// `x`, a number of units, with `places` decimal places.
pub open spec fn shown(x: int, places: nat) -> Seq<char> {
    let size = if x < 0 {
        (-x) as nat
    } else {
        x as nat
    };
    let digits = text::with_places(
        rounding::nearest(size * text::tens(places), binary::one()),
        places,
    );
    if x < 0 {
        seq!['-'] + digits
    } else {
        digits
    }
}

/// One hundred times `x`, in double precision.
pub open spec fn hundredfold(x: int) -> int {
    if x < 0 {
        -(rounding::round(53, (-x) as nat * 100, 1) as int)
    } else {
        rounding::round(53, x as nat * 100, 1) as int
    }
}

/// A size in GiB.
pub open spec fn gigabytes(bytes: u64) -> int {
    binary::ratio(bytes, GB) as int
}

/// Appends a number with `places` decimal places.
fn push_shown(s: &mut String, x: Double, places: u32)
    requires
        places <= 2,
        x.magnitude.mantissa <= 0x20_0000_0000_0000,
        x.magnitude.exponent <= 185,
        x.negative ==> x@ < 0,
    ensures
        final(s)@ == old(s)@ + shown(x@, places as nat),
{
    proof {
        reveal_with_fuel(text::tens, 3);
    }
    let step: u64 = if places == 0 {
        1
    } else if places == 1 {
        10
    } else {
        100
    };
    if x.negative {
        s.push('-');
    }
    push_places(s, x.steps(step), places);
    assert(s@ =~= old(s)@ + shown(x@, places as nat));
}

impl Engine {
    /// The engine's view of the latest sample, in words.
    pub open spec fn diagnostics(self) -> Seq<char> {
        if self.history.len() == 0 {
            "No metrics available"@
        } else {
            let m = self.history.last();
            let points = score(self.config, self.history, m);
            "Pressure: "@ + self.level().spec_name() + " (score="@ + text::with_places(points, 2)
                + ", sustained="@ + text::decimal(sustained(self.config, self.history))
                + "/3), Gap: "@ + shown(gigabytes(m.gap), 2) + "GB (eff "@ + shown(
                gigabytes(effective_gap(m, self.config.baseline_gap)),
                2,
            ) + "GB, base "@ + shown(gigabytes(self.config.baseline_gap), 1) + "GB), Host: "@
                + shown(hundredfold(host_used(m)), 1) + "% used, Cache: "@ + shown(
                gigabytes(m.guest_file_cache),
                2,
            ) + "GB ("@ + shown(hundredfold(cache_ratio(m) as int), 0) + "%)"@
        }
    }
}

impl ElasticReclaimer {
    /// The engine's view of the latest sample, in words.
    pub fn get_diagnostics(&self) -> (s: String)
        ensures
            s@ == self@.diagnostics(),
    {
        let m = match self.latest() {
            Some(m) => m,
            None => {
                return "No metrics available".to_owned();
            },
        };
        let base = self.config.baseline_gap;
        let mut s = "Pressure: ".to_owned();
        s.append(self.calculate_pressure_level().name());
        s.append(" (score=");
        push_places(&mut s, self.score_metrics(&m) as u128, 2);
        s.append(", sustained=");
        push_decimal(&mut s, self.check_sustained_pressure() as u128);
        s.append("/3), Gap: ");
        push_shown(&mut s, Double::ratio(m.gap, GB), 2);
        s.append("GB (eff ");
        push_shown(&mut s, Double::ratio(m.effective_gap(base), GB), 2);
        s.append("GB, base ");
        push_shown(&mut s, Double::ratio(base, GB), 1);
        s.append("GB), Host: ");
        push_shown(&mut s, m.host_used().hundredfold(), 1);
        s.append("% used, Cache: ");
        push_shown(&mut s, Double::ratio(m.guest_file_cache, GB), 2);
        s.append("GB (");
        push_shown(&mut s, m.cache_ratio().hundredfold(), 0);
        s.append("%)");
        s
    }
}

} // verus!
