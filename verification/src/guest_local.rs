//! Reclamation that the guest decides on its own.
//!
//! The guest sees only its own memory, CPU and IO. It knows nothing of the
//! host's pressure, so it acts only where the file cache is clearly excessive,
//! and keeps silent for a while after each command of the host, which has the
//! wider view.

use crate::binary;
use crate::binary::{scale, Double, Single};
use crate::elastic_reclaim;
use crate::elastic_reclaim::{clamp, HISTORY};
use crate::time;
use crate::time::{cooldown_elapsed, Interval, Timestamp};
use std::collections::VecDeque;
use vstd::prelude::*;

verus! {

/// What the guest can read about itself. Sizes are in bytes.
#[derive(Debug, Clone, Copy)]
pub struct GuestLocalMetrics {
    pub mem_total: u64,
    pub mem_available: u64,
    pub file_cache: u64,
    pub resident: u64,
    /// Percentage of CPU time in use.
    pub cpu_percent: Single,
    /// MiB per second.
    pub io_rate: Single,
}

/// All thresholds are ratios; there are no byte counts.
#[derive(Debug, Clone, Copy)]
pub struct GuestLocalConfig {
    /// File cache, as a fraction of all memory, from which on memory is
    /// reclaimed.
    pub cache_ratio_moderate: Single,
    pub cache_ratio_heavy: Single,
    /// Available memory, as a fraction of all memory, below which there is
    /// pressure.
    pub avail_ratio_low: Single,
    /// CPU percentage below which the guest is idle.
    pub cpu_idle: Single,
    /// MiB per second below which the guest is idle.
    pub io_idle: Single,
    /// Fraction of the cache to reclaim at a time.
    pub reclaim_fraction_moderate: Single,
    pub reclaim_fraction_heavy: Single,
    /// Limits of a reclaim, as fractions of all memory.
    pub reclaim_floor_ratio: Single,
    pub reclaim_cap_ratio: Single,
    /// How many samples in a row have to show the pressure.
    pub sustained_ticks: usize,
    /// Time between two reclaims.
    pub cooldown: Interval,
    /// How long to keep silent after a command of the host.
    pub host_defer: Interval,
    /// Time between two samples.
    pub check_interval: Interval,
}

impl GuestLocalConfig {
    /// The values that are used unless told otherwise.
    pub open spec fn is_default(self) -> bool {
        &&& self.cache_ratio_moderate@ == binary::single_ratio(50, 100)
        &&& self.cache_ratio_heavy@ == binary::single_ratio(70, 100)
        &&& self.avail_ratio_low@ == binary::single_ratio(15, 100)
        &&& self.cpu_idle@ == binary::single_ratio(5, 1)
        &&& self.io_idle@ == binary::single_ratio(10, 1)
        &&& self.reclaim_fraction_moderate@ == binary::single_ratio(10, 100)
        &&& self.reclaim_fraction_heavy@ == binary::single_ratio(25, 100)
        &&& self.reclaim_floor_ratio@ == binary::single_ratio(2, 1000)
        &&& self.reclaim_cap_ratio@ == binary::single_ratio(10, 1000)
        &&& self.sustained_ticks == 3
        &&& self.cooldown == (Interval { secs: 15, nanos: 0 })
        &&& self.host_defer == (Interval { secs: 30, nanos: 0 })
        &&& self.check_interval == (Interval { secs: 5, nanos: 0 })
    }
}

impl Default for GuestLocalConfig {
    fn default() -> (r: Self)
        ensures
            r.is_default(),
    {
        GuestLocalConfig {
            cache_ratio_moderate: Single::ratio(50, 100),
            cache_ratio_heavy: Single::ratio(70, 100),
            avail_ratio_low: Single::ratio(15, 100),
            cpu_idle: Single::ratio(5, 1),
            io_idle: Single::ratio(10, 1),
            reclaim_fraction_moderate: Single::ratio(10, 100),
            reclaim_fraction_heavy: Single::ratio(25, 100),
            reclaim_floor_ratio: Single::ratio(2, 1000),
            reclaim_cap_ratio: Single::ratio(10, 1000),
            sustained_ticks: 3,
            cooldown: Interval::from_secs(15),
            host_defer: Interval::from_secs(30),
            check_interval: Interval::from_secs(5),
        }
    }
}

/// What the guest does.
#[derive(Debug, Clone, Copy, PartialEq, Eq, Structural)]
pub enum GuestLocalAction {
    Nothing,
    Reclaim { bytes: u64 },
}

/// The share of all memory that is file cache.
pub open spec fn cache_share(m: GuestLocalMetrics) -> nat {
    if m.mem_total > 0 {
        binary::ratio(m.file_cache, m.mem_total)
    } else {
        0
    }
}

/// The share of all memory that is available.
pub open spec fn available_share(m: GuestLocalMetrics) -> nat {
    if m.mem_total > 0 {
        binary::ratio(m.mem_available, m.mem_total)
    } else {
        binary::one()
    }
}

/// Little CPU time in use and little IO.
pub open spec fn quiet(m: GuestLocalMetrics, cfg: GuestLocalConfig) -> bool {
    binary::less(m.cpu_percent@, cfg.cpu_idle@) && binary::less(m.io_rate@, cfg.io_idle@)
}

/// The cache has reached the moderate threshold.
pub open spec fn cache_high(m: GuestLocalMetrics, cfg: GuestLocalConfig) -> bool {
    binary::at_least(cache_share(m) as int, cfg.cache_ratio_moderate@)
}

/// The cache has reached the heavy threshold, or the moderate one while
/// little memory is available.
pub open spec fn heavy(m: GuestLocalMetrics, cfg: GuestLocalConfig) -> bool {
    ||| binary::at_least(cache_share(m) as int, cfg.cache_ratio_heavy@)
    ||| cache_high(m, cfg) && binary::below(available_share(m) as int, cfg.avail_ratio_low@)
}

/// Each of the last `sustained_ticks` samples shows a high cache.
pub open spec fn cache_stays_high(cfg: GuestLocalConfig, history: Seq<GuestLocalMetrics>) -> bool {
    let n = cfg.sustained_ticks;
    &&& history.len() >= n
    &&& forall|i: int|
        history.len() - n <= i < history.len() ==> {
            let h = #[trigger] history[i];
            h.mem_total > 0 && cache_high(h, cfg)
        }
}

/// What the guest's reclaimer knows.
pub struct Local {
    pub config: GuestLocalConfig,
    /// The latest samples, oldest first.
    pub history: Seq<GuestLocalMetrics>,
    pub last_action: Option<Timestamp>,
}

impl Local {
    /// A bounded number of samples is remembered.
    pub open spec fn wf(self) -> bool {
        self.history.len() <= HISTORY
    }

    /// Neither deferring to the host nor cooling down.
    pub open spec fn ready(self, host_last_cmd: Option<Timestamp>, now: Timestamp) -> bool {
        &&& time::cooled_down(host_last_cmd, self.config.host_defer, now)
        &&& time::cooled_down(self.last_action, self.config.cooldown, now)
    }

    /// The latest sample calls for a reclaim: a heavy one always, a moderate
    /// one of an idle guest.
    pub open spec fn called_for(self) -> bool {
        self.history.len() > 0 && {
            let m = self.history.last();
            heavy(m, self.config) || (cache_high(m, self.config) && quiet(m, self.config))
        }
    }

    /// The size of a reclaim.
    pub open spec fn size(self) -> u64 {
        let m = self.history.last();
        let cfg = self.config;
        elastic_reclaim::clamped(
            binary::scaled(
                m.file_cache,
                if heavy(m, cfg) {
                    cfg.reclaim_fraction_heavy@
                } else {
                    cfg.reclaim_fraction_moderate@
                },
            ),
            binary::scaled(m.mem_total, cfg.reclaim_floor_ratio@),
            binary::scaled(m.mem_total, cfg.reclaim_cap_ratio@),
        )
    }

    /// The decision taken at `now`, and what is known afterwards.
    pub open spec fn decide(self, host_last_cmd: Option<Timestamp>, now: Timestamp) -> (
        Local,
        GuestLocalAction,
    ) {
        if self.ready(host_last_cmd, now) && self.called_for() && cache_stays_high(
            self.config,
            self.history,
        ) {
            (
                Local { last_action: Some(now), ..self },
                GuestLocalAction::Reclaim { bytes: self.size() },
            )
        } else {
            (self, GuestLocalAction::Nothing)
        }
    }
}

impl GuestLocalMetrics {
    fn cache_share(&self) -> (r: Double)
        ensures
            r@ == cache_share(*self),
            r.wf(),
    {
        if self.mem_total > 0 {
            Double::ratio(self.file_cache, self.mem_total)
        } else {
            Double::zero()
        }
    }

    fn available_share(&self) -> (r: Double)
        ensures
            r@ == available_share(*self),
            r.wf(),
    {
        if self.mem_total > 0 {
            Double::ratio(self.mem_available, self.mem_total)
        } else {
            Double::one()
        }
    }

    fn quiet(&self, cfg: &GuestLocalConfig) -> (r: bool)
        ensures
            r == quiet(*self, *cfg),
    {
        self.cpu_percent.less(cfg.cpu_idle) && self.io_rate.less(cfg.io_idle)
    }

    fn cache_high(&self, cfg: &GuestLocalConfig) -> (r: bool)
        ensures
            r == cache_high(*self, *cfg),
    {
        self.cache_share().at_least(cfg.cache_ratio_moderate)
    }

    fn heavy(&self, cfg: &GuestLocalConfig) -> (r: bool)
        ensures
            r == heavy(*self, *cfg),
    {
        self.cache_share().at_least(cfg.cache_ratio_heavy) || (self.cache_high(cfg)
            && self.available_share().below(cfg.avail_ratio_low))
    }
}

/// The guest's own reclaimer.
pub struct GuestLocalReclaimer {
    config: GuestLocalConfig,
    history: VecDeque<GuestLocalMetrics>,
    last_action: Option<Timestamp>,
}

impl View for GuestLocalReclaimer {
    type V = Local;

    closed spec fn view(&self) -> Local {
        Local {
            config: self.config,
            history: self.history@,
            last_action: self.last_action,
        }
    }
}

impl GuestLocalReclaimer {
    /// A reclaimer that has seen nothing yet.
    pub fn new(config: GuestLocalConfig) -> (r: Self)
        ensures
            r@ == (Local { config, history: Seq::empty(), last_action: None }),
            r@.wf(),
    {
        GuestLocalReclaimer {
            config,
            history: VecDeque::with_capacity(HISTORY),
            last_action: None,
        }
    }

    /// The configuration.
    pub fn config(&self) -> (r: &GuestLocalConfig)
        ensures
            *r == self@.config,
    {
        &self.config
    }

    /// Remembers a sample, and forgets the oldest where there are too many.
    pub fn push(&mut self, m: GuestLocalMetrics)
        ensures
            final(self)@ == (Local {
                history: elastic_reclaim::remember(old(self)@.history, m),
                ..old(self)@
            }),
            old(self)@.wf() ==> final(self)@.wf(),
    {
        self.history.push_back(m);
        if self.history.len() > HISTORY {
            self.history.pop_front();
        }
    }

    /// Decides what to do at the time `now`, the host having sent its last
    /// command at `host_last_cmd`.
    pub fn decide(&mut self, host_last_cmd: Option<Timestamp>, now: Timestamp)
        -> (action: GuestLocalAction)
        ensures
            (final(self)@, action) == old(self)@.decide(host_last_cmd, now),
            old(self)@.wf() ==> final(self)@.wf(),
    {
        // yield to the host
        if !cooldown_elapsed(host_last_cmd, self.config.host_defer, now) {
            return GuestLocalAction::Nothing;
        }
        if !cooldown_elapsed(self.last_action, self.config.cooldown, now) {
            return GuestLocalAction::Nothing;
        }
        let len = self.history.len();
        if len == 0 {
            return GuestLocalAction::Nothing;
        }
        let m = self.history[len - 1];
        let cfg = self.config;
        let heavy = m.heavy(&cfg);
        let moderate = !heavy && m.cache_high(&cfg);
        if !heavy && !moderate {
            return GuestLocalAction::Nothing;
        }
        // a moderate reclaim waits for an idle guest
        if moderate && !m.quiet(&cfg) {
            return GuestLocalAction::Nothing;
        }
        if !self.cache_stays_high() {
            return GuestLocalAction::Nothing;
        }
        let fraction = if heavy {
            cfg.reclaim_fraction_heavy
        } else {
            cfg.reclaim_fraction_moderate
        };
        let target = scale(m.file_cache, fraction);
        let floor = scale(m.mem_total, cfg.reclaim_floor_ratio);
        let cap = scale(m.mem_total, cfg.reclaim_cap_ratio);
        self.last_action = Some(now);
        GuestLocalAction::Reclaim { bytes: clamp(target, floor, cap) }
    }

    fn cache_stays_high(&self) -> (r: bool)
        ensures
            r == cache_stays_high(self@.config, self@.history),
    {
        let n = self.config.sustained_ticks;
        let len = self.history.len();
        if len < n {
            return false;
        }
        let cfg = self.config;
        let mut i: usize = len - n;
        while i < len
            invariant
                len == self.history@.len(),
                len - n <= i <= len,
                n <= len,
                cfg == self.config,
                n == cfg.sustained_ticks,
                forall|j: int|
                    len - n <= j < i ==> {
                        let h = #[trigger] self.history@[j];
                        h.mem_total > 0 && cache_high(h, cfg)
                    },
            decreases len - i,
        {
            let h = self.history[i];
            if !(h.mem_total > 0 && h.cache_high(&cfg)) {
                assert(self.history@[i as int] == h);
                return false;
            }
            i = i + 1;
        }
        true
    }
}

} // verus!
