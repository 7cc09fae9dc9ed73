//! What holds of the engines over several calls and for all samples.

use crate::binary;
use crate::binary::Single;
use crate::elastic_reclaim;
use crate::elastic_reclaim::{
    Engine, PressureLevel, ReclamationAction, ReclamationConfig, SystemMetrics, HISTORY,
};
use crate::guest_local;
use crate::guest_local::{GuestLocalAction, GuestLocalMetrics, Local};
use crate::protocol;
use crate::rounding;
use crate::time;
use crate::time::Timestamp;
use vstd::arithmetic::div_mod::*;
use vstd::arithmetic::power2::*;
use vstd::prelude::*;

verus! {

/// The latest sample is remembered, and so are the ones before it, as far as
/// there is room.
pub proof fn latest_samples_are_remembered<T>(history: Seq<T>, m: T)
    requires
        history.len() <= HISTORY,
    ensures
        ({
            let next = elastic_reclaim::remember(history, m);
            &&& 0 < next.len() <= HISTORY
            &&& next.last() == m
            &&& next.drop_last() == history.skip(history.len() + 1 - next.len())
        }),
{
    let next = elastic_reclaim::remember(history, m);
    assert(next.drop_last() =~= history.skip(history.len() + 1 - next.len()));
}

/// A score lies between zero and 3.90.
pub proof fn score_is_bounded(
    cfg: ReclamationConfig,
    history: Seq<SystemMetrics>,
    m: SystemMetrics,
)
    ensures
        elastic_reclaim::score(cfg, history, m) <= 390,
{
}

/// The levels, from none up.
pub open spec fn rank(level: PressureLevel) -> nat {
    match level {
        PressureLevel::NoPressure => 0,
        PressureLevel::Mild => 1,
        PressureLevel::Moderate => 2,
        PressureLevel::Heavy => 3,
        PressureLevel::Critical => 4,
    }
}

/// A higher score never means a lower level.
pub proof fn level_grows_with_score(a: nat, b: nat)
    requires
        a <= b,
    ensures
        rank(elastic_reclaim::level_of(a)) <= rank(elastic_reclaim::level_of(b)),
{
}

/// A gap within the baseline counts as no gap.
pub proof fn baseline_is_no_gap(m: SystemMetrics, baseline: u64)
    requires
        m.gap <= baseline,
    ensures
        elastic_reclaim::effective_gap(m, baseline) == 0,
        elastic_reclaim::gap_ratio(m, baseline) == 0,
{
    if m.host_memory_total > 0 {
        lemma_double_positive(m.host_memory_total);
        lemma_round_zero(1);
        lemma_round_zero(binary::double_of(m.host_memory_total));
        assert(0 * binary::one() == 0);
    }
}

pub proof fn lemma_round_zero(d: nat)
    requires
        d > 0,
    ensures
        rounding::round(53, 0, d) == 0,
{
    lemma_pow2_pos(53);
    rounding::lemma_round_exact(53, 0, 0);
    rounding::lemma_round_cancel(53, 0, 1, d);
    assert(0 * d == 0);
    assert(1 * d == d);
    assert(0 * pow2(0) == 0);
}

pub proof fn lemma_double_positive(n: u64)
    requires
        n > 0,
    ensures
        binary::double_of(n) > 0,
{
    binary::lemma_round_positive(53, n as nat, 1);
}

/// A hundredth of nothing is nothing.
pub proof fn lemma_hundredth_of_zero()
    ensures
        binary::hundredth(binary::Num::Finite { units: 0 }) == (binary::Num::Finite { units: 0 }),
{
    lemma_pow2_pos(24);
    rounding::lemma_round_exact(24, 0, 0);
    rounding::lemma_round_cancel(24, 0, 1, 100);
    assert(0 * pow2(0) == 0);
    lemma_pow2_pos(277);
}

/// Little pressure changes nothing and asks for nothing.
pub proof fn little_pressure_is_left_alone(e: Engine, now: Timestamp)
    requires
        rank(e.level()) <= 1,
    ensures
        e.decide(now) == (e, ReclamationAction::NoAction),
{
}

/// A decision changes neither the configuration nor the samples.
pub proof fn decision_keeps_samples(e: Engine, now: Timestamp)
    ensures
        e.decide(now).0.config == e.config,
        e.decide(now).0.history == e.history,
{
}

/// Caches are dropped only under critical pressure, in a quiet guest, and not
/// again before the critical cooldown is over.
pub proof fn caches_are_dropped_last(e: Engine, now: Timestamp)
    requires
        e.decide(now).1 is DropCaches,
    ensures
        e.level() == PressureLevel::Critical,
        e.idle(),
        time::cooled_down(e.last_critical, e.config.cooldown_critical, now),
        e.decide(now) == (
            Engine { last_critical: Some(now), ..e },
            ReclamationAction::DropCaches { level: 3 },
        ),
{
}

/// Under critical pressure a busy guest keeps its caches: it is asked for a
/// heavy reclaim, or for nothing while that cools down.
pub proof fn busy_guest_keeps_its_caches(e: Engine, now: Timestamp)
    requires
        e.level() == PressureLevel::Critical,
        !e.idle(),
    ensures
        e.decide(now) == e.fall_back(now),
        e.decide(now).1 == e.reclaim_heavy() || e.decide(now).1 == ReclamationAction::NoAction,
{
}

/// After a moderate reclaim there is no other one at moderate pressure until
/// its cooldown is over, whatever samples come in.
pub proof fn moderate_cooldown_is_kept(
    e: Engine,
    now: Timestamp,
    history: Seq<SystemMetrics>,
    later: Timestamp,
)
    requires
        e.level() == PressureLevel::Moderate,
        e.decide(now).1 != ReclamationAction::NoAction,
        time::since(later, now) < e.config.cooldown_moderate@,
    ensures
        ({
            let next = Engine { history, ..e.decide(now).0 };
            next.level() == PressureLevel::Moderate ==> next.decide(later) == (
                next,
                ReclamationAction::NoAction,
            )
        }),
{
}

/// After a heavy reclaim or a compaction there is no other one until the heavy
/// cooldown is over, whatever samples come in; all that can come is what
/// moderate pressure asks for, or dropped caches.
pub proof fn heavy_cooldown_is_kept(
    e: Engine,
    now: Timestamp,
    history: Seq<SystemMetrics>,
    later: Timestamp,
)
    requires
        rank(e.level()) >= 3,
        e.decide(now).1 is GradualReclaim || e.decide(now).1 is Compact,
        time::since(later, now) < e.config.cooldown_heavy@,
    ensures
        ({
            let next = Engine { history, ..e.decide(now).0 };
            let action = next.decide(later).1;
            &&& !(action is Compact)
            &&& rank(next.level()) >= 3 ==> !(action is GradualReclaim)
        }),
{
}

/// Caches that have been dropped are not dropped again until the critical
/// cooldown is over, whatever samples come in.
pub proof fn critical_cooldown_is_kept(
    e: Engine,
    now: Timestamp,
    history: Seq<SystemMetrics>,
    later: Timestamp,
)
    requires
        e.decide(now).1 is DropCaches,
        time::since(later, now) < e.config.cooldown_critical@,
    ensures
        !((Engine { history, ..e.decide(now).0 }).decide(later).1 is DropCaches),
{
}

/// A size held between floor and cap is at least the floor, and at most the
/// larger of both.
pub proof fn clamped_size_is_in_range(n: u64, floor: u64, cap: u64)
    ensures
        ({
            let r = elastic_reclaim::clamped(n, floor, cap);
            &&& floor <= r
            &&& r <= cap || r == floor
            &&& floor <= n <= cap ==> r == n
        }),
{
}

/// What the host asks to reclaim lies between the floor and the cap of the
/// level, which are shares of the host's memory.
pub proof fn reclaim_is_bounded(e: Engine, now: Timestamp)
    ensures
        e.decide(now).1 matches ReclamationAction::GradualReclaim { bytes } ==> {
            let m = e.history.last();
            let floor = binary::scaled(m.host_memory_total, e.config.reclaim_floor_ratio@);
            let cap = binary::scaled(
                m.host_memory_total,
                if e.level() == PressureLevel::Moderate {
                    e.config.reclaim_cap_moderate@
                } else {
                    e.config.reclaim_cap_heavy@
                },
            );
            &&& e.history.len() > 0
            &&& floor <= bytes
            &&& bytes <= cap || bytes == floor
        },
{
}

/// A ratio stays the same when both sizes grow by a power of two.
pub proof fn ratio_is_scale_free(n: u64, d: u64, e: nat)
    requires
        d > 0,
        n * pow2(e) <= u64::MAX,
        d * pow2(e) <= u64::MAX,
    ensures
        binary::ratio((n * pow2(e)) as u64, (d * pow2(e)) as u64) == binary::ratio(n, d),
{
    let c = pow2(e);
    let x = binary::double_of(n);
    let y = binary::double_of(d);
    lemma_pow2_pos(e);
    lemma_double_positive(d);
    rounding::lemma_round_scale_whole(53, n as nat, e);
    rounding::lemma_round_scale_whole(53, d as nat, e);
    assert((x * c) * binary::one() == (x * binary::one()) * c) by (nonlinear_arith);
    rounding::lemma_round_cancel(53, x * binary::one(), y, c);
}

/// A size that has grown by a power of two.
pub open spec fn times(n: u64, e: nat) -> u64 {
    (n * pow2(e)) as u64
}

/// Whether all sizes of a sample can grow by a power of two.
pub open spec fn can_grow(m: SystemMetrics, e: nat) -> bool {
    &&& m.vmmem_rss * pow2(e) <= u64::MAX
    &&& m.host_memory_total * pow2(e) <= u64::MAX
    &&& m.host_memory_avail * pow2(e) <= u64::MAX
    &&& m.wslconfig_memory_limit matches Some(l) ==> l * pow2(e) <= u64::MAX
    &&& m.guest_resident * pow2(e) <= u64::MAX
    &&& m.guest_file_cache * pow2(e) <= u64::MAX
    &&& m.gap * pow2(e) <= u64::MAX
}

/// A sample whose sizes have grown by a power of two.
pub open spec fn grown(m: SystemMetrics, e: nat) -> SystemMetrics {
    SystemMetrics {
        vmmem_rss: times(m.vmmem_rss, e),
        host_memory_total: times(m.host_memory_total, e),
        host_memory_avail: times(m.host_memory_avail, e),
        wslconfig_memory_limit: match m.wslconfig_memory_limit {
            Some(l) => Some(times(l, e)),
            None => None,
        },
        guest_resident: times(m.guest_resident, e),
        guest_file_cache: times(m.guest_file_cache, e),
        gap: times(m.gap, e),
        ..m
    }
}

/// A configuration whose baseline has grown by a power of two.
pub open spec fn grown_config(cfg: ReclamationConfig, e: nat) -> ReclamationConfig {
    ReclamationConfig { baseline_gap: times(cfg.baseline_gap, e), ..cfg }
}

proof fn lemma_times(a: u64, b: u64, e: nat)
    requires
        a * pow2(e) <= u64::MAX,
        b * pow2(e) <= u64::MAX,
    ensures
        times(a, e) == a * pow2(e),
        (times(a, e) > 0) == (a > 0),
        (times(a, e) >= times(b, e)) == (a >= b),
        times(a, e) - times(b, e) == (a - b) * pow2(e),
{
    let c = pow2(e);
    lemma_pow2_pos(e);
    assert((a * c > 0) == (a > 0)) by (nonlinear_arith)
        requires
            c > 0,
            a >= 0,
    ;
    assert((a * c >= b * c) == (a >= b)) by (nonlinear_arith)
        requires
            c > 0,
    ;
    assert(a * c - b * c == (a - b) * c) by (nonlinear_arith);
}

/// The ratios of a grown sample are those of the sample.
proof fn lemma_grown_ratios(cfg: ReclamationConfig, m: SystemMetrics, e: nat)
    requires
        can_grow(m, e),
        cfg.baseline_gap * pow2(e) <= u64::MAX,
    ensures
        ({
            let g = grown(m, e);
            let base = times(cfg.baseline_gap, e);
            &&& elastic_reclaim::gap_ratio(g, base) == elastic_reclaim::gap_ratio(
                m,
                cfg.baseline_gap,
            )
            &&& elastic_reclaim::host_used(g) == elastic_reclaim::host_used(m)
            &&& elastic_reclaim::cache_ratio(g) == elastic_reclaim::cache_ratio(m)
            &&& elastic_reclaim::limit_score(g) == elastic_reclaim::limit_score(m)
            &&& (g.host_memory_total > 0) == (m.host_memory_total > 0)
            &&& (g.guest_resident > 0) == (m.guest_resident > 0)
        }),
{
    let c = pow2(e);
    let base = cfg.baseline_gap;
    lemma_pow2_pos(e);
    lemma_times(m.gap, base, e);
    lemma_times(m.host_memory_total, 0, e);
    lemma_times(m.guest_resident, 0, e);
    let gap = elastic_reclaim::effective_gap(m, base);
    assert(gap * c <= u64::MAX) by (nonlinear_arith)
        requires
            gap <= m.gap,
            m.gap * c <= u64::MAX,
            c > 0,
    ;
    assert(0 * c == 0);
    assert(elastic_reclaim::effective_gap(grown(m, e), times(base, e)) == times(gap, e));
    if m.host_memory_total > 0 {
        ratio_is_scale_free(gap, m.host_memory_total, e);
        ratio_is_scale_free(m.host_memory_avail, m.host_memory_total, e);
    }
    if m.guest_resident > 0 {
        ratio_is_scale_free(m.guest_file_cache, m.guest_resident, e);
    }
    if let Some(limit) = m.wslconfig_memory_limit {
        lemma_times(limit, 0, e);
        if limit > 0 {
            ratio_is_scale_free(m.vmmem_rss, limit, e);
        }
    }
}

/// The score goes by ratios alone: it stays the same when all sizes grow by a
/// power of two.
pub proof fn score_is_scale_free(
    cfg: ReclamationConfig,
    history: Seq<SystemMetrics>,
    m: SystemMetrics,
    e: nat,
)
    requires
        cfg.baseline_gap * pow2(e) <= u64::MAX,
        can_grow(m, e),
        forall|i: int| 0 <= i < history.len() ==> can_grow(#[trigger] history[i], e),
    ensures
        elastic_reclaim::score(
            grown_config(cfg, e),
            history.map_values(|h: SystemMetrics| grown(h, e)),
            grown(m, e),
        ) == elastic_reclaim::score(cfg, history, m),
{
    let big = grown_config(cfg, e);
    let grown_history = history.map_values(|h: SystemMetrics| grown(h, e));
    lemma_grown_ratios(cfg, m, e);
    assert forall|i: int| 0 <= i < history.len() implies {
        let h = #[trigger] history[i];
        let g = grown_history[i];
        &&& elastic_reclaim::gap_pressed(g, big) == elastic_reclaim::gap_pressed(h, cfg)
        &&& elastic_reclaim::host_pressed(g, big) == elastic_reclaim::host_pressed(h, cfg)
        &&& elastic_reclaim::cache_pressed(g) == elastic_reclaim::cache_pressed(h)
    } by {
        assert(grown_history[i] == grown(history[i], e));
        lemma_grown_ratios(cfg, history[i], e);
    }
    let n = cfg.sustained_windows;
    if history.len() >= n {
        let recent = history.skip(history.len() - n);
        let big_recent = grown_history.skip(history.len() - n);
        assert forall|i: int| 0 <= i < recent.len() implies {
            let h = #[trigger] recent[i];
            let g = big_recent[i];
            &&& elastic_reclaim::gap_pressed(g, big) == elastic_reclaim::gap_pressed(h, cfg)
            &&& elastic_reclaim::host_pressed(g, big) == elastic_reclaim::host_pressed(h, cfg)
            &&& elastic_reclaim::cache_pressed(g) == elastic_reclaim::cache_pressed(h)
        } by {
            assert(recent[i] == history[history.len() - n + i]);
            assert(big_recent[i] == grown_history[history.len() - n + i]);
        }
        lemma_all_agree(
            recent,
            big_recent,
            |h: SystemMetrics| elastic_reclaim::gap_pressed(h, cfg),
            |g: SystemMetrics| elastic_reclaim::gap_pressed(g, big),
        );
        lemma_all_agree(
            recent,
            big_recent,
            |h: SystemMetrics| elastic_reclaim::host_pressed(h, cfg),
            |g: SystemMetrics| elastic_reclaim::host_pressed(g, big),
        );
        lemma_all_agree(
            recent,
            big_recent,
            |h: SystemMetrics| elastic_reclaim::cache_pressed(h),
            |g: SystemMetrics| elastic_reclaim::cache_pressed(g),
        );
    }
}

/// Two predicates that agree sample by sample agree on all samples.
proof fn lemma_all_agree(
    a: Seq<SystemMetrics>,
    b: Seq<SystemMetrics>,
    p: spec_fn(SystemMetrics) -> bool,
    q: spec_fn(SystemMetrics) -> bool,
)
    requires
        a.len() == b.len(),
        forall|i: int| 0 <= i < a.len() ==> p(#[trigger] a[i]) == q(b[i]),
    ensures
        (forall|i: int| 0 <= i < a.len() ==> p(#[trigger] a[i])) == (forall|i: int|
            0 <= i < b.len() ==> q(#[trigger] b[i])),
{
    if forall|i: int| 0 <= i < a.len() ==> p(#[trigger] a[i]) {
        assert forall|i: int| 0 <= i < b.len() implies q(#[trigger] b[i]) by {
            assert(p(a[i]));
        }
    } else {
        let i = choose|i: int| 0 <= i < a.len() && !p(#[trigger] a[i]);
        assert(!q(b[i]));
    }
}

/// A larger part is no smaller share.
pub proof fn lemma_ratio_grows(a: u64, b: u64, d: u64)
    requires
        a <= b,
        d > 0,
    ensures
        binary::ratio(a, d) <= binary::ratio(b, d),
{
    lemma_double_positive(d);
    rounding::lemma_round_monotone(53, a as nat, b as nat, 1);
    let x = binary::double_of(a);
    let y = binary::double_of(b);
    assert(x * binary::one() <= y * binary::one()) by (nonlinear_arith)
        requires
            x <= y,
    ;
    rounding::lemma_round_monotone(53, x * binary::one(), y * binary::one(), binary::double_of(d));
}

/// What is left over of a larger share is no larger.
proof fn lemma_complement_shrinks(x: nat, y: nat)
    requires
        x <= y,
    ensures
        binary::complement(y) <= binary::complement(x),
{
    let one = binary::one();
    if y <= one {
        rounding::lemma_round_monotone(53, (one - y) as nat, (one - x) as nat, 1);
    } else if x > one {
        rounding::lemma_round_monotone(53, (x - one) as nat, (y - one) as nat, 1);
    }
}

/// `b` shows at least as much pressure as `a`, by every measure.
pub open spec fn presses_no_less(a: SystemMetrics, b: SystemMetrics) -> bool {
    &&& a.gap <= b.gap
    &&& a.host_memory_total == b.host_memory_total
    &&& a.host_memory_avail >= b.host_memory_avail
    &&& a.vmmem_rss <= b.vmmem_rss
    &&& a.wslconfig_memory_limit == b.wslconfig_memory_limit
    &&& a.guest_resident == b.guest_resident
    &&& a.guest_file_cache <= b.guest_file_cache
}

/// More pressure by every measure never scores less.
pub proof fn score_grows_with_pressure(
    cfg: ReclamationConfig,
    history: Seq<SystemMetrics>,
    a: SystemMetrics,
    b: SystemMetrics,
)
    requires
        presses_no_less(a, b),
    ensures
        elastic_reclaim::score(cfg, history, a) <= elastic_reclaim::score(cfg, history, b),
{
    let base = cfg.baseline_gap;
    if a.host_memory_total > 0 {
        lemma_ratio_grows(
            elastic_reclaim::effective_gap(a, base),
            elastic_reclaim::effective_gap(b, base),
            a.host_memory_total,
        );
        lemma_ratio_grows(b.host_memory_avail, a.host_memory_avail, a.host_memory_total);
        lemma_complement_shrinks(
            binary::ratio(b.host_memory_avail, a.host_memory_total),
            binary::ratio(a.host_memory_avail, a.host_memory_total),
        );
    }
    if a.guest_resident > 0 {
        lemma_ratio_grows(a.guest_file_cache, b.guest_file_cache, a.guest_resident);
    }
    if let Some(limit) = a.wslconfig_memory_limit {
        if limit > 0 {
            lemma_ratio_grows(a.vmmem_rss, b.vmmem_rss, limit);
        }
    }
    assert(elastic_reclaim::gap_score(a, cfg) <= elastic_reclaim::gap_score(b, cfg));
    assert(elastic_reclaim::host_score(a, cfg) <= elastic_reclaim::host_score(b, cfg));
    assert(elastic_reclaim::limit_score(a) <= elastic_reclaim::limit_score(b));
    assert(elastic_reclaim::cache_score(a) <= elastic_reclaim::cache_score(b));
}

/// A share of more memory is no smaller.
pub proof fn share_grows_with_memory(a: u64, b: u64, f: binary::Num)
    requires
        a <= b,
    ensures
        binary::scaled(a, f) <= binary::scaled(b, f),
{
    if let binary::Num::Finite { units } = f {
        if units > 0 {
            let x = binary::double_of(a);
            let y = binary::double_of(b);
            rounding::lemma_round_monotone(53, a as nat, b as nat, 1);
            assert(x * units <= y * units) by (nonlinear_arith)
                requires
                    x <= y,
                    units > 0,
            ;
            rounding::lemma_round_monotone(53, x * units as nat, y * units as nat, 1);
            lemma_pow2_pos(149);
            lemma_div_is_ordered(
                rounding::round(53, x * units as nat, 1) as int,
                rounding::round(53, y * units as nat, 1) as int,
                binary::one() as int,
            );
        }
    }
}

/// A larger share of the same memory is no smaller; a share of nothing, and no
/// share, are nothing.
pub proof fn share_grows_with_fraction(n: u64, f: int, g: int)
    requires
        f <= g,
    ensures
        binary::scaled(n, binary::Num::Finite { units: f }) <= binary::scaled(
            n,
            binary::Num::Finite { units: g },
        ),
        binary::scaled(n, binary::Num::Finite { units: 0 }) == 0,
        binary::scaled(0, binary::Num::Finite { units: g }) == 0,
{
    let x = binary::double_of(n);
    lemma_pow2_pos(149);
    if f > 0 {
        assert(x * f <= x * g) by (nonlinear_arith)
            requires
                f <= g,
                x >= 0,
        ;
        rounding::lemma_round_monotone(53, x * f as nat, x * g as nat, 1);
        lemma_div_is_ordered(
            rounding::round(53, x * f as nat, 1) as int,
            rounding::round(53, x * g as nat, 1) as int,
            binary::one() as int,
        );
    }
    if g > 0 {
        lemma_round_zero(1);
        assert(0 * g as nat == 0);
        lemma_div_basics(binary::one() as int);
    }
}

/// A larger gap on a larger host never means a smaller reclaim.
pub proof fn reclaim_grows_with_host(
    a: Engine,
    b: Engine,
    fraction: Single,
    floor: Single,
    cap: Single,
)
    requires
        a.config.baseline_gap == b.config.baseline_gap,
        a.history.len() > 0,
        b.history.len() > 0,
        a.history.last().gap <= b.history.last().gap,
        a.history.last().host_memory_total <= b.history.last().host_memory_total,
    ensures
        ({
            let x = a.reclaim(fraction, floor, cap);
            let y = b.reclaim(fraction, floor, cap);
            x is GradualReclaim && y is GradualReclaim && x->bytes <= y->bytes
        }),
{
    let m = a.history.last();
    let n = b.history.last();
    let base = a.config.baseline_gap;
    share_grows_with_memory(
        elastic_reclaim::effective_gap(m, base),
        elastic_reclaim::effective_gap(n, base),
        fraction@,
    );
    share_grows_with_memory(m.host_memory_total, n.host_memory_total, floor@);
    share_grows_with_memory(m.host_memory_total, n.host_memory_total, cap@);
}

/// After a command of the host the guest does nothing of its own, until the
/// time to defer is over.
pub proof fn guest_defers_to_host(l: Local, host_last_cmd: Timestamp, now: Timestamp)
    requires
        time::since(now, host_last_cmd) < l.config.host_defer@,
    ensures
        l.decide(Some(host_last_cmd), now) == (l, GuestLocalAction::Nothing),
{
}

/// After a reclaim of its own the guest does nothing until the cooldown is
/// over, whatever samples come in and whatever the host does.
pub proof fn guest_cooldown_is_kept(
    l: Local,
    host_last_cmd: Option<Timestamp>,
    now: Timestamp,
    history: Seq<GuestLocalMetrics>,
    host_then: Option<Timestamp>,
    later: Timestamp,
)
    requires
        l.decide(host_last_cmd, now).1 is Reclaim,
        time::since(later, now) < l.config.cooldown@,
    ensures
        ({
            let next = Local { history, ..l.decide(host_last_cmd, now).0 };
            next.decide(host_then, later) == (next, GuestLocalAction::Nothing)
        }),
{
}

/// A busy guest is left alone unless its cache is heavy.
pub proof fn moderate_cache_waits_for_idle(
    l: Local,
    host_last_cmd: Option<Timestamp>,
    now: Timestamp,
)
    requires
        l.history.len() > 0,
        !guest_local::quiet(l.history.last(), l.config),
        !guest_local::heavy(l.history.last(), l.config),
    ensures
        l.decide(host_last_cmd, now) == (l, GuestLocalAction::Nothing),
{
}

/// A high cache counts only once it has been seen often enough in a row.
pub proof fn guest_waits_for_sustained_pressure(
    l: Local,
    host_last_cmd: Option<Timestamp>,
    now: Timestamp,
)
    requires
        l.history.len() < l.config.sustained_ticks,
    ensures
        l.decide(host_last_cmd, now) == (l, GuestLocalAction::Nothing),
{
}

/// What the guest reclaims lies between a floor and a cap, which are shares of
/// its memory.
pub proof fn guest_reclaim_is_bounded(
    l: Local,
    host_last_cmd: Option<Timestamp>,
    now: Timestamp,
)
    ensures
        l.decide(host_last_cmd, now).1 matches GuestLocalAction::Reclaim { bytes } ==> {
            let m = l.history.last();
            let floor = binary::scaled(m.mem_total, l.config.reclaim_floor_ratio@);
            let cap = binary::scaled(m.mem_total, l.config.reclaim_cap_ratio@);
            &&& l.history.len() > 0
            &&& floor <= bytes
            &&& bytes <= cap || bytes == floor
        },
{
}

/// More cache in more memory never means a smaller reclaim of the guest.
pub proof fn guest_reclaim_grows_with_memory(a: Local, b: Local)
    requires
        a.config == b.config,
        a.history.len() > 0,
        b.history.len() > 0,
        a.history.last().file_cache <= b.history.last().file_cache,
        a.history.last().mem_total <= b.history.last().mem_total,
        guest_local::heavy(a.history.last(), a.config) == guest_local::heavy(
            b.history.last(),
            b.config,
        ),
    ensures
        a.size() <= b.size(),
{
    let m = a.history.last();
    let n = b.history.last();
    let cfg = a.config;
    share_grows_with_memory(m.file_cache, n.file_cache, cfg.reclaim_fraction_heavy@);
    share_grows_with_memory(m.file_cache, n.file_cache, cfg.reclaim_fraction_moderate@);
    share_grows_with_memory(m.mem_total, n.mem_total, cfg.reclaim_floor_ratio@);
    share_grows_with_memory(m.mem_total, n.mem_total, cfg.reclaim_cap_ratio@);
}

/// The host tells a guest to drop its caches only where the new sample shows
/// critical pressure and a quiet guest, and the critical cooldown is over.
pub proof fn drop_command_is_the_last_resort(
    e: Engine,
    s: SystemMetrics,
    now: Timestamp,
    nanos: u128,
)
    requires
        protocol::step(e, s, now, nanos).1 matches Some(c) && c.action == "drop_caches"@,
    ensures
        ({
            let sampled = Engine { history: elastic_reclaim::remember(e.history, s), ..e };
            &&& sampled.level() == PressureLevel::Critical
            &&& sampled.idle()
            &&& time::cooled_down(e.last_critical, e.config.cooldown_critical, now)
        }),
{
    reveal_strlit("reclaim");
    reveal_strlit("compact");
    reveal_strlit("drop_caches");
    assert("reclaim"@.len() == 7);
    assert("compact"@.len() == 7);
    assert("drop_caches"@.len() == 11);
    let sampled = Engine { history: elastic_reclaim::remember(e.history, s), ..e };
    caches_are_dropped_last(sampled, now);
}

} // verus!
