//! What a score is made of: which samples count, which sizes are compared, and
//! what each dimension weighs.

use crate::binary;
use crate::elastic_reclaim;
use crate::elastic_reclaim::{Engine, PressureLevel, ReclamationConfig, SystemMetrics};
use crate::laws;
use crate::text;
use vstd::prelude::*;

verus! {

/// How many of four conditions hold.
pub open spec fn count(a: bool, b: bool, c: bool, d: bool) -> nat {
    elastic_reclaim::tally(a) + elastic_reclaim::tally(b) + elastic_reclaim::tally(c)
        + elastic_reclaim::tally(d)
}

/// The threshold `a` is reached wherever `b` is.
pub open spec fn no_higher(a: binary::Num, b: binary::Num) -> bool {
    forall|x: int| #[trigger] binary::at_least(x, b) ==> binary::at_least(x, a)
}

/// The threshold `a` is exceeded wherever `b` is.
pub open spec fn exceeded_first(a: binary::Num, b: binary::Num) -> bool {
    forall|x: int| #[trigger] binary::above(x, b) ==> binary::above(x, a)
}

/// With thresholds in order, the gap scores one for each threshold that its
/// share of the host's memory reaches. The gap is what exceeds the baseline.
pub proof fn gap_scores_its_thresholds(m: SystemMetrics, cfg: ReclamationConfig)
    requires
        m.host_memory_total > 0,
        m.gap >= cfg.baseline_gap,
        no_higher(cfg.gap_ratio_mild@, cfg.gap_ratio_moderate@),
        no_higher(cfg.gap_ratio_moderate@, cfg.gap_ratio_heavy@),
        no_higher(cfg.gap_ratio_heavy@, cfg.gap_ratio_critical@),
    ensures
        ({
            let r = binary::ratio((m.gap - cfg.baseline_gap) as u64, m.host_memory_total) as int;
            elastic_reclaim::gap_score(m, cfg) == count(
                binary::at_least(r, cfg.gap_ratio_mild@),
                binary::at_least(r, cfg.gap_ratio_moderate@),
                binary::at_least(r, cfg.gap_ratio_heavy@),
                binary::at_least(r, cfg.gap_ratio_critical@),
            )
        }),
{
}

/// With thresholds in order, the host scores one for each of the warning, the
/// pressure, 90 % and 95 % that the share of its memory in use exceeds.
pub proof fn host_scores_its_thresholds(m: SystemMetrics, cfg: ReclamationConfig)
    requires
        m.host_memory_total > 0,
        exceeded_first(cfg.host_memory_warning@, cfg.host_memory_pressure@),
        forall|x: int|
            x > elastic_reclaim::percent(90) ==> #[trigger] binary::above(
                x,
                cfg.host_memory_pressure@,
            ),
    ensures
        ({
            let used = binary::complement(
                binary::ratio(m.host_memory_avail, m.host_memory_total),
            );
            elastic_reclaim::host_score(m, cfg) == count(
                binary::above(used, cfg.host_memory_warning@),
                binary::above(used, cfg.host_memory_pressure@),
                used > binary::ratio(90, 100),
                used > binary::ratio(95, 100),
            )
        }),
{
    laws::lemma_ratio_grows(90, 95, 100);
}

/// The limit of `.wslconfig` scores one for each of 70 %, 85 %, 95 % and 98 %
/// that `vmmem` exceeds of it.
pub proof fn limit_scores_its_thresholds(m: SystemMetrics, limit: u64)
    requires
        m.wslconfig_memory_limit == Some(limit),
        limit > 0,
    ensures
        ({
            let r = binary::ratio(m.vmmem_rss, limit);
            elastic_reclaim::limit_score(m) == count(
                r > binary::ratio(70, 100),
                r > binary::ratio(85, 100),
                r > binary::ratio(95, 100),
                r > binary::ratio(98, 100),
            )
        }),
{
    laws::lemma_ratio_grows(70, 85, 100);
    laws::lemma_ratio_grows(85, 95, 100);
    laws::lemma_ratio_grows(95, 98, 100);
}

/// The cache scores one for each of 40 %, 60 %, 80 % and 90 % of the resident
/// memory that it exceeds.
pub proof fn cache_scores_its_thresholds(m: SystemMetrics)
    requires
        m.guest_resident > 0,
    ensures
        ({
            let r = binary::ratio(m.guest_file_cache, m.guest_resident);
            elastic_reclaim::cache_score(m) == count(
                r > binary::ratio(40, 100),
                r > binary::ratio(60, 100),
                r > binary::ratio(80, 100),
                r > binary::ratio(90, 100),
            )
        }),
{
    laws::lemma_ratio_grows(40, 60, 100);
    laws::lemma_ratio_grows(60, 80, 100);
    laws::lemma_ratio_grows(80, 90, 100);
}

/// What cannot be compared scores nothing: a host or a guest without memory,
/// and a limit that is not set or zero.
pub proof fn unknown_sizes_score_nothing(m: SystemMetrics, cfg: ReclamationConfig)
    requires
        !binary::at_least(0, cfg.gap_ratio_mild@),
        no_higher(cfg.gap_ratio_mild@, cfg.gap_ratio_moderate@),
        no_higher(cfg.gap_ratio_moderate@, cfg.gap_ratio_heavy@),
        no_higher(cfg.gap_ratio_heavy@, cfg.gap_ratio_critical@),
        !binary::above(0, cfg.host_memory_warning@),
        exceeded_first(cfg.host_memory_warning@, cfg.host_memory_pressure@),
    ensures
        m.host_memory_total == 0 ==> elastic_reclaim::gap_score(m, cfg) == 0,
        m.host_memory_total == 0 ==> elastic_reclaim::host_score(m, cfg) == 0,
        m.wslconfig_memory_limit is None ==> elastic_reclaim::limit_score(m) == 0,
        m.wslconfig_memory_limit == Some(0u64) ==> elastic_reclaim::limit_score(m) == 0,
        m.guest_resident == 0 ==> elastic_reclaim::cache_score(m) == 0,
{
}

/// Each dimension goes by its own sizes, and the dimensions add up: 30 for a
/// step of the gap, 25 of the host, 15 of the limit, 20 of the cache and 10 for
/// each dimension under sustained pressure. CPU, traffic and the guest's
/// headroom do not score.
pub proof fn dimensions_add_up(
    cfg: ReclamationConfig,
    before: Seq<SystemMetrics>,
    after: Seq<SystemMetrics>,
    a: SystemMetrics,
    b: SystemMetrics,
)
    ensures
        elastic_reclaim::score(cfg, after, b) - elastic_reclaim::score(cfg, before, a) == 30 * (
        elastic_reclaim::gap_score(b, cfg) - elastic_reclaim::gap_score(a, cfg)) + 25 * (
        elastic_reclaim::host_score(b, cfg) - elastic_reclaim::host_score(a, cfg)) + 15 * (
        elastic_reclaim::limit_score(b) - elastic_reclaim::limit_score(a)) + 20 * (
        elastic_reclaim::cache_score(b) - elastic_reclaim::cache_score(a)) + 10 * (
        elastic_reclaim::sustained(cfg, after) - elastic_reclaim::sustained(cfg, before)),
        a.gap == b.gap && a.host_memory_total == b.host_memory_total ==>
            elastic_reclaim::gap_score(a, cfg) == elastic_reclaim::gap_score(b, cfg),
        a.host_memory_avail == b.host_memory_avail && a.host_memory_total == b.host_memory_total
            ==> elastic_reclaim::host_score(a, cfg) == elastic_reclaim::host_score(b, cfg),
        a.vmmem_rss == b.vmmem_rss && a.wslconfig_memory_limit == b.wslconfig_memory_limit ==>
            elastic_reclaim::limit_score(a) == elastic_reclaim::limit_score(b),
        a.guest_file_cache == b.guest_file_cache && a.guest_resident == b.guest_resident ==>
            elastic_reclaim::cache_score(a) == elastic_reclaim::cache_score(b),
{
}

/// The sustained count goes by the latest samples alone: histories that are
/// long enough and end in the same `sustained_windows` samples have the same
/// count.
pub proof fn sustained_goes_by_latest_samples(
    cfg: ReclamationConfig,
    a: Seq<SystemMetrics>,
    b: Seq<SystemMetrics>,
)
    requires
        a.len() >= cfg.sustained_windows,
        b.len() >= cfg.sustained_windows,
        forall|k: int|
            1 <= k <= cfg.sustained_windows ==> a[a.len() - k] == #[trigger] b[b.len() - k],
    ensures
        elastic_reclaim::sustained(cfg, a) == elastic_reclaim::sustained(cfg, b),
{
    let n = cfg.sustained_windows;
    let x = a.skip(a.len() - n);
    let y = b.skip(b.len() - n);
    assert forall|i: int| 0 <= i < n implies x[i] == y[i] by {
        assert(a[a.len() - (n - i)] == b[b.len() - (n - i)]);
    }
    assert(x =~= y);
}

/// Whether a sample reaches the moderate threshold of the gap.
pub open spec fn reaches_gap(m: SystemMetrics, cfg: ReclamationConfig) -> bool {
    binary::at_least(
        if m.host_memory_total == 0 || m.gap < cfg.baseline_gap {
            0
        } else {
            binary::ratio((m.gap - cfg.baseline_gap) as u64, m.host_memory_total) as int
        },
        cfg.gap_ratio_moderate@,
    )
}

/// Whether the share of the host's memory in use exceeds the pressure
/// threshold in a sample.
pub open spec fn exceeds_host(m: SystemMetrics, cfg: ReclamationConfig) -> bool {
    m.host_memory_total > 0 && binary::above(
        binary::complement(binary::ratio(m.host_memory_avail, m.host_memory_total)),
        cfg.host_memory_pressure@,
    )
}

/// Whether the cache exceeds 60 % of the resident memory in a sample.
pub open spec fn exceeds_cache(m: SystemMetrics) -> bool {
    m.guest_resident > 0 && binary::ratio(m.guest_file_cache, m.guest_resident) > binary::ratio(
        60,
        100,
    )
}

proof fn lemma_pressed(m: SystemMetrics, cfg: ReclamationConfig)
    ensures
        elastic_reclaim::gap_pressed(m, cfg) == reaches_gap(m, cfg),
        elastic_reclaim::host_pressed(m, cfg) == exceeds_host(m, cfg),
        elastic_reclaim::cache_pressed(m) == exceeds_cache(m),
{
    if m.gap <= cfg.baseline_gap {
        laws::baseline_is_no_gap(m, cfg.baseline_gap);
    }
}

/// Any one of the latest samples that a dimension does not press takes that
/// dimension out of the sustained count, and so does the latest sample.
pub proof fn one_calm_sample_breaks_the_run(
    cfg: ReclamationConfig,
    history: Seq<SystemMetrics>,
    k: int,
)
    requires
        1 <= k <= cfg.sustained_windows,
        cfg.sustained_windows <= history.len(),
    ensures
        ({
            let m = history[history.len() - k];
            elastic_reclaim::sustained(cfg, history) <= elastic_reclaim::tally(
                reaches_gap(m, cfg),
            ) + elastic_reclaim::tally(exceeds_host(m, cfg)) + elastic_reclaim::tally(
                exceeds_cache(m),
            )
        }),
{
    let n = cfg.sustained_windows;
    let m = history[history.len() - k];
    let recent = history.skip(history.len() - n);
    lemma_pressed(m, cfg);
    assert(recent[n - k] == m);
}

/// A dimension that all of the latest samples press is counted; where they
/// press all three the count is three, and where there are too few samples it
/// is zero.
pub proof fn pressed_samples_are_counted(cfg: ReclamationConfig, history: Seq<SystemMetrics>)
    ensures
        history.len() < cfg.sustained_windows ==> elastic_reclaim::sustained(cfg, history) == 0,
        history.len() >= cfg.sustained_windows ==> {
            let n = cfg.sustained_windows;
            elastic_reclaim::sustained(cfg, history) == elastic_reclaim::tally(
                forall|k: int|
                    1 <= k <= n ==> #[trigger] reaches_gap(history[history.len() - k], cfg),
            ) + elastic_reclaim::tally(
                forall|k: int|
                    1 <= k <= n ==> #[trigger] exceeds_host(history[history.len() - k], cfg),
            ) + elastic_reclaim::tally(
                forall|k: int|
                    1 <= k <= n ==> #[trigger] exceeds_cache(history[history.len() - k]),
            )
        },
{
    let n = cfg.sustained_windows;
    if history.len() >= n {
        let recent = history.skip(history.len() - n);
        assert forall|i: int| 0 <= i < recent.len() implies {
            let m = #[trigger] recent[i];
            &&& elastic_reclaim::gap_pressed(m, cfg) == reaches_gap(m, cfg)
            &&& elastic_reclaim::host_pressed(m, cfg) == exceeds_host(m, cfg)
            &&& elastic_reclaim::cache_pressed(m) == exceeds_cache(m)
        } by {
            lemma_pressed(recent[i], cfg);
        }
        assert forall|k: int| 1 <= k <= n implies #[trigger] history[history.len() - k]
            == recent[n - k] by {}
        lemma_run(
            history,
            n as int,
            |m: SystemMetrics| elastic_reclaim::gap_pressed(m, cfg),
            |m: SystemMetrics| reaches_gap(m, cfg),
        );
        lemma_run(
            history,
            n as int,
            |m: SystemMetrics| elastic_reclaim::host_pressed(m, cfg),
            |m: SystemMetrics| exceeds_host(m, cfg),
        );
        lemma_run(
            history,
            n as int,
            |m: SystemMetrics| elastic_reclaim::cache_pressed(m),
            |m: SystemMetrics| exceeds_cache(m),
        );
    }
}

/// All of the last `n` samples, counted from either end.
proof fn lemma_run(
    history: Seq<SystemMetrics>,
    n: int,
    p: spec_fn(SystemMetrics) -> bool,
    q: spec_fn(SystemMetrics) -> bool,
)
    requires
        0 <= n <= history.len(),
        forall|i: int|
            0 <= i < n ==> p(#[trigger] history.skip(history.len() - n)[i]) == q(
                history.skip(history.len() - n)[i],
            ),
    ensures
        (forall|i: int|
            0 <= i < history.skip(history.len() - n).len() ==> p(
                #[trigger] history.skip(history.len() - n)[i],
            )) == (forall|k: int| 1 <= k <= n ==> q(#[trigger] history[history.len() - k])),
{
    let recent = history.skip(history.len() - n);
    if forall|i: int| 0 <= i < recent.len() ==> p(#[trigger] recent[i]) {
        assert forall|k: int| 1 <= k <= n implies q(#[trigger] history[history.len() - k]) by {
            assert(recent[n - k] == history[history.len() - k]);
        }
    } else {
        let i = choose|i: int| 0 <= i < recent.len() && !p(#[trigger] recent[i]);
        assert(recent[i] == history[history.len() - (n - i)]);
    }
}

/// The level rises by one at each of 0.50, 1.50, 2.50 and 3.50.
pub proof fn level_counts_its_thresholds(score: nat)
    ensures
        laws::rank(elastic_reclaim::level_of(score)) == count(
            score >= 50,
            score >= 150,
            score >= 250,
            score >= 350,
        ),
{
}

/// The pressure is that of the latest sample, and goes by the latest samples
/// alone.
pub proof fn level_goes_by_latest_samples(a: Engine, b: Engine)
    requires
        a.config == b.config,
        a.history.len() > 0,
        b.history.len() > 0,
        a.history.last() == b.history.last(),
        a.history.len() >= a.config.sustained_windows,
        b.history.len() >= a.config.sustained_windows,
        forall|k: int|
            1 <= k <= a.config.sustained_windows ==> a.history[a.history.len() - k]
                == #[trigger] b.history[b.history.len() - k],
    ensures
        a.level() == b.level(),
        laws::rank(a.level()) == count(
            elastic_reclaim::score(a.config, a.history, b.history.last()) >= 50,
            elastic_reclaim::score(a.config, a.history, b.history.last()) >= 150,
            elastic_reclaim::score(a.config, a.history, b.history.last()) >= 250,
            elastic_reclaim::score(a.config, a.history, b.history.last()) >= 350,
        ),
        (Engine { history: Seq::empty(), ..a }).level() == PressureLevel::NoPressure,
{
    sustained_goes_by_latest_samples(a.config, a.history, b.history);
}

/// The engine tells level, score, sustained count and gap of the latest sample
/// in words, in this order, and the share of the cache last.
pub proof fn diagnostics_tell_the_score(e: Engine)
    requires
        e.history.len() > 0,
    ensures
        ({
            let m = e.history.last();
            let score = elastic_reclaim::score(e.config, e.history, m);
            let sustained = elastic_reclaim::sustained(e.config, e.history);
            &&& text::begins(
                e.diagnostics(),
                "Pressure: "@ + e.level().spec_name() + " (score="@ + text::with_places(score, 2)
                    + ", sustained="@ + text::decimal(sustained) + "/3), Gap: "@
                    + elastic_reclaim::shown(elastic_reclaim::gigabytes(m.gap), 2) + "GB (eff "@,
            )
            &&& text::ends(
                e.diagnostics(),
                elastic_reclaim::shown(elastic_reclaim::gigabytes(m.guest_file_cache), 2)
                    + "GB ("@ + elastic_reclaim::shown(
                    elastic_reclaim::hundredfold(elastic_reclaim::cache_ratio(m) as int),
                    0,
                ) + "%)"@,
            )
        }),
{
    let m = e.history.last();
    let score = elastic_reclaim::score(e.config, e.history, m);
    let sustained = elastic_reclaim::sustained(e.config, e.history);
    let head = "Pressure: "@ + e.level().spec_name() + " (score="@ + text::with_places(score, 2)
        + ", sustained="@ + text::decimal(sustained) + "/3), Gap: "@ + elastic_reclaim::shown(
        elastic_reclaim::gigabytes(m.gap),
        2,
    ) + "GB (eff "@;
    let tail = elastic_reclaim::shown(elastic_reclaim::gigabytes(m.guest_file_cache), 2) + "GB ("@
        + elastic_reclaim::shown(
        elastic_reclaim::hundredfold(elastic_reclaim::cache_ratio(m) as int),
        0,
    ) + "%)"@;
    let all = e.diagnostics();
    assert(all.take(head.len() as int) =~= head);
    assert(all.skip(all.len() - tail.len()) =~= tail);
}

} // verus!
