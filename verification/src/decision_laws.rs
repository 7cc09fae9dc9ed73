//! What the engines decide: when they act, by how much, and what they keep.

use crate::binary;
use crate::binary::Single;
use crate::elastic_reclaim;
use crate::elastic_reclaim::{Engine, PressureLevel, ReclamationAction};
use crate::guest_local;
use crate::guest_local::{GuestLocalAction, GuestLocalMetrics, Local};
use crate::laws;
use crate::time;
use crate::time::{Interval, Timestamp};
use vstd::prelude::*;

verus! {

/// A cooldown is over from the very nanosecond on at which its span has gone
/// by, and there is none before the first time.
pub proof fn cooldown_ends_after_its_span(last: Timestamp, cooldown: Interval, now: Timestamp)
    requires
        last.nanos <= now.nanos,
    ensures
        time::cooled_down(Some(last), cooldown, now) <==> now.nanos - last.nanos
            >= cooldown.secs * 1_000_000_000 + cooldown.nanos,
        time::cooled_down(None, cooldown, now),
{
}

/// The guest is quiet by its latest sample alone: less CPU than the threshold,
/// and at least the given share of its memory available. Its traffic does not
/// matter.
pub proof fn quiet_guest_has_cpu_and_memory_to_spare(e: Engine)
    ensures
        e.history.len() == 0 ==> !e.idle(),
        e.history.len() > 0 && e.history.last().guest_mem_total > 0 ==> (e.idle() <==>
            binary::less(e.history.last().guest_cpu_percent@, e.config.guest_cpu_idle@)
            && binary::at_least(
            binary::ratio(
                e.history.last().guest_mem_available,
                e.history.last().guest_mem_total,
            ) as int,
            e.config.guest_mem_available_idle_ratio@,
        )),
        e.history.len() > 0 && e.history.last().guest_mem_total == 0 && !binary::at_least(
            0,
            e.config.guest_mem_available_idle_ratio@,
        ) ==> !e.idle(),
{
}

/// More memory available and less CPU in use keep a quiet guest quiet,
/// whatever its traffic is.
pub proof fn quiet_guest_stays_quiet(a: Engine, b: Engine)
    requires
        a.config == b.config,
        a.idle(),
        b.history.len() > 0,
        b.history.last().guest_mem_total == a.history.last().guest_mem_total,
        b.history.last().guest_mem_available >= a.history.last().guest_mem_available,
        b.history.last().guest_cpu_percent == a.history.last().guest_cpu_percent,
    ensures
        b.idle(),
{
    let m = a.history.last();
    let n = b.history.last();
    if m.guest_mem_total > 0 {
        laws::lemma_ratio_grows(
            m.guest_mem_available,
            n.guest_mem_available,
            m.guest_mem_total,
        );
    }
}

/// Under moderate pressure memory is reclaimed as soon as the moderate cooldown
/// is over, and only that cooldown starts anew.
pub proof fn moderate_pressure_is_acted_on(e: Engine, now: Timestamp)
    requires
        e.level() == PressureLevel::Moderate,
        e.last_moderate matches Some(t) ==> time::since(now, t) >= e.config.cooldown_moderate@,
    ensures
        e.decide(now).1 is GradualReclaim,
        e.decide(now).0.last_moderate == Some(now),
        e.decide(now).0.last_heavy == e.last_heavy,
        e.decide(now).0.last_critical == e.last_critical,
{
}

/// Under heavy pressure memory is compacted where at least two dimensions have
/// been under pressure for long, and reclaimed else, as soon as the heavy
/// cooldown is over; only that cooldown starts anew.
pub proof fn heavy_pressure_is_acted_on(e: Engine, now: Timestamp)
    requires
        e.level() == PressureLevel::Heavy,
        e.last_heavy matches Some(t) ==> time::since(now, t) >= e.config.cooldown_heavy@,
    ensures
        elastic_reclaim::sustained(e.config, e.history) >= 2 ==> e.decide(now).1 is Compact,
        elastic_reclaim::sustained(e.config, e.history) < 2 ==> e.decide(now).1 is GradualReclaim,
        e.decide(now).0.last_moderate == e.last_moderate,
        e.decide(now).0.last_heavy == Some(now),
        e.decide(now).0.last_critical == e.last_critical,
{
}

/// Under critical pressure the caches of a quiet guest are dropped as soon as
/// the critical cooldown is over, and only that cooldown starts anew. Else
/// memory is reclaimed, never compacted, as soon as the heavy cooldown is over.
pub proof fn critical_pressure_is_acted_on(e: Engine, now: Timestamp)
    requires
        e.level() == PressureLevel::Critical,
    ensures
        ({
            let cooled = e.last_critical matches Some(t) ==> time::since(now, t)
                >= e.config.cooldown_critical@;
            let heavy_cooled = e.last_heavy matches Some(t) ==> time::since(now, t)
                >= e.config.cooldown_heavy@;
            let (next, action) = e.decide(now);
            &&& next.last_moderate == e.last_moderate
            &&& e.idle() && cooled ==> action == (ReclamationAction::DropCaches { level: 3 })
                && next.last_critical == Some(now) && next.last_heavy == e.last_heavy
            &&& !(e.idle() && cooled) ==> next.last_critical == e.last_critical
            &&& !(e.idle() && cooled) && heavy_cooled ==> action is GradualReclaim
                && next.last_heavy == Some(now)
            &&& !(e.idle() && cooled) && !heavy_cooled ==> action is NoAction
                && next.last_heavy == e.last_heavy
        }),
{
}

/// The fraction of the gap that is reclaimed at a level.
pub open spec fn fraction_of(e: Engine) -> Single {
    if e.level() == PressureLevel::Moderate {
        e.config.reclaim_ratio_moderate
    } else {
        e.config.reclaim_ratio_heavy
    }
}

/// The share of the host's memory that a reclaim is capped at.
pub open spec fn cap_of(e: Engine) -> Single {
    if e.level() == PressureLevel::Moderate {
        e.config.reclaim_cap_moderate
    } else {
        e.config.reclaim_cap_heavy
    }
}

/// The host asks for the level's fraction of the effective gap, what exceeds
/// the baseline: exactly where that lies between floor and cap, the floor where
/// it is less, and the cap where it is more.
pub proof fn reclaim_is_a_fraction_of_the_gap(e: Engine, now: Timestamp)
    ensures
        e.decide(now).1 matches ReclamationAction::GradualReclaim { bytes } ==> {
            let m = e.history.last();
            let gap = if m.gap >= e.config.baseline_gap {
                (m.gap - e.config.baseline_gap) as u64
            } else {
                0
            };
            let target = binary::scaled(gap, fraction_of(e)@);
            let floor = binary::scaled(m.host_memory_total, e.config.reclaim_floor_ratio@);
            let cap = binary::scaled(m.host_memory_total, cap_of(e)@);
            &&& floor <= target <= cap ==> bytes == target
            &&& target < floor ==> bytes == floor
            &&& floor <= cap < target ==> bytes == cap
            &&& cap < floor ==> bytes == floor
        },
{
}

/// What is asked for does not depend on older samples, nor on CPU, traffic,
/// cache or limit, but by the level that they lead to.
pub proof fn reclaim_goes_by_latest_sample(a: Engine, b: Engine, now: Timestamp, then: Timestamp)
    requires
        a.config == b.config,
        a.level() == b.level(),
        a.decide(now).1 is GradualReclaim,
        b.decide(then).1 is GradualReclaim,
        a.history.last().gap == b.history.last().gap,
        a.history.last().host_memory_total == b.history.last().host_memory_total,
    ensures
        a.decide(now).1 == b.decide(then).1,
{
}

/// While the cooldown of a level runs, that level asks for nothing and nothing
/// changes; under critical pressure this takes the heavy cooldown, and the
/// critical one or a busy guest.
pub proof fn pressure_waits_for_its_cooldown(e: Engine, now: Timestamp)
    ensures
        e.level() == PressureLevel::Moderate && (e.last_moderate matches Some(t) && time::since(
            now,
            t,
        ) < e.config.cooldown_moderate@) ==> e.decide(now) == (e, ReclamationAction::NoAction),
        e.level() == PressureLevel::Heavy && (e.last_heavy matches Some(t) && time::since(now, t)
            < e.config.cooldown_heavy@) ==> e.decide(now) == (e, ReclamationAction::NoAction),
        e.level() == PressureLevel::Critical && (e.last_heavy matches Some(t) && time::since(
            now,
            t,
        ) < e.config.cooldown_heavy@) && (!e.idle() || (e.last_critical matches Some(t)
            && time::since(now, t) < e.config.cooldown_critical@)) ==> e.decide(now) == (
            e,
            ReclamationAction::NoAction,
        ),
{
}

/// Nothing holds the guest back: no command of the host within the time to
/// defer, and no reclaim of its own within the cooldown.
pub open spec fn unhindered(l: Local, host_last_cmd: Option<Timestamp>, now: Timestamp) -> bool {
    &&& host_last_cmd matches Some(t) ==> time::since(now, t) >= l.config.host_defer@
    &&& l.last_action matches Some(t) ==> time::since(now, t) >= l.config.cooldown@
}

/// Whether the cache takes at least the given share of all memory.
pub open spec fn cache_takes(m: GuestLocalMetrics, share: Single) -> bool {
    m.mem_total > 0 && binary::at_least(
        binary::ratio(m.file_cache, m.mem_total) as int,
        share@,
    )
}

/// The cache has taken at least the moderate share in each of the latest
/// samples, of which there are enough.
pub open spec fn cache_lasts(l: Local) -> bool {
    &&& l.history.len() >= l.config.sustained_ticks
    &&& forall|k: int|
        1 <= k <= l.config.sustained_ticks ==> cache_takes(
            #[trigger] l.history[l.history.len() - k],
            l.config.cache_ratio_moderate,
        )
}

proof fn lemma_cache_lasts(l: Local)
    ensures
        cache_lasts(l) == guest_local::cache_stays_high(l.config, l.history),
{
    let n = l.config.sustained_ticks;
    if l.history.len() >= n {
        if cache_lasts(l) {
            assert forall|i: int| l.history.len() - n <= i < l.history.len() implies {
                let h = #[trigger] l.history[i];
                h.mem_total > 0 && guest_local::cache_high(h, l.config)
            } by {
                let k = l.history.len() - i;
                assert(cache_takes(l.history[l.history.len() - k], l.config.cache_ratio_moderate));
            }
        }
        if guest_local::cache_stays_high(l.config, l.history) {
            assert forall|k: int| 1 <= k <= n implies cache_takes(
                #[trigger] l.history[l.history.len() - k],
                l.config.cache_ratio_moderate,
            ) by {
                let h = l.history[l.history.len() - k];
                assert(h.mem_total > 0 && guest_local::cache_high(h, l.config));
            }
        }
    }
}

/// A cache that takes the heavy share is reclaimed, whatever the CPU, the
/// traffic and the available memory are.
pub proof fn heavy_cache_is_reclaimed(
    l: Local,
    host_last_cmd: Option<Timestamp>,
    now: Timestamp,
)
    requires
        unhindered(l, host_last_cmd, now),
        cache_lasts(l),
        l.history.len() > 0,
        cache_takes(l.history.last(), l.config.cache_ratio_heavy),
    ensures
        l.decide(host_last_cmd, now).1 is Reclaim,
{
    lemma_cache_lasts(l);
}

/// So is a cache that takes the moderate share while little memory is
/// available, busy as the guest may be.
pub proof fn cache_is_reclaimed_where_memory_is_scarce(
    l: Local,
    host_last_cmd: Option<Timestamp>,
    now: Timestamp,
)
    requires
        unhindered(l, host_last_cmd, now),
        cache_lasts(l),
        l.history.len() > 0,
        cache_takes(l.history.last(), l.config.cache_ratio_moderate),
        binary::below(
            binary::ratio(l.history.last().mem_available, l.history.last().mem_total) as int,
            l.config.avail_ratio_low@,
        ),
    ensures
        l.decide(host_last_cmd, now).1 is Reclaim,
{
    lemma_cache_lasts(l);
}

/// So is a cache that takes the moderate share in an idle guest: little CPU in
/// use, and little traffic.
pub proof fn cache_of_an_idle_guest_is_reclaimed(
    l: Local,
    host_last_cmd: Option<Timestamp>,
    now: Timestamp,
)
    requires
        unhindered(l, host_last_cmd, now),
        cache_lasts(l),
        l.history.len() > 0,
        cache_takes(l.history.last(), l.config.cache_ratio_moderate),
        binary::less(l.history.last().cpu_percent@, l.config.cpu_idle@),
        binary::less(l.history.last().io_rate@, l.config.io_idle@),
    ensures
        l.decide(host_last_cmd, now).1 is Reclaim,
{
    lemma_cache_lasts(l);
}

/// A guest of unknown size counts as one without cache and with all of its
/// memory available. It can reclaim only where no lasting cache is asked for.
pub proof fn unknown_size_is_no_lack_of_memory(
    l: Local,
    host_last_cmd: Option<Timestamp>,
    now: Timestamp,
)
    requires
        unhindered(l, host_last_cmd, now),
        l.history.len() > 0,
        l.history.last().mem_total == 0,
    ensures
        ({
            let m = l.history.last();
            let scarce = binary::below(binary::one() as int, l.config.avail_ratio_low@);
            let idle = binary::less(m.cpu_percent@, l.config.cpu_idle@) && binary::less(
                m.io_rate@,
                l.config.io_idle@,
            );
            l.decide(host_last_cmd, now).1 is Reclaim <==> l.config.sustained_ticks == 0 && (
            binary::at_least(0, l.config.cache_ratio_heavy@) || (binary::at_least(
                0,
                l.config.cache_ratio_moderate@,
            ) && (scarce || idle)))
        }),
{
    lemma_cache_lasts(l);
    if cache_lasts(l) && l.config.sustained_ticks > 0 {
        assert(cache_takes(l.history[l.history.len() - 1], l.config.cache_ratio_moderate));
    }
}

/// The guest reclaims for one of these three reasons alone, with nothing to
/// hold it back and with a cache that lasts.
pub proof fn guest_reclaims_for_a_reason(
    l: Local,
    host_last_cmd: Option<Timestamp>,
    now: Timestamp,
)
    requires
        l.decide(host_last_cmd, now).1 is Reclaim,
        l.config.sustained_ticks > 0,
    ensures
        unhindered(l, host_last_cmd, now),
        cache_lasts(l),
        l.history.len() > 0,
        ({
            let m = l.history.last();
            ||| cache_takes(m, l.config.cache_ratio_heavy)
            ||| cache_takes(m, l.config.cache_ratio_moderate) && binary::below(
                binary::ratio(m.mem_available, m.mem_total) as int,
                l.config.avail_ratio_low@,
            )
            ||| cache_takes(m, l.config.cache_ratio_moderate) && binary::less(
                m.cpu_percent@,
                l.config.cpu_idle@,
            ) && binary::less(m.io_rate@, l.config.io_idle@)
        }),
{
    lemma_cache_lasts(l);
    assert(cache_takes(l.history[l.history.len() - 1], l.config.cache_ratio_moderate));
}

/// A decision keeps configuration and samples, and starts the cooldown if and
/// only if memory is reclaimed.
pub proof fn guest_cooldown_starts_with_a_reclaim(
    l: Local,
    host_last_cmd: Option<Timestamp>,
    now: Timestamp,
)
    ensures
        l.decide(host_last_cmd, now).0.config == l.config,
        l.decide(host_last_cmd, now).0.history == l.history,
        l.decide(host_last_cmd, now).0.last_action == (if l.decide(host_last_cmd, now).1 is Reclaim {
            Some(now)
        } else {
            l.last_action
        }),
{
}

/// The guest reclaims a fraction of its cache: the heavy fraction where the
/// cache takes the heavy share or little memory is available, the moderate one
/// else; exactly where that lies between floor and cap, the floor where it is
/// less, and the cap where it is more.
pub proof fn guest_reclaim_is_a_fraction_of_the_cache(
    l: Local,
    host_last_cmd: Option<Timestamp>,
    now: Timestamp,
)
    requires
        l.history.len() > 0,
        l.history.last().mem_total > 0,
    ensures
        l.decide(host_last_cmd, now).1 matches GuestLocalAction::Reclaim { bytes } ==> {
            let m = l.history.last();
            let pressing = cache_takes(m, l.config.cache_ratio_heavy) || (cache_takes(
                m,
                l.config.cache_ratio_moderate,
            ) && binary::below(
                binary::ratio(m.mem_available, m.mem_total) as int,
                l.config.avail_ratio_low@,
            ));
            let fraction = if pressing {
                l.config.reclaim_fraction_heavy
            } else {
                l.config.reclaim_fraction_moderate
            };
            let target = binary::scaled(m.file_cache, fraction@);
            let floor = binary::scaled(m.mem_total, l.config.reclaim_floor_ratio@);
            let cap = binary::scaled(m.mem_total, l.config.reclaim_cap_ratio@);
            &&& floor <= target <= cap ==> bytes == target
            &&& target < floor ==> bytes == floor
            &&& floor <= cap < target ==> bytes == cap
            &&& cap < floor ==> bytes == floor
        },
{
}

/// The guest decides by its latest samples alone.
pub proof fn guest_decides_by_latest_samples(
    a: Local,
    b: Local,
    host_last_cmd: Option<Timestamp>,
    now: Timestamp,
)
    requires
        a.config == b.config,
        a.last_action == b.last_action,
        a.history.len() >= a.config.sustained_ticks,
        b.history.len() >= a.config.sustained_ticks,
        a.history.len() > 0,
        b.history.len() > 0,
        a.history.last() == b.history.last(),
        forall|k: int|
            1 <= k <= a.config.sustained_ticks ==> a.history[a.history.len() - k]
                == #[trigger] b.history[b.history.len() - k],
    ensures
        a.decide(host_last_cmd, now).1 == b.decide(host_last_cmd, now).1,
{
    lemma_cache_lasts(a);
    lemma_cache_lasts(b);
    assert(cache_lasts(a) == cache_lasts(b)) by {
        if cache_lasts(a) {
            assert forall|k: int| 1 <= k <= a.config.sustained_ticks implies cache_takes(
                #[trigger] b.history[b.history.len() - k],
                b.config.cache_ratio_moderate,
            ) by {
                assert(a.history[a.history.len() - k] == b.history[b.history.len() - k]);
            }
        }
        if cache_lasts(b) {
            assert forall|k: int| 1 <= k <= a.config.sustained_ticks implies cache_takes(
                #[trigger] a.history[a.history.len() - k],
                a.config.cache_ratio_moderate,
            ) by {
                assert(a.history[a.history.len() - k] == b.history[b.history.len() - k]);
            }
        }
    }
}

} // verus!
