//! What comes of a report: the sample it makes, the command it leads to, and
//! how that command reaches the guest.

use crate::binary;
use crate::commands;
use crate::elastic_reclaim;
use crate::elastic_reclaim::{
    Engine, PressureLevel, ReclamationAction, ReclamationConfig, SystemMetrics,
};
use crate::laws;
use crate::protocol;
use crate::protocol::{Command, Connection, GuestMetricsMsg, HostInfo};
use crate::server::{Incoming, Peer, Udp};
use crate::text;
use crate::time::Timestamp;
use vstd::prelude::*;

verus! {

/// A sample holds what the host and the guest have reported. The gap and the
/// guest's resident memory make up `vmmem`; what is not reported is zero.
pub proof fn sample_holds_what_was_reported(m: GuestMetricsMsg, host: HostInfo, s: SystemMetrics)
    requires
        protocol::sampled(m, host, s),
    ensures
        s.host_memory_avail == host.memory_avail,
        s.host_memory_total == host.memory_total,
        s.vmmem_rss == host.vmmem_rss,
        s.wslconfig_memory_limit == host.wslconfig_memory_limit,
        s.guest_resident == m.resident,
        s.guest_file_cache == m.file_cache,
        m.resident <= host.vmmem_rss ==> s.gap + m.resident == host.vmmem_rss,
        m.resident > host.vmmem_rss ==> s.gap == 0,
        m.mem_total matches Some(n) ==> s.guest_mem_total == n,
        m.mem_total is None ==> s.guest_mem_total == 0,
        m.mem_available matches Some(n) ==> s.guest_mem_available == n,
        m.mem_available is None ==> s.guest_mem_available == 0,
        m.io_rate matches Some(x) ==> s.guest_io_rate@ == x@,
        m.io_rate is None ==> s.guest_io_rate@ == (binary::Num::Finite { units: 0 }),
        m.cpu_percent matches Some(x) ==> s.guest_cpu_percent@ == binary::hundredth(x@),
        m.cpu_percent is None ==> s.guest_cpu_percent@ == (binary::Num::Finite { units: 0 }),
{
    if m.cpu_percent is None {
        laws::lemma_hundredth_of_zero();
    }
}

/// Of two hosts of the same size, the one with less memory available and a
/// larger `vmmem` never scores less on reports that differ in the cache alone,
/// which is no smaller.
pub proof fn pressed_host_never_scores_less(
    cfg: ReclamationConfig,
    history: Seq<SystemMetrics>,
    m: GuestMetricsMsg,
    n: GuestMetricsMsg,
    a: HostInfo,
    b: HostInfo,
    s: SystemMetrics,
    t: SystemMetrics,
)
    requires
        protocol::sampled(m, a, s),
        protocol::sampled(n, b, t),
        a.memory_total == b.memory_total,
        a.memory_avail >= b.memory_avail,
        a.vmmem_rss <= b.vmmem_rss,
        a.wslconfig_memory_limit == b.wslconfig_memory_limit,
        m.resident == n.resident,
        m.file_cache <= n.file_cache,
    ensures
        elastic_reclaim::score(cfg, history, s) <= elastic_reclaim::score(cfg, history, t),
{
    laws::score_grows_with_pressure(cfg, history, s, t);
}

/// A guest that accounts for more of `vmmem` leaves no larger gap.
pub proof fn larger_guest_leaves_no_larger_gap(
    m: GuestMetricsMsg,
    n: GuestMetricsMsg,
    host: HostInfo,
    s: SystemMetrics,
    t: SystemMetrics,
)
    requires
        protocol::sampled(m, host, s),
        protocol::sampled(n, host, t),
        m.resident <= n.resident,
    ensures
        t.gap <= s.gap,
        s.gap <= host.vmmem_rss,
{
}

/// A report makes the latest sample, the decision is taken with it, and the
/// command tells what was decided, or there is none where nothing was.
pub proof fn report_leads_to_its_command(
    c: Connection,
    m: GuestMetricsMsg,
    s: SystemMetrics,
    now: Timestamp,
    nanos: u128,
    next: Connection,
    cmd: Option<Command>,
)
    requires
        c.advances(m, s, now, nanos, next, cmd),
        c.engine.history.len() <= elastic_reclaim::HISTORY,
    ensures
        next.engine.config == c.engine.config,
        next.engine.history.len() > 0,
        next.engine.history.last() == s,
        ({
            let asked = Engine { history: next.engine.history, ..c.engine };
            let (decided, action) = asked.decide(now);
            &&& next.engine == decided
            &&& cmd is Some <==> action != ReclamationAction::NoAction
            &&& action matches ReclamationAction::GradualReclaim { bytes } ==> cmd->0.action
                == "reclaim"@ && cmd->0.bytes == Some(bytes) && cmd->0.level is None
                && cmd->0.pressure_level == Some(next.engine.level().spec_name())
            &&& action is Compact ==> cmd->0.action == "compact"@ && cmd->0.bytes is None
                && cmd->0.level is None
            &&& action matches ReclamationAction::DropCaches { level } ==> cmd->0.action
                == "drop_caches"@ && cmd->0.level == Some(level) && cmd->0.bytes is None
            &&& cmd matches Some(x) ==> x.pressure_level == Some(next.engine.level().spec_name())
        }),
        cmd matches Some(x) ==> text::number(x.cmd_id, u128::MAX as nat) == Some(nanos as nat),
        cmd matches Some(x) ==> text::ends(x.reason, next.engine.diagnostics()),
        m.distro matches Some(d) ==> next.distro == d@,
        m.distro is None ==> next.distro == "unknown"@,
{
    text::number_of_decimal(nanos as nat, u128::MAX as nat);
    let history = elastic_reclaim::remember(c.engine.history, s);
    laws::latest_samples_are_remembered(c.engine.history, s);
    laws::decision_keeps_samples(Engine { history, ..c.engine }, now);
    if let Some(x) = cmd {
        let d = next.engine.diagnostics();
        assert(x.reason.skip(x.reason.len() - d.len()) =~= d);
    }
}

/// A reclaim is sent with the pressure that led to it. Compaction and the
/// dropping of caches are sent as heavy and as critical, whatever pressure is
/// given: nothing of the command changes with it.
pub proof fn harsher_actions_tell_their_own_pressure(
    action: ReclamationAction,
    diagnostics: Seq<char>,
    pressure: PressureLevel,
    other: PressureLevel,
    nanos: u128,
)
    ensures
        protocol::command_for(action, diagnostics, pressure, nanos) matches Some(c) ==> {
            &&& c.msg_type == "command"@
            &&& text::ends(c.reason, diagnostics)
            &&& action is GradualReclaim ==> c.pressure_level == Some(pressure.spec_name())
                && text::begins(c.reason, "elastic reclaim: "@)
            &&& !(action is GradualReclaim) ==> Some(c) == protocol::command_for(
                action,
                diagnostics,
                other,
                nanos,
            )
            &&& action is Compact ==> c.pressure_level == Some("Heavy"@) && text::begins(
                c.reason,
                "memory compaction: "@,
            )
            &&& action is DropCaches ==> c.pressure_level == Some("Critical"@) && text::begins(
                c.reason,
                "CRITICAL pressure: "@,
            )
        },
{
    if let Some(c) = protocol::command_for(action, diagnostics, pressure, nanos) {
        assert(c.reason.skip(c.reason.len() - diagnostics.len()) =~= diagnostics);
        let intro = match action {
            ReclamationAction::Compact => "memory compaction: "@,
            ReclamationAction::DropCaches { .. } => "CRITICAL pressure: "@,
            _ => "elastic reclaim: "@,
        };
        assert(c.reason.take(intro.len() as int) =~= intro);
    }
}

/// What the host decides is what the guest sets out to do: it reclaims as many
/// bytes, compacts where it can, and drops its caches at the same level where
/// it may and can.
pub proof fn command_arrives_as_it_was_meant(
    action: ReclamationAction,
    diagnostics: Seq<char>,
    pressure: PressureLevel,
    nanos: u128,
    allow_drop: bool,
    caps: commands::Capabilities,
)
    ensures
        protocol::command_for(action, diagnostics, pressure, nanos) matches Some(c) ==> {
            let begun = commands::beginning(c.action, c.bytes, c.level, allow_drop, caps);
            &&& action matches ReclamationAction::GradualReclaim { bytes } ==> begun == Some(
                commands::Stage::Before { bytes },
            )
            &&& action is Compact && caps.compact ==> begun == Some(commands::Stage::Compact)
            &&& action is Compact && !caps.compact ==> (begun matches Some(s)
                && s is Finished && !s->verdict.ok)
            &&& action matches ReclamationAction::DropCaches { level } ==> if allow_drop
                && caps.drop_caches {
                begun == Some(commands::Stage::Drop { level })
            } else {
                begun matches Some(s) && s is Finished && !s->verdict.ok
            }
        },
{
    reveal_strlit("reclaim");
    reveal_strlit("compact");
    reveal_strlit("drop_caches");
    assert("reclaim"@[0] == 'r');
    assert("compact"@[0] == 'c');
    assert("drop_caches"@[0] == 'd');
}

/// A new command is the one that is pending, whatever was pending before: the
/// next report of that guest without a result in between has it sent again, and
/// so on until a result comes. Without a new command the pending one stays.
pub proof fn last_command_is_sent_again(
    u: Udp,
    peer: Peer,
    m: GuestMetricsMsg,
    host: HostInfo,
    now: Timestamp,
    nanos: u128,
    resent: Option<Command>,
    issued: Option<Command>,
    next: Udp,
    later: Udp,
    m_then: GuestMetricsMsg,
    host_then: HostInfo,
    then: Timestamp,
    nanos_then: u128,
    resent_then: Option<Command>,
    issued_then: Option<Command>,
    last: Udp,
)
    requires
        u.measures(peer, m, host, now, nanos, resent, issued, next),
        later.guest(peer) == next.guest(peer),
        later.measures(
            peer,
            m_then,
            host_then,
            then,
            nanos_then,
            resent_then,
            issued_then,
            last,
        ),
    ensures
        issued is Some ==> resent_then == issued,
        issued is None ==> resent_then == resent,
{
}

/// Once the result has come, the next report has nothing sent again.
pub proof fn result_ends_the_sending(
    u: Udp,
    peer: Peer,
    m: GuestMetricsMsg,
    host: HostInfo,
    now: Timestamp,
    nanos: u128,
    resent: Option<Command>,
    issued: Option<Command>,
    next: Udp,
)
    requires
        u.heard(peer, Incoming::Outcome).measures(
            peer,
            m,
            host,
            now,
            nanos,
            resent,
            issued,
            next,
        ),
    ensures
        resent is None,
{
}

/// A report changes what is known of that guest alone. A guest that is heard of
/// for the first time starts without samples, cooldowns and commands.
pub proof fn guests_do_not_mix(
    u: Udp,
    peer: Peer,
    m: GuestMetricsMsg,
    host: HostInfo,
    now: Timestamp,
    nanos: u128,
    resent: Option<Command>,
    issued: Option<Command>,
    next: Udp,
    other: Peer,
)
    requires
        u.measures(peer, m, host, now, nanos, resent, issued, next),
    ensures
        next.config == u.config,
        next.guests.contains_key(peer),
        other != peer ==> next.guest(other) == u.guest(other),
        other != peer ==> (next.guests.contains_key(other) <==> u.guests.contains_key(other)),
        !u.guests.contains_key(peer) ==> resent is None && next.guest(
            peer,
        ).connection.engine.history.len() == 1 && next.guest(
            peer,
        ).connection.engine.config == u.config,
{
}

/// Of a guest that has not reported yet nothing is known but the configuration:
/// no sample, no cooldown, no name.
pub proof fn fresh_guest_is_unknown(config: ReclamationConfig, now: Timestamp)
    ensures
        ({
            let c = Connection::fresh(config);
            &&& c.engine.config == config
            &&& c.engine.history.len() == 0
            &&& c.engine.last_moderate is None
            &&& c.engine.last_heavy is None
            &&& c.engine.last_critical is None
            &&& c.distro == "unknown"@
            &&& c.engine.decide(now) == (c.engine, ReclamationAction::NoAction)
        }),
{
}

} // verus!
