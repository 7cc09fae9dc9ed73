//! What the host reads from a guest and what it tells the guest to do.

use crate::binary;
use crate::binary::Single;
use crate::elastic_reclaim;
use crate::elastic_reclaim::{
    ElasticReclaimer, Engine, PressureLevel, ReclamationAction, ReclamationConfig, SystemMetrics,
};
use crate::text;
use crate::text::decimal_text;
use crate::time::Timestamp;
use vstd::prelude::*;
use vstd::string::*;

verus! {

/// What a guest reports. Sizes are in bytes.
#[derive(Debug, Clone)]
pub struct GuestMetricsMsg {
    pub distro: Option<String>,
    pub resident: u64,
    pub file_cache: u64,
    /// `MemTotal` of the guest.
    pub mem_total: Option<u64>,
    /// `MemAvailable` of the guest.
    pub mem_available: Option<u64>,
    /// Percentage of CPU time in use.
    pub cpu_percent: Option<Single>,
    /// MiB per second.
    pub io_rate: Option<Single>,
}

/// What the host knows of itself. Sizes are in bytes.
#[derive(Debug, Clone, Copy)]
pub struct HostInfo {
    /// Resident size of `vmmem`.
    pub vmmem_rss: u64,
    pub memory_total: u64,
    pub memory_avail: u64,
    /// The limit set in `.wslconfig`.
    pub wslconfig_memory_limit: Option<u64>,
}

/// A command to a guest.
#[derive(Debug, Clone)]
pub struct CommandMsg {
    pub msg_type: String,
    pub cmd_id: String,
    pub action: String,
    pub bytes: Option<u64>,
    pub level: Option<u8>,
    pub reason: String,
    pub pressure_level: Option<String>,
}

/// What a command is.
pub struct Command {
    pub msg_type: Seq<char>,
    pub cmd_id: Seq<char>,
    pub action: Seq<char>,
    pub bytes: Option<u64>,
    pub level: Option<u8>,
    pub reason: Seq<char>,
    pub pressure_level: Option<Seq<char>>,
}

impl View for CommandMsg {
    type V = Command;

    open spec fn view(&self) -> Command {
        Command {
            msg_type: self.msg_type@,
            cmd_id: self.cmd_id@,
            action: self.action@,
            bytes: self.bytes,
            level: self.level,
            reason: self.reason@,
            pressure_level: text::text_of(self.pressure_level),
        }
    }
}

/// What a command is, if there is one.
pub open spec fn command_of(c: Option<CommandMsg>) -> Option<Command> {
    match c {
        Some(m) => Some(m@),
        None => None,
    }
}

/// A copy of a string, if there is one.
fn duplicate_text(s: &Option<String>) -> (r: Option<String>)
    ensures
        text::text_of(r) == text::text_of(*s),
{
    match s {
        Some(t) => Some(t.clone()),
        None => None,
    }
}

impl CommandMsg {
    /// A copy of the command.
    pub fn duplicate(&self) -> (r: CommandMsg)
        ensures
            r@ == self@,
    {
        CommandMsg {
            msg_type: self.msg_type.clone(),
            cmd_id: self.cmd_id.clone(),
            action: self.action.clone(),
            bytes: self.bytes,
            level: self.level,
            reason: self.reason.clone(),
            pressure_level: duplicate_text(&self.pressure_level),
        }
    }
}

/// The command that tells a guest to do `action`. `nanos` is the time since
/// the Unix epoch, by which commands are told apart.
pub open spec fn command_for(
    action: ReclamationAction,
    diagnostics: Seq<char>,
    pressure: PressureLevel,
    nanos: u128,
) -> Option<Command> {
    match action {
        ReclamationAction::NoAction => None,
        ReclamationAction::GradualReclaim { bytes } => Some(
            Command {
                msg_type: "command"@,
                cmd_id: text::decimal(nanos as nat),
                action: "reclaim"@,
                bytes: Some(bytes),
                level: None,
                reason: "elastic reclaim: "@ + diagnostics,
                pressure_level: Some(pressure.spec_name()),
            },
        ),
        ReclamationAction::Compact => Some(
            Command {
                msg_type: "command"@,
                cmd_id: text::decimal(nanos as nat),
                action: "compact"@,
                bytes: None,
                level: None,
                reason: "memory compaction: "@ + diagnostics,
                pressure_level: Some("Heavy"@),
            },
        ),
        ReclamationAction::DropCaches { level } => Some(
            Command {
                msg_type: "command"@,
                cmd_id: text::decimal(nanos as nat),
                action: "drop_caches"@,
                bytes: None,
                level: Some(level),
                reason: "CRITICAL pressure: "@ + diagnostics,
                pressure_level: Some("Critical"@),
            },
        ),
    }
}

/// The name of a command sent `nanos` after the Unix epoch.
pub fn generate_cmd_id(nanos: u128) -> (id: String)
    ensures
        id@ == text::decimal(nanos as nat),
{
    decimal_text(nanos)
}

/// The command that tells a guest to do `action`.
pub fn build_action_command(
    action: ReclamationAction,
    diagnostics: &str,
    pressure: PressureLevel,
    nanos: u128,
) -> (r: Option<CommandMsg>)
    ensures
        command_of(r) == command_for(action, diagnostics@, pressure, nanos),
{
    let (name, intro, bytes, level, severity) = match action {
        ReclamationAction::NoAction => {
            return None;
        },
        ReclamationAction::GradualReclaim { bytes } => (
            "reclaim",
            "elastic reclaim: ",
            Some(bytes),
            None,
            pressure.name(),
        ),
        ReclamationAction::Compact => ("compact", "memory compaction: ", None, None, "Heavy"),
        ReclamationAction::DropCaches { level } => (
            "drop_caches",
            "CRITICAL pressure: ",
            None,
            Some(level),
            "Critical",
        ),
    };
    let mut reason = intro.to_owned();
    reason.append(diagnostics);
    Some(
        CommandMsg {
            msg_type: "command".to_owned(),
            cmd_id: generate_cmd_id(nanos),
            action: name.to_owned(),
            bytes,
            level,
            reason,
            pressure_level: Some(severity.to_owned()),
        },
    )
}

/// Zero where a number is not given.
pub open spec fn num_of(x: Option<Single>) -> binary::Num {
    match x {
        Some(s) => s@,
        None => binary::Num::Finite { units: 0 },
    }
}

/// Zero where a size is not given.
pub open spec fn size_of(n: Option<u64>) -> u64 {
    match n {
        Some(x) => x,
        None => 0,
    }
}

/// The part of `vmmem` that the guest does not account for.
pub open spec fn unaccounted(vmmem_rss: u64, resident: u64) -> u64 {
    if vmmem_rss >= resident {
        (vmmem_rss - resident) as u64
    } else {
        0
    }
}

/// `s` is the sample made of what a guest and the host report.
pub open spec fn sampled(m: GuestMetricsMsg, host: HostInfo, s: SystemMetrics) -> bool {
    &&& s.vmmem_rss == host.vmmem_rss
    &&& s.host_memory_total == host.memory_total
    &&& s.host_memory_avail == host.memory_avail
    &&& s.wslconfig_memory_limit == host.wslconfig_memory_limit
    &&& s.guest_resident == m.resident
    &&& s.guest_file_cache == m.file_cache
    &&& s.guest_mem_total == size_of(m.mem_total)
    &&& s.guest_mem_available == size_of(m.mem_available)
    &&& s.guest_cpu_percent@ == binary::hundredth(num_of(m.cpu_percent))
    &&& s.guest_io_rate@ == num_of(m.io_rate)
    &&& s.gap == unaccounted(host.vmmem_rss, m.resident)
}

/// The sample made of what a guest and the host report.
pub fn system_metrics(m: &GuestMetricsMsg, host: &HostInfo) -> (s: SystemMetrics)
    ensures
        sampled(*m, *host, s),
{
    let cpu = match m.cpu_percent {
        Some(c) => c,
        None => Single::zero(),
    };
    let io = match m.io_rate {
        Some(c) => c,
        None => Single::zero(),
    };
    SystemMetrics {
        vmmem_rss: host.vmmem_rss,
        host_memory_total: host.memory_total,
        host_memory_avail: host.memory_avail,
        wslconfig_memory_limit: host.wslconfig_memory_limit,
        guest_resident: m.resident,
        guest_file_cache: m.file_cache,
        guest_mem_total: match m.mem_total {
            Some(n) => n,
            None => 0,
        },
        guest_mem_available: match m.mem_available {
            Some(n) => n,
            None => 0,
        },
        guest_cpu_percent: cpu.hundredth(),
        guest_io_rate: io,
        gap: host.vmmem_rss.saturating_sub(m.resident),
    }
}

/// What the host knows of one guest.
pub struct ConnectionState {
    reclaimer: ElasticReclaimer,
    distro_name: String,
}

/// What the host knows of one guest.
pub struct Connection {
    pub engine: Engine,
    pub distro: Seq<char>,
}

impl View for ConnectionState {
    type V = Connection;

    closed spec fn view(&self) -> Connection {
        Connection { engine: self.reclaimer@, distro: self.distro_name@ }
    }
}

/// The engine after one more sample and the decision at `now`, and the command
/// that comes of it.
pub open spec fn step(e: Engine, s: SystemMetrics, now: Timestamp, nanos: u128) -> (
    Engine,
    Option<Command>,
) {
    let sampled = Engine { history: elastic_reclaim::remember(e.history, s), ..e };
    let (decided, action) = sampled.decide(now);
    (decided, command_for(action, decided.diagnostics(), decided.level(), nanos))
}

/// The name of the distribution that a guest reports.
pub open spec fn reported_name(m: GuestMetricsMsg) -> Seq<char> {
    match m.distro {
        Some(d) => d@,
        None => "unknown"@,
    }
}

impl Connection {
    /// A guest that has not reported yet.
    pub open spec fn fresh(config: ReclamationConfig) -> Connection {
        Connection {
            engine: Engine {
                config,
                history: Seq::empty(),
                last_moderate: None,
                last_heavy: None,
                last_critical: None,
            },
            distro: "unknown"@,
        }
    }

    /// `next` and `cmd` come of the report `m`, by way of the sample `s`.
    pub open spec fn advances(
        self,
        m: GuestMetricsMsg,
        s: SystemMetrics,
        now: Timestamp,
        nanos: u128,
        next: Connection,
        cmd: Option<Command>,
    ) -> bool {
        &&& next.distro == reported_name(m)
        &&& (next.engine, cmd) == step(self.engine, s, now, nanos)
    }
}

impl ConnectionState {
    /// A guest that has not reported yet.
    pub fn new(config: ReclamationConfig) -> (r: Self)
        ensures
            r@ == Connection::fresh(config),
    {
        ConnectionState {
            reclaimer: ElasticReclaimer::new(config),
            distro_name: "unknown".to_owned(),
        }
    }

    /// The name of the guest's distribution.
    pub fn distro_name(&self) -> (s: &str)
        ensures
            s@ == self@.distro,
    {
        self.distro_name.as_str()
    }

    /// The engine's view of the guest, in words.
    pub fn get_diagnostics(&self) -> (s: String)
        ensures
            s@ == self@.engine.diagnostics(),
    {
        self.reclaimer.get_diagnostics()
    }

    /// Takes in one sample, and says what to tell the guest at `now`.
    pub fn advance(&mut self, metrics: SystemMetrics, now: Timestamp, nanos: u128)
        -> (cmd: Option<CommandMsg>)
        ensures
            final(self)@.distro == old(self)@.distro,
            (final(self)@.engine, command_of(cmd)) == step(
                old(self)@.engine,
                metrics,
                now,
                nanos,
            ),
    {
        self.reclaimer.push_metrics(metrics);
        let action = self.reclaimer.decide_action(now);
        let diagnostics = self.reclaimer.get_diagnostics();
        let pressure = self.reclaimer.calculate_pressure_level();
        build_action_command(action, diagnostics.as_str(), pressure, nanos)
    }
}

/// Takes in what a guest reports, and says what to tell it. `now` is the time
/// by the monotonic clock, `nanos` that since the Unix epoch.
pub fn process_elastic_metrics(
    m: &GuestMetricsMsg,
    state: &mut ConnectionState,
    host: &HostInfo,
    now: Timestamp,
    nanos: u128,
) -> (cmd: Option<CommandMsg>)
    ensures
        exists|s: SystemMetrics| #[trigger]
            sampled(*m, *host, s) && old(state)@.advances(
                *m,
                s,
                now,
                nanos,
                final(state)@,
                command_of(cmd),
            ),
{
    state.distro_name = match &m.distro {
        Some(d) => d.clone(),
        None => "unknown".to_owned(),
    };
    let s = system_metrics(m, host);
    let cmd = state.advance(s, now, nanos);
    assert(sampled(*m, *host, s));
    cmd
}

/// Every action but that of doing nothing is sent, and nothing else is.
pub proof fn every_action_is_sent(
    action: ReclamationAction,
    diagnostics: Seq<char>,
    pressure: PressureLevel,
    nanos: u128,
)
    ensures
        command_for(action, diagnostics, pressure, nanos) is Some <==> action
            != ReclamationAction::NoAction,
{
}

/// Commands of different times have different names.
pub proof fn command_ids_differ(a: u128, b: u128)
    requires
        a != b,
    ensures
        text::decimal(a as nat) != text::decimal(b as nat),
{
    text::lemma_decimal(a as nat);
    text::lemma_decimal(b as nat);
}

/// However many reports come in, a bounded number of samples is remembered.
pub proof fn samples_stay_bounded(e: Engine, s: SystemMetrics, now: Timestamp, nanos: u128)
    requires
        e.wf(),
    ensures
        step(e, s, now, nanos).0.wf(),
        step(e, s, now, nanos).0.config == e.config,
{
}

} // verus!
