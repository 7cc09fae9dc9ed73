//! The guest agent: its configuration, what it reports, and where it finds the
//! host.

use crate::binary::Single;
use crate::guest_local::GuestLocalConfig;
use crate::host_config;
use crate::network;
use crate::network::address_text;
use crate::procfs;
use crate::procfs::{parse_meminfo, read_meminfo};
use crate::server;
use crate::text;
use crate::text::{
    parse_number, pieces, same, starts_with, to_chars, to_text, tokens, trimmed,
};
use vstd::prelude::*;
use vstd::slice::slice_subrange;
use vstd::string::*;

verus! {

/// The name of the guest's service.
pub const SERVICE_NAME: &'static str = "wsl-memory-guest";

/// Where the guest's binary is installed.
pub const INSTALL_PATH: &'static str = "/usr/local/bin/wsl-memory-guest";

/// The port that the host listens on unless told otherwise.
pub const DEFAULT_PORT: u16 = 15555;

/// The guest's configuration.
#[derive(Debug, Clone)]
pub struct GuestConfig {
    /// `auto:multi`, `auto:` and a port, or an address.
    pub host: String,
    pub token_path: String,
    /// Seconds between two reports.
    pub interval: u64,
    pub allow_drop: bool,
    pub multi_path: bool,
    pub tcp: bool,
    pub local_reclaim: GuestLocalConfig,
}

impl Default for GuestConfig {
    fn default() -> (r: Self)
        ensures
            r.host@ == "auto:multi"@,
            r.token_path@ == "/mnt/c/Users/Public/wsl_agent_token"@,
            r.interval == 4,
            !r.allow_drop,
            r.multi_path,
            !r.tcp,
            r.local_reclaim.is_default(),
    {
        GuestConfig {
            host: "auto:multi".to_owned(),
            token_path: "/mnt/c/Users/Public/wsl_agent_token".to_owned(),
            interval: 4,
            allow_drop: false,
            multi_path: true,
            tcp: false,
            local_reclaim: GuestLocalConfig::default(),
        }
    }
}

/// What the command line says about the configuration.
#[derive(Debug, Clone)]
pub struct GuestOptions {
    pub host: Option<String>,
    pub token_path: Option<String>,
    pub interval: Option<u64>,
    pub allow_drop: bool,
    pub multi_path: bool,
    pub no_multi_path: bool,
    pub tcp: bool,
    pub udp: bool,
}

/// The text of `s`, or else `other`.
pub open spec fn text_or(s: Option<String>, other: Seq<char>) -> Seq<char> {
    match s {
        Some(t) => t@,
        None => other,
    }
}

/// `r` is `cfg` where the command line says nothing else.
pub open spec fn merged(cfg: GuestConfig, opt: GuestOptions, r: GuestConfig) -> bool {
    &&& r.host@ == text_or(opt.host, cfg.host@)
    &&& r.token_path@ == text_or(opt.token_path, cfg.token_path@)
    &&& r.interval == (match opt.interval {
        Some(n) => n,
        None => cfg.interval,
    })
    &&& r.allow_drop == (cfg.allow_drop || opt.allow_drop)
    &&& r.multi_path == ((cfg.multi_path || opt.multi_path) && !opt.no_multi_path)
    &&& r.tcp == ((cfg.tcp || opt.tcp) && !opt.udp)
    &&& r.local_reclaim == cfg.local_reclaim
}

impl GuestConfig {
    /// The configuration where the command line says nothing else.
    pub fn merged_with_cli(self, opt: &GuestOptions) -> (r: Self)
        ensures
            merged(self, *opt, r),
    {
        let mut r = self;
        if let Some(host) = &opt.host {
            r.host = host.clone();
        }
        if let Some(token_path) = &opt.token_path {
            r.token_path = token_path.clone();
        }
        if let Some(interval) = opt.interval {
            r.interval = interval;
        }
        if opt.allow_drop {
            r.allow_drop = true;
        }
        if opt.multi_path {
            r.multi_path = true;
        }
        if opt.no_multi_path {
            r.multi_path = false;
        }
        if opt.tcp {
            r.tcp = true;
        }
        if opt.udp {
            r.tcp = false;
        }
        r
    }
}

/// The part of the configuration that is read anew while the guest runs.
#[derive(Debug, Clone)]
pub struct GuestRuntimeConfig {
    pub token: String,
    /// Seconds between two reports.
    pub interval: u64,
    pub allow_drop: bool,
}

/// What is wrong with a token.
#[derive(Debug, Clone, Copy, PartialEq, Eq, Structural)]
pub enum TokenError {
    /// Its file holds nothing but white space.
    Empty,
}

/// The part of the configuration that is read anew, the file of the token
/// holding `token_text`.
pub fn runtime_config(cfg: &GuestConfig, token_text: &str)
    -> (r: Result<GuestRuntimeConfig, TokenError>)
    ensures
        match r {
            Ok(rt) => {
                &&& text::trim(token_text@).len() > 0
                &&& rt.token@ == text::trim(token_text@)
                &&& rt.interval == (if cfg.interval > 1 {
                    cfg.interval
                } else {
                    1
                })
                &&& rt.allow_drop == cfg.allow_drop
            },
            Err(e) => text::trim(token_text@).len() == 0 && e == TokenError::Empty,
        },
{
    let token = trimmed(token_text);
    if token.as_str().is_empty() {
        return Err(TokenError::Empty);
    }
    Ok(
        GuestRuntimeConfig {
            token,
            interval: if cfg.interval > 1 {
                cfg.interval
            } else {
                1
            },
            allow_drop: cfg.allow_drop,
        },
    )
}

/// What is used where the configuration cannot be reached.
pub fn current_runtime(shared: Option<&GuestRuntimeConfig>) -> (r: GuestRuntimeConfig)
    ensures
        match shared {
            Some(rt) => {
                &&& r.token@ == rt.token@
                &&& r.interval == rt.interval
                &&& r.allow_drop == rt.allow_drop
            },
            None => r.token@.len() == 0 && r.interval == 4 && !r.allow_drop,
        },
{
    match shared {
        Some(rt) => GuestRuntimeConfig {
            token: rt.token.clone(),
            interval: rt.interval,
            allow_drop: rt.allow_drop,
        },
        None => GuestRuntimeConfig { token: String::new(), interval: 4, allow_drop: false },
    }
}

/// The guest's report.
#[derive(Debug, Clone)]
pub struct MetricsMsg {
    pub msg_type: String,
    pub token: String,
    pub distro: String,
    pub resident: u64,
    pub file_cache: u64,
    pub anon: u64,
    pub mem_total: u64,
    pub mem_available: u64,
    pub cpu_percent: Single,
    pub io_rate: Single,
}

/// The guest's report, out of `/proc/meminfo` and two rates.
pub fn collect_metrics(
    token: &str,
    distro: &Option<String>,
    meminfo: &str,
    cpu_percent: Single,
    io_rate: Single,
) -> (m: MetricsMsg)
    requires
        procfs::meminfo_fits(meminfo@),
    ensures
        m.msg_type@ == "metrics"@,
        m.token@ == token@,
        m.distro@ == text_or(*distro, "wsl"@),
        m.resident == procfs::resident(meminfo@),
        m.file_cache == procfs::file_cache(meminfo@),
        m.anon == procfs::anon(meminfo@),
        m.mem_total == procfs::field(procfs::lines(meminfo@), "MemTotal:"@),
        m.mem_available == procfs::field(procfs::lines(meminfo@), "MemAvailable:"@),
        m.cpu_percent == cpu_percent,
        m.io_rate == io_rate,
{
    let (resident, file_cache, anon) = parse_meminfo(meminfo);
    let info = read_meminfo(meminfo);
    MetricsMsg {
        msg_type: "metrics".to_owned(),
        token: token.to_owned(),
        distro: match distro {
            Some(d) => d.clone(),
            None => "wsl".to_owned(),
        },
        resident,
        file_cache,
        anon,
        mem_total: info.total,
        mem_available: info.available,
        cpu_percent,
        io_rate,
    }
}

/// Where `key` is among the words, the word behind it, if there is one.
pub open spec fn behind(w: Seq<Seq<char>>, key: Seq<char>) -> Option<Option<Seq<char>>>
    decreases w.len(),
{
    if w.len() == 0 {
        None
    } else if w[0] == key {
        Some(
            if w.len() > 1 {
                Some(w[1])
            } else {
                None
            },
        )
    } else {
        behind(w.skip(1), key)
    }
}

/// Where a line of the routing table is on a default route through a gateway,
/// that gateway, if it is named.
pub open spec fn default_via(line: Seq<char>) -> Option<Option<Seq<char>>> {
    if text::begins(line, "default"@) {
        behind(text::words(line), "via"@)
    } else {
        None
    }
}

/// The first such line decides.
pub open spec fn routed(ls: Seq<Seq<char>>) -> Option<Option<Seq<char>>>
    decreases ls.len(),
{
    if ls.len() == 0 {
        None
    } else {
        match default_via(ls[0]) {
            Some(r) => Some(r),
            None => routed(ls.skip(1)),
        }
    }
}

/// The server that a line of `resolv.conf` names.
pub open spec fn server_of(line: Seq<char>) -> Option<Seq<char>> {
    let w = text::words(line);
    if text::begins(line, "nameserver"@) && w.len() > 1 {
        Some(w[1])
    } else {
        None
    }
}

/// The first server that is named.
pub open spec fn name_server(ls: Seq<Seq<char>>) -> Option<Seq<char>>
    decreases ls.len(),
{
    if ls.len() == 0 {
        None
    } else {
        match server_of(ls[0]) {
            Some(s) => Some(s),
            None => name_server(ls.skip(1)),
        }
    }
}

/// The gateway to the host: that of the default route, else the name server.
pub open spec fn gateway(route: Seq<char>, resolv: Option<Seq<char>>) -> Option<Seq<char>> {
    match routed(procfs::lines(route)) {
        Some(r) => r,
        None => match resolv {
            Some(s) => name_server(procfs::lines(s)),
            None => None,
        },
    }
}

/// The word behind `key`.
fn find_behind(w: &Vec<&[char]>, key: &str) -> (r: Option<Option<String>>)
    ensures
        (match r {
            Some(s) => Some(text::text_of(s)),
            None => None,
        }) == behind(text::contents(w@), key@),
{
    let ghost all = text::contents(w@);
    let mut i: usize = 0;
    assert(all.skip(0) =~= all);
    while i < w.len()
        invariant
            i <= w@.len(),
            all == text::contents(w@),
            behind(all, key@) == behind(all.skip(i as int), key@),
        decreases w@.len() - i,
    {
        assert(all.skip(i as int)[0] == w@[i as int]@);
        if same(w[i], key) {
            if i + 1 < w.len() {
                assert(all.skip(i as int)[1] == w@[i as int + 1]@);
                return Some(Some(to_text(w[i + 1])));
            }
            return Some(None);
        }
        assert(all.skip(i as int).skip(1) =~= all.skip(i as int + 1));
        i = i + 1;
    }
    None
}

/// The gateway of the default route.
fn find_route(s: &str) -> (r: Option<Option<String>>)
    ensures
        (match r {
            Some(s) => Some(text::text_of(s)),
            None => None,
        }) == routed(procfs::lines(s@)),
{
    let chars = to_chars(s);
    let ls = pieces(chars.as_slice(), '\n');
    let ghost all = procfs::lines(s@);
    let mut i: usize = 0;
    assert(all.skip(0) =~= all);
    while i < ls.len()
        invariant
            i <= ls@.len(),
            all == text::contents(ls@),
            all == procfs::lines(s@),
            routed(all) == routed(all.skip(i as int)),
        decreases ls@.len() - i,
    {
        assert(all.skip(i as int)[0] == ls@[i as int]@);
        assert(all.skip(i as int).skip(1) =~= all.skip(i as int + 1));
        if starts_with(ls[i], "default") {
            let r = find_behind(&tokens(ls[i]), "via");
            if r.is_some() {
                return r;
            }
        }
        i = i + 1;
    }
    None
}

/// The first name server.
fn find_name_server(s: &str) -> (r: Option<String>)
    ensures
        text::text_of(r) == name_server(procfs::lines(s@)),
{
    let chars = to_chars(s);
    let ls = pieces(chars.as_slice(), '\n');
    let ghost all = procfs::lines(s@);
    let mut i: usize = 0;
    assert(all.skip(0) =~= all);
    while i < ls.len()
        invariant
            i <= ls@.len(),
            all == text::contents(ls@),
            all == procfs::lines(s@),
            name_server(all) == name_server(all.skip(i as int)),
        decreases ls@.len() - i,
    {
        assert(all.skip(i as int)[0] == ls@[i as int]@);
        assert(all.skip(i as int).skip(1) =~= all.skip(i as int + 1));
        if starts_with(ls[i], "nameserver") {
            let w = tokens(ls[i]);
            if w.len() > 1 {
                assert(text::contents(w@)[1] == w@[1]@);
                return Some(to_text(w[1]));
            }
        }
        i = i + 1;
    }
    None
}

/// The gateway to the host, out of the routing table and `resolv.conf`.
pub fn discover_gateway_ip(route: &str, resolv: &Option<String>) -> (r: Option<String>)
    ensures
        text::text_of(r) == gateway(route@, text::text_of(*resolv)),
{
    match find_route(route) {
        Some(r) => r,
        None => match resolv {
            Some(s) => find_name_server(s.as_str()),
            None => None,
        },
    }
}

/// Whether the host is found by way of the gateway.
pub open spec fn automatic(host: Seq<char>) -> bool {
    text::begins(host, "auto:"@)
}

/// Whether the host is found by way of the gateway.
pub fn is_automatic(host: &str) -> (r: bool)
    ensures
        r == automatic(host@),
{
    starts_with(to_chars(host).as_slice(), "auto:")
}

/// The port behind `auto:`.
pub open spec fn automatic_port(host: Seq<char>) -> u16 {
    match text::number(host.skip("auto:"@.len() as int), u16::MAX as nat) {
        Some(n) => n as u16,
        None => DEFAULT_PORT,
    }
}

/// Why the host has no address.
#[derive(Debug, Clone, Copy, PartialEq, Eq, Structural)]
pub enum AddressError {
    NoGateway,
}

impl AddressError {
    /// The error in words.
    pub fn message(self) -> (s: &'static str)
        ensures
            s@ == "failed to discover gateway ip"@,
    {
        "failed to discover gateway ip"
    }
}

/// The address of the host. `gateway_ip` matters where it is found by way of
/// the gateway.
pub fn resolve_host_addr(host_arg: &str, gateway_ip: &Option<String>)
    -> (r: Result<String, AddressError>)
    ensures
        match r {
            Ok(a) => if automatic(host_arg@) {
                gateway_ip matches Some(ip) && a@ == network::address(
                    ip@,
                    automatic_port(host_arg@),
                )
            } else {
                a@ == host_arg@
            },
            Err(_) => automatic(host_arg@) && gateway_ip is None,
        },
{
    let chars = to_chars(host_arg);
    if !starts_with(chars.as_slice(), "auto:") {
        return Ok(host_arg.to_owned());
    }
    proof {
        reveal_strlit("auto:");
        assert("auto:"@.len() == 5);
        assert(chars@.skip(5) =~= chars@.subrange(5, chars@.len() as int));
    }
    let suffix = slice_subrange(chars.as_slice(), 5, chars.len());
    let port: u16 = match parse_number(suffix, u16::MAX as u64) {
        Some(n) => n as u16,
        None => DEFAULT_PORT,
    };
    match gateway_ip {
        Some(ip) => Ok(address_text(ip.as_str(), port)),
        None => Err(AddressError::NoGateway),
    }
}

/// The unit by which systemd runs the guest.
pub open spec fn unit(config_path: Seq<char>) -> Seq<char> {
    "[Unit]\nDescription=WSL Memory Guest Agent\nDocumentation=https://github.com/microsoft/WSL/issues/4166\nAfter=network-online.target\nWants=network-online.target\n\n[Service]\nType=simple\nExecStart="@
        + INSTALL_PATH@ + " --config "@ + config_path
        + "\nRestart=always\nRestartSec=5\nUser=root\nStandardOutput=journal\nStandardError=journal\nSyslogIdentifier="@
        + SERVICE_NAME@
        + "\nLogRateLimitIntervalSec=30s\nLogRateLimitBurst=10000\nNoNewPrivileges=true\nPrivateTmp=true\nProtectSystem=strict\nProtectHome=true\nReadWritePaths=/sys/fs/cgroup /proc/sys/vm/compact_memory /proc/sys/vm/drop_caches\n\n[Install]\nWantedBy=multi-user.target\n"@
}

/// The unit by which systemd runs the guest.
pub fn systemd_unit(config_path: &str) -> (s: String)
    ensures
        s@ == unit(config_path@),
{
    let mut s =
        "[Unit]\nDescription=WSL Memory Guest Agent\nDocumentation=https://github.com/microsoft/WSL/issues/4166\nAfter=network-online.target\nWants=network-online.target\n\n[Service]\nType=simple\nExecStart=".to_owned();
    s.append(INSTALL_PATH);
    s.append(" --config ");
    s.append(config_path);
    s.append(
        "\nRestart=always\nRestartSec=5\nUser=root\nStandardOutput=journal\nStandardError=journal\nSyslogIdentifier=",
    );
    s.append(SERVICE_NAME);
    s.append(
        "\nLogRateLimitIntervalSec=30s\nLogRateLimitBurst=10000\nNoNewPrivileges=true\nPrivateTmp=true\nProtectSystem=strict\nProtectHome=true\nReadWritePaths=/sys/fs/cgroup /proc/sys/vm/compact_memory /proc/sys/vm/drop_caches\n\n[Install]\nWantedBy=multi-user.target\n",
    );
    s
}

/// A command line that says nothing leaves the configuration as it is.
pub proof fn silent_command_line_changes_nothing(
    cfg: GuestConfig,
    opt: GuestOptions,
    r: GuestConfig,
)
    requires
        merged(cfg, opt, r),
        opt.host is None && opt.token_path is None && opt.interval is None,
        !opt.allow_drop && !opt.multi_path && !opt.no_multi_path && !opt.tcp && !opt.udp,
    ensures
        r.host@ == cfg.host@,
        r.token_path@ == cfg.token_path@,
        r.interval == cfg.interval,
        r.allow_drop == cfg.allow_drop,
        r.multi_path == cfg.multi_path,
        r.tcp == cfg.tcp,
        r.local_reclaim == cfg.local_reclaim,
{
}

/// To take over the command line twice is to take it over once.
pub proof fn merging_twice_is_merging_once(
    cfg: GuestConfig,
    opt: GuestOptions,
    once: GuestConfig,
    twice: GuestConfig,
)
    requires
        merged(cfg, opt, once),
        merged(once, opt, twice),
    ensures
        merged(cfg, opt, twice),
{
}

/// How the guest reaches the host.
#[derive(Debug, Clone, Copy, PartialEq, Eq, Structural)]
pub enum Route {
    /// TCP, to the first of several targets that can be reached.
    TcpPaths,
    /// TCP, to the host's address.
    TcpDirect,
    /// UDP, to the first of several targets that answers.
    UdpPaths,
    /// UDP, to the host's address.
    UdpDirect,
}

impl GuestConfig {
    /// How the guest reaches the host: along several paths where that is
    /// wanted and the host is found by way of the gateway.
    pub open spec fn reaches_by(self) -> Route {
        if self.multi_path && automatic(self.host@) {
            if self.tcp {
                Route::TcpPaths
            } else {
                Route::UdpPaths
            }
        } else if self.tcp {
            Route::TcpDirect
        } else {
            Route::UdpDirect
        }
    }

    /// How the guest reaches the host.
    pub fn route(&self) -> (r: Route)
        ensures
            r == self.reaches_by(),
    {
        if self.multi_path && is_automatic(self.host.as_str()) {
            if self.tcp {
                Route::TcpPaths
            } else {
                Route::UdpPaths
            }
        } else if self.tcp {
            Route::TcpDirect
        } else {
            Route::UdpDirect
        }
    }
}

impl Route {
    /// The seconds to wait before the host is tried again: longer where none
    /// of several targets could be reached.
    pub fn retry_delay(self, reached: bool) -> (secs: u64)
        ensures
            secs == (if !reached && (self == Route::TcpPaths || self == Route::UdpPaths) {
                10u64
            } else {
                3u64
            }),
    {
        match self {
            Route::TcpPaths | Route::UdpPaths => if reached {
                3
            } else {
                10
            },
            Route::TcpDirect | Route::UdpDirect => 3,
        }
    }
}

/// What the guest does once it has waited for a command.
#[derive(Debug, Clone, Copy, PartialEq, Eq, Structural)]
pub enum ReadStep {
    /// Gives up: the host has closed the connection.
    Closed,
    /// Handles the bytes that have come.
    Handle,
    /// Goes on: nothing has come.
    Idle,
}

/// What the guest does once it has waited for a command, `received` being the
/// number of bytes that have come, if it is known.
pub fn after_read(tcp: bool, received: Option<usize>) -> (r: ReadStep)
    ensures
        r == (match received {
            Some(n) => if n > 0 {
                ReadStep::Handle
            } else if tcp {
                ReadStep::Closed
            } else {
                ReadStep::Idle
            },
            None => ReadStep::Idle,
        }),
{
    match received {
        Some(n) => if n > 0 {
            ReadStep::Handle
        } else if tcp {
            ReadStep::Closed
        } else {
            ReadStep::Idle
        },
        None => ReadStep::Idle,
    }
}

/// What the command line gives takes precedence; the last word on paths and
/// protocol have `--no-multi-path` and `--udp`. The command line can allow to
/// drop caches, and cannot forbid it.
pub proof fn command_line_wins(cfg: GuestConfig, opt: GuestOptions, r: GuestConfig)
    requires
        merged(cfg, opt, r),
    ensures
        opt.host matches Some(h) ==> r.host@ == h@,
        opt.token_path matches Some(p) ==> r.token_path@ == p@,
        opt.interval matches Some(n) ==> r.interval == n,
        opt.allow_drop || cfg.allow_drop ==> r.allow_drop,
        !opt.allow_drop && !cfg.allow_drop ==> !r.allow_drop,
        opt.no_multi_path ==> !r.multi_path,
        opt.multi_path && !opt.no_multi_path ==> r.multi_path,
        opt.udp ==> !r.tcp,
        opt.tcp && !opt.udp ==> r.tcp,
        // what it leaves out stays, whatever else it gives
        opt.host is None ==> r.host@ == cfg.host@,
        opt.token_path is None ==> r.token_path@ == cfg.token_path@,
        opt.interval is None ==> r.interval == cfg.interval,
        !opt.multi_path && !opt.no_multi_path ==> r.multi_path == cfg.multi_path,
        !opt.tcp && !opt.udp ==> r.tcp == cfg.tcp,
        r.local_reclaim == cfg.local_reclaim,
{
}

proof fn lemma_behind_at(w: Seq<Seq<char>>, key: Seq<char>, i: int)
    requires
        0 <= i < w.len(),
        w[i] == key,
        forall|j: int| 0 <= j < i ==> w[j] != key,
    ensures
        behind(w, key) == Some(
            if i + 1 < w.len() {
                Some(w[i + 1])
            } else {
                None
            },
        ),
    decreases i,
{
    if i > 0 {
        assert(w[0] != key);
        let rest = w.skip(1);
        assert forall|j: int| 0 <= j < i - 1 implies rest[j] != key by {
            assert(rest[j] == w[j + 1]);
        }
        lemma_behind_at(rest, key, i - 1);
    }
}

proof fn lemma_behind_missing(w: Seq<Seq<char>>, key: Seq<char>)
    requires
        !w.contains(key),
    ensures
        behind(w, key) is None,
    decreases w.len(),
{
    if w.len() > 0 {
        assert(w[0] != key);
        assert forall|j: int| 0 <= j < w.skip(1).len() implies w.skip(1)[j] != key by {
            assert(w.skip(1)[j] == w[j + 1]);
        }
        lemma_behind_missing(w.skip(1), key);
    }
}

/// Whether a line of the routing table is on a default route through a gateway.
pub open spec fn leads_out(line: Seq<char>) -> bool {
    text::begins(line, "default"@) && text::words(line).contains("via"@)
}

/// The gateway is the word behind the first `via` of the first default route
/// that has one, whatever comes behind that line and whatever `resolv.conf`
/// says.
pub proof fn first_default_route_names_the_gateway(
    route: Seq<char>,
    resolv: Option<Seq<char>>,
    k: int,
    i: int,
)
    requires
        0 <= k < procfs::lines(route).len(),
        text::begins(procfs::lines(route)[k], "default"@),
        0 <= i < text::words(procfs::lines(route)[k]).len() - 1,
        text::words(procfs::lines(route)[k])[i] == "via"@,
        forall|j: int| 0 <= j < i ==> text::words(procfs::lines(route)[k])[j] != "via"@,
        forall|j: int| 0 <= j < k ==> !leads_out(#[trigger] procfs::lines(route)[j]),
    ensures
        gateway(route, resolv) == Some(text::words(procfs::lines(route)[k])[i + 1]),
{
    lemma_behind_at(text::words(procfs::lines(route)[k]), "via"@, i);
    lemma_routed_at(procfs::lines(route), k);
}

proof fn lemma_routed_at(ls: Seq<Seq<char>>, k: int)
    requires
        0 <= k < ls.len(),
        default_via(ls[k]) is Some,
        forall|j: int| 0 <= j < k ==> !leads_out(#[trigger] ls[j]),
    ensures
        routed(ls) == default_via(ls[k]),
    decreases k,
{
    if k > 0 {
        assert(!leads_out(ls[0]));
        if text::begins(ls[0], "default"@) {
            lemma_behind_missing(text::words(ls[0]), "via"@);
        }
        assert forall|j: int| 0 <= j < k - 1 implies !leads_out(#[trigger] ls.skip(1)[j]) by {
            assert(ls.skip(1)[j] == ls[j + 1]);
        }
        lemma_routed_at(ls.skip(1), k - 1);
    }
}

proof fn lemma_not_routed(ls: Seq<Seq<char>>)
    requires
        forall|j: int| 0 <= j < ls.len() ==> !leads_out(#[trigger] ls[j]),
    ensures
        routed(ls) is None,
    decreases ls.len(),
{
    if ls.len() > 0 {
        assert(!leads_out(ls[0]));
        if text::begins(ls[0], "default"@) {
            lemma_behind_missing(text::words(ls[0]), "via"@);
        }
        assert forall|j: int| 0 <= j < ls.skip(1).len() implies !leads_out(
            #[trigger] ls.skip(1)[j],
        ) by {
            assert(ls.skip(1)[j] == ls[j + 1]);
        }
        lemma_not_routed(ls.skip(1));
    }
}

/// A default route that breaks off behind `via` leaves no gateway, whatever
/// `resolv.conf` says.
pub proof fn broken_default_route_names_no_gateway(
    route: Seq<char>,
    resolv: Option<Seq<char>>,
    k: int,
)
    requires
        0 <= k < procfs::lines(route).len(),
        text::begins(procfs::lines(route)[k], "default"@),
        text::words(procfs::lines(route)[k]).len() > 0,
        text::words(procfs::lines(route)[k]).last() == "via"@,
        !text::words(procfs::lines(route)[k]).drop_last().contains("via"@),
        forall|j: int| 0 <= j < k ==> !leads_out(#[trigger] procfs::lines(route)[j]),
    ensures
        gateway(route, resolv) is None,
{
    let w = text::words(procfs::lines(route)[k]);
    assert forall|j: int| 0 <= j < w.len() - 1 implies w[j] != "via"@ by {
        assert(w.drop_last()[j] == w[j]);
    }
    lemma_behind_at(w, "via"@, w.len() - 1);
    lemma_routed_at(procfs::lines(route), k);
}

/// Whether a line of `resolv.conf` names a server.
pub open spec fn names_server(line: Seq<char>) -> bool {
    text::begins(line, "nameserver"@) && text::words(line).len() >= 2
}

/// Without a default route through a gateway it is the first name server that
/// is named, and without either there is none.
pub proof fn first_name_server_stands_in(route: Seq<char>, resolv: Seq<char>, k: int)
    requires
        forall|j: int|
            0 <= j < procfs::lines(route).len() ==> !leads_out(#[trigger] procfs::lines(route)[j]),
        0 <= k < procfs::lines(resolv).len(),
        text::begins(procfs::lines(resolv)[k], "nameserver"@),
        text::words(procfs::lines(resolv)[k]).len() >= 2,
        forall|j: int|
            0 <= j < k ==> !names_server(#[trigger] procfs::lines(resolv)[j]),
    ensures
        gateway(route, Some(resolv)) == Some(text::words(procfs::lines(resolv)[k])[1]),
        gateway(route, None) is None,
{
    lemma_not_routed(procfs::lines(route));
    lemma_name_server_at(procfs::lines(resolv), k);
}

proof fn lemma_name_server_at(ls: Seq<Seq<char>>, k: int)
    requires
        0 <= k < ls.len(),
        server_of(ls[k]) is Some,
        forall|j: int| 0 <= j < k ==> !names_server(#[trigger] ls[j]),
    ensures
        name_server(ls) == server_of(ls[k]),
    decreases k,
{
    if k > 0 {
        assert(!names_server(ls[0]));
        assert forall|j: int| 0 <= j < k - 1 implies !names_server(#[trigger] ls.skip(1)[j]) by {
            assert(ls.skip(1)[j] == ls[j + 1]);
        }
        lemma_name_server_at(ls.skip(1), k - 1);
    }
}

/// A port behind `auto:` is the one that is used; anything else behind it means
/// the usual port, and anything without it is no automatic host.
pub proof fn automatic_port_reads_back(port: u16, suffix: Seq<char>, host: Seq<char>)
    ensures
        automatic("auto:"@ + suffix),
        automatic_port("auto:"@ + text::decimal(port as nat)) == port,
        text::number(suffix, u16::MAX as nat) is None ==> automatic_port("auto:"@ + suffix)
            == 15555,
        automatic(host) ==> host == "auto:"@ + host.skip(5),
{
    reveal_strlit("auto:");
    assert(("auto:"@ + suffix).take(5) =~= "auto:"@);
    assert(("auto:"@ + suffix).skip(5) =~= suffix);
    assert(("auto:"@ + text::decimal(port as nat)).skip(5) =~= text::decimal(port as nat));
    text::number_of_decimal(port as nat, u16::MAX as nat);
    if automatic(host) {
        assert(host =~= host.take(5) + host.skip(5));
    }
}

/// The protocol is the configured one, and several paths are tried if and only
/// if that is wanted and the host is found by way of the gateway.
pub proof fn route_follows_the_configuration(cfg: GuestConfig)
    ensures
        cfg.tcp <==> cfg.reaches_by() == Route::TcpPaths || cfg.reaches_by() == Route::TcpDirect,
        cfg.reaches_by() == Route::TcpPaths || cfg.reaches_by() == Route::UdpPaths <==>
            cfg.multi_path && text::begins(cfg.host@, "auto:"@),
{
}

/// What runs follows the configuration: a pause of at least a second, the same
/// permission, and the text of the token's file without white space around it,
/// which is refused if nothing is left.
pub proof fn runtime_follows_the_configuration(
    cfg: &GuestConfig,
    text: &str,
    r: Result<GuestRuntimeConfig, TokenError>,
)
    requires
        call_ensures(runtime_config, (cfg, text), r),
    ensures
        r is Err <==> text::trim(text@).len() == 0,
        r matches Ok(rt) ==> {
            &&& rt.interval >= 1
            &&& cfg.interval >= 1 ==> rt.interval == cfg.interval
            &&& rt.allow_drop == cfg.allow_drop
            &&& rt.token@ == text::trim(text@)
            &&& text::trim(rt.token@) == rt.token@
        },
{
    text::trimmed_text_stays(text@);
}

/// A guest and a host that read the same token file get on: the guest's report
/// is taken in, and with any other token it is refused.
pub proof fn agents_with_the_same_token_get_on(
    cfg: &GuestConfig,
    text: &str,
    rt: GuestRuntimeConfig,
    content: &Option<String>,
    expected: Option<String>,
    distro: &Option<String>,
    meminfo: &str,
    cpu: Single,
    io: Single,
    token: &str,
    m: MetricsMsg,
)
    requires
        call_ensures(runtime_config, (cfg, text), Ok(rt)),
        *content matches Some(c) && c@ == text@,
        call_ensures(host_config::expected_token, (content,), expected),
        procfs::meminfo_fits(meminfo@),
        call_ensures(collect_metrics, (token, distro, meminfo, cpu, io), m),
    ensures
        server::kind(
            Some(m.msg_type@),
            server::accepted(Some(m.token@), text::text_of(expected)),
        ) == (if token@ == rt.token@ {
            server::Incoming::Metrics
        } else {
            server::Incoming::Refused
        }),
{
    server::token_decides(Some(m.token@), text::text_of(expected));
}

/// A report tells the sizes of `/proc/meminfo`, which add up, and the rates as
/// they were measured.
pub proof fn report_tells_the_memory(
    token: &str,
    distro: &Option<String>,
    meminfo: &str,
    cpu: Single,
    io: Single,
    m: MetricsMsg,
)
    requires
        procfs::meminfo_fits(meminfo@),
        call_ensures(collect_metrics, (token, distro, meminfo, cpu, io), m),
    ensures
        m.mem_total == procfs::field(procfs::lines(meminfo@), "MemTotal:"@),
        m.mem_available == procfs::field(procfs::lines(meminfo@), "MemAvailable:"@),
        ({
            let free = procfs::field(procfs::lines(meminfo@), "MemFree:"@);
            free <= m.mem_total ==> m.resident + free == m.mem_total
        }),
        m.file_cache <= m.resident ==> m.anon + m.file_cache == m.resident,
        m.file_cache > m.resident ==> m.anon == 0,
        m.token@ == token@,
        m.cpu_percent == cpu && m.io_rate == io,
        *distro matches Some(d) ==> m.distro@ == d@,
        *distro is None ==> m.distro@ == "wsl"@,
{
    procfs::memory_adds_up(meminfo@);
}

/// The host is tried again after three seconds, after ten where none of several
/// targets could be reached; a guest that has once reached it never waits the
/// longer time.
pub proof fn unreachable_targets_are_given_more_time(r: Route, reached: bool, secs: u64)
    requires
        call_ensures(Route::retry_delay, (r, reached), secs),
    ensures
        secs == 3 || secs == 10,
        reached ==> secs == 3,
        secs == 10 <==> !reached && (r == Route::TcpPaths || r == Route::UdpPaths),
{
}

/// The address of an automatic host is that of the gateway, at the port that
/// was asked for; another host is taken as it is.
pub proof fn automatic_host_is_the_gateway(
    host: &str,
    gateway_ip: &Option<String>,
    r: Result<String, AddressError>,
    port: u16,
)
    requires
        call_ensures(resolve_host_addr, (host, gateway_ip), r),
    ensures
        !text::begins(host@, "auto:"@) ==> (r matches Ok(a) && a@ == host@),
        text::begins(host@, "auto:"@) ==> (r is Ok <==> gateway_ip is Some),
        host@ == "auto:"@ + text::decimal(port as nat) && gateway_ip is Some ==> (r matches Ok(a)
            && a@ == gateway_ip->0@ + ":"@ + text::decimal(port as nat)),
        host@ == "auto:multi"@ && gateway_ip is Some ==> (r matches Ok(a) && a@
            == gateway_ip->0@ + ":"@ + text::decimal(15555)),
{
    automatic_port_reads_back(port, "multi"@, host@);
    automatic_port_reads_back(port, text::decimal(port as nat), host@);
    reveal_strlit("auto:");
    reveal_strlit("multi");
    reveal_strlit("auto:multi");
    assert("auto:multi"@ =~= "auto:"@ + "multi"@);
    assert("multi"@[0] == 'm');
    assert(!text::is_digit("multi"@[0]));
}

/// Bytes that have come are handled, over either protocol. An empty read ends a
/// TCP connection and nothing else does; an empty datagram does not matter.
pub proof fn only_tcp_ends_with_an_empty_read(tcp: bool, received: Option<usize>, r: ReadStep)
    requires
        call_ensures(after_read, (tcp, received), r),
    ensures
        r == ReadStep::Handle <==> received is Some && received->0 > 0,
        r == ReadStep::Closed <==> tcp && received == Some(0usize),
{
}

/// The shared configuration is used as it is. Where it cannot be reached the
/// guest shows no token, and has no permission to drop caches.
pub proof fn unreachable_configuration_permits_nothing(
    shared: Option<&GuestRuntimeConfig>,
    r: GuestRuntimeConfig,
)
    requires
        call_ensures(current_runtime, (shared,), r),
    ensures
        shared matches Some(rt) ==> r.token@ == rt.token@ && r.interval == rt.interval
            && r.allow_drop == rt.allow_drop,
        shared is None ==> r.token@ == ""@ && r.interval == 4 && !r.allow_drop,
{
    reveal_strlit("");
    if shared is None {
        assert(r.token@ =~= ""@);
    }
}

} // verus!
