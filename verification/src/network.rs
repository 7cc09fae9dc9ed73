//! Ports, connection targets and the order in which they are tried.

use crate::ordering;
use crate::ordering::order_by_key;
use crate::text;
use crate::text::{push_decimal, to_chars};
use crate::time::Interval;
use vstd::arithmetic::div_mod::*;
use vstd::prelude::*;
use vstd::string::*;

verus! {

/// The recommended ports, by priority.
pub const RECOMMENDED_PORTS: [u16; 6] = [15555, 15556, 25555, 35555, 45555, 5555];

/// What a target is asked to see whether it answers.
pub const PING: &'static str = "{\"msg_type\":\"ping\"}";

/// How a target is reached.
#[derive(Debug, Clone, Copy, PartialEq, Eq, Structural)]
pub enum ConnectionMode {
    /// Directly.
    Direct,
    /// Through the gateway.
    Nat,
}

/// Where to connect to.
#[derive(Debug, Clone)]
pub struct ConnectionTarget {
    pub host: String,
    pub port: u16,
    pub mode: ConnectionMode,
    /// The smaller, the earlier it is tried.
    pub priority: u8,
}

/// What a connection target is.
pub struct Target {
    pub host: Seq<char>,
    pub port: u16,
    pub mode: ConnectionMode,
    pub priority: u8,
}

impl View for ConnectionTarget {
    type V = Target;

    open spec fn view(&self) -> Target {
        Target {
            host: self.host@,
            port: self.port,
            mode: self.mode,
            priority: self.priority,
        }
    }
}

/// `host:port`.
pub open spec fn address(host: Seq<char>, port: u16) -> Seq<char> {
    host + ":"@ + text::decimal(port as nat)
}

/// `host:port`.
pub fn address_text(host: &str, port: u16) -> (r: String)
    ensures
        r@ == address(host@, port),
{
    let mut r = host.to_owned();
    r.append(":");
    push_decimal(&mut r, port as u128);
    r
}

impl ConnectionTarget {
    /// The address of the target.
    pub fn socket_addr(&self) -> (r: String)
        ensures
            r@ == address(self.host@, self.port),
    {
        address_text(self.host.as_str(), self.port)
    }
}

/// How to connect along several paths.
#[derive(Debug, Clone)]
pub struct MultiPathConfig {
    pub targets: Vec<ConnectionTarget>,
    pub connect_timeout: Interval,
    pub max_retries: usize,
}

impl Default for MultiPathConfig {
    fn default() -> (r: Self)
        ensures
            r.targets@.len() == 0,
            r.connect_timeout == (Interval { secs: 3, nanos: 0 }),
            r.max_retries == 3,
    {
        MultiPathConfig {
            targets: Vec::new(),
            connect_timeout: Interval::from_secs(3),
            max_retries: 3,
        }
    }
}

/// Whether a port can be used.
#[derive(Debug)]
pub struct PortCheckResult {
    pub port: u16,
    pub available: bool,
    pub error: Option<String>,
}

/// What is said of a port in use.
pub open spec fn occupied(port: u16) -> Seq<char> {
    "端口 "@ + text::decimal(port as nat) + " 已被占用"@
}

impl PortCheckResult {
    /// An error is given for a port in use, and for no other.
    pub open spec fn wf(&self) -> bool {
        match self.error {
            Some(e) => !self.available && e@ == occupied(self.port),
            None => self.available,
        }
    }
}

/// Chooses among ports. Whether a port is available is asked of a probe.
pub struct PortManager;

impl PortManager {
    /// Probes each of the ports.
    pub fn check_ports<F: Fn(u16) -> bool>(ports: &[u16], probe: &F) -> (results: Vec<
        PortCheckResult,
    >)
        requires
            forall|p: u16| #[trigger] probe.requires((p,)),
        ensures
            results@.len() == ports@.len(),
            forall|i: int|
                0 <= i < ports@.len() ==> {
                    let r = #[trigger] results@[i];
                    &&& r.port == ports@[i]
                    &&& probe.ensures((ports@[i],), r.available)
                    &&& r.wf()
                },
    {
        let mut results: Vec<PortCheckResult> = Vec::new();
        let mut i: usize = 0;
        while i < ports.len()
            invariant
                i <= ports@.len(),
                forall|p: u16| #[trigger] probe.requires((p,)),
                results@.len() == i,
                forall|j: int|
                    0 <= j < i ==> {
                        let r = #[trigger] results@[j];
                        &&& r.port == ports@[j]
                        &&& probe.ensures((ports@[j],), r.available)
                        &&& r.wf()
                    },
            decreases ports.len() - i,
        {
            let port = ports[i];
            let available = probe(port);
            let error = if available {
                None
            } else {
                let mut e = "端口 ".to_owned();
                push_decimal(&mut e, port as u128);
                e.append(" 已被占用");
                Some(e)
            };
            results.push(PortCheckResult { port, available, error });
            i = i + 1;
        }
        results
    }
}

/// The probe has refused the first `n` ports.
pub open spec fn refused<F: Fn(u16) -> bool>(probe: F, ports: Seq<u16>, n: int) -> bool {
    forall|j: int| 0 <= j < n ==> probe.ensures((#[trigger] ports[j],), false)
}

/// The probe has refused all ports before `i` and accepted that one.
pub open spec fn first_accepted<F: Fn(u16) -> bool>(probe: F, ports: Seq<u16>, i: int) -> bool {
    &&& 0 <= i < ports.len()
    &&& refused(probe, ports, i)
    &&& probe.ensures((ports[i],), true)
}

/// What a search among `ports` may find.
pub open spec fn found<F: Fn(u16) -> bool>(probe: F, ports: Seq<u16>, r: Option<u16>) -> bool {
    match r {
        Some(p) => exists|i: int| #[trigger] first_accepted(probe, ports, i) && p == ports[i],
        None => refused(probe, ports, ports.len() as int),
    }
}

/// The port from 10000 on that a random number stands for.
pub open spec fn candidate(draw: u16) -> u16 {
    (10000 + draw % 55535) as u16
}

/// What `PortManager::select_best_port` may choose: the first available of the
/// recommended ports, else the first available of ten random candidates, else
/// the first recommended port.
pub open spec fn selected<F: Fn(u16) -> bool>(probe: F, draws: Seq<u16>, port: u16) -> bool {
    ||| found(probe, RECOMMENDED_PORTS@, Some(port))
    ||| {
        let candidates = draws.map_values(|d: u16| candidate(d));
        &&& found(probe, RECOMMENDED_PORTS@, None)
        &&& found(probe, candidates, Some(port)) || (found(probe, candidates, None) && port
            == RECOMMENDED_PORTS@[0])
    }
}

/// `rand::random::<u16>`: any number, drawn at random.
#[verifier::external_body]
fn random_u16() -> u16 {
    rand::random::<u16>()
}

/// The port that a random number stands for.
pub fn candidate_port(draw: u16) -> (port: u16)
    ensures
        port == candidate(draw),
        10000 <= port < 65535,
{
    10000 + draw % 55535
}

impl PortManager {
    /// The first available port.
    pub fn find_available_port<F: Fn(u16) -> bool>(ports: &[u16], probe: &F) -> (r: Option<u16>)
        requires
            forall|p: u16| #[trigger] probe.requires((p,)),
        ensures
            found(*probe, ports@, r),
    {
        let mut i: usize = 0;
        while i < ports.len()
            invariant
                i <= ports@.len(),
                forall|p: u16| #[trigger] probe.requires((p,)),
                refused(*probe, ports@, i as int),
            decreases ports.len() - i,
        {
            let port = ports[i];
            if probe(port) {
                assert(first_accepted(*probe, ports@, i as int));
                return Some(port);
            }
            i = i + 1;
        }
        None
    }

    /// The port that `draws` lead to where no recommended port is available.
    pub fn fall_back_port<F: Fn(u16) -> bool>(draws: &[u16], probe: &F) -> (port: u16)
        requires
            forall|p: u16| #[trigger] probe.requires((p,)),
        ensures
            ({
                let candidates = draws@.map_values(|d: u16| candidate(d));
                found(*probe, candidates, Some(port)) || (found(*probe, candidates, None) && port
                    == RECOMMENDED_PORTS@[0])
            }),
    {
        let ghost candidates = draws@.map_values(|d: u16| candidate(d));
        let mut ports: Vec<u16> = Vec::new();
        let mut i: usize = 0;
        while i < draws.len()
            invariant
                i <= draws@.len(),
                candidates == draws@.map_values(|d: u16| candidate(d)),
                ports@ =~= candidates.take(i as int),
            decreases draws.len() - i,
        {
            ports.push(candidate_port(draws[i]));
            i = i + 1;
        }
        assert(ports@ =~= candidates);
        match PortManager::find_available_port(ports.as_slice(), probe) {
            Some(port) => port,
            None => RECOMMENDED_PORTS[0],
        }
    }

    /// An available port: a recommended one, else a random one.
    pub fn select_best_port<F: Fn(u16) -> bool>(probe: &F) -> (port: u16)
        requires
            forall|p: u16| #[trigger] probe.requires((p,)),
        ensures
            exists|draws: Seq<u16>| draws.len() == 10 && #[trigger] selected(*probe, draws, port),
    {
        if let Some(port) = PortManager::find_available_port(RECOMMENDED_PORTS.as_slice(), probe) {
            assert(selected(*probe, Seq::new(10, |i: int| 0u16), port));
            return port;
        }
        let mut draws: Vec<u16> = Vec::new();
        let mut n: usize = 0;
        while n < 10
            invariant
                n <= 10,
                draws@.len() == n,
            decreases 10 - n,
        {
            draws.push(random_u16());
            n = n + 1;
        }
        let port = PortManager::fall_back_port(draws.as_slice(), probe);
        assert(selected(*probe, draws@, port));
        port
    }
}

/// The report's line on one port.
pub open spec fn report_line(r: PortCheckResult) -> Seq<char> {
    let line = "端口 "@ + text::decimal(r.port as nat) + ": "@ + (if r.available {
        "✓ 可用"@
    } else {
        "✗ 占用"@
    }) + "\n"@;
    match r.error {
        Some(e) => line + ("  原因: "@ + e@ + "\n"@),
        None => line,
    }
}

/// The report's lines on the ports.
pub open spec fn report_lines(results: Seq<PortCheckResult>) -> Seq<char>
    decreases results.len(),
{
    if results.len() == 0 {
        Seq::empty()
    } else {
        report_lines(results.drop_last()) + report_line(results.last())
    }
}

/// How many ports are available.
pub open spec fn available_count(results: Seq<PortCheckResult>) -> nat
    decreases results.len(),
{
    if results.len() == 0 {
        0
    } else {
        available_count(results.drop_last()) + (if results.last().available {
            1nat
        } else {
            0
        })
    }
}

/// The report on a check of ports, with the port that it recommends.
pub open spec fn report(results: Seq<PortCheckResult>, recommended: u16) -> Seq<char> {
    let head = "=== 端口可用性诊断 ===\n\n"@ + report_lines(results) + "\n可用端口: "@
        + text::decimal(available_count(results)) + "/"@ + text::decimal(results.len()) + "\n"@;
    (if available_count(results) == 0 {
        head + "\n⚠️  警告: 所有推荐端口都被占用！\n"@ + "建议: 使用自动端口选择功能\n"@
            + "推荐使用端口: "@
    } else {
        head + "\n推荐使用端口: "@
    }) + text::decimal(recommended as nat) + "\n"@
}

/// Writes the report on a check of ports.
pub fn port_report(results: &Vec<PortCheckResult>, recommended: u16) -> (s: String)
    ensures
        s@ == report(results@, recommended),
{
    let mut s = "=== 端口可用性诊断 ===\n\n".to_owned();
    let ghost head = s@;
    let mut count: usize = 0;
    let mut i: usize = 0;
    assert(head + report_lines(Seq::empty()) =~= head);
    while i < results.len()
        invariant
            i <= results@.len(),
            count <= i,
            count == available_count(results@.take(i as int)),
            s@ == head + report_lines(results@.take(i as int)),
        decreases results.len() - i,
    {
        let r = &results[i];
        let ghost before = s@;
        let ghost rest = results@.take(i as int + 1);
        assert(rest.drop_last() =~= results@.take(i as int));
        s.append("端口 ");
        push_decimal(&mut s, r.port as u128);
        s.append(": ");
        if r.available {
            s.append("✓ 可用");
            count = count + 1;
        } else {
            s.append("✗ 占用");
        }
        s.append("\n");
        if let Some(e) = &r.error {
            s.append("  原因: ");
            s.append(e.as_str());
            s.append("\n");
        }
        assert(s@ =~= before + report_line(*r));
        assert(s@ =~= head + report_lines(rest));
        i = i + 1;
    }
    assert(results@.take(i as int) =~= results@);
    s.append("\n可用端口: ");
    push_decimal(&mut s, count as u128);
    s.append("/");
    push_decimal(&mut s, results.len() as u128);
    s.append("\n");
    if count == 0 {
        s.append("\n⚠️  警告: 所有推荐端口都被占用！\n");
        s.append("建议: 使用自动端口选择功能\n");
        s.append("推荐使用端口: ");
    } else {
        s.append("\n推荐使用端口: ");
    }
    push_decimal(&mut s, recommended as u128);
    s.append("\n");
    s
}

/// A check of the recommended ports that the probe may have led to.
pub open spec fn checked<F: Fn(u16) -> bool>(probe: F, results: Seq<PortCheckResult>) -> bool {
    &&& results.len() == RECOMMENDED_PORTS@.len()
    &&& forall|i: int|
        0 <= i < results.len() ==> {
            let r = #[trigger] results[i];
            &&& r.port == RECOMMENDED_PORTS@[i]
            &&& probe.ensures((RECOMMENDED_PORTS@[i],), r.available)
            &&& r.wf()
        }
}

/// The port to recommend after a check: the first available one, else one that
/// `PortManager::select_best_port` may choose.
pub open spec fn recommendable<F: Fn(u16) -> bool>(
    probe: F,
    results: Seq<PortCheckResult>,
    port: u16,
) -> bool {
    if available_count(results) == 0 {
        exists|draws: Seq<u16>| draws.len() == 10 && #[trigger] selected(probe, draws, port)
    } else {
        exists|i: int|
            0 <= i < results.len() && (#[trigger] results[i]).available && results[i].port == port
                && forall|j: int| 0 <= j < i ==> !(#[trigger] results[j]).available
    }
}

/// Whether no port is available can be told from the count.
proof fn lemma_available_count(results: Seq<PortCheckResult>)
    ensures
        available_count(results) == 0 <==> forall|i: int|
            0 <= i < results.len() ==> !(#[trigger] results[i]).available,
    decreases results.len(),
{
    if results.len() > 0 {
        lemma_available_count(results.drop_last());
        if forall|i: int| 0 <= i < results.len() ==> !(#[trigger] results[i]).available {
            assert forall|i: int| 0 <= i < results.len() - 1 implies !(
            #[trigger] results.drop_last()[i]).available by {
                assert(!results[i].available);
            }
        }
        if available_count(results) == 0 {
            assert forall|i: int| 0 <= i < results.len() implies !(
            #[trigger] results[i]).available by {
                if i < results.len() - 1 {
                    assert(results.drop_last()[i] == results[i]);
                }
            }
        }
    }
}

/// Checks the recommended ports and reports on them.
pub fn diagnose_port_conflicts<F: Fn(u16) -> bool>(probe: &F) -> (s: String)
    requires
        forall|p: u16| #[trigger] probe.requires((p,)),
    ensures
        exists|results: Seq<PortCheckResult>, port: u16|
            checked(*probe, results) && #[trigger] recommendable(*probe, results, port) && s@
                == report(results, port),
{
    let results = PortManager::check_ports(RECOMMENDED_PORTS.as_slice(), probe);
    proof {
        lemma_available_count(results@);
    }
    let mut i: usize = 0;
    while i < results.len()
        invariant
            i <= results@.len(),
            forall|j: int| 0 <= j < i ==> !(#[trigger] results@[j]).available,
            checked(*probe, results@),
            available_count(results@) == 0 <==> forall|i: int|
                0 <= i < results@.len() ==> !(#[trigger] results@[i]).available,
        decreases results.len() - i,
    {
        if results[i].available {
            let port = results[i].port;
            let s = port_report(&results, port);
            assert(recommendable(*probe, results@, port)) by {
                assert(results@[i as int].available);
            }
            return s;
        }
        i = i + 1;
    }
    let port = PortManager::select_best_port(probe);
    assert(recommendable(*probe, results@, port));
    port_report(&results, port)
}

/// The address of the host in the `k`-th of the networks that WSL2 uses.
pub open spec fn common_host(k: nat) -> Seq<char> {
    "172."@ + text::decimal(k) + ".0.1"@
}

/// The hosts of the networks that WSL2 uses, but for the gateway.
pub open spec fn other_hosts(gateway: Seq<char>) -> Seq<Seq<char>> {
    Seq::new(16, |i: int| common_host((16 + i) as nat)).filter(|h: Seq<char>| h != gateway)
}

/// The targets that a guest tries: each port of the gateway, then the first
/// port of the other hosts, all by priority.
pub open spec fn guest_targets(ports: Seq<u16>, gateway: Seq<char>) -> Seq<Target> {
    let others = other_hosts(gateway);
    Seq::new(
        ports.len() + others.len(),
        |i: int|
            Target {
                host: if i < ports.len() {
                    gateway
                } else {
                    others[i - ports.len()]
                },
                port: if i < ports.len() {
                    ports[i]
                } else {
                    ports[0]
                },
                mode: ConnectionMode::Nat,
                priority: i as u8,
            },
    )
}

/// What a vector of targets holds.
pub open spec fn targets_of(v: Seq<ConnectionTarget>) -> Seq<Target> {
    v.map_values(|t: ConnectionTarget| t@)
}

/// Connects along several paths, by TCP or by UDP.
pub struct MultiPathConnector {
    config: MultiPathConfig,
    /// The addresses to probe by UDP.
    udp_targets: Vec<String>,
}

impl MultiPathConnector {
    /// The configuration.
    pub closed spec fn spec_config(&self) -> MultiPathConfig {
        self.config
    }

    /// The addresses to probe by UDP.
    pub closed spec fn spec_udp_targets(&self) -> Seq<String> {
        self.udp_targets@
    }

    /// A connector for the targets of `config`.
    pub fn new(config: MultiPathConfig) -> (r: Self)
        ensures
            r.spec_config() == config,
            r.spec_udp_targets().len() == 0,
    {
        MultiPathConnector { config, udp_targets: Vec::new() }
    }

    /// The configuration.
    pub fn config(&self) -> (r: &MultiPathConfig)
        ensures
            *r == self.spec_config(),
    {
        &self.config
    }

    /// The addresses to probe by UDP.
    pub fn udp_targets(&self) -> (r: &Vec<String>)
        ensures
            r@ == self.spec_udp_targets(),
    {
        &self.udp_targets
    }
}

/// The addresses of `ports` on the gateway for which `keep` is set.
pub open spec fn kept_addresses(
    ports: Seq<u16>,
    gateway: Seq<char>,
    keep: Seq<bool>,
) -> Seq<Seq<char>>
    decreases ports.len(),
{
    if ports.len() == 0 {
        Seq::empty()
    } else {
        let rest = kept_addresses(ports.drop_last(), gateway, keep.drop_last());
        if keep.last() {
            rest.push(address(gateway, ports.last()))
        } else {
            rest
        }
    }
}

/// Whether `valid` may have answered `answer` to an address.
pub open spec fn answered<F: Fn(&String) -> bool>(
    valid: F,
    address: Seq<char>,
    answer: bool,
) -> bool {
    exists|a: String| a@ == address && #[trigger] valid.ensures((&a,), answer)
}

/// What `valid` may have said of the addresses of `ports` on the gateway.
pub open spec fn judged<F: Fn(&String) -> bool>(
    valid: F,
    ports: Seq<u16>,
    gateway: Seq<char>,
    keep: Seq<bool>,
) -> bool {
    &&& keep.len() == ports.len()
    &&& forall|i: int|
        0 <= i < ports.len() ==> answered(valid, address(gateway, ports[i]), #[trigger] keep[i])
}

impl MultiPathConnector {
    /// A connector that probes ports of the gateway by UDP, those whose
    /// address is valid.
    pub fn new_udp<F: Fn(&String) -> bool>(ports: &[u16], gateway_ip: &str, valid: &F) -> (r: Self)
        requires
            forall|a: &String| #[trigger] valid.requires((a,)),
        ensures
            exists|keep: Seq<bool>| #[trigger]
                judged(*valid, ports@, gateway_ip@, keep) && text::strings_of(r.spec_udp_targets())
                    == kept_addresses(ports@, gateway_ip@, keep),
            r.spec_config().targets@.len() == 0,
            r.spec_config().connect_timeout == (Interval { secs: 3, nanos: 0 }),
            r.spec_config().max_retries == 3,
    {
        let mut addrs: Vec<String> = Vec::new();
        let ghost mut keep: Seq<bool> = Seq::empty();
        let mut i: usize = 0;
        while i < ports.len()
            invariant
                i <= ports@.len(),
                forall|a: &String| #[trigger] valid.requires((a,)),
                judged(*valid, ports@.take(i as int), gateway_ip@, keep),
                text::strings_of(addrs@) =~= kept_addresses(ports@.take(i as int), gateway_ip@, keep),
            decreases ports.len() - i,
        {
            let a = address_text(gateway_ip, ports[i]);
            let k = valid(&a);
            let ghost longer = ports@.take(i as int + 1);
            let ghost said = keep.push(k);
            let ghost addrs_before = addrs@;
            proof {
                assert(longer.drop_last() =~= ports@.take(i as int));
                assert(said.drop_last() =~= keep);
                assert(answered(*valid, address(gateway_ip@, ports@[i as int]), k));
                assert forall|j: int| 0 <= j < longer.len() implies answered(
                    *valid,
                    address(gateway_ip@, longer[j]),
                    #[trigger] said[j],
                ) by {
                    if j < i {
                        assert(answered(
                            *valid,
                            address(gateway_ip@, ports@.take(i as int)[j]),
                            keep[j],
                        ));
                    }
                }
            }
            if k {
                addrs.push(a);
                assert(text::strings_of(addrs@) =~= text::strings_of(addrs_before).push(a@));
            }
            proof {
                keep = said;
            }
            i = i + 1;
        }
        assert(ports@.take(i as int) =~= ports@);
        MultiPathConnector { config: MultiPathConfig::default(), udp_targets: addrs }
    }

    /// The targets that a guest tries.
    pub fn build_guest_targets(ports: &[u16], gateway_ip: &str) -> (targets: Vec<ConnectionTarget>)
        requires
            ports@.len() > 0,
            // a priority is a byte
            ports@.len() <= 239 || ports@.len() + other_hosts(gateway_ip@).len() <= 255,
        ensures
            targets_of(targets@) == guest_targets(ports@, gateway_ip@),
    {
        let mut targets: Vec<ConnectionTarget> = Vec::new();
        let ghost all = guest_targets(ports@, gateway_ip@);
        let ghost others = other_hosts(gateway_ip@);
        proof {
            lemma_other_hosts(gateway_ip@);
        }
        let gateway = to_chars(gateway_ip);
        let mut priority: u8 = 0;
        let mut i: usize = 0;
        while i < ports.len()
            invariant
                i <= ports@.len(),
                ports@.len() + others.len() <= 255,
                all == guest_targets(ports@, gateway_ip@),
                others == other_hosts(gateway_ip@),
                priority == i,
                targets_of(targets@) =~= all.take(i as int),
            decreases ports.len() - i,
        {
            let t = ConnectionTarget {
                host: gateway_ip.to_owned(),
                port: ports[i],
                mode: ConnectionMode::Nat,
                priority,
            };
            let ghost before = targets@;
            targets.push(t);
            assert(targets_of(targets@) =~= targets_of(before).push(t@));
            assert(t@ == all[i as int]);
            priority = priority + 1;
            i = i + 1;
        }
        let ghost hosts = Seq::new(16, |i: int| common_host((16 + i) as nat));
        let ghost differs = |h: Seq<char>| h != gateway_ip@;
        let mut k: u8 = 16;
        let ghost mut n: nat = 0;
        assert(hosts.take(0).filter(differs) =~= others.take(0)) by {
            reveal(Seq::filter);
        }
        while k < 32
            invariant
                16 <= k <= 32,
                ports@.len() > 0,
                ports@.len() + others.len() <= 255,
                all == guest_targets(ports@, gateway_ip@),
                others == other_hosts(gateway_ip@),
                gateway@ == gateway_ip@,
                hosts == Seq::new(16, |i: int| common_host((16 + i) as nat)),
                differs == (|h: Seq<char>| h != gateway_ip@),
                n <= others.len(),
                hosts.take(k - 16).filter(differs) == others.take(n as int),
                priority == ports@.len() + n,
                targets_of(targets@) =~= all.take(ports@.len() as int + n),
            decreases 32 - k,
        {
            let mut host = "172.".to_owned();
            push_decimal(&mut host, k as u128);
            host.append(".0.1");
            let ghost so_far = hosts.take(k - 16);
            let ghost longer = hosts.take(k - 15);
            proof {
                assert(longer.drop_last() =~= so_far);
                assert(longer.last() == host@);
                lemma_filter_step(hosts, k - 16, differs);
            }
            if !text::same(gateway.as_slice(), host.as_str()) {
                let ghost before = targets@;
                proof {
                    assert(others[n as int] == host@);
                    assert(others.take(n as int + 1) =~= others.take(n as int).push(host@));
                }
                let t = ConnectionTarget {
                    host,
                    port: ports[0],
                    mode: ConnectionMode::Nat,
                    priority,
                };
                targets.push(t);
                assert(targets_of(targets@) =~= targets_of(before).push(t@));
                assert(t@ == all[ports@.len() as int + n]);
                priority = priority + 1;
                proof {
                    n = n + 1;
                }
            }
            k = k + 1;
        }
        assert(hosts.take(16) =~= hosts);
        assert(others.take(n as int) =~= others);
        assert(all.take(all.len() as int) =~= all);
        targets
    }
}

/// There are at most sixteen other hosts.
proof fn lemma_other_hosts(gateway: Seq<char>)
    ensures
        other_hosts(gateway).len() <= 16,
{
    Seq::new(16, |i: int| common_host((16 + i) as nat)).lemma_filter_len(
        |h: Seq<char>| h != gateway,
    );
}

/// Filtering one more element of a sequence.
proof fn lemma_filter_step(s: Seq<Seq<char>>, i: int, keep: spec_fn(Seq<char>) -> bool)
    requires
        0 <= i < s.len(),
    ensures
        s.take(i + 1).filter(keep) == (if keep(s[i]) {
            s.take(i).filter(keep).push(s[i])
        } else {
            s.take(i).filter(keep)
        }),
        keep(s[i]) ==> s.take(i).filter(keep).len() < s.filter(keep).len() && s.filter(
            keep,
        )[s.take(i).filter(keep).len() as int] == s[i],
        s.take(i).filter(keep).len() <= s.filter(keep).len(),
        s.filter(keep).take(s.take(i).filter(keep).len() as int) == s.take(i).filter(keep),
    decreases s.len(),
{
    reveal(Seq::filter);
    assert(s.take(i + 1).drop_last() =~= s.take(i));
    if i + 1 < s.len() {
        let t = s.drop_last();
        assert(t.take(i) =~= s.take(i));
        assert(t.take(i + 1) =~= s.take(i + 1));
        lemma_filter_step(t, i, keep);
    } else {
        assert(s.take(i + 1) =~= s);
        assert(s.drop_last() =~= s.take(i));
    }
    assert(s.filter(keep).take(s.take(i).filter(keep).len() as int) =~= s.take(i).filter(keep));
}

/// How far the attempts to connect have got.
pub struct Attempts {
    /// The positions of the targets, in the order in which they are tried.
    pub order: Seq<usize>,
    /// The attempts for each target.
    pub per_target: nat,
    /// The attempts that have failed.
    pub failed: nat,
}

impl Attempts {
    /// The position of the target that is tried next, if any is left.
    pub open spec fn current(self) -> Option<usize> {
        if self.per_target > 0 && self.failed / self.per_target < self.order.len() {
            Some(self.order[(self.failed / self.per_target) as int])
        } else {
            None
        }
    }

    /// Whether the next attempt is at the same target as this one.
    pub open spec fn retries(self) -> bool {
        self.failed % self.per_target < self.per_target - 1
    }

    /// A failed attempt leads from here to `next`, after a pause if `pause`.
    pub open spec fn fails(self, next: Attempts, pause: bool) -> bool {
        if self.current() is Some {
            next == (Attempts { failed: self.failed + 1, ..self }) && pause == self.retries()
        } else {
            next == self && !pause
        }
    }
}

/// The attempts to connect to the targets of a connector, by priority, each
/// target several times.
pub struct ConnectPlan {
    order: Vec<usize>,
    per_target: usize,
    failed: u128,
}

impl View for ConnectPlan {
    type V = Attempts;

    closed spec fn view(&self) -> Attempts {
        Attempts {
            order: self.order@,
            per_target: self.per_target as nat,
            failed: self.failed as nat,
        }
    }
}

/// The priorities of targets.
pub open spec fn priorities(targets: Seq<ConnectionTarget>) -> Seq<i128> {
    targets.map_values(|t: ConnectionTarget| t.priority as i128)
}

impl MultiPathConnector {
    /// The attempts to make, none of them made yet.
    pub fn plan(&self) -> (p: ConnectPlan)
        ensures
            ordering::stable_order(priorities(self.spec_config().targets@), p@.order),
            p@.per_target == self.spec_config().max_retries,
            p@.failed == 0,
    {
        let mut keys: Vec<i128> = Vec::new();
        let mut i: usize = 0;
        while i < self.config.targets.len()
            invariant
                i <= self.config.targets@.len(),
                keys@ =~= priorities(self.config.targets@).take(i as int),
            decreases self.config.targets@.len() - i,
        {
            keys.push(self.config.targets[i].priority as i128);
            i = i + 1;
        }
        assert(keys@ =~= priorities(self.config.targets@));
        ConnectPlan {
            order: order_by_key(keys.as_slice()),
            per_target: self.config.max_retries,
            failed: 0,
        }
    }
}

impl ConnectPlan {
    /// The position of the target to try next, if any is left.
    pub fn current(&self) -> (r: Option<usize>)
        ensures
            r == self@.current(),
    {
        if self.per_target == 0 {
            return None;
        }
        let i: u128 = self.failed / self.per_target as u128;
        if i < self.order.len() as u128 {
            Some(self.order[i as usize])
        } else {
            None
        }
    }

    /// Takes note that the attempt has failed, and says whether to pause
    /// before the next one.
    pub fn fail(&mut self) -> (pause: bool)
        ensures
            old(self)@.current() is Some ==> final(self)@ == (Attempts {
                failed: old(self)@.failed + 1,
                ..old(self)@
            }) && pause == old(self)@.retries(),
            old(self)@.current() is None ==> final(self)@ == old(self)@ && !pause,
            old(self)@.fails(final(self)@, pause),
    {
        if self.current().is_none() {
            return false;
        }
        let count: u64 = self.order.len() as u64;
        let per: u64 = self.per_target as u64;
        proof {
            let i = self.failed as int / per as int;
            lemma_fundamental_div_mod(self.failed as int, per as int);
            assert(self.failed < per * (i + 1)) by (nonlinear_arith)
                requires
                    self.failed == per * i + self.failed as int % per as int,
                    self.failed as int % (per as int) < per,
            ;
            assert(per * (i + 1) <= u64::MAX * u64::MAX) by (nonlinear_arith)
                requires
                    0 <= i + 1 <= count,
                    count <= u64::MAX,
                    0 <= per <= u64::MAX,
            ;
        }
        let pause = self.failed % (self.per_target as u128) < self.per_target as u128 - 1;
        self.failed = self.failed + 1;
        pause
    }
}

/// What is said when no target could be reached.
pub fn unreachable_text() -> (s: String)
    ensures
        s@ == "所有连接目标都失败"@,
{
    "所有连接目标都失败".to_owned()
}

/// A port that has been found is one of those that were searched, and the
/// probe has accepted it.
pub proof fn found_port_is_available<F: Fn(u16) -> bool>(probe: F, ports: Seq<u16>, port: u16)
    requires
        found(probe, ports, Some(port)),
    ensures
        ports.contains(port),
        probe.ensures((port,), true),
{
}

/// The port that is selected is a recommended one, or lies from 10000 on.
pub proof fn selected_port_is_in_range<F: Fn(u16) -> bool>(
    probe: F,
    draws: Seq<u16>,
    port: u16,
)
    requires
        selected(probe, draws, port),
    ensures
        RECOMMENDED_PORTS@.contains(port) || 10000 <= port < 65535,
{
    let candidates = draws.map_values(|d: u16| candidate(d));
    if found(probe, RECOMMENDED_PORTS@, Some(port)) {
        found_port_is_available(probe, RECOMMENDED_PORTS@, port);
    } else if found(probe, candidates, Some(port)) {
        let i = choose|i: int| #[trigger]
            first_accepted(probe, candidates, i) && port == candidates[i];
        assert(candidates[i] == candidate(draws[i]));
    } else {
        assert(RECOMMENDED_PORTS@[0] == port);
    }
}

/// A guest tries its targets in the order in which they are built: the ports
/// of the gateway first.
pub proof fn guest_targets_are_tried_in_order(
    targets: Seq<ConnectionTarget>,
    ports: Seq<u16>,
    gateway: Seq<char>,
    order: Seq<usize>,
    i: int,
)
    requires
        targets_of(targets) == guest_targets(ports, gateway),
        targets.len() <= 256,
        ordering::stable_order(priorities(targets), order),
        0 <= i < targets.len(),
    ensures
        order[i] == i,
        i < ports.len() ==> targets[i]@.host == gateway && targets[i]@.port == ports[i],
{
    let keys = priorities(targets);
    assert(targets_of(targets).len() == targets.len());
    assert forall|k: int| 0 <= k < keys.len() implies #[trigger] keys[k] == k by {
        assert(targets_of(targets)[k] == targets[k]@);
        assert(guest_targets(ports, gateway)[k].priority == k as u8);
    }
    lemma_ascending_from(keys, order, i);
    lemma_ascending_to(keys, order, i);
    assert(targets_of(targets)[i] == targets[i]@);
}

proof fn lemma_ascending_from(keys: Seq<i128>, order: Seq<usize>, i: int)
    requires
        ordering::stable_order(keys, order),
        forall|k: int| 0 <= k < keys.len() ==> #[trigger] keys[k] == k,
        0 <= i < keys.len(),
    ensures
        order[i] >= i,
    decreases i,
{
    if i > 0 {
        lemma_ascending_from(keys, order, i - 1);
        assert(ordering::before(keys, order[i - 1], order[i]));
    }
}

proof fn lemma_ascending_to(keys: Seq<i128>, order: Seq<usize>, i: int)
    requires
        ordering::stable_order(keys, order),
        forall|k: int| 0 <= k < keys.len() ==> #[trigger] keys[k] == k,
        0 <= i < keys.len(),
    ensures
        order[i] <= i,
    decreases keys.len() - i,
{
    if i < keys.len() - 1 {
        lemma_ascending_to(keys, order, i + 1);
        assert(ordering::before(keys, order[i], order[i + 1]));
    }
}

/// Each target is tried as often as the others, one after the other, and then
/// none is left.
pub proof fn targets_are_tried_equally_often(a: Attempts, target: nat, retry: nat)
    requires
        a.per_target > 0,
        retry < a.per_target,
        a.failed == target * a.per_target + retry,
    ensures
        a.current() == (if target < a.order.len() {
            Some(a.order[target as int])
        } else {
            None
        }),
        a.retries() == (retry + 1 < a.per_target),
{
    lemma_fundamental_div_mod_converse(
        a.failed as int,
        a.per_target as int,
        target as int,
        retry as int,
    );
}

/// The port that is recommended after a check is the first available one.
pub proof fn first_available_port_is_recommended<F: Fn(u16) -> bool>(
    probe: F,
    results: Seq<PortCheckResult>,
    port: u16,
    i: int,
)
    requires
        recommendable(probe, results, port),
        0 <= i < results.len(),
        results[i].available,
        forall|j: int| 0 <= j < i ==> !(#[trigger] results[j]).available,
    ensures
        port == results[i].port,
{
    lemma_available_count(results);
    let k = choose|k: int|
        0 <= k < results.len() && (#[trigger] results[k]).available && results[k].port == port
            && forall|j: int| 0 <= j < k ==> !(#[trigger] results[j]).available;
    assert(results[k].available);
}

/// A report begins with its title and ends in the recommended port; it counts
/// no more available ports than there are.
pub proof fn report_names_the_port(results: Seq<PortCheckResult>, port: u16)
    ensures
        text::begins(
            report(results, port),
            "=== 端口可用性诊断 ===\n\n"@ + report_lines(results),
        ),
        text::ends(report(results, port), text::decimal(port as nat) + "\n"@),
        available_count(results) <= results.len(),
{
    let r = report(results, port);
    let head = "=== 端口可用性诊断 ===\n\n"@ + report_lines(results);
    let tail = text::decimal(port as nat) + "\n"@;
    assert(r.take(head.len() as int) =~= head);
    assert(r.skip(r.len() - tail.len()) =~= tail);
    lemma_count_bound(results);
}

proof fn lemma_count_bound(results: Seq<PortCheckResult>)
    ensures
        available_count(results) <= results.len(),
    decreases results.len(),
{
    if results.len() > 0 {
        lemma_count_bound(results.drop_last());
    }
}

/// Lines and counts of a report add up over the ports.
pub proof fn report_adds_up(a: Seq<PortCheckResult>, b: Seq<PortCheckResult>)
    ensures
        available_count(a + b) == available_count(a) + available_count(b),
        report_lines(a + b) == report_lines(a) + report_lines(b),
    decreases b.len(),
{
    if b.len() == 0 {
        assert(a + b =~= a);
        assert(report_lines(a) + Seq::<char>::empty() =~= report_lines(a));
    } else {
        report_adds_up(a, b.drop_last());
        assert((a + b).drop_last() =~= a + b.drop_last());
        assert((a + b).last() == b.last());
        assert(report_lines(a) + (report_lines(b.drop_last()) + report_line(b.last()))
            =~= report_lines(a) + report_lines(b.drop_last()) + report_line(b.last()));
    }
}

/// A port that is not recommended is selected only where every recommended one
/// was refused, and then it was drawn and accepted.
pub proof fn random_port_is_the_last_resort<F: Fn(u16) -> bool>(
    probe: F,
    draws: Seq<u16>,
    port: u16,
)
    requires
        selected(probe, draws, port),
        !RECOMMENDED_PORTS@.contains(port),
    ensures
        forall|j: int| 0 <= j < 6 ==> probe.ensures((#[trigger] RECOMMENDED_PORTS@[j],), false),
        probe.ensures((port,), true),
        exists|k: int|
            0 <= k < draws.len() && port == 10000 + (#[trigger] draws[k]) as int % 55535,
{
    let candidates = draws.map_values(|d: u16| candidate(d));
    if found(probe, RECOMMENDED_PORTS@, Some(port)) {
        found_port_is_available(probe, RECOMMENDED_PORTS@, port);
    }
    assert(RECOMMENDED_PORTS@[0] == 15555);
    if found(probe, candidates, None) && port == RECOMMENDED_PORTS@[0] {
        assert(RECOMMENDED_PORTS@.contains(port));
    }
    let i = choose|i: int| #[trigger]
        first_accepted(probe, candidates, i) && port == candidates[i];
    assert(candidates[i] == candidate(draws[i]));
    assert(port == 10000 + draws[i] as int % 55535);
}

/// The addresses that are kept are those of the ports that were found valid, in
/// their order.
pub proof fn valid_addresses_are_kept(
    ports: Seq<u16>,
    gateway: Seq<char>,
    keep: Seq<bool>,
    port: u16,
)
    requires
        keep.len() == ports.len(),
    ensures
        kept_addresses(ports.push(port), gateway, keep.push(true)) == kept_addresses(
            ports,
            gateway,
            keep,
        ).push(address(gateway, port)),
        kept_addresses(ports.push(port), gateway, keep.push(false)) == kept_addresses(
            ports,
            gateway,
            keep,
        ),
        kept_addresses(Seq::empty(), gateway, Seq::empty()).len() == 0,
{
    assert(ports.push(port).drop_last() =~= ports);
    assert(keep.push(true).drop_last() =~= keep);
    assert(keep.push(false).drop_last() =~= keep);
}

/// Behind the ports of the gateway come the other networks of WSL2, each of
/// them but the gateway itself, at the first port.
pub proof fn other_networks_are_tried(ports: Seq<u16>, gateway: Seq<char>, k: nat)
    requires
        ports.len() > 0,
        16 <= k <= 31,
        "172."@ + text::decimal(k) + ".0.1"@ != gateway,
    ensures
        exists|i: int|
            ports.len() <= i < guest_targets(ports, gateway).len() && (
            #[trigger] guest_targets(ports, gateway)[i]).host == "172."@ + text::decimal(k)
                + ".0.1"@ && guest_targets(ports, gateway)[i].port == ports[0],
        forall|i: int|
            ports.len() <= i < guest_targets(ports, gateway).len() ==> (
            #[trigger] guest_targets(ports, gateway)[i]).host != gateway,
        guest_targets(ports, gateway).len() <= ports.len() + 16,
{
    let all = Seq::new(16, |i: int| common_host((16 + i) as nat));
    let keep = |h: Seq<char>| h != gateway;
    let others = other_hosts(gateway);
    all.filter_lemma(keep);
    lemma_other_hosts(gateway);
    let host = common_host(k);
    assert(all[k - 16] == host);
    assert(others.contains(host));
    let j = choose|j: int| 0 <= j < others.len() && others[j] == host;
    let i = ports.len() + j;
    assert(guest_targets(ports, gateway)[i].host == host);
    assert forall|i: int| ports.len() <= i < guest_targets(ports, gateway).len() implies (
    #[trigger] guest_targets(ports, gateway)[i]).host != gateway by {
        assert(keep(others[i - ports.len()]));
    }
}

/// The first target that is tried has the smallest priority, and is the first
/// of those that have it. Where no attempts are wanted, or there is no target,
/// none is tried.
pub proof fn smallest_priority_is_tried_first(c: &MultiPathConnector, p: ConnectPlan, j: int)
    requires
        call_ensures(MultiPathConnector::plan, (c,), p),
        0 <= j < c.spec_config().targets@.len(),
    ensures
        p@.per_target == c.spec_config().max_retries,
        p@.current() is Some <==> c.spec_config().max_retries > 0,
        p@.current() matches Some(i) ==> {
            let targets = c.spec_config().targets@;
            &&& i < targets.len()
            &&& targets[i as int].priority <= targets[j].priority
            &&& targets[i as int].priority == targets[j].priority ==> i <= j
        },
{
    let keys = priorities(c.spec_config().targets@);
    let per = p@.per_target;
    if per > 0 {
        lemma_fundamental_div_mod_converse(0, per as int, 0, 0);
        assert(c.spec_config().targets.len() == keys.len());
        assert(p@.order.contains(j as usize));
        let k = choose|k: int| 0 <= k < p@.order.len() && p@.order[k] == j as usize;
        if k > 0 {
            ordering::order_ascends_and_is_stable(keys, p@.order, 0, k);
        }
        let first = p@.order[0] as int;
        assert(keys[first] == c.spec_config().targets@[first].priority);
        assert(keys[j] == c.spec_config().targets@[j].priority);
    }
}

/// After a failure the next attempt is at the same target if and only if there
/// is a pause before it; once no target is left nothing changes any more.
pub proof fn pause_comes_before_the_same_target(a: Attempts, next: Attempts, pause: bool)
    requires
        a.fails(next, pause),
        a.per_target > 0,
    ensures
        next.order == a.order && next.per_target == a.per_target,
        a.current() is Some ==> next.failed == a.failed + 1,
        a.current() is Some ==> (pause <==> next.failed / next.per_target == a.failed
            / a.per_target),
        a.current() is Some && !pause ==> next.failed / next.per_target == a.failed / a.per_target
            + 1,
        a.current() is None ==> next == a && !pause,
{
    let per = a.per_target as int;
    let t = a.failed as int / per;
    let r = a.failed as int % per;
    lemma_fundamental_div_mod(a.failed as int, per);
    if r + 1 < per {
        lemma_fundamental_div_mod_converse(a.failed as int + 1, per, t, r + 1);
    } else {
        assert(a.failed + 1 == (t + 1) * per + 0) by (nonlinear_arith)
            requires
                a.failed == per * t + r,
                r + 1 == per,
        ;
        lemma_fundamental_div_mod_converse(a.failed as int + 1, per, t + 1, 0);
    }
}

} // verus!
