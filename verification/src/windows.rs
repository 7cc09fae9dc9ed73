//! What the host asks of Windows: firewall rules, the recovery of its service,
//! and the memory limit in `.wslconfig`.

use crate::procfs;
use crate::text;
use crate::text::{
    cut, ends_with, parse_number, pieces, push_decimal, same, starts_with, to_chars,
};
use vstd::prelude::*;
use vstd::slice::slice_subrange;
use vstd::string::*;

verus! {

/// The name of the host's service.
pub const SERVICE_NAME: &'static str = "WSLMemoryHost";

/// The name of the firewall rules.
pub const RULE_NAME: &'static str = "WSL Memory Agent";

/// Texts with commas between them.
pub open spec fn listed(parts: Seq<Seq<char>>) -> Seq<char>
    decreases parts.len(),
{
    if parts.len() == 0 {
        Seq::empty()
    } else if parts.len() == 1 {
        parts[0]
    } else {
        listed(parts.drop_last()) + ","@ + parts.last()
    }
}

/// Ports in decimal.
pub open spec fn port_texts(ports: Seq<u16>) -> Seq<Seq<char>> {
    ports.map_values(|p: u16| text::decimal(p as nat))
}

/// The remote addresses of a rule.
pub open spec fn remote_list(remote_ips: Seq<Seq<char>>) -> Seq<char> {
    if remote_ips.len() == 0 {
        "127.0.0.1,::1,172.16.0.0/12"@
    } else {
        listed(remote_ips)
    }
}

/// The name of the rule for a protocol.
pub open spec fn rule_name(protocol: Seq<char>) -> Seq<char> {
    "name="@ + RULE_NAME@ + " "@ + protocol
}

/// The arguments by which `netsh` adds the rule for a protocol.
pub open spec fn add_arguments(
    protocol: Seq<char>,
    ports: Seq<u16>,
    remote_ips: Seq<Seq<char>>,
) -> Seq<Seq<char>> {
    seq![
        "advfirewall"@,
        "firewall"@,
        "add"@,
        "rule"@,
        rule_name(protocol),
        "dir=in"@,
        "action=allow"@,
        "protocol="@ + protocol,
        "localport="@ + listed(port_texts(ports)),
        "remoteip="@ + remote_list(remote_ips),
    ]
}

/// The arguments by which `netsh` removes the rule for a protocol.
pub open spec fn delete_arguments(protocol: Seq<char>) -> Seq<Seq<char>> {
    seq!["advfirewall"@, "firewall"@, "delete"@, "rule"@, rule_name(protocol)]
}

/// The arguments of two calls.
pub open spec fn calls(v: Seq<Vec<String>>) -> Seq<Seq<Seq<char>>> {
    v.map_values(|a: Vec<String>| text::strings_of(a@))
}

fn list_ports(ports: &[u16]) -> (s: String)
    ensures
        s@ == listed(port_texts(ports@)),
{
    let ghost all = port_texts(ports@);
    let mut s = String::new();
    let mut i: usize = 0;
    while i < ports.len()
        invariant
            i <= ports@.len(),
            all == port_texts(ports@),
            s@ == listed(all.take(i as int)),
        decreases ports@.len() - i,
    {
        proof {
            assert(all.take(i as int + 1).drop_last() =~= all.take(i as int));
            assert(all.take(i as int + 1).last() == text::decimal(ports@[i as int] as nat));
        }
        if i > 0 {
            s.append(",");
        }
        push_decimal(&mut s, ports[i] as u128);
        proof {
            if i == 0 {
                assert(s@ =~= all.take(1)[0]);
            }
        }
        i = i + 1;
    }
    assert(all.take(i as int) =~= all);
    s
}

fn list_texts(parts: &Vec<String>) -> (s: String)
    ensures
        s@ == listed(text::strings_of(parts@)),
{
    let ghost all = text::strings_of(parts@);
    let mut s = String::new();
    let mut i: usize = 0;
    while i < parts.len()
        invariant
            i <= parts@.len(),
            all == text::strings_of(parts@),
            s@ == listed(all.take(i as int)),
        decreases parts@.len() - i,
    {
        proof {
            assert(all.take(i as int + 1).drop_last() =~= all.take(i as int));
            assert(all.take(i as int + 1).last() == parts@[i as int]@);
        }
        if i > 0 {
            s.append(",");
        }
        s.append(parts[i].as_str());
        proof {
            if i == 0 {
                assert(s@ =~= all.take(1)[0]);
            }
        }
        i = i + 1;
    }
    assert(all.take(i as int) =~= all);
    s
}

/// `before` and then `after`.
fn pair(before: &str, after: &str) -> (s: String)
    ensures
        s@ == before@ + after@,
{
    let mut s = before.to_owned();
    s.append(after);
    s
}

fn rule_argument(protocol: &str) -> (s: String)
    ensures
        s@ == rule_name(protocol@),
{
    let mut s = "name=".to_owned();
    s.append(RULE_NAME);
    s.append(" ");
    s.append(protocol);
    s
}

fn add_call(protocol: &str, ports: &[u16], remote_ips: &Vec<String>) -> (v: Vec<String>)
    ensures
        text::strings_of(v@) == add_arguments(
            protocol@,
            ports@,
            text::strings_of(remote_ips@),
        ),
{
    let remote = if remote_ips.len() == 0 {
        "127.0.0.1,::1,172.16.0.0/12".to_owned()
    } else {
        list_texts(remote_ips)
    };
    let mut v: Vec<String> = Vec::new();
    v.push("advfirewall".to_owned());
    v.push("firewall".to_owned());
    v.push("add".to_owned());
    v.push("rule".to_owned());
    v.push(rule_argument(protocol));
    v.push("dir=in".to_owned());
    v.push("action=allow".to_owned());
    v.push(pair("protocol=", protocol));
    v.push(pair("localport=", list_ports(ports).as_str()));
    v.push(pair("remoteip=", remote.as_str()));
    assert(text::strings_of(v@) =~= add_arguments(
        protocol@,
        ports@,
        text::strings_of(remote_ips@),
    ));
    v
}

fn delete_call(protocol: &str) -> (v: Vec<String>)
    ensures
        text::strings_of(v@) == delete_arguments(protocol@),
{
    let mut v: Vec<String> = Vec::new();
    v.push("advfirewall".to_owned());
    v.push("firewall".to_owned());
    v.push("delete".to_owned());
    v.push("rule".to_owned());
    v.push(rule_argument(protocol));
    assert(text::strings_of(v@) =~= delete_arguments(protocol@));
    v
}

/// The calls of `netsh` that let guests in, over TCP and over UDP.
pub fn add_rule(ports: &[u16], remote_ips: &Vec<String>) -> (v: Vec<Vec<String>>)
    ensures
        calls(v@) == seq![
            add_arguments("TCP"@, ports@, text::strings_of(remote_ips@)),
            add_arguments("UDP"@, ports@, text::strings_of(remote_ips@)),
        ],
{
    let mut v: Vec<Vec<String>> = Vec::new();
    v.push(add_call("TCP", ports, remote_ips));
    v.push(add_call("UDP", ports, remote_ips));
    assert(calls(v@) =~= seq![
        add_arguments("TCP"@, ports@, text::strings_of(remote_ips@)),
        add_arguments("UDP"@, ports@, text::strings_of(remote_ips@)),
    ]);
    v
}

/// The calls of `netsh` that remove the rules again.
pub fn remove_rule() -> (v: Vec<Vec<String>>)
    ensures
        calls(v@) == seq![delete_arguments("TCP"@), delete_arguments("UDP"@)],
{
    let mut v: Vec<Vec<String>> = Vec::new();
    v.push(delete_call("TCP"));
    v.push(delete_call("UDP"));
    assert(calls(v@) =~= seq![delete_arguments("TCP"@), delete_arguments("UDP"@)]);
    v
}

/// A call of `sc.exe`, and what is said where it fails.
pub struct RecoveryCall {
    pub arguments: Vec<String>,
    pub complaint: String,
}

/// The arguments and the complaint of a call.
pub open spec fn recovery_call(c: RecoveryCall) -> (Seq<Seq<char>>, Seq<char>) {
    (text::strings_of(c.arguments@), c.complaint@)
}

/// The calls of `sc.exe` by which Windows restarts the host's service.
pub open spec fn recovery() -> Seq<(Seq<Seq<char>>, Seq<char>)> {
    seq![
        (
            seq![
                "failure"@,
                SERVICE_NAME@,
                "reset="@,
                "86400"@,
                "actions="@,
                "restart/5000/restart/30000/restart/60000"@,
            ],
            "failed to configure service recovery: "@,
        ),
        (
            seq!["failureflag"@, SERVICE_NAME@, "1"@],
            "failed to enable service failure actions: "@,
        ),
        (
            seq!["config"@, SERVICE_NAME@, "start="@, "delayed-auto"@],
            "failed to enable delayed auto-start: "@,
        ),
    ]
}

/// The calls of `sc.exe` by which Windows restarts the host's service.
pub fn configure_service_recovery() -> (v: Vec<RecoveryCall>)
    ensures
        v@.map_values(|c: RecoveryCall| recovery_call(c)) == recovery(),
{
    let mut failure: Vec<String> = Vec::new();
    failure.push("failure".to_owned());
    failure.push(SERVICE_NAME.to_owned());
    failure.push("reset=".to_owned());
    failure.push("86400".to_owned());
    failure.push("actions=".to_owned());
    failure.push("restart/5000/restart/30000/restart/60000".to_owned());
    let mut flag: Vec<String> = Vec::new();
    flag.push("failureflag".to_owned());
    flag.push(SERVICE_NAME.to_owned());
    flag.push("1".to_owned());
    let mut start: Vec<String> = Vec::new();
    start.push("config".to_owned());
    start.push(SERVICE_NAME.to_owned());
    start.push("start=".to_owned());
    start.push("delayed-auto".to_owned());
    proof {
        assert(text::strings_of(failure@) =~= recovery()[0].0);
        assert(text::strings_of(flag@) =~= recovery()[1].0);
        assert(text::strings_of(start@) =~= recovery()[2].0);
    }
    let mut v: Vec<RecoveryCall> = Vec::new();
    v.push(
        RecoveryCall {
            arguments: failure,
            complaint: "failed to configure service recovery: ".to_owned(),
        },
    );
    v.push(
        RecoveryCall {
            arguments: flag,
            complaint: "failed to enable service failure actions: ".to_owned(),
        },
    );
    v.push(
        RecoveryCall {
            arguments: start,
            complaint: "failed to enable delayed auto-start: ".to_owned(),
        },
    );
    assert(v@.map_values(|c: RecoveryCall| recovery_call(c)) =~= recovery());
    v
}

/// The number before a suffix of two characters, times `unit`.
pub open spec fn size_before(v: Seq<char>, unit: nat) -> Option<nat> {
    match text::number(text::trim(v.take(v.len() - 2)), u64::MAX as nat) {
        Some(n) => Some(n * unit),
        None => None,
    }
}

/// Where a line sets the memory limit in GB or MB, that limit in bytes, if its
/// number can be read.
pub open spec fn limit_line(line: Seq<char>) -> Option<Option<nat>> {
    let t = text::trim(line);
    let v = text::trim(text::split(t, '=')[1]);
    if !(text::begins(t, "memory="@) || text::begins(t, "memory ="@)) {
        None
    } else if text::ends(v, "GB"@) || text::ends(v, "gb"@) {
        Some(size_before(v, 1024 * 1024 * 1024))
    } else if text::ends(v, "MB"@) || text::ends(v, "mb"@) {
        Some(size_before(v, 1024 * 1024))
    } else {
        None
    }
}

/// The limit of the first line that sets one.
pub open spec fn limit_of(ls: Seq<Seq<char>>) -> Option<nat>
    decreases ls.len(),
{
    if ls.len() == 0 {
        None
    } else {
        match limit_line(ls[0]) {
            Some(r) => r,
            None => limit_of(ls.skip(1)),
        }
    }
}

/// The memory limit that a `.wslconfig` sets, in bytes.
pub open spec fn memory_limit(s: Seq<char>) -> Option<nat> {
    limit_of(procfs::lines(s))
}

/// A text that has a `sep` in it has a second piece.
proof fn lemma_second_piece(s: Seq<char>, sep: char, i: int)
    requires
        0 <= i < s.len(),
        s[i] == sep,
    ensures
        text::split(s, sep).len() >= 2,
{
    lemma_run_at_most(s, sep, i);
    let n = text::run(s, sep);
    assert(text::split(s.skip(n as int + 1), sep).len() >= 1);
}

proof fn lemma_run_at_most(s: Seq<char>, sep: char, i: int)
    requires
        0 <= i < s.len(),
        s[i] == sep,
    ensures
        text::run(s, sep) <= i,
    decreases s.len(),
{
    if s[0] != sep {
        assert(s.skip(1)[i - 1] == sep);
        lemma_run_at_most(s.skip(1), sep, i - 1);
    }
}

fn read_size(v: &[char], unit: u64) -> (r: Option<u128>)
    requires
        v@.len() >= 2,
    ensures
        (match r {
            Some(n) => Some(n as nat),
            None => None,
        }) == size_before(v@, unit as nat),
        r matches Some(n) ==> n <= u64::MAX * unit,
{
    assert(v@.take(v@.len() - 2) =~= v@.subrange(0, v@.len() - 2));
    let digits = cut(slice_subrange(v, 0, v.len() - 2));
    match parse_number(digits, u64::MAX) {
        Some(n) => {
            proof {
                assert(n * unit <= u64::MAX * unit) by (nonlinear_arith)
                    requires
                        n <= u64::MAX,
                        unit >= 0,
                ;
                assert(u64::MAX * unit <= u128::MAX) by (nonlinear_arith)
                    requires
                        unit <= u64::MAX,
                ;
            }
            Some(n as u128 * unit as u128)
        },
        None => None,
    }
}

/// The memory limit that a line sets.
fn read_limit(line: &[char]) -> (r: Option<Option<u128>>)
    ensures
        (match r {
            Some(Some(n)) => Some(Some(n as nat)),
            Some(None) => Some(None),
            None => None,
        }) == limit_line(line@),
{
    let t = cut(line);
    if !starts_with(t, "memory=") && !starts_with(t, "memory =") {
        return None;
    }
    proof {
        reveal_strlit("memory=");
        reveal_strlit("memory =");
        reveal_strlit("GB");
        reveal_strlit("gb");
        reveal_strlit("MB");
        reveal_strlit("mb");
        if text::begins(t@, "memory="@) {
            assert(t@.take(7)[6] == '=');
            lemma_second_piece(t@, '=', 6);
        } else {
            assert(t@.take(8)[7] == '=');
            lemma_second_piece(t@, '=', 7);
        }
    }
    let parts = pieces(t, '=');
    assert(text::contents(parts@)[1] == parts@[1]@);
    let v = cut(parts[1]);
    if ends_with(v, "GB") || ends_with(v, "gb") {
        Some(read_size(v, 1024 * 1024 * 1024))
    } else if ends_with(v, "MB") || ends_with(v, "mb") {
        Some(read_size(v, 1024 * 1024))
    } else {
        None
    }
}

/// The memory limit that a `.wslconfig` sets, in a word that is wide enough.
fn find_limit(s: &str) -> (r: Option<u128>)
    ensures
        (match r {
            Some(n) => Some(n as nat),
            None => None,
        }) == memory_limit(s@),
{
    let chars = to_chars(s);
    let ls = pieces(chars.as_slice(), '\n');
    let ghost all = procfs::lines(s@);
    let mut i: usize = 0;
    assert(all.skip(0) =~= all);
    while i < ls.len()
        invariant
            i <= ls@.len(),
            all == text::contents(ls@),
            all == procfs::lines(s@),
            limit_of(all) == limit_of(all.skip(i as int)),
        decreases ls@.len() - i,
    {
        assert(all.skip(i as int)[0] == ls@[i as int]@);
        assert(all.skip(i as int).skip(1) =~= all.skip(i as int + 1));
        if let Some(r) = read_limit(ls[i]) {
            return r;
        }
        i = i + 1;
    }
    None
}

/// Whether the memory limit of a `.wslconfig` can be counted in bytes.
pub fn check_wslconfig(s: &str) -> (r: bool)
    ensures
        r == (memory_limit(s@) matches Some(n) ==> n <= u64::MAX),
{
    match find_limit(s) {
        Some(n) => n <= u64::MAX as u128,
        None => true,
    }
}

/// The memory limit that a `.wslconfig` sets, in bytes.
pub fn get_wslconfig_memory_limit(s: &str) -> (r: Option<u64>)
    requires
        memory_limit(s@) matches Some(n) ==> n <= u64::MAX,
    ensures
        (match r {
            Some(n) => Some(n as nat),
            None => None,
        }) == memory_limit(s@),
{
    match find_limit(s) {
        Some(n) => Some(n as u64),
        None => None,
    }
}

/// A process of Windows.
pub struct Process {
    pub name: String,
    /// Resident size in bytes.
    pub memory: u64,
}

/// A letter of the Latin alphabet in lower case, other characters as they are.
pub open spec fn lower(c: char) -> char {
    if 'A' <= c <= 'Z' {
        (c as u8 + 32) as char
    } else {
        c
    }
}

/// Whether a process is `vmmem`, in upper or lower case.
pub open spec fn is_vmmem(name: Seq<char>) -> bool {
    name.map_values(|c: char| lower(c)) == "vmmem"@
}

/// The resident size of the first process that is `vmmem`, zero if there is
/// none.
pub open spec fn vmmem_size(processes: Seq<Process>) -> u64
    decreases processes.len(),
{
    if processes.len() == 0 {
        0
    } else if is_vmmem(processes[0].name@) {
        processes[0].memory
    } else {
        vmmem_size(processes.skip(1))
    }
}

fn names_vmmem(name: &str) -> (r: bool)
    ensures
        r == is_vmmem(name@),
{
    let c = to_chars(name);
    let mut low: Vec<char> = Vec::new();
    let mut i: usize = 0;
    while i < c.len()
        invariant
            i <= c@.len(),
            low@ =~= c@.take(i as int).map_values(|x: char| lower(x)),
        decreases c@.len() - i,
    {
        let x = c[i];
        if 'A' <= x && x <= 'Z' {
            low.push((x as u8 + 32) as char);
        } else {
            low.push(x);
        }
        i = i + 1;
    }
    assert(c@.take(i as int) =~= c@);
    same(low.as_slice(), "vmmem")
}

/// The resident size of `vmmem`, zero if it does not run.
pub fn vmmem_rss(processes: &Vec<Process>) -> (n: u64)
    ensures
        n == vmmem_size(processes@),
{
    let mut i: usize = 0;
    assert(processes@.skip(0) =~= processes@);
    while i < processes.len()
        invariant
            i <= processes@.len(),
            vmmem_size(processes@) == vmmem_size(processes@.skip(i as int)),
        decreases processes@.len() - i,
    {
        assert(processes@.skip(i as int)[0] == processes@[i as int]);
        if names_vmmem(processes[i].name.as_str()) {
            return processes[i].memory;
        }
        assert(processes@.skip(i as int).skip(1) =~= processes@.skip(i as int + 1));
        i = i + 1;
    }
    0
}

/// Parts of a list are told apart by commas, and the list of the usual remote
/// addresses is what is used where none are given.
pub proof fn lists_are_told_apart_by_commas(parts: Seq<Seq<char>>, part: Seq<char>)
    ensures
        listed(seq![part]) == part,
        parts.len() > 0 ==> listed(parts.push(part)) == listed(parts) + ","@ + part,
        remote_list(Seq::empty()) == remote_list(
            seq!["127.0.0.1"@, "::1"@, "172.16.0.0/12"@],
        ),
        parts.len() > 0 ==> remote_list(parts) == listed(parts),
{
    assert(parts.push(part).drop_last() =~= parts);
    let usual = seq!["127.0.0.1"@, "::1"@, "172.16.0.0/12"@];
    assert(usual.drop_last() =~= seq!["127.0.0.1"@, "::1"@]);
    assert(usual.drop_last().drop_last() =~= seq!["127.0.0.1"@]);
    assert(listed(usual.drop_last()) == listed(usual.drop_last().drop_last()) + ","@ + "::1"@);
    reveal_strlit("127.0.0.1");
    reveal_strlit("::1");
    reveal_strlit("172.16.0.0/12");
    reveal_strlit(",");
    reveal_strlit("127.0.0.1,::1,172.16.0.0/12");
    assert("127.0.0.1"@ + ","@ + "::1"@ + ","@ + "172.16.0.0/12"@
        =~= "127.0.0.1,::1,172.16.0.0/12"@);
}

/// A limit in GB or MB, in capital or small letters and with or without spaces
/// around the equals sign, is read back in bytes.
pub proof fn limit_reads_back(n: u64, space: bool, more: bool)
    ensures
        ({
            let sign = if space {
                "memory ="@
            } else {
                "memory="@
            };
            let rest = if more {
                " "@ + text::decimal(n as nat)
            } else {
                text::decimal(n as nat)
            };
            &&& memory_limit(sign + rest + "GB"@) == Some(n as nat * 1_073_741_824)
            &&& memory_limit(sign + rest + "gb"@) == Some(n as nat * 1_073_741_824)
            &&& memory_limit(sign + rest + "MB"@) == Some(n as nat * 1_048_576)
            &&& memory_limit(sign + rest + "mb"@) == Some(n as nat * 1_048_576)
        }),
{
    reveal_strlit("GB");
    reveal_strlit("gb");
    reveal_strlit("MB");
    reveal_strlit("mb");
    lemma_limit_line(n, "GB"@, space, more);
    lemma_limit_line(n, "gb"@, space, more);
    lemma_limit_line(n, "MB"@, space, more);
    lemma_limit_line(n, "mb"@, space, more);
    assert("GB"@[0] == 'G' && "gb"@[0] == 'g' && "MB"@[0] == 'M' && "mb"@[0] == 'm');
    lemma_unit_is_told(n, "GB"@);
    lemma_unit_is_told(n, "gb"@);
    lemma_unit_is_told(n, "MB"@);
    lemma_unit_is_told(n, "mb"@);
}

proof fn lemma_unit_is_told(n: u64, unit: Seq<char>)
    requires
        unit.len() == 2,
    ensures
        ({
            let v = text::decimal(n as nat) + unit;
            forall|u: Seq<char>| u.len() == 2 ==> (#[trigger] text::ends(v, u) <==> u == unit)
        }),
{
    let v = text::decimal(n as nat) + unit;
    assert(v.skip(v.len() - 2) =~= unit);
}

proof fn lemma_limit_line(n: u64, unit: Seq<char>, space: bool, more: bool)
    requires
        unit.len() == 2,
        unit[0] == 'G' || unit[0] == 'M' || unit[0] == 'g' || unit[0] == 'm',
        unit[1] == 'B' || unit[1] == 'b',
    ensures
        ({
            let sign = if space {
                "memory ="@
            } else {
                "memory="@
            };
            let rest = if more {
                " "@ + text::decimal(n as nat)
            } else {
                text::decimal(n as nat)
            };
            let s = sign + rest + unit;
            let v = text::decimal(n as nat) + unit;
            &&& procfs::lines(s) == seq![s]
            &&& text::trim(s) == s
            &&& text::begins(s, "memory="@) || text::begins(s, "memory ="@)
            &&& text::split(s, '=').len() >= 2
            &&& text::trim(text::split(s, '=')[1]) == v
            &&& text::number(text::trim(v.take(v.len() - 2)), u64::MAX as nat) == Some(n as nat)
            &&& memory_limit(s) == (match limit_line(s) {
                Some(r) => r,
                None => None,
            })
        }),
{
    let d = text::decimal(n as nat);
    let sign = if space {
        "memory ="@
    } else {
        "memory="@
    };
    let name = if space {
        "memory "@
    } else {
        "memory"@
    };
    let rest = if more {
        " "@ + d
    } else {
        d
    };
    let s = sign + rest + unit;
    let v = d + unit;
    let w = rest + unit;
    reveal_strlit("memory=");
    reveal_strlit("memory =");
    reveal_strlit("memory");
    reveal_strlit("memory ");
    reveal_strlit(" ");
    text::lemma_decimal(n as nat);
    text::number_of_decimal(n as nat, u64::MAX as nat);
    assert(text::is_digit(d[0]));
    assert(text::is_digit(d[d.len() - 1]));
    assert forall|i: int| 0 <= i < d.len() implies text::is_digit(#[trigger] d[i]) by {}
    assert forall|i: int| 0 <= i < w.len() implies w[i] != '\n' && w[i] != '=' by {
        let k = if more {
            i - 1
        } else {
            i
        };
        if 0 <= k < d.len() {
            assert(w[i] == d[k]);
            assert(text::is_digit(d[k]));
        }
    }
    assert(s =~= sign + w);
    assert(!s.contains('\n')) by {
        assert forall|i: int| 0 <= i < s.len() implies s[i] != '\n' by {
            if i >= sign.len() {
                assert(s[i] == w[i - sign.len()]);
            }
        }
    }
    text::separator_parts_the_pieces(s, '\n', Seq::empty());
    text::trimmed_text_stays(s);
    assert(s[0] == 'm');
    assert(s.last() == unit[1]);
    assert(s.take(sign.len() as int) =~= sign);
    assert(!name.contains('='));
    assert(sign =~= name + seq!['=']);
    assert(s =~= name + seq!['='] + w);
    text::separator_parts_the_pieces(name, '=', w);
    assert(!w.contains('='));
    text::separator_parts_the_pieces(w, '=', Seq::empty());
    assert(text::split(s, '=')[1] == w);
    text::trimmed_text_stays(v);
    assert(v[0] == d[0]);
    assert(v.last() == unit[1]);
    if more {
        assert(w =~= seq![' '] + v);
        text::leading_space_is_cut(' ', v);
    } else {
        assert(w =~= v);
    }
    assert(v.take(v.len() - 2) =~= d);
    text::trimmed_text_stays(d);
    assert(procfs::lines(s).skip(1) =~= Seq::empty());
    assert(procfs::lines(s)[0] == s);
    assert(limit_of(procfs::lines(s).skip(1)) is None);
}

/// Whether a line sets a limit in one of the units, readable or not.
pub open spec fn sets_limit(line: Seq<char>) -> bool {
    let t = text::trim(line);
    let v = text::trim(text::split(t, '=')[1]);
    &&& text::begins(t, "memory="@) || text::begins(t, "memory ="@)
    &&& text::ends(v, "GB"@) || text::ends(v, "gb"@) || text::ends(v, "MB"@) || text::ends(
        v,
        "mb"@,
    )
}

/// The first line that sets a limit decides, whatever stands behind it: where
/// its number cannot be read, there is no limit.
pub proof fn first_limit_counts(
    before: Seq<Seq<char>>,
    line: Seq<char>,
    behind: Seq<Seq<char>>,
)
    requires
        forall|i: int| 0 <= i < before.len() ==> !sets_limit(#[trigger] before[i]),
        sets_limit(line),
    ensures
        limit_of(before + seq![line] + behind) == limit_of(seq![line]),
        limit_of(before) is None,
        ({
            let v = text::trim(text::split(text::trim(line), '=')[1]);
            text::number(text::trim(v.take(v.len() - 2)), u64::MAX as nat) is None ==> limit_of(
                seq![line],
            ) is None
        }),
    decreases before.len(),
{
    let all = before + seq![line] + behind;
    if before.len() == 0 {
        assert(all[0] == line);
    } else {
        assert(!sets_limit(before[0]));
        assert(all[0] == before[0]);
        assert(all.skip(1) =~= before.skip(1) + seq![line] + behind);
        assert forall|i: int| 0 <= i < before.skip(1).len() implies !sets_limit(
            #[trigger] before.skip(1)[i],
        ) by {
            assert(before.skip(1)[i] == before[i + 1]);
        }
        first_limit_counts(before.skip(1), line, behind);
    }
}

/// `vmmem` is found in upper and lower case, and the first such process counts,
/// whatever comes behind it.
pub proof fn first_vmmem_counts(before: Seq<Process>, p: Process, behind: Seq<Process>)
    requires
        forall|i: int| 0 <= i < before.len() ==> !is_vmmem((#[trigger] before[i]).name@),
    ensures
        is_vmmem(p.name@) ==> vmmem_size(before + seq![p] + behind) == p.memory,
        vmmem_size(before) == 0,
        is_vmmem("vmmem"@) && is_vmmem("VMMEM"@) && is_vmmem("Vmmem"@),
        !is_vmmem("vmmemWSL"@),
    decreases before.len(),
{
    reveal_strlit("vmmem");
    reveal_strlit("VMMEM");
    reveal_strlit("Vmmem");
    reveal_strlit("vmmemWSL");
    assert("vmmem"@.map_values(|c: char| lower(c)) =~= "vmmem"@);
    assert("VMMEM"@.map_values(|c: char| lower(c)) =~= "vmmem"@);
    assert("Vmmem"@.map_values(|c: char| lower(c)) =~= "vmmem"@);
    assert("vmmemWSL"@.map_values(|c: char| lower(c)).len() == 8);
    let all = before + seq![p] + behind;
    if before.len() == 0 {
        assert(all[0] == p);
    } else {
        assert(all[0] == before[0]);
        assert(!is_vmmem(before[0].name@));
        assert(all.skip(1) =~= before.skip(1) + seq![p] + behind);
        assert forall|i: int| 0 <= i < before.skip(1).len() implies !is_vmmem(
            (#[trigger] before.skip(1)[i]).name@,
        ) by {
            assert(before.skip(1)[i] == before[i + 1]);
        }
        first_vmmem_counts(before.skip(1), p, behind);
    }
}

/// The rules that are removed are those that were added, one for each protocol,
/// and the rules of both protocols let the same ports and addresses in.
pub proof fn removed_rules_are_the_added_ones(
    protocol: Seq<char>,
    other: Seq<char>,
    ports: Seq<u16>,
    remote_ips: Seq<Seq<char>>,
)
    requires
        protocol != other,
    ensures
        add_arguments(protocol, ports, remote_ips)[4] == delete_arguments(protocol)[4],
        add_arguments(protocol, ports, remote_ips)[4] != delete_arguments(other)[4],
        add_arguments(protocol, ports, remote_ips)[7] == "protocol="@ + protocol,
        add_arguments(protocol, ports, remote_ips).skip(8) == add_arguments(
            other,
            ports,
            remote_ips,
        ).skip(8),
        add_arguments(protocol, ports, remote_ips).skip(8) == seq![
            "localport="@ + listed(port_texts(ports)),
            "remoteip="@ + remote_list(remote_ips),
        ],
{
    let intro = "name="@ + RULE_NAME@ + " "@;
    if rule_name(protocol) == rule_name(other) {
        assert(rule_name(protocol).skip(intro.len() as int) =~= protocol);
        assert(rule_name(other).skip(intro.len() as int) =~= other);
    }
    let last = seq![
        "localport="@ + listed(port_texts(ports)),
        "remoteip="@ + remote_list(remote_ips),
    ];
    assert(add_arguments(protocol, ports, remote_ips).skip(8) =~= last);
    assert(add_arguments(other, ports, remote_ips).skip(8) =~= last);
}

} // verus!
