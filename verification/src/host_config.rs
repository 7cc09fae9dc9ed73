//! The host's configuration, where it is kept, and the shared token.

use crate::elastic_reclaim::ReclamationConfig;
use crate::logging::HostLoggingConfig;
use crate::network;
use crate::network::{address_text, PortManager, RECOMMENDED_PORTS};
use crate::text;
use crate::text::{parse_number, starts_with, to_chars, trimmed};
use vstd::prelude::*;
use vstd::slice::slice_subrange;
use vstd::string::*;

verus! {

/// The name of the application.
pub const APP_NAME: &'static str = "WSLMemoryAgent";

/// The address that the host listens on unless told otherwise.
pub const DEFAULT_LISTEN_IP: &'static str = "0.0.0.0";

/// The port that the host listens on unless told otherwise.
pub const DEFAULT_LISTEN_PORT: u16 = 15555;

/// The address of both, as on the command line.
pub const DEFAULT_LISTEN: &'static str = "0.0.0.0:15555";

/// Where the host runs, with what the environment says about it.
#[derive(Debug, Clone)]
pub enum Platform {
    /// `%APPDATA%`, if it is set.
    Windows { appdata: Option<String> },
    /// `$HOME`, if it is set.
    Unix { home: Option<String> },
}

/// A drive without a path, such as `C:`.
pub open spec fn is_drive(s: Seq<char>) -> bool {
    s.len() == 2 && s[1] == ':' && ('a' <= s[0] <= 'z' || 'A' <= s[0] <= 'Z')
}

/// Whether a path needs no separator behind it.
pub open spec fn is_joint(windows: bool, base: Seq<char>) -> bool {
    ||| base.len() == 0
    ||| base.last() == '/'
    ||| windows && (base.last() == '\\' || is_drive(base))
}

/// `part`, a relative path, below `base`, where `base` is not verbatim.
pub open spec fn joined(windows: bool, base: Seq<char>, part: Seq<char>) -> Seq<char> {
    if is_joint(windows, base) {
        base + part
    } else if windows {
        base + "\\"@ + part
    } else {
        base + "/"@ + part
    }
}

/// Whether a path is written like a verbatim path of Windows, such as
/// `\\?\C:\Users`. Windows has rules of its own for those.
pub open spec fn is_verbatim(path: Seq<char>) -> bool {
    text::begins(path, "\\\\?\\"@)
}

/// `system` may have answered `r` when it was asked for `part` below `base`.
pub open spec fn continued<J: Fn(&String, &String) -> String>(
    system: J,
    base: Seq<char>,
    part: Seq<char>,
    r: Seq<char>,
) -> bool {
    exists|a: String, b: String, s: String|
        a@ == base && b@ == part && s@ == r && #[trigger] system.ensures((&a, &b), s)
}

/// `r` may be `part`, a relative path, below `base`. What stands below a
/// verbatim path is asked of `system`.
pub open spec fn below<J: Fn(&String, &String) -> String>(
    system: J,
    windows: bool,
    base: Seq<char>,
    part: Seq<char>,
    r: Seq<char>,
) -> bool {
    if windows && is_verbatim(base) {
        continued(system, base, part, r)
    } else {
        r == joined(windows, base, part)
    }
}

/// `part`, a relative path, below `base`, where `base` is not verbatim.
fn join_plain(windows: bool, base: &str, part: &str) -> (r: String)
    ensures
        r@ == joined(windows, base@, part@),
{
    let c = to_chars(base);
    let n = c.len();
    let mut r = base.to_owned();
    let drive = n == 2 && c[1] == ':' && (('a' <= c[0] && c[0] <= 'z') || ('A' <= c[0] && c[0]
        <= 'Z'));
    let joint = n == 0 || c[n - 1] == '/' || (windows && (c[n - 1] == '\\' || drive));
    if !joint {
        if windows {
            r.append("\\");
        } else {
            r.append("/");
        }
    }
    r.append(part);
    r
}

/// `part`, a relative path, below `base`. `system` joins paths as the system
/// does, and is asked where `base` is verbatim.
pub fn join<J: Fn(&String, &String) -> String>(windows: bool, base: &str, part: &str, system: &J)
    -> (r: String)
    requires
        forall|a: &String, b: &String| #[trigger] system.requires((a, b)),
    ensures
        below(*system, windows, base@, part@, r@),
{
    if windows && starts_with(to_chars(base).as_slice(), "\\\\?\\") {
        let a = base.to_owned();
        let b = part.to_owned();
        let r = system(&a, &b);
        assert(continued(*system, a@, b@, r@));
        r
    } else {
        join_plain(windows, base, part)
    }
}

/// The directory of the host's configuration below a home directory.
pub open spec fn home_dir(home: Option<String>) -> Seq<char> {
    let base = match home {
        Some(h) => h@,
        None => "/tmp"@,
    };
    joined(false, joined(false, base, ".config"@), "wsl-memory-agent"@)
}

impl Platform {
    pub open spec fn windows(self) -> bool {
        self is Windows
    }

    /// The directory that the host's configuration is kept below.
    pub open spec fn base(self) -> Seq<char> {
        match self {
            Platform::Windows { appdata: Some(a) } => a@,
            Platform::Windows { appdata: None } => "C:\\ProgramData"@,
            Platform::Unix { home: Some(h) } => h@,
            Platform::Unix { home: None } => "/tmp"@,
        }
    }

    /// `dir` may be the directory of the host's configuration.
    pub open spec fn keeps_in<J: Fn(&String, &String) -> String>(
        self,
        system: J,
        dir: Seq<char>,
    ) -> bool {
        match self {
            Platform::Windows { .. } => below(system, true, self.base(), APP_NAME@, dir),
            Platform::Unix { home } => dir == home_dir(home),
        }
    }

    /// Where the token is kept unless told otherwise.
    pub open spec fn token_file(self) -> Seq<char> {
        match self {
            Platform::Windows { .. } => "C:\\Users\\Public\\wsl_agent_token"@,
            Platform::Unix { home } => joined(false, home_dir(home), "token"@),
        }
    }
}

/// The directory of the host's configuration below a home directory.
fn find_home_dir(home: &Option<String>) -> (r: String)
    ensures
        r@ == home_dir(*home),
{
    let base = match home {
        Some(h) => h.as_str(),
        None => "/tmp",
    };
    join_plain(false, join_plain(false, base, ".config").as_str(), "wsl-memory-agent")
}

/// The directory of the host's configuration. `system` joins paths as the
/// system does.
pub fn config_dir<J: Fn(&String, &String) -> String>(platform: &Platform, system: &J)
    -> (r: String)
    requires
        forall|a: &String, b: &String| #[trigger] system.requires((a, b)),
    ensures
        platform.keeps_in(*system, r@),
{
    match platform {
        Platform::Windows { appdata } => {
            let base = match appdata {
                Some(a) => a.as_str(),
                None => "C:\\ProgramData",
            };
            join(true, base, APP_NAME, system)
        },
        Platform::Unix { home } => find_home_dir(home),
    }
}

/// Where the token is kept unless told otherwise.
pub fn default_token_path(platform: &Platform) -> (r: String)
    ensures
        r@ == platform.token_file(),
{
    match platform {
        Platform::Windows { .. } => "C:\\Users\\Public\\wsl_agent_token".to_owned(),
        Platform::Unix { home } => join_plain(false, find_home_dir(home).as_str(), "token"),
    }
}

/// The file of the host's configuration. `system` joins paths as the system
/// does.
pub fn config_path<J: Fn(&String, &String) -> String>(platform: &Platform, system: &J)
    -> (r: String)
    requires
        forall|a: &String, b: &String| #[trigger] system.requires((a, b)),
    ensures
        exists|dir: Seq<char>| #[trigger]
            platform.keeps_in(*system, dir) && below(
                *system,
                platform.windows(),
                dir,
                "config.yaml"@,
                r@,
            ),
{
    let windows = match platform {
        Platform::Windows { .. } => true,
        Platform::Unix { .. } => false,
    };
    let dir = config_dir(platform, system);
    let r = join(windows, dir.as_str(), "config.yaml", system);
    assert(platform.keeps_in(*system, dir@));
    r
}

/// Unless `%APPDATA%` is a verbatim path, or the beginning of one, the
/// directory and the file of the host's configuration are known without asking
/// the system.
pub proof fn ordinary_paths_are_known<J: Fn(&String, &String) -> String>(
    platform: Platform,
    system: J,
    dir: Seq<char>,
    file: Seq<char>,
)
    requires
        platform.windows() ==> !is_verbatim(platform.base() + "\\"@),
        platform.keeps_in(system, dir),
        below(system, platform.windows(), dir, "config.yaml"@, file),
    ensures
        dir == (if platform.windows() {
            joined(true, platform.base(), APP_NAME@)
        } else {
            joined(false, joined(false, platform.base(), ".config"@), "wsl-memory-agent"@)
        }),
        file == joined(platform.windows(), dir, "config.yaml"@),
{
    if platform.windows() {
        let base = platform.base();
        let longer = base + "\\"@;
        reveal_strlit("\\\\?\\");
        reveal_strlit("\\");
        reveal_strlit("WSLMemoryAgent");
        if is_verbatim(base) {
            assert(longer.take(4) =~= base.take(4));
        }
        assert(!is_verbatim(base));
        assert(dir == joined(true, base, APP_NAME@));
        if is_verbatim(dir) {
            assert(dir.take(4)[0] == '\\' && dir.take(4)[1] == '\\' && dir.take(4)[2] == '?'
                && dir.take(4)[3] == '\\');
            if base.len() >= 4 {
                assert(longer.take(4) =~= dir.take(4));
            } else if base.len() == 3 {
                assert(base.last() == '?');
                assert(longer.take(4) =~= dir.take(4));
            } else if base.len() > 0 {
                assert(base.last() == '\\');
            }
        }
    }
}

/// The host's configuration.
#[derive(Debug, Clone)]
pub struct HostConfig {
    pub listen_ip: String,
    pub listen_port: u16,
    /// Address and port together, as older files give them; it takes
    /// precedence.
    pub listen_addr: Option<String>,
    pub token_path: String,
    /// Whether the path of the token was given on the command line.
    pub token_path_locked: bool,
    /// Where guests may connect from.
    pub remote_ips: Vec<String>,
    pub reclamation: ReclamationConfig,
    pub logging: HostLoggingConfig,
}

/// Where guests may connect from unless told otherwise.
pub open spec fn default_remote_ips() -> Seq<Seq<char>> {
    seq!["127.0.0.1"@, "::1"@, "172.16.0.0/12"@]
}

impl HostConfig {
    /// The values that are used unless told otherwise, but for the port.
    pub open spec fn is_default_at(self, platform: Platform, port: u16) -> bool {
        &&& self.listen_ip@ == DEFAULT_LISTEN_IP@
        &&& self.listen_port == port
        &&& self.listen_addr is None
        &&& self.token_path@ == platform.token_file()
        &&& !self.token_path_locked
        &&& text::strings_of(self.remote_ips@) == default_remote_ips()
        &&& self.reclamation.is_default()
        &&& self.logging.is_default()
    }

    /// The configuration that is used unless told otherwise.
    pub fn default_at(platform: &Platform) -> (r: Self)
        ensures
            r.is_default_at(*platform, DEFAULT_LISTEN_PORT),
    {
        let mut remote_ips: Vec<String> = Vec::new();
        remote_ips.push("127.0.0.1".to_owned());
        remote_ips.push("::1".to_owned());
        remote_ips.push("172.16.0.0/12".to_owned());
        assert(text::strings_of(remote_ips@) =~= default_remote_ips());
        HostConfig {
            listen_ip: DEFAULT_LISTEN_IP.to_owned(),
            listen_port: DEFAULT_LISTEN_PORT,
            listen_addr: None,
            token_path: default_token_path(platform),
            token_path_locked: false,
            remote_ips,
            reclamation: ReclamationConfig::default(),
            logging: HostLoggingConfig::default(),
        }
    }

    /// The address that the host listens on.
    pub open spec fn listens_on(self) -> Seq<char> {
        match self.listen_addr {
            Some(a) => a@,
            None => network::address(self.listen_ip@, self.listen_port),
        }
    }

    /// The address that the host listens on.
    pub fn effective_listen_addr(&self) -> (r: String)
        ensures
            r@ == self.listens_on(),
    {
        match &self.listen_addr {
            Some(a) => a.clone(),
            None => address_text(self.listen_ip.as_str(), self.listen_port),
        }
    }
}

/// What stands behind the last `sep`, if there is one.
pub open spec fn behind_last(s: Seq<char>, sep: char) -> Option<Seq<char>>
    decreases s.len(),
{
    if s.len() == 0 {
        None
    } else if s.last() == sep {
        Some(Seq::empty())
    } else {
        match behind_last(s.drop_last(), sep) {
            Some(t) => Some(t.push(s.last())),
            None => None,
        }
    }
}

/// The port of an address, if it names one.
pub open spec fn port_of(address: Seq<char>) -> Option<u16> {
    match behind_last(address, ':') {
        Some(t) => match text::number(t, u16::MAX as nat) {
            Some(n) => Some(n as u16),
            None => None,
        },
        None => None,
    }
}

proof fn lemma_behind_last(s: Seq<char>, sep: char, i: int)
    requires
        0 <= i < s.len(),
        s[i] == sep,
        forall|j: int| i < j < s.len() ==> s[j] != sep,
    ensures
        behind_last(s, sep) == Some(s.skip(i + 1)),
    decreases s.len(),
{
    if i == s.len() - 1 {
        assert(s.skip(i + 1) =~= Seq::empty());
    } else {
        assert(s[s.len() - 1] != sep);
        lemma_behind_last(s.drop_last(), sep, i);
        assert(s.drop_last().skip(i + 1).push(s.last()) =~= s.skip(i + 1));
    }
}

proof fn lemma_behind_none(s: Seq<char>, sep: char)
    requires
        forall|j: int| 0 <= j < s.len() ==> s[j] != sep,
    ensures
        behind_last(s, sep) is None,
    decreases s.len(),
{
    if s.len() > 0 {
        assert(s[s.len() - 1] != sep);
        lemma_behind_none(s.drop_last(), sep);
    }
}

/// The port of an address, if it names one.
pub fn address_port(address: &str) -> (r: Option<u16>)
    ensures
        r == port_of(address@),
{
    let c = to_chars(address);
    let mut i: usize = c.len();
    while i > 0
        invariant
            i <= c@.len(),
            c@ == address@,
            forall|j: int| i <= j < c@.len() ==> c@[j] != ':',
        decreases i,
    {
        i = i - 1;
        if c[i] == ':' {
            proof {
                lemma_behind_last(c@, ':', i as int);
                assert(c@.skip(i as int + 1) =~= c@.subrange(i as int + 1, c@.len() as int));
            }
            let port = slice_subrange(c.as_slice(), i + 1, c.len());
            return match parse_number(port, u16::MAX as u64) {
                Some(n) => Some(n as u16),
                None => None,
            };
        }
    }
    proof {
        lemma_behind_none(c@, ':');
    }
    None
}

impl HostConfig {
    /// The port that the host listens on, if its address names one.
    pub fn effective_listen_port(&self) -> (r: Option<u16>)
        ensures
            r == port_of(self.listens_on()),
    {
        address_port(self.effective_listen_addr().as_str())
    }
}

/// Where address and port are given apart, the host listens on that port.
pub proof fn split_address_keeps_its_port(cfg: HostConfig)
    requires
        cfg.listen_addr is None,
    ensures
        port_of(cfg.listens_on()) == Some(cfg.listen_port),
{
    let ip = cfg.listen_ip@;
    let port = text::decimal(cfg.listen_port as nat);
    let s = cfg.listens_on();
    reveal_strlit(":");
    text::lemma_decimal(cfg.listen_port as nat);
    text::number_of_decimal(cfg.listen_port as nat, u16::MAX as nat);
    let i = ip.len() as int;
    assert(s[i] == ':');
    assert forall|j: int| i < j < s.len() implies s[j] != ':' by {
        assert(s[j] == port[j - i - 1]);
        assert(text::is_digit(port[j - i - 1]));
    }
    lemma_behind_last(s, ':', i);
    assert(s.skip(i + 1) =~= port);
}

/// What `select_available_port` may choose: the first available of the
/// recommended ports, else the usual one.
pub open spec fn chosen<F: Fn(u16) -> bool>(probe: F, port: u16) -> bool {
    ||| network::found(probe, RECOMMENDED_PORTS@, Some(port))
    ||| network::found(probe, RECOMMENDED_PORTS@, None) && port == DEFAULT_LISTEN_PORT
}

/// The first recommended port that is available, else the usual port.
pub fn select_available_port<F: Fn(u16) -> bool>(probe: &F) -> (port: u16)
    requires
        forall|p: u16| #[trigger] probe.requires((p,)),
    ensures
        chosen(*probe, port),
{
    match PortManager::find_available_port(RECOMMENDED_PORTS.as_slice(), probe) {
        Some(port) => port,
        None => DEFAULT_LISTEN_PORT,
    }
}

impl HostConfig {
    /// The configuration that is written where there is none yet.
    pub fn create<F: Fn(u16) -> bool>(platform: &Platform, probe: &F) -> (r: Self)
        requires
            forall|p: u16| #[trigger] probe.requires((p,)),
        ensures
            chosen(*probe, r.listen_port),
            r.is_default_at(*platform, r.listen_port),
    {
        let mut cfg = HostConfig::default_at(platform);
        cfg.listen_port = select_available_port(probe);
        cfg
    }
}

/// What `load_or_create` may give: the saved configuration as it is, or a new
/// one, and whether it has to be written.
pub open spec fn loaded<F: Fn(u16) -> bool>(
    saved: Option<HostConfig>,
    platform: Platform,
    probe: F,
    r: (HostConfig, bool),
) -> bool {
    match saved {
        Some(cfg) => r == (cfg, false),
        None => r.1 && chosen(probe, r.0.listen_port) && r.0.is_default_at(
            platform,
            r.0.listen_port,
        ),
    }
}

/// The saved configuration, or a new one where there is none, and whether it is
/// new and has to be written.
pub fn load_or_create<F: Fn(u16) -> bool>(
    saved: Option<HostConfig>,
    platform: &Platform,
    probe: &F,
) -> (r: (HostConfig, bool))
    requires
        forall|p: u16| #[trigger] probe.requires((p,)),
    ensures
        loaded(saved, *platform, *probe, r),
{
    match saved {
        Some(cfg) => (cfg, false),
        None => (HostConfig::create(platform, probe), true),
    }
}

/// What is saved once `load_or_create` has given `r`, and what it asked for has
/// been written.
pub open spec fn saved_after(saved: Option<HostConfig>, r: (HostConfig, bool)) -> Option<
    HostConfig,
> {
    if r.1 {
        Some(r.0)
    } else {
        saved
    }
}

/// After a start the configuration in use is the saved one, and every later
/// start finds it as it is and writes nothing, whatever ports are available
/// then.
pub proof fn later_starts_keep_the_configuration<F: Fn(u16) -> bool, G: Fn(u16) -> bool>(
    saved: Option<HostConfig>,
    platform: Platform,
    probe: F,
    first: (HostConfig, bool),
    then: Platform,
    probe_then: G,
    second: (HostConfig, bool),
)
    requires
        loaded(saved, platform, probe, first),
        loaded(saved_after(saved, first), then, probe_then, second),
    ensures
        saved_after(saved, first) == Some(first.0),
        second == (first.0, false),
        saved_after(saved_after(saved, first), second) == Some(first.0),
{
}

/// The port that is selected where the command line asks for one: only where
/// there is no saved configuration, which otherwise decides.
pub fn auto_port<F: Fn(u16) -> bool>(saved: &Option<HostConfig>, wanted: bool, probe: &F)
    -> (r: Option<u16>)
    requires
        forall|p: u16| #[trigger] probe.requires((p,)),
    ensures
        r is Some <==> wanted && saved is None,
        r matches Some(port) ==> exists|draws: Seq<u16>|
            draws.len() == 10 && #[trigger] network::selected(*probe, draws, port),
{
    if wanted && saved.is_none() {
        Some(PortManager::select_best_port(probe))
    } else {
        None
    }
}

/// What the command line says about the configuration.
#[derive(Debug, Clone)]
pub struct HostOptions {
    pub listen: String,
    pub token: Option<String>,
    /// A port to listen on at all addresses.
    pub port: Option<u16>,
}

/// `r` is `cfg` where the command line says nothing else.
pub open spec fn merged(cfg: HostConfig, opt: HostOptions, r: HostConfig) -> bool {
    &&& text::text_of(r.listen_addr) == (match opt.port {
        Some(p) => Some(network::address(DEFAULT_LISTEN_IP@, p)),
        None => if opt.listen@ != DEFAULT_LISTEN@ {
            Some(opt.listen@)
        } else {
            text::text_of(cfg.listen_addr)
        },
    })
    &&& r.token_path@ == (match opt.token {
        Some(t) => t@,
        None => cfg.token_path@,
    })
    &&& r.token_path_locked == (cfg.token_path_locked || opt.token is Some)
    &&& r.listen_ip == cfg.listen_ip
    &&& r.listen_port == cfg.listen_port
    &&& r.remote_ips == cfg.remote_ips
    &&& r.reclamation == cfg.reclamation
    &&& r.logging == cfg.logging
}

impl HostConfig {
    /// The configuration where the command line says nothing else.
    pub fn merged_with_cli(self, opt: &HostOptions) -> (r: Self)
        ensures
            merged(self, *opt, r),
    {
        let mut r = self;
        match opt.port {
            Some(p) => {
                r.listen_addr = Some(address_text(DEFAULT_LISTEN_IP, p));
            },
            None => {
                if opt.listen != DEFAULT_LISTEN.to_owned() {
                    r.listen_addr = Some(opt.listen.clone());
                }
            },
        }
        if let Some(token) = &opt.token {
            r.token_path = token.clone();
            r.token_path_locked = true;
        }
        r
    }

    /// `next` is this configuration with what is read anew from `read`.
    pub open spec fn reloads(self, read: HostConfig, next: HostConfig) -> bool {
        &&& next.token_path@ == (if self.token_path_locked {
            self.token_path@
        } else {
            read.token_path@
        })
        &&& next.listen_ip == self.listen_ip
        &&& next.listen_port == self.listen_port
        &&& next.listen_addr == self.listen_addr
        &&& next.token_path_locked == self.token_path_locked
        &&& next.remote_ips == self.remote_ips
        &&& next.reclamation == self.reclamation
        &&& next.logging == self.logging
    }

    /// Takes over what is read anew while the host runs: the path of the
    /// token, unless it was given on the command line.
    pub fn reload(&mut self, read: &HostConfig)
        ensures
            final(self).token_path@ == (if old(self).token_path_locked {
                old(self).token_path@
            } else {
                read.token_path@
            }),
            final(self).listen_ip == old(self).listen_ip,
            final(self).listen_port == old(self).listen_port,
            final(self).listen_addr == old(self).listen_addr,
            final(self).token_path_locked == old(self).token_path_locked,
            final(self).remote_ips == old(self).remote_ips,
            final(self).reclamation == old(self).reclamation,
            final(self).logging == old(self).logging,
            old(self).reloads(*read, *final(self)),
    {
        if !self.token_path_locked {
            self.token_path = read.token_path.clone();
        }
    }
}

/// The characters of a token.
pub const CHARSET: &'static str = "ABCDEFGHIJKLMNOPQRSTUVWXYZabcdefghijklmnopqrstuvwxyz0123456789";

/// The length of a token.
pub const TOKEN_LENGTH: usize = 32;

/// `rand::Rng::gen_range` of the thread's generator: a number below `n`, drawn
/// at random.
#[verifier::external_body]
fn random_below(n: usize) -> (r: usize)
    requires
        n > 0,
    ensures
        r < n,
{
    rand::Rng::gen_range(&mut rand::thread_rng(), 0..n)
}

/// The characters that numbers stand for.
pub open spec fn spelled(draws: Seq<usize>) -> Seq<char> {
    draws.map_values(|d: usize| CHARSET@[d as int])
}

/// The token that numbers below 62 stand for.
pub fn token_of(draws: &Vec<usize>) -> (r: String)
    requires
        forall|i: int| 0 <= i < draws@.len() ==> (#[trigger] draws@[i]) < CHARSET@.len(),
    ensures
        r@ == spelled(draws@),
{
    let charset = to_chars(CHARSET);
    let mut r = String::new();
    let mut i: usize = 0;
    while i < draws.len()
        invariant
            i <= draws@.len(),
            charset@ == CHARSET@,
            forall|j: int| 0 <= j < draws@.len() ==> (#[trigger] draws@[j]) < CHARSET@.len(),
            r@ =~= spelled(draws@.take(i as int)),
        decreases draws@.len() - i,
    {
        r.push(charset[draws[i]]);
        i = i + 1;
    }
    assert(draws@.take(i as int) =~= draws@);
    r
}

/// A token: characters drawn at random.
pub fn generate_token() -> (r: String)
    ensures
        r@.len() == TOKEN_LENGTH,
        forall|i: int| 0 <= i < r@.len() ==> CHARSET@.contains(#[trigger] r@[i]),
{
    proof {
        reveal_strlit("ABCDEFGHIJKLMNOPQRSTUVWXYZabcdefghijklmnopqrstuvwxyz0123456789");
    }
    let n = to_chars(CHARSET).len();
    let mut draws: Vec<usize> = Vec::new();
    while draws.len() < TOKEN_LENGTH
        invariant
            n == CHARSET@.len(),
            n > 0,
            draws@.len() <= TOKEN_LENGTH,
            forall|i: int| 0 <= i < draws@.len() ==> (#[trigger] draws@[i]) < n,
        decreases TOKEN_LENGTH - draws@.len(),
    {
        draws.push(random_below(n));
    }
    let r = token_of(&draws);
    assert forall|i: int| 0 <= i < r@.len() implies CHARSET@.contains(#[trigger] r@[i]) by {
        assert(r@[i] == CHARSET@[draws@[i] as int]);
    }
    r
}

/// The token that a file with the given content holds, if it holds one.
pub fn existing_token(content: &str) -> (r: Option<String>)
    ensures
        match r {
            Some(t) => t@ == text::trim(content@) && t@.len() > 0,
            None => text::trim(content@).len() == 0,
        },
{
    let t = trimmed(content);
    if t.as_str().is_empty() {
        None
    } else {
        Some(t)
    }
}

/// Whether a file holds a token.
pub open spec fn holds_token(content: Option<String>) -> bool {
    content matches Some(c) && text::trim(c@).len() > 0
}

/// The token that the host's file holds, or a new one where it holds none, and
/// whether it is new and has to be written.
pub fn ensure_token(content: &Option<String>) -> (r: (String, bool))
    ensures
        r.1 == !holds_token(*content),
        holds_token(*content) ==> r.0@ == text::trim(content->0@),
        !holds_token(*content) ==> r.0@.len() == TOKEN_LENGTH && forall|i: int|
            0 <= i < r.0@.len() ==> CHARSET@.contains(#[trigger] r.0@[i]),
{
    if let Some(c) = content {
        if let Some(t) = existing_token(c.as_str()) {
            return (t, false);
        }
    }
    (generate_token(), true)
}

/// The token that guests have to show: that of the file, if it can be read.
pub fn expected_token(content: &Option<String>) -> (r: Option<String>)
    ensures
        text::text_of(r) == (match *content {
            Some(c) => Some(text::trim(c@)),
            None => None,
        }),
{
    match content {
        Some(c) => Some(trimmed(c.as_str())),
        None => None,
    }
}

/// An address that is given as a whole takes precedence over its parts.
pub proof fn whole_address_takes_precedence(a: HostConfig, b: HostConfig)
    requires
        a.listen_addr is Some,
        a.listen_addr == b.listen_addr,
    ensures
        a.listens_on() == b.listens_on(),
        a.listens_on() == a.listen_addr->0@,
{
}

/// What the command line gives takes precedence: a port before an address, an
/// address before the file. A token path from the command line is locked.
pub proof fn command_line_wins(cfg: HostConfig, opt: HostOptions, r: HostConfig)
    requires
        merged(cfg, opt, r),
    ensures
        opt.port matches Some(p) ==> r.listens_on() == network::address("0.0.0.0"@, p),
        opt.port is None && opt.listen@ != "0.0.0.0:15555"@ ==> r.listens_on() == opt.listen@,
        opt.port is None && opt.listen@ == "0.0.0.0:15555"@ ==> r.listens_on()
            == cfg.listens_on(),
        opt.token matches Some(t) ==> r.token_path@ == t@ && r.token_path_locked,
        opt.token is None ==> r.token_path@ == cfg.token_path@ && r.token_path_locked
            == cfg.token_path_locked,
        r.remote_ips == cfg.remote_ips,
        r.reclamation == cfg.reclamation,
        r.logging == cfg.logging,
{
}

/// A recommended port is chosen only if it is available and no recommended port
/// before it is; the usual port stands in where none is.
pub proof fn first_available_port_is_chosen<F: Fn(u16) -> bool>(probe: F, port: u16)
    requires
        chosen(probe, port),
    ensures
        ({
            ||| exists|i: int|
                0 <= i < 6 && port == #[trigger] RECOMMENDED_PORTS@[i] && probe.ensures(
                    (port,),
                    true,
                ) && forall|j: int|
                    0 <= j < i ==> probe.ensures((#[trigger] RECOMMENDED_PORTS@[j],), false)
            ||| port == 15555 && forall|j: int|
                0 <= j < 6 ==> probe.ensures((#[trigger] RECOMMENDED_PORTS@[j],), false)
        }),
{
    if network::found(probe, RECOMMENDED_PORTS@, Some(port)) {
        let i = choose|i: int| #[trigger]
            network::first_accepted(probe, RECOMMENDED_PORTS@, i) && port
                == RECOMMENDED_PORTS@[i];
        assert(port == RECOMMENDED_PORTS@[i]);
    }
}

/// Different draws make different tokens, one character for each draw: the
/// capital letters, the small letters and the digits, each in their order.
pub proof fn different_draws_make_different_tokens(a: Seq<usize>, b: Seq<usize>)
    requires
        forall|i: int| 0 <= i < a.len() ==> (#[trigger] a[i]) < 62,
        forall|i: int| 0 <= i < b.len() ==> (#[trigger] b[i]) < 62,
        a != b,
    ensures
        spelled(a) != spelled(b),
        spelled(a).len() == a.len(),
        forall|i: int|
            0 <= i < a.len() ==> {
                let c = #[trigger] spelled(a)[i];
                &&& a[i] < 26 ==> c as int == 'A' as int + a[i]
                &&& 26 <= a[i] < 52 ==> c as int == 'a' as int + a[i] - 26
                &&& 52 <= a[i] ==> c as int == '0' as int + a[i] - 52
            },
{
    assert forall|d: usize| d < 62 implies {
        let c = #[trigger] CHARSET@[d as int];
        &&& d < 26 ==> c as int == 'A' as int + d
        &&& 26 <= d < 52 ==> c as int == 'a' as int + d - 26
        &&& 52 <= d ==> c as int == '0' as int + d - 52
    } by {
        reveal_strlit("ABCDEFGHIJKLMNOPQRSTUVWXYZabcdefghijklmnopqrstuvwxyz0123456789");
    }
    if spelled(a) == spelled(b) {
        assert(spelled(a).len() == a.len() && spelled(b).len() == b.len());
        assert forall|i: int| 0 <= i < a.len() implies a[i] == b[i] by {
            assert(spelled(a)[i] == CHARSET@[a[i] as int]);
            assert(spelled(b)[i] == CHARSET@[b[i] as int]);
        }
        assert(a =~= b);
    }
}

/// A path below another begins with it and ends in the part, with at most a
/// separator between them.
pub proof fn path_stays_below_its_base(windows: bool, base: Seq<char>, part: Seq<char>)
    ensures
        ({
            let r = joined(windows, base, part);
            &&& text::begins(r, base)
            &&& text::ends(r, part)
            &&& base.len() + part.len() <= r.len() <= base.len() + 1 + part.len()
            &&& r.len() > base.len() + part.len() ==> r[base.len() as int] == (if windows {
                '\\'
            } else {
                '/'
            })
            // none where one is there already, nor behind a drive
            &&& base.len() > 2 && base.last() != '/' && base.last() != '\\' ==> r.len() == base.len()
                + 1 + part.len()
            &&& base.len() == 0 || base.last() == '/' ==> r == base + part
            &&& windows && base.len() > 0 && base.last() == '\\' ==> r == base + part
            &&& windows && base.len() == 2 && base[1] == ':' && ('a' <= base[0] <= 'z' || 'A'
                <= base[0] <= 'Z') ==> r == base + part
            &&& !windows && base.len() > 0 && base.last() != '/' ==> r == base + seq!['/'] + part
        }),
{
    reveal_strlit("\\");
    reveal_strlit("/");
    assert("/"@ =~= seq!['/']);
    let r = joined(windows, base, part);
    assert(r.take(base.len() as int) =~= base);
    assert(r.skip(r.len() - part.len()) =~= part);
}

/// A path of the token that was given on the command line outlasts every
/// reload; one that was not follows the file. Where the host listens, and how
/// it reclaims, does not change while it runs.
pub proof fn locked_token_path_outlasts_reloads(
    cfg: HostConfig,
    opt: HostOptions,
    started: HostConfig,
    read: HostConfig,
    next: HostConfig,
    read_then: HostConfig,
    last: HostConfig,
)
    requires
        merged(cfg, opt, started),
        started.reloads(read, next),
        next.reloads(read_then, last),
    ensures
        opt.token matches Some(t) ==> last.token_path@ == t@,
        opt.token is None && !cfg.token_path_locked ==> last.token_path@ == read_then.token_path@,
        last.listens_on() == started.listens_on(),
        last.reclamation == cfg.reclamation,
        last.logging == cfg.logging,
{
}

/// A file holds the same token for the host that expects it and for the host
/// that makes sure there is one: its text without white space around it.
pub proof fn token_is_the_text_of_its_file(
    content: &Option<String>,
    expected: Option<String>,
    ensured: (String, bool),
)
    requires
        call_ensures(expected_token, (content,), expected),
        call_ensures(ensure_token, (content,), ensured),
    ensures
        expected is Some <==> content is Some,
        !ensured.1 ==> expected is Some && expected->0@ == ensured.0@,
        expected matches Some(t) && t@.len() > 0 ==> !ensured.1,
        expected matches Some(t) ==> text::trim(t@) == t@,
        ensured.1 ==> ensured.0@.len() == 32,
{
    if let Some(c) = *content {
        text::trimmed_text_stays(c@);
    }
}

/// The configuration is kept below the directory that the environment names,
/// and on Unix the token beside it; on Windows the token is kept where guests
/// can read it, whatever the environment says.
pub proof fn places_follow_the_environment<J: Fn(&String, &String) -> String>(
    home: String,
    appdata: Option<String>,
    system: J,
    dir: Seq<char>,
)
    requires
        (Platform::Unix { home: Some(home) }).keeps_in(system, dir),
    ensures
        text::begins(dir, home@),
        (Platform::Unix { home: Some(home) }).token_file() == joined(false, dir, "token"@),
        (Platform::Unix { home: None }).base() == "/tmp"@,
        (Platform::Unix { home: Some(home) }).base() == home@,
        appdata matches Some(a) ==> (Platform::Windows { appdata }).base() == a@,
        (Platform::Windows { appdata: None }).base() == "C:\\ProgramData"@,
        (Platform::Windows { appdata }).token_file() == (Platform::Windows {
            appdata: None,
        }).token_file(),
        (Platform::Windows { appdata }).token_file() == "C:\\Users\\Public\\wsl_agent_token"@,
{
    let inner = joined(false, home@, ".config"@);
    path_stays_below_its_base(false, home@, ".config"@);
    path_stays_below_its_base(false, inner, "wsl-memory-agent"@);
    assert(dir.take(home@.len() as int) =~= dir.take(inner.len() as int).take(home@.len() as int));
}

/// A port is selected only where the command line asks for it and no
/// configuration is saved; a saved configuration is never overruled.
pub proof fn saved_configuration_keeps_its_port<F: Fn(u16) -> bool>(
    saved: &Option<HostConfig>,
    wanted: bool,
    probe: &F,
    r: Option<u16>,
)
    requires
        forall|p: u16| #[trigger] probe.requires((p,)),
        call_ensures(auto_port::<F>, (saved, wanted, probe), r),
    ensures
        *saved is Some ==> r is None,
        !wanted ==> r is None,
        *saved is None && wanted ==> r is Some,
        r matches Some(port) ==> RECOMMENDED_PORTS@.contains(port) || 10000 <= port < 65535,
{
    if let Some(port) = r {
        let draws = choose|draws: Seq<u16>|
            draws.len() == 10 && #[trigger] network::selected(*probe, draws, port);
        network::selected_port_is_in_range(*probe, draws, port);
    }
}

} // verus!
