//! The host's side of a conversation: what each message means, over TCP and
//! over UDP.

use crate::elastic_reclaim::{ReclamationConfig, SystemMetrics};
use crate::json;
use crate::json::{parse_json, string_member};
use crate::protocol;
use crate::protocol::{
    process_elastic_metrics, Command, CommandMsg, Connection, ConnectionState, GuestMetricsMsg,
    HostInfo,
};
use crate::text;
use crate::time::Timestamp;
use vstd::prelude::*;
use vstd::string::*;
use vstd::utf8;

verus! {

/// What a message is.
#[derive(Debug, Clone, Copy, PartialEq, Eq, Structural)]
pub enum Incoming {
    /// Nothing that the host answers.
    Ignored,
    Ping,
    /// The result of a command.
    Outcome,
    /// A report of the guest's metrics.
    Metrics,
    /// A report without the expected token.
    Refused,
}

/// Whether a report with the token `given` is taken in.
pub open spec fn accepted(given: Option<Seq<char>>, expected: Option<Seq<char>>) -> bool {
    expected is None || given == expected
}

/// What a message with the given `msg_type` is, `trusted` where it carries the
/// expected token.
pub open spec fn kind(msg_type: Option<Seq<char>>, trusted: bool) -> Incoming {
    if msg_type == Some("ping"@) {
        Incoming::Ping
    } else if msg_type == Some("result"@) {
        Incoming::Outcome
    } else if msg_type == Some("metrics"@) {
        if trusted {
            Incoming::Metrics
        } else {
            Incoming::Refused
        }
    } else {
        Incoming::Ignored
    }
}

/// The string at `key` of a document.
pub open spec fn member(doc: Map<Seq<char>, Seq<char>>, key: Seq<char>) -> Option<Seq<char>> {
    if doc.contains_key(key) {
        Some(doc[key])
    } else {
        None
    }
}

/// What a message is: a JSON document in UTF-8, told apart by its `msg_type`.
pub open spec fn incoming(message: Seq<u8>, expected: Option<Seq<char>>) -> Incoming {
    if !utf8::valid_utf8(message) {
        Incoming::Ignored
    } else {
        match json::json_document(utf8::decode_utf8(message)) {
            Some(doc) => kind(
                member(doc, "msg_type"@),
                accepted(member(doc, "token"@), expected),
            ),
            None => Incoming::Ignored,
        }
    }
}

/// Whether a report with the token `given` is taken in.
pub fn token_accepted(given: &Option<String>, expected: &Option<String>) -> (r: bool)
    ensures
        r == accepted(text::text_of(*given), text::text_of(*expected)),
{
    match expected {
        None => true,
        Some(e) => match given {
            Some(g) => *g == *e,
            None => false,
        },
    }
}

/// Whether a document carries the expected token.
pub fn validate_token(val: &serde_json::Value, expected: &Option<String>) -> (r: bool)
    ensures
        r == accepted(member(json::json_strings(*val), "token"@), text::text_of(*expected)),
{
    token_accepted(&string_member(val, "token"), expected)
}

/// What a message with the given `msg_type` is, `trusted` where it carries the
/// expected token.
pub fn message_kind(msg_type: &Option<String>, trusted: bool) -> (r: Incoming)
    ensures
        r == kind(text::text_of(*msg_type), trusted),
{
    match msg_type {
        None => Incoming::Ignored,
        Some(t) => {
            if *t == "ping".to_owned() {
                Incoming::Ping
            } else if *t == "result".to_owned() {
                Incoming::Outcome
            } else if *t == "metrics".to_owned() {
                if trusted {
                    Incoming::Metrics
                } else {
                    Incoming::Refused
                }
            } else {
                Incoming::Ignored
            }
        },
    }
}

/// What a message is.
pub fn classify(message: &[u8], expected: &Option<String>) -> (r: Incoming)
    ensures
        r == incoming(message@, text::text_of(*expected)),
{
    let text = match core::str::from_utf8(message) {
        Ok(s) => s,
        Err(_) => {
            return Incoming::Ignored;
        },
    };
    proof {
        utf8::encode_utf8_decode_utf8(text@);
    }
    let val = match parse_json(text) {
        Ok(v) => v,
        Err(_) => {
            return Incoming::Ignored;
        },
    };
    message_kind(&string_member(&val, "msg_type"), validate_token(&val, expected))
}

/// What the host does with a message that came over a TCP connection.
#[derive(Debug, Clone, Copy, PartialEq, Eq, Structural)]
pub enum TcpStep {
    /// Reads the next message.
    Continue,
    /// Takes in the report, and sends the command that comes of it.
    Measure,
    /// Closes the connection.
    Close,
}

/// What is done with a message over TCP.
pub open spec fn tcp_reaction(message: Incoming) -> TcpStep {
    match message {
        Incoming::Metrics => TcpStep::Measure,
        Incoming::Refused => TcpStep::Close,
        _ => TcpStep::Continue,
    }
}

/// What the host does with a message that came over a TCP connection.
pub fn tcp_step(message: &[u8], expected: &Option<String>) -> (r: TcpStep)
    ensures
        r == tcp_reaction(incoming(message@, text::text_of(*expected))),
{
    match classify(message, expected) {
        Incoming::Metrics => TcpStep::Measure,
        Incoming::Refused => TcpStep::Close,
        _ => TcpStep::Continue,
    }
}

/// The address of a guest.
#[derive(Debug, Clone, Copy, PartialEq, Eq, Structural)]
pub enum Peer {
    V4 { ip: u32, port: u16 },
    V6 { ip: u128, port: u16, flow: u32, scope: u32 },
}

/// A guest that reports over UDP.
pub struct UdpGuestState {
    state: ConnectionState,
    /// The last command, until the guest has told its result.
    pending_cmd: Option<CommandMsg>,
}

/// What the host knows of a guest that reports over UDP.
pub struct UdpGuest {
    pub connection: Connection,
    pub pending: Option<Command>,
}

impl View for UdpGuestState {
    type V = UdpGuest;

    closed spec fn view(&self) -> UdpGuest {
        UdpGuest {
            connection: self.state@,
            pending: protocol::command_of(self.pending_cmd),
        }
    }
}

/// The guests of a list, by their addresses.
pub open spec fn by_peer(list: Seq<(Peer, UdpGuestState)>) -> Map<Peer, UdpGuest>
    decreases list.len(),
{
    if list.len() == 0 {
        Map::empty()
    } else {
        by_peer(list.drop_last()).insert(list.last().0, list.last().1@)
    }
}

/// No address occurs twice.
pub open spec fn distinct(list: Seq<(Peer, UdpGuestState)>) -> bool {
    forall|i: int, j: int|
        0 <= i < j < list.len() ==> (#[trigger] list[i]).0 != (#[trigger] list[j]).0
}

proof fn lemma_by_peer_contains(list: Seq<(Peer, UdpGuestState)>, i: int)
    requires
        distinct(list),
        0 <= i < list.len(),
    ensures
        by_peer(list).contains_key(list[i].0),
        by_peer(list)[list[i].0] == list[i].1@,
    decreases list.len(),
{
    if i < list.len() - 1 {
        lemma_by_peer_contains(list.drop_last(), i);
        assert(list.drop_last()[i] == list[i]);
        assert(list[i].0 != list[list.len() - 1].0);
    }
}

proof fn lemma_by_peer_lacks(list: Seq<(Peer, UdpGuestState)>, peer: Peer)
    requires
        forall|i: int| 0 <= i < list.len() ==> (#[trigger] list[i]).0 != peer,
    ensures
        !by_peer(list).contains_key(peer),
    decreases list.len(),
{
    if list.len() > 0 {
        assert(list[list.len() - 1].0 != peer);
        assert forall|i: int| 0 <= i < list.drop_last().len() implies (
        #[trigger] list.drop_last()[i]).0 != peer by {
            assert(list.drop_last()[i] == list[i]);
        }
        lemma_by_peer_lacks(list.drop_last(), peer);
    }
}

proof fn lemma_by_peer_update(list: Seq<(Peer, UdpGuestState)>, i: int, g: UdpGuestState)
    requires
        distinct(list),
        0 <= i < list.len(),
    ensures
        distinct(list.update(i, (list[i].0, g))),
        by_peer(list.update(i, (list[i].0, g))) == by_peer(list).insert(list[i].0, g@),
    decreases list.len(),
{
    let next = list.update(i, (list[i].0, g));
    let n = list.len() - 1;
    if i == n {
        assert(next.drop_last() =~= list.drop_last());
        assert(by_peer(next) =~= by_peer(list).insert(list[i].0, g@));
    } else {
        lemma_by_peer_update(list.drop_last(), i, g);
        assert(next.drop_last() =~= list.drop_last().update(i, (list[i].0, g)));
        assert(list[i].0 != list[n].0);
        assert(by_peer(next) =~= by_peer(list).insert(list[i].0, g@));
    }
}

/// The answer to a ping.
pub const PONG: &'static str = "{\"msg_type\":\"pong\"}";

/// What the host does with a datagram.
#[derive(Debug, Clone, Copy, PartialEq, Eq, Structural)]
pub enum UdpStep {
    /// Waits for the next datagram.
    Nothing,
    /// Answers a ping.
    Pong,
    /// Takes in the report, and sends the commands that come of it.
    Measure,
}

/// What is done with a datagram.
pub open spec fn udp_reaction(message: Incoming) -> UdpStep {
    match message {
        Incoming::Ping => UdpStep::Pong,
        Incoming::Metrics => UdpStep::Measure,
        _ => UdpStep::Nothing,
    }
}

/// The commands that are sent upon a report.
pub struct UdpCommands {
    /// The command that the guest has not told the result of, once more.
    pub resent: Option<CommandMsg>,
    /// A new command.
    pub issued: Option<CommandMsg>,
}

/// The guests that report over UDP.
pub struct UdpServer {
    config: ReclamationConfig,
    guests: Vec<(Peer, UdpGuestState)>,
}

/// What the host knows of the guests that report over UDP.
pub struct Udp {
    pub config: ReclamationConfig,
    pub guests: Map<Peer, UdpGuest>,
}

impl View for UdpServer {
    type V = Udp;

    closed spec fn view(&self) -> Udp {
        Udp { config: self.config, guests: by_peer(self.guests@) }
    }
}

impl Udp {
    /// Of each guest a bounded number of samples is remembered.
    pub open spec fn bounded(self) -> bool {
        forall|p: Peer| #[trigger]
            self.guests.contains_key(p) ==> self.guests[p].connection.engine.wf()
    }

    /// The guest at an address, a fresh one if it has not reported yet.
    pub open spec fn guest(self, peer: Peer) -> UdpGuest {
        if self.guests.contains_key(peer) {
            self.guests[peer]
        } else {
            UdpGuest { connection: Connection::fresh(self.config), pending: None }
        }
    }

    /// What is known once a message has come: a result settles the pending
    /// command, and nothing else changes anything.
    pub open spec fn heard(self, peer: Peer, message: Incoming) -> Udp {
        if message == Incoming::Outcome && self.guests.contains_key(peer) {
            Udp {
                guests: self.guests.insert(
                    peer,
                    UdpGuest { pending: None, ..self.guests[peer] },
                ),
                ..self
            }
        } else {
            self
        }
    }
}

/// The pending command once `issued` has been sent.
pub open spec fn pending_after(pending: Option<Command>, issued: Option<Command>) -> Option<
    Command,
> {
    if issued is Some {
        issued
    } else {
        pending
    }
}

impl Udp {
    /// The report `m` of the guest at `peer` may lead from here to `next`, with
    /// the pending command `resent` and the new command `issued`.
    pub open spec fn measures(
        self,
        peer: Peer,
        m: GuestMetricsMsg,
        host: HostInfo,
        now: Timestamp,
        nanos: u128,
        resent: Option<Command>,
        issued: Option<Command>,
        next: Udp,
    ) -> bool {
        &&& next.config == self.config
        &&& next.guests == self.guests.insert(peer, next.guest(peer))
        &&& resent == self.guest(peer).pending
        &&& exists|s: SystemMetrics| #[trigger]
            protocol::sampled(m, host, s) && self.guest(peer).connection.advances(
                m,
                s,
                now,
                nanos,
                next.guest(peer).connection,
                issued,
            )
        &&& next.guest(peer).pending == pending_after(self.guest(peer).pending, issued)
    }
}

impl UdpServer {
    /// Each guest is kept once.
    pub closed spec fn wf(&self) -> bool {
        distinct(self.guests@)
    }

    /// A server that has heard of no guest yet.
    pub fn new(config: ReclamationConfig) -> (r: Self)
        ensures
            r.wf(),
            r@ == (Udp { config, guests: Map::empty() }),
            r@.bounded(),
    {
        UdpServer { config, guests: Vec::new() }
    }

    /// Where a guest is kept.
    fn position(&self, peer: Peer) -> (r: Option<usize>)
        ensures
            match r {
                Some(i) => i < self.guests@.len() && self.guests@[i as int].0 == peer,
                None => forall|i: int|
                    0 <= i < self.guests@.len() ==> (#[trigger] self.guests@[i]).0 != peer,
            },
    {
        let mut i: usize = 0;
        while i < self.guests.len()
            invariant
                i <= self.guests@.len(),
                forall|j: int| 0 <= j < i ==> (#[trigger] self.guests@[j]).0 != peer,
            decreases self.guests@.len() - i,
        {
            if self.guests[i].0 == peer {
                return Some(i);
            }
            i = i + 1;
        }
        None
    }

    /// Takes in a datagram, and says what to do with it.
    pub fn receive(&mut self, peer: Peer, message: &[u8], expected: &Option<String>)
        -> (r: UdpStep)
        requires
            old(self).wf(),
        ensures
            final(self).wf(),
            ({
                let m = incoming(message@, text::text_of(*expected));
                r == udp_reaction(m) && final(self)@ == old(self)@.heard(peer, m)
            }),
            old(self)@.bounded() ==> final(self)@.bounded(),
    {
        match classify(message, expected) {
            Incoming::Ping => UdpStep::Pong,
            Incoming::Metrics => UdpStep::Measure,
            Incoming::Outcome => {
                self.settle(peer);
                UdpStep::Nothing
            },
            _ => UdpStep::Nothing,
        }
    }

    /// Takes note that a guest has told the result of its command.
    pub fn settle(&mut self, peer: Peer)
        requires
            old(self).wf(),
        ensures
            final(self).wf(),
            final(self)@ == old(self)@.heard(peer, Incoming::Outcome),
    {
        match self.position(peer) {
            Some(i) => {
                let ghost before = self.guests@;
                proof {
                    lemma_by_peer_contains(before, i as int);
                }
                let g = &mut self.guests[i];
                g.1.pending_cmd = None;
                proof {
                    lemma_by_peer_update(before, i as int, self.guests@[i as int].1);
                    assert(self.guests@ =~= before.update(
                        i as int,
                        (before[i as int].0, self.guests@[i as int].1),
                    ));
                }
            },
            None => {
                proof {
                    lemma_by_peer_lacks(self.guests@, peer);
                }
            },
        }
    }
}

impl UdpServer {
    /// Where a guest is kept, which is kept from now on if it was not.
    fn enrol(&mut self, peer: Peer) -> (i: usize)
        requires
            old(self).wf(),
        ensures
            final(self).wf(),
            i < final(self).guests@.len(),
            final(self).guests@[i as int].0 == peer,
            final(self).guests@[i as int].1@ == old(self)@.guest(peer),
            final(self)@ == (Udp {
                guests: old(self)@.guests.insert(peer, old(self)@.guest(peer)),
                ..old(self)@
            }),
    {
        match self.position(peer) {
            Some(i) => {
                proof {
                    lemma_by_peer_contains(self.guests@, i as int);
                    assert(self@.guests =~= self@.guests.insert(peer, self@.guests[peer]));
                }
                i
            },
            None => {
                proof {
                    lemma_by_peer_lacks(self.guests@, peer);
                }
                let ghost before = self.guests@;
                let state = ConnectionState::new(self.config);
                self.guests.push((peer, UdpGuestState { state, pending_cmd: None }));
                assert(self.guests@.drop_last() =~= before);
                self.guests.len() - 1
            },
        }
    }

    /// Takes in a guest's report, and says what to send it. `now` is the time
    /// by the monotonic clock, `nanos` that since the Unix epoch.
    pub fn measure(
        &mut self,
        peer: Peer,
        m: &GuestMetricsMsg,
        host: &HostInfo,
        now: Timestamp,
        nanos: u128,
    ) -> (r: UdpCommands)
        requires
            old(self).wf(),
        ensures
            final(self).wf(),
            final(self)@.config == old(self)@.config,
            final(self)@.guests == old(self)@.guests.insert(peer, final(self)@.guest(peer)),
            protocol::command_of(r.resent) == old(self)@.guest(peer).pending,
            exists|s: SystemMetrics| #[trigger]
                protocol::sampled(*m, *host, s) && old(self)@.guest(peer).connection.advances(
                    *m,
                    s,
                    now,
                    nanos,
                    final(self)@.guest(peer).connection,
                    protocol::command_of(r.issued),
                ),
            final(self)@.guest(peer).pending == pending_after(
                old(self)@.guest(peer).pending,
                protocol::command_of(r.issued),
            ),
            old(self)@.bounded() ==> final(self)@.bounded(),
            old(self)@.measures(
                peer,
                *m,
                *host,
                now,
                nanos,
                protocol::command_of(r.resent),
                protocol::command_of(r.issued),
                final(self)@,
            ),
    {
        let i = self.enrol(peer);
        let ghost before = self.guests@;
        let resent = match &self.guests[i].1.pending_cmd {
            Some(c) => Some(c.duplicate()),
            None => None,
        };
        let g = &mut self.guests[i];
        let issued = process_elastic_metrics(m, &mut g.1.state, host, now, nanos);
        if let Some(c) = &issued {
            g.1.pending_cmd = Some(c.duplicate());
        }
        proof {
            let next = self.guests@[i as int].1;
            assert(self.guests@ =~= before.update(i as int, (before[i as int].0, next)));
            lemma_by_peer_update(before, i as int, next);
            assert(self@.guest(peer) == next@);
            assert(self@.guests =~= old(self)@.guests.insert(peer, next@));
        }
        UdpCommands { resent, issued }
    }
}

/// The kinds of messages differ.
proof fn lemma_kinds_differ()
    ensures
        "metrics"@ != "ping"@,
        "metrics"@ != "result"@,
        "ping"@ != "result"@,
{
    reveal_strlit("metrics");
    reveal_strlit("ping");
    reveal_strlit("result");
    assert("metrics"@.len() == 7);
    assert("ping"@.len() == 4);
    assert("result"@.len() == 6);
}

/// A report is taken in if it shows the expected token, or if none is
/// expected; else it is refused.
pub proof fn token_decides(given: Option<Seq<char>>, expected: Option<Seq<char>>)
    ensures
        kind(Some("metrics"@), accepted(given, expected)) == (if expected is None || given
            == expected {
            Incoming::Metrics
        } else {
            Incoming::Refused
        }),
{
    lemma_kinds_differ();
}

/// Only reports that have been taken in are measured, over TCP and over UDP.
pub proof fn only_accepted_reports_are_measured(msg_type: Option<Seq<char>>, trusted: bool)
    ensures
        tcp_reaction(kind(msg_type, trusted)) == TcpStep::Measure <==> msg_type == Some("metrics"@)
            && trusted,
        udp_reaction(kind(msg_type, trusted)) == UdpStep::Measure <==> msg_type == Some("metrics"@)
            && trusted,
{
    lemma_kinds_differ();
}

/// A refused report closes a TCP connection; over UDP it changes nothing and
/// is not answered.
pub proof fn refused_report_changes_nothing(u: Udp, peer: Peer)
    ensures
        tcp_reaction(Incoming::Refused) == TcpStep::Close,
        udp_reaction(Incoming::Refused) == UdpStep::Nothing,
        u.heard(peer, Incoming::Refused) == u,
{
}

/// A pending command stays pending whatever the guest says, until it tells a
/// result; what the host knows of the guest otherwise, and of other guests,
/// stays the same.
pub proof fn command_is_pending_until_its_result(
    u: Udp,
    peer: Peer,
    message: Incoming,
    other: Peer,
)
    ensures
        u.heard(peer, message).guest(peer).pending == (if message == Incoming::Outcome {
            None
        } else {
            u.guest(peer).pending
        }),
        u.heard(peer, message).guest(peer).connection == u.guest(peer).connection,
        other != peer ==> u.heard(peer, message).guest(other) == u.guest(other),
{
}

/// Pings and results are taken in whatever token they carry, and nothing but
/// them and reports is.
pub proof fn pings_and_results_need_no_token(msg_type: Seq<char>, trusted: bool)
    ensures
        kind(Some("ping"@), trusted) == Incoming::Ping,
        udp_reaction(kind(Some("ping"@), trusted)) == UdpStep::Pong,
        kind(Some("result"@), trusted) == Incoming::Outcome,
        msg_type != "ping"@ && msg_type != "result"@ && msg_type != "metrics"@ ==> kind(
            Some(msg_type),
            trusted,
        ) == Incoming::Ignored,
        kind(None, trusted) == Incoming::Ignored,
{
    lemma_kinds_differ();
}

/// A message is told by the type and the token in its document; what is no
/// document is ignored.
pub proof fn message_is_told_by_its_document(message: Seq<u8>, expected: Option<Seq<char>>)
    ensures
        ({
            let document = json::json_document(utf8::decode_utf8(message));
            &&& !utf8::valid_utf8(message) || document is None ==> incoming(message, expected)
                == Incoming::Ignored
            &&& utf8::valid_utf8(message) && document is Some ==> {
                let doc = document->0;
                let of = |t: Seq<char>| doc.contains_key("msg_type"@) && doc["msg_type"@] == t;
                let shown = expected is None || (doc.contains_key("token"@) && doc["token"@]
                    == expected->0);
                &&& incoming(message, expected) == Incoming::Ping <==> of("ping"@)
                &&& incoming(message, expected) == Incoming::Outcome <==> of("result"@)
                &&& incoming(message, expected) == Incoming::Metrics <==> of("metrics"@) && shown
                &&& incoming(message, expected) == Incoming::Refused <==> of("metrics"@) && !shown
            }
        }),
{
    lemma_kinds_differ();
}

} // verus!
