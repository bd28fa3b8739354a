//! Port negotiation between two daemons: what the initiator asks for and
//! how it reads the answer, how the responder decides, and the order in
//! which the responder tries ports.
use vstd::prelude::*;
use crate::address::{IpAddress, SocketAddress};
use crate::config::Config;
use crate::protocol::{
    parse_remote, parse_remote_request, remote_request_text, LocalResponse, RemoteRequest,
    RemoteResponse,
};
use crate::text::crlf;

verus! {

/// Longest request line a responder reads: `PORT 65535` and its
/// terminator.
pub const PORT_LINE_LIMIT: u64 = 12;

/// Longest reply line an initiator reads.
pub const PORT_REPLY_LIMIT: u64 = 50;

/// Lowest port of the range tried once the ports above the wanted one are
/// taken.
pub const LOW_PORT_FLOOR: u16 = 3000;

/// The data port an initiator asks for: one above its own listener's port,
/// or 10 where that would wrap past the largest port.
pub open spec fn expected_port(port: u16) -> u16 {
    if port == u16::MAX {
        10
    } else {
        (port + 1) as u16
    }
}

pub fn checked_expected_port(port: u16) -> (r: u16)
    ensures
        r == expected_port(port),
{
    if port.wrapping_add(1) == 0 {
        port.wrapping_add(11)
    } else {
        port + 1
    }
}

/// The request an initiator whose listener has port `listener_port` opens
/// the handshake with.
pub fn port_request(listener_port: u16) -> (r: RemoteRequest)
    ensures
        r == RemoteRequest::PortCheck(expected_port(listener_port)),
{
    RemoteRequest::PortCheck(checked_expected_port(listener_port))
}

/// Where the initiator goes after the peer's answer.
#[derive(Clone, Copy, Debug, PartialEq, Eq, Structural)]
pub enum HandshakeOutcome {
    /// Tell the local client this and stop.
    Abort(LocalResponse),
    /// The answer was not understood: tell the local client, tell the peer
    /// (`UNEXPECTED_RESPONSE`), and stop.
    Unexpected,
    /// Stream the files to this address.
    Stream(SocketAddress),
}

pub open spec fn handshake_spec(peer: SocketAddress, line: Seq<u8>) -> HandshakeOutcome {
    match parse_remote(line) {
        Some(RemoteResponse::UnregisteredHost) => HandshakeOutcome::Abort(
            LocalResponse::RemoteUnregistered,
        ),
        Some(RemoteResponse::NoAvailablePort) => HandshakeOutcome::Abort(
            LocalResponse::RemoteNoAvailablePort,
        ),
        Some(RemoteResponse::PortConfirm(p)) => HandshakeOutcome::Stream(
            SocketAddress { ip: peer.ip, port: p },
        ),
        _ => HandshakeOutcome::Unexpected,
    }
}

/// Reads the peer's one answer to `PORT`; an empty line (the peer closed
/// the connection) is not understood either.
pub fn interpret_port_reply(peer: SocketAddress, line: &[u8]) -> (r: HandshakeOutcome)
    ensures
        r == handshake_spec(peer, line@),
{
    match RemoteResponse::parse(line) {
        Ok(RemoteResponse::UnregisteredHost) => HandshakeOutcome::Abort(
            LocalResponse::RemoteUnregistered,
        ),
        Ok(RemoteResponse::NoAvailablePort) => HandshakeOutcome::Abort(
            LocalResponse::RemoteNoAvailablePort,
        ),
        Ok(RemoteResponse::PortConfirm(p)) => HandshakeOutcome::Stream(
            SocketAddress { ip: peer.ip, port: p },
        ),
        _ => HandshakeOutcome::Unexpected,
    }
}

/// What the responder does with a peer's first line.
#[derive(Clone, Copy, Debug, PartialEq, Eq, Structural)]
pub enum PortDecision {
    /// Answer this and close.
    Reply(RemoteResponse),
    /// Find a free port, starting at this one.
    Allocate(u16),
}

pub open spec fn port_decision_spec(registered: bool, line: Seq<u8>) -> PortDecision {
    match parse_remote_request(line) {
        None => PortDecision::Reply(RemoteResponse::InvalidRequest),
        Some(RemoteRequest::PortCheck(p)) => if !registered {
            PortDecision::Reply(RemoteResponse::UnregisteredHost)
        } else {
            PortDecision::Allocate(p)
        },
    }
}

/// Decides on the first line from a peer whose IP is `peer_ip`: a line that
/// is not `PORT <port>` is an invalid request, a peer that is not
/// registered is refused, and otherwise a port is to be found.
pub fn decide_port_request(config: &Config, peer_ip: IpAddress, line: &[u8]) -> (r: PortDecision)
    ensures
        r == port_decision_spec(
            exists|k: Seq<u8>|
                #[trigger] config.reg_hosts@.contains_key(k) && config.reg_hosts@[k].ip == peer_ip,
            line@,
        ),
{
    match RemoteRequest::parse(line) {
        None => PortDecision::Reply(RemoteResponse::InvalidRequest),
        Some(RemoteRequest::PortCheck(p)) => {
            if !config.check_addr_registered(peer_ip) {
                PortDecision::Reply(RemoteResponse::UnregisteredHost)
            } else {
                PortDecision::Allocate(p)
            }
        },
    }
}

/// The responder's answer once the port search ended: the port actually
/// bound, or that none was free.
pub fn port_reply(bound: Option<u16>) -> (r: RemoteResponse)
    ensures
        r == (match bound {
            Some(p) => RemoteResponse::PortConfirm(p),
            None => RemoteResponse::NoAvailablePort,
        }),
{
    match bound {
        Some(p) => RemoteResponse::PortConfirm(p),
        None => RemoteResponse::NoAvailablePort,
    }
}

/// The request an initiator sends for port `p` makes a responder that knows
/// the sender search from `p`, and one that does not refuse it.
pub proof fn lemma_port_request_decision(p: u16)
    ensures
        port_decision_spec(true, remote_request_text(RemoteRequest::PortCheck(p)) + crlf())
            == PortDecision::Allocate(p),
        port_decision_spec(false, remote_request_text(RemoteRequest::PortCheck(p)) + crlf())
            == PortDecision::Reply(RemoteResponse::UnregisteredHost),
{
    crate::protocol::lemma_port_request_round_trip(p);
}

/// How many ports a search from `start` tries: `start` up to the largest
/// port, then from the floor up to below `start`.
pub open spec fn scan_len(start: u16) -> nat {
    (65536 - start) as nat + if start > LOW_PORT_FLOOR {
        (start - LOW_PORT_FLOOR) as nat
    } else {
        0
    }
}

/// The `i`-th port a search from `start` tries.
pub open spec fn scan_port(start: u16, i: nat) -> int {
    if i < 65536 - start {
        start + i
    } else {
        LOW_PORT_FLOOR + (i - (65536 - start))
    }
}

/// The order in which the responder tries ports, beginning at a hint.
#[derive(Clone, Copy, Debug)]
pub struct PortScan {
    start: u16,
    index: u32,
}

impl PortScan {
    pub closed spec fn start_port(&self) -> u16 {
        self.start
    }

    /// How many ports were handed out so far.
    pub closed spec fn tried(&self) -> nat {
        self.index as nat
    }

    pub fn new(start: u16) -> (r: PortScan)
        ensures
            r.start_port() == start,
            r.tried() == 0,
    {
        PortScan { start, index: 0 }
    }

    /// The next port to try, or `None` once every port of the search was
    /// handed out.
    pub fn next_port(&mut self) -> (r: Option<u16>)
        ensures
            final(self).start_port() == old(self).start_port(),
            old(self).tried() < scan_len(old(self).start_port()) ==> {
                &&& r == Some(scan_port(old(self).start_port(), old(self).tried()) as u16)
                &&& final(self).tried() == old(self).tried() + 1
            },
            old(self).tried() >= scan_len(old(self).start_port()) ==> r is None
                && final(self).tried() == old(self).tried(),
    {
        let high: u32 = 65536 - self.start as u32;
        let low: u32 = if self.start > LOW_PORT_FLOOR {
            (self.start - LOW_PORT_FLOOR) as u32
        } else {
            0
        };
        if self.index < high {
            let p = self.start as u32 + self.index;
            self.index = self.index + 1;
            Some(p as u16)
        } else if self.index < high + low {
            let p = LOW_PORT_FLOOR as u32 + (self.index - high);
            self.index = self.index + 1;
            Some(p as u16)
        } else {
            None
        }
    }
}

/// Position of the first port of a search from `start`, from the `i`-th on,
/// that is not in `taken`.
pub open spec fn first_free_from(start: u16, taken: Set<int>, i: nat) -> Option<int>
    decreases scan_len(start) - i,
{
    if i >= scan_len(start) {
        None
    } else if !taken.contains(scan_port(start, i)) {
        Some(scan_port(start, i))
    } else {
        first_free_from(start, taken, i + 1)
    }
}

/// The port a search from `start` binds when the ports in `taken` are in use.
pub open spec fn allocated_port(start: u16, taken: Set<int>) -> Option<int> {
    first_free_from(start, taken, 0)
}

/// Asking for a free port gets that port; asking for a port that is taken,
/// with the `k` ports after it taken too and the one after those free, gets
/// that next free port and never the one asked for.
pub proof fn lemma_port_negotiation(start: u16, taken: Set<int>, k: nat)
    ensures
        !taken.contains(start as int) ==> allocated_port(start, taken) == Some(start as int),
        (forall|j: nat| j <= k ==> #[trigger] taken.contains(start + j)) && start + k + 1
            <= u16::MAX && !taken.contains(start + k + 1) ==> {
            &&& allocated_port(start, taken) == Some(start + k + 1)
            &&& allocated_port(start, taken) != Some(start as int)
        },
{
    if (forall|j: nat| j <= k ==> #[trigger] taken.contains(start + j)) && start + k + 1
        <= u16::MAX && !taken.contains(start + k + 1) {
        lemma_first_free_run(start, taken, k, 0);
    }
}

proof fn lemma_first_free_run(start: u16, taken: Set<int>, k: nat, i: nat)
    requires
        i <= k + 1,
        forall|j: nat| j <= k ==> #[trigger] taken.contains(start + j),
        start + k + 1 <= u16::MAX,
        !taken.contains(start + k + 1),
    ensures
        first_free_from(start, taken, i) == Some(start + k + 1),
    decreases k + 1 - i,
{
    assert(scan_port(start, i) == start + i);
    if i < k + 1 {
        assert(taken.contains(start + i));
        lemma_first_free_run(start, taken, k, i + 1);
    }
}

/// Bounds how many connection handlers run at once: a new one starts
/// only while fewer than the configured number of workers are running.
#[derive(Debug)]
pub struct AdmissionGate {
    in_flight: usize,
}

impl AdmissionGate {
    pub closed spec fn running(&self) -> nat {
        self.in_flight as nat
    }

    pub fn new() -> (r: AdmissionGate)
        ensures
            r.running() == 0,
    {
        AdmissionGate { in_flight: 0 }
    }

    pub fn in_flight(&self) -> (r: usize)
        ensures
            r == self.running(),
    {
        self.in_flight
    }

    /// Whether a new handler may start with `num_workers` configured.
    pub fn has_room(&self, num_workers: u8) -> (r: bool)
        ensures
            r == (self.running() < num_workers),
    {
        self.in_flight < num_workers as usize
    }

    /// Starts a handler if the limit allows it; returns whether it did.
    pub fn try_enter(&mut self, num_workers: u8) -> (r: bool)
        ensures
            r == (old(self).running() < num_workers),
            final(self).running() == (if r {
                old(self).running() + 1
            } else {
                old(self).running()
            }),
            r ==> final(self).running() <= num_workers,
    {
        if self.in_flight < num_workers as usize {
            self.in_flight = self.in_flight + 1;
            true
        } else {
            false
        }
    }

    /// A handler finished, successfully or not.
    pub fn finish(&mut self)
        ensures
            final(self).running() == (if old(self).running() > 0 {
                old(self).running() - 1
            } else {
                0
            }),
    {
        if self.in_flight > 0 {
            self.in_flight = self.in_flight - 1;
        }
    }
}

/// An event at the admission gate.
#[derive(Clone, Copy, Debug, PartialEq, Eq, Structural)]
pub enum GateEvent {
    /// A connection asks to be handled.
    Arrive,
    /// A handler finished.
    Complete,
}

/// How many handlers run after each of `events`, starting from `running`,
/// with `limit` workers configured.
pub open spec fn gate_run(running: nat, limit: nat, events: Seq<GateEvent>) -> Seq<nat>
    decreases events.len(),
{
    if events.len() == 0 {
        Seq::empty()
    } else {
        let next = match events[0] {
            GateEvent::Arrive => if running < limit {
                running + 1
            } else {
                running
            },
            GateEvent::Complete => if running > 0 {
                (running - 1) as nat
            } else {
                0
            },
        };
        seq![next] + gate_run(next, limit, events.drop_first())
    }
}

/// However many connections arrive and in whatever order handlers finish,
/// no more handlers than the configured workers ever run at once.
pub proof fn lemma_gate_bound(running: nat, limit: nat, events: Seq<GateEvent>)
    requires
        running <= limit,
    ensures
        gate_run(running, limit, events).len() == events.len(),
        forall|i: int| 0 <= i < events.len() ==> #[trigger] gate_run(running, limit, events)[i] <= limit,
    decreases events.len(),
{
    if events.len() > 0 {
        let next = gate_run(running, limit, events)[0];
        lemma_gate_bound(next, limit, events.drop_first());
        assert forall|i: int| 0 <= i < events.len() implies #[trigger] gate_run(running, limit, events)[i] <= limit by {
            if i > 0 {
                assert(gate_run(running, limit, events)[i] == gate_run(next, limit, events.drop_first())[i - 1]);
            }
        }
    }
}

/// A finished handler always makes room for the next connection.
pub proof fn lemma_gate_room(running: nat, limit: nat)
    requires
        0 < running <= limit,
    ensures
        gate_run(running, limit, seq![GateEvent::Complete, GateEvent::Arrive]) == seq![
            (running - 1) as nat,
            running,
        ],
{
    let e = seq![GateEvent::Complete, GateEvent::Arrive];
    assert(e.drop_first() =~= seq![GateEvent::Arrive]);
    assert(seq![GateEvent::Arrive].drop_first() =~= Seq::<GateEvent>::empty());
    let one = seq![GateEvent::Arrive];
    assert(e[0] == GateEvent::Complete);
    assert(one[0] == GateEvent::Arrive);
    assert(gate_run(running, limit, Seq::<GateEvent>::empty()) == Seq::<nat>::empty());
    assert(gate_run((running - 1) as nat, limit, one) =~= seq![running]);
    assert(gate_run(running, limit, e) == seq![(running - 1) as nat] + gate_run(
        (running - 1) as nat,
        limit,
        one,
    ));
    assert(gate_run(running, limit, e) =~= seq![(running - 1) as nat, running]);
}

} // verus!
