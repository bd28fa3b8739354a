use share_daemon::address::{IpAddress, SocketAddress};
use share_daemon::config::Config;
use share_daemon::handshake::{
    checked_expected_port, decide_port_request, interpret_port_reply, port_reply, port_request,
    AdmissionGate, HandshakeOutcome, PortDecision, PortScan,
};
use share_daemon::protocol::{LocalResponse, RemoteResponse};

fn ip(a: u8, b: u8, c: u8, d: u8) -> IpAddress {
    IpAddress::V4(u32::from_be_bytes([a, b, c, d]))
}

#[test]
fn expected_port_wraps() {
    assert_eq!(checked_expected_port(10020), 10021);
    assert_eq!(checked_expected_port(0), 1);
    assert_eq!(checked_expected_port(65534), 65535);
    assert_eq!(checked_expected_port(65535), 10);
    assert_eq!(port_request(10020).to_line(), b"PORT 10021".to_vec());
}

#[test]
fn initiator_reads_answers() {
    let peer = SocketAddress { ip: ip(10, 0, 0, 2), port: 10020 };
    assert_eq!(
        interpret_port_reply(peer, b"UNREGISTERED_HOST\r\n"),
        HandshakeOutcome::Abort(LocalResponse::RemoteUnregistered)
    );
    assert_eq!(
        interpret_port_reply(peer, b"NO_AVAILABLE_PORT\r\n"),
        HandshakeOutcome::Abort(LocalResponse::RemoteNoAvailablePort)
    );
    assert_eq!(
        interpret_port_reply(peer, b"PORT_CONFIRM 10023\r\n"),
        HandshakeOutcome::Stream(SocketAddress { ip: ip(10, 0, 0, 2), port: 10023 })
    );
    assert_eq!(interpret_port_reply(peer, b"PORT_CONFIRM 70000\r\n"), HandshakeOutcome::Unexpected);
    assert_eq!(interpret_port_reply(peer, b"PORT_CONFIRM\r\n"), HandshakeOutcome::Unexpected);
    assert_eq!(interpret_port_reply(peer, b"HELLO\r\n"), HandshakeOutcome::Unexpected);
    assert_eq!(interpret_port_reply(peer, b""), HandshakeOutcome::Unexpected);
}

#[test]
fn responder_decides() {
    let mut c = Config::with_receive_dir("/tmp".to_string());
    c.register_host(b"friend", SocketAddress { ip: ip(10, 0, 0, 2), port: 10020 });
    assert_eq!(decide_port_request(&c, ip(10, 0, 0, 2), b"PORT 10021\r\n"), PortDecision::Allocate(10021));
    assert_eq!(
        decide_port_request(&c, ip(10, 0, 0, 3), b"PORT 10021\r\n"),
        PortDecision::Reply(RemoteResponse::UnregisteredHost)
    );
    assert_eq!(
        decide_port_request(&c, ip(10, 0, 0, 2), b"PORT abc\r\n"),
        PortDecision::Reply(RemoteResponse::InvalidRequest)
    );
    assert_eq!(
        decide_port_request(&c, ip(10, 0, 0, 2), b"GET /\r\n"),
        PortDecision::Reply(RemoteResponse::InvalidRequest)
    );
    assert_eq!(port_reply(Some(10021)).to_line(), b"PORT_CONFIRM 10021".to_vec());
    assert_eq!(port_reply(None).to_line(), b"NO_AVAILABLE_PORT".to_vec());
}

/// The port a search binds when the ports in `taken` are in use.
fn negotiate(start: u16, taken: impl Fn(u16) -> bool) -> RemoteResponse {
    let mut scan = PortScan::new(start);
    let mut bound = None;
    while let Some(p) = scan.next_port() {
        if !taken(p) {
            bound = Some(p);
            break;
        }
    }
    port_reply(bound)
}

#[test]
fn port_negotiation_prefers_requested_port() {
    assert_eq!(negotiate(10021, |_| false), RemoteResponse::PortConfirm(10021));
    assert_eq!(
        negotiate(10021, |p| (10021..=10023).contains(&p)),
        RemoteResponse::PortConfirm(10024)
    );
    assert_eq!(negotiate(10021, |p| p >= 10021), RemoteResponse::PortConfirm(3000));
    assert_eq!(negotiate(10021, |_| true), RemoteResponse::NoAvailablePort);
}

#[test]
fn port_scan_order() {
    let mut scan = PortScan::new(65534);
    assert_eq!(scan.next_port(), Some(65534));
    assert_eq!(scan.next_port(), Some(65535));
    assert_eq!(scan.next_port(), Some(3000));
    let mut low = PortScan::new(10);
    let mut n = 0;
    while low.next_port().is_some() {
        n += 1;
    }
    assert_eq!(n, 65526);
    assert_eq!(low.next_port(), None);
}

#[test]
fn admission_gate_bounds_running_handlers() {
    let workers: u8 = 4;
    let mut gate = AdmissionGate::new();
    let mut waiting = workers as usize + 5;
    let mut served = 0;
    let mut max_seen = 0;
    while served < workers as usize + 5 {
        while waiting > 0 && gate.try_enter(workers) {
            waiting -= 1;
            max_seen = max_seen.max(gate.in_flight());
        }
        assert!(gate.in_flight() <= workers as usize);
        gate.finish();
        served += 1;
    }
    assert_eq!(max_seen, workers as usize);
    assert_eq!(waiting, 0);
    assert_eq!(gate.in_flight(), 0);
    assert!(gate.has_room(workers));
    gate.finish();
    assert_eq!(gate.in_flight(), 0);
}
