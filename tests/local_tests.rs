use share_daemon::address::{IpAddress, SocketAddress};
use share_daemon::config::Config;
use share_daemon::local::{LocalAction, LocalHandler, Stage, FILE_PATH_LIMIT, FIRST_LINE_LIMIT};
use share_daemon::protocol::LocalResponse;

fn peer() -> SocketAddress {
    SocketAddress { ip: IpAddress::V4(u32::from_be_bytes([192, 168, 3, 40])), port: 10020 }
}

fn config_with_peer() -> Config {
    let mut c = Config::with_receive_dir("/tmp".to_string());
    c.register_host(b"peer", peer());
    c
}

#[test]
fn share_unregistered_hostname_replies_and_never_shares() {
    let c = config_with_peer();
    let (mut h, first) = LocalHandler::new();
    assert_eq!(first, LocalAction::ReadLine(FIRST_LINE_LIMIT));
    let a = h.on_line(&c, b"SHARE nobody\r\n");
    assert_eq!(a, LocalAction::Reply(LocalResponse::UnregisteredHostname));
    assert_eq!(h.stage(), Stage::Done);
    assert_eq!(h.on_line(&c, b"/etc/hosts\r\n"), LocalAction::Close);
    assert_eq!(h.on_path_checked(true), LocalAction::Close);
}

#[test]
fn share_second_path_invalid_aborts_before_any_transfer() {
    let c = config_with_peer();
    let (mut h, _) = LocalHandler::new();
    assert_eq!(h.on_line(&c, b"SHARE peer\r\n"), LocalAction::ReadLine(FILE_PATH_LIMIT));
    assert_eq!(h.on_line(&c, b"/tmp/a.txt\r\n"), LocalAction::CheckPath);
    assert_eq!(h.pending(), b"/tmp/a.txt");
    assert_eq!(h.on_path_checked(true), LocalAction::ReadLine(FILE_PATH_LIMIT));
    assert_eq!(h.on_line(&c, b"/tmp/missing\r\n"), LocalAction::CheckPath);
    assert_eq!(h.on_path_checked(false), LocalAction::Reply(LocalResponse::AnyPathInvalid));
    assert_eq!(h.on_line(&c, b"\r\n"), LocalAction::Close);
}

#[test]
fn share_valid_paths_hands_over_to_handshake() {
    let c = config_with_peer();
    let (mut h, _) = LocalHandler::new();
    h.on_line(&c, b"SHARE peer\r\n");
    h.on_line(&c, b"  /tmp/a.txt \r\n");
    assert_eq!(h.pending(), b"/tmp/a.txt");
    h.on_path_checked(true);
    h.on_line(&c, b"/tmp/b.txt\r\n");
    h.on_path_checked(true);
    assert_eq!(h.on_line(&c, b"\r\n"), LocalAction::Share(peer()));
    assert_eq!(h.paths().clone(), vec![b"/tmp/a.txt".to_vec(), b"/tmp/b.txt".to_vec()]);
}

#[test]
fn share_stops_at_four_paths() {
    let c = config_with_peer();
    let (mut h, _) = LocalHandler::new();
    h.on_line(&c, b"SHARE peer\r\n");
    for i in 0..4 {
        h.on_line(&c, format!("/f{}\r\n", i).as_bytes());
        let a = h.on_path_checked(true);
        if i < 3 {
            assert_eq!(a, LocalAction::ReadLine(FILE_PATH_LIMIT));
        } else {
            assert_eq!(a, LocalAction::Share(peer()));
        }
    }
    assert_eq!(h.paths().len(), 4);
}

#[test]
fn share_without_paths_is_invalid() {
    let c = config_with_peer();
    let (mut h, _) = LocalHandler::new();
    h.on_line(&c, b"SHARE peer\r\n");
    assert_eq!(h.on_line(&c, b""), LocalAction::Reply(LocalResponse::InvalidRequest));
}

#[test]
fn register_flow_replies() {
    let mut c = Config::with_receive_dir("/tmp".to_string());
    let (mut h, _) = LocalHandler::new();
    assert_eq!(h.on_line(&c, b"REG myhost:1.1.1.1:80\r\n"), LocalAction::ParseAddress);
    assert_eq!(h.pending(), b"1.1.1.1:80");
    let first = SocketAddress { ip: IpAddress::V4(0x01010101), port: 80 };
    assert_eq!(h.on_address(&mut c, Some(first)), LocalAction::Persist);
    assert_eq!(c.get_addr_by_name(b"myhost"), Some(first));
    assert_eq!(h.on_persisted(true), LocalAction::Reply(LocalResponse::RegisterSucceeded));

    let second = SocketAddress { ip: IpAddress::V4(0x02020202), port: 81 };
    let (mut h, _) = LocalHandler::new();
    h.on_line(&c, b"REG myhost:2.2.2.2:81\r\n");
    h.on_address(&mut c, Some(second));
    let reply = h.on_persisted(true);
    assert_eq!(reply, LocalAction::Reply(LocalResponse::ReplacedAddress(first)));
    match reply {
        LocalAction::Reply(r) => assert_eq!(r.to_line(), b"REPLACED 1.1.1.1:80".to_vec()),
        _ => unreachable!(),
    }
    assert_eq!(c.get_addr_by_name(b"myhost"), Some(second));
}

#[test]
fn register_failures() {
    let mut c = Config::with_receive_dir("/tmp".to_string());
    let (mut h, _) = LocalHandler::new();
    assert_eq!(
        h.on_line(&c, b"REG abcdefghijklmnopqrstu:1.1.1.1:80\r\n"),
        LocalAction::Reply(LocalResponse::InvalidHostname)
    );
    let (mut h, _) = LocalHandler::new();
    h.on_line(&c, b"REG x:not-an-address\r\n");
    assert_eq!(h.on_address(&mut c, None), LocalAction::Reply(LocalResponse::InvalidRequest));
    assert_eq!(c.reg_hosts.len(), 0);
    let (mut h, _) = LocalHandler::new();
    h.on_line(&c, b"REG x:1.1.1.1:1\r\n");
    h.on_address(&mut c, Some(SocketAddress { ip: IpAddress::V4(0x01010101), port: 1 }));
    assert_eq!(h.on_persisted(false), LocalAction::Reply(LocalResponse::LocalRegisterFailed));
}

#[test]
fn invalid_first_lines() {
    let c = config_with_peer();
    for line in [
        &b""[..],
        b"SHARE",
        b"HELLO peer",
        b"REG nohostsep",
        b"\r\n",
        b"SHARE peer extra\r\n",
        b"REG x:1.1.1.1:80 extra\r\n",
    ] {
        let (mut h, _) = LocalHandler::new();
        assert_eq!(h.on_line(&c, line), LocalAction::Reply(LocalResponse::InvalidRequest));
    }
}
