use share_daemon::address::{IpAddress, SocketAddress};
use share_daemon::client::{reg_host, share_files, Client};
use share_daemon::error::IpcError;
use share_daemon::logging::{LogLevel, Logger, LoggerKind};
use share_daemon::protocol::{
    LocalCommand, LocalResponse, RemoteRequest, RemoteResponse, RequestCommand, Response,
    WriteLine,
};
use share_daemon::text::{parse_u64, parse_up_to, push_dec, trimmed};

#[test]
fn command_words() {
    assert_eq!(LocalCommand::Share.as_str(), "SHARE");
    assert_eq!(LocalCommand::Register.as_bytes(), b"REG");
    assert_eq!(RequestCommand::PortCheck.as_str(), "PORT");
    assert_eq!(RequestCommand::Local(LocalCommand::Share).as_str(), "SHARE");
}

#[test]
fn remote_responses_round_trip() {
    let all = [
        RemoteResponse::UnregisteredHost,
        RemoteResponse::NoAvailablePort,
        RemoteResponse::PortConfirm(65535),
        RemoteResponse::InvalidPort,
        RemoteResponse::FilesReceived(0),
        RemoteResponse::UnexpectedEndFlag(42),
        RemoteResponse::InvalidRequest,
    ];
    for r in all {
        let mut line = r.to_line();
        line.extend_from_slice(b"\r\n");
        assert_eq!(RemoteResponse::parse(&line), Ok(r));
    }
    assert_eq!(RemoteResponse::parse(b"  PORT_CONFIRM +7 \n"), Ok(RemoteResponse::PortConfirm(7)));
    assert_eq!(RemoteResponse::parse(b"PORT_CONFIRM 65536"), Err(Response::UnexpectedResponse));
    assert_eq!(RemoteResponse::parse(b""), Err(Response::UnexpectedResponse));
    assert_eq!(RemoteResponse::UnregisteredHost.to_str_unchecked(), "UNREGISTERED_HOST");
    assert_eq!(RemoteResponse::PortConfirm(1).to_str_unchecked(), "");
}

#[test]
fn remote_requests() {
    assert_eq!(RemoteRequest::parse(b"PORT 10021\r\n"), Some(RemoteRequest::PortCheck(10021)));
    assert_eq!(RemoteRequest::parse(b"PORT\r\n"), None);
    assert_eq!(RemoteRequest::parse(b"PORT -1\r\n"), None);
    assert_eq!(RemoteRequest::PortCheck(3000).to_line(), b"PORT 3000".to_vec());
}

#[test]
fn local_reply_lines() {
    let v4 = SocketAddress { ip: IpAddress::V4(u32::from_be_bytes([192, 168, 3, 40])), port: 10020 };
    assert_eq!(LocalResponse::UnreachableAddress(v4).to_line(), b"UNREACHABLE_ADDRESS 192.168.3.40:10020".to_vec());
    let v6 = SocketAddress { ip: IpAddress::V6(1, 0), port: 80 };
    assert_eq!(LocalResponse::ReplacedAddress(v6).to_line(), b"REPLACED [::1]:80".to_vec());
    let v6b = SocketAddress { ip: IpAddress::V6(0x2001_0db8_0000_0000_0000_0000_0000_ff00, 0), port: 1 };
    assert_eq!(LocalResponse::ReplacedAddress(v6b).to_line(), b"REPLACED [2001:db8::ff00]:1".to_vec());
    assert_eq!(LocalResponse::UnregisteredHostname.to_line(), b"UNREGISTERED_HOSTNAME".to_vec());
    assert_eq!(LocalResponse::AnyPathInvalid.to_str_unchecked(), "ANY_PATH_INVALID");
    assert_eq!(LocalResponse::FilesSucceeded(2).to_str_unchecked(), "");
    assert_eq!(Response::UnexpectedResponse.to_line(), b"UNEXPECTED_RESPONSE".to_vec());
    assert_eq!(Response::Remote(RemoteResponse::InvalidRequest).to_str_unchecked(), "INVALID_REQUEST");
    assert_eq!(Response::Local(LocalResponse::RegisterSucceeded).to_line(), b"REG_SUCCEEDED".to_vec());
}

#[test]
fn write_line_appends_terminator() {
    let mut out: Vec<u8> = b"A".to_vec();
    out.write_line(b"REG_SUCCEEDED");
    assert_eq!(out, b"AREG_SUCCEEDED\r\n".to_vec());
}

#[test]
fn numbers_read_like_std() {
    assert_eq!(parse_u64(b"0"), Some(0));
    assert_eq!(parse_u64(b"+5"), Some(5));
    assert_eq!(parse_u64(b"+"), None);
    assert_eq!(parse_u64(b""), None);
    assert_eq!(parse_u64(b"-1"), None);
    assert_eq!(parse_u64(b"18446744073709551615"), Some(u64::MAX));
    assert_eq!(parse_u64(b"18446744073709551616"), None);
    assert_eq!(parse_u64(b"99999999999999999999x"), None);
    assert_eq!(parse_up_to(b"65535", 65535), Some(65535));
    assert_eq!(parse_up_to(b"65536", 65535), None);
    let mut out = Vec::new();
    push_dec(&mut out, 1234567890);
    assert_eq!(out, b"1234567890".to_vec());
    assert_eq!(trimmed(b" \t x y \r\n"), b"x y".to_vec());
    assert_eq!(trimmed(b" \r\n"), Vec::<u8>::new());
}

#[test]
fn client_requests() {
    let paths = vec![b"/a".to_vec(), b"/b c".to_vec()];
    assert_eq!(share_files(b"peer", &paths), b"SHARE peer\r\n/a\r\n/b c\r\n\r\n".to_vec());
    assert_eq!(reg_host(b"myhost", b"1.1.1.1:80"), b"REG myhost:1.1.1.1:80\r\n".to_vec());
    let mut c = Client::new();
    assert!(c.paths().is_empty());
    c.push_path(b"/x".to_vec());
    assert_eq!(c.share_request(b"h"), b"SHARE h\r\n/x\r\n\r\n".to_vec());
}

#[test]
fn logger_filters_and_formats() {
    let l = Logger::console_logger();
    assert_eq!(l.kind, LoggerKind::ConsoleLogger);
    assert_eq!(l.warn(b"disk full", b"12:00:00"), Some(b"[WARN]-[12:00:00]: disk full".to_vec()));
    assert_eq!(l.debug(b"x", b"t"), None);
    assert_eq!(l.verbose(b"x", b"t"), None);
    assert_eq!(l.info(b"up", b"t"), Some(b"[INFO]-[t]: up".to_vec()));
    assert_eq!(l.error(b"e", b"t"), Some(b"[ERROR]-[t]: e".to_vec()));
    assert_eq!(Logger::no_logger().error(b"e", b"t"), None);
    assert_eq!(Logger::file_logger().level, LogLevel::Info);
    let chatty = Logger { level: LogLevel::Verbose, kind: LoggerKind::FileLogger };
    assert!(chatty.enabled(LogLevel::Verbose));
    assert_eq!(LogLevel::Off.name(), "");
}

#[test]
fn ipc_error_message() {
    let e = IpcError::AddrInUse(b"share.sock".to_vec());
    assert_eq!(
        String::from_utf8(e.message()).unwrap(),
        "Could not start server because the socket file is occupied. Please check if share.sock is in use by another process and try again."
    );
}

fn v6_line(groups: [u16; 8], scope: u32, port: u16) -> String {
    let mut ip: u128 = 0;
    for g in groups {
        ip = (ip << 16) | g as u128;
    }
    let a = SocketAddress { ip: IpAddress::V6(ip, scope), port };
    String::from_utf8(LocalResponse::UnreachableAddress(a).to_line()).unwrap()
}

#[test]
fn ipv6_short_form() {
    assert_eq!(v6_line([0; 8], 0, 0), "UNREACHABLE_ADDRESS [::]:0");
    assert_eq!(v6_line([1, 0, 0, 2, 0, 0, 3, 4], 0, 5), "UNREACHABLE_ADDRESS [1::2:0:0:3:4]:5");
    assert_eq!(v6_line([1, 0, 0, 2, 0, 0, 0, 3], 0, 5), "UNREACHABLE_ADDRESS [1:0:0:2::3]:5");
    assert_eq!(v6_line([1, 0, 2, 3, 4, 5, 6, 7], 0, 5), "UNREACHABLE_ADDRESS [1:0:2:3:4:5:6:7]:5");
    assert_eq!(v6_line([1, 2, 3, 4, 5, 6, 7, 0], 0, 5), "UNREACHABLE_ADDRESS [1:2:3:4:5:6:7:0]:5");
    assert_eq!(v6_line([0xfe80, 0, 0, 0, 0, 0, 0, 1], 3, 80), "UNREACHABLE_ADDRESS [fe80::1%3]:80");
    assert_eq!(v6_line([0xABCD, 0xef, 0, 0, 0, 0, 0, 0], 0, 1), "UNREACHABLE_ADDRESS [abcd:ef::]:1");
    assert_eq!(
        v6_line([0, 0, 0, 0, 0, 0xffff, 0xc0a8, 0x0001], 0, 80),
        "UNREACHABLE_ADDRESS [::ffff:192.168.0.1]:80"
    );
}
