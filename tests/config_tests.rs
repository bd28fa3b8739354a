use share_daemon::address::{IpAddress, SocketAddress};
use share_daemon::config::{
    check_hostname_valid, fallback_listener, Config, ConfigStore, HostRegistry, LastModified, Reconcile,
    DEFAULT_NUM_WORKERS,
};

fn v4(a: u8, b: u8, c: u8, d: u8, port: u16) -> SocketAddress {
    SocketAddress {
        ip: IpAddress::V4(u32::from_be_bytes([a, b, c, d])),
        port,
    }
}

/// What the codec does when the record is written and read back: the
/// same fields, the same entries in the same order.
fn round_trip(c: &Config) -> Config {
    let mut back = Config::with_receive_dir(c.receive_dir().to_string());
    back.set_listener_addr(c.listener_addr());
    back.num_workers = c.num_workers();
    back.set_ipc_socket_name(c.ipc_socket_name().to_string());
    for i in 0..c.reg_hosts.len() {
        let (name, addr) = c.reg_hosts.entry(i);
        back.register_host(&name, addr);
    }
    back
}

#[test]
fn register_twice_returns_previous_address() {
    let mut c = Config::with_receive_dir("/tmp/recv".to_string());
    let first = v4(192, 168, 3, 44, 19920);
    let second = v4(192, 168, 3, 121, 19920);
    assert_eq!(c.register_host(b"myhost1", first), None);
    assert_eq!(c.register_host(b"myhost1", second), Some(first));
    assert_eq!(c.get_addr_by_name(b"myhost1"), Some(second));
    assert_eq!(c.reg_hosts.len(), 1);
}

#[test]
fn registry_keeps_other_names() {
    let mut r = HostRegistry::new();
    r.insert(b"a", v4(1, 1, 1, 1, 1));
    r.insert(b"b", v4(2, 2, 2, 2, 2));
    r.insert(b"a", v4(3, 3, 3, 3, 3));
    assert_eq!(r.get(b"b"), Some(v4(2, 2, 2, 2, 2)));
    assert_eq!(r.get(b"a"), Some(v4(3, 3, 3, 3, 3)));
    assert_eq!(r.get(b"c"), None);
    assert_eq!(r.entry(0).0, b"a".to_vec());
    assert!(r.contains_ip(IpAddress::V4(u32::from_be_bytes([2, 2, 2, 2]))));
    assert!(!r.contains_ip(IpAddress::V4(u32::from_be_bytes([1, 1, 1, 1]))));
}

#[test]
fn register_persist_reload_round_trips() {
    let mut c = Config::with_receive_dir("/tmp/recv".to_string());
    c.register_host(b"myhost2", v4(192, 168, 3, 121, 19920));
    c.register_host(b"myhostdngjiyhbvad", v4(192, 179, 2, 110, 10020));
    c.register_host(b"h", v4(10, 0, 0, 1, 80));
    let reloaded = round_trip(&c);
    let (ok, repaired) = reloaded.checked(true, "/tmp/fallback".to_string());
    assert!(ok);
    assert_eq!(repaired.get_addr_by_name(b"myhostdngjiyhbvad"), Some(v4(192, 179, 2, 110, 10020)));
    assert_eq!(repaired.get_addr_by_name(b"h"), Some(v4(10, 0, 0, 1, 80)));
    assert_eq!(repaired.get_addr_by_name(b"myhost2"), Some(v4(192, 168, 3, 121, 19920)));
}

#[test]
fn checked_repairs_worker_count() {
    for (n, expect_ok, expect) in [(0u8, false, DEFAULT_NUM_WORKERS), (121, false, 5), (255, false, 5), (1, true, 1), (120, true, 120), (50, true, 50)] {
        let mut c = Config::with_receive_dir("/tmp/recv".to_string());
        c.num_workers = n;
        let (ok, r) = c.checked(true, "/tmp/fallback".to_string());
        assert_eq!(ok, expect_ok, "workers {}", n);
        assert_eq!(r.num_workers(), expect);
    }
    assert_eq!(Config::check_num_workers(0), (false, 5));
    assert_eq!(Config::check_num_workers(7), (true, 7));
}

#[test]
fn checked_repairs_receive_dir_and_hostnames() {
    let mut c = Config::with_receive_dir("/no/such/dir".to_string());
    c.register_host(b"abcdefghijklmnopqrstuvwxyz", v4(1, 2, 3, 4, 5));
    c.register_host(b"", v4(9, 9, 9, 9, 9));
    c.register_host(b"ok", v4(4, 3, 2, 1, 0));
    let (ok, r) = c.checked(false, "/home/u/Downloads".to_string());
    assert!(!ok);
    assert_eq!(r.receive_dir(), "/home/u/Downloads");
    assert_eq!(r.get_addr_by_name(b"abcdefghijklmnopqrst"), Some(v4(1, 2, 3, 4, 5)));
    assert_eq!(r.get_addr_by_name(b"abcdefghijklmnopqrstuvwxyz"), None);
    assert_eq!(r.get_addr_by_name(b""), None);
    assert_eq!(r.get_addr_by_name(b"ok"), Some(v4(4, 3, 2, 1, 0)));
    assert_eq!(r.reg_hosts.len(), 2);
}

#[test]
fn hostname_length_rule() {
    assert!(!check_hostname_valid(b""));
    assert!(check_hostname_valid(b"a"));
    assert!(check_hostname_valid(&[b'x'; 20]));
    assert!(!check_hostname_valid(&[b'x'; 21]));
}

#[test]
fn default_record() {
    let c = Config::with_receive_dir("/d".to_string());
    assert_eq!(c.listener_addr(), v4(0, 0, 0, 0, 10020));
    assert_eq!(c.num_workers(), 5);
    assert_eq!(c.ipc_socket_name(), "share.sock");
    assert_eq!(c.reg_hosts.len(), 0);
}

#[test]
fn setters_apply_rules() {
    let mut c = Config::with_receive_dir("/d".to_string());
    c.set_num_workers(0);
    assert_eq!(c.num_workers(), 5);
    c.set_num_workers(9);
    assert_eq!(c.num_workers(), 9);
    c.set_listener_port(4000);
    assert_eq!(c.listener_addr(), v4(0, 0, 0, 0, 4000));
    c.set_listener_ip(IpAddress::V4(u32::from_be_bytes([127, 0, 0, 1])));
    assert_eq!(c.listener_addr(), v4(127, 0, 0, 1, 4000));
    c.set_receive_dir("/bad".to_string(), false, "/fallback".to_string());
    assert_eq!(c.receive_dir(), "/fallback");
    c.set_receive_dir("/good".to_string(), true, "/fallback".to_string());
    assert_eq!(c.receive_dir(), "/good");
}

#[test]
fn store_reconcile_decisions() {
    let mut s = ConfigStore::new(Config::with_receive_dir("/d".to_string()), "/c.toml".to_string());
    assert_eq!(s.reconcile_action(Some(5)), Reconcile::WriteOut);
    s.saved(Some(5));
    assert_eq!(s.last_modified, LastModified::LastModTime(5));
    assert_eq!(s.reconcile_action(Some(5)), Reconcile::UpToDate);
    assert_eq!(s.reconcile_action(Some(6)), Reconcile::Reload);
    assert_eq!(s.reconcile_action(None), Reconcile::Reload);
    s.saved(None);
    assert_eq!(s.reconcile_action(Some(6)), Reconcile::WriteOut);
}

#[test]
fn store_load_outcomes() {
    let mut s = ConfigStore::new(Config::with_receive_dir("/d".to_string()), "/c.toml".to_string());
    assert!(s.load(None, true, "/dl".to_string()));
    assert_eq!(s.config().receive_dir(), "/dl");
    assert_eq!(s.config().num_workers(), 5);

    let mut good = Config::with_receive_dir("/r".to_string());
    good.num_workers = 8;
    assert!(!s.load(Some(good), true, "/dl".to_string()));
    assert_eq!(s.config().num_workers(), 8);

    let mut bad = Config::with_receive_dir("/r".to_string());
    bad.num_workers = 0;
    assert!(s.load(Some(bad), true, "/dl".to_string()));
    assert_eq!(s.config().num_workers(), 5);

    assert_eq!(s.register_host(b"x", v4(1, 1, 1, 1, 1)), None);
    assert_eq!(s.register_host(b"x", v4(2, 2, 2, 2, 2)), Some(v4(1, 1, 1, 1, 1)));
}

#[test]
fn listener_fallback_rule() {
    let custom = v4(127, 0, 0, 1, 9000);
    assert_eq!(fallback_listener(custom), Some(v4(0, 0, 0, 0, 10020)));
    assert_eq!(fallback_listener(v4(0, 0, 0, 0, 10020)), None);
}
