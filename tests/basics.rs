use share_daemon::local::{LocalRequest};
use share_daemon::text::{bounded_line_len, split_two_arg};

#[test]
fn take_test() {
    let cursor = "
smdfangoenad,mfne
;snmalgk;
as;dioweop23904
34h34opwefklasqw
32945naldf23
94bnsl94
";
    let data = cursor.as_bytes();
    let n = bounded_line_len(data, 4);
    let line = String::from_utf8(data[..n].to_vec()).unwrap();
    assert_eq!(line, "\n");
    let rest = &data[n..];
    let m = bounded_line_len(rest, 4);
    assert_eq!(&rest[..m], "smdf".as_bytes());
}

#[test]
fn size_hint_test() {
    let s = "REG myhost:1.1.1.1";
    let pair = split_two_arg(s.as_bytes());
    let pair_size = match pair {
        Some((a, b)) => vec![a, b].len(),
        None => 1,
    };
    assert_eq!(2_usize, pair_size);
    assert_eq!(split_two_arg(b"a b c"), None);
    assert_eq!(split_two_arg(b"ab"), None);
    match LocalRequest::parse(s.as_bytes()) {
        LocalRequest::Register { hostname, address } => {
            assert_eq!(hostname, b"myhost".to_vec());
            assert_eq!(address, b"1.1.1.1".to_vec());
        }
        other => panic!("unexpected request {:?}", other),
    }
}

#[derive(Debug, PartialEq)]
struct Example(i32, i32);

impl Example {
    fn set_value(&mut self) {
        mod_v1(&mut self.1, 4096);
        print_v1(&self.1);
        mod_v1(&mut self.0, 2048);
        print_v1(&self.0);
    }
}

fn print_v1(p_v1: &i32) {
    println!("v1 = {}", *p_v1)
}

fn mod_v1(p_v1: &mut i32, new_v: i32) {
    *p_v1 = new_v
}

#[test]
fn unsafe_test() {
    let mut v1 = 1020;
    mod_v1(&mut v1, 150);
    assert_eq!(v1, 150);
    print_v1(&v1);

    mod_v1(&mut v1, 2560);
    assert_eq!(v1, 2560);
    print_v1(&v1);
}

#[test]
fn scoped_addr_test() {
    let mut e = Example(10, 20);
    e.set_value();
    assert_eq!(e, Example(2048, 4096));
}
