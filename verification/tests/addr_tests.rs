use flowgate::addr::{
    binary_rest, parse_text, read_binary, to_text, write_binary, write_text, ClientAddr,
};

fn as_text(addr: ClientAddr) -> String {
    String::from_utf8(to_text(&addr)).unwrap()
}

fn v6(groups: [u16; 8], port: u16) -> ClientAddr {
    let mut ip = [0u8; 16];
    for (i, g) in groups.iter().enumerate() {
        ip[2 * i] = (g >> 8) as u8;
        ip[2 * i + 1] = (g & 0xff) as u8;
    }
    ClientAddr::V6(ip, port)
}

#[test]
fn accessors() {
    let a = ClientAddr::V4([1, 2, 3, 4], 80);
    assert!(a.is_ipv4());
    assert_eq!(a.port(), 80);
    let b = v6([0, 0, 0, 0, 0, 0, 0, 1], 443);
    assert!(!b.is_ipv4());
    assert_eq!(b.port(), 443);
}

#[test]
fn binary_form_of_ipv4() {
    let mut out = vec![0xAA];
    write_binary(&mut out, &ClientAddr::V4([198, 51, 100, 9], 40000));
    assert_eq!(out, vec![0xAA, 0x01, 0xC6, 0x33, 0x64, 0x09, 0x9C, 0x40]);
}

#[test]
fn binary_form_of_ipv6() {
    let addr = v6([0x2001, 0xdb8, 0, 0, 0, 0, 0, 1], 0x1234);
    let mut out = Vec::new();
    write_binary(&mut out, &addr);
    assert_eq!(out.len(), 19);
    assert_eq!(out[0], 0x02);
    assert_eq!(&out[1..5], &[0x20, 0x01, 0x0d, 0xb8]);
    assert_eq!(out[16], 1);
    assert_eq!(&out[17..], &[0x12, 0x34]);
}

#[test]
fn binary_form_is_read_back() {
    for addr in [
        ClientAddr::V4([0, 0, 0, 0], 0),
        ClientAddr::V4([255, 255, 255, 255], 65535),
        ClientAddr::V4([198, 51, 100, 9], 40000),
        v6([0xffff; 8], 65535),
        v6([0x2001, 0xdb8, 0, 0, 0, 0, 0, 1], 256),
    ] {
        let mut out = Vec::new();
        write_binary(&mut out, &addr);
        assert_eq!(binary_rest(out[0]), Some(out.len() - 1));
        assert_eq!(read_binary(out[0], &out[1..]), Some(addr));
    }
}

#[test]
fn binary_form_with_a_wrong_tag_or_length() {
    assert_eq!(binary_rest(1), Some(6));
    assert_eq!(binary_rest(2), Some(18));
    assert_eq!(binary_rest(0), None);
    assert_eq!(binary_rest(3), None);
    assert_eq!(read_binary(0, &[1, 2, 3, 4, 0, 80]), None);
    assert_eq!(read_binary(1, &[1, 2, 3, 4, 0]), None);
    assert_eq!(read_binary(1, &[0; 18]), None);
    assert_eq!(read_binary(2, &[0; 6]), None);
    assert_eq!(read_binary(1, &[1, 2, 3, 4, 0, 80]), Some(ClientAddr::V4([1, 2, 3, 4], 80)));
}

#[test]
fn text_of_ipv4() {
    assert_eq!(as_text(ClientAddr::V4([203, 0, 113, 7], 55555)), "203.0.113.7:55555");
    assert_eq!(as_text(ClientAddr::V4([0, 0, 0, 0], 0)), "0.0.0.0:0");
    assert_eq!(as_text(ClientAddr::V4([255, 255, 255, 255], 65535)), "255.255.255.255:65535");
    assert_eq!(as_text(ClientAddr::V4([10, 100, 9, 99], 8080)), "10.100.9.99:8080");
}

#[test]
fn text_of_ipv6() {
    assert_eq!(as_text(v6([0, 0, 0, 0, 0, 0, 0, 0], 80)), "[::]:80");
    assert_eq!(as_text(v6([0, 0, 0, 0, 0, 0, 0, 1], 80)), "[::1]:80");
    assert_eq!(as_text(v6([0x2001, 0xdb8, 0, 0, 0, 0, 0, 1], 443)), "[2001:db8::1]:443");
    assert_eq!(as_text(v6([1, 0, 0, 0, 0, 0, 0, 0], 1)), "[1::]:1");
    assert_eq!(as_text(v6([1, 2, 3, 4, 5, 6, 7, 8], 1)), "[1:2:3:4:5:6:7:8]:1");
    assert_eq!(as_text(v6([1, 0, 3, 4, 5, 6, 7, 8], 1)), "[1:0:3:4:5:6:7:8]:1");
    assert_eq!(as_text(v6([1, 0, 0, 4, 5, 0, 0, 8], 1)), "[1::4:5:0:0:8]:1");
    assert_eq!(as_text(v6([1, 0, 0, 4, 0, 0, 0, 8], 1)), "[1:0:0:4::8]:1");
    assert_eq!(as_text(v6([0, 0, 3, 0, 0, 0, 7, 8], 1)), "[0:0:3::7:8]:1");
    assert_eq!(as_text(v6([0xfe80, 0, 0, 0, 0xabcd, 0xef, 0xf, 0], 1)), "[fe80::abcd:ef:f:0]:1");
    assert_eq!(as_text(v6([0, 0, 0, 0, 0, 0xffff, 0xc000, 0x0280], 9)), "[::ffff:192.0.2.128]:9");
    assert_eq!(as_text(v6([0, 0, 0, 0, 0, 0, 0xc000, 0x0280], 9)), "[::c000:280]:9");
    assert_eq!(as_text(v6([0, 0, 0, 0, 0, 0xfffe, 0xc000, 0x0280], 9)), "[::fffe:c000:280]:9");
}

#[test]
fn text_is_appended() {
    let mut out = b"x".to_vec();
    write_text(&mut out, &ClientAddr::V4([1, 2, 3, 4], 5));
    assert_eq!(out, b"x1.2.3.4:5".to_vec());
}

#[test]
fn text_of_ipv4_is_read() {
    assert_eq!(parse_text(b"203.0.113.7:55555"), Some(ClientAddr::V4([203, 0, 113, 7], 55555)));
    assert_eq!(parse_text(b"0.0.0.0:0"), Some(ClientAddr::V4([0, 0, 0, 0], 0)));
    assert_eq!(parse_text(b"1.2.3.4:00080"), Some(ClientAddr::V4([1, 2, 3, 4], 80)));
    assert_eq!(parse_text(b"255.255.255.255:65535"), Some(ClientAddr::V4([255; 4], 65535)));
}

#[test]
fn text_that_is_no_address() {
    for t in [
        "", "1.2.3.4", "1.2.3.4:", ":80", "1.2.3:80", "1.2.3.4.5:80", "1.2.3.256:80",
        "1.2.3.4:65536", "01.2.3.4:80", "1.2.3.04:80", "1.2.3.4:80:90", "1.2.3.4 :80",
        " 1.2.3.4:80", "1.2.3.4:80\r", "1.2..4:80", "a.b.c.d:80", "1.2.3.4:+80", "+1.2.3.4:80",
        "1.2.3.0004:80", "localhost:80",
    ] {
        assert_eq!(parse_text(t.as_bytes()), None, "{:?}", t);
    }
}

#[test]
fn written_ipv4_text_is_read_back() {
    for addr in [
        ClientAddr::V4([0, 0, 0, 0], 0),
        ClientAddr::V4([10, 0, 200, 7], 8080),
        ClientAddr::V4([255, 255, 255, 255], 65535),
    ] {
        assert_eq!(parse_text(&to_text(&addr)), Some(addr));
    }
}

#[test]
fn written_ipv6_text_is_read_back() {
    for addr in [
        v6([0, 0, 0, 0, 0, 0, 0, 0], 80),
        v6([0, 0, 0, 0, 0, 0, 0, 1], 80),
        v6([0x2001, 0xdb8, 0, 0, 0, 0, 0, 1], 443),
        v6([1, 0, 0, 0, 0, 0, 0, 0], 1),
        v6([1, 2, 3, 4, 5, 6, 7, 8], 1),
        v6([1, 0, 3, 4, 5, 6, 7, 8], 1),
        v6([1, 0, 0, 4, 5, 0, 0, 8], 1),
        v6([1, 0, 0, 4, 0, 0, 0, 8], 1),
        v6([0, 0, 3, 0, 0, 0, 7, 8], 1),
        v6([0xfe80, 0, 0, 0, 0xabcd, 0xef, 0xf, 0], 1),
        v6([0, 0, 0, 0, 0, 0xffff, 0xc000, 0x0280], 9),
        v6([0, 0, 0, 0, 0, 0, 0xc000, 0x0280], 9),
        v6([0, 0, 0, 0, 0, 0xfffe, 0xc000, 0x0280], 9),
        v6([0xffff; 8], 65535),
        v6([0, 1, 0, 1, 0, 1, 0, 1], 0),
        v6([1, 1, 1, 1, 1, 1, 0, 0], 7),
        v6([0, 0, 1, 1, 1, 1, 1, 1], 7),
    ] {
        let written = to_text(&addr);
        assert_eq!(parse_text(&written), Some(addr), "{}", String::from_utf8_lossy(&written));
    }
}

#[test]
fn text_of_ipv6_is_read() {
    assert_eq!(parse_text(b"[::1]:8080"), Some(v6([0, 0, 0, 0, 0, 0, 0, 1], 8080)));
    assert_eq!(parse_text(b"[2001:db8::1]:0443"), Some(v6([0x2001, 0xdb8, 0, 0, 0, 0, 0, 1], 443)));
    assert_eq!(
        parse_text(b"[::ffff:192.0.2.128]:9"),
        Some(v6([0, 0, 0, 0, 0, 0xffff, 0xc000, 0x0280], 9))
    );
}

#[test]
fn ipv6_text_that_is_not_canonical_or_no_address() {
    for t in [
        "[2001:DB8::1]:80",
        "[2001:0db8::1]:80",
        "[1:0:0:0:0:0:0:8]:1",
        "[1::0:8]:1",
        "[::ffff:c000:280]:9",
        "[::ffff:192.0.2.128",
        "[::1]",
        "[::1]:",
        "[::1]:65536",
        "::1:80",
        "[::1:80",
        "[1:2:3:4:5:6:7]:80",
        "[1:2:3:4:5:6:7:8:9]:80",
        "[1:2:3:4:5:6:7::]:80",
        "[::1::2]:80",
        "[:::]:80",
        "[12345::]:80",
        "[g::]:80",
        "[]:80",
        "[::1%eth0]:80",
        " [::1]:80",
        "[::1]:80 ",
        "[::1.2.3.4]:80",
        "[::ffff:1.2.3]:80",
        "[::ffff:01.2.3.4]:80",
    ] {
        assert_eq!(parse_text(t.as_bytes()), None, "{:?}", t);
    }
}
