use flowgate::addr::ClientAddr;
use flowgate::config::IpForwarding;
use flowgate::forward::{encode_head, replace_host};

fn lines_of(head: &[u8]) -> Vec<String> {
    String::from_utf8(head.to_vec()).unwrap().split("\r\n").map(|l| l.to_string()).collect()
}

#[test]
fn plain_http_none_forwarding() {
    let addr = ClientAddr::V4([10, 0, 0, 1], 4000);
    let out = encode_head(b"GET / HTTP/1.1\r\nHost: a.test", &addr, &IpForwarding::Off, &None);
    assert_eq!(out.unwrap(), b"GET / HTTP/1.1\r\nHost: a.test\r\n\r\n".to_vec());
}

#[test]
fn simple_forwarding_prepends_address_line() {
    let addr = ClientAddr::V4([203, 0, 113, 7], 55555);
    let out = encode_head(b"GET / HTTP/1.1\r\nHost: a.test", &addr, &IpForwarding::Simple, &None);
    assert_eq!(
        out.unwrap(),
        b"203.0.113.7:55555\nGET / HTTP/1.1\r\nHost: a.test\r\n\r\n".to_vec()
    );
}

#[test]
fn header_forwarding_overwrites_existing_header() {
    let addr = ClientAddr::V4([203, 0, 113, 7], 55555);
    let mode = IpForwarding::Header("X-Real-IP".to_string());
    let head = b"GET / HTTP/1.1\r\nHost: a.test\r\nX-Real-IP: 1.2.3.4\r\nAccept: */*";
    let out = encode_head(head, &addr, &mode, &None).unwrap();
    assert_eq!(
        out,
        b"GET / HTTP/1.1\r\nHost: a.test\r\nAccept: */*\r\nX-Real-IP: 203.0.113.7:55555\r\n\r\n"
            .to_vec()
    );
    let lines = lines_of(&out[..out.len() - 4]);
    let named: Vec<&String> =
        lines.iter().filter(|l| l.to_lowercase().starts_with("x-real-ip: ")).collect();
    assert_eq!(named.len(), 1);
    assert_eq!(named[0], "X-Real-IP: 203.0.113.7:55555");
}

#[test]
fn header_forwarding_ignores_case_of_existing_header() {
    let addr = ClientAddr::V4([192, 0, 2, 1], 80);
    let mode = IpForwarding::Header("X-Real-IP".to_string());
    let head = b"GET / HTTP/1.1\r\nx-real-ip: 9.9.9.9\r\nX-REAL-IP: 8.8.8.8";
    let out = encode_head(head, &addr, &mode, &None).unwrap();
    assert_eq!(out, b"GET / HTTP/1.1\r\nX-Real-IP: 192.0.2.1:80\r\n\r\n".to_vec());
}

#[test]
fn header_forwarding_drops_lines_that_are_no_headers() {
    let addr = ClientAddr::V4([192, 0, 2, 1], 80);
    let mode = IpForwarding::Header("X-Real-IP".to_string());
    let head = b"GET / HTTP/1.1\r\nnot a header\r\nA: b";
    let out = encode_head(head, &addr, &mode, &None).unwrap();
    assert_eq!(out, b"GET / HTTP/1.1\r\nA: b\r\nX-Real-IP: 192.0.2.1:80\r\n\r\n".to_vec());
}

#[test]
fn modern_forwarding_ipv4() {
    let addr = ClientAddr::V4([198, 51, 100, 9], 40000);
    let out = encode_head(b"GET / HTTP/1.1\r\nHost: a.test", &addr, &IpForwarding::Modern, &None)
        .unwrap();
    assert_eq!(&out[..5], &[0x01, 0xC6, 0x33, 0x64, 0x09]);
    assert_eq!(&out[5..7], &[0x9C, 0x40]);
    assert_eq!(&out[7..], b"GET / HTTP/1.1\r\nHost: a.test\r\n\r\n");
}

#[test]
fn modern_forwarding_ipv6() {
    let mut ip = [0u8; 16];
    ip[15] = 1;
    let addr = ClientAddr::V6(ip, 443);
    let out = encode_head(b"GET / HTTP/1.1", &addr, &IpForwarding::Modern, &None).unwrap();
    assert_eq!(out.len(), 19 + 14 + 4);
    assert_eq!(out[0], 0x02);
    assert_eq!(&out[1..17], &ip);
    assert_eq!(&out[17..19], &[0x01, 0xBB]);
    assert_eq!(&out[19..], b"GET / HTTP/1.1\r\n\r\n");
}

#[test]
fn simple_forwarding_ipv6_text() {
    let mut ip = [0u8; 16];
    ip[0] = 0x20;
    ip[1] = 0x01;
    ip[2] = 0x0d;
    ip[3] = 0xb8;
    ip[15] = 1;
    let addr = ClientAddr::V6(ip, 8080);
    let out = encode_head(b"GET / HTTP/1.1", &addr, &IpForwarding::Simple, &None).unwrap();
    assert_eq!(out, b"[2001:db8::1]:8080\nGET / HTTP/1.1\r\n\r\n".to_vec());
}

#[test]
fn replace_host_rewrites_every_host_header() {
    let out = replace_host(
        b"GET / HTTP/1.1\r\nhOsT: a.test\r\nAccept: */*\r\nHost: b.test",
        b"backend.internal",
    );
    assert_eq!(
        out.unwrap(),
        b"GET / HTTP/1.1\r\nhOsT: backend.internal\r\nAccept: */*\r\nHost: backend.internal"
            .to_vec()
    );
}

#[test]
fn replace_host_keeps_the_request_line_and_other_headers() {
    let out = replace_host(b"POST /x: y HTTP/1.1\r\nA: b: c\r\nHost: a", b"h");
    assert_eq!(out.unwrap(), b"POST /x: y HTTP/1.1\r\nA: b: c\r\nHost: h".to_vec());
}

#[test]
fn replace_host_fails_on_a_line_that_is_no_header() {
    assert_eq!(replace_host(b"GET / HTTP/1.1\r\nHost: a\r\nbroken", b"h"), None);
}

#[test]
fn replace_host_then_one_host_header_with_that_value() {
    let addr = ClientAddr::V4([192, 0, 2, 1], 80);
    let out = encode_head(
        b"GET / HTTP/1.1\r\nHost: a.test\r\nAccept: */*",
        &addr,
        &IpForwarding::Off,
        &Some("10.0.0.5:8080".to_string()),
    )
    .unwrap();
    let lines = lines_of(&out[..out.len() - 4]);
    let hosts: Vec<&String> =
        lines.iter().filter(|l| l.to_lowercase().starts_with("host: ")).collect();
    assert_eq!(hosts.len(), 1);
    assert_eq!(hosts[0], "Host: 10.0.0.5:8080");
}

#[test]
fn replace_host_with_header_forwarding() {
    let addr = ClientAddr::V4([192, 0, 2, 1], 80);
    let out = encode_head(
        b"GET / HTTP/1.1\r\nHost: a.test\r\nX-Real-IP: 1.1.1.1",
        &addr,
        &IpForwarding::Header("X-Real-IP".to_string()),
        &Some("inner".to_string()),
    )
    .unwrap();
    assert_eq!(
        out,
        b"GET / HTTP/1.1\r\nHost: inner\r\nX-Real-IP: 192.0.2.1:80\r\n\r\n".to_vec()
    );
}

#[test]
fn encode_fails_when_host_cannot_be_replaced() {
    let addr = ClientAddr::V4([192, 0, 2, 1], 80);
    let out = encode_head(
        b"GET / HTTP/1.1\r\nbroken",
        &addr,
        &IpForwarding::Simple,
        &Some("inner".to_string()),
    );
    assert_eq!(out, None);
}

#[test]
fn head_of_one_line() {
    let addr = ClientAddr::V4([1, 2, 3, 4], 5);
    let out =
        encode_head(b"GET /", &addr, &IpForwarding::Header("X".to_string()), &None).unwrap();
    assert_eq!(out, b"GET /\r\nX: 1.2.3.4:5\r\n\r\n".to_vec());
}
