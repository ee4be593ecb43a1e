use flowgate::addr::ClientAddr;
use flowgate::http_server::{get_site, split_once, Site, SiteServer};

fn named_site(domain: &str, host: &str) -> Site {
    Site { domain: domain.to_string(), host: host.to_string(), ssl: None }
}

fn server() -> SiteServer {
    SiteServer::new(
        "0.0.0.0:80".to_string(),
        vec![named_site("a.test", "127.0.0.1:9001"), named_site("honk", "127.0.0.1:9009"), named_site("a.test", "x")],
    )
}

const PEER: ClientAddr = ClientAddr::V4([203, 0, 113, 7], 55555);

#[test]
fn split_at_the_first_separator() {
    assert_eq!(split_once(b"a: b: c", b": "), Ok((&b"a"[..], &b"b: c"[..])));
    assert_eq!(split_once(b"head\r\n\r\nbody", b"\r\n\r\n"), Ok((&b"head"[..], &b"body"[..])));
    assert_eq!(split_once(b": ", b": "), Ok((&b""[..], &b""[..])));
    assert_eq!(split_once(b"abc", b""), Ok((&b""[..], &b"abc"[..])));
}

#[test]
fn split_without_the_separator() {
    assert_eq!(split_once(b"abc", b": "), Err("escond split nat foined".to_string()));
    assert!(split_once(b"", b": ").is_err());
    assert!(split_once(b"a:b", b": ").is_err());
}

#[test]
fn site_by_its_exact_name() {
    let sites = vec![named_site("*.test", "wild"), named_site("a.test", "one"), named_site("a.test", "two")];
    assert_eq!(get_site(&sites, "a.test").unwrap().host, "one");
    assert_eq!(get_site(&sites, "*.test").unwrap().host, "wild");
    assert!(get_site(&sites, "b.test").is_none());
    assert!(get_site(&sites, "A.test").is_none());
    assert_eq!(server().get_site("honk").unwrap().host, "127.0.0.1:9009");
    assert_eq!(server().host(), "0.0.0.0:80");
}

#[test]
fn request_of_one_read() {
    let mut data = b"POST /up HTTP/1.1\r\nHost: a.test\r\nContent-Length: 10\r\n\r\nabc".to_vec();
    let request = data.clone();
    data.resize(4096, 0);
    let plan = server().plan(&data, &PEER).unwrap();
    assert_eq!(plan.backend, "127.0.0.1:9001");
    let mut first = b"203.0.113.7:55555\n".to_vec();
    first.extend_from_slice(&request);
    assert_eq!(plan.first_write, first);
    assert_eq!(plan.rest, 7);
    assert_eq!(plan.ip, b"203.0.113.7".to_vec());
    assert_eq!(plan.method, b"POST".to_vec());
    assert_eq!(plan.host, b"a.test".to_vec());
    assert_eq!(plan.page, b"/up".to_vec());
}

#[test]
fn request_whose_body_was_read_whole() {
    let plan = server()
        .plan(b"POST / HTTP/1.1\r\nhost: a.test\r\ncontent_length: 3\r\n\r\nabcdef", &PEER)
        .unwrap();
    assert_eq!(plan.rest, 0);
    let plan = server().plan(b"GET / HTTP/1.1\r\nHOST: a.test\r\n\r\n", &PEER).unwrap();
    assert_eq!(plan.rest, 0);
}

#[test]
fn request_without_a_host_goes_to_honk() {
    let plan = server().plan(b"GET / HTTP/1.1\r\nAccept: */*\r\n\r\n", &PEER).unwrap();
    assert_eq!(plan.backend, "127.0.0.1:9009");
    assert_eq!(plan.host, b"honk".to_vec());
}

#[test]
fn last_headers_count() {
    let plan = server()
        .plan(
            b"GET / HTTP/1.1\r\nHost: b.test\r\nContent-Length: 1\r\nHost: a.test\r\nContent-length: 5\r\n\r\n",
            &PEER,
        )
        .unwrap();
    assert_eq!(plan.host, b"a.test".to_vec());
    assert_eq!(plan.rest, 5);
}

#[test]
fn client_without_ipv4_address_is_local() {
    let peer = ClientAddr::V6([0, 0, 0, 0, 0, 0, 0, 0, 0, 0, 0, 0, 0, 0, 0, 1], 4242);
    let plan = server().plan(b"GET / HTTP/1.1\r\nHost: a.test\r\n\r\n", &peer).unwrap();
    assert_eq!(plan.ip, b"127.0.0.1".to_vec());
    assert!(plan.first_write.starts_with(b"127.0.0.1:4242\nGET / "));
}

#[test]
fn requests_that_are_refused() {
    for data in [
        &b"GET / HTTP/1.1\r\nHost: a.test\r\n"[..],
        b"GET / HTTP/1.1\r\nHost: b.test\r\n\r\n",
        b"GET / HTTP/1.1\r\nHost: a.test\r\nbroken\r\n\r\n",
        b"GET / HTTP/1.1\r\nHost: a.test\r\nContent-Length: x\r\n\r\n",
        b"GET / HTTP/1.1\r\nHost: a.test\r\nContent-Length: x\r\nContent-Length: 1\r\n\r\n",
        b"GET\r\nHost: a.test\r\n\r\n",
        b"GET / HTTP/1.1\r\nHost: a.test\r\nX: \xff\r\n\r\n",
        b"",
        b"\r\n\r\n",
    ] {
        assert!(server().plan(data, &PEER).is_err(), "{:?}", String::from_utf8_lossy(data));
    }
}
