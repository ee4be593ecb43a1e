use flowgate::addr::ClientAddr;
use flowgate::config::{Config, IpForwarding, SiteConfig};
use flowgate::server::{Action, Engine, Event, Phase};

fn machine_site(domain: &str, host: &str, forwarding: IpForwarding) -> SiteConfig {
    SiteConfig {
        domain: domain.to_string(),
        host: host.to_string(),
        ssl: None,
        enable_keep_alive: true,
        support_keep_alive: true,
        ip_forwarding: forwarding,
        replace_host: None,
    }
}

fn machine_config(sites: Vec<SiteConfig>, incoming: IpForwarding) -> Config {
    Config {
        sites,
        http_host: "127.0.0.1:8080".to_string(),
        https_host: "127.0.0.1:8443".to_string(),
        threadpool_size: 10,
        connection_timeout: 10,
        incoming_ip_forwarding: incoming,
        websocket_host: None,
    }
}

/// What a run of the machine did to the wire.
struct Wire {
    /// What the client still has to send.
    client: Vec<u8>,
    /// What each backend connection, in the order of the dials, answers.
    answers: Vec<Vec<u8>>,
    /// What is left of the open backend connection's answer.
    backend: Vec<u8>,
    /// What each backend connection got.
    got: Vec<Vec<u8>>,
    /// What the client got.
    sent: Vec<u8>,
    dials: Vec<String>,
    open: usize,
    most_open: usize,
    logs: Vec<String>,
    closed: bool,
    steps: usize,
}

fn take(from: &mut Vec<u8>, n: usize) -> Vec<u8> {
    let n = n.min(from.len());
    from.drain(..n).collect()
}

fn drive(config: &Config, peer: ClientAddr, https: bool, client: &[u8], answers: &[&[u8]]) -> Wire {
    let mut wire = Wire {
        client: client.to_vec(),
        answers: answers.iter().map(|a| a.to_vec()).collect(),
        backend: Vec::new(),
        got: Vec::new(),
        sent: Vec::new(),
        dials: Vec::new(),
        open: 0,
        most_open: 0,
        logs: Vec::new(),
        closed: false,
        steps: 0,
    };
    let mut engine = Engine::new(peer, https);
    let mut event = Event::Start;
    while wire.steps < 100_000 {
        wire.steps += 1;
        let action = engine.step(config, event);
        event = match action {
            Action::ReadClient(max) => {
                assert!(max >= 1);
                if wire.client.is_empty() {
                    Event::End
                } else {
                    Event::Data(take(&mut wire.client, max))
                }
            }
            Action::ReadClientExact(n) => {
                if wire.client.len() >= n {
                    Event::Data(take(&mut wire.client, n))
                } else {
                    Event::Failed
                }
            }
            Action::ReadBackend(max) => {
                assert!(max >= 1);
                assert_eq!(wire.open, 1);
                if wire.backend.is_empty() {
                    Event::End
                } else {
                    Event::Data(take(&mut wire.backend, max))
                }
            }
            Action::ReadBackendToEnd => {
                assert_eq!(wire.open, 1);
                let n = wire.backend.len();
                Event::Data(take(&mut wire.backend, n))
            }
            Action::WriteBackend(bytes) => {
                assert_eq!(wire.open, 1);
                wire.got.last_mut().unwrap().extend_from_slice(&bytes);
                Event::Done
            }
            Action::WriteClient(bytes) => {
                wire.sent.extend_from_slice(&bytes);
                Event::Done
            }
            Action::Dial(host) => {
                assert_eq!(wire.open, 0);
                if wire.dials.len() < wire.answers.len() {
                    wire.backend = wire.answers[wire.dials.len()].clone();
                    wire.dials.push(host);
                    wire.got.push(Vec::new());
                    wire.open += 1;
                    wire.most_open = wire.most_open.max(wire.open);
                    Event::Done
                } else {
                    wire.dials.push(host);
                    Event::Failed
                }
            }
            Action::CloseBackend => {
                wire.open = 0;
                Event::Done
            }
            Action::Log(line) => {
                wire.logs.push(String::from_utf8(line).unwrap());
                Event::Done
            }
            Action::Close => {
                wire.open = 0;
                wire.closed = true;
                break;
            }
        };
    }
    assert_eq!(engine.phase, Phase::Closed);
    assert!(!engine.backend_open);
    wire
}

const PEER: ClientAddr = ClientAddr::V4([203, 0, 113, 7], 55555);

#[test]
fn plain_http_request_reaches_backend_unchanged() {
    let config = machine_config(vec![machine_site("a.test", "127.0.0.1:9001", IpForwarding::Off)], IpForwarding::Off);
    let request = b"GET / HTTP/1.1\r\nHost: a.test\r\n\r\n";
    let answer = b"HTTP/1.1 200 OK\r\nContent-Length: 2\r\n\r\nok";
    let wire = drive(&config, PEER, false, request, &[answer]);
    assert!(wire.closed);
    assert_eq!(wire.dials, vec!["127.0.0.1:9001".to_string()]);
    assert_eq!(wire.got, vec![request.to_vec()]);
    assert_eq!(wire.sent, answer.to_vec());
    assert_eq!(wire.logs, vec!["203.0.113.7:55555 > GET http://a.test /".to_string()]);
}

#[test]
fn simple_forwarding_through_the_machine() {
    let config =
        machine_config(vec![machine_site("a.test", "127.0.0.1:9001", IpForwarding::Simple)], IpForwarding::Off);
    let request = b"GET / HTTP/1.1\r\nHost: a.test\r\n\r\n";
    let wire = drive(&config, PEER, false, request, &[b"HTTP/1.1 204 No Content\r\n\r\n"]);
    assert_eq!(wire.got, vec![b"203.0.113.7:55555\nGET / HTTP/1.1\r\nHost: a.test\r\n\r\n".to_vec()]);
}

#[test]
fn header_forwarding_through_the_machine() {
    let config = machine_config(
        vec![machine_site("a.test", "127.0.0.1:9001", IpForwarding::Header("X-Real-IP".to_string()))],
        IpForwarding::Off,
    );
    let request = b"GET / HTTP/1.1\r\nHost: a.test\r\nX-Real-IP: 1.2.3.4\r\n\r\n";
    let wire = drive(&config, PEER, false, request, &[b"HTTP/1.1 204 No Content\r\n\r\n"]);
    assert_eq!(
        wire.got,
        vec![b"GET / HTTP/1.1\r\nHost: a.test\r\nX-Real-IP: 203.0.113.7:55555\r\n\r\n".to_vec()]
    );
}

#[test]
fn modern_forwarding_through_the_machine() {
    let config =
        machine_config(vec![machine_site("a.test", "127.0.0.1:9001", IpForwarding::Modern)], IpForwarding::Off);
    let peer = ClientAddr::V4([198, 51, 100, 9], 40000);
    let request = b"GET / HTTP/1.1\r\nHost: a.test\r\n\r\n";
    let wire = drive(&config, peer, false, request, &[b"HTTP/1.1 204 No Content\r\n\r\n"]);
    let mut expected = vec![0x01, 0xC6, 0x33, 0x64, 0x09, 0x9C, 0x40];
    expected.extend_from_slice(request);
    assert_eq!(wire.got, vec![expected]);
}

#[test]
fn keep_alive_with_one_request_per_backend_connection() {
    let mut s = machine_site("a.test", "127.0.0.1:9001", IpForwarding::Off);
    s.support_keep_alive = false;
    let config = machine_config(vec![s], IpForwarding::Off);
    let first = b"GET /one HTTP/1.1\r\nHost: a.test\r\nConnection: keep-alive\r\n\r\n";
    let second = b"GET /two HTTP/1.1\r\nHost: a.test\r\nConnection: keep-alive\r\n\r\n";
    let mut client = first.to_vec();
    client.extend_from_slice(second);
    let wire = drive(&config, PEER, false, &client, &[b"first answer", b"second answer", b""]);
    assert_eq!(wire.dials.len(), 2);
    assert_eq!(wire.dials, vec!["127.0.0.1:9001".to_string(), "127.0.0.1:9001".to_string()]);
    assert_eq!(wire.got, vec![first.to_vec(), second.to_vec()]);
    assert_eq!(wire.sent, b"first answersecond answer".to_vec());
    assert_eq!(wire.most_open, 1);
    assert_eq!(wire.logs.len(), 2);
}

#[test]
fn redial_that_fails_ends_the_connection() {
    let mut s = machine_site("a.test", "127.0.0.1:9001", IpForwarding::Off);
    s.support_keep_alive = false;
    let config = machine_config(vec![s], IpForwarding::Off);
    let first = b"GET /one HTTP/1.1\r\nHost: a.test\r\nConnection: keep-alive\r\n\r\n";
    let mut client = first.to_vec();
    client.extend_from_slice(first);
    let wire = drive(&config, PEER, false, &client, &[b"first answer"]);
    assert_eq!(wire.dials.len(), 2);
    assert_eq!(wire.got, vec![first.to_vec()]);
    assert_eq!(wire.logs.len(), 1);
}

#[test]
fn keep_alive_reuses_backend_that_supports_it() {
    let config = machine_config(vec![machine_site("a.test", "127.0.0.1:9001", IpForwarding::Off)], IpForwarding::Off);
    let first = b"GET /one HTTP/1.1\r\nHost: a.test\r\nConnection: keep-alive\r\n\r\n";
    let second = b"GET /two HTTP/1.1\r\nHost: other.test\r\n\r\n";
    let mut client = first.to_vec();
    client.extend_from_slice(second);
    let answers = b"HTTP/1.1 200 OK\r\nContent-Length: 1\r\n\r\nAHTTP/1.1 200 OK\r\ncontent-length: 1\r\n\r\nB";
    let wire = drive(&config, PEER, false, &client, &[answers]);
    assert_eq!(wire.dials.len(), 1);
    let mut both = first.to_vec();
    both.extend_from_slice(second);
    assert_eq!(wire.got, vec![both]);
    assert_eq!(wire.sent, answers.to_vec());
    assert_eq!(
        wire.logs,
        vec![
            "203.0.113.7:55555 > GET http://a.test /one".to_string(),
            "203.0.113.7:55555 > GET http://a.test /two".to_string(),
        ]
    );
}

#[test]
fn no_keep_alive_without_the_header() {
    let config = machine_config(vec![machine_site("a.test", "127.0.0.1:9001", IpForwarding::Off)], IpForwarding::Off);
    let first = b"GET /one HTTP/1.1\r\nHost: a.test\r\n\r\n";
    let mut client = first.to_vec();
    client.extend_from_slice(b"GET /two HTTP/1.1\r\nHost: a.test\r\n\r\n");
    let wire = drive(&config, PEER, false, &client, &[b"HTTP/1.1 204 No Content\r\n\r\n"]);
    assert_eq!(wire.got, vec![first.to_vec()]);
    assert_eq!(wire.logs.len(), 1);
}

#[test]
fn no_keep_alive_when_the_site_forbids_it() {
    let mut s = machine_site("a.test", "127.0.0.1:9001", IpForwarding::Off);
    s.enable_keep_alive = false;
    let config = machine_config(vec![s], IpForwarding::Off);
    let first = b"GET /one HTTP/1.1\r\nHost: a.test\r\nConnection: keep-alive\r\n\r\n";
    let mut client = first.to_vec();
    client.extend_from_slice(first);
    let wire = drive(&config, PEER, false, &client, &[b"HTTP/1.1 204 No Content\r\n\r\n"]);
    assert_eq!(wire.got, vec![first.to_vec()]);
}

#[test]
fn unknown_host_is_dropped_without_a_dial() {
    let config = machine_config(vec![machine_site("a.test", "127.0.0.1:9001", IpForwarding::Off)], IpForwarding::Off);
    let wire = drive(&config, PEER, false, b"GET / HTTP/1.1\r\nHost: b.test\r\n\r\n", &[b""]);
    assert!(wire.closed);
    assert!(wire.dials.is_empty());
    assert!(wire.sent.is_empty());
    assert!(wire.logs.is_empty());
}

#[test]
fn failed_dial_is_dropped() {
    let config = machine_config(vec![machine_site("a.test", "127.0.0.1:9001", IpForwarding::Off)], IpForwarding::Off);
    let wire = drive(&config, PEER, false, b"GET / HTTP/1.1\r\nHost: a.test\r\n\r\n", &[]);
    assert!(wire.closed);
    assert_eq!(wire.dials.len(), 1);
    assert!(wire.got.is_empty());
}

#[test]
fn empty_head_is_dropped() {
    let config = machine_config(vec![machine_site("a.test", "127.0.0.1:9001", IpForwarding::Off)], IpForwarding::Off);
    let wire = drive(&config, PEER, false, b"\r\n\r\n", &[b""]);
    assert!(wire.dials.is_empty());
    let wire = drive(&config, PEER, false, b"", &[b""]);
    assert!(wire.dials.is_empty());
}

#[test]
fn head_that_is_not_utf8_is_dropped() {
    let config = machine_config(vec![machine_site("*", "127.0.0.1:9001", IpForwarding::Off)], IpForwarding::Off);
    let wire = drive(&config, PEER, false, b"GET / HTTP/1.1\r\nHost: \xff\xfe\r\n\r\n", &[b""]);
    assert!(wire.dials.is_empty());
}

#[test]
fn request_line_of_one_field_is_dropped() {
    let config = machine_config(vec![machine_site("*", "127.0.0.1:9001", IpForwarding::Off)], IpForwarding::Off);
    let wire = drive(&config, PEER, false, b"GET\r\nHost: a.test\r\n\r\n", &[b""]);
    assert!(wire.dials.is_empty());
}

#[test]
fn terminator_after_a_stray_carriage_return_is_seen() {
    let config = machine_config(vec![machine_site("a.test", "127.0.0.1:9001", IpForwarding::Off)], IpForwarding::Off);
    let request = b"GET / HTTP/1.1\r\nHost: a.test\r\nX: y\r\r\n\r\n";
    let wire = drive(&config, PEER, false, request, &[b"HTTP/1.1 204 No Content\r\n\r\n"]);
    assert_eq!(wire.got, vec![request.to_vec()]);
}

#[test]
fn body_by_content_length_is_relayed() {
    let config = machine_config(vec![machine_site("a.test", "127.0.0.1:9001", IpForwarding::Off)], IpForwarding::Off);
    let mut request = b"POST /up HTTP/1.1\r\nHost: a.test\r\nContent-Length: 10000\r\n\r\n".to_vec();
    let body: Vec<u8> = (0..10000u32).map(|i| (i % 251) as u8).collect();
    request.extend_from_slice(&body);
    let wire = drive(&config, PEER, false, &request, &[b"HTTP/1.1 204 No Content\r\n\r\n"]);
    assert_eq!(wire.got, vec![request.clone()]);
    assert_eq!(wire.logs.len(), 1);
}

#[test]
fn body_by_content_length_stops_at_the_length() {
    let mut s = machine_site("a.test", "127.0.0.1:9001", IpForwarding::Off);
    s.enable_keep_alive = false;
    let config = machine_config(vec![s], IpForwarding::Off);
    let request = b"POST /up HTTP/1.1\r\nHost: a.test\r\nContent-Length: 3\r\n\r\nabc";
    let mut client = request.to_vec();
    client.extend_from_slice(b"trailing bytes");
    let wire = drive(&config, PEER, false, &client, &[b"HTTP/1.1 204 No Content\r\n\r\n"]);
    assert_eq!(wire.got, vec![request.to_vec()]);
}

#[test]
fn short_body_ends_at_the_end_of_the_stream() {
    let config = machine_config(vec![machine_site("a.test", "127.0.0.1:9001", IpForwarding::Off)], IpForwarding::Off);
    let request = b"POST /up HTTP/1.1\r\nHost: a.test\r\nContent-Length: 30\r\n\r\nabc";
    let wire = drive(&config, PEER, false, request, &[b"HTTP/1.1 204 No Content\r\n\r\n"]);
    assert_eq!(wire.got, vec![request.to_vec()]);
    assert_eq!(wire.sent, b"HTTP/1.1 204 No Content\r\n\r\n".to_vec());
}

#[test]
fn unparseable_content_length_is_dropped_after_the_dial() {
    let config = machine_config(vec![machine_site("a.test", "127.0.0.1:9001", IpForwarding::Off)], IpForwarding::Off);
    let request = b"POST /up HTTP/1.1\r\nHost: a.test\r\nContent-Length: ten\r\n\r\n";
    let wire = drive(&config, PEER, false, request, &[b"HTTP/1.1 204 No Content\r\n\r\n"]);
    assert_eq!(wire.dials.len(), 1);
    assert_eq!(wire.got, vec![Vec::<u8>::new()]);
    assert!(wire.sent.is_empty());
}

#[test]
fn chunked_body_is_relayed() {
    let config = machine_config(vec![machine_site("a.test", "127.0.0.1:9001", IpForwarding::Off)], IpForwarding::Off);
    let request = b"POST /up HTTP/1.1\r\nHost: a.test\r\nTransfer-Encoding: gzip, chunked\r\n\r\n5\r\nhello\r\nA\r\n0123456789\r\n0\r\n\r\n";
    let wire = drive(&config, PEER, false, request, &[b"HTTP/1.1 204 No Content\r\n\r\n"]);
    assert_eq!(wire.got, vec![request.to_vec()]);
    assert_eq!(wire.sent, b"HTTP/1.1 204 No Content\r\n\r\n".to_vec());
    assert_eq!(wire.logs.len(), 1);
}

#[test]
fn large_chunk_is_relayed_in_blocks() {
    let config = machine_config(vec![machine_site("a.test", "127.0.0.1:9001", IpForwarding::Off)], IpForwarding::Off);
    let mut request =
        b"POST /up HTTP/1.1\r\nHost: a.test\r\nTransfer-Encoding: chunked\r\n\r\n2710\r\n".to_vec();
    request.extend(std::iter::repeat(b'x').take(10000));
    request.extend_from_slice(b"\r\n0\r\n\r\n");
    let wire = drive(&config, PEER, false, &request, &[b"HTTP/1.1 204 No Content\r\n\r\n"]);
    assert_eq!(wire.got, vec![request.clone()]);
}

#[test]
fn malformed_chunk_size_is_dropped() {
    let config = machine_config(vec![machine_site("a.test", "127.0.0.1:9001", IpForwarding::Off)], IpForwarding::Off);
    let head = b"POST /up HTTP/1.1\r\nHost: a.test\r\nTransfer-Encoding: chunked\r\n\r\n";
    let mut request = head.to_vec();
    request.extend_from_slice(b"5;ext\r\nhello\r\n0\r\n\r\n");
    let wire = drive(&config, PEER, false, &request, &[b"HTTP/1.1 204 No Content\r\n\r\n"]);
    assert_eq!(wire.got, vec![head.to_vec()]);
    assert!(wire.sent.is_empty());
    assert!(wire.logs.is_empty());
}

#[test]
fn chunk_cut_short_is_dropped() {
    let config = machine_config(vec![machine_site("a.test", "127.0.0.1:9001", IpForwarding::Off)], IpForwarding::Off);
    let request = b"POST /up HTTP/1.1\r\nHost: a.test\r\nTransfer-Encoding: chunked\r\n\r\n5\r\nhel";
    let wire = drive(&config, PEER, false, request, &[b"HTTP/1.1 204 No Content\r\n\r\n"]);
    assert_eq!(wire.got, vec![request.to_vec()]);
    assert!(wire.sent.is_empty());
}

#[test]
fn content_length_wins_over_chunked() {
    let mut s = machine_site("a.test", "127.0.0.1:9001", IpForwarding::Off);
    s.enable_keep_alive = false;
    let config = machine_config(vec![s], IpForwarding::Off);
    let request = b"POST /up HTTP/1.1\r\nHost: a.test\r\nContent-Length: 2\r\nTransfer-Encoding: chunked\r\n\r\n5\r\nhello\r\n0\r\n\r\n";
    let wire = drive(&config, PEER, false, request, &[b"HTTP/1.1 204 No Content\r\n\r\n"]);
    let head_len = request.len() - b"5\r\nhello\r\n0\r\n\r\n".len();
    assert_eq!(wire.got, vec![request[..head_len + 2].to_vec()]);
}

#[test]
fn response_without_length_has_no_body() {
    let config = machine_config(vec![machine_site("a.test", "127.0.0.1:9001", IpForwarding::Off)], IpForwarding::Off);
    let wire = drive(
        &config,
        PEER,
        false,
        b"GET / HTTP/1.1\r\nHost: a.test\r\n\r\n",
        &[b"HTTP/1.1 200 OK\r\nX: y\r\n\r\nbody that is not announced"],
    );
    assert_eq!(wire.sent, b"HTTP/1.1 200 OK\r\nX: y\r\n\r\n".to_vec());
    assert_eq!(wire.logs.len(), 1);
}

#[test]
fn response_body_is_relayed_in_blocks() {
    let config = machine_config(vec![machine_site("a.test", "127.0.0.1:9001", IpForwarding::Off)], IpForwarding::Off);
    let mut answer = b"HTTP/1.1 200 OK\r\nContent-Length: 9000\r\n\r\n".to_vec();
    answer.extend(std::iter::repeat(b'z').take(9000));
    let mut backend = answer.clone();
    backend.extend_from_slice(b"more than announced");
    let wire = drive(&config, PEER, false, b"GET / HTTP/1.1\r\nHost: a.test\r\n\r\n", &[&backend]);
    assert_eq!(wire.sent, answer);
}

#[test]
fn response_with_unparseable_length_is_dropped() {
    let config = machine_config(vec![machine_site("a.test", "127.0.0.1:9001", IpForwarding::Off)], IpForwarding::Off);
    let answer = b"HTTP/1.1 200 OK\r\nContent-Length: x\r\n\r\nbody";
    let wire = drive(&config, PEER, false, b"GET / HTTP/1.1\r\nHost: a.test\r\n\r\n", &[answer]);
    assert_eq!(wire.sent, b"HTTP/1.1 200 OK\r\nContent-Length: x\r\n\r\n".to_vec());
    assert!(wire.logs.is_empty());
}

#[test]
fn response_of_backend_without_keep_alive_is_read_to_the_end() {
    let mut s = machine_site("a.test", "127.0.0.1:9001", IpForwarding::Off);
    s.support_keep_alive = false;
    let config = machine_config(vec![s], IpForwarding::Off);
    let answer = b"anything at all, framed by the close";
    let wire = drive(&config, PEER, false, b"GET / HTTP/1.1\r\nHost: a.test\r\n\r\n", &[answer]);
    assert_eq!(wire.sent, answer.to_vec());
    assert_eq!(wire.logs.len(), 1);
}

#[test]
fn incoming_simple_address_is_taken_over() {
    let config = machine_config(
        vec![machine_site("a.test", "127.0.0.1:9001", IpForwarding::Simple)],
        IpForwarding::Simple,
    );
    let wire = drive(
        &config,
        PEER,
        false,
        b"198.51.100.9:40000\nGET / HTTP/1.1\r\nHost: a.test\r\n\r\n",
        &[b"HTTP/1.1 204 No Content\r\n\r\n"],
    );
    assert_eq!(wire.got, vec![b"198.51.100.9:40000\nGET / HTTP/1.1\r\nHost: a.test\r\n\r\n".to_vec()]);
    assert_eq!(wire.logs, vec!["198.51.100.9:40000 > GET http://a.test /".to_string()]);
}

#[test]
fn incoming_simple_address_that_is_invalid_is_dropped() {
    let config = machine_config(vec![machine_site("a.test", "127.0.0.1:9001", IpForwarding::Off)], IpForwarding::Simple);
    let wire = drive(
        &config,
        PEER,
        false,
        b"not an address\nGET / HTTP/1.1\r\nHost: a.test\r\n\r\n",
        &[b""],
    );
    assert!(wire.dials.is_empty());
}

#[test]
fn incoming_modern_address_is_taken_over() {
    let config = machine_config(
        vec![machine_site("a.test", "127.0.0.1:9001", IpForwarding::Header("X-Real-IP".to_string()))],
        IpForwarding::Modern,
    );
    let mut client = vec![0x01, 198, 51, 100, 9, 0x9C, 0x40];
    client.extend_from_slice(b"GET / HTTP/1.1\r\nHost: a.test\r\n\r\n");
    let wire = drive(&config, PEER, true, &client, &[b"HTTP/1.1 204 No Content\r\n\r\n"]);
    assert_eq!(
        wire.got,
        vec![b"GET / HTTP/1.1\r\nHost: a.test\r\nX-Real-IP: 198.51.100.9:40000\r\n\r\n".to_vec()]
    );
    assert_eq!(wire.logs, vec!["198.51.100.9:40000 > GET https://a.test /".to_string()]);
}

#[test]
fn incoming_modern_ipv6_address_is_taken_over() {
    let config =
        machine_config(vec![machine_site("a.test", "127.0.0.1:9001", IpForwarding::Simple)], IpForwarding::Modern);
    let mut client = vec![0x02];
    client.extend_from_slice(&[0x20, 0x01, 0x0d, 0xb8, 0, 0, 0, 0, 0, 0, 0, 0, 0, 0, 0, 0x42]);
    client.extend_from_slice(&[0x1F, 0x90]);
    client.extend_from_slice(b"GET / HTTP/1.1\r\nHost: a.test\r\n\r\n");
    let wire = drive(&config, PEER, false, &client, &[b"HTTP/1.1 204 No Content\r\n\r\n"]);
    assert_eq!(wire.got, vec![b"[2001:db8::42]:8080\nGET / HTTP/1.1\r\nHost: a.test\r\n\r\n".to_vec()]);
}

#[test]
fn incoming_modern_tag_that_is_unknown_is_dropped() {
    let config = machine_config(vec![machine_site("a.test", "127.0.0.1:9001", IpForwarding::Off)], IpForwarding::Modern);
    let mut client = vec![0x03, 198, 51, 100, 9, 0x9C, 0x40];
    client.extend_from_slice(b"GET / HTTP/1.1\r\nHost: a.test\r\n\r\n");
    let wire = drive(&config, PEER, false, &client, &[b""]);
    assert!(wire.dials.is_empty());
}

#[test]
fn incoming_header_address_is_taken_over() {
    let config = machine_config(
        vec![machine_site("a.test", "127.0.0.1:9001", IpForwarding::Simple)],
        IpForwarding::Header("X-Real-IP".to_string()),
    );
    let request = b"GET / HTTP/1.1\r\nHost: a.test\r\nX-Real-IP: 192.0.2.44:1234\r\n\r\n";
    let wire = drive(&config, PEER, false, request, &[b"HTTP/1.1 204 No Content\r\n\r\n"]);
    let mut expected = b"192.0.2.44:1234\n".to_vec();
    expected.extend_from_slice(request);
    assert_eq!(wire.got, vec![expected]);
}

#[test]
fn incoming_header_name_is_matched_with_its_case() {
    let config = machine_config(
        vec![machine_site("a.test", "127.0.0.1:9001", IpForwarding::Simple)],
        IpForwarding::Header("X-Real-IP".to_string()),
    );
    let request = b"GET / HTTP/1.1\r\nHost: a.test\r\nx-real-ip: 192.0.2.44:1234\r\n\r\n";
    let wire = drive(&config, PEER, false, request, &[b"HTTP/1.1 204 No Content\r\n\r\n"]);
    let mut expected = b"203.0.113.7:55555\n".to_vec();
    expected.extend_from_slice(request);
    assert_eq!(wire.got, vec![expected]);
}

#[test]
fn incoming_header_address_that_is_invalid_is_dropped() {
    let config = machine_config(
        vec![machine_site("a.test", "127.0.0.1:9001", IpForwarding::Simple)],
        IpForwarding::Header("X-Real-IP".to_string()),
    );
    let request = b"GET / HTTP/1.1\r\nHost: a.test\r\nX-Real-IP: 192.0.2.44\r\n\r\n";
    let wire = drive(&config, PEER, false, request, &[b""]);
    assert!(wire.dials.is_empty());
}

#[test]
fn wildcard_site_serves_the_host() {
    let config = machine_config(
        vec![
            machine_site("a.test", "127.0.0.1:9001", IpForwarding::Off),
            machine_site("*.test", "127.0.0.1:9002", IpForwarding::Off),
        ],
        IpForwarding::Off,
    );
    let wire = drive(
        &config,
        PEER,
        false,
        b"GET / HTTP/1.1\r\nhost: b.test\r\n\r\n",
        &[b"HTTP/1.1 204 No Content\r\n\r\n"],
    );
    assert_eq!(wire.dials, vec!["127.0.0.1:9002".to_string()]);
}

#[test]
fn last_host_header_counts() {
    let config = machine_config(
        vec![
            machine_site("a.test", "127.0.0.1:9001", IpForwarding::Off),
            machine_site("b.test", "127.0.0.1:9002", IpForwarding::Off),
        ],
        IpForwarding::Off,
    );
    let wire = drive(
        &config,
        PEER,
        false,
        b"GET / HTTP/1.1\r\nHost: a.test\r\nHOST: b.test\r\n\r\n",
        &[b"HTTP/1.1 204 No Content\r\n\r\n"],
    );
    assert_eq!(wire.dials, vec!["127.0.0.1:9002".to_string()]);
}

#[test]
fn replacement_host_reaches_the_backend() {
    let mut s = machine_site("a.test", "127.0.0.1:9001", IpForwarding::Off);
    s.replace_host = Some("inner.local".to_string());
    let config = machine_config(vec![s], IpForwarding::Off);
    let wire = drive(
        &config,
        PEER,
        false,
        b"GET / HTTP/1.1\r\nHost: a.test\r\nAccept: */*\r\n\r\n",
        &[b"HTTP/1.1 204 No Content\r\n\r\n"],
    );
    assert_eq!(wire.got, vec![b"GET / HTTP/1.1\r\nHost: inner.local\r\nAccept: */*\r\n\r\n".to_vec()]);
    assert_eq!(wire.logs, vec!["203.0.113.7:55555 > GET http://a.test /".to_string()]);
}

#[test]
fn machine_that_is_closed_stays_closed() {
    let config = machine_config(vec![], IpForwarding::Off);
    let mut engine = Engine::new(PEER, false);
    assert!(matches!(engine.step(&config, Event::Failed), Action::Close));
    assert_eq!(engine.phase, Phase::Closed);
    assert!(matches!(engine.step(&config, Event::Start), Action::Close));
    assert!(matches!(engine.step(&config, Event::Done), Action::Close));
    assert_eq!(engine.phase, Phase::Closed);
}

#[test]
fn read_that_gives_too_much_ends_the_connection() {
    let config = machine_config(vec![machine_site("a.test", "127.0.0.1:9001", IpForwarding::Off)], IpForwarding::Off);
    let mut engine = Engine::new(PEER, false);
    assert!(matches!(engine.step(&config, Event::Start), Action::ReadClient(1)));
    assert!(matches!(engine.step(&config, Event::Data(b"GE".to_vec())), Action::Close));
}

#[test]
fn failure_while_writing_ends_the_connection() {
    let config = machine_config(vec![machine_site("a.test", "127.0.0.1:9001", IpForwarding::Off)], IpForwarding::Off);
    let mut engine = Engine::new(PEER, false);
    let mut action = engine.step(&config, Event::Start);
    for b in b"GET / HTTP/1.1\r\nHost: a.test\r\n\r\n" {
        assert!(matches!(action, Action::ReadClient(1)));
        action = engine.step(&config, Event::Data(vec![*b]));
    }
    assert!(matches!(action, Action::Dial(_)));
    assert_eq!(engine.phase, Phase::Dialing);
    action = engine.step(&config, Event::Done);
    assert!(matches!(action, Action::WriteBackend(_)));
    assert!(engine.backend_open);
    action = engine.step(&config, Event::Failed);
    assert!(matches!(action, Action::Close));
    assert!(!engine.backend_open);
}
