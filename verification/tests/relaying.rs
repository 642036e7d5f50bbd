use dsh_mobile_gateway::config::Config;
use dsh_mobile_gateway::http::Headers;
use dsh_mobile_gateway::relay::{
    find_head_end, forward_headers, is_hop_by_hop, is_websocket_upgrade, read_upgrade, relay_failed,
    relay_handler, resolve_upstream, return_headers, tunnel_sock, upgrade_request, HandshakeReader,
    HandshakeStep, RelayPlan, UpgradeReply, UpstreamTarget,
};

fn headers(fields: &[(&str, &str)]) -> Headers {
    let mut out = Headers::new();
    for (name, value) in fields {
        out.append(name, value.as_bytes().to_vec());
    }
    out
}

fn names(h: &Headers) -> Vec<&str> {
    h.fields.iter().map(|f| f.0.as_str()).collect()
}

fn config() -> Config {
    Config::from_env(&vec![("DSH_GATEWAY_JWT_SECRET".to_string(), "s".to_string())]).unwrap()
}

#[test]
fn hop_by_hop_fields_are_dropped() {
    for name in [
        "connection", "keep-alive", "proxy-authenticate", "proxy-authorization", "te", "trailer",
        "transfer-encoding", "upgrade", "host", "x-forwarded-for", "x-forwarded-proto", "x-real-ip",
    ] {
        assert!(is_hop_by_hop(name), "{name}");
    }
    assert!(!is_hop_by_hop("authorization"));
    assert!(!is_hop_by_hop("content-length"));
}

#[test]
fn requests_and_replies_keep_the_rest() {
    let h = headers(&[
        ("te", "x"), ("accept", "a"), ("authorization", "Bearer t"), ("accept", "b"), ("host", "g"),
    ]);
    let out = forward_headers(&h, "up:1");
    assert_eq!(names(&out), vec!["host", "accept", "accept"]);
    assert_eq!(out.fields[0].1, b"up:1".to_vec());
    assert_eq!(out.fields[2].1, b"b".to_vec());
    assert_eq!(names(&forward_headers(&h, "bad\nhost")), vec!["accept", "accept"]);
    assert_eq!(names(&return_headers(&h)), vec!["accept", "authorization", "accept"]);
}

#[test]
fn websocket_requests_are_recognised() {
    let yes = headers(&[("connection", "keep-alive, Upgrade"), ("upgrade", "WebSocket")]);
    assert!(is_websocket_upgrade(&yes));
    assert!(!is_websocket_upgrade(&headers(&[("connection", "upgrade"), ("upgrade", "h2c")])));
    assert!(!is_websocket_upgrade(&headers(&[("upgrade", "websocket")])));
    assert!(!is_websocket_upgrade(&headers(&[("connection", "close"), ("upgrade", "websocket")])));
}

#[test]
fn upgrade_request_carries_handshake_fields_only() {
    let mut h = headers(&[
        ("cookie", "c"),
        ("sec-websocket-key", "k"),
        ("authorization", "Bearer t"),
        ("sec-websocket-extensions", "permessage-deflate"),
    ]);
    h.append("sec-websocket-protocol", vec![0xff]);
    assert_eq!(
        upgrade_request("GET", "/p?q", "h:1", &h),
        "GET /p?q HTTP/1.1\r\nHost: h:1\r\nUpgrade: websocket\r\nConnection: Upgrade\r\n\
         sec-websocket-key: k\r\nsec-websocket-extensions: permessage-deflate\r\n\r\n"
    );
}

#[test]
fn head_ends_at_the_first_empty_line() {
    assert_eq!(find_head_end(&b"a\r\n\r\nb\r\n\r\n".to_vec()), Some(1));
    assert_eq!(find_head_end(&b"\r\n\r\n".to_vec()), Some(0));
    assert_eq!(find_head_end(&b"a\r\n\r".to_vec()), None);
    assert_eq!(find_head_end(&Vec::new()), None);
}

#[test]
fn answer_is_the_same_however_it_arrives() {
    let bytes = b"HTTP/1.1 101 OK\r\nSec-WebSocket-Accept: x\r\n\r\ntail";
    for cut in 1..bytes.len() - 4 {
        let mut reader = HandshakeReader::new();
        let step = match reader.feed(&bytes[..cut]) {
            HandshakeStep::More => reader.feed(&bytes[cut..]),
            done => done,
        };
        match step {
            HandshakeStep::Done(UpgradeReply::Switch { headers, leftover }) => {
                assert_eq!(headers, vec![("sec-websocket-accept".to_string(), "x".to_string())]);
                assert_eq!(leftover, b"tail".to_vec());
            }
            other => panic!("{cut}: {other:?}"),
        }
    }
}

#[test]
fn unfinished_answers_fail() {
    let mut reader = HandshakeReader::new();
    assert!(matches!(reader.feed(b"HTTP"), HandshakeStep::More));
    assert!(matches!(reader.feed(b""), HandshakeStep::Closed));
    let mut reader = HandshakeReader::new();
    assert!(matches!(reader.feed(&[b'x'; 65536]), HandshakeStep::More));
    assert!(matches!(reader.feed(b"x"), HandshakeStep::TooLarge));
}

#[test]
fn refusals_carry_their_status() {
    for (head, status) in [
        ("HTTP/1.1 403 Forbidden\r\nX: y", 403),
        ("HTTP/1.1 403 Rule-101", 403),
        ("HTTP/1.101 200 OK", 200),
        ("HTTP/1.1 1010 Odd", 502),
        ("HTTP/1.1 99 Low", 502),
        ("HTTP/1.1 1000 High", 502),
        ("HTTP/1.1 abc", 502),
        ("garbage", 502),
        ("", 502),
    ] {
        match read_upgrade(head, Vec::new()) {
            UpgradeReply::Refuse(r) => {
                assert_eq!(r.status, status, "{head}");
                assert_eq!(r.message, head.lines().next().unwrap_or(""));
            }
            other => panic!("{other:?}"),
        }
    }
}

#[test]
fn answer_fields_are_filtered() {
    let head = "HTTP/1.1 101 Switching\r\nDate: d\r\nSERVER: s\r\nContent-Length: 0\r\n\
                Connection: Upgrade\r\nUpgrade: websocket\r\n  X-One :  1 \r\nno colon\r\n\
                bad name: 2\r\n: 3\r\nX-Two: a:b\r\nX-Bad: \u{1}";
    match read_upgrade(head, vec![7]) {
        UpgradeReply::Switch { headers, leftover } => {
            assert_eq!(
                headers,
                vec![
                    ("x-one".to_string(), "1".to_string()),
                    ("x-two".to_string(), "a:b".to_string())
                ]
            );
            assert_eq!(leftover, vec![7]);
        }
        other => panic!("{other:?}"),
    }
}

#[test]
fn bytes_that_are_no_text_are_replaced() {
    let mut reader = HandshakeReader::new();
    match reader.feed(b"HTTP/1.1 500 \xff\r\n\r\n") {
        HandshakeStep::Done(UpgradeReply::Refuse(r)) => {
            assert_eq!(r.message, "HTTP/1.1 500 \u{fffd}");
        }
        other => panic!("{other:?}"),
    }
}

#[test]
fn upstream_of_a_request() {
    let mut c = config();
    assert_eq!(tunnel_sock(&c, Some(13105)), None);
    match resolve_upstream(&c, None, true) {
        UpstreamTarget::Tcp(a) => assert_eq!(a, "127.0.0.1:13100"),
        other => panic!("{other:?}"),
    }
    c.tunnel_sock_dir = Some("/run/".into());
    assert_eq!(tunnel_sock(&c, Some(13105)).unwrap(), "/run/tunnel-13105.sock");
    assert_eq!(tunnel_sock(&c, None).unwrap(), "/run/tunnel-13100.sock");
    match resolve_upstream(&c, None, true) {
        UpstreamTarget::Unix(p) => assert_eq!(p, "/run/tunnel-13100.sock"),
        other => panic!("{other:?}"),
    }
    c.upstream_addr = "localhost".into();
    assert_eq!(tunnel_sock(&c, None), None);
    c.tunnel_sock_dir = Some(String::new());
    assert_eq!(tunnel_sock(&c, Some(5)).unwrap(), "tunnel-5.sock");
}

#[test]
fn removing_a_field_keeps_the_address() {
    let mut h = headers(&[("cookie", "c"), ("accept", "a")]);
    h.peer = Some("10.0.0.7".into());
    let kept = h.remove("cookie");
    assert_eq!(names(&kept), vec!["accept"]);
    assert_eq!(kept.peer.as_deref(), Some("10.0.0.7"));
    assert_eq!(forward_headers(&h, "up:1").peer, None);
}

#[test]
fn failures_are_bad_gateways() {
    let http = relay_failed(false);
    assert_eq!((http.status, http.message.as_str()), (502, "upstream unavailable"));
    let ws = relay_failed(true);
    assert_eq!((ws.status, ws.message.as_str()), (502, "upstream websocket unavailable"));
    match relay_handler(&config(), "OPTIONS", None, &headers(&[])) {
        RelayPlan::Http { path, .. } => assert_eq!(path, "/"),
        other => panic!("{other:?}"),
    }
}
