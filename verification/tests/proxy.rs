//! The proxies and the addresses they speak of.

use passhrs::address::{format_ipv6, push_ipv4, try_parse_ipv4, try_parse_ipv6};
use passhrs::proxy::{
    http_connect_begin, http_connect_outcome, http_response, parse_connect_request,
    parse_connect_target, parse_connect_text, socks5_awaits, socks5_handshake, socks5_outcome,
    socks5_response, ConnectError, ConnectStep, SocksState, SocksStep,
};

#[test]
fn replies_by_kind_of_address() {
    assert_eq!(socks5_response("127.0.0.1", 0, 0), vec![5, 0, 0, 1, 127, 0, 0, 1, 0, 0]);
    assert_eq!(
        socks5_response("[::1]", 0x1234, 7),
        vec![5, 7, 0, 4, 0, 0, 0, 0, 0, 0, 0, 0, 0, 0, 0, 0, 0, 0, 0, 1, 0x12, 0x34]
    );
    assert_eq!(socks5_response("ab", 80, 1), vec![5, 1, 0, 3, 2, b'a', b'b', 0, 80]);
    let long = "x".repeat(300);
    let reply = socks5_response(&long, 1, 0);
    assert_eq!(reply[4], 44);
    assert_eq!(reply.len(), 5 + 300 + 2);
    assert_eq!(socks5_outcome(true), vec![5, 0, 0, 1, 127, 0, 0, 1, 0, 0]);
    assert_eq!(socks5_outcome(false), vec![5, 1, 0, 1, 0, 0, 0, 0, 0, 0]);
}

#[test]
fn ipv4_addresses() {
    assert_eq!(try_parse_ipv4("10.0.200.255"), Some([10, 0, 200, 255]));
    assert_eq!(try_parse_ipv4("+1.002.3.4"), Some([1, 2, 3, 4]));
    assert_eq!(try_parse_ipv4("1.2.3"), None);
    assert_eq!(try_parse_ipv4("1.2.3.4.5"), None);
    assert_eq!(try_parse_ipv4("1.2.3.256"), None);
    assert_eq!(try_parse_ipv4("1.2..4"), None);
    let mut s = String::from("ip ");
    push_ipv4(&mut s, 1, 20, 255, 0);
    assert_eq!(s, "ip 1.20.255.0");
}

fn groups(text: &str) -> Option<Vec<u16>> {
    try_parse_ipv6(text).map(|o| o.chunks(2).map(|c| u16::from_be_bytes([c[0], c[1]])).collect())
}

#[test]
fn ipv6_addresses() {
    assert_eq!(groups("::"), Some(vec![0; 8]));
    assert_eq!(groups("[fe80::1]"), Some(vec![0xfe80, 0, 0, 0, 0, 0, 0, 1]));
    assert_eq!(groups("1:2:3:4:5:6:7:8"), Some(vec![1, 2, 3, 4, 5, 6, 7, 8]));
    assert_eq!(groups("1:2:3:4:5:6:7::"), Some(vec![1, 2, 3, 4, 5, 6, 7, 0]));
    assert_eq!(groups("::ffff:1.2.3.4"), Some(vec![0, 0, 0, 0, 0, 0xffff, 0x102, 0x304]));
    assert_eq!(groups("1:2:3:4:5:6:1.2.3.4"), Some(vec![1, 2, 3, 4, 5, 6, 0x102, 0x304]));
    assert_eq!(groups("ABCD::"), Some(vec![0xabcd, 0, 0, 0, 0, 0, 0, 0]));
    for bad in [
        "", ":", ":::", "1", "1:2:3:4:5:6:7", "1:2:3:4:5:6:7:8:9", "1::2::3", "12345::",
        "1:2:3:4:5:6:7:8::", "::1.2.3.04", "::1.2.3.256", "1.2.3.4::", "::1.2.3", "g::", "::1:",
        "1:2:3:4:5:6::1.2.3.4", "fe80::1%eth0", " ::1",
    ] {
        assert_eq!(groups(bad), None, "{bad}");
    }
}

#[test]
fn ipv6_texts() {
    let f = |g: [u16; 8]| format_ipv6(&g);
    assert_eq!(f([0; 8]), "::");
    assert_eq!(f([0, 0, 0, 0, 0, 0, 0, 1]), "::1");
    assert_eq!(f([0xfe80, 0, 0, 0, 0, 0, 0, 0xabc]), "fe80::abc");
    assert_eq!(f([1, 0, 2, 3, 4, 5, 6, 7]), "1:0:2:3:4:5:6:7");
    assert_eq!(f([1, 0, 0, 2, 0, 0, 3, 4]), "1::2:0:0:3:4");
    assert_eq!(f([1, 0, 0, 2, 0, 0, 0, 4]), "1:0:0:2::4");
    assert_eq!(f([0, 0, 0, 0, 0, 0xffff, 0x0a00, 0x0001]), "::ffff:10.0.0.1");
    for g in [[0; 8], [1, 0, 0, 2, 0, 0, 0, 4], [0xffff; 8], [0, 1, 0, 0, 0, 0, 0, 0]] {
        assert_eq!(groups(&f(g)), Some(g.to_vec()));
    }
}

fn converse(input: &[u8]) -> (Vec<u8>, Option<(String, u16)>) {
    let (mut state, mut rest, mut sent) = (SocksState::Greeting, input, Vec::new());
    loop {
        let n = socks5_awaits(state);
        if rest.len() < n {
            return (sent, None);
        }
        match socks5_handshake(state, &rest[..n]) {
            SocksStep::Await(next, reply) => {
                sent.extend(reply);
                state = next;
            }
            SocksStep::Connect(host, port) => return (sent, Some((host, port))),
            SocksStep::Unsupported(_) => return (sent, None),
        }
        rest = &rest[n..];
    }
}

#[test]
fn handshakes() {
    let ip = [5, 2, 0, 2, 5, 1, 0, 1, 192, 168, 0, 9, 0x1f, 0x90];
    assert_eq!(converse(&ip), (vec![5, 0], Some(("192.168.0.9".to_string(), 8080))));
    let name = [5, 0, 5, 1, 0, 3, 3, b'a', b'.', b'b', 0, 80];
    assert_eq!(converse(&name), (vec![5, 0], Some(("a.b".to_string(), 80))));
    let mut v6 = vec![5, 1, 0, 5, 1, 0, 4];
    v6.extend([0u8; 15]);
    v6.extend([1, 1, 0xbb]);
    assert_eq!(converse(&v6), (vec![5, 0], Some(("::1".to_string(), 443))));
    let odd = [5, 0, 5, 1, 0, 3, 2, 0xff, b'x', 0, 1];
    assert_eq!(converse(&odd).1, Some(("\u{fffd}x".to_string(), 1)));
    assert!(matches!(
        socks5_handshake(SocksState::Request, &[5, 1, 0, 9]),
        SocksStep::Unsupported(9)
    ));
}

#[test]
fn connect_requests() {
    let ok = |h: &str, p: u16| Ok((h.to_string(), p));
    assert_eq!(parse_connect_request(b"CONNECT example.com:443 HTTP/1.1\r\n\r\n"), ok("example.com", 443));
    assert_eq!(parse_connect_request(b"connect [::1]:80"), ok("[::1]", 80));
    assert_eq!(parse_connect_text("Connect a:b:1 x y"), ok("a:b", 1));
    assert_eq!(parse_connect_request(b"GET / HTTP/1.1"), Err(ConnectError::NotConnect));
    assert_eq!(parse_connect_request(b"CONNECT"), Err(ConnectError::NotConnect));
    assert_eq!(parse_connect_request(b"CONNECT host HTTP/1.1"), Err(ConnectError::NoPort));
    assert_eq!(parse_connect_request(b"CONNECT host:http HTTP/1.1"), Err(ConnectError::BadPort));
    assert_eq!(parse_connect_request(b"CONNECT \xff:1 "), ok("\u{fffd}", 1));
    assert_eq!(parse_connect_target(&['h', ':', '7']), ok("h", 7));
}

#[test]
fn http_answers() {
    assert_eq!(http_response(400, "Bad Request"), b"HTTP/1.1 400 Bad Request\r\n\r\n");
    assert_eq!(http_connect_outcome(true), b"HTTP/1.1 200 Connection Established\r\n\r\n");
    assert_eq!(http_connect_outcome(false), b"HTTP/1.1 502 Bad Gateway\r\n\r\n");
    assert!(matches!(http_connect_begin(None), ConnectStep::Close));
    assert!(matches!(http_connect_begin(Some(b"")), ConnectStep::Close));
    assert!(matches!(http_connect_begin(Some(b"x")), ConnectStep::Refuse(r) if r == b"HTTP/1.1 400 Bad Request\r\n\r\n"));
    assert!(matches!(http_connect_begin(Some(b"CONNECT h:1 ")), ConnectStep::Open(h, 1) if h == "h"));
}
