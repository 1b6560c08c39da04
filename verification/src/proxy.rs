//! The wire formats of the SOCKS5 and HTTP CONNECT proxies.

use vstd::prelude::*;
use vstd::string::*;
use vstd::utf8::encode_utf8;

use crate::address::{
    format_ipv6, ipv4, ipv4_text, ipv6, ipv6_text, push_ipv4, try_parse_ipv4, try_parse_ipv6,
};
use crate::number::{decimal, number_u16, parse_u16, push_decimal};
use crate::text::{
    bytes_of, chars_of, cut_first, cut_last, lossy_text, push_bytes, same_text, split_first,
    split_last, string_of, unicode_upper, utf8_lossy,
};

verus! {

broadcast use vstd::string::group_string_axioms;

/// Two bytes, high byte first.
pub open spec fn be16(n: u16) -> Seq<u8> {
    seq![(n / 256) as u8, (n % 256) as u8]
}

/// The number that two bytes denote, high byte first.
pub open spec fn from_be16(hi: u8, lo: u8) -> u16 {
    (hi * 256 + lo) as u16
}

// ---------------------------------------------------------------------
// SOCKS5
// ---------------------------------------------------------------------

/// Address type and address in a SOCKS5 reply. A text that is no address is
/// sent as a name, its length in one byte.
pub open spec fn socks_address(addr: Seq<char>) -> Seq<u8> {
    match ipv4(addr) {
        Some(o) => seq![1u8] + o,
        None => match ipv6(addr) {
            Some(o) => seq![4u8] + o,
            None => seq![3u8, (encode_utf8(addr).len() % 256) as u8] + encode_utf8(addr),
        },
    }
}

/// A SOCKS5 reply: version, status, a zero byte, the address and the port.
pub open spec fn socks_reply(addr: Seq<char>, port: u16, status: u8) -> Seq<u8> {
    seq![5u8, status, 0u8] + socks_address(addr) + be16(port)
}

/// Writes a SOCKS5 reply; see [`socks_reply`].
pub fn socks5_response(bind_addr: &str, bind_port: u16, status: u8) -> (r: Vec<u8>)
    ensures
        r@ == socks_reply(bind_addr@, bind_port, status),
{
    let mut resp: Vec<u8> = Vec::new();
    resp.push(5);
    resp.push(status);
    resp.push(0);
    assert(resp@ =~= seq![5u8, status, 0u8]);
    if let Some(octets) = try_parse_ipv4(bind_addr) {
        resp.push(1);
        push_bytes(&mut resp, &octets);
    } else if let Some(octets) = try_parse_ipv6(bind_addr) {
        resp.push(4);
        push_bytes(&mut resp, &octets);
    } else {
        let bytes: &[u8] = bind_addr.as_bytes();
        resp.push(3);
        resp.push((bytes.len() % 256) as u8);
        push_bytes(&mut resp, bytes);
    }
    assert(resp@ =~= seq![5u8, status, 0u8] + socks_address(bind_addr@));
    resp.push((bind_port / 256) as u8);
    resp.push((bind_port % 256) as u8);
    assert(resp@ =~= socks_reply(bind_addr@, bind_port, status));
    resp
}

/// How far a SOCKS5 client has come.
#[derive(Clone, Copy, PartialEq, Eq, Structural, Debug)]
pub enum SocksState {
    /// Version and number of methods are awaited.
    Greeting,
    /// That many methods are awaited.
    Methods(u8),
    /// The head of the request is awaited.
    Request,
    /// An IPv4 address and a port are awaited.
    Ipv4,
    /// The length of a name is awaited.
    NameLength,
    /// A name of that many bytes and a port are awaited.
    Name(u8),
    /// An IPv6 address and a port are awaited.
    Ipv6,
}

/// What the bytes that were awaited lead to.
pub enum SocksStep {
    /// Send the reply, which may be empty, and await the next bytes.
    Await(SocksState, Vec<u8>),
    /// Connect to this host and port.
    Connect(String, u16),
    /// The address type is none that is known.
    Unsupported(u8),
}

/// What the bytes that were awaited lead to, over texts.
pub enum SocksStepModel {
    Await(SocksState, Seq<u8>),
    Connect(Seq<char>, u16),
    Unsupported(u8),
}

impl View for SocksStep {
    type V = SocksStepModel;

    open spec fn view(&self) -> SocksStepModel {
        match self {
            SocksStep::Await(s, reply) => SocksStepModel::Await(*s, reply@),
            SocksStep::Connect(host, port) => SocksStepModel::Connect(host@, *port),
            SocksStep::Unsupported(t) => SocksStepModel::Unsupported(*t),
        }
    }
}

/// How many bytes a state awaits.
pub open spec fn awaited(state: SocksState) -> nat {
    match state {
        SocksState::Greeting => 2,
        SocksState::Methods(n) => n as nat,
        SocksState::Request => 4,
        SocksState::Ipv4 => 6,
        SocksState::NameLength => 1,
        SocksState::Name(n) => n as nat + 2,
        SocksState::Ipv6 => 18,
    }
}

/// The eight groups of sixteen bytes.
pub open spec fn bytes_groups(b: Seq<u8>) -> Seq<u16> {
    Seq::new(8, |i: int| from_be16(b[2 * i], b[2 * i + 1]))
}

/// One step of the SOCKS5 handshake. Any method offer is answered with "no
/// authentication"; the request is read by its address type alone.
pub open spec fn socks_next(state: SocksState, b: Seq<u8>) -> SocksStepModel {
    match state {
        SocksState::Greeting => SocksStepModel::Await(SocksState::Methods(b[1]), Seq::empty()),
        SocksState::Methods(_) => SocksStepModel::Await(SocksState::Request, seq![5u8, 0u8]),
        SocksState::Request => if b[3] == 1 {
            SocksStepModel::Await(SocksState::Ipv4, Seq::empty())
        } else if b[3] == 3 {
            SocksStepModel::Await(SocksState::NameLength, Seq::empty())
        } else if b[3] == 4 {
            SocksStepModel::Await(SocksState::Ipv6, Seq::empty())
        } else {
            SocksStepModel::Unsupported(b[3])
        },
        SocksState::Ipv4 => SocksStepModel::Connect(ipv4_text(b.take(4)), from_be16(b[4], b[5])),
        SocksState::NameLength => SocksStepModel::Await(SocksState::Name(b[0]), Seq::empty()),
        SocksState::Name(n) => SocksStepModel::Connect(
            utf8_lossy(b.take(n as int)),
            from_be16(b[n as int], b[n + 1]),
        ),
        SocksState::Ipv6 => SocksStepModel::Connect(
            ipv6_text(bytes_groups(b)),
            from_be16(b[16], b[17]),
        ),
    }
}

/// How many bytes to read next.
pub fn socks5_awaits(state: SocksState) -> (r: usize)
    ensures
        r == awaited(state),
{
    match state {
        SocksState::Greeting => 2,
        SocksState::Methods(n) => n as usize,
        SocksState::Request => 4,
        SocksState::Ipv4 => 6,
        SocksState::NameLength => 1,
        SocksState::Name(n) => n as usize + 2,
        SocksState::Ipv6 => 18,
    }
}

fn read_be16(b: &[u8], i: usize) -> (r: u16)
    requires
        i + 1 < b@.len(),
    ensures
        r == from_be16(b@[i as int], b@[i + 1]),
{
    assert(b.len() <= usize::MAX);
    (b[i] as u16) * 256 + b[i + 1] as u16
}

/// Takes the bytes that a state awaits to what follows; see [`socks_next`].
pub fn socks5_handshake(state: SocksState, bytes: &[u8]) -> (r: SocksStep)
    requires
        bytes@.len() == awaited(state),
    ensures
        r@ == socks_next(state, bytes@),
{
    assert(bytes.len() <= usize::MAX);
    let nothing: Vec<u8> = Vec::new();
    match state {
        SocksState::Greeting => SocksStep::Await(SocksState::Methods(bytes[1]), nothing),
        SocksState::Methods(_) => {
            let reply: Vec<u8> = vec![5u8, 0u8];
            assert(reply@ =~= seq![5u8, 0u8]);
            SocksStep::Await(SocksState::Request, reply)
        },
        SocksState::Request => if bytes[3] == 1 {
            SocksStep::Await(SocksState::Ipv4, nothing)
        } else if bytes[3] == 3 {
            SocksStep::Await(SocksState::NameLength, nothing)
        } else if bytes[3] == 4 {
            SocksStep::Await(SocksState::Ipv6, nothing)
        } else {
            SocksStep::Unsupported(bytes[3])
        },
        SocksState::Ipv4 => {
            let mut host = String::new();
            push_ipv4(&mut host, bytes[0], bytes[1], bytes[2], bytes[3]);
            proof {
                assert(bytes@.take(4) =~= seq![bytes@[0], bytes@[1], bytes@[2], bytes@[3]]);
                assert(host@ =~= ipv4_text(bytes@.take(4)));
            }
            SocksStep::Connect(host, read_be16(bytes, 4))
        },
        SocksState::NameLength => SocksStep::Await(SocksState::Name(bytes[0]), nothing),
        SocksState::Name(n) => {
            let name = vstd::slice::slice_subrange(bytes, 0, n as usize);
            assert(name@ =~= bytes@.take(n as int));
            SocksStep::Connect(lossy_text(name), read_be16(bytes, n as usize))
        },
        SocksState::Ipv6 => {
            let groups: [u16; 8] = [
                read_be16(bytes, 0),
                read_be16(bytes, 2),
                read_be16(bytes, 4),
                read_be16(bytes, 6),
                read_be16(bytes, 8),
                read_be16(bytes, 10),
                read_be16(bytes, 12),
                read_be16(bytes, 14),
            ];
            assert(groups@ =~= bytes_groups(bytes@));
            SocksStep::Connect(format_ipv6(&groups), read_be16(bytes, 16))
        },
    }
}

/// What the client is told once the channel to its target was opened or
/// refused.
pub open spec fn socks_outcome(opened: bool) -> Seq<u8> {
    if opened {
        socks_reply("127.0.0.1"@, 0, 0)
    } else {
        socks_reply("0.0.0.0"@, 0, 1)
    }
}

/// Computes [`socks_outcome`].
pub fn socks5_outcome(opened: bool) -> (r: Vec<u8>)
    ensures
        r@ == socks_outcome(opened),
{
    if opened {
        socks5_response("127.0.0.1", 0, 0)
    } else {
        socks5_response("0.0.0.0", 0, 1)
    }
}

// ---------------------------------------------------------------------
// HTTP CONNECT
// ---------------------------------------------------------------------

/// Why a request to the HTTP proxy was refused.
#[derive(Clone, Copy, PartialEq, Eq, Structural, Debug)]
pub enum ConnectError {
    /// The request is not `CONNECT` followed by a target.
    NotConnect,
    /// The target has no port.
    NoPort,
    /// The port of the target is not a number that fits in 16 bits.
    BadPort,
}

/// `host:port`.
pub open spec fn connect_target(s: Seq<char>) -> Result<(Seq<char>, u16), ConnectError> {
    match cut_last(s, ':') {
        None => Err(ConnectError::NoPort),
        Some((host, port)) => match number_u16(port) {
            None => Err(ConnectError::BadPort),
            Some(p) => Ok((host, p)),
        },
    }
}

/// The first word of a text: what stands before the first blank.
pub open spec fn first_word(s: Seq<char>) -> Seq<char> {
    match cut_first(s, ' ') {
        Some((word, _)) => word,
        None => s,
    }
}

/// `CONNECT`, in any letter case, a blank and a target; more words may
/// follow.
pub open spec fn connect_request(s: Seq<char>) -> Result<(Seq<char>, u16), ConnectError> {
    match cut_first(s, ' ') {
        None => Err(ConnectError::NotConnect),
        Some((method, rest)) => if unicode_upper(method) == "CONNECT"@ {
            connect_target(first_word(rest))
        } else {
            Err(ConnectError::NotConnect)
        },
    }
}

/// Reads `host:port`; see [`connect_target`].
pub fn parse_connect_target(target: &[char]) -> (r: Result<(String, u16), ConnectError>)
    ensures
        match r {
            Ok((h, p)) => connect_target(target@) == Ok::<(Seq<char>, u16), ConnectError>((h@, p)),
            Err(e) => connect_target(target@) == Err::<(Seq<char>, u16), ConnectError>(e),
        },
{
    match split_last(target, ':') {
        None => Err(ConnectError::NoPort),
        Some((host, port)) => match parse_u16(port) {
            None => Err(ConnectError::BadPort),
            Some(p) => Ok((string_of(host), p)),
        },
    }
}

/// Reads the text of a CONNECT request; see [`connect_request`].
pub fn parse_connect_text(request: &str) -> (r: Result<(String, u16), ConnectError>)
    ensures
        match r {
            Ok((h, p)) => connect_request(request@) == Ok::<(Seq<char>, u16), ConnectError>(
                (h@, p),
            ),
            Err(e) => connect_request(request@) == Err::<(Seq<char>, u16), ConnectError>(e),
        },
{
    let all = chars_of(request);
    match split_first(all.as_slice(), ' ') {
        None => Err(ConnectError::NotConnect),
        Some((method, rest)) => {
            let method = string_of(method);
            let upper = method.as_str().to_uppercase();
            if !same_text(upper.as_str(), "CONNECT") {
                return Err(ConnectError::NotConnect);
            }
            match split_first(rest, ' ') {
                Some((target, _)) => parse_connect_target(target),
                None => parse_connect_target(rest),
            }
        },
    }
}

/// Reads the bytes of a CONNECT request; bytes that are not UTF-8 count as
/// replacement characters.
pub fn parse_connect_request(buf: &[u8]) -> (r: Result<(String, u16), ConnectError>)
    ensures
        match r {
            Ok((h, p)) => connect_request(utf8_lossy(buf@)) == Ok::<
                (Seq<char>, u16),
                ConnectError,
            >((h@, p)),
            Err(e) => connect_request(utf8_lossy(buf@)) == Err::<(Seq<char>, u16), ConnectError>(e),
        },
{
    let request = lossy_text(buf);
    parse_connect_text(request.as_str())
}

/// A status line and the empty line after it.
pub open spec fn http_response_text(status: u16, message: Seq<char>) -> Seq<char> {
    "HTTP/1.1 "@ + decimal(status as nat) + " "@ + message + "\r\n\r\n"@
}

/// Writes an HTTP response without headers.
pub fn http_response(status: u16, message: &str) -> (r: Vec<u8>)
    ensures
        r@ == encode_utf8(http_response_text(status, message@)),
{
    let mut out = "HTTP/1.1 ".to_owned();
    push_decimal(&mut out, status as u64);
    out.append(" ");
    out.append(message);
    out.append("\r\n\r\n");
    bytes_of(out.as_str())
}

/// What the HTTP proxy does with the first bytes of a connection.
pub enum ConnectStep {
    /// Close the connection without an answer.
    Close,
    /// Answer with these bytes and be done.
    Refuse(Vec<u8>),
    /// Open a channel to this host and port.
    Open(String, u16),
}

/// What the HTTP proxy does with the first bytes of a connection, over texts.
pub enum ConnectStepModel {
    Close,
    Refuse(Seq<u8>),
    Open(Seq<char>, u16),
}

impl View for ConnectStep {
    type V = ConnectStepModel;

    open spec fn view(&self) -> ConnectStepModel {
        match self {
            ConnectStep::Close => ConnectStepModel::Close,
            ConnectStep::Refuse(b) => ConnectStepModel::Refuse(b@),
            ConnectStep::Open(h, p) => ConnectStepModel::Open(h@, *p),
        }
    }
}

/// A connection that sends nothing is closed, a request that cannot be read
/// is answered 400.
pub open spec fn connect_begin(read: Option<Seq<u8>>) -> ConnectStepModel {
    match read {
        None => ConnectStepModel::Close,
        Some(b) => if b.len() == 0 {
            ConnectStepModel::Close
        } else {
            match connect_request(utf8_lossy(b)) {
                Ok((host, port)) => ConnectStepModel::Open(host, port),
                Err(_) => ConnectStepModel::Refuse(
                    encode_utf8(http_response_text(400, "Bad Request"@)),
                ),
            }
        },
    }
}

/// Decides on the first bytes of a connection, or on a failed read (`None`);
/// see [`connect_begin`].
pub fn http_connect_begin(read: Option<&[u8]>) -> (r: ConnectStep)
    ensures
        r@ == connect_begin(
            match read {
                Some(b) => Some(b@),
                None => None,
            },
        ),
{
    match read {
        None => ConnectStep::Close,
        Some(b) => {
            if b.len() == 0 {
                return ConnectStep::Close;
            }
            match parse_connect_request(b) {
                Ok((host, port)) => ConnectStep::Open(host, port),
                Err(_) => ConnectStep::Refuse(http_response(400, "Bad Request")),
            }
        },
    }
}

/// The answer once the channel was opened or refused.
pub open spec fn connect_outcome(opened: bool) -> Seq<char> {
    if opened {
        http_response_text(200, "Connection Established"@)
    } else {
        http_response_text(502, "Bad Gateway"@)
    }
}

/// Computes the bytes of [`connect_outcome`].
pub fn http_connect_outcome(opened: bool) -> (r: Vec<u8>)
    ensures
        r@ == encode_utf8(connect_outcome(opened)),
{
    if opened {
        http_response(200, "Connection Established")
    } else {
        http_response(502, "Bad Gateway")
    }
}

// ---------------------------------------------------------------------
// Laws
// ---------------------------------------------------------------------

/// Where a conversation stands after some bytes of the client.
pub enum SocksRun {
    /// More bytes are needed; these replies were sent.
    Waiting(Seq<u8>),
    /// The client wants this host and port; these replies were sent, these
    /// bytes are left.
    Connected(Seq<char>, u16, Seq<u8>, Seq<u8>),
    /// The address type was refused.
    Refused(u8),
}

/// Drives the handshake over the bytes of the client.
pub open spec fn socks_run(state: SocksState, input: Seq<u8>, sent: Seq<u8>, fuel: nat) -> SocksRun
    decreases fuel,
{
    if fuel == 0 || input.len() < awaited(state) {
        SocksRun::Waiting(sent)
    } else {
        let n = awaited(state) as int;
        match socks_next(state, input.take(n)) {
            SocksStepModel::Await(next, reply) => socks_run(
                next,
                input.skip(n),
                sent + reply,
                (fuel - 1) as nat,
            ),
            SocksStepModel::Connect(host, port) => SocksRun::Connected(
                host,
                port,
                sent,
                input.skip(n),
            ),
            SocksStepModel::Unsupported(t) => SocksRun::Refused(t),
        }
    }
}

/// The bytes of a SOCKS5 client: greeting with methods, then a request.
pub open spec fn socks_client(methods: Seq<u8>, kind: u8, address: Seq<u8>, port: u16) -> Seq<u8> {
    seq![5u8, methods.len() as u8] + methods + seq![5u8, 1u8, 0u8, kind] + address + be16(port)
}

proof fn socks_client_prefix(methods: Seq<u8>, kind: u8, address: Seq<u8>, port: u16)
    requires
        methods.len() < 256,
    ensures
        ({
            let input = socks_client(methods, kind, address, port);
            let n = methods.len() as int;
            &&& input.take(2) == seq![5u8, methods.len() as u8]
            &&& input.skip(2).take(n) == methods
            &&& input.skip(2).skip(n).take(4) == seq![5u8, 1u8, 0u8, kind]
            &&& input.skip(2).skip(n).skip(4) == address + be16(port)
        }),
{
    let input = socks_client(methods, kind, address, port);
    let n = methods.len() as int;
    assert(input.take(2) =~= seq![5u8, methods.len() as u8]);
    assert(input.skip(2).take(n) =~= methods);
    assert(input.skip(2).skip(n).take(4) =~= seq![5u8, 1u8, 0u8, kind]);
    assert(input.skip(2).skip(n).skip(4) =~= address + be16(port));
}

/// Whatever methods a client offers, "no authentication" is all it is sent,
/// and an IPv4 request ends in a connection to the dotted address and port
/// it names, with nothing left over.
pub proof fn socks_ipv4_client(methods: Seq<u8>, address: Seq<u8>, port: u16)
    requires
        methods.len() < 256,
        address.len() == 4,
    ensures
        socks_run(
            SocksState::Greeting,
            socks_client(methods, 1, address, port),
            Seq::empty(),
            4,
        ) == SocksRun::Connected(ipv4_text(address), port, seq![5u8, 0u8], Seq::empty()),
{
    reveal_with_fuel(socks_run, 5);
    socks_client_prefix(methods, 1, address, port);
    let last = address + be16(port);
    assert(last.take(6) =~= last);
    assert(last.take(4) =~= address);
    assert(last.skip(6) =~= Seq::<u8>::empty());
    assert(Seq::<u8>::empty() + Seq::<u8>::empty() + seq![5u8, 0u8] + Seq::<u8>::empty()
        =~= seq![5u8, 0u8]);
}

/// An IPv6 request ends in a connection to that address as text.
pub proof fn socks_ipv6_client(methods: Seq<u8>, address: Seq<u8>, port: u16)
    requires
        methods.len() < 256,
        address.len() == 16,
    ensures
        socks_run(
            SocksState::Greeting,
            socks_client(methods, 4, address, port),
            Seq::empty(),
            4,
        ) == SocksRun::Connected(
            ipv6_text(bytes_groups(address)),
            port,
            seq![5u8, 0u8],
            Seq::empty(),
        ),
{
    reveal_with_fuel(socks_run, 5);
    socks_client_prefix(methods, 4, address, port);
    let last = address + be16(port);
    assert(last.take(18) =~= last);
    assert(bytes_groups(last) =~= bytes_groups(address));
    assert(last.skip(18) =~= Seq::<u8>::empty());
    assert(Seq::<u8>::empty() + Seq::<u8>::empty() + seq![5u8, 0u8] + Seq::<u8>::empty()
        =~= seq![5u8, 0u8]);
}

/// A request by name ends in a connection to that name.
pub proof fn socks_name_client(methods: Seq<u8>, name: Seq<u8>, port: u16)
    requires
        methods.len() < 256,
        name.len() < 256,
    ensures
        socks_run(
            SocksState::Greeting,
            socks_client(methods, 3, seq![name.len() as u8] + name, port),
            Seq::empty(),
            5,
        ) == SocksRun::Connected(utf8_lossy(name), port, seq![5u8, 0u8], Seq::empty()),
{
    reveal_with_fuel(socks_run, 6);
    let address = seq![name.len() as u8] + name;
    socks_client_prefix(methods, 3, address, port);
    let last = address + be16(port);
    assert(last.take(1) =~= seq![name.len() as u8]);
    let tail = last.skip(1);
    assert(tail =~= name + be16(port));
    assert(tail.take(name.len() as int + 2) =~= tail);
    assert(tail.take(name.len() as int) =~= name);
    assert(tail.skip(name.len() as int + 2) =~= Seq::<u8>::empty());
    assert(Seq::<u8>::empty() + Seq::<u8>::empty() + seq![5u8, 0u8] + Seq::<u8>::empty()
        + Seq::<u8>::empty() =~= seq![5u8, 0u8]);
}

/// A request for `host:port` asks for that host and port, whatever words
/// follow the target.
pub proof fn connect_request_reads_back(
    method: Seq<char>,
    host: Seq<char>,
    port: u16,
    more: Seq<char>,
)
    requires
        unicode_upper(method) == "CONNECT"@,
        !method.contains(' '),
        !host.contains(' '),
    ensures
        connect_request(
            method + seq![' '] + (host + seq![':'] + decimal(port as nat) + seq![' '] + more),
        ) == Ok::<(Seq<char>, u16), ConnectError>((host, port)),
{
    let digits = decimal(port as nat);
    crate::number::decimal_denotes(port as nat);
    crate::number::decimal_reads_back(port as nat, 0xffff);
    assert(!digits.contains(':') && !digits.contains(' ')) by {
        assert(forall|i: int|
            0 <= i < digits.len() ==> crate::number::is_digit(#[trigger] digits[i]));
    }
    let target = host + seq![':'] + digits;
    assert(!target.contains(' ')) by {
        if target.contains(' ') {
            let i = choose|i: int| 0 <= i < target.len() && target[i] == ' ';
            if i < host.len() {
                assert(host[i] == ' ');
            } else if i > host.len() {
                assert(digits[i - host.len() - 1] == ' ');
            }
        }
    }
    crate::text::cut_first_rejoins(method, ' ', target + seq![' '] + more);
    crate::text::cut_first_rejoins(target, ' ', more);
    crate::text::cut_last_rejoins(host, ':', digits);
}

/// Ports are written and read in two bytes, the high one first.
pub proof fn ports_are_big_endian(n: u16, hi: u8, lo: u8)
    ensures
        be16(n).len() == 2,
        be16(n)[0] * 256 + be16(n)[1] == n,
        from_be16(hi, lo) == hi * 256 + lo,
        from_be16(be16(n)[0], be16(n)[1]) == n,
{
}

/// A reply is version 5, the status, a zero byte, the address by its type and the
/// port.
pub proof fn replies_are_laid_out(addr: Seq<char>, port: u16, status: u8)
    ensures
        ({
            let reply = socks_reply(addr, port, status);
            let n = reply.len() as int;
            &&& reply[0] == 5 && reply[1] == status && reply[2] == 0
            &&& reply[n - 2] * 256 + reply[n - 1] == port
            &&& ipv4(addr) matches Some(o) ==> reply[3] == 1 && reply.subrange(4, n - 2) == o
            &&& ipv4(addr) is None ==> (ipv6(addr) matches Some(o) ==> reply[3] == 4
                && reply.subrange(4, n - 2) == o)
            &&& ipv4(addr) is None && ipv6(addr) is None && encode_utf8(addr).len() < 256
                ==> reply[3] == 3 && reply[4] == encode_utf8(addr).len() && reply.subrange(5, n - 2)
                == encode_utf8(addr)
        }),
{
    let reply = socks_reply(addr, port, status);
    let n = reply.len() as int;
    match ipv4(addr) {
        Some(o) => {
            assert(reply.subrange(4, n - 2) =~= o);
        },
        None => match ipv6(addr) {
            Some(o) => {
                assert(reply.subrange(4, n - 2) =~= o);
            },
            None => {
                assert(reply.subrange(5, n - 2) =~= encode_utf8(addr));
            },
        },
    }
}

/// A client is told success, status 0, just if its channel was opened, and else
/// failure, status 1.
pub proof fn socks_clients_are_told(opened: bool)
    ensures
        socks_outcome(opened)[0] == 5,
        socks_outcome(true)[1] == 0,
        socks_outcome(false)[1] == 1,
{
}

/// The address type of a request decides what is awaited: 1 for IPv4, 3 for a
/// name, 4 for IPv6; any other is refused, whatever stands around it.
pub proof fn address_types_are_told_apart(b: Seq<u8>)
    requires
        b.len() == 4,
    ensures
        b[3] == 1 ==> socks_next(SocksState::Request, b) == SocksStepModel::Await(
            SocksState::Ipv4,
            Seq::empty(),
        ),
        b[3] == 3 ==> socks_next(SocksState::Request, b) == SocksStepModel::Await(
            SocksState::NameLength,
            Seq::empty(),
        ),
        b[3] == 4 ==> socks_next(SocksState::Request, b) == SocksStepModel::Await(
            SocksState::Ipv6,
            Seq::empty(),
        ),
        b[3] != 1 && b[3] != 3 && b[3] != 4 ==> socks_next(SocksState::Request, b)
            == SocksStepModel::Unsupported(b[3]),
{
}

/// A request by another method is refused, and so is one without a port or with
/// one that is no number.
pub proof fn bad_requests_are_refused(
    method: Seq<char>,
    host: Seq<char>,
    bad: Seq<char>,
    more: Seq<char>,
)
    requires
        !method.contains(' '),
        !host.contains(' '),
        !host.contains(':'),
        !bad.contains(' '),
        !bad.contains(':'),
        number_u16(bad) is None,
    ensures
        connect_request(method) == Err::<(Seq<char>, u16), ConnectError>(ConnectError::NotConnect),
        unicode_upper(method) != "CONNECT"@ ==> connect_request(method + seq![' '] + more) == Err::<
            (Seq<char>, u16),
            ConnectError,
        >(ConnectError::NotConnect),
        unicode_upper(method) == "CONNECT"@ ==> connect_request(method + seq![' '] + host) == Err::<
            (Seq<char>, u16),
            ConnectError,
        >(ConnectError::NoPort),
        unicode_upper(method) == "CONNECT"@ ==> connect_request(
            method + seq![' '] + (host + seq![':'] + bad),
        ) == Err::<(Seq<char>, u16), ConnectError>(ConnectError::BadPort),
{
    crate::text::cut_needs_separator(method, ' ');
    crate::text::cut_first_rejoins(method, ' ', more);
    crate::text::cut_first_rejoins(method, ' ', host);
    crate::text::cut_needs_separator(host, ' ');
    crate::text::cut_needs_separator(host, ':');
    let target = host + seq![':'] + bad;
    assert(!target.contains(' ')) by {
        if target.contains(' ') {
            let i = choose|i: int| 0 <= i < target.len() && target[i] == ' ';
            if i < host.len() {
                assert(host[i] == ' ');
            } else if i > host.len() {
                assert(bad[i - host.len() - 1] == ' ');
            }
        }
    }
    crate::text::cut_first_rejoins(method, ' ', target);
    crate::text::cut_needs_separator(target, ' ');
    crate::text::cut_last_rejoins(host, ':', bad);
}

/// A connection that sends nothing is closed without a word; one whose request
/// is refused is answered 400; any other is opened to the host and port that it
/// asks for.
pub proof fn requests_are_answered(b: Seq<u8>)
    requires
        b.len() > 0,
    ensures
        connect_begin(None) == ConnectStepModel::Close,
        connect_begin(Some(Seq::empty())) == ConnectStepModel::Close,
        connect_request(utf8_lossy(b)) matches Ok((host, port)) ==> connect_begin(Some(b))
            == ConnectStepModel::Open(host, port),
        connect_request(utf8_lossy(b)) is Err ==> connect_begin(Some(b))
            == ConnectStepModel::Refuse(
            encode_utf8(
                "HTTP/1.1 "@ + decimal(400) + " "@ + "Bad Request"@ + "\r\n\r\n"@,
            ),
        ),
        connect_outcome(true) == "HTTP/1.1 "@ + decimal(200) + " "@ + "Connection Established"@
            + "\r\n\r\n"@,
        connect_outcome(false) == "HTTP/1.1 "@ + decimal(502) + " "@ + "Bad Gateway"@
            + "\r\n\r\n"@,
{
}

/// A request needs nothing behind its target.
pub proof fn short_requests_read_back(method: Seq<char>, host: Seq<char>, port: u16)
    requires
        unicode_upper(method) == "CONNECT"@,
        !method.contains(' '),
        !host.contains(' '),
    ensures
        connect_request(method + seq![' '] + (host + seq![':'] + decimal(port as nat))) == Ok::<
            (Seq<char>, u16),
            ConnectError,
        >((host, port)),
{
    let digits = decimal(port as nat);
    crate::number::decimal_denotes(port as nat);
    crate::number::decimal_reads_back(port as nat, 0xffff);
    assert(!digits.contains(':') && !digits.contains(' ')) by {
        assert(forall|i: int|
            0 <= i < digits.len() ==> crate::number::is_digit(#[trigger] digits[i]));
    }
    let target = host + seq![':'] + digits;
    assert(!target.contains(' ')) by {
        if target.contains(' ') {
            let i = choose|i: int| 0 <= i < target.len() && target[i] == ' ';
            if i < host.len() {
                assert(host[i] == ' ');
            } else if i > host.len() {
                assert(digits[i - host.len() - 1] == ' ');
            }
        }
    }
    crate::text::cut_first_rejoins(method, ' ', target);
    crate::text::cut_needs_separator(target, ' ');
    crate::text::cut_last_rejoins(host, ':', digits);
}

/// A response is a status line with its number and message, and an empty line.
pub proof fn responses_have_a_status_line(status: u16, message: Seq<char>)
    ensures
        http_response_text(status, message) == "HTTP/1.1 "@ + decimal(status as nat) + " "@
            + message + "\r\n\r\n"@,
{
}

} // verus!
