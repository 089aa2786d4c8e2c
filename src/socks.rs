use vstd::prelude::*;

use crate::address::{is_valid_domain, valid_domain, Address, AddressView, Host, HostView};

verus! {

/// The protocol version byte of SOCKS5.
pub const SOCKS_VERSION: u8 = 5;

/// Address type: four IPv4 octets.
pub const ATYP_IPV4: u8 = 1;

/// Address type: a length-prefixed domain name.
pub const ATYP_DOMAIN: u8 = 3;

/// Address type: sixteen IPv6 octets.
pub const ATYP_IPV6: u8 = 4;

/// The port in network byte order.
pub open spec fn port_bytes(p: u16) -> Seq<u8> {
    seq![(p / 256) as u8, (p % 256) as u8]
}

/// The big-endian port stored at `b[i]`, `b[i + 1]`.
pub open spec fn port_at(b: Seq<u8>, i: int) -> u16 {
    (b[i] as int * 256 + b[i + 1] as int) as u16
}

/// The wire form of an address: its type byte, the host, then the port.
pub open spec fn address_bytes(a: AddressView) -> Seq<u8> {
    match a.host {
        HostView::Ipv4(o) => seq![ATYP_IPV4] + o + port_bytes(a.port),
        HostView::Ipv6(o) => seq![ATYP_IPV6] + o + port_bytes(a.port),
        HostView::Domain(n) => seq![ATYP_DOMAIN, n.len() as u8] + n + port_bytes(a.port),
    }
}

/// The address at the start of `b`, with the number of bytes it takes; `None`
/// where the type is unknown, the bytes run short or the name is invalid.
pub open spec fn parse_address(b: Seq<u8>) -> Option<(AddressView, int)> {
    if b.len() < 1 {
        None
    } else if b[0] == ATYP_IPV4 {
        if b.len() < 7 {
            None
        } else {
            Some((AddressView { host: HostView::Ipv4(b.subrange(1, 5)), port: port_at(b, 5) }, 7))
        }
    } else if b[0] == ATYP_IPV6 {
        if b.len() < 19 {
            None
        } else {
            Some((AddressView { host: HostView::Ipv6(b.subrange(1, 17)), port: port_at(b, 17) }, 19))
        }
    } else if b[0] == ATYP_DOMAIN {
        if b.len() < 2 {
            None
        } else {
            let n = b[1] as int;
            if b.len() < n + 4 || !valid_domain(b.subrange(2, n + 2)) {
                None
            } else {
                Some(
                    (
                        AddressView {
                            host: HostView::Domain(b.subrange(2, n + 2)),
                            port: port_at(b, n + 2),
                        },
                        n + 4,
                    ),
                )
            }
        }
    } else {
        None
    }
}

proof fn lemma_port_round_trip(p: u16)
    ensures
        port_at(port_bytes(p), 0) == p,
{
}

/// Decoding the wire form of a valid address, whatever follows it, gives the
/// address back and consumes exactly its wire form.
pub proof fn lemma_address_round_trip(a: AddressView, rest: Seq<u8>)
    requires
        a.wf(),
    ensures
        parse_address(address_bytes(a) + rest) == Some((a, address_bytes(a).len() as int)),
{
    let b = address_bytes(a) + rest;
    lemma_port_round_trip(a.port);
    match a.host {
        HostView::Ipv4(o) => {
            assert(b.subrange(1, 5) =~= o);
            assert(b[5] == port_bytes(a.port)[0] && b[6] == port_bytes(a.port)[1]);
        },
        HostView::Ipv6(o) => {
            assert(b.subrange(1, 17) =~= o);
            assert(b[17] == port_bytes(a.port)[0] && b[18] == port_bytes(a.port)[1]);
        },
        HostView::Domain(n) => {
            let k = n.len() as int;
            assert(b[1] as int == k);
            assert(b.subrange(2, k + 2) =~= n);
            assert(b[k + 2] == port_bytes(a.port)[0] && b[k + 3] == port_bytes(a.port)[1]);
        },
    }
}

fn push_port(out: &mut Vec<u8>, p: u16)
    ensures
        final(out)@ == old(out)@ + port_bytes(p),
{
    out.push((p / 256) as u8);
    out.push((p % 256) as u8);
}

fn push_all(out: &mut Vec<u8>, src: &[u8])
    ensures
        final(out)@ == old(out)@ + src@,
{
    let ghost start = out@;
    let mut i: usize = 0;
    while i < src.len()
        invariant
            i <= src@.len(),
            out@ == start + src@.subrange(0, i as int),
        decreases src@.len() - i,
    {
        out.push(src[i]);
        i = i + 1;
        assert(out@ =~= start + src@.subrange(0, i as int));
    }
    assert(src@.subrange(0, src@.len() as int) =~= src@);
}

/// Appends the wire form of `a` to `out`.
pub fn write_address(out: &mut Vec<u8>, a: &Address)
    requires
        a.wf(),
    ensures
        final(out)@ == old(out)@ + address_bytes(a@),
{
    let ghost start = out@;
    match &a.host {
        Host::Ipv4(o) => {
            out.push(ATYP_IPV4);
            push_all(out, o.as_slice());
        },
        Host::Ipv6(o) => {
            out.push(ATYP_IPV6);
            push_all(out, o.as_slice());
        },
        Host::Domain(n) => {
            out.push(ATYP_DOMAIN);
            out.push(n.len() as u8);
            push_all(out, n.as_slice());
        },
    }
    push_port(out, a.port);
    proof {
        match a@.host {
            HostView::Ipv4(o) => {
                assert(out@ =~= start + address_bytes(a@));
            },
            HostView::Ipv6(o) => {
                assert(out@ =~= start + address_bytes(a@));
            },
            HostView::Domain(n) => {
                assert(out@ =~= start + address_bytes(a@));
            },
        }
    }
}

/// The wire form of `a`.
pub fn encode_address(a: &Address) -> (r: Vec<u8>)
    requires
        a.wf(),
    ensures
        r@ == address_bytes(a@),
{
    let mut out: Vec<u8> = Vec::new();
    write_address(&mut out, a);
    assert(out@ =~= address_bytes(a@));
    out
}

fn read_port(b: &[u8], i: usize) -> (r: u16)
    requires
        i + 1 < b@.len(),
    ensures
        r == port_at(b@, i as int),
{
    (b[i] as u16) * 256 + (b[i + 1] as u16)
}

fn read_ipv4(b: &[u8], pos: usize) -> (r: [u8; 4])
    requires
        pos + 4 <= b@.len(),
    ensures
        r@ == b@.subrange(pos as int, pos + 4),
{
    let n = b.len();
    let mut o = [0u8; 4];
    let mut k: usize = 0;
    while k < 4
        invariant
            k <= 4,
            pos + 4 <= n == b@.len(),
            o@.len() == 4,
            forall|j: int| 0 <= j < k ==> o@[j] == b@[pos + j],
        decreases 4 - k,
    {
        o.set(k, b[pos + k]);
        k = k + 1;
    }
    assert(o@ =~= b@.subrange(pos as int, pos + 4));
    o
}

fn read_ipv6(b: &[u8], pos: usize) -> (r: [u8; 16])
    requires
        pos + 16 <= b@.len(),
    ensures
        r@ == b@.subrange(pos as int, pos + 16),
{
    let n = b.len();
    let mut o = [0u8; 16];
    let mut k: usize = 0;
    while k < 16
        invariant
            k <= 16,
            pos + 16 <= n == b@.len(),
            o@.len() == 16,
            forall|j: int| 0 <= j < k ==> o@[j] == b@[pos + j],
        decreases 16 - k,
    {
        o.set(k, b[pos + k]);
        k = k + 1;
    }
    assert(o@ =~= b@.subrange(pos as int, pos + 16));
    o
}

fn copy_range(b: &[u8], from: usize, to: usize) -> (r: Vec<u8>)
    requires
        from <= to <= b@.len(),
    ensures
        r@ == b@.subrange(from as int, to as int),
{
    let mut out: Vec<u8> = Vec::new();
    let mut i: usize = from;
    while i < to
        invariant
            from <= i <= to <= b@.len(),
            out@ == b@.subrange(from as int, i as int),
        decreases to - i,
    {
        out.push(b[i]);
        i = i + 1;
        assert(out@ =~= b@.subrange(from as int, i as int));
    }
    out
}

/// Decodes the address that starts at `b[pos]`, returning it with the number
/// of bytes it takes.
pub fn read_address(b: &[u8], pos: usize) -> (r: Option<(Address, usize)>)
    requires
        pos <= b@.len(),
    ensures
        match parse_address(b@.subrange(pos as int, b@.len() as int)) {
            None => r is None,
            Some((v, n)) => r matches Some((a, m)) && a@ == v && m == n && a.wf(),
        },
{
    let ghost t = b@.subrange(pos as int, b@.len() as int);
    let len = b.len();
    if pos >= len {
        return None;
    }
    let atyp = b[pos];
    if atyp == ATYP_IPV4 {
        if len - pos < 7 {
            return None;
        }
        let o = read_ipv4(b, pos + 1);
        let port = read_port(b, pos + 5);
        assert(o@ =~= t.subrange(1, 5));
        return Some((Address { host: Host::Ipv4(o), port }, 7));
    } else if atyp == ATYP_IPV6 {
        if len - pos < 19 {
            return None;
        }
        let o = read_ipv6(b, pos + 1);
        let port = read_port(b, pos + 17);
        assert(o@ =~= t.subrange(1, 17));
        return Some((Address { host: Host::Ipv6(o), port }, 19));
    } else if atyp == ATYP_DOMAIN {
        if len - pos < 2 {
            return None;
        }
        let n = b[pos + 1] as usize;
        if len - pos < n + 4 {
            return None;
        }
        let name = copy_range(b, pos + 2, pos + 2 + n);
        assert(name@ =~= t.subrange(2, n + 2));
        if !is_valid_domain(name.as_slice()) {
            return None;
        }
        let port = read_port(b, pos + 2 + n);
        return Some((Address { host: Host::Domain(name), port }, n + 4));
    }
    None
}

/// Authentication method: none.
pub const METHOD_NO_AUTH: u8 = 0;

/// Authentication method reply: none of the offered methods is acceptable.
pub const METHOD_NONE_ACCEPTABLE: u8 = 0xff;

/// Request command: open a TCP stream.
pub const CMD_CONNECT: u8 = 1;

/// Request command: set up a UDP relay.
pub const CMD_UDP_ASSOCIATE: u8 = 3;

/// Reply status: succeeded.
pub const REPLY_SUCCEEDED: u8 = 0;

/// Why a SOCKS5 negotiation failed.
#[derive(Clone, Copy, PartialEq, Eq, Structural, Debug)]
pub enum HandshakeError {
    /// The message ends before its last field.
    Truncated,
    /// The version byte is not 5.
    BadVersion,
    /// The client does not offer "no authentication", or the server chose
    /// another method.
    NoAcceptableMethod,
    /// The command is neither CONNECT nor UDP ASSOCIATE.
    UnsupportedCommand,
    /// The address type is unknown, or the address is malformed.
    BadAddress,
    /// The server answered with this non-zero status.
    Refused(u8),
}

/// What a SOCKS5 request asks for.
#[derive(Clone, Copy, PartialEq, Eq, Structural, Debug)]
pub enum Command {
    Connect,
    UdpAssociate,
}

pub open spec fn command_byte(c: Command) -> u8 {
    match c {
        Command::Connect => CMD_CONNECT,
        Command::UdpAssociate => CMD_UDP_ASSOCIATE,
    }
}

pub open spec fn command_of(b: u8) -> Option<Command> {
    if b == CMD_CONNECT {
        Some(Command::Connect)
    } else if b == CMD_UDP_ASSOCIATE {
        Some(Command::UdpAssociate)
    } else {
        None
    }
}

/// Whether the method list of greeting `b` holds "no authentication".
pub open spec fn offers_no_auth(b: Seq<u8>) -> bool {
    exists|i: int| 2 <= i < 2 + b[1] as int && #[trigger] b[i] == METHOD_NO_AUTH
}

/// The server's reading of a client greeting `[5, n, methods...]`: the method
/// it selects, or why it refuses.
pub open spec fn greeting_outcome(b: Seq<u8>) -> Result<u8, HandshakeError> {
    if b.len() < 2 {
        Err(HandshakeError::Truncated)
    } else if b[0] != SOCKS_VERSION {
        Err(HandshakeError::BadVersion)
    } else if b.len() < 2 + b[1] as int {
        Err(HandshakeError::Truncated)
    } else if offers_no_auth(b) {
        Ok(METHOD_NO_AUTH)
    } else {
        Err(HandshakeError::NoAcceptableMethod)
    }
}

/// The client's reading of the server's method choice `[5, method]`.
pub open spec fn method_choice_outcome(b: Seq<u8>) -> Result<(), HandshakeError> {
    if b.len() < 2 {
        Err(HandshakeError::Truncated)
    } else if b[0] != SOCKS_VERSION {
        Err(HandshakeError::BadVersion)
    } else if b[1] != METHOD_NO_AUTH {
        Err(HandshakeError::NoAcceptableMethod)
    } else {
        Ok(())
    }
}

/// The wire form of a request: `[5, command, 0]` then the destination.
pub open spec fn request_bytes(c: Command, a: AddressView) -> Seq<u8> {
    seq![SOCKS_VERSION, command_byte(c), 0u8] + address_bytes(a)
}

/// The server's reading of a request `[5, command, reserved, address...]`:
/// the command, the destination and the number of bytes the request takes;
/// what follows them is payload.
pub open spec fn request_outcome(b: Seq<u8>) -> Result<(Command, AddressView, int), HandshakeError> {
    if b.len() < 3 {
        Err(HandshakeError::Truncated)
    } else if b[0] != SOCKS_VERSION {
        Err(HandshakeError::BadVersion)
    } else if command_of(b[1]) is None {
        Err(HandshakeError::UnsupportedCommand)
    } else {
        match parse_address(b.subrange(3, b.len() as int)) {
            None => Err(HandshakeError::BadAddress),
            Some((a, n)) => Ok((command_of(b[1])->Some_0, a, 3 + n)),
        }
    }
}

/// The wire form of a reply: `[5, status, 0]` then the bound address.
pub open spec fn reply_bytes(status: u8, a: AddressView) -> Seq<u8> {
    seq![SOCKS_VERSION, status, 0u8] + address_bytes(a)
}

/// The client's reading of a reply: the bound address, or why it failed.
pub open spec fn reply_outcome(b: Seq<u8>) -> Result<AddressView, HandshakeError> {
    if b.len() < 3 {
        Err(HandshakeError::Truncated)
    } else if b[0] != SOCKS_VERSION {
        Err(HandshakeError::BadVersion)
    } else if b[1] != REPLY_SUCCEEDED {
        Err(HandshakeError::Refused(b[1]))
    } else {
        match parse_address(b.subrange(3, b.len() as int)) {
            None => Err(HandshakeError::BadAddress),
            Some((a, _)) => Ok(a),
        }
    }
}

/// A decoded SOCKS5 request.
#[derive(Debug)]
pub struct Request {
    pub command: Command,
    pub destination: Address,
    /// The number of bytes the request took.
    pub length: usize,
}

/// Reads a client greeting and selects "no authentication".
pub fn parse_greeting(b: &[u8]) -> (r: Result<u8, HandshakeError>)
    ensures
        r == greeting_outcome(b@),
{
    let len = b.len();
    if len < 2 {
        return Err(HandshakeError::Truncated);
    }
    if b[0] != SOCKS_VERSION {
        return Err(HandshakeError::BadVersion);
    }
    let n = b[1] as usize;
    if len - 2 < n {
        return Err(HandshakeError::Truncated);
    }
    let mut i: usize = 2;
    while i < 2 + n
        invariant
            len == b@.len(),
            b@[0] == SOCKS_VERSION,
            n == b@[1] as int,
            2 + n <= len,
            2 <= i <= 2 + n,
            forall|j: int| 2 <= j < i ==> #[trigger] b@[j] != METHOD_NO_AUTH,
        decreases 2 + n - i,
    {
        if b[i] == METHOD_NO_AUTH {
            assert(b@[i as int] == METHOD_NO_AUTH);
            return Ok(METHOD_NO_AUTH);
        }
        i = i + 1;
    }
    Err(HandshakeError::NoAcceptableMethod)
}

/// The server's answer to a greeting: `[5, method]`.
pub fn greeting_reply(method: u8) -> (r: Vec<u8>)
    ensures
        r@ == seq![SOCKS_VERSION, method],
{
    let mut out: Vec<u8> = Vec::new();
    out.push(SOCKS_VERSION);
    out.push(method);
    assert(out@ =~= seq![SOCKS_VERSION, method]);
    out
}

/// The client's greeting, offering "no authentication" alone: `[5, 1, 0]`.
pub fn client_greeting() -> (r: Vec<u8>)
    ensures
        r@ == seq![SOCKS_VERSION, 1u8, METHOD_NO_AUTH],
        greeting_outcome(r@) == Ok::<u8, HandshakeError>(METHOD_NO_AUTH),
{
    let mut out: Vec<u8> = Vec::new();
    out.push(SOCKS_VERSION);
    out.push(1);
    out.push(METHOD_NO_AUTH);
    assert(out@ =~= seq![SOCKS_VERSION, 1u8, METHOD_NO_AUTH]);
    assert(out@[2] == METHOD_NO_AUTH);
    out
}

/// Reads the server's method choice; only "no authentication" is accepted.
pub fn parse_method_choice(b: &[u8]) -> (r: Result<(), HandshakeError>)
    ensures
        r == method_choice_outcome(b@),
{
    if b.len() < 2 {
        Err(HandshakeError::Truncated)
    } else if b[0] != SOCKS_VERSION {
        Err(HandshakeError::BadVersion)
    } else if b[1] != METHOD_NO_AUTH {
        Err(HandshakeError::NoAcceptableMethod)
    } else {
        Ok(())
    }
}

fn command_to_byte(c: Command) -> (r: u8)
    ensures
        r == command_byte(c),
{
    match c {
        Command::Connect => CMD_CONNECT,
        Command::UdpAssociate => CMD_UDP_ASSOCIATE,
    }
}

/// Encodes a request for `command` toward `destination`.
pub fn encode_request(command: Command, destination: &Address) -> (r: Vec<u8>)
    requires
        destination.wf(),
    ensures
        r@ == request_bytes(command, destination@),
{
    let mut out: Vec<u8> = Vec::new();
    out.push(SOCKS_VERSION);
    out.push(command_to_byte(command));
    out.push(0);
    write_address(&mut out, destination);
    assert(out@ =~= request_bytes(command, destination@));
    out
}

/// Decodes a client request.
pub fn parse_request(b: &[u8]) -> (r: Result<Request, HandshakeError>)
    ensures
        match request_outcome(b@) {
            Ok((c, a, n)) => r matches Ok(q) && q.command == c && q.destination@ == a && q.length == n
                && n <= b@.len()
                && q.destination.wf(),
            Err(e) => r matches Err(f) && f == e,
        },
{
    let len = b.len();
    if len < 3 {
        return Err(HandshakeError::Truncated);
    }
    if b[0] != SOCKS_VERSION {
        return Err(HandshakeError::BadVersion);
    }
    let command = if b[1] == CMD_CONNECT {
        Command::Connect
    } else if b[1] == CMD_UDP_ASSOCIATE {
        Command::UdpAssociate
    } else {
        return Err(HandshakeError::UnsupportedCommand);
    };
    match read_address(b, 3) {
        None => Err(HandshakeError::BadAddress),
        Some((destination, n)) => Ok(Request { command, destination, length: 3 + n }),
    }
}

/// Encodes a reply with `status` and the address the server bound.
pub fn encode_reply(status: u8, bound: &Address) -> (r: Vec<u8>)
    requires
        bound.wf(),
    ensures
        r@ == reply_bytes(status, bound@),
{
    let mut out: Vec<u8> = Vec::new();
    out.push(SOCKS_VERSION);
    out.push(status);
    out.push(0);
    write_address(&mut out, bound);
    assert(out@ =~= reply_bytes(status, bound@));
    out
}

/// Decodes the server's reply, giving the address it bound.
pub fn parse_reply(b: &[u8]) -> (r: Result<Address, HandshakeError>)
    ensures
        match reply_outcome(b@) {
            Ok(a) => r matches Ok(x) && x@ == a && x.wf(),
            Err(e) => r matches Err(f) && f == e,
        },
{
    let len = b.len();
    if len < 3 {
        return Err(HandshakeError::Truncated);
    }
    if b[0] != SOCKS_VERSION {
        return Err(HandshakeError::BadVersion);
    }
    if b[1] != REPLY_SUCCEEDED {
        return Err(HandshakeError::Refused(b[1]));
    }
    match read_address(b, 3) {
        None => Err(HandshakeError::BadAddress),
        Some((a, _)) => Ok(a),
    }
}

/// A request decodes to the command and destination it was encoded from.
pub proof fn lemma_request_round_trip(c: Command, a: AddressView)
    requires
        a.wf(),
    ensures
        request_outcome(request_bytes(c, a)) == Ok::<(Command, AddressView, int), HandshakeError>(
            (c, a, request_bytes(c, a).len() as int),
        ),
{
    let b = request_bytes(c, a);
    assert(b.subrange(3, b.len() as int) =~= address_bytes(a) + Seq::<u8>::empty());
    lemma_address_round_trip(a, Seq::<u8>::empty());
}

/// A successful reply decodes to the bound address it was encoded from.
pub proof fn lemma_reply_round_trip(a: AddressView)
    requires
        a.wf(),
    ensures
        reply_outcome(reply_bytes(REPLY_SUCCEEDED, a)) == Ok::<AddressView, HandshakeError>(a),
{
    let b = reply_bytes(REPLY_SUCCEEDED, a);
    assert(b.subrange(3, b.len() as int) =~= address_bytes(a) + Seq::<u8>::empty());
    lemma_address_round_trip(a, Seq::<u8>::empty());
}

/// Why a client's UDP datagram is dropped.
#[derive(Clone, Copy, PartialEq, Eq, Structural, Debug)]
pub enum UdpError {
    /// The datagram ends inside its header.
    Truncated,
    /// The fragment field is not zero: fragments are not reassembled.
    Fragmented,
    /// The address type is unknown, or the address is malformed.
    BadAddress,
}

/// The header of a relayed datagram: two reserved bytes, a zero fragment
/// number, then the destination.
pub open spec fn udp_header_bytes(a: AddressView) -> Seq<u8> {
    seq![0u8, 0u8, 0u8] + address_bytes(a)
}

/// The reading of a client datagram: its destination and where its payload
/// starts, or why it is dropped.
pub open spec fn udp_outcome(b: Seq<u8>) -> Result<(AddressView, int), UdpError> {
    if b.len() < 3 {
        Err(UdpError::Truncated)
    } else if b[2] != 0 {
        Err(UdpError::Fragmented)
    } else {
        match parse_address(b.subrange(3, b.len() as int)) {
            None => Err(UdpError::BadAddress),
            Some((a, n)) => Ok((a, 3 + n)),
        }
    }
}

/// The header of a client datagram.
#[derive(Debug)]
pub struct UdpHeader {
    pub destination: Address,
    pub payload_offset: usize,
}

/// Reads the header of a client datagram; a fragmented datagram is refused.
pub fn parse_udp_header(b: &[u8]) -> (r: Result<UdpHeader, UdpError>)
    ensures
        match udp_outcome(b@) {
            Ok((a, off)) => r matches Ok(h) && h.destination@ == a && h.payload_offset == off
                && h.destination.wf() && off <= b@.len(),
            Err(e) => r matches Err(f) && f == e,
        },
{
    let len = b.len();
    if len < 3 {
        return Err(UdpError::Truncated);
    }
    if b[2] != 0 {
        return Err(UdpError::Fragmented);
    }
    match read_address(b, 3) {
        None => Err(UdpError::BadAddress),
        Some((destination, n)) => Ok(UdpHeader { destination, payload_offset: 3 + n }),
    }
}

/// Encodes the header to put before a datagram's payload.
pub fn encode_udp_header(destination: &Address) -> (r: Vec<u8>)
    requires
        destination.wf(),
    ensures
        r@ == udp_header_bytes(destination@),
{
    let mut out: Vec<u8> = Vec::new();
    out.push(0);
    out.push(0);
    out.push(0);
    write_address(&mut out, destination);
    assert(out@ =~= udp_header_bytes(destination@));
    out
}

/// A datagram framed with a header decodes to its destination, and its
/// payload starts right after the header.
pub proof fn lemma_udp_round_trip(a: AddressView, payload: Seq<u8>)
    requires
        a.wf(),
    ensures
        udp_outcome(udp_header_bytes(a) + payload) == Ok::<(AddressView, int), UdpError>(
            (a, udp_header_bytes(a).len() as int),
        ),
{
    let b = udp_header_bytes(a) + payload;
    assert(b.subrange(3, b.len() as int) =~= address_bytes(a) + payload);
    lemma_address_round_trip(a, payload);
}

/// A datagram whose fragment field is not zero is dropped, whatever it holds.
pub proof fn lemma_fragment_dropped(b: Seq<u8>)
    requires
        b.len() >= 3,
        b[2] != 0,
    ensures
        udp_outcome(b) == Err::<(AddressView, int), UdpError>(UdpError::Fragmented),
{
}

} // verus!
