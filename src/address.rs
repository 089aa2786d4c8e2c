use vstd::prelude::*;
use vstd::utf8::encode_utf8;

use crate::ipv6::{ipv6_octets, parse_ipv6};

verus! {

/// The longest domain name that fits a SOCKS5 length-prefixed address.
pub const MAX_DOMAIN_LEN: usize = 255;

/// A byte that may stand in a domain name: a letter, a digit, `-`, `_` or `.`.
pub open spec fn is_domain_byte(b: u8) -> bool {
    (0x61 <= b && b <= 0x7a) || (0x41 <= b && b <= 0x5a) || (0x30 <= b && b <= 0x39) || b == 0x2d
        || b == 0x5f || b == 0x2e
}

/// A syntactically valid domain name: 1 to 255 name bytes, not starting with
/// a dot and with no empty label between two dots.
pub open spec fn valid_domain(s: Seq<u8>) -> bool {
    &&& 0 < s.len() <= MAX_DOMAIN_LEN
    &&& forall|i: int| 0 <= i < s.len() ==> is_domain_byte(#[trigger] s[i])
    &&& s[0] != 0x2e
    &&& forall|i: int| 0 <= i < s.len() - 1 ==> !(#[trigger] s[i] == 0x2e && s[i + 1] == 0x2e)
}

/// An IP address, as its network-order octets.
#[derive(Clone, Copy, PartialEq, Eq, Debug)]
pub enum IpAddress {
    V4([u8; 4]),
    V6([u8; 16]),
}

/// The host part of a destination.
#[derive(Clone, Debug)]
pub enum Host {
    Ipv4([u8; 4]),
    Ipv6([u8; 16]),
    Domain(Vec<u8>),
}

/// The mathematical view of a host.
pub ghost enum HostView {
    Ipv4(Seq<u8>),
    Ipv6(Seq<u8>),
    Domain(Seq<u8>),
}

/// A proxied destination: a host and a port.
#[derive(Clone, Debug)]
pub struct Address {
    pub host: Host,
    pub port: u16,
}

/// The mathematical view of a destination.
pub ghost struct AddressView {
    pub host: HostView,
    pub port: u16,
}

impl View for Host {
    type V = HostView;

    open spec fn view(&self) -> HostView {
        match self {
            Host::Ipv4(o) => HostView::Ipv4(o@),
            Host::Ipv6(o) => HostView::Ipv6(o@),
            Host::Domain(n) => HostView::Domain(n@),
        }
    }
}

impl View for Address {
    type V = AddressView;

    open spec fn view(&self) -> AddressView {
        AddressView { host: self.host@, port: self.port }
    }
}

impl HostView {
    /// IP octets have their family's length; a domain name is valid.
    pub open spec fn wf(self) -> bool {
        match self {
            HostView::Ipv4(o) => o.len() == 4,
            HostView::Ipv6(o) => o.len() == 16,
            HostView::Domain(n) => valid_domain(n),
        }
    }
}

impl AddressView {
    pub open spec fn wf(self) -> bool {
        self.host.wf()
    }
}

impl Address {
    pub open spec fn wf(&self) -> bool {
        self@.wf()
    }
}

/// Errors in building a destination.
#[derive(Clone, Copy, PartialEq, Eq, Structural, Debug)]
pub enum AddressError {
    InvalidHost,
}

/// Whether the bytes form a valid domain name, as `valid_domain` states.
pub fn is_valid_domain(s: &[u8]) -> (r: bool)
    ensures
        r == valid_domain(s@),
{
    let n = s.len();
    if n == 0 || n > MAX_DOMAIN_LEN {
        return false;
    }
    if s[0] == 0x2e {
        return false;
    }
    let mut i: usize = 0;
    while i < n
        invariant
            n == s@.len(),
            0 < n <= MAX_DOMAIN_LEN,
            s@[0] != 0x2e,
            i <= n,
            forall|j: int| 0 <= j < i ==> is_domain_byte(#[trigger] s@[j]),
            forall|j: int| 0 <= j < i && j < n - 1 ==> !(#[trigger] s@[j] == 0x2e && s@[j + 1] == 0x2e),
        decreases n - i,
    {
        let b = s[i];
        let ok = (0x61 <= b && b <= 0x7a) || (0x41 <= b && b <= 0x5a) || (0x30 <= b && b <= 0x39)
            || b == 0x2d || b == 0x5f || b == 0x2e;
        if !ok {
            return false;
        }
        if i + 1 < n && b == 0x2e && s[i + 1] == 0x2e {
            return false;
        }
        i = i + 1;
    }
    true
}

/// The decimal digits of `n`, without leading zeros.
pub open spec fn decimal(n: nat) -> Seq<u8>
    decreases n,
{
    if n < 10 {
        seq![(0x30 + n) as u8]
    } else {
        decimal(n / 10) + seq![(0x30 + n % 10) as u8]
    }
}

/// The dotted-quad text of four IPv4 octets.
pub open spec fn ipv4_text(o: Seq<u8>) -> Seq<u8> {
    decimal(o[0] as nat) + seq![0x2eu8] + decimal(o[1] as nat) + seq![0x2eu8] + decimal(o[2] as nat)
        + seq![0x2eu8] + decimal(o[3] as nat)
}

/// Whether `h` is the host that the text `t` names: the IPv4 address whose
/// dotted quad it is, the IPv6 address it spells, or the domain name it
/// spells.
pub open spec fn names_host(h: HostView, t: Seq<u8>) -> bool {
    match h {
        HostView::Ipv4(o) => t == ipv4_text(o),
        HostView::Ipv6(o) => ipv6_octets(t) == Some(o),
        HostView::Domain(n) => n == t,
    }
}

fn push_decimal(out: &mut Vec<u8>, n: u8)
    ensures
        final(out)@ == old(out)@ + decimal(n as nat),
{
    let ghost start = out@;
    if n >= 100 {
        out.push(0x30 + n / 100);
    }
    if n >= 10 {
        out.push(0x30 + (n / 10) % 10);
    }
    out.push(0x30 + n % 10);
    proof {
        let k = n as nat;
        if k >= 100 {
            assert(decimal(k / 10 / 10) =~= seq![(0x30 + k / 100) as u8]);
            assert(decimal(k / 10) =~= decimal(k / 10 / 10) + seq![(0x30 + (k / 10) % 10) as u8]);
        } else if k >= 10 {
            assert(decimal(k / 10) =~= seq![(0x30 + k / 10) as u8]);
        }
        assert(out@ =~= start + decimal(k));
    }
}

fn render_ipv4(o: [u8; 4]) -> (r: Vec<u8>)
    ensures
        r@ == ipv4_text(o@),
{
    let mut out: Vec<u8> = Vec::new();
    push_decimal(&mut out, o[0]);
    out.push(0x2e);
    push_decimal(&mut out, o[1]);
    out.push(0x2e);
    push_decimal(&mut out, o[2]);
    out.push(0x2e);
    push_decimal(&mut out, o[3]);
    assert(out@ =~= ipv4_text(o@));
    out
}

/// The number that a run of decimal digits spells.
pub open spec fn digits_value(f: Seq<u8>) -> nat
    decreases f.len(),
{
    if f.len() == 0 {
        0
    } else {
        digits_value(f.drop_last()) * 10 + (f.last() - 0x30) as nat
    }
}

pub open spec fn is_digit(b: u8) -> bool {
    0x30 <= b && b <= 0x39
}

/// Whether a host text is accepted: a dotted-quad IPv4 literal, an IPv6
/// literal or a valid domain name.
pub open spec fn valid_host(t: Seq<u8>) -> bool {
    is_ipv4_text(t) || ipv6_octets(t) is Some || valid_domain(t)
}

/// Whether `t` is the dotted quad of some IPv4 address.
pub open spec fn is_ipv4_text(t: Seq<u8>) -> bool {
    exists|o: Seq<u8>| o.len() == 4 && #[trigger] ipv4_text(o) == t
}

proof fn lemma_decimal_value(n: nat)
    ensures
        digits_value(decimal(n)) == n,
    decreases n,
{
    let d = decimal(n);
    assert(digits_value(Seq::<u8>::empty()) == 0);
    if n < 10 {
        assert(d.drop_last() =~= Seq::<u8>::empty());
        assert(d.last() == (0x30 + n) as u8);
    } else {
        lemma_decimal_value(n / 10);
        assert(d.drop_last() =~= decimal(n / 10));
        assert(d.last() == (0x30 + n % 10) as u8);
        assert((n / 10) * 10 + n % 10 == n);
    }
}

proof fn lemma_decimal(n: nat)
    requires
        n < 256,
    ensures
        1 <= decimal(n).len() <= 3,
        forall|i: int| 0 <= i < decimal(n).len() ==> is_digit(#[trigger] decimal(n)[i]),
        digits_value(decimal(n)) == n,
{
    lemma_decimal_value(n);
    if n >= 100 {
        let d2 = decimal(n / 10 / 10);
        let d1 = decimal(n / 10);
        assert(d2 =~= seq![(0x30 + n / 100) as u8]);
        assert(d1 =~= d2 + seq![(0x30 + (n / 10) % 10) as u8]);
    } else if n >= 10 {
        let d1 = decimal(n / 10);
        assert(d1 =~= seq![(0x30 + n / 10) as u8]);
    }
}

/// Reads a run of at most three digits at `s[pos]`, with its value when it
/// is at most 255. Where the text there is the decimal form of `n`, ended by
/// a dot or the end of the text, that is what it reads.
fn read_field(s: &[u8], pos: usize, Ghost(n): Ghost<nat>) -> (r: Option<(u8, usize)>)
    requires
        pos <= s@.len(),
    ensures
        r matches Some((_, e)) ==> pos < e <= s@.len(),
        ({
            let l = decimal(n).len() as int;
            n < 256 && pos + l <= s@.len() && s@.subrange(pos as int, pos + l) == decimal(n) && (
            pos + l == s@.len() || s@[pos + l] == 0x2e)
        }) ==> r == Some::<(u8, usize)>((n as u8, (pos + decimal(n).len()) as usize)),
{
    let len = s.len();
    let ghost h = {
        let l = decimal(n).len() as int;
        n < 256 && pos + l <= s@.len() && s@.subrange(pos as int, pos + l) == decimal(n) && (pos
            + l == s@.len() || s@[pos + l] == 0x2e)
    };
    proof {
        if h {
            lemma_decimal(n);
        }
    }
    let mut v: u32 = 0;
    let mut e: usize = pos;
    while e < len && e - pos < 3 && 0x30 <= s[e] && s[e] <= 0x39
        invariant
            len == s@.len(),
            pos <= e <= len,
            e - pos <= 3,
            v == digits_value(s@.subrange(pos as int, e as int)),
            e - pos == 0 ==> v == 0,
            e - pos <= 1 ==> v < 10,
            e - pos <= 2 ==> v < 100,
            v < 1000,
            h ==> 1 <= decimal(n).len() <= 3 && digits_value(decimal(n)) == n,
            h ==> n < 256 && pos + decimal(n).len() <= len && s@.subrange(
                pos as int,
                pos + decimal(n).len(),
            ) == decimal(n) && (pos + decimal(n).len() == len || s@[pos + decimal(n).len()]
                == 0x2e),
            h ==> e <= pos + decimal(n).len() && s@.subrange(pos as int, e as int)
                == decimal(n).subrange(0, e - pos),
        decreases len - e,
    {
        let ghost before = s@.subrange(pos as int, e as int);
        proof {
            if h {
                let l = decimal(n).len() as int;
                if e == pos + l {
                    assert(s@[e as int] == 0x2e);
                }
            }
        }
        v = v * 10 + (s[e] - 0x30) as u32;
        e = e + 1;
        assert(s@.subrange(pos as int, e as int).drop_last() =~= before);
        proof {
            if h {
                let l = decimal(n).len() as int;
                assert(s@.subrange(pos as int, e as int) =~= s@.subrange(pos as int, pos + l).subrange(
                    0,
                    e - pos,
                ));
            }
        }
    }
    proof {
        if h {
            let l = decimal(n).len() as int;
            lemma_decimal(n);
            if e < pos + l {
                assert(s@[e as int] == s@.subrange(pos as int, pos + l)[e - pos]);
                assert(is_digit(decimal(n)[e - pos]));
            }
            assert(decimal(n).subrange(0, l) =~= decimal(n));
        }
    }
    if e == pos || v > 255 {
        return None;
    }
    Some((v as u8, e))
}

/// Reads four dot-separated fields of decimal digits; where the text is the
/// dotted quad of `o`, that gives `o`. Whether the text is exactly a dotted
/// quad is settled by rendering the octets back.
fn scan_ipv4(s: &[u8], Ghost(o): Ghost<Seq<u8>>) -> (r: Option<[u8; 4]>)
    ensures
        o.len() == 4 && s@ == ipv4_text(o) ==> (r matches Some(x) && x@ == o),
{
    let len = s.len();
    let ghost h = o.len() == 4 && s@ == ipv4_text(o);
    let ghost l0 = decimal(o[0] as nat).len() as int;
    let ghost l1 = decimal(o[1] as nat).len() as int;
    let ghost l2 = decimal(o[2] as nat).len() as int;
    let ghost l3 = decimal(o[3] as nat).len() as int;
    proof {
        if h {
            let d0 = decimal(o[0] as nat);
            let d1 = decimal(o[1] as nat);
            let d2 = decimal(o[2] as nat);
            let d3 = decimal(o[3] as nat);
            let t = s@;
            assert(t =~= d0 + seq![0x2eu8] + d1 + seq![0x2eu8] + d2 + seq![0x2eu8] + d3);
            assert(t.subrange(0, l0) =~= d0);
            assert(t[l0] == 0x2e);
            assert(t.subrange(l0 + 1, l0 + 1 + l1) =~= d1);
            assert(t[l0 + 1 + l1] == 0x2e);
            assert(t.subrange(l0 + l1 + 2, l0 + l1 + 2 + l2) =~= d2);
            assert(t[l0 + l1 + 2 + l2] == 0x2e);
            assert(t.subrange(l0 + l1 + l2 + 3, l0 + l1 + l2 + 3 + l3) =~= d3);
            assert(t.len() == l0 + l1 + l2 + l3 + 3);
        }
    }
    let (a, p) = match read_field(s, 0, Ghost(o[0] as nat)) {
        Some(x) => x,
        None => return None,
    };
    if p >= len || s[p] != 0x2e {
        return None;
    }
    let (b, p) = match read_field(s, p + 1, Ghost(o[1] as nat)) {
        Some(x) => x,
        None => return None,
    };
    if p >= len || s[p] != 0x2e {
        return None;
    }
    let (c, p) = match read_field(s, p + 1, Ghost(o[2] as nat)) {
        Some(x) => x,
        None => return None,
    };
    if p >= len || s[p] != 0x2e {
        return None;
    }
    let (d, p) = match read_field(s, p + 1, Ghost(o[3] as nat)) {
        Some(x) => x,
        None => return None,
    };
    if p != len {
        return None;
    }
    let x = [a, b, c, d];
    assert(h ==> x@ =~= o);
    Some(x)
}

fn bytes_equal(a: &[u8], b: &[u8]) -> (r: bool)
    ensures
        r == (a@ == b@),
{
    if a.len() != b.len() {
        return false;
    }
    let mut i: usize = 0;
    while i < a.len()
        invariant
            a@.len() == b@.len(),
            i <= a@.len(),
            forall|j: int| 0 <= j < i ==> a@[j] == b@[j],
        decreases a@.len() - i,
    {
        if a[i] != b[i] {
            return false;
        }
        i = i + 1;
    }
    assert(a@ =~= b@);
    true
}

fn copy_bytes(s: &[u8]) -> (r: Vec<u8>)
    ensures
        r@ == s@,
{
    let mut out: Vec<u8> = Vec::new();
    let mut i: usize = 0;
    while i < s.len()
        invariant
            i <= s@.len(),
            out@ == s@.subrange(0, i as int),
        decreases s@.len() - i,
    {
        out.push(s[i]);
        i = i + 1;
        assert(out@ =~= s@.subrange(0, i as int));
    }
    assert(out@ =~= s@);
    out
}

impl Address {
    /// Builds a destination from a host text and a port: a dotted-quad IPv4
    /// literal becomes an IPv4 address, an IPv6 literal an IPv6 address, any
    /// other valid domain name stays a name, and anything else is refused.
    pub fn from(host: &str, port: u16) -> (r: Result<Address, AddressError>)
        ensures
            r is Err <==> !valid_host(encode_utf8(host@)),
            r matches Ok(a) ==> a.port == port && a.wf() && names_host(a@.host, encode_utf8(host@)),
            is_ipv4_text(encode_utf8(host@)) ==> (r matches Ok(a) && a.host is Ipv4),
            !is_ipv4_text(encode_utf8(host@)) && ipv6_octets(encode_utf8(host@)) is Some ==> (r matches Ok(
                a,
            ) && a.host is Ipv6),
    {
        let b = host.as_bytes();
        let ghost w: Seq<u8> = if is_ipv4_text(b@) {
            choose|o: Seq<u8>| o.len() == 4 && #[trigger] ipv4_text(o) == b@
        } else {
            seq![0u8, 0u8, 0u8, 0u8]
        };
        if let Some(o) = scan_ipv4(b, Ghost(w)) {
            let text = render_ipv4(o);
            if bytes_equal(text.as_slice(), b) {
                return Ok(Address { host: Host::Ipv4(o), port });
            }
        }
        if let Some(o) = parse_ipv6(b) {
            return Ok(Address { host: Host::Ipv6(o), port });
        }
        if !is_valid_domain(b) {
            return Err(AddressError::InvalidHost);
        }
        Ok(Address { host: Host::Domain(copy_bytes(b)), port })
    }

    /// A copy of this address with the same view.
    pub fn duplicate(&self) -> (r: Address)
        ensures
            r@ == self@,
    {
        let host = match &self.host {
            Host::Ipv4(o) => Host::Ipv4(*o),
            Host::Ipv6(o) => Host::Ipv6(*o),
            Host::Domain(n) => Host::Domain(copy_bytes(n.as_slice())),
        };
        Address { host, port: self.port }
    }
}

/// An IP address and a port.
#[derive(Clone, Copy, PartialEq, Eq, Debug)]
pub struct SocketAddress {
    pub ip: IpAddress,
    pub port: u16,
}

/// The transport of a proxied flow.
#[derive(Clone, Copy, PartialEq, Eq, Structural, Debug)]
pub enum Network {
    Tcp,
    Udp,
}

/// One proxied flow: where it goes, over which transport, and the two ends of
/// the client's connection to the proxy.
#[derive(Debug)]
pub struct Session {
    pub destination: Address,
    pub network: Network,
    pub local_peer: SocketAddress,
    pub peer_address: SocketAddress,
}

impl Session {
    pub fn new(
        destination: Address,
        network: Network,
        local_peer: SocketAddress,
        peer_address: SocketAddress,
    ) -> (r: Session)
        ensures
            r.destination@ == destination@,
            r.network == network,
            r.local_peer == local_peer,
            r.peer_address == peer_address,
    {
        Session { destination, network, local_peer, peer_address }
    }
}

} // verus!
