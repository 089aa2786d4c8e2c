use std::sync::Arc;

use tunnel::address::{Address, AddressError, Host, IpAddress, Network, Session, SocketAddress};
use tunnel::dns::{
    join_answers, query_types, response_ips, DnsClient, GeneralSettings, LookupError, RecordData,
    RecordType,
};
use tunnel::handshake::{
    ClientAction, ClientHandshake, ClientPhase, ServerAction, ServerHandshake, ServerPhase,
};
use tunnel::inbound::{TcpInboundHandler, UdpInboundHandler};
use tunnel::outbound::{
    OutboundConfig, OutboundManager, Socks5OutboundSettings, TcpOutboundHandler, UdpOutboundHandler,
};
use tunnel::socks::{
    encode_address, encode_reply, encode_request, encode_udp_header, parse_greeting,
    parse_method_choice, parse_reply, parse_request, parse_udp_header, read_address, Command,
    HandshakeError, UdpError,
};

fn domain(name: &str, port: u16) -> Address {
    Address { host: Host::Domain(name.as_bytes().to_vec()), port }
}

fn same_host(a: &Host, b: &Host) -> bool {
    match (a, b) {
        (Host::Ipv4(x), Host::Ipv4(y)) => x == y,
        (Host::Ipv6(x), Host::Ipv6(y)) => x == y,
        (Host::Domain(x), Host::Domain(y)) => x == y,
        _ => false,
    }
}

fn settings(address: &str, port: u16) -> Option<Socks5OutboundSettings> {
    Some(Socks5OutboundSettings { address: address.to_string(), port })
}

fn config(tag: &str, protocol: &str, s: Option<Socks5OutboundSettings>) -> OutboundConfig {
    OutboundConfig { tag: tag.to_string(), protocol: protocol.to_string(), settings: s }
}

#[test]
fn address_from_ipv4_literal() {
    let a = Address::from("127.0.0.1", 1080).unwrap();
    assert!(same_host(&a.host, &Host::Ipv4([127, 0, 0, 1])));
    assert_eq!(a.port, 1080);
}

#[test]
fn address_from_domain() {
    let a = Address::from("www.example.com", 443).unwrap();
    assert!(same_host(&a.host, &Host::Domain(b"www.example.com".to_vec())));
    let b = Address::from("256.1.1.1", 80).unwrap();
    assert!(same_host(&b.host, &Host::Domain(b"256.1.1.1".to_vec())));
    let c = Address::from("01.2.3.4", 80).unwrap();
    assert!(same_host(&c.host, &Host::Domain(b"01.2.3.4".to_vec())));
    let d = Address::from("1.2.3", 80).unwrap();
    assert!(same_host(&d.host, &Host::Domain(b"1.2.3".to_vec())));
    let e = Address::from("255.255.0.10", 80).unwrap();
    assert!(same_host(&e.host, &Host::Ipv4([255, 255, 0, 10])));
}

#[test]
fn address_from_rejects_invalid_hosts() {
    assert_eq!(Address::from("", 80).unwrap_err(), AddressError::InvalidHost);
    assert_eq!(Address::from("bad host", 80).unwrap_err(), AddressError::InvalidHost);
    assert_eq!(Address::from(".lead", 80).unwrap_err(), AddressError::InvalidHost);
    assert_eq!(Address::from("a..b", 80).unwrap_err(), AddressError::InvalidHost);
    let long = "a".repeat(256);
    assert_eq!(Address::from(&long, 80).unwrap_err(), AddressError::InvalidHost);
    assert!(Address::from(&"a".repeat(255), 80).is_ok());
}

#[test]
fn address_wire_forms() {
    let v4 = Address { host: Host::Ipv4([127, 0, 0, 1]), port: 9000 };
    assert_eq!(encode_address(&v4), vec![1, 127, 0, 0, 1, 0x23, 0x28]);
    let d = domain("ab.c", 80);
    assert_eq!(encode_address(&d), vec![3, 4, b'a', b'b', b'.', b'c', 0, 80]);
    let mut o = [0u8; 16];
    o[15] = 1;
    let v6 = Address { host: Host::Ipv6(o), port: 53 };
    let bytes = encode_address(&v6);
    assert_eq!(bytes.len(), 19);
    assert_eq!(bytes[0], 4);
}

#[test]
fn address_round_trip() {
    let mut o = [0u8; 16];
    o[0] = 0xfe;
    o[1] = 0x80;
    let cases = vec![
        Address { host: Host::Ipv4([10, 1, 2, 3]), port: 0 },
        Address { host: Host::Ipv6(o), port: 65535 },
        domain("www.baidu.com", 443),
    ];
    for a in cases {
        let mut bytes = encode_address(&a);
        bytes.extend_from_slice(&[9, 9, 9]);
        let (b, n) = read_address(&bytes, 0).unwrap();
        assert!(same_host(&a.host, &b.host));
        assert_eq!(a.port, b.port);
        assert_eq!(n, bytes.len() - 3);
    }
}

#[test]
fn read_address_refuses_bad_input() {
    assert!(read_address(&[2, 1, 2, 3, 4, 0, 80], 0).is_none());
    assert!(read_address(&[1, 1, 2, 3, 4, 0], 0).is_none());
    assert!(read_address(&[3, 3, b'a', b' ', b'b', 0, 80], 0).is_none());
    assert!(read_address(&[], 0).is_none());
}

#[test]
fn greeting_selects_no_auth() {
    assert_eq!(parse_greeting(&[5, 2, 2, 0]), Ok(0));
    assert_eq!(parse_greeting(&[5, 1, 2]), Err(HandshakeError::NoAcceptableMethod));
    assert_eq!(parse_greeting(&[4, 1, 0]), Err(HandshakeError::BadVersion));
    assert_eq!(parse_greeting(&[5, 3, 0]), Err(HandshakeError::Truncated));
    assert_eq!(parse_greeting(&[5]), Err(HandshakeError::Truncated));
}

#[test]
fn method_choice_is_checked() {
    assert_eq!(parse_method_choice(&[5, 0]), Ok(()));
    assert_eq!(parse_method_choice(&[5, 0xff]), Err(HandshakeError::NoAcceptableMethod));
    assert_eq!(parse_method_choice(&[4, 0]), Err(HandshakeError::BadVersion));
}

#[test]
fn request_round_trip_and_errors() {
    let dest = Address { host: Host::Ipv4([127, 0, 0, 1]), port: 9000 };
    let bytes = encode_request(Command::Connect, &dest);
    assert_eq!(bytes, vec![5, 1, 0, 1, 127, 0, 0, 1, 0x23, 0x28]);
    let q = parse_request(&bytes).unwrap();
    assert_eq!(q.command, Command::Connect);
    assert!(same_host(&q.destination.host, &dest.host));
    assert_eq!(q.destination.port, 9000);
    let u = parse_request(&encode_request(Command::UdpAssociate, &domain("x.org", 53))).unwrap();
    assert_eq!(u.command, Command::UdpAssociate);
    assert_eq!(parse_request(&[5, 2, 0, 1, 1, 2, 3, 4, 0, 1]).unwrap_err(), HandshakeError::UnsupportedCommand);
    assert_eq!(parse_request(&[5, 1, 0, 9, 1, 2, 3, 4, 0, 1]).unwrap_err(), HandshakeError::BadAddress);
    assert_eq!(parse_request(&[5, 1]).unwrap_err(), HandshakeError::Truncated);
    assert_eq!(parse_request(&[4, 1, 0, 1, 1, 2, 3, 4, 0, 1]).unwrap_err(), HandshakeError::BadVersion);
}

#[test]
fn reply_round_trip_and_refusal() {
    let bound = Address { host: Host::Ipv4([0, 0, 0, 0]), port: 0 };
    let bytes = encode_reply(0, &bound);
    assert_eq!(bytes, vec![5, 0, 0, 1, 0, 0, 0, 0, 0, 0]);
    let a = parse_reply(&bytes).unwrap();
    assert!(same_host(&a.host, &bound.host));
    assert_eq!(parse_reply(&encode_reply(5, &bound)).unwrap_err(), HandshakeError::Refused(5));
}

#[test]
fn fragmented_datagram_is_dropped() {
    let mut d = encode_udp_header(&domain("example.com", 53));
    d.extend_from_slice(b"payload");
    let h = parse_udp_header(&d).unwrap();
    assert_eq!(&d[h.payload_offset..], b"payload");
    d[2] = 1;
    assert_eq!(parse_udp_header(&d).unwrap_err(), UdpError::Fragmented);
    assert_eq!(parse_udp_header(&[0, 0]).unwrap_err(), UdpError::Truncated);
    assert_eq!(parse_udp_header(&[0, 0, 0, 7]).unwrap_err(), UdpError::BadAddress);
}

#[test]
fn server_handshake_connect() {
    let bound = Address { host: Host::Ipv4([127, 0, 0, 1]), port: 1080 };
    let mut s = ServerHandshake::new();
    match s.on_message(&[5, 1, 0], &bound) {
        ServerAction::Send(v) => assert_eq!(v, vec![5, 0]),
        _ => panic!("greeting refused"),
    }
    assert_eq!(s.phase, ServerPhase::AwaitRequest);
    let req = encode_request(Command::Connect, &Address { host: Host::Ipv4([127, 0, 0, 1]), port: 9000 });
    match s.on_message(&req, &bound) {
        ServerAction::Finish(v, q) => {
            assert_eq!(v, vec![5, 0, 0, 1, 127, 0, 0, 1, 0x04, 0x38]);
            assert_eq!(q.command, Command::Connect);
            assert_eq!(q.destination.port, 9000);
        }
        _ => panic!("request refused"),
    }
    assert_eq!(s.phase, ServerPhase::Established);
}

#[test]
fn server_handshake_refuses_without_no_auth() {
    let bound = Address { host: Host::Ipv4([0, 0, 0, 0]), port: 0 };
    let mut s = ServerHandshake::new();
    match s.on_message(&[5, 1, 2], &bound) {
        ServerAction::Abort(v, e) => {
            assert_eq!(v, vec![5, 0xff]);
            assert_eq!(e, HandshakeError::NoAcceptableMethod);
        }
        _ => panic!("greeting accepted"),
    }
    assert_eq!(s.phase, ServerPhase::Failed);
}

#[test]
fn client_handshake_steps() {
    let (mut c, greeting) = ClientHandshake::start(Command::Connect, domain("example.com", 80));
    assert_eq!(greeting, vec![5, 1, 0]);
    match c.on_message(&[5, 0]) {
        ClientAction::Send(v) => assert_eq!(v, encode_request(Command::Connect, &domain("example.com", 80))),
        _ => panic!("method refused"),
    }
    assert_eq!(c.phase, ClientPhase::AwaitReply);
    match c.on_message(&[5, 0, 0, 1, 10, 0, 0, 1, 0, 80]) {
        ClientAction::Finish(a) => assert!(same_host(&a.host, &Host::Ipv4([10, 0, 0, 1]))),
        _ => panic!("reply refused"),
    }
    let (mut d, _) = ClientHandshake::start(Command::Connect, domain("example.com", 80));
    match d.on_message(&[5, 0xff]) {
        ClientAction::Abort(e) => assert_eq!(e, HandshakeError::NoAcceptableMethod),
        _ => panic!("method accepted"),
    }
    assert_eq!(d.phase, ClientPhase::Failed);
}

#[test]
fn query_types_follow_policy() {
    let q = |u, p| query_types(GeneralSettings { use_ipv6: u, prefer_ipv6: p });
    assert_eq!(q(false, false), vec![RecordType::A]);
    assert_eq!(q(false, true), vec![RecordType::A]);
    assert_eq!(q(true, true), vec![RecordType::AAAA]);
    assert_eq!(q(true, false), vec![RecordType::A, RecordType::AAAA]);
}

#[test]
fn dual_stack_fails_when_one_query_fails() {
    let v6 = IpAddress::V6([0; 16]);
    let r = join_answers(&vec![Err(LookupError::Timeout), Ok(vec![v6])]);
    assert_eq!(r, Err(LookupError::Timeout));
    let r = join_answers(&vec![Ok(vec![v6]), Err(LookupError::RecvFailed)]);
    assert_eq!(r, Err(LookupError::RecvFailed));
    let v4 = IpAddress::V4([1, 2, 3, 4]);
    let r = join_answers(&vec![Ok(vec![v4]), Ok(vec![v6])]).unwrap();
    assert_eq!(r, vec![v4, v6]);
}

#[test]
fn response_answers_are_filtered() {
    let answers = vec![RecordData::A([1, 2, 3, 4]), RecordData::Other, RecordData::AAAA([1; 16])];
    let r = response_ips(7, 7, 0, &answers).unwrap();
    assert_eq!(r, vec![IpAddress::V4([1, 2, 3, 4]), IpAddress::V6([1; 16])]);
    assert_eq!(response_ips(7, 8, 0, &answers), Err(LookupError::BadResponse));
    assert_eq!(response_ips(7, 7, 2, &answers), Err(LookupError::BadResponse));
}

#[test]
fn resolver_pick() {
    let s1 = SocketAddress { ip: IpAddress::V4([8, 8, 8, 8]), port: 53 };
    let s2 = SocketAddress { ip: IpAddress::V4([1, 1, 1, 1]), port: 53 };
    let general = GeneralSettings { use_ipv6: true, prefer_ipv6: false };
    let c = DnsClient::new(vec![s1, s2], general);
    assert_eq!(c.pick_server(3), Ok(s2));
    assert_eq!(c.pick_server(4), Ok(s1));
    let plan = c.lookup_plan().unwrap();
    assert!(plan.server == s1 || plan.server == s2);
    assert_eq!(plan.queries, vec![RecordType::A, RecordType::AAAA]);
    let empty = DnsClient::new(vec![], general);
    assert_eq!(empty.pick_server(0), Err(LookupError::NoResolvers));
    assert_eq!(empty.lookup_plan().unwrap_err(), LookupError::NoResolvers);
}

#[test]
fn query_message_is_encoded() {
    let (id, bytes) = DnsClient::new_query("www.baidu.com", RecordType::A).unwrap();
    assert_eq!(u16::from_be_bytes([bytes[0], bytes[1]]), id);
    assert!(bytes.len() > 12 + 15);
    assert_eq!(&bytes[bytes.len() - 4..], &[0, 1, 0, 1]);
    let (_, six) = DnsClient::new_query("www.baidu.com", RecordType::AAAA).unwrap();
    assert_eq!(&six[six.len() - 4..], &[0, 28, 0, 1]);
}

#[test]
fn response_is_read() {
    let mut m = vec![0x12, 0x34, 0x81, 0x80, 0, 0, 0, 1, 0, 0, 0, 0];
    m.extend_from_slice(&[0, 0, 1, 0, 1, 0, 0, 0, 60, 0, 4, 1, 2, 3, 4]);
    let ips = DnsClient::read_response(0x1234, &m).unwrap();
    assert_eq!(ips, vec![IpAddress::V4([1, 2, 3, 4])]);
    assert_eq!(DnsClient::read_response(0x4321, &m), Err(LookupError::BadResponse));
    assert_eq!(DnsClient::read_response(0x1234, &[1, 2]), Err(LookupError::BadResponse));
}

#[test]
fn manager_skips_malformed_socks_entry() {
    let m = OutboundManager::new(vec![
        config("bad", "socks", None),
        config("out", "direct", None),
    ]);
    assert!(m.get_handler("bad").is_none());
    let h = m.get_handler("out").unwrap();
    assert_eq!(h.tag, "out");
    assert!(matches!(h.tcp, Some(TcpOutboundHandler::Direct)));
    assert!(matches!(h.udp, Some(UdpOutboundHandler::Direct)));
}

#[test]
fn manager_builds_socks_and_skips_unknown() {
    let m = OutboundManager::new(vec![
        config("up", "socks", settings("127.0.0.1", 1081)),
        config("bad-addr", "socks", settings("no such host", 1)),
        config("ss", "shadowsocks", None),
    ]);
    let h = m.get_handler("up").unwrap();
    match &h.tcp {
        Some(TcpOutboundHandler::Socks { address }) => {
            assert!(same_host(&address.host, &Host::Ipv4([127, 0, 0, 1])));
            assert_eq!(address.port, 1081);
        }
        _ => panic!("not a socks handler"),
    }
    match &h.udp {
        Some(UdpOutboundHandler::Socks { addr, port }) => {
            assert_eq!(addr, "127.0.0.1");
            assert_eq!(*port, 1081);
        }
        _ => panic!("not a socks handler"),
    }
    assert!(m.get_handler("bad-addr").is_none());
    assert!(m.get_handler("ss").is_none());
}

#[test]
fn manager_last_entry_wins_and_lookup_is_stable() {
    let m = OutboundManager::new(vec![
        config("t", "socks", settings("proxy.example", 1080)),
        config("t", "direct", None),
    ]);
    let a = m.get_handler("t").unwrap();
    let b = m.get_handler("t").unwrap();
    assert!(Arc::ptr_eq(&a, &b));
    assert!(matches!(a.tcp, Some(TcpOutboundHandler::Direct)));
    assert!(m.get_handler("missing-tag").is_none());
    let empty = OutboundManager::new(vec![]);
    assert!(empty.get_handler("t").is_none());
}

#[test]
fn session_keeps_its_fields() {
    let local = SocketAddress { ip: IpAddress::V4([127, 0, 0, 1]), port: 1080 };
    let peer = SocketAddress { ip: IpAddress::V4([127, 0, 0, 1]), port: 50000 };
    let s = Session::new(domain("example.com", 80), Network::Tcp, local, peer);
    assert_eq!(s.network, Network::Tcp);
    assert_eq!(s.local_peer, local);
    assert_eq!(s.peer_address, peer);
    assert_eq!(s.destination.port, 80);
}

#[test]
fn tcp_inbound_makes_session_from_request() {
    let local = SocketAddress { ip: IpAddress::V4([127, 0, 0, 1]), port: 1080 };
    let peer = SocketAddress { ip: IpAddress::V4([127, 0, 0, 1]), port: 40000 };
    let stub = Session::new(domain("unset.local", 0), Network::Tcp, local, peer);
    let h = TcpInboundHandler;
    assert_eq!(h.handshake().phase, ServerPhase::AwaitGreeting);
    let req = parse_request(&[5, 3, 0, 1, 10, 0, 0, 2, 0, 53]).unwrap();
    let s = h.handle(stub, req);
    assert_eq!(s.network, Network::Udp);
    assert!(same_host(&s.destination.host, &Host::Ipv4([10, 0, 0, 2])));
    assert_eq!(s.destination.port, 53);
    assert_eq!(s.peer_address, peer);
}

#[test]
fn udp_inbound_drops_fragments() {
    let h = UdpInboundHandler;
    let mut d = encode_udp_header(&Address { host: Host::Ipv4([127, 0, 0, 1]), port: 9000 });
    d.extend_from_slice(b"helloworld");
    let (a, off) = h.accept_datagram(&d).unwrap();
    assert_eq!(a.port, 9000);
    assert_eq!(&d[off..], b"helloworld");
    d[2] = 3;
    assert!(h.accept_datagram(&d).is_none());
}

#[test]
fn request_length_leaves_payload() {
    let mut bytes = vec![5, 1, 0, 1, 127, 0, 0, 1, 0x23, 0x28];
    bytes.extend_from_slice(b"helloworld");
    let q = parse_request(&bytes).unwrap();
    assert_eq!(q.length, 10);
    assert_eq!(&bytes[q.length..], b"helloworld");
    assert_eq!(q.destination.port, 9000);
}

#[test]
fn address_from_ipv6_literals() {
    let mut one = [0u8; 16];
    one[15] = 1;
    let a = Address::from("::1", 1080).unwrap();
    assert!(same_host(&a.host, &Host::Ipv6(one)));
    let z = Address::from("::", 1).unwrap();
    assert!(same_host(&z.host, &Host::Ipv6([0; 16])));
    let full = Address::from("2001:db8:0:0:0:0:0:1", 1).unwrap();
    let mut f = [0u8; 16];
    f[0] = 0x20;
    f[1] = 0x01;
    f[2] = 0x0d;
    f[3] = 0xb8;
    f[15] = 1;
    assert!(same_host(&full.host, &Host::Ipv6(f)));
    let mid = Address::from("2001:DB8::1", 1).unwrap();
    assert!(same_host(&mid.host, &Host::Ipv6(f)));
    let mut t = [0u8; 16];
    t[0] = 0xfe;
    t[1] = 0x80;
    let trail = Address::from("fe80::", 1).unwrap();
    assert!(same_host(&trail.host, &Host::Ipv6(t)));
    assert_eq!(Address::from("1::2::3", 1).unwrap_err(), AddressError::InvalidHost);
    assert_eq!(Address::from("12345::", 1).unwrap_err(), AddressError::InvalidHost);
    assert_eq!(Address::from("1:2:3:4:5:6:7", 1).unwrap_err(), AddressError::InvalidHost);
    assert_eq!(Address::from(":::", 1).unwrap_err(), AddressError::InvalidHost);
}

#[test]
fn manager_accepts_ipv6_upstream() {
    let m = OutboundManager::new(vec![config("v6", "socks", settings("::1", 1080))]);
    let h = m.get_handler("v6").unwrap();
    match &h.tcp {
        Some(TcpOutboundHandler::Socks { address }) => {
            let mut one = [0u8; 16];
            one[15] = 1;
            assert!(same_host(&address.host, &Host::Ipv6(one)));
        }
        _ => panic!("not a socks handler"),
    }
}

#[test]
fn query_for_invalid_host_fails() {
    assert_eq!(DnsClient::new_query("a..b", RecordType::A).unwrap_err(), LookupError::BadQuery);
}
