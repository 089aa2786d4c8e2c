use vstd::prelude::*;

use crate::address::{Address, Network, Session};
use crate::handshake::{ServerHandshake, ServerPhase};
use crate::socks::{parse_udp_header, udp_outcome, Command, Request};

verus! {

/// The transport that a request's command asks for.
pub open spec fn network_of(c: Command) -> Network {
    match c {
        Command::Connect => Network::Tcp,
        Command::UdpAssociate => Network::Udp,
    }
}

/// The SOCKS5 inbound for streams: it negotiates with the client and turns
/// the request into the session of the flow.
#[derive(Clone, Copy, Debug)]
pub struct TcpInboundHandler;

impl TcpInboundHandler {
    /// The negotiation to run on a newly accepted stream.
    pub fn handshake(&self) -> (r: ServerHandshake)
        ensures
            r.phase == ServerPhase::AwaitGreeting,
    {
        ServerHandshake::new()
    }

    /// The session of a negotiated stream: the request's destination, over
    /// the transport its command asks for, between the stub's two ends.
    pub fn handle(&self, conn: Session, request: Request) -> (r: Session)
        ensures
            r.destination@ == request.destination@,
            r.network == network_of(request.command),
            r.local_peer == conn.local_peer,
            r.peer_address == conn.peer_address,
    {
        let network = match request.command {
            Command::Connect => Network::Tcp,
            Command::UdpAssociate => Network::Udp,
        };
        Session::new(request.destination, network, conn.local_peer, conn.peer_address)
    }
}

/// The SOCKS5 inbound for datagrams: the association itself is the whole
/// negotiation, and each datagram carries its own destination.
#[derive(Clone, Copy, Debug)]
pub struct UdpInboundHandler;

impl UdpInboundHandler {
    /// The session of an association is the one it was opened with.
    pub fn handle(&self, conn: Session) -> (r: Session)
        ensures
            r.destination@ == conn.destination@,
            r.network == conn.network,
            r.local_peer == conn.local_peer,
            r.peer_address == conn.peer_address,
    {
        conn
    }

    /// Where a client datagram goes and where its payload starts; `None` for
    /// a datagram to drop, a fragmented one among them.
    pub fn accept_datagram(&self, d: &[u8]) -> (r: Option<(Address, usize)>)
        ensures
            match udp_outcome(d@) {
                Err(_) => r is None,
                Ok((a, off)) => r matches Some((x, o)) && x@ == a && o == off && x.wf() && o
                    <= d@.len(),
            },
    {
        match parse_udp_header(d) {
            Ok(h) => Some((h.destination, h.payload_offset)),
            Err(_) => None,
        }
    }
}

} // verus!
