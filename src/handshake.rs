use vstd::prelude::*;

use crate::address::Address;
use crate::socks::{
    client_greeting, encode_reply, encode_request, greeting_outcome, greeting_reply,
    method_choice_outcome, parse_greeting, parse_method_choice, parse_reply, parse_request,
    reply_bytes, reply_outcome, request_bytes, request_outcome, Command, HandshakeError, Request,
    METHOD_NONE_ACCEPTABLE, REPLY_SUCCEEDED, SOCKS_VERSION,
};

verus! {

/// Where the accepting side of a negotiation stands.
#[derive(Clone, Copy, PartialEq, Eq, Structural, Debug)]
pub enum ServerPhase {
    /// Waiting for the client's greeting.
    AwaitGreeting,
    /// Waiting for the client's request.
    AwaitRequest,
    /// The negotiation succeeded.
    Established,
    /// The negotiation failed; the connection is to be closed.
    Failed,
}

/// What the accepting side does after a message.
#[derive(Debug)]
pub enum ServerAction {
    /// Send these bytes and wait for the next message.
    Send(Vec<u8>),
    /// Send this reply; the negotiation succeeded with this request.
    Finish(Vec<u8>, Request),
    /// Send these bytes, possibly none, and close the connection.
    Abort(Vec<u8>, HandshakeError),
}

/// The accepting side of a SOCKS5 negotiation: greeting, then request, then
/// reply, each message read whole before the next step.
#[derive(Debug)]
pub struct ServerHandshake {
    pub phase: ServerPhase,
}

impl ServerHandshake {
    pub fn new() -> (r: ServerHandshake)
        ensures
            r.phase == ServerPhase::AwaitGreeting,
    {
        ServerHandshake { phase: ServerPhase::AwaitGreeting }
    }

    /// Takes the client's next message. `bound` is the address the server
    /// reports in its reply: for UDP ASSOCIATE, where datagrams are to go.
    pub fn on_message(&mut self, msg: &[u8], bound: &Address) -> (r: ServerAction)
        requires
            old(self).phase == ServerPhase::AwaitGreeting || old(self).phase
                == ServerPhase::AwaitRequest,
            bound.wf(),
        ensures
            old(self).phase == ServerPhase::AwaitGreeting ==> match greeting_outcome(msg@) {
                Ok(m) => final(self).phase == ServerPhase::AwaitRequest && (r matches ServerAction::Send(
                    v,
                ) && v@ == seq![SOCKS_VERSION, m]),
                Err(e) => final(self).phase == ServerPhase::Failed && (r matches ServerAction::Abort(
                    v,
                    f,
                ) && f == e && v@ == if e == HandshakeError::NoAcceptableMethod {
                    seq![SOCKS_VERSION, METHOD_NONE_ACCEPTABLE]
                } else {
                    Seq::<u8>::empty()
                }),
            },
            old(self).phase == ServerPhase::AwaitRequest ==> match request_outcome(msg@) {
                Ok((c, a, n)) => final(self).phase == ServerPhase::Established && (r matches ServerAction::Finish(
                    v,
                    q,
                ) && v@ == reply_bytes(REPLY_SUCCEEDED, bound@) && q.command == c && q.length == n
                    && q.destination@ == a && q.destination.wf()),
                Err(e) => final(self).phase == ServerPhase::Failed && (r matches ServerAction::Abort(
                    v,
                    f,
                ) && f == e && v@.len() == 0),
            },
    {
        if self.phase == ServerPhase::AwaitGreeting {
            match parse_greeting(msg) {
                Ok(m) => {
                    self.phase = ServerPhase::AwaitRequest;
                    ServerAction::Send(greeting_reply(m))
                },
                Err(e) => {
                    self.phase = ServerPhase::Failed;
                    let v = if e == HandshakeError::NoAcceptableMethod {
                        greeting_reply(METHOD_NONE_ACCEPTABLE)
                    } else {
                        Vec::new()
                    };
                    ServerAction::Abort(v, e)
                },
            }
        } else {
            match parse_request(msg) {
                Ok(q) => {
                    self.phase = ServerPhase::Established;
                    ServerAction::Finish(encode_reply(REPLY_SUCCEEDED, bound), q)
                },
                Err(e) => {
                    self.phase = ServerPhase::Failed;
                    ServerAction::Abort(Vec::new(), e)
                },
            }
        }
    }
}

/// Where the connecting side of a negotiation stands.
#[derive(Clone, Copy, PartialEq, Eq, Structural, Debug)]
pub enum ClientPhase {
    /// The greeting is sent; waiting for the method choice.
    AwaitMethod,
    /// The request is sent; waiting for the reply.
    AwaitReply,
    /// The upstream server accepted the request.
    Established,
    /// The negotiation failed; the connection is to be closed.
    Failed,
}

/// What the connecting side does after a message.
#[derive(Debug)]
pub enum ClientAction {
    /// Send these bytes and wait for the next message.
    Send(Vec<u8>),
    /// The upstream server accepted; it bound this address.
    Finish(Address),
    /// Close the connection.
    Abort(HandshakeError),
}

/// The connecting side of a SOCKS5 negotiation toward an upstream server,
/// carrying one request for `destination`.
#[derive(Debug)]
pub struct ClientHandshake {
    pub phase: ClientPhase,
    pub command: Command,
    pub destination: Address,
}

impl ClientHandshake {
    /// Starts a negotiation, returning it with the greeting to send.
    pub fn start(command: Command, destination: Address) -> (r: (ClientHandshake, Vec<u8>))
        requires
            destination.wf(),
        ensures
            r.0.phase == ClientPhase::AwaitMethod,
            r.0.command == command,
            r.0.destination@ == destination@,
            r.1@ == seq![SOCKS_VERSION, 1u8, 0u8],
    {
        (ClientHandshake { phase: ClientPhase::AwaitMethod, command, destination }, client_greeting())
    }

    /// Takes the upstream server's next message.
    pub fn on_message(&mut self, msg: &[u8]) -> (r: ClientAction)
        requires
            old(self).phase == ClientPhase::AwaitMethod || old(self).phase == ClientPhase::AwaitReply,
            old(self).destination.wf(),
        ensures
            final(self).command == old(self).command,
            final(self).destination@ == old(self).destination@,
            final(self).destination.wf(),
            old(self).phase == ClientPhase::AwaitMethod ==> match method_choice_outcome(msg@) {
                Ok(_) => final(self).phase == ClientPhase::AwaitReply && (r matches ClientAction::Send(
                    v,
                ) && v@ == request_bytes(old(self).command, old(self).destination@)),
                Err(e) => final(self).phase == ClientPhase::Failed && (r matches ClientAction::Abort(
                    f,
                ) && f == e),
            },
            old(self).phase == ClientPhase::AwaitReply ==> match reply_outcome(msg@) {
                Ok(a) => final(self).phase == ClientPhase::Established && (r matches ClientAction::Finish(
                    b,
                ) && b@ == a && b.wf()),
                Err(e) => final(self).phase == ClientPhase::Failed && (r matches ClientAction::Abort(
                    f,
                ) && f == e),
            },
    {
        if self.phase == ClientPhase::AwaitMethod {
            match parse_method_choice(msg) {
                Ok(()) => {
                    self.phase = ClientPhase::AwaitReply;
                    ClientAction::Send(encode_request(self.command, &self.destination))
                },
                Err(e) => {
                    self.phase = ClientPhase::Failed;
                    ClientAction::Abort(e)
                },
            }
        } else {
            match parse_reply(msg) {
                Ok(a) => {
                    self.phase = ClientPhase::Established;
                    ClientAction::Finish(a)
                },
                Err(e) => {
                    self.phase = ClientPhase::Failed;
                    ClientAction::Abort(e)
                },
            }
        }
    }
}

} // verus!
