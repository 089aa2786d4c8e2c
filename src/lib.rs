//! A verified core for a pluggable network tunnel: the destination and
//! session model, the SOCKS5 wire codec and handshake, the DNS lookup
//! policy, and the table of outbound handlers.

pub mod address;
pub mod ipv6;
pub mod socks;
pub mod dns;
pub mod outbound;
pub mod handshake;
pub mod inbound;
