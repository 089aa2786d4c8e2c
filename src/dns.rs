use vstd::prelude::*;

use trust_dns_proto::op::{Message, MessageType, OpCode, Query};
use trust_dns_proto::rr::{Name, RData};
use trust_dns_proto::serialize::binary::{BinDecodable, BinEncodable};

use crate::address::{IpAddress, SocketAddress};

verus! {

/// The DNS record types that a lookup asks for.
#[derive(Clone, Copy, PartialEq, Eq, Structural, Debug)]
pub enum RecordType {
    A,
    AAAA,
}

/// The address-family policy of lookups.
#[derive(Clone, Copy, PartialEq, Eq, Structural, Debug)]
pub struct GeneralSettings {
    pub use_ipv6: bool,
    pub prefer_ipv6: bool,
}

/// Why a lookup failed.
#[derive(Clone, Copy, PartialEq, Eq, Structural, Debug)]
pub enum LookupError {
    /// No upstream resolver is configured.
    NoResolvers,
    /// The query could not be sent.
    SendFailed,
    /// No response could be read.
    RecvFailed,
    /// The response does not answer the query, or reports an error.
    BadResponse,
    /// No response came in time.
    Timeout,
    /// The host cannot be put in a query.
    BadQuery,
}

/// The data of one answer record, as far as a lookup reads it.
#[derive(Clone, Copy, PartialEq, Eq, Debug)]
pub enum RecordData {
    A([u8; 4]),
    AAAA([u8; 16]),
    Other,
}

/// The record type code of A records.
pub const QTYPE_A: u16 = 1;

/// The record type code of AAAA records.
pub const QTYPE_AAAA: u16 = 28;

pub open spec fn qtype_of(t: RecordType) -> u16 {
    match t {
        RecordType::A => QTYPE_A,
        RecordType::AAAA => QTYPE_AAAA,
    }
}

/// The DNS message that queries `host` for records of type `qtype`, with
/// transaction id `id` and recursion desired.
pub uninterp spec fn dns_query_bytes(host: Seq<char>, qtype: u16, id: u16) -> Seq<u8>;

/// Whether `host` reads as a DNS name, so that a query for it can be built.
pub uninterp spec fn query_name_ok(host: Seq<char>) -> bool;

/// What a DNS message says, as far as a lookup reads it: its id, its response
/// code and the data of its answers; `None` if it cannot be decoded.
pub uninterp spec fn decoded_response(b: Seq<u8>) -> Option<(u16, u16, Seq<RecordData>)>;

pub assume_specification<T>[ rand::random::<T> ]() -> (r: T)
    where
        rand::distributions::Standard: rand::distributions::Distribution<T>,
;

/// Relies on trust_dns_proto: `Name::from_str` reads the host and
/// `Message::to_vec` encodes the recursive query; `None` exactly where the
/// host is no DNS name (the encoding of one query of a read name does not
/// fail).
#[verifier::external_body]
fn encode_query(host: &str, qtype: u16, id: u16) -> (r: Option<Vec<u8>>)
    ensures
        r is Some <==> query_name_ok(host@),
        r matches Some(b) ==> b@ == dns_query_bytes(host@, qtype, id),
{
    let name = <Name as std::str::FromStr>::from_str(host).ok()?;
    let mut message = Message::new();
    message.add_query(Query::query(name, qtype.into()));
    message.set_message_type(MessageType::Query).set_id(id).set_op_code(OpCode::Query);
    message.set_recursion_desired(true);
    message.to_vec().ok()
}

/// Relies on trust_dns_proto's `Message::from_bytes`: the id, the response
/// code and the answers' data of a DNS message.
#[verifier::external_body]
fn decode_response(b: &[u8]) -> (r: Option<(u16, u16, Vec<RecordData>)>)
    ensures
        match decoded_response(b@) {
            None => r is None,
            Some((i, c, d)) => r matches Some(x) && x.0 == i && x.1 == c && x.2@ == d,
        },
{
    let m = Message::from_bytes(b).ok()?;
    let data = m.answers().iter().map(|a| match a.rdata() {
        RData::A(ip) => RecordData::A(ip.octets()),
        RData::AAAA(ip) => RecordData::AAAA(ip.octets()),
        _ => RecordData::Other,
    }).collect();
    Some((m.id(), m.response_code().into(), data))
}

/// The response code "no error".
pub const RCODE_NO_ERROR: u16 = 0;

/// The queries a lookup issues, in order: A alone without IPv6, AAAA alone
/// when IPv6 is preferred, otherwise A then AAAA.
pub open spec fn query_plan(g: GeneralSettings) -> Seq<RecordType> {
    if !g.use_ipv6 {
        seq![RecordType::A]
    } else if g.prefer_ipv6 {
        seq![RecordType::AAAA]
    } else {
        seq![RecordType::A, RecordType::AAAA]
    }
}

/// The addresses that the A and AAAA records among `s` carry, in order.
pub open spec fn answer_ips(s: Seq<RecordData>) -> Seq<IpAddress>
    decreases s.len(),
{
    if s.len() == 0 {
        seq![]
    } else {
        answer_ips(s.drop_last()) + match s.last() {
            RecordData::A(o) => seq![IpAddress::V4(o)],
            RecordData::AAAA(o) => seq![IpAddress::V6(o)],
            RecordData::Other => Seq::<IpAddress>::empty(),
        }
    }
}

/// The result of a lookup from the results of its queries, in the order they
/// were issued: the first failure if any query failed, otherwise all answers
/// concatenated.
pub open spec fn joined(s: Seq<Result<Vec<IpAddress>, LookupError>>) -> Result<
    Seq<IpAddress>,
    LookupError,
>
    decreases s.len(),
{
    if s.len() == 0 {
        Ok(seq![])
    } else {
        match joined(s.drop_last()) {
            Err(e) => Err(e),
            Ok(p) => match s.last() {
                Err(e) => Err(e),
                Ok(v) => Ok(p + v@),
            },
        }
    }
}

/// The queries to issue under settings `g`.
pub fn query_types(g: GeneralSettings) -> (r: Vec<RecordType>)
    ensures
        r@ == query_plan(g),
{
    let mut out: Vec<RecordType> = Vec::new();
    if !g.use_ipv6 {
        out.push(RecordType::A);
    } else if g.prefer_ipv6 {
        out.push(RecordType::AAAA);
    } else {
        out.push(RecordType::A);
        out.push(RecordType::AAAA);
    }
    assert(out@ =~= query_plan(g));
    out
}

/// Reads the answers of a response to the query with id `expected_id`: fails
/// with `BadResponse` when the id differs or the response code is not "no
/// error", and otherwise keeps the A and AAAA data, ignoring other records.
pub fn response_ips(expected_id: u16, id: u16, rcode: u16, answers: &Vec<RecordData>) -> (r: Result<
    Vec<IpAddress>,
    LookupError,
>)
    ensures
        id != expected_id || rcode != RCODE_NO_ERROR ==> r == Err::<Vec<IpAddress>, LookupError>(
            LookupError::BadResponse,
        ),
        id == expected_id && rcode == RCODE_NO_ERROR ==> (r matches Ok(v) && v@ == answer_ips(
            answers@,
        )),
{
    if id != expected_id || rcode != RCODE_NO_ERROR {
        return Err(LookupError::BadResponse);
    }
    let mut out: Vec<IpAddress> = Vec::new();
    let mut i: usize = 0;
    while i < answers.len()
        invariant
            i <= answers@.len(),
            out@ == answer_ips(answers@.subrange(0, i as int)),
        decreases answers@.len() - i,
    {
        let ghost prev = answers@.subrange(0, i as int);
        match answers[i] {
            RecordData::A(o) => out.push(IpAddress::V4(o)),
            RecordData::AAAA(o) => out.push(IpAddress::V6(o)),
            RecordData::Other => {},
        }
        i = i + 1;
        assert(answers@.subrange(0, i as int).drop_last() =~= prev);
        assert(out@ =~= answer_ips(answers@.subrange(0, i as int)));
    }
    assert(answers@.subrange(0, answers@.len() as int) =~= answers@);
    Ok(out)
}

/// Joins the results of a lookup's queries, in the order they were issued:
/// any failure fails the whole lookup.
pub fn join_answers(results: &Vec<Result<Vec<IpAddress>, LookupError>>) -> (r: Result<
    Vec<IpAddress>,
    LookupError,
>)
    ensures
        match joined(results@) {
            Ok(s) => r matches Ok(v) && v@ == s,
            Err(e) => r == Err::<Vec<IpAddress>, LookupError>(e),
        },
{
    let mut out: Vec<IpAddress> = Vec::new();
    let mut i: usize = 0;
    while i < results.len()
        invariant
            i <= results@.len(),
            joined(results@.subrange(0, i as int)) == Ok::<Seq<IpAddress>, LookupError>(out@),
        decreases results@.len() - i,
    {
        let ghost prev = results@.subrange(0, i as int);
        assert(results@.subrange(0, i + 1).drop_last() =~= prev);
        match &results[i] {
            Err(e) => {
                let ghost k = i + 1;
                proof {
                    lemma_joined_err_sticks(results@, k as int);
                }
                assert(results@.subrange(0, results@.len() as int) =~= results@);
                return Err(*e);
            },
            Ok(v) => {
                let ghost start = out@;
                let mut j: usize = 0;
                while j < v.len()
                    invariant
                        j <= v@.len(),
                        out@ == start + v@.subrange(0, j as int),
                    decreases v@.len() - j,
                {
                    out.push(v[j]);
                    j = j + 1;
                    assert(out@ =~= start + v@.subrange(0, j as int));
                }
                assert(v@.subrange(0, v@.len() as int) =~= v@);
            },
        }
        i = i + 1;
    }
    assert(results@.subrange(0, results@.len() as int) =~= results@);
    Ok(out)
}

/// Once a prefix of the results has failed, every longer prefix fails with
/// the same error.
proof fn lemma_joined_err_sticks(s: Seq<Result<Vec<IpAddress>, LookupError>>, k: int)
    requires
        0 <= k <= s.len(),
        joined(s.subrange(0, k)) is Err,
    ensures
        joined(s) == joined(s.subrange(0, k)),
    decreases s.len() - k,
{
    if k < s.len() {
        assert(s.subrange(0, k + 1).drop_last() =~= s.subrange(0, k));
        lemma_joined_err_sticks(s, k + 1);
    } else {
        assert(s.subrange(0, k) =~= s);
    }
}

/// A lookup fails as soon as any of its queries fails: a failed query is
/// never made up for by the answers of another.
pub proof fn lemma_lookup_fails_if_any_query_fails(
    s: Seq<Result<Vec<IpAddress>, LookupError>>,
    i: int,
)
    requires
        0 <= i < s.len(),
        s[i] is Err,
    ensures
        joined(s) is Err,
{
    let p = s.subrange(0, i + 1);
    assert(p.drop_last() =~= s.subrange(0, i));
    assert(p.last() == s[i]);
    lemma_joined_err_sticks(s, i + 1);
}

/// Resolves host names through a pool of upstream resolvers, under an
/// address-family policy. It keeps no cache: each lookup queries anew.
#[derive(Clone, Debug)]
pub struct DnsClient {
    pub remote_dns_servers: Vec<SocketAddress>,
    pub general: GeneralSettings,
}

/// What one lookup does: the resolver it asks and the queries it issues to
/// it, in order.
#[derive(Clone, Debug)]
pub struct LookupPlan {
    pub server: SocketAddress,
    pub queries: Vec<RecordType>,
}

impl DnsClient {
    pub fn new(remote_dns_servers: Vec<SocketAddress>, general: GeneralSettings) -> (r: DnsClient)
        ensures
            r.remote_dns_servers@ == remote_dns_servers@,
            r.general == general,
    {
        DnsClient { remote_dns_servers, general }
    }

    /// The resolver that the random number `draw` picks: uniform over the
    /// pool when `draw` is; `NoResolvers` when the pool is empty.
    pub fn pick_server(&self, draw: usize) -> (r: Result<SocketAddress, LookupError>)
        ensures
            self.remote_dns_servers@.len() == 0 ==> r == Err::<SocketAddress, LookupError>(
                LookupError::NoResolvers,
            ),
            self.remote_dns_servers@.len() > 0 ==> r == Ok::<SocketAddress, LookupError>(
                self.remote_dns_servers@[draw as int % self.remote_dns_servers@.len() as int],
            ),
    {
        let n = self.remote_dns_servers.len();
        if n == 0 {
            return Err(LookupError::NoResolvers);
        }
        Ok(self.remote_dns_servers[draw % n])
    }

    /// Builds the query for records of type `ty` of `host`, with a random
    /// transaction id, returning the id with the message; `BadQuery` where
    /// the host cannot be encoded.
    pub fn new_query(host: &str, ty: RecordType) -> (r: Result<(u16, Vec<u8>), LookupError>)
        ensures
            r is Ok <==> query_name_ok(host@),
            r matches Ok((id, b)) ==> b@ == dns_query_bytes(host@, qtype_of(ty), id),
            r matches Err(e) ==> e == LookupError::BadQuery,
    {
        let id: u16 = rand::random::<u16>();
        let qtype = match ty {
            RecordType::A => QTYPE_A,
            RecordType::AAAA => QTYPE_AAAA,
        };
        match encode_query(host, qtype, id) {
            Some(b) => Ok((id, b)),
            None => Err(LookupError::BadQuery),
        }
    }

    /// Reads the response to the query with id `expected_id`.
    pub fn read_response(expected_id: u16, b: &[u8]) -> (r: Result<Vec<IpAddress>, LookupError>)
        ensures
            match decoded_response(b@) {
                None => r == Err::<Vec<IpAddress>, LookupError>(LookupError::BadResponse),
                Some((id, rcode, answers)) => if id != expected_id || rcode != RCODE_NO_ERROR {
                    r == Err::<Vec<IpAddress>, LookupError>(LookupError::BadResponse)
                } else {
                    r matches Ok(v) && v@ == answer_ips(answers)
                },
            },
    {
        match decode_response(b) {
            None => Err(LookupError::BadResponse),
            Some((id, rcode, answers)) => response_ips(expected_id, id, rcode, &answers),
        }
    }

    /// Plans a lookup against a resolver picked at random from the pool.
    pub fn lookup_plan(&self) -> (r: Result<LookupPlan, LookupError>)
        ensures
            self.remote_dns_servers@.len() == 0 ==> (r matches Err(e) && e
                == LookupError::NoResolvers),
            self.remote_dns_servers@.len() > 0 ==> (r matches Ok(p) && self.remote_dns_servers@.contains(
                p.server,
            ) && p.queries@ == query_plan(self.general)),
    {
        let draw: usize = rand::random::<usize>();
        let r = self.plan_lookup(draw);
        proof {
            let n = self.remote_dns_servers@.len();
            if n > 0 {
                assert(self.remote_dns_servers@[draw as int % n as int] == r->Ok_0.server);
            }
        }
        r
    }

    /// Plans a lookup: every query of the policy goes to the one resolver
    /// that `draw` picks.
    pub fn plan_lookup(&self, draw: usize) -> (r: Result<LookupPlan, LookupError>)
        ensures
            self.remote_dns_servers@.len() == 0 ==> (r matches Err(e) && e == LookupError::NoResolvers),
            self.remote_dns_servers@.len() > 0 ==> (r matches Ok(p) && p.server
                == self.remote_dns_servers@[draw as int % self.remote_dns_servers@.len() as int]
                && p.queries@ == query_plan(self.general)),
    {
        match self.pick_server(draw) {
            Err(e) => Err(e),
            Ok(server) => Ok(LookupPlan { server, queries: query_types(self.general) }),
        }
    }
}

} // verus!
