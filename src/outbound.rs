use std::sync::Arc;

use vstd::prelude::*;
use vstd::utf8::encode_utf8;

use crate::address::{names_host, valid_host, Address};

verus! {

/// The settings of an outbound that relays through an upstream SOCKS5 server.
#[derive(Clone, Debug)]
pub struct Socks5OutboundSettings {
    pub address: String,
    pub port: u16,
}

/// One configured outbound: its tag, its protocol name, and its settings,
/// `None` where they are missing or could not be read.
#[derive(Clone, Debug)]
pub struct OutboundConfig {
    pub tag: String,
    pub protocol: String,
    pub settings: Option<Socks5OutboundSettings>,
}

/// How the TCP side of an outbound reaches the destination.
#[derive(Debug)]
pub enum TcpOutboundHandler {
    /// Through the upstream SOCKS5 server at this address.
    Socks { address: Address },
    /// Straight to the destination.
    Direct,
}

/// How the UDP side of an outbound reaches the destination.
#[derive(Debug)]
pub enum UdpOutboundHandler {
    /// Through the upstream SOCKS5 server at this host and port.
    Socks { addr: String, port: u16 },
    /// Straight to the destination.
    Direct,
}

/// A tagged outbound, with the networks it supports.
#[derive(Debug)]
pub struct OutboundHandler {
    pub tag: String,
    pub tcp: Option<TcpOutboundHandler>,
    pub udp: Option<UdpOutboundHandler>,
}

/// The protocol name of the upstream SOCKS5 outbound.
pub open spec fn socks_name() -> Seq<char> {
    seq!['s', 'o', 'c', 'k', 's']
}

/// The protocol name of the pass-through outbound.
pub open spec fn direct_name() -> Seq<char> {
    seq!['d', 'i', 'r', 'e', 'c', 't']
}

/// Whether a configuration entry yields a handler: a pass-through one, or a
/// SOCKS5 one whose settings are there and name a valid host.
pub open spec fn builds(c: OutboundConfig) -> bool {
    ||| c.protocol@ == direct_name()
    ||| c.protocol@ == socks_name() && c.settings is Some && valid_host(
        encode_utf8(c.settings->Some_0.address@),
    )
}

/// Whether `h` is the handler that the entry `c` yields.
pub open spec fn built_from(h: OutboundHandler, c: OutboundConfig) -> bool {
    &&& h.tag@ == c.tag@
    &&& if c.protocol@ == direct_name() {
        h.tcp is Some && h.tcp->Some_0 is Direct && h.udp is Some && h.udp->Some_0 is Direct
    } else {
        let st = c.settings->Some_0;
        &&& h.tcp matches Some(TcpOutboundHandler::Socks { address }) && address.port == st.port
            && address.wf() && names_host(address@.host, encode_utf8(st.address@))
        &&& h.udp matches Some(UdpOutboundHandler::Socks { addr, port }) && addr@ == st.address@
            && port == st.port
    }
}

/// The entry that wins each tag: the last one with that tag that yields a
/// handler. Entries that yield none are skipped.
pub open spec fn winners(cs: Seq<OutboundConfig>) -> Map<Seq<char>, OutboundConfig>
    decreases cs.len(),
{
    if cs.len() == 0 {
        Map::empty()
    } else {
        let m = winners(cs.drop_last());
        if builds(cs.last()) {
            m.insert(cs.last().tag@, cs.last())
        } else {
            m
        }
    }
}

/// The tag-to-handler mapping that a list of entries stands for; a later
/// entry overrides an earlier one with the same tag.
pub open spec fn entries_map(s: Seq<(String, Arc<OutboundHandler>)>) -> Map<Seq<char>, OutboundHandler>
    decreases s.len(),
{
    if s.len() == 0 {
        Map::empty()
    } else {
        entries_map(s.drop_last()).insert(s.last().0@, *s.last().1)
    }
}

/// No two entries share a tag.
pub open spec fn keys_unique(s: Seq<(String, Arc<OutboundHandler>)>) -> bool {
    forall|i: int, j: int| 0 <= i < s.len() && 0 <= j < s.len() && i != j ==> #[trigger] s[i].0@
        != #[trigger] s[j].0@
}

/// Replacing the entry of a key changes that key's value alone.
proof fn lemma_entries_map_update(
    s: Seq<(String, Arc<OutboundHandler>)>,
    j: int,
    x: (String, Arc<OutboundHandler>),
)
    requires
        0 <= j < s.len(),
        keys_unique(s),
        s[j].0@ == x.0@,
    ensures
        entries_map(s.update(j, x)) == entries_map(s).insert(x.0@, *x.1),
    decreases s.len(),
{
    let u = s.update(j, x);
    if j == s.len() - 1 {
        assert(u.drop_last() =~= s.drop_last());
        assert(entries_map(u) =~= entries_map(s).insert(x.0@, *x.1));
    } else {
        let p = s.drop_last();
        assert(u.drop_last() =~= p.update(j, x));
        assert(keys_unique(p)) by {
            assert forall|a: int, b: int| 0 <= a < p.len() && 0 <= b < p.len() && a != b implies #[trigger] p[a].0@
                != #[trigger] p[b].0@ by {
                assert(p[a] == s[a] && p[b] == s[b]);
            }
        }
        lemma_entries_map_update(p, j, x);
        assert(s.last().0@ != x.0@) by {
            assert(s[s.len() - 1].0@ != s[j].0@);
        }
        assert(entries_map(u) =~= entries_map(s).insert(x.0@, *x.1));
    }
}

/// Adds or replaces the entry of `tag`.
fn insert_entry(
    handlers: &mut Vec<(String, Arc<OutboundHandler>)>,
    x: (String, Arc<OutboundHandler>),
)
    requires
        keys_unique(old(handlers)@),
    ensures
        keys_unique(final(handlers)@),
        entries_map(final(handlers)@) == entries_map(old(handlers)@).insert(x.0@, *x.1),
{
    let ghost before = handlers@;
    let ghost key = x.0@;
    let mut j: usize = 0;
    while j < handlers.len()
        invariant
            j <= handlers@.len(),
            handlers@ == before,
            before == old(handlers)@,
            keys_unique(before),
            key == x.0@,
            forall|m: int| 0 <= m < j ==> #[trigger] handlers@[m].0@ != key,
        decreases handlers@.len() - j,
    {
        if handlers[j].0 == x.0 {
            proof {
                lemma_entries_map_update(before, j as int, x);
            }
            handlers.set(j, x);

            assert(keys_unique(handlers@)) by {
                assert forall|a: int, b: int| 0 <= a < handlers@.len() && 0 <= b < handlers@.len() && a != b implies #[trigger] handlers@[a].0@
                    != #[trigger] handlers@[b].0@ by {
                    if a != j && b != j {
                        assert(handlers@[a] == before[a] && handlers@[b] == before[b]);
                        assert(before[a].0@ != before[b].0@);
                    } else if a == j {
                        assert(before[j as int].0@ != before[b].0@);
                    } else {
                        assert(before[a].0@ != before[j as int].0@);
                    }
                }
            }
            return;
        }
        j = j + 1;
    }
    handlers.push(x);
    assert(handlers@.drop_last() =~= before);
    assert(keys_unique(handlers@)) by {
        assert forall|a: int, b: int| 0 <= a < handlers@.len() && 0 <= b < handlers@.len() && a != b implies #[trigger] handlers@[a].0@
            != #[trigger] handlers@[b].0@ by {
            if a < before.len() && b < before.len() {
                assert(before[a].0@ != before[b].0@);
            } else if a < before.len() {
                assert(before[a].0@ != key);
            } else {
                assert(before[b].0@ != key);
            }
        }
    }
}

/// The outbound handlers, by tag.
pub struct OutboundManager {
    handlers: Vec<(String, Arc<OutboundHandler>)>,
}

fn is_named(s: &String, name: &str) -> (r: bool)
    ensures
        r == (s@ == name@),
{
    let owned = name.to_owned();
    *s == owned
}

/// The handler that entry `c` yields, if any.
fn build_handler(c: &OutboundConfig) -> (r: Option<OutboundHandler>)
    ensures
        r is Some <==> builds(*c),
        r matches Some(h) ==> built_from(h, *c),
{
    proof {
        reveal_strlit("socks");
        reveal_strlit("direct");
        assert("socks"@ =~= socks_name());
        assert("direct"@ =~= direct_name());
    }
    if is_named(&c.protocol, "socks") {
        assert(c.protocol@ =~= socks_name());
        let st = match &c.settings {
            Some(st) => st,
            None => return None,
        };
        let address = match Address::from(st.address.as_str(), st.port) {
            Ok(a) => a,
            Err(_) => return None,
        };
        let tcp = TcpOutboundHandler::Socks { address };
        let udp = UdpOutboundHandler::Socks { addr: st.address.clone(), port: st.port };
        Some(OutboundHandler { tag: c.tag.clone(), tcp: Some(tcp), udp: Some(udp) })
    } else if is_named(&c.protocol, "direct") {
        assert(c.protocol@ =~= direct_name());
        Some(
            OutboundHandler {
                tag: c.tag.clone(),
                tcp: Some(TcpOutboundHandler::Direct),
                udp: Some(UdpOutboundHandler::Direct),
            },
        )
    } else {
        assert(c.protocol@ != socks_name());
        assert(c.protocol@ != direct_name());
        None
    }
}

impl OutboundManager {
    /// The mapping from tag to handler.
    pub closed spec fn view_map(&self) -> Map<Seq<char>, OutboundHandler> {
        entries_map(self.handlers@)
    }

    /// The table holds one entry per tag.
    pub closed spec fn wf(&self) -> bool {
        keys_unique(self.handlers@)
    }

    /// Builds a handler for each entry that yields one, skipping the others;
    /// construction never fails. Where tags repeat, the last entry wins.
    pub fn new(outbounds: Vec<OutboundConfig>) -> (r: OutboundManager)
        ensures
            r.wf(),
            r.view_map().dom() == winners(outbounds@).dom(),
            forall|t: Seq<char>| #[trigger] r.view_map().contains_key(t) ==> built_from(
                r.view_map()[t],
                winners(outbounds@)[t],
            ),
    {
        let mut handlers: Vec<(String, Arc<OutboundHandler>)> = Vec::new();
        let mut i: usize = 0;
        while i < outbounds.len()
            invariant
                i <= outbounds@.len(),
                keys_unique(handlers@),
                entries_map(handlers@).dom() == winners(outbounds@.subrange(0, i as int)).dom(),
                forall|t: Seq<char>| #[trigger]
                    entries_map(handlers@).contains_key(t) ==> built_from(
                        entries_map(handlers@)[t],
                        winners(outbounds@.subrange(0, i as int))[t],
                    ),
            decreases outbounds@.len() - i,
        {
            let ghost prev = outbounds@.subrange(0, i as int);
            let c = &outbounds[i];
            assert(outbounds@.subrange(0, i + 1).drop_last() =~= prev);
            assert(outbounds@.subrange(0, i + 1).last() == *c);
            match build_handler(c) {
                Some(h) => {
                    let tag = c.tag.clone();
                    insert_entry(&mut handlers, (tag, Arc::new(h)));
                },
                None => {},
            }
            i = i + 1;
            assert(entries_map(handlers@).dom() =~= winners(outbounds@.subrange(0, i as int)).dom());
        }
        assert(outbounds@.subrange(0, outbounds@.len() as int) =~= outbounds@);
        OutboundManager { handlers }
    }

    /// The handler for `tag`, if there is one.
    pub fn get_handler(&self, tag: &str) -> (r: Option<Arc<OutboundHandler>>)
        ensures
            r is Some <==> self.view_map().contains_key(tag@),
            r matches Some(h) ==> *h == self.view_map()[tag@],
    {
        let key = tag.to_owned();
        let mut i: usize = self.handlers.len();
        while i > 0
            invariant
                i <= self.handlers@.len(),
                key@ == tag@,
                forall|j: int| i <= j < self.handlers@.len() ==> #[trigger] self.handlers@[j].0@ != key@,
            decreases i,
        {
            let e = &self.handlers[i - 1];
            if e.0 == key {
                proof {
                    lemma_entries_map_last(self.handlers@, i - 1, key@);
                }
                return Some(e.1.clone());
            }
            i = i - 1;
        }
        proof {
            lemma_entries_map_absent(self.handlers@, key@);
        }
        None
    }
}

/// The value of a key is that of its last entry.
proof fn lemma_entries_map_last(s: Seq<(String, Arc<OutboundHandler>)>, j: int, k: Seq<char>)
    requires
        0 <= j < s.len(),
        s[j].0@ == k,
        forall|m: int| j < m < s.len() ==> #[trigger] s[m].0@ != k,
    ensures
        entries_map(s).contains_key(k),
        entries_map(s)[k] == *s[j].1,
    decreases s.len(),
{
    if j < s.len() - 1 {
        assert(s.last().0@ != k);
        let p = s.drop_last();
        assert forall|m: int| j < m < p.len() implies #[trigger] p[m].0@ != k by {
            assert(p[m] == s[m]);
        }
        lemma_entries_map_last(p, j, k);
    }
}

/// A key that no entry has is not in the mapping.
proof fn lemma_entries_map_absent(s: Seq<(String, Arc<OutboundHandler>)>, k: Seq<char>)
    requires
        forall|m: int| 0 <= m < s.len() ==> #[trigger] s[m].0@ != k,
    ensures
        !entries_map(s).contains_key(k),
    decreases s.len(),
{
    if s.len() > 0 {
        let p = s.drop_last();
        assert(s.last().0@ != k);
        assert forall|m: int| 0 <= m < p.len() implies #[trigger] p[m].0@ != k by {
            assert(p[m] == s[m]);
        }
        lemma_entries_map_absent(p, k);
    }
}

/// An entry that yields no handler leaves the mapping as it was.
pub proof fn lemma_unbuildable_entry_skipped(cs: Seq<OutboundConfig>, c: OutboundConfig)
    requires
        !builds(c),
    ensures
        winners(cs.push(c)) == winners(cs),
{
    assert(cs.push(c).drop_last() =~= cs);
}

/// A malformed SOCKS5 entry followed by a pass-through entry leaves exactly
/// one handler, the pass-through one.
pub proof fn lemma_malformed_socks_beside_direct(bad: OutboundConfig, good: OutboundConfig)
    requires
        bad.protocol@ == socks_name(),
        !builds(bad),
        good.protocol@ == direct_name(),
    ensures
        winners(seq![bad, good]).dom() == set![good.tag@],
        winners(seq![bad, good])[good.tag@] == good,
{
    let cs = seq![bad, good];
    assert(cs.drop_last() =~= seq![bad]);
    assert(seq![bad].drop_last() =~= Seq::<OutboundConfig>::empty());
    assert(seq![bad].last() == bad);
    assert(winners(Seq::<OutboundConfig>::empty()) == Map::<Seq<char>, OutboundConfig>::empty());
    assert(cs.last() == good);
    assert(winners(seq![bad]) == Map::<Seq<char>, OutboundConfig>::empty());
    assert(winners(cs).dom() =~= set![good.tag@]);
}

} // verus!
