use vstd::prelude::*;

verus! {

/// The pieces of `t` between colons, in order; a text without colons is one
/// piece.
pub open spec fn split_colons(t: Seq<u8>) -> Seq<Seq<u8>>
    decreases t.len(),
{
    if t.len() == 0 {
        seq![Seq::<u8>::empty()]
    } else {
        let r = split_colons(t.drop_last());
        if t.last() == 0x3a {
            r.push(Seq::<u8>::empty())
        } else {
            r.update(r.len() - 1, r.last().push(t.last()))
        }
    }
}

pub open spec fn is_hex(b: u8) -> bool {
    (0x30 <= b && b <= 0x39) || (0x61 <= b && b <= 0x66) || (0x41 <= b && b <= 0x46)
}

pub open spec fn hex_digit(b: u8) -> nat {
    if 0x30 <= b && b <= 0x39 {
        (b - 0x30) as nat
    } else if 0x61 <= b && b <= 0x66 {
        (b - 0x61 + 10) as nat
    } else {
        (b - 0x41 + 10) as nat
    }
}

/// The number that a run of hex digits spells.
pub open spec fn hex_value(g: Seq<u8>) -> nat
    decreases g.len(),
{
    if g.len() == 0 {
        0
    } else {
        hex_value(g.drop_last()) * 16 + hex_digit(g.last())
    }
}

/// One to four hex digits.
pub open spec fn hex_group(g: Seq<u8>) -> bool {
    1 <= g.len() <= 4 && forall|i: int| 0 <= i < g.len() ==> is_hex(#[trigger] g[i])
}

pub open spec fn all_groups(p: Seq<Seq<u8>>) -> bool {
    forall|i: int| 0 <= i < p.len() ==> hex_group(#[trigger] p[i])
}

/// The network-order bytes of the 16-bit groups that `p` spells.
pub open spec fn groups_bytes(p: Seq<Seq<u8>>) -> Seq<u8>
    decreases p.len(),
{
    if p.len() == 0 {
        Seq::<u8>::empty()
    } else {
        groups_bytes(p.drop_last()) + seq![
            (hex_value(p.last()) / 256) as u8,
            (hex_value(p.last()) % 256) as u8,
        ]
    }
}

pub open spec fn zero_bytes(n: int) -> Seq<u8> {
    Seq::new(n as nat, |_i: int| 0u8)
}

/// Whether piece `j` is the one empty piece that `::` leaves inside the text.
pub open spec fn middle_gap(p: Seq<Seq<u8>>, j: int) -> bool {
    &&& 0 < j < p.len() - 1
    &&& p[j].len() == 0
    &&& all_groups(p.subrange(0, j))
    &&& all_groups(p.subrange(j + 1, p.len() as int))
}

/// The sixteen octets that an IPv6 text spells: eight hex groups between
/// colons, or fewer groups around one `::` that stands for one or more zero
/// groups. `None` for any other text.
pub open spec fn ipv6_octets(t: Seq<u8>) -> Option<Seq<u8>> {
    let p = split_colons(t);
    let k = p.len() as int;
    if k == 8 && all_groups(p) {
        Some(groups_bytes(p))
    } else if k == 3 && p[0].len() == 0 && p[1].len() == 0 && p[2].len() == 0 {
        Some(zero_bytes(16))
    } else if 3 <= k <= 9 && p[0].len() == 0 && p[1].len() == 0 && all_groups(p.subrange(2, k)) {
        Some(zero_bytes(2 * (10 - k)) + groups_bytes(p.subrange(2, k)))
    } else if 3 <= k <= 9 && p[k - 2].len() == 0 && p[k - 1].len() == 0 && all_groups(
        p.subrange(0, k - 2),
    ) {
        Some(groups_bytes(p.subrange(0, k - 2)) + zero_bytes(2 * (10 - k)))
    } else if 3 <= k <= 8 && exists|j: int| middle_gap(p, j) {
        let j = choose|j: int| middle_gap(p, j);
        Some(groups_bytes(p.subrange(0, j)) + zero_bytes(2 * (9 - k)) + groups_bytes(
            p.subrange(j + 1, k),
        ))
    } else {
        None
    }
}

proof fn lemma_split_nonempty(t: Seq<u8>)
    ensures
        split_colons(t).len() >= 1,
    decreases t.len(),
{
    if t.len() > 0 {
        lemma_split_nonempty(t.drop_last());
    }
}

proof fn lemma_groups_bytes_len(p: Seq<Seq<u8>>)
    ensures
        groups_bytes(p).len() == 2 * p.len(),
    decreases p.len(),
{
    if p.len() > 0 {
        lemma_groups_bytes_len(p.drop_last());
    }
}

pub open spec fn views(v: Seq<Vec<u8>>) -> Seq<Seq<u8>> {
    v.map_values(|x: Vec<u8>| x@)
}

fn split_pieces(t: &[u8]) -> (r: Vec<Vec<u8>>)
    ensures
        views(r@) == split_colons(t@),
{
    let n = t.len();
    let mut done: Vec<Vec<u8>> = Vec::new();
    let mut cur: Vec<u8> = Vec::new();
    let mut i: usize = 0;
    while i < n
        invariant
            n == t@.len(),
            i <= n,
            views(done@).push(cur@) == split_colons(t@.subrange(0, i as int)),
        decreases n - i,
    {
        let ghost before = t@.subrange(0, i as int);
        let b = t[i];
        proof {
            lemma_split_nonempty(before);
        }
        if b == 0x3a {
            let piece = cur;
            done.push(piece);
            cur = Vec::new();
        } else {
            cur.push(b);
        }
        i = i + 1;
        assert(t@.subrange(0, i as int).drop_last() =~= before);
        assert(views(done@).push(cur@) =~= split_colons(t@.subrange(0, i as int)));
    }
    assert(t@.subrange(0, n as int) =~= t@);
    done.push(cur);
    assert(views(done@) =~= split_colons(t@));
    done
}

fn is_hex_group(g: &Vec<u8>) -> (r: bool)
    ensures
        r == hex_group(g@),
{
    if g.len() == 0 || g.len() > 4 {
        return false;
    }
    let mut i: usize = 0;
    while i < g.len()
        invariant
            i <= g@.len(),
            forall|j: int| 0 <= j < i ==> is_hex(#[trigger] g@[j]),
        decreases g@.len() - i,
    {
        let b = g[i];
        if !((0x30 <= b && b <= 0x39) || (0x61 <= b && b <= 0x66) || (0x41 <= b && b <= 0x46)) {
            return false;
        }
        i = i + 1;
    }
    true
}

fn all_hex_groups(p: &Vec<Vec<u8>>, from: usize, to: usize) -> (r: bool)
    requires
        from <= to <= p@.len(),
    ensures
        r == all_groups(views(p@).subrange(from as int, to as int)),
{
    let mut i: usize = from;
    while i < to
        invariant
            from <= i <= to <= p@.len(),
            forall|j: int| from <= j < i ==> hex_group(#[trigger] views(p@)[j]),
        decreases to - i,
    {
        if !is_hex_group(&p[i]) {
            assert(views(p@).subrange(from as int, to as int)[i - from] == views(p@)[i as int]);
            return false;
        }
        i = i + 1;
    }
    assert forall|j: int| 0 <= j < to - from implies hex_group(
        #[trigger] views(p@).subrange(from as int, to as int)[j],
    ) by {
        assert(views(p@).subrange(from as int, to as int)[j] == views(p@)[from + j]);
    }
    true
}

fn push_group(out: &mut Vec<u8>, g: &Vec<u8>)
    requires
        hex_group(g@),
    ensures
        final(out)@ == old(out)@ + seq![(hex_value(g@) / 256) as u8, (hex_value(g@) % 256) as u8],
{
    let mut v: u32 = 0;
    let mut i: usize = 0;
    while i < g.len()
        invariant
            hex_group(g@),
            i <= g@.len(),
            v == hex_value(g@.subrange(0, i as int)),
            v < 65536,
            i <= 3 ==> v < 4096,
            i <= 2 ==> v < 256,
            i <= 1 ==> v < 16,
        decreases g@.len() - i,
    {
        let b = g[i];
        let d: u32 = if 0x30 <= b && b <= 0x39 {
            (b - 0x30) as u32
        } else if 0x61 <= b && b <= 0x66 {
            (b - 0x61 + 10) as u32
        } else {
            (b - 0x41 + 10) as u32
        };
        assert(g@.subrange(0, i + 1).drop_last() =~= g@.subrange(0, i as int));
        v = v * 16 + d;
        i = i + 1;
    }
    assert(g@.subrange(0, g@.len() as int) =~= g@);
    out.push((v / 256) as u8);
    out.push((v % 256) as u8);
}

fn push_groups(out: &mut Vec<u8>, p: &Vec<Vec<u8>>, from: usize, to: usize)
    requires
        from <= to <= p@.len(),
        all_groups(views(p@).subrange(from as int, to as int)),
    ensures
        final(out)@ == old(out)@ + groups_bytes(views(p@).subrange(from as int, to as int)),
{
    let ghost start = out@;
    let mut i: usize = from;
    while i < to
        invariant
            from <= i <= to <= p@.len(),
            all_groups(views(p@).subrange(from as int, to as int)),
            out@ == start + groups_bytes(views(p@).subrange(from as int, i as int)),
        decreases to - i,
    {
        assert(views(p@).subrange(from as int, to as int)[i - from] == views(p@)[i as int]);
        push_group(out, &p[i]);
        i = i + 1;
        assert(views(p@).subrange(from as int, i as int).drop_last() =~= views(p@).subrange(
            from as int,
            i - 1,
        ));
        assert(out@ =~= start + groups_bytes(views(p@).subrange(from as int, i as int)));
    }
}

fn push_zeros(out: &mut Vec<u8>, n: usize)
    ensures
        final(out)@ == old(out)@ + zero_bytes(n as int),
{
    let ghost start = out@;
    let mut i: usize = 0;
    while i < n
        invariant
            i <= n,
            out@ == start + zero_bytes(i as int),
        decreases n - i,
    {
        out.push(0);
        i = i + 1;
        assert(out@ =~= start + zero_bytes(i as int));
    }
}

fn to_octets(v: &Vec<u8>) -> (r: [u8; 16])
    requires
        v@.len() == 16,
    ensures
        r@ == v@,
{
    let mut o = [0u8; 16];
    let mut k: usize = 0;
    while k < 16
        invariant
            k <= 16,
            v@.len() == 16,
            o@.len() == 16,
            forall|j: int| 0 <= j < k ==> o@[j] == v@[j],
        decreases 16 - k,
    {
        o.set(k, v[k]);
        k = k + 1;
    }
    assert(o@ =~= v@);
    o
}

/// Reads an IPv6 text into its sixteen octets.
pub fn parse_ipv6(t: &[u8]) -> (r: Option<[u8; 16]>)
    ensures
        match ipv6_octets(t@) {
            None => r is None,
            Some(o) => r matches Some(x) && x@ == o,
        },
{
    let p = split_pieces(t);
    let ghost ps = views(p@);
    let k = p.len();
    proof {
        lemma_split_nonempty(t@);
        assert(ps.subrange(0, k as int) =~= ps);
    }
    let mut out: Vec<u8> = Vec::new();
    if k == 8 && all_hex_groups(&p, 0, 8) {
        push_groups(&mut out, &p, 0, 8);
        proof {
            lemma_groups_bytes_len(ps);
        }
        assert(out@ =~= groups_bytes(ps));
        return Some(to_octets(&out));
    }
    if k == 3 && p[0].len() == 0 && p[1].len() == 0 && p[2].len() == 0 {
        push_zeros(&mut out, 16);
        assert(out@ =~= zero_bytes(16));
        return Some(to_octets(&out));
    }
    if 3 <= k && k <= 9 && p[0].len() == 0 && p[1].len() == 0 && all_hex_groups(&p, 2, k) {
        push_zeros(&mut out, 2 * (10 - k));
        push_groups(&mut out, &p, 2, k);
        proof {
            lemma_groups_bytes_len(ps.subrange(2, k as int));
        }
        return Some(to_octets(&out));
    }
    if 3 <= k && k <= 9 && p[k - 2].len() == 0 && p[k - 1].len() == 0 && all_hex_groups(&p, 0, k - 2) {
        push_groups(&mut out, &p, 0, k - 2);
        push_zeros(&mut out, 2 * (10 - k));
        proof {
            lemma_groups_bytes_len(ps.subrange(0, k - 2));
        }
        return Some(to_octets(&out));
    }
    if 3 <= k && k <= 8 {
        let mut j: usize = 1;
        while j < k - 1 && p[j].len() != 0
            invariant
                1 <= j <= k - 1,
                k == p@.len(),
                ps == views(p@),
                forall|m: int| 1 <= m < j ==> #[trigger] ps[m].len() != 0,
            decreases k - j,
        {
            j = j + 1;
        }
        if j < k - 1 && all_hex_groups(&p, 0, j) && all_hex_groups(&p, j + 1, k) {
            proof {
                assert(middle_gap(ps, j as int));
                let c = choose|c: int| middle_gap(ps, c);
                if c < j {
                    assert(ps.subrange(0, j as int)[c] == ps[c]);
                } else if c > j {
                    assert(ps.subrange(0, c)[j as int] == ps[j as int]);
                }
                assert(c == j);
                lemma_groups_bytes_len(ps.subrange(0, j as int));
                lemma_groups_bytes_len(ps.subrange(j + 1, k as int));
            }
            push_groups(&mut out, &p, 0, j);
            push_zeros(&mut out, 2 * (9 - k));
            push_groups(&mut out, &p, j + 1, k);
            return Some(to_octets(&out));
        }
        proof {
            assert forall|c: int| !middle_gap(ps, c) by {
                if middle_gap(ps, c) {
                    if c < j {
                        assert(ps.subrange(0, j as int)[c] == ps[c]);
                    } else if c > j {
                        assert(ps.subrange(0, c)[j as int] == ps[j as int]);
                        assert(j < k - 1);
                    } else {
                        assert(all_groups(ps.subrange(0, j as int)));
                        assert(all_groups(ps.subrange(j + 1, k as int)));
                    }
                }
            }
        }
    }
    None
}

} // verus!
