use vstd::prelude::*;

use crate::bytes::be16_value;
use crate::text::{
    all_digits, dec, dec_chars, digits_value, is_digit, parse_uint, parse_uint_spec, split_chars,
    split_on, string_push,
};

verus! {

/// An IP address, by its octets.
#[derive(Debug, Clone, Copy)]
pub enum IpAddr {
    V4([u8; 4]),
    V6([u8; 16]),
}

impl IpAddr {
    /// The octets of the address.
    pub open spec fn octets(self) -> Seq<u8> {
        match self {
            IpAddr::V4(a) => a@,
            IpAddr::V6(a) => a@,
        }
    }
}

/// An IP address with a port.
#[derive(Debug, Clone, Copy)]
pub struct SocketAddr {
    pub ip: IpAddr,
    pub port: u16,
}

/// Whether `p` is one part of a dotted IPv4 address as std reads it: one to
/// three decimal digits, no leading zero, at most 255.
pub open spec fn valid_octet_text(p: Seq<char>) -> bool {
    &&& 1 <= p.len() <= 3
    &&& all_digits(p)
    &&& (p.len() == 1 || p[0] != '0')
    &&& digits_value(p) <= 255
}

/// The octets of the dotted IPv4 address `s`, as std's `Ipv4Addr::from_str`
/// reads it.
pub open spec fn parse_ipv4_spec(s: Seq<char>) -> Option<Seq<u8>> {
    let parts = split_on(s, '.');
    if parts.len() == 4 && forall|i: int| 0 <= i < 4 ==> valid_octet_text(#[trigger] parts[i]) {
        Some(seq![
            digits_value(parts[0]) as u8,
            digits_value(parts[1]) as u8,
            digits_value(parts[2]) as u8,
            digits_value(parts[3]) as u8,
        ])
    } else {
        None
    }
}

/// The character of a hexadecimal digit, lower case.
pub open spec fn hex_char(d: nat) -> char {
    if d < 10 { crate::text::digit_char(d) } else if d == 10 { 'a' } else if d == 11 { 'b' }
    else if d == 12 { 'c' } else if d == 13 { 'd' } else if d == 14 { 'e' } else { 'f' }
}

/// The lower-case hexadecimal digits of `n`, without leading zeros.
pub open spec fn hex(n: nat) -> Seq<char>
    decreases n,
{
    if n < 16 {
        seq![hex_char(n)]
    } else {
        hex(n / 16).push(hex_char(n % 16))
    }
}

/// The dotted decimal text of four octets.
pub open spec fn v4_text(o: Seq<u8>) -> Seq<char> {
    dec(o[0] as nat) + seq!['.'] + dec(o[1] as nat) + seq!['.'] + dec(o[2] as nat) + seq!['.'] + dec(o[3] as nat)
}

/// The eight sixteen-bit groups of an IPv6 address, big-endian.
pub open spec fn v6_groups(o: Seq<u8>) -> Seq<u16> {
    Seq::new(8, |k: int| be16_value(o[2 * k], o[2 * k + 1]))
}

/// How many zero groups follow one another from group `i` on.
pub open spec fn zero_run(gs: Seq<u16>, i: int) -> nat
    decreases gs.len() - i,
{
    if 0 <= i < gs.len() && gs[i] == 0 {
        1 + zero_run(gs, i + 1)
    } else {
        0
    }
}

/// The longest run of zero groups from group `i` on, the first of them when
/// two are as long: where it starts, and how long it is (0 when there is
/// none).
pub open spec fn longest_zero_run(gs: Seq<u16>, i: int) -> (int, nat)
    decreases gs.len() - i,
{
    if i < 0 || i >= gs.len() {
        (0, 0)
    } else {
        let rest = longest_zero_run(gs, i + 1);
        let here = zero_run(gs, i);
        if here > 0 && here >= rest.1 {
            (i, here)
        } else {
            rest
        }
    }
}

/// Groups in lower-case hexadecimal, separated by colons.
pub open spec fn groups_text(gs: Seq<u16>) -> Seq<char>
    decreases gs.len(),
{
    if gs.len() == 0 {
        Seq::empty()
    } else if gs.len() == 1 {
        hex(gs[0] as nat)
    } else {
        groups_text(gs.drop_last()) + seq![':'] + hex(gs.last() as nat)
    }
}

/// Whether sixteen octets are an IPv4 address mapped into IPv6
/// (`::ffff:a.b.c.d`).
pub open spec fn v4_mapped(o: Seq<u8>) -> bool {
    &&& forall|k: int| 0 <= k < 10 ==> o[k] == 0
    &&& o[10] == 0xff
    &&& o[11] == 0xff
}

/// The text of an IP address as std writes it: dotted decimal for four
/// octets; for sixteen, the canonical form of RFC 5952 — an IPv4-mapped
/// address as `::ffff:` and its dotted IPv4 text, any other as its groups in
/// lower-case hexadecimal, the first longest run of two or more zero groups
/// written as `::`.
pub open spec fn ip_text(o: Seq<u8>) -> Seq<char> {
    if o.len() == 4 {
        v4_text(o)
    } else if v4_mapped(o) {
        seq![':', ':', 'f', 'f', 'f', 'f', ':'] + v4_text(o.subrange(12, 16))
    } else {
        let gs = v6_groups(o);
        let (start, len) = longest_zero_run(gs, 0);
        if len > 1 {
            groups_text(gs.take(start)) + seq![':', ':'] + groups_text(gs.skip(start + len))
        } else {
            groups_text(gs)
        }
    }
}

/// The dotted decimal text of four octets reads back as those octets: std
/// reads what it writes.
pub proof fn lemma_v4_text_roundtrip(o: Seq<u8>)
    requires
        o.len() == 4,
    ensures
        parse_ipv4_spec(v4_text(o)) == Some(o),
{
    let d0 = dec(o[0] as nat);
    let d1 = dec(o[1] as nat);
    let d2 = dec(o[2] as nat);
    let d3 = dec(o[3] as nat);
    lemma_octet_text(o[0]);
    lemma_octet_text(o[1]);
    lemma_octet_text(o[2]);
    lemma_octet_text(o[3]);
    let dot = seq!['.'];
    assert(v4_text(o) =~= d0 + dot + (d1 + dot + (d2 + dot + d3)));
    crate::text::lemma_split_on_join(d0, '.', d1 + dot + (d2 + dot + d3));
    crate::text::lemma_split_on_join(d1, '.', d2 + dot + d3);
    crate::text::lemma_split_on_join(d2, '.', d3);
    crate::text::lemma_split_on_single(d3, '.');
    let parts = split_on(v4_text(o), '.');
    assert(parts =~= seq![d0, d1, d2, d3]);
    assert(parts[0] == d0 && parts[1] == d1 && parts[2] == d2 && parts[3] == d3);
    assert(forall|i: int| 0 <= i < 4 ==> valid_octet_text(#[trigger] parts[i]));
    assert(seq![
        digits_value(parts[0]) as u8,
        digits_value(parts[1]) as u8,
        digits_value(parts[2]) as u8,
        digits_value(parts[3]) as u8,
    ] =~= o);
}

/// The decimal text of an octet is a valid part of a dotted address, free of
/// dots, and stands for the octet.
proof fn lemma_octet_text(b: u8)
    ensures
        valid_octet_text(dec(b as nat)),
        digits_value(dec(b as nat)) == b,
        forall|j: int| 0 <= j < dec(b as nat).len() ==> dec(b as nat)[j] != '.',
{
    crate::text::lemma_dec(b as nat);
    let d = dec(b as nat);
    assert forall|j: int| 0 <= j < d.len() implies d[j] != '.' by {
        assert(is_digit(d[j]));
    }
}

fn octet_text_value(p: &Vec<char>) -> (r: Option<u8>)
    ensures
        valid_octet_text(p@) ==> r == Some(digits_value(p@) as u8),
        !valid_octet_text(p@) ==> r.is_none(),
{
    if p.len() < 1 || p.len() > 3 {
        return None;
    }
    if p.len() > 1 && p[0] == '0' {
        return None;
    }
    if p[0] == '+' {
        return None;
    }
    match parse_uint(p.as_slice(), 255) {
        Some(v) => {
            proof {
                assert(p@[0] != '+');
            }
            Some(v as u8)
        },
        None => {
            proof {
                assert(p@[0] != '+');
            }
            None
        },
    }
}

/// Reads a dotted IPv4 address.
pub fn parse_ipv4(s: &[char]) -> (r: Option<[u8; 4]>)
    ensures
        match parse_ipv4_spec(s@) {
            None => r.is_none(),
            Some(o) => r matches Some(a) && a@ == o,
        },
{
    let parts = split_chars(s, '.');
    let ghost sp = split_on(s@, '.');
    if parts.len() != 4 {
        return None;
    }
    let mut out = [0u8; 4];
    let mut i: usize = 0;
    while i < 4
        invariant
            parts@.len() == 4,
            sp.len() == 4,
            sp == split_on(s@, '.'),
            forall|k: int| 0 <= k < 4 ==> #[trigger] parts@[k]@ == sp[k],
            i <= 4,
            forall|k: int| 0 <= k < i ==> valid_octet_text(#[trigger] sp[k]) && out@[k] == digits_value(sp[k]) as u8,
        decreases 4 - i,
    {
        match octet_text_value(&parts[i]) {
            Some(v) => {
                out[i] = v;
            },
            None => {
                proof { assert(!valid_octet_text(sp[i as int])); }
                return None;
            },
        }
        i = i + 1;
    }
    proof {
        assert(out@ =~= seq![
            digits_value(sp[0]) as u8,
            digits_value(sp[1]) as u8,
            digits_value(sp[2]) as u8,
            digits_value(sp[3]) as u8,
        ]);
    }
    Some(out)
}

fn hex_digit(d: u16) -> (c: char)
    requires
        d < 16,
    ensures
        c == hex_char(d as nat),
{
    if d == 0 { '0' } else if d == 1 { '1' } else if d == 2 { '2' } else if d == 3 { '3' }
    else if d == 4 { '4' } else if d == 5 { '5' } else if d == 6 { '6' } else if d == 7 { '7' }
    else if d == 8 { '8' } else if d == 9 { '9' } else if d == 10 { 'a' } else if d == 11 { 'b' }
    else if d == 12 { 'c' } else if d == 13 { 'd' } else if d == 14 { 'e' } else { 'f' }
}

fn hex_chars(n: u16) -> (r: Vec<char>)
    ensures
        r@ == hex(n as nat),
    decreases n,
{
    if n < 16 {
        let mut v = Vec::new();
        v.push(hex_digit(n));
        proof { assert(v@ =~= hex(n as nat)); }
        v
    } else {
        let mut v = hex_chars(n / 16);
        v.push(hex_digit(n % 16));
        v
    }
}

fn append_chars(out: &mut Vec<char>, more: &Vec<char>)
    ensures
        final(out)@ == old(out)@ + more@,
{
    let mut i: usize = 0;
    while i < more.len()
        invariant
            i <= more.len(),
            out@ == old(out)@ + more@.take(i as int),
        decreases more.len() - i,
    {
        out.push(more[i]);
        i = i + 1;
        proof { assert(out@ =~= old(out)@ + more@.take(i as int)); }
    }
    proof { assert(more@.take(more.len() as int) =~= more@); }
}

/// The dotted decimal text of four octets.
fn v4_chars(o: [u8; 4]) -> (r: Vec<char>)
    ensures
        r@ == v4_text(o@),
{
    let mut r = dec_chars(o[0] as u64);
    r.push('.');
    append_chars(&mut r, &dec_chars(o[1] as u64));
    r.push('.');
    append_chars(&mut r, &dec_chars(o[2] as u64));
    r.push('.');
    append_chars(&mut r, &dec_chars(o[3] as u64));
    proof { assert(r@ =~= v4_text(o@)); }
    r
}

/// Groups `from..to` in lower-case hexadecimal, separated by colons.
fn groups_chars(gs: &[u16; 8], from: usize, to: usize) -> (r: Vec<char>)
    requires
        from <= to <= 8,
    ensures
        r@ == groups_text(gs@.subrange(from as int, to as int)),
{
    let mut r: Vec<char> = Vec::new();
    let mut k: usize = from;
    while k < to
        invariant
            from <= k <= to <= 8,
            gs@.len() == 8,
            r@ == groups_text(gs@.subrange(from as int, k as int)),
        decreases to - k,
    {
        let ghost before = gs@.subrange(from as int, k as int);
        let ghost after = gs@.subrange(from as int, k + 1);
        if k > from {
            r.push(':');
        }
        append_chars(&mut r, &hex_chars(gs[k]));
        proof {
            assert(after.drop_last() =~= before);
            if k == from {
                assert(r@ =~= groups_text(after));
            } else {
                assert(r@ =~= groups_text(after));
            }
        }
        k = k + 1;
    }
    r
}

/// The longest run of zero groups, the first on a tie: where it starts and
/// how long it is.
fn longest_zero_run_of(gs: &[u16; 8]) -> (r: (usize, usize))
    ensures
        r.0 as int == longest_zero_run(gs@, 0).0,
        r.1 as nat == longest_zero_run(gs@, 0).1,
        r.0 + r.1 <= 8,
{
    let mut best_start: usize = 0;
    let mut best_len: usize = 0;
    let mut here: usize = 0;
    let mut i: usize = 8;
    while i > 0
        invariant
            i <= 8,
            gs@.len() == 8,
            best_start as int == longest_zero_run(gs@, i as int).0,
            best_len as nat == longest_zero_run(gs@, i as int).1,
            here as nat == zero_run(gs@, i as int),
            best_start + best_len <= 8,
            i + here <= 8,
            best_len == 0 || i <= best_start,
        decreases i,
    {
        i = i - 1;
        if gs[i] == 0 {
            here = here + 1;
        } else {
            here = 0;
        }
        if here > 0 && here >= best_len {
            best_start = i;
            best_len = here;
        }
    }
    (best_start, best_len)
}

/// The text of an IP address as std writes it (see [`ip_text`]).
pub fn ip_chars(ip: &IpAddr) -> (r: Vec<char>)
    ensures
        r@ == ip_text(ip.octets()),
{
    match ip {
        IpAddr::V4(o) => v4_chars(*o),
        IpAddr::V6(o) => {
            let mut mapped = o[10] == 0xff && o[11] == 0xff;
            let mut k: usize = 0;
            while k < 10
                invariant
                    k <= 10,
                    o@.len() == 16,
                    mapped == (o@[10] == 0xff && o@[11] == 0xff && forall|j: int| 0 <= j < k ==> o@[j] == 0),
                decreases 10 - k,
            {
                if o[k] != 0 {
                    mapped = false;
                }
                k = k + 1;
            }
            if mapped {
                let mut r: Vec<char> = Vec::new();
                r.push(':');
                r.push(':');
                r.push('f');
                r.push('f');
                r.push('f');
                r.push('f');
                r.push(':');
                append_chars(&mut r, &v4_chars([o[12], o[13], o[14], o[15]]));
                proof {
                    assert(seq![o@[12], o@[13], o@[14], o@[15]] =~= o@.subrange(12, 16));
                    assert(r@ =~= ip_text(o@));
                }
                return r;
            }
            let mut gs: [u16; 8] = [0u16; 8];
            let mut g: usize = 0;
            while g < 8
                invariant
                    g <= 8,
                    o@.len() == 16,
                    gs@.len() == 8,
                    forall|j: int| 0 <= j < g ==> gs@[j] == be16_value(o@[2 * j], o@[2 * j + 1]),
                decreases 8 - g,
            {
                gs[g] = ((o[2 * g] as u16) << 8u16 | o[2 * g + 1] as u16) as u16;
                g = g + 1;
            }
            proof { assert(gs@ =~= v6_groups(o@)); }
            let (start, len) = longest_zero_run_of(&gs);
            if len > 1 {
                let mut r = groups_chars(&gs, 0, start);
                r.push(':');
                r.push(':');
                append_chars(&mut r, &groups_chars(&gs, start + len, 8));
                proof {
                    assert(gs@.subrange(0, start as int) =~= gs@.take(start as int));
                    assert(gs@.subrange((start + len) as int, 8) =~= gs@.skip((start + len) as int));
                    assert(r@ =~= ip_text(o@));
                }
                r
            } else {
                let r = groups_chars(&gs, 0, 8);
                proof { assert(gs@.subrange(0, 8) =~= gs@); }
                r
            }
        },
    }
}

} // verus!
