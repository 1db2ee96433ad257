pub mod country_code;

pub use country_code::CountryCode;

use vstd::prelude::*;

use crate::ip::IpAddr;

verus! {

/// A range of addresses, by their numbers, and the country it belongs to.
#[derive(Debug, Clone, Copy)]
pub struct GeoRecord {
    pub start: u128,
    pub end: u128,
    pub c: CountryCode,
}

/// `256` to the power `n`.
pub open spec fn pow256(n: nat) -> nat
    decreases n,
{
    if n == 0 { 1 } else { 256 * pow256((n - 1) as nat) }
}

/// The number that big-endian bytes stand for.
pub open spec fn be_num(b: Seq<u8>) -> nat
    decreases b.len(),
{
    if b.len() == 0 { 0 } else { (be_num(b.drop_last()) * 256 + b.last()) as nat }
}

/// Big-endian bytes stand for a number below `256` to the power of their count.
proof fn lemma_be_num_bound(b: Seq<u8>)
    ensures
        be_num(b) < pow256(b.len()),
    decreases b.len(),
{
    if b.len() > 0 {
        lemma_be_num_bound(b.drop_last());
    }
}

/// Powers of `256` grow with the exponent.
proof fn lemma_pow256_mono(a: nat, b: nat)
    requires
        a <= b,
    ensures
        pow256(a) <= pow256(b),
    decreases b,
{
    if a < b {
        lemma_pow256_mono(a, (b - 1) as nat);
    }
}

/// The number that up to sixteen big-endian bytes stand for.
pub fn be_u128(b: &[u8]) -> (r: u128)
    requires
        b@.len() <= 16,
    ensures
        r == be_num(b@),
{
    proof {
        reveal_with_fuel(pow256, 17);
        assert(pow256(16) == 0x1_0000_0000_0000_0000_0000_0000_0000_0000);
    }
    let mut acc: u128 = 0;
    let mut i: usize = 0;
    proof { assert(b@.take(0) =~= Seq::<u8>::empty()); }
    while i < b.len()
        invariant
            i <= b@.len(),
            b@.len() <= 16,
            pow256(16) == 0x1_0000_0000_0000_0000_0000_0000_0000_0000,
            acc == be_num(b@.take(i as int)),
        decreases b.len() - i,
    {
        proof {
            lemma_be_num_bound(b@.take(i as int));
            lemma_pow256_mono(i as nat, 15);
            assert(b@.take(i + 1).drop_last() =~= b@.take(i as int));
        }
        acc = acc * 256 + b[i] as u128;
        i = i + 1;
    }
    proof { assert(b@.take(i as int) =~= b@); }
    acc
}

/// Whether record `i` is the last one that starts at or before `needle`:
/// the one a binary search by start lands on.
pub open spec fn is_landing(rs: Seq<GeoRecord>, needle: u128, i: int) -> bool {
    &&& 0 <= i < rs.len()
    &&& rs[i].start <= needle
    &&& (i + 1 == rs.len() || needle < rs[i + 1].start)
}

/// Whether the landing record holds `needle`: it starts exactly there, or its
/// range reaches it.
pub open spec fn holds(r: GeoRecord, needle: u128) -> bool {
    r.start == needle || needle <= r.end
}

/// Whether the records are sorted by start, as a binary search needs them.
pub open spec fn sorted_by_start(rs: Seq<GeoRecord>) -> bool {
    forall|i: int, j: int| 0 <= i <= j < rs.len() ==> rs[i].start <= rs[j].start
}

/// What looking `needle` up among the records gives: the country of the
/// landing record when it holds `needle`, nothing otherwise.
pub open spec fn lookup_ok(rs: Seq<GeoRecord>, needle: u128, r: Option<CountryCode>) -> bool {
    match r {
        Some(c) => exists|i: int| is_landing(rs, needle, i) && holds(rs[i], needle) && c == rs[i].c,
        None => forall|i: int| is_landing(rs, needle, i) ==> !holds(rs[i], needle),
    }
}

/// Finds the country of the address numbered `needle` among records sorted
/// by start: the last record starting at or before it, when that record
/// holds it.
pub fn find_in_records(rs: &[GeoRecord], needle: u128) -> (r: Option<CountryCode>)
    requires
        sorted_by_start(rs@),
    ensures
        lookup_ok(rs@, needle, r),
{
    let mut lo: usize = 0;
    let mut hi: usize = rs.len();
    while lo < hi
        invariant
            lo <= hi <= rs@.len(),
            sorted_by_start(rs@),
            forall|j: int| 0 <= j < lo ==> (#[trigger] rs@[j]).start <= needle,
            forall|j: int| hi <= j < rs@.len() ==> needle < (#[trigger] rs@[j]).start,
        decreases hi - lo,
    {
        let mid = lo + (hi - lo) / 2;
        if rs[mid].start <= needle {
            lo = mid + 1;
        } else {
            hi = mid;
        }
    }
    if lo == 0 {
        return None;
    }
    let i = lo - 1;
    proof {
        assert(is_landing(rs@, needle, i as int));
        assert forall|k: int| is_landing(rs@, needle, k) implies k == i by {
            if k < i {
                assert(rs@[k + 1].start <= needle);
            }
        }
    }
    if rs[i].start == needle || needle <= rs[i].end {
        Some(rs[i].c)
    } else {
        None
    }
}

/// Finds the country of an address: IPv4 addresses among the IPv4 records,
/// IPv6 addresses among the IPv6 ones, each by the number of its octets.
pub fn find_geoip(ip: &IpAddr, v4: &[GeoRecord], v6: &[GeoRecord]) -> (r: Option<CountryCode>)
    requires
        sorted_by_start(v4@),
        sorted_by_start(v6@),
    ensures
        lookup_ok(
            match ip { IpAddr::V4(_) => v4@, IpAddr::V6(_) => v6@ },
            be_num(ip.octets()) as u128,
            r,
        ),
{
    match ip {
        IpAddr::V4(o) => {
            let needle = be_u128(o.as_slice());
            proof { assert(needle == be_num(ip.octets()) as u128); }
            find_in_records(v4, needle)
        },
        IpAddr::V6(o) => {
            let needle = be_u128(o.as_slice());
            proof { assert(needle == be_num(ip.octets()) as u128); }
            find_in_records(v6, needle)
        },
    }
}

/// The bytes of record `i` in a table of records of `w`-byte addresses:
/// start, end, and the two bytes of the country code.
pub open spec fn record_bytes(raw: Seq<u8>, w: nat, i: nat) -> Seq<u8> {
    raw.subrange((i * (2 * w + 2)) as int, ((i + 1) * (2 * w + 2)) as int)
}

/// Reads a table of records of `w`-byte addresses (4 or 16): as many whole
/// records as the bytes hold. Gives nothing when a country code has a zero
/// byte.
pub fn load_ip_dat(raw: &[u8], w: usize) -> (r: Option<Vec<GeoRecord>>)
    requires
        w == 4 || w == 16,
    ensures
        match r {
            Some(v) => {
                &&& v@.len() == raw@.len() as int / (2 * w + 2) as int
                &&& forall|i: int| 0 <= i < v@.len() ==> {
                    let b = #[trigger] record_bytes(raw@, w as nat, i as nat);
                    &&& v@[i].start == be_num(b.take(w as int))
                    &&& v@[i].end == be_num(b.subrange(w as int, 2 * w))
                    &&& v@[i].c.bytes() == b.skip(2 * w)
                }
            },
            None => exists|i: int| 0 <= i < raw@.len() as int / (2 * w + 2) as int && {
                let b = #[trigger] record_bytes(raw@, w as nat, i as nat);
                b[2 * w] == 0 || b[2 * w + 1] == 0
            },
        },
{
    let size = 2 * w + 2;
    let n = raw.len();
    let count = n / size;
    let mut v: Vec<GeoRecord> = Vec::new();
    let mut i: usize = 0;
    while i < count
        invariant
            size == 2 * w + 2,
            w == 4 || w == 16,
            n == raw@.len(),
            count == n / size,
            i <= count,
            v@.len() == i,
            forall|k: int| 0 <= k < i ==> {
                let b = #[trigger] record_bytes(raw@, w as nat, k as nat);
                &&& v@[k].start == be_num(b.take(w as int))
                &&& v@[k].end == be_num(b.subrange(w as int, 2 * w))
                &&& v@[k].c.bytes() == b.skip(2 * w)
            },
        decreases count - i,
    {
        proof {
            assert(i * size + size <= count * size) by (nonlinear_arith)
                requires i < count;
            assert(count * size <= n) by (nonlinear_arith)
                requires count == n / size, size > 0;
        }
        let o = i * size;
        let rec = &raw[o..o + size];
        let ghost b = record_bytes(raw@, w as nat, i as nat);
        proof {
            assert((i + 1) * size == i * size + size) by (nonlinear_arith);
            assert(rec@ =~= b);
        }
        let start = be_u128(&rec[0..w]);
        let end = be_u128(&rec[w..2 * w]);
        proof {
            assert(rec@.subrange(0, w as int) =~= b.take(w as int));
        }
        let a = rec[2 * w];
        let c = rec[2 * w + 1];
        if a == 0 || c == 0 {
            proof {
                let k = i as int;
                assert(record_bytes(raw@, w as nat, k as nat) == b);
                assert(b[2 * w as int] == a && b[2 * w + 1] == c);
                assert(0 <= k < raw@.len() as int / (2 * w + 2) as int);
            }
            return None;
        }
        let code = crate::geoip::country_code::CountryCode::new(a, c);
        proof { assert(b.skip(2 * w) =~= seq![a, c]); }
        v.push(GeoRecord { start, end, c: code });
        i = i + 1;
    }
    Some(v)
}

} // verus!
