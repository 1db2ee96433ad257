use vstd::prelude::*;

verus! {

/// Big-endian bytes of a 16-bit number.
pub open spec fn be16(x: u16) -> Seq<u8> {
    seq![(x >> 8u16) as u8, (x & 0xffu16) as u8]
}

/// Big-endian bytes of a 32-bit number.
pub open spec fn be32(x: u32) -> Seq<u8> {
    seq![(x >> 24u32) as u8, ((x >> 16u32) & 0xffu32) as u8, ((x >> 8u32) & 0xffu32) as u8, (x & 0xffu32) as u8]
}

/// The 16-bit number of two big-endian bytes.
pub open spec fn be16_value(hi: u8, lo: u8) -> u16 {
    (((hi as u16) << 8u16) | (lo as u16)) as u16
}

/// The 32-bit number of four big-endian bytes.
pub open spec fn be32_value(b0: u8, b1: u8, b2: u8, b3: u8) -> u32 {
    (((b0 as u32) << 24u32) | ((b1 as u32) << 16u32) | ((b2 as u32) << 8u32) | (b3 as u32)) as u32
}

/// Reading back the two bytes of a 16-bit number gives the number.
pub proof fn lemma_be16_roundtrip(x: u16)
    ensures
        be16(x).len() == 2,
        be16_value(be16(x)[0], be16(x)[1]) == x,
{
    let hi = (x >> 8u16) as u8;
    let lo = (x & 0xffu16) as u8;
    assert((((((x >> 8u16) as u8) as u16) << 8u16) | (((x & 0xffu16) as u8) as u16)) as u16 == x)
        by (bit_vector);
}

/// Writing the number of two bytes gives back the bytes.
pub proof fn lemma_be16_value_roundtrip(hi: u8, lo: u8)
    ensures
        be16(be16_value(hi, lo)) == seq![hi, lo],
{
    let v = be16_value(hi, lo);
    assert((((((hi as u16) << 8u16) | (lo as u16)) as u16) >> 8u16) as u8 == hi) by (bit_vector);
    assert((((((hi as u16) << 8u16) | (lo as u16)) as u16) & 0xffu16) as u8 == lo) by (bit_vector);
    assert(be16(v) =~= seq![hi, lo]);
}

/// Two bytes read as a big-endian number are zero exactly when both are zero.
pub proof fn lemma_be16_value_zero(hi: u8, lo: u8)
    ensures
        be16_value(hi, lo) == 0 <==> (hi == 0 && lo == 0),
{
    assert((((hi as u16) << 8u16) | (lo as u16)) as u16 == 0 <==> (hi == 0 && lo == 0)) by (bit_vector);
}

/// Appends the big-endian bytes of `x` (byteorder's `write_u16::<BigEndian>`).
pub fn put_u16(out: &mut Vec<u8>, x: u16)
    ensures
        final(out)@ == old(out)@ + be16(x),
{
    out.push((x >> 8u16) as u8);
    out.push((x & 0xffu16) as u8);
    proof { assert(final(out)@ =~= old(out)@ + be16(x)); }
}

/// Appends the big-endian bytes of `x` (byteorder's `write_u32::<BigEndian>`).
pub fn put_u32(out: &mut Vec<u8>, x: u32)
    ensures
        final(out)@ == old(out)@ + be32(x),
{
    out.push((x >> 24u32) as u8);
    out.push(((x >> 16u32) & 0xffu32) as u8);
    out.push(((x >> 8u32) & 0xffu32) as u8);
    out.push((x & 0xffu32) as u8);
    proof { assert(final(out)@ =~= old(out)@ + be32(x)); }
}

/// The big-endian 16-bit number at `i` (bytes' `get_u16`).
pub fn get_u16(b: &[u8], i: usize) -> (r: u16)
    requires
        i + 2 <= b@.len(),
    ensures
        r == be16_value(b@[i as int], b@[i + 1]),
{
    (((b[i] as u16) << 8u16) | (b[i + 1] as u16)) as u16
}

/// The big-endian 32-bit number at `i` (bytes' `get_u32`).
pub fn get_u32(b: &[u8], i: usize) -> (r: u32)
    requires
        i + 4 <= b@.len(),
    ensures
        r == be32_value(b@[i as int], b@[i + 1], b@[i + 2], b@[i + 3]),
{
    (((b[i] as u32) << 24u32) | ((b[i + 1] as u32) << 16u32) | ((b[i + 2] as u32) << 8u32) | (b[i + 3] as u32)) as u32
}

/// Appends all of `data` to `out`.
pub fn put_slice(out: &mut Vec<u8>, data: &[u8])
    ensures
        final(out)@ == old(out)@ + data@,
{
    let mut i: usize = 0;
    while i < data.len()
        invariant
            i <= data.len(),
            out@ == old(out)@ + data@.take(i as int),
        decreases data.len() - i,
    {
        out.push(data[i]);
        i = i + 1;
        proof { assert(out@ =~= old(out)@ + data@.take(i as int)); }
    }
    proof { assert(data@.take(data@.len() as int) =~= data@); }
}

/// A copy of the bytes from `start` to `end`.
pub fn sub_vec(b: &[u8], start: usize, end: usize) -> (r: Vec<u8>)
    requires
        start <= end <= b@.len(),
    ensures
        r@ == b@.subrange(start as int, end as int),
{
    let mut r: Vec<u8> = Vec::new();
    let mut i: usize = start;
    while i < end
        invariant
            start <= i <= end <= b@.len(),
            r@ == b@.subrange(start as int, i as int),
        decreases end - i,
    {
        r.push(b[i]);
        i = i + 1;
        proof { assert(r@ =~= b@.subrange(start as int, i as int)); }
    }
    r
}

} // verus!
