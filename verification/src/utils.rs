use vstd::prelude::*;

use crate::bytes::{be16, be16_value, get_u16, lemma_be16_roundtrip, put_slice, put_u16};

verus! {

/// Why a frame could not be written.
#[derive(Debug, Clone, Copy, PartialEq, Eq, Structural)]
pub enum FrameError {
    /// The payload is longer than a 16-bit length can say.
    TooBig(usize),
}

/// A frame: the payload's length in two big-endian bytes, then the payload.
pub open spec fn frame(payload: Seq<u8>) -> Seq<u8> {
    be16(payload.len() as u16) + payload
}

/// Appends `payload` as a frame. A payload longer than 65535 bytes is refused,
/// and then the buffer keeps two zero bytes and the payload, as the writer
/// put them before measuring.
pub fn write_lengthed(buf: &mut Vec<u8>, payload: &[u8]) -> (r: Result<(), FrameError>)
    ensures
        payload@.len() <= 0xffff ==> r is Ok && final(buf)@ == old(buf)@ + frame(payload@),
        payload@.len() > 0xffff ==> r == Err::<(), FrameError>(FrameError::TooBig(payload@.len() as usize))
            && final(buf)@ == old(buf)@ + seq![0u8, 0u8] + payload@,
{
    let prev_len = buf.len();
    put_u16(buf, 0);
    put_slice(buf, payload);
    let written_len = buf.len() - prev_len - 2;
    proof {
        assert((0u16 >> 8u16) as u8 == 0u8 && (0u16 & 0xffu16) as u8 == 0u8) by (bit_vector);
        assert(be16(0) =~= seq![0u8, 0u8]);
    }
    if written_len > 0xffff {
        proof { assert(final(buf)@ =~= old(buf)@ + seq![0u8, 0u8] + payload@); }
        return Err(FrameError::TooBig(written_len));
    }
    let len16 = written_len as u16;
    buf.set(prev_len, (len16 >> 8u16) as u8);
    buf.set(prev_len + 1, (len16 & 0xffu16) as u8);
    proof { assert(final(buf)@ =~= old(buf)@ + frame(payload@)); }
    Ok(())
}

/// The payload length a frame's first two bytes give.
pub fn frame_len(head: &[u8]) -> (r: usize)
    requires
        head@.len() >= 2,
    ensures
        r == be16_value(head@[0], head@[1]),
{
    get_u16(head, 0) as usize
}

/// A frame's first two bytes give back its payload's length, and the payload
/// follows them.
pub proof fn lemma_frame_roundtrip(payload: Seq<u8>)
    requires
        payload.len() <= 0xffff,
    ensures
        frame(payload).len() == 2 + payload.len(),
        be16_value(frame(payload)[0], frame(payload)[1]) == payload.len(),
        frame(payload).skip(2) == payload,
{
    lemma_be16_roundtrip(payload.len() as u16);
    assert(frame(payload).skip(2) =~= payload);
}

} // verus!
