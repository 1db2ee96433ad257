use vstd::prelude::*;

verus! {

/// Bytes kept as a whole, to be handed on as they are.
#[derive(Debug)]
pub struct BoxBuf(Vec<u8>);

impl BoxBuf {
    /// The bytes held.
    pub closed spec fn bytes(&self) -> Seq<u8> {
        self.0@
    }

    /// Keeps `buf`.
    pub fn new(buf: Vec<u8>) -> (r: BoxBuf)
        ensures
            r.bytes() == buf@,
    {
        BoxBuf(buf)
    }

    /// The bytes held.
    pub fn as_slice(&self) -> (r: &[u8])
        ensures
            r@ == self.bytes(),
    {
        self.0.as_slice()
    }
}

} // verus!
