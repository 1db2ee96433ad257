use vstd::prelude::*;

use crate::cipher::noop::{new_no_op, NoOp};
use crate::cipher::partial::{min_int, new_partial_stream_cipher, PartialStreamCipher};
use crate::cipher::suite::{lemma_chacha20_roundtrip, ChaCha20, StreamCipherExt};

verus! {

/// How much of a stream is enciphered: all of it, its first bytes only, or
/// none of it.
#[derive(Debug, Clone, Copy, PartialEq, Eq, Structural)]
pub enum EncryptionStrategy {
    Always,
    FirstN(usize),
    Never,
}

/// A cipher chosen at run time: ChaCha20 on all bytes, ChaCha20 on the first
/// bytes only, or none.
#[derive(Debug)]
pub enum BoxedStreamCipher {
    Full(ChaCha20),
    Partial(PartialStreamCipher<ChaCha20>),
    Plain(NoOp),
}

impl EncryptionStrategy {
    /// Whether the strategy can be used: a first-bytes count above zero that
    /// fits in an `isize`.
    pub open spec fn valid(self) -> bool {
        match self {
            EncryptionStrategy::Always => true,
            EncryptionStrategy::FirstN(n) => 0 < n <= isize::MAX,
            EncryptionStrategy::Never => true,
        }
    }

    /// Wraps a cipher as the strategy says.
    pub fn wrap_cipher(self, c: ChaCha20) -> (r: BoxedStreamCipher)
        requires
            self.valid(),
        ensures
            match self {
                EncryptionStrategy::Always => r == BoxedStreamCipher::Full(c),
                EncryptionStrategy::FirstN(n) => r == BoxedStreamCipher::Partial(PartialStreamCipher { inner: c, n: n as isize }),
                EncryptionStrategy::Never => r == BoxedStreamCipher::Plain(NoOp),
            },
    {
        match self {
            EncryptionStrategy::Always => BoxedStreamCipher::Full(c),
            EncryptionStrategy::FirstN(n) => BoxedStreamCipher::Partial(new_partial_stream_cipher(n, c)),
            EncryptionStrategy::Never => BoxedStreamCipher::Plain(new_no_op()),
        }
    }
}

impl StreamCipherExt for BoxedStreamCipher {
    open spec fn valid(&self) -> bool {
        match self {
            BoxedStreamCipher::Full(c) => c.valid(),
            BoxedStreamCipher::Partial(c) => c.valid(),
            BoxedStreamCipher::Plain(c) => c.valid(),
        }
    }

    open spec fn modifies(&self) -> bool {
        match self {
            BoxedStreamCipher::Full(c) => c.modifies(),
            BoxedStreamCipher::Partial(c) => c.modifies(),
            BoxedStreamCipher::Plain(c) => c.modifies(),
        }
    }

    open spec fn can_apply(&self, len: nat) -> bool {
        match self {
            BoxedStreamCipher::Full(c) => c.can_apply(len),
            BoxedStreamCipher::Partial(c) => c.can_apply(len),
            BoxedStreamCipher::Plain(c) => c.can_apply(len),
        }
    }

    open spec fn applied(&self, data: Seq<u8>) -> Seq<u8> {
        match self {
            BoxedStreamCipher::Full(c) => c.applied(data),
            BoxedStreamCipher::Partial(c) => c.applied(data),
            BoxedStreamCipher::Plain(c) => c.applied(data),
        }
    }

    open spec fn advanced(&self, len: nat) -> Self {
        match self {
            BoxedStreamCipher::Full(c) => BoxedStreamCipher::Full(c.advanced(len)),
            BoxedStreamCipher::Partial(c) => BoxedStreamCipher::Partial(c.advanced(len)),
            BoxedStreamCipher::Plain(c) => BoxedStreamCipher::Plain(c.advanced(len)),
        }
    }

    open spec fn can_rewind(&self, cnt: nat) -> bool {
        match self {
            BoxedStreamCipher::Full(c) => c.can_rewind(cnt),
            BoxedStreamCipher::Partial(c) => c.can_rewind(cnt),
            BoxedStreamCipher::Plain(c) => c.can_rewind(cnt),
        }
    }

    open spec fn rewound(&self, cnt: nat) -> Self {
        match self {
            BoxedStreamCipher::Full(c) => BoxedStreamCipher::Full(c.rewound(cnt)),
            BoxedStreamCipher::Partial(c) => BoxedStreamCipher::Partial(c.rewound(cnt)),
            BoxedStreamCipher::Plain(c) => BoxedStreamCipher::Plain(c.rewound(cnt)),
        }
    }

    fn apply_keystream(&mut self, buf: &mut Vec<u8>) {
        match self {
            BoxedStreamCipher::Full(c) => c.apply_keystream(buf),
            BoxedStreamCipher::Partial(c) => c.apply_keystream(buf),
            BoxedStreamCipher::Plain(c) => c.apply_keystream(buf),
        }
    }

    fn will_modify_data(&self) -> (r: bool) {
        match self {
            BoxedStreamCipher::Full(c) => c.will_modify_data(),
            BoxedStreamCipher::Partial(c) => c.will_modify_data(),
            BoxedStreamCipher::Plain(c) => c.will_modify_data(),
        }
    }

    fn rewind(&mut self, cnt: usize) {
        match self {
            BoxedStreamCipher::Full(c) => c.rewind(cnt),
            BoxedStreamCipher::Partial(c) => c.rewind(cnt),
            BoxedStreamCipher::Plain(c) => c.rewind(cnt),
        }
    }

    proof fn lemma_rewind_after_apply(&self, l: nat, k: nat) {
        match self {
            BoxedStreamCipher::Full(c) => c.lemma_rewind_after_apply(l, k),
            BoxedStreamCipher::Partial(c) => c.lemma_rewind_after_apply(l, k),
            BoxedStreamCipher::Plain(c) => c.lemma_rewind_after_apply(l, k),
        }
    }

    proof fn lemma_advance_zero(&self) {
        match self {
            BoxedStreamCipher::Full(c) => c.lemma_advance_zero(),
            BoxedStreamCipher::Partial(c) => c.lemma_advance_zero(),
            BoxedStreamCipher::Plain(c) => c.lemma_advance_zero(),
        }
    }

    proof fn lemma_apply_in_chunks(&self, a: Seq<u8>, b: Seq<u8>) {
        match self {
            BoxedStreamCipher::Full(c) => c.lemma_apply_in_chunks(a, b),
            BoxedStreamCipher::Partial(c) => c.lemma_apply_in_chunks(a, b),
            BoxedStreamCipher::Plain(c) => c.lemma_apply_in_chunks(a, b),
        }
    }

    proof fn lemma_applied_len(&self, data: Seq<u8>) {
        match self {
            BoxedStreamCipher::Full(c) => c.lemma_applied_len(data),
            BoxedStreamCipher::Partial(c) => c.lemma_applied_len(data),
            BoxedStreamCipher::Plain(c) => c.lemma_applied_len(data),
        }
    }
}


/// What one end enciphers, the other end deciphers with a cipher in the same
/// state, whatever the strategy: all bytes, the first bytes only, or none.
pub proof fn lemma_boxed_roundtrip(c: BoxedStreamCipher, data: Seq<u8>)
    requires
        c.valid(),
        c.can_apply(data.len()),
    ensures
        c.applied(c.applied(data)) == data,
{
    match c {
        BoxedStreamCipher::Full(x) => {
            lemma_chacha20_roundtrip(x, data);
        },
        BoxedStreamCipher::Partial(p) => {
            if p.n > 0 {
                let l = min_int(p.n as int, data.len() as int);
                let head = data.take(l);
                lemma_chacha20_roundtrip(p.inner, head);
                let once = p.inner.applied(head) + data.skip(l);
                assert(once.len() == data.len());
                assert(once.take(l) =~= p.inner.applied(head));
                assert(once.skip(l) =~= data.skip(l));
                assert(head + data.skip(l) =~= data);
            }
        },
        BoxedStreamCipher::Plain(_) => {},
    }
}

} // verus!
