use vstd::prelude::*;

use chacha20::cipher::{KeyIvInit, StreamCipher, StreamCipherSeek};

verus! {

/// Bytes XOR-ed pairwise; as long as the first.
pub open spec fn xor_bytes(data: Seq<u8>, ks: Seq<u8>) -> Seq<u8> {
    Seq::new(data.len(), |i: int| data[i] ^ ks[i])
}

/// A stream cipher that can also say whether it changes data at all, and be
/// moved back in its keystream.
///
/// Each cipher is described by spec functions: what applying it to some data
/// gives, what the cipher becomes after applying it to so many bytes or after
/// moving back so many, and when these can be done.
pub trait StreamCipherExt: Sized {
    /// Whether the cipher is in a usable state.
    spec fn valid(&self) -> bool;

    /// Whether applying the cipher changes data.
    spec fn modifies(&self) -> bool;

    /// Whether `len` more bytes of keystream are left.
    spec fn can_apply(&self, len: nat) -> bool;

    /// The data after the cipher has been applied to it.
    spec fn applied(&self, data: Seq<u8>) -> Seq<u8>;

    /// The cipher after it has been applied to `len` bytes.
    spec fn advanced(&self, len: nat) -> Self;

    /// Whether the cipher can move back `cnt` bytes.
    spec fn can_rewind(&self, cnt: nat) -> bool;

    /// The cipher after it moved back `cnt` bytes.
    spec fn rewound(&self, cnt: nat) -> Self;

    /// Applies the keystream to `buf` in place.
    fn apply_keystream(&mut self, buf: &mut Vec<u8>)
        requires
            old(self).valid(),
            old(self).can_apply(old(buf)@.len()),
        ensures
            final(buf)@ == old(self).applied(old(buf)@),
            final(buf)@.len() == old(buf)@.len(),
            *final(self) == old(self).advanced(old(buf)@.len()),
            final(self).valid(),
    ;

    /// Whether applying the cipher changes data.
    fn will_modify_data(&self) -> (r: bool)
        ensures
            r == self.modifies(),
    ;

    /// Moves the cipher back `cnt` bytes in its keystream.
    fn rewind(&mut self, cnt: usize)
        requires
            old(self).valid(),
            old(self).can_rewind(cnt as nat),
        ensures
            *final(self) == old(self).rewound(cnt as nat),
            final(self).valid(),
    ;

    /// Applying the cipher to `l` bytes and then moving back `l - k` leaves it
    /// as applying it to `k` bytes would: a write that sent only part of what
    /// was enciphered keeps the cipher in step with what was sent.
    proof fn lemma_rewind_after_apply(&self, l: nat, k: nat)
        requires
            self.valid(),
            self.can_apply(l),
            k <= l,
        ensures
            self.advanced(l).can_rewind((l - k) as nat),
            self.advanced(l).rewound((l - k) as nat) == self.advanced(k),
            self.can_apply(k),
    ;

    /// Applying the cipher to no bytes changes nothing.
    proof fn lemma_advance_zero(&self)
        requires
            self.valid(),
        ensures
            self.can_apply(0),
            self.advanced(0) == *self,
    ;

    /// Applying the cipher to `a` and then, moved on past `a`, to `b` gives
    /// what applying it to `a` and `b` together gives, and leaves it where
    /// that would: how the data is cut into chunks does not matter.
    proof fn lemma_apply_in_chunks(&self, a: Seq<u8>, b: Seq<u8>)
        requires
            self.valid(),
            self.can_apply(a.len() + b.len()),
        ensures
            self.can_apply(a.len()),
            self.advanced(a.len()).valid(),
            self.advanced(a.len()).can_apply(b.len()),
            self.applied(a) + self.advanced(a.len()).applied(b) == self.applied(a + b),
            self.advanced(a.len()).advanced(b.len()) == self.advanced(a.len() + b.len()),
    ;

    /// Applying the cipher keeps the length of the data.
    proof fn lemma_applied_len(&self, data: Seq<u8>)
        requires
            self.valid(),
            self.can_apply(data.len()),
        ensures
            self.applied(data).len() == data.len(),
    ;
}

/// The keystream byte ChaCha20 (the `chacha20` crate) gives for a key and a
/// nonce at byte position `pos`.
pub uninterp spec fn chacha20_keystream_byte(key: Seq<u8>, iv: Seq<u8>, pos: nat) -> u8;

/// The ChaCha20 keystream for a key and a nonce, `len` bytes from byte
/// position `pos` on.
pub open spec fn chacha20_keystream(key: Seq<u8>, iv: Seq<u8>, pos: nat, len: nat) -> Seq<u8> {
    Seq::new(len, |i: int| chacha20_keystream_byte(key, iv, (pos + i) as nat))
}

/// How far a ChaCha20 keystream reaches: its block counter holds 32 bits, and
/// the last block is never started.
pub const CHACHA20_LIMIT: u64 = 0x3f_ffff_ffc0;

/// Applies the ChaCha20 keystream for `key` and `iv` from byte `pos` on to
/// `buf` (the `chacha20` crate's `new_from_slices`, `seek`,
/// `apply_keystream`). Claimed, as the crate documents it: the data is XOR-ed
/// with the keystream from the position sought on, each keystream byte
/// depending on key, nonce and its own position alone. The keystream itself is
/// left unsaid.
#[verifier::external_body]
fn chacha20_apply(key: &[u8], iv: &[u8], pos: u64, buf: &mut Vec<u8>)
    requires
        key@.len() == 32,
        iv@.len() == 12,
        pos + old(buf)@.len() <= CHACHA20_LIMIT,
    ensures
        final(buf)@ == xor_bytes(
            old(buf)@,
            Seq::new(old(buf)@.len(), |i: int| chacha20_keystream_byte(key@, iv@, (pos + i) as nat)),
        ),
{
    let mut c = chacha20::ChaCha20::new_from_slices(key, iv).unwrap();
    c.seek(pos);
    c.apply_keystream(buf.as_mut_slice());
}

/// ChaCha20 with its key, nonce and position in the keystream.
#[derive(Debug)]
pub struct ChaCha20 {
    key: Vec<u8>,
    iv: Vec<u8>,
    pos: u64,
}

impl ChaCha20 {
    /// The key.
    pub closed spec fn key(&self) -> Seq<u8> {
        self.key@
    }

    /// The nonce.
    pub closed spec fn iv(&self) -> Seq<u8> {
        self.iv@
    }

    /// The position in the keystream, in bytes.
    pub closed spec fn pos(&self) -> nat {
        self.pos as nat
    }

    /// A cipher at the start of the keystream for a key and a nonce of the
    /// right lengths.
    pub fn new(key: Vec<u8>, iv: Vec<u8>) -> (r: ChaCha20)
        requires
            key@.len() == 32,
            iv@.len() == 12,
        ensures
            r.valid(),
            r.key() == key@,
            r.iv() == iv@,
            r.pos() == 0,
    {
        ChaCha20 { key, iv, pos: 0 }
    }
}

impl StreamCipherExt for ChaCha20 {
    closed spec fn valid(&self) -> bool {
        self.key@.len() == 32 && self.iv@.len() == 12 && self.pos <= CHACHA20_LIMIT
    }

    closed spec fn modifies(&self) -> bool {
        true
    }

    closed spec fn can_apply(&self, len: nat) -> bool {
        self.pos + len <= CHACHA20_LIMIT
    }

    closed spec fn applied(&self, data: Seq<u8>) -> Seq<u8> {
        xor_bytes(data, chacha20_keystream(self.key@, self.iv@, self.pos as nat, data.len()))
    }

    closed spec fn advanced(&self, len: nat) -> Self {
        ChaCha20 { key: self.key, iv: self.iv, pos: (self.pos + len) as u64 }
    }

    closed spec fn can_rewind(&self, cnt: nat) -> bool {
        cnt <= self.pos
    }

    closed spec fn rewound(&self, cnt: nat) -> Self {
        ChaCha20 { key: self.key, iv: self.iv, pos: (self.pos - cnt) as u64 }
    }

    fn apply_keystream(&mut self, buf: &mut Vec<u8>) {
        chacha20_apply(self.key.as_slice(), self.iv.as_slice(), self.pos, buf);
        self.pos = self.pos + buf.len() as u64;
    }

    fn will_modify_data(&self) -> (r: bool) {
        true
    }

    fn rewind(&mut self, cnt: usize) {
        self.pos = self.pos - cnt as u64;
    }

    proof fn lemma_rewind_after_apply(&self, l: nat, k: nat) {
    }

    proof fn lemma_advance_zero(&self) {
    }

    proof fn lemma_apply_in_chunks(&self, a: Seq<u8>, b: Seq<u8>) {
        let p = self.pos as nat;
        let whole = self.applied(a + b);
        let parts = self.applied(a) + self.advanced(a.len()).applied(b);
        assert(self.advanced(a.len()).pos == p + a.len());
        assert forall|i: int| 0 <= i < whole.len() implies #[trigger] whole[i] == parts[i] by {
            if i >= a.len() {
                assert((p + a.len() + (i - a.len())) as nat == (p + i) as nat);
            }
        }
        assert(whole =~= parts);
    }

    proof fn lemma_applied_len(&self, data: Seq<u8>) {
    }
}

/// What a cipher gives when it is fed chunk after chunk, moving on past each.
pub open spec fn applied_in_chunks<C: StreamCipherExt>(c: C, chunks: Seq<Seq<u8>>) -> Seq<u8>
    decreases chunks.len(),
{
    if chunks.len() == 0 {
        Seq::empty()
    } else {
        c.applied(chunks[0]) + applied_in_chunks(c.advanced(chunks[0].len()), chunks.drop_first())
    }
}

/// Where a cipher stands after it was fed chunk after chunk.
pub open spec fn advanced_in_chunks<C: StreamCipherExt>(c: C, chunks: Seq<Seq<u8>>) -> C
    decreases chunks.len(),
{
    if chunks.len() == 0 {
        c
    } else {
        advanced_in_chunks(c.advanced(chunks[0].len()), chunks.drop_first())
    }
}

/// Whatever chunks data is fed in, a cipher gives what it gives for the data
/// in one piece, and ends where it would.
pub proof fn lemma_any_chunking<C: StreamCipherExt>(c: C, chunks: Seq<Seq<u8>>)
    requires
        c.valid(),
        c.can_apply(chunks.flatten().len()),
    ensures
        applied_in_chunks(c, chunks) == c.applied(chunks.flatten()),
        advanced_in_chunks(c, chunks) == c.advanced(chunks.flatten().len()),
    decreases chunks.len(),
{
    if chunks.len() == 0 {
        c.lemma_advance_zero();
        assert(c.applied(chunks.flatten()) =~= Seq::<u8>::empty()) by {
            c.lemma_applied_len(chunks.flatten());
        }
    } else {
        let a = chunks[0];
        let rest = chunks.drop_first();
        assert(chunks.flatten() == a + rest.flatten());
        c.lemma_apply_in_chunks(a, rest.flatten());
        lemma_any_chunking(c.advanced(a.len()), rest);
    }
}

/// Applying ChaCha20 with a key and nonce from some position, and then again
/// with the same key and nonce from the same position, gives the data back:
/// what one side enciphers, the other deciphers.
pub proof fn lemma_chacha20_roundtrip(c: ChaCha20, data: Seq<u8>)
    requires
        c.valid(),
        c.can_apply(data.len()),
    ensures
        c.applied(data).len() == data.len(),
        c.applied(c.applied(data)) == data,
{
    let ks = chacha20_keystream(c.key(), c.iv(), c.pos(), data.len());
    let once = xor_bytes(data, ks);
    assert(once.len() == data.len());
    assert forall|i: int| 0 <= i < data.len() implies #[trigger] xor_bytes(once, ks)[i] == data[i] by {
        let (a, b) = (data[i], ks[i]);
        assert((a ^ b) ^ b == a) by (bit_vector);
    }
    assert(xor_bytes(once, ks) =~= data);
}

/// ChaCha20 applies the same keystream wherever it is held in the same state:
/// the same key, nonce and position.
pub proof fn lemma_chacha20_same_state(c1: ChaCha20, c2: ChaCha20, data: Seq<u8>)
    requires
        c1.key() == c2.key(),
        c1.iv() == c2.iv(),
        c1.pos() == c2.pos(),
    ensures
        c1.applied(data) == c2.applied(data),
        c1.valid() == c2.valid(),
        forall|len: nat| c1.can_apply(len) == c2.can_apply(len),
{
}

/// Why a cipher could not be made.
#[derive(Debug, Clone, Copy, PartialEq, Eq, Structural)]
pub enum CipherError {
    /// The key or the nonce has the wrong length for the cipher.
    InvalidKeyIv,
    /// No cipher has this number.
    UnknownCipherType(u8),
}

/// The number of ChaCha20 among cipher types.
pub const CIPHER_CHACHA20: u8 = 1;

/// Makes the cipher of a type number from a key and a nonce: ChaCha20 for
/// type 1, with a 32-byte key and a 12-byte nonce.
pub fn create_cipher(cipher_type: u8, key: &[u8], iv: &[u8]) -> (r: Result<ChaCha20, CipherError>)
    ensures
        cipher_type != CIPHER_CHACHA20 ==> r == Err::<ChaCha20, CipherError>(CipherError::UnknownCipherType(cipher_type)),
        cipher_type == CIPHER_CHACHA20 && (key@.len() != 32 || iv@.len() != 12) ==> r == Err::<ChaCha20, CipherError>(CipherError::InvalidKeyIv),
        cipher_type == CIPHER_CHACHA20 && key@.len() == 32 && iv@.len() == 12 ==> (r matches Ok(c) && c.valid()
            && c.key() == key@ && c.iv() == iv@ && c.pos() == 0),
{
    if cipher_type != CIPHER_CHACHA20 {
        return Err(CipherError::UnknownCipherType(cipher_type));
    }
    if key.len() != 32 || iv.len() != 12 {
        return Err(CipherError::InvalidKeyIv);
    }
    let k = crate::bytes::sub_vec(key, 0, 32);
    let v = crate::bytes::sub_vec(iv, 0, 12);
    proof { assert(k@ =~= key@); assert(v@ =~= iv@); }
    Ok(ChaCha20::new(k, v))
}

/// `n` random bytes from the thread's generator (rand's `thread_rng().fill`).
/// Claimed: there are `n` of them; their values are left unsaid.
#[verifier::external_body]
fn random_bytes(n: usize) -> (r: Vec<u8>)
    ensures
        r@.len() == n,
{
    let mut v = vec![0u8; n];
    rand::Rng::fill(&mut rand::thread_rng(), v.as_mut_slice());
    v
}

/// Picks a cipher for a new connection: ChaCha20 with a random key and nonce.
/// Gives the type number, the cipher, the key and the nonce.
pub fn pick_cipher() -> (r: (u8, ChaCha20, Vec<u8>, Vec<u8>))
    ensures
        r.0 == CIPHER_CHACHA20,
        r.1.valid(),
        r.1.key() == r.2@,
        r.1.iv() == r.3@,
        r.1.pos() == 0,
        r.2@.len() == 32,
        r.3@.len() == 12,
{
    let key = random_bytes(32);
    let iv = random_bytes(12);
    let k = crate::bytes::sub_vec(key.as_slice(), 0, 32);
    let v = crate::bytes::sub_vec(iv.as_slice(), 0, 12);
    proof { assert(k@ =~= key@); assert(v@ =~= iv@); }
    let cipher = ChaCha20::new(k, v);
    (CIPHER_CHACHA20, cipher, key, iv)
}

} // verus!
