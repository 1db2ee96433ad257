//! A duplex stream that enciphers what it writes and deciphers what it reads.
//! The reading and writing is done by the caller; these functions keep the
//! ciphers in step with the bytes that actually went through.
use vstd::prelude::*;

use crate::bytes::sub_vec;
use crate::cipher::suite::StreamCipherExt;

verus! {

/// A stream with a cipher for each direction.
#[derive(Debug)]
pub struct CipherStream<R, W, C> {
    pub r: R,
    pub w: W,
    pub name: String,
    pub rd_cipher: Option<C>,
    pub wr_cipher: Option<C>,
    pub last_written_size: Option<usize>,
    pub wr_buf: Vec<u8>,
}

/// How a write of the enciphered bytes went.
#[derive(Debug, Clone, Copy, PartialEq, Eq, Structural)]
pub enum WriteOutcome {
    /// This many bytes were written.
    Written(usize),
    /// The writer was not ready; nothing was written.
    Pending,
    /// The writer failed.
    Failed,
}

/// The data with the cipher applied to its first `len` bytes.
pub open spec fn applied_prefix<C: StreamCipherExt>(c: C, data: Seq<u8>, len: nat) -> Seq<u8> {
    c.applied(data.take(len as int)) + data.skip(len as int)
}

/// How many bytes an enciphered write takes: what the last write took (4096
/// before any), at least 512, and no more than there is.
pub open spec fn desired_write_len(data_len: nat, last: Option<usize>) -> nat {
    let l = match last { Some(v) => v as nat, None => 4096 };
    let m = if l < 512 { 512 } else { l };
    if data_len < m { data_len } else { m }
}

/// Applies a cipher to the first `len` bytes of `buf`.
fn apply_prefix<C: StreamCipherExt>(c: &mut C, buf: &mut Vec<u8>, len: usize)
    requires
        len <= old(buf)@.len(),
        old(c).valid(),
        old(c).can_apply(len as nat),
    ensures
        final(buf)@ == applied_prefix(*old(c), old(buf)@, len as nat),
        *final(c) == old(c).advanced(len as nat),
        final(c).valid(),
{
    let total = buf.len();
    let mut head = sub_vec(buf.as_slice(), 0, len);
    proof { assert(head@ =~= old(buf)@.take(len as int)); }
    c.apply_keystream(&mut head);
    let mut i: usize = 0;
    while i < len
        invariant
            len <= total,
            total == buf@.len(),
            head@.len() == len,
            i <= len,
            forall|k: int| 0 <= k < i ==> buf@[k] == head@[k],
            forall|k: int| i <= k < total ==> buf@[k] == old(buf)@[k],
        decreases len - i,
    {
        buf.set(i, head[i]);
        i = i + 1;
    }
    proof { assert(buf@ =~= head@ + old(buf)@.skip(len as int)); }
}

impl<R, W, C: StreamCipherExt> CipherStream<R, W, C> {
    /// A stream over a reader and a writer with a cipher for each.
    pub fn new(name: String, r: R, w: W, rd_cipher: C, wr_cipher: C) -> (s: Self)
        ensures
            s.r == r,
            s.w == w,
            s.name == name,
            s.rd_cipher == Some(rd_cipher),
            s.wr_cipher == Some(wr_cipher),
            s.last_written_size is None,
            s.wr_buf@.len() == 0,
    {
        CipherStream {
            r,
            w,
            rd_cipher: Some(rd_cipher),
            wr_cipher: Some(wr_cipher),
            name,
            last_written_size: None,
            wr_buf: Vec::new(),
        }
    }

    /// Deciphers the `len` bytes just read into `buf`. A cipher that no
    /// longer changes data is dropped at the first bytes it meets.
    pub fn after_read(&mut self, buf: &mut Vec<u8>, len: usize)
        requires
            len <= old(buf)@.len(),
            old(self).rd_cipher matches Some(c) ==> c.valid() && c.can_apply(len as nat),
        ensures
            final(self).r == old(self).r,
            final(self).w == old(self).w,
            final(self).wr_cipher == old(self).wr_cipher,
            final(self).last_written_size == old(self).last_written_size,
            final(self).wr_buf == old(self).wr_buf,
            match old(self).rd_cipher {
                Some(c) => if len == 0 {
                    final(self).rd_cipher == old(self).rd_cipher && final(buf)@ == old(buf)@
                } else if c.modifies() {
                    final(self).rd_cipher == Some(c.advanced(len as nat))
                        && final(buf)@ == applied_prefix(c, old(buf)@, len as nat)
                } else {
                    final(self).rd_cipher is None && final(buf)@ == old(buf)@
                },
                None => final(self).rd_cipher is None && final(buf)@ == old(buf)@,
            },
    {
        if len > 0 {
            let drop_cipher = match &mut self.rd_cipher {
                Some(c) => {
                    if c.will_modify_data() {
                        apply_prefix(c, buf, len);
                        false
                    } else {
                        true
                    }
                },
                None => false,
            };
            if drop_cipher {
                self.rd_cipher = None;
            }
        }
    }

    /// Prepares a write of `data`. With a cipher that changes data, enciphers
    /// the first [`desired_write_len`] bytes into `wr_buf` and answers `true`:
    /// `wr_buf` is then to be written and [`Self::finish_write`] told how it
    /// went. Otherwise answers `false`: `data` is written as it is (a cipher
    /// that no longer changes data is dropped).
    pub fn begin_write(&mut self, data: &[u8]) -> (r: bool)
        requires
            old(self).wr_cipher matches Some(c) ==> c.valid()
                && c.can_apply(desired_write_len(data@.len(), old(self).last_written_size)),
        ensures
            final(self).r == old(self).r,
            final(self).w == old(self).w,
            final(self).rd_cipher == old(self).rd_cipher,
            final(self).last_written_size == old(self).last_written_size,
            match old(self).wr_cipher {
                Some(c) => if c.modifies() {
                    let n = desired_write_len(data@.len(), old(self).last_written_size);
                    &&& r
                    &&& final(self).wr_cipher == Some(c.advanced(n))
                    &&& c.advanced(n).valid()
                    &&& final(self).wr_buf@ == c.applied(data@.take(n as int))
                    &&& final(self).wr_buf@.len() == n
                } else {
                    !r && final(self).wr_cipher is None && final(self).wr_buf@.len() == 0
                },
                None => !r && final(self).wr_cipher is None && final(self).wr_buf == old(self).wr_buf,
            },
    {
        let last = match self.last_written_size {
            Some(v) => v,
            None => 4096,
        };
        let m = if last < 512 { 512 } else { last };
        let desired = if data.len() < m { data.len() } else { m };
        let mut drop_cipher = false;
        let mut enciphered = false;
        match &mut self.wr_cipher {
            Some(c) => {
                if c.will_modify_data() {
                    let mut b = sub_vec(data, 0, desired);
                    proof { assert(b@ =~= data@.take(desired as int)); }
                    c.apply_keystream(&mut b);
                    self.wr_buf = b;
                    enciphered = true;
                } else {
                    drop_cipher = true;
                }
            },
            None => {},
        }
        if drop_cipher {
            self.wr_cipher = None;
            self.wr_buf = Vec::new();
        }
        enciphered
    }

    /// Records how the write of `wr_buf` went: moves the cipher back over the
    /// bytes that were not written (all of them when the writer was not
    /// ready) and remembers how much was written.
    pub fn finish_write(&mut self, outcome: WriteOutcome)
        requires
            old(self).wr_cipher matches Some(c) && c.valid() && match outcome {
                WriteOutcome::Written(v) => v < old(self).wr_buf@.len() ==> c.can_rewind((old(self).wr_buf@.len() - v) as nat),
                WriteOutcome::Pending => c.can_rewind(old(self).wr_buf@.len()),
                WriteOutcome::Failed => true,
            },
        ensures
            final(self).r == old(self).r,
            final(self).w == old(self).w,
            final(self).rd_cipher == old(self).rd_cipher,
            final(self).wr_buf == old(self).wr_buf,
            ({
                let c = old(self).wr_cipher->Some_0;
                let len = old(self).wr_buf@.len();
                match outcome {
                    WriteOutcome::Written(v) => {
                        &&& final(self).last_written_size == Some(v)
                        &&& v < len ==> final(self).wr_cipher == Some(c.rewound((len - v) as nat))
                        &&& v >= len ==> final(self).wr_cipher == Some(c)
                    },
                    WriteOutcome::Pending => final(self).wr_cipher == Some(c.rewound(len))
                        && final(self).last_written_size == old(self).last_written_size,
                    WriteOutcome::Failed => final(self).wr_cipher == Some(c)
                        && final(self).last_written_size == old(self).last_written_size,
                }
            }),
    {
        let len = self.wr_buf.len();
        match outcome {
            WriteOutcome::Written(v) => {
                if v < len {
                    match &mut self.wr_cipher {
                        Some(c) => c.rewind(len - v),
                        None => {},
                    }
                }
                self.last_written_size = Some(v);
            },
            WriteOutcome::Pending => {
                match &mut self.wr_cipher {
                    Some(c) => c.rewind(len),
                    None => {},
                }
            },
            WriteOutcome::Failed => {},
        }
    }
}

/// A write that sends only `k` of the `l` bytes it enciphered leaves the
/// cipher as if exactly those `k` bytes had been enciphered; one that sends
/// nothing leaves it as it was.
pub proof fn lemma_write_in_step<C: StreamCipherExt>(c: C, l: nat, k: nat)
    requires
        c.valid(),
        c.can_apply(l),
        k <= l,
    ensures
        c.advanced(l).can_rewind((l - k) as nat),
        c.advanced(l).rewound((l - k) as nat) == c.advanced(k),
        c.advanced(l).can_rewind(l),
        c.advanced(l).rewound(l) == c,
{
    c.lemma_rewind_after_apply(l, k);
    c.lemma_rewind_after_apply(l, 0);
    c.lemma_advance_zero();
}

/// One enciphered write: the data handed to it, how many of its bytes were
/// enciphered into `wr_buf` ([`CipherStream::begin_write`]), and how many of
/// those the writer took ([`CipherStream::finish_write`]; none when it was
/// not ready).
pub struct WriteStep {
    pub data: Seq<u8>,
    pub enciphered: nat,
    pub taken: nat,
}

/// The write cipher after a run of writes: each moves it on past what it
/// enciphered, then back over what the writer did not take.
pub open spec fn cipher_after_writes<C: StreamCipherExt>(c: C, steps: Seq<WriteStep>) -> C
    decreases steps.len(),
{
    if steps.len() == 0 {
        c
    } else {
        let s = steps[0];
        cipher_after_writes(c.advanced(s.enciphered).rewound((s.enciphered - s.taken) as nat), steps.drop_first())
    }
}

/// The bytes the writer took over a run of writes: of each write, the first
/// bytes of what was enciphered.
pub open spec fn bytes_sent<C: StreamCipherExt>(c: C, steps: Seq<WriteStep>) -> Seq<u8>
    decreases steps.len(),
{
    if steps.len() == 0 {
        Seq::empty()
    } else {
        let s = steps[0];
        c.applied(s.data.take(s.enciphered as int)).take(s.taken as int) + bytes_sent(
            c.advanced(s.enciphered).rewound((s.enciphered - s.taken) as nat),
            steps.drop_first(),
        )
    }
}

/// The plain bytes whose enciphered form the writer took, write after write.
pub open spec fn plain_taken(steps: Seq<WriteStep>) -> Seq<u8>
    decreases steps.len(),
{
    if steps.len() == 0 {
        Seq::empty()
    } else {
        steps[0].data.take(steps[0].taken as int) + plain_taken(steps.drop_first())
    }
}

/// Whether each write in a run enciphers no more than its data and the
/// keystream left allow, and the writer takes no more than was enciphered.
pub open spec fn writes_possible<C: StreamCipherExt>(c: C, steps: Seq<WriteStep>) -> bool
    decreases steps.len(),
{
    if steps.len() == 0 {
        true
    } else {
        let s = steps[0];
        &&& s.taken <= s.enciphered <= s.data.len()
        &&& c.can_apply(s.enciphered)
        &&& writes_possible(c.advanced(s.enciphered).rewound((s.enciphered - s.taken) as nat), steps.drop_first())
    }
}

/// Over any run of writes, whatever the writer took each time, the bytes it
/// received are the keystream applied to the plain bytes it accepted, in
/// order, and the cipher stands where enciphering exactly those bytes would
/// leave it: the other end, deciphering what arrives, stays in step.
pub proof fn lemma_writes_in_step<C: StreamCipherExt>(c: C, steps: Seq<WriteStep>)
    requires
        c.valid(),
        writes_possible(c, steps),
        c.can_apply(plain_taken(steps).len()),
    ensures
        bytes_sent(c, steps) == c.applied(plain_taken(steps)),
        cipher_after_writes(c, steps) == c.advanced(plain_taken(steps).len()),
    decreases steps.len(),
{
    if steps.len() == 0 {
        c.lemma_advance_zero();
        c.lemma_applied_len(plain_taken(steps));
        assert(c.applied(plain_taken(steps)) =~= Seq::<u8>::empty());
    } else {
        let s = steps[0];
        let rest = steps.drop_first();
        let l = s.enciphered;
        let k = s.taken;
        let a = s.data.take(k as int);
        let t = plain_taken(rest);
        c.lemma_rewind_after_apply(l, k);
        // What the writer took of this write is the keystream over its first `k` bytes.
        let tail = s.data.take(l as int).skip(k as int);
        assert(a + tail =~= s.data.take(l as int));
        c.lemma_apply_in_chunks(a, tail);
        c.lemma_applied_len(a);
        assert(c.applied(s.data.take(l as int)).take(k as int) =~= c.applied(a));
        // The rest goes on from where these `k` bytes left the cipher.
        assert(plain_taken(steps) == a + t);
        c.lemma_apply_in_chunks(a, t);
        lemma_writes_in_step(c.advanced(k), rest);
    }
}

} // verus!
