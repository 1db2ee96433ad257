use vstd::prelude::*;

use crate::cipher::suite::StreamCipherExt;

verus! {

/// A cipher applied to the first `n` bytes of a stream only; the rest passes
/// as it is. `n` counts down as bytes pass, below zero too.
#[derive(Debug)]
pub struct PartialStreamCipher<T> {
    pub inner: T,
    pub n: isize,
}

/// The smaller of two numbers.
pub open spec fn min_int(a: int, b: int) -> int {
    if a < b { a } else { b }
}

/// The larger of two numbers.
pub open spec fn max_int(a: int, b: int) -> int {
    if a < b { b } else { a }
}

impl<T: StreamCipherExt> StreamCipherExt for PartialStreamCipher<T> {
    open spec fn valid(&self) -> bool {
        self.inner.valid()
    }

    open spec fn modifies(&self) -> bool {
        self.n > 0
    }

    open spec fn can_apply(&self, len: nat) -> bool {
        &&& len <= isize::MAX
        &&& self.n - len >= isize::MIN
        &&& self.n > 0 ==> self.inner.can_apply(min_int(self.n as int, len as int) as nat)
    }

    open spec fn applied(&self, data: Seq<u8>) -> Seq<u8> {
        if self.n > 0 {
            let l = min_int(self.n as int, data.len() as int);
            self.inner.applied(data.take(l)) + data.skip(l)
        } else {
            data
        }
    }

    open spec fn advanced(&self, len: nat) -> Self {
        PartialStreamCipher {
            inner: if self.n > 0 {
                self.inner.advanced(min_int(self.n as int, len as int) as nat)
            } else {
                self.inner
            },
            n: (self.n - len) as isize,
        }
    }

    open spec fn can_rewind(&self, cnt: nat) -> bool {
        &&& cnt <= isize::MAX
        &&& self.n + cnt <= isize::MAX
        &&& self.n + cnt > 0 ==> self.inner.can_rewind((self.n + cnt - max_int(self.n as int, 0)) as nat)
    }

    open spec fn rewound(&self, cnt: nat) -> Self {
        PartialStreamCipher {
            inner: if self.n + cnt > 0 {
                self.inner.rewound((self.n + cnt - max_int(self.n as int, 0)) as nat)
            } else {
                self.inner
            },
            n: (self.n + cnt) as isize,
        }
    }

    fn apply_keystream(&mut self, buf: &mut Vec<u8>) {
        let total = buf.len();
        if self.n > 0 {
            let len = if (self.n as usize) < total { self.n as usize } else { total };
            let mut head = crate::bytes::sub_vec(buf.as_slice(), 0, len);
            self.inner.apply_keystream(&mut head);
            let mut i: usize = 0;
            while i < len
                invariant
                    len <= total,
                    total == buf@.len(),
                    head@.len() == len,
                    i <= len,
                    forall|k: int| 0 <= k < i ==> buf@[k] == head@[k],
                    forall|k: int| i <= k < total ==> buf@[k] == old(buf)@[k],
                decreases len - i,
            {
                buf.set(i, head[i]);
                i = i + 1;
            }
            proof {
                assert(buf@ =~= head@ + old(buf)@.skip(len as int));
            }
        }
        self.n = self.n - total as isize;
    }

    fn will_modify_data(&self) -> (r: bool) {
        self.n > 0
    }

    fn rewind(&mut self, cnt: usize) {
        let old_n = self.n;
        self.n = self.n + cnt as isize;
        if self.n > 0 {
            let base = if old_n > 0 { old_n } else { 0 };
            self.inner.rewind((self.n - base) as usize);
        }
    }

    proof fn lemma_rewind_after_apply(&self, l: nat, k: nat) {
        if self.n > 0 {
            let lm = min_int(self.n as int, l as int) as nat;
            let km = min_int(self.n as int, k as int) as nat;
            self.inner.lemma_rewind_after_apply(lm, km);
        }
    }

    proof fn lemma_advance_zero(&self) {
        if self.n > 0 {
            self.inner.lemma_advance_zero();
        }
    }

    proof fn lemma_apply_in_chunks(&self, a: Seq<u8>, b: Seq<u8>) {
        let la = a.len();
        let lb = b.len();
        let ab = a + b;
        if self.n > 0 {
            let n = self.n as int;
            if n >= la {
                // `a` is enciphered whole; of `b`, the first `n - la` bytes.
                let k = min_int(n - la, lb as int);
                let bh = b.take(k);
                self.inner.lemma_apply_in_chunks(a, bh);
                assert(ab.take(la + k) =~= a + bh);
                assert(ab.skip(la + k) =~= b.skip(k));
                self.inner.lemma_applied_len(a);
                let after = self.advanced(la);
                assert(after.inner == self.inner.advanced(la));
                if n - la > 0 {
                    assert(after.applied(b) == after.inner.applied(bh) + b.skip(k));
                } else {
                    assert(bh =~= Seq::<u8>::empty());
                    self.inner.advanced(la).lemma_advance_zero();
                    assert(after.applied(b) == b);
                    assert(self.inner.advanced(la).applied(bh) =~= Seq::<u8>::empty()) by {
                        self.inner.advanced(la).lemma_applied_len(bh);
                    }
                }
                assert(self.applied(a) =~= self.inner.applied(a)) by {
                    assert(a.take(la as int) =~= a);
                    assert(a.skip(la as int) =~= Seq::<u8>::empty());
                }
                assert(self.applied(a) + after.applied(b) =~= self.applied(ab));
            } else {
                // `a` already reaches past the enciphered bytes; `b` passes as it is.
                let an = a.take(n);
                self.inner.lemma_apply_in_chunks(an, Seq::<u8>::empty());
                assert(ab.take(n) =~= an);
                assert(ab.skip(n) =~= a.skip(n) + b);
                let after = self.advanced(la);
                assert(after.n <= 0);
                assert(after.applied(b) == b);
                assert(self.applied(a) + after.applied(b) =~= self.applied(ab));
            }
        }
    }

    proof fn lemma_applied_len(&self, data: Seq<u8>) {
        if self.n > 0 {
            let l = min_int(self.n as int, data.len() as int);
            self.inner.lemma_applied_len(data.take(l));
        }
    }
}

/// Wraps a cipher so that it is applied to the first `n` bytes only.
pub fn new_partial_stream_cipher<T: StreamCipherExt>(n: usize, inner: T) -> (r: PartialStreamCipher<T>)
    requires
        0 < n <= isize::MAX,
    ensures
        r.n == n,
        r.inner == inner,
{
    PartialStreamCipher { inner, n: n as isize }
}

} // verus!
