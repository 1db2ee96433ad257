use vstd::prelude::*;

verus! {

/// Most buffers kept around for reuse by a [`BufferCache`].
pub const MAX_BUFFER_LEN: usize = 128;

/// The storage size after a growth step: half as large again, but no more than
/// the limit, and never smaller than before.
pub open spec fn grown_len(len: nat, limit: nat) -> nat {
    let scaled = len * 15 / 10;
    let bounded = if limit < scaled { limit } else { scaled };
    if bounded > len { bounded } else { len }
}

/// The smaller of two lengths.
pub open spec fn min_nat(a: nat, b: nat) -> nat {
    if a < b { a } else { b }
}

/// The free space a write of `want` bytes can use: the space after the write
/// cursor, or, when that is too small, all the space left after compaction.
pub open spec fn free_for_write(capacity: nat, wpos: nat, readable: nat, want: nat) -> nat {
    if capacity - wpos < want { (capacity - readable) as nat } else { (capacity - wpos) as nat }
}

/// A byte buffer with a read cursor and a write cursor.
///
/// The bytes between the two cursors are the readable data; the bytes after the
/// write cursor are free space. The buffer grows up to `max_len` bytes.
pub struct RWBuffer {
    buf: Vec<u8>,
    read_cursor: usize,
    write_cursor: usize,
    max_len: usize,
    history: Ghost<Seq<BufEvent>>,
}

impl RWBuffer {
    /// Well-formedness: the read cursor never passes the write cursor, which
    /// never passes the end of the storage, and the readable bytes are what
    /// the calls so far left readable.
    pub closed spec fn wf(self) -> bool {
        &&& self.read_cursor <= self.write_cursor <= self.buf.len()
        &&& events_possible(Seq::empty(), self.history@)
        &&& self.readable() =~= after_events(Seq::empty(), self.history@)
    }

    /// What the calls since the buffer was made did to its readable bytes,
    /// in order.
    pub closed spec fn events(self) -> Seq<BufEvent> {
        self.history@
    }

    /// The bytes that are ready to be read, in order.
    pub closed spec fn readable(self) -> Seq<u8> {
        self.buf@.subrange(self.read_cursor as int, self.write_cursor as int)
    }

    /// The whole underlying storage.
    pub closed spec fn storage(self) -> Seq<u8> {
        self.buf@
    }

    /// Position of the read cursor.
    pub closed spec fn rpos(self) -> nat {
        self.read_cursor as nat
    }

    /// Position of the write cursor.
    pub closed spec fn wpos(self) -> nat {
        self.write_cursor as nat
    }

    /// The size limit given at construction.
    pub closed spec fn limit(self) -> nat {
        self.max_len as nat
    }

    /// Length of the underlying storage.
    pub open spec fn capacity(self) -> nat {
        self.storage().len()
    }

    /// A buffer of `init_capacity` bytes that may grow up to `max_len` bytes.
    pub fn new(init_capacity: usize, max_len: usize) -> (r: Self)
        requires
            max_len >= init_capacity,
        ensures
            r.wf(),
            r.readable() == Seq::<u8>::empty(),
            r.capacity() == init_capacity,
            r.rpos() == 0,
            r.wpos() == 0,
            r.limit() == max_len,
            r.events() == Seq::<BufEvent>::empty(),
    {
        let buf = vec![0u8; init_capacity];
        let r = RWBuffer { buf, read_cursor: 0, write_cursor: 0, max_len, history: Ghost(Seq::empty()) };
        proof { assert(r.readable() =~= Seq::<u8>::empty()); }
        r
    }

    /// Number of readable bytes.
    pub fn remaining_read(&self) -> (r: usize)
        requires
            self.wf(),
        ensures
            r == self.readable().len(),
            r == self.wpos() - self.rpos(),
    {
        self.write_cursor - self.read_cursor
    }

    /// Consumes `cnt` readable bytes; both cursors go back to the start once
    /// everything has been read.
    pub fn advance_read(&mut self, cnt: usize)
        requires
            old(self).wf(),
            cnt <= old(self).readable().len(),
        ensures
            final(self).wf(),
            final(self).readable() == old(self).readable().skip(cnt as int),
            final(self).storage() == old(self).storage(),
            final(self).limit() == old(self).limit(),
            final(self).wpos() == (if cnt == old(self).readable().len() { 0 } else { old(self).wpos() }),
            final(self).rpos() == (if cnt == old(self).readable().len() { 0 } else { old(self).rpos() + cnt }),
            final(self).events() == old(self).events().push(BufEvent::Consumed(cnt as nat)),
    {
        proof {
            let h = self.history@.push(BufEvent::Consumed(cnt as nat));
            assert(h.drop_last() =~= self.history@);
            self.history = Ghost(h);
        }
        let new_read = self.read_cursor + cnt;
        if new_read == self.write_cursor {
            self.read_cursor = 0;
            self.write_cursor = 0;
        } else {
            self.read_cursor = new_read;
        }
        proof {
            assert(final(self).readable() =~= old(self).readable().skip(cnt as int));
        }
    }

    /// The readable bytes: over any run of calls since the buffer was made,
    /// every byte committed, in the order of the commits, less as many bytes
    /// from the front as were consumed.
    pub fn read_buf(&self) -> (r: &[u8])
        requires
            self.wf(),
        ensures
            r@ == self.readable(),
            r@ == committed_bytes(self.events()).skip(consumed_count(self.events()) as int),
    {
        proof {
            lemma_readable_after_events(Seq::empty(), self.history@);
            assert(Seq::<u8>::empty() + committed_bytes(self.history@) =~= committed_bytes(self.history@));
        }
        &self.buf.as_slice()[self.read_cursor..self.write_cursor]
    }

    /// Marks `cnt` bytes after the write cursor as readable data.
    pub fn advance_write(&mut self, cnt: usize)
        requires
            old(self).wf(),
            old(self).wpos() + cnt <= old(self).capacity(),
        ensures
            final(self).wf(),
            final(self).readable() == old(self).readable() + old(self).storage().subrange(
                old(self).wpos() as int,
                old(self).wpos() + cnt,
            ),
            final(self).storage() == old(self).storage(),
            final(self).limit() == old(self).limit(),
            final(self).rpos() == old(self).rpos(),
            final(self).wpos() == old(self).wpos() + cnt,
            final(self).events() == old(self).events().push(
                BufEvent::Committed(old(self).storage().subrange(old(self).wpos() as int, old(self).wpos() + cnt)),
            ),
    {
        proof {
            let h = self.history@.push(
                BufEvent::Committed(self.buf@.subrange(self.write_cursor as int, self.write_cursor + cnt)),
            );
            assert(h.drop_last() =~= self.history@);
            self.history = Ghost(h);
        }
        self.write_cursor = self.write_cursor + cnt;
        proof {
            assert(final(self).readable() =~= old(self).readable() + old(self).storage().subrange(
                old(self).wpos() as int,
                old(self).wpos() + cnt,
            ));
        }
    }

    /// The free space after the write cursor, to be filled by the caller and
    /// then published with [`RWBuffer::advance_write`]. When there is no free
    /// space left the buffer grows first.
    pub fn write_buf(&mut self) -> (r: &mut [u8])
        requires
            old(self).wf(),
            old(self).capacity() * 15 <= usize::MAX,
        ensures
            final(self).wf(),
            r@.len() == (if old(self).wpos() == old(self).capacity() {
                grown_len(old(self).capacity(), old(self).limit())
            } else {
                old(self).capacity()
            }) - old(self).wpos(),
            final(self).storage() == old(self).storage().take(old(self).wpos() as int) + final(r)@,
            final(self).readable() == old(self).readable(),
            final(self).events() == old(self).events(),
            final(self).rpos() == old(self).rpos(),
            final(self).wpos() == old(self).wpos(),
            final(self).limit() == old(self).limit(),
    {
        if self.remaining_write() == 0 {
            self.grow();
        }
        let w = self.write_cursor;
        let (_, tail) = self.buf.as_mut_slice().split_at_mut(w);
        tail
    }

    /// Enlarges the storage by half, up to the limit; the data and the cursors stay.
    pub fn grow(&mut self)
        requires
            old(self).wf(),
            old(self).capacity() * 15 <= usize::MAX,
        ensures
            final(self).wf(),
            final(self).capacity() == grown_len(old(self).capacity(), old(self).limit()),
            final(self).storage().take(old(self).capacity() as int) == old(self).storage(),
            final(self).readable() == old(self).readable(),
            final(self).events() == old(self).events(),
            final(self).rpos() == old(self).rpos(),
            final(self).wpos() == old(self).wpos(),
            final(self).limit() == old(self).limit(),
    {
        let old_len = self.buf.len();
        let scaled = old_len * 15 / 10;
        let new_len = if self.max_len < scaled { self.max_len } else { scaled };
        if new_len > old_len {
            let extra_len = new_len - old_len;
            let mut extra = vec![0u8; extra_len];
            let mut bigger: Vec<u8> = Vec::with_capacity(new_len);
            let mut i: usize = 0;
            while i < old_len
                invariant
                    old_len == self.buf.len(),
                    i <= old_len,
                    bigger@ == self.buf@.take(i as int),
                decreases old_len - i,
            {
                bigger.push(self.buf[i]);
                i = i + 1;
                proof { assert(bigger@ =~= self.buf@.take(i as int)); }
            }
            bigger.append(&mut extra);
            proof {
                assert(bigger@.take(old_len as int) =~= old(self).storage());
                assert(bigger@.subrange(self.read_cursor as int, self.write_cursor as int)
                    =~= old(self).readable());
            }
            self.buf = bigger;
        }
    }

    /// Moves the readable bytes to the start of the storage.
    pub fn compact(&mut self)
        requires
            old(self).wf(),
        ensures
            final(self).wf(),
            final(self).readable() == old(self).readable(),
            final(self).rpos() == 0,
            final(self).wpos() == old(self).readable().len(),
            final(self).capacity() == old(self).capacity(),
            final(self).limit() == old(self).limit(),
            final(self).events() == old(self).events(),
    {
        if self.read_cursor < self.write_cursor {
            if self.read_cursor > 0 {
                let r = self.read_cursor;
                let n = self.write_cursor - r;
                let ghost before = self.buf@;
                let mut i: usize = 0;
                while i < n
                    invariant
                        r + n <= self.buf.len(),
                        self.buf.len() == before.len(),
                        self.max_len == old(self).max_len,
                        self.history == old(self).history,
                        self.read_cursor == old(self).read_cursor,
                        self.write_cursor == old(self).write_cursor,
                        before == old(self).buf@,
                        r == old(self).read_cursor,
                        r + n == old(self).write_cursor,
                        i <= n,
                        0 < r,
                        forall|k: int| 0 <= k < i ==> self.buf@[k] == before[r + k],
                        forall|k: int| i <= k < self.buf.len() && k >= r ==> self.buf@[k] == before[k],
                    decreases n - i,
                {
                    let b = self.buf[r + i];
                    self.buf.set(i, b);
                    i = i + 1;
                }
                self.write_cursor = n;
                self.read_cursor = 0;
                proof {
                    assert(self.buf@.subrange(0, n as int) =~= before.subrange(r as int, r + n));
                }
            }
        } else {
            self.read_cursor = 0;
            self.write_cursor = 0;
            proof {
                assert(final(self).readable() =~= old(self).readable());
            }
        }
    }

    /// Appends as much of `data` as fits, compacting first when the free space
    /// is too small for all of it. Returns how many bytes were taken.
    pub fn write(&mut self, data: &[u8]) -> (n: usize)
        requires
            old(self).wf(),
        ensures
            final(self).wf(),
            n == min_nat(data@.len(), free_for_write(old(self).capacity(), old(self).wpos(),
                old(self).readable().len(), data@.len())),
            final(self).readable() == old(self).readable() + data@.take(n as int),
            final(self).capacity() == old(self).capacity(),
            final(self).limit() == old(self).limit(),
            final(self).events() == old(self).events().push(BufEvent::Committed(data@.take(n as int))),
    {
        if self.remaining_write() < data.len() {
            self.compact();
        }
        let free = self.remaining_write();
        let len = if free < data.len() { free } else { data.len() };
        let w = self.write_cursor;
        let ghost before = self.buf@;
        let ghost mid = *self;
        let mut i: usize = 0;
        while i < len
            invariant
                w + len <= self.buf.len(),
                w == self.write_cursor,
                self.wf(),
                self.read_cursor == mid.read_cursor,
                self.write_cursor == mid.write_cursor,
                self.max_len == mid.max_len,
                self.history == mid.history,
                mid.wf(),
                before == mid.buf@,
                self.buf.len() == before.len(),
                len <= data.len(),
                i <= len,
                forall|k: int| 0 <= k < w ==> self.buf@[k] == before[k],
                forall|k: int| 0 <= k < i ==> self.buf@[w + k] == data@[k],
            decreases len - i,
        {
            self.buf.set(w + i, data[i]);
            i = i + 1;
            proof {
                assert(self.buf@.subrange(self.read_cursor as int, w as int)
                    =~= before.subrange(self.read_cursor as int, w as int));
            }
        }
        proof {
            assert(self.buf@.subrange(self.read_cursor as int, w as int)
                =~= before.subrange(self.read_cursor as int, w as int));
            assert(self.buf@.subrange(w as int, w + len) =~= data@.take(len as int));
        }
        self.advance_write(len);
        proof {
            assert(final(self).readable() =~= old(self).readable() + data@.take(len as int));
        }
        len
    }

    /// Moves as many readable bytes as fit into `out`, in order, and consumes
    /// them. Returns how many bytes were moved.
    pub fn read(&mut self, out: &mut [u8]) -> (n: usize)
        requires
            old(self).wf(),
        ensures
            final(self).wf(),
            n == min_nat(old(self).readable().len(), old(out)@.len()),
            final(out)@.len() == old(out)@.len(),
            final(out)@.take(n as int) == old(self).readable().take(n as int),
            final(out)@.skip(n as int) == old(out)@.skip(n as int),
            final(self).readable() == old(self).readable().skip(n as int),
            final(self).capacity() == old(self).capacity(),
            final(self).limit() == old(self).limit(),
            final(self).events() == old(self).events().push(BufEvent::Consumed(n as nat)),
    {
        let avail = self.remaining_read();
        let len = if avail < out.len() { avail } else { out.len() };
        let r = self.read_cursor;
        let mut i: usize = 0;
        while i < len
            invariant
                r + len <= self.write_cursor <= self.buf.len(),
                r == self.read_cursor,
                self.wf(),
                self.buf@ == old(self).buf@,
                self.read_cursor == old(self).read_cursor,
                self.write_cursor == old(self).write_cursor,
                self.max_len == old(self).max_len,
                len <= out@.len(),
                out@.len() == old(out)@.len(),
                i <= len,
                forall|k: int| 0 <= k < i ==> out@[k] == self.buf@[r + k],
                forall|k: int| len <= k < out@.len() ==> out@[k] == old(out)@[k],
            decreases len - i,
        {
            out[i] = self.buf[r + i];
            i = i + 1;
        }
        proof {
            assert(out@.take(len as int) =~= old(self).readable().take(len as int));
            assert(out@.skip(len as int) =~= old(out)@.skip(len as int));
        }
        self.advance_read(len);
        len
    }

    /// Free space after the write cursor.
    pub fn remaining_write(&self) -> (r: usize)
        requires
            self.wf(),
        ensures
            r == self.capacity() - self.wpos(),
    {
        self.buf.len() - self.write_cursor
    }

    /// Whether less than a quarter of the storage is free.
    pub fn should_compact(&self) -> (r: bool)
        requires
            self.wf(),
        ensures
            r == (self.capacity() - self.wpos() < self.capacity() / 4),
    {
        self.remaining_write() < self.buf.len() / 4
    }
}

} // verus!

verus! {

/// Index of the first buffer, at or after `i`, whose length is at least `size`;
/// the number of buffers if there is none.
pub open spec fn first_at_least(bufs: Seq<Vec<u8>>, size: nat, i: int) -> int
    decreases bufs.len() - i,
{
    if i < 0 || i >= bufs.len() {
        bufs.len() as int
    } else if bufs[i]@.len() >= size {
        i
    } else {
        first_at_least(bufs, size, i + 1)
    }
}

/// Buffers ordered by length.
pub open spec fn sorted_by_len(bufs: Seq<Vec<u8>>) -> bool {
    forall|i: int, j: int| 0 <= i <= j < bufs.len() ==> bufs[i]@.len() <= bufs[j]@.len()
}

/// A pool of spare byte buffers kept in order of their length.
pub struct BufferCache {
    bufs: Vec<Vec<u8>>,
}

impl BufferCache {
    /// The spare buffers, shortest first.
    pub closed spec fn buffers(self) -> Seq<Vec<u8>> {
        self.bufs@
    }

    /// Well-formedness: ordered by length and never more than
    /// [`MAX_BUFFER_LEN`] buffers.
    pub open spec fn wf(self) -> bool {
        &&& sorted_by_len(self.buffers())
        &&& self.buffers().len() <= MAX_BUFFER_LEN
    }

    /// An empty pool.
    pub fn new() -> (r: Self)
        ensures
            r.wf(),
            r.buffers() == Seq::<Vec<u8>>::empty(),
    {
        BufferCache { bufs: Vec::new() }
    }

    /// Number of spare buffers.
    pub fn len(&self) -> (r: usize)
        ensures
            r == self.buffers().len(),
    {
        self.bufs.len()
    }

    fn lower_bound(&self, size: usize) -> (p: usize)
        ensures
            p == first_at_least(self.buffers(), size as nat, 0),
            p <= self.buffers().len(),
    {
        let mut i: usize = 0;
        while i < self.bufs.len() && self.bufs[i].len() < size
            invariant
                i <= self.bufs.len(),
                first_at_least(self.bufs@, size as nat, 0) == first_at_least(self.bufs@, size as nat, i as int),
            decreases self.bufs.len() - i,
        {
            i = i + 1;
        }
        i
    }

    /// A buffer of at least `size` bytes: a spare one of exactly that length,
    /// or else the spare one just after the first longer one, or else a new
    /// zero-filled one. A spare buffer handed out leaves the pool.
    pub fn new_buf(&mut self, size: usize) -> (r: Vec<u8>)
        requires
            old(self).wf(),
        ensures
            final(self).wf(),
            r@.len() >= size,
            ({
                let b = old(self).buffers();
                let p = first_at_least(b, size as nat, 0);
                if p < b.len() && b[p]@.len() == size {
                    r == b[p] && final(self).buffers() == b.remove(p)
                } else if p + 1 < b.len() {
                    r == b[p + 1] && final(self).buffers() == b.remove(p + 1)
                } else {
                    r@ == Seq::new(size as nat, |k: int| 0u8) && final(self).buffers() == b
                }
            }),
    {
        let p = self.lower_bound(size);
        let n = self.bufs.len();
        proof { lemma_first_at_least(self.bufs@, size as nat, 0); }
        if p < n && self.bufs[p].len() == size {
            let r = self.bufs.remove(p);
            proof { lemma_remove_keeps_sorted(old(self).bufs@, p as int); }
            r
        } else if n > 0 && p < n - 1 {
            let r = self.bufs.remove(p + 1);
            proof { lemma_remove_keeps_sorted(old(self).bufs@, p + 1); }
            r
        } else {
            let r = vec![0u8; size];
            proof { assert(r@ =~= Seq::new(size as nat, |k: int| 0u8)); }
            r
        }
    }

    /// Gives a buffer back to the pool, in order of length, unless the pool is
    /// full, in which case the buffer is dropped.
    pub fn recycle_buf(&mut self, b: Vec<u8>)
        requires
            old(self).wf(),
        ensures
            final(self).wf(),
            old(self).buffers().len() < MAX_BUFFER_LEN ==> final(self).buffers() == old(
                self,
            ).buffers().insert(first_at_least(old(self).buffers(), b@.len(), 0), b),
            old(self).buffers().len() >= MAX_BUFFER_LEN ==> final(self).buffers() == old(
                self,
            ).buffers(),
    {
        if self.bufs.len() < MAX_BUFFER_LEN {
            let p = self.lower_bound(b.len());
            proof { lemma_first_at_least(self.bufs@, b@.len(), 0); }
            let ghost bl = b@.len();
            self.bufs.insert(p, b);
            proof {
                let old_b = old(self).bufs@;
                let new_b = self.bufs@;
                assert forall|i: int, j: int| 0 <= i <= j < new_b.len() implies new_b[i]@.len()
                    <= new_b[j]@.len() by {
                    if i < p && j < p {
                    } else if i < p && j == p {
                    } else if i < p && j > p {
                        assert(new_b[j] == old_b[j - 1]);
                    } else if i == p && j > p {
                        assert(new_b[j] == old_b[j - 1]);
                    } else if i > p {
                        assert(new_b[i] == old_b[i - 1]);
                        assert(new_b[j] == old_b[j - 1]);
                    }
                }
            }
        }
    }
}

/// What `first_at_least` says of the buffers before and after the index it returns.
pub proof fn lemma_first_at_least(bufs: Seq<Vec<u8>>, size: nat, i: int)
    requires
        0 <= i <= bufs.len(),
        sorted_by_len(bufs),
    ensures
        i <= first_at_least(bufs, size, i) <= bufs.len(),
        forall|k: int| i <= k < first_at_least(bufs, size, i) ==> bufs[k]@.len() < size,
        forall|k: int| first_at_least(bufs, size, i) <= k < bufs.len() ==> bufs[k]@.len() >= size,
    decreases bufs.len() - i,
{
    if i < bufs.len() && bufs[i]@.len() < size {
        lemma_first_at_least(bufs, size, i + 1);
    }
}

proof fn lemma_remove_keeps_sorted(bufs: Seq<Vec<u8>>, p: int)
    requires
        0 <= p < bufs.len(),
        sorted_by_len(bufs),
    ensures
        sorted_by_len(bufs.remove(p)),
{
    let r = bufs.remove(p);
    assert forall|i: int, j: int| 0 <= i <= j < r.len() implies r[i]@.len() <= r[j]@.len() by {
        let oi = if i < p { i } else { i + 1 };
        let oj = if j < p { j } else { j + 1 };
        assert(r[i] == bufs[oi]);
        assert(r[j] == bufs[oj]);
    }
}

/// Bytes leave the buffer in the order they came: after a write appended the
/// first `n` bytes of `data` to the readable bytes `before`, reading
/// `before.len()` bytes gives `before` back and leaves exactly the written
/// bytes readable.
pub proof fn lemma_write_then_read(before: Seq<u8>, data: Seq<u8>, n: nat)
    requires
        n <= data.len(),
    ensures
        (before + data.take(n as int)).take(before.len() as int) == before,
        (before + data.take(n as int)).skip(before.len() as int) == data.take(n as int),
{
    assert((before + data.take(n as int)).take(before.len() as int) =~= before);
    assert((before + data.take(n as int)).skip(before.len() as int) =~= data.take(n as int));
}

/// What a call does to the readable bytes of a buffer: bytes committed at the
/// end (`advance_write` after filling `write_buf`, or `write`), or bytes
/// consumed from the front (`advance_read`, or `read`, which consumes what it
/// copies out). `grow`, `compact`, `write_buf` and `read_buf` leave them as
/// they are and stand for no event.
pub enum BufEvent {
    Committed(Seq<u8>),
    Consumed(nat),
}

/// The readable bytes after a run of events.
pub open spec fn after_events(readable: Seq<u8>, events: Seq<BufEvent>) -> Seq<u8>
    decreases events.len(),
{
    if events.len() == 0 {
        readable
    } else {
        let r = after_events(readable, events.drop_last());
        match events.last() {
            BufEvent::Committed(d) => r + d,
            BufEvent::Consumed(n) => r.skip(n as int),
        }
    }
}

/// Whether each consumption in a run of events takes no more than is readable
/// at that point, as the buffer's calls require.
pub open spec fn events_possible(readable: Seq<u8>, events: Seq<BufEvent>) -> bool
    decreases events.len(),
{
    if events.len() == 0 {
        true
    } else {
        &&& events_possible(readable, events.drop_last())
        &&& match events.last() {
            BufEvent::Committed(_) => true,
            BufEvent::Consumed(n) => n <= after_events(readable, events.drop_last()).len(),
        }
    }
}

/// The bytes committed in a run of events, in the order of the commits.
pub open spec fn committed_bytes(events: Seq<BufEvent>) -> Seq<u8>
    decreases events.len(),
{
    if events.len() == 0 {
        Seq::empty()
    } else {
        match events.last() {
            BufEvent::Committed(d) => committed_bytes(events.drop_last()) + d,
            BufEvent::Consumed(_) => committed_bytes(events.drop_last()),
        }
    }
}

/// How many bytes a run of events consumed.
pub open spec fn consumed_count(events: Seq<BufEvent>) -> nat
    decreases events.len(),
{
    if events.len() == 0 {
        0
    } else {
        match events.last() {
            BufEvent::Committed(_) => consumed_count(events.drop_last()),
            BufEvent::Consumed(n) => consumed_count(events.drop_last()) + n,
        }
    }
}

/// Over any run of calls, the readable bytes are the bytes that were readable
/// at the start followed by every committed byte in the order of the commits,
/// less as many bytes from the front as were consumed.
pub proof fn lemma_readable_after_events(readable: Seq<u8>, events: Seq<BufEvent>)
    requires
        events_possible(readable, events),
    ensures
        consumed_count(events) <= readable.len() + committed_bytes(events).len(),
        after_events(readable, events) == (readable + committed_bytes(events)).skip(consumed_count(events) as int),
    decreases events.len(),
{
    if events.len() > 0 {
        let prev = events.drop_last();
        lemma_readable_after_events(readable, prev);
        let x = readable + committed_bytes(prev);
        let c = consumed_count(prev);
        match events.last() {
            BufEvent::Committed(d) => {
                assert((x + d).skip(c as int) =~= x.skip(c as int) + d);
                assert(readable + committed_bytes(events) =~= x + d);
            },
            BufEvent::Consumed(n) => {
                assert(x.skip(c as int).skip(n as int) =~= x.skip((c + n) as int));
            },
        }
    }
}
} // verus!
