use cjk_proxy::buf::{BufferCache, RWBuffer, MAX_BUFFER_LEN};

#[test]
fn bytes_come_out_in_order() {
    let mut b = RWBuffer::new(8, 64);
    assert_eq!(b.write(b"abcdef"), 6);
    let mut out = [0u8; 4];
    assert_eq!(b.read(&mut out), 4);
    assert_eq!(&out, b"abcd");
    // Only two bytes fit after the write cursor: the buffer compacts first.
    assert_eq!(b.write(b"ghijkl"), 6);
    assert_eq!(b.read_buf(), b"efghijkl");
    let mut rest = [0u8; 10];
    assert_eq!(b.read(&mut rest), 8);
    assert_eq!(&rest[..8], b"efghijkl");
    assert_eq!(b.remaining_read(), 0);
    // Nothing more fits than the storage holds.
    assert_eq!(b.write(&[1u8; 20]), 8);
}

#[test]
fn buffer_grows_to_its_limit() {
    let mut b = RWBuffer::new(10, 12);
    b.advance_write(10);
    assert_eq!(b.remaining_write(), 0);
    assert!(b.should_compact());
    let free = b.write_buf().len();
    assert_eq!(free, 2);
    b.grow();
    assert_eq!(b.remaining_write(), 2);
    b.advance_read(4);
    b.compact();
    assert_eq!(b.remaining_read(), 6);
    assert_eq!(b.remaining_write(), 6);
}

#[test]
fn spare_buffers_are_reused() {
    let mut c = BufferCache::new();
    let a = c.new_buf(16);
    assert_eq!(a.len(), 16);
    assert_eq!(c.len(), 0);
    c.recycle_buf(vec![0u8; 32]);
    c.recycle_buf(vec![0u8; 16]);
    assert_eq!(c.len(), 2);
    // A spare buffer of exactly the size asked for is handed out.
    assert_eq!(c.new_buf(16).len(), 16);
    assert_eq!(c.len(), 1);
    for _ in 0..MAX_BUFFER_LEN {
        c.recycle_buf(vec![0u8; 1]);
    }
    assert_eq!(c.len(), MAX_BUFFER_LEN);
}

#[test]
fn readable_bytes_are_commits_less_consumed() {
    let mut b = RWBuffer::new(4, 64);
    let mut committed: Vec<u8> = Vec::new();
    let mut consumed = 0usize;
    let chunks: [&[u8]; 4] = [b"abc", b"defgh", b"", b"ijklmnop"];
    for (i, chunk) in chunks.iter().enumerate() {
        let n = b.write(chunk);
        committed.extend_from_slice(&chunk[..n]);
        if i % 2 == 1 {
            b.grow();
            b.compact();
        }
        let mut out = [0u8; 3];
        consumed += b.read(&mut out);
        assert_eq!(b.read_buf(), &committed[consumed..]);
    }
    assert!(b.remaining_read() > 0);
    b.advance_read(1);
    consumed += 1;
    assert_eq!(b.read_buf(), &committed[consumed..]);
}
