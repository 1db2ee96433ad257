use vstd::prelude::*;

use crate::bytes::{be16, be16_value, be32, be32_value, get_u16, get_u32, put_slice, put_u16, put_u32, sub_vec};
use crate::dns::labeled::{labeled_wire, parse_labeled_spec, Labeled, LabeledView};
use crate::dns::message::{CLASS_IN, TYPE_A, TYPE_AAAA};
use crate::dns::DnsError;

verus! {

/// The data of an answer: an IPv4 address, an IPv6 address, or any other
/// record as type, class and raw bytes.
#[derive(Debug)]
pub enum AnswerRecord {
    A([u8; 4]),
    AAAA([u8; 16]),
    Other(u16, u16, Vec<u8>),
}

/// An [`AnswerRecord`] as plain values.
pub enum AnswerRecordView {
    A(Seq<u8>),
    AAAA(Seq<u8>),
    Other(u16, u16, Seq<u8>),
}

impl View for AnswerRecord {
    type V = AnswerRecordView;

    open spec fn view(&self) -> AnswerRecordView {
        match self {
            AnswerRecord::A(a) => AnswerRecordView::A(a@),
            AnswerRecord::AAAA(a) => AnswerRecordView::AAAA(a@),
            AnswerRecord::Other(t, c, d) => AnswerRecordView::Other(*t, *c, d@),
        }
    }
}

/// The record type of a record.
pub open spec fn record_type_spec(r: AnswerRecordView) -> u16 {
    match r {
        AnswerRecordView::A(_) => TYPE_A,
        AnswerRecordView::AAAA(_) => TYPE_AAAA,
        AnswerRecordView::Other(t, _, _) => t,
    }
}

/// The class of a record.
pub open spec fn record_class_spec(r: AnswerRecordView) -> u16 {
    match r {
        AnswerRecordView::A(_) | AnswerRecordView::AAAA(_) => CLASS_IN,
        AnswerRecordView::Other(_, c, _) => c,
    }
}

/// The record that type, class and data stand for: an address where an
/// Internet-class A or AAAA record has data of the right length, the raw
/// record otherwise.
pub open spec fn answer_record_spec(t: u16, c: u16, data: Seq<u8>) -> AnswerRecordView {
    if t == TYPE_A && c == CLASS_IN && data.len() == 4 {
        AnswerRecordView::A(data)
    } else if t == TYPE_AAAA && c == CLASS_IN && data.len() == 16 {
        AnswerRecordView::AAAA(data)
    } else {
        AnswerRecordView::Other(t, c, data)
    }
}

/// The bytes of a record's data: its length, big-endian, then the data; none
/// when the data is longer than 65535 bytes.
pub open spec fn record_wire(r: AnswerRecordView) -> Option<Seq<u8>> {
    match r {
        AnswerRecordView::A(a) => Some(be16(4) + a),
        AnswerRecordView::AAAA(a) => Some(be16(16) + a),
        AnswerRecordView::Other(_, _, d) => if d.len() <= 0xffff {
            Some(be16(d.len() as u16) + d)
        } else {
            None
        },
    }
}

impl AnswerRecord {
    /// The record type.
    pub fn record_type(&self) -> (r: u16)
        ensures
            r == record_type_spec(self@),
    {
        match self {
            AnswerRecord::A(_) => TYPE_A,
            AnswerRecord::AAAA(_) => TYPE_AAAA,
            AnswerRecord::Other(t, _, _) => *t,
        }
    }

    /// The class.
    pub fn record_class(&self) -> (r: u16)
        ensures
            r == record_class_spec(self@),
    {
        match self {
            AnswerRecord::A(_) | AnswerRecord::AAAA(_) => CLASS_IN,
            AnswerRecord::Other(_, c, _) => *c,
        }
    }

    /// The record for type, class and data.
    pub fn new(t: u16, c: u16, data: Vec<u8>) -> (r: AnswerRecord)
        ensures
            r@ == answer_record_spec(t, c, data@),
    {
        if t == TYPE_A && c == CLASS_IN && data.len() == 4 {
            let a: [u8; 4] = [data[0], data[1], data[2], data[3]];
            proof { assert(a@ =~= data@); }
            AnswerRecord::A(a)
        } else if t == TYPE_AAAA && c == CLASS_IN && data.len() == 16 {
            let a: [u8; 16] = [
                data[0], data[1], data[2], data[3], data[4], data[5], data[6], data[7],
                data[8], data[9], data[10], data[11], data[12], data[13], data[14], data[15],
            ];
            proof { assert(a@ =~= data@); }
            AnswerRecord::AAAA(a)
        } else {
            AnswerRecord::Other(t, c, data)
        }
    }

    /// Appends the record's data, after its length; fails, writing nothing,
    /// when the data is longer than 65535 bytes.
    pub fn to_writer(&self, w: &mut Vec<u8>) -> (r: Result<(), DnsError>)
        ensures
            match record_wire(self@) {
                Some(bytes) => r is Ok && final(w)@ == old(w)@ + bytes,
                None => r == Err::<(), DnsError>(DnsError::RecordTooBig) && final(w)@ == old(w)@,
            },
    {
        match self {
            AnswerRecord::A(a) => {
                put_u16(w, 4);
                put_slice(w, a.as_slice());
            },
            AnswerRecord::AAAA(a) => {
                put_u16(w, 16);
                put_slice(w, a.as_slice());
            },
            AnswerRecord::Other(_, _, d) => {
                if d.len() > 0xffff {
                    return Err(DnsError::RecordTooBig);
                }
                put_u16(w, d.len() as u16);
                put_slice(w, d.as_slice());
            },
        }
        proof { assert(final(w)@ =~= old(w)@ + record_wire(self@).unwrap()); }
        Ok(())
    }
}

/// The name of an answer: a name, or a pointer to one earlier in the message.
#[derive(Debug)]
pub enum AnswerName {
    QName(Labeled),
    Pointer(u16),
}

/// An [`AnswerName`] as plain values.
pub enum AnswerNameView {
    QName(LabeledView),
    Pointer(u16),
}

impl View for AnswerName {
    type V = AnswerNameView;

    open spec fn view(&self) -> AnswerNameView {
        match self {
            AnswerName::QName(l) => AnswerNameView::QName(l@),
            AnswerName::Pointer(p) => AnswerNameView::Pointer(*p),
        }
    }
}

impl Default for AnswerName {
    fn default() -> (r: AnswerName)
        ensures
            r@ == AnswerNameView::QName(LabeledView::Buffered(Seq::empty())),
    {
        AnswerName::QName(Labeled::default())
    }
}

/// Whether the two top bits of a 16-bit number are both set.
pub open spec fn is_pointer_bits(x: u16) -> bool {
    (x >> 14u16) & 3u16 == 3u16
}

/// What reading an answer name from the start of `b` gives: a pointer when the
/// first two bits are set (its low fourteen bits), a name otherwise.
pub open spec fn parse_answer_name_spec(b: Seq<u8>) -> Result<(nat, AnswerNameView), DnsError> {
    if b.len() < 2 {
        Err(DnsError::InsufficientAnswerName)
    } else {
        let x = be16_value(b[0], b[1]);
        if is_pointer_bits(x) {
            Ok((2, AnswerNameView::Pointer(x & 0x3fffu16)))
        } else {
            match parse_labeled_spec(b) {
                Ok((n, name)) => Ok((n, AnswerNameView::QName(LabeledView::Buffered(name)))),
                Err(e) => Err(e),
            }
        }
    }
}

/// The bits set over a pointer when it is written.
pub open spec fn pointer_mark() -> u16 {
    0x11u16 << 14u16
}

/// The bytes an answer name is written as.
pub open spec fn answer_name_wire(n: AnswerNameView) -> Seq<u8> {
    match n {
        AnswerNameView::QName(l) => labeled_wire(l),
        AnswerNameView::Pointer(p) => be16(p | pointer_mark()),
    }
}

impl AnswerName {
    /// Reads an answer name from the start of `b`; gives the bytes after it too.
    pub fn parse(b: &[u8]) -> (r: Result<(&[u8], AnswerName), DnsError>)
        ensures
            match parse_answer_name_spec(b@) {
                Ok((n, a)) => r matches Ok((rest, x)) && n <= b@.len() && rest@ == b@.skip(n as int)
                    && x@ == a,
                Err(e) => r matches Err(x) && x == e,
            },
    {
        let len = b.len();
        if len < 2 {
            return Err(DnsError::InsufficientAnswerName);
        }
        let ptr = get_u16(b, 0);
        if (ptr >> 14u16) & 3u16 == 3u16 {
            let rest = &b[2..len];
            proof { assert(rest@ =~= b@.skip(2)); }
            Ok((rest, AnswerName::Pointer(ptr & 0x3fffu16)))
        } else {
            match Labeled::parse(b) {
                Ok((rest, l)) => Ok((rest, AnswerName::QName(l))),
                Err(e) => Err(e),
            }
        }
    }

    /// Appends the wire bytes of the name.
    pub fn to_writer(&self, w: &mut Vec<u8>)
        ensures
            final(w)@ == old(w)@ + answer_name_wire(self@),
    {
        match self {
            AnswerName::QName(l) => l.to_writer(w),
            AnswerName::Pointer(u) => put_u16(w, *u | (0x11u16 << 14u16)),
        }
    }
}

/// One answer of a DNS message: a name, a time to live in seconds, and a record.
#[derive(Debug)]
pub struct Answer {
    pub name: AnswerName,
    pub ttl: u64,
    pub record: AnswerRecord,
}

/// An [`Answer`] as plain values.
pub struct AnswerView {
    pub name: AnswerNameView,
    pub ttl: u64,
    pub record: AnswerRecordView,
}

impl View for Answer {
    type V = AnswerView;

    open spec fn view(&self) -> AnswerView {
        AnswerView { name: self.name@, ttl: self.ttl, record: self.record@ }
    }
}

/// The bytes before an answer's record data: name, type, class and time to
/// live.
pub open spec fn answer_head_wire(a: AnswerView) -> Seq<u8> {
    answer_name_wire(a.name) + be16(record_type_spec(a.record)) + be16(record_class_spec(a.record))
        + be32(a.ttl as u32)
}

/// What reading an answer from the start of `b` gives. The count of bytes
/// taken stops after the fixed part (type, class, time to live, data length):
/// the record data is read but left in place.
pub open spec fn parse_answer_spec(b: Seq<u8>) -> Result<(nat, AnswerView), DnsError> {
    match parse_answer_name_spec(b) {
        Err(e) => Err(e),
        Ok((n, name)) => {
            let r = b.skip(n as int);
            if r.len() < 10 {
                Err(DnsError::InsufficientAnswer)
            } else {
                let len = be16_value(r[8], r[9]) as int;
                if r.len() - 10 < len {
                    Err(DnsError::InsufficientRecord)
                } else {
                    Ok(((n + 10) as nat, AnswerView {
                        name,
                        ttl: be32_value(r[4], r[5], r[6], r[7]) as u64,
                        record: answer_record_spec(
                            be16_value(r[0], r[1]),
                            be16_value(r[2], r[3]),
                            r.subrange(10, 10 + len),
                        ),
                    }))
                }
            }
        },
    }
}

impl Answer {
    /// Appends the wire bytes of the answer. Fails, writing nothing, when the
    /// time to live does not fit in 32 bits; fails after writing the head when
    /// the record data is longer than 65535 bytes.
    pub fn to_writer(&self, w: &mut Vec<u8>) -> (r: Result<(), DnsError>)
        ensures
            self.ttl > u32::MAX ==> r == Err::<(), DnsError>(DnsError::ExcessiveTtl) && final(w)@ == old(w)@,
            self.ttl <= u32::MAX ==> match record_wire(self.record@) {
                Some(bytes) => r is Ok && final(w)@ == old(w)@ + answer_head_wire(self@) + bytes,
                None => r == Err::<(), DnsError>(DnsError::RecordTooBig) && final(w)@ == old(w)@
                    + answer_head_wire(self@),
            },
    {
        if self.ttl > 0xffff_ffffu64 {
            return Err(DnsError::ExcessiveTtl);
        }
        let ttl = self.ttl as u32;
        self.name.to_writer(w);
        put_u16(w, self.record.record_type());
        put_u16(w, self.record.record_class());
        put_u32(w, ttl);
        let ghost head = w@;
        proof { assert(head =~= old(w)@ + answer_head_wire(self@)); }
        self.record.to_writer(w)
    }

    /// Reads an answer from the start of `b`. The bytes it gives back start
    /// right after the data length: the record data is copied but not passed.
    pub fn parse(b: &[u8]) -> (r: Result<(&[u8], Answer), DnsError>)
        ensures
            match parse_answer_spec(b@) {
                Ok((n, a)) => r matches Ok((rest, x)) && n <= b@.len() && rest@ == b@.skip(n as int)
                    && x@ == a,
                Err(e) => r matches Err(x) && x == e,
            },
    {
        match AnswerName::parse(b) {
            Err(e) => Err(e),
            Ok((rest, name)) => {
                let n = rest.len();
                if n < 10 {
                    return Err(DnsError::InsufficientAnswer);
                }
                let t = get_u16(rest, 0);
                let class = get_u16(rest, 2);
                let ttl = get_u32(rest, 4);
                let rdata_len = get_u16(rest, 8) as usize;
                if n - 10 < rdata_len {
                    return Err(DnsError::InsufficientRecord);
                }
                let rdata = sub_vec(rest, 10, 10 + rdata_len);
                let after = &rest[10..n];
                proof {
                    if let Ok((nn, _)) = parse_answer_name_spec(b@) {
                        assert(after@ =~= b@.skip(nn as int + 10));
                    }
                }
                Ok((after, Answer { name, ttl: ttl as u64, record: AnswerRecord::new(t, class, rdata) }))
            },
        }
    }
}

} // verus!
