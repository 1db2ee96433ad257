//! The first form of the DNS message reader: names keep their zero byte,
//! readers give how many bytes they took, and a section ends quietly at the
//! first record that does not read.
use vstd::prelude::*;

use crate::bytes::{be16, be16_value, be32, be32_value, get_u16, get_u32, put_slice, put_u16, put_u32, sub_vec};
use crate::dns::labeled::{
    buf_labels, buffered_labels, check_domain_spec, check_string, find_zero, join_label_chars,
    join_labels, label_views, labeled_eq, labeled_wire, labels, labels_equal, labels_wire,
    lemma_checked_labels, lemma_labels_wire, str_labels, string_labels, bytes_eq, write_text_name,
    LabeledView,
};
use crate::dns::question::{question_wire, QuestionView};
use crate::dns::DnsError;
use crate::ip::{IpAddr, SocketAddr};
use crate::text::{index_of, lemma_index_of, lemma_index_of_at};

pub use crate::dns::message::{
    headers_wire, request_bits, response_bits, Header, CLASS_IN, OPCODE_REQUEST,
    RESPONSE_CODE_INVALID_FORMAT, RESPONSE_CODE_SERVER_FAILURE, RESPONSE_CODE_SUCCESS, TYPE_A,
    TYPE_AAAA,
};

verus! {

/// A domain name: wire bytes (with their zero byte) or dotted text.
#[derive(Debug)]
pub enum Labeled {
    Buffered(Vec<u8>),
    Stringed(String),
}

impl View for Labeled {
    type V = LabeledView;

    open spec fn view(&self) -> LabeledView {
        match self {
            Labeled::Buffered(b) => LabeledView::Buffered(b@),
            Labeled::Stringed(s) => LabeledView::Stringed(s@),
        }
    }
}

/// What reading a name from the start of `b` gives: the bytes up to and with
/// the first zero byte, and their count.
pub open spec fn raw_labeled_spec(b: Seq<u8>) -> Option<(nat, Seq<u8>)> {
    match index_of(b, 0u8) {
        Some(end) => Some(((end + 1) as nat, b.take(end + 1))),
        None => None,
    }
}

impl Labeled {
    /// The labels of the name.
    pub fn iter(&self) -> (r: Vec<Vec<char>>)
        ensures
            label_views(r@) == labels(self@),
    {
        let r = match self {
            Labeled::Buffered(b) => buffered_labels(b.as_slice()),
            Labeled::Stringed(s) => string_labels(s.as_str()),
        };
        proof { assert(label_views(r@) =~= labels(self@)); }
        r
    }

    /// Reads a name from the start of `b`: the bytes up to and with the first
    /// zero byte, and their count.
    pub fn parse(b: &[u8]) -> (r: Option<(usize, Labeled)>)
        ensures
            match raw_labeled_spec(b@) {
                Some((n, name)) => r matches Some((x, l)) && x == n && n <= b@.len()
                    && l@ == LabeledView::Buffered(name),
                None => r is None,
            },
    {
        let len = b.len();
        match find_zero(b) {
            Some(end) => {
                proof { lemma_index_of(b@, 0u8); }
                let name = sub_vec(b, 0, end + 1);
                proof { assert(name@ =~= b@.take(end + 1)); }
                Some((end + 1, Labeled::Buffered(name)))
            },
            None => None,
        }
    }

    /// A name from dotted text, checked first.
    pub fn try_from(value: &str) -> (r: Result<Labeled, DnsError>)
        ensures
            match check_domain_spec(value@) {
                Ok(_) => r matches Ok(l) && l@ == LabeledView::Stringed(value@),
                Err(e) => r matches Err(x) && x == e,
            },
    {
        match check_string(value) {
            Ok(()) => Ok(Labeled::Stringed(value.to_owned())),
            Err(e) => Err(e),
        }
    }

    /// A name from dotted text, checked first (`FromStr`).
    pub fn from_str(s: &str) -> (r: Result<Labeled, DnsError>)
        ensures
            match check_domain_spec(s@) {
                Ok(_) => r matches Ok(l) && l@ == LabeledView::Stringed(s@),
                Err(e) => r matches Err(x) && x == e,
            },
    {
        Self::try_from(s)
    }

    /// Appends the wire bytes of the name.
    pub fn to_writer(&self, w: &mut Vec<u8>)
        ensures
            final(w)@ == old(w)@ + labeled_wire(self@),
    {
        match self {
            Labeled::Buffered(b) => put_slice(w, b.as_slice()),
            Labeled::Stringed(s) => write_text_name(w, s.as_str()),
        }
    }

    /// The dotted text of the name, as `Display` writes it.
    pub fn to_text(&self) -> (r: String)
        ensures
            r@ == join_labels(labels(self@)),
    {
        let ls = self.iter();
        join_label_chars(&ls)
    }

    /// Whether two names are equal: the same wire bytes, the same text, or
    /// otherwise the same labels.
    pub fn same_as(&self, other: &Labeled) -> (r: bool)
        ensures
            r == labeled_eq(self@, other@),
    {
        match (self, other) {
            (Labeled::Buffered(x), Labeled::Buffered(y)) => bytes_eq(x.as_slice(), y.as_slice()),
            (Labeled::Stringed(x), Labeled::Stringed(y)) => x.eq(y),
            _ => {
                let a = self.iter();
                let b = other.iter();
                labels_equal(&a, &b)
            },
        }
    }
}

impl Default for Labeled {
    /// The empty name, as wire bytes.
    fn default() -> (r: Labeled)
        ensures
            r@ == LabeledView::Buffered(Seq::empty()),
    {
        Labeled::Buffered(Vec::new())
    }
}

impl PartialEq for Labeled {
    fn eq(&self, other: &Self) -> (r: bool) {
        self.same_as(other)
    }
}

impl vstd::std_specs::cmp::PartialEqSpecImpl for Labeled {
    open spec fn obeys_eq_spec() -> bool {
        true
    }

    open spec fn eq_spec(&self, other: &Self) -> bool {
        labeled_eq(self@, other@)
    }
}

/// A checked name is written as wire bytes that read back, zero byte and all,
/// as an equal name, followed by the bytes that came after it.
pub proof fn lemma_raw_name_roundtrip(s: Seq<char>, rest: Seq<u8>)
    requires
        check_domain_spec(s) is Ok,
        forall|i: int| 0 <= i < s.len() ==> s[i] != '\0',
    ensures
        ({
            let bytes = labeled_wire(LabeledView::Stringed(s)) + rest;
            match raw_labeled_spec(bytes) {
                Some((n, name)) => n <= bytes.len() && bytes.skip(n as int) == rest
                    && labeled_eq(LabeledView::Buffered(name), LabeledView::Stringed(s)),
                None => false,
            }
        }),
{
    lemma_checked_labels(s);
    let ls = str_labels(s);
    lemma_labels_wire(ls, seq![0u8]);
    let w = labels_wire(ls);
    let bytes = w + seq![0u8] + rest;
    assert(labeled_wire(LabeledView::Stringed(s)) + rest == bytes);
    assert forall|j: int| 0 <= j < w.len() implies bytes[j] != 0u8 by {
        assert(bytes[j] == w[j]);
    }
    assert(bytes[w.len() as int] == 0u8);
    lemma_index_of_at(bytes, 0u8, w.len() as int);
    assert(bytes.take(w.len() as int + 1) =~= w + seq![0u8]);
    assert(bytes.skip(w.len() as int + 1) =~= rest);
    assert(buf_labels(seq![0u8]) == Seq::<Seq<char>>::empty());
    assert(ls + Seq::<Seq<char>>::empty() =~= ls);
}

/// One question of a message.
#[derive(Debug)]
pub struct Question {
    pub domain_name: Labeled,
    pub t: u16,
    pub class: u16,
}

impl View for Question {
    type V = QuestionView;

    open spec fn view(&self) -> QuestionView {
        QuestionView { domain_name: self.domain_name@, t: self.t, class: self.class }
    }
}

/// What reading a question from the start of `b` gives: its byte count and
/// the question, or nothing when the bytes run out.
pub open spec fn raw_question_spec(b: Seq<u8>) -> Option<(nat, QuestionView)> {
    match raw_labeled_spec(b) {
        None => None,
        Some((n, name)) => if b.len() >= n + 4 {
            Some(((n + 4) as nat, QuestionView {
                domain_name: LabeledView::Buffered(name),
                t: be16_value(b[n as int], b[n as int + 1]),
                class: be16_value(b[n as int + 2], b[n as int + 3]),
            }))
        } else {
            None
        },
    }
}

impl Question {
    /// Appends the wire bytes of the question.
    pub fn to_writer(&self, w: &mut Vec<u8>)
        ensures
            final(w)@ == old(w)@ + question_wire(self@),
    {
        self.domain_name.to_writer(w);
        put_u16(w, self.t);
        put_u16(w, self.class);
        proof { assert(final(w)@ =~= old(w)@ + question_wire(self@)); }
    }

    /// Reads a question from the start of `b`, with its byte count.
    pub fn parse(b: &[u8]) -> (r: Option<(usize, Question)>)
        ensures
            match raw_question_spec(b@) {
                Some((n, q)) => r matches Some((x, v)) && x == n && n <= b@.len() && v@ == q,
                None => r is None,
            },
    {
        match Labeled::parse(b) {
            None => None,
            Some((off, domain_name)) => {
                if b.len() - off >= 4 {
                    let t = get_u16(b, off);
                    let class = get_u16(b, off + 2);
                    Some((off + 4, Question { domain_name, t, class }))
                } else {
                    None
                }
            },
        }
    }
}

/// One answer of a message, with its record kept as raw data.
#[derive(Debug)]
pub struct Answer {
    pub name: Labeled,
    pub t: u16,
    pub class: u16,
    pub ttl: u64,
    pub rdata: Vec<u8>,
}

/// An [`Answer`] as plain values.
pub struct RawAnswerView {
    pub name: LabeledView,
    pub t: u16,
    pub class: u16,
    pub ttl: u64,
    pub rdata: Seq<u8>,
}

impl View for Answer {
    type V = RawAnswerView;

    open spec fn view(&self) -> RawAnswerView {
        RawAnswerView { name: self.name@, t: self.t, class: self.class, ttl: self.ttl, rdata: self.rdata@ }
    }
}

/// The bytes an answer is written as.
pub open spec fn raw_answer_wire(a: RawAnswerView) -> Seq<u8> {
    labeled_wire(a.name) + be16(a.t) + be16(a.class) + be32(a.ttl as u32) + be16(a.rdata.len() as u16)
        + a.rdata
}

/// What reading an answer from the start of `b` gives. The count it gives is
/// the question part, two bytes, and the record data.
pub open spec fn raw_answer_spec(b: Seq<u8>) -> Option<(nat, RawAnswerView)> {
    match raw_question_spec(b) {
        None => None,
        Some((n, q)) => {
            let r = b.skip(n as int);
            if r.len() < 6 {
                None
            } else {
                let len = be16_value(r[4], r[5]) as int;
                if r.len() - 6 < len {
                    None
                } else {
                    Some(((n + 2 + len) as nat, RawAnswerView {
                        name: q.domain_name,
                        t: q.t,
                        class: q.class,
                        ttl: be32_value(r[0], r[1], r[2], r[3]) as u64,
                        rdata: r.subrange(6, 6 + len),
                    }))
                }
            }
        },
    }
}

impl Answer {
    /// Appends the wire bytes of the answer; fails, writing nothing, when the
    /// data is longer than 65535 bytes or the time to live does not fit in 32
    /// bits.
    pub fn to_writer(&self, w: &mut Vec<u8>) -> (r: Result<(), DnsError>)
        ensures
            self.rdata@.len() > 0xffff ==> r == Err::<(), DnsError>(DnsError::RecordTooBig) && final(w)@ == old(w)@,
            self.rdata@.len() <= 0xffff && self.ttl > u32::MAX ==> r == Err::<(), DnsError>(DnsError::ExcessiveTtl)
                && final(w)@ == old(w)@,
            self.rdata@.len() <= 0xffff && self.ttl <= u32::MAX ==> r is Ok && final(w)@ == old(w)@
                + raw_answer_wire(self@),
    {
        if self.rdata.len() > 0xffff {
            return Err(DnsError::RecordTooBig);
        }
        let rdata_len = self.rdata.len() as u16;
        if self.ttl > 0xffff_ffffu64 {
            return Err(DnsError::ExcessiveTtl);
        }
        let ttl = self.ttl as u32;
        self.name.to_writer(w);
        put_u16(w, self.t);
        put_u16(w, self.class);
        put_u32(w, ttl);
        put_u16(w, rdata_len);
        put_slice(w, self.rdata.as_slice());
        proof { assert(final(w)@ =~= old(w)@ + raw_answer_wire(self@)); }
        Ok(())
    }

    /// Reads an answer from the start of `b`, with the count of bytes it
    /// gives for it.
    pub fn parse(b: &[u8]) -> (r: Option<(usize, Answer)>)
        ensures
            match raw_answer_spec(b@) {
                Some((n, a)) => r matches Some((x, v)) && x == n && v@ == a,
                None => r is None,
            },
    {
        let (offset, q) = match Question::parse(b) {
            Some(x) => x,
            None => return None,
        };
        let len = b.len();
        let rest = &b[offset..len];
        proof { assert(rest@ =~= b@.skip(offset as int)); }
        let n = rest.len();
        if n < 6 {
            return None;
        }
        let ttl = get_u32(rest, 0);
        let rdata_len = get_u16(rest, 4) as usize;
        if n - 6 < rdata_len {
            return None;
        }
        let rdata = sub_vec(rest, 6, 6 + rdata_len);
        Some((offset + 2 + rdata_len, Answer {
            name: q.domain_name,
            t: q.t,
            ttl: ttl as u64,
            class: q.class,
            rdata,
        }))
    }
}

/// A message of this form: id, header and four sections.
#[derive(Debug)]
pub struct Message {
    pub id: u16,
    pub header: Header,
    pub questions: Vec<Question>,
    pub answers: Vec<Answer>,
    pub nsr: Vec<Answer>,
    pub ar: Vec<Answer>,
}

/// A [`Message`] as plain values.
pub struct RawMessageView {
    pub id: u16,
    pub header: u16,
    pub questions: Seq<QuestionView>,
    pub answers: Seq<RawAnswerView>,
    pub nsr: Seq<RawAnswerView>,
    pub ar: Seq<RawAnswerView>,
}

impl View for Message {
    type V = RawMessageView;

    open spec fn view(&self) -> RawMessageView {
        RawMessageView {
            id: self.id,
            header: self.header.bits(),
            questions: self.questions@.map_values(|q: Question| q@),
            answers: self.answers@.map_values(|a: Answer| a@),
            nsr: self.nsr@.map_values(|a: Answer| a@),
            ar: self.ar@.map_values(|a: Answer| a@),
        }
    }
}

/// Up to `count` questions read one after another, stopping at the first
/// that does not read; with the bytes they took.
pub open spec fn raw_questions_spec(b: Seq<u8>, count: nat) -> (nat, Seq<QuestionView>)
    decreases count,
{
    if count == 0 {
        (0, Seq::empty())
    } else {
        match raw_question_spec(b) {
            None => (0, Seq::empty()),
            Some((n, q)) => {
                let (m, qs) = raw_questions_spec(b.skip(n as int), (count - 1) as nat);
                ((n + m) as nat, seq![q] + qs)
            },
        }
    }
}

/// Up to `count` answers read one after another, stopping at the first that
/// does not read; with the bytes the reader gave for them.
pub open spec fn raw_answers_spec(b: Seq<u8>, count: nat) -> (nat, Seq<RawAnswerView>)
    decreases count,
{
    if count == 0 {
        (0, Seq::empty())
    } else {
        match raw_answer_spec(b) {
            None => (0, Seq::empty()),
            Some((n, a)) => {
                let (m, xs) = raw_answers_spec(b.skip(n as int), (count - 1) as nat);
                ((n + m) as nat, seq![a] + xs)
            },
        }
    }
}

/// What reading a message from `b` gives: nothing under twelve bytes,
/// otherwise the header and as many records of each section as read.
pub open spec fn raw_message_spec(b: Seq<u8>) -> Option<RawMessageView> {
    if b.len() < 12 {
        None
    } else {
        let b1 = b.skip(12);
        let (n1, qs) = raw_questions_spec(b1, be16_value(b[4], b[5]) as nat);
        let b2 = b1.skip(n1 as int);
        let (n2, ans) = raw_answers_spec(b2, be16_value(b[6], b[7]) as nat);
        let b3 = b2.skip(n2 as int);
        let (n3, nsr) = raw_answers_spec(b3, be16_value(b[8], b[9]) as nat);
        let b4 = b3.skip(n3 as int);
        let (_, ar) = raw_answers_spec(b4, be16_value(b[10], b[11]) as nat);
        Some(RawMessageView {
            id: be16_value(b[0], b[1]),
            header: be16_value(b[2], b[3]),
            questions: qs,
            answers: ans,
            nsr,
            ar,
        })
    }
}

/// Reads up to `count` questions; stops at the first that does not read.
pub fn parse_questions(b: &[u8], count: usize) -> (r: (usize, Vec<Question>))
    ensures
        r.0 == raw_questions_spec(b@, count as nat).0,
        r.0 <= b@.len(),
        r.1@.map_values(|q: Question| q@) == raw_questions_spec(b@, count as nat).1,
{
    let mut pos: usize = 0;
    let mut v: Vec<Question> = Vec::new();
    let mut i: usize = 0;
    let len = b.len();
    proof { assert(b@.skip(0) =~= b@); }
    while i < count
        invariant_except_break
            i <= count,
            pos <= len,
            len == b@.len(),
            raw_questions_spec(b@, count as nat).0 == pos + raw_questions_spec(b@.skip(pos as int), (count - i) as nat).0,
            raw_questions_spec(b@, count as nat).1 == v@.map_values(|q: Question| q@)
                + raw_questions_spec(b@.skip(pos as int), (count - i) as nat).1,
        ensures
            pos <= len,
            raw_questions_spec(b@, count as nat).0 == pos,
            raw_questions_spec(b@, count as nat).1 == v@.map_values(|q: Question| q@),
        decreases count - i,
    {
        let cur = &b[pos..len];
        proof { assert(cur@ =~= b@.skip(pos as int)); }
        match Question::parse(cur) {
            None => {
                proof { assert(v@.map_values(|q: Question| q@) + Seq::empty() =~= v@.map_values(|q: Question| q@)); }
                break;
            },
            Some((n, q)) => {
                proof {
                    let qv = q@;
                    assert(cur@.skip(n as int) =~= b@.skip(pos + n));
                    assert(v@.push(q).map_values(|x: Question| x@) =~= v@.map_values(|x: Question| x@).push(qv));
                    let rest = raw_questions_spec(b@.skip(pos + n), (count - i - 1) as nat).1;
                    assert(v@.map_values(|x: Question| x@).push(qv) + rest =~= v@.map_values(|x: Question| x@) + (seq![qv] + rest));
                }
                v.push(q);
                pos = pos + n;
            },
        }
        i = i + 1;
        proof {
            if i == count {
                assert(v@.map_values(|q: Question| q@) + Seq::empty() =~= v@.map_values(|q: Question| q@));
            }
        }
    }
    (pos, v)
}

/// Reads up to `count` answers; stops at the first that does not read.
pub fn parse_answers(b: &[u8], count: usize) -> (r: (usize, Vec<Answer>))
    ensures
        r.0 == raw_answers_spec(b@, count as nat).0,
        r.0 <= b@.len(),
        r.1@.map_values(|a: Answer| a@) == raw_answers_spec(b@, count as nat).1,
{
    let mut pos: usize = 0;
    let mut v: Vec<Answer> = Vec::new();
    let mut i: usize = 0;
    let len = b.len();
    proof { assert(b@.skip(0) =~= b@); }
    while i < count
        invariant_except_break
            i <= count,
            pos <= len,
            len == b@.len(),
            raw_answers_spec(b@, count as nat).0 == pos + raw_answers_spec(b@.skip(pos as int), (count - i) as nat).0,
            raw_answers_spec(b@, count as nat).1 == v@.map_values(|a: Answer| a@)
                + raw_answers_spec(b@.skip(pos as int), (count - i) as nat).1,
        ensures
            pos <= len,
            raw_answers_spec(b@, count as nat).0 == pos,
            raw_answers_spec(b@, count as nat).1 == v@.map_values(|a: Answer| a@),
        decreases count - i,
    {
        let cur = &b[pos..len];
        proof { assert(cur@ =~= b@.skip(pos as int)); }
        match Answer::parse(cur) {
            None => {
                proof { assert(v@.map_values(|a: Answer| a@) + Seq::empty() =~= v@.map_values(|a: Answer| a@)); }
                break;
            },
            Some((n, a)) => {
                proof {
                    lemma_raw_answer_len(cur@);
                    let av = a@;
                    assert(cur@.skip(n as int) =~= b@.skip(pos + n));
                    assert(v@.push(a).map_values(|x: Answer| x@) =~= v@.map_values(|x: Answer| x@).push(av));
                    let rest = raw_answers_spec(b@.skip(pos + n), (count - i - 1) as nat).1;
                    assert(v@.map_values(|x: Answer| x@).push(av) + rest =~= v@.map_values(|x: Answer| x@) + (seq![av] + rest));
                }
                v.push(a);
                pos = pos + n;
            },
        }
        i = i + 1;
        proof {
            if i == count {
                assert(v@.map_values(|a: Answer| a@) + Seq::empty() =~= v@.map_values(|a: Answer| a@));
            }
        }
    }
    (pos, v)
}

/// The count an answer reader gives stays within the bytes.
proof fn lemma_raw_answer_len(b: Seq<u8>)
    ensures
        raw_answer_spec(b) matches Some((n, _)) ==> n <= b.len(),
{
    lemma_index_of(b, 0u8);
}

impl Message {
    /// Reads a message from `b`: nothing under twelve bytes, otherwise the
    /// header and as many records of each section as read.
    pub fn parse(b: &[u8]) -> (r: Option<Message>)
        ensures
            match raw_message_spec(b@) {
                Some(m) => r matches Some(x) && x@ == m,
                None => r is None,
            },
    {
        let len = b.len();
        if len < 12 {
            return None;
        }
        let id = get_u16(b, 0);
        let header = Header::from_bits(get_u16(b, 2));
        let qdcount = get_u16(b, 4) as usize;
        let ancount = get_u16(b, 6) as usize;
        let nscount = get_u16(b, 8) as usize;
        let arcount = get_u16(b, 10) as usize;
        let b1 = &b[12..len];
        proof { assert(b1@ =~= b@.skip(12)); }
        let (n1, questions) = parse_questions(b1, qdcount);
        let b2 = &b1[n1..b1.len()];
        proof { assert(b2@ =~= b1@.skip(n1 as int)); }
        let (n2, answers) = parse_answers(b2, ancount);
        let b3 = &b2[n2..b2.len()];
        proof { assert(b3@ =~= b2@.skip(n2 as int)); }
        let (n3, nsr) = parse_answers(b3, nscount);
        let b4 = &b3[n3..b3.len()];
        proof { assert(b4@ =~= b3@.skip(n3 as int)); }
        let (_, ar) = parse_answers(b4, arcount);
        let m = Message { id, header, questions, answers, nsr, ar };
        proof {
            let mv = raw_message_spec(b@)->Some_0;
            assert(m@.questions =~= mv.questions);
            assert(m@.answers =~= mv.answers);
            assert(m@.nsr =~= mv.nsr);
            assert(m@.ar =~= mv.ar);
        }
        Some(m)
    }

    /// Appends the twelve header bytes.
    fn write_headers(w: &mut Vec<u8>, id: u16, header: u16, qcount: u16, ancount: u16, nscount: u16, arcount: u16)
        ensures
            final(w)@ == old(w)@ + headers_wire(id, header, qcount, ancount, nscount, arcount),
    {
        put_u16(w, id);
        put_u16(w, header);
        put_u16(w, qcount);
        put_u16(w, ancount);
        put_u16(w, nscount);
        put_u16(w, arcount);
        proof {
            assert(final(w)@ =~= old(w)@ + headers_wire(id, header, qcount, ancount, nscount, arcount));
        }
    }

    /// Appends a request for the IPv4 address of `domain`; fails, writing
    /// nothing, when the name is not valid.
    pub fn new_resolve_request(w: &mut Vec<u8>, id: u16, domain: &str) -> (r: Result<(), DnsError>)
        ensures
            match check_domain_spec(domain@) {
                Ok(_) => r is Ok && final(w)@ == old(w)@ + headers_wire(id, request_bits(OPCODE_REQUEST), 1, 0, 0, 0)
                    + question_wire(QuestionView { domain_name: LabeledView::Stringed(domain@), t: TYPE_A, class: CLASS_IN }),
                Err(e) => r == Err::<(), DnsError>(e) && final(w)@ == old(w)@,
            },
    {
        let domain_name = match Labeled::try_from(domain) {
            Ok(l) => l,
            Err(e) => return Err(e),
        };
        let q = Question { domain_name, t: TYPE_A, class: CLASS_IN };
        Self::write_headers(w, id, Header::new_request(OPCODE_REQUEST).value(), 1, 0, 0, 0);
        q.to_writer(w);
        proof {
            assert(final(w)@ =~= old(w)@ + headers_wire(id, request_bits(OPCODE_REQUEST), 1, 0, 0, 0)
                + question_wire(QuestionView { domain_name: LabeledView::Stringed(domain@), t: TYPE_A, class: CLASS_IN }));
        }
        Ok(())
    }

    /// Appends a successful answer for the address of `addr`: the header,
    /// then one answer with an empty name. Fails after the header when the
    /// time to live does not fit in 32 bits.
    pub fn new_resolve_answer(w: &mut Vec<u8>, id: u16, ttl: u64, addr: &SocketAddr) -> (r: Result<(), DnsError>)
        ensures
            ({
                let head = old(w)@ + headers_wire(id, response_bits(RESPONSE_CODE_SUCCESS), 0, 1, 0, 0);
                let a = RawAnswerView {
                    name: LabeledView::Buffered(Seq::empty()),
                    t: match addr.ip { IpAddr::V4(_) => TYPE_A, IpAddr::V6(_) => TYPE_AAAA },
                    class: CLASS_IN,
                    ttl,
                    rdata: addr.ip.octets(),
                };
                if ttl > u32::MAX {
                    r == Err::<(), DnsError>(DnsError::ExcessiveTtl) && final(w)@ == head
                } else {
                    r is Ok && final(w)@ == head + raw_answer_wire(a)
                }
            }),
    {
        Self::write_headers(w, id, Header::new_response(RESPONSE_CODE_SUCCESS).value(), 0, 1, 0, 0);
        let (rdata, t) = match &addr.ip {
            IpAddr::V4(a) => {
                let mut d: Vec<u8> = Vec::new();
                put_slice(&mut d, a.as_slice());
                (d, TYPE_A)
            },
            IpAddr::V6(a) => {
                let mut d: Vec<u8> = Vec::new();
                put_slice(&mut d, a.as_slice());
                (d, TYPE_AAAA)
            },
        };
        proof { assert(rdata@ =~= addr.ip.octets()); }
        let answer = Answer { name: Labeled::default(), t, ttl, class: CLASS_IN, rdata };
        let ghost head = w@;
        let r = answer.to_writer(w);
        proof {
            if ttl <= u32::MAX {
                assert(final(w)@ =~= head + raw_answer_wire(answer@));
            }
        }
        r
    }
}

} // verus!
