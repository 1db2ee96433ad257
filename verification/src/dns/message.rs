use vstd::prelude::*;

use crate::bytes::{be16, be16_value, get_u16, lemma_be16_roundtrip, put_u16};
use crate::dns::answer::{
    answer_head_wire, parse_answer_spec, record_wire, Answer, AnswerName, AnswerNameView,
    AnswerRecord, AnswerRecordView, AnswerView,
};
use crate::dns::labeled::{check_domain_spec, parse_labeled_spec, labeled_eq, labeled_wire, lemma_name_roundtrip, Labeled, LabeledView};
use crate::dns::question::{parse_question_spec, question_wire, Question, QuestionView};
use crate::dns::DnsError;
use crate::ip::IpAddr;

verus! {

/// Record type of an IPv4 address.
pub const TYPE_A: u16 = 1;
/// Record type of an IPv6 address.
pub const TYPE_AAAA: u16 = 28;
/// The Internet class.
pub const CLASS_IN: u16 = 1;
/// The opcode of a standard query.
pub const OPCODE_REQUEST: u8 = 0;
/// Response code: no error.
pub const RESPONSE_CODE_SUCCESS: u8 = 0;
/// Response code: the query could not be read.
pub const RESPONSE_CODE_INVALID_FORMAT: u8 = 1;
/// Response code: the server failed.
pub const RESPONSE_CODE_SERVER_FAILURE: u8 = 2;

/// Bit `i` of `x`.
pub open spec fn bit(x: u16, i: u16) -> bool {
    (x >> i) & 1u16 == 1u16
}

/// The header bits of a request with an opcode.
pub open spec fn request_bits(opcode: u8) -> u16 {
    (opcode as u16) << 11u16
}

/// The header bits of a response with a response code.
pub open spec fn response_bits(response_code: u8) -> u16 {
    (response_code as u16) | 0x8000u16
}

/// The opcode field of header bits.
pub open spec fn opcode_of(x: u16) -> u8 {
    ((x >> 11u16) & 0xfu16) as u8
}

/// The response code field of header bits.
pub open spec fn response_code_of(x: u16) -> u16 {
    x & 0xfu16
}

/// The flags word of a DNS message.
#[derive(Debug)]
pub struct Header(u16);

impl Header {
    /// The bits of the header.
    pub closed spec fn bits(&self) -> u16 {
        self.0
    }

    /// A header with the given bits.
    pub fn from_bits(bits: u16) -> (r: Header)
        ensures
            r.bits() == bits,
    {
        Header(bits)
    }

    /// The bits of the header, as written.
    pub fn value(&self) -> (r: u16)
        ensures
            r == self.bits(),
    {
        self.0
    }

    /// The header of a request with the opcode.
    pub fn new_request(opcode: u8) -> (r: Header)
        ensures
            r.bits() == request_bits(opcode),
    {
        Header((opcode as u16) << 11u16)
    }

    /// The header of a response with the response code.
    pub fn new_response(response_code: u8) -> (r: Header)
        ensures
            r.bits() == response_bits(response_code),
    {
        assert(1u16 << 15u16 == 0x8000u16) by (bit_vector);
        Header((response_code as u16) | (1u16 << 15u16))
    }

    /// Whether the message is a request (bit 15 clear).
    pub fn is_request(&self) -> (r: bool)
        ensures
            r == !bit(self.bits(), 15),
    {
        (self.0 >> 15u16) & 1u16 != 1u16
    }

    /// The opcode (bits 11 to 14).
    pub fn opcode(&self) -> (r: u8)
        ensures
            r == opcode_of(self.bits()),
    {
        ((self.0 >> 11u16) & 0xfu16) as u8
    }

    /// Whether the answer is authoritative (bit 10).
    pub fn is_aa(&self) -> (r: bool)
        ensures
            r == bit(self.bits(), 10),
    {
        (self.0 >> 10u16) & 1u16 == 1u16
    }

    /// Whether the message was truncated (bit 9).
    pub fn is_truncated(&self) -> (r: bool)
        ensures
            r == bit(self.bits(), 9),
    {
        (self.0 >> 9u16) & 1u16 == 1u16
    }

    /// Whether recursion is desired (bit 8).
    pub fn recursion_desired(&self) -> (r: bool)
        ensures
            r == bit(self.bits(), 8),
    {
        (self.0 >> 8u16) & 1u16 == 1u16
    }

    /// Whether recursion is available (bit 7).
    pub fn recursion_available(&self) -> (r: bool)
        ensures
            r == bit(self.bits(), 7),
    {
        (self.0 >> 7u16) & 1u16 == 1u16
    }

    /// The response code (bits 0 to 3).
    pub fn response_code(&self) -> (r: u16)
        ensures
            r == response_code_of(self.bits()),
    {
        self.0 & 0xfu16
    }
}

/// A request header reads back as a request with its opcode (for opcodes
/// that fit the four bits) and no other flag; a response header reads back
/// as a response with its response code (for codes that fit the four bits).
pub proof fn lemma_header_fields(opcode: u8, response_code: u8)
    requires
        opcode < 16,
        response_code < 16,
    ensures
        !bit(request_bits(opcode), 15),
        opcode_of(request_bits(opcode)) == opcode,
        !bit(request_bits(opcode), 10),
        !bit(request_bits(opcode), 9),
        !bit(request_bits(opcode), 8),
        !bit(request_bits(opcode), 7),
        response_code_of(request_bits(opcode)) == 0,
        bit(response_bits(response_code), 15),
        opcode_of(response_bits(response_code)) == 0,
        response_code_of(response_bits(response_code)) == response_code,
{
    assert(opcode < 16 ==> {
        &&& ((((opcode as u16) << 11u16) >> 15u16) & 1u16) != 1u16
        &&& (((((opcode as u16) << 11u16) >> 11u16) & 0xfu16) as u8) == opcode
        &&& ((((opcode as u16) << 11u16) >> 10u16) & 1u16) != 1u16
        &&& ((((opcode as u16) << 11u16) >> 9u16) & 1u16) != 1u16
        &&& ((((opcode as u16) << 11u16) >> 8u16) & 1u16) != 1u16
        &&& ((((opcode as u16) << 11u16) >> 7u16) & 1u16) != 1u16
        &&& (((opcode as u16) << 11u16) & 0xfu16) == 0u16
    }) by (bit_vector);
    assert(response_code < 16 ==> {
        &&& ((((response_code as u16) | 0x8000u16) >> 15u16) & 1u16) == 1u16
        &&& (((((response_code as u16) | 0x8000u16) >> 11u16) & 0xfu16) as u8) == 0u8
        &&& (((response_code as u16) | 0x8000u16) & 0xfu16) == response_code as u16
    }) by (bit_vector);
}

/// A DNS message: id, header, and its four sections.
#[derive(Debug)]
pub struct Message {
    pub id: u16,
    pub header: Header,
    pub questions: Vec<Question>,
    pub answers: Vec<Answer>,
    pub nsr: Vec<Answer>,
    pub ar: Vec<Answer>,
}

/// A [`Message`] as plain values.
pub struct MessageView {
    pub id: u16,
    pub header: u16,
    pub questions: Seq<QuestionView>,
    pub answers: Seq<AnswerView>,
    pub nsr: Seq<AnswerView>,
    pub ar: Seq<AnswerView>,
}

impl View for Message {
    type V = MessageView;

    open spec fn view(&self) -> MessageView {
        MessageView {
            id: self.id,
            header: self.header.bits(),
            questions: self.questions@.map_values(|q: Question| q@),
            answers: self.answers@.map_values(|a: Answer| a@),
            nsr: self.nsr@.map_values(|a: Answer| a@),
            ar: self.ar@.map_values(|a: Answer| a@),
        }
    }
}

/// What reading `count` questions one after another from `b` gives.
pub open spec fn parse_questions_spec(b: Seq<u8>, count: nat) -> Result<(nat, Seq<QuestionView>), DnsError>
    decreases count,
{
    if count == 0 {
        Ok((0, Seq::empty()))
    } else {
        match parse_question_spec(b) {
            Err(e) => Err(e),
            Ok((n, q)) => match parse_questions_spec(b.skip(n as int), (count - 1) as nat) {
                Err(e) => Err(e),
                Ok((m, qs)) => Ok(((n + m) as nat, seq![q] + qs)),
            },
        }
    }
}

/// What reading `count` answers one after another from `b` gives.
pub open spec fn parse_answers_spec(b: Seq<u8>, count: nat) -> Result<(nat, Seq<AnswerView>), DnsError>
    decreases count,
{
    if count == 0 {
        Ok((0, Seq::empty()))
    } else {
        match parse_answer_spec(b) {
            Err(e) => Err(e),
            Ok((n, a)) => match parse_answers_spec(b.skip(n as int), (count - 1) as nat) {
                Err(e) => Err(e),
                Ok((m, xs)) => Ok(((n + m) as nat, seq![a] + xs)),
            },
        }
    }
}

/// What reading a whole message from `b` gives: the twelve header bytes, then
/// the questions and the three sections of answers, as many as the header
/// counts.
pub open spec fn parse_message_spec(b: Seq<u8>) -> Result<(nat, MessageView), DnsError> {
    if b.len() < 12 {
        Err(DnsError::InvalidHeaderLength)
    } else {
        let b1 = b.skip(12);
        match parse_questions_spec(b1, be16_value(b[4], b[5]) as nat) {
            Err(e) => Err(e),
            Ok((n1, qs)) => {
                let b2 = b1.skip(n1 as int);
                match parse_answers_spec(b2, be16_value(b[6], b[7]) as nat) {
                    Err(e) => Err(e),
                    Ok((n2, ans)) => {
                        let b3 = b2.skip(n2 as int);
                        match parse_answers_spec(b3, be16_value(b[8], b[9]) as nat) {
                            Err(e) => Err(e),
                            Ok((n3, nsr)) => {
                                let b4 = b3.skip(n3 as int);
                                match parse_answers_spec(b4, be16_value(b[10], b[11]) as nat) {
                                    Err(e) => Err(e),
                                    Ok((n4, ar)) => Ok(((12 + n1 + n2 + n3 + n4) as nat, MessageView {
                                        id: be16_value(b[0], b[1]),
                                        header: be16_value(b[2], b[3]),
                                        questions: qs,
                                        answers: ans,
                                        nsr,
                                        ar,
                                    })),
                                }
                            },
                        }
                    },
                }
            },
        }
    }
}

/// The twelve header bytes of a message.
pub open spec fn headers_wire(id: u16, header: u16, qcount: u16, ancount: u16, nscount: u16, arcount: u16) -> Seq<u8> {
    be16(id) + be16(header) + be16(qcount) + be16(ancount) + be16(nscount) + be16(arcount)
}

/// The question of a lookup of the IPv4 address of a name.
pub open spec fn resolve_question(domain: Seq<char>) -> QuestionView {
    QuestionView { domain_name: LabeledView::Stringed(domain), t: TYPE_A, class: CLASS_IN }
}

/// The bytes of a lookup request for a name.
pub open spec fn resolve_request_wire(id: u16, domain: Seq<char>) -> Seq<u8> {
    headers_wire(id, request_bits(OPCODE_REQUEST), 1, 0, 0, 0) + question_wire(resolve_question(domain))
}

/// The answer a lookup is answered with: no name, the address as its record.
pub open spec fn resolve_answer(ttl: u64, addr: IpAddr) -> AnswerView {
    AnswerView {
        name: AnswerNameView::QName(LabeledView::Buffered(Seq::empty())),
        ttl,
        record: match addr {
            IpAddr::V4(a) => AnswerRecordView::A(a@),
            IpAddr::V6(a) => AnswerRecordView::AAAA(a@),
        },
    }
}

/// Prepends what was read before to what reading the rest gives.
pub open spec fn after<T>(pos: nat, done: Seq<T>, r: Result<(nat, Seq<T>), DnsError>) -> Result<(nat, Seq<T>), DnsError> {
    match r {
        Ok((m, xs)) => Ok(((pos + m) as nat, done + xs)),
        Err(e) => Err(e),
    }
}

/// Reads `count` questions one after another; stops at the first that fails.
pub fn parse_questions(b: &[u8], count: usize) -> (r: Result<(&[u8], Vec<Question>), DnsError>)
    ensures
        match parse_questions_spec(b@, count as nat) {
            Ok((n, qs)) => r matches Ok((rest, v)) && n <= b@.len() && rest@ == b@.skip(n as int)
                && v@.len() == qs.len() && forall|i: int| 0 <= i < qs.len() ==> #[trigger] v@[i]@ == qs[i],
            Err(e) => r matches Err(x) && x == e,
        },
{
    let mut cur: &[u8] = b;
    let mut v: Vec<Question> = Vec::new();
    let ghost mut pos: nat = 0;
    let ghost mut done: Seq<QuestionView> = Seq::empty();
    let mut i: usize = 0;
    proof { assert(b@.skip(0) =~= b@); assert(done + Seq::<QuestionView>::empty() =~= done); }
    while i < count
        invariant
            i <= count,
            pos <= b@.len(),
            cur@ == b@.skip(pos as int),
            v@.len() == done.len(),
            forall|k: int| 0 <= k < done.len() ==> #[trigger] v@[k]@ == done[k],
            parse_questions_spec(b@, count as nat) == after(pos, done, parse_questions_spec(cur@, (count - i) as nat)),
        decreases count - i,
    {
        let ghost before = cur@;
        match Question::parse(cur) {
            Err(e) => {
                return Err(e);
            },
            Ok((rest, q)) => {
                proof {
                    let (n, qv) = parse_question_spec(before)->Ok_0;
                    assert(rest@ =~= b@.skip(pos as int + n));
                    match parse_questions_spec(rest@, (count - i - 1) as nat) {
                        Ok((m, qs)) => {
                            assert(done.push(qv) + qs =~= done + (seq![qv] + qs));
                        },
                        Err(_) => {},
                    }
                    pos = pos + n;
                    done = done.push(qv);
                }
                v.push(q);
                cur = rest;
            },
        }
        i = i + 1;
    }
    proof { assert(done + Seq::<QuestionView>::empty() =~= done); }
    Ok((cur, v))
}

/// Reads `count` answers one after another; stops at the first that fails.
pub fn parse_answers(b: &[u8], count: usize) -> (r: Result<(&[u8], Vec<Answer>), DnsError>)
    ensures
        match parse_answers_spec(b@, count as nat) {
            Ok((n, xs)) => r matches Ok((rest, v)) && n <= b@.len() && rest@ == b@.skip(n as int)
                && v@.len() == xs.len() && forall|i: int| 0 <= i < xs.len() ==> #[trigger] v@[i]@ == xs[i],
            Err(e) => r matches Err(x) && x == e,
        },
{
    let mut cur: &[u8] = b;
    let mut v: Vec<Answer> = Vec::new();
    let ghost mut pos: nat = 0;
    let ghost mut done: Seq<AnswerView> = Seq::empty();
    let mut i: usize = 0;
    proof { assert(b@.skip(0) =~= b@); assert(done + Seq::<AnswerView>::empty() =~= done); }
    while i < count
        invariant
            i <= count,
            pos <= b@.len(),
            cur@ == b@.skip(pos as int),
            v@.len() == done.len(),
            forall|k: int| 0 <= k < done.len() ==> #[trigger] v@[k]@ == done[k],
            parse_answers_spec(b@, count as nat) == after(pos, done, parse_answers_spec(cur@, (count - i) as nat)),
        decreases count - i,
    {
        let ghost before = cur@;
        match Answer::parse(cur) {
            Err(e) => {
                return Err(e);
            },
            Ok((rest, a)) => {
                proof {
                    let (n, av) = parse_answer_spec(before)->Ok_0;
                    assert(rest@ =~= b@.skip(pos as int + n));
                    match parse_answers_spec(rest@, (count - i - 1) as nat) {
                        Ok((m, xs)) => {
                            assert(done.push(av) + xs =~= done + (seq![av] + xs));
                        },
                        Err(_) => {},
                    }
                    pos = pos + n;
                    done = done.push(av);
                }
                v.push(a);
                cur = rest;
            },
        }
        i = i + 1;
    }
    proof { assert(done + Seq::<AnswerView>::empty() =~= done); }
    Ok((cur, v))
}

impl Message {
    /// Reads a whole message from the start of `b`; gives the bytes after it
    /// too.
    pub fn parse(b: &[u8]) -> (r: Result<(&[u8], Message), DnsError>)
        ensures
            match parse_message_spec(b@) {
                Ok((n, m)) => r matches Ok((rest, x)) && n <= b@.len() && rest@ == b@.skip(n as int)
                    && x@ == m,
                Err(e) => r matches Err(x) && x == e,
            },
    {
        let len = b.len();
        if len < 12 {
            return Err(DnsError::InvalidHeaderLength);
        }
        let id = get_u16(b, 0);
        let header = Header(get_u16(b, 2));
        let qdcount = get_u16(b, 4) as usize;
        let ancount = get_u16(b, 6) as usize;
        let nscount = get_u16(b, 8) as usize;
        let arcount = get_u16(b, 10) as usize;
        let b1 = &b[12..len];
        proof { assert(b1@ =~= b@.skip(12)); }
        let (b2, questions) = match parse_questions(b1, qdcount) {
            Ok(x) => x,
            Err(e) => return Err(e),
        };
        let (b3, answers) = match parse_answers(b2, ancount) {
            Ok(x) => x,
            Err(e) => return Err(e),
        };
        let (b4, nsr) = match parse_answers(b3, nscount) {
            Ok(x) => x,
            Err(e) => return Err(e),
        };
        let (b5, ar) = match parse_answers(b4, arcount) {
            Ok(x) => x,
            Err(e) => return Err(e),
        };
        let m = Message { id, header, questions, answers, nsr, ar };
        proof {
            if let Ok((n, mv)) = parse_message_spec(b@) {
                assert(m@.questions =~= mv.questions);
                assert(m@.answers =~= mv.answers);
                assert(m@.nsr =~= mv.nsr);
                assert(m@.ar =~= mv.ar);
                assert(b5@ =~= b@.skip(n as int));
            }
        }
        Ok((b5, m))
    }

    /// Appends the twelve header bytes.
    fn write_headers(w: &mut Vec<u8>, id: u16, header: u16, qcount: u16, ancount: u16, nscount: u16, arcount: u16)
        ensures
            final(w)@ == old(w)@ + headers_wire(id, header, qcount, ancount, nscount, arcount),
    {
        put_u16(w, id);
        put_u16(w, header);
        put_u16(w, qcount);
        put_u16(w, ancount);
        put_u16(w, nscount);
        put_u16(w, arcount);
        proof {
            assert(final(w)@ =~= old(w)@ + headers_wire(id, header, qcount, ancount, nscount, arcount));
        }
    }

    /// Appends a request for the IPv4 address of `domain`; fails, writing
    /// nothing, when the name is not valid.
    pub fn new_resolve_request(w: &mut Vec<u8>, id: u16, domain: &str) -> (r: Result<(), DnsError>)
        ensures
            match check_domain_spec(domain@) {
                Ok(_) => r is Ok && final(w)@ == old(w)@ + resolve_request_wire(id, domain@),
                Err(e) => r == Err::<(), DnsError>(e) && final(w)@ == old(w)@,
            },
    {
        let domain_name = match Labeled::try_from(domain) {
            Ok(l) => l,
            Err(e) => return Err(e),
        };
        let q = Question { domain_name, t: TYPE_A, class: CLASS_IN };
        Self::write_headers(w, id, Header::new_request(OPCODE_REQUEST).0, 1, 0, 0, 0);
        q.to_writer(w);
        proof { assert(final(w)@ =~= old(w)@ + resolve_request_wire(id, domain@)); }
        Ok(())
    }

    /// Appends a successful answer holding one address. The header is written
    /// first; the answer fails, after it, when the time to live does not fit
    /// in 32 bits.
    pub fn new_resolve_answer(w: &mut Vec<u8>, id: u16, ttl: u64, addr: &IpAddr) -> (r: Result<(), DnsError>)
        ensures
            ({
                let head = old(w)@ + headers_wire(id, response_bits(RESPONSE_CODE_SUCCESS), 0, 1, 0, 0);
                let a = resolve_answer(ttl, *addr);
                if ttl > u32::MAX {
                    r == Err::<(), DnsError>(DnsError::ExcessiveTtl) && final(w)@ == head
                } else {
                    r is Ok && final(w)@ == head + answer_head_wire(a) + record_wire(a.record).unwrap()
                }
            }),
    {
        Self::write_headers(w, id, Header::new_response(RESPONSE_CODE_SUCCESS).0, 0, 1, 0, 0);
        let record = match addr {
            IpAddr::V4(a) => AnswerRecord::A(*a),
            IpAddr::V6(a) => AnswerRecord::AAAA(*a),
        };
        let answer = Answer { name: AnswerName::default(), ttl, record };
        answer.to_writer(w)
    }
}

/// A question with a checked name reads back as an equal question, leaving
/// exactly the bytes that followed it.
pub proof fn lemma_question_roundtrip(s: Seq<char>, t: u16, class: u16, rest: Seq<u8>)
    requires
        check_domain_spec(s) is Ok,
        forall|i: int| 0 <= i < s.len() ==> s[i] != '\0',
    ensures
        ({
            let q = QuestionView { domain_name: LabeledView::Stringed(s), t, class };
            let bytes = question_wire(q) + rest;
            match parse_question_spec(bytes) {
                Ok((n, x)) => n <= bytes.len() && bytes.skip(n as int) == rest
                    && labeled_eq(x.domain_name, q.domain_name) && x.t == t && x.class == class,
                Err(_) => false,
            }
        }),
{
    let q = QuestionView { domain_name: LabeledView::Stringed(s), t, class };
    let tail = be16(t) + be16(class) + rest;
    lemma_name_roundtrip(s, tail);
    lemma_be16_roundtrip(t);
    lemma_be16_roundtrip(class);
    let bytes = question_wire(q) + rest;
    assert(bytes =~= labeled_wire(q.domain_name) + tail);
    crate::text::lemma_index_of(bytes, 0u8);
    let (n, name) = parse_labeled_spec(bytes)->Ok_0;
    let r = bytes.skip(n as int);
    assert(r == tail);
    assert(r[0] == be16(t)[0] && r[1] == be16(t)[1]);
    assert(r[2] == be16(class)[0] && r[3] == be16(class)[1]);
    assert(bytes.skip(n as int + 4) =~= r.skip(4));
    assert(r.skip(4) =~= rest);
}

/// A lookup request for a checked name reads back as a request message with
/// its id, the request header, that one question and no answers, leaving
/// exactly the bytes that followed it.
pub proof fn lemma_resolve_request_roundtrip(id: u16, s: Seq<char>, rest: Seq<u8>)
    requires
        check_domain_spec(s) is Ok,
        forall|i: int| 0 <= i < s.len() ==> s[i] != '\0',
    ensures
        ({
            let bytes = resolve_request_wire(id, s) + rest;
            match parse_message_spec(bytes) {
                Ok((n, m)) => {
                    &&& n <= bytes.len()
                    &&& bytes.skip(n as int) == rest
                    &&& m.id == id
                    &&& m.header == request_bits(OPCODE_REQUEST)
                    &&& m.questions.len() == 1
                    &&& labeled_eq(m.questions[0].domain_name, LabeledView::Stringed(s))
                    &&& m.questions[0].t == TYPE_A
                    &&& m.questions[0].class == CLASS_IN
                    &&& m.answers.len() == 0
                    &&& m.nsr.len() == 0
                    &&& m.ar.len() == 0
                },
                Err(_) => false,
            }
        }),
{
    let q = resolve_question(s);
    let bytes = resolve_request_wire(id, s) + rest;
    let h = headers_wire(id, request_bits(OPCODE_REQUEST), 1, 0, 0, 0);
    lemma_be16_roundtrip(id);
    lemma_be16_roundtrip(request_bits(OPCODE_REQUEST));
    lemma_be16_roundtrip(1);
    lemma_be16_roundtrip(0);
    assert(h.len() == 12);
    assert(bytes =~= h + (question_wire(q) + rest));
    assert(bytes[0] == be16(id)[0] && bytes[1] == be16(id)[1]);
    assert(bytes[2] == be16(request_bits(OPCODE_REQUEST))[0] && bytes[3] == be16(request_bits(OPCODE_REQUEST))[1]);
    assert(bytes[4] == be16(1)[0] && bytes[5] == be16(1)[1]);
    assert(bytes[6] == be16(0)[0] && bytes[7] == be16(0)[1]);
    assert(bytes[8] == be16(0)[0] && bytes[9] == be16(0)[1]);
    assert(bytes[10] == be16(0)[0] && bytes[11] == be16(0)[1]);
    let b1 = bytes.skip(12);
    assert(b1 =~= question_wire(q) + rest);
    lemma_question_roundtrip(s, TYPE_A, CLASS_IN, rest);
    let (n1, x) = parse_question_spec(b1)->Ok_0;
    assert(parse_questions_spec(b1.skip(n1 as int), 0) == Ok::<(nat, Seq<QuestionView>), DnsError>((0, Seq::empty())));
    assert(parse_questions_spec(b1, 1) == Ok::<(nat, Seq<QuestionView>), DnsError>((n1, seq![x] + Seq::empty())));
    assert(seq![x] + Seq::<QuestionView>::empty() =~= seq![x]);
    assert(bytes.skip(12 + n1 as int) =~= b1.skip(n1 as int));
}
} // verus!
