use vstd::prelude::*;

use crate::bytes::{be16, be16_value, get_u16, put_u16};
use crate::dns::labeled::{parse_labeled_spec, labeled_wire, Labeled, LabeledView};
use crate::dns::DnsError;

verus! {

/// One question of a DNS message: a name, a record type and a class.
#[derive(Debug)]
pub struct Question {
    pub domain_name: Labeled,
    pub t: u16,
    pub class: u16,
}

/// A [`Question`] as plain values.
pub struct QuestionView {
    pub domain_name: LabeledView,
    pub t: u16,
    pub class: u16,
}

impl View for Question {
    type V = QuestionView;

    open spec fn view(&self) -> QuestionView {
        QuestionView { domain_name: self.domain_name@, t: self.t, class: self.class }
    }
}

/// The bytes a question is written as: its name, then type and class, big-endian.
pub open spec fn question_wire(q: QuestionView) -> Seq<u8> {
    labeled_wire(q.domain_name) + be16(q.t) + be16(q.class)
}

/// What reading a question from the start of `b` gives: how many bytes it
/// took and the question, or why it failed.
pub open spec fn parse_question_spec(b: Seq<u8>) -> Result<(nat, QuestionView), DnsError> {
    match parse_labeled_spec(b) {
        Err(e) => Err(e),
        Ok((n, name)) => {
            let r = b.skip(n as int);
            if r.len() < 4 {
                Err(DnsError::InsufficientQuestion)
            } else {
                Ok(((n + 4) as nat, QuestionView {
                    domain_name: LabeledView::Buffered(name),
                    t: be16_value(r[0], r[1]),
                    class: be16_value(r[2], r[3]),
                }))
            }
        },
    }
}

impl Question {
    /// Appends the wire bytes of the question.
    pub fn to_writer(&self, w: &mut Vec<u8>)
        ensures
            final(w)@ == old(w)@ + question_wire(self@),
    {
        self.domain_name.to_writer(w);
        put_u16(w, self.t);
        put_u16(w, self.class);
        proof { assert(final(w)@ =~= old(w)@ + question_wire(self@)); }
    }

    /// Reads a question from the start of `b`; gives the bytes after it too.
    pub fn parse(b: &[u8]) -> (r: Result<(&[u8], Question), DnsError>)
        ensures
            match parse_question_spec(b@) {
                Ok((n, q)) => r matches Ok((rest, x)) && n <= b@.len() && rest@ == b@.skip(n as int)
                    && x@ == q,
                Err(e) => r matches Err(x) && x == e,
            },
    {
        match Labeled::parse(b) {
            Err(e) => Err(e),
            Ok((rest, domain_name)) => {
                let n = rest.len();
                if n < 4 {
                    return Err(DnsError::InsufficientQuestion);
                }
                let t = get_u16(rest, 0);
                let class = get_u16(rest, 2);
                let after = &rest[4..n];
                proof {
                    if let Ok((nn, _)) = parse_labeled_spec(b@) {
                        assert(after@ =~= b@.skip(nn as int + 4));
                    }
                }
                Ok((after, Question { domain_name, t, class }))
            },
        }
    }
}

} // verus!
