use vstd::prelude::*;
use vstd::utf8::*;

use crate::bytes::{put_slice, sub_vec};
use crate::dns::DnsError;
use crate::text::{
    chars_to_string, index_of, lemma_index_of, lemma_index_of_at, lemma_index_of_none,
    slice_chars, split_chars, split_on, str_chars, string_bytes, utf8_string,
};

verus! {

broadcast use {encode_utf8_valid_utf8, encode_utf8_decode_utf8, decode_utf8_encode_utf8};

/// A domain name: either as it came on the wire (length-prefixed labels) or as
/// dotted text.
#[derive(Debug)]
pub enum Labeled {
    Buffered(Vec<u8>),
    Stringed(String),
}

/// A [`Labeled`] as plain values.
pub enum LabeledView {
    Buffered(Seq<u8>),
    Stringed(Seq<char>),
}

impl View for Labeled {
    type V = LabeledView;

    open spec fn view(&self) -> LabeledView {
        match self {
            Labeled::Buffered(b) => LabeledView::Buffered(b@),
            Labeled::Stringed(s) => LabeledView::Stringed(s@),
        }
    }
}

/// The labels of dotted text: the pieces between dots, up to the end of the
/// text (an empty text has none, a trailing dot adds none).
pub open spec fn str_labels(s: Seq<char>) -> Seq<Seq<char>>
    decreases s.len(),
{
    if s.len() == 0 {
        Seq::empty()
    } else {
        match index_of(s, '.') {
            Some(i) => {
                proof { lemma_index_of(s, '.'); }
                seq![s.take(i)] + str_labels(s.skip(i + 1))
            },
            None => seq![s],
        }
    }
}

/// The labels of wire bytes: each a length byte and that many UTF-8 bytes; they
/// end at the end of the bytes, at a zero length, at a length longer than what
/// is left, or at a label that is not UTF-8.
pub open spec fn buf_labels(b: Seq<u8>) -> Seq<Seq<char>>
    decreases b.len(),
{
    if b.len() == 0 {
        Seq::empty()
    } else {
        let n = b[0] as int;
        if n == 0 || b.len() - 1 < n {
            Seq::empty()
        } else if valid_utf8(b.subrange(1, 1 + n)) {
            seq![decode_utf8(b.subrange(1, 1 + n))] + buf_labels(b.skip(1 + n))
        } else {
            Seq::empty()
        }
    }
}

/// The labels of a name.
pub open spec fn labels(v: LabeledView) -> Seq<Seq<char>> {
    match v {
        LabeledView::Buffered(b) => buf_labels(b),
        LabeledView::Stringed(s) => str_labels(s),
    }
}

/// Labels joined with dots.
pub open spec fn join_labels(ls: Seq<Seq<char>>) -> Seq<char>
    decreases ls.len(),
{
    if ls.len() == 0 {
        Seq::empty()
    } else if ls.len() == 1 {
        ls[0]
    } else {
        ls[0] + seq!['.'] + join_labels(ls.drop_first())
    }
}

/// Labels written as length-prefixed UTF-8 bytes, one after another.
pub open spec fn labels_wire(ls: Seq<Seq<char>>) -> Seq<u8>
    decreases ls.len(),
{
    if ls.len() == 0 {
        Seq::empty()
    } else {
        seq![encode_utf8(ls[0]).len() as u8] + encode_utf8(ls[0]) + labels_wire(ls.drop_first())
    }
}

/// The bytes a name is written as: wire bytes as they are; text as its labels
/// followed by a zero byte.
pub open spec fn labeled_wire(v: LabeledView) -> Seq<u8> {
    match v {
        LabeledView::Buffered(b) => b,
        LabeledView::Stringed(s) => labels_wire(str_labels(s)) + seq![0u8],
    }
}

/// Whether dotted text is a valid name: no empty piece between dots and no
/// piece longer than 255 UTF-8 bytes.
pub open spec fn valid_domain(s: Seq<char>) -> bool {
    forall|i: int| 0 <= i < split_on(s, '.').len() ==> {
        &&& (#[trigger] split_on(s, '.')[i]).len() > 0
        &&& encode_utf8(split_on(s, '.')[i]).len() <= 255
    }
}

/// Which check on dotted text fails first: an empty piece or a piece too long.
pub open spec fn check_domain_spec(s: Seq<char>) -> Result<(), DnsError> {
    check_pieces_spec(split_on(s, '.'))
}

/// The first failing check over the pieces, in order.
pub open spec fn check_pieces_spec(ps: Seq<Seq<char>>) -> Result<(), DnsError>
    decreases ps.len(),
{
    if ps.len() == 0 {
        Ok(())
    } else if ps[0].len() == 0 {
        Err(DnsError::EmptyLabel)
    } else if encode_utf8(ps[0]).len() > 255 {
        Err(DnsError::LabelTooLong)
    } else {
        check_pieces_spec(ps.drop_first())
    }
}

/// What reading a name from the start of `b` gives: the bytes up to the first
/// zero byte, and the position after it.
pub open spec fn parse_labeled_spec(b: Seq<u8>) -> Result<(nat, Seq<u8>), DnsError> {
    match index_of(b, 0u8) {
        Some(end) => Ok(((end + 1) as nat, b.take(end))),
        None => Err(DnsError::NoNameTerminator),
    }
}

/// When two names are equal: the same wire bytes, the same text, or otherwise
/// the same labels.
pub open spec fn labeled_eq(a: LabeledView, b: LabeledView) -> bool {
    match (a, b) {
        (LabeledView::Buffered(x), LabeledView::Buffered(y)) => x == y,
        (LabeledView::Stringed(x), LabeledView::Stringed(y)) => x == y,
        _ => labels(a) == labels(b),
    }
}

/// Finds the first zero byte.
pub fn find_zero(b: &[u8]) -> (r: Option<usize>)
    ensures
        r is None <==> index_of(b@, 0u8) is None,
        r matches Some(i) ==> index_of(b@, 0u8) == Some(i as int) && i < b@.len(),
{
    proof { lemma_index_of(b@, 0u8); }
    let mut i: usize = 0;
    while i < b.len()
        invariant
            i <= b.len(),
            forall|j: int| 0 <= j < i ==> b@[j] != 0u8,
            match index_of(b@, 0u8) {
                Some(k) => 0 <= k < b@.len() && b@[k] == 0u8 && forall|j: int| 0 <= j < k ==> b@[j] != 0u8,
                None => forall|j: int| 0 <= j < b@.len() ==> b@[j] != 0u8,
            },
        decreases b.len() - i,
    {
        if b[i] == 0 {
            return Some(i);
        }
        i = i + 1;
    }
    None
}

/// Checks dotted text: every piece between dots is non-empty and at most 255
/// UTF-8 bytes long.
pub fn check_string(domain: &str) -> (r: Result<(), DnsError>)
    ensures
        r == check_domain_spec(domain@),
{
    let chars = str_chars(domain);
    let pieces = split_chars(chars.as_slice(), '.');
    let ghost ps = split_on(chars@, '.');
    let mut i: usize = 0;
    proof { assert(ps.skip(0) =~= ps); }
    while i < pieces.len()
        invariant
            i <= pieces@.len(),
            pieces@.len() == ps.len(),
            forall|k: int| 0 <= k < pieces@.len() ==> #[trigger] pieces@[k]@ == ps[k],
            check_pieces_spec(ps) == check_pieces_spec(ps.skip(i as int)),
            ps == split_on(domain@, '.'),
        decreases pieces.len() - i,
    {
        let ghost rest = ps.skip(i as int);
        proof {
            assert(rest.drop_first() =~= ps.skip(i + 1));
            assert(rest[0] == ps[i as int]);
            assert(pieces@[i as int]@ == ps[i as int]);
        }
        if pieces[i].len() == 0 {
            return Err(DnsError::EmptyLabel);
        }
        let bytes = string_bytes(&chars_to_string(pieces[i].as_slice()));
        proof { assert(bytes@ == encode_utf8(rest[0])); }
        if bytes.len() > 255 {
            return Err(DnsError::LabelTooLong);
        }
        i = i + 1;
    }
    proof { assert(ps.skip(i as int).len() == 0); }
    Ok(())
}

/// Check passes exactly for valid names.
pub proof fn lemma_check_pieces(ps: Seq<Seq<char>>)
    ensures
        (check_pieces_spec(ps) is Ok) <==> (forall|i: int| 0 <= i < ps.len() ==> {
            &&& (#[trigger] ps[i]).len() > 0
            &&& encode_utf8(ps[i]).len() <= 255
        }),
    decreases ps.len(),
{
    if ps.len() > 0 {
        lemma_check_pieces(ps.drop_first());
        if check_pieces_spec(ps) is Ok {
            assert forall|i: int| 0 <= i < ps.len() implies {
                &&& (#[trigger] ps[i]).len() > 0
                &&& encode_utf8(ps[i]).len() <= 255
            } by {
                if i > 0 { assert(ps[i] == ps.drop_first()[i - 1]); }
            }
        }
        if forall|i: int| 0 <= i < ps.len() ==> {
            &&& (#[trigger] ps[i]).len() > 0
            &&& encode_utf8(ps[i]).len() <= 255
        } {
            assert(ps[0].len() > 0);
            assert forall|i: int| 0 <= i < ps.drop_first().len() implies {
                &&& (#[trigger] ps.drop_first()[i]).len() > 0
                &&& encode_utf8(ps.drop_first()[i]).len() <= 255
            } by {
                assert(ps.drop_first()[i] == ps[i + 1]);
            }
        }
    }
}

impl Labeled {
    /// A name from dotted text, checked first.
    pub fn try_from(value: &str) -> (r: Result<Labeled, DnsError>)
        ensures
            match check_domain_spec(value@) {
                Ok(_) => r matches Ok(l) && l@ == LabeledView::Stringed(value@),
                Err(e) => r matches Err(x) && x == e,
            },
    {
        match check_string(value) {
            Ok(()) => Ok(Labeled::Stringed(value.to_owned())),
            Err(e) => Err(e),
        }
    }

    /// A name from dotted text, checked first (`FromStr`).
    pub fn from_str(s: &str) -> (r: Result<Labeled, DnsError>)
        ensures
            match check_domain_spec(s@) {
                Ok(_) => r matches Ok(l) && l@ == LabeledView::Stringed(s@),
                Err(e) => r matches Err(x) && x == e,
            },
    {
        Self::try_from(s)
    }

    /// Reads a name from the start of `b`: the bytes up to the first zero byte.
    /// Gives the bytes after that zero byte too.
    pub fn parse(b: &[u8]) -> (r: Result<(&[u8], Labeled), DnsError>)
        ensures
            match parse_labeled_spec(b@) {
                Ok((n, name)) => r matches Ok((rest, l)) && n <= b@.len() && rest@ == b@.skip(n as int)
                    && l@ == LabeledView::Buffered(name),
                Err(e) => r matches Err(x) && x == e,
            },
    {
        let n = b.len();
        match find_zero(b) {
            Some(end) => {
                let name = sub_vec(b, 0, end);
                proof { assert(name@ =~= b@.take(end as int)); }
                let rest = &b[end + 1..n];
                proof {
                    assert(rest@ =~= b@.skip(end + 1));
                    assert(index_of(b@, 0u8) == Some(end as int));
                    assert(parse_labeled_spec(b@) == Ok::<(nat, Seq<u8>), DnsError>(((end + 1) as nat, b@.take(end as int))));
                }
                Ok((rest, Labeled::Buffered(name)))
            },
            None => Err(DnsError::NoNameTerminator),
        }
    }

    /// The labels of the name (`iter`).
    pub fn iter(&self) -> (r: Vec<Vec<char>>)
        ensures
            r@.len() == labels(self@).len(),
            forall|i: int| 0 <= i < r@.len() ==> #[trigger] r@[i]@ == labels(self@)[i],
    {
        match self {
            Labeled::Buffered(b) => buffered_labels(b.as_slice()),
            Labeled::Stringed(s) => string_labels(s.as_str()),
        }
    }

    /// Appends the wire bytes of the name.
    pub fn to_writer(&self, w: &mut Vec<u8>)
        ensures
            final(w)@ == old(w)@ + labeled_wire(self@),
    {
        match self {
            Labeled::Buffered(b) => put_slice(w, b.as_slice()),
            Labeled::Stringed(s) => write_text_name(w, s.as_str()),
        }
    }

    /// The dotted text of the name, as `Display` writes it.
    pub fn to_text(&self) -> (r: String)
        ensures
            r@ == join_labels(labels(self@)),
    {
        let ls = self.iter();
        proof { assert(label_views(ls@) =~= labels(self@)); }
        join_label_chars(&ls)
    }

    /// Whether two names are equal: the same wire bytes, the same text, or
    /// otherwise the same labels.
    pub fn same_as(&self, other: &Labeled) -> (r: bool)
        ensures
            r == labeled_eq(self@, other@),
    {
        match (self, other) {
            (Labeled::Buffered(x), Labeled::Buffered(y)) => bytes_eq(x.as_slice(), y.as_slice()),
            (Labeled::Stringed(x), Labeled::Stringed(y)) => x.eq(y),
            _ => {
                let a = self.iter();
                let b = other.iter();
                proof {
                    assert(label_views(a@) =~= labels(self@));
                    assert(label_views(b@) =~= labels(other@));
                }
                labels_equal(&a, &b)
            },
        }
    }
}

/// The labels held in a vector, as plain values.
pub open spec fn label_views(ls: Seq<Vec<char>>) -> Seq<Seq<char>> {
    ls.map_values(|l: Vec<char>| l@)
}

/// Appends dotted text as wire bytes: each label with its length before it,
/// then a zero byte.
pub fn write_text_name(w: &mut Vec<u8>, s: &str)
    ensures
        final(w)@ == old(w)@ + labels_wire(str_labels(s@)) + seq![0u8],
{
    let ls = string_labels(s);
    let ghost lv = str_labels(s@);
    let mut i: usize = 0;
    proof { assert(lv.skip(0) =~= lv); }
    while i < ls.len()
        invariant
            i <= ls@.len(),
            ls@.len() == lv.len(),
            lv == str_labels(s@),
            forall|k: int| 0 <= k < ls@.len() ==> #[trigger] ls@[k]@ == lv[k],
            w@ + labels_wire(lv.skip(i as int)) == old(w)@ + labels_wire(lv),
        decreases ls.len() - i,
    {
        let ghost before = w@;
        let bytes = string_bytes(&chars_to_string(ls[i].as_slice()));
        w.push(#[verifier::truncate] (bytes.len() as u8));
        put_slice(w, bytes.as_slice());
        proof {
            assert(lv.skip(i as int).drop_first() =~= lv.skip(i + 1));
            assert(w@ + labels_wire(lv.skip(i + 1)) =~= before + labels_wire(lv.skip(i as int)));
        }
        i = i + 1;
    }
    proof { assert(lv.skip(i as int).len() == 0); }
    w.push(0);
}

/// Labels joined with dots into one text.
pub fn join_label_chars(ls: &Vec<Vec<char>>) -> (r: String)
    ensures
        r@ == join_labels(label_views(ls@)),
{
    let ghost lv = label_views(ls@);
    let mut out: Vec<char> = Vec::new();
    let mut i: usize = 0;
    while i < ls.len()
        invariant
            i <= ls@.len(),
            ls@.len() == lv.len(),
            lv == label_views(ls@),
            i == 0 ==> out@.len() == 0,
            i > 0 && i < lv.len() ==> out@ + seq!['.'] + join_labels(lv.skip(i as int)) == join_labels(lv),
            i > 0 && i == lv.len() ==> out@ == join_labels(lv),
        decreases ls.len() - i,
    {
        if i > 0 {
            out.push('.');
        }
        crate::http::push_chars(&mut out, ls[i].as_slice());
        proof {
            let t = lv.skip(i as int);
            assert(t[0] == lv[i as int]);
            assert(t.drop_first() =~= lv.skip(i + 1));
            if i == 0 {
                assert(lv =~= t);
            } else if i + 1 == lv.len() {
                assert(t.len() == 1);
            }
        }
        i = i + 1;
    }
    proof {
        if lv.len() == 0 {
            assert(out@ =~= join_labels(lv));
        }
    }
    chars_to_string(out.as_slice())
}

/// Whether two lists of labels are equal.
pub fn labels_equal(a: &Vec<Vec<char>>, b: &Vec<Vec<char>>) -> (r: bool)
    ensures
        r == (label_views(a@) == label_views(b@)),
{
    if a.len() != b.len() {
        proof { assert(label_views(a@).len() != label_views(b@).len()); }
        return false;
    }
    let mut i: usize = 0;
    while i < a.len()
        invariant
            a@.len() == b@.len(),
            i <= a@.len(),
            forall|k: int| 0 <= k < i ==> label_views(a@)[k] == label_views(b@)[k],
        decreases a.len() - i,
    {
        if !chars_eq(a[i].as_slice(), b[i].as_slice()) {
            proof { assert(label_views(a@)[i as int] != label_views(b@)[i as int]); }
            return false;
        }
        i = i + 1;
    }
    proof { assert(label_views(a@) =~= label_views(b@)); }
    true
}

impl Default for Labeled {
    /// The empty name, as wire bytes.
    fn default() -> (r: Labeled)
        ensures
            r@ == LabeledView::Buffered(Seq::empty()),
    {
        Labeled::Buffered(Vec::new())
    }
}

impl PartialEq for Labeled {
    fn eq(&self, other: &Self) -> (r: bool) {
        self.same_as(other)
    }
}

impl vstd::std_specs::cmp::PartialEqSpecImpl for Labeled {
    open spec fn obeys_eq_spec() -> bool {
        true
    }

    open spec fn eq_spec(&self, other: &Self) -> bool {
        labeled_eq(self@, other@)
    }
}

/// Whether two byte sequences are equal.
pub fn bytes_eq(a: &[u8], b: &[u8]) -> (r: bool)
    ensures
        r == (a@ == b@),
{
    if a.len() != b.len() {
        return false;
    }
    let mut i: usize = 0;
    while i < a.len()
        invariant
            a@.len() == b@.len(),
            i <= a@.len(),
            forall|k: int| 0 <= k < i ==> a@[k] == b@[k],
        decreases a.len() - i,
    {
        if a[i] != b[i] {
            return false;
        }
        i = i + 1;
    }
    proof { assert(a@ =~= b@); }
    true
}

/// Whether two character sequences are equal.
pub fn chars_eq(a: &[char], b: &[char]) -> (r: bool)
    ensures
        r == (a@ == b@),
{
    if a.len() != b.len() {
        return false;
    }
    let mut i: usize = 0;
    while i < a.len()
        invariant
            a@.len() == b@.len(),
            i <= a@.len(),
            forall|k: int| 0 <= k < i ==> a@[k] == b@[k],
        decreases a.len() - i,
    {
        if a[i] != b[i] {
            return false;
        }
        i = i + 1;
    }
    proof { assert(a@ =~= b@); }
    true
}

/// The labels of dotted text.
pub fn string_labels(s: &str) -> (r: Vec<Vec<char>>)
    ensures
        r@.len() == str_labels(s@).len(),
        forall|i: int| 0 <= i < r@.len() ==> #[trigger] r@[i]@ == str_labels(s@)[i],
{
    let chars = str_chars(s);
    let n = chars.len();
    let mut r: Vec<Vec<char>> = Vec::new();
    let ghost mut done: Seq<Seq<char>> = Seq::empty();
    let mut pos: usize = 0;
    proof { assert(chars@.skip(0) =~= chars@); }
    while pos < n
        invariant
            pos <= n,
            n == chars@.len(),
            r@.len() == done.len(),
            forall|k: int| 0 <= k < r@.len() ==> #[trigger] r@[k]@ == done[k],
            str_labels(s@) == done + str_labels(chars@.skip(pos as int)),
            chars@ == s@,
        decreases n - pos,
    {
        let ghost t = chars@.skip(pos as int);
        let mut i = pos;
        while i < n && chars[i] != '.'
            invariant
                pos <= i <= n,
                n == chars@.len(),
                forall|j: int| pos <= j < i ==> chars@[j] != '.',
            decreases n - i,
        {
            i = i + 1;
        }
        if i < n {
            proof {
                assert forall|j: int| 0 <= j < i - pos implies t[j] != '.' by {
                    assert(t[j] == chars@[pos + j]);
                }
                lemma_index_of_at(t, '.', i - pos);
                assert(t.take(i - pos) =~= chars@.subrange(pos as int, i as int));
                assert(t.skip(i - pos + 1) =~= chars@.skip(i + 1));
            }
            r.push(slice_chars(chars.as_slice(), pos, i));
            proof { done = done.push(chars@.subrange(pos as int, i as int)); }
            pos = i + 1;
            proof {
                assert(str_labels(s@) =~= done + str_labels(chars@.skip(pos as int)));
            }
        } else {
            proof {
                assert forall|j: int| 0 <= j < t.len() implies t[j] != '.' by {
                    assert(t[j] == chars@[pos + j]);
                }
                lemma_index_of_none(t, '.');
                assert(t =~= chars@.subrange(pos as int, n as int));
            }
            r.push(slice_chars(chars.as_slice(), pos, n));
            proof { done = done.push(t); }
            pos = n;
            proof {
                assert(chars@.skip(n as int).len() == 0);
                assert(str_labels(s@) =~= done + str_labels(chars@.skip(pos as int)));
            }
        }
    }
    proof { assert(chars@.skip(n as int).len() == 0); assert(str_labels(s@) =~= done); }
    r
}

/// The labels of wire bytes.
pub fn buffered_labels(b: &[u8]) -> (r: Vec<Vec<char>>)
    ensures
        r@.len() == buf_labels(b@).len(),
        forall|i: int| 0 <= i < r@.len() ==> #[trigger] r@[i]@ == buf_labels(b@)[i],
{
    let n = b.len();
    let mut r: Vec<Vec<char>> = Vec::new();
    let ghost mut done: Seq<Seq<char>> = Seq::empty();
    let mut pos: usize = 0;
    proof { assert(b@.skip(0) =~= b@); }
    while pos < n
        invariant
            pos <= n,
            n == b@.len(),
            r@.len() == done.len(),
            forall|k: int| 0 <= k < r@.len() ==> #[trigger] r@[k]@ == done[k],
            buf_labels(b@) == done + buf_labels(b@.skip(pos as int)),
        decreases n - pos,
    {
        let ghost t = b@.skip(pos as int);
        let len = b[pos] as usize;
        proof { assert(t[0] == b@[pos as int]); }
        if len == 0 || n - pos - 1 < len {
            proof { assert(buf_labels(t).len() == 0); assert(buf_labels(b@) =~= done); }
            return r;
        }
        let label = sub_vec(b, pos + 1, pos + 1 + len);
        proof {
            assert(t.subrange(1, 1 + len) =~= label@);
            assert(t.skip(1 + len) =~= b@.skip(pos + 1 + len));
        }
        match utf8_string(label) {
            Some(text) => {
                r.push(str_chars(text.as_str()));
                proof { done = done.push(text@); }
                pos = pos + 1 + len;
                proof { assert(buf_labels(b@) =~= done + buf_labels(b@.skip(pos as int))); }
            },
            None => {
                proof { assert(buf_labels(t).len() == 0); assert(buf_labels(b@) =~= done); }
                return r;
            },
        }
    }
    proof { assert(b@.skip(n as int).len() == 0); assert(buf_labels(b@) =~= done); }
    r
}

/// Every byte of the UTF-8 encoding of a non-zero scalar is non-zero.
proof fn lemma_scalar_bytes_nonzero(v: u32)
    requires
        0 < v <= 0x10FFFF,
    ensures
        encode_scalar(v).len() >= 1,
        forall|j: int| 0 <= j < encode_scalar(v).len() ==> encode_scalar(v)[j] != 0u8,
{
    assert(0 < v <= 0x7F ==> leading_byte_width_1(v) != 0u8) by (bit_vector);
    assert(leading_byte_width_2(v) != 0u8) by (bit_vector);
    assert(leading_byte_width_3(v) != 0u8) by (bit_vector);
    assert(leading_byte_width_4(v) != 0u8) by (bit_vector);
    assert(last_continuation_byte(v) != 0u8) by (bit_vector);
    assert(second_last_continuation_byte(v) != 0u8) by (bit_vector);
    assert(third_last_continuation_byte(v) != 0u8) by (bit_vector);
}

/// The UTF-8 bytes of text without NUL characters hold no zero byte, and
/// non-empty text gives at least one byte.
proof fn lemma_encode_no_zero(cs: Seq<char>)
    requires
        forall|i: int| 0 <= i < cs.len() ==> cs[i] != '\0',
    ensures
        forall|j: int| 0 <= j < encode_utf8(cs).len() ==> encode_utf8(cs)[j] != 0u8,
        cs.len() > 0 ==> encode_utf8(cs).len() > 0,
    decreases cs.len(),
{
    if cs.len() > 0 {
        let v = cs[0] as u32;
        char_is_scalar(cs[0]);
        if v == 0 {
            char_u32_cast(cs[0], v);
            assert(cs[0] == '\0');
        }
        lemma_scalar_bytes_nonzero(v);
        lemma_encode_no_zero(cs.drop_first());
        let a = encode_scalar(v);
        let b = encode_utf8(cs.drop_first());
        assert(encode_utf8(cs) == a + b);
        assert forall|j: int| 0 <= j < (a + b).len() implies (a + b)[j] != 0u8 by {
            if j >= a.len() {
                assert((a + b)[j] == b[j - a.len()]);
            }
        }
    }
}

/// Labels that are non-empty, at most 255 bytes and free of NUL characters.
pub open spec fn wire_safe_labels(ls: Seq<Seq<char>>) -> bool {
    forall|k: int| 0 <= k < ls.len() ==> {
        &&& (#[trigger] ls[k]).len() > 0
        &&& encode_utf8(ls[k]).len() <= 255
        &&& forall|i: int| 0 <= i < ls[k].len() ==> ls[k][i] != '\0'
    }
}

/// Reading labels back from their wire bytes gives them again, followed by
/// whatever the bytes after them read as; those wire bytes hold no zero byte.
pub proof fn lemma_labels_wire(ls: Seq<Seq<char>>, tail: Seq<u8>)
    requires
        wire_safe_labels(ls),
    ensures
        buf_labels(labels_wire(ls) + tail) == ls + buf_labels(tail),
        forall|j: int| 0 <= j < labels_wire(ls).len() ==> labels_wire(ls)[j] != 0u8,
    decreases ls.len(),
{
    if ls.len() == 0 {
        assert(labels_wire(ls) + tail =~= tail);
        assert(ls + buf_labels(tail) =~= buf_labels(tail));
    } else {
        let rest = ls.drop_first();
        assert(wire_safe_labels(rest)) by {
            assert forall|k: int| 0 <= k < rest.len() implies {
                &&& (#[trigger] rest[k]).len() > 0
                &&& encode_utf8(rest[k]).len() <= 255
                &&& forall|i: int| 0 <= i < rest[k].len() ==> rest[k][i] != '\0'
            } by {
                assert(rest[k] == ls[k + 1]);
            }
        }
        lemma_labels_wire(rest, tail);
        assert(ls[0].len() > 0);
        lemma_encode_no_zero(ls[0]);
        let enc = encode_utf8(ls[0]);
        let w2 = labels_wire(rest);
        let n = enc.len() as u8;
        let w = labels_wire(ls);
        let b = w + tail;
        assert(w == seq![n] + enc + w2);
        assert(b =~= seq![n] + enc + (w2 + tail));
        assert(n as int == enc.len());
        assert(b.subrange(1, 1 + n as int) =~= enc);
        assert(b.skip(1 + n as int) =~= w2 + tail);
        assert(buf_labels(b) =~= seq![ls[0]] + (rest + buf_labels(tail)));
        assert(ls =~= seq![ls[0]] + rest);
        assert(buf_labels(b) =~= ls + buf_labels(tail));
        assert forall|j: int| 0 <= j < w.len() implies w[j] != 0u8 by {
            if j == 0 {
            } else if j < 1 + enc.len() {
                assert(w[j] == enc[j - 1]);
            } else {
                assert(w[j] == w2[j - 1 - enc.len()]);
            }
        }
    }
}

/// `split_on` always gives at least one piece.
pub proof fn lemma_split_on_nonempty(s: Seq<char>, x: char)
    ensures
        split_on(s, x).len() >= 1,
    decreases s.len(),
{
    match index_of(s, x) {
        None => {},
        Some(i) => {
            lemma_index_of(s, x);
            lemma_split_on_nonempty(s.skip(i + 1), x);
        },
    }
}

/// When no piece between dots is empty, the labels are exactly those pieces.
pub proof fn lemma_str_labels_split(s: Seq<char>)
    requires
        forall|k: int| 0 <= k < split_on(s, '.').len() ==> (#[trigger] split_on(s, '.')[k]).len() > 0,
    ensures
        str_labels(s) == split_on(s, '.'),
    decreases s.len(),
{
    lemma_index_of(s, '.');
    match index_of(s, '.') {
        None => {
            assert(split_on(s, '.')[0].len() > 0);
        },
        Some(i) => {
            let t = s.skip(i + 1);
            lemma_split_on_nonempty(t, '.');
            assert forall|k: int| 0 <= k < split_on(t, '.').len() implies (#[trigger] split_on(t, '.')[k]).len() > 0 by {
                assert(split_on(s, '.')[k + 1] == split_on(t, '.')[k]);
            }
            lemma_str_labels_split(t);
        },
    }
}

/// Joining the pieces between dots with dots gives the text back.
proof fn lemma_join_split(s: Seq<char>)
    ensures
        join_labels(split_on(s, '.')) == s,
    decreases s.len(),
{
    lemma_index_of(s, '.');
    match index_of(s, '.') {
        None => {},
        Some(i) => {
            let t = s.skip(i + 1);
            lemma_split_on_nonempty(t, '.');
            lemma_join_split(t);
            let ps = split_on(s, '.');
            assert(ps.drop_first() =~= split_on(t, '.'));
            assert(s =~= s.take(i) + seq!['.'] + t);
        },
    }
}

/// The labels of a checked name without NUL characters are safe to write,
/// and joined with dots they give the name back.
pub proof fn lemma_checked_labels(s: Seq<char>)
    requires
        check_domain_spec(s) is Ok,
        forall|i: int| 0 <= i < s.len() ==> s[i] != '\0',
    ensures
        wire_safe_labels(str_labels(s)),
        join_labels(str_labels(s)) == s,
{
    let ps = split_on(s, '.');
    lemma_check_pieces(ps);
    lemma_str_labels_split(s);
    lemma_join_split(s);
    let ls = str_labels(s);
    assert forall|k: int| 0 <= k < ls.len() implies {
        &&& (#[trigger] ls[k]).len() > 0
        &&& encode_utf8(ls[k]).len() <= 255
        &&& forall|i: int| 0 <= i < ls[k].len() ==> ls[k][i] != '\0'
    } by {
        lemma_split_piece_chars(s, '.', k);
    }
}

/// A checked name is written as wire bytes that read back as an equal name,
/// leaving exactly the bytes that followed; its text is the text it was made
/// from.
pub proof fn lemma_name_roundtrip(s: Seq<char>, rest: Seq<u8>)
    requires
        check_domain_spec(s) is Ok,
        forall|i: int| 0 <= i < s.len() ==> s[i] != '\0',
    ensures
        ({
            let bytes = labeled_wire(LabeledView::Stringed(s)) + rest;
            match parse_labeled_spec(bytes) {
                Ok((n, name)) => bytes.skip(n as int) == rest
                    && labeled_eq(LabeledView::Buffered(name), LabeledView::Stringed(s)),
                Err(_) => false,
            }
        }),
        join_labels(labels(LabeledView::Stringed(s))) == s,
{
    lemma_checked_labels(s);
    let ls = str_labels(s);
    lemma_labels_wire(ls, Seq::empty());
    assert(labels_wire(ls) + Seq::<u8>::empty() =~= labels_wire(ls));
    assert(ls + buf_labels(Seq::<u8>::empty()) =~= ls);
    let w = labels_wire(ls);
    let bytes = w + seq![0u8] + rest;
    assert(labeled_wire(LabeledView::Stringed(s)) + rest == bytes);
    assert forall|j: int| 0 <= j < w.len() implies bytes[j] != 0u8 by {
        assert(bytes[j] == w[j]);
    }
    assert(bytes[w.len() as int] == 0u8);
    lemma_index_of_at(bytes, 0u8, w.len() as int);
    assert(bytes.take(w.len() as int) =~= w);
    assert(bytes.skip(w.len() as int + 1) =~= rest);
}

/// Every character of a piece of `s` is a character of `s`.
pub proof fn lemma_split_piece_chars(s: Seq<char>, x: char, k: int)
    requires
        0 <= k < split_on(s, x).len(),
    ensures
        forall|i: int| 0 <= i < split_on(s, x)[k].len() ==> exists|j: int| 0 <= j < s.len() && s[j] == #[trigger] split_on(s, x)[k][i],
    decreases s.len(),
{
    lemma_index_of(s, x);
    match index_of(s, x) {
        None => {
            assert forall|i: int| 0 <= i < split_on(s, x)[k].len() implies exists|j: int| 0 <= j < s.len() && s[j] == #[trigger] split_on(s, x)[k][i] by {
                assert(s[i] == split_on(s, x)[k][i]);
            }
        },
        Some(p) => {
            let t = s.skip(p + 1);
            if k == 0 {
                assert forall|i: int| 0 <= i < split_on(s, x)[k].len() implies exists|j: int| 0 <= j < s.len() && s[j] == #[trigger] split_on(s, x)[k][i] by {
                    assert(s[i] == split_on(s, x)[k][i]);
                }
            } else {
                assert(split_on(s, x)[k] == split_on(t, x)[k - 1]);
                lemma_split_piece_chars(t, x, k - 1);
                assert forall|i: int| 0 <= i < split_on(s, x)[k].len() implies exists|j: int| 0 <= j < s.len() && s[j] == #[trigger] split_on(s, x)[k][i] by {
                    let c = split_on(t, x)[k - 1][i];
                    let j2 = choose|j2: int| 0 <= j2 < t.len() && t[j2] == #[trigger] split_on(t, x)[k - 1][i];
                    assert(s[p + 1 + j2] == t[j2]);
                }
            }
        },
    }
}

} // verus!
