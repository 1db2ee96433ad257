//! The parameters of an enciphered connection written as a request path:
//! `/key/nonce/send/receive/type`, key and nonce in URL-safe base64 without
//! padding, the two strategies as text and the cipher's type number in decimal.
use vstd::prelude::*;

use crate::cipher::client::CipherParams;
use crate::cipher::strategy::EncryptionStrategy;
use crate::dns::labeled::chars_eq;
use crate::text::{
    chars_to_string, dec, dec_chars, lemma_dec, lemma_parse_dec, lemma_split_on_join, lemma_split_on_single,
    parse_uint, parse_uint_spec, split_chars, split_on, str_chars, is_digit,
};

verus! {

/// The character for a 6-bit value in the URL-safe base64 alphabet: `A`-`Z`,
/// `a`-`z`, `0`-`9`, then `-` and `_`.
pub open spec fn b64_url_char(v: int) -> char {
    if v < 26 {
        (65 + v) as char
    } else if v < 52 {
        (97 + (v - 26)) as char
    } else if v < 62 {
        (48 + (v - 52)) as char
    } else if v == 62 {
        '-'
    } else {
        '_'
    }
}

/// The URL-safe base64 text of bytes without padding: each three bytes give
/// four characters of six bits each, high bits first; one byte left over gives
/// two characters, two bytes give three, the missing low bits being zero.
pub open spec fn base64_url_no_pad(d: Seq<u8>) -> Seq<char>
    decreases d.len(),
{
    if d.len() == 0 {
        Seq::empty()
    } else if d.len() == 1 {
        seq![b64_url_char(d[0] as int / 4), b64_url_char((d[0] as int % 4) * 16)]
    } else if d.len() == 2 {
        seq![
            b64_url_char(d[0] as int / 4),
            b64_url_char((d[0] as int % 4) * 16 + d[1] as int / 16),
            b64_url_char((d[1] as int % 16) * 4),
        ]
    } else {
        seq![
            b64_url_char(d[0] as int / 4),
            b64_url_char((d[0] as int % 4) * 16 + d[1] as int / 16),
            b64_url_char((d[1] as int % 16) * 4 + d[2] as int / 64),
            b64_url_char(d[2] as int % 64),
        ] + base64_url_no_pad(d.skip(3))
    }
}

/// base64's `encode_config` with the URL-safe alphabet and no padding
/// (`URL_SAFE_NO_PAD`). Claimed, as the crate documents it (RFC 4648's
/// URL-safe alphabet, padding left out): the text is [`base64_url_no_pad`] of
/// the bytes. The crate's check that the text's length fits in `usize` cannot
/// fail for a slice, which holds at most `isize::MAX` bytes.
#[verifier::external_body]
pub(crate) fn encode_base64_url(data: &[u8]) -> (r: String)
    ensures
        r@ == base64_url_no_pad(data@),
{
    base64::encode_config(data, base64::URL_SAFE_NO_PAD)
}

/// What base64's `decode_config` with the URL-safe alphabet and no padding
/// (`URL_SAFE_NO_PAD`) makes of a text: the bytes it stands for, or `None`
/// when it is no such text.
pub uninterp spec fn base64_url_decode(text: Seq<char>) -> Option<Seq<u8>>;

/// base64's `decode_config` with `URL_SAFE_NO_PAD`. Claimed: the result is a
/// function of the text alone, and the text that [`encode_base64_url`] writes
/// for some bytes reads back as those bytes (the crate's round-trip tests
/// encode and decode with each configuration). Which other texts read, and as
/// what, is left unsaid. The crate's check that the length plus 3 fits in
/// `usize` cannot fail for a `str`, which holds at most `isize::MAX` bytes.
#[verifier::external_body]
pub(crate) fn decode_base64_url(text: &str) -> (r: Option<Vec<u8>>)
    ensures
        match r {
            Some(v) => base64_url_decode(text@) == Some(v@) && forall|d: Seq<u8>|
                #[trigger] base64_url_no_pad(d) == text@ ==> v@ == d,
            None => base64_url_decode(text@) is None && forall|d: Seq<u8>|
                #[trigger] base64_url_no_pad(d) != text@,
        },
{
    base64::decode_config(text, base64::URL_SAFE_NO_PAD).ok()
}

/// The text of a strategy in a request path: `always`, `never`, or the number
/// of first bytes that are enciphered, in decimal.
pub open spec fn strategy_text(s: EncryptionStrategy) -> Seq<char> {
    match s {
        EncryptionStrategy::Always => "always"@,
        EncryptionStrategy::Never => "never"@,
        EncryptionStrategy::FirstN(n) => dec(n as nat),
    }
}

/// The strategy a text stands for (see [`strategy_text`]); a number of first
/// bytes is read as std reads an unsigned integer, and must be above zero and
/// fit in an `isize`.
pub open spec fn parse_strategy_spec(t: Seq<char>) -> Option<EncryptionStrategy> {
    if t == "always"@ {
        Some(EncryptionStrategy::Always)
    } else if t == "never"@ {
        Some(EncryptionStrategy::Never)
    } else {
        match parse_uint_spec(t, isize::MAX as nat) {
            Some(n) => if n > 0 {
                Some(EncryptionStrategy::FirstN(n as usize))
            } else {
                None
            },
            None => None,
        }
    }
}

impl EncryptionStrategy {
    /// The strategy's text (see [`strategy_text`]).
    pub fn to_text(&self) -> (r: String)
        ensures
            r@ == strategy_text(*self),
    {
        match self {
            EncryptionStrategy::Always => "always".to_owned(),
            EncryptionStrategy::Never => "never".to_owned(),
            EncryptionStrategy::FirstN(n) => {
                let d = dec_chars(*n as u64);
                chars_to_string(d.as_slice())
            },
        }
    }

    /// The strategy a text stands for (see [`parse_strategy_spec`]).
    pub fn parse(t: &[char]) -> (r: Option<EncryptionStrategy>)
        ensures
            r == parse_strategy_spec(t@),
            r matches Some(s) ==> s.valid(),
    {
        let always = str_chars("always");
        let never = str_chars("never");
        if chars_eq(t, always.as_slice()) {
            return Some(EncryptionStrategy::Always);
        }
        if chars_eq(t, never.as_slice()) {
            return Some(EncryptionStrategy::Never);
        }
        match parse_uint(t, isize::MAX as u64) {
            Some(n) => {
                if n > 0 {
                    Some(EncryptionStrategy::FirstN(n as usize))
                } else {
                    None
                }
            },
            None => None,
        }
    }
}

/// A strategy's text reads back as the strategy, when it can be used.
pub proof fn lemma_strategy_text_roundtrip(s: EncryptionStrategy)
    requires
        s.valid(),
    ensures
        parse_strategy_spec(strategy_text(s)) == Some(s),
{
    reveal_strlit("always");
    reveal_strlit("never");
    match s {
        EncryptionStrategy::FirstN(n) => {
            lemma_dec(n as nat);
            lemma_parse_dec(n as nat, isize::MAX as nat);
            assert(is_digit(dec(n as nat)[0]));
            assert(dec(n as nat) != "always"@);
            assert(dec(n as nat) != "never"@);
        },
        _ => {},
    }
}

/// Whether a text holds no `/`.
pub open spec fn no_slash(t: Seq<char>) -> bool {
    forall|j: int| 0 <= j < t.len() ==> t[j] != '/'
}

/// URL-safe base64 holds no `/`.
pub proof fn lemma_base64_url_no_slash(d: Seq<u8>)
    ensures
        no_slash(base64_url_no_pad(d)),
    decreases d.len(),
{
    let t = base64_url_no_pad(d);
    if d.len() >= 3 {
        lemma_base64_url_no_slash(d.skip(3));
    }
    assert forall|j: int| 0 <= j < t.len() implies t[j] != '/' by {
        if d.len() >= 3 && j >= 4 {
            assert(t[j] == base64_url_no_pad(d.skip(3))[j - 4]);
        }
    }
}

/// A strategy's text holds no `/`.
pub proof fn lemma_strategy_no_slash(s: EncryptionStrategy)
    ensures
        no_slash(strategy_text(s)),
{
    reveal_strlit("always");
    reveal_strlit("never");
    match s {
        EncryptionStrategy::FirstN(n) => {
            lemma_dec(n as nat);
            assert forall|j: int| 0 <= j < dec(n as nat).len() implies dec(n as nat)[j] != '/' by {
                assert(is_digit(dec(n as nat)[j]));
            }
        },
        _ => {},
    }
}

/// A decimal number holds no `/`.
pub proof fn lemma_dec_no_slash(n: nat)
    ensures
        no_slash(dec(n)),
{
    lemma_dec(n);
    assert forall|j: int| 0 <= j < dec(n).len() implies dec(n)[j] != '/' by {
        assert(is_digit(dec(n)[j]));
    }
}

/// The parameters of an enciphered connection as values.
pub struct CipherParamsView {
    pub key: Seq<u8>,
    pub iv: Seq<u8>,
    pub send_strategy: EncryptionStrategy,
    pub recv_strategy: EncryptionStrategy,
    pub cipher_type: u8,
}

impl View for CipherParams {
    type V = CipherParamsView;

    open spec fn view(&self) -> CipherParamsView {
        CipherParamsView {
            key: self.key@,
            iv: self.iv@,
            send_strategy: self.send_strategy,
            recv_strategy: self.recv_strategy,
            cipher_type: self.cipher_type,
        }
    }
}

/// The request path for some parameters:
/// `/key/nonce/send/receive/type`.
pub open spec fn params_text(p: CipherParamsView) -> Seq<char> {
    seq!['/'] + base64_url_no_pad(p.key) + seq!['/'] + base64_url_no_pad(p.iv) + seq!['/'] + strategy_text(
        p.send_strategy,
    ) + seq!['/'] + strategy_text(p.recv_strategy) + seq!['/'] + dec(p.cipher_type as nat)
}

/// Why a request path holds no parameters.
#[derive(Debug, Clone, Copy, PartialEq, Eq, Structural)]
pub enum ParamsError {
    /// Fewer than five pieces follow the first `/`.
    MissingPart,
    /// The key is not in URL-safe base64.
    InvalidKey,
    /// The nonce is not in URL-safe base64.
    InvalidIv,
    /// The sending strategy has no meaning.
    InvalidSendStrategy,
    /// The receiving strategy has no meaning.
    InvalidRecvStrategy,
    /// The cipher type is no number from 0 to 255.
    InvalidCipherType,
}

/// The parameters a request path stands for: its pieces between `/` are
/// read from the second on (anything before the first `/` is skipped, pieces
/// after the sixth are ignored), and the first piece that does not read gives
/// the error.
pub open spec fn params_parse_spec(s: Seq<char>) -> Result<CipherParamsView, ParamsError> {
    let p = split_on(s, '/');
    if p.len() < 6 {
        Err(ParamsError::MissingPart)
    } else {
        match base64_url_decode(p[1]) {
            None => Err(ParamsError::InvalidKey),
            Some(key) => match base64_url_decode(p[2]) {
                None => Err(ParamsError::InvalidIv),
                Some(iv) => match parse_strategy_spec(p[3]) {
                    None => Err(ParamsError::InvalidSendStrategy),
                    Some(a) => match parse_strategy_spec(p[4]) {
                        None => Err(ParamsError::InvalidRecvStrategy),
                        Some(b) => match parse_uint_spec(p[5], 255) {
                            None => Err(ParamsError::InvalidCipherType),
                            Some(t) => Ok(
                                CipherParamsView { key, iv, send_strategy: a, recv_strategy: b, cipher_type: t as u8 },
                            ),
                        },
                    },
                },
            },
        }
    }
}

/// A strategy read from text can be used.
pub proof fn lemma_parsed_strategy_valid(t: Seq<char>)
    ensures
        parse_strategy_spec(t) matches Some(s) ==> s.valid(),
{
}

/// The strategies read from a request path can be used.
pub proof fn lemma_parsed_strategies_valid(s: Seq<char>)
    ensures
        params_parse_spec(s) matches Ok(p) ==> p.send_strategy.valid() && p.recv_strategy.valid(),
{
    let p = split_on(s, '/');
    if p.len() >= 6 {
        lemma_parsed_strategy_valid(p[3]);
        lemma_parsed_strategy_valid(p[4]);
    }
}

/// The path for some parameters splits at `/` into an empty piece and the
/// five texts it was made of.
pub proof fn lemma_params_text_pieces(p: CipherParamsView)
    ensures
        split_on(params_text(p), '/') == seq![
            Seq::<char>::empty(),
            base64_url_no_pad(p.key),
            base64_url_no_pad(p.iv),
            strategy_text(p.send_strategy),
            strategy_text(p.recv_strategy),
            dec(p.cipher_type as nat),
        ],
{
    let a = base64_url_no_pad(p.key);
    let b = base64_url_no_pad(p.iv);
    let c = strategy_text(p.send_strategy);
    let d = strategy_text(p.recv_strategy);
    let e = dec(p.cipher_type as nat);
    lemma_base64_url_no_slash(p.key);
    lemma_base64_url_no_slash(p.iv);
    lemma_strategy_no_slash(p.send_strategy);
    lemma_strategy_no_slash(p.recv_strategy);
    lemma_dec_no_slash(p.cipher_type as nat);
    let sl = seq!['/'];
    let r4 = d + sl + e;
    let r3 = c + sl + r4;
    let r2 = b + sl + r3;
    let r1 = a + sl + r2;
    let empty = Seq::<char>::empty();
    assert(params_text(p) =~= empty + sl + r1);
    lemma_split_on_join(empty, '/', r1);
    lemma_split_on_join(a, '/', r2);
    lemma_split_on_join(b, '/', r3);
    lemma_split_on_join(c, '/', r4);
    lemma_split_on_join(d, '/', e);
    lemma_split_on_single(e, '/');
    assert(split_on(params_text(p), '/') =~= seq![empty, a, b, c, d, e]);
}

impl CipherParams {
    /// The request path for these parameters (see [`params_text`]).
    pub fn to_text(&self) -> (r: String)
        ensures
            r@ == params_text(self@),
    {
        let mut out: Vec<char> = Vec::new();
        out.push('/');
        let key = encode_base64_url(self.key.as_slice());
        crate::http::push_chars(&mut out, str_chars(key.as_str()).as_slice());
        out.push('/');
        let iv = encode_base64_url(self.iv.as_slice());
        crate::http::push_chars(&mut out, str_chars(iv.as_str()).as_slice());
        out.push('/');
        let send = self.send_strategy.to_text();
        crate::http::push_chars(&mut out, str_chars(send.as_str()).as_slice());
        out.push('/');
        let recv = self.recv_strategy.to_text();
        crate::http::push_chars(&mut out, str_chars(recv.as_str()).as_slice());
        out.push('/');
        crate::http::push_chars(&mut out, dec_chars(self.cipher_type as u64).as_slice());
        proof { assert(out@ =~= params_text(self@)); }
        chars_to_string(out.as_slice())
    }

    /// The parameters a request path stands for (see [`params_parse_spec`]).
    /// The path written for parameters whose strategies can be used reads
    /// back as those parameters.
    pub fn from_str(s: &str) -> (r: Result<CipherParams, ParamsError>)
        ensures
            match params_parse_spec(s@) {
                Ok(v) => r matches Ok(p) && p@ == v,
                Err(e) => r matches Err(x) && x == e,
            },
            forall|p: CipherParamsView|
                p.send_strategy.valid() && p.recv_strategy.valid() && #[trigger] params_text(p) == s@ ==> (r matches Ok(
                    q,
                ) && q@ == p),
    {
        let chars = str_chars(s);
        let pieces = split_chars(chars.as_slice(), '/');
        let ghost sp = split_on(s@, '/');
        if pieces.len() < 6 {
            proof {
                assert forall|p: CipherParamsView|
                    p.send_strategy.valid() && p.recv_strategy.valid() && #[trigger] params_text(p) == s@ implies false by {
                    lemma_params_text_pieces(p);
                }
            }
            return Err(ParamsError::MissingPart);
        }
        let key_text = chars_to_string(pieces[1].as_slice());
        let iv_text = chars_to_string(pieces[2].as_slice());
        let key = decode_base64_url(key_text.as_str());
        let iv = decode_base64_url(iv_text.as_str());
        let send = EncryptionStrategy::parse(pieces[3].as_slice());
        let recv = EncryptionStrategy::parse(pieces[4].as_slice());
        let ty = parse_uint(pieces[5].as_slice(), 255);
        proof {
            assert(pieces@[1]@ == sp[1] && pieces@[2]@ == sp[2] && pieces@[3]@ == sp[3]);
            assert(pieces@[4]@ == sp[4] && pieces@[5]@ == sp[5]);
            assert forall|p: CipherParamsView|
                p.send_strategy.valid() && p.recv_strategy.valid() && #[trigger] params_text(p) == s@ implies (
                (key matches Some(k) && k@ == p.key) && (iv matches Some(v) && v@ == p.iv) && send == Some(
                    p.send_strategy,
                ) && recv == Some(p.recv_strategy) && ty == Some(p.cipher_type as u64)) by {
                lemma_params_text_pieces(p);
                assert(key_text@ == base64_url_no_pad(p.key));
                assert(iv_text@ == base64_url_no_pad(p.iv));
                lemma_strategy_text_roundtrip(p.send_strategy);
                lemma_strategy_text_roundtrip(p.recv_strategy);
                lemma_parse_dec(p.cipher_type as nat, 255);
            }
        }
        match key {
            None => Err(ParamsError::InvalidKey),
            Some(k) => match iv {
                None => Err(ParamsError::InvalidIv),
                Some(v) => match send {
                    None => Err(ParamsError::InvalidSendStrategy),
                    Some(a) => match recv {
                        None => Err(ParamsError::InvalidRecvStrategy),
                        Some(b) => match ty {
                            None => Err(ParamsError::InvalidCipherType),
                            Some(t) => Ok(
                                CipherParams { key: k, iv: v, send_strategy: a, recv_strategy: b, cipher_type: t as u8 },
                            ),
                        },
                    },
                },
            },
        }
    }
}

} // verus!
