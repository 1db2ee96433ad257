use vstd::prelude::*;

use vstd::utf8::encode_utf8;

use crate::text::{lossy_string, utf8_lossy};

verus! {

/// A two-letter country code, as two non-zero bytes.
#[derive(Debug, Clone, Copy, Hash)]
pub struct CountryCode([u8; 2]);

/// Why text is not a country code.
#[derive(Debug, Clone, Copy, PartialEq, Eq, Structural)]
pub enum CountryCodeError {
    /// The text is not two bytes long.
    WrongLength,
    /// A byte is zero.
    ZeroByte,
}

/// Byte `b` with an ASCII capital lower-cased.
pub open spec fn lower_byte(b: u8) -> u8 {
    if 65 <= b <= 90 { (b + 32) as u8 } else { b }
}

/// Two byte strings equal up to ASCII case.
pub open spec fn bytes_eq_ignore_case(a: Seq<u8>, b: Seq<u8>) -> bool {
    a.len() == b.len() && forall|i: int| 0 <= i < a.len() ==> lower_byte(#[trigger] a[i]) == lower_byte(b[i])
}

/// What reading a country code from text gives.
pub open spec fn parse_country_code_spec(b: Seq<u8>) -> Result<Seq<u8>, CountryCodeError> {
    if b.len() != 2 {
        Err(CountryCodeError::WrongLength)
    } else if b[0] == 0 || b[1] == 0 {
        Err(CountryCodeError::ZeroByte)
    } else {
        Ok(b)
    }
}

/// The character of a byte, as `char::from(u8)` gives it.
pub open spec fn byte_char(b: u8) -> char {
    (b as u32) as char
}

impl CountryCode {
    /// The two bytes of the code.
    pub closed spec fn bytes(&self) -> Seq<u8> {
        self.0@
    }

    /// Neither byte is zero.
    pub closed spec fn wf(&self) -> bool {
        self.0[0] != 0 && self.0[1] != 0
    }

    /// The code from two non-zero bytes.
    pub fn new(a: u8, b: u8) -> (r: CountryCode)
        requires
            a != 0,
            b != 0,
        ensures
            r.wf(),
            r.bytes() == seq![a, b],
    {
        let c = CountryCode([a, b]);
        proof { assert(c.0@ =~= seq![a, b]); }
        c
    }

    /// The two bytes of the code.
    pub fn as_slice(&self) -> (r: &[u8])
        ensures
            r@ == self.bytes(),
    {
        self.0.as_slice()
    }

    /// The code as text; bytes that are not UTF-8 are replaced.
    pub fn as_str(&self) -> (r: String)
        ensures
            r@ == utf8_lossy(self.bytes()),
    {
        lossy_string(self.0.as_slice())
    }

    /// The code as `Display` writes it: each byte as the character of that
    /// number.
    pub fn to_text(&self) -> (r: String)
        ensures
            r@ == seq![byte_char(self.bytes()[0]), byte_char(self.bytes()[1])],
    {
        let mut s = String::new();
        crate::text::string_push(&mut s, self.0[0] as char);
        crate::text::string_push(&mut s, self.0[1] as char);
        proof { assert(s@ =~= seq![byte_char(self.bytes()[0]), byte_char(self.bytes()[1])]); }
        s
    }

    /// Reads a code from text: exactly two bytes, neither zero.
    pub fn from_str(s: &str) -> (r: Result<CountryCode, CountryCodeError>)
        ensures
            match parse_country_code_spec(encode_utf8(s@)) {
                Ok(b) => r matches Ok(c) && c.wf() && c.bytes() == b,
                Err(e) => r matches Err(x) && x == e,
            },
    {
        let b = s.as_bytes();
        if b.len() != 2 {
            return Err(CountryCodeError::WrongLength);
        }
        if b[0] == 0 || b[1] == 0 {
            return Err(CountryCodeError::ZeroByte);
        }
        let c = CountryCode([b[0], b[1]]);
        proof { assert(c.0@ =~= b@); }
        Ok(c)
    }

    /// Whether two codes are equal up to ASCII case.
    pub fn same_as(&self, other: &CountryCode) -> (r: bool)
        ensures
            r == bytes_eq_ignore_case(self.bytes(), other.bytes()),
    {
        bytes_eq_ignore_case_exec(self.0.as_slice(), other.0.as_slice())
    }

    /// Whether the code equals text, up to ASCII case.
    pub fn eq_str(&self, other: &str) -> (r: bool)
        ensures
            r == bytes_eq_ignore_case(encode_utf8(other@), self.bytes()),
    {
        bytes_eq_ignore_case_exec(other.as_bytes(), self.0.as_slice())
    }
}

/// A byte with an ASCII capital lower-cased.
fn to_lower_byte(b: u8) -> (r: u8)
    ensures
        r == lower_byte(b),
{
    if 65 <= b && b <= 90 { b + 32 } else { b }
}

/// Compares two byte strings up to ASCII case (std's `eq_ignore_ascii_case`).
fn bytes_eq_ignore_case_exec(a: &[u8], b: &[u8]) -> (r: bool)
    ensures
        r == bytes_eq_ignore_case(a@, b@),
{
    if a.len() != b.len() {
        return false;
    }
    let mut i: usize = 0;
    while i < a.len()
        invariant
            a@.len() == b@.len(),
            i <= a@.len(),
            forall|k: int| 0 <= k < i ==> lower_byte(#[trigger] a@[k]) == lower_byte(b@[k]),
        decreases a.len() - i,
    {
        if to_lower_byte(a[i]) != to_lower_byte(b[i]) {
            return false;
        }
        i = i + 1;
    }
    true
}

impl PartialEq for CountryCode {
    fn eq(&self, other: &Self) -> (r: bool) {
        self.same_as(other)
    }
}

impl vstd::std_specs::cmp::PartialEqSpecImpl for CountryCode {
    open spec fn obeys_eq_spec() -> bool {
        true
    }

    open spec fn eq_spec(&self, other: &Self) -> bool {
        bytes_eq_ignore_case(self.bytes(), other.bytes())
    }
}

} // verus!
