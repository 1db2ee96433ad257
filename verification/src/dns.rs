use vstd::prelude::*;

pub mod answer;
pub mod cache;
pub mod direct;
pub mod labeled;
pub mod message;
pub mod question;
pub mod req;

pub use cache::DnsResultCache;

verus! {

/// Why a DNS message or name could not be read or written.
#[derive(Debug, Clone, Copy, PartialEq, Eq, Structural)]
pub enum DnsError {
    /// A name with an empty label.
    EmptyLabel,
    /// A label longer than 255 bytes.
    LabelTooLong,
    /// No zero byte ends the name.
    NoNameTerminator,
    /// Fewer than twelve bytes of header.
    InvalidHeaderLength,
    /// The message ends inside a question.
    InsufficientQuestion,
    /// The message ends inside an answer name.
    InsufficientAnswerName,
    /// The message ends inside an answer.
    InsufficientAnswer,
    /// The message ends inside an answer's record data.
    InsufficientRecord,
    /// A time to live beyond 32 bits.
    ExcessiveTtl,
    /// Record data beyond 65535 bytes.
    RecordTooBig,
}

} // verus!
