use vstd::prelude::*;

use crate::bytes::{be16_value, get_u16};
use crate::dns::DnsError;

verus! {

/// The id of a DNS message: its first two bytes, big-endian; by it an answer
/// finds the query it belongs to.
pub fn parse_id(buf: &[u8]) -> (r: Result<u16, DnsError>)
    ensures
        buf@.len() < 2 ==> r == Err::<u16, DnsError>(DnsError::InvalidHeaderLength),
        buf@.len() >= 2 ==> r == Ok::<u16, DnsError>(be16_value(buf@[0], buf@[1])),
{
    if buf.len() < 2 {
        return Err(DnsError::InvalidHeaderLength);
    }
    Ok(get_u16(buf, 0))
}

} // verus!
