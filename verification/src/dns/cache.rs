use vstd::prelude::*;

use crate::ip::IpAddr;

verus! {

/// A store of resolved names; it holds nothing yet, so every lookup misses.
#[derive(Default)]
pub struct DnsResultCache {}

impl DnsResultCache {
    /// The name an address was resolved from.
    pub fn find_domain(&self, _addr: IpAddr) -> (r: Option<String>)
        ensures
            r.is_none(),
    {
        None
    }

    /// The address a name was resolved to.
    pub fn find_ip(&self, _domain: &str) -> (r: Option<IpAddr>)
        ensures
            r.is_none(),
    {
        None
    }

    /// Records the addresses a name resolved to; the store keeps nothing.
    pub fn cache(&self, _domain: &str, _ips: Vec<IpAddr>) {
    }
}

} // verus!
