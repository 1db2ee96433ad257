use vstd::prelude::*;

use crate::http::head::HttpRequest;
use crate::ip::{IpAddr, SocketAddr};
use crate::socks5::Address;

verus! {

/// What a client asked the proxy to do.
#[derive(Debug)]
pub enum ProxyRequest {
    /// Open a TCP connection to `dst`.
    TCP { dst: Address },
    /// Relay UDP, starting with `initial_data` to `initial_dst`.
    UDP { initial_dst: Address, initial_data: Vec<u8> },
    /// Resolve names.
    DNS { domains: Vec<String> },
    /// Forward a plain HTTP request to `dst`.
    HTTP { dst: Address, https: bool, req: HttpRequest },
}

/// How an upstream answered a proxy request.
#[derive(Debug)]
pub enum ProxyResult {
    /// Carried out; with the address bound for the client, and the names
    /// resolved on the way with their addresses.
    Granted { bound_address: Option<SocketAddr>, solved_addresses: Option<Vec<(String, Vec<IpAddr>)>> },
    /// The target's name does not resolve.
    ErrHostNotFound,
    /// The target did not answer in time.
    ErrTimeout,
    /// Another failure.
    ErrGeneric { msg: String },
}

/// What came of connecting to a target for a client.
#[derive(Debug)]
pub enum ConnectOutcome {
    /// Connected; with the local end of the connection when it is known.
    Connected(Option<SocketAddr>),
    /// No connection within the time allowed.
    TimedOut,
    /// The connection failed, for the reason given.
    Failed(String),
}

/// The answer a client gets for a connection to its target: granted with
/// the local end and no resolved names, a timeout, or the failure's reason.
pub fn connect_result(outcome: ConnectOutcome) -> (r: ProxyResult)
    ensures
        match outcome {
            ConnectOutcome::Connected(bound) => r matches ProxyResult::Granted { bound_address, solved_addresses }
                && bound_address == bound && solved_addresses is None,
            ConnectOutcome::TimedOut => r is ErrTimeout,
            ConnectOutcome::Failed(msg) => r matches ProxyResult::ErrGeneric { msg: m } && m@ == msg@,
        },
{
    match outcome {
        ConnectOutcome::Connected(bound) => ProxyResult::Granted { bound_address: bound, solved_addresses: None },
        ConnectOutcome::TimedOut => ProxyResult::ErrTimeout,
        ConnectOutcome::Failed(msg) => ProxyResult::ErrGeneric { msg },
    }
}


/// The texts of a list of strings.
pub open spec fn texts(v: Seq<String>) -> Seq<Seq<char>> {
    v.map_values(|s: String| s@)
}

/// The names to resolve for a request: each name once, in the order in which
/// it first comes.
pub fn unique_domains(domains: &Vec<String>) -> (r: Vec<String>)
    ensures
        texts(r@).no_duplicates(),
        forall|x: Seq<char>| texts(r@).contains(x) <==> texts(domains@).contains(x),
{
    let mut r: Vec<String> = Vec::new();
    let mut i: usize = 0;
    while i < domains.len()
        invariant
            i <= domains@.len(),
            texts(r@).no_duplicates(),
            forall|x: Seq<char>| texts(r@).contains(x) <==> texts(domains@.take(i as int)).contains(x),
        decreases domains.len() - i,
    {
        let d = &domains[i];
        let mut seen = false;
        let mut j: usize = 0;
        while j < r.len()
            invariant
                j <= r@.len(),
                seen <==> exists|k: int| 0 <= k < j && r@[k]@ == d@,
            decreases r.len() - j,
        {
            if crate::client::str_eq(r[j].as_str(), d.as_str()) {
                seen = true;
            }
            j = j + 1;
        }
        let ghost before = r@;
        proof {
            assert(domains@.take(i + 1) =~= domains@.take(i as int).push(*d));
            assert(texts(domains@.take(i + 1)) =~= texts(domains@.take(i as int)).push(d@));
        }
        if !seen {
            r.push(d.clone());
            proof {
                assert(texts(r@) =~= texts(before).push(d@));
                assert(!texts(before).contains(d@)) by {
                    if texts(before).contains(d@) {
                        let k = choose|k: int| 0 <= k < texts(before).len() && texts(before)[k] == d@;
                        assert(before[k]@ == d@);
                    }
                }
            }
        } else {
            proof {
                let k = choose|k: int| 0 <= k < before.len() && before[k]@ == d@;
                assert(texts(before)[k] == d@);
            }
        }
        proof {
            let a = texts(domains@.take(i as int));
            let b = texts(domains@.take(i + 1));
            assert forall|x: Seq<char>| texts(r@).contains(x) <==> b.contains(x) by {
                if b.contains(x) {
                    let k = choose|k: int| 0 <= k < b.len() && b[k] == x;
                    if k < a.len() {
                        assert(a[k] == x);
                        assert(a.contains(x));
                        assert(texts(before).contains(x));
                        let m = choose|m: int| 0 <= m < texts(before).len() && texts(before)[m] == x;
                        assert(texts(r@)[m] == x);
                    } else {
                        assert(x == d@);
                        if seen {
                            let m = choose|m: int| 0 <= m < before.len() && before[m]@ == d@;
                            assert(texts(r@)[m] == x);
                        } else {
                            assert(texts(r@)[texts(before).len() as int] == x);
                        }
                    }
                }
                if texts(r@).contains(x) {
                    let m = choose|m: int| 0 <= m < texts(r@).len() && texts(r@)[m] == x;
                    if m < texts(before).len() {
                        assert(texts(before)[m] == x);
                        assert(texts(before).contains(x));
                        assert(a.contains(x));
                        let k = choose|k: int| 0 <= k < a.len() && a[k] == x;
                        assert(b[k] == x);
                    } else {
                        assert(x == d@);
                        assert(b[a.len() as int] == x);
                    }
                }
            }
        }
        i = i + 1;
    }
    proof { assert(domains@.take(domains@.len() as int) =~= domains@); }
    r
}

/// The answer to a request to resolve names: granted, with each name and the
/// addresses it resolved to, and no bound address.
pub fn resolved_result(resolved: Vec<(String, Vec<IpAddr>)>) -> (r: ProxyResult)
    ensures
        r matches ProxyResult::Granted { bound_address, solved_addresses } && bound_address is None
            && solved_addresses == Some(resolved),
{
    ProxyResult::Granted { bound_address: None, solved_addresses: Some(resolved) }
}

} // verus!
