use vstd::prelude::*;

use crate::config::ClientConfig;
use crate::counter::Counter;
use crate::ip::SocketAddr;
use crate::proxy::{ProxyRequest, ProxyResult};
use crate::text::str_chars;

verus! {

/// Traffic and activity of one upstream.
#[derive(Debug, Default)]
pub struct UpstreamStatistics {
    pub tx: Counter,
    pub rx: Counter,
    pub last_activity: Counter,
    pub last_latency: Counter,
}

/// The statistics of each upstream, by name.
#[derive(Debug, Default)]
pub struct ClientStatistics {
    pub upstreams: Vec<(String, UpstreamStatistics)>,
}

/// The index of the first entry named `n`.
pub open spec fn find_named<T>(entries: Seq<(String, T)>, n: Seq<char>) -> Option<int>
    decreases entries.len(),
{
    if entries.len() == 0 {
        None
    } else if entries[0].0@ == n {
        Some(0)
    } else {
        match find_named(entries.drop_first(), n) {
            Some(i) => Some(i + 1),
            None => None,
        }
    }
}

/// What `find_named` gives: an entry with that name before which none has it.
pub proof fn lemma_find_named<T>(entries: Seq<(String, T)>, n: Seq<char>)
    ensures
        match find_named(entries, n) {
            Some(i) => 0 <= i < entries.len() && entries[i].0@ == n
                && forall|j: int| 0 <= j < i ==> (#[trigger] entries[j]).0@ != n,
            None => forall|j: int| 0 <= j < entries.len() ==> (#[trigger] entries[j]).0@ != n,
        },
    decreases entries.len(),
{
    if entries.len() > 0 && entries[0].0@ != n {
        lemma_find_named(entries.drop_first(), n);
        match find_named(entries.drop_first(), n) {
            Some(i) => {
                assert forall|j: int| 0 <= j < i + 1 implies (#[trigger] entries[j]).0@ != n by {
                    if j > 0 { assert(entries[j] == entries.drop_first()[j - 1]); }
                }
            },
            None => {
                assert forall|j: int| 0 <= j < entries.len() implies (#[trigger] entries[j]).0@ != n by {
                    if j > 0 { assert(entries[j] == entries.drop_first()[j - 1]); }
                }
            },
        }
    }
}

/// Whether two texts are equal.
pub fn str_eq(a: &str, b: &str) -> (r: bool)
    ensures
        r == (a@ == b@),
{
    let x = str_chars(a);
    let y = str_chars(b);
    crate::dns::labeled::chars_eq(x.as_slice(), y.as_slice())
}

/// The index of the first entry named `n`.
pub fn find_entry<T>(entries: &Vec<(String, T)>, n: &str) -> (r: Option<usize>)
    ensures
        r is None <==> find_named(entries@, n@) is None,
        r matches Some(i) ==> find_named(entries@, n@) == Some(i as int) && i < entries@.len(),
{
    proof { lemma_find_named(entries@, n@); }
    let mut i: usize = 0;
    while i < entries.len()
        invariant
            i <= entries@.len(),
            forall|j: int| 0 <= j < i ==> (#[trigger] entries@[j]).0@ != n@,
            match find_named(entries@, n@) {
                Some(k) => 0 <= k < entries@.len() && entries@[k].0@ == n@
                    && forall|j: int| 0 <= j < k ==> (#[trigger] entries@[j]).0@ != n@,
                None => forall|j: int| 0 <= j < entries@.len() ==> (#[trigger] entries@[j]).0@ != n@,
            },
        decreases entries.len() - i,
    {
        if str_eq(entries[i].0.as_str(), n) {
            return Some(i);
        }
        i = i + 1;
    }
    None
}

impl ClientStatistics {
    /// Empty statistics for each upstream of a configuration, in its order.
    pub fn new(c: &ClientConfig) -> (r: Self)
        ensures
            r.upstreams@.len() == c.upstreams@.len(),
            forall|i: int| 0 <= i < r.upstreams@.len() ==> {
                &&& (#[trigger] r.upstreams@[i]).0@ == c.upstreams@[i].0@
                &&& r.upstreams@[i].1.tx.value() == 0
                &&& r.upstreams@[i].1.rx.value() == 0
                &&& r.upstreams@[i].1.last_activity.value() == 0
                &&& r.upstreams@[i].1.last_latency.value() == 0
            },
    {
        let mut ups: Vec<(String, UpstreamStatistics)> = Vec::new();
        let mut i: usize = 0;
        while i < c.upstreams.len()
            invariant
                i <= c.upstreams@.len(),
                ups@.len() == i,
                forall|k: int| 0 <= k < i ==> {
                    &&& (#[trigger] ups@[k]).0@ == c.upstreams@[k].0@
                    &&& ups@[k].1.tx.value() == 0
                    &&& ups@[k].1.rx.value() == 0
                    &&& ups@[k].1.last_activity.value() == 0
                    &&& ups@[k].1.last_latency.value() == 0
                },
            decreases c.upstreams.len() - i,
        {
            let name = c.upstreams[i].0.clone();
            let stats = UpstreamStatistics {
                tx: Counter::new(0),
                rx: Counter::new(0),
                last_activity: Counter::new(0),
                last_latency: Counter::new(0),
            };
            ups.push((name, stats));
            i = i + 1;
        }
        ClientStatistics { upstreams: ups }
    }

    /// Records a use of the upstream `name`: when it was last active, in
    /// seconds since the epoch, and its latency in milliseconds. Unknown names
    /// are ignored.
    pub fn update_upstream(&mut self, name: &str, now_secs: u64, latency_millis: u128)
        ensures
            final(self).upstreams@.len() == old(self).upstreams@.len(),
            match find_named(old(self).upstreams@, name@) {
                Some(i) => {
                    &&& final(self).upstreams@[i].0 == old(self).upstreams@[i].0
                    &&& final(self).upstreams@[i].1.tx == old(self).upstreams@[i].1.tx
                    &&& final(self).upstreams@[i].1.rx == old(self).upstreams@[i].1.rx
                    &&& final(self).upstreams@[i].1.last_activity.value() == now_secs as usize
                    &&& final(self).upstreams@[i].1.last_latency.value() == latency_millis as usize
                    &&& forall|j: int| 0 <= j < old(self).upstreams@.len() && j != i
                        ==> final(self).upstreams@[j] == old(self).upstreams@[j]
                },
                None => final(self).upstreams@ == old(self).upstreams@,
            },
    {
        match find_entry(&self.upstreams, name) {
            Some(i) => {
                let (n, mut s) = self.upstreams.remove(i);
                s.last_activity.set(#[verifier::truncate] (now_secs as usize));
                s.last_latency.set(#[verifier::truncate] (latency_millis as usize));
                self.upstreams.insert(i, (n, s));
            },
            None => {},
        }
    }
}

/// Whether no two entries share a name.
pub open spec fn names_unique<T>(v: Seq<(String, T)>) -> bool {
    forall|i: int, j: int| 0 <= i < j < v.len() ==> (#[trigger] v[i]).0@ != (#[trigger] v[j]).0@
}

/// Whether some entry has the name `k`.
pub open spec fn has_name<T>(v: Seq<(String, T)>, k: Seq<char>) -> bool {
    exists|i: int| 0 <= i < v.len() && (#[trigger] v[i]).0@ == k
}

/// The entries as a map from name to value.
pub open spec fn entry_map<T>(v: Seq<(String, T)>) -> Map<Seq<char>, T> {
    Map::new(
        |k: Seq<char>| has_name(v, k),
        |k: Seq<char>| v[choose|i: int| 0 <= i < v.len() && (#[trigger] v[i]).0@ == k].1,
    )
}

/// With unique names, the map holds each entry's value under its name.
pub proof fn lemma_entry_map_index<T>(v: Seq<(String, T)>, i: int)
    requires
        names_unique(v),
        0 <= i < v.len(),
    ensures
        entry_map(v).contains_key(v[i].0@),
        entry_map(v)[v[i].0@] == v[i].1,
{
    let k = v[i].0@;
    assert(has_name(v, k));
    let j = choose|j: int| 0 <= j < v.len() && (#[trigger] v[j]).0@ == k;
    if j != i {
        if j < i {
            assert(v[j].0@ != v[i].0@);
        } else {
            assert(v[i].0@ != v[j].0@);
        }
    }
}

/// Removes the entry named `name`, if there is one, and gives its value.
pub fn remove_named<T>(v: &mut Vec<(String, T)>, name: &str) -> (r: Option<T>)
    requires
        names_unique(old(v)@),
    ensures
        names_unique(final(v)@),
        entry_map(final(v)@) == entry_map(old(v)@).remove(name@),
        match r {
            Some(x) => entry_map(old(v)@).contains_key(name@) && x == entry_map(old(v)@)[name@],
            None => !entry_map(old(v)@).contains_key(name@),
        },
{
    proof { lemma_find_named(v@, name@); }
    match find_entry(v, name) {
        None => {
            proof {
                assert(!has_name(v@, name@));
                assert(entry_map(v@) =~= entry_map(v@).remove(name@));
            }
            None
        },
        Some(i) => {
            let ghost before = v@;
            let (_, x) = v.remove(i);
            proof {
                lemma_entry_map_index(before, i as int);
                let after = v@;
                assert(after =~= before.remove(i as int));
                assert forall|a: int, b: int| 0 <= a < b < after.len() implies (#[trigger] after[a]).0@ != (#[trigger] after[b]).0@ by {
                    let a0 = if a < i { a } else { a + 1 };
                    let b0 = if b < i { b } else { b + 1 };
                    assert(after[a] == before[a0]);
                    assert(after[b] == before[b0]);
                    assert(before[a0].0@ != before[b0].0@);
                }
                assert forall|k: Seq<char>| #[trigger] entry_map(after).contains_key(k) == entry_map(before).remove(name@).contains_key(k) by {
                    if has_name(after, k) {
                        let j = choose|j: int| 0 <= j < after.len() && (#[trigger] after[j]).0@ == k;
                        let j0 = if j < i { j } else { j + 1 };
                        assert(after[j] == before[j0]);
                        assert(before[j0].0@ != before[i as int].0@);
                        assert(has_name(before, k));
                    }
                    if has_name(before, k) && k != name@ {
                        let j = choose|j: int| 0 <= j < before.len() && (#[trigger] before[j]).0@ == k;
                        assert(j != i);
                        let j1 = if j < i { j } else { j - 1 };
                        assert(after[j1] == before[j]);
                        assert(has_name(after, k));
                    }
                }
                assert forall|k: Seq<char>| #[trigger] entry_map(after).contains_key(k) implies entry_map(after)[k] == entry_map(before)[k] by {
                    let j = choose|j: int| 0 <= j < after.len() && (#[trigger] after[j]).0@ == k;
                    let j0 = if j < i { j } else { j + 1 };
                    assert(after[j] == before[j0]);
                    lemma_entry_map_index(after, j);
                    lemma_entry_map_index(before, j0);
                }
                assert(entry_map(after) =~= entry_map(before).remove(name@));
            }
            Some(x)
        },
    }
}

/// Puts `value` under `name`: in place of the entry of that name, or as a
/// new last entry.
pub fn insert_named<T>(v: &mut Vec<(String, T)>, name: String, value: T)
    requires
        names_unique(old(v)@),
    ensures
        names_unique(final(v)@),
        entry_map(final(v)@) == entry_map(old(v)@).insert(name@, value),
{
    proof { lemma_find_named(v@, name@); }
    let ghost before = v@;
    let ghost key = name@;
    match find_entry(v, name.as_str()) {
        None => {
            v.push((name, value));
            proof {
                let after = v@;
                let n = before.len() as int;
                assert(!has_name(before, key));
                assert forall|a: int, b: int| 0 <= a < b < after.len() implies (#[trigger] after[a]).0@ != (#[trigger] after[b]).0@ by {
                    if b == n {
                        assert(after[a] == before[a]);
                    } else {
                        assert(after[a] == before[a] && after[b] == before[b]);
                    }
                }
                assert forall|k: Seq<char>| #[trigger] entry_map(after).contains_key(k) == entry_map(before).insert(key, value).contains_key(k) by {
                    if has_name(after, k) {
                        let j = choose|j: int| 0 <= j < after.len() && (#[trigger] after[j]).0@ == k;
                        if j < n {
                            assert(after[j] == before[j]);
                            assert(has_name(before, k));
                        }
                    }
                    if has_name(before, k) {
                        let j = choose|j: int| 0 <= j < before.len() && (#[trigger] before[j]).0@ == k;
                        assert(after[j] == before[j]);
                    }
                    assert(after[n].0@ == key);
                }
                assert forall|k: Seq<char>| #[trigger] entry_map(after).contains_key(k) implies entry_map(after)[k] == entry_map(before).insert(key, value)[k] by {
                    let j = choose|j: int| 0 <= j < after.len() && (#[trigger] after[j]).0@ == k;
                    lemma_entry_map_index(after, j);
                    if j < n {
                        assert(after[j] == before[j]);
                        lemma_entry_map_index(before, j);
                    }
                }
                assert(entry_map(after) =~= entry_map(before).insert(key, value));
            }
        },
        Some(i) => {
            v.remove(i);
            v.insert(i, (name, value));
            proof {
                let after = v@;
                assert(after =~= before.update(i as int, after[i as int]));
                assert(after[i as int].0@ == key);
                assert forall|a: int, b: int| 0 <= a < b < after.len() implies (#[trigger] after[a]).0@ != (#[trigger] after[b]).0@ by {
                    if a == i as int {
                        assert(after[b] == before[b]);
                        assert(before[i as int].0@ == key);
                    } else if b == i as int {
                        assert(after[a] == before[a]);
                        assert(before[i as int].0@ == key);
                    } else {
                        assert(after[a] == before[a] && after[b] == before[b]);
                    }
                }
                assert forall|k: Seq<char>| #[trigger] entry_map(after).contains_key(k) == entry_map(before).insert(key, value).contains_key(k) by {
                    if has_name(after, k) {
                        let j = choose|j: int| 0 <= j < after.len() && (#[trigger] after[j]).0@ == k;
                        if j != i as int {
                            assert(after[j] == before[j]);
                            assert(has_name(before, k));
                        }
                    }
                    if has_name(before, k) {
                        let j = choose|j: int| 0 <= j < before.len() && (#[trigger] before[j]).0@ == k;
                        if j != i as int {
                            assert(after[j] == before[j]);
                        }
                    }
                }
                assert forall|k: Seq<char>| #[trigger] entry_map(after).contains_key(k) implies entry_map(after)[k] == entry_map(before).insert(key, value)[k] by {
                    let j = choose|j: int| 0 <= j < after.len() && (#[trigger] after[j]).0@ == k;
                    lemma_entry_map_index(after, j);
                    if j != i as int {
                        assert(after[j] == before[j]);
                        lemma_entry_map_index(before, j);
                    }
                }
                assert(entry_map(after) =~= entry_map(before).insert(key, value));
            }
        },
    }
}

/// Where a client's request goes once the handshake is done.
#[derive(Debug, Clone, Copy, PartialEq, Eq, Structural)]
pub enum ClientRoute {
    /// Through the upstreams that the rules rank for the target.
    Upstreams,
    /// Straight to the target.
    Direct,
    /// Nowhere: the client is refused and the connection ends without error.
    Blocked,
    /// To a UDP relay.
    UdpRelay,
    /// Nowhere, with an error: name resolution is not offered to clients.
    Unsupported,
}

/// Routes a request: a TCP or HTTP request goes through the ranked upstreams
/// when there are any, else straight to the target when that is allowed, else
/// nowhere.
pub fn route_client(req: &ProxyRequest, n_upstreams: usize, allow_direct: bool) -> (r: ClientRoute)
    ensures
        match req {
            ProxyRequest::TCP { .. } | ProxyRequest::HTTP { .. } => r == if n_upstreams > 0 {
                ClientRoute::Upstreams
            } else if allow_direct {
                ClientRoute::Direct
            } else {
                ClientRoute::Blocked
            },
            ProxyRequest::UDP { .. } => r == ClientRoute::UdpRelay,
            ProxyRequest::DNS { .. } => r == ClientRoute::Unsupported,
        },
{
    match req {
        ProxyRequest::TCP { .. } | ProxyRequest::HTTP { .. } => {
            if n_upstreams > 0 {
                ClientRoute::Upstreams
            } else if allow_direct {
                ClientRoute::Direct
            } else {
                ClientRoute::Blocked
            }
        },
        ProxyRequest::UDP { .. } => ClientRoute::UdpRelay,
        ProxyRequest::DNS { .. } => ClientRoute::Unsupported,
    }
}

/// Where the packets of a UDP association go once the first one is in.
#[derive(Debug, Clone, Copy, PartialEq, Eq, Structural)]
pub enum UdpRoute {
    /// Through the upstream that accepted the relay.
    Upstream,
    /// Straight to their targets, from a socket of this host.
    Direct,
    /// Nowhere: the association ends with an error.
    Nowhere,
}

/// Routes a UDP association: through an upstream when one accepted it, else
/// straight to the targets when that is allowed for the first packet's target,
/// else nowhere.
pub fn udp_route(upstream_ok: bool, allow_direct: bool) -> (r: UdpRoute)
    ensures
        upstream_ok ==> r == UdpRoute::Upstream,
        !upstream_ok && allow_direct ==> r == UdpRoute::Direct,
        !upstream_ok && !allow_direct ==> r == UdpRoute::Nowhere,
{
    if upstream_ok {
        UdpRoute::Upstream
    } else if allow_direct {
        UdpRoute::Direct
    } else {
        UdpRoute::Nowhere
    }
}

/// What came of forwarding a request to an upstream.
#[derive(Debug)]
pub enum UpstreamOutcome {
    /// The upstream answered.
    Answered(ProxyResult),
    /// The upstream could not be reached or did not answer.
    Unreachable,
}

/// The next thing to do while the ranked upstreams are tried, from the last
/// of the list (the best ranked) to the first.
#[derive(Debug)]
pub enum UpstreamStep {
    /// Forward the request to the upstream at this index of the list.
    Try(usize),
    /// Tell the client that the request was granted at `bound`, count the
    /// latency for the upstream at `index`, and relay the traffic.
    Relay { index: usize, bound: Option<SocketAddr> },
    /// Tell the client that the request failed, and end with the upstream's
    /// answer as the error.
    Refused,
    /// Tell the client that the request failed, and end with the last error:
    /// no upstream could be reached.
    Exhausted,
}

/// The first step over a ranked list of `n` upstreams: the last one.
pub fn first_upstream_step(n: usize) -> (r: UpstreamStep)
    requires
        n > 0,
    ensures
        r == UpstreamStep::Try((n - 1) as usize),
{
    UpstreamStep::Try(n - 1)
}

/// The step after the upstream at index `tried` gave `outcome`: relay on a
/// grant, refuse on any other answer, and go on to the one before it when it
/// could not be reached.
pub open spec fn upstream_step_spec(tried: usize, outcome: UpstreamOutcome) -> UpstreamStep {
    match outcome {
        UpstreamOutcome::Answered(ProxyResult::Granted { bound_address, .. }) => UpstreamStep::Relay {
            index: tried,
            bound: bound_address,
        },
        UpstreamOutcome::Answered(_) => UpstreamStep::Refused,
        UpstreamOutcome::Unreachable => if tried == 0 {
            UpstreamStep::Exhausted
        } else {
            UpstreamStep::Try((tried - 1) as usize)
        },
    }
}

/// The step after the upstream at index `tried` gave `outcome`.
pub fn next_upstream_step(tried: usize, outcome: &UpstreamOutcome) -> (r: UpstreamStep)
    ensures
        r == upstream_step_spec(tried, *outcome),
{
    match outcome {
        UpstreamOutcome::Answered(ProxyResult::Granted { bound_address, .. }) => UpstreamStep::Relay {
            index: tried,
            bound: *bound_address,
        },
        UpstreamOutcome::Answered(_) => UpstreamStep::Refused,
        UpstreamOutcome::Unreachable => {
            if tried == 0 {
                UpstreamStep::Exhausted
            } else {
                UpstreamStep::Try(tried - 1)
            }
        },
    }
}

/// The address a client is told after a direct connection: none for a
/// forwarded HTTP request, the local end of the connection otherwise.
pub fn direct_bound_address(req: &ProxyRequest, local: Option<SocketAddr>) -> (r: Option<SocketAddr>)
    ensures
        req is HTTP ==> r is None,
        !(req is HTTP) ==> r == local,
{
    match req {
        ProxyRequest::HTTP { .. } => None,
        _ => local,
    }
}

/// The index tried after `k` upstreams of a list of `n` could not be
/// reached, if any is left.
pub open spec fn nth_attempt(n: nat, k: nat) -> UpstreamStep {
    if k < n {
        UpstreamStep::Try((n - 1 - k) as usize)
    } else {
        UpstreamStep::Exhausted
    }
}

/// While upstreams cannot be reached, each of a ranked list of `n` is tried
/// once, from the last to the first, and then the client is refused: the
/// first step is the first attempt, and each attempt that fails leads to the
/// next.
pub proof fn lemma_upstreams_tried_in_turn(n: usize, k: nat)
    requires
        0 < n,
        k < n,
    ensures
        nth_attempt(n as nat, 0) == UpstreamStep::Try((n - 1) as usize),
        nth_attempt(n as nat, k) matches UpstreamStep::Try(i) && upstream_step_spec(i, UpstreamOutcome::Unreachable)
            == nth_attempt(n as nat, k + 1),
        nth_attempt(n as nat, n as nat) == UpstreamStep::Exhausted,
{
}

} // verus!
