//! Upstream selection: rules that say which targets an upstream takes, and
//! the ranking of upstreams for a target.
use vstd::prelude::*;
use vstd::utf8::encode_utf8;

use crate::client::{find_entry, find_named, ClientStatistics};
use crate::geoip::country_code::{bytes_eq_ignore_case, parse_country_code_spec};
use crate::geoip::{be_num, find_geoip, lookup_ok, sorted_by_start, CountryCode, GeoRecord};
use crate::ip::{ip_chars, ip_text, v4_text, IpAddr, SocketAddr};
use crate::socks5::{Address, AddressView};
use crate::text::{
    chars_eq_ignore_case, chars_to_string, dec, dec_chars, eq_ignore_case, is_digit, split_chars, split_on, str_chars,
};

verus! {

/// A network: an address and how many of its leading bits are fixed.
#[derive(Debug, Clone, Copy)]
pub struct Network {
    pub addr: IpAddr,
    pub prefix: u8,
}

impl Network {
    /// The prefix fits the address: at most 32 bits for IPv4, 128 for IPv6.
    pub open spec fn valid(self) -> bool {
        match self.addr {
            IpAddr::V4(_) => self.prefix <= 32,
            IpAddr::V6(_) => self.prefix <= 128,
        }
    }
}

/// The network ipnetwork's `IpNetwork::from_str` reads from text.
pub uninterp spec fn ipnetwork_parse(s: Seq<char>) -> Option<Network>;

/// The text of a network as ipnetwork's `Display` writes it: the address as
/// std writes it, a slash, and the prefix in decimal.
pub open spec fn network_text(n: Network) -> Seq<char> {
    ip_text(n.addr.octets()) + seq!['/'] + dec(n.prefix as nat)
}

/// Reads a network in CIDR notation (ipnetwork's `IpNetwork::from_str`).
/// Claimed: the result is a function of the text alone, and its prefix fits
/// its address; the text of an IPv4 network, as `Display` writes it, reads
/// back as that network (ipnetwork reads the address with std's
/// `Ipv4Addr::from_str`, which takes the dotted decimal that std writes, and
/// the prefix as a decimal `u8` of at most 32, and keeps both). Which other
/// texts are accepted is left unsaid.
#[verifier::external_body]
fn parse_network(s: &str) -> (r: Option<Network>)
    ensures
        r == ipnetwork_parse(s@),
        r matches Some(n) ==> n.valid(),
        forall|n: Network| n.valid() && n.addr is V4 && #[trigger] network_text(n) == s@ ==> r == Some(n),
{
    match s.parse::<ipnetwork::IpNetwork>() {
        Ok(ipnetwork::IpNetwork::V4(n)) => Some(Network { addr: IpAddr::V4(n.ip().octets()), prefix: n.prefix() }),
        Ok(ipnetwork::IpNetwork::V6(n)) => Some(Network { addr: IpAddr::V6(n.ip().octets()), prefix: n.prefix() }),
        Err(_) => None,
    }
}

/// Writes a network as ipnetwork's `Display` does (see [`network_text`]).
fn network_to_string(n: &Network) -> (r: String)
    ensures
        r@ == network_text(*n),
{
    let mut out = ip_chars(&n.addr);
    out.push('/');
    crate::http::push_chars(&mut out, dec_chars(n.prefix as u64).as_slice());
    chars_to_string(out.as_slice())
}

/// The mask of the bits of a byte that lie among the first `bits` bits, when
/// the byte starts at bit zero.
pub open spec fn byte_mask(bits: int) -> u8 {
    if bits >= 8 {
        0xffu8
    } else if bits <= 0 {
        0u8
    } else {
        ((0xff00u16 >> (bits as u16)) & 0xffu16) as u8
    }
}

/// Whether two addresses of the same length agree on their first `prefix`
/// bits.
pub open spec fn prefix_match(a: Seq<u8>, b: Seq<u8>, prefix: int) -> bool {
    a.len() == b.len() && forall|k: int| 0 <= k < a.len() ==> (#[trigger] a[k] ^ b[k]) & byte_mask(prefix - 8 * k) == 0u8
}

/// Whether a network holds an address (ipnetwork's `IpNetwork::contains`):
/// the same family, and the same leading `prefix` bits.
pub open spec fn network_contains(n: Network, ip: IpAddr) -> bool {
    match (n.addr, ip) {
        (IpAddr::V4(a), IpAddr::V4(b)) => prefix_match(a@, b@, n.prefix as int),
        (IpAddr::V6(a), IpAddr::V6(b)) => prefix_match(a@, b@, n.prefix as int),
        _ => false,
    }
}

/// The mask for byte `k` under a prefix.
fn byte_mask_exec(prefix: u8, k: usize) -> (r: u8)
    requires
        k < 16,
    ensures
        r == byte_mask(prefix - 8 * k),
{
    let p = prefix as usize;
    let start = 8 * k;
    if p >= start + 8 {
        0xff
    } else if p <= start {
        0
    } else {
        ((0xff00u16 >> ((p - start) as u16)) & 0xffu16) as u8
    }
}

/// Whether two addresses agree on their first `prefix` bits.
fn prefix_match_exec(a: &[u8], b: &[u8], prefix: u8) -> (r: bool)
    requires
        a@.len() <= 16,
    ensures
        r == prefix_match(a@, b@, prefix as int),
{
    if a.len() != b.len() {
        return false;
    }
    let mut k: usize = 0;
    while k < a.len()
        invariant
            a@.len() == b@.len(),
            a@.len() <= 16,
            k <= a@.len(),
            forall|j: int| 0 <= j < k ==> (#[trigger] a@[j] ^ b@[j]) & byte_mask(prefix - 8 * j) == 0u8,
        decreases a.len() - k,
    {
        if (a[k] ^ b[k]) & byte_mask_exec(prefix, k) != 0 {
            return false;
        }
        k = k + 1;
    }
    true
}

impl Network {
    /// Whether the network holds an address.
    pub fn contains(&self, ip: &IpAddr) -> (r: bool)
        ensures
            r == network_contains(*self, *ip),
    {
        match (&self.addr, ip) {
            (IpAddr::V4(a), IpAddr::V4(b)) => prefix_match_exec(a.as_slice(), b.as_slice(), self.prefix),
            (IpAddr::V6(a), IpAddr::V6(b)) => prefix_match_exec(a.as_slice(), b.as_slice(), self.prefix),
            _ => false,
        }
    }
}

/// A rule on targets: by country, by network, or by one of the two block
/// lists.
#[derive(Debug, Clone, Copy)]
pub enum UpstreamRule {
    GeoIP(CountryCode),
    Network(Network),
    GfwList,
    AdBlockList,
}

/// An [`UpstreamRule`] as plain values.
pub enum UpstreamRuleView {
    GeoIP(Seq<u8>),
    Network(Network),
    GfwList,
    AdBlockList,
}

impl View for UpstreamRule {
    type V = UpstreamRuleView;

    open spec fn view(&self) -> UpstreamRuleView {
        match self {
            UpstreamRule::GeoIP(c) => UpstreamRuleView::GeoIP(c.bytes()),
            UpstreamRule::Network(n) => UpstreamRuleView::Network(*n),
            UpstreamRule::GfwList => UpstreamRuleView::GfwList,
            UpstreamRule::AdBlockList => UpstreamRuleView::AdBlockList,
        }
    }
}

/// Why text is not a rule.
#[derive(Debug, Clone, Copy, PartialEq, Eq, Structural)]
pub enum RuleError {
    /// An unknown kind of rule.
    InvalidRule,
    /// A country rule without a valid country code.
    InvalidGeoip,
    /// A network rule without a valid network.
    InvalidNetwork,
}

/// The characters of `geoip`.
pub open spec fn geoip_name() -> Seq<char> {
    seq!['g', 'e', 'o', 'i', 'p']
}

/// The characters of `network`.
pub open spec fn network_name() -> Seq<char> {
    seq!['n', 'e', 't', 'w', 'o', 'r', 'k']
}

/// The characters of `gfwlist`.
pub open spec fn gfwlist_name() -> Seq<char> {
    seq!['g', 'f', 'w', 'l', 'i', 's', 't']
}

/// The characters of `adblock`.
pub open spec fn adblock_name() -> Seq<char> {
    seq!['a', 'd', 'b', 'l', 'o', 'c', 'k']
}

/// The characters of `adblocklist`.
pub open spec fn adblocklist_name() -> Seq<char> {
    seq!['a', 'd', 'b', 'l', 'o', 'c', 'k', 'l', 'i', 's', 't']
}

/// What reading a rule from text gives: the kind before the first colon (any
/// case), and for a country or network rule the piece after it.
pub open spec fn parse_rule_spec(s: Seq<char>) -> Result<UpstreamRuleView, RuleError> {
    let pieces = split_on(s, ':');
    let t = pieces[0];
    if eq_ignore_case(t, geoip_name()) {
        if pieces.len() > 1 {
            match parse_country_code_spec(encode_utf8(pieces[1])) {
                Ok(b) => Ok(UpstreamRuleView::GeoIP(b)),
                Err(_) => Err(RuleError::InvalidGeoip),
            }
        } else {
            Err(RuleError::InvalidGeoip)
        }
    } else if eq_ignore_case(t, network_name()) {
        if pieces.len() > 1 {
            match ipnetwork_parse(pieces[1]) {
                Some(n) => Ok(UpstreamRuleView::Network(n)),
                None => Err(RuleError::InvalidNetwork),
            }
        } else {
            Err(RuleError::InvalidNetwork)
        }
    } else if eq_ignore_case(t, gfwlist_name()) {
        Ok(UpstreamRuleView::GfwList)
    } else if eq_ignore_case(t, adblock_name()) {
        Ok(UpstreamRuleView::AdBlockList)
    } else {
        Err(RuleError::InvalidRule)
    }
}

/// The text of a rule, as `Display` writes it.
pub open spec fn rule_text(r: UpstreamRuleView) -> Seq<char> {
    match r {
        UpstreamRuleView::GeoIP(b) => geoip_name() + seq![':'] + seq![
            crate::geoip::country_code::byte_char(b[0]),
            crate::geoip::country_code::byte_char(b[1]),
        ],
        UpstreamRuleView::Network(n) => network_name() + seq![':'] + network_text(n),
        UpstreamRuleView::GfwList => gfwlist_name(),
        UpstreamRuleView::AdBlockList => adblocklist_name(),
    }
}

/// What the two block lists say of the target at hand.
#[derive(Debug, Clone, Copy)]
pub struct ListMatches {
    /// The GFW list names the target.
    pub gfw: bool,
    /// The ad-block list names the target.
    pub adblock: bool,
}

/// Whether a rule takes a target: a country rule when the target's country is
/// known and equal (any case); a network rule when the target's IP is known
/// and in the network; the GFW list for named targets it lists; the ad-block
/// list for targets it lists.
pub open spec fn rule_matches_spec(
    r: UpstreamRule,
    country_code: Option<CountryCode>,
    ip: Option<IpAddr>,
    addr: AddressView,
    lists: ListMatches,
) -> bool {
    match r {
        UpstreamRule::GeoIP(cc) => match country_code {
            Some(c) => bytes_eq_ignore_case(cc.bytes(), c.bytes()),
            None => false,
        },
        UpstreamRule::Network(n) => match ip {
            Some(i) => network_contains(n, i),
            None => false,
        },
        UpstreamRule::GfwList => addr is Name && lists.gfw,
        UpstreamRule::AdBlockList => lists.adblock,
    }
}

/// Whether any of the rules takes the target.
pub open spec fn any_matches(
    rules: Seq<UpstreamRule>,
    country_code: Option<CountryCode>,
    ip: Option<IpAddr>,
    addr: AddressView,
    lists: ListMatches,
) -> bool {
    exists|i: int| 0 <= i < rules.len() && rule_matches_spec(#[trigger] rules[i], country_code, ip, addr, lists)
}

/// The characters of `v`.
fn chars_of(v: &[char]) -> (r: Vec<char>)
    ensures
        r@ == v@,
{
    let mut r: Vec<char> = Vec::new();
    crate::http::push_chars(&mut r, v);
    r
}

impl UpstreamRule {
    /// Reads a rule: `geoip:<code>`, `network:<cidr>`, `gfwlist` or
    /// `adblock`, the kind in any case.
    pub fn from_str(s: &str) -> (r: Result<UpstreamRule, RuleError>)
        ensures
            match parse_rule_spec(s@) {
                Ok(v) => r matches Ok(x) && x@ == v,
                Err(e) => r matches Err(x) && x == e,
            },
            forall|v: UpstreamRuleView| rule_reads_back(v) && #[trigger] rule_text(v) == s@ ==> (r matches Ok(x) && x@
                == v),
    {
        let chars = str_chars(s);
        let pieces = split_chars(chars.as_slice(), ':');
        proof {
            crate::dns::labeled::lemma_split_on_nonempty(chars@, ':');
            assert forall|n: Network| n.addr is V4 && #[trigger] rule_text(UpstreamRuleView::Network(n)) == s@ implies split_on(
                s@,
                ':',
            ) == seq![network_name(), network_text(n)] by {
                lemma_network_rule_pieces(n);
            }
            assert(!eq_ignore_case(network_name(), geoip_name()));
            assert(crate::text::ascii_lower(network_name()[0]) != crate::text::ascii_lower(gfwlist_name()[0]));
            assert(!eq_ignore_case(network_name(), gfwlist_name()));
            assert(crate::text::ascii_lower(network_name()[0]) != crate::text::ascii_lower(adblock_name()[0]));
            assert(!eq_ignore_case(network_name(), adblock_name()));
        }
        proof {
            assert forall|v: UpstreamRuleView| rule_reads_back(v) && !(v is Network) && #[trigger] rule_text(v)
                == s@ implies parse_rule_spec(s@) == Ok::<UpstreamRuleView, RuleError>(v) by {
                lemma_rule_text_roundtrip(v);
            }
        }
        let t = pieces[0].as_slice();
        let geoip = vec!['g', 'e', 'o', 'i', 'p'];
        let network = vec!['n', 'e', 't', 'w', 'o', 'r', 'k'];
        let gfwlist = vec!['g', 'f', 'w', 'l', 'i', 's', 't'];
        let adblock = vec!['a', 'd', 'b', 'l', 'o', 'c', 'k'];
        proof {
            assert(geoip@ =~= geoip_name());
            assert(network@ =~= network_name());
            assert(gfwlist@ =~= gfwlist_name());
            assert(adblock@ =~= adblock_name());
        }
        if chars_eq_ignore_case(t, geoip.as_slice()) {
            if pieces.len() > 1 {
                let v = chars_to_string(pieces[1].as_slice());
                match CountryCode::from_str(v.as_str()) {
                    Ok(c) => Ok(UpstreamRule::GeoIP(c)),
                    Err(_) => Err(RuleError::InvalidGeoip),
                }
            } else {
                Err(RuleError::InvalidGeoip)
            }
        } else if chars_eq_ignore_case(t, network.as_slice()) {
            if pieces.len() > 1 {
                let v = chars_to_string(pieces[1].as_slice());
                match parse_network(v.as_str()) {
                    Some(n) => Ok(UpstreamRule::Network(n)),
                    None => Err(RuleError::InvalidNetwork),
                }
            } else {
                Err(RuleError::InvalidNetwork)
            }
        } else if chars_eq_ignore_case(t, gfwlist.as_slice()) {
            Ok(UpstreamRule::GfwList)
        } else if chars_eq_ignore_case(t, adblock.as_slice()) {
            Ok(UpstreamRule::AdBlockList)
        } else {
            Err(RuleError::InvalidRule)
        }
    }

    /// The text of the rule, as `Display` writes it.
    pub fn to_text(&self) -> (r: String)
        ensures
            r@ == rule_text(self@),
    {
        match self {
            UpstreamRule::GeoIP(c) => {
                let mut out = vec!['g', 'e', 'o', 'i', 'p', ':'];
                crate::http::push_chars(&mut out, str_chars(c.to_text().as_str()).as_slice());
                proof { assert(out@ =~= rule_text(self@)); }
                chars_to_string(out.as_slice())
            },
            UpstreamRule::Network(n) => {
                let mut out = vec!['n', 'e', 't', 'w', 'o', 'r', 'k', ':'];
                crate::http::push_chars(&mut out, str_chars(network_to_string(n).as_str()).as_slice());
                proof { assert(out@ =~= rule_text(self@)); }
                chars_to_string(out.as_slice())
            },
            UpstreamRule::GfwList => {
                let out = vec!['g', 'f', 'w', 'l', 'i', 's', 't'];
                proof { assert(out@ =~= rule_text(self@)); }
                chars_to_string(out.as_slice())
            },
            UpstreamRule::AdBlockList => {
                let out = vec!['a', 'd', 'b', 'l', 'o', 'c', 'k', 'l', 'i', 's', 't'];
                proof { assert(out@ =~= rule_text(self@)); }
                chars_to_string(out.as_slice())
            },
        }
    }

    /// Whether the rule takes a target (see [`rule_matches_spec`]).
    pub fn matches(
        &self,
        country_code: Option<CountryCode>,
        ip: Option<IpAddr>,
        addr: &Address,
        lists: &ListMatches,
    ) -> (r: bool)
        ensures
            r == rule_matches_spec(*self, country_code, ip, addr@, *lists),
    {
        match (self, country_code, ip, addr) {
            (UpstreamRule::GeoIP(cc), Some(c), _, _) => cc.same_as(&c),
            (UpstreamRule::Network(network), _, Some(ip), _) => network.contains(&ip),
            (UpstreamRule::GfwList, _, _, Address::Name { .. }) => lists.gfw,
            (UpstreamRule::AdBlockList, _, _, _) => lists.adblock,
            _ => false,
        }
    }

    /// Whether any of the rules takes the target.
    fn matches_any(
        rules: &Vec<UpstreamRule>,
        country_code: Option<CountryCode>,
        ip: Option<IpAddr>,
        addr: &Address,
        lists: &ListMatches,
    ) -> (r: bool)
        ensures
            r == any_matches(rules@, country_code, ip, addr@, *lists),
    {
        let mut i: usize = 0;
        while i < rules.len()
            invariant
                i <= rules@.len(),
                forall|j: int| 0 <= j < i ==> !rule_matches_spec(#[trigger] rules@[j], country_code, ip, addr@, *lists),
            decreases rules.len() - i,
        {
            if rules[i].matches(country_code, ip, addr, lists) {
                return true;
            }
            i = i + 1;
        }
        false
    }
}

/// An upstream proxy and when to use it.
#[derive(Debug, Clone)]
pub struct UpstreamConfig {
    pub address: Address,
    pub accept: Vec<UpstreamRule>,
    pub reject: Vec<UpstreamRule>,
    pub priority: u16,
    pub enabled: bool,
}

/// The IP of a target, when it has one.
pub open spec fn target_ip(target: &Address) -> Option<IpAddr> {
    match target {
        Address::IP(a) => Some(a.ip),
        _ => None,
    }
}

/// How well an upstream suits a target: 0 when it is disabled, when it has
/// accept rules and none takes the target, or when a reject rule takes it;
/// otherwise 5, 5 more when an accept rule took it, and more the lower its
/// priority number.
pub open spec fn calc_score_spec(c: &UpstreamConfig, target: &Address, country_code: Option<CountryCode>, lists: ListMatches) -> nat {
    let ip = target_ip(target);
    if !c.enabled {
        0
    } else if c.accept@.len() > 0 && !any_matches(c.accept@, country_code, ip, target@, lists) {
        0
    } else if c.reject@.len() > 0 && any_matches(c.reject@, country_code, ip, target@, lists) {
        0
    } else {
        (5 + (if c.accept@.len() > 0 { 5int } else { 0int }) + (0xffff - c.priority)) as nat
    }
}

/// Whether an upstream may carry a request for a target: it is enabled, one
/// of its accept rules takes the target when it has any, and none of its
/// reject rules takes it.
pub open spec fn upstream_takes(c: &UpstreamConfig, target: &Address, country_code: Option<CountryCode>, lists: ListMatches) -> bool {
    let ip = target_ip(target);
    &&& c.enabled
    &&& c.accept@.len() == 0 || any_matches(c.accept@, country_code, ip, target@, lists)
    &&& !any_matches(c.reject@, country_code, ip, target@, lists)
}

/// An upstream's score is above zero exactly when it may carry the request:
/// a disabled upstream, one whose accept rules all miss the target, and one
/// that a reject rule takes, whatever its accept rules say, all score 0. A
/// positive score is at least 5 plus how far the priority is below 65535,
/// and 5 more when an accept rule took the target.
pub proof fn lemma_score_follows_rules(
    c: &UpstreamConfig,
    target: &Address,
    country_code: Option<CountryCode>,
    lists: ListMatches,
)
    ensures
        calc_score_spec(c, target, country_code, lists) > 0 <==> upstream_takes(c, target, country_code, lists),
        !c.enabled ==> calc_score_spec(c, target, country_code, lists) == 0,
        any_matches(c.reject@, country_code, target_ip(target), target@, lists) ==> calc_score_spec(
            c,
            target,
            country_code,
            lists,
        ) == 0,
        c.accept@.len() > 0 && !any_matches(c.accept@, country_code, target_ip(target), target@, lists)
            ==> calc_score_spec(c, target, country_code, lists) == 0,
        calc_score_spec(c, target, country_code, lists) > 0 ==> calc_score_spec(c, target, country_code, lists)
            >= 5 + 0xffff - c.priority,
        calc_score_spec(c, target, country_code, lists) > 0 && c.accept@.len() > 0 ==> calc_score_spec(
            c,
            target,
            country_code,
            lists,
        ) >= 10 + 0xffff - c.priority,
        calc_score_spec(c, target, country_code, lists) <= 10 + 0xffff - c.priority,
        calc_score_spec(c, target, country_code, lists) > 0 && c.accept@.len() == 0 ==> calc_score_spec(
            c,
            target,
            country_code,
            lists,
        ) <= 5 + 0xffff - c.priority,
{
    let ip = target_ip(target);
    if c.reject@.len() == 0 {
        assert(!any_matches(c.reject@, country_code, ip, target@, lists));
    }
}

/// Of two upstreams with the same rules that may both carry a request, the
/// one with the smaller priority number scores higher.
pub proof fn lemma_priority_orders_scores(
    a: &UpstreamConfig,
    b: &UpstreamConfig,
    target: &Address,
    country_code: Option<CountryCode>,
    lists: ListMatches,
)
    requires
        a.accept@ == b.accept@,
        a.reject@ == b.reject@,
        a.enabled == b.enabled,
        upstream_takes(a, target, country_code, lists),
        a.priority < b.priority,
    ensures
        calc_score_spec(a, target, country_code, lists) > calc_score_spec(b, target, country_code, lists),
{
    lemma_score_follows_rules(a, target, country_code, lists);
    lemma_score_follows_rules(b, target, country_code, lists);
}

impl UpstreamConfig {
    /// How well the upstream suits a target (see [`calc_score_spec`]).
    pub fn calc_score(&self, target: &Address, country_code: Option<CountryCode>, lists: &ListMatches) -> (r: usize)
        ensures
            r == calc_score_spec(self, target, country_code, *lists),
            r > 0 <==> upstream_takes(self, target, country_code, *lists),
            r > 0 ==> r >= 5 + 0xffff - self.priority,
            r > 0 && self.accept@.len() > 0 ==> r >= 10 + 0xffff - self.priority,
    {
        proof { lemma_score_follows_rules(self, target, country_code, *lists); }
        if !self.enabled {
            return 0;
        }
        let ip = match target {
            Address::IP(a) => Some(a.ip),
            _ => None,
        };
        let mut score: usize = 5;
        if self.accept.len() > 0 {
            if UpstreamRule::matches_any(&self.accept, country_code, ip, target, lists) {
                score = score + 5;
            } else {
                return 0;
            }
        }
        if self.reject.len() > 0 && UpstreamRule::matches_any(&self.reject, country_code, ip, target, lists) {
            return 0;
        }
        score = score + (0xffffu16 - self.priority) as usize;
        score
    }
}

/// The address tables of the country lookup.
#[derive(Debug)]
pub struct GeoTables {
    pub v4: Vec<GeoRecord>,
    pub v6: Vec<GeoRecord>,
}

impl GeoTables {
    /// Both tables are sorted by start.
    pub open spec fn wf(&self) -> bool {
        sorted_by_start(self.v4@) && sorted_by_start(self.v6@)
    }
}

/// The configuration of the client side: its upstreams by name, and where it
/// listens.
#[derive(Debug)]
pub struct ClientConfig {
    pub upstreams: Vec<(String, UpstreamConfig)>,
    pub socks5_address: Address,
    pub socks5_udp_host: String,
}

/// Where the client listens by default: 127.0.0.1, port 5000.
pub open spec fn default_socks5_address_view() -> AddressView {
    AddressView::Ip { octets: seq![127u8, 0u8, 0u8, 1u8], port: 5000 }
}

/// The default UDP host: `0.0.0.0`.
pub open spec fn default_socks5_udp_host_view() -> Seq<char> {
    seq!['0', '.', '0', '.', '0', '.', '0']
}

impl Default for ClientConfig {
    fn default() -> (r: ClientConfig)
        ensures
            r.upstreams@.len() == 0,
            r.socks5_address@ == default_socks5_address_view(),
            r.socks5_udp_host@ == default_socks5_udp_host_view(),
    {
        let ip = [127u8, 0, 0, 1];
        proof { assert(ip@ =~= seq![127u8, 0u8, 0u8, 1u8]); }
        let host = vec!['0', '.', '0', '.', '0', '.', '0'];
        proof { assert(host@ =~= default_socks5_udp_host_view()); }
        ClientConfig {
            upstreams: Vec::new(),
            socks5_address: Address::IP(SocketAddr { ip: IpAddr::V4(ip), port: 5000 }),
            socks5_udp_host: chars_to_string(host.as_slice()),
        }
    }
}

/// How long ago an upstream was last active, in seconds, at most 65535; the
/// most when it never was or has no statistics.
pub open spec fn last_visit_score_spec(last: Option<u64>, now: u64) -> nat {
    match last {
        Some(l) => if now < l { 0 } else if now - l > 0xffff { 0xffff } else { (now - l) as nat },
        None => 0xffff,
    }
}

/// How long ago an upstream was last active counts towards its rank: at
/// most 65535, the most when it never was, exactly the seconds since when
/// that is less, none for a time in the future, and never less for an upstream
/// that was last active earlier.
pub proof fn lemma_last_visit_score(last: Option<u64>, other: Option<u64>, now: u64)
    ensures
        last_visit_score_spec(last, now) <= 0xffff,
        match last {
            None => last_visit_score_spec(last, now) == 0xffff,
            Some(l) => (l <= now && now - l <= 0xffff ==> last_visit_score_spec(last, now) == now - l) && (now < l
                ==> last_visit_score_spec(last, now) == 0),
        },
        match (last, other) {
            (Some(l), Some(m)) => l <= m <= now ==> last_visit_score_spec(last, now) >= last_visit_score_spec(
                other,
                now,
            ),
            _ => true,
        },
{
}

/// The last activity recorded for an upstream name.
pub open spec fn last_activity_of(stats: &ClientStatistics, name: Seq<char>) -> Option<u64> {
    match find_named(stats.upstreams@, name) {
        Some(i) => Some(stats.upstreams@[i].1.last_activity.value() as u64),
        None => None,
    }
}

/// The upstreams that suit a target, in configuration order: index and rank
/// (suitability plus time since last use).
pub open spec fn candidates(
    ups: Seq<(String, UpstreamConfig)>,
    stats: &ClientStatistics,
    target: &Address,
    country_code: Option<CountryCode>,
    lists: ListMatches,
    now: u64,
) -> Seq<(int, nat)>
    decreases ups.len(),
{
    if ups.len() == 0 {
        Seq::empty()
    } else {
        let rest = candidates(ups.drop_last(), stats, target, country_code, lists, now);
        let i = ups.len() - 1;
        let s = calc_score_spec(&ups[i].1, target, country_code, lists);
        if s > 0 {
            rest.push((i, s + last_visit_score_spec(last_activity_of(stats, ups[i].0@), now)))
        } else {
            rest
        }
    }
}

/// Candidates name upstreams of the list, with ranks of at most 131080.
proof fn lemma_candidates_range(
    ups: Seq<(String, UpstreamConfig)>,
    stats: &ClientStatistics,
    target: &Address,
    country_code: Option<CountryCode>,
    lists: ListMatches,
    now: u64,
)
    ensures
        forall|k: int| 0 <= k < candidates(ups, stats, target, country_code, lists, now).len() ==> {
            &&& 0 <= (#[trigger] candidates(ups, stats, target, country_code, lists, now)[k]).0 < ups.len()
            &&& candidates(ups, stats, target, country_code, lists, now)[k].1 <= 0x2_0008
        },
    decreases ups.len(),
{
    if ups.len() > 0 {
        let rest = candidates(ups.drop_last(), stats, target, country_code, lists, now);
        lemma_candidates_range(ups.drop_last(), stats, target, country_code, lists, now);
        let cs = candidates(ups, stats, target, country_code, lists, now);
        let i = ups.len() - 1;
        let sc = calc_score_spec(&ups[i].1, target, country_code, lists);
        assert(sc <= 0x1_0009);
        assert forall|k: int| 0 <= k < cs.len() implies {
            &&& 0 <= (#[trigger] cs[k]).0 < ups.len()
            &&& cs[k].1 <= 0x2_0008
        } by {
            if k < rest.len() {
                assert(cs[k] == rest[k]);
            }
        }
    }
}

/// Every candidate is an upstream that may carry the request (see
/// [`upstream_takes`]): one that a reject rule takes is never ranked.
pub proof fn lemma_candidates_take(
    ups: Seq<(String, UpstreamConfig)>,
    stats: &ClientStatistics,
    target: &Address,
    country_code: Option<CountryCode>,
    lists: ListMatches,
    now: u64,
)
    ensures
        forall|k: int| 0 <= k < candidates(ups, stats, target, country_code, lists, now).len() ==> {
            let i = (#[trigger] candidates(ups, stats, target, country_code, lists, now)[k]).0;
            0 <= i < ups.len() && upstream_takes(&ups[i].1, target, country_code, lists)
        },
    decreases ups.len(),
{
    if ups.len() > 0 {
        let rest = candidates(ups.drop_last(), stats, target, country_code, lists, now);
        lemma_candidates_take(ups.drop_last(), stats, target, country_code, lists, now);
        let cs = candidates(ups, stats, target, country_code, lists, now);
        let n = ups.len() - 1;
        lemma_score_follows_rules(&ups[n].1, target, country_code, lists);
        assert forall|k: int| 0 <= k < cs.len() implies {
            let i = (#[trigger] cs[k]).0;
            0 <= i < ups.len() && upstream_takes(&ups[i].1, target, country_code, lists)
        } by {
            if k < rest.len() {
                assert(cs[k] == rest[k]);
                assert(ups.drop_last()[rest[k].0] == ups[rest[k].0]);
            }
        }
    }
}

/// Every upstream that may carry the request (see [`upstream_takes`]) is a
/// candidate.
pub proof fn lemma_takers_are_candidates(
    ups: Seq<(String, UpstreamConfig)>,
    stats: &ClientStatistics,
    target: &Address,
    country_code: Option<CountryCode>,
    lists: ListMatches,
    now: u64,
    i: int,
)
    requires
        0 <= i < ups.len(),
        upstream_takes(&ups[i].1, target, country_code, lists),
    ensures
        exists|k: int|
            0 <= k < candidates(ups, stats, target, country_code, lists, now).len()
                && (#[trigger] candidates(ups, stats, target, country_code, lists, now)[k]).0 == i,
    decreases ups.len(),
{
    let cs = candidates(ups, stats, target, country_code, lists, now);
    let rest = candidates(ups.drop_last(), stats, target, country_code, lists, now);
    let n = ups.len() - 1;
    if i == n {
        lemma_score_follows_rules(&ups[n].1, target, country_code, lists);
        assert(cs[rest.len() as int].0 == i);
    } else {
        assert(ups.drop_last()[i] == ups[i]);
        lemma_takers_are_candidates(ups.drop_last(), stats, target, country_code, lists, now, i);
        let k = choose|k: int| 0 <= k < rest.len() && (#[trigger] rest[k]).0 == i;
        assert(cs[k] == rest[k]);
    }
}

/// Whether candidate `a` comes before candidate `b`: a lower rank, or the
/// same rank and earlier in the configuration.
pub open spec fn ranked_before(cs: Seq<(int, nat)>, a: int, b: int) -> bool {
    cs[a].1 < cs[b].1 || (cs[a].1 == cs[b].1 && a < b)
}

/// Whether `order` lists each candidate once, by rank (ties in configuration
/// order).
pub open spec fn is_ranking(cs: Seq<(int, nat)>, order: Seq<int>) -> bool {
    &&& order.len() == cs.len()
    &&& forall|i: int| 0 <= i < order.len() ==> 0 <= #[trigger] order[i] < cs.len()
    &&& forall|i: int, j: int| 0 <= i < j < order.len() ==> ranked_before(cs, order[i], order[j])
}

/// The rank of an upstream for a target: its suitability plus how long ago
/// it was last used.
fn calc_last_visit_score(stats: &ClientStatistics, upstream_name: &String, now: u64) -> (r: usize)
    ensures
        r == last_visit_score_spec(last_activity_of(stats, upstream_name@), now),
{
    proof { crate::client::lemma_find_named(stats.upstreams@, upstream_name@); }
    match find_entry(&stats.upstreams, upstream_name.as_str()) {
        Some(i) => {
            let last = stats.upstreams[i].1.last_activity.get() as u64;
            proof {
                let k = find_named(stats.upstreams@, upstream_name@);
                assert(k == Some(i as int));
                assert(stats.upstreams@[i as int].1.last_activity.value() as u64 == last);
            }
            if now < last {
                0
            } else if now - last > 0xffff {
                0xffff
            } else {
                (now - last) as usize
            }
        },
        None => 0xffff,
    }
}

/// What [`ClientConfig::find_best_upstream`] answers, given the country the
/// lookup found for the target and the order of the candidates.
pub open spec fn best_upstreams_ok(
    c: &ClientConfig,
    stats: &ClientStatistics,
    target: &Address,
    geo: &GeoTables,
    lists: ListMatches,
    now: u64,
    country_code: Option<CountryCode>,
    order: Seq<int>,
    r: Seq<(&str, &UpstreamConfig)>,
) -> bool {
    let cs = candidates(c.upstreams@, stats, target, country_code, lists, now);
    &&& match target {
        Address::IP(a) => lookup_ok(
            match a.ip { IpAddr::V4(_) => geo.v4@, IpAddr::V6(_) => geo.v6@ },
            be_num(a.ip.octets()) as u128,
            country_code,
        ),
        _ => country_code is None,
    }
    &&& is_ranking(cs, order)
    &&& r.len() == order.len()
    &&& forall|i: int| 0 <= i < r.len() ==> {
        &&& (#[trigger] r[i]).0@ == c.upstreams@[cs[order[i]].0].0@
        &&& *r[i].1 == c.upstreams@[cs[order[i]].0].1
    }
}

impl ClientConfig {
    /// The upstreams that suit a target, from the least to the most
    /// suitable: each ranked by how well it suits the target plus how long
    /// ago it was last used (`now` is the time in seconds since the epoch);
    /// unsuitable upstreams are left out; ties keep configuration order.
    pub fn find_best_upstream<'a>(
        &'a self,
        stats: &ClientStatistics,
        target: &Address,
        geo: &GeoTables,
        lists: &ListMatches,
        now: u64,
    ) -> (r: Vec<(&'a str, &'a UpstreamConfig)>)
        requires
            geo.wf(),
        ensures
            exists|country_code: Option<CountryCode>, order: Seq<int>|
                #[trigger] best_upstreams_ok(self, stats, target, geo, *lists, now, country_code, order, r@),
            exists|country_code: Option<CountryCode>, order: Seq<int>|
                #[trigger] best_upstreams_ok(self, stats, target, geo, *lists, now, country_code, order, r@) && forall|
                    i: int,
                | 0 <= i < r@.len() ==> upstream_takes(r@[i].1, target, country_code, *lists),
    {
        let country_code = match target {
            Address::IP(a) => find_geoip(&a.ip, geo.v4.as_slice(), geo.v6.as_slice()),
            _ => None,
        };
        let ghost ups = self.upstreams@;
        // The suitable upstreams, in configuration order, with their ranks.
        let mut cands: Vec<(usize, usize)> = Vec::new();
        let mut i: usize = 0;
        while i < self.upstreams.len()
            invariant
                i <= self.upstreams@.len(),
                ups == self.upstreams@,
                cands@.len() == candidates(ups.take(i as int), stats, target, country_code, *lists, now).len(),
                forall|k: int| 0 <= k < cands@.len() ==> {
                    &&& (#[trigger] cands@[k]).0 as int == candidates(ups.take(i as int), stats, target, country_code, *lists, now)[k].0
                    &&& cands@[k].1 as nat == candidates(ups.take(i as int), stats, target, country_code, *lists, now)[k].1
                    &&& cands@[k].0 < i
                },
                forall|k: int| 0 <= k < cands@.len() ==> (#[trigger] cands@[k]).1 <= 0x2_0009,
            decreases self.upstreams.len() - i,
        {
            let s = self.upstreams[i].1.calc_score(target, country_code, lists);
            proof {
                assert(ups.take(i + 1).drop_last() =~= ups.take(i as int));
                assert(s <= 0x1_0009);
            }
            if s > 0 {
                let rank = s + calc_last_visit_score(stats, &self.upstreams[i].0, now);
                cands.push((i, rank));
            }
            i = i + 1;
        }
        proof { assert(ups.take(i as int) =~= ups); }
        let ghost cs = candidates(ups, stats, target, country_code, *lists, now);
        proof { lemma_candidates_range(ups, stats, target, country_code, *lists, now); }
        // Insertion by rank; a candidate goes after all of equal rank.
        let mut order: Vec<usize> = Vec::new();
        let mut m: usize = 0;
        while m < cands.len()
            invariant
                m <= cands@.len(),
                cands@.len() == cs.len(),
                forall|k: int| 0 <= k < cands@.len() ==> (#[trigger] cands@[k]).1 as nat == cs[k].1,
                forall|k: int| 0 <= k < cands@.len() ==> (#[trigger] cands@[k]).0 as int == cs[k].0,
                order@.len() == m,
                forall|a: int| 0 <= a < order@.len() ==> (#[trigger] order@[a]) < m,
                forall|a: int, b: int| 0 <= a < b < order@.len() ==> ranked_before(cs, order@[a] as int, order@[b] as int),
            decreases cands.len() - m,
        {
            let rank = cands[m].1;
            let mut p: usize = 0;
            while p < order.len() && cands[order[p]].1 <= rank
                invariant
                    p <= order@.len(),
                    m < cands@.len(),
                    rank == cands@[m as int].1,
                    forall|a: int| 0 <= a < order@.len() ==> (#[trigger] order@[a]) < m,
                    forall|a: int| 0 <= a < p ==> cands@[order@[a] as int].1 <= rank,
                decreases order.len() - p,
            {
                p = p + 1;
            }
            proof {
                assert forall|a: int| p <= a < order@.len() implies cands@[order@[a] as int].1 > rank by {
                    if a > p {
                        assert(ranked_before(cs, order@[p as int] as int, order@[a] as int));
                    }
                }
            }
            order.insert(p, m);
            m = m + 1;
        }
        proof { lemma_candidates_range(ups, stats, target, country_code, *lists, now); }
        let mut r: Vec<(&'a str, &'a UpstreamConfig)> = Vec::new();
        let mut j: usize = 0;
        while j < order.len()
            invariant
                j <= order@.len(),
                order@.len() == cs.len(),
                cands@.len() == cs.len(),
                forall|k: int| 0 <= k < cands@.len() ==> (#[trigger] cands@[k]).0 as int == cs[k].0,
                forall|k: int| 0 <= k < cs.len() ==> 0 <= (#[trigger] cs[k]).0 < ups.len(),
                forall|a: int| 0 <= a < order@.len() ==> (#[trigger] order@[a]) < cs.len(),
                ups == self.upstreams@,
                r@.len() == j,
                forall|a: int| 0 <= a < j ==> {
                    &&& (#[trigger] r@[a]).0@ == ups[cs[order@[a] as int].0].0@
                    &&& *r@[a].1 == ups[cs[order@[a] as int].0].1
                },
            decreases order.len() - j,
        {
            let idx = cands[order[j]].0;
            let entry = &self.upstreams[idx];
            r.push((entry.0.as_str(), &entry.1));
            j = j + 1;
        }
        proof {
            let order_int = order@.map_values(|x: usize| x as int);
            assert(is_ranking(cs, order_int));
            assert(best_upstreams_ok(self, stats, target, geo, *lists, now, country_code, order_int, r@));
            lemma_candidates_take(ups, stats, target, country_code, *lists, now);
            assert forall|i: int| 0 <= i < r@.len() implies upstream_takes(r@[i].1, target, country_code, *lists) by {
                let k = order_int[i];
                assert(0 <= k < cs.len());
                assert(upstream_takes(&ups[cs[k].0].1, target, country_code, *lists));
            }
        }
        r
    }
}

/// An ASCII byte other than NUL and the colon: safe in a printed rule.
pub open spec fn plain_code_byte(b: u8) -> bool {
    0 < b < 128 && b != 58
}

/// The UTF-8 bytes of the characters of ASCII bytes are those bytes.
proof fn lemma_ascii_chars_encode(a: u8, b: u8)
    requires
        a < 128,
        b < 128,
    ensures
        encode_utf8(seq![crate::geoip::country_code::byte_char(a), crate::geoip::country_code::byte_char(b)]) == seq![a, b],
{
    let ca = crate::geoip::country_code::byte_char(a);
    let cb = crate::geoip::country_code::byte_char(b);
    let s = seq![ca, cb];
    assert((ca as u32) == (a as u32));
    assert((cb as u32) == (b as u32));
    assert((((a as u32) & 0x7Fu32) as u8) == a) by (bit_vector) requires a < 128;
    assert((((b as u32) & 0x7Fu32) as u8) == b) by (bit_vector) requires b < 128;
    assert(vstd::utf8::encode_scalar(a as u32) =~= seq![a]);
    assert(vstd::utf8::encode_scalar(b as u32) =~= seq![b]);
    assert(s.drop_first() =~= seq![cb]);
    assert(seq![cb].drop_first() =~= Seq::<char>::empty());
    assert(encode_utf8(Seq::<char>::empty()) =~= Seq::<u8>::empty());
    assert(encode_utf8(seq![cb]) =~= seq![b]);
    assert(encode_utf8(s) =~= seq![a, b]);
}

/// Whether a text holds no colon.
pub open spec fn no_colon(s: Seq<char>) -> bool {
    forall|i: int| 0 <= i < s.len() ==> s[i] != ':'
}

/// Joined texts without colons hold none.
proof fn lemma_no_colon_add(a: Seq<char>, b: Seq<char>)
    requires
        no_colon(a),
        no_colon(b),
    ensures
        no_colon(a + b),
{
    assert forall|i: int| 0 <= i < (a + b).len() implies (a + b)[i] != ':' by {
        if i < a.len() {
            assert((a + b)[i] == a[i]);
        } else {
            assert((a + b)[i] == b[i - a.len()]);
        }
    }
}

/// Decimal digits hold no colon.
proof fn lemma_dec_no_colon(n: nat)
    ensures
        no_colon(dec(n)),
    decreases n,
{
    if n >= 10 {
        lemma_dec_no_colon(n / 10);
        let d = crate::text::digit_char(n % 10);
        assert(d != ':');
        assert forall|i: int| 0 <= i < dec(n).len() implies dec(n)[i] != ':' by {
            if i < dec(n / 10).len() {
                assert(dec(n)[i] == dec(n / 10)[i]);
            }
        }
    } else {
        assert(crate::text::digit_char(n) != ':');
    }
}

/// The text of an IPv4 network holds no colon.
proof fn lemma_v4_network_text_no_colon(n: Network)
    requires
        n.addr is V4,
    ensures
        no_colon(network_text(n)),
{
    let o = n.addr.octets();
    lemma_dec_no_colon(o[0] as nat);
    lemma_dec_no_colon(o[1] as nat);
    lemma_dec_no_colon(o[2] as nat);
    lemma_dec_no_colon(o[3] as nat);
    lemma_dec_no_colon(n.prefix as nat);
    let dot = seq!['.'];
    let slash = seq!['/'];
    assert(no_colon(dot));
    assert(no_colon(slash));
    let t1 = dec(o[0] as nat) + dot;
    lemma_no_colon_add(dec(o[0] as nat), dot);
    lemma_no_colon_add(t1, dec(o[1] as nat));
    let t2 = t1 + dec(o[1] as nat);
    lemma_no_colon_add(t2, dot);
    let t3 = t2 + dot;
    lemma_no_colon_add(t3, dec(o[2] as nat));
    let t4 = t3 + dec(o[2] as nat);
    lemma_no_colon_add(t4, dot);
    let t5 = t4 + dot;
    lemma_no_colon_add(t5, dec(o[3] as nat));
    let t6 = t5 + dec(o[3] as nat);
    assert(t6 =~= v4_text(o));
    lemma_no_colon_add(t6, slash);
    lemma_no_colon_add(t6 + slash, dec(n.prefix as nat));
    assert(network_text(n) =~= t6 + slash + dec(n.prefix as nat));
}

/// A printed IPv4 network rule splits at its one colon into the kind and the
/// network's text.
proof fn lemma_network_rule_pieces(n: Network)
    requires
        n.addr is V4,
    ensures
        split_on(rule_text(UpstreamRuleView::Network(n)), ':') == seq![network_name(), network_text(n)],
{
    let x = network_text(n);
    let t = rule_text(UpstreamRuleView::Network(n));
    lemma_v4_network_text_no_colon(n);
    assert(t =~= network_name() + seq![':'] + x);
    assert(t[7] == ':');
    crate::text::lemma_index_of_at(t, ':', 7);
    assert(t.take(7) =~= network_name());
    assert(t.skip(8) =~= x);
    crate::text::lemma_index_of_none(x, ':');
    assert(split_on(x, ':') =~= seq![x]);
    assert(split_on(t, ':') =~= seq![network_name(), x]);
}

/// Whether a rule's text reads back as the rule: the GFW-list rule, a country
/// rule whose code is two ASCII bytes other than NUL and `:`, and a network
/// rule for a valid IPv4 network. The ad-block rule is written `adblocklist`
/// but read as `adblock`, and an IPv6 network's text holds colons, so neither
/// reads back.
pub open spec fn rule_reads_back(v: UpstreamRuleView) -> bool {
    match v {
        UpstreamRuleView::GfwList => true,
        UpstreamRuleView::GeoIP(b) => b.len() == 2 && plain_code_byte(b[0]) && plain_code_byte(b[1]),
        UpstreamRuleView::Network(n) => n.valid() && n.addr is V4,
        UpstreamRuleView::AdBlockList => false,
    }
}

/// A printed country rule with a plain ASCII code, and the block-list rule,
/// read back as themselves.
pub proof fn lemma_rule_text_roundtrip(r: UpstreamRuleView)
    requires
        r is GfwList || (r matches UpstreamRuleView::GeoIP(b) && b.len() == 2 && plain_code_byte(b[0]) && plain_code_byte(b[1])),
    ensures
        parse_rule_spec(rule_text(r)) == Ok::<UpstreamRuleView, RuleError>(r),
{
    let t = rule_text(r);
    match r {
        UpstreamRuleView::GfwList => {
            crate::text::lemma_index_of_none(t, ':');
            assert(split_on(t, ':') =~= seq![t]);
            assert(!eq_ignore_case(t, geoip_name()));
            assert(crate::text::ascii_lower(t[0]) != crate::text::ascii_lower(network_name()[0]));
            assert(!eq_ignore_case(t, network_name()));
            assert(eq_ignore_case(t, gfwlist_name()));
        },
        UpstreamRuleView::GeoIP(b) => {
            let code = seq![crate::geoip::country_code::byte_char(b[0]), crate::geoip::country_code::byte_char(b[1])];
            assert(t =~= geoip_name() + seq![':'] + code);
            assert(t[5] == ':');
            crate::text::lemma_index_of_at(t, ':', 5);
            assert(t.take(5) =~= geoip_name());
            assert(t.skip(6) =~= code);
            assert(code[0] != ':' && code[1] != ':');
            crate::text::lemma_index_of_none(code, ':');
            assert(split_on(code, ':') =~= seq![code]);
            assert(split_on(t, ':') =~= seq![geoip_name(), code]);
            assert(eq_ignore_case(geoip_name(), geoip_name()));
            lemma_ascii_chars_encode(b[0], b[1]);
            assert(seq![b[0], b[1]] =~= b);
        },
        _ => {},
    }
}
} // verus!
