//! Block lists in Adblock Plus syntax: reading a downloaded list, building
//! the adblock engine from its rules, and asking the engine about a target.
use vstd::prelude::*;
use vstd::multiset::Multiset;

use adblock::lists::{FilterSet, ParseOptions};
use adblock::Engine;

use crate::http::{trim, trim_chars};
use crate::ip::{ip_chars, ip_text};
use crate::socks5::{Address, AddressView};
use crate::text::{chars_to_string, lossy_string, split_bytes, split_on, str_chars, utf8_lossy};

verus! {

/// A set of rules being gathered for an engine.
#[verifier::external_type_specification]
#[verifier::external_body]
pub struct ExFilterSet(FilterSet);

/// The adblock engine: compiled rules that tell whether a request is listed.
#[verifier::external_type_specification]
#[verifier::external_body]
pub struct ExEngine(Engine);

/// The rules a filter set holds, each by its text without surrounding white
/// space, as many times as it was added; network and cosmetic rules alike.
pub uninterp spec fn filter_set_rules(s: FilterSet) -> Multiset<Seq<char>>;

/// Whether adblock reads a line as a rule (`FilterSet::add_filter` with
/// default options, in a set that keeps the rules' text).
pub uninterp spec fn abp_rule_parses(line: Seq<char>) -> bool;

/// Whether an engine that adblock builds (optimizing) from a filter set
/// holding `rules` blocks a request for `url` made from `url` itself; a URL
/// that adblock cannot read is not blocked.
pub uninterp spec fn abp_blocks(rules: Multiset<Seq<char>>, url: Seq<char>) -> bool;

/// Whether adblock reads bytes as a serialized engine.
pub uninterp spec fn abp_engine_reads(data: Seq<u8>) -> bool;

/// What base64's `decode` (standard alphabet, with padding) makes of bytes:
/// the bytes they encode, or `None` when they are not base64.
pub uninterp spec fn base64_standard_decode(data: Seq<u8>) -> Option<Seq<u8>>;

/// The HTTP date (`%a, %d %b %Y %H:%M:%S GMT`) that chrono writes for a
/// number of seconds since 1970 in UTC, taken as an `i64` (so that a number
/// above `i64::MAX` stands for one before 1970), or `None` when chrono's
/// dates do not reach that far.
pub uninterp spec fn http_date(secs: u64) -> Option<Seq<char>>;

/// adblock's `FilterSet::new(true)`. Claimed: the set holds no rules.
#[verifier::external_body]
fn new_filter_set() -> (r: FilterSet)
    ensures
        filter_set_rules(r) == Multiset::<Seq<char>>::empty(),
{
    FilterSet::new(true)
}

/// adblock's `FilterSet::add_filter` with default options. Claimed: whether
/// the line reads as a rule is a function of the line alone; a line that
/// reads adds one rule, the line trimmed as `str::trim` does (the source
/// parses `line.trim()` and pushes the rule onto the list of its kind), and
/// one that does not leaves the set as it was (the source parses first and
/// pushes only on success).
#[verifier::external_body]
fn add_filter(set: &mut FilterSet, line: &str) -> (r: bool)
    ensures
        r == abp_rule_parses(line@),
        r ==> filter_set_rules(*final(set)) == filter_set_rules(*old(set)).insert(trim(line@)),
        !r ==> filter_set_rules(*final(set)) == filter_set_rules(*old(set)),
{
    set.add_filter(line, ParseOptions::default()).is_ok()
}

/// adblock's `Engine::from_filter_set`, optimizing. Nothing is claimed of
/// the engine: it keeps no rule texts (network rules are merged, cosmetic
/// rules become selectors). [`AbpEngine`] records which rules it was built
/// from.
#[verifier::external_body]
fn engine_from_filter_set(set: FilterSet) -> (r: Engine) {
    Engine::from_filter_set(set, true)
}

/// adblock's `Engine::deserialize` on a new engine. Claimed: whether the bytes
/// read as an engine is a function of the bytes alone; what the engine then
/// matches is left unsaid.
#[verifier::external_body]
fn engine_from_bytes(data: &[u8]) -> (r: Option<Engine>)
    ensures
        r is Some <==> abp_engine_reads(data@),
{
    let mut engine = Engine::new(true);
    match engine.deserialize(data) {
        Ok(()) => Some(engine),
        Err(_) => None,
    }
}

/// Whether the engine blocks a request for `url` made from `url` itself
/// (adblock's `Request::new` and `Engine::check_network_request`); a URL
/// that adblock cannot read is not blocked. Claimed: for an engine built here
/// from a filter set, the answer is a function of the set's rules and the URL
/// alone. Of an engine read from bytes nothing is claimed, and which URLs a
/// set of rules blocks is left unsaid.
#[verifier::external_body]
fn engine_blocks(e: &AbpEngine, url: &str) -> (r: bool)
    ensures
        e.rules() matches Some(m) ==> r == abp_blocks(m, url@),
{
    match adblock::request::Request::new(url, url, "") {
        Ok(req) => e.engine.check_network_request(&req).matched,
        Err(_) => false,
    }
}

/// An adblock engine, with the rules it was built from when it was built
/// from a filter set here; an engine read from bytes has no such record.
pub struct AbpEngine {
    engine: Engine,
    rules: Ghost<Option<Multiset<Seq<char>>>>,
}

impl AbpEngine {
    /// The rules the engine was built from: the texts of the rules of its
    /// filter set, each without surrounding white space, as many times as it
    /// was added; `None` for an engine read from bytes.
    pub closed spec fn rules(&self) -> Option<Multiset<Seq<char>>> {
        self.rules@
    }

    /// The adblock engine itself.
    pub fn engine(&self) -> &Engine {
        &self.engine
    }
}

/// base64's `decode` (standard alphabet, with padding). Claimed: the result is
/// a function of the bytes alone; the crate panics when the length estimate
/// overflows, which `requires` leaves out. The decoding itself is left
/// unsaid.
#[verifier::external_body]
fn decode_base64_standard(data: &[u8]) -> (r: Option<Vec<u8>>)
    requires
        data@.len() + 3 <= usize::MAX,
    ensures
        match r {
            Some(v) => base64_standard_decode(data@) == Some(v@),
            None => base64_standard_decode(data@) is None,
        },
{
    base64::decode(data).ok()
}

/// chrono's `DateTime::from_timestamp` and `format`, as an HTTP date, the
/// seconds cast to `i64` as they are. Claimed: the text is a function of the
/// seconds alone. The calendar is left unsaid.
#[verifier::external_body]
fn format_http_date(secs: u64) -> (r: Option<String>)
    ensures
        match r {
            Some(s) => http_date(secs) == Some(s@),
            None => http_date(secs) is None,
        },
{
    chrono::DateTime::from_timestamp(secs as i64, 0).map(|d| d.format("%a, %d %b %Y %H:%M:%S GMT").to_string())
}

/// Why a block list could not be used.
#[derive(Debug, Clone, Copy, PartialEq, Eq, Structural)]
pub enum AbpError {
    /// The bytes are no serialized engine.
    InvalidEngineData,
    /// A list said to be in base64 is not.
    InvalidBase64,
}

/// A block list to download: where from, whether it comes in base64, the file
/// that keeps its engine between runs, and the engine shipped with the
/// program, if any.
#[derive(Debug, Clone, Copy)]
pub struct RuleList {
    pub url: &'static str,
    pub is_base64: bool,
    pub cache_file_name: &'static str,
    pub embedded_asset: Option<&'static str>,
}

/// The ad-block list: EasyList, in plain text.
pub fn adblock_rule_list() -> (r: RuleList)
    ensures
        r.url@ == "https://easylist.to/easylist/easylist.txt"@,
        !r.is_base64,
        r.cache_file_name@ == "abplist.abp"@,
        r.embedded_asset is None,
{
    RuleList {
        url: "https://easylist.to/easylist/easylist.txt",
        is_base64: false,
        cache_file_name: "abplist.abp",
        embedded_asset: None,
    }
}

/// The GFW list, in base64, with an engine shipped with the program.
pub fn gfw_rule_list() -> (r: RuleList)
    ensures
        r.url@ == "https://raw.githubusercontent.com/gfwlist/gfwlist/master/gfwlist.txt"@,
        r.is_base64,
        r.cache_file_name@ == "gfwlist.abp"@,
        r.embedded_asset matches Some(a) && a@ == "gfw_list.dat"@,
{
    RuleList {
        url: "https://raw.githubusercontent.com/gfwlist/gfwlist/master/gfwlist.txt",
        is_base64: true,
        cache_file_name: "gfwlist.abp",
        embedded_asset: Some("gfw_list.dat"),
    }
}

/// An engine read from its serialized bytes.
pub fn create_engine(data: &[u8]) -> (r: Result<AbpEngine, AbpError>)
    ensures
        r is Ok <==> abp_engine_reads(data@),
        r matches Ok(e) ==> e.rules() is None,
        r matches Err(e) ==> e == AbpError::InvalidEngineData,
{
    match engine_from_bytes(data) {
        Some(e) => Ok(AbpEngine { engine: e, rules: Ghost(None) }),
        None => Err(AbpError::InvalidEngineData),
    }
}

/// What came of asking for a list again.
#[derive(Debug, Clone, Copy, PartialEq, Eq, Structural)]
pub enum ListFetch {
    /// A new list came (status 200).
    Fetched,
    /// The list has not changed since the time given (status 304).
    NotModified,
    /// Any other status.
    Failed(u16),
}

/// What an answer's status says of a list asked for again.
pub fn list_fetch_outcome(status: u16) -> (r: ListFetch)
    ensures
        status == 200 ==> r == ListFetch::Fetched,
        status == 304 ==> r == ListFetch::NotModified,
        status != 200 && status != 304 ==> r == ListFetch::Failed(status),
{
    if status == 200 {
        ListFetch::Fetched
    } else if status == 304 {
        ListFetch::NotModified
    } else {
        ListFetch::Failed(status)
    }
}

/// The header that asks for the list only if it changed since it was last
/// fetched: none without such a time, or when chrono cannot write it.
pub fn if_modified_since(last_updated: Option<u64>) -> (r: Option<(String, String)>)
    ensures
        match last_updated {
            None => r is None,
            Some(t) => match http_date(t) {
                None => r is None,
                Some(d) => r matches Some((n, v)) && n@ == "If-Modified-Since"@ && v@ == d,
            },
        },
{
    match last_updated {
        None => None,
        Some(t) => match format_http_date(t) {
            Some(d) => Some(("If-Modified-Since".to_owned(), d)),
            None => None,
        },
    }
}

/// The bytes without carriage returns and line feeds.
pub open spec fn strip_newlines(s: Seq<u8>) -> Seq<u8>
    decreases s.len(),
{
    if s.len() == 0 {
        s
    } else if s.last() == 13 || s.last() == 10 {
        strip_newlines(s.drop_last())
    } else {
        strip_newlines(s.drop_last()).push(s.last())
    }
}

/// The text of a downloaded list: the body itself, or, for a list in base64,
/// what its bytes decode to once line breaks are taken out.
pub open spec fn list_text_spec(body: Seq<u8>, is_base64: bool) -> Option<Seq<u8>> {
    if is_base64 {
        base64_standard_decode(strip_newlines(body))
    } else {
        Some(body)
    }
}

/// Takes out the line breaks of a list in base64 and decodes it.
pub fn decode_rule_list(body: Vec<u8>, is_base64: bool) -> (r: Result<Vec<u8>, AbpError>)
    requires
        body@.len() + 3 <= usize::MAX,
    ensures
        match list_text_spec(body@, is_base64) {
            Some(t) => r matches Ok(v) && v@ == t,
            None => r == Err::<Vec<u8>, AbpError>(AbpError::InvalidBase64),
        },
{
    if !is_base64 {
        return Ok(body);
    }
    let mut stripped: Vec<u8> = Vec::new();
    let mut i: usize = 0;
    while i < body.len()
        invariant
            i <= body@.len(),
            stripped@ == strip_newlines(body@.take(i as int)),
            stripped@.len() <= i,
        decreases body.len() - i,
    {
        let b = body[i];
        proof { assert(body@.take(i + 1).drop_last() =~= body@.take(i as int)); }
        if b != 13 && b != 10 {
            stripped.push(b);
        }
        i = i + 1;
    }
    proof { assert(body@.take(body@.len() as int) =~= body@); }
    match decode_base64_standard(stripped.as_slice()) {
        Some(v) => Ok(v),
        None => Err(AbpError::InvalidBase64),
    }
}

/// Whether a trimmed line is a rule: not empty, and no comment (`#` or `!`).
pub open spec fn is_rule_line(t: Seq<char>) -> bool {
    t.len() > 0 && t[0] != '#' && t[0] != '!'
}

/// The rules among lines of bytes, each read as UTF-8 (invalid sequences
/// replaced) and trimmed, in order.
pub open spec fn rules_of_lines(lines: Seq<Seq<u8>>) -> Seq<Seq<char>>
    decreases lines.len(),
{
    if lines.len() == 0 {
        Seq::empty()
    } else {
        let t = trim(utf8_lossy(lines.last()));
        if is_rule_line(t) {
            rules_of_lines(lines.drop_last()).push(t)
        } else {
            rules_of_lines(lines.drop_last())
        }
    }
}

/// The rules of a list: its lines between line feeds, read and trimmed,
/// without empty lines and comments.
pub open spec fn list_rules(body: Seq<u8>) -> Seq<Seq<char>> {
    rules_of_lines(split_on(body, 10u8))
}

/// The texts of a list of strings.
pub open spec fn string_texts(v: Seq<String>) -> Seq<Seq<char>> {
    v.map_values(|s: String| s@)
}

/// The rules of a list (see [`list_rules`]).
pub fn rule_lines(body: &[u8]) -> (r: Vec<String>)
    ensures
        string_texts(r@) == list_rules(body@),
{
    let lines = split_bytes(body, 10u8);
    let ghost pieces = split_on(body@, 10u8);
    let mut r: Vec<String> = Vec::new();
    let mut i: usize = 0;
    while i < lines.len()
        invariant
            i <= lines@.len(),
            lines@.len() == pieces.len(),
            forall|k: int| 0 <= k < lines@.len() ==> #[trigger] lines@[k]@ == pieces[k],
            string_texts(r@) == rules_of_lines(pieces.take(i as int)),
        decreases lines.len() - i,
    {
        let text = lossy_string(lines[i].as_slice());
        let t = trim_chars(str_chars(text.as_str()).as_slice());
        proof {
            assert(pieces.take(i + 1).drop_last() =~= pieces.take(i as int));
            assert(pieces.take(i + 1).last() == pieces[i as int]);
        }
        let ghost before = r@;
        if t.len() > 0 && t[0] != '#' && t[0] != '!' {
            r.push(chars_to_string(t.as_slice()));
            proof { assert(string_texts(r@) =~= string_texts(before).push(t@)); }
        }
        i = i + 1;
    }
    proof { assert(pieces.take(pieces.len() as int) =~= pieces); }
    r
}

/// The rules that adblock reads, each trimmed, in order.
pub open spec fn accepted_rules(rules: Seq<Seq<char>>) -> Seq<Seq<char>>
    decreases rules.len(),
{
    if rules.len() == 0 {
        Seq::empty()
    } else if abp_rule_parses(rules.last()) {
        accepted_rules(rules.drop_last()).push(trim(rules.last()))
    } else {
        accepted_rules(rules.drop_last())
    }
}

/// The rules of a list, each counted as often as it comes.
pub open spec fn rule_multiset(rules: Seq<Seq<char>>) -> Multiset<Seq<char>>
    decreases rules.len(),
{
    if rules.len() == 0 {
        Multiset::empty()
    } else {
        rule_multiset(rules.drop_last()).insert(rules.last())
    }
}

/// A filter set of the rules that adblock reads, and how many there are.
pub fn build_filter_set(rules: &Vec<String>) -> (r: (FilterSet, usize))
    ensures
        filter_set_rules(r.0) == rule_multiset(accepted_rules(string_texts(rules@))),
        r.1 == accepted_rules(string_texts(rules@)).len(),
{
    let mut set = new_filter_set();
    let mut count: usize = 0;
    let ghost texts = string_texts(rules@);
    let mut i: usize = 0;
    while i < rules.len()
        invariant
            i <= rules@.len(),
            texts == string_texts(rules@),
            filter_set_rules(set) == rule_multiset(accepted_rules(texts.take(i as int))),
            count == accepted_rules(texts.take(i as int)).len(),
            count <= i,
        decreases rules.len() - i,
    {
        proof {
            assert(texts.take(i + 1).drop_last() =~= texts.take(i as int));
            assert(texts.take(i + 1).last() == rules@[i as int]@);
        }
        if add_filter(&mut set, rules[i].as_str()) {
            count = count + 1;
            proof {
                let acc = accepted_rules(texts.take(i + 1));
                assert(acc.drop_last() =~= accepted_rules(texts.take(i as int)));
            }
        }
        i = i + 1;
    }
    proof { assert(texts.take(rules@.len() as int) =~= texts); }
    (set, count)
}

/// An engine built from a downloaded list, and how many of its rules adblock
/// read: a list in base64 is decoded first, and fails when it is not base64.
pub fn build_engine(body: Vec<u8>, is_base64: bool) -> (r: Result<(AbpEngine, usize), AbpError>)
    requires
        body@.len() + 3 <= usize::MAX,
    ensures
        match list_text_spec(body@, is_base64) {
            Some(t) => r matches Ok((e, n)) && n == accepted_rules(list_rules(t)).len() && e.rules() == Some(
                rule_multiset(accepted_rules(list_rules(t))),
            ),
            None => r matches Err(e) && e == AbpError::InvalidBase64,
        },
{
    let text = match decode_rule_list(body, is_base64) {
        Ok(t) => t,
        Err(e) => return Err(e),
    };
    let rules = rule_lines(text.as_slice());
    let (set, count) = build_filter_set(&rules);
    let ghost built_from = filter_set_rules(set);
    Ok((AbpEngine { engine: engine_from_filter_set(set), rules: Ghost(Some(built_from)) }, count))
}

/// The host of a target as a URL names it: a name as it is, an IP address as
/// std writes it.
pub open spec fn target_host(a: AddressView) -> Seq<char> {
    match a {
        AddressView::Ip { octets, .. } => ip_text(octets),
        AddressView::Name { host, .. } => host,
    }
}

/// The URL a target is checked as: `https://` and the host for port 443,
/// `http://` and the host otherwise.
pub open spec fn check_url_spec(a: AddressView) -> Seq<char> {
    if a.port() == 443 {
        "https://"@ + target_host(a)
    } else {
        "http://"@ + target_host(a)
    }
}

/// The URL a target is checked as (see [`check_url_spec`]).
pub fn check_url(addr: &Address) -> (r: String)
    ensures
        r@ == check_url_spec(addr@),
{
    let mut out = if addr.get_port() == 443 {
        str_chars("https://")
    } else {
        str_chars("http://")
    };
    match addr {
        Address::IP(a) => crate::http::push_chars(&mut out, ip_chars(&a.ip).as_slice()),
        Address::Name { host, .. } => crate::http::push_chars(&mut out, str_chars(host.as_str()).as_slice()),
    }
    proof { assert(out@ =~= check_url_spec(addr@)); }
    chars_to_string(out.as_slice())
}

/// Whether a list names a target: never without an engine; else as the
/// engine says of the URL the target is checked as, which for an engine built
/// from rules is what those rules say.
pub fn matches_abp(engine: Option<&AbpEngine>, addr: &Address) -> (r: bool)
    ensures
        match engine {
            None => !r,
            Some(e) => match e.rules() {
                Some(m) => r == abp_blocks(m, check_url_spec(addr@)),
                None => true,
            },
        },
{
    match engine {
        None => false,
        Some(e) => engine_blocks(e, check_url(addr).as_str()),
    }
}

} // verus!
