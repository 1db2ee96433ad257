//! The control server's decisions: reading a request head, choosing what
//! answers it, and the text of the answer's head.
use vstd::prelude::*;
use vstd::utf8::encode_utf8;

use crate::http::head::{find_header, text_headers, content_length_name, content_type_name, HeadFields, ParsedHead, ParsedHeadView, headers_to_text};
use crate::client::{entry_map, insert_named, names_unique, remove_named, ClientStatistics, UpstreamStatistics};
use crate::config::{ClientConfig, UpstreamConfig};
use crate::counter::Counter;
use crate::http::HttpError;
use crate::text::{
    chars_to_string, dec, dec_chars, lower, lower_chars, parse_uint, parse_uint_spec, str_chars,
};

verus! {

/// The number of headers the control server makes room for.
pub const CONTROLLER_MAX_HEADERS: usize = 20;

/// What the control server reads from a request head.
#[derive(Debug)]
pub struct RequestInfo {
    /// How many bytes the head took.
    pub head_len: usize,
    /// The method, lower case.
    pub method: String,
    /// The path, lower case.
    pub path: String,
    /// The declared body length; zero when none is declared or readable.
    pub content_length: usize,
    /// Whether the body is declared JSON.
    pub is_json: bool,
}

/// The characters of `application/json`.
pub open spec fn json_type() -> Seq<char> {
    seq!['a', 'p', 'p', 'l', 'i', 'c', 'a', 't', 'i', 'o', 'n', '/', 'j', 's', 'o', 'n']
}

/// What the control server reads from a complete head: method and path
/// lower-cased (empty when missing), the `content-length` header as a number
/// (zero when missing or not a number), and whether `content-type` starts
/// with `application/json` in any case.
pub open spec fn request_info_spec(f: crate::http::head::HeadFieldsView) -> (nat, Seq<char>, Seq<char>, nat, bool) {
    let hs = text_headers(f.headers);
    let method = lower(match f.method { Some(m) => m, None => Seq::empty() });
    let path = lower(match f.path { Some(p) => p, None => Seq::empty() });
    let len = match find_header(hs, content_length_name()) {
        Some(v) => match parse_uint_spec(v, usize::MAX as nat) { Some(n) => n, None => 0 },
        None => 0,
    };
    let json = match find_header(hs, content_type_name()) {
        Some(v) => lower(v).len() >= json_type().len() && lower(v).take(json_type().len() as int) == json_type(),
        None => false,
    };
    (f.len, method, path, len, json)
}

/// Whether `s` starts with `p`.
fn starts_with(s: &[char], p: &[char]) -> (r: bool)
    ensures
        r == (s@.len() >= p@.len() && s@.take(p@.len() as int) == p@),
{
    if s.len() < p.len() {
        return false;
    }
    let mut i: usize = 0;
    while i < p.len()
        invariant
            p@.len() <= s@.len(),
            i <= p@.len(),
            forall|k: int| 0 <= k < i ==> s@[k] == p@[k],
        decreases p.len() - i,
    {
        if s[i] != p[i] {
            proof { assert(s@.take(p@.len() as int)[i as int] != p@[i as int]); }
            return false;
        }
        i = i + 1;
    }
    proof { assert(s@.take(p@.len() as int) =~= p@); }
    true
}

/// Reads what the control server needs from a parsed head: nothing yet while
/// it is partial, an error when it is no head.
pub fn request_info(head: ParsedHead) -> (r: Result<Option<RequestInfo>, HttpError>)
    ensures
        match head@ {
            ParsedHeadView::Partial => r matches Ok(None),
            ParsedHeadView::Invalid => r == Err::<Option<RequestInfo>, HttpError>(HttpError::Malformed),
            ParsedHeadView::Complete(f) => r matches Ok(Some(i)) && {
                let (n, m, p, len, json) = request_info_spec(f);
                &&& i.head_len == n
                &&& i.method@ == m
                &&& i.path@ == p
                &&& i.content_length == len
                &&& i.is_json == json
            },
        },
{
    match head {
        ParsedHead::Partial => Ok(None),
        ParsedHead::Invalid => Err(HttpError::Malformed),
        ParsedHead::Complete(f) => {
            let m = match &f.method {
                Some(m) => str_chars(m.as_str()),
                None => Vec::new(),
            };
            let p = match &f.path {
                Some(p) => str_chars(p.as_str()),
                None => Vec::new(),
            };
            let method = chars_to_string(lower_chars(m.as_slice()).as_slice());
            let path = chars_to_string(lower_chars(p.as_slice()).as_slice());
            let common = headers_to_text(&f.headers);
            let content_length = match common.get_content_length() {
                Some(n) => n,
                None => 0,
            };
            let json = vec!['a', 'p', 'p', 'l', 'i', 'c', 'a', 't', 'i', 'o', 'n', '/', 'j', 's', 'o', 'n'];
            proof { assert(json@ =~= json_type()); }
            let is_json = match common.get_content_type() {
                Some(v) => {
                    let lv = lower_chars(str_chars(v).as_slice());
                    starts_with(lv.as_slice(), json.as_slice())
                },
                None => false,
            };
            Ok(Some(RequestInfo { head_len: f.len, method, path, content_length, is_json }))
        },
    }
}

/// Why a body cannot be read.
#[derive(Debug, Clone, Copy, PartialEq, Eq, Structural)]
pub enum BodyError {
    /// The declared body does not fit the buffer.
    PayloadTooBig,
}

/// How many more bytes of the body to read, given the buffer's capacity and
/// the bytes of it already there: refused when the body cannot fit.
pub fn body_to_read(capacity: usize, remaining: usize, content_length: usize) -> (r: Result<usize, BodyError>)
    ensures
        capacity < content_length ==> r == Err::<usize, BodyError>(BodyError::PayloadTooBig),
        capacity >= content_length && content_length > remaining ==> r == Ok::<usize, BodyError>((content_length - remaining) as usize),
        capacity >= content_length && content_length <= remaining ==> r == Ok::<usize, BodyError>(0),
{
    if capacity < content_length {
        return Err(BodyError::PayloadTooBig);
    }
    if content_length > remaining {
        Ok(content_length - remaining)
    } else {
        Ok(0)
    }
}

/// What answers a request to the control server.
#[derive(Debug)]
pub enum Route {
    /// An `OPTIONS` request: an empty answer.
    Options,
    /// The current configuration.
    GetConfig,
    /// The current statistics.
    GetStats,
    /// A file of the web interface; `original` is the path asked for.
    Asset { path: String, original: String },
    /// Add or change upstreams.
    UpdateUpstreams,
    /// Remove upstreams.
    DeleteUpstreams,
    /// Nothing answers the path.
    NotFound { path: String },
}

/// The characters of `/api/config`.
pub open spec fn api_config() -> Seq<char> {
    seq!['/', 'a', 'p', 'i', '/', 'c', 'o', 'n', 'f', 'i', 'g']
}

/// The characters of `/api/stats`.
pub open spec fn api_stats() -> Seq<char> {
    seq!['/', 'a', 'p', 'i', '/', 's', 't', 'a', 't', 's']
}

/// The characters of `/api/upstream`.
pub open spec fn api_upstream() -> Seq<char> {
    seq!['/', 'a', 'p', 'i', '/', 'u', 'p', 's', 't', 'r', 'e', 'a', 'm']
}

/// The characters of `index.html`.
pub open spec fn index_html() -> Seq<char> {
    seq!['i', 'n', 'd', 'e', 'x', '.', 'h', 't', 'm', 'l']
}

/// Whether `s` starts with `p`.
pub open spec fn has_prefix(s: Seq<char>, p: Seq<char>) -> bool {
    s.len() >= p.len() && s.take(p.len() as int) == p
}

/// The file a path names: `index.html` for `/` or nothing, the path without
/// its first character otherwise.
pub open spec fn asset_path(p: Seq<char>) -> Seq<char> {
    if p == seq!['/'] || p.len() == 0 { index_html() } else { p.skip(1) }
}

/// What answers a request, by method (lower case), path and whether the body
/// is JSON; the first rule that applies wins.
pub open spec fn route_spec(method: Seq<char>, path: Seq<char>, is_json: bool) -> (u8, Seq<char>) {
    if method == seq!['o', 'p', 't', 'i', 'o', 'n', 's'] {
        (0, Seq::empty())
    } else if method == seq!['g', 'e', 't'] && has_prefix(path, api_config()) {
        (1, Seq::empty())
    } else if method == seq!['g', 'e', 't'] && has_prefix(path, api_stats()) {
        (2, Seq::empty())
    } else if method == seq!['g', 'e', 't'] {
        (3, asset_path(path))
    } else if method == seq!['p', 'o', 's', 't'] && is_json && has_prefix(path, api_upstream()) {
        (4, Seq::empty())
    } else if method == seq!['d', 'e', 'l', 'e', 't', 'e'] && is_json && has_prefix(path, api_upstream()) {
        (5, Seq::empty())
    } else {
        (6, path)
    }
}

/// The number [`route_spec`] uses for each answer, and the path it carries.
pub open spec fn route_view(r: &Route) -> (u8, Seq<char>) {
    match r {
        Route::Options => (0, Seq::empty()),
        Route::GetConfig => (1, Seq::empty()),
        Route::GetStats => (2, Seq::empty()),
        Route::Asset { path, .. } => (3, path@),
        Route::UpdateUpstreams => (4, Seq::empty()),
        Route::DeleteUpstreams => (5, Seq::empty()),
        Route::NotFound { path } => (6, path@),
    }
}

/// Whether two character sequences are equal.
fn chars_equal(a: &[char], b: &[char]) -> (r: bool)
    ensures
        r == (a@ == b@),
{
    crate::dns::labeled::chars_eq(a, b)
}

/// Chooses what answers a request (see [`route_spec`]).
pub fn route(method: &str, path: &str, is_json: bool) -> (r: Route)
    ensures
        route_view(&r) == route_spec(method@, path@, is_json),
        r matches Route::Asset { original, .. } ==> original@ == path@,
{
    let m = str_chars(method);
    let p = str_chars(path);
    let options = vec!['o', 'p', 't', 'i', 'o', 'n', 's'];
    let get = vec!['g', 'e', 't'];
    let post = vec!['p', 'o', 's', 't'];
    let delete = vec!['d', 'e', 'l', 'e', 't', 'e'];
    let config = vec!['/', 'a', 'p', 'i', '/', 'c', 'o', 'n', 'f', 'i', 'g'];
    let stats = vec!['/', 'a', 'p', 'i', '/', 's', 't', 'a', 't', 's'];
    let upstream = vec!['/', 'a', 'p', 'i', '/', 'u', 'p', 's', 't', 'r', 'e', 'a', 'm'];
    let slash = vec!['/'];
    proof {
        assert(options@ =~= seq!['o', 'p', 't', 'i', 'o', 'n', 's']);
        assert(get@ =~= seq!['g', 'e', 't']);
        assert(post@ =~= seq!['p', 'o', 's', 't']);
        assert(delete@ =~= seq!['d', 'e', 'l', 'e', 't', 'e']);
        assert(config@ =~= api_config());
        assert(stats@ =~= api_stats());
        assert(upstream@ =~= api_upstream());
        assert(slash@ =~= seq!['/']);
    }
    let is_get = chars_equal(m.as_slice(), get.as_slice());
    if chars_equal(m.as_slice(), options.as_slice()) {
        Route::Options
    } else if is_get && starts_with(p.as_slice(), config.as_slice()) {
        Route::GetConfig
    } else if is_get && starts_with(p.as_slice(), stats.as_slice()) {
        Route::GetStats
    } else if is_get {
        let file = if p.len() == 0 || chars_equal(p.as_slice(), slash.as_slice()) {
            let v = vec!['i', 'n', 'd', 'e', 'x', '.', 'h', 't', 'm', 'l'];
            proof { assert(v@ =~= index_html()); }
            v
        } else {
            let v = crate::text::slice_chars(p.as_slice(), 1, p.len());
            proof { assert(v@ =~= p@.skip(1)); }
            v
        };
        Route::Asset { path: chars_to_string(file.as_slice()), original: path.to_owned() }
    } else if is_json && chars_equal(m.as_slice(), post.as_slice()) && starts_with(p.as_slice(), upstream.as_slice()) {
        Route::UpdateUpstreams
    } else if is_json && chars_equal(m.as_slice(), delete.as_slice()) && starts_with(p.as_slice(), upstream.as_slice()) {
        Route::DeleteUpstreams
    } else {
        Route::NotFound { path: path.to_owned() }
    }
}

/// The message of a "not found" answer: `Resource <path> not found`.
pub fn not_found_message(path: &str) -> (r: String)
    ensures
        r@ == seq!['R', 'e', 's', 'o', 'u', 'r', 'c', 'e', ' '] + path@ + seq![' ', 'n', 'o', 't', ' ', 'f', 'o', 'u', 'n', 'd'],
{
    let mut out = vec!['R', 'e', 's', 'o', 'u', 'r', 'c', 'e', ' '];
    crate::http::push_chars(&mut out, str_chars(path).as_slice());
    let tail = vec![' ', 'n', 'o', 't', ' ', 'f', 'o', 'u', 'n', 'd'];
    crate::http::push_chars(&mut out, tail.as_slice());
    proof {
        assert(out@ =~= seq!['R', 'e', 's', 'o', 'u', 'r', 'c', 'e', ' '] + path@ + seq![' ', 'n', 'o', 't', ' ', 'f', 'o', 'u', 'n', 'd']);
    }
    chars_to_string(out.as_slice())
}

/// Why a request to the control server failed.
#[derive(Debug)]
pub enum ControllerError {
    /// The request could not be carried out, for the reason given.
    Generic(String),
    /// The request could not be read, for the reason given.
    InvalidRequest(String),
    /// Nothing answers the path.
    NotFound(String),
}

/// What came of a request to the control server.
#[derive(Debug)]
pub enum Outcome {
    /// Done, with nothing to send back.
    Empty,
    /// Done, with these JSON bytes to send back.
    Json(Vec<u8>),
    /// A file of the web interface, with its type when it is known.
    File { content_type: Option<String>, data: Vec<u8> },
    /// Failed.
    Failed(ControllerError),
}

/// The answer the control server sends: status code and message, content
/// type, body.
#[derive(Debug)]
pub struct Reply {
    pub code: u16,
    pub status_msg: Option<String>,
    pub content_type: Option<String>,
    pub body: Vec<u8>,
}

/// An optional text as plain values.
pub open spec fn opt_text(s: Option<String>) -> Option<Seq<char>> {
    match s {
        Some(t) => Some(t@),
        None => None,
    }
}

/// The answer to each outcome: 201 for nothing to send, 200 with JSON or a
/// file, and for a failure 500, 400 or 404 with its message as plain text.
pub fn reply_for(outcome: Outcome) -> (r: Reply)
    ensures
        match outcome {
            Outcome::Empty => r.code == 201 && opt_text(r.status_msg) == Some("OK"@) && r.content_type is None
                && r.body@.len() == 0,
            Outcome::Json(b) => r.code == 200 && opt_text(r.status_msg) == Some("OK"@) && opt_text(r.content_type)
                == Some("application/json"@) && r.body@ == b@,
            Outcome::File { content_type, data } => r.code == 200 && opt_text(r.status_msg) == Some("OK"@)
                && opt_text(r.content_type) == opt_text(content_type) && r.body@ == data@,
            Outcome::Failed(e) => r.status_msg is None && opt_text(r.content_type) == Some("text/plain"@) && match e {
                ControllerError::Generic(m) => r.code == 500 && r.body@ == encode_utf8(m@),
                ControllerError::InvalidRequest(m) => r.code == 400 && r.body@ == encode_utf8(m@),
                ControllerError::NotFound(p) => r.code == 404 && r.body@ == encode_utf8(
                    seq!['R', 'e', 's', 'o', 'u', 'r', 'c', 'e', ' '] + p@ + seq![' ', 'n', 'o', 't', ' ', 'f', 'o', 'u', 'n', 'd'],
                ),
            },
        },
{
    match outcome {
        Outcome::Empty => Reply { code: 201, status_msg: Some("OK".to_owned()), content_type: None, body: Vec::new() },
        Outcome::Json(b) => Reply {
            code: 200,
            status_msg: Some("OK".to_owned()),
            content_type: Some("application/json".to_owned()),
            body: b,
        },
        Outcome::File { content_type, data } => Reply {
            code: 200,
            status_msg: Some("OK".to_owned()),
            content_type,
            body: data,
        },
        Outcome::Failed(e) => {
            let (code, msg) = match e {
                ControllerError::Generic(m) => (500u16, m),
                ControllerError::InvalidRequest(m) => (400u16, m),
                ControllerError::NotFound(p) => (404u16, not_found_message(p.as_str())),
            };
            Reply {
                code,
                status_msg: None,
                content_type: Some("text/plain".to_owned()),
                body: crate::text::string_bytes(&msg),
            }
        },
    }
}

/// A change to one upstream: its name and configuration, and the name it had
/// before, if it is renamed or replaced.
#[derive(Debug)]
pub struct UpstreamUpdate {
    pub old_name: Option<String>,
    pub name: String,
    pub config: UpstreamConfig,
}

/// The counters of an upstream: sent, received, last activity, last latency.
pub open spec fn stats_view(s: UpstreamStatistics) -> (usize, usize, usize, usize) {
    (s.tx.value(), s.rx.value(), s.last_activity.value(), s.last_latency.value())
}

/// The statistics by name, as counter values.
pub open spec fn stats_map(v: Seq<(String, UpstreamStatistics)>) -> Map<Seq<char>, (usize, usize, usize, usize)> {
    entry_map(v).map_values(|s: UpstreamStatistics| stats_view(s))
}

/// The configurations and statistics after one update: the old name leaves
/// both (its statistics are kept for the new name when the address stays
/// the same), then the configuration goes in under the new name, with the
/// kept statistics or fresh ones.
pub open spec fn update_spec(
    cfg: Map<Seq<char>, UpstreamConfig>,
    st: Map<Seq<char>, (usize, usize, usize, usize)>,
    old_name: Option<Seq<char>>,
    name: Seq<char>,
    config: UpstreamConfig,
) -> (Map<Seq<char>, UpstreamConfig>, Map<Seq<char>, (usize, usize, usize, usize)>) {
    let (cfg1, st1, kept) = match old_name {
        Some(o) => if cfg.contains_key(o) {
            let kept: Option<(usize, usize, usize, usize)> = if cfg[o].address@ == config.address@ && st.contains_key(o) {
                Some(st[o])
            } else {
                None
            };
            (cfg.remove(o), st.remove(o), kept)
        } else {
            (cfg, st, None)
        },
        None => (cfg, st, None),
    };
    (cfg1.insert(name, config), st1.insert(name, match kept { Some(x) => x, None => (0usize, 0usize, 0usize, 0usize) }))
}

/// An update as plain values.
pub open spec fn update_view(u: UpstreamUpdate) -> (Option<Seq<char>>, Seq<char>, UpstreamConfig) {
    (match u.old_name { Some(o) => Some(o@), None => None }, u.name@, u.config)
}

/// The configurations and statistics after a list of updates, in order.
pub open spec fn updates_spec(
    cfg: Map<Seq<char>, UpstreamConfig>,
    st: Map<Seq<char>, (usize, usize, usize, usize)>,
    us: Seq<(Option<Seq<char>>, Seq<char>, UpstreamConfig)>,
) -> (Map<Seq<char>, UpstreamConfig>, Map<Seq<char>, (usize, usize, usize, usize)>)
    decreases us.len(),
{
    if us.len() == 0 {
        (cfg, st)
    } else {
        let (c, s) = updates_spec(cfg, st, us.drop_last());
        let u = us.last();
        update_spec(c, s, u.0, u.1, u.2)
    }
}

/// Applies one update to the configuration and the statistics.
fn apply_update(config: &mut ClientConfig, stats: &mut ClientStatistics, u: UpstreamUpdate)
    requires
        names_unique(old(config).upstreams@),
        names_unique(old(stats).upstreams@),
    ensures
        names_unique(final(config).upstreams@),
        names_unique(final(stats).upstreams@),
        final(config).socks5_address == old(config).socks5_address,
        final(config).socks5_udp_host == old(config).socks5_udp_host,
        (entry_map(final(config).upstreams@), stats_map(final(stats).upstreams@)) == update_spec(
            entry_map(old(config).upstreams@),
            stats_map(old(stats).upstreams@),
            update_view(u).0,
            update_view(u).1,
            update_view(u).2,
        ),
{
    let ghost uv = update_view(u);
    let UpstreamUpdate { old_name, name, config: c } = u;
    let kept = match &old_name {
        Some(o) => match remove_named(&mut config.upstreams, o.as_str()) {
            Some(up) => {
                if up.address.same_as(&c.address) {
                    remove_named(&mut stats.upstreams, o.as_str())
                } else {
                    let _ = remove_named(&mut stats.upstreams, o.as_str());
                    None
                }
            },
            None => None,
        },
        None => None,
    };
    let s = match kept {
        Some(s) => s,
        None => UpstreamStatistics {
            tx: Counter::new(0),
            rx: Counter::new(0),
            last_activity: Counter::new(0),
            last_latency: Counter::new(0),
        },
    };
    let ghost sv = stats_view(s);
    insert_named(&mut config.upstreams, name.clone(), c);
    insert_named(&mut stats.upstreams, name, s);
    proof {
        let (c2, s2) = update_spec(
            entry_map(old(config).upstreams@),
            stats_map(old(stats).upstreams@),
            uv.0,
            uv.1,
            uv.2,
        );
        assert(entry_map(final(config).upstreams@) =~= c2);
        assert(stats_map(final(stats).upstreams@) =~= s2);
    }
}

/// Applies updates to upstreams, in order (the edits of the control
/// server's `POST /api/upstream`).
pub fn update_upstreams(config: &mut ClientConfig, stats: &mut ClientStatistics, updates: Vec<UpstreamUpdate>)
    requires
        names_unique(old(config).upstreams@),
        names_unique(old(stats).upstreams@),
    ensures
        names_unique(final(config).upstreams@),
        names_unique(final(stats).upstreams@),
        final(config).socks5_address == old(config).socks5_address,
        final(config).socks5_udp_host == old(config).socks5_udp_host,
        (entry_map(final(config).upstreams@), stats_map(final(stats).upstreams@)) == updates_spec(
            entry_map(old(config).upstreams@),
            stats_map(old(stats).upstreams@),
            updates@.map_values(|u: UpstreamUpdate| update_view(u)),
        ),
{
    let ghost all = updates@.map_values(|u: UpstreamUpdate| update_view(u));
    let ghost cfg0 = entry_map(config.upstreams@);
    let ghost st0 = stats_map(stats.upstreams@);
    let mut updates = updates;
    let ghost mut done: int = 0;
    proof { assert(all.take(0) =~= Seq::empty()); }
    while updates.len() > 0
        invariant
            0 <= done <= all.len(),
            updates@.map_values(|u: UpstreamUpdate| update_view(u)) == all.skip(done),
            names_unique(config.upstreams@),
            names_unique(stats.upstreams@),
            config.socks5_address == old(config).socks5_address,
            config.socks5_udp_host == old(config).socks5_udp_host,
            (entry_map(config.upstreams@), stats_map(stats.upstreams@)) == updates_spec(cfg0, st0, all.take(done)),
        decreases updates.len(),
    {
        let ghost rest = updates@;
        proof {
            assert(rest.map_values(|u: UpstreamUpdate| update_view(u)).len() == rest.len());
            assert(all.skip(done).len() == all.len() - done);
            assert(done < all.len());
            assert(rest.map_values(|u: UpstreamUpdate| update_view(u))[0] == update_view(rest[0]));
            assert(all.skip(done)[0] == all[done]);
        }
        let u = updates.remove(0);
        proof {
            assert(u == rest[0]);
            assert(update_view(u) == all[done]);
            assert(all.take(done + 1).drop_last() =~= all.take(done));
            assert(updates@ =~= rest.subrange(1, rest.len() as int));
            let mapped = updates@.map_values(|u: UpstreamUpdate| update_view(u));
            assert forall|k: int| 0 <= k < updates@.len() implies #[trigger] mapped[k] == all.skip(done + 1)[k] by {
                assert(updates@[k] == rest[k + 1]);
                assert(rest.map_values(|u: UpstreamUpdate| update_view(u))[k + 1] == update_view(rest[k + 1]));
                assert(all.skip(done)[k + 1] == all[done + 1 + k]);
            }
            assert(updates@.map_values(|u: UpstreamUpdate| update_view(u)) =~= all.skip(done + 1));
        }
        apply_update(config, stats, u);
        proof { done = done + 1; }
    }
    proof { assert(all.take(done) =~= all); }
}

/// The configurations and statistics after removing names, in order.
pub open spec fn removals_spec(
    cfg: Map<Seq<char>, UpstreamConfig>,
    st: Map<Seq<char>, (usize, usize, usize, usize)>,
    names: Seq<Seq<char>>,
) -> (Map<Seq<char>, UpstreamConfig>, Map<Seq<char>, (usize, usize, usize, usize)>)
    decreases names.len(),
{
    if names.len() == 0 {
        (cfg, st)
    } else {
        let (c, s) = removals_spec(cfg, st, names.drop_last());
        (c.remove(names.last()), s.remove(names.last()))
    }
}

/// Removes upstreams by name from the configuration and the statistics (the
/// edits of the control server's `DELETE /api/upstream`).
pub fn delete_upstreams(config: &mut ClientConfig, stats: &mut ClientStatistics, names: Vec<String>)
    requires
        names_unique(old(config).upstreams@),
        names_unique(old(stats).upstreams@),
    ensures
        names_unique(final(config).upstreams@),
        names_unique(final(stats).upstreams@),
        final(config).socks5_address == old(config).socks5_address,
        final(config).socks5_udp_host == old(config).socks5_udp_host,
        (entry_map(final(config).upstreams@), stats_map(final(stats).upstreams@)) == removals_spec(
            entry_map(old(config).upstreams@),
            stats_map(old(stats).upstreams@),
            names@.map_values(|n: String| n@),
        ),
{
    let ghost all = names@.map_values(|n: String| n@);
    let ghost cfg0 = entry_map(config.upstreams@);
    let ghost st0 = stats_map(stats.upstreams@);
    let mut i: usize = 0;
    proof { assert(all.take(0) =~= Seq::empty()); }
    while i < names.len()
        invariant
            i <= names@.len(),
            all == names@.map_values(|n: String| n@),
            names_unique(config.upstreams@),
            names_unique(stats.upstreams@),
            config.socks5_address == old(config).socks5_address,
            config.socks5_udp_host == old(config).socks5_udp_host,
            (entry_map(config.upstreams@), stats_map(stats.upstreams@)) == removals_spec(cfg0, st0, all.take(i as int)),
        decreases names.len() - i,
    {
        let ghost before_s = stats.upstreams@;
        let _ = remove_named(&mut config.upstreams, names[i].as_str());
        let _ = remove_named(&mut stats.upstreams, names[i].as_str());
        proof {
            assert(all.take(i + 1).drop_last() =~= all.take(i as int));
            assert(stats_map(stats.upstreams@) =~= stats_map(before_s).remove(names@[i as int]@));
        }
        i = i + 1;
    }
    proof { assert(all.take(i as int) =~= all); }
}

/// After an update, its name holds its configuration; a renamed upstream's
/// old name is gone from both maps; statistics move to the new name only
/// when the address stays the same, and start at zero otherwise.
pub proof fn lemma_update_effects(
    cfg: Map<Seq<char>, UpstreamConfig>,
    st: Map<Seq<char>, (usize, usize, usize, usize)>,
    old_name: Option<Seq<char>>,
    name: Seq<char>,
    config: UpstreamConfig,
)
    ensures
        ({
            let (c, s) = update_spec(cfg, st, old_name, name, config);
            &&& c.contains_key(name) && c[name] == config
            &&& s.contains_key(name)
            &&& match old_name {
                Some(o) => {
                    &&& (o != name && cfg.contains_key(o)) ==> (!c.contains_key(o) && !s.contains_key(o))
                    &&& (cfg.contains_key(o) && cfg[o].address@ == config.address@ && st.contains_key(o))
                        ==> s[name] == st[o]
                    &&& !(cfg.contains_key(o) && cfg[o].address@ == config.address@ && st.contains_key(o))
                        ==> s[name] == (0usize, 0usize, 0usize, 0usize)
                    &&& forall|k: Seq<char>| k != name && k != o ==>
                        (c.contains_key(k) == cfg.contains_key(k) && (cfg.contains_key(k) ==> c[k] == cfg[k]))
                },
                None => {
                    &&& s[name] == (0usize, 0usize, 0usize, 0usize)
                    &&& forall|k: Seq<char>| k != name ==>
                        (c.contains_key(k) == cfg.contains_key(k) && (cfg.contains_key(k) ==> c[k] == cfg[k]))
                },
            }
        }),
{
}
} // verus!
