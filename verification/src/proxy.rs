//! Which backend serves a request, the URL it is sent to, and the decisions about
//! caching and header forwarding that the proxy makes for it.

use vstd::prelude::*;
use vstd::utf8::encode_utf8;
use crate::config::{ProxyConfig, RouteRuleView, rule_views};
use crate::text::{
    bytes_eq_ignore_ascii_case, bytes_eq_ignore_case, chars_eq_ignore_ascii_case, contains,
    eq_ignore_ascii_case, occurs_in, chars_equal, chars_of, skip_slashes, starts_with, substring, trim_leading_slashes,
    trim_trailing_slashes, trimmed_end,
};

verus! {

/// The three kinds of failure the proxy answers with.
#[derive(Clone, Copy, Debug, PartialEq, Eq, Structural)]
pub enum ProxyErrorKind {
    RouteNotFound,
    BadGateway,
    Internal,
}

/// The HTTP status that answers each kind of failure.
pub open spec fn kind_status(kind: ProxyErrorKind) -> u16 {
    match kind {
        ProxyErrorKind::RouteNotFound => 404,
        ProxyErrorKind::BadGateway => 502,
        ProxyErrorKind::Internal => 500,
    }
}

/// The machine-readable code of each kind of failure.
pub open spec fn kind_code(kind: ProxyErrorKind) -> Seq<char> {
    match kind {
        ProxyErrorKind::RouteNotFound => "route_not_found"@,
        ProxyErrorKind::BadGateway => "bad_gateway"@,
        ProxyErrorKind::Internal => "internal_error"@,
    }
}

/// A failure that the proxy reports to its client.
#[derive(Debug)]
pub struct ProxyError {
    kind: ProxyErrorKind,
    message: String,
}

/// A failure as the contracts see it.
pub struct ProxyErrorView {
    pub kind: ProxyErrorKind,
    pub message: Seq<char>,
}

impl View for ProxyError {
    type V = ProxyErrorView;

    closed spec fn view(&self) -> ProxyErrorView {
        ProxyErrorView { kind: self.kind, message: self.message@ }
    }
}

impl ProxyError {
    /// No rule routes the request.
    pub fn not_found(message: String) -> (e: ProxyError)
        ensures
            e@ == (ProxyErrorView { kind: ProxyErrorKind::RouteNotFound, message: message@ }),
    {
        ProxyError { kind: ProxyErrorKind::RouteNotFound, message }
    }

    /// A service behind the proxy failed.
    pub fn bad_gateway(message: String) -> (e: ProxyError)
        ensures
            e@ == (ProxyErrorView { kind: ProxyErrorKind::BadGateway, message: message@ }),
    {
        ProxyError { kind: ProxyErrorKind::BadGateway, message }
    }

    /// The proxy itself failed.
    pub fn internal(message: String) -> (e: ProxyError)
        ensures
            e@ == (ProxyErrorView { kind: ProxyErrorKind::Internal, message: message@ }),
    {
        ProxyError { kind: ProxyErrorKind::Internal, message }
    }

    /// The kind of failure.
    pub fn kind(&self) -> (k: ProxyErrorKind)
        ensures
            k == self@.kind,
    {
        self.kind
    }

    /// The HTTP status that answers the failure.
    pub fn status(&self) -> (s: u16)
        ensures
            s == kind_status(self@.kind),
    {
        match self.kind {
            ProxyErrorKind::RouteNotFound => 404,
            ProxyErrorKind::BadGateway => 502,
            ProxyErrorKind::Internal => 500,
        }
    }

    /// The machine-readable code of the failure.
    pub fn error_code(&self) -> (code: &'static str)
        ensures
            code@ == kind_code(self@.kind),
    {
        match self.kind {
            ProxyErrorKind::RouteNotFound => "route_not_found",
            ProxyErrorKind::BadGateway => "bad_gateway",
            ProxyErrorKind::Internal => "internal_error",
        }
    }

    /// The human-readable explanation.
    pub fn message(&self) -> (m: &String)
        ensures
            m@ == self@.message,
    {
        &self.message
    }

    /// The code and the explanation on one line, `code: explanation`.
    pub fn to_display_string(&self) -> (text: String)
        ensures
            text@ == kind_code(self@.kind) + ": "@ + self@.message,
    {
        let mut text = String::new();
        text.append(self.error_code());
        text.append(": ");
        text.append(self.message.as_str());
        text
    }
}

/// Where a request goes once a rule has been chosen for it.
#[derive(Debug, Clone, PartialEq, Eq)]
pub struct ResolvedRoute {
    pub backend: String,
    pub route_prefix: String,
    pub upstream_url: String,
    pub cache_ttl_seconds: Option<u64>,
}

/// A resolved route as the contracts see it.
pub struct ResolvedRouteView {
    pub backend: Seq<char>,
    pub route_prefix: Seq<char>,
    pub upstream_url: Seq<char>,
    pub cache_ttl_seconds: Option<u64>,
}

impl View for ResolvedRoute {
    type V = ResolvedRouteView;

    open spec fn view(&self) -> ResolvedRouteView {
        ResolvedRouteView {
            backend: self.backend@,
            route_prefix: self.route_prefix@,
            upstream_url: self.upstream_url@,
            cache_ttl_seconds: self.cache_ttl_seconds,
        }
    }
}

/// A rule with this prefix covers the path: the path is the prefix itself, or continues
/// it with a `'/'`.
pub open spec fn route_matches(prefix: Seq<char>, path: Seq<char>) -> bool {
    ||| path == prefix
    ||| prefix.len() < path.len() && path.subrange(0, prefix.len() as int) == prefix
        && path[prefix.len() as int] == '/'
}

/// The length of a prefix in bytes, by which rules are ranked.
pub open spec fn prefix_weight(prefix: Seq<char>) -> nat {
    encode_utf8(prefix).len()
}

/// Rule `i` is the one chosen among the first `n`: it covers the path, no covering rule
/// among them has a longer prefix, and every later covering rule among them has a
/// shorter one (of equally long prefixes the last wins).
pub open spec fn is_best_among(routes: Seq<RouteRuleView>, path: Seq<char>, i: int, n: int) -> bool {
    &&& 0 <= i < n <= routes.len()
    &&& route_matches(routes[i].prefix, path)
    &&& forall|j: int|
        0 <= j < n && route_matches(#[trigger] routes[j].prefix, path) ==> prefix_weight(
            routes[j].prefix,
        ) <= prefix_weight(routes[i].prefix)
    &&& forall|j: int|
        i < j < n && route_matches(#[trigger] routes[j].prefix, path) ==> prefix_weight(
            routes[j].prefix,
        ) < prefix_weight(routes[i].prefix)
}

/// The rule chosen for a path: the covering rule with the longest prefix, the last of
/// those if several are equally long; `None` when no rule covers the path.
pub open spec fn chosen_route(routes: Seq<RouteRuleView>, path: Seq<char>) -> Option<int> {
    if exists|i: int| is_best_among(routes, path, i, routes.len() as int) {
        Some(choose|i: int| is_best_among(routes, path, i, routes.len() as int))
    } else {
        None
    }
}

/// The part of the path after the prefix, without its leading `'/'` characters.
pub open spec fn path_suffix(prefix: Seq<char>, path: Seq<char>) -> Seq<char> {
    trim_leading_slashes(path.skip(prefix.len() as int))
}

/// The URL a request is sent to: the backend's base URL without trailing `'/'`, then
/// `'/'` and the suffix when there is one, then `'?'` and the query when there is one.
pub open spec fn upstream_url(backend: Seq<char>, suffix: Seq<char>, query: Option<Seq<char>>) -> Seq<
    char,
> {
    trim_trailing_slashes(backend) + (if suffix.len() == 0 {
        Seq::<char>::empty()
    } else {
        "/"@ + suffix
    }) + match query {
        Some(q) => "?"@ + q,
        None => Seq::<char>::empty(),
    }
}

/// The view of an optional text.
pub open spec fn opt_text(q: Option<&str>) -> Option<Seq<char>> {
    match q {
        Some(s) => Some(s@),
        None => None,
    }
}

/// What resolving a request gives: the chosen rule's backend, prefix, upstream URL and
/// cache lifetime; `RouteNotFound` when no rule covers the path; `Internal` when the
/// chosen rule names a backend missing from the catalog.
pub open spec fn resolution(
    routes: Seq<RouteRuleView>,
    backends: Map<Seq<char>, Seq<char>>,
    path: Seq<char>,
    query: Option<Seq<char>>,
) -> Result<ResolvedRouteView, ProxyErrorView> {
    match chosen_route(routes, path) {
        None => Err(
            ProxyErrorView {
                kind: ProxyErrorKind::RouteNotFound,
                message: "No route matches path '"@ + path + "'"@,
            },
        ),
        Some(i) => {
            let r = routes[i];
            if backends.contains_key(r.backend) {
                Ok(
                    ResolvedRouteView {
                        backend: r.backend,
                        route_prefix: r.prefix,
                        upstream_url: upstream_url(
                            backends[r.backend],
                            path_suffix(r.prefix, path),
                            query,
                        ),
                        cache_ttl_seconds: r.cache_ttl_seconds,
                    },
                )
            } else {
                Err(
                    ProxyErrorView {
                        kind: ProxyErrorKind::Internal,
                        message: "Route '"@ + r.prefix + "' references missing backend '"@
                            + r.backend + "'"@,
                    },
                )
            }
        },
    }
}

/// At most one rule is the chosen one.
pub proof fn lemma_best_is_unique(routes: Seq<RouteRuleView>, path: Seq<char>, i: int, k: int, n: int)
    requires
        is_best_among(routes, path, i, n),
        is_best_among(routes, path, k, n),
    ensures
        i == k,
{
    assert(route_matches(routes[i].prefix, path));
    assert(route_matches(routes[k].prefix, path));
    if i < k {
        assert(prefix_weight(routes[k].prefix) < prefix_weight(routes[i].prefix));
        assert(prefix_weight(routes[i].prefix) <= prefix_weight(routes[k].prefix));
    } else if k < i {
        assert(prefix_weight(routes[i].prefix) < prefix_weight(routes[k].prefix));
        assert(prefix_weight(routes[k].prefix) <= prefix_weight(routes[i].prefix));
    }
}

proof fn lemma_encode_concat(a: Seq<char>, b: Seq<char>)
    ensures
        encode_utf8(a + b) == encode_utf8(a) + encode_utf8(b),
    decreases a.len(),
{
    if a.len() == 0 {
        assert(a + b =~= b);
        assert(encode_utf8(a) =~= Seq::<u8>::empty());
        assert(encode_utf8(a) + encode_utf8(b) =~= encode_utf8(b));
    } else {
        lemma_encode_concat(a.drop_first(), b);
        assert((a + b).drop_first() =~= a.drop_first() + b);
        assert((a + b)[0] == a[0]);
        assert(encode_utf8(a + b) =~= encode_utf8(a) + encode_utf8(b));
    }
}

proof fn lemma_encode_len(s: Seq<char>)
    ensures
        encode_utf8(s).len() >= s.len(),
    decreases s.len(),
{
    if s.len() > 0 {
        lemma_encode_len(s.drop_first());
    }
}

/// Of two prefixes that both cover a path, the one with more characters has more bytes.
proof fn lemma_weight_follows_length(path: Seq<char>, a: Seq<char>, b: Seq<char>)
    requires
        route_matches(a, path),
        route_matches(b, path),
        a.len() < b.len(),
    ensures
        prefix_weight(a) < prefix_weight(b),
{
    assert(a =~= path.subrange(0, a.len() as int));
    assert(b =~= path.subrange(0, b.len() as int));
    let mid = path.subrange(a.len() as int, b.len() as int);
    assert(b =~= a + mid);
    lemma_encode_concat(a, mid);
    lemma_encode_len(mid);
}

/// Two prefixes of the same length that both cover a path are the same.
proof fn lemma_same_length_same_prefix(path: Seq<char>, a: Seq<char>, b: Seq<char>)
    requires
        route_matches(a, path),
        route_matches(b, path),
        a.len() == b.len(),
    ensures
        a == b,
{
    assert(a =~= path.subrange(0, a.len() as int));
    assert(b =~= path.subrange(0, b.len() as int));
}

/// Whether the prefix covers the path, on characters.
fn prefix_covers(prefix: &Vec<char>, path: &Vec<char>) -> (res: bool)
    ensures
        res == route_matches(prefix@, path@),
{
    if chars_equal(path, prefix) {
        return true;
    }
    if prefix.len() < path.len() && starts_with(path, prefix) {
        return path[prefix.len()] == '/';
    }
    false
}

/// Whether a rule with this prefix covers the request path.
pub fn route_matches_path(prefix: &str, request_path: &str) -> (res: bool)
    ensures
        res == route_matches(prefix@, request_path@),
{
    let p = chars_of(prefix);
    let q = chars_of(request_path);
    prefix_covers(&p, &q)
}

/// The URL a request is sent to, from the backend's base URL, the rest of the path
/// and the query.
pub fn build_upstream_url(backend: &str, suffix: &str, query: Option<&str>) -> (url: String)
    ensures
        url@ == upstream_url(backend@, suffix@, opt_text(query)),
{
    let b = chars_of(backend);
    let end = trimmed_end(&b);
    let mut url = substring(backend, 0, end);
    if !suffix.is_empty() {
        url.append("/");
        url.append(suffix);
    }
    match query {
        Some(q) => {
            url.append("?");
            url.append(q);
        },
        None => {},
    }
    url
}

/// The index of the chosen rule, if a rule covers the path.
fn choose_route(config: &ProxyConfig, path: &Vec<char>) -> (best: Option<usize>)
    ensures
        match best {
            Some(i) => is_best_among(rule_views(config.routes@), path@, i as int, config.routes@.len() as int),
            None => forall|j: int|
                0 <= j < config.routes@.len() ==> !route_matches(
                    #[trigger] rule_views(config.routes@)[j].prefix,
                    path@,
                ),
        },
{
    let ghost routes = rule_views(config.routes@);
    let mut best: Option<usize> = None;
    let mut best_weight: usize = 0;
    let mut j: usize = 0;
    while j < config.routes.len()
        invariant
            routes == rule_views(config.routes@),
            j <= config.routes@.len(),
            match best {
                Some(i) => is_best_among(routes, path@, i as int, j as int) && best_weight
                    == routes[i as int].prefix.len(),
                None => forall|k: int| 0 <= k < j ==> !route_matches(#[trigger] routes[k].prefix, path@),
            },
        decreases config.routes@.len() - j,
    {
        let prefix = config.routes[j].prefix.as_str();
        let p = chars_of(prefix);
        assert(routes[j as int] == config.routes@[j as int]@);
        let covers = prefix_covers(&p, path);
        if covers {
            let weight = p.len();
            proof {
                match best {
                    Some(b) => {
                        let pb = routes[b as int].prefix;
                        let pj = routes[j as int].prefix;
                        if pj.len() < pb.len() {
                            lemma_weight_follows_length(path@, pj, pb);
                        } else if pb.len() < pj.len() {
                            lemma_weight_follows_length(path@, pb, pj);
                        } else {
                            lemma_same_length_same_prefix(path@, pb, pj);
                        }
                    },
                    None => {},
                }
            }
            let take = match best {
                None => true,
                Some(_) => weight >= best_weight,
            };
            if take {
                proof {
                    assert forall|k: int|
                        0 <= k < j + 1 && route_matches(#[trigger] routes[k].prefix, path@) implies prefix_weight(
                        routes[k].prefix,
                    ) <= prefix_weight(routes[j as int].prefix) by {
                        if k < j {
                            match best {
                                Some(b) => {
                                    assert(prefix_weight(routes[k].prefix) <= prefix_weight(
                                        routes[b as int].prefix,
                                    ));
                                },
                                None => {
                                    assert(!route_matches(routes[k].prefix, path@));
                                },
                            }
                        }
                    }
                }
                best = Some(j);
                best_weight = weight;
            } else {
                proof {
                    let b = best->0;
                    assert(weight < best_weight);
                    assert forall|k: int|
                        0 <= k < j + 1 && route_matches(#[trigger] routes[k].prefix, path@) implies prefix_weight(
                        routes[k].prefix,
                    ) <= prefix_weight(routes[b as int].prefix) by {
                        if k < j {
                            assert(is_best_among(routes, path@, b as int, j as int));
                        }
                    }
                    assert forall|k: int|
                        b < k < j + 1 && route_matches(#[trigger] routes[k].prefix, path@) implies prefix_weight(
                        routes[k].prefix,
                    ) < prefix_weight(routes[b as int].prefix) by {
                        if k < j {
                            assert(is_best_among(routes, path@, b as int, j as int));
                        }
                    }
                }
            }
        } else {
            proof {
                match best {
                    Some(b) => {
                        assert forall|k: int|
                            0 <= k < j + 1 && route_matches(#[trigger] routes[k].prefix, path@) implies prefix_weight(
                            routes[k].prefix,
                        ) <= prefix_weight(routes[b as int].prefix) by {
                            if k < j {
                                assert(is_best_among(routes, path@, b as int, j as int));
                            }
                        }
                        assert forall|k: int|
                            b < k < j + 1 && route_matches(#[trigger] routes[k].prefix, path@) implies prefix_weight(
                            routes[k].prefix,
                        ) < prefix_weight(routes[b as int].prefix) by {
                            if k < j {
                                assert(is_best_among(routes, path@, b as int, j as int));
                            }
                        }
                    },
                    None => {},
                }
            }
        }
        j = j + 1;
    }
    best
}

/// Chooses the rule for a request and works out where it goes: the rule with the longest
/// prefix that covers the path (the last of equally long ones), its backend's base URL
/// joined with the rest of the path and the query, and the rule's cache lifetime.
pub fn resolve_route(config: &ProxyConfig, request_path: &str, query: Option<&str>) -> (res: Result<
    ResolvedRoute,
    ProxyError,
>)
    ensures
        match res {
            Ok(r) => resolution(
                rule_views(config.routes@),
                config.backends@,
                request_path@,
                opt_text(query),
            ) == Ok::<ResolvedRouteView, ProxyErrorView>(r@),
            Err(e) => resolution(
                rule_views(config.routes@),
                config.backends@,
                request_path@,
                opt_text(query),
            ) == Err::<ResolvedRouteView, ProxyErrorView>(e@),
        },
{
    let ghost routes = rule_views(config.routes@);
    let path = chars_of(request_path);
    match choose_route(config, &path) {
        None => {
            let mut message = String::new();
            message.append("No route matches path '");
            message.append(request_path);
            message.append("'");
            proof {
                if exists|i: int| is_best_among(routes, request_path@, i, routes.len() as int) {
                    let i = choose|i: int| is_best_among(routes, request_path@, i, routes.len() as int);
                    assert(!route_matches(routes[i].prefix, request_path@));
                }
            }
            Err(ProxyError::not_found(message))
        },
        Some(i) => {
            proof {
                let c = choose|k: int| is_best_among(routes, request_path@, k, routes.len() as int);
                lemma_best_is_unique(routes, request_path@, i as int, c, routes.len() as int);
            }
            let route = &config.routes[i];
            match config.backends.get(route.backend.as_str()) {
                Some(backend) => {
                    let prefix = chars_of(route.prefix.as_str());
                    let start = skip_slashes(&path, prefix.len());
                    let suffix = substring(request_path, start, path.len());
                    assert(path@.skip(start as int) =~= suffix@);
                    let upstream_url = build_upstream_url(backend.as_str(), suffix.as_str(), query);
                    Ok(
                        ResolvedRoute {
                            backend: route.backend.clone(),
                            route_prefix: route.prefix.clone(),
                            upstream_url,
                            cache_ttl_seconds: route.cache_ttl_seconds,
                        },
                    )
                },
                None => {
                    let mut message = String::new();
                    message.append("Route '");
                    message.append(route.prefix.as_str());
                    message.append("' references missing backend '");
                    message.append(route.backend.as_str());
                    message.append("'");
                    Err(ProxyError::internal(message))
                },
            }
        },
    }
}

/// The key under which a response is cached: `cache-proxy:`, the method, `:`, the URL.
pub fn build_cache_key(method: &str, upstream_url: &str) -> (key: String)
    ensures
        key@ == "cache-proxy:"@ + method@ + ":"@ + upstream_url@,
{
    let mut key = String::new();
    key.append("cache-proxy:");
    key.append(method);
    key.append(":");
    key.append(upstream_url);
    key
}

/// How long to cache the response to a request: only `GET` requests that were not asked
/// to bypass the cache are cached, for the route's lifetime.
pub open spec fn cache_lifetime(method: Seq<char>, cache_ttl_seconds: Option<u64>, cache_bypassed: bool) -> Option<u64> {
    if cache_bypassed || method != "GET"@ {
        None
    } else {
        cache_ttl_seconds
    }
}

/// How long to cache the response to a request with this method (by its name, such as
/// `GET`), the route's cache lifetime, and whether the client asked to bypass the cache.
pub fn should_cache_request(method: &str, cache_ttl_seconds: Option<u64>, cache_bypassed: bool) -> (ttl: Option<u64>)
    ensures
        ttl == cache_lifetime(method@, cache_ttl_seconds, cache_bypassed),
{
    let m = chars_of(method);
    let get = chars_of("GET");
    if cache_bypassed || !chars_equal(&m, &get) {
        return None;
    }
    cache_ttl_seconds
}

/// The headers that are never passed on: hop-by-hop headers, the length (recomputed),
/// and the proxy's own `x-cache`.
pub open spec fn is_withheld_header(name: Seq<char>) -> bool {
    ||| eq_ignore_ascii_case(name, "host"@)
    ||| eq_ignore_ascii_case(name, "connection"@)
    ||| eq_ignore_ascii_case(name, "keep-alive"@)
    ||| eq_ignore_ascii_case(name, "proxy-authenticate"@)
    ||| eq_ignore_ascii_case(name, "proxy-authorization"@)
    ||| eq_ignore_ascii_case(name, "te"@)
    ||| eq_ignore_ascii_case(name, "trailers"@)
    ||| eq_ignore_ascii_case(name, "transfer-encoding"@)
    ||| eq_ignore_ascii_case(name, "upgrade"@)
    ||| eq_ignore_ascii_case(name, "content-length"@)
    ||| eq_ignore_ascii_case(name, "x-cache"@)
}

fn is_named(name: &Vec<char>, other: &str) -> (res: bool)
    ensures
        res == eq_ignore_ascii_case(name@, other@),
{
    let o = chars_of(other);
    chars_eq_ignore_ascii_case(name, &o)
}

/// Whether a header with this name is passed on, to the backend or to the client.
pub fn should_forward_header(name: &str) -> (res: bool)
    ensures
        res == !is_withheld_header(name@),
{
    let n = chars_of(name);
    !(is_named(&n, "host") || is_named(&n, "connection") || is_named(&n, "keep-alive")
        || is_named(&n, "proxy-authenticate") || is_named(&n, "proxy-authorization") || is_named(
        &n,
        "te",
    ) || is_named(&n, "trailers") || is_named(&n, "transfer-encoding") || is_named(&n, "upgrade")
        || is_named(&n, "content-length") || is_named(&n, "x-cache"))
}

/// Headers as the contracts see them: each name with its value's bytes, in order.
pub open spec fn header_views(headers: Seq<(String, Vec<u8>)>) -> Seq<(Seq<char>, Seq<u8>)> {
    headers.map_values(|h: (String, Vec<u8>)| (h.0@, h.1@))
}

/// The first value given for the header `name`.
pub open spec fn first_header_value(headers: Seq<(Seq<char>, Seq<u8>)>, name: Seq<char>) -> Option<Seq<u8>>
    decreases headers.len(),
{
    if headers.len() == 0 {
        None
    } else if headers[0].0 == name {
        Some(headers[0].1)
    } else {
        first_header_value(headers.drop_first(), name)
    }
}

/// Every byte is visible ASCII or a tab: the values that read as text.
pub open spec fn is_visible_ascii(v: Seq<u8>) -> bool {
    forall|i: int| 0 <= i < v.len() ==> (#[trigger] v[i] == 9u8 || (32u8 <= v[i] && v[i] < 127u8))
}

/// The header `x-cache-bypass` asks to bypass the cache: its first value reads as text
/// and is `1` or, in any case, `true`.
pub open spec fn header_asks_bypass(headers: Seq<(Seq<char>, Seq<u8>)>) -> bool {
    match first_header_value(headers, "x-cache-bypass"@) {
        Some(v) => is_visible_ascii(v) && (v == seq![49u8] || bytes_eq_ignore_ascii_case(
            v,
            seq![116u8, 114u8, 117u8, 101u8],
        )),
        None => false,
    }
}

/// The query asks to bypass the cache: it holds `cache_bypass=1`, `cache_bypass=true` or
/// `cache_bypass=True`.
pub open spec fn query_asks_bypass(query: Option<Seq<char>>) -> bool {
    match query {
        Some(q) => occurs_in("cache_bypass=1"@, q) || occurs_in("cache_bypass=true"@, q) || occurs_in(
            "cache_bypass=True"@,
            q,
        ),
        None => false,
    }
}

/// The position of the first header called `name`.
fn find_header(headers: &Vec<(String, Vec<u8>)>, name: &String) -> (pos: Option<usize>)
    ensures
        match pos {
            Some(i) => i < headers@.len() && first_header_value(header_views(headers@), name@) == Some(
                headers@[i as int].1@,
            ),
            None => first_header_value(header_views(headers@), name@) is None,
        },
{
    let ghost hs = header_views(headers@);
    let mut i: usize = 0;
    assert(hs.skip(0) =~= hs);
    while i < headers.len()
        invariant
            hs == header_views(headers@),
            i <= headers@.len(),
            first_header_value(hs, name@) == first_header_value(hs.skip(i as int), name@),
        decreases headers@.len() - i,
    {
        assert(hs.skip(i as int)[0] == (headers@[i as int].0@, headers@[i as int].1@));
        if headers[i].0 == *name {
            return Some(i);
        }
        assert(hs.skip(i as int).drop_first() =~= hs.skip(i + 1));
        i = i + 1;
    }
    assert(hs.skip(i as int).len() == 0);
    None
}

/// Whether every byte is visible ASCII or a tab.
pub fn visible_ascii(v: &Vec<u8>) -> (res: bool)
    ensures
        res == is_visible_ascii(v@),
{
    let mut i: usize = 0;
    while i < v.len()
        invariant
            i <= v@.len(),
            forall|j: int| 0 <= j < i ==> (#[trigger] v@[j] == 9u8 || (32u8 <= v@[j] && v@[j] < 127u8)),
        decreases v@.len() - i,
    {
        let b = v[i];
        if !(b == 9 || (32 <= b && b < 127)) {
            return false;
        }
        i = i + 1;
    }
    true
}

/// Whether the client asked to bypass the cache, by the header `x-cache-bypass` or by
/// the query. Header names are in the lower case in which HTTP header names are kept.
pub fn should_bypass_cache(headers: &Vec<(String, Vec<u8>)>, query: Option<&str>) -> (res: bool)
    ensures
        res == (header_asks_bypass(header_views(headers@)) || query_asks_bypass(opt_text(query))),
{
    let name = "x-cache-bypass".to_owned();
    let header_bypass = match find_header(headers, &name) {
        Some(i) => {
            let v = &headers[i].1;
            let one: Vec<u8> = vec![49u8];
            let truth: Vec<u8> = vec![116u8, 114u8, 117u8, 101u8];
            let is_one = v.len() == 1 && v[0] == 49u8;
            assert(is_one == (v@ == one@)) by {
                if v@.len() == 1 && v@[0] == 49u8 {
                    assert(v@ =~= one@);
                }
            }
            assert(truth@ == seq![116u8, 114u8, 117u8, 101u8]);
            assert(one@ == seq![49u8]);
            let r = visible_ascii(v) && (is_one || bytes_eq_ignore_case(v.as_slice(), truth.as_slice()));
            assert(r == header_asks_bypass(header_views(headers@)));
            r
        },
        None => false,
    };
    assert(header_bypass == header_asks_bypass(header_views(headers@)));
    let query_bypass = match query {
        Some(q) => {
            let qc = chars_of(q);
            let p1 = chars_of("cache_bypass=1");
            let p2 = chars_of("cache_bypass=true");
            let p3 = chars_of("cache_bypass=True");
            contains(&qc, &p1) || contains(&qc, &p2) || contains(&qc, &p3)
        },
        None => false,
    };
    header_bypass || query_bypass
}

} // verus!
