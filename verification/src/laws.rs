//! Properties of the proxy that span several of its functions.

use vstd::prelude::*;
use crate::boundary::url_parse_failure;
use crate::config::{
    ConfigErrorView, RouteRuleView, config_is_valid, entries_map,
    law_validation_accepts_exactly_valid_configs, route_problem, validation_outcome,
};
use crate::flow::{
    finished,
    ProxyActionView, ProxyEventView, ProxyFlowView, ProxyStage, begin, expects, is_success,
    transition,
};
use crate::proxy::{
    ProxyErrorKind, chosen_route, first_header_value, header_asks_bypass, is_best_among, is_withheld_header,
    prefix_weight, query_asks_bypass, resolution, route_matches, upstream_url,
};
use crate::boundary::base64_encoding;
use crate::boundary::base64_decoding;
use crate::response::{
    cache_status_value, forwarded_headers, grouped_headers, is_kept_header_name, is_status_code,
    law_cache_round_trip, replayable_headers, response_with, stored_headers, stored_response, HttpResponseView,
};
use crate::text::{occurs_in, eq_ignore_ascii_case, fold_case, fold_byte_case, bytes_eq_ignore_ascii_case};
use vstd::utf8::{char_u32_cast, decode_utf8, encode_utf8, is_ascii_chars_encode_utf8};

verus! {

/// The rule chosen for a path covers it, and no covering rule has a longer prefix.
pub proof fn law_chosen_route_is_longest_match(routes: Seq<RouteRuleView>, path: Seq<char>, i: int)
    requires
        chosen_route(routes, path) == Some(i),
    ensures
        0 <= i < routes.len(),
        route_matches(routes[i].prefix, path),
        forall|j: int|
            0 <= j < routes.len() && route_matches(#[trigger] routes[j].prefix, path) ==> prefix_weight(
                routes[j].prefix,
            ) <= prefix_weight(routes[i].prefix),
{
}

proof fn lemma_some_best_exists(routes: Seq<RouteRuleView>, path: Seq<char>, n: int, k: int)
    requires
        0 <= k < n <= routes.len(),
        route_matches(routes[k].prefix, path),
    ensures
        exists|i: int| is_best_among(routes, path, i, n),
    decreases n,
{
    if k == n - 1 {
        if exists|i: int| 0 <= i < n - 1 && route_matches(#[trigger] routes[i].prefix, path) {
            let w = choose|i: int| 0 <= i < n - 1 && route_matches(#[trigger] routes[i].prefix, path);
            let m = n - 1;
            lemma_some_best_exists(routes, path, m, w);
            let b = choose|i: int| is_best_among(routes, path, i, m);
            if prefix_weight(routes[n - 1].prefix) >= prefix_weight(routes[b].prefix) {
                assert(is_best_among(routes, path, n - 1, n));
            } else {
                assert(is_best_among(routes, path, b, n));
            }
        } else {
            assert(is_best_among(routes, path, n - 1, n));
        }
    } else {
        let m = n - 1;
        lemma_some_best_exists(routes, path, m, k);
        let b = choose|i: int| is_best_among(routes, path, i, m);
        if route_matches(routes[n - 1].prefix, path) && prefix_weight(routes[n - 1].prefix)
            >= prefix_weight(routes[b].prefix) {
            assert(is_best_among(routes, path, n - 1, n));
        } else {
            assert(is_best_among(routes, path, b, n));
        }
    }
}

/// A path finds no route exactly when no rule covers it.
pub proof fn law_no_route_exactly_when_nothing_covers(routes: Seq<RouteRuleView>, path: Seq<char>)
    ensures
        chosen_route(routes, path) is None <==> forall|j: int|
            0 <= j < routes.len() ==> !route_matches(#[trigger] routes[j].prefix, path),
{
    if exists|j: int| 0 <= j < routes.len() && route_matches(#[trigger] routes[j].prefix, path) {
        let k = choose|j: int| 0 <= j < routes.len() && route_matches(#[trigger] routes[j].prefix, path);
        lemma_some_best_exists(routes, path, routes.len() as int, k);
    }
}

/// Under a configuration that passes validation, resolving a request never fails for a
/// missing backend: it gives a route, or reports that no route matches.
pub proof fn law_validated_config_has_no_missing_backend(
    entries: Seq<(Seq<char>, Seq<char>)>,
    routes: Seq<RouteRuleView>,
    path: Seq<char>,
    query: Option<Seq<char>>,
)
    requires
        validation_outcome(entries, routes) is Ok,
    ensures
        match resolution(routes, entries_map(entries), path, query) {
            Ok(_) => true,
            Err(e) => e.kind == ProxyErrorKind::RouteNotFound,
        },
{
    law_validation_accepts_exactly_valid_configs(entries, routes);
    assert(config_is_valid(entries, routes));
    match chosen_route(routes, path) {
        Some(i) => {
            assert(is_best_among(routes, path, i, routes.len() as int));
            assert(route_problem(routes[i], entries_map(entries)) is None);
        },
        None => {},
    }
}

/// The query is passed to the backend as it came, after a `?` at the end of the URL.
pub proof fn law_query_is_kept(backend: Seq<char>, suffix: Seq<char>, query: Seq<char>)
    ensures
        upstream_url(backend, suffix, Some(query)) == upstream_url(backend, suffix, None) + "?"@ + query,
{
    assert(upstream_url(backend, suffix, None) =~= upstream_url(backend, suffix, None) + Seq::<char>::empty());
}

/// No header that is withheld is ever passed on.
pub proof fn law_withheld_headers_are_dropped(hs: Seq<(Seq<char>, Seq<u8>)>)
    ensures
        forall|i: int|
            0 <= i < forwarded_headers(hs).len() ==> !is_withheld_header(#[trigger] forwarded_headers(hs)[i].0),
        forall|i: int| 0 <= i < forwarded_headers(hs).len() ==> hs.contains(#[trigger] forwarded_headers(hs)[i]),
    decreases hs.len(),
{
    if hs.len() > 0 {
        law_withheld_headers_are_dropped(hs.drop_last());
        let f = forwarded_headers(hs);
        let r = forwarded_headers(hs.drop_last());
        assert forall|i: int| 0 <= i < f.len() implies hs.contains(#[trigger] f[i]) by {
            if i < r.len() {
                assert(f[i] == r[i]);
                let k = choose|k: int| 0 <= k < hs.drop_last().len() && hs.drop_last()[k] == r[i];
                assert(hs[k] == r[i]);
            } else {
                assert(f[i] == hs[hs.len() - 1]);
            }
        }
    }
}

/// A request that asks to bypass the cache is never looked up in it, and nothing is
/// ever stored for it.
pub proof fn law_bypassed_requests_skip_the_cache(
    routes: Seq<RouteRuleView>,
    backends: Map<Seq<char>, Seq<char>>,
    method: Seq<char>,
    path: Seq<char>,
    query: Option<Seq<char>>,
    headers: Seq<(Seq<char>, Seq<u8>)>,
    body: Seq<u8>,
)
    requires
        header_asks_bypass(headers) || query_asks_bypass(query),
    ensures
        !(begin(routes, backends, method, path, query, headers, body).1 is ReadCache),
        begin(routes, backends, method, path, query, headers, body).0.cache_ttl is None,
{
}

/// Only `GET` requests are looked up in the cache or stored in it.
pub proof fn law_only_get_requests_use_the_cache(
    routes: Seq<RouteRuleView>,
    backends: Map<Seq<char>, Seq<char>>,
    method: Seq<char>,
    path: Seq<char>,
    query: Option<Seq<char>>,
    headers: Seq<(Seq<char>, Seq<u8>)>,
    body: Seq<u8>,
)
    requires
        method != "GET"@,
    ensures
        !(begin(routes, backends, method, path, query, headers, body).1 is ReadCache),
        begin(routes, backends, method, path, query, headers, body).0.cache_ttl is None,
{
}

/// A handling without a cache lifetime never stores anything, and keeps having none.
pub proof fn law_uncached_handling_never_stores(f: ProxyFlowView, e: ProxyEventView)
    requires
        f.cache_ttl is None,
        expects(f, e),
    ensures
        !(transition(f, e).1 is StoreInCache),
        transition(f, e).0.cache_ttl is None,
{
}

/// Only a successful answer of the backend is stored in the cache, and only under a
/// cache lifetime.
pub proof fn law_only_successes_are_stored(f: ProxyFlowView, e: ProxyEventView)
    requires
        expects(f, e),
        transition(f, e).1 is StoreInCache,
    ensures
        f.cache_ttl is Some,
        e matches ProxyEventView::UpstreamResponded(r) && is_success(r.status),
{
}

/// Once the client is answered, with a response or a failure, the handling is finished.
pub proof fn law_answers_finish_the_handling(f: ProxyFlowView, e: ProxyEventView)
    requires
        expects(f, e),
        transition(f, e).1 is Respond || transition(f, e).1 is Fail,
    ensures
        transition(f, e).0.stage == ProxyStage::Finished,
{
}

/// A finished handling expects nothing more.
pub proof fn law_finished_handling_takes_no_event(f: ProxyFlowView, e: ProxyEventView)
    requires
        f.stage == ProxyStage::Finished,
    ensures
        !expects(f, e),
{
}

/// Cache keys tell requests apart: for methods without `:` (as HTTP method tokens are),
/// two method/URL pairs give the same key exactly when they are the same pair.
pub proof fn law_cache_keys_are_distinct(m1: Seq<char>, u1: Seq<char>, m2: Seq<char>, u2: Seq<char>)
    requires
        !m1.contains(':'),
        !m2.contains(':'),
    ensures
        ("cache-proxy:"@ + m1 + ":"@ + u1 == "cache-proxy:"@ + m2 + ":"@ + u2) <==> (m1 == m2 && u1 == u2),
{
    reveal_strlit(":");
    let p = "cache-proxy:"@;
    let c = ":"@;
    let k1 = p + m1 + c + u1;
    let k2 = p + m2 + c + u2;
    if k1 == k2 {
        let x1 = m1 + c + u1;
        let x2 = m2 + c + u2;
        assert(k1 =~= p + x1);
        assert(k2 =~= p + x2);
        assert(x1 =~= k1.skip(p.len() as int));
        assert(x2 =~= k2.skip(p.len() as int));
        assert(x1 == x2);
        if m1.len() < m2.len() {
            assert(x1[m1.len() as int] == ':');
            assert(x2[m1.len() as int] == m2[m1.len() as int]);
            assert(m2.contains(m2[m1.len() as int]));
        } else if m2.len() < m1.len() {
            assert(x2[m2.len() as int] == ':');
            assert(x1[m2.len() as int] == m1[m2.len() as int]);
            assert(m1.contains(m1[m2.len() as int]));
        }
        assert(m1.len() == m2.len());
        assert(m1 =~= x1.take(m1.len() as int));
        assert(m2 =~= x2.take(m2.len() as int));
        assert(u1 =~= x1.skip(m1.len() as int + 1));
        assert(u2 =~= x2.skip(m2.len() as int + 1));
    }
}

/// While a cache read is awaited, every outcome of the read is taken: the cache being
/// unreachable or failing, a stored entry (readable or not), and nothing stored.
pub proof fn law_cache_read_outcomes_are_all_taken(f: ProxyFlowView, e: ProxyEventView)
    requires
        f.stage == ProxyStage::AwaitingCache,
        f.upstream is Some,
        f.cache_ttl is Some,
        e is CacheUnavailable || e is CacheReadFailed || e is CacheHit || e is CacheEntryUnreadable
            || e is CacheMiss,
    ensures
        expects(f, e),
{
}

/// While the backend's answer is awaited, its failure, a failure to read its body, and
/// any answer with an HTTP status are all taken.
pub proof fn law_backend_outcomes_are_all_taken(f: ProxyFlowView, e: ProxyEventView)
    requires
        f.stage == ProxyStage::AwaitingUpstream,
        e is UpstreamFailed || e is UpstreamBodyFailed || (e matches ProxyEventView::UpstreamResponded(r)
            && 100 <= r.status <= 999),
    ensures
        expects(f, e),
{
}

/// While a cache write is awaited, every outcome of the write is taken.
pub proof fn law_cache_write_outcomes_are_all_taken(f: ProxyFlowView, e: ProxyEventView)
    requires
        f.stage == ProxyStage::AwaitingStore,
        f.pending is Some,
        e is CacheUnavailable || e is CacheEntryUnwritable || e is CacheWriteFailed || e is CacheWritten,
    ensures
        expects(f, e),
{
}

/// Each action leaves the handling in the stage that awaits that action's outcome: after
/// a cache read the read's outcomes, after a request to the backend its answer, after a
/// cache write the write's outcomes; an answer to the client finishes it. So every
/// outcome the caller can report is taken.
pub proof fn law_actions_await_their_outcomes(
    routes: Seq<RouteRuleView>,
    backends: Map<Seq<char>, Seq<char>>,
    method: Seq<char>,
    path: Seq<char>,
    query: Option<Seq<char>>,
    headers: Seq<(Seq<char>, Seq<u8>)>,
    body: Seq<u8>,
    f: ProxyFlowView,
    e: ProxyEventView,
)
    ensures
        ({
            let (g, a) = begin(routes, backends, method, path, query, headers, body);
            &&& a is ReadCache ==> g.stage == ProxyStage::AwaitingCache && g.upstream is Some
                && g.cache_ttl is Some
            &&& a is SendUpstream ==> g.stage == ProxyStage::AwaitingUpstream
            &&& a is Fail ==> g.stage == ProxyStage::Finished
        }),
        expects(f, e) ==> ({
            let (g, a) = transition(f, e);
            &&& a is SendUpstream ==> g.stage == ProxyStage::AwaitingUpstream
            &&& a is StoreInCache ==> g.stage == ProxyStage::AwaitingStore && g.pending is Some
            &&& (a is Respond || a is Fail) ==> g.stage == ProxyStage::Finished
            &&& !(a is ReadCache)
        }),
{
}

/// A rule whose prefix starts with `/`, whose backend is in the catalog and whose cache
/// lifetime is anything but 0 (or none) has no problem; each failed check gives its own
/// refusal, the prefix checked first, then the backend, then the lifetime.
pub proof fn law_route_checks(r: RouteRuleView, b: Map<Seq<char>, Seq<char>>)
    ensures
        (r.prefix.len() > 0 && r.prefix[0] == '/' && b.contains_key(r.backend) && r.cache_ttl_seconds
            != Some(0u64)) ==> route_problem(r, b) is None,
        (r.prefix.len() == 0 || r.prefix[0] != '/') ==> route_problem(r, b) == Some(
            ConfigErrorView::PrefixWithoutLeadingSlash { prefix: r.prefix },
        ),
        (r.prefix.len() > 0 && r.prefix[0] == '/' && !b.contains_key(r.backend)) ==> route_problem(r, b)
            == Some(ConfigErrorView::UnknownBackend { prefix: r.prefix, backend: r.backend }),
        (r.prefix.len() > 0 && r.prefix[0] == '/' && b.contains_key(r.backend) && r.cache_ttl_seconds
            == Some(0u64)) ==> route_problem(r, b) == Some(
            ConfigErrorView::ZeroCacheTtl { prefix: r.prefix },
        ),
{
}

/// A configuration with at least one backend and one rule, whose backend URLs all parse
/// and whose rules all start with `/`, name a backend of the catalog and have a cache
/// lifetime other than 0 (any positive number, or none), is accepted.
pub proof fn law_sound_configs_are_accepted(entries: Seq<(Seq<char>, Seq<char>)>, routes: Seq<RouteRuleView>)
    requires
        entries.len() > 0,
        routes.len() > 0,
        forall|i: int| 0 <= i < entries.len() ==> url_parse_failure(#[trigger] entries[i].1) is None,
        forall|i: int|
            0 <= i < routes.len() ==> (#[trigger] routes[i]).prefix.len() > 0 && routes[i].prefix[0] == '/'
                && entries_map(entries).contains_key(routes[i].backend) && routes[i].cache_ttl_seconds
                != Some(0u64),
    ensures
        validation_outcome(entries, routes) is Ok,
{
    law_validation_accepts_exactly_valid_configs(entries, routes);
    assert forall|i: int| 0 <= i < routes.len() implies route_problem(#[trigger] routes[i], entries_map(entries))
        is None by {
        law_route_checks(routes[i], entries_map(entries));
    }
}

/// The first value of a header is the value of the first entry with that name; where no
/// entry has the name, there is none.
pub proof fn law_first_header_value(hs: Seq<(Seq<char>, Seq<u8>)>, name: Seq<char>)
    ensures
        first_header_value(hs, name) is None <==> forall|j: int| 0 <= j < hs.len() ==> (#[trigger] hs[j]).0 != name,
        forall|i: int|
            0 <= i < hs.len() && (#[trigger] hs[i]).0 == name && (forall|j: int| 0 <= j < i ==> (#[trigger] hs[j]).0
                != name) ==> first_header_value(hs, name) == Some(hs[i].1),
    decreases hs.len(),
{
    if hs.len() > 0 {
        let rest = hs.drop_first();
        law_first_header_value(rest, name);
        assert forall|j: int| 0 <= j < rest.len() implies rest[j] == hs[j + 1] by {}
        if hs[0].0 != name {
            assert forall|i: int|
                0 <= i < hs.len() && (#[trigger] hs[i]).0 == name && (forall|j: int| 0 <= j < i ==> (#[trigger] hs[j]).0
                    != name) implies first_header_value(hs, name) == Some(hs[i].1) by {
                assert(i > 0);
                assert(rest[i - 1] == hs[i]);
                assert forall|j: int| 0 <= j < i - 1 implies (#[trigger] rest[j]).0 != name by {
                    assert(rest[j] == hs[j + 1]);
                }
            }
            if first_header_value(hs, name) is None {
                assert forall|j: int| 0 <= j < hs.len() implies (#[trigger] hs[j]).0 != name by {
                    if j > 0 {
                        assert(rest[j - 1] == hs[j]);
                    }
                }
            } else {
                let k = choose|j: int| 0 <= j < rest.len() && (#[trigger] rest[j]).0 == name;
                assert(hs[k + 1].0 == name);
            }
        }
    }
}

/// The header `x-cache-bypass` asks to bypass the cache exactly when its first value is
/// the single byte `1`, or the four bytes `true` with each letter in either case; any other
/// value, such as `0`, `yes` or `tru`, does not, and neither does a request without it.
pub proof fn law_bypass_header_values(hs: Seq<(Seq<char>, Seq<u8>)>)
    ensures
        match first_header_value(hs, "x-cache-bypass"@) {
            Some(v) => header_asks_bypass(hs) <==> (v == seq![49u8] || (v.len() == 4 && (v[0] == 116u8
                || v[0] == 84u8) && (v[1] == 114u8 || v[1] == 82u8) && (v[2] == 117u8 || v[2] == 85u8)
                && (v[3] == 101u8 || v[3] == 69u8))),
            None => !header_asks_bypass(hs),
        },
{
    match first_header_value(hs, "x-cache-bypass"@) {
        Some(v) => {
            let t = seq![116u8, 114u8, 117u8, 101u8];
            let spelled = v.len() == 4 && (v[0] == 116u8 || v[0] == 84u8) && (v[1] == 114u8 || v[1] == 82u8)
                && (v[2] == 117u8 || v[2] == 85u8) && (v[3] == 101u8 || v[3] == 69u8);
            if v == seq![49u8] {
                assert(v[0] == 49u8);
            }
            if spelled {
                assert(bytes_eq_ignore_ascii_case(v, t)) by {
                    assert forall|i: int| 0 <= i < v.len() implies fold_byte_case(#[trigger] v[i])
                        == fold_byte_case(t[i]) by {
                        assert(0 <= i < 4);
                    }
                }
            }
            if bytes_eq_ignore_ascii_case(v, t) {
                assert(fold_byte_case(v[0]) == fold_byte_case(t[0]));
                assert(fold_byte_case(v[1]) == fold_byte_case(t[1]));
                assert(fold_byte_case(v[2]) == fold_byte_case(t[2]));
                assert(fold_byte_case(v[3]) == fold_byte_case(t[3]));
                assert(spelled);
            }
        },
        None => {},
    }
}

/// The query asks to bypass the cache exactly when `cache_bypass=1`, `cache_bypass=true`
/// or `cache_bypass=True` stands somewhere in it; a request without a query does not.
pub proof fn law_bypass_query_values(query: Option<Seq<char>>)
    ensures
        match query {
            Some(q) => query_asks_bypass(query) <==> (exists|i: int|
                0 <= i && i + 14 <= q.len() && #[trigger] q.subrange(i, i + 14) == "cache_bypass=1"@) || (exists|
                i: int|
                0 <= i && i + 17 <= q.len() && #[trigger] q.subrange(i, i + 17) == "cache_bypass=true"@) || (exists|
                i: int|
                0 <= i && i + 17 <= q.len() && #[trigger] q.subrange(i, i + 17) == "cache_bypass=True"@),
            None => !query_asks_bypass(query),
        },
{
    reveal_strlit("cache_bypass=1");
    reveal_strlit("cache_bypass=true");
    reveal_strlit("cache_bypass=True");
    assert("cache_bypass=1"@.len() == 14);
    assert("cache_bypass=true"@.len() == 17);
    assert("cache_bypass=True"@.len() == 17);
    if let Some(q) = query {
        if occurs_in("cache_bypass=1"@, q) {
            let i = choose|i: int|
                0 <= i && i + 14 <= q.len() && #[trigger] q.subrange(i, i + 14) == "cache_bypass=1"@;
        }
    }
}

/// Two names without ASCII capital letters are equal ignoring ASCII case only when they are
/// equal.
proof fn lemma_uncapitalised_names(a: Seq<char>, b: Seq<char>)
    requires
        forall|i: int| 0 <= i < a.len() ==> !(65 <= (#[trigger] a[i]) as u32 <= 90),
        forall|i: int| 0 <= i < b.len() ==> !(65 <= (#[trigger] b[i]) as u32 <= 90),
    ensures
        eq_ignore_ascii_case(a, b) <==> a == b,
{
    if eq_ignore_ascii_case(a, b) {
        assert forall|i: int| 0 <= i < a.len() implies a[i] == b[i] by {
            assert(fold_case(a[i]) == fold_case(b[i]));
            char_u32_cast(a[i], a[i] as u32);
            char_u32_cast(b[i], b[i] as u32);
        }
        assert(a =~= b);
    }
}

/// Whether a header is withheld does not depend on the case of the ASCII letters of its
/// name.
pub proof fn law_withholding_ignores_case(n1: Seq<char>, n2: Seq<char>)
    requires
        eq_ignore_ascii_case(n1, n2),
    ensures
        is_withheld_header(n1) == is_withheld_header(n2),
{
    assert forall|lit: Seq<char>| eq_ignore_ascii_case(n1, lit) <==> eq_ignore_ascii_case(n2, lit) by {
        if eq_ignore_ascii_case(n1, lit) {
            assert forall|i: int| 0 <= i < n2.len() implies fold_case(#[trigger] n2[i]) == fold_case(lit[i]) by {
                assert(fold_case(n1[i]) == fold_case(n2[i]));
            }
        }
        if eq_ignore_ascii_case(n2, lit) {
            assert forall|i: int| 0 <= i < n1.len() implies fold_case(#[trigger] n1[i]) == fold_case(lit[i]) by {
                assert(fold_case(n1[i]) == fold_case(n2[i]));
            }
        }
    }
}

/// Of the names written without capital letters, exactly these eleven are withheld:
/// `host`, `connection`, `keep-alive`, `proxy-authenticate`, `proxy-authorization`, `te`,
/// `trailers`, `transfer-encoding`, `upgrade`, `content-length` and `x-cache`. Every other
/// name, `authorization` or `content-type` among them, is passed on.
pub proof fn law_withheld_names(n: Seq<char>)
    requires
        forall|i: int| 0 <= i < n.len() ==> !(65 <= (#[trigger] n[i]) as u32 <= 90),
    ensures
        is_withheld_header(n) <==> (n == "host"@ || n == "connection"@ || n == "keep-alive"@ || n
            == "proxy-authenticate"@ || n == "proxy-authorization"@ || n == "te"@ || n == "trailers"@ || n
            == "transfer-encoding"@ || n == "upgrade"@ || n == "content-length"@ || n == "x-cache"@),
{
    reveal_strlit("host");
    reveal_strlit("connection");
    reveal_strlit("keep-alive");
    reveal_strlit("proxy-authenticate");
    reveal_strlit("proxy-authorization");
    reveal_strlit("te");
    reveal_strlit("trailers");
    reveal_strlit("transfer-encoding");
    reveal_strlit("upgrade");
    reveal_strlit("content-length");
    reveal_strlit("x-cache");
    lemma_uncapitalised_names(n, "host"@);
    lemma_uncapitalised_names(n, "connection"@);
    lemma_uncapitalised_names(n, "keep-alive"@);
    lemma_uncapitalised_names(n, "proxy-authenticate"@);
    lemma_uncapitalised_names(n, "proxy-authorization"@);
    lemma_uncapitalised_names(n, "te"@);
    lemma_uncapitalised_names(n, "trailers"@);
    lemma_uncapitalised_names(n, "transfer-encoding"@);
    lemma_uncapitalised_names(n, "upgrade"@);
    lemma_uncapitalised_names(n, "content-length"@);
    lemma_uncapitalised_names(n, "x-cache"@);
}

/// A header is stored, its value taken as text, exactly when it is passed on and each
/// byte of its value is a tab or lies between 32 (the space) and 126; any other header is
/// left out of the stored entry.
pub proof fn law_stored_header(h: (Seq<char>, Seq<u8>))
    ensures
        stored_headers(seq![h]) == (if !is_withheld_header(h.0) && (forall|i: int|
            0 <= i < h.1.len() ==> #[trigger] h.1[i] == 9u8 || (32u8 <= h.1[i] && h.1[i] <= 126u8)) {
            seq![(h.0, decode_utf8(h.1))]
        } else {
            Seq::empty()
        }),
{
    let s = seq![h];
    assert(s.last() == h);
    assert(s.drop_last().len() == 0);
    assert(stored_headers(s.drop_last()) == Seq::<(Seq<char>, Seq<char>)>::empty());
    assert(Seq::<(Seq<char>, Seq<char>)>::empty().push((h.0, decode_utf8(h.1))) =~= seq![(h.0, decode_utf8(h.1))]);
}

/// Headers are stored one by one, in order: storing a list with one more header at its
/// end stores the list, then that header.
pub proof fn law_stored_headers_append(hs: Seq<(Seq<char>, Seq<u8>)>, h: (Seq<char>, Seq<u8>))
    ensures
        stored_headers(hs.push(h)) == stored_headers(hs) + stored_headers(seq![h]),
{
    let s = seq![h];
    assert(hs.push(h).drop_last() =~= hs);
    assert(hs.push(h).last() == h);
    assert(s.last() == h);
    assert(s.drop_last().len() == 0);
    assert(stored_headers(s.drop_last()) == Seq::<(Seq<char>, Seq<char>)>::empty());
    assert(stored_headers(hs) + Seq::<(Seq<char>, Seq<char>)>::empty() =~= stored_headers(hs));
    assert(stored_headers(hs) + Seq::<(Seq<char>, Seq<char>)>::empty().push((h.0, decode_utf8(h.1)))
        =~= stored_headers(hs).push((h.0, decode_utf8(h.1))));
}

/// A cache hit on an entry that the proxy stored is taken and answered at once with the
/// stored status and body, the stored headers, and `x-cache: HIT`; the handling is then
/// finished.
pub proof fn law_cache_hit_answers_with_stored_response(
    f: ProxyFlowView,
    status: u16,
    headers: Seq<(Seq<char>, Seq<u8>)>,
    body: Seq<u8>,
)
    requires
        f.stage == ProxyStage::AwaitingCache,
        f.upstream is Some,
        f.cache_ttl is Some,
        is_status_code(status),
        base64_decoding(base64_encoding(body)) == Ok::<Seq<u8>, Seq<char>>(body),
        forall|i: int| 0 <= i < headers.len() ==> is_kept_header_name(#[trigger] headers[i].0),
    ensures
        expects(f, ProxyEventView::CacheHit(stored_response(status, headers, body))),
        transition(f, ProxyEventView::CacheHit(stored_response(status, headers, body))) == (
            finished(f),
            ProxyActionView::Respond(
                HttpResponseView {
                    status,
                    headers: grouped_headers(replayable_headers(headers)).push(
                        ("x-cache"@, seq![72u8, 73u8, 84u8]),
                    ),
                    body,
                },
            ),
        ),
{
    law_cache_round_trip(status, headers, body, "HIT"@);
    reveal_strlit("HIT");
    let h = "HIT"@;
    assert(h.len() == 3);
    assert(encode_utf8(h) == seq![72u8, 73u8, 84u8]) by {
        is_ascii_chars_encode_utf8(h);
        assert(encode_utf8(h).len() == 3);
        assert(encode_utf8(h)[0] == 72u8);
        assert(encode_utf8(h)[1] == 73u8);
        assert(encode_utf8(h)[2] == 84u8);
        assert(encode_utf8(h) =~= seq![72u8, 73u8, 84u8]);
    }
    assert(cache_status_value(h) == seq![72u8, 73u8, 84u8]);
}

/// Each stage takes only the outcomes of the action it awaits: a cache read's outcomes
/// while the cache is read, the backend's while it is asked, a cache write's while the
/// entry is stored, and nothing once the client has been answered.
pub proof fn law_stages_take_only_their_outcomes(f: ProxyFlowView, e: ProxyEventView)
    requires
        expects(f, e),
    ensures
        f.stage == ProxyStage::AwaitingCache ==> (e is CacheUnavailable || e is CacheReadFailed
            || e is CacheHit || e is CacheEntryUnreadable || e is CacheMiss),
        f.stage == ProxyStage::AwaitingUpstream ==> (e is UpstreamFailed || e is UpstreamBodyFailed || (
        e matches ProxyEventView::UpstreamResponded(r) && 100 <= r.status <= 999)),
        f.stage == ProxyStage::AwaitingStore ==> (e is CacheUnavailable || e is CacheEntryUnwritable
            || e is CacheWriteFailed || e is CacheWritten),
        f.stage != ProxyStage::Finished,
{
}

/// The backend's answer is passed on with its `x-cache` status: `MISS` when it is a success
/// (200 to 299) that is then stored for the route's lifetime, `SKIP` when caching applied
/// but it is no success, `BYPASS` when the client asked to bypass the cache, `DISABLED`
/// when caching did not apply otherwise.
pub proof fn law_backend_answers_are_labelled(f: ProxyFlowView, r: HttpResponseView)
    requires
        f.stage == ProxyStage::AwaitingUpstream,
        100 <= r.status <= 999,
    ensures
        ({
            let (g, a) = transition(f, ProxyEventView::UpstreamResponded(r));
            &&& (f.cache_ttl is Some && !f.cache_bypassed && 200 <= r.status <= 299) ==> g.stage
                == ProxyStage::AwaitingStore && g.pending == Some(
                response_with(r.status, r.headers, r.body, "MISS"@),
            ) && a == (ProxyActionView::StoreInCache {
                key: f.cache_key,
                entry: stored_response(r.status, r.headers, r.body),
                ttl_seconds: f.cache_ttl->0,
            })
            &&& (f.cache_ttl is Some && !f.cache_bypassed && !(200 <= r.status <= 299)) ==> g.stage
                == ProxyStage::Finished && a == ProxyActionView::Respond(
                response_with(r.status, r.headers, r.body, "SKIP"@),
            )
            &&& (f.cache_ttl is None && f.cache_bypassed) ==> g.stage == ProxyStage::Finished && a
                == ProxyActionView::Respond(response_with(r.status, r.headers, r.body, "BYPASS"@))
            &&& (f.cache_ttl is None && !f.cache_bypassed) ==> g.stage == ProxyStage::Finished && a
                == ProxyActionView::Respond(response_with(r.status, r.headers, r.body, "DISABLED"@))
        }),
{
}

} // verus!
