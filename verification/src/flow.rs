//! The proxy's handling of one request as a state machine: each step takes what happened
//! outside (a cache read, the backend's answer, a cache write) and says what to do next.
//! The caller performs the actions; the decisions are all here.

use vstd::prelude::*;
use crate::config::{ProxyConfig, rule_views};
use crate::proxy::{
    ProxyError, ProxyErrorKind, ProxyErrorView, build_cache_key, cache_lifetime,
    header_asks_bypass, header_views, query_asks_bypass, resolution, resolve_route,
    should_bypass_cache, should_cache_request, should_forward_header,
};
use crate::response::{
    CachedResponse, CachedResponseView, HttpResponse, HttpResponseView, build_response,
    forwarded_headers, is_status_code, replay, response_with, stored_response,
};

verus! {

/// A request as the proxy receives it.
pub struct IncomingRequest {
    pub method: String,
    pub path: String,
    pub query: Option<String>,
    pub headers: Vec<(String, Vec<u8>)>,
    pub body: Vec<u8>,
}

/// The request the proxy sends to the backend.
#[derive(Debug)]
pub struct UpstreamRequest {
    pub method: String,
    pub url: String,
    pub headers: Vec<(String, Vec<u8>)>,
    pub body: Option<Vec<u8>>,
}

/// A request to the backend as the contracts see it.
pub struct UpstreamRequestView {
    pub method: Seq<char>,
    pub url: Seq<char>,
    pub headers: Seq<(Seq<char>, Seq<u8>)>,
    pub body: Option<Seq<u8>>,
}

impl View for UpstreamRequest {
    type V = UpstreamRequestView;

    open spec fn view(&self) -> UpstreamRequestView {
        UpstreamRequestView {
            method: self.method@,
            url: self.url@,
            headers: header_views(self.headers@),
            body: match self.body {
                Some(b) => Some(b@),
                None => None,
            },
        }
    }
}

/// What the caller is to do next.
#[derive(Debug)]
pub enum ProxyAction {
    /// Look the key up in the cache.
    ReadCache { key: String },
    /// Send the request to the backend.
    SendUpstream(UpstreamRequest),
    /// Store the entry in the cache under the key, for `ttl_seconds` seconds.
    StoreInCache { key: String, entry: CachedResponse, ttl_seconds: u64 },
    /// Answer the client with this response; the request is done.
    Respond(HttpResponse),
    /// Answer the client with this failure; the request is done.
    Fail(ProxyError),
}

/// An action as the contracts see it.
pub enum ProxyActionView {
    ReadCache { key: Seq<char> },
    SendUpstream(UpstreamRequestView),
    StoreInCache { key: Seq<char>, entry: CachedResponseView, ttl_seconds: u64 },
    Respond(HttpResponseView),
    Fail(ProxyErrorView),
}

impl View for ProxyAction {
    type V = ProxyActionView;

    open spec fn view(&self) -> ProxyActionView {
        match self {
            ProxyAction::ReadCache { key } => ProxyActionView::ReadCache { key: key@ },
            ProxyAction::SendUpstream(r) => ProxyActionView::SendUpstream(r@),
            ProxyAction::StoreInCache { key, entry, ttl_seconds } => ProxyActionView::StoreInCache {
                key: key@,
                entry: entry@,
                ttl_seconds: *ttl_seconds,
            },
            ProxyAction::Respond(r) => ProxyActionView::Respond(r@),
            ProxyAction::Fail(e) => ProxyActionView::Fail(e@),
        }
    }
}

/// What happened when the caller performed an action. Failures carry the display text
/// of the error that the cache or the backend reported.
pub enum ProxyEvent {
    /// No connection to the cache could be made.
    CacheUnavailable(String),
    /// The cache could not be read.
    CacheReadFailed(String),
    /// The cache held an entry for the key.
    CacheHit(CachedResponse),
    /// The cache held an entry for the key that could not be read back.
    CacheEntryUnreadable(String),
    /// The cache held nothing for the key.
    CacheMiss,
    /// The backend could not be reached.
    UpstreamFailed(String),
    /// The backend answered, but its body could not be read.
    UpstreamBodyFailed(String),
    /// The backend answered.
    UpstreamResponded(HttpResponse),
    /// The entry could not be written out for the cache.
    CacheEntryUnwritable(String),
    /// The cache refused the entry.
    CacheWriteFailed(String),
    /// The cache stored the entry.
    CacheWritten,
}

/// An event as the contracts see it.
pub enum ProxyEventView {
    CacheUnavailable(Seq<char>),
    CacheReadFailed(Seq<char>),
    CacheHit(CachedResponseView),
    CacheEntryUnreadable(Seq<char>),
    CacheMiss,
    UpstreamFailed(Seq<char>),
    UpstreamBodyFailed(Seq<char>),
    UpstreamResponded(HttpResponseView),
    CacheEntryUnwritable(Seq<char>),
    CacheWriteFailed(Seq<char>),
    CacheWritten,
}

impl View for ProxyEvent {
    type V = ProxyEventView;

    open spec fn view(&self) -> ProxyEventView {
        match self {
            ProxyEvent::CacheUnavailable(t) => ProxyEventView::CacheUnavailable(t@),
            ProxyEvent::CacheReadFailed(t) => ProxyEventView::CacheReadFailed(t@),
            ProxyEvent::CacheHit(c) => ProxyEventView::CacheHit(c@),
            ProxyEvent::CacheEntryUnreadable(t) => ProxyEventView::CacheEntryUnreadable(t@),
            ProxyEvent::CacheMiss => ProxyEventView::CacheMiss,
            ProxyEvent::UpstreamFailed(t) => ProxyEventView::UpstreamFailed(t@),
            ProxyEvent::UpstreamBodyFailed(t) => ProxyEventView::UpstreamBodyFailed(t@),
            ProxyEvent::UpstreamResponded(r) => ProxyEventView::UpstreamResponded(r@),
            ProxyEvent::CacheEntryUnwritable(t) => ProxyEventView::CacheEntryUnwritable(t@),
            ProxyEvent::CacheWriteFailed(t) => ProxyEventView::CacheWriteFailed(t@),
            ProxyEvent::CacheWritten => ProxyEventView::CacheWritten,
        }
    }
}

/// Where the handling of a request stands.
#[derive(Clone, Copy, Debug, PartialEq, Eq, Structural)]
pub enum ProxyStage {
    /// Waiting for the outcome of a cache read.
    AwaitingCache,
    /// Waiting for the backend's answer.
    AwaitingUpstream,
    /// Waiting for the outcome of a cache write.
    AwaitingStore,
    /// The client has been answered.
    Finished,
}

/// The handling of one request.
pub struct ProxyFlow {
    stage: ProxyStage,
    cache_ttl: Option<u64>,
    cache_bypassed: bool,
    cache_key: String,
    upstream: Option<UpstreamRequest>,
    pending: Option<HttpResponse>,
}

/// The handling of a request as the contracts see it.
pub struct ProxyFlowView {
    pub stage: ProxyStage,
    pub cache_ttl: Option<u64>,
    pub cache_bypassed: bool,
    pub cache_key: Seq<char>,
    pub upstream: Option<UpstreamRequestView>,
    pub pending: Option<HttpResponseView>,
}

impl View for ProxyFlow {
    type V = ProxyFlowView;

    closed spec fn view(&self) -> ProxyFlowView {
        ProxyFlowView {
            stage: self.stage,
            cache_ttl: self.cache_ttl,
            cache_bypassed: self.cache_bypassed,
            cache_key: self.cache_key@,
            upstream: match self.upstream {
                Some(u) => Some(u@),
                None => None,
            },
            pending: match self.pending {
                Some(p) => Some(p@),
                None => None,
            },
        }
    }
}

/// A finished handling.
pub open spec fn finished(f: ProxyFlowView) -> ProxyFlowView {
    ProxyFlowView { stage: ProxyStage::Finished, upstream: None, pending: None, ..f }
}

/// The failure that answers when the cache cannot be reached.
pub open spec fn cache_connect_failure(text: Seq<char>) -> ProxyErrorView {
    ProxyErrorView {
        kind: ProxyErrorKind::BadGateway,
        message: "Failed to connect to Redis: "@ + text,
    }
}

/// The cache status sent with a response from the backend: `MISS` when it was cached,
/// `SKIP` when caching applied but the status was not a success, `BYPASS` when the client
/// asked to bypass the cache, `DISABLED` otherwise.
pub open spec fn cache_label(cache_ttl: Option<u64>, cache_bypassed: bool, success: bool) -> Seq<char> {
    if cache_ttl is Some && !cache_bypassed && success {
        "MISS"@
    } else if cache_ttl is Some && !cache_bypassed {
        "SKIP"@
    } else if cache_bypassed {
        "BYPASS"@
    } else {
        "DISABLED"@
    }
}

/// A success status: from 200 to 299.
pub open spec fn is_success(status: u16) -> bool {
    200 <= status <= 299
}

/// The request that goes to the backend: same method, the resolved URL, the headers that
/// are passed on, and the body when it is not empty.
pub open spec fn upstream_request_for(
    method: Seq<char>,
    url: Seq<char>,
    headers: Seq<(Seq<char>, Seq<u8>)>,
    body: Seq<u8>,
) -> UpstreamRequestView {
    UpstreamRequestView {
        method,
        url,
        headers: forwarded_headers(headers),
        body: if body.len() == 0 {
            None
        } else {
            Some(body)
        },
    }
}

/// The request as the contracts see it.
pub open spec fn request_parts(r: IncomingRequest) -> (Seq<char>, Seq<char>, Option<Seq<char>>, Seq<(Seq<char>, Seq<u8>)>, Seq<u8>) {
    (
        r.method@,
        r.path@,
        match r.query {
            Some(q) => Some(q@),
            None => None,
        },
        header_views(r.headers@),
        r.body@,
    )
}

/// How handling a request begins: a failure when no route resolves; otherwise a cache
/// read when the response may be cached, and the request to the backend when not.
pub open spec fn begin(
    routes: Seq<crate::config::RouteRuleView>,
    backends: Map<Seq<char>, Seq<char>>,
    method: Seq<char>,
    path: Seq<char>,
    query: Option<Seq<char>>,
    headers: Seq<(Seq<char>, Seq<u8>)>,
    body: Seq<u8>,
) -> (ProxyFlowView, ProxyActionView) {
    let empty = ProxyFlowView {
        stage: ProxyStage::Finished,
        cache_ttl: None,
        cache_bypassed: false,
        cache_key: Seq::empty(),
        upstream: None,
        pending: None,
    };
    match resolution(routes, backends, path, query) {
        Err(e) => (empty, ProxyActionView::Fail(e)),
        Ok(route) => {
            let bypassed = header_asks_bypass(headers) || query_asks_bypass(query);
            let ttl = cache_lifetime(method, route.cache_ttl_seconds, bypassed);
            let key = "cache-proxy:"@ + method + ":"@ + route.upstream_url;
            let upstream = upstream_request_for(method, route.upstream_url, headers, body);
            match ttl {
                Some(_) => (
                    ProxyFlowView {
                        stage: ProxyStage::AwaitingCache,
                        cache_ttl: ttl,
                        cache_bypassed: bypassed,
                        cache_key: key,
                        upstream: Some(upstream),
                        pending: None,
                    },
                    ProxyActionView::ReadCache { key },
                ),
                None => (
                    ProxyFlowView {
                        stage: ProxyStage::AwaitingUpstream,
                        cache_ttl: ttl,
                        cache_bypassed: bypassed,
                        cache_key: key,
                        upstream: None,
                        pending: None,
                    },
                    ProxyActionView::SendUpstream(upstream),
                ),
            }
        },
    }
}

/// The events that can follow the last action.
pub open spec fn expects(f: ProxyFlowView, e: ProxyEventView) -> bool {
    match f.stage {
        ProxyStage::AwaitingCache => {
            &&& f.upstream is Some
            &&& f.cache_ttl is Some
            &&& match e {
                ProxyEventView::CacheUnavailable(_) | ProxyEventView::CacheReadFailed(_)
                | ProxyEventView::CacheHit(_) | ProxyEventView::CacheEntryUnreadable(_)
                | ProxyEventView::CacheMiss => true,
                _ => false,
            }
        },
        ProxyStage::AwaitingUpstream => match e {
            ProxyEventView::UpstreamFailed(_) | ProxyEventView::UpstreamBodyFailed(_) => true,
            ProxyEventView::UpstreamResponded(r) => is_status_code(r.status),
            _ => false,
        },
        ProxyStage::AwaitingStore => {
            &&& f.pending is Some
            &&& match e {
                ProxyEventView::CacheUnavailable(_) | ProxyEventView::CacheEntryUnwritable(_)
                | ProxyEventView::CacheWriteFailed(_) | ProxyEventView::CacheWritten => true,
                _ => false,
            }
        },
        ProxyStage::Finished => false,
    }
}

/// The next state and action after an event that the state expects.
pub open spec fn transition(f: ProxyFlowView, e: ProxyEventView) -> (ProxyFlowView, ProxyActionView) {
    let fail = |err: ProxyErrorView| (finished(f), ProxyActionView::Fail(err));
    match e {
        ProxyEventView::CacheUnavailable(t) => fail(cache_connect_failure(t)),
        ProxyEventView::CacheReadFailed(t) => fail(
            ProxyErrorView { kind: ProxyErrorKind::BadGateway, message: "Failed to read from Redis: "@ + t },
        ),
        ProxyEventView::CacheEntryUnreadable(t) => fail(
            ProxyErrorView {
                kind: ProxyErrorKind::Internal,
                message: "Failed to deserialize cached response: "@ + t,
            },
        ),
        ProxyEventView::CacheHit(c) => match replay(c, "HIT"@) {
            Ok(r) => (finished(f), ProxyActionView::Respond(r)),
            Err(err) => fail(err),
        },
        ProxyEventView::CacheMiss => (
            ProxyFlowView { stage: ProxyStage::AwaitingUpstream, upstream: None, ..f },
            ProxyActionView::SendUpstream(f.upstream->0),
        ),
        ProxyEventView::UpstreamFailed(t) => fail(
            ProxyErrorView { kind: ProxyErrorKind::BadGateway, message: "Upstream request failed: "@ + t },
        ),
        ProxyEventView::UpstreamBodyFailed(t) => fail(
            ProxyErrorView {
                kind: ProxyErrorKind::BadGateway,
                message: "Failed to read upstream response body: "@ + t,
            },
        ),
        ProxyEventView::UpstreamResponded(r) => {
            let success = is_success(r.status);
            let label = cache_label(f.cache_ttl, f.cache_bypassed, success);
            let response = response_with(r.status, r.headers, r.body, label);
            if f.cache_ttl is Some && success {
                (
                    ProxyFlowView { stage: ProxyStage::AwaitingStore, pending: Some(response), ..f },
                    ProxyActionView::StoreInCache {
                        key: f.cache_key,
                        entry: stored_response(r.status, r.headers, r.body),
                        ttl_seconds: f.cache_ttl->0,
                    },
                )
            } else {
                (finished(f), ProxyActionView::Respond(response))
            }
        },
        ProxyEventView::CacheEntryUnwritable(t) => fail(
            ProxyErrorView {
                kind: ProxyErrorKind::Internal,
                message: "Failed to serialize cached response: "@ + t,
            },
        ),
        ProxyEventView::CacheWriteFailed(t) => fail(
            ProxyErrorView { kind: ProxyErrorKind::BadGateway, message: "Failed to write to Redis: "@ + t },
        ),
        ProxyEventView::CacheWritten => (finished(f), ProxyActionView::Respond(f.pending->0)),
    }
}

fn error_with(kind: ProxyErrorKind, lead: &str, text: &String) -> (e: ProxyError)
    ensures
        e@ == (ProxyErrorView { kind, message: lead@ + text@ }),
{
    let mut message = String::new();
    message.append(lead);
    message.append(text.as_str());
    match kind {
        ProxyErrorKind::RouteNotFound => ProxyError::not_found(message),
        ProxyErrorKind::BadGateway => ProxyError::bad_gateway(message),
        ProxyErrorKind::Internal => ProxyError::internal(message),
    }
}

fn forward_headers(headers: &Vec<(String, Vec<u8>)>) -> (out: Vec<(String, Vec<u8>)>)
    ensures
        header_views(out@) == forwarded_headers(header_views(headers@)),
{
    let ghost hs = header_views(headers@);
    let mut out: Vec<(String, Vec<u8>)> = Vec::new();
    let mut i: usize = 0;
    while i < headers.len()
        invariant
            hs == header_views(headers@),
            i <= headers@.len(),
            header_views(out@) == forwarded_headers(hs.take(i as int)),
        decreases headers@.len() - i,
    {
        assert(hs.take(i + 1).drop_last() =~= hs.take(i as int));
        assert(hs.take(i + 1).last() == hs[i as int]);
        if should_forward_header(headers[i].0.as_str()) {
            let name = headers[i].0.clone();
            let value = headers[i].1.clone();
            assert(value@ =~= headers@[i as int].1@);
            out.push((name, value));
            assert(header_views(out@) =~= forwarded_headers(hs.take(i + 1)));
        }
        i = i + 1;
    }
    assert(hs.take(i as int) =~= hs);
    out
}

fn label_for(cache_ttl: Option<u64>, cache_bypassed: bool, success: bool) -> (label: &'static str)
    ensures
        label@ == cache_label(cache_ttl, cache_bypassed, success),
{
    if cache_ttl.is_some() && !cache_bypassed && success {
        "MISS"
    } else if cache_ttl.is_some() && !cache_bypassed {
        "SKIP"
    } else if cache_bypassed {
        "BYPASS"
    } else {
        "DISABLED"
    }
}

impl ProxyFlow {
    /// Where the handling stands.
    pub fn stage(&self) -> (s: ProxyStage)
        ensures
            s == self@.stage,
    {
        self.stage
    }

    /// Begins handling a request: resolves its route, decides whether the cache is
    /// bypassed and whether the response may be cached, and says the first action.
    pub fn start(config: &ProxyConfig, request: IncomingRequest) -> (res: (ProxyFlow, ProxyAction))
        ensures
            ({
                let (m, p, q, h, b) = request_parts(request);
                (res.0@, res.1@) == begin(rule_views(config.routes@), config.backends@, m, p, q, h, b)
            }),
    {
        let ghost parts = request_parts(request);
        let IncomingRequest { method, path, query, headers, body } = request;
        let query_ref: Option<&str> = match &query {
            Some(q) => Some(q.as_str()),
            None => None,
        };
        let empty = ProxyFlow {
            stage: ProxyStage::Finished,
            cache_ttl: None,
            cache_bypassed: false,
            cache_key: String::new(),
            upstream: None,
            pending: None,
        };
        let route = match resolve_route(config, path.as_str(), query_ref) {
            Ok(r) => r,
            Err(e) => {
                return (empty, ProxyAction::Fail(e));
            },
        };
        let bypassed = should_bypass_cache(&headers, query_ref);
        let ttl = should_cache_request(method.as_str(), route.cache_ttl_seconds, bypassed);
        let key = build_cache_key(method.as_str(), route.upstream_url.as_str());
        let forwarded = forward_headers(&headers);
        let upstream_body = if body.len() == 0 {
            None
        } else {
            Some(body)
        };
        let upstream = UpstreamRequest {
            method,
            url: route.upstream_url,
            headers: forwarded,
            body: upstream_body,
        };
        match ttl {
            Some(_) => {
                let action = ProxyAction::ReadCache { key: key.clone() };
                (
                    ProxyFlow {
                        stage: ProxyStage::AwaitingCache,
                        cache_ttl: ttl,
                        cache_bypassed: bypassed,
                        cache_key: key,
                        upstream: Some(upstream),
                        pending: None,
                    },
                    action,
                )
            },
            None => (
                ProxyFlow {
                    stage: ProxyStage::AwaitingUpstream,
                    cache_ttl: ttl,
                    cache_bypassed: bypassed,
                    cache_key: key,
                    upstream: None,
                    pending: None,
                },
                ProxyAction::SendUpstream(upstream),
            ),
        }
    }

    /// Whether the event is one that can follow the last action.
    pub fn expects(&self, event: &ProxyEvent) -> (res: bool)
        ensures
            res == expects(self@, event@),
    {
        match self.stage {
            ProxyStage::AwaitingCache => {
                self.upstream.is_some() && self.cache_ttl.is_some() && match event {
                    ProxyEvent::CacheUnavailable(_) | ProxyEvent::CacheReadFailed(_)
                    | ProxyEvent::CacheHit(_) | ProxyEvent::CacheEntryUnreadable(_)
                    | ProxyEvent::CacheMiss => true,
                    _ => false,
                }
            },
            ProxyStage::AwaitingUpstream => match event {
                ProxyEvent::UpstreamFailed(_) | ProxyEvent::UpstreamBodyFailed(_) => true,
                ProxyEvent::UpstreamResponded(r) => 100 <= r.status && r.status <= 999,
                _ => false,
            },
            ProxyStage::AwaitingStore => {
                self.pending.is_some() && match event {
                    ProxyEvent::CacheUnavailable(_) | ProxyEvent::CacheEntryUnwritable(_)
                    | ProxyEvent::CacheWriteFailed(_) | ProxyEvent::CacheWritten => true,
                    _ => false,
                }
            },
            ProxyStage::Finished => false,
        }
    }

    /// Takes the outcome of the last action and says what to do next.
    pub fn step(self, event: ProxyEvent) -> (res: (ProxyFlow, ProxyAction))
        requires
            expects(self@, event@),
        ensures
            (res.0@, res.1@) == transition(self@, event@),
    {
        let ProxyFlow { stage, cache_ttl, cache_bypassed, cache_key, upstream, pending } = self;
        let done = ProxyFlow {
            stage: ProxyStage::Finished,
            cache_ttl,
            cache_bypassed,
            cache_key: cache_key.clone(),
            upstream: None,
            pending: None,
        };
        match event {
            ProxyEvent::CacheUnavailable(t) => (
                done,
                ProxyAction::Fail(error_with(ProxyErrorKind::BadGateway, "Failed to connect to Redis: ", &t)),
            ),
            ProxyEvent::CacheReadFailed(t) => (
                done,
                ProxyAction::Fail(error_with(ProxyErrorKind::BadGateway, "Failed to read from Redis: ", &t)),
            ),
            ProxyEvent::CacheEntryUnreadable(t) => (
                done,
                ProxyAction::Fail(
                    error_with(ProxyErrorKind::Internal, "Failed to deserialize cached response: ", &t),
                ),
            ),
            ProxyEvent::CacheHit(c) => match c.into_response("HIT") {
                Ok(r) => (done, ProxyAction::Respond(r)),
                Err(e) => (done, ProxyAction::Fail(e)),
            },
            ProxyEvent::CacheMiss => {
                let request = match upstream {
                    Some(u) => u,
                    None => {
                        assert(false);
                        return (done, ProxyAction::Fail(ProxyError::internal(String::new())));
                    },
                };
                (
                    ProxyFlow {
                        stage: ProxyStage::AwaitingUpstream,
                        cache_ttl,
                        cache_bypassed,
                        cache_key,
                        upstream: None,
                        pending,
                    },
                    ProxyAction::SendUpstream(request),
                )
            },
            ProxyEvent::UpstreamFailed(t) => (
                done,
                ProxyAction::Fail(error_with(ProxyErrorKind::BadGateway, "Upstream request failed: ", &t)),
            ),
            ProxyEvent::UpstreamBodyFailed(t) => (
                done,
                ProxyAction::Fail(
                    error_with(ProxyErrorKind::BadGateway, "Failed to read upstream response body: ", &t),
                ),
            ),
            ProxyEvent::UpstreamResponded(r) => {
                let success = 200 <= r.status && r.status <= 299;
                let label = label_for(cache_ttl, cache_bypassed, success);
                match cache_ttl {
                    Some(ttl) => {
                        if success {
                            let entry = CachedResponse::from_parts(r.status, &r.headers, r.body.as_slice());
                            let response = build_response(r.status, &r.headers, r.body, label);
                            let key = cache_key.clone();
                            return (
                                ProxyFlow {
                                    stage: ProxyStage::AwaitingStore,
                                    cache_ttl,
                                    cache_bypassed,
                                    cache_key,
                                    upstream,
                                    pending: Some(response),
                                },
                                ProxyAction::StoreInCache { key, entry, ttl_seconds: ttl },
                            );
                        }
                    },
                    None => {},
                }
                let response = build_response(r.status, &r.headers, r.body, label);
                (done, ProxyAction::Respond(response))
            },
            ProxyEvent::CacheEntryUnwritable(t) => (
                done,
                ProxyAction::Fail(
                    error_with(ProxyErrorKind::Internal, "Failed to serialize cached response: ", &t),
                ),
            ),
            ProxyEvent::CacheWriteFailed(t) => (
                done,
                ProxyAction::Fail(error_with(ProxyErrorKind::BadGateway, "Failed to write to Redis: ", &t)),
            ),
            ProxyEvent::CacheWritten => {
                let response = match pending {
                    Some(p) => p,
                    None => {
                        assert(false);
                        return (done, ProxyAction::Fail(ProxyError::internal(String::new())));
                    },
                };
                (done, ProxyAction::Respond(response))
            },
        }
    }
}

} // verus!
