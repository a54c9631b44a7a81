//! Responses: how the proxy builds the response it sends, and how a response is stored in
//! the cache and replayed from it.

use vstd::prelude::*;
use vstd::string::StringSliceAdditionalSpecFns;
use vstd::utf8::{decode_utf8, encode_utf8, is_leading_byte_width_1, partial_valid_utf8, valid_utf8};
use crate::boundary::{
    base64_decoding, base64_encoding, decode_base64, encode_base64, header_name_parse,
    header_value_from_text, is_header_name_char, is_header_value_byte, lower_header_char,
    parse_header_name, status_from_code, string_from_utf8,
};
use crate::proxy::{
    ProxyError, ProxyErrorKind, ProxyErrorView, header_views, is_visible_ascii, is_withheld_header,
    should_forward_header, visible_ascii,
};

verus! {

/// The range of HTTP status codes.
pub open spec fn is_status_code(code: u16) -> bool {
    100 <= code <= 999
}

/// A response as the proxy sends it: status, headers in order (each name with its
/// value's bytes) and body.
#[derive(Debug, Clone)]
pub struct HttpResponse {
    pub status: u16,
    pub headers: Vec<(String, Vec<u8>)>,
    pub body: Vec<u8>,
}

/// A response as the contracts see it.
pub struct HttpResponseView {
    pub status: u16,
    pub headers: Seq<(Seq<char>, Seq<u8>)>,
    pub body: Seq<u8>,
}

impl View for HttpResponse {
    type V = HttpResponseView;

    open spec fn view(&self) -> HttpResponseView {
        HttpResponseView { status: self.status, headers: header_views(self.headers@), body: self.body@ }
    }
}

/// The headers that are passed on, in order.
pub open spec fn forwarded_headers(hs: Seq<(Seq<char>, Seq<u8>)>) -> Seq<(Seq<char>, Seq<u8>)>
    decreases hs.len(),
{
    if hs.len() == 0 {
        Seq::empty()
    } else if is_withheld_header(hs.last().0) {
        forwarded_headers(hs.drop_last())
    } else {
        forwarded_headers(hs.drop_last()).push(hs.last())
    }
}

/// Every byte of the text may stand in a header value.
pub open spec fn is_header_value_text(text: Seq<char>) -> bool {
    forall|i: int| 0 <= i < encode_utf8(text).len() ==> is_header_value_byte(#[trigger] encode_utf8(text)[i])
}

/// The bytes of `INVALID`.
pub open spec fn invalid_marker() -> Seq<u8> {
    seq![73u8, 78u8, 86u8, 65u8, 76u8, 73u8, 68u8]
}

/// The value of the `x-cache` header: the cache status when it may stand in a header
/// value, otherwise `INVALID`.
pub open spec fn cache_status_value(cache_status: Seq<char>) -> Seq<u8> {
    if is_header_value_text(cache_status) {
        encode_utf8(cache_status)
    } else {
        invalid_marker()
    }
}

/// The response sent for a status, headers, body and cache status: the headers that are
/// passed on, then `x-cache` with the cache status.
pub open spec fn response_with(
    status: u16,
    headers: Seq<(Seq<char>, Seq<u8>)>,
    body: Seq<u8>,
    cache_status: Seq<char>,
) -> HttpResponseView {
    HttpResponseView {
        status,
        headers: forwarded_headers(headers).push(("x-cache"@, cache_status_value(cache_status))),
        body,
    }
}

/// A copy of some bytes.
fn copy_bytes(v: &Vec<u8>) -> (out: Vec<u8>)
    ensures
        out@ == v@,
{
    let mut out: Vec<u8> = Vec::new();
    let mut i: usize = 0;
    while i < v.len()
        invariant
            i <= v@.len(),
            out@ == v@.take(i as int),
        decreases v@.len() - i,
    {
        out.push(v[i]);
        i = i + 1;
        assert(out@ =~= v@.take(i as int));
    }
    assert(v@.take(i as int) =~= v@);
    out
}

/// Builds the response the proxy sends: the given status and body, the headers that are
/// passed on, and `x-cache` set to the cache status (to `INVALID` when the cache status
/// cannot stand in a header value).
pub fn build_response(status: u16, headers: &Vec<(String, Vec<u8>)>, body: Vec<u8>, cache_status: &str) -> (r: HttpResponse)
    requires
        is_status_code(status),
    ensures
        r@ == response_with(status, header_views(headers@), body@, cache_status@),
{
    let ghost hs = header_views(headers@);
    let mut out: Vec<(String, Vec<u8>)> = Vec::new();
    let mut i: usize = 0;
    while i < headers.len()
        invariant
            hs == header_views(headers@),
            i <= headers@.len(),
            header_views(out@) == forwarded_headers(hs.take(i as int)),
        decreases headers@.len() - i,
    {
        assert(hs.take(i + 1).drop_last() =~= hs.take(i as int));
        assert(hs.take(i + 1).last() == hs[i as int]);
        if should_forward_header(headers[i].0.as_str()) {
            let name = headers[i].0.clone();
            let value = copy_bytes(&headers[i].1);
            out.push((name, value));
            assert(header_views(out@) =~= forwarded_headers(hs.take(i + 1)));
        }
        i = i + 1;
    }
    assert(hs.take(i as int) =~= hs);
    let marker = match header_value_from_text(cache_status) {
        Ok(bytes) => bytes,
        Err(_) => {
            let invalid: Vec<u8> = vec![73u8, 78u8, 86u8, 65u8, 76u8, 73u8, 68u8];
            assert(invalid@ == invalid_marker());
            invalid
        },
    };
    out.push(("x-cache".to_owned(), marker));
    assert(header_views(out@) =~= forwarded_headers(hs).push(("x-cache"@, cache_status_value(cache_status@))));
    HttpResponse { status, headers: out, body }
}

/// A response as it is stored in the cache: status, the headers that are passed on and
/// read as text, and the body in base64.
#[derive(Debug, Clone)]
pub struct CachedResponse {
    pub status: u16,
    pub headers: Vec<(String, String)>,
    pub body_base64: String,
}

/// A stored response as the contracts see it.
pub struct CachedResponseView {
    pub status: u16,
    pub headers: Seq<(Seq<char>, Seq<char>)>,
    pub body_base64: Seq<char>,
}

impl View for CachedResponse {
    type V = CachedResponseView;

    open spec fn view(&self) -> CachedResponseView {
        CachedResponseView {
            status: self.status,
            headers: self.headers@.map_values(|h: (String, String)| (h.0@, h.1@)),
            body_base64: self.body_base64@,
        }
    }
}

/// A header is stored when it is passed on and its value reads as text.
pub open spec fn is_storable(h: (Seq<char>, Seq<u8>)) -> bool {
    !is_withheld_header(h.0) && is_visible_ascii(h.1)
}

/// The headers that are stored, each value as its text.
pub open spec fn stored_headers(hs: Seq<(Seq<char>, Seq<u8>)>) -> Seq<(Seq<char>, Seq<char>)>
    decreases hs.len(),
{
    if hs.len() == 0 {
        Seq::empty()
    } else if is_storable(hs.last()) {
        stored_headers(hs.drop_last()).push((hs.last().0, decode_utf8(hs.last().1)))
    } else {
        stored_headers(hs.drop_last())
    }
}

/// The headers that survive storing and replaying, with their bytes.
pub open spec fn replayable_headers(hs: Seq<(Seq<char>, Seq<u8>)>) -> Seq<(Seq<char>, Seq<u8>)>
    decreases hs.len(),
{
    if hs.len() == 0 {
        Seq::empty()
    } else if is_storable(hs.last()) {
        replayable_headers(hs.drop_last()).push(hs.last())
    } else {
        replayable_headers(hs.drop_last())
    }
}

/// The stored form of a response.
pub open spec fn stored_response(status: u16, headers: Seq<(Seq<char>, Seq<u8>)>, body: Seq<u8>) -> CachedResponseView {
    CachedResponseView { status, headers: stored_headers(headers), body_base64: base64_encoding(body) }
}

/// Visible ASCII bytes are valid UTF-8.
proof fn lemma_visible_ascii_is_utf8(v: Seq<u8>)
    requires
        is_visible_ascii(v),
    ensures
        valid_utf8(v),
{
    assert(v.subrange(0, 0) =~= Seq::<u8>::empty());
    assert(partial_valid_utf8(v, 0));
    assert forall|i: int| 0 <= 0 <= i < v.len() <= v.len() implies #[trigger] is_leading_byte_width_1(v[i]) by {
        assert(v[i] == 9u8 || (32u8 <= v[i] && v[i] < 127u8));
    }
    vstd::utf8::partial_valid_utf8_extend_ascii_block(v, 0, v.len() as int);
    assert(v.subrange(0, v.len() as int) =~= v);
}

/// Whether a header value reads as text, and the text.
fn header_text(v: &Vec<u8>) -> (res: Option<String>)
    ensures
        match res {
            Some(t) => is_visible_ascii(v@) && t@ == decode_utf8(v@),
            None => !is_visible_ascii(v@),
        },
{
    if !visible_ascii(v) {
        return None;
    }
    proof {
        lemma_visible_ascii_is_utf8(v@);
    }
    string_from_utf8(copy_bytes(v))
}

impl CachedResponse {
    /// The stored form of a response: its status, the headers that are passed on and whose
    /// value reads as text, and its body in base64.
    pub fn from_parts(status: u16, headers: &Vec<(String, Vec<u8>)>, body: &[u8]) -> (c: CachedResponse)
        ensures
            c@ == stored_response(status, header_views(headers@), body@),
            base64_decoding(c@.body_base64) == Ok::<Seq<u8>, Seq<char>>(body@),
    {
        let body_base64 = encode_base64(body);
        CachedResponse::from_parts_with_body(status, headers, body_base64)
    }

    /// The stored form of a response whose body is already in base64: its status, the
    /// headers that are passed on and whose value reads as text, and that text.
    pub fn from_parts_with_body(status: u16, headers: &Vec<(String, Vec<u8>)>, body_base64: String) -> (c: CachedResponse)
        ensures
            c@ == (CachedResponseView {
                status,
                headers: stored_headers(header_views(headers@)),
                body_base64: body_base64@,
            }),
    {
        let ghost hs = header_views(headers@);
        let mut out: Vec<(String, String)> = Vec::new();
        let mut i: usize = 0;
        while i < headers.len()
            invariant
                hs == header_views(headers@),
                i <= headers@.len(),
                out@.map_values(|h: (String, String)| (h.0@, h.1@)) == stored_headers(hs.take(i as int)),
            decreases headers@.len() - i,
        {
            assert(hs.take(i + 1).drop_last() =~= hs.take(i as int));
            assert(hs.take(i + 1).last() == hs[i as int]);
            if should_forward_header(headers[i].0.as_str()) {
                match header_text(&headers[i].1) {
                    Some(text) => {
                        out.push((headers[i].0.clone(), text));
                        assert(out@.map_values(|h: (String, String)| (h.0@, h.1@)) =~= stored_headers(
                            hs.take(i + 1),
                        ));
                    },
                    None => {},
                }
            }
            i = i + 1;
        }
        assert(hs.take(i as int) =~= hs);
        CachedResponse { status, headers: out, body_base64 }
    }
}

/// A failure of the proxy itself, with its explanation.
pub open spec fn internal_error(message: Seq<char>) -> ProxyErrorView {
    ProxyErrorView { kind: ProxyErrorKind::Internal, message }
}

/// One stored header turned back into a header: its name as http keeps it and its
/// value's bytes, or the reason it cannot be.
pub open spec fn replay_header(h: (Seq<char>, Seq<char>)) -> Result<(Seq<char>, Seq<u8>), ProxyErrorView> {
    match header_name_parse(h.0) {
        None => Err(
            internal_error(
                "Cached response had an invalid header name '"@ + h.0 + "': "@
                    + "invalid HTTP header name"@,
            ),
        ),
        Some(name) => if is_header_value_text(h.1) {
            Ok((name, encode_utf8(h.1)))
        } else {
            Err(
                internal_error(
                    "Cached response had an invalid header value for '"@ + h.0 + "': "@
                        + "failed to parse header value"@,
                ),
            )
        },
    }
}

/// The position of the last header called `name`, or -1 when there is none.
pub open spec fn last_position(hs: Seq<(Seq<char>, Seq<u8>)>, name: Seq<char>) -> int
    decreases hs.len(),
{
    if hs.len() == 0 {
        -1
    } else if hs.last().0 == name {
        hs.len() - 1
    } else {
        last_position(hs.drop_last(), name)
    }
}

/// A header added as `http::HeaderMap::append` adds it: right after the last header of
/// the same name, or at the end when the name is new.
pub open spec fn append_to_group(hs: Seq<(Seq<char>, Seq<u8>)>, h: (Seq<char>, Seq<u8>)) -> Seq<(Seq<char>, Seq<u8>)> {
    let k = last_position(hs, h.0);
    if k < 0 {
        hs.push(h)
    } else {
        hs.insert(k + 1, h)
    }
}

/// Headers added one by one as `http::HeaderMap::append` adds them: each name at the
/// place where it first came, followed by all its values in the order they came.
pub open spec fn grouped_headers(hs: Seq<(Seq<char>, Seq<u8>)>) -> Seq<(Seq<char>, Seq<u8>)>
    decreases hs.len(),
{
    if hs.len() == 0 {
        Seq::empty()
    } else {
        append_to_group(grouped_headers(hs.drop_last()), hs.last())
    }
}

/// The headers of each name stand together, as an `http::HeaderMap` yields them: every
/// header either has the name of the one before it or a name not seen before.
pub open spec fn is_grouped(hs: Seq<(Seq<char>, Seq<u8>)>) -> bool
    decreases hs.len(),
{
    if hs.len() == 0 {
        true
    } else {
        let d = hs.drop_last();
        &&& is_grouped(d)
        &&& (d.len() == 0 || d.last().0 == hs.last().0 || !has_header_named(d, hs.last().0))
    }
}

/// Some header is called `name`.
pub open spec fn has_header_named(hs: Seq<(Seq<char>, Seq<u8>)>, name: Seq<char>) -> bool {
    exists|i: int| 0 <= i < hs.len() && #[trigger] hs[i].0 == name
}

proof fn lemma_last_position(hs: Seq<(Seq<char>, Seq<u8>)>, name: Seq<char>)
    ensures
        -1 <= last_position(hs, name) < hs.len(),
        last_position(hs, name) >= 0 ==> hs[last_position(hs, name)].0 == name,
        forall|j: int| last_position(hs, name) < j < hs.len() ==> #[trigger] hs[j].0 != name,
    decreases hs.len(),
{
    if hs.len() > 0 {
        lemma_last_position(hs.drop_last(), name);
        if hs.last().0 != name {
            assert forall|j: int| last_position(hs, name) < j < hs.len() implies #[trigger] hs[j].0 != name by {
                if j < hs.len() - 1 {
                    assert(hs.drop_last()[j] == hs[j]);
                }
            }
        }
    }
}

/// Adds a header as `http::HeaderMap::append` does.
fn append_header(headers: &mut Vec<(String, Vec<u8>)>, name: String, value: Vec<u8>)
    ensures
        header_views(final(headers)@) == append_to_group(header_views(old(headers)@), (name@, value@)),
{
    let ghost hs = header_views(headers@);
    let mut j: usize = headers.len();
    assert(hs.take(j as int) =~= hs);
    while j > 0 && !(headers[j - 1].0 == name)
        invariant
            j <= headers@.len(),
            hs == header_views(headers@),
            last_position(hs, name@) == last_position(hs.take(j as int), name@),
        decreases j,
    {
        assert(hs.take(j as int).drop_last() =~= hs.take(j - 1));
        j = j - 1;
    }
    let ghost h = (name@, value@);
    if j == 0 {
        headers.push((name, value));
        assert(header_views(headers@) =~= hs.push(h));
    } else {
        assert(hs.take(j as int).last() == hs[j - 1]);
        headers.insert(j, (name, value));
        assert(header_views(headers@) =~= hs.insert(j as int, h));
    }
}

/// The stored headers turned back into headers, added one by one as
/// `http::HeaderMap::append` adds them; the first that cannot be gives the failure.
pub open spec fn replay_headers(hs: Seq<(Seq<char>, Seq<char>)>) -> Result<Seq<(Seq<char>, Seq<u8>)>, ProxyErrorView>
    decreases hs.len(),
{
    if hs.len() == 0 {
        Ok(Seq::empty())
    } else {
        match replay_headers(hs.drop_last()) {
            Err(e) => Err(e),
            Ok(done) => match replay_header(hs.last()) {
                Err(e) => Err(e),
                Ok(h) => Ok(append_to_group(done, h)),
            },
        }
    }
}

/// What replaying a stored response gives: the response with its status, headers and
/// decoded body, `x-cache` set to the cache status; or the first failure among an
/// invalid status, an undecodable body and an invalid header.
pub open spec fn replay(c: CachedResponseView, cache_status: Seq<char>) -> Result<HttpResponseView, ProxyErrorView> {
    replay_with(c, base64_decoding(c.body_base64), cache_status)
}

/// What replaying a stored response gives, when decoding its body gave `decoded`.
pub open spec fn replay_with(
    c: CachedResponseView,
    decoded: Result<Seq<u8>, Seq<char>>,
    cache_status: Seq<char>,
) -> Result<HttpResponseView, ProxyErrorView> {
    if !is_status_code(c.status) {
        Err(internal_error("Cached response had an invalid status code: "@ + "invalid status code"@))
    } else {
        match decoded {
            Err(reason) => Err(internal_error("Cached response body was invalid: "@ + reason)),
            Ok(body) => match replay_headers(c.headers) {
                Err(e) => Err(e),
                Ok(hs) => Ok(response_with(c.status, hs, body, cache_status)),
            },
        }
    }
}

proof fn lemma_replay_failure_persists(hs: Seq<(Seq<char>, Seq<char>)>, k: int)
    requires
        0 <= k <= hs.len(),
        replay_headers(hs.take(k)) is Err,
    ensures
        replay_headers(hs) == replay_headers(hs.take(k)),
    decreases hs.len(),
{
    if k == hs.len() {
        assert(hs.take(k) =~= hs);
    } else {
        assert(hs.drop_last().take(k) =~= hs.take(k));
        lemma_replay_failure_persists(hs.drop_last(), k);
    }
}

/// The view of what decoding a body gave.
pub open spec fn decoded_view(r: Result<Vec<u8>, String>) -> Result<Seq<u8>, Seq<char>> {
    match r {
        Ok(b) => Ok(b@),
        Err(t) => Err(t@),
    }
}

impl CachedResponse {
    /// Turns the stored response back into the response to send, with `x-cache` set to
    /// `cache_status`. Fails when the status is not an HTTP status, the body is not valid
    /// base64, or a header name or value is not valid, checked in that order.
    pub fn into_response(self, cache_status: &str) -> (res: Result<HttpResponse, ProxyError>)
        ensures
            match res {
                Ok(r) => replay(self@, cache_status@) == Ok::<HttpResponseView, ProxyErrorView>(r@),
                Err(e) => replay(self@, cache_status@) == Err::<HttpResponseView, ProxyErrorView>(e@),
            },
    {
        let decoded = decode_base64(self.body_base64.as_str());
        self.into_response_with_body(decoded, cache_status)
    }

    /// Turns the stored response back into the response to send, given what decoding its
    /// base64 body gave, with `x-cache` set to `cache_status`. Fails when the status is not
    /// an HTTP status, the body did not decode, or a header name or value is not valid,
    /// checked in that order.
    pub fn into_response_with_body(self, decoded_body: Result<Vec<u8>, String>, cache_status: &str) -> (res: Result<
        HttpResponse,
        ProxyError,
    >)
        ensures
            match res {
                Ok(r) => replay_with(self@, decoded_view(decoded_body), cache_status@) == Ok::<
                    HttpResponseView,
                    ProxyErrorView,
                >(r@),
                Err(e) => replay_with(self@, decoded_view(decoded_body), cache_status@) == Err::<
                    HttpResponseView,
                    ProxyErrorView,
                >(e@),
            },
    {
        let ghost cv = self@;
        let ghost decoded = decoded_view(decoded_body);
        let status = match status_from_code(self.status) {
            Ok(code) => code,
            Err(reason) => {
                let mut message = String::new();
                message.append("Cached response had an invalid status code: ");
                message.append(reason.as_str());
                return Err(ProxyError::internal(message));
            },
        };
        let body = match decoded_body {
            Ok(bytes) => bytes,
            Err(reason) => {
                let mut message = String::new();
                message.append("Cached response body was invalid: ");
                message.append(reason.as_str());
                return Err(ProxyError::internal(message));
            },
        };
        let ghost hs = cv.headers;
        let mut headers: Vec<(String, Vec<u8>)> = Vec::new();
        let mut i: usize = 0;
        assert(hs.take(0) =~= Seq::<(Seq<char>, Seq<char>)>::empty());
        assert(header_views(headers@) =~= Seq::<(Seq<char>, Seq<u8>)>::empty());
        while i < self.headers.len()
            invariant
                cv == self@,
                hs == self.headers@.map_values(|h: (String, String)| (h.0@, h.1@)),
                is_status_code(self.status),
                status == self.status,
                decoded == Ok::<Seq<u8>, Seq<char>>(body@),
                decoded == decoded_view(decoded_body),
                i <= self.headers@.len(),
                replay_headers(hs.take(i as int)) == Ok::<Seq<(Seq<char>, Seq<u8>)>, ProxyErrorView>(
                    header_views(headers@),
                ),
            decreases self.headers@.len() - i,
        {
            assert(hs.take(i + 1).drop_last() =~= hs.take(i as int));
            assert(hs.take(i + 1).last() == hs[i as int]);
            let name = &self.headers[i].0;
            let value = &self.headers[i].1;
            let parsed_name = match parse_header_name(name.as_str()) {
                Ok(n) => n,
                Err(reason) => {
                    let mut message = String::new();
                    message.append("Cached response had an invalid header name '");
                    message.append(name.as_str());
                    message.append("': ");
                    message.append(reason.as_str());
                    assert(replay_headers(hs.take(i + 1)) is Err);
                    proof {
                        lemma_replay_failure_persists(hs, i + 1);
                    }
                    return Err(ProxyError::internal(message));
                },
            };
            let bytes = match header_value_from_text(value.as_str()) {
                Ok(b) => b,
                Err(reason) => {
                    let mut message = String::new();
                    message.append("Cached response had an invalid header value for '");
                    message.append(name.as_str());
                    message.append("': ");
                    message.append(reason.as_str());
                    assert(replay_headers(hs.take(i + 1)) is Err);
                    proof {
                        lemma_replay_failure_persists(hs, i + 1);
                    }
                    return Err(ProxyError::internal(message));
                },
            };
            let ghost item = (parsed_name@, bytes@);
            assert(hs[i as int] == (name@, value@));
            assert(replay_header(hs[i as int]) == Ok::<(Seq<char>, Seq<u8>), ProxyErrorView>(item));
            append_header(&mut headers, parsed_name, bytes);
            i = i + 1;
        }
        assert(hs.take(i as int) =~= hs);
        Ok(build_response(status, &headers, body, cache_status))
    }
}

/// A header name as http keeps it: 1 to 65535 token characters, none a capital letter.
pub open spec fn is_kept_header_name(name: Seq<char>) -> bool {
    &&& 1 <= name.len() <= 65535
    &&& forall|i: int|
        0 <= i < name.len() ==> is_header_name_char(#[trigger] name[i]) && !('A' <= name[i] <= 'Z')
}

/// http keeps such a name as it is.
proof fn lemma_kept_header_name(name: Seq<char>)
    requires
        is_kept_header_name(name),
    ensures
        header_name_parse(name) == Some(name),
{
    assert(name.map_values(|c: char| lower_header_char(c)) =~= name);
}

proof fn lemma_replay_stored_headers(hs: Seq<(Seq<char>, Seq<u8>)>)
    requires
        forall|i: int| 0 <= i < hs.len() ==> header_name_parse(#[trigger] hs[i].0) == Some(hs[i].0),
    ensures
        replay_headers(stored_headers(hs)) == Ok::<Seq<(Seq<char>, Seq<u8>)>, ProxyErrorView>(
            grouped_headers(replayable_headers(hs)),
        ),
    decreases hs.len(),
{
    if hs.len() > 0 {
        let rest = hs.drop_last();
        assert forall|i: int| 0 <= i < rest.len() implies header_name_parse(#[trigger] rest[i].0) == Some(
            rest[i].0,
        ) by {
            assert(rest[i] == hs[i]);
        }
        lemma_replay_stored_headers(rest);
        let h = hs.last();
        if is_storable(h) {
            let stored = stored_headers(hs);
            assert(stored.drop_last() == stored_headers(rest));
            assert(stored.last() == (h.0, decode_utf8(h.1)));
            let r = replayable_headers(hs);
            assert(r.drop_last() == replayable_headers(rest));
            assert(r.last() == h);
            assert(header_name_parse(h.0) == Some(h.0)) by {
                assert(hs[hs.len() - 1] == h);
            }
            lemma_visible_ascii_is_utf8(h.1);
            vstd::utf8::decode_utf8_encode_utf8(h.1);
            assert(is_header_value_text(decode_utf8(h.1))) by {
                assert forall|i: int| 0 <= i < encode_utf8(decode_utf8(h.1)).len() implies is_header_value_byte(
                    #[trigger] encode_utf8(decode_utf8(h.1))[i],
                ) by {
                    assert(h.1[i] == 9u8 || (32u8 <= h.1[i] && h.1[i] < 127u8));
                }
            }
        }
    }
}

/// No header of the list is withheld.
pub open spec fn none_withheld(hs: Seq<(Seq<char>, Seq<u8>)>) -> bool {
    forall|i: int| 0 <= i < hs.len() ==> !is_withheld_header(#[trigger] hs[i].0)
}

proof fn lemma_replayable_none_withheld(hs: Seq<(Seq<char>, Seq<u8>)>)
    ensures
        none_withheld(replayable_headers(hs)),
    decreases hs.len(),
{
    if hs.len() > 0 {
        lemma_replayable_none_withheld(hs.drop_last());
        let r = replayable_headers(hs);
        if is_storable(hs.last()) {
            assert(r.drop_last() == replayable_headers(hs.drop_last()));
            assert forall|i: int| 0 <= i < r.len() implies !is_withheld_header(#[trigger] r[i].0) by {
                if i < r.len() - 1 {
                    assert(r[i] == r.drop_last()[i]);
                }
            }
        }
    }
}

proof fn lemma_grouped_none_withheld(hs: Seq<(Seq<char>, Seq<u8>)>)
    requires
        none_withheld(hs),
    ensures
        none_withheld(grouped_headers(hs)),
    decreases hs.len(),
{
    if hs.len() > 0 {
        let d = hs.drop_last();
        assert forall|i: int| 0 <= i < d.len() implies !is_withheld_header(#[trigger] d[i].0) by {
            assert(d[i] == hs[i]);
        }
        lemma_grouped_none_withheld(d);
        let g = grouped_headers(d);
        let h = hs.last();
        assert(!is_withheld_header(h.0)) by {
            assert(hs[hs.len() - 1] == h);
        }
        lemma_last_position(g, h.0);
        let out = grouped_headers(hs);
        assert(out == append_to_group(g, h));
        assert forall|i: int| 0 <= i < out.len() implies !is_withheld_header(#[trigger] out[i].0) by {
            let k = last_position(g, h.0);
            if k >= 0 {
                if i <= k {
                    assert(out[i] == g[i]);
                } else if i > k + 1 {
                    assert(out[i] == g[i - 1]);
                }
            } else if i < g.len() {
                assert(out[i] == g[i]);
            }
        }
    }
}

proof fn lemma_forwarded_keeps_unwithheld(hs: Seq<(Seq<char>, Seq<u8>)>)
    requires
        none_withheld(hs),
    ensures
        forwarded_headers(hs) == hs,
    decreases hs.len(),
{
    if hs.len() > 0 {
        let d = hs.drop_last();
        assert forall|i: int| 0 <= i < d.len() implies !is_withheld_header(#[trigger] d[i].0) by {
            assert(d[i] == hs[i]);
        }
        lemma_forwarded_keeps_unwithheld(d);
        assert(!is_withheld_header(hs.last().0)) by {
            assert(hs[hs.len() - 1] == hs.last());
        }
        assert(d.push(hs.last()) =~= hs);
    }
}

/// A response stored in the cache and replayed comes back with its status and body, and
/// with every header that is passed on and whose value reads as text, unchanged, added in
/// order as `http::HeaderMap::append` adds them, followed by `x-cache` with the cache
/// status. The stored body is the base64 text that `from_parts` produced, which decodes
/// to the body. Header names are taken as http keeps them, token characters in lower
/// case, as every name of an `http::HeaderMap` is (names it would change or refuse are
/// left out by the `requires`).
pub proof fn law_cache_round_trip(
    status: u16,
    headers: Seq<(Seq<char>, Seq<u8>)>,
    body: Seq<u8>,
    cache_status: Seq<char>,
)
    requires
        is_status_code(status),
        base64_decoding(base64_encoding(body)) == Ok::<Seq<u8>, Seq<char>>(body),
        forall|i: int| 0 <= i < headers.len() ==> is_kept_header_name(#[trigger] headers[i].0),
    ensures
        replay(stored_response(status, headers, body), cache_status) == Ok::<HttpResponseView, ProxyErrorView>(
            HttpResponseView {
                status,
                headers: grouped_headers(replayable_headers(headers)).push(
                    ("x-cache"@, cache_status_value(cache_status)),
                ),
                body,
            },
        ),
{
    assert forall|i: int| 0 <= i < headers.len() implies header_name_parse(#[trigger] headers[i].0)
        == Some(headers[i].0) by {
        lemma_kept_header_name(headers[i].0);
    }
    lemma_replay_stored_headers(headers);
    lemma_replayable_none_withheld(headers);
    lemma_grouped_none_withheld(replayable_headers(headers));
    lemma_forwarded_keeps_unwithheld(grouped_headers(replayable_headers(headers)));
}

proof fn lemma_has_name_after_drop(hs: Seq<(Seq<char>, Seq<u8>)>, name: Seq<char>)
    requires
        hs.len() > 0,
        has_header_named(hs.drop_last(), name),
    ensures
        has_header_named(hs, name),
{
    let i = choose|i: int| 0 <= i < hs.drop_last().len() && #[trigger] hs.drop_last()[i].0 == name;
    assert(hs[i].0 == name);
}

proof fn lemma_replayable_names_come_from_input(hs: Seq<(Seq<char>, Seq<u8>)>, name: Seq<char>)
    requires
        has_header_named(replayable_headers(hs), name),
    ensures
        has_header_named(hs, name),
    decreases hs.len(),
{
    let r = replayable_headers(hs);
    if hs.len() > 0 {
        if is_storable(hs.last()) {
            assert(r.drop_last() == replayable_headers(hs.drop_last()));
            let i = choose|i: int| 0 <= i < r.len() && #[trigger] r[i].0 == name;
            if i == r.len() - 1 {
                assert(hs[hs.len() - 1].0 == name);
            } else {
                assert(r.drop_last()[i].0 == name);
                lemma_replayable_names_come_from_input(hs.drop_last(), name);
                lemma_has_name_after_drop(hs, name);
            }
        } else {
            lemma_replayable_names_come_from_input(hs.drop_last(), name);
            lemma_has_name_after_drop(hs, name);
        }
    }
}

proof fn lemma_replayable_ends_with_name(hs: Seq<(Seq<char>, Seq<u8>)>, name: Seq<char>)
    requires
        is_grouped(hs),
        hs.len() > 0,
        hs.last().0 == name,
        has_header_named(replayable_headers(hs), name),
    ensures
        replayable_headers(hs).last().0 == name,
    decreases hs.len(),
{
    let d = hs.drop_last();
    if !is_storable(hs.last()) {
        assert(replayable_headers(hs) == replayable_headers(d));
        lemma_replayable_names_come_from_input(d, name);
        assert(d.len() > 0);
        if d.last().0 == name {
            lemma_replayable_ends_with_name(d, name);
        }
    }
}

proof fn lemma_replayable_is_grouped(hs: Seq<(Seq<char>, Seq<u8>)>)
    requires
        is_grouped(hs),
    ensures
        is_grouped(replayable_headers(hs)),
    decreases hs.len(),
{
    if hs.len() > 0 {
        let d = hs.drop_last();
        let h = hs.last();
        lemma_replayable_is_grouped(d);
        if is_storable(h) {
            let r = replayable_headers(hs);
            let rd = replayable_headers(d);
            assert(r.drop_last() == rd);
            assert(r.last() == h);
            if rd.len() > 0 && has_header_named(rd, h.0) {
                lemma_replayable_names_come_from_input(d, h.0);
                assert(d.len() > 0 && d.last().0 == h.0);
                lemma_replayable_ends_with_name(d, h.0);
            }
        }
    }
}

proof fn lemma_grouped_list_is_kept(hs: Seq<(Seq<char>, Seq<u8>)>)
    requires
        is_grouped(hs),
    ensures
        grouped_headers(hs) == hs,
    decreases hs.len(),
{
    if hs.len() > 0 {
        let d = hs.drop_last();
        let h = hs.last();
        lemma_grouped_list_is_kept(d);
        lemma_last_position(d, h.0);
        if d.len() > 0 && d.last().0 == h.0 {
            assert(last_position(d, h.0) == d.len() - 1);
            assert(d.insert(d.len() as int, h) =~= hs);
        } else {
            if last_position(d, h.0) >= 0 {
                assert(d[last_position(d, h.0)].0 == h.0);
            }
            assert(d.push(h) =~= hs);
        }
    }
}

/// When the headers come grouped by name, as an `http::HeaderMap` yields them, a stored
/// and replayed response has them back in the very same order: the headers that are
/// passed on and read as text, then `x-cache`.
pub proof fn law_cache_round_trip_keeps_header_order(
    status: u16,
    headers: Seq<(Seq<char>, Seq<u8>)>,
    body: Seq<u8>,
    cache_status: Seq<char>,
)
    requires
        is_status_code(status),
        base64_decoding(base64_encoding(body)) == Ok::<Seq<u8>, Seq<char>>(body),
        forall|i: int| 0 <= i < headers.len() ==> is_kept_header_name(#[trigger] headers[i].0),
        is_grouped(headers),
    ensures
        replay(stored_response(status, headers, body), cache_status) == Ok::<HttpResponseView, ProxyErrorView>(
            HttpResponseView {
                status,
                headers: replayable_headers(headers).push(("x-cache"@, cache_status_value(cache_status))),
                body,
            },
        ),
{
    law_cache_round_trip(status, headers, body, cache_status);
    lemma_replayable_is_grouped(headers);
    lemma_grouped_list_is_kept(replayable_headers(headers));
}

} // verus!
