use cache_proxy_api::proxy::ProxyErrorKind;
use cache_proxy_api::response::{build_response, CachedResponse};

fn header<'a>(headers: &'a [(String, Vec<u8>)], name: &str) -> Option<&'a [u8]> {
    headers
        .iter()
        .find(|(n, _)| n == name)
        .map(|(_, v)| v.as_slice())
}

#[test]
fn rebuilds_cached_response_with_headers() {
    let headers = vec![("content-type".to_string(), b"application/json".to_vec())];

    let cached = CachedResponse::from_parts(200, &headers, br#"{"ok":true}"#);
    let response = cached.into_response("HIT").unwrap();

    assert_eq!(response.status, 200);
    assert_eq!(header(&response.headers, "x-cache"), Some(&b"HIT"[..]));
    assert_eq!(header(&response.headers, "content-type"), Some(&b"application/json"[..]));
}

#[test]
fn stored_form_keeps_text_headers_and_base64_body() {
    let headers = vec![
        ("content-type".to_string(), b"text/plain".to_vec()),
        ("content-length".to_string(), b"5".to_vec()),
        ("x-binary".to_string(), vec![0xff, 0x01]),
        ("x-note".to_string(), b"a\tb".to_vec()),
    ];
    let cached = CachedResponse::from_parts(201, &headers, b"hello");
    assert_eq!(cached.status, 201);
    assert_eq!(
        cached.headers,
        vec![
            ("content-type".to_string(), "text/plain".to_string()),
            ("x-note".to_string(), "a\tb".to_string()),
        ]
    );
    assert_eq!(cached.body_base64, "aGVsbG8=");
    let replayed = cached.into_response("HIT").unwrap();
    assert_eq!(replayed.body, b"hello".to_vec());
    assert_eq!(
        replayed.headers,
        vec![
            ("content-type".to_string(), b"text/plain".to_vec()),
            ("x-note".to_string(), b"a\tb".to_vec()),
            ("x-cache".to_string(), b"HIT".to_vec()),
        ]
    );
}

#[test]
fn replay_refuses_bad_entries() {
    let bad_status = CachedResponse { status: 42, headers: Vec::new(), body_base64: String::new() };
    let err = bad_status.into_response("HIT").unwrap_err();
    assert_eq!(err.kind(), ProxyErrorKind::Internal);
    assert_eq!(err.message(), "Cached response had an invalid status code: invalid status code");

    let bad_body = CachedResponse { status: 200, headers: Vec::new(), body_base64: "@@".to_string() };
    let err = bad_body.into_response("HIT").unwrap_err();
    assert!(err.message().starts_with("Cached response body was invalid: "));

    let bad_name = CachedResponse {
        status: 200,
        headers: vec![("bad name".to_string(), "v".to_string())],
        body_base64: String::new(),
    };
    let err = bad_name.into_response("HIT").unwrap_err();
    assert_eq!(
        err.message(),
        "Cached response had an invalid header name 'bad name': invalid HTTP header name"
    );

    let bad_value = CachedResponse {
        status: 200,
        headers: vec![("x-a".to_string(), "line\nbreak".to_string())],
        body_base64: String::new(),
    };
    let err = bad_value.into_response("HIT").unwrap_err();
    assert_eq!(
        err.message(),
        "Cached response had an invalid header value for 'x-a': failed to parse header value"
    );
}

#[test]
fn header_names_are_normalised_on_replay() {
    let cached = CachedResponse {
        status: 200,
        headers: vec![("X-Custom".to_string(), "v".to_string())],
        body_base64: String::new(),
    };
    let response = cached.into_response("HIT").unwrap();
    assert_eq!(header(&response.headers, "x-custom"), Some(&b"v"[..]));
}

#[test]
fn responses_carry_the_cache_status_last() {
    let headers = vec![
        ("x-cache".to_string(), b"OLD".to_vec()),
        ("connection".to_string(), b"close".to_vec()),
        ("content-type".to_string(), b"text/plain".to_vec()),
    ];
    let response = build_response(404, &headers, b"nope".to_vec(), "MISS");
    assert_eq!(response.status, 404);
    assert_eq!(
        response.headers,
        vec![
            ("content-type".to_string(), b"text/plain".to_vec()),
            ("x-cache".to_string(), b"MISS".to_vec()),
        ]
    );
    let invalid = build_response(200, &Vec::new(), Vec::new(), "a\nb");
    assert_eq!(invalid.headers, vec![("x-cache".to_string(), b"INVALID".to_vec())]);
}

#[test]
fn replay_groups_headers_by_name_like_a_header_map() {
    let cached = CachedResponse {
        status: 200,
        headers: vec![
            ("a".to_string(), "1".to_string()),
            ("b".to_string(), "2".to_string()),
            ("A".to_string(), "3".to_string()),
        ],
        body_base64: String::new(),
    };
    let response = cached.into_response("HIT").unwrap();
    assert_eq!(
        response.headers,
        vec![
            ("a".to_string(), b"1".to_vec()),
            ("a".to_string(), b"3".to_vec()),
            ("b".to_string(), b"2".to_vec()),
            ("x-cache".to_string(), b"HIT".to_vec()),
        ]
    );
}

#[test]
fn replay_takes_the_decoded_body_as_given() {
    let cached = CachedResponse {
        status: 204,
        headers: vec![("x-a".to_string(), "v".to_string())],
        body_base64: "ignored".to_string(),
    };
    let response = cached.into_response_with_body(Ok(b"xyz".to_vec()), "MISS").unwrap();
    assert_eq!(response.status, 204);
    assert_eq!(response.body, b"xyz".to_vec());

    let cached = CachedResponse { status: 200, headers: Vec::new(), body_base64: String::new() };
    let err = cached.into_response_with_body(Err("boom".to_string()), "HIT").unwrap_err();
    assert_eq!(err.message(), "Cached response body was invalid: boom");

    let cached = CachedResponse { status: 7, headers: Vec::new(), body_base64: String::new() };
    let err = cached.into_response_with_body(Err("boom".to_string()), "HIT").unwrap_err();
    assert_eq!(err.message(), "Cached response had an invalid status code: invalid status code");
}

#[test]
fn stored_form_takes_the_encoded_body_as_given() {
    let headers = vec![
        ("content-type".to_string(), b"text/plain".to_vec()),
        ("host".to_string(), b"example".to_vec()),
    ];
    let cached = CachedResponse::from_parts_with_body(200, &headers, "Zm9v".to_string());
    assert_eq!(cached.body_base64, "Zm9v");
    assert_eq!(cached.headers, vec![("content-type".to_string(), "text/plain".to_string())]);
}
