use ohos_webview::ohos::headers::{headers_to_btree, Header};
use ohos_webview::ohos::intercept::{
    custom_protocols_use_https, dispatch_https_intercept_sync, find_protocol, intercept_response,
    intercepted_request, request_for, rewrite_https_url_if_matching, HandlerResponse, InterceptedRequest,
    WebviewHttpsInterceptResponse,
};
use std::cell::RefCell;

fn names(protocols: &[&str]) -> Vec<String> {
    protocols.iter().map(|p| p.to_string()).collect()
}

fn test_handler(respond_inline: bool) -> impl Fn(InterceptedRequest) -> Option<HandlerResponse> {
    move |_request| {
        if respond_inline {
            Some(HandlerResponse {
                status: 201,
                content_type: Some(b"application/json".to_vec()),
                body: Vec::new(),
            })
        } else {
            None
        }
    }
}

fn is_passthrough(resp: &WebviewHttpsInterceptResponse) -> bool {
    !resp.handled && resp.status == 0 && resp.mime_type.is_empty() && resp.body.is_empty()
}

#[test]
fn custom_protocols_use_https_returns_true_when_nonempty() {
    let empty: Vec<String> = Vec::new();
    assert!(!custom_protocols_use_https(&empty));
    assert!(custom_protocols_use_https(&names(&["tauri"])));
}

#[test]
fn rewrite_https_url_matches_registered_protocol() {
    // When the URL scheme matches a registered protocol, it should be
    // rewritten to https://{protocol}.localhost/...
    let protocols = names(&["tauri"]);
    let url = "tauri://localhost/index.html";
    let rewritten = rewrite_https_url_if_matching(url, &protocols);
    assert_eq!(rewritten, "https://tauri.localhost/index.html");
}

#[test]
fn rewrite_https_url_no_match_external_url() {
    // External URLs should not be rewritten
    let protocols = names(&["tauri"]);
    let url = "https://example.com/page";
    let rewritten = rewrite_https_url_if_matching(url, &protocols);
    assert_eq!(rewritten, url);
}

#[test]
fn rewrite_https_url_no_match_empty_protocols() {
    // When no protocols are registered, URL should be unchanged
    let protocols: Vec<String> = Vec::new();
    let url = "tauri://localhost/index.html";
    let rewritten = rewrite_https_url_if_matching(url, &protocols);
    assert_eq!(rewritten, url);
}

#[test]
fn rewrite_https_url_first_matching_protocol_wins() {
    // Only one protocol prefix can match any given URL, in whatever order the
    // protocols are listed.
    let url = "wry://localhost/path";
    for protocols in [names(&["tauri", "wry"]), names(&["wry", "tauri"])] {
        let rewritten = rewrite_https_url_if_matching(url, &protocols);
        assert_eq!(rewritten, "https://wry.localhost/path");
    }
}

#[test]
fn https_intercept_non_localhost_host_is_handled() {
    // Any host matches: `https://asset.mydomain/x` must dispatch to the
    // `asset` handler.
    let resp = dispatch_https_intercept_sync(
        "https://asset.mydomain/x",
        "w1",
        &names(&["asset"]),
        test_handler(true),
    );
    assert!(resp.handled);
    assert_eq!(resp.status, 201);
    assert_eq!(resp.mime_type, "application/json");
}

#[test]
fn https_intercept_reverts_to_original_scheme_and_host() {
    // The handler must receive the reverted custom-scheme URL, host intact.
    let seen: RefCell<Option<String>> = RefCell::new(None);
    let resp = dispatch_https_intercept_sync(
        "https://asset.mydomain/x?y=1",
        "w1",
        &names(&["asset"]),
        |request: InterceptedRequest| {
            let request_uri: http::Uri = request.url.parse().unwrap();
            *seen.borrow_mut() = Some(request_uri.to_string());
            assert_eq!(request.webview_id, "w1");
            assert_eq!(request.protocol, "asset");
            Some(HandlerResponse { status: 200, content_type: None, body: Vec::new() })
        },
    );
    assert!(resp.handled);
    assert_eq!(*seen.borrow(), Some("asset://mydomain/x?y=1".to_string()));
}

#[test]
fn https_intercept_non_https_url_passthrough() {
    let resp =
        dispatch_https_intercept_sync("http://x.localhost/p", "w1", &names(&[]), test_handler(true));
    assert!(!resp.handled && resp.status == 0);
}

#[test]
fn https_intercept_unregistered_protocol_passthrough() {
    let resp = dispatch_https_intercept_sync(
        "https://unknown.localhost/p",
        "w1",
        &names(&["myproto"]),
        test_handler(true),
    );
    assert!(!resp.handled && resp.status == 0);
}

#[test]
fn https_intercept_invalid_uri_passthrough() {
    // Protocol registered, but the restored URI contains a space
    let resp = dispatch_https_intercept_sync(
        "https://myproto.localhost/a b",
        "w1",
        &names(&["myproto"]),
        test_handler(true),
    );
    assert!(!resp.handled && resp.status == 0);
}

#[test]
fn https_intercept_inline_response_is_handled() {
    let resp = dispatch_https_intercept_sync(
        "https://myproto.localhost/data",
        "w1",
        &names(&["myproto"]),
        test_handler(true),
    );
    assert!(resp.handled);
    assert_eq!(resp.status, 201);
    assert_eq!(resp.mime_type, "application/json");
}

#[test]
fn https_intercept_unanswered_handler_returns_early_via_disconnect() {
    // handler returns without an answer → passthrough, without waiting
    let start = std::time::Instant::now();
    let resp = dispatch_https_intercept_sync(
        "https://myproto.localhost/slow",
        "w1",
        &names(&["myproto"]),
        test_handler(false),
    );
    assert!(!resp.handled && resp.status == 0);
    assert!(start.elapsed() < std::time::Duration::from_secs(3));
}

#[test]
fn handler_is_called_once_or_not_at_all() {
    let calls = RefCell::new(0);
    let count = |_request: InterceptedRequest| {
        *calls.borrow_mut() += 1;
        None
    };
    let protocols = names(&["a", "b"]);
    dispatch_https_intercept_sync("https://b.x/", "w", &protocols, &count);
    assert_eq!(*calls.borrow(), 1);
    dispatch_https_intercept_sync("https://c.x/", "w", &protocols, &count);
    dispatch_https_intercept_sync("https://a.x/ ", "w", &protocols, &count);
    assert_eq!(*calls.borrow(), 1);
}

#[test]
fn answers_keep_status_and_body() {
    let answer = intercept_response(Some(HandlerResponse {
        status: 404,
        content_type: None,
        body: vec![0, 255, 7],
    }));
    assert!(answer.handled);
    assert_eq!(answer.status, 404);
    assert_eq!(answer.mime_type, "text/html");
    assert_eq!(answer.body, [0, 255, 7]);
    assert!(is_passthrough(&intercept_response(None)));
    assert!(is_passthrough(&WebviewHttpsInterceptResponse::passthrough()));
}

#[test]
fn content_type_is_visible_ascii_or_html() {
    let mime = |bytes: &[u8]| {
        intercept_response(Some(HandlerResponse {
            status: 200,
            content_type: Some(bytes.to_vec()),
            body: Vec::new(),
        }))
        .mime_type
    };
    assert_eq!(mime(b"text/css; charset=utf-8"), "text/css; charset=utf-8");
    assert_eq!(mime(b"a\tb"), "a\tb");
    assert_eq!(mime(b""), "");
    assert_eq!(mime("t\u{e4}xt".as_bytes()), "text/html");
    assert_eq!(mime(b"a\nb"), "text/html");
    for byte in 0..=u8::MAX {
        let expected = if byte == 9 || (32..127).contains(&byte) {
            (byte as char).to_string()
        } else {
            "text/html".to_string()
        };
        assert_eq!(mime(&[byte]), expected);
    }
}

#[test]
fn first_matching_protocol_is_found() {
    assert_eq!(find_protocol("https://a.b.c/", &names(&["x", "a.b", "a"])), Some(1));
    assert_eq!(find_protocol("https://a.b.c/", &names(&["x", "a", "a.b"])), Some(1));
    assert_eq!(find_protocol("https://a.b.c/", &names(&["b", "x"])), None);
    assert_eq!(find_protocol("", &names(&["b"])), None);
}

#[test]
fn unknown_urls_make_no_request() {
    assert!(intercepted_request("https://example.com/", "w", &names(&["tauri"])).is_none());
    assert!(intercepted_request("https://tauri.localhost/\u{7f}", "w", &names(&["tauri"])).is_none());
    let request = intercepted_request("https://tauri.localhost/", "w", &names(&["tauri"])).unwrap();
    assert_eq!(request.url, "tauri://localhost/");
}

#[test]
fn rewritten_url_leads_back_to_its_handler() {
    for protocols in [names(&["asset", "tauri", "wry"]), names(&["wry", "tauri", "asset"])] {
        for url in ["tauri://localhost/index.html", "asset://mydomain/x?y=1", "wry://h:1/"] {
            let rewritten = rewrite_https_url_if_matching(url, &protocols);
            let request = intercepted_request(&rewritten, "w1", &protocols).unwrap();
            assert_eq!(request.url, url);
            assert!(url.starts_with(&format!("{}://", request.protocol)));
        }
    }
}

#[test]
fn prefix_of_a_prefix_depends_on_the_order() {
    let url = "a://b://";
    assert_eq!(rewrite_https_url_if_matching(url, &names(&["a", "a://b"])), "https://a.b://");
    assert_eq!(rewrite_https_url_if_matching(url, &names(&["a://b", "a"])), "https://a://b.");
}

fn header(name: &str, value: &[u8]) -> Header {
    Header { name: name.to_string(), value: value.to_vec() }
}

#[test]
fn headers_are_sorted_and_the_last_decides() {
    let headers = vec![
        header("x-b", b"1"),
        header("accept", b"text/html"),
        header("x-b", b"2"),
        header("x-a", b"a\tb"),
        header("x-c", "\u{e4} \u{1f600}".as_bytes()),
        header("x-d", b"1"),
        header("x-d", b"\x80"),
    ];
    let expected: Vec<(String, String)> = [
        ("accept", "text/html"),
        ("x-a", "a\tb"),
        ("x-b", "2"),
        ("x-c", "\u{e4} \u{1f600}"),
        ("x-d", ""),
    ]
    .into_iter()
    .map(|(k, v)| (k.to_string(), v.to_string()))
    .collect();
    assert_eq!(headers_to_btree(&headers), expected);
    assert!(headers_to_btree(&Vec::new()).is_empty());
}

#[test]
fn headers_agree_with_a_map() {
    let mut map = http::HeaderMap::new();
    map.append("x-a", "1".parse().unwrap());
    map.append("host", "h".parse().unwrap());
    map.append("x-a", "2".parse().unwrap());
    map.append("x-e", http::HeaderValue::from_bytes(b"\xff").unwrap());
    map.append("x-k", http::HeaderValue::from_bytes("\u{e9}".as_bytes()).unwrap());
    let headers: Vec<Header> =
        map.iter().map(|(k, v)| header(k.as_str(), v.as_bytes())).collect();
    let expected: std::collections::BTreeMap<String, String> = map
        .iter()
        .map(|(k, v)| {
            let text = std::str::from_utf8(v.as_bytes()).unwrap_or("");
            (k.as_str().to_string(), text.to_string())
        })
        .collect();
    let expected: Vec<(String, String)> = expected.into_iter().collect();
    assert_eq!(headers_to_btree(&headers), expected);
}

#[test]
fn header_values_are_utf8() {
    let value = |bytes: &[u8]| headers_to_btree(&vec![header("x-k", bytes)])[0].1.clone();
    assert_eq!(value(b"\xc3\xa9"), "\u{e9}");
    assert_eq!(value(b"a\tb c"), "a\tb c");
    assert_eq!(value(b""), "");
    // Cut short, overlong, a surrogate, beyond the last character.
    for bytes in [&b"\xc3"[..], b"\xc0\xaf", b"\xed\xa0\x80", b"\xf4\x90\x80\x80", b"a\x80"] {
        assert_eq!(value(bytes), "");
    }
}

#[test]
fn handler_may_be_called_by_value() {
    let body = vec![1, 2];
    let resp = dispatch_https_intercept_sync(
        "https://asset.x/",
        "w1",
        &names(&["asset"]),
        move |request: InterceptedRequest| {
            assert_eq!(request.method, "GET");
            assert!(request.body.is_empty());
            Some(HandlerResponse { status: 200, content_type: None, body })
        },
    );
    assert_eq!(resp.body, [1, 2]);
}

#[test]
fn request_is_made_for_an_accepted_uri() {
    let url = "asset://mydomain/x".to_string();
    assert!(request_for("w1", "asset", url.clone(), false).is_none());
    let request = request_for("w1", "asset", url, true).unwrap();
    assert_eq!(request.webview_id, "w1");
    assert_eq!(request.protocol, "asset");
    assert_eq!(request.method, "GET");
    assert_eq!(request.url, "asset://mydomain/x");
    assert!(request.body.is_empty());
}
