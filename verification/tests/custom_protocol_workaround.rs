use ohos_webview::custom_protocol_workaround::{
    apply_uri_work_around, is_work_around_uri, original_uri_prefix, revert_uri_work_around,
    work_around_uri_prefix,
};

#[test]
fn checks_if_custom_protocol_uri() {
    let scheme = "http";
    let uri = "http://wry.localhost/path/to/page";
    assert!(is_work_around_uri(uri, scheme, "wry"));
    assert!(!is_work_around_uri(uri, scheme, "asset"));
}

#[test]
fn https_work_around_roundtrip() {
    // The https scheme gives a secure context
    let original = "tauri://localhost/index.html";
    let worked = apply_uri_work_around(original, "https", "tauri");
    assert_eq!(worked, "https://tauri.localhost/index.html");
    assert!(is_work_around_uri(&worked, "https", "tauri"));
    let reverted = revert_uri_work_around(&worked, "https", "tauri");
    assert_eq!(reverted, original);
}

#[test]
fn https_work_around_does_not_match_external() {
    // External https URLs with an unrelated host must NOT be matched.
    // The matcher looks at the prefix alone, so that a URL like
    // `https://tauri.com/` does match protocol `tauri`.
    assert!(!is_work_around_uri("https://example.com/page", "https", "tauri"));
    // Only https://tauri.localhost/... matches
    assert!(is_work_around_uri("https://tauri.localhost/page", "https", "tauri"));
}

#[test]
fn is_work_around_uri_rejects_non_http_scheme() {
    // A URL with a non-http(s) scheme should not match even if the host looks right
    assert!(!is_work_around_uri("ftp://wry.localhost/path", "http", "wry"));
    assert!(!is_work_around_uri("wry://localhost/path", "http", "wry"));
}

#[test]
fn is_work_around_uri_rejects_wrong_protocol() {
    // URL registered for "wry" but checked against "asset"
    assert!(!is_work_around_uri("http://wry.localhost/path", "http", "asset"));
    // URL registered for "tauri" but checked against "wry"
    assert!(!is_work_around_uri("https://tauri.localhost/path", "https", "wry"));
}

#[test]
fn is_work_around_uri_root_path() {
    // Root path (no trailing path) should still match
    assert!(is_work_around_uri("http://wry.localhost", "http", "wry"));
    assert!(is_work_around_uri("http://wry.localhost/", "http", "wry"));
}

#[test]
fn apply_uri_work_around_noop_when_prefix_absent() {
    // If the URL doesn't start with `{protocol}://`, it's returned unchanged
    let url = "https://example.com/page";
    assert_eq!(apply_uri_work_around(url, "https", "tauri"), url);
}

#[test]
fn revert_uri_work_around_noop_when_prefix_absent() {
    // If the URL doesn't contain the workaround prefix, it's returned unchanged
    let url = "tauri://localhost/index.html";
    assert_eq!(revert_uri_work_around(url, "https", "tauri"), url);
}

#[test]
fn uri_work_around_preserves_query_and_fragment() {
    let original = "tauri://localhost/page?foo=bar#section";
    let worked = apply_uri_work_around(original, "https", "tauri");
    assert_eq!(
        worked,
        "https://tauri.localhost/page?foo=bar#section"
    );
    assert!(is_work_around_uri(&worked, "https", "tauri"));
    let reverted = revert_uri_work_around(&worked, "https", "tauri");
    assert_eq!(reverted, original);
}

#[test]
fn original_uri_prefix_format() {
    assert_eq!(original_uri_prefix("tauri"), "tauri://");
    assert_eq!(original_uri_prefix("wry"), "wry://");
}

#[test]
fn work_around_uri_prefix_format() {
    assert_eq!(
        work_around_uri_prefix("https", "tauri"),
        "https://tauri."
    );
    assert_eq!(work_around_uri_prefix("http", "wry"), "http://wry.");
}

#[test]
fn apply_and_revert_are_inverses() {
    // Round-trip across multiple protocols
    for protocol in &["tauri", "wry", "asset", "custom"] {
        for scheme in &["http", "https"] {
            let original = format!("{}://localhost/path/to/resource", protocol);
            let worked = apply_uri_work_around(&original, scheme, protocol);
            assert!(is_work_around_uri(&worked, scheme, protocol));
            let reverted = revert_uri_work_around(&worked, scheme, protocol);
            assert_eq!(reverted, original);
        }
    }
}

#[test]
fn every_occurrence_is_converted() {
    assert_eq!(
        apply_uri_work_around("tauri://a/?u=tauri://b", "https", "tauri"),
        "https://tauri.a/?u=https://tauri.b"
    );
    assert_eq!(
        revert_uri_work_around("https://tauri.a/?u=https://tauri.b", "https", "tauri"),
        "tauri://a/?u=tauri://b"
    );
    // But not where the URL does not start with the prefix.
    let url = "https://example.com/?u=tauri://x";
    assert_eq!(apply_uri_work_around(url, "https", "tauri"), url);
    // On the way back the prefix may stand anywhere.
    assert_eq!(
        revert_uri_work_around("x?u=https://tauri.y", "https", "tauri"),
        "x?u=tauri://y"
    );
}

#[test]
fn conversions_agree_with_str_replace() {
    let uris = [
        "",
        "a",
        "tauri://",
        "tauri:/",
        "xtauri://tauri://",
        "https://tauri.",
        "https://tauri.https://tauri.x",
        "https://taurihttps://tauri.",
        "tauri://\u{e4}\u{1f600}/tauri://",
        "://://a://",
    ];
    for uri in uris {
        for protocol in ["tauri", "", "a", ":", "a://b", "\u{e4}"] {
            for scheme in ["https", "http", ""] {
                let original = format!("{protocol}://");
                let worked = format!("{scheme}://{protocol}.");
                let applied = if uri.starts_with(&original) {
                    uri.replace(&original, &worked)
                } else {
                    uri.to_string()
                };
                assert_eq!(apply_uri_work_around(uri, scheme, protocol), applied);
                assert_eq!(
                    revert_uri_work_around(uri, scheme, protocol),
                    uri.replace(&worked, &original)
                );
                assert_eq!(
                    is_work_around_uri(uri, scheme, protocol),
                    uri.starts_with(&worked)
                );
            }
        }
    }
}

#[test]
fn converted_uri_is_work_around_uri() {
    for uri in ["wry://", "wry://x", "wry://a/?b=wry://c"] {
        assert!(is_work_around_uri(&apply_uri_work_around(uri, "http", "wry"), "http", "wry"));
    }
    let back = revert_uri_work_around("http://wry.x/http://wry.y", "http", "wry");
    assert!(back.starts_with("wry://"));
}

#[test]
fn only_the_prefix_changes() {
    let rest = "host:80/path/a.b?q=1&r=2#frag";
    assert_eq!(
        apply_uri_work_around(&format!("asset://{rest}"), "https", "asset"),
        format!("https://asset.{rest}")
    );
    assert_eq!(
        revert_uri_work_around(&format!("https://asset.{rest}"), "https", "asset"),
        format!("asset://{rest}")
    );
}

#[test]
fn unchanged_exactly_without_prefix() {
    let with = "wry://y";
    assert_ne!(apply_uri_work_around(with, "http", "wry"), with);
    for without in ["x?u=wry://y", "x?u=wry:/y", "http://wry.y", ""] {
        assert_eq!(apply_uri_work_around(without, "http", "wry"), without);
    }
    let with = "x?u=http://wry.y";
    let without = "x?u=http://wryy";
    assert_ne!(revert_uri_work_around(with, "http", "wry"), with);
    assert_eq!(revert_uri_work_around(without, "http", "wry"), without);
}

#[test]
fn roundtrip_fails_on_a_work_around_prefix_of_its_own() {
    let uri = "tauri://localhost/?x=https://tauri.foo";
    let worked = apply_uri_work_around(uri, "https", "tauri");
    assert_eq!(worked, "https://tauri.localhost/?x=https://tauri.foo");
    assert_eq!(
        revert_uri_work_around(&worked, "https", "tauri"),
        "tauri://localhost/?x=tauri://foo"
    );
}

#[test]
fn applying_undoes_reverting() {
    let uri = "https://wry.localhost/a?b=https://wry.c";
    let original = revert_uri_work_around(uri, "https", "wry");
    assert_eq!(original, "wry://localhost/a?b=wry://c");
    assert_eq!(apply_uri_work_around(&original, "https", "wry"), uri);
    // Unless the prefix stands behind the start only.
    let uri = "x?b=https://wry.c";
    let original = revert_uri_work_around(uri, "https", "wry");
    assert_eq!(original, "x?b=wry://c");
    assert_eq!(apply_uri_work_around(&original, "https", "wry"), original);
}

#[test]
fn one_protocol_per_uri() {
    let uri = "wry://localhost/";
    let matching: Vec<&str> = ["tauri", "wry", "asset", "w"]
        .into_iter()
        .filter(|p| uri.starts_with(&original_uri_prefix(p)))
        .collect();
    assert_eq!(matching, ["wry"]);
    let uri = "https://wry.localhost/";
    let matching: Vec<&str> = ["tauri", "wry", "asset", "w"]
        .into_iter()
        .filter(|p| is_work_around_uri(uri, "https", p))
        .collect();
    assert_eq!(matching, ["wry"]);
    // Unless one protocol starts with another and a dot.
    assert!(is_work_around_uri("https://a.b.c/", "https", "a"));
    assert!(is_work_around_uri("https://a.b.c/", "https", "a.b"));
}

#[test]
fn any_host_matches_under_its_scheme() {
    for rest in ["localhost/", "mydomain/x?y", "", "a.b.c:80#d"] {
        assert!(is_work_around_uri(&format!("https://asset.{rest}"), "https", "asset"));
        assert!(!is_work_around_uri(&format!("http://asset.{rest}"), "https", "asset"));
    }
}
