use ohos_webview::ohos::cookies::{
    cookie_target_url, cookies_received, format_set_cookie_value, parse_cookie_string, Cookie,
    CookieReply, SameSite,
};
use ohos_webview::ohos::error::Error;

fn cookie(name: &str, value: &str) -> Cookie {
    Cookie {
        name: name.to_string(),
        value: value.to_string(),
        domain: None,
        path: None,
        secure: None,
        http_only: None,
        same_site: None,
    }
}

fn pairs(cookies: &[Cookie]) -> Vec<(String, String)> {
    cookies.iter().map(|c| (c.name.clone(), c.value.clone())).collect()
}

fn pair(name: &str, value: &str) -> (String, String) {
    (name.to_string(), value.to_string())
}

#[test]
fn format_set_cookie_value_includes_core_attrs() {
    let cookie = Cookie {
        domain: Some("example.com".to_string()),
        path: Some("/".to_string()),
        secure: Some(true),
        http_only: Some(true),
        same_site: Some(SameSite::Lax),
        ..cookie("token", "abc")
    };
    let v = format_set_cookie_value(&cookie);
    assert!(v.starts_with("token=abc"));
    assert!(v.contains("; Domain=example.com"));
    assert!(v.contains("; Path=/"));
    assert!(v.contains("; Secure"));
    assert!(v.contains("; HttpOnly"));
    assert!(v.contains("; SameSite=Lax"));
}

#[test]
fn format_set_cookie_value_minimal() {
    let cookie = cookie("k", "v");
    assert_eq!(format_set_cookie_value(&cookie), "k=v");
}

#[test]
fn format_set_cookie_value_with_path_only() {
    let cookie = Cookie { path: Some("/app".to_string()), ..cookie("session", "xyz") };
    let v = format_set_cookie_value(&cookie);
    assert!(v.starts_with("session=xyz"));
    assert!(v.contains("; Path=/app"));
    assert!(!v.contains("; Secure"));
    assert!(!v.contains("; HttpOnly"));
}

#[test]
fn format_set_cookie_value_with_same_site_strict() {
    let cookie = Cookie { same_site: Some(SameSite::Strict), ..cookie("token", "abc") };
    let v = format_set_cookie_value(&cookie);
    assert!(v.contains("; SameSite=Strict"));
}

#[test]
fn format_set_cookie_value_with_same_site_none() {
    let cookie = Cookie { same_site: Some(SameSite::Unrestricted), ..cookie("token", "abc") };
    let v = format_set_cookie_value(&cookie);
    assert!(v.contains("; SameSite=None"));
}

#[test]
fn attributes_stand_in_their_order() {
    let all = Cookie {
        domain: Some("example.com".to_string()),
        path: Some("/".to_string()),
        secure: Some(true),
        http_only: Some(true),
        same_site: Some(SameSite::Strict),
        ..cookie("a", "b")
    };
    assert_eq!(
        format_set_cookie_value(&all),
        "a=b; Domain=example.com; Path=/; Secure; HttpOnly; SameSite=Strict"
    );
    let off = Cookie { secure: Some(false), http_only: Some(false), ..cookie("a", "") };
    assert_eq!(format_set_cookie_value(&off), "a=");
}

#[test]
fn formatted_as_the_cookie_crate_reads_it() {
    let all = Cookie {
        domain: Some("example.com".to_string()),
        path: Some("/p".to_string()),
        secure: Some(true),
        http_only: Some(true),
        same_site: Some(SameSite::Unrestricted),
        ..cookie("a", "b")
    };
    let read = cookie::Cookie::parse(format_set_cookie_value(&all)).unwrap();
    assert_eq!(read.name(), "a");
    assert_eq!(read.value(), "b");
    assert_eq!(read.domain(), Some("example.com"));
    assert_eq!(read.path(), Some("/p"));
    assert_eq!(read.secure(), Some(true));
    assert_eq!(read.http_only(), Some(true));
    assert_eq!(read.same_site(), Some(cookie::SameSite::None));
}

#[test]
fn target_url_is_that_of_the_domain() {
    let of = |domain: Option<&str>, current: &str| {
        let cookie = Cookie { domain: domain.map(String::from), ..cookie("a", "b") };
        cookie_target_url(&cookie, current)
    };
    assert_eq!(of(Some("example.com"), "https://x/"), Some("https://example.com".to_string()));
    assert_eq!(of(Some("..example.com"), ""), Some("https://example.com".to_string()));
    assert_eq!(of(Some(""), "https://x/"), Some("https://x/".to_string()));
    assert_eq!(of(None, "https://x/"), Some("https://x/".to_string()));
    assert_eq!(of(None, ""), None);
    assert_eq!(of(Some(""), ""), None);
}

#[test]
fn cookie_strings_are_read() {
    let cookies = parse_cookie_string("a=1; b = x=y ;c; =z; ; d=");
    assert_eq!(pairs(&cookies), [pair("a", "1"), pair("b", "x=y"), pair("d", "")]);
    for cookie in &cookies {
        assert_eq!(cookie.domain, None);
        assert_eq!(cookie.path, None);
        assert_eq!(cookie.secure, None);
        assert_eq!(cookie.http_only, None);
        assert_eq!(cookie.same_site, None);
    }
    assert!(parse_cookie_string("").is_empty());
    assert!(parse_cookie_string(" ; ;").is_empty());
}

#[test]
fn cookie_strings_are_read_beyond_ascii() {
    let cookies = parse_cookie_string("\u{e4}=\u{a0}\u{1f600}\u{3000}");
    assert_eq!(pairs(&cookies), [pair("\u{e4}", "\u{1f600}")]);
}

#[test]
fn attribute_names_are_cookies_in_a_cookie_string() {
    let cookies = parse_cookie_string("a=b; Path=/; Secure");
    assert_eq!(pairs(&cookies), [pair("a", "b"), pair("Path", "/")]);
}

#[test]
fn quotes_are_kept() {
    let cookies = parse_cookie_string("a=\"b c\"");
    assert_eq!(pairs(&cookies), [pair("a", "\"b c\"")]);
}

#[test]
fn written_cookies_are_read_back() {
    let cookies = [cookie("a", "1"), cookie("b", ""), cookie("c d", "x = y")];
    let string: Vec<String> = cookies.iter().map(format_set_cookie_value).collect();
    assert_eq!(pairs(&parse_cookie_string(&string.join("; "))), pairs(&cookies));
}

#[test]
fn replies_bring_cookies() {
    let cookies = cookies_received(CookieReply::Text("a=b".to_string())).unwrap();
    assert_eq!(pairs(&cookies), [pair("a", "b")]);
    assert!(cookies_received(CookieReply::Failed).unwrap().is_empty());
    match cookies_received(CookieReply::TimedOut) {
        Err(Error::OpenHarmonyWebviewError(message)) => {
            assert_eq!(message, "cookies_for_url timed out");
        }
        _ => panic!("not timed out"),
    }
}
