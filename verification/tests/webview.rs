use ohos_webview::ohos::cookies::Cookie;
use ohos_webview::ohos::create::{
    NewWebView, PlatformSpecificWebViewAttributes, WebViewAttributes,
};
use ohos_webview::ohos::error::Error;
use ohos_webview::ohos::headers::Header;
use ohos_webview::ohos::ops::{Awaiting, BridgeCall, PendingOp, Reply, Step};
use ohos_webview::ohos::platform::{LogicalRect, PdfConfig, Platform};
use ohos_webview::ohos::webview::{
    platform_webview_version, print_file_name, Dispatch, HandleSource, InnerWebView, PageLoadEvent,
};

struct TestPlatform;

impl Platform for TestPlatform {
    type Handle = &'static str;
    type Scalar = f64;
    type Rect = (i32, i32, i32, i32);
    type EvalCallback = &'static str;
    type PdfCallback = u8;
}

type Op = PendingOp<TestPlatform>;

const DEFAULT_BOUNDS: (i32, i32, i32, i32) = (0, 0, 800, 600);

fn attributes(id: &str) -> WebViewAttributes<TestPlatform> {
    WebViewAttributes {
        id: Some(id.to_string()),
        url: None,
        html: None,
        initialization_scripts: Vec::new(),
        ipc_handler: false,
        devtools: None,
        custom_protocols: Vec::new(),
        background_color: None,
        transparent: false,
        headers: None,
        autoplay: false,
        user_agent: None,
        javascript_disabled: false,
        bounds: None,
        clipboard: false,
        zoom_hotkeys_enabled: false,
    }
}

fn pl_attrs() -> PlatformSpecificWebViewAttributes<()> {
    PlatformSpecificWebViewAttributes {
        window_id: None,
        use_https: false,
        drag_drop_overlay: false,
        bridge_runtime: Some(()),
    }
}

fn unwrap(new: Result<NewWebView<TestPlatform, ()>, Error>) -> InnerWebView<TestPlatform> {
    match new {
        Ok(new) => new.webview,
        Err(_) => panic!("not made"),
    }
}

fn webview() -> InnerWebView<TestPlatform> {
    unwrap(InnerWebView::new(attributes("w"), pl_attrs(), 0, DEFAULT_BOUNDS))
}

fn child() -> InnerWebView<TestPlatform> {
    unwrap(InnerWebView::new_as_child(attributes("c"), pl_attrs(), 0, DEFAULT_BOUNDS))
}

fn cookie(domain: Option<&str>) -> Cookie {
    Cookie {
        name: "k".to_string(),
        value: "v".to_string(),
        domain: domain.map(String::from),
        path: None,
        secure: None,
        http_only: None,
        same_site: None,
    }
}

/// An operation, written out.
fn show(op: &Op) -> String {
    match op {
        PendingOp::LoadUrl(url) => format!("load {url}"),
        PendingOp::LoadUrlWithHeaders(url, headers) => format!("load {url} {headers:?}"),
        PendingOp::LoadHtml(html) => format!("html {html}"),
        PendingOp::Reload => "reload".to_string(),
        PendingOp::Zoom(scale) => format!("zoom {scale}"),
        PendingOp::SetBackgroundColor(color) => format!("color {color}"),
        PendingOp::SetVisible(visible) => format!("visible {visible}"),
        PendingOp::SetBounds(b) => format!("bounds {} {} {} {}", b.x, b.y, b.width, b.height),
        PendingOp::Focus => "focus".to_string(),
        PendingOp::ClearAllBrowsingData => "clear".to_string(),
        PendingOp::SetCookie(url, value) => format!("cookie {url} {value}"),
        PendingOp::Print(path) => format!("print {path}"),
        PendingOp::Eval(js, callback) => format!("eval {js} {callback:?}"),
        PendingOp::CreatePdf(path, config, callback) => {
            format!("pdf {path} {:?} {callback:?}", config.as_ref().map(|c| c.width))
        }
        PendingOp::Remove => "remove".to_string(),
    }
}

fn executed(result: Result<Dispatch<TestPlatform>, Error>) -> String {
    match result {
        Ok(Dispatch::Execute(op)) => show(&op),
        Ok(Dispatch::Queued) => panic!("queued"),
        Err(_) => panic!("refused"),
    }
}

fn queued(result: Result<Dispatch<TestPlatform>, Error>) -> bool {
    matches!(result, Ok(Dispatch::Queued))
}

fn refused(result: Result<Dispatch<TestPlatform>, Error>) -> String {
    match result {
        Err(Error::OpenHarmonyWebviewError(message)) => message,
        _ => panic!("not refused"),
    }
}

fn replayed(ops: Option<Vec<Op>>) -> Vec<String> {
    ops.expect("a first handle").iter().map(show).collect()
}

fn rect(x: f64, y: f64, width: f64, height: f64) -> LogicalRect<f64> {
    LogicalRect { x, y, width, height }
}

#[test]
fn operations_wait_and_are_replayed_in_order() {
    let mut w = webview();
    assert!(queued(w.load_url("https://a/")));
    assert!(queued(w.zoom(1.5)));
    assert!(queued(w.eval("1+1", Some("cb"))));
    assert!(queued(w.reload()));
    assert!(queued(w.set_visible(false)));
    assert_eq!(
        replayed(w.creation_succeeded("h")),
        ["load https://a/", "zoom 1.5", "eval 1+1 Some(\"cb\")", "reload", "visible false"]
    );
    assert_eq!(executed(w.focus()), "focus");
    assert_eq!(w.try_handle(), Some(&"h"));
}

#[test]
fn second_handle_changes_nothing() {
    let mut w = webview();
    assert!(queued(w.focus()));
    assert_eq!(replayed(w.creation_succeeded("h")), ["focus"]);
    assert!(w.creation_succeeded("other").is_none());
    assert_eq!(w.try_handle(), Some(&"h"));
}

#[test]
fn created_webview_executes_at_once() {
    let mut w = webview();
    assert!(replayed(w.creation_succeeded("h")).is_empty());
    assert_eq!(executed(w.load_url("u")), "load u");
    let headers = vec![
        Header { name: "b".to_string(), value: b"1".to_vec() },
        Header { name: "a".to_string(), value: b"2".to_vec() },
    ];
    assert_eq!(
        executed(w.load_url_with_headers("u", &headers)),
        "load u [(\"a\", \"2\"), (\"b\", \"1\")]"
    );
    assert_eq!(executed(w.load_html("<p>")), "html <p>");
    assert_eq!(executed(w.reload()), "reload");
    assert_eq!(executed(w.zoom(2.0)), "zoom 2");
    assert_eq!(executed(w.set_background_color((1, 2, 3, 255))), "color #FF010203");
    assert_eq!(executed(w.set_visible(true)), "visible true");
    assert_eq!(executed(w.focus()), "focus");
    assert_eq!(executed(w.focus_parent()), "focus");
    assert_eq!(executed(w.clear_all_browsing_data()), "clear");
    assert_eq!(executed(w.eval("js", None)), "eval js None");
    assert_eq!(executed(w.dispatch_or_queue(PendingOp::Remove)), "remove");
}

#[test]
fn failed_creation_refuses_and_drops() {
    let mut w = webview();
    assert!(queued(w.reload()));
    let rollback = w.creation_failed("no engine".to_string());
    assert_eq!(rollback.id, "w");
    assert_eq!(refused(w.reload()), "webview creation failed: no engine");
    assert_eq!(refused(w.load_url("u")), "webview creation failed: no engine");
    assert_eq!(w.try_handle(), None);
    // What waited is gone.
    assert!(replayed(w.creation_succeeded("h")).is_empty());
}

#[test]
fn printing_needs_a_loaded_page() {
    let mut w = webview();
    assert!(replayed(w.creation_succeeded("h")).is_empty());
    let message = "Page not fully loaded. Call print after onPageEnd.";
    assert_eq!(refused(w.print("/tmp/a".to_string())), message);
    assert_eq!(w.page_begin("https://a/"), PageLoadEvent::Started);
    assert_eq!(refused(w.print("/tmp/a".to_string())), message);
    assert_eq!(w.page_end("https://a/"), PageLoadEvent::Finished);
    assert_eq!(executed(w.print("/tmp/a".to_string())), "print /tmp/a");
    w.page_begin("https://b/");
    assert_eq!(refused(w.print("/tmp/a".to_string())), message);
}

#[test]
fn pdf_needs_a_loaded_page() {
    let mut w = webview();
    match w.create_pdf("p", None, 7) {
        Err(refusal) => {
            assert_eq!(refusal.callback, Some(7));
            match refusal.error {
                Error::OpenHarmonyWebviewError(message) => assert_eq!(
                    message,
                    "Page not fully loaded. Call createPdf after onPageEnd."
                ),
                _ => panic!("another error"),
            }
        }
        Ok(_) => panic!("not refused"),
    }
    w.page_end("https://a/");
    assert!(matches!(w.create_pdf("p", None, 7), Ok(Dispatch::Queued)));
    let config = PdfConfig {
        width: Some(8.5),
        height: None,
        margin_top: None,
        margin_bottom: None,
        margin_left: None,
        margin_right: None,
        scale: None,
        should_print_background: Some(true),
    };
    assert!(matches!(w.create_pdf("q", Some(config), 8), Ok(Dispatch::Queued)));
    assert_eq!(
        replayed(w.creation_succeeded("h")),
        ["pdf p None Some(7)", "pdf q Some(Some(8.5)) Some(8)"]
    );
}

#[test]
fn pdf_of_a_failed_webview_is_refused() {
    let mut w = webview();
    w.page_end("https://a/");
    let _ = w.creation_failed("x".to_string());
    match w.create_pdf("p", None, 7) {
        Err(refusal) => assert_eq!(refusal.callback, None),
        Ok(_) => panic!("not refused"),
    }
}

#[test]
fn url_is_that_of_the_last_page() {
    let mut w = webview();
    assert_eq!(w.url().unwrap(), "");
    w.page_begin("https://a/");
    assert_eq!(w.url().unwrap(), "https://a/");
    w.page_end("https://b/");
    assert_eq!(w.url().unwrap(), "https://b/");
    assert!(queued(w.load_url("https://c/")));
    assert_eq!(w.url().unwrap(), "https://b/");
}

#[test]
fn bounds_are_those_of_the_last_move() {
    let mut w = webview();
    assert_eq!(w.bounds().unwrap(), DEFAULT_BOUNDS);
    assert!(queued(w.set_bounds((1, 2, 3, 4), rect(1.0, 2.0, 3.0, 4.0))));
    assert_eq!(w.bounds().unwrap(), (1, 2, 3, 4));
    let _ = w.creation_failed("x".to_string());
    assert_eq!(
        refused(w.set_bounds((5, 6, 7, 8), rect(5.0, 6.0, 7.0, 8.0))),
        "webview creation failed: x"
    );
    assert_eq!(w.bounds().unwrap(), (1, 2, 3, 4));
    assert!(replayed(w.creation_succeeded("h")).is_empty());
    assert_eq!(
        executed(w.set_bounds((5, 6, 7, 8), rect(5.0, 6.5, 7.0, 8.0))),
        "bounds 5 6.5 7 8"
    );
    assert_eq!(w.bounds().unwrap(), (5, 6, 7, 8));
}

#[test]
fn devtools_are_remembered() {
    let mut w = webview();
    assert!(!w.is_devtools_open());
    assert!(!w.open_devtools());
    assert!(w.is_devtools_open());
    assert!(replayed(w.creation_succeeded("h")).is_empty());
    assert!(w.close_devtools());
    assert!(!w.is_devtools_open());
    assert!(w.open_devtools());
    assert!(w.is_devtools_open());
}

#[test]
fn cookies_are_asked_for_off_the_main_thread() {
    let mut w = webview();
    assert!(w.cookies_for_url("https://a/", false).is_none());
    assert!(replayed(w.creation_succeeded("h")).is_empty());
    assert!(w.cookies_for_url("https://a/", true).is_none());
    let query = w.cookies_for_url("https://a/", false).unwrap();
    assert_eq!(query.url, "https://a/");
    assert_eq!(*query.handle, "h");
    assert!(w.cookies(false).is_none());
    w.page_begin("https://b/");
    assert!(w.cookies(true).is_none());
    assert_eq!(w.cookies(false).unwrap().url, "https://b/");
}

#[test]
fn cookies_are_set_for_their_url() {
    let mut w = webview();
    assert!(matches!(w.set_cookie(&cookie(None)), Ok(None)));
    assert!(matches!(w.set_cookie(&cookie(Some("x.y"))), Ok(Some(Dispatch::Queued))));
    w.page_end("https://a/p");
    assert!(matches!(w.set_cookie(&cookie(None)), Ok(Some(Dispatch::Queued))));
    assert_eq!(
        replayed(w.creation_succeeded("h")),
        ["cookie https://x.y k=v; Domain=x.y", "cookie https://a/p k=v"]
    );
    assert!(w.delete_cookie(&cookie(None)).is_ok());
    let mut failed = webview();
    let _ = failed.creation_failed("x".to_string());
    assert!(matches!(failed.set_cookie(&cookie(None)), Ok(None)));
    assert!(failed.set_cookie(&cookie(Some("x.y"))).is_err());
}

#[test]
fn child_is_disposed_once() {
    let mut c = child();
    assert!(replayed(c.creation_succeeded("h")).is_empty());
    assert!(matches!(c.dispose_child(), Some(PendingOp::Remove)));
    assert!(c.dispose_child().is_none());
    assert_eq!(executed(c.reload()), "reload");
    assert!(c.dispose_child().is_none());
}

#[test]
fn child_is_disposed_once_it_is_created() {
    let mut c = child();
    assert!(c.dispose_child().is_none());
    assert!(c.dispose_child().is_none());
    assert_eq!(replayed(c.creation_succeeded("h")), ["remove"]);
}

#[test]
fn only_children_are_disposed() {
    let mut w = webview();
    assert!(replayed(w.creation_succeeded("h")).is_empty());
    assert!(w.dispose_child().is_none());
}

#[test]
fn disposing_a_failed_child_asks_for_nothing() {
    let mut c = child();
    let _ = c.creation_failed("x".to_string());
    assert!(c.dispose_child().is_none());
}

#[test]
fn handle_is_a_facade_before_creation() {
    let mut w = webview();
    assert!(matches!(w.handle(), HandleSource::Facade("w")));
    assert!(replayed(w.creation_succeeded("h")).is_empty());
    assert!(matches!(w.handle(), HandleSource::Ready(&"h")));
    assert_eq!(w.id(), "w");
}

#[test]
fn print_files_are_named_by_the_time() {
    assert_eq!(print_file_name(0), "wry_print_0.pdf");
    assert_eq!(print_file_name(1_731_600_000_123), "wry_print_1731600000123.pdf");
}

#[test]
fn version_is_handed_on() {
    assert_eq!(platform_webview_version(Ok("M132".to_string())).unwrap(), "M132");
    match platform_webview_version(Err("no library".to_string())) {
        Err(Error::OpenHarmonyWebviewError(message)) => assert_eq!(message, "no library"),
        _ => panic!("another result"),
    }
}

// Operations, call by call.

#[test]
fn plain_operations_make_one_call() {
    let op: Op = PendingOp::LoadUrl("u".to_string());
    let (call, awaiting) = op.execute();
    assert!(matches!(call, BridgeCall::LoadUrl(url) if url == "u"));
    assert!(matches!(awaiting.resume(Reply::Done(None)), Step::Finished));
    let op: Op = PendingOp::Zoom(1.25);
    let (call, awaiting) = op.execute();
    assert!(matches!(call, BridgeCall::SetZoom(scale) if scale == 1.25));
    assert!(matches!(awaiting.resume(Reply::Failed), Step::Failed));
    let op: Op = PendingOp::SetBounds(rect(1.0, 2.0, 3.0, 4.0));
    let (call, _) = op.execute();
    assert!(matches!(call, BridgeCall::SetBounds(b) if b.width == 3.0));
    let op: Op = PendingOp::SetCookie("u".to_string(), "a=b".to_string());
    let (call, awaiting) = op.execute();
    assert!(matches!(call, BridgeCall::SetCookie(url, value) if url == "u" && value == "a=b"));
    assert!(matches!(awaiting, Awaiting::Last));
    let op: Op = PendingOp::Remove;
    assert!(matches!(op.execute(), (BridgeCall::Remove, Awaiting::Last)));
}

#[test]
fn printing_writes_a_pdf_first() {
    let op: Op = PendingOp::Print("p".to_string());
    let (call, awaiting) = op.execute();
    assert!(matches!(call, BridgeCall::CreatePdf(path, None) if path == "p"));
    match awaiting.resume(Reply::Done(None)) {
        Step::Call(BridgeCall::Print(path), awaiting) => {
            assert_eq!(path, "p");
            assert!(matches!(awaiting.resume(Reply::Done(None)), Step::Finished));
        }
        _ => panic!("no print"),
    }
    let op: Op = PendingOp::Print("p".to_string());
    let (_, awaiting) = op.execute();
    assert!(matches!(awaiting.resume(Reply::Failed), Step::Failed));
}

#[test]
fn scripts_are_answered() {
    let run = |callback: Option<&'static str>, reply: Reply| {
        let op: Op = PendingOp::Eval("js".to_string(), callback);
        let (call, awaiting) = op.execute();
        assert!(matches!(call, BridgeCall::EvaluateScript(js) if js == "js"));
        awaiting.resume(reply)
    };
    assert!(matches!(
        run(Some("cb"), Reply::Done(Some("2".to_string()))),
        Step::AnswerScript("cb", text) if text == "2"
    ));
    assert!(matches!(
        run(Some("cb"), Reply::Done(None)),
        Step::AnswerScript("cb", text) if text.is_empty()
    ));
    assert!(matches!(run(Some("cb"), Reply::Failed), Step::Failed));
    assert!(matches!(run(None, Reply::Done(None)), Step::Finished));
}

#[test]
fn pdfs_are_answered() {
    let run = |callback: Option<u8>, reply: Reply| {
        let op: Op = PendingOp::CreatePdf("p".to_string(), None, callback);
        op.execute().1.resume(reply)
    };
    assert!(matches!(run(Some(3), Reply::Done(None)), Step::AnswerPdf(3, true)));
    assert!(matches!(run(Some(3), Reply::Failed), Step::AnswerPdf(3, false)));
    assert!(matches!(run(None, Reply::Failed), Step::Finished));
}

// Before the first page and the first move.

#[test]
fn nothing_is_loaded_before_the_first_page() {
    let mut w = webview();
    assert!(queued(w.load_url("https://a/")));
    assert_eq!(replayed(w.creation_succeeded("h")), ["load https://a/"]);
    assert_eq!(w.url().unwrap(), "");
    w.page_begin("https://a/");
    assert!(w.print("p".to_string()).is_err());
    assert!(w.create_pdf("p", None, 1).is_err());
}

#[test]
fn bounds_stay_without_a_move() {
    let mut w = webview();
    let _ = w.creation_failed("x".to_string());
    assert!(w.set_bounds((1, 2, 3, 4), rect(1.0, 2.0, 3.0, 4.0)).is_err());
    w.page_end("https://a/");
    assert_eq!(w.bounds().unwrap(), DEFAULT_BOUNDS);
}
