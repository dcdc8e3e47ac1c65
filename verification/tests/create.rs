use ohos_webview::ohos::callbacks::{
    blocks_navigation, custom_protocol_options, download_path, NewWindowResponse, ProtocolOptions,
};
use ohos_webview::ohos::create::{
    make_script_rules, merge_scripts, setup_steps, InitializationScript, NewWebView, Placement,
    PlatformSpecificWebViewAttributes, SetupStep, WebViewAttributes,
};
use ohos_webview::ohos::error::Error;
use ohos_webview::ohos::headers::Header;
use ohos_webview::ohos::intercept::intercepted_request;
use ohos_webview::ohos::ipc::{choose_ipc_uri, ipc_request};
use ohos_webview::ohos::platform::{LogicalRect, Platform};
use ohos_webview::ohos::webview::InnerWebView;

struct TestPlatform;

impl Platform for TestPlatform {
    type Handle = ();
    type Scalar = f64;
    type Rect = u8;
    type EvalCallback = ();
    type PdfCallback = ();
}

type New = NewWebView<TestPlatform, &'static str>;

const DEFAULT_BOUNDS: u8 = 9;

fn attributes() -> WebViewAttributes<TestPlatform> {
    WebViewAttributes {
        id: None,
        url: None,
        html: None,
        initialization_scripts: Vec::new(),
        ipc_handler: false,
        devtools: None,
        custom_protocols: Vec::new(),
        background_color: None,
        transparent: false,
        headers: None,
        autoplay: false,
        user_agent: None,
        javascript_disabled: false,
        bounds: None,
        clipboard: false,
        zoom_hotkeys_enabled: false,
    }
}

fn pl_attrs() -> PlatformSpecificWebViewAttributes<&'static str> {
    PlatformSpecificWebViewAttributes {
        window_id: None,
        use_https: false,
        drag_drop_overlay: false,
        bridge_runtime: Some("bridge"),
    }
}

fn make(
    attributes: WebViewAttributes<TestPlatform>,
    pl_attrs: PlatformSpecificWebViewAttributes<&'static str>,
) -> New {
    match InnerWebView::new(attributes, pl_attrs, 42, DEFAULT_BOUNDS) {
        Ok(new) => new,
        Err(_) => panic!("not made"),
    }
}

fn make_child(attributes: WebViewAttributes<TestPlatform>) -> New {
    match InnerWebView::new_as_child(attributes, pl_attrs(), 42, DEFAULT_BOUNDS) {
        Ok(new) => new,
        Err(_) => panic!("not made"),
    }
}

fn names(protocols: &[&str]) -> Vec<String> {
    protocols.iter().map(|p| p.to_string()).collect()
}

fn script(script: &str) -> InitializationScript {
    InitializationScript { script: script.to_string(), for_main_frame_only: true }
}

fn placement() -> Placement<TestPlatform> {
    Placement {
        bounds: 5,
        logical: LogicalRect { x: 1.0, y: 2.0, width: 3.0, height: 4.0 },
    }
}

/// A step, written out.
fn show(step: &SetupStep) -> String {
    match step {
        SetupStep::Callbacks => "callbacks".to_string(),
        SetupStep::IpcProxy => "ipc".to_string(),
        SetupStep::Declare(protocol) => format!("declare {protocol}"),
        SetupStep::Bind(protocol) => format!("bind {protocol}"),
        SetupStep::Create => "create".to_string(),
        SetupStep::RegisterIntercept(names) => format!("intercept {}", names.join(",")),
    }
}

fn shown(steps: &[SetupStep]) -> Vec<String> {
    steps.iter().map(show).collect()
}

#[test]
fn bridge_is_needed() {
    let without = PlatformSpecificWebViewAttributes { bridge_runtime: None, ..pl_attrs() };
    match InnerWebView::new(attributes(), without, 0, DEFAULT_BOUNDS) {
        Err(Error::OpenHarmonyInitError(message)) => assert_eq!(
            message,
            "BridgeRuntime not provided \u{2014} call with_bridge_runtime() on the builder"
        ),
        _ => panic!("made without a bridge"),
    }
}

#[test]
fn plain_webview() {
    let new = make(attributes(), pl_attrs());
    assert_eq!(new.bridge_runtime, "bridge");
    assert_eq!(new.webview.id(), "42");
    assert_eq!(new.webview.bounds().unwrap(), DEFAULT_BOUNDS);
    assert_eq!(new.webview.url().unwrap(), "");
    assert!(new.intercepted.is_empty());
    assert_eq!(shown(&new.steps), ["callbacks", "create"]);
    let request = new.create_request;
    assert_eq!(request.id, "42");
    assert_eq!(request.window_id, None);
    assert_eq!(request.url, None);
    assert_eq!(request.html, None);
    assert_eq!(request.style.x, None);
    assert_eq!(request.style.y, None);
    assert_eq!(request.style.width, None);
    assert_eq!(request.style.height, None);
    assert_eq!(request.style.background_color, None);
    assert_eq!(request.javascript_enabled, Some(true));
    assert_eq!(request.devtools, None);
    assert_eq!(request.user_agent, None);
    assert_eq!(request.autoplay, Some(false));
    assert!(request.initialization_scripts.is_empty());
    assert_eq!(request.headers, None);
    assert_eq!(request.transparent, Some(false));
    assert_eq!(request.clipboard, Some(false));
    assert_eq!(request.zoom_hotkeys, Some(false));
    assert_eq!(request.drag_drop_overlay, Some(false));
    assert_eq!(request.https_intercept_protocol_list, None);
}

#[test]
fn attributes_are_handed_on() {
    let new = make(
        WebViewAttributes {
            id: Some("main".to_string()),
            url: Some("https://a/".to_string()),
            devtools: Some(true),
            background_color: Some((1, 2, 3, 4)),
            transparent: true,
            headers: Some(vec![Header { name: "a".to_string(), value: b"b".to_vec() }]),
            autoplay: true,
            user_agent: Some("agent".to_string()),
            javascript_disabled: true,
            bounds: Some(placement()),
            clipboard: true,
            zoom_hotkeys_enabled: true,
            ..attributes()
        },
        PlatformSpecificWebViewAttributes {
            window_id: Some(7),
            drag_drop_overlay: true,
            ..pl_attrs()
        },
    );
    assert_eq!(new.webview.id(), "main");
    assert_eq!(new.webview.bounds().unwrap(), 5);
    let request = new.create_request;
    assert_eq!(request.id, "main");
    assert_eq!(request.window_id, Some(7));
    assert_eq!(request.url.as_deref(), Some("https://a/"));
    assert_eq!(request.style.background_color.as_deref(), Some("#04010203"));
    // Only a child is placed.
    assert_eq!(request.style.x, None);
    assert_eq!(request.javascript_enabled, Some(false));
    assert_eq!(request.devtools, Some(true));
    assert_eq!(request.user_agent.as_deref(), Some("agent"));
    assert_eq!(request.autoplay, Some(true));
    assert_eq!(request.headers, Some(vec![("a".to_string(), "b".to_string())]));
    assert_eq!(request.transparent, Some(true));
    assert_eq!(request.clipboard, Some(true));
    assert_eq!(request.zoom_hotkeys, Some(true));
    assert_eq!(request.drag_drop_overlay, Some(true));
}

#[test]
fn window_zero_is_the_default_one() {
    let zero = PlatformSpecificWebViewAttributes { window_id: Some(0), ..pl_attrs() };
    assert_eq!(make(attributes(), zero).create_request.window_id, None);
    let negative = PlatformSpecificWebViewAttributes { window_id: Some(-1), ..pl_attrs() };
    assert_eq!(make(attributes(), negative).create_request.window_id, Some(-1));
}

#[test]
fn child_is_placed() {
    let new = make_child(WebViewAttributes { bounds: Some(placement()), ..attributes() });
    assert_eq!(new.webview.bounds().unwrap(), 5);
    let style = new.create_request.style;
    assert_eq!(style.x, Some(1.0));
    assert_eq!(style.y, Some(2.0));
    assert_eq!(style.width, Some(3.0));
    assert_eq!(style.height, Some(4.0));
    let new = make_child(attributes());
    assert_eq!(new.webview.bounds().unwrap(), DEFAULT_BOUNDS);
    assert_eq!(new.create_request.style.x, None);
}

#[test]
fn document_goes_before_url() {
    let new = make(
        WebViewAttributes {
            url: Some("https://a/".to_string()),
            html: Some("<p>".to_string()),
            headers: Some(Vec::new()),
            ..attributes()
        },
        pl_attrs(),
    );
    assert_eq!(new.create_request.html.as_deref(), Some("<p>"));
    assert_eq!(new.create_request.url, None);
    assert_eq!(new.create_request.headers, None);
}

#[test]
fn url_is_rewritten_where_intercepted() {
    let with = |use_https: bool, protocols: &[&str]| {
        make(
            WebViewAttributes {
                url: Some("tauri://localhost/".to_string()),
                custom_protocols: names(protocols),
                ..attributes()
            },
            PlatformSpecificWebViewAttributes { use_https, ..pl_attrs() },
        )
    };
    let new = with(true, &["asset", "tauri"]);
    assert_eq!(new.create_request.url.as_deref(), Some("https://tauri.localhost/"));
    assert_eq!(
        new.create_request.https_intercept_protocol_list,
        Some(names(&["asset", "tauri"]))
    );
    assert_eq!(new.intercepted, names(&["asset", "tauri"]));
    assert_eq!(
        shown(&new.steps),
        [
            "callbacks",
            "declare asset",
            "declare tauri",
            "bind asset",
            "bind tauri",
            "create",
            "intercept asset,tauri"
        ]
    );
    let new = with(false, &["asset", "tauri"]);
    assert_eq!(new.create_request.url.as_deref(), Some("tauri://localhost/"));
    assert_eq!(new.create_request.https_intercept_protocol_list, None);
    assert!(new.intercepted.is_empty());
    assert_eq!(new.steps.len(), 6);
    let new = with(true, &[]);
    assert_eq!(new.create_request.url.as_deref(), Some("tauri://localhost/"));
    assert_eq!(new.create_request.https_intercept_protocol_list, None);
}

#[test]
fn first_page_reaches_its_handler() {
    let url = "tauri://localhost/index.html?a=b";
    let new = make(
        WebViewAttributes {
            url: Some(url.to_string()),
            custom_protocols: names(&["asset", "tauri"]),
            ..attributes()
        },
        PlatformSpecificWebViewAttributes { use_https: true, ..pl_attrs() },
    );
    let loaded = new.create_request.url.unwrap();
    let request = intercepted_request(&loaded, new.webview.id(), &new.intercepted).unwrap();
    assert_eq!(request.protocol, "tauri");
    assert_eq!(request.url, url);
    assert_eq!(request.webview_id, "42");
    assert_eq!(request.method, "GET");
    assert!(request.body.is_empty());
}

#[test]
fn scripts_are_merged_in_order() {
    let new = make(
        WebViewAttributes {
            initialization_scripts: vec![script("z()"), script("a()"), script("")],
            custom_protocols: names(&["tauri", "ipc"]),
            ..attributes()
        },
        pl_attrs(),
    );
    let scripts = new.create_request.initialization_scripts;
    assert_eq!(scripts.len(), 1);
    assert_eq!(scripts[0].script, "z();\na();\n");
    assert_eq!(scripts[0].script_rules, ["*", "tauri://", "ipc://"]);
}

#[test]
fn no_scripts_make_none() {
    assert!(merge_scripts(&Vec::new(), &names(&["tauri"])).is_empty());
    assert_eq!(merge_scripts(&vec![script("a")], &Vec::new())[0].script_rules, ["*"]);
    assert_eq!(make_script_rules(&names(&["x"])), ["*", "x://"]);
}

#[test]
fn steps_with_ipc() {
    let new = make(WebViewAttributes { ipc_handler: true, ..attributes() }, pl_attrs());
    assert_eq!(shown(&new.steps), ["callbacks", "ipc", "create"]);
    assert_eq!(
        shown(&setup_steps(true, &names(&["a"]), true)),
        ["callbacks", "ipc", "declare a", "bind a", "create", "intercept a"]
    );
}

#[test]
fn steps_fail_with_their_errors() {
    let init = |step: SetupStep| match step.error("cause") {
        Some(Error::OpenHarmonyInitError(message)) => message,
        _ => panic!("another error"),
    };
    assert_eq!(init(SetupStep::Callbacks), "cause");
    assert_eq!(
        init(SetupStep::Declare("tauri".to_string())),
        "Failed to declare custom protocol 'tauri': cause"
    );
    assert_eq!(
        init(SetupStep::Bind("tauri".to_string())),
        "Failed to register custom protocol: cause"
    );
    match SetupStep::IpcProxy.error("cause") {
        Some(Error::OpenHarmonyWebviewError(message)) => {
            assert_eq!(message, "Failed to register IPC proxy: cause");
        }
        _ => panic!("another error"),
    }
    assert!(SetupStep::Create.error("cause").is_none());
    assert!(SetupStep::RegisterIntercept(Vec::new()).error("cause").is_none());
}

#[test]
fn messages_come_from_the_page() {
    let request = ipc_request("https://a/b?c", &vec!["hello".to_string(), "x".to_string()]);
    assert_eq!(request.uri, "https://a/b?c");
    assert_eq!(request.body, "hello");
    let request = ipc_request("", &Vec::new());
    assert_eq!(request.uri, "about:blank");
    assert_eq!(request.body, "");
    assert_eq!(ipc_request("not a uri", &Vec::new()).uri, "about:blank");
    assert_eq!(ipc_request("tauri://localhost", &Vec::new()).uri, "tauri://localhost");
}

#[test]
fn message_uri_is_chosen() {
    assert_eq!(choose_ipc_uri("https://a/", true), "https://a/");
    assert_eq!(choose_ipc_uri("https://a/", false), "about:blank");
    assert_eq!(choose_ipc_uri("", true), "about:blank");
}

#[test]
fn blank_page_is_a_uri() {
    assert!("about:blank".parse::<http::Uri>().is_ok());
    assert!("".parse::<http::Uri>().is_err());
}

#[test]
fn platform_is_answered() {
    assert!(blocks_navigation(false));
    assert!(!blocks_navigation(true));
    assert!(NewWindowResponse::Allow.opens_window());
    assert!(!NewWindowResponse::Create.opens_window());
    assert!(!NewWindowResponse::Deny.opens_window());
    assert_eq!(download_path(Some("/tmp/x".to_string())), "/tmp/x");
    assert_eq!(download_path(None), "");
}

#[test]
fn protocols_are_declared_with_their_options() {
    assert_eq!(
        custom_protocol_options(),
        ProtocolOptions {
            standard: true,
            local: false,
            display_isolated: false,
            secure: false,
            cors_enabled: true,
            csp_bypassing: true,
            fetch_enabled: true,
            code_cache_enabled: true,
        }
    );
}

#[test]
fn fresh_ids_differ() {
    let id = |number: u32| {
        match InnerWebView::new(attributes(), pl_attrs(), number, DEFAULT_BOUNDS) {
            Ok(new) => new.webview.id().to_string(),
            Err(_) => panic!("not made"),
        }
    };
    assert_eq!(id(1), "1");
    assert_eq!(id(11), "11");
    assert_eq!(id(u32::MAX), "4294967295");
}

#[test]
fn devtools_are_asked_for_as_given() {
    for devtools in [None, Some(false), Some(true)] {
        let new = make(WebViewAttributes { devtools, ..attributes() }, pl_attrs());
        assert_eq!(new.create_request.devtools, devtools);
    }
}
