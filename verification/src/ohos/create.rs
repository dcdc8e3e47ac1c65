//! Making a webview: what the platform is asked to create, and the steps that
//! lead there.

use super::cookies;
use super::error::{Error, ErrorText};
use super::headers;
use super::headers::Header;
use super::intercept;
use super::ops;
use super::platform::{LogicalRect, Platform};
use super::uri;
use super::webview::{InnerWebView, State};
use crate::color;
use crate::color::RGBA;
use crate::custom_protocol_workaround as workaround;
use crate::digits;
use crate::text;
use vstd::prelude::*;
use vstd::string::*;

verus! {

/// A script that runs when a document starts.
pub struct InitializationScript {
    pub script: String,
    /// The platform has no such distinction; this is not looked at.
    pub for_main_frame_only: bool,
}

/// Where a webview is placed: the bounds as they were given, and the same in
/// logical units.
pub struct Placement<P: Platform> {
    pub bounds: P::Rect,
    pub logical: LogicalRect<P::Scalar>,
}

/// What a webview is made from.
pub struct WebViewAttributes<P: Platform> {
    pub id: Option<String>,
    pub url: Option<String>,
    pub html: Option<String>,
    pub initialization_scripts: Vec<InitializationScript>,
    pub ipc_handler: bool,
    /// Whether the developer tools can be opened; nothing in a build without
    /// them.
    pub devtools: Option<bool>,
    /// The names of the custom protocols, each of them once.
    pub custom_protocols: Vec<String>,
    pub background_color: Option<RGBA>,
    pub transparent: bool,
    pub headers: Option<Vec<Header>>,
    pub autoplay: bool,
    pub user_agent: Option<String>,
    pub javascript_disabled: bool,
    pub bounds: Option<Placement<P>>,
    pub clipboard: bool,
    pub zoom_hotkeys_enabled: bool,
}

/// What a webview on this platform is made from besides.
pub struct PlatformSpecificWebViewAttributes<B> {
    /// The window to show the webview in; `0` stands for the default one.
    pub window_id: Option<i64>,
    pub use_https: bool,
    pub drag_drop_overlay: bool,
    /// The connection to the platform.
    pub bridge_runtime: Option<B>,
}

/// How a new webview looks.
pub struct WebviewStyle<P: Platform> {
    pub x: Option<P::Scalar>,
    pub y: Option<P::Scalar>,
    pub width: Option<P::Scalar>,
    pub height: Option<P::Scalar>,
    pub background_color: Option<String>,
}

/// A script that runs when a document starts whose origin one of the rules
/// matches.
pub struct WebviewInitializationScript {
    pub script: String,
    pub script_rules: Vec<String>,
}

/// What the platform is asked to create.
pub struct WebviewCreateRequest<P: Platform> {
    pub id: String,
    pub window_id: Option<i64>,
    pub url: Option<String>,
    pub html: Option<String>,
    pub style: WebviewStyle<P>,
    pub javascript_enabled: Option<bool>,
    pub devtools: Option<bool>,
    pub user_agent: Option<String>,
    pub autoplay: Option<bool>,
    pub initialization_scripts: Vec<WebviewInitializationScript>,
    pub headers: Option<Vec<(String, String)>>,
    pub transparent: Option<bool>,
    pub clipboard: Option<bool>,
    pub zoom_hotkeys: Option<bool>,
    pub drag_drop_overlay: Option<bool>,
    pub https_intercept_protocol_list: Option<Vec<String>>,
}

/// What a [`WebviewCreateRequest`] asks for.
pub struct CreateText<P: Platform> {
    pub id: Seq<char>,
    pub window_id: Option<i64>,
    pub url: Option<Seq<char>>,
    pub html: Option<Seq<char>>,
    pub placed: Option<LogicalRect<P::Scalar>>,
    pub background_color: Option<Seq<char>>,
    pub javascript_enabled: bool,
    pub devtools: Option<bool>,
    pub user_agent: Option<Seq<char>>,
    pub autoplay: bool,
    /// The script, if any, and its rules.
    pub scripts: Seq<(Seq<char>, Seq<Seq<char>>)>,
    pub headers: Option<Seq<(Seq<char>, Seq<char>)>>,
    pub transparent: bool,
    pub clipboard: bool,
    pub zoom_hotkeys: bool,
    pub drag_drop_overlay: bool,
    pub intercepted: Option<Seq<Seq<char>>>,
}

/// A request asks for what `said` says.
pub open spec fn asks_for<P: Platform>(
    request: WebviewCreateRequest<P>,
    said: CreateText<P>,
) -> bool {
    &&& request.id@ == said.id
    &&& request.window_id == said.window_id
    &&& cookies::optional_text(request.url) == said.url
    &&& cookies::optional_text(request.html) == said.html
    &&& match said.placed {
        Some(rect) => {
            &&& request.style.x == Some(rect.x)
            &&& request.style.y == Some(rect.y)
            &&& request.style.width == Some(rect.width)
            &&& request.style.height == Some(rect.height)
        },
        None => {
            &&& request.style.x is None
            &&& request.style.y is None
            &&& request.style.width is None
            &&& request.style.height is None
        },
    }
    &&& cookies::optional_text(request.style.background_color) == said.background_color
    &&& request.javascript_enabled == Some(said.javascript_enabled)
    &&& request.devtools == said.devtools
    &&& cookies::optional_text(request.user_agent) == said.user_agent
    &&& request.autoplay == Some(said.autoplay)
    &&& script_texts(request.initialization_scripts@) == said.scripts
    &&& match request.headers {
        Some(pairs) => said.headers == Some(ops::text_pairs(pairs@)),
        None => said.headers is None,
    }
    &&& request.transparent == Some(said.transparent)
    &&& request.clipboard == Some(said.clipboard)
    &&& request.zoom_hotkeys == Some(said.zoom_hotkeys)
    &&& request.drag_drop_overlay == Some(said.drag_drop_overlay)
    &&& match request.https_intercept_protocol_list {
        Some(names) => said.intercepted == Some(text::texts(names@)),
        None => said.intercepted is None,
    }
}

/// The scripts of a list, with their rules.
pub open spec fn script_texts(scripts: Seq<WebviewInitializationScript>) -> Seq<
    (Seq<char>, Seq<Seq<char>>),
> {
    Seq::new(
        scripts.len(),
        |i: int| (scripts[i].script@, text::texts(scripts[i].script_rules@)),
    )
}

// ---------------------------------------------------------------------------
// Parts of the request
// ---------------------------------------------------------------------------

/// The id of a webview: the given one, or else a fresh number.
pub open spec fn webview_id(id: Option<String>, fresh: u32) -> Seq<char> {
    match id {
        Some(id) => id@,
        None => digits::decimal(fresh as nat),
    }
}

/// Requests under the https scheme are intercepted: it is asked for, and there
/// is a custom protocol.
pub open spec fn intercepts(use_https: bool, custom_protocols: Seq<String>) -> bool {
    use_https && custom_protocols.len() > 0
}

/// The documents in which scripts run: those under http(s), and those under a
/// custom protocol, which `*` does not match.
pub open spec fn script_rules(protocols: Seq<Seq<char>>) -> Seq<Seq<char>> {
    seq!["*"@] + Seq::new(protocols.len(), |i: int| workaround::original_prefix(protocols[i]))
}

/// The texts of the scripts.
pub open spec fn script_bodies(scripts: Seq<InitializationScript>) -> Seq<Seq<char>> {
    Seq::new(scripts.len(), |i: int| scripts[i].script@)
}

/// The one script that all scripts become, in their order: the platform would
/// run separate ones in an order of its own.
pub open spec fn merged_scripts(
    scripts: Seq<InitializationScript>,
    protocols: Seq<Seq<char>>,
) -> Seq<(Seq<char>, Seq<Seq<char>>)> {
    if scripts.len() == 0 {
        Seq::empty()
    } else {
        seq![(text::join(script_bodies(scripts), ";\n"@), script_rules(protocols))]
    }
}

/// The URL that is loaded first: none where there is a document to show, and
/// the rewritten one where requests are intercepted.
pub open spec fn first_url<P: Platform>(
    attributes: WebViewAttributes<P>,
    use_https: bool,
) -> Option<Seq<char>> {
    if attributes.html is Some || attributes.url is None {
        None
    } else if intercepts(use_https, attributes.custom_protocols@) {
        Some(
            intercept::rewritten(attributes.url->0@, text::texts(attributes.custom_protocols@)),
        )
    } else {
        Some(attributes.url->0@)
    }
}

/// What the platform is asked to create.
pub open spec fn create_text<P: Platform, B>(
    attributes: WebViewAttributes<P>,
    pl_attrs: PlatformSpecificWebViewAttributes<B>,
    fresh_id: u32,
    is_child: bool,
) -> CreateText<P> {
    let url = first_url(attributes, pl_attrs.use_https);
    CreateText {
        id: webview_id(attributes.id, fresh_id),
        window_id: if pl_attrs.window_id == Some(0i64) {
            None
        } else {
            pl_attrs.window_id
        },
        url,
        html: cookies::optional_text(attributes.html),
        placed: if is_child && attributes.bounds is Some {
            Some(attributes.bounds->0.logical)
        } else {
            None
        },
        background_color: match attributes.background_color {
            Some(color) => Some(color::argb_hex(color)),
            None => None,
        },
        javascript_enabled: !attributes.javascript_disabled,
        devtools: attributes.devtools,
        user_agent: cookies::optional_text(attributes.user_agent),
        autoplay: attributes.autoplay,
        scripts: merged_scripts(
            attributes.initialization_scripts@,
            text::texts(attributes.custom_protocols@),
        ),
        headers: if url is Some && attributes.headers is Some {
            Some(headers::sorted_pairs(headers::header_map(attributes.headers->0@)))
        } else {
            None
        },
        transparent: attributes.transparent,
        clipboard: attributes.clipboard,
        zoom_hotkeys: attributes.zoom_hotkeys_enabled,
        drag_drop_overlay: pl_attrs.drag_drop_overlay,
        intercepted: if intercepts(pl_attrs.use_https, attributes.custom_protocols@) {
            Some(text::texts(attributes.custom_protocols@))
        } else {
            None
        },
    }
}

/// The rules for the documents in which scripts run.
pub fn make_script_rules(protocols: &Vec<String>) -> (rules: Vec<String>)
    ensures
        text::texts(rules@) == script_rules(text::texts(protocols@)),
{
    let mut rules: Vec<String> = Vec::new();
    rules.push("*".to_string());
    let mut i: usize = 0;
    while i < protocols.len()
        invariant
            i <= protocols.len(),
            rules.len() == i + 1,
            rules@[0]@ == "*"@,
            forall|j: int|
                0 <= j < i ==> (#[trigger] rules@[j + 1])@ == workaround::original_prefix(
                    protocols@[j]@,
                ),
        decreases protocols.len() - i,
    {
        rules.push(workaround::original_uri_prefix(protocols[i].as_str()));
        i = i + 1;
    }
    proof {
        let want = script_rules(text::texts(protocols@));
        assert forall|k: int| 0 <= k < want.len() implies text::texts(rules@)[k] == want[k] by {
            if k > 0 {
                assert(rules@[(k - 1) + 1]@ == workaround::original_prefix(protocols@[k - 1]@));
            }
        }
        assert(text::texts(rules@) =~= want);
    }
    rules
}

/// All scripts in one.
pub fn merge_scripts(
    scripts: &Vec<InitializationScript>,
    protocols: &Vec<String>,
) -> (merged: Vec<WebviewInitializationScript>)
    ensures
        script_texts(merged@) == merged_scripts(scripts@, text::texts(protocols@)),
{
    let mut merged: Vec<WebviewInitializationScript> = Vec::new();
    if scripts.len() > 0 {
        let mut bodies: Vec<String> = Vec::new();
        let mut i: usize = 0;
        while i < scripts.len()
            invariant
                i <= scripts.len(),
                bodies.len() == i,
                forall|j: int| 0 <= j < i ==> (#[trigger] bodies@[j])@ == scripts@[j].script@,
            decreases scripts.len() - i,
        {
            bodies.push(scripts[i].script.clone());
            i = i + 1;
        }
        assert(text::texts(bodies@) =~= script_bodies(scripts@));
        let script = text::join_texts(&bodies, ";\n");
        let script_rules = make_script_rules(protocols);
        merged.push(WebviewInitializationScript { script, script_rules });
    }
    assert(script_texts(merged@) =~= merged_scripts(scripts@, text::texts(protocols@)));
    merged
}

// ---------------------------------------------------------------------------
// Steps
// ---------------------------------------------------------------------------

/// A step on the way to a webview.
pub enum SetupStep {
    /// Register the callbacks for what happens to the webview.
    Callbacks,
    /// Register the object through which a page posts messages.
    IpcProxy,
    /// Declare a custom protocol, which holds for the whole process.
    Declare(String),
    /// Bind a custom protocol to the webview.
    Bind(String),
    /// Have the webview created.
    Create,
    /// Have requests for these protocols intercepted.
    RegisterIntercept(Vec<String>),
}

/// What a [`SetupStep`] stands for.
pub enum Setup {
    Callbacks,
    IpcProxy,
    Declare(Seq<char>),
    Bind(Seq<char>),
    Create,
    RegisterIntercept(Seq<Seq<char>>),
}

impl View for SetupStep {
    type V = Setup;

    open spec fn view(&self) -> Setup {
        match *self {
            SetupStep::Callbacks => Setup::Callbacks,
            SetupStep::IpcProxy => Setup::IpcProxy,
            SetupStep::Declare(protocol) => Setup::Declare(protocol@),
            SetupStep::Bind(protocol) => Setup::Bind(protocol@),
            SetupStep::Create => Setup::Create,
            SetupStep::RegisterIntercept(names) => Setup::RegisterIntercept(text::texts(names@)),
        }
    }
}

/// What the steps of a list stand for.
pub open spec fn step_texts(steps: Seq<SetupStep>) -> Seq<Setup> {
    Seq::new(steps.len(), |i: int| steps[i]@)
}

/// The steps to a webview. Everything is registered before the webview is
/// created: each custom protocol is declared before any is bound.
pub open spec fn setup(ipc: bool, protocols: Seq<Seq<char>>, intercepting: bool) -> Seq<Setup> {
    seq![Setup::Callbacks] + (if ipc {
        seq![Setup::IpcProxy]
    } else {
        Seq::empty()
    }) + Seq::new(protocols.len(), |i: int| Setup::Declare(protocols[i])) + Seq::new(
        protocols.len(),
        |i: int| Setup::Bind(protocols[i]),
    ) + seq![Setup::Create] + (if intercepting {
        seq![Setup::RegisterIntercept(protocols)]
    } else {
        Seq::empty()
    })
}

/// The steps to a webview.
pub fn setup_steps(ipc: bool, protocols: &Vec<String>, intercepting: bool) -> (steps: Vec<
    SetupStep,
>)
    ensures
        step_texts(steps@) == setup(ipc, text::texts(protocols@), intercepting),
{
    let ghost names = text::texts(protocols@);
    let ghost declared = Seq::new(names.len(), |i: int| Setup::Declare(names[i]));
    let ghost bound = Seq::new(names.len(), |i: int| Setup::Bind(names[i]));
    let mut steps: Vec<SetupStep> = Vec::new();
    steps.push(SetupStep::Callbacks);
    assert(step_texts(steps@) =~= seq![Setup::Callbacks]);
    if ipc {
        steps.push(SetupStep::IpcProxy);
    }
    let ghost first = seq![Setup::Callbacks] + (if ipc {
        seq![Setup::IpcProxy]
    } else {
        Seq::empty()
    });
    assert(step_texts(steps@) =~= first);
    let mut i: usize = 0;
    assert(first + declared.take(0) =~= first);
    while i < protocols.len()
        invariant
            i <= protocols.len(),
            names == text::texts(protocols@),
            declared == Seq::new(names.len(), |i: int| Setup::Declare(names[i])),
            step_texts(steps@) == first + declared.take(i as int),
        decreases protocols.len() - i,
    {
        let ghost before = steps@;
        steps.push(SetupStep::Declare(protocols[i].clone()));
        assert(step_texts(steps@) =~= step_texts(before).push(declared[i as int]));
        assert(first + declared.take(i + 1) =~= (first + declared.take(i as int)).push(
            declared[i as int],
        ));
        i = i + 1;
    }
    assert(declared.take(i as int) =~= declared);
    let ghost second = first + declared;
    let mut k: usize = 0;
    assert(second + bound.take(0) =~= second);
    while k < protocols.len()
        invariant
            k <= protocols.len(),
            names == text::texts(protocols@),
            bound == Seq::new(names.len(), |i: int| Setup::Bind(names[i])),
            step_texts(steps@) == second + bound.take(k as int),
        decreases protocols.len() - k,
    {
        let ghost before = steps@;
        steps.push(SetupStep::Bind(protocols[k].clone()));
        assert(step_texts(steps@) =~= step_texts(before).push(bound[k as int]));
        assert(second + bound.take(k + 1) =~= (second + bound.take(k as int)).push(
            bound[k as int],
        ));
        k = k + 1;
    }
    assert(bound.take(k as int) =~= bound);
    let ghost before = steps@;
    steps.push(SetupStep::Create);
    assert(step_texts(steps@) =~= step_texts(before) + seq![Setup::Create]);
    if intercepting {
        let ghost before = steps@;
        steps.push(SetupStep::RegisterIntercept(text::copy_texts(protocols)));
        assert(step_texts(steps@) =~= step_texts(before) + seq![Setup::RegisterIntercept(names)]);
    }
    assert(step_texts(steps@) =~= setup(ipc, names, intercepting));
    steps
}

/// The error with which a webview is not made when a step fails for `cause`.
/// The last two steps go on in the background and do not fail here.
pub open spec fn setup_error(step: Setup, cause: Seq<char>) -> Option<ErrorText> {
    match step {
        Setup::Callbacks => Some(ErrorText::Init(cause)),
        Setup::IpcProxy => Some(ErrorText::Webview("Failed to register IPC proxy: "@ + cause)),
        Setup::Declare(protocol) => Some(
            ErrorText::Init(
                "Failed to declare custom protocol '"@ + protocol + "': "@ + cause,
            ),
        ),
        Setup::Bind(_) => Some(
            ErrorText::Init("Failed to register custom protocol: "@ + cause),
        ),
        Setup::Create => None,
        Setup::RegisterIntercept(_) => None,
    }
}

impl SetupStep {
    /// The error with which a webview is not made when the step fails for
    /// `cause`.
    pub fn error(&self, cause: &str) -> (error: Option<Error>)
        ensures
            match error {
                Some(e) => setup_error(self@, cause@) == Some(e@),
                None => setup_error(self@, cause@) is None,
            },
    {
        match self {
            SetupStep::Callbacks => Some(Error::OpenHarmonyInitError(cause.to_string())),
            SetupStep::IpcProxy => {
                let mut message = "Failed to register IPC proxy: ".to_string();
                message.append(cause);
                Some(Error::OpenHarmonyWebviewError(message))
            },
            SetupStep::Declare(protocol) => {
                let mut message = "Failed to declare custom protocol '".to_string();
                message.append(protocol.as_str());
                message.append("': ");
                message.append(cause);
                Some(Error::OpenHarmonyInitError(message))
            },
            SetupStep::Bind(_) => {
                let mut message = "Failed to register custom protocol: ".to_string();
                message.append(cause);
                Some(Error::OpenHarmonyInitError(message))
            },
            SetupStep::Create => None,
            SetupStep::RegisterIntercept(_) => None,
        }
    }
}

// ---------------------------------------------------------------------------
// The webview
// ---------------------------------------------------------------------------

/// A new webview, and what is to be done for it.
pub struct NewWebView<P: Platform, B> {
    pub webview: InnerWebView<P>,
    pub bridge_runtime: B,
    pub steps: Vec<SetupStep>,
    pub create_request: WebviewCreateRequest<P>,
    /// The custom protocols whose https requests are answered; none where
    /// requests are not intercepted.
    pub intercepted: Vec<String>,
}

/// The error for a webview without a connection to the platform.
pub open spec fn bridge_missing() -> ErrorText {
    ErrorText::Init(
        "BridgeRuntime not provided — call with_bridge_runtime() on the builder"@,
    )
}

/// `new` is what a webview is made into.
pub open spec fn made<P: Platform, B>(
    new: NewWebView<P, B>,
    attributes: WebViewAttributes<P>,
    pl_attrs: PlatformSpecificWebViewAttributes<B>,
    fresh_id: u32,
    default_bounds: P::Rect,
    is_child: bool,
) -> bool {
    let protocols = text::texts(attributes.custom_protocols@);
    let intercepting = intercepts(pl_attrs.use_https, attributes.custom_protocols@);
    &&& Some(new.bridge_runtime) == pl_attrs.bridge_runtime
    &&& new.webview@ == State::<P>::initial(
        webview_id(attributes.id, fresh_id),
        match attributes.bounds {
            Some(placement) => placement.bounds,
            None => default_bounds,
        },
        is_child,
    )
    &&& step_texts(new.steps@) == setup(attributes.ipc_handler, protocols, intercepting)
    &&& asks_for(new.create_request, create_text(attributes, pl_attrs, fresh_id, is_child))
    &&& text::texts(new.intercepted@) == if intercepting {
        protocols
    } else {
        Seq::empty()
    }
}

impl<P: Platform> InnerWebView<P> {
    /// Makes a webview inside another.
    pub fn new_as_child<B>(
        attributes: WebViewAttributes<P>,
        pl_attrs: PlatformSpecificWebViewAttributes<B>,
        fresh_id: u32,
        default_bounds: P::Rect,
    ) -> (new: Result<NewWebView<P, B>, Error>)
        ensures
            match new {
                Ok(n) => made(n, attributes, pl_attrs, fresh_id, default_bounds, true),
                Err(e) => pl_attrs.bridge_runtime is None && e@ == bridge_missing(),
            },
    {
        Self::new_inner(attributes, pl_attrs, fresh_id, default_bounds, true)
    }

    /// Makes a webview of its own.
    pub fn new<B>(
        attributes: WebViewAttributes<P>,
        pl_attrs: PlatformSpecificWebViewAttributes<B>,
        fresh_id: u32,
        default_bounds: P::Rect,
    ) -> (new: Result<NewWebView<P, B>, Error>)
        ensures
            match new {
                Ok(n) => made(n, attributes, pl_attrs, fresh_id, default_bounds, false),
                Err(e) => pl_attrs.bridge_runtime is None && e@ == bridge_missing(),
            },
    {
        Self::new_inner(attributes, pl_attrs, fresh_id, default_bounds, false)
    }

    fn new_inner<B>(
        attributes: WebViewAttributes<P>,
        pl_attrs: PlatformSpecificWebViewAttributes<B>,
        fresh_id: u32,
        default_bounds: P::Rect,
        is_child: bool,
    ) -> (new: Result<NewWebView<P, B>, Error>)
        ensures
            match new {
                Ok(n) => made(n, attributes, pl_attrs, fresh_id, default_bounds, is_child),
                Err(e) => pl_attrs.bridge_runtime is None && e@ == bridge_missing(),
            },
    {
        let bridge_runtime = match pl_attrs.bridge_runtime {
            Some(bridge_runtime) => bridge_runtime,
            None => return Err(
                Error::OpenHarmonyInitError(
                    "BridgeRuntime not provided — call with_bridge_runtime() on the builder".to_string(),
                ),
            ),
        };
        let id = match attributes.id {
            Some(id) => id,
            None => digits::decimal_text(fresh_id as u128),
        };
        let protocols = attributes.custom_protocols;
        let intercepting = pl_attrs.use_https && intercept::custom_protocols_use_https(&protocols);
        let steps = setup_steps(attributes.ipc_handler, &protocols, intercepting);
        let initialization_scripts = merge_scripts(&attributes.initialization_scripts, &protocols);
        let background_color = match attributes.background_color {
            Some(color) => Some(color::rgba_to_argb_hex(color)),
            None => None,
        };
        let mut url: Option<String> = None;
        let mut headers: Option<Vec<(String, String)>> = None;
        if attributes.html.is_none() {
            if let Some(first) = attributes.url {
                url = Some(
                    if intercepting {
                        intercept::rewrite_https_url_if_matching(first.as_str(), &protocols)
                    } else {
                        first
                    },
                );
                if let Some(list) = &attributes.headers {
                    headers = Some(headers::headers_to_btree(list));
                }
            }
        }
        let mut style: WebviewStyle<P> = WebviewStyle {
            x: None,
            y: None,
            width: None,
            height: None,
            background_color,
        };
        let mut bounds = default_bounds;
        if let Some(placement) = attributes.bounds {
            bounds = placement.bounds;
            if is_child {
                style.x = Some(placement.logical.x);
                style.y = Some(placement.logical.y);
                style.width = Some(placement.logical.width);
                style.height = Some(placement.logical.height);
            }
        }
        let window_id = match pl_attrs.window_id {
            Some(window_id) => if window_id != 0 {
                Some(window_id)
            } else {
                None
            },
            None => None,
        };
        let create_request = WebviewCreateRequest {
            id: id.clone(),
            window_id,
            url,
            html: attributes.html,
            style,
            javascript_enabled: Some(!attributes.javascript_disabled),
            devtools: attributes.devtools,
            user_agent: attributes.user_agent,
            autoplay: Some(attributes.autoplay),
            initialization_scripts,
            headers,
            transparent: Some(attributes.transparent),
            clipboard: Some(attributes.clipboard),
            zoom_hotkeys: Some(attributes.zoom_hotkeys_enabled),
            drag_drop_overlay: Some(pl_attrs.drag_drop_overlay),
            https_intercept_protocol_list: if intercepting {
                Some(text::copy_texts(&protocols))
            } else {
                None
            },
        };
        let webview = InnerWebView::initial(id, bounds, is_child);
        let intercepted: Vec<String> = if intercepting {
            protocols
        } else {
            Vec::new()
        };
        assert(!intercepting ==> text::texts(intercepted@) =~= Seq::empty());
        Ok(NewWebView { webview, bridge_runtime, steps, create_request, intercepted })
    }
}

// ---------------------------------------------------------------------------
// Laws
// ---------------------------------------------------------------------------

/// Webviews that are made without an id have different ids where their numbers
/// differ.
pub proof fn law_fresh_ids_differ(a: u32, b: u32)
    requires
        a != b,
    ensures
        webview_id(None, a) != webview_id(None, b),
{
    digits::law_decimal_is_injective(a as nat, b as nat);
}

/// All scripts run, in the order in which they were given, in one script: that
/// of two lists one after the other is the script of the first, a `;` and a new
/// line, and the script of the second.
pub proof fn law_scripts_are_merged_in_order(
    first: Seq<InitializationScript>,
    second: Seq<InitializationScript>,
    protocols: Seq<Seq<char>>,
)
    requires
        first.len() > 0,
        second.len() > 0,
    ensures
        merged_scripts(first, protocols).len() == 1,
        merged_scripts(first + second, protocols) == seq![
            (
                merged_scripts(first, protocols)[0].0 + ";\n"@ + merged_scripts(
                    second,
                    protocols,
                )[0].0,
                script_rules(protocols),
            ),
        ],
{
    text::lemma_join_two(script_bodies(first), script_bodies(second), ";\n"@);
    assert(script_bodies(first + second) =~= script_bodies(first) + script_bodies(second));
}

/// Scripts run in the documents of every custom protocol, and in those under
/// http(s).
pub proof fn law_scripts_run_under_every_protocol(protocols: Seq<Seq<char>>, protocol: Seq<char>)
    requires
        protocols.contains(protocol),
    ensures
        script_rules(protocols).contains("*"@),
        script_rules(protocols).contains(workaround::original_prefix(protocol)),
{
    let rules = script_rules(protocols);
    let i = choose|i: int| 0 <= i < protocols.len() && protocols[i] == protocol;
    assert(rules[0] == "*"@);
    assert(rules[i + 1] == workaround::original_prefix(protocol));
}

/// Everything is registered before the webview is created, and each custom
/// protocol is declared before any is bound; all of them are declared and
/// bound, each once if none is listed twice. The webview is created once.
pub proof fn law_registered_before_created(
    ipc: bool,
    protocols: Seq<Seq<char>>,
    intercepting: bool,
)
    ensures
        ({
            let steps = setup(ipc, protocols, intercepting);
            &&& steps[0] == Setup::Callbacks
            &&& steps.contains(Setup::Create)
            &&& forall|protocol: Seq<char>| #[trigger]
                protocols.contains(protocol) ==> steps.contains(Setup::Declare(protocol))
                    && steps.contains(Setup::Bind(protocol))
            &&& forall|i: int, j: int|
                0 <= i < steps.len() && 0 <= j < steps.len() ==> {
                    &&& #[trigger] steps[i] is Declare && #[trigger] steps[j] is Bind ==> i < j
                    &&& !(steps[i] is Create) && !(steps[i] is RegisterIntercept) && steps[j] is Create
                        ==> i < j
                    &&& steps[i] is Create && steps[j] is RegisterIntercept ==> i < j
                    &&& steps[i] is Create && steps[j] is Create ==> i == j
                    &&& protocols.no_duplicates() && steps[i] == steps[j] && (steps[i] is Declare
                        || steps[i] is Bind) ==> i == j
                }
        }),
{
    let steps = setup(ipc, protocols, intercepting);
    let n = protocols.len() as int;
    let first: int = if ipc {
        2
    } else {
        1
    };
    assert(steps[first + n + n] == Setup::Create);
    assert forall|protocol: Seq<char>| #[trigger] protocols.contains(protocol) implies steps.contains(
        Setup::Declare(protocol),
    ) && steps.contains(Setup::Bind(protocol)) by {
        let i = choose|i: int| 0 <= i < protocols.len() && protocols[i] == protocol;
        assert(steps[first + i] == Setup::Declare(protocol));
        assert(steps[first + n + i] == Setup::Bind(protocol));
    }
}

/// The URL that is loaded first and the protocols whose requests are
/// intercepted go together: the URL is rewritten where, and only where, the
/// platform is told the protocols when the webview is created, and the same
/// protocols are registered afterwards.
pub proof fn law_rewritten_where_intercepted<P: Platform, B>(
    attributes: WebViewAttributes<P>,
    pl_attrs: PlatformSpecificWebViewAttributes<B>,
    fresh_id: u32,
    is_child: bool,
    names: Seq<Seq<char>>,
)
    ensures
        ({
            let said = create_text(attributes, pl_attrs, fresh_id, is_child);
            let protocols = text::texts(attributes.custom_protocols@);
            let steps = setup(
                attributes.ipc_handler,
                protocols,
                intercepts(pl_attrs.use_https, attributes.custom_protocols@),
            );
            &&& said.intercepted is Some ==> said.intercepted == Some(protocols)
            &&& said.url is Some ==> said.url == Some(
                if said.intercepted is Some {
                    intercept::rewritten(attributes.url->0@, protocols)
                } else {
                    attributes.url->0@
                },
            )
            &&& steps.contains(Setup::RegisterIntercept(names)) <==> said.intercepted == Some(names)
        }),
{
    let protocols = text::texts(attributes.custom_protocols@);
    let intercepting = intercepts(pl_attrs.use_https, attributes.custom_protocols@);
    let steps = setup(attributes.ipc_handler, protocols, intercepting);
    if intercepting {
        assert(steps.last() == Setup::RegisterIntercept(protocols));
        assert(steps.contains(Setup::RegisterIntercept(protocols)));
    }
}

/// A document that is given is shown, and no URL is loaded then; headers go
/// along with a URL only.
pub proof fn law_document_goes_before_url<P: Platform, B>(
    attributes: WebViewAttributes<P>,
    pl_attrs: PlatformSpecificWebViewAttributes<B>,
    fresh_id: u32,
    is_child: bool,
)
    ensures
        ({
            let said = create_text(attributes, pl_attrs, fresh_id, is_child);
            &&& said.html is Some ==> said.url is None
            &&& said.url is None ==> said.headers is None
            &&& attributes.html is None && attributes.url is Some ==> said.url is Some
        }),
{
}

/// The request for the first page of a webview whose requests are intercepted
/// leads to the handler of its custom protocol, which is handed the URL that the
/// webview was made with, if that is a URI.
pub proof fn law_first_page_reaches_its_handler<P: Platform, B>(
    attributes: WebViewAttributes<P>,
    pl_attrs: PlatformSpecificWebViewAttributes<B>,
    fresh_id: u32,
    is_child: bool,
    protocol: Seq<char>,
)
    requires
        attributes.html is None,
        attributes.url is Some,
        pl_attrs.use_https,
        text::texts(attributes.custom_protocols@).contains(protocol),
        text::begins_with(attributes.url->0@, workaround::original_prefix(protocol)),
        intercept::work_around_prefixes_distinct(text::texts(attributes.custom_protocols@)),
        forall|i: int|
            0 <= i < attributes.custom_protocols@.len() ==> !(#[trigger] text::texts(
                attributes.custom_protocols@,
            )[i]).contains(':'),
        !text::has_within(
            attributes.url->0@,
            workaround::work_around_prefix("https"@, protocol),
        ),
    ensures
        ({
            let said = create_text(attributes, pl_attrs, fresh_id, is_child);
            &&& said.url is Some
            &&& said.intercepted is Some
            &&& intercept::intercept_target(said.url->0, said.intercepted->0)
                == if uri::uri_parses(attributes.url->0@) {
                Some((protocol, attributes.url->0@))
            } else {
                None
            }
        }),
{
    let protocols = text::texts(attributes.custom_protocols@);
    intercept::law_handler_is_handed_plain_url(attributes.url->0@, protocol, protocols);
}

/// What a webview is made from reaches the platform as it was given. A document
/// is shown exactly where one was given, and it is that document; a URL is loaded
/// exactly where one was given and no document, and headers go with it. The
/// colour, the agent, the window and the switches are those that were given.
pub proof fn law_platform_is_asked_for_what_was_given<P: Platform, B>(
    new: NewWebView<P, B>,
    attributes: WebViewAttributes<P>,
    pl_attrs: PlatformSpecificWebViewAttributes<B>,
    fresh_id: u32,
    default_bounds: P::Rect,
    is_child: bool,
)
    requires
        made(new, attributes, pl_attrs, fresh_id, default_bounds, is_child),
    ensures
        match attributes.html {
            Some(html) => new.create_request.html matches Some(shown) && shown@ == html@,
            None => new.create_request.html is None,
        },
        match (attributes.html, attributes.url) {
            (None, Some(url)) => {
                &&& new.create_request.url matches Some(loaded)
                &&& loaded@ == if pl_attrs.use_https && attributes.custom_protocols@.len() > 0 {
                    intercept::rewritten(url@, text::texts(attributes.custom_protocols@))
                } else {
                    url@
                }
            },
            _ => new.create_request.url is None,
        },
        match (attributes.html, attributes.url, attributes.headers) {
            (None, Some(_), Some(headers)) => {
                &&& new.create_request.headers matches Some(pairs)
                &&& ops::text_pairs(pairs@) == headers::sorted_pairs(headers::header_map(headers@))
            },
            _ => new.create_request.headers is None,
        },
        match attributes.background_color {
            Some(color) => new.create_request.style.background_color matches Some(text) && text@
                == color::argb_hex(color),
            None => new.create_request.style.background_color is None,
        },
        match attributes.user_agent {
            Some(agent) => new.create_request.user_agent matches Some(said) && said@ == agent@,
            None => new.create_request.user_agent is None,
        },
        match pl_attrs.window_id {
            Some(id) => new.create_request.window_id == if id == 0 {
                None
            } else {
                Some(id)
            },
            None => new.create_request.window_id is None,
        },
        new.create_request.javascript_enabled == Some(!attributes.javascript_disabled),
        new.create_request.devtools == attributes.devtools,
        new.create_request.autoplay == Some(attributes.autoplay),
        new.create_request.transparent == Some(attributes.transparent),
        new.create_request.clipboard == Some(attributes.clipboard),
        new.create_request.zoom_hotkeys == Some(attributes.zoom_hotkeys_enabled),
        new.create_request.drag_drop_overlay == Some(pl_attrs.drag_drop_overlay),
{
}

/// A child is placed where it was to stand, in logical units, and nothing else is
/// placed; the webview remembers the bounds that were given, or the default ones.
/// It goes by the id that was given, or by its number, and so does the request.
/// It begins empty: not created and not failed, nothing waits and no page is
/// shown.
pub proof fn law_webview_begins_as_it_was_made<P: Platform, B>(
    new: NewWebView<P, B>,
    attributes: WebViewAttributes<P>,
    pl_attrs: PlatformSpecificWebViewAttributes<B>,
    fresh_id: u32,
    default_bounds: P::Rect,
    is_child: bool,
)
    requires
        made(new, attributes, pl_attrs, fresh_id, default_bounds, is_child),
    ensures
        match (is_child, attributes.bounds) {
            (true, Some(placement)) => {
                &&& new.create_request.style.x == Some(placement.logical.x)
                &&& new.create_request.style.y == Some(placement.logical.y)
                &&& new.create_request.style.width == Some(placement.logical.width)
                &&& new.create_request.style.height == Some(placement.logical.height)
            },
            _ => {
                &&& new.create_request.style.x is None
                &&& new.create_request.style.y is None
                &&& new.create_request.style.width is None
                &&& new.create_request.style.height is None
            },
        },
        match attributes.bounds {
            Some(placement) => new.webview@.bounds == placement.bounds,
            None => new.webview@.bounds == default_bounds,
        },
        match attributes.id {
            Some(id) => new.create_request.id@ == id@,
            None => digits::read_decimal(new.create_request.id@) == fresh_id
                && new.create_request.id@ == digits::decimal(fresh_id as nat),
        },
        new.webview@.id == new.create_request.id@,
        new.webview@.is_child == is_child,
        new.webview@.handle is None,
        new.webview@.creation_error is None,
        new.webview@.pending.len() == 0,
        !new.webview@.page_loaded,
        new.webview@.url.len() == 0,
        !new.webview@.devtools_open,
        !new.webview@.disposed,
        pl_attrs.bridge_runtime == Some(new.bridge_runtime),
{
    digits::law_decimal_is_read_back(fresh_id as nat);
}

/// The protocols whose requests are intercepted are those that were given, in
/// their order, where interception was asked for, and otherwise none; the
/// platform is told the same.
pub proof fn law_given_protocols_are_intercepted<P: Platform, B>(
    new: NewWebView<P, B>,
    attributes: WebViewAttributes<P>,
    pl_attrs: PlatformSpecificWebViewAttributes<B>,
    fresh_id: u32,
    default_bounds: P::Rect,
    is_child: bool,
)
    requires
        made(new, attributes, pl_attrs, fresh_id, default_bounds, is_child),
    ensures
        ({
            let given = attributes.custom_protocols@;
            if pl_attrs.use_https && given.len() > 0 {
                &&& new.intercepted@.len() == given.len()
                &&& forall|i: int|
                    0 <= i < given.len() ==> (#[trigger] new.intercepted@[i])@ == given[i]@
                &&& new.create_request.https_intercept_protocol_list matches Some(told)
                &&& told@.len() == given.len()
                &&& forall|i: int| 0 <= i < given.len() ==> (#[trigger] told@[i])@ == given[i]@
            } else {
                &&& new.intercepted@.len() == 0
                &&& new.create_request.https_intercept_protocol_list is None
            }
        }),
{
    let given = attributes.custom_protocols@;
    if pl_attrs.use_https && given.len() > 0 {
        assert(text::texts(new.intercepted@).len() == text::texts(given).len());
        assert forall|i: int| 0 <= i < given.len() implies (#[trigger] new.intercepted@[i])@
            == given[i]@ by {
            assert(text::texts(new.intercepted@)[i] == text::texts(given)[i]);
        }
        if let Some(told) = new.create_request.https_intercept_protocol_list {
            assert(text::texts(told@).len() == text::texts(given).len());
            assert forall|i: int| 0 <= i < given.len() implies (#[trigger] told@[i])@
                == given[i]@ by {
                assert(text::texts(told@)[i] == text::texts(given)[i]);
            }
        }
    } else {
        assert(text::texts(new.intercepted@).len() == 0);
    }
}

/// The scripts that were given run as one, with `;` and a new line between each
/// two, and nothing else runs. They run where a rule fits: under http(s), and
/// under each custom protocol that was given.
pub proof fn law_given_scripts_run<P: Platform, B>(
    new: NewWebView<P, B>,
    attributes: WebViewAttributes<P>,
    pl_attrs: PlatformSpecificWebViewAttributes<B>,
    fresh_id: u32,
    default_bounds: P::Rect,
    is_child: bool,
    bodies: Seq<Seq<char>>,
)
    requires
        made(new, attributes, pl_attrs, fresh_id, default_bounds, is_child),
        bodies.len() == attributes.initialization_scripts@.len(),
        forall|i: int|
            0 <= i < bodies.len() ==> #[trigger] bodies[i]
                == attributes.initialization_scripts@[i].script@,
    ensures
        ({
            let scripts = new.create_request.initialization_scripts@;
            let given = attributes.custom_protocols@;
            if bodies.len() == 0 {
                scripts.len() == 0
            } else {
                let rules = scripts[0].script_rules@;
                &&& scripts.len() == 1
                &&& scripts[0].script@ == text::join(bodies, ";\n"@)
                &&& rules.len() == given.len() + 1
                &&& rules[0]@ == "*"@
                &&& forall|i: int|
                    0 <= i < given.len() ==> (#[trigger] rules[i + 1])@ == given[i]@ + "://"@
            }
        }),
{
    let scripts = new.create_request.initialization_scripts@;
    let given = attributes.custom_protocols@;
    let said = merged_scripts(attributes.initialization_scripts@, text::texts(given));
    assert(script_texts(scripts).len() == said.len());
    if bodies.len() > 0 {
        let rules = scripts[0].script_rules@;
        assert(script_texts(scripts)[0] == said[0]);
        assert(script_bodies(attributes.initialization_scripts@) =~= bodies);
        assert(text::texts(rules) == script_rules(text::texts(given)));
        assert(text::texts(rules).len() == given.len() + 1);
        assert(text::texts(rules)[0] == "*"@);
        assert forall|i: int| 0 <= i < given.len() implies (#[trigger] rules[i + 1])@ == given[i]@
            + "://"@ by {
            assert(text::texts(rules)[i + 1] == script_rules(text::texts(given))[i + 1]);
        }
    }
}

/// The steps in their order: the callbacks, the object for messages where there
/// is a handler for them, each protocol declared, each protocol bound, the
/// webview created, and the same protocols registered where requests are
/// intercepted. There is no other step.
///
/// `declares` is where the first protocol is declared, `binds` where it is bound
/// and `creates` where the webview is created.
pub proof fn law_steps_are_taken_in_order(
    ipc: bool,
    protocols: Seq<String>,
    intercepting: bool,
    steps: Seq<SetupStep>,
    declares: int,
    binds: int,
    creates: int,
)
    requires
        step_texts(steps) == setup(ipc, text::texts(protocols), intercepting),
        declares == if ipc {
            2int
        } else {
            1int
        },
        binds == declares + protocols.len(),
        creates == binds + protocols.len(),
    ensures
        steps.len() == creates + if intercepting {
            2int
        } else {
            1int
        },
        steps[0] is Callbacks,
        ipc ==> steps[1] is IpcProxy,
        forall|j: int|
            declares <= j < binds ==> (#[trigger] steps[j] matches SetupStep::Declare(p) && p@
                == protocols[j - declares]@),
        forall|j: int|
            binds <= j < creates ==> (#[trigger] steps[j] matches SetupStep::Bind(p) && p@
                == protocols[j - binds]@),
        steps[creates] is Create,
        intercepting ==> {
            &&& steps[creates + 1] matches SetupStep::RegisterIntercept(names)
            &&& names@.len() == protocols.len()
            &&& forall|i: int|
                0 <= i < protocols.len() ==> (#[trigger] names@[i])@ == protocols[i]@
        },
{
    let said = setup(ipc, text::texts(protocols), intercepting);
    assert(step_texts(steps).len() == said.len());
    assert(step_texts(steps)[0] == said[0]);
    assert(said[0] == Setup::Callbacks);
    if ipc {
        assert(step_texts(steps)[1] == said[1]);
        assert(said[1] == Setup::IpcProxy);
    }
    assert forall|j: int| declares <= j < binds implies (
    #[trigger] steps[j] matches SetupStep::Declare(p) && p@ == protocols[j - declares]@) by {
        assert(step_texts(steps)[j] == said[j]);
        assert(said[j] == Setup::Declare(protocols[j - declares]@));
    }
    assert forall|j: int| binds <= j < creates implies (
    #[trigger] steps[j] matches SetupStep::Bind(p) && p@ == protocols[j - binds]@) by {
        assert(step_texts(steps)[j] == said[j]);
        assert(said[j] == Setup::Bind(protocols[j - binds]@));
    }
    assert(step_texts(steps)[creates] == said[creates]);
    assert(said[creates] == Setup::Create);
    if intercepting {
        let last = creates + 1;
        assert(step_texts(steps)[last] == said[last]);
        assert(said[last] == Setup::RegisterIntercept(text::texts(protocols)));
        if let SetupStep::RegisterIntercept(names) = steps[last] {
            assert(text::texts(names@).len() == protocols.len());
            assert forall|i: int| 0 <= i < protocols.len() implies (#[trigger] names@[i])@
                == protocols[i]@ by {
                assert(text::texts(names@)[i] == text::texts(protocols)[i]);
            }
        }
    }
}

/// The steps of a webview are those for what it is made from.
pub proof fn law_steps_follow_from_what_was_given<P: Platform, B>(
    new: NewWebView<P, B>,
    attributes: WebViewAttributes<P>,
    pl_attrs: PlatformSpecificWebViewAttributes<B>,
    fresh_id: u32,
    default_bounds: P::Rect,
    is_child: bool,
)
    requires
        made(new, attributes, pl_attrs, fresh_id, default_bounds, is_child),
    ensures
        step_texts(new.steps@) == setup(
            attributes.ipc_handler,
            text::texts(attributes.custom_protocols@),
            pl_attrs.use_https && attributes.custom_protocols@.len() > 0,
        ),
{
}

/// A step that fails says why: the cause stands at the end of the error, behind
/// what was tried, and the protocol is named that could not be declared. What
/// goes on in the background has no error.
pub proof fn law_failed_step_says_why(step: SetupStep, cause: Seq<char>, error: Option<Error>)
    requires
        match error {
            Some(e) => setup_error(step@, cause) == Some(e@),
            None => setup_error(step@, cause) is None,
        },
    ensures
        match step {
            SetupStep::Callbacks => error matches Some(Error::OpenHarmonyInitError(message))
                && message@ == cause,
            SetupStep::IpcProxy => error matches Some(Error::OpenHarmonyWebviewError(message))
                && message@ == "Failed to register IPC proxy: "@ + cause,
            SetupStep::Declare(protocol) => error matches Some(
                Error::OpenHarmonyInitError(message),
            ) && message@ == "Failed to declare custom protocol '"@ + protocol@ + "': "@ + cause,
            SetupStep::Bind(_) => error matches Some(Error::OpenHarmonyInitError(message))
                && message@ == "Failed to register custom protocol: "@ + cause,
            SetupStep::Create => error is None,
            SetupStep::RegisterIntercept(_) => error is None,
        },
{
}

/// The error for a webview without a connection to the platform names what is to
/// be called.
pub proof fn law_missing_bridge_is_named(error: Error)
    requires
        error@ == bridge_missing(),
    ensures
        error matches Error::OpenHarmonyInitError(message) && message@
            == "BridgeRuntime not provided — call with_bridge_runtime() on the builder"@,
{
}

} // verus!
