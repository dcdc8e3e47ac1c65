//! Custom protocols under the https scheme: the URL that is loaded in place of
//! a custom one, and the requests for it that a protocol handler answers.

use super::headers;
use super::uri;
use crate::custom_protocol_workaround as workaround;
use crate::text;
use vstd::prelude::*;
use vstd::string::*;

verus! {

/// What a protocol handler answers.
pub struct HandlerResponse {
    pub status: u16,
    /// The bytes of the `Content-Type` header, where there is one.
    pub content_type: Option<Vec<u8>>,
    pub body: Vec<u8>,
}

/// What the platform is answered on a request that it let us intercept.
pub struct WebviewHttpsInterceptResponse {
    /// Whether the request was answered; otherwise the platform goes on with it.
    pub handled: bool,
    pub status: u16,
    pub mime_type: String,
    pub body: Vec<u8>,
}

/// What a [`WebviewHttpsInterceptResponse`] says.
pub struct InterceptAnswer {
    pub handled: bool,
    pub status: u16,
    pub mime_type: Seq<char>,
    pub body: Seq<u8>,
}

impl View for WebviewHttpsInterceptResponse {
    type V = InterceptAnswer;

    open spec fn view(&self) -> InterceptAnswer {
        InterceptAnswer {
            handled: self.handled,
            status: self.status,
            mime_type: self.mime_type@,
            body: self.body@,
        }
    }
}

/// A request for a protocol handler.
pub struct InterceptedRequest {
    pub webview_id: String,
    pub protocol: String,
    /// The HTTP method.
    pub method: String,
    /// The URL under the custom protocol.
    pub url: String,
    pub body: Vec<u8>,
}

/// The first protocol of the list for which `url` is a work around URI.
pub open spec fn matching_protocol(url: Seq<char>, protocols: Seq<Seq<char>>) -> Option<Seq<char>>
    decreases protocols.len(),
{
    if protocols.len() == 0 {
        None
    } else if workaround::work_around_uri(url, "https"@, protocols[0]) {
        Some(protocols[0])
    } else {
        matching_protocol(url, protocols.skip(1))
    }
}

/// The protocol whose handler answers a request for `url`, and the URL that it
/// is handed. There is none where no protocol matches or where the URL under
/// the custom protocol is no URI.
pub open spec fn intercept_target(url: Seq<char>, protocols: Seq<Seq<char>>) -> Option<
    (Seq<char>, Seq<char>),
> {
    match matching_protocol(url, protocols) {
        Some(protocol) => {
            let original = workaround::reverted(url, "https"@, protocol);
            if uri::uri_parses(original) {
                Some((protocol, original))
            } else {
                None
            }
        },
        None => None,
    }
}

/// `request` is what a protocol handler is handed when the platform asks for
/// `url`: a GET request without a body.
pub open spec fn asks_handler(
    request: InterceptedRequest,
    url: Seq<char>,
    webview_id: Seq<char>,
    protocols: Seq<Seq<char>>,
) -> bool {
    &&& intercept_target(url, protocols) == Some((request.protocol@, request.url@))
    &&& request.webview_id@ == webview_id
    &&& request.method@ == "GET"@
    &&& request.body@.len() == 0
}

/// The answer that lets the platform go on with a request by itself.
pub open spec fn passed_through() -> InterceptAnswer {
    InterceptAnswer { handled: false, status: 0, mime_type: Seq::empty(), body: Seq::empty() }
}

/// The MIME type that a `Content-Type` header gives; `text/html` where there is
/// none or where it is no visible ASCII.
pub open spec fn mime_type(content_type: Option<Vec<u8>>) -> Seq<char> {
    if content_type is Some && headers::all_visible(content_type->0@) {
        headers::ascii_text(content_type->0@)
    } else {
        "text/html"@
    }
}

/// What the platform is answered when the handler answered `response`, or did
/// not answer before it returned.
pub open spec fn answered(response: Option<HandlerResponse>) -> InterceptAnswer {
    match response {
        Some(response) => InterceptAnswer {
            handled: true,
            status: response.status,
            mime_type: mime_type(response.content_type),
            body: response.body@,
        },
        None => passed_through(),
    }
}

impl WebviewHttpsInterceptResponse {
    /// The answer that lets the platform go on with a request by itself.
    pub fn passthrough() -> (response: Self)
        ensures
            response@ == passed_through(),
    {
        WebviewHttpsInterceptResponse {
            handled: false,
            status: 0,
            mime_type: String::new(),
            body: Vec::new(),
        }
    }
}

/// The first protocol of the list for which `url` is a work around URI, by its
/// index.
pub fn find_protocol(url: &str, protocols: &Vec<String>) -> (found: Option<usize>)
    ensures
        match found {
            Some(i) => {
                &&& i < protocols.len()
                &&& matching_protocol(url@, text::texts(protocols@)) == Some(protocols@[i as int]@)
                &&& forall|j: int|
                    0 <= j < i ==> !workaround::work_around_uri(
                        url@,
                        "https"@,
                        (#[trigger] protocols@[j])@,
                    )
            },
            None => matching_protocol(url@, text::texts(protocols@)) is None,
        },
{
    let ghost names = text::texts(protocols@);
    let mut i: usize = 0;
    assert(names.skip(0) =~= names);
    while i < protocols.len()
        invariant
            i <= protocols.len(),
            names == text::texts(protocols@),
            matching_protocol(url@, names) == matching_protocol(url@, names.skip(i as int)),
            forall|j: int|
                0 <= j < i ==> !workaround::work_around_uri(
                    url@,
                    "https"@,
                    (#[trigger] protocols@[j])@,
                ),
        decreases protocols.len() - i,
    {
        if workaround::is_work_around_uri(url, "https", protocols[i].as_str()) {
            return Some(i);
        }
        assert(names.skip(i as int).skip(1) =~= names.skip(i + 1));
        i = i + 1;
    }
    None
}

/// The request for the handler of `protocol`, where `accepted` says whether
/// `original`, the URL under that protocol, is a URI.
pub fn request_for(
    webview_id: &str,
    protocol: &str,
    original: String,
    accepted: bool,
) -> (request: Option<InterceptedRequest>)
    ensures
        request is Some <==> accepted,
        request matches Some(r) ==> {
            &&& r.webview_id@ == webview_id@
            &&& r.protocol@ == protocol@
            &&& r.method@ == "GET"@
            &&& r.url@ == original@
            &&& r.body@.len() == 0
        },
{
    if accepted {
        Some(
            InterceptedRequest {
                webview_id: webview_id.to_string(),
                protocol: protocol.to_string(),
                method: "GET".to_string(),
                url: original,
                body: Vec::new(),
            },
        )
    } else {
        None
    }
}

/// The request that a protocol handler is to answer when the platform asks for
/// `url`. The protocols are looked through in the order of the list.
pub fn intercepted_request(
    url: &str,
    webview_id: &str,
    protocols: &Vec<String>,
) -> (request: Option<InterceptedRequest>)
    ensures
        match request {
            Some(r) => asks_handler(r, url@, webview_id@, text::texts(protocols@)),
            None => intercept_target(url@, text::texts(protocols@)) is None,
        },
{
    let i = match find_protocol(url, protocols) {
        Some(i) => i,
        None => return None,
    };
    let original = workaround::revert_uri_work_around(url, "https", protocols[i].as_str());
    let accepted = uri::is_uri(original.as_str());
    request_for(webview_id, protocols[i].as_str(), original, accepted)
}

/// What the platform is answered when the handler answered `response`, or did
/// not answer before it returned.
pub fn intercept_response(
    response: Option<HandlerResponse>,
) -> (answer: WebviewHttpsInterceptResponse)
    ensures
        answer@ == answered(response),
        answer.handled == response is Some,
        response matches Some(r) ==> answer.status == r.status && answer.body@ == r.body@,
{
    match response {
        Some(response) => {
            let mime_type = match &response.content_type {
                Some(bytes) => match headers::header_value_text(bytes) {
                    Some(text) => text,
                    None => "text/html".to_string(),
                },
                None => "text/html".to_string(),
            };
            WebviewHttpsInterceptResponse {
                handled: true,
                status: response.status,
                mime_type,
                body: response.body,
            }
        },
        None => WebviewHttpsInterceptResponse::passthrough(),
    }
}

/// Dispatches an intercepted https request to the handler of the matching
/// custom protocol.
///
/// The URL has the form `https://{protocol}.{host}/{path}`, for any host. It is
/// matched against the registered protocols in the order of the list and
/// reverted to `{protocol}://{host}/{path}`, which the handler is called with.
/// The handler is called at most once, with that request, and not at all where
/// there is none. Where it returns without an answer the platform goes on with
/// the request by itself; nothing waits for a later one.
pub fn dispatch_https_intercept_sync<F: FnOnce(InterceptedRequest) -> Option<HandlerResponse>>(
    url: &str,
    webview_id: &str,
    protocols: &Vec<String>,
    handler: F,
) -> (answer: WebviewHttpsInterceptResponse)
    requires
        forall|request: InterceptedRequest|
            asks_handler(request, url@, webview_id@, text::texts(protocols@))
                ==> #[trigger] call_requires(handler, (request,)),
    ensures
        match intercept_target(url@, text::texts(protocols@)) {
            Some(_) => exists|request: InterceptedRequest, response: Option<HandlerResponse>|
                {
                    &&& #[trigger] call_ensures(handler, (request,), response)
                    &&& asks_handler(request, url@, webview_id@, text::texts(protocols@))
                    &&& answer@ == answered(response)
                },
            None => answer@ == passed_through(),
        },
{
    match intercepted_request(url, webview_id, protocols) {
        Some(request) => {
            let ghost asked = request;
            let response = handler(request);
            assert(call_ensures(handler, (asked,), response));
            intercept_response(response)
        },
        None => WebviewHttpsInterceptResponse::passthrough(),
    }
}

/// Whether any custom protocol is registered.
pub fn custom_protocols_use_https(protocols: &Vec<String>) -> (any: bool)
    ensures
        any == (protocols@.len() > 0),
{
    protocols.len() > 0
}

/// `url` with the prefixes of the first protocol of the list that it starts
/// with converted; unchanged where it starts with none.
pub open spec fn rewritten(url: Seq<char>, protocols: Seq<Seq<char>>) -> Seq<char>
    decreases protocols.len(),
{
    if protocols.len() == 0 {
        url
    } else if text::begins_with(url, workaround::original_prefix(protocols[0])) {
        workaround::applied(url, "https"@, protocols[0])
    } else {
        rewritten(url, protocols.skip(1))
    }
}

/// Rewrites `{protocol}://localhost/{path}` to
/// `https://{protocol}.localhost/{path}` when the URL's scheme is one of the
/// custom protocols.
pub fn rewrite_https_url_if_matching(url: &str, protocols: &Vec<String>) -> (rewrite: String)
    ensures
        rewrite@ == rewritten(url@, text::texts(protocols@)),
{
    let ghost names = text::texts(protocols@);
    let mut i: usize = 0;
    assert(names.skip(0) =~= names);
    while i < protocols.len()
        invariant
            i <= protocols.len(),
            names == text::texts(protocols@),
            rewritten(url@, names) == rewritten(url@, names.skip(i as int)),
        decreases protocols.len() - i,
    {
        let prefix = workaround::original_uri_prefix(protocols[i].as_str());
        if text::starts_with(url, prefix.as_str()) {
            return workaround::apply_uri_work_around(url, "https", protocols[i].as_str());
        }
        assert(names.skip(i as int).skip(1) =~= names.skip(i + 1));
        i = i + 1;
    }
    url.to_string()
}

// ---------------------------------------------------------------------------
// Laws
// ---------------------------------------------------------------------------

/// No protocol of the list starts with the original prefix of another.
pub open spec fn original_prefixes_distinct(protocols: Seq<Seq<char>>) -> bool {
    forall|i: int, j: int|
        0 <= i < protocols.len() && 0 <= j < protocols.len() ==> !text::begins_with(
            #[trigger] protocols[i],
            workaround::original_prefix(#[trigger] protocols[j]),
        )
}

/// No protocol of the list starts with another and a dot.
pub open spec fn work_around_prefixes_distinct(protocols: Seq<Seq<char>>) -> bool {
    forall|i: int, j: int|
        0 <= i < protocols.len() && 0 <= j < protocols.len() ==> !text::begins_with(
            #[trigger] protocols[i],
            #[trigger] protocols[j] + "."@,
        )
}

/// The protocol that matches is a registered one for which the URL is a work
/// around URI; where none matches, the URL is one for none of them.
pub proof fn law_only_registered_protocols_match(url: Seq<char>, protocols: Seq<Seq<char>>)
    ensures
        match matching_protocol(url, protocols) {
            Some(protocol) => protocols.contains(protocol) && workaround::work_around_uri(
                url,
                "https"@,
                protocol,
            ),
            None => forall|i: int|
                0 <= i < protocols.len() ==> !workaround::work_around_uri(
                    url,
                    "https"@,
                    #[trigger] protocols[i],
                ),
        },
    decreases protocols.len(),
{
    if protocols.len() > 0 {
        if workaround::work_around_uri(url, "https"@, protocols[0]) {
            assert(protocols.contains(protocols[0]));
        } else {
            let rest = protocols.skip(1);
            law_only_registered_protocols_match(url, rest);
            match matching_protocol(url, rest) {
                Some(protocol) => {
                    let i = choose|i: int| 0 <= i < rest.len() && rest[i] == protocol;
                    assert(protocols[i + 1] == protocol);
                },
                None => {
                    assert forall|i: int| 0 <= i < protocols.len() implies !workaround::work_around_uri(
                        url,
                        "https"@,
                        #[trigger] protocols[i],
                    ) by {
                        if i > 0 {
                            assert(rest[i - 1] == protocols[i]);
                        }
                    }
                },
            }
        }
    }
}

/// Every request for `https://{protocol}.{rest}` with a registered protocol is
/// matched, whatever host it names, and no URL under another scheme is.
pub proof fn law_any_host_is_handled(url: Seq<char>, protocol: Seq<char>, protocols: Seq<Seq<char>>)
    requires
        protocols.contains(protocol),
    ensures
        workaround::work_around_uri(url, "https"@, protocol) ==> matching_protocol(
            url,
            protocols,
        ) is Some,
        !text::begins_with(url, workaround::original_prefix("https"@)) ==> intercept_target(
            url,
            protocols,
        ) is None,
{
    law_only_registered_protocols_match(url, protocols);
    let i = choose|i: int| 0 <= i < protocols.len() && protocols[i] == protocol;
    assert(matching_protocol(url, protocols) is None ==> !workaround::work_around_uri(
        url,
        "https"@,
        protocols[i],
    ));
    if !text::begins_with(url, workaround::original_prefix("https"@)) {
        match matching_protocol(url, protocols) {
            Some(found) => workaround::law_other_schemes_do_not_match(url, "https"@, found),
            None => {},
        }
    }
}

/// A URL is rewritten for a registered protocol that it starts with, and left
/// alone where it starts with none.
pub proof fn law_rewritten_for_its_protocol(url: Seq<char>, protocols: Seq<Seq<char>>)
    ensures
        (exists|i: int|
            {
                &&& 0 <= i < protocols.len()
                &&& text::begins_with(url, workaround::original_prefix(#[trigger] protocols[i]))
                &&& rewritten(url, protocols) == workaround::applied(url, "https"@, protocols[i])
            }) || {
            &&& rewritten(url, protocols) == url
            &&& forall|i: int|
                0 <= i < protocols.len() ==> !text::begins_with(
                    url,
                    workaround::original_prefix(#[trigger] protocols[i]),
                )
        },
    decreases protocols.len(),
{
    if protocols.len() > 0 {
        if text::begins_with(url, workaround::original_prefix(protocols[0])) {
        } else {
            let rest = protocols.skip(1);
            law_rewritten_for_its_protocol(url, rest);
            if exists|i: int|
                {
                    &&& 0 <= i < rest.len()
                    &&& text::begins_with(url, workaround::original_prefix(#[trigger] rest[i]))
                    &&& rewritten(url, rest) == workaround::applied(url, "https"@, rest[i])
                } {
                let i = choose|i: int|
                    {
                        &&& 0 <= i < rest.len()
                        &&& text::begins_with(url, workaround::original_prefix(#[trigger] rest[i]))
                        &&& rewritten(url, rest) == workaround::applied(url, "https"@, rest[i])
                    };
                assert(protocols[i + 1] == rest[i]);
            } else {
                assert forall|i: int| 0 <= i < protocols.len() implies !text::begins_with(
                    url,
                    workaround::original_prefix(#[trigger] protocols[i]),
                ) by {
                    if i > 0 {
                        assert(rest[i - 1] == protocols[i]);
                    }
                }
            }
        }
    }
}

/// The order in which the protocols are listed does not decide how a URL is
/// rewritten, as only one protocol prefix can match it.
pub proof fn law_rewriting_ignores_order(
    url: Seq<char>,
    a: Seq<Seq<char>>,
    b: Seq<Seq<char>>,
)
    requires
        original_prefixes_distinct(a),
        forall|protocol: Seq<char>| a.contains(protocol) <==> b.contains(protocol),
    ensures
        rewritten(url, a) == rewritten(url, b),
{
    law_rewritten_for_its_protocol(url, a);
    law_rewritten_for_its_protocol(url, b);
    let hit_a = |i: int|
        0 <= i < a.len() && text::begins_with(url, workaround::original_prefix(a[i]));
    let hit_b = |i: int|
        0 <= i < b.len() && text::begins_with(url, workaround::original_prefix(b[i]));
    if exists|i: int| #[trigger] hit_b(i) {
        let i = choose|i: int| #[trigger] hit_b(i);
        assert(b.contains(b[i]));
        assert(a.contains(b[i]));
        let k = choose|k: int| 0 <= k < a.len() && a[k] == b[i];
        assert(hit_a(k));
    }
    if exists|i: int| #[trigger] hit_a(i) {
        let p = a[choose|i: int| #[trigger] hit_a(i)];
        assert(a.contains(p));
        let k = choose|k: int| 0 <= k < b.len() && b[k] == p;
        assert(hit_b(k));
        assert forall|i: int| #[trigger] hit_a(i) implies a[i] == p by {
            workaround::law_one_original_prefix_matches(url, a[i], p);
        }
        assert forall|j: int| #[trigger] hit_b(j) implies b[j] == p by {
            assert(b.contains(b[j]));
            assert(a.contains(b[j]));
            let i = choose|i: int| 0 <= i < a.len() && a[i] == b[j];
            assert(hit_a(i));
        }
        assert(rewritten(url, a) == workaround::applied(url, "https"@, p)) by {
            let i = choose|i: int|
                {
                    &&& 0 <= i < a.len()
                    &&& text::begins_with(url, workaround::original_prefix(#[trigger] a[i]))
                    &&& rewritten(url, a) == workaround::applied(url, "https"@, a[i])
                };
            assert(text::begins_with(url, workaround::original_prefix(p)));
            assert(hit_a(i));
        }
        assert(rewritten(url, b) == workaround::applied(url, "https"@, p)) by {
            let i = choose|i: int|
                {
                    &&& 0 <= i < b.len()
                    &&& text::begins_with(url, workaround::original_prefix(#[trigger] b[i]))
                    &&& rewritten(url, b) == workaround::applied(url, "https"@, b[i])
                };
            assert(text::begins_with(url, workaround::original_prefix(b[k])));
            assert(hit_b(i));
        }
    } else {
        assert forall|i: int| 0 <= i < a.len() implies !text::begins_with(
            url,
            workaround::original_prefix(#[trigger] a[i]),
        ) by {
            assert(!hit_a(i));
        }
        assert forall|i: int| 0 <= i < b.len() implies !text::begins_with(
            url,
            workaround::original_prefix(#[trigger] b[i]),
        ) by {
            assert(!hit_b(i));
        }
    }
}

/// The order in which the protocols are listed does not decide whose handler
/// answers a request, unless one protocol starts with another and a dot.
pub proof fn law_matching_ignores_order(url: Seq<char>, a: Seq<Seq<char>>, b: Seq<Seq<char>>)
    requires
        work_around_prefixes_distinct(a),
        forall|protocol: Seq<char>| a.contains(protocol) <==> b.contains(protocol),
    ensures
        matching_protocol(url, a) == matching_protocol(url, b),
        intercept_target(url, a) == intercept_target(url, b),
{
    law_only_registered_protocols_match(url, a);
    law_only_registered_protocols_match(url, b);
    match (matching_protocol(url, a), matching_protocol(url, b)) {
        (Some(p), Some(q)) => {
            assert(a.contains(q));
            let i = choose|i: int| 0 <= i < a.len() && a[i] == p;
            let j = choose|j: int| 0 <= j < a.len() && a[j] == q;
            assert(!text::begins_with(a[i], a[j] + "."@));
            assert(!text::begins_with(a[j], a[i] + "."@));
            workaround::law_one_work_around_protocol(url, "https"@, p, q);
        },
        (Some(p), None) => {
            assert(b.contains(p));
            let j = choose|j: int| 0 <= j < b.len() && b[j] == p;
            assert(!workaround::work_around_uri(url, "https"@, b[j]));
        },
        (None, Some(q)) => {
            assert(a.contains(q));
            let j = choose|j: int| 0 <= j < a.len() && a[j] == q;
            assert(!workaround::work_around_uri(url, "https"@, a[j]));
        },
        (None, None) => {},
    }
}

/// The handler of a registered protocol is handed the URL that was to be
/// loaded: loading `{protocol}://...` loads its rewritten form, and the request
/// for that leads back to the protocol and to the URL itself. This takes that
/// no other protocol claims either URL and that the rewritten one holds no work
/// around prefix but those that the rewriting put there.
pub proof fn law_handler_is_handed_the_original_url(
    url: Seq<char>,
    protocol: Seq<char>,
    protocols: Seq<Seq<char>>,
)
    requires
        protocols.contains(protocol),
        text::begins_with(url, workaround::original_prefix(protocol)),
        forall|i: int|
            0 <= i < protocols.len() && #[trigger] protocols[i] != protocol ==> {
                &&& !text::begins_with(url, workaround::original_prefix(protocols[i]))
                &&& !workaround::work_around_uri(
                    workaround::applied(url, "https"@, protocol),
                    "https"@,
                    protocols[i],
                )
            },
        text::split(
            workaround::applied(url, "https"@, protocol),
            workaround::work_around_prefix("https"@, protocol),
        ) == text::split(url, workaround::original_prefix(protocol)),
    ensures
        matching_protocol(rewritten(url, protocols), protocols) == Some(protocol),
        intercept_target(rewritten(url, protocols), protocols) == if uri::uri_parses(url) {
            Some((protocol, url))
        } else {
            None
        },
{
    let worked = workaround::applied(url, "https"@, protocol);
    let k = choose|k: int| 0 <= k < protocols.len() && protocols[k] == protocol;
    law_rewritten_for_its_protocol(url, protocols);
    assert(text::begins_with(url, workaround::original_prefix(protocols[k])));
    assert(rewritten(url, protocols) == worked);
    workaround::law_applied_is_work_around_uri(url, "https"@, protocol);
    law_only_registered_protocols_match(worked, protocols);
    match matching_protocol(worked, protocols) {
        Some(found) => {
            let i = choose|i: int| 0 <= i < protocols.len() && protocols[i] == found;
            assert(protocols[i] == protocol);
        },
        None => {
            assert(!workaround::work_around_uri(worked, "https"@, protocols[k]));
        },
    }
    workaround::law_revert_undoes_apply_iff(url, "https"@, protocol);
}

/// The handler of a registered protocol is handed the URL that was to be
/// loaded, for protocols without `:` of which none starts with another and a
/// dot, and URLs that hold no work around prefix of their own.
pub proof fn law_handler_is_handed_plain_url(
    url: Seq<char>,
    protocol: Seq<char>,
    protocols: Seq<Seq<char>>,
)
    requires
        protocols.contains(protocol),
        text::begins_with(url, workaround::original_prefix(protocol)),
        work_around_prefixes_distinct(protocols),
        forall|i: int| 0 <= i < protocols.len() ==> !(#[trigger] protocols[i]).contains(':'),
        !text::has_within(url, workaround::work_around_prefix("https"@, protocol)),
    ensures
        matching_protocol(rewritten(url, protocols), protocols) == Some(protocol),
        intercept_target(rewritten(url, protocols), protocols) == if uri::uri_parses(url) {
            Some((protocol, url))
        } else {
            None
        },
{
    reveal_strlit("https");
    reveal_strlit("://");
    let worked = workaround::applied(url, "https"@, protocol);
    let k = choose|k: int| 0 <= k < protocols.len() && protocols[k] == protocol;
    assert(!protocols[k].contains(':'));
    workaround::law_applied_is_work_around_uri(url, "https"@, protocol);
    assert forall|i: int| 0 <= i < protocols.len() && #[trigger] protocols[i] != protocol implies {
        &&& !text::begins_with(url, workaround::original_prefix(protocols[i]))
        &&& !workaround::work_around_uri(worked, "https"@, protocols[i])
    } by {
        let other = protocols[i];
        if text::begins_with(url, workaround::original_prefix(other)) {
            lemma_no_prefix_inside(protocol, other);
            lemma_no_prefix_inside(other, protocol);
            workaround::law_one_original_prefix_matches(url, other, protocol);
        }
        if workaround::work_around_uri(worked, "https"@, other) {
            assert(!text::begins_with(protocols[i], protocols[k] + "."@));
            assert(!text::begins_with(protocols[k], protocols[i] + "."@));
            workaround::law_one_work_around_protocol(worked, "https"@, other, protocol);
        }
    }
    workaround::law_revert_undoes_apply(url, "https"@, protocol);
    workaround::law_revert_undoes_apply_iff(url, "https"@, protocol);
    law_handler_is_handed_the_original_url(url, protocol, protocols);
}

/// A protocol without `:` does not start with an original prefix.
proof fn lemma_no_prefix_inside(protocol: Seq<char>, other: Seq<char>)
    requires
        !protocol.contains(':'),
    ensures
        !text::begins_with(protocol, workaround::original_prefix(other)),
{
    reveal_strlit("://");
    let prefix = workaround::original_prefix(other);
    if text::begins_with(protocol, prefix) {
        let n = other.len() as int;
        assert(prefix[n] == ':');
        assert(protocol.subrange(0, prefix.len() as int)[n] == protocol[n]);
        assert(protocol.contains(':'));
    }
}

/// What a handler answers reaches the platform: handled, with its status and its
/// body byte for byte, whatever they are, and with the type that it gives, where
/// that is visible ASCII. Where it does not answer nothing is handled and nothing
/// is made up.
pub proof fn law_answer_is_that_of_the_handler(
    response: Option<HandlerResponse>,
    answer: WebviewHttpsInterceptResponse,
)
    requires
        answer@ == answered(response),
    ensures
        match response {
            Some(r) => {
                &&& answer.handled
                &&& answer.status == r.status
                &&& answer.body@ == r.body@
                &&& match r.content_type {
                    Some(bytes) => if forall|i: int|
                        0 <= i < bytes@.len() ==> (32 <= #[trigger] bytes@[i] <= 126 || bytes@[i]
                            == 9) {
                        &&& answer.mime_type@.len() == bytes@.len()
                        &&& forall|i: int|
                            0 <= i < bytes@.len() ==> #[trigger] answer.mime_type@[i]
                                == bytes@[i] as char
                    } else {
                        answer.mime_type@ == "text/html"@
                    },
                    None => answer.mime_type@ == "text/html"@,
                }
            },
            None => {
                &&& !answer.handled
                &&& answer.status == 0
                &&& answer.mime_type@.len() == 0
                &&& answer.body@.len() == 0
            },
        },
{
    if let Some(r) = response {
        if let Some(bytes) = r.content_type {
            let visible = forall|i: int|
                0 <= i < bytes@.len() ==> (32 <= #[trigger] bytes@[i] <= 126 || bytes@[i] == 9);
            if visible {
                assert forall|i: int| 0 <= i < bytes@.len() implies headers::visible_ascii(
                    #[trigger] bytes@[i],
                ) by {}
                assert(headers::all_visible(bytes@));
            } else {
                let i = choose|i: int|
                    0 <= i < bytes@.len() && !(32 <= #[trigger] bytes@[i] <= 126 || bytes@[i] == 9);
                assert(!headers::visible_ascii(bytes@[i]));
            }
        }
    }
}

/// The first of the listed protocols that fits decides, for requests as for
/// URLs that are rewritten; a URL that none fits is passed through, or left
/// alone.
pub proof fn law_first_protocol_decides(
    url: Seq<char>,
    before: Seq<Seq<char>>,
    protocol: Seq<char>,
    after: Seq<Seq<char>>,
)
    ensures
        (forall|i: int|
            0 <= i < before.len() ==> !workaround::work_around_uri(
                url,
                "https"@,
                #[trigger] before[i],
            )) ==> {
            &&& workaround::work_around_uri(url, "https"@, protocol) ==> matching_protocol(
                url,
                before + seq![protocol] + after,
            ) == Some(protocol)
            &&& matching_protocol(url, before) is None
            &&& intercept_target(url, before) is None
        },
        (forall|i: int|
            0 <= i < before.len() ==> !text::begins_with(
                url,
                workaround::original_prefix(#[trigger] before[i]),
            )) ==> {
            &&& text::begins_with(url, workaround::original_prefix(protocol)) ==> rewritten(
                url,
                before + seq![protocol] + after,
            ) == workaround::applied(url, "https"@, protocol)
            &&& rewritten(url, before) == url
        },
    decreases before.len(),
{
    let all = before + seq![protocol] + after;
    if before.len() == 0 {
        assert(all[0] == protocol);
    } else {
        let rest = before.skip(1);
        law_first_protocol_decides(url, rest, protocol, after);
        assert(all.skip(1) =~= rest + seq![protocol] + after);
        assert(all[0] == before[0]);
        assert forall|i: int| 0 <= i < rest.len() implies #[trigger] rest[i] == before[i + 1] by {}
    }
}

/// The handler of the first protocol that fits `https://{protocol}.{rest}` is
/// handed `{protocol}://{rest}`, the rest as it is, for the webview that asked,
/// by GET and without a body; where that is no URI there is no request. Any host,
/// path, query and fragment will do for the rest, as long as it does not hold the
/// prefix again.
pub proof fn law_handler_is_handed_the_rest(
    rest: Seq<char>,
    before: Seq<Seq<char>>,
    protocol: Seq<char>,
    after: Seq<Seq<char>>,
    webview_id: Seq<char>,
    request: InterceptedRequest,
)
    requires
        forall|i: int|
            0 <= i < before.len() ==> !workaround::work_around_uri(
                "https://"@ + protocol + "."@ + rest,
                "https"@,
                #[trigger] before[i],
            ),
        !text::has_within(rest, "https://"@ + protocol + "."@),
    ensures
        asks_handler(
            request,
            "https://"@ + protocol + "."@ + rest,
            webview_id,
            before + seq![protocol] + after,
        ) <==> {
            &&& uri::uri_parses(protocol + "://"@ + rest)
            &&& request.webview_id@ == webview_id
            &&& request.protocol@ == protocol
            &&& request.method@ == "GET"@
            &&& request.url@ == protocol + "://"@ + rest
            &&& request.body@.len() == 0
        },
{
    reveal_strlit("https://");
    reveal_strlit("https");
    reveal_strlit("://");
    let prefix = workaround::work_around_prefix("https"@, protocol);
    assert("https://"@ =~= "https"@ + "://"@);
    assert("https://"@ + protocol + "."@ =~= prefix);
    let url = prefix + rest;
    workaround::law_any_host_matches(rest, "https"@, protocol);
    law_first_protocol_decides(url, before, protocol, after);
    workaround::law_reverted_keeps_the_rest(rest, "https"@, protocol);
}

/// A handler is asked exactly where a protocol matches and the reverted URL is a
/// URI: it is the handler of that protocol, and it is handed that URL, for the
/// webview that asked, by GET and without a body.
pub proof fn law_handler_is_handed_the_reverted_url(
    url: Seq<char>,
    webview_id: Seq<char>,
    protocols: Seq<Seq<char>>,
    request: InterceptedRequest,
)
    ensures
        asks_handler(request, url, webview_id, protocols) <==> {
            &&& matching_protocol(url, protocols) == Some(request.protocol@)
            &&& request.url@ == workaround::reverted(url, "https"@, request.protocol@)
            &&& uri::uri_parses(request.url@)
            &&& request.webview_id@ == webview_id
            &&& request.method@ == "GET"@
            &&& request.body@.len() == 0
        },
        intercept_target(url, protocols) is Some ==> matching_protocol(url, protocols) is Some,
{
}

} // verus!
