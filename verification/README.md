# ohos_webview

The logic of a webview on OpenHarmony, written and proved in
[Verus](https://github.com/verus-lang/verus).

- `src/custom_protocol_workaround.rs`: custom protocols under http(s), as URIs
  of the form `{http_or_https}://{protocol}.{host}/{path}`.
- `src/ohos/`: the webview itself.
  - `create.rs`: what the platform is asked to create, and the steps before.
  - `webview.rs`: what a webview remembers and decides. Operations wait until
    the platform has created the webview.
  - `ops.rs`: operations, call by call.
  - `intercept.rs`: https requests that protocol handlers answer.
  - `cookies.rs`, `headers.rs`, `ipc.rs`, `uri.rs`, `callbacks.rs`: cookies,
    request headers, messages from pages, URIs, and answers to the platform.
  - `laws.rs`: what holds of a webview over all that happens to it.
- `src/text.rs`, `src/digits.rs`, `src/color.rs`: text, numbers and colours.
- `app/`: the calls to the platform, in ordinary Rust.

The functions whose name starts with `law_` state what holds of the library as a
whole. Four functions trust code that is not proved here and say so in their
comments: `parse_cookie` (`cookie`), `header_value_text` and `is_uri` (`http`),
and `utf8_text` (`std`).
