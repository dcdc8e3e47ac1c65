//! A webview: what it remembers, and what it decides when it is asked for
//! something.
//!
//! The platform creates a webview in the background. Operations that come
//! before it is there are kept and handed out, in their order, when it is;
//! operations that come after its creation failed are refused.

use super::cookies;
use super::cookies::Cookie;
use super::error::{Error, ErrorText};
use super::headers;
use super::headers::Header;
use super::ops::{Op, PendingOp};
use super::platform::{LogicalRect, PdfConfig, Platform};
use crate::color;
use crate::color::RGBA;
use crate::digits;
use vstd::prelude::*;
use vstd::string::*;

verus! {

/// A webview.
pub struct InnerWebView<P: Platform> {
    id: String,
    /// What calls are made to, once the webview is created.
    handle: Option<P::Handle>,
    /// The operations that wait for the webview to be created.
    pending_ops: Vec<PendingOp<P>>,
    /// Why the webview could not be created.
    creation_error: Option<String>,
    page_loaded: bool,
    url_cache: String,
    bounds_cache: P::Rect,
    devtools_open: bool,
    is_child: bool,
    disposed: bool,
}

/// What an [`InnerWebView`] remembers.
pub struct State<P: Platform> {
    pub id: Seq<char>,
    pub handle: Option<P::Handle>,
    pub pending: Seq<Op<P>>,
    pub creation_error: Option<Seq<char>>,
    pub page_loaded: bool,
    pub url: Seq<char>,
    pub bounds: P::Rect,
    pub devtools_open: bool,
    pub is_child: bool,
    pub disposed: bool,
}

/// What becomes of an operation.
pub enum Dispatch<P: Platform> {
    /// It is carried out now.
    Execute(PendingOp<P>),
    /// It waits for the webview to be created.
    Queued,
}

/// What became of an operation that a webview was asked for.
pub enum Outcome<P: Platform> {
    Execute(Op<P>),
    Queued,
    Refused(ErrorText),
}

/// The refusal to write a PDF.
pub struct PdfRefusal<P: Platform> {
    pub error: Error,
    /// To be told that no PDF was written.
    pub callback: Option<P::PdfCallback>,
}

/// The end of what was registered for a webview: its callbacks, the object
/// through which its pages post messages, and the custom protocols that were
/// bound to it. Protocols stay declared, which holds for the whole process.
#[must_use]
pub struct Rollback {
    /// The id of the webview.
    pub id: String,
}

/// How the load of a page goes on.
#[derive(Debug, Clone, Copy, PartialEq, Eq, Structural)]
pub enum PageLoadEvent {
    Started,
    Finished,
}

/// A request for the cookies of a URL.
pub struct CookieQuery<'a, P: Platform> {
    pub handle: &'a P::Handle,
    pub url: String,
}

/// What stands for a webview towards its user.
pub enum HandleSource<'a, P: Platform> {
    /// The webview is created, and this is its handle.
    Ready(&'a P::Handle),
    /// The webview is not created; a facade for its id takes its place.
    Facade(&'a str),
}

/// What the operations of a list ask for.
pub open spec fn op_texts<P: Platform>(ops: Seq<PendingOp<P>>) -> Seq<Op<P>> {
    Seq::new(ops.len(), |i: int| ops[i]@)
}

/// What a result of a dispatch says.
pub open spec fn outcome<P: Platform>(result: Result<Dispatch<P>, Error>) -> Outcome<P> {
    match result {
        Ok(Dispatch::Execute(op)) => Outcome::Execute(op@),
        Ok(Dispatch::Queued) => Outcome::Queued,
        Err(error) => Outcome::Refused(error@),
    }
}

impl<P: Platform> View for InnerWebView<P> {
    type V = State<P>;

    closed spec fn view(&self) -> State<P> {
        State {
            id: self.id@,
            handle: self.handle,
            pending: op_texts(self.pending_ops@),
            creation_error: cookies::optional_text(self.creation_error),
            page_loaded: self.page_loaded,
            url: self.url_cache@,
            bounds: self.bounds_cache,
            devtools_open: self.devtools_open,
            is_child: self.is_child,
            disposed: self.disposed,
        }
    }
}

/// The error for an operation on a webview whose creation failed.
pub open spec fn creation_failed_error(cause: Seq<char>) -> ErrorText {
    ErrorText::Webview("webview creation failed: "@ + cause)
}

impl<P: Platform> State<P> {
    /// A webview that is about to be created.
    pub open spec fn initial(id: Seq<char>, bounds: P::Rect, is_child: bool) -> State<P> {
        State {
            id,
            handle: None,
            pending: Seq::empty(),
            creation_error: None,
            page_loaded: false,
            url: Seq::empty(),
            bounds,
            devtools_open: false,
            is_child,
            disposed: false,
        }
    }

    /// The webview is neither created nor has its creation failed.
    pub open spec fn creating(self) -> bool {
        self.handle is None && self.creation_error is None
    }

    /// Operations wait only while the webview is being created.
    pub open spec fn consistent(self) -> bool {
        !self.creating() ==> self.pending.len() == 0
    }

    /// What becomes of an operation, and of the webview.
    pub open spec fn dispatch(self, op: Op<P>) -> (State<P>, Outcome<P>) {
        if self.handle is Some {
            (self, Outcome::Execute(op))
        } else if self.creation_error is Some {
            (self, Outcome::Refused(creation_failed_error(self.creation_error->0)))
        } else {
            (State { pending: self.pending.push(op), ..self }, Outcome::Queued)
        }
    }

    /// The webview after its creation succeeded, and the operations that are
    /// carried out now. A second handle changes nothing.
    pub open spec fn created(self, handle: P::Handle) -> (State<P>, Option<Seq<Op<P>>>) {
        if self.handle is Some {
            (self, None)
        } else {
            (
                State { handle: Some(handle), pending: Seq::empty(), ..self },
                Some(self.pending),
            )
        }
    }

    /// The webview after its creation failed.
    pub open spec fn failed(self, cause: Seq<char>) -> State<P> {
        State { creation_error: Some(cause), pending: Seq::empty(), ..self }
    }

    /// The webview after a page began to load.
    pub open spec fn page_begun(self, url: Seq<char>) -> State<P> {
        State { page_loaded: false, url, ..self }
    }

    /// The webview after a page was loaded.
    pub open spec fn page_ended(self, url: Seq<char>) -> State<P> {
        State { page_loaded: true, url, ..self }
    }

    /// What becomes of a request to print, and of the webview.
    pub open spec fn print(self, path: Seq<char>) -> (State<P>, Outcome<P>) {
        if self.page_loaded {
            self.dispatch(Op::Print(path))
        } else {
            (
                self,
                Outcome::Refused(
                    ErrorText::Webview("Page not fully loaded. Call print after onPageEnd."@),
                ),
            )
        }
    }

    /// What becomes of a request for a PDF, and of the webview.
    pub open spec fn create_pdf(
        self,
        path: Seq<char>,
        config: Option<PdfConfig<P::Scalar>>,
        callback: P::PdfCallback,
    ) -> (State<P>, Outcome<P>) {
        if self.page_loaded {
            self.dispatch(Op::CreatePdf(path, config, Some(callback)))
        } else {
            (
                self,
                Outcome::Refused(
                    ErrorText::Webview("Page not fully loaded. Call createPdf after onPageEnd."@),
                ),
            )
        }
    }

    /// What becomes of a move, and of the webview: the bounds are remembered
    /// unless the move is refused.
    pub open spec fn set_bounds(
        self,
        bounds: P::Rect,
        logical: LogicalRect<P::Scalar>,
    ) -> (State<P>, Outcome<P>) {
        let (state, outcome) = self.dispatch(Op::SetBounds(logical));
        if outcome is Refused {
            (state, outcome)
        } else {
            (State { bounds, ..state }, outcome)
        }
    }

    /// What becomes of a cookie, and of the webview; nothing is asked for where
    /// there is no URL for the cookie.
    pub open spec fn set_cookie(self, cookie: cookies::CookieText) -> (
        State<P>,
        Option<Outcome<P>>,
    ) {
        match cookies::set_cookie_url(cookie.domain, self.url) {
            Some(url) => {
                let (state, outcome) = self.dispatch(
                    Op::SetCookie(url, cookies::set_cookie_value(cookie)),
                );
                (state, Some(outcome))
            },
            None => (self, None),
        }
    }

    /// What becomes of the end of a child webview, and of the webview. Only the
    /// first end of a child asks for anything.
    pub open spec fn dispose_child(self) -> (State<P>, Option<Outcome<P>>) {
        if self.is_child && !self.disposed {
            let (state, outcome) = (State { disposed: true, ..self }).dispatch(Op::Remove);
            (state, Some(outcome))
        } else {
            (self, None)
        }
    }

    /// The URL whose cookies are asked for, if any: the platform cannot answer
    /// the main thread, nor for a webview that is not created.
    pub open spec fn cookies_for_url(self, url: Seq<char>, on_main_thread: bool) -> Option<
        Seq<char>,
    > {
        if on_main_thread || self.handle is None {
            None
        } else {
            Some(url)
        }
    }
}

impl<P: Platform> InnerWebView<P> {
    /// A webview that is about to be created.
    pub(crate) fn initial(id: String, bounds: P::Rect, is_child: bool) -> (webview: Self)
        ensures
            webview@ == State::<P>::initial(id@, bounds, is_child),
    {
        let webview = InnerWebView {
            id,
            handle: None,
            pending_ops: Vec::new(),
            creation_error: None,
            page_loaded: false,
            url_cache: String::new(),
            bounds_cache: bounds,
            devtools_open: false,
            is_child,
            disposed: false,
        };
        assert(webview@.pending =~= Seq::empty());
        webview
    }

    // -----------------------------------------------------------------------
    // Creation
    // -----------------------------------------------------------------------
    /// Takes in the handle of the created webview, and hands out the
    /// operations that waited for it, in their order. A second handle is
    /// dropped.
    pub fn creation_succeeded(&mut self, handle: P::Handle) -> (replay: Option<Vec<PendingOp<P>>>)
        ensures
            final(self)@ == old(self)@.created(handle).0,
            match replay {
                Some(ops) => old(self)@.created(handle).1 == Some(op_texts(ops@)),
                None => old(self)@.created(handle).1 is None,
            },
    {
        if self.handle.is_some() {
            return None;
        }
        let mut ops: Vec<PendingOp<P>> = Vec::new();
        std::mem::swap(&mut ops, &mut self.pending_ops);
        self.handle = Some(handle);
        assert(self@.pending =~= Seq::empty());
        Some(ops)
    }

    /// Takes in why the webview could not be created. The operations that
    /// waited for it are dropped, and what was registered for the webview is to
    /// be rolled back, as nothing will use it.
    pub fn creation_failed(&mut self, cause: String) -> (rollback: Rollback)
        ensures
            final(self)@ == old(self)@.failed(cause@),
            rollback.id@ == old(self)@.id,
    {
        self.creation_error = Some(cause);
        self.pending_ops.clear();
        assert(self@.pending =~= Seq::empty());
        Rollback { id: self.id.clone() }
    }

    // -----------------------------------------------------------------------
    // Operations
    // -----------------------------------------------------------------------
    /// Hands an operation out if the webview is created, and keeps it
    /// otherwise. It is an error, and the operation is dropped, if the creation
    /// failed.
    pub fn dispatch_or_queue(&mut self, op: PendingOp<P>) -> (result: Result<Dispatch<P>, Error>)
        ensures
            (final(self)@, outcome(result)) == old(self)@.dispatch(op@),
    {
        if self.handle.is_some() {
            return Ok(Dispatch::Execute(op));
        }
        match &self.creation_error {
            Some(cause) => {
                let mut message = "webview creation failed: ".to_string();
                message.append(cause.as_str());
                return Err(Error::OpenHarmonyWebviewError(message));
            },
            None => {},
        }
        let ghost before = self.pending_ops@;
        self.pending_ops.push(op);
        assert(op_texts(self.pending_ops@) =~= op_texts(before).push(op@));
        Ok(Dispatch::Queued)
    }

    /// The handle, if the webview is created.
    pub fn try_handle(&self) -> (handle: Option<&P::Handle>)
        ensures
            match handle {
                Some(h) => self@.handle == Some(*h),
                None => self@.handle is None,
            },
    {
        self.handle.as_ref()
    }

    /// Prints the page through a PDF at `path`.
    pub fn print(&mut self, path: String) -> (result: Result<Dispatch<P>, Error>)
        ensures
            (final(self)@, outcome(result)) == old(self)@.print(path@),
    {
        if !self.page_loaded {
            return Err(
                Error::OpenHarmonyWebviewError(
                    "Page not fully loaded. Call print after onPageEnd.".to_string(),
                ),
            );
        }
        self.dispatch_or_queue(PendingOp::Print(path))
    }

    /// The id.
    pub fn id(&self) -> (id: &str)
        ensures
            id@ == self@.id,
    {
        self.id.as_str()
    }

    /// The URL of the page that last began or ended to load.
    pub fn url(&self) -> (url: Result<String, Error>)
        ensures
            url matches Ok(u) && u@ == self@.url,
    {
        Ok(self.url_cache.clone())
    }

    /// Runs a script.
    pub fn eval(&mut self, js: &str, callback: Option<P::EvalCallback>) -> (result: Result<
        Dispatch<P>,
        Error,
    >)
        ensures
            (final(self)@, outcome(result)) == old(self)@.dispatch(Op::Eval(js@, callback)),
    {
        self.dispatch_or_queue(PendingOp::Eval(js.to_string(), callback))
    }

    /// Opens the developer tools; says whether the platform is to be told.
    pub fn open_devtools(&mut self) -> (tell: bool)
        ensures
            final(self)@ == (State { devtools_open: true, ..old(self)@ }),
            tell == (old(self)@.handle is Some),
    {
        self.devtools_open = true;
        self.handle.is_some()
    }

    /// Closes the developer tools; says whether the platform is to be told.
    pub fn close_devtools(&mut self) -> (tell: bool)
        ensures
            final(self)@ == (State { devtools_open: false, ..old(self)@ }),
            tell == (old(self)@.handle is Some),
    {
        self.devtools_open = false;
        self.handle.is_some()
    }

    /// Whether the developer tools are open.
    pub fn is_devtools_open(&self) -> (open: bool)
        ensures
            open == self@.devtools_open,
    {
        self.devtools_open
    }

    /// Sets the zoom factor.
    pub fn zoom(&mut self, scale_factor: P::Scalar) -> (result: Result<Dispatch<P>, Error>)
        ensures
            (final(self)@, outcome(result)) == old(self)@.dispatch(Op::Zoom(scale_factor)),
    {
        self.dispatch_or_queue(PendingOp::Zoom(scale_factor))
    }

    /// Sets the background colour.
    pub fn set_background_color(&mut self, background_color: RGBA) -> (result: Result<
        Dispatch<P>,
        Error,
    >)
        ensures
            (final(self)@, outcome(result)) == old(self)@.dispatch(
                Op::SetBackgroundColor(color::argb_hex(background_color)),
            ),
    {
        self.dispatch_or_queue(
            PendingOp::SetBackgroundColor(color::rgba_to_argb_hex(background_color)),
        )
    }

    /// The request for the cookies of the current page, if one is to be made.
    pub fn cookies(&self, on_main_thread: bool) -> (query: Option<CookieQuery<'_, P>>)
        ensures
            match query {
                Some(q) => self@.url.len() > 0 && self@.cookies_for_url(self@.url, on_main_thread)
                    == Some(q.url@) && self@.handle == Some(*q.handle),
                None => self@.url.len() == 0 || self@.cookies_for_url(
                    self@.url,
                    on_main_thread,
                ) is None,
            },
    {
        if self.url_cache.as_str().is_empty() {
            return None;
        }
        self.cookies_for_url(self.url_cache.as_str(), on_main_thread)
    }

    /// Sets a cookie. Nothing is asked for where neither the cookie nor the
    /// current page says for which URL.
    pub fn set_cookie(&mut self, cookie: &Cookie) -> (result: Result<Option<Dispatch<P>>, Error>)
        ensures
            final(self)@ == old(self)@.set_cookie(cookie@).0,
            match result {
                Ok(Some(dispatch)) => old(self)@.set_cookie(cookie@).1 == Some(
                    outcome::<P>(Ok(dispatch)),
                ),
                Ok(None) => old(self)@.set_cookie(cookie@).1 is None,
                Err(error) => old(self)@.set_cookie(cookie@).1 == Some(outcome::<P>(Err(error))),
            },
    {
        let url = match cookies::cookie_target_url(cookie, self.url_cache.as_str()) {
            Some(url) => url,
            None => return Ok(None),
        };
        let value = cookies::format_set_cookie_value(cookie);
        match self.dispatch_or_queue(PendingOp::SetCookie(url, value)) {
            Ok(dispatch) => Ok(Some(dispatch)),
            Err(error) => Err(error),
        }
    }

    /// The platform cannot delete a single cookie: this does nothing.
    pub fn delete_cookie(&self, _cookie: &Cookie) -> (result: Result<(), Error>)
        ensures
            result is Ok,
    {
        Ok(())
    }

    /// The request for the cookies of `url`, if one is to be made.
    pub fn cookies_for_url(&self, url: &str, on_main_thread: bool) -> (query: Option<
        CookieQuery<'_, P>,
    >)
        ensures
            match query {
                Some(q) => self@.cookies_for_url(url@, on_main_thread) == Some(q.url@)
                    && self@.handle == Some(*q.handle),
                None => self@.cookies_for_url(url@, on_main_thread) is None,
            },
    {
        if on_main_thread {
            return None;
        }
        match &self.handle {
            Some(handle) => Some(CookieQuery { handle, url: url.to_string() }),
            None => None,
        }
    }

    /// Loads the page again.
    pub fn reload(&mut self) -> (result: Result<Dispatch<P>, Error>)
        ensures
            (final(self)@, outcome(result)) == old(self)@.dispatch(Op::Reload),
    {
        self.dispatch_or_queue(PendingOp::Reload)
    }

    /// Loads a URL.
    pub fn load_url(&mut self, url: &str) -> (result: Result<Dispatch<P>, Error>)
        ensures
            (final(self)@, outcome(result)) == old(self)@.dispatch(Op::LoadUrl(url@)),
    {
        self.dispatch_or_queue(PendingOp::LoadUrl(url.to_string()))
    }

    /// Loads a URL with headers.
    pub fn load_url_with_headers(&mut self, url: &str, headers: &Vec<Header>) -> (result: Result<
        Dispatch<P>,
        Error,
    >)
        ensures
            (final(self)@, outcome(result)) == old(self)@.dispatch(
                Op::LoadUrlWithHeaders(
                    url@,
                    headers::sorted_pairs(headers::header_map(headers@)),
                ),
            ),
    {
        let pairs = headers::headers_to_btree(headers);
        self.dispatch_or_queue(PendingOp::LoadUrlWithHeaders(url.to_string(), pairs))
    }

    /// Shows an HTML document.
    pub fn load_html(&mut self, html: &str) -> (result: Result<Dispatch<P>, Error>)
        ensures
            (final(self)@, outcome(result)) == old(self)@.dispatch(Op::LoadHtml(html@)),
    {
        self.dispatch_or_queue(PendingOp::LoadHtml(html.to_string()))
    }

    /// Clears what browsing left behind.
    pub fn clear_all_browsing_data(&mut self) -> (result: Result<Dispatch<P>, Error>)
        ensures
            (final(self)@, outcome(result)) == old(self)@.dispatch(Op::ClearAllBrowsingData),
    {
        self.dispatch_or_queue(PendingOp::ClearAllBrowsingData)
    }

    /// Writes the page to a PDF at `path`. Before a page is loaded this is
    /// refused, and the callback comes back to be told so.
    pub fn create_pdf(
        &mut self,
        path: &str,
        config: Option<PdfConfig<P::Scalar>>,
        callback: P::PdfCallback,
    ) -> (result: Result<Dispatch<P>, PdfRefusal<P>>)
        ensures
            final(self)@ == old(self)@.create_pdf(path@, config, callback).0,
            match result {
                Ok(dispatch) => old(self)@.create_pdf(path@, config, callback).1 == outcome::<P>(
                    Ok(dispatch),
                ),
                Err(refusal) => {
                    &&& old(self)@.create_pdf(path@, config, callback).1 == outcome::<P>(
                        Err(refusal.error),
                    )
                    &&& refusal.callback == if old(self)@.page_loaded {
                        None
                    } else {
                        Some(callback)
                    }
                },
            },
    {
        if !self.page_loaded {
            return Err(
                PdfRefusal {
                    error: Error::OpenHarmonyWebviewError(
                        "Page not fully loaded. Call createPdf after onPageEnd.".to_string(),
                    ),
                    callback: Some(callback),
                },
            );
        }
        match self.dispatch_or_queue(
            PendingOp::CreatePdf(path.to_string(), config, Some(callback)),
        ) {
            Ok(dispatch) => Ok(dispatch),
            Err(error) => Err(PdfRefusal { error, callback: None }),
        }
    }

    /// The bounds as they were last given, when the webview was made or when it
    /// was moved.
    pub fn bounds(&self) -> (bounds: Result<P::Rect, Error>)
        ensures
            bounds matches Ok(b) && b == self@.bounds,
    {
        Ok(self.bounds_cache)
    }

    /// Moves the webview to `bounds`, which are `logical` in logical units.
    pub fn set_bounds(&mut self, bounds: P::Rect, logical: LogicalRect<P::Scalar>) -> (
        result: Result<Dispatch<P>, Error>)
        ensures
            (final(self)@, outcome(result)) == old(self)@.set_bounds(bounds, logical),
    {
        let result = self.dispatch_or_queue(PendingOp::SetBounds(logical));
        if result.is_ok() {
            self.bounds_cache = bounds;
        }
        result
    }

    /// Shows or hides the webview.
    pub fn set_visible(&mut self, visible: bool) -> (result: Result<Dispatch<P>, Error>)
        ensures
            (final(self)@, outcome(result)) == old(self)@.dispatch(Op::SetVisible(visible)),
    {
        self.dispatch_or_queue(PendingOp::SetVisible(visible))
    }

    /// Gives the webview the focus.
    pub fn focus(&mut self) -> (result: Result<Dispatch<P>, Error>)
        ensures
            (final(self)@, outcome(result)) == old(self)@.dispatch(Op::Focus),
    {
        self.dispatch_or_queue(PendingOp::Focus)
    }

    /// Gives the parent the focus, which is the webview itself: the platform
    /// has no separate parent window for it.
    pub fn focus_parent(&mut self) -> (result: Result<Dispatch<P>, Error>)
        ensures
            (final(self)@, outcome(result)) == old(self)@.dispatch(Op::Focus),
    {
        self.dispatch_or_queue(PendingOp::Focus)
    }

    /// Removes a child webview, the first time that it is asked to; says which
    /// operation is to be carried out now. A refusal is passed over.
    pub fn dispose_child(&mut self) -> (execute: Option<PendingOp<P>>)
        ensures
            final(self)@ == old(self)@.dispose_child().0,
            match execute {
                Some(op) => old(self)@.dispose_child().1 == Some(Outcome::<P>::Execute(op@)),
                None => !(old(self)@.dispose_child().1 matches Some(Outcome::Execute(_))),
            },
    {
        if self.is_child && !self.disposed {
            self.disposed = true;
            match self.dispatch_or_queue(PendingOp::Remove) {
                Ok(Dispatch::Execute(op)) => Some(op),
                _ => None,
            }
        } else {
            None
        }
    }

    /// What stands for the webview towards its user.
    pub fn handle(&self) -> (source: HandleSource<'_, P>)
        ensures
            match source {
                HandleSource::Ready(handle) => self@.handle == Some(*handle),
                HandleSource::Facade(id) => self@.handle is None && id@ == self@.id,
            },
    {
        match &self.handle {
            Some(handle) => HandleSource::Ready(handle),
            None => HandleSource::Facade(self.id.as_str()),
        }
    }

    // -----------------------------------------------------------------------
    // Events
    // -----------------------------------------------------------------------
    /// Takes in that a page begins to load; says what its user is told.
    pub fn page_begin(&mut self, url: &str) -> (event: PageLoadEvent)
        ensures
            final(self)@ == old(self)@.page_begun(url@),
            event == PageLoadEvent::Started,
    {
        self.page_loaded = false;
        self.url_cache = url.to_string();
        PageLoadEvent::Started
    }

    /// Takes in that a page is loaded; says what its user is told.
    pub fn page_end(&mut self, url: &str) -> (event: PageLoadEvent)
        ensures
            final(self)@ == old(self)@.page_ended(url@),
            event == PageLoadEvent::Finished,
    {
        self.page_loaded = true;
        self.url_cache = url.to_string();
        PageLoadEvent::Finished
    }
}

/// `wry_print_{millis}.pdf`
pub open spec fn print_file(millis: u128) -> Seq<char> {
    "wry_print_"@ + digits::decimal(millis as nat) + ".pdf"@
}

/// The name of the file for a print that is asked for `millis` milliseconds
/// after the epoch.
pub fn print_file_name(millis: u128) -> (name: String)
    ensures
        name@ == print_file(millis),
{
    let mut name = "wry_print_".to_string();
    name.append(digits::decimal_text(millis).as_str());
    name.append(".pdf");
    name
}

/// Prints that are asked for at different times go through different files.
pub proof fn law_print_files_differ(a: u128, b: u128)
    requires
        a != b,
    ensures
        print_file(a) != print_file(b),
{
    reveal_strlit("wry_print_");
    reveal_strlit(".pdf");
    let x = digits::decimal(a as nat);
    let y = digits::decimal(b as nat);
    if print_file(a) == print_file(b) {
        let n = "wry_print_"@.len() as int;
        assert(x =~= print_file(a).subrange(n, print_file(a).len() - 4));
        assert(y =~= print_file(b).subrange(n, print_file(b).len() - 4));
        digits::law_decimal_is_injective(a as nat, b as nat);
    }
}

/// The file for a print is named by the time, which is read back from its name.
pub proof fn law_print_file_is_named_by_the_time(millis: u128)
    ensures
        ({
            let name = print_file(millis);
            let time = name.subrange(10, name.len() - 4);
            &&& name.take(10) == "wry_print_"@
            &&& name.skip(name.len() - 4) == ".pdf"@
            &&& digits::read_decimal(time) == millis
            &&& time == digits::decimal(millis as nat)
        }),
{
    reveal_strlit("wry_print_");
    reveal_strlit(".pdf");
    digits::law_decimal_is_read_back(millis as nat);
    let name = print_file(millis);
    assert(name.take(10) =~= "wry_print_"@);
    assert(name.skip(name.len() - 4) =~= ".pdf"@);
    assert(name.subrange(10, name.len() - 4) =~= digits::decimal(millis as nat));
}

/// The version of the platform's engine, from what asking for it brought: the
/// version itself, or why there is none.
pub fn platform_webview_version(asked: Result<String, String>) -> (version: Result<String, Error>)
    ensures
        match (asked, version) {
            (Ok(named), Ok(v)) => v@ == named@,
            (Err(cause), Err(error)) => error@ == ErrorText::Webview(cause@),
            _ => false,
        },
{
    match asked {
        Ok(version) => Ok(version),
        Err(cause) => Err(Error::OpenHarmonyWebviewError(cause)),
    }
}

} // verus!
