//! What holds of a webview over all that happens to it.

use super::cookies;
use super::cookies::CookieText;
use super::error::Error;
use super::ops::{Op, PendingOp};
use super::platform::{LogicalRect, PdfConfig, Platform};
use super::webview;
use super::webview::{Dispatch, Outcome, State};
use vstd::prelude::*;

verus! {

/// Something that happens to a webview.
pub enum Event<P: Platform> {
    /// An operation is asked for.
    Asked(Op<P>),
    Print(Seq<char>),
    CreatePdf(Seq<char>, Option<PdfConfig<P::Scalar>>, P::PdfCallback),
    SetBounds(P::Rect, LogicalRect<P::Scalar>),
    SetCookie(CookieText),
    DisposeChild,
    OpenDevtools,
    CloseDevtools,
    /// The webview is created.
    Created(P::Handle),
    /// The webview cannot be created.
    Failed(Seq<char>),
    PageBegun(Seq<char>),
    PageEnded(Seq<char>),
}

impl<P: Platform> State<P> {
    /// The webview after an event, and what became of the operation that was
    /// asked for, if one was.
    pub open spec fn stepped(self, event: Event<P>) -> (State<P>, Option<Outcome<P>>) {
        match event {
            Event::Asked(op) => (self.dispatch(op).0, Some(self.dispatch(op).1)),
            Event::Print(path) => (self.print(path).0, Some(self.print(path).1)),
            Event::CreatePdf(path, config, callback) => (
                self.create_pdf(path, config, callback).0,
                Some(self.create_pdf(path, config, callback).1),
            ),
            Event::SetBounds(bounds, logical) => (
                self.set_bounds(bounds, logical).0,
                Some(self.set_bounds(bounds, logical).1),
            ),
            Event::SetCookie(cookie) => self.set_cookie(cookie),
            Event::DisposeChild => self.dispose_child(),
            Event::OpenDevtools => (State { devtools_open: true, ..self }, None),
            Event::CloseDevtools => (State { devtools_open: false, ..self }, None),
            Event::Created(handle) => (self.created(handle).0, None),
            Event::Failed(cause) => (self.failed(cause), None),
            Event::PageBegun(url) => (self.page_begun(url), None),
            Event::PageEnded(url) => (self.page_ended(url), None),
        }
    }

    /// The webview after an event.
    pub open spec fn after(self, event: Event<P>) -> State<P> {
        self.stepped(event).0
    }

    /// The webview after all events, in their order.
    pub open spec fn after_all(self, events: Seq<Event<P>>) -> State<P>
        decreases events.len(),
    {
        if events.len() == 0 {
            self
        } else {
            self.after_all(events.drop_last()).after(events.last())
        }
    }
}

/// The operation that an event asks for, whatever becomes of it; `state` is
/// the webview before it.
pub open spec fn op_of<P: Platform>(state: State<P>, event: Event<P>) -> Option<Op<P>> {
    match event {
        Event::Asked(op) => Some(op),
        Event::Print(path) => if state.page_loaded {
            Some(Op::Print(path))
        } else {
            None
        },
        Event::CreatePdf(path, config, callback) => if state.page_loaded {
            Some(Op::CreatePdf(path, config, Some(callback)))
        } else {
            None
        },
        Event::SetBounds(_, logical) => Some(Op::SetBounds(logical)),
        Event::SetCookie(cookie) => match cookies::set_cookie_url(
            cookie.domain,
            state.url,
        ) {
            Some(url) => Some(Op::SetCookie(url, cookies::set_cookie_value(cookie))),
            None => None,
        },
        Event::DisposeChild => if state.is_child && !state.disposed {
            Some(Op::Remove)
        } else {
            None
        },
        _ => None,
    }
}

/// The operations that the events ask for, in their order.
pub open spec fn ops_of<P: Platform>(state: State<P>, events: Seq<Event<P>>) -> Seq<Op<P>>
    decreases events.len(),
{
    if events.len() == 0 {
        Seq::empty()
    } else {
        let before = events.drop_last();
        match op_of(state.after_all(before), events.last()) {
            Some(op) => ops_of(state, before).push(op),
            None => ops_of(state, before),
        }
    }
}

/// The creation of the webview ends with the event.
pub open spec fn ends_creation<P: Platform>(event: Event<P>) -> bool {
    event is Created || event is Failed
}

/// None of the events ends the creation of the webview.
pub open spec fn creation_goes_on<P: Platform>(events: Seq<Event<P>>) -> bool {
    forall|i: int| 0 <= i < events.len() ==> !ends_creation(#[trigger] events[i])
}

// ---------------------------------------------------------------------------
// Laws
// ---------------------------------------------------------------------------

/// Operations wait only while the webview is being created: this holds of a new
/// webview, and whatever happens to a webview keeps it.
pub proof fn law_nothing_waits_after_creation<P: Platform>(
    state: State<P>,
    events: Seq<Event<P>>,
    id: Seq<char>,
    bounds: P::Rect,
    is_child: bool,
)
    ensures
        State::<P>::initial(id, bounds, is_child).consistent(),
        state.consistent() ==> state.after_all(events).consistent(),
    decreases events.len(),
{
    if events.len() > 0 {
        law_nothing_waits_after_creation(state, events.drop_last(), id, bounds, is_child);
    }
}

/// The id of a webview, and whether it is a child, never change.
pub proof fn law_identity_is_kept<P: Platform>(state: State<P>, events: Seq<Event<P>>)
    ensures
        state.after_all(events).id == state.id,
        state.after_all(events).is_child == state.is_child,
    decreases events.len(),
{
    if events.len() > 0 {
        law_identity_is_kept(state, events.drop_last());
    }
}

/// The handle is set once: a created webview keeps the handle that it has.
pub proof fn law_handle_is_set_once<P: Platform>(state: State<P>, events: Seq<Event<P>>)
    requires
        state.handle is Some,
    ensures
        state.after_all(events).handle == state.handle,
    decreases events.len(),
{
    if events.len() > 0 {
        law_handle_is_set_once(state, events.drop_last());
    }
}

/// A created webview has every operation carried out at once, and a webview
/// that cannot be created refuses every operation; neither keeps one back.
pub proof fn law_operations_after_creation<P: Platform>(state: State<P>, event: Event<P>, op: Op<P>)
    requires
        op_of(state, event) == Some(op),
        !state.creating(),
    ensures
        state.handle is Some ==> state.stepped(event).1 == Some(Outcome::<P>::Execute(op)),
        state.handle is None ==> state.stepped(event).1 == Some(
            Outcome::<P>::Refused(webview::creation_failed_error(state.creation_error->0)),
        ),
        state.after(event).pending == state.pending,
{
}

/// Operations that are asked for while the webview is being created wait, all
/// of them and in the order in which they were asked for.
pub proof fn law_operations_wait_in_order<P: Platform>(state: State<P>, events: Seq<Event<P>>)
    requires
        state.creating(),
        creation_goes_on(events),
    ensures
        state.after_all(events).creating(),
        state.after_all(events).pending == state.pending + ops_of(state, events),
    decreases events.len(),
{
    if events.len() == 0 {
        assert(state.pending + Seq::<Op<P>>::empty() =~= state.pending);
    } else {
        let before = events.drop_last();
        assert forall|i: int| 0 <= i < before.len() implies !ends_creation(
            #[trigger] before[i],
        ) by {
            assert(before[i] == events[i]);
        }
        law_operations_wait_in_order(state, before);
        assert(!ends_creation(events[events.len() - 1]));
        let middle = state.after_all(before);
        match op_of(middle, events.last()) {
            Some(op) => {
                assert((state.pending + ops_of(state, before)).push(op) =~= state.pending + ops_of(
                    state,
                    before,
                ).push(op));
            },
            None => {},
        }
    }
}

/// Once the webview is created the operations that were asked for before are
/// handed out, all of them, each once and in the order in which they were asked
/// for, and none waits any more.
pub proof fn law_operations_are_replayed<P: Platform>(
    id: Seq<char>,
    bounds: P::Rect,
    is_child: bool,
    events: Seq<Event<P>>,
    handle: P::Handle,
)
    requires
        creation_goes_on(events),
    ensures
        ({
            let start = State::<P>::initial(id, bounds, is_child);
            let (created, replay) = start.after_all(events).created(handle);
            &&& replay == Some(ops_of(start, events))
            &&& created.pending.len() == 0
            &&& created.handle == Some(handle)
        }),
{
    let start = State::<P>::initial(id, bounds, is_child);
    law_operations_wait_in_order(start, events);
    assert(start.pending + ops_of(start, events) =~= ops_of(start, events));
}

/// Where the creation failed nothing is kept back from then on, and the failure
/// is not forgotten: what waited is dropped, and what comes later is refused,
/// until the webview is created after all.
pub proof fn law_failed_creation_is_remembered<P: Platform>(
    state: State<P>,
    cause: Seq<char>,
    events: Seq<Event<P>>,
)
    requires
        state.handle is None,
        creation_goes_on(events),
    ensures
        state.failed(cause).after_all(events).handle is None,
        state.failed(cause).after_all(events).creation_error == Some(cause),
        state.failed(cause).after_all(events).pending.len() == 0,
    decreases events.len(),
{
    if events.len() > 0 {
        let before = events.drop_last();
        assert forall|i: int| 0 <= i < before.len() implies !ends_creation(
            #[trigger] before[i],
        ) by {
            assert(before[i] == events[i]);
        }
        law_failed_creation_is_remembered(state, cause, before);
        assert(!ends_creation(events[events.len() - 1]));
    }
}

/// A child webview is removed at most once, and any other webview never: after
/// an end of a child, whatever comes, another end asks for nothing and changes
/// nothing.
pub proof fn law_child_is_disposed_once<P: Platform>(state: State<P>, events: Seq<Event<P>>)
    ensures
        state.is_child ==> {
            let later = state.dispose_child().0.after_all(events);
            &&& later.disposed
            &&& later.dispose_child() == (later, None::<Outcome<P>>)
        },
        !state.is_child ==> state.dispose_child() == (state, None::<Outcome<P>>),
    decreases events.len(),
{
    if events.len() > 0 {
        law_child_is_disposed_once(state, events.drop_last());
    }
}

/// A page is printed, and a PDF of it written, only after it was loaded: before
/// the end of the load both are refused and change nothing, and after it both
/// are asked for.
pub proof fn law_print_needs_a_loaded_page<P: Platform>(
    state: State<P>,
    url: Seq<char>,
    path: Seq<char>,
    config: Option<PdfConfig<P::Scalar>>,
    callback: P::PdfCallback,
)
    ensures
        ({
            let begun = state.page_begun(url);
            &&& begun.print(path).1 is Refused
            &&& begun.print(path).0 == begun
            &&& begun.create_pdf(path, config, callback).1 is Refused
            &&& begun.create_pdf(path, config, callback).0 == begun
        }),
        ({
            let ended = state.page_ended(url);
            &&& ended.print(path) == ended.dispatch(Op::Print(path))
            &&& ended.create_pdf(path, config, callback) == ended.dispatch(
                Op::CreatePdf(path, config, Some(callback)),
            )
        }),
{
}

/// Before a page was loaded no page counts as loaded, and printing and PDFs are
/// refused; before a page began to load there is no URL.
pub proof fn law_no_page_before_the_first<P: Platform>(
    id: Seq<char>,
    bounds: P::Rect,
    is_child: bool,
    events: Seq<Event<P>>,
    path: Seq<char>,
    config: Option<PdfConfig<P::Scalar>>,
    callback: P::PdfCallback,
)
    requires
        forall|i: int| 0 <= i < events.len() ==> !((#[trigger] events[i]) is PageEnded),
    ensures
        ({
            let state = State::<P>::initial(id, bounds, is_child).after_all(events);
            &&& !state.page_loaded
            &&& state.print(path).1 is Refused
            &&& state.create_pdf(path, config, callback).1 is Refused
            &&& (forall|i: int| 0 <= i < events.len() ==> !((#[trigger] events[i]) is PageBegun))
                ==> state.url.len() == 0
        }),
    decreases events.len(),
{
    if events.len() > 0 {
        let before = events.drop_last();
        assert forall|i: int| 0 <= i < before.len() implies !((
        #[trigger] before[i]) is PageEnded) by {
            assert(before[i] == events[i]);
        }
        law_no_page_before_the_first(id, bounds, is_child, before, path, config, callback);
        assert(!(events[events.len() - 1] is PageEnded));
        if forall|i: int| 0 <= i < events.len() ==> !((#[trigger] events[i]) is PageBegun) {
            assert(!(events[events.len() - 1] is PageBegun));
            assert forall|i: int| 0 <= i < before.len() implies !((
            #[trigger] before[i]) is PageBegun) by {
                assert(before[i] == events[i]);
            }
        }
    }
}

/// The URL is that of the page that last began or ended to load, and a page
/// counts as loaded from the end of its load until another one begins.
pub proof fn law_url_is_that_of_the_last_page<P: Platform>(
    state: State<P>,
    url: Seq<char>,
    events: Seq<Event<P>>,
)
    requires
        forall|i: int|
            0 <= i < events.len() ==> !((#[trigger] events[i]) is PageBegun)
                && !(events[i] is PageEnded),
    ensures
        state.page_begun(url).after_all(events).url == url,
        !state.page_begun(url).after_all(events).page_loaded,
        state.page_ended(url).after_all(events).url == url,
        state.page_ended(url).after_all(events).page_loaded,
    decreases events.len(),
{
    if events.len() > 0 {
        let before = events.drop_last();
        assert forall|i: int| 0 <= i < before.len() implies !((#[trigger] before[i]) is PageBegun)
            && !(before[i] is PageEnded) by {
            assert(before[i] == events[i]);
        }
        law_url_is_that_of_the_last_page(state, url, before);
        assert(!(events[events.len() - 1] is PageBegun));
    }
}

/// Every move among the events is refused.
pub open spec fn moves_are_refused<P: Platform>(state: State<P>, events: Seq<Event<P>>) -> bool {
    forall|i: int|
        0 <= i < events.len() ==> ((#[trigger] events[i]) is SetBounds ==> state.after_all(
            events.take(i),
        ).stepped(events[i]).1 matches Some(Outcome::Refused(_)))
}

/// The bounds of a webview are those that it was made with until a move is not
/// refused.
pub proof fn law_bounds_are_those_given_before_a_move<P: Platform>(
    id: Seq<char>,
    bounds: P::Rect,
    is_child: bool,
    events: Seq<Event<P>>,
)
    requires
        moves_are_refused(State::<P>::initial(id, bounds, is_child), events),
    ensures
        State::<P>::initial(id, bounds, is_child).after_all(events).bounds == bounds,
{
    lemma_bounds_stay(State::<P>::initial(id, bounds, is_child), events);
}

/// The bounds are those of the last move that was not refused; a refused move
/// leaves them as they were.
pub proof fn law_bounds_are_those_of_the_last_move<P: Platform>(
    state: State<P>,
    bounds: P::Rect,
    logical: LogicalRect<P::Scalar>,
    events: Seq<Event<P>>,
)
    requires
        moves_are_refused(state.set_bounds(bounds, logical).0, events),
    ensures
        state.set_bounds(bounds, logical).0.after_all(events).bounds == if state.set_bounds(
            bounds,
            logical,
        ).1 is Refused {
            state.bounds
        } else {
            bounds
        },
{
    lemma_bounds_stay(state.set_bounds(bounds, logical).0, events);
}

/// Refused moves leave the bounds as they are.
proof fn lemma_bounds_stay<P: Platform>(state: State<P>, events: Seq<Event<P>>)
    requires
        moves_are_refused(state, events),
    ensures
        state.after_all(events).bounds == state.bounds,
    decreases events.len(),
{
    if events.len() > 0 {
        let before = events.drop_last();
        assert forall|i: int|
            0 <= i < before.len() && (#[trigger] before[i]) is SetBounds implies state.after_all(
            before.take(i),
        ).stepped(before[i]).1 matches Some(Outcome::Refused(_)) by {
            assert(before[i] == events[i]);
            assert(before.take(i) =~= events.take(i));
        }
        lemma_bounds_stay(state, before);
        assert(events[events.len() - 1] == events.last());
        assert(events.take(events.len() - 1) =~= before);
    }
}

/// The developer tools are open from when they were last opened until they are
/// closed.
pub proof fn law_devtools_stay_as_they_were_set<P: Platform>(
    state: State<P>,
    events: Seq<Event<P>>,
)
    requires
        forall|i: int|
            0 <= i < events.len() ==> !((#[trigger] events[i]) is OpenDevtools)
                && !(events[i] is CloseDevtools),
    ensures
        state.after_all(events).devtools_open == state.devtools_open,
    decreases events.len(),
{
    if events.len() > 0 {
        let before = events.drop_last();
        assert forall|i: int| 0 <= i < before.len() implies !((#[trigger] before[i]) is OpenDevtools)
            && !(before[i] is CloseDevtools) by {
            assert(before[i] == events[i]);
        }
        law_devtools_stay_as_they_were_set(state, before);
        assert(!(events[events.len() - 1] is OpenDevtools));
    }
}

// ---------------------------------------------------------------------------
// What one request does
// ---------------------------------------------------------------------------

/// An operation is carried out at once by a created webview, and it is the one
/// that was asked for; it is refused with the cause where the creation failed; and
/// while the webview is being created it waits behind those that wait already.
/// Nothing else changes.
pub proof fn law_operation_is_dispatched<P: Platform>(
    before: State<P>,
    op: PendingOp<P>,
    after: State<P>,
    result: Result<Dispatch<P>, Error>,
)
    requires
        (after, webview::outcome(result)) == before.dispatch(op@),
    ensures
        before.handle is Some ==> {
            &&& after == before
            &&& result matches Ok(Dispatch::Execute(handed_out))
            &&& handed_out@ == op@
        },
        before.handle is None && before.creation_error is Some ==> {
            &&& after == before
            &&& result matches Err(Error::OpenHarmonyWebviewError(message))
            &&& message@ == "webview creation failed: "@ + before.creation_error->0
        },
        before.handle is None && before.creation_error is None ==> {
            &&& result matches Ok(Dispatch::Queued)
            &&& after.pending == before.pending + seq![op@]
            &&& after == (State { pending: after.pending, ..before })
        },
{
    assert(before.pending.push(op@) =~= before.pending + seq![op@]);
}

/// A loaded page is printed through the file that was named, like any operation;
/// before that the refusal says when to print.
pub proof fn law_page_is_printed<P: Platform>(
    before: State<P>,
    path: Seq<char>,
    after: State<P>,
    result: Result<Dispatch<P>, Error>,
)
    requires
        (after, webview::outcome(result)) == before.print(path),
    ensures
        before.page_loaded ==> (after, webview::outcome(result)) == before.dispatch(
            Op::Print(path),
        ),
        !before.page_loaded ==> {
            &&& after == before
            &&& result matches Err(Error::OpenHarmonyWebviewError(message))
            &&& message@ == "Page not fully loaded. Call print after onPageEnd."@
        },
{
}

/// A PDF of a loaded page is asked for with its path, its layout and who is to be
/// told, like any operation; before that the refusal says when to ask.
pub proof fn law_pdf_is_asked_for<P: Platform>(
    before: State<P>,
    path: Seq<char>,
    config: Option<PdfConfig<P::Scalar>>,
    callback: P::PdfCallback,
    after: State<P>,
    result: Result<Dispatch<P>, Error>,
)
    requires
        (after, webview::outcome(result)) == before.create_pdf(path, config, callback),
    ensures
        before.page_loaded ==> (after, webview::outcome(result)) == before.dispatch(
            Op::CreatePdf(path, config, Some(callback)),
        ),
        !before.page_loaded ==> {
            &&& after == before
            &&& result matches Err(Error::OpenHarmonyWebviewError(message))
            &&& message@ == "Page not fully loaded. Call createPdf after onPageEnd."@
        },
{
}

/// A move is asked for in logical units, like any operation, and remembered as it
/// was given, unless it is refused; a refused move changes nothing.
pub proof fn law_move_is_remembered<P: Platform>(
    before: State<P>,
    bounds: P::Rect,
    logical: LogicalRect<P::Scalar>,
    after: State<P>,
    result: Result<Dispatch<P>, Error>,
)
    requires
        (after, webview::outcome(result)) == before.set_bounds(bounds, logical),
    ensures
        webview::outcome(result) == before.dispatch(Op::SetBounds(logical)).1,
        result is Ok ==> {
            &&& after.bounds == bounds
            &&& after.pending == before.dispatch(Op::SetBounds(logical)).0.pending
            &&& after == (State { bounds, pending: after.pending, ..before })
        },
        result is Err ==> after == before,
{
}

/// A cookie is set for its domain without leading dots, or else for the page that
/// is shown, with the value that it is written as, like any operation; without
/// either nothing is asked for and nothing changes.
pub proof fn law_cookie_is_set_for_its_url<P: Platform>(
    before: State<P>,
    cookie: CookieText,
    dots: Seq<char>,
    host: Seq<char>,
)
    requires
        forall|i: int| 0 <= i < dots.len() ==> dots[i] == '.',
        host.len() > 0 ==> host[0] != '.',
        dots.len() + host.len() > 0,
    ensures
        cookie.domain == Some(dots + host) ==> {
            let op = Op::SetCookie("https://"@ + host, cookies::set_cookie_value(cookie));
            before.set_cookie(cookie) == (before.dispatch(op).0, Some(before.dispatch(op).1))
        },
        cookie.domain is None || cookie.domain->0.len() == 0 ==> if before.url.len() > 0 {
            let op = Op::SetCookie(before.url, cookies::set_cookie_value(cookie));
            before.set_cookie(cookie) == (before.dispatch(op).0, Some(before.dispatch(op).1))
        } else {
            before.set_cookie(cookie) == (before, None::<Outcome<P>>)
        },
{
    cookies::law_cookie_belongs_to_its_domain(dots, host, before.url);
    if cookie.domain is Some && cookie.domain->0.len() == 0 {
        assert(cookie.domain->0 =~= Seq::empty());
    }
}

/// The first end of a child asks for its removal, like any operation, and is
/// remembered; any other end asks for nothing and changes nothing.
pub proof fn law_child_is_removed<P: Platform>(before: State<P>)
    ensures
        before.is_child && !before.disposed ==> {
            let (after, outcome) = before.dispose_child();
            &&& after.disposed
            &&& outcome == Some(before.dispatch(Op::Remove).1)
            &&& after.pending == before.dispatch(Op::Remove).0.pending
            &&& after == (State { disposed: true, pending: after.pending, ..before })
        },
        !before.is_child || before.disposed ==> before.dispose_child() == (
            before,
            None::<Outcome<P>>,
        ),
{
}

/// A created webview has the handle that came, and what waited is handed out, one
/// for one; a second handle changes nothing and hands out nothing. Nothing else
/// changes.
pub proof fn law_creation_hands_out_what_waited<P: Platform>(
    before: State<P>,
    handle: P::Handle,
    after: State<P>,
    replay: Option<Vec<PendingOp<P>>>,
)
    requires
        after == before.created(handle).0,
        match replay {
            Some(ops) => before.created(handle).1 == Some(webview::op_texts(ops@)),
            None => before.created(handle).1 is None,
        },
    ensures
        before.handle is None ==> {
            &&& after.handle == Some(handle)
            &&& after.pending.len() == 0
            &&& after == (State { handle: Some(handle), pending: after.pending, ..before })
            &&& replay matches Some(ops)
            &&& ops@.len() == before.pending.len()
            &&& forall|i: int| 0 <= i < ops@.len() ==> (#[trigger] ops@[i])@ == before.pending[i]
        },
        before.handle is Some ==> after == before && replay is None,
{
    if let Some(ops) = replay {
        assert(webview::op_texts(ops@).len() == ops@.len());
        assert forall|i: int| 0 <= i < ops@.len() implies (#[trigger] ops@[i])@
            == before.pending[i] by {
            assert(webview::op_texts(ops@)[i] == before.pending[i]);
        }
    }
}

/// A failed creation leaves its cause behind and nothing waiting. Nothing else
/// changes.
pub proof fn law_failure_leaves_its_cause<P: Platform>(before: State<P>, cause: Seq<char>)
    ensures
        before.failed(cause).creation_error == Some(cause),
        before.failed(cause).pending.len() == 0,
        before.failed(cause) == (State {
            creation_error: Some(cause),
            pending: before.failed(cause).pending,
            ..before
        }),
{
}

/// The load of a page changes the URL and whether a page is loaded, and nothing
/// else.
pub proof fn law_page_events_change_the_page_alone<P: Platform>(before: State<P>, url: Seq<char>)
    ensures
        before.page_begun(url) == (State { page_loaded: false, url, ..before }),
        before.page_ended(url) == (State { page_loaded: true, url, ..before }),
{
}

/// The cookies of a URL are asked for off the main thread once the webview is
/// created, and only then; they are those of that URL.
pub proof fn law_cookies_are_asked_for<P: Platform>(
    state: State<P>,
    url: Seq<char>,
    on_main_thread: bool,
)
    ensures
        !on_main_thread && state.handle is Some ==> state.cookies_for_url(url, on_main_thread)
            == Some(url),
        on_main_thread || state.handle is None ==> state.cookies_for_url(
            url,
            on_main_thread,
        ) is None,
{
}

} // verus!
