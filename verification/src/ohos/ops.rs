//! Operations on a webview and how they are carried out, call by call.

use super::platform::{LogicalRect, PdfConfig, Platform};
use vstd::prelude::*;

verus! {

/// An operation on a webview. Operations that come before the webview is
/// created wait and are carried out in order once it is.
pub enum PendingOp<P: Platform> {
    LoadUrl(String),
    LoadUrlWithHeaders(String, Vec<(String, String)>),
    LoadHtml(String),
    Reload,
    Zoom(P::Scalar),
    SetBackgroundColor(String),
    SetVisible(bool),
    SetBounds(LogicalRect<P::Scalar>),
    Focus,
    ClearAllBrowsingData,
    SetCookie(String, String),
    Print(String),
    Eval(String, Option<P::EvalCallback>),
    CreatePdf(String, Option<PdfConfig<P::Scalar>>, Option<P::PdfCallback>),
    Remove,
}

/// What a [`PendingOp`] asks for.
pub enum Op<P: Platform> {
    LoadUrl(Seq<char>),
    LoadUrlWithHeaders(Seq<char>, Seq<(Seq<char>, Seq<char>)>),
    LoadHtml(Seq<char>),
    Reload,
    Zoom(P::Scalar),
    SetBackgroundColor(Seq<char>),
    SetVisible(bool),
    SetBounds(LogicalRect<P::Scalar>),
    Focus,
    ClearAllBrowsingData,
    SetCookie(Seq<char>, Seq<char>),
    Print(Seq<char>),
    Eval(Seq<char>, Option<P::EvalCallback>),
    CreatePdf(Seq<char>, Option<PdfConfig<P::Scalar>>, Option<P::PdfCallback>),
    Remove,
}

/// The texts of a list of pairs of strings.
pub open spec fn text_pairs(pairs: Seq<(String, String)>) -> Seq<(Seq<char>, Seq<char>)> {
    Seq::new(pairs.len(), |i: int| (pairs[i].0@, pairs[i].1@))
}

impl<P: Platform> View for PendingOp<P> {
    type V = Op<P>;

    open spec fn view(&self) -> Op<P> {
        match *self {
            PendingOp::LoadUrl(url) => Op::LoadUrl(url@),
            PendingOp::LoadUrlWithHeaders(url, headers) => Op::LoadUrlWithHeaders(
                url@,
                text_pairs(headers@),
            ),
            PendingOp::LoadHtml(html) => Op::LoadHtml(html@),
            PendingOp::Reload => Op::Reload,
            PendingOp::Zoom(scale) => Op::Zoom(scale),
            PendingOp::SetBackgroundColor(color) => Op::SetBackgroundColor(color@),
            PendingOp::SetVisible(visible) => Op::SetVisible(visible),
            PendingOp::SetBounds(bounds) => Op::SetBounds(bounds),
            PendingOp::Focus => Op::Focus,
            PendingOp::ClearAllBrowsingData => Op::ClearAllBrowsingData,
            PendingOp::SetCookie(url, value) => Op::SetCookie(url@, value@),
            PendingOp::Print(path) => Op::Print(path@),
            PendingOp::Eval(js, callback) => Op::Eval(js@, callback),
            PendingOp::CreatePdf(path, config, callback) => Op::CreatePdf(path@, config, callback),
            PendingOp::Remove => Op::Remove,
        }
    }
}

/// A call to the platform.
pub enum BridgeCall<P: Platform> {
    LoadUrl(String),
    LoadUrlWithHeaders(String, Vec<(String, String)>),
    LoadHtml(String),
    Reload,
    SetZoom(P::Scalar),
    SetBackgroundColor(String),
    SetVisible(bool),
    SetBounds(LogicalRect<P::Scalar>),
    Focus,
    ClearAllBrowsingData,
    SetCookie(String, String),
    CreatePdf(String, Option<PdfConfig<P::Scalar>>),
    Print(String),
    EvaluateScript(String),
    Remove,
}

/// What a [`BridgeCall`] asks for.
pub enum Call<P: Platform> {
    LoadUrl(Seq<char>),
    LoadUrlWithHeaders(Seq<char>, Seq<(Seq<char>, Seq<char>)>),
    LoadHtml(Seq<char>),
    Reload,
    SetZoom(P::Scalar),
    SetBackgroundColor(Seq<char>),
    SetVisible(bool),
    SetBounds(LogicalRect<P::Scalar>),
    Focus,
    ClearAllBrowsingData,
    SetCookie(Seq<char>, Seq<char>),
    CreatePdf(Seq<char>, Option<PdfConfig<P::Scalar>>),
    Print(Seq<char>),
    EvaluateScript(Seq<char>),
    Remove,
}

impl<P: Platform> View for BridgeCall<P> {
    type V = Call<P>;

    open spec fn view(&self) -> Call<P> {
        match *self {
            BridgeCall::LoadUrl(url) => Call::LoadUrl(url@),
            BridgeCall::LoadUrlWithHeaders(url, headers) => Call::LoadUrlWithHeaders(
                url@,
                text_pairs(headers@),
            ),
            BridgeCall::LoadHtml(html) => Call::LoadHtml(html@),
            BridgeCall::Reload => Call::Reload,
            BridgeCall::SetZoom(scale) => Call::SetZoom(scale),
            BridgeCall::SetBackgroundColor(color) => Call::SetBackgroundColor(color@),
            BridgeCall::SetVisible(visible) => Call::SetVisible(visible),
            BridgeCall::SetBounds(bounds) => Call::SetBounds(bounds),
            BridgeCall::Focus => Call::Focus,
            BridgeCall::ClearAllBrowsingData => Call::ClearAllBrowsingData,
            BridgeCall::SetCookie(url, value) => Call::SetCookie(url@, value@),
            BridgeCall::CreatePdf(path, config) => Call::CreatePdf(path@, config),
            BridgeCall::Print(path) => Call::Print(path@),
            BridgeCall::EvaluateScript(js) => Call::EvaluateScript(js@),
            BridgeCall::Remove => Call::Remove,
        }
    }
}

/// What an operation waits for after a call.
pub enum Awaiting<P: Platform> {
    /// The end of its last call.
    Last,
    /// The PDF that is to be printed, at this path.
    PdfToPrint(String),
    /// The result of a script.
    Script(Option<P::EvalCallback>),
    /// A PDF.
    Pdf(Option<P::PdfCallback>),
}

/// What an [`Awaiting`] stands for.
pub enum Wait<P: Platform> {
    Last,
    PdfToPrint(Seq<char>),
    Script(Option<P::EvalCallback>),
    Pdf(Option<P::PdfCallback>),
}

impl<P: Platform> View for Awaiting<P> {
    type V = Wait<P>;

    open spec fn view(&self) -> Wait<P> {
        match *self {
            Awaiting::Last => Wait::Last,
            Awaiting::PdfToPrint(path) => Wait::PdfToPrint(path@),
            Awaiting::Script(callback) => Wait::Script(callback),
            Awaiting::Pdf(callback) => Wait::Pdf(callback),
        }
    }
}

/// How a call to the platform ended.
pub enum Reply {
    /// It succeeded; a script may have left a result.
    Done(Option<String>),
    /// It failed.
    Failed,
}

/// What comes after a call has ended.
pub enum Step<P: Platform> {
    /// Another call is to be made.
    Call(BridgeCall<P>, Awaiting<P>),
    /// The operation is over and its caller is told the result of the script.
    AnswerScript(P::EvalCallback, String),
    /// The operation is over and its caller is told whether the PDF was written.
    AnswerPdf(P::PdfCallback, bool),
    /// The operation is over.
    Finished,
    /// The operation is over; the call that failed is worth a warning.
    Failed,
}

/// What a [`Step`] stands for.
pub enum Next<P: Platform> {
    Call(Call<P>, Wait<P>),
    AnswerScript(P::EvalCallback, Seq<char>),
    AnswerPdf(P::PdfCallback, bool),
    Finished,
    Failed,
}

impl<P: Platform> View for Step<P> {
    type V = Next<P>;

    open spec fn view(&self) -> Next<P> {
        match *self {
            Step::Call(call, awaiting) => Next::Call(call@, awaiting@),
            Step::AnswerScript(callback, text) => Next::AnswerScript(callback, text@),
            Step::AnswerPdf(callback, written) => Next::AnswerPdf(callback, written),
            Step::Finished => Next::Finished,
            Step::Failed => Next::Failed,
        }
    }
}

impl<P: Platform> Op<P> {
    /// The first call of an operation, and what it then waits for.
    pub open spec fn started(self) -> (Call<P>, Wait<P>) {
        match self {
            Op::LoadUrl(url) => (Call::LoadUrl(url), Wait::Last),
            Op::LoadUrlWithHeaders(url, headers) => (
                Call::LoadUrlWithHeaders(url, headers),
                Wait::Last,
            ),
            Op::LoadHtml(html) => (Call::LoadHtml(html), Wait::Last),
            Op::Reload => (Call::Reload, Wait::Last),
            Op::Zoom(scale) => (Call::SetZoom(scale), Wait::Last),
            Op::SetBackgroundColor(color) => (Call::SetBackgroundColor(color), Wait::Last),
            Op::SetVisible(visible) => (Call::SetVisible(visible), Wait::Last),
            Op::SetBounds(bounds) => (Call::SetBounds(bounds), Wait::Last),
            Op::Focus => (Call::Focus, Wait::Last),
            Op::ClearAllBrowsingData => (Call::ClearAllBrowsingData, Wait::Last),
            Op::SetCookie(url, value) => (Call::SetCookie(url, value), Wait::Last),
            Op::Print(path) => (Call::CreatePdf(path, None), Wait::PdfToPrint(path)),
            Op::Eval(js, callback) => (Call::EvaluateScript(js), Wait::Script(callback)),
            Op::CreatePdf(path, config, callback) => (
                Call::CreatePdf(path, config),
                Wait::Pdf(callback),
            ),
            Op::Remove => (Call::Remove, Wait::Last),
        }
    }
}

impl<P: Platform> Wait<P> {
    /// What comes after the call that was waited for: `reply` is `None` where it
    /// failed, and otherwise holds the result of the script, if there is one.
    pub open spec fn resumed(self, reply: Option<Option<Seq<char>>>) -> Next<P> {
        match self {
            Wait::Last => if reply is Some {
                Next::Finished
            } else {
                Next::Failed
            },
            Wait::PdfToPrint(path) => if reply is Some {
                Next::Call(Call::Print(path), Wait::Last)
            } else {
                Next::Failed
            },
            Wait::Script(callback) => match (reply, callback) {
                (None, _) => Next::Failed,
                (Some(_), None) => Next::Finished,
                (Some(Some(text)), Some(callback)) => Next::AnswerScript(callback, text),
                (Some(None), Some(callback)) => Next::AnswerScript(callback, Seq::empty()),
            },
            Wait::Pdf(callback) => match callback {
                Some(callback) => Next::AnswerPdf(callback, reply is Some),
                None => Next::Finished,
            },
        }
    }
}

impl View for Reply {
    type V = Option<Option<Seq<char>>>;

    open spec fn view(&self) -> Option<Option<Seq<char>>> {
        match self {
            Reply::Done(Some(text)) => Some(Some(text@)),
            Reply::Done(None) => Some(None),
            Reply::Failed => None,
        }
    }
}

impl<P: Platform> PendingOp<P> {
    /// Starts an operation: the call to make first, and what to wait for then.
    pub fn execute(self) -> (started: (BridgeCall<P>, Awaiting<P>))
        ensures
            (started.0@, started.1@) == self@.started(),
    {
        match self {
            PendingOp::LoadUrl(url) => (BridgeCall::LoadUrl(url), Awaiting::Last),
            PendingOp::LoadUrlWithHeaders(url, headers) => (
                BridgeCall::LoadUrlWithHeaders(url, headers),
                Awaiting::Last,
            ),
            PendingOp::LoadHtml(html) => (BridgeCall::LoadHtml(html), Awaiting::Last),
            PendingOp::Reload => (BridgeCall::Reload, Awaiting::Last),
            PendingOp::Zoom(scale) => (BridgeCall::SetZoom(scale), Awaiting::Last),
            PendingOp::SetBackgroundColor(color) => (
                BridgeCall::SetBackgroundColor(color),
                Awaiting::Last,
            ),
            PendingOp::SetVisible(visible) => (BridgeCall::SetVisible(visible), Awaiting::Last),
            PendingOp::SetBounds(bounds) => (BridgeCall::SetBounds(bounds), Awaiting::Last),
            PendingOp::Focus => (BridgeCall::Focus, Awaiting::Last),
            PendingOp::ClearAllBrowsingData => (BridgeCall::ClearAllBrowsingData, Awaiting::Last),
            PendingOp::SetCookie(url, value) => (BridgeCall::SetCookie(url, value), Awaiting::Last),
            PendingOp::Print(path) => {
                let file = path.clone();
                (BridgeCall::CreatePdf(file, None), Awaiting::PdfToPrint(path))
            },
            PendingOp::Eval(js, callback) => (
                BridgeCall::EvaluateScript(js),
                Awaiting::Script(callback),
            ),
            PendingOp::CreatePdf(path, config, callback) => (
                BridgeCall::CreatePdf(path, config),
                Awaiting::Pdf(callback),
            ),
            PendingOp::Remove => (BridgeCall::Remove, Awaiting::Last),
        }
    }
}

impl<P: Platform> Awaiting<P> {
    /// Goes on with an operation once the call that it waited for has ended.
    pub fn resume(self, reply: Reply) -> (step: Step<P>)
        ensures
            step@ == self@.resumed(reply@),
    {
        match self {
            Awaiting::Last => match reply {
                Reply::Done(_) => Step::Finished,
                Reply::Failed => Step::Failed,
            },
            Awaiting::PdfToPrint(path) => match reply {
                Reply::Done(_) => Step::Call(BridgeCall::Print(path), Awaiting::Last),
                Reply::Failed => Step::Failed,
            },
            Awaiting::Script(callback) => match (reply, callback) {
                (Reply::Failed, _) => Step::Failed,
                (Reply::Done(_), None) => Step::Finished,
                (Reply::Done(Some(text)), Some(callback)) => Step::AnswerScript(callback, text),
                (Reply::Done(None), Some(callback)) => Step::AnswerScript(callback, String::new()),
            },
            Awaiting::Pdf(callback) => match callback {
                Some(callback) => match reply {
                    Reply::Done(_) => Step::AnswerPdf(callback, true),
                    Reply::Failed => Step::AnswerPdf(callback, false),
                },
                None => Step::Finished,
            },
        }
    }
}

// ---------------------------------------------------------------------------
// Laws
// ---------------------------------------------------------------------------

/// An operation makes one call and is then over. Only printing makes a second
/// one, the print itself: where the PDF was written, and only there.
pub proof fn law_operation_ends<P: Platform>(
    op: Op<P>,
    first: Option<Option<Seq<char>>>,
    second: Option<Option<Seq<char>>>,
)
    ensures
        op.started().1.resumed(first) is Call <==> op is Print && first is Some,
        op matches Op::Print(path) ==> (first is Some ==> op.started().1.resumed(first)
            == Next::<P>::Call(Call::Print(path), Wait::Last)),
        op.started().1.resumed(first) matches Next::Call(_, wait) ==> wait.resumed(
            second,
        ) !is Call,
{
}

/// Who asked for a PDF is told in any case whether it was written.
pub proof fn law_pdf_is_answered<P: Platform>(
    path: Seq<char>,
    config: Option<PdfConfig<P::Scalar>>,
    callback: P::PdfCallback,
    reply: Option<Option<Seq<char>>>,
)
    ensures
        Op::<P>::CreatePdf(path, config, Some(callback)).started().1.resumed(reply)
            == Next::<P>::AnswerPdf(callback, reply is Some),
{
}

/// Who asked for a script is told its result where it ran, the empty text
/// standing for none, and nothing where it did not.
pub proof fn law_script_is_answered<P: Platform>(
    js: Seq<char>,
    callback: P::EvalCallback,
    reply: Option<Option<Seq<char>>>,
)
    ensures
        Op::<P>::Eval(js, Some(callback)).started().1.resumed(reply) == match reply {
            Some(Some(text)) => Next::<P>::AnswerScript(callback, text),
            Some(None) => Next::<P>::AnswerScript(callback, Seq::empty()),
            None => Next::<P>::Failed,
        },
{
}

/// Each operation starts with the call of its own kind and hands on what it was
/// asked for, unchanged. Only a print, a script and a PDF wait for what their
/// call brings.
pub proof fn law_operation_starts_with_its_call<P: Platform>(
    op: PendingOp<P>,
    call: BridgeCall<P>,
    awaiting: Awaiting<P>,
)
    requires
        (call@, awaiting@) == op@.started(),
    ensures
        match op {
            PendingOp::LoadUrl(url) => awaiting is Last && (call matches BridgeCall::LoadUrl(u)
                && u@ == url@),
            PendingOp::LoadUrlWithHeaders(url, headers) => {
                &&& awaiting is Last
                &&& call matches BridgeCall::LoadUrlWithHeaders(u, pairs)
                &&& u@ == url@
                &&& pairs@.len() == headers@.len()
                &&& forall|i: int|
                    0 <= i < headers@.len() ==> (#[trigger] pairs@[i]).0@ == headers@[i].0@
                        && pairs@[i].1@ == headers@[i].1@
            },
            PendingOp::LoadHtml(html) => awaiting is Last && (call matches BridgeCall::LoadHtml(h)
                && h@ == html@),
            PendingOp::Reload => awaiting is Last && call is Reload,
            PendingOp::Zoom(scale) => awaiting is Last && call == BridgeCall::<P>::SetZoom(scale),
            PendingOp::SetBackgroundColor(color) => awaiting is Last && (
            call matches BridgeCall::SetBackgroundColor(c) && c@ == color@),
            PendingOp::SetVisible(visible) => awaiting is Last && call
                == BridgeCall::<P>::SetVisible(visible),
            PendingOp::SetBounds(bounds) => awaiting is Last && call == BridgeCall::<P>::SetBounds(
                bounds,
            ),
            PendingOp::Focus => awaiting is Last && call is Focus,
            PendingOp::ClearAllBrowsingData => awaiting is Last && call is ClearAllBrowsingData,
            PendingOp::SetCookie(url, value) => awaiting is Last && (
            call matches BridgeCall::SetCookie(u, v) && u@ == url@ && v@ == value@),
            PendingOp::Print(path) => {
                &&& awaiting matches Awaiting::PdfToPrint(printed)
                &&& printed@ == path@
                &&& call matches BridgeCall::CreatePdf(written, config)
                &&& written@ == path@
                &&& config is None
            },
            PendingOp::Eval(js, callback) => awaiting == Awaiting::<P>::Script(callback) && (
            call matches BridgeCall::EvaluateScript(j) && j@ == js@),
            PendingOp::CreatePdf(path, config, callback) => awaiting == Awaiting::<P>::Pdf(callback)
                && (call matches BridgeCall::CreatePdf(written, layout) && written@ == path@
                && layout == config),
            PendingOp::Remove => awaiting is Last && call is Remove,
        },
{
    if let PendingOp::LoadUrlWithHeaders(url, headers) = op {
        if let BridgeCall::LoadUrlWithHeaders(u, pairs) = call {
            assert(text_pairs(pairs@).len() == text_pairs(headers@).len());
            assert forall|i: int| 0 <= i < headers@.len() implies (#[trigger] pairs@[i]).0@
                == headers@[i].0@ && pairs@[i].1@ == headers@[i].1@ by {
                assert(text_pairs(pairs@)[i] == text_pairs(headers@)[i]);
            }
        }
    }
}

/// What comes of the end of a call: a last call ends the operation, and is worth
/// a warning exactly where it failed; a PDF that was written is printed from the
/// path that it was written to, and one that was not is not; who asked is told
/// what came of it.
pub proof fn law_operation_goes_on<P: Platform>(awaiting: Awaiting<P>, reply: Reply, step: Step<P>)
    requires
        step@ == awaiting@.resumed(reply@),
    ensures
        match (awaiting, reply) {
            (Awaiting::Last, Reply::Done(_)) => step is Finished,
            (Awaiting::Last, Reply::Failed) => step is Failed,
            (Awaiting::PdfToPrint(path), Reply::Done(_)) => {
                &&& step matches Step::Call(call, wait)
                &&& wait is Last
                &&& call matches BridgeCall::Print(printed)
                &&& printed@ == path@
            },
            (Awaiting::PdfToPrint(_), Reply::Failed) => step is Failed,
            (Awaiting::Script(Some(callback)), Reply::Done(result)) => {
                &&& step matches Step::AnswerScript(told, text)
                &&& told == callback
                &&& result matches Some(r) ==> text@ == r@
                &&& result is None ==> text@.len() == 0
            },
            (Awaiting::Script(None), Reply::Done(_)) => step is Finished,
            (Awaiting::Script(_), Reply::Failed) => step is Failed,
            (Awaiting::Pdf(Some(callback)), Reply::Done(_)) => step == Step::<P>::AnswerPdf(
                callback,
                true,
            ),
            (Awaiting::Pdf(Some(callback)), Reply::Failed) => step == Step::<P>::AnswerPdf(
                callback,
                false,
            ),
            (Awaiting::Pdf(None), _) => step is Finished,
        },
{
}

/// An operation says what it holds: it is of its own kind, and its texts, numbers
/// and callbacks are those that it was made with.
pub proof fn law_operation_says_what_it_holds<P: Platform>(op: PendingOp<P>)
    ensures
        match op {
            PendingOp::LoadUrl(url) => op@ == Op::<P>::LoadUrl(url@),
            PendingOp::LoadUrlWithHeaders(url, headers) => {
                &&& op@ matches Op::LoadUrlWithHeaders(u, pairs)
                &&& u == url@
                &&& pairs.len() == headers@.len()
                &&& forall|i: int|
                    0 <= i < pairs.len() ==> (#[trigger] pairs[i]).0 == headers@[i].0@
                        && pairs[i].1 == headers@[i].1@
            },
            PendingOp::LoadHtml(html) => op@ == Op::<P>::LoadHtml(html@),
            PendingOp::Reload => op@ is Reload,
            PendingOp::Zoom(scale) => op@ == Op::<P>::Zoom(scale),
            PendingOp::SetBackgroundColor(color) => op@ == Op::<P>::SetBackgroundColor(color@),
            PendingOp::SetVisible(visible) => op@ == Op::<P>::SetVisible(visible),
            PendingOp::SetBounds(bounds) => op@ == Op::<P>::SetBounds(bounds),
            PendingOp::Focus => op@ is Focus,
            PendingOp::ClearAllBrowsingData => op@ is ClearAllBrowsingData,
            PendingOp::SetCookie(url, value) => op@ == Op::<P>::SetCookie(url@, value@),
            PendingOp::Print(path) => op@ == Op::<P>::Print(path@),
            PendingOp::Eval(js, callback) => op@ == Op::<P>::Eval(js@, callback),
            PendingOp::CreatePdf(path, config, callback) => op@ == Op::<P>::CreatePdf(
                path@,
                config,
                callback,
            ),
            PendingOp::Remove => op@ is Remove,
        },
{
}

} // verus!
