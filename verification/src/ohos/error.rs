//! Errors.

use vstd::prelude::*;

verus! {

/// Why a request to a webview failed.
#[derive(Debug)]
pub enum Error {
    /// The webview could not be set up.
    OpenHarmonyInitError(String),
    /// The webview could not do what was asked.
    OpenHarmonyWebviewError(String),
}

/// What an [`Error`] says.
pub enum ErrorText {
    Init(Seq<char>),
    Webview(Seq<char>),
}

impl View for Error {
    type V = ErrorText;

    open spec fn view(&self) -> ErrorText {
        match self {
            Error::OpenHarmonyInitError(message) => ErrorText::Init(message@),
            Error::OpenHarmonyWebviewError(message) => ErrorText::Webview(message@),
        }
    }
}

} // verus!
