//! URIs as the `http` crate understands them.

use vstd::prelude::*;

verus! {

/// Whether `http::Uri` accepts a text.
pub uninterp spec fn uri_parses(text: Seq<char>) -> bool;

/// Whether a text is a URI.
///
/// Calls `http::Uri::from_str` (through `str::parse`) and keeps whether it
/// succeeded, which is named `uri_parses`. The claim is that this depends on
/// the text alone, and that the empty text is refused. Which other texts are
/// URIs is left unsaid.
#[verifier::external_body]
pub(crate) fn is_uri(text: &str) -> (accepted: bool)
    ensures
        accepted == uri_parses(text@),
        text@.len() == 0 ==> !accepted,
{
    text.parse::<http::Uri>().is_ok()
}

} // verus!
