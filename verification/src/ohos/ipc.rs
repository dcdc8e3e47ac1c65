//! Messages from a page.

use super::uri;
use crate::text;
use vstd::prelude::*;
use vstd::string::*;

verus! {

/// A message from a page: the URI of the page, and the message itself.
pub struct IpcRequest {
    pub uri: String,
    pub body: String,
}

/// The URI from which a message comes when `url` is shown: `about:blank` where
/// there is none or where it is no URI.
pub open spec fn ipc_uri(url: Seq<char>) -> Seq<char> {
    if url.len() == 0 || !uri::uri_parses(url) {
        "about:blank"@
    } else {
        url
    }
}

/// The message among the arguments of a call: the first one.
pub open spec fn ipc_body(args: Seq<Seq<char>>) -> Seq<char> {
    if args.len() == 0 {
        Seq::empty()
    } else {
        args[0]
    }
}

/// The URI from which a message comes, where `accepted` says whether `url` is
/// one.
pub open spec fn chosen_uri(url: Seq<char>, accepted: bool) -> Seq<char> {
    if url.len() == 0 || !accepted {
        "about:blank"@
    } else {
        url
    }
}

/// The URI from which a message comes, where `accepted` says whether `url` is
/// one.
pub fn choose_ipc_uri(url: &str, accepted: bool) -> (uri: String)
    ensures
        uri@ == chosen_uri(url@, accepted),
{
    if url.is_empty() || !accepted {
        "about:blank".to_string()
    } else {
        url.to_string()
    }
}

/// The message that a page posted with `args` while `url` was shown.
pub fn ipc_request(url: &str, args: &Vec<String>) -> (request: IpcRequest)
    ensures
        request.uri@ == ipc_uri(url@),
        request.body@ == ipc_body(text::texts(args@)),
        args@.len() > 0 ==> request.body@ == args@[0]@,
        args@.len() == 0 ==> request.body@.len() == 0,
{
    let uri = choose_ipc_uri(url, uri::is_uri(url));
    let body = if args.len() > 0 {
        args[0].clone()
    } else {
        String::new()
    };
    IpcRequest { uri, body }
}

// ---------------------------------------------------------------------------
// Laws
// ---------------------------------------------------------------------------

/// The message that a page posts arrives: it is the first argument, whatever
/// else was passed, and empty only where there is no argument or the first one
/// is empty.
pub proof fn law_message_is_the_first_argument(args: Seq<String>, more: Seq<String>)
    ensures
        args.len() > 0 ==> ipc_body(text::texts(args)) == args[0]@,
        args.len() > 0 ==> ipc_body(text::texts(args + more)) == ipc_body(text::texts(args)),
        ipc_body(text::texts(args)).len() == 0 <==> args.len() == 0 || args[0]@.len() == 0,
{
}

/// A message comes from the page that is shown, where its URL is a URI, and from
/// the blank page otherwise; that does not depend on how the answer of the
/// parser is come by.
pub proof fn law_message_comes_from_the_page(url: Seq<char>)
    ensures
        url.len() > 0 && uri::uri_parses(url) ==> ipc_uri(url) == url,
        url.len() == 0 || !uri::uri_parses(url) ==> ipc_uri(url) == "about:blank"@,
        chosen_uri(url, uri::uri_parses(url)) == ipc_uri(url),
        url.len() > 0 ==> chosen_uri(url, true) == url,
        url.len() == 0 ==> chosen_uri(url, true) == "about:blank"@,
        chosen_uri(url, false) == "about:blank"@,
{
}

} // verus!
