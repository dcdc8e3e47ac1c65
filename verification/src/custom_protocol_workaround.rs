//! Custom protocols on engines that cannot register them.
//!
//! - WebView2 supports non-standard protocols only on Windows 10+.
//! - On Android there is no API for registering custom protocols.
//! - On OpenHarmony a custom protocol is no secure context.
//!
//! The process looks like this:
//!
//! 1. Use [`apply_uri_work_around`] to convert the URI we want to navigate to.
//! 2. Intercept http(s) requests and test the request URI against
//!    [`is_work_around_uri`]; if it matches, apply [`revert_uri_work_around`]
//!    to the URI and feed it to the custom protocol handler.

use crate::text;
use vstd::prelude::*;
use vstd::string::*;

verus! {

/// `{protocol}://`
pub open spec fn original_prefix(protocol: Seq<char>) -> Seq<char> {
    protocol + "://"@
}

/// `{http_or_https}://{protocol}.`
pub open spec fn work_around_prefix(http_or_https: Seq<char>, protocol: Seq<char>) -> Seq<char> {
    http_or_https + "://"@ + protocol + "."@
}

/// `uri` is a work around URI for `protocol`.
pub open spec fn work_around_uri(
    uri: Seq<char>,
    http_or_https: Seq<char>,
    protocol: Seq<char>,
) -> bool {
    text::begins_with(uri, work_around_prefix(http_or_https, protocol))
}

/// `uri` with each original prefix replaced by the work around prefix, where it
/// starts with one; any other `uri` stays as it is.
pub open spec fn applied(uri: Seq<char>, http_or_https: Seq<char>, protocol: Seq<char>) -> Seq<
    char,
> {
    if text::begins_with(uri, original_prefix(protocol)) {
        text::replace_all(
            uri,
            original_prefix(protocol),
            work_around_prefix(http_or_https, protocol),
        )
    } else {
        uri
    }
}

/// `uri` with each work around prefix replaced by the original prefix.
pub open spec fn reverted(uri: Seq<char>, http_or_https: Seq<char>, protocol: Seq<char>) -> Seq<
    char,
> {
    text::replace_all(uri, work_around_prefix(http_or_https, protocol), original_prefix(protocol))
}

/// If the URI is a work around URI for this protocol, which starts with
/// `{http_or_https}://{protocol}.`
pub fn is_work_around_uri(uri: &str, http_or_https: &str, protocol: &str) -> (found: bool)
    ensures
        found == work_around_uri(uri@, http_or_https@, protocol@),
{
    let prefix = work_around_uri_prefix(http_or_https, protocol);
    text::starts_with(uri, prefix.as_str())
}

/// Converts `{protocol}://localhost/abc` to
/// `{http_or_https}://{protocol}.localhost/abc`, and every further `{protocol}://`
/// in the URI with it. A URI that does not start with `{protocol}://` is returned
/// unchanged.
pub fn apply_uri_work_around(uri: &str, http_or_https: &str, protocol: &str) -> (worked: String)
    ensures
        worked@ == applied(uri@, http_or_https@, protocol@),
{
    let from = original_uri_prefix(protocol);
    let to = work_around_uri_prefix(http_or_https, protocol);
    proof {
        lemma_prefix_lengths(http_or_https@, protocol@);
    }
    if text::starts_with(uri, from.as_str()) {
        text::replace_text(uri, from.as_str(), to.as_str())
    } else {
        uri.to_string()
    }
}

/// Converts `{http_or_https}://{protocol}.localhost/abc` back to
/// `{protocol}://localhost/abc`. Every occurrence of
/// `{http_or_https}://{protocol}.` is converted, wherever in the URI it stands.
pub fn revert_uri_work_around(uri: &str, http_or_https: &str, protocol: &str) -> (original: String)
    ensures
        original@ == reverted(uri@, http_or_https@, protocol@),
{
    let from = work_around_uri_prefix(http_or_https, protocol);
    let to = original_uri_prefix(protocol);
    proof {
        lemma_prefix_lengths(http_or_https@, protocol@);
    }
    text::replace_text(uri, from.as_str(), to.as_str())
}

/// `{protocol}://`
pub fn original_uri_prefix(protocol: &str) -> (prefix: String)
    ensures
        prefix@ == original_prefix(protocol@),
{
    let mut prefix = protocol.to_string();
    prefix.append("://");
    prefix
}

/// `{http_or_https}://{protocol}.`
pub fn work_around_uri_prefix(http_or_https: &str, protocol: &str) -> (prefix: String)
    ensures
        prefix@ == work_around_prefix(http_or_https@, protocol@),
{
    let mut prefix = http_or_https.to_string();
    prefix.append("://");
    prefix.append(protocol);
    prefix.append(".");
    prefix
}

/// The work around prefix is longer than the original one, and neither is empty.
pub proof fn lemma_prefix_lengths(http_or_https: Seq<char>, protocol: Seq<char>)
    ensures
        original_prefix(protocol).len() == protocol.len() + 3,
        work_around_prefix(http_or_https, protocol).len() == http_or_https.len() + protocol.len()
            + 4,
{
    reveal_strlit("://");
    reveal_strlit(".");
}

// ---------------------------------------------------------------------------
// Laws
// ---------------------------------------------------------------------------

/// How the prefixes are written, character by character.
pub proof fn law_prefixes_are_written(http_or_https: Seq<char>, protocol: Seq<char>)
    ensures
        original_prefix(protocol) == protocol + seq![':', '/', '/'],
        work_around_prefix(http_or_https, protocol) == http_or_https + seq![':', '/', '/']
            + protocol + seq!['.'],
{
    reveal_strlit("://");
    reveal_strlit(".");
    assert("://"@ =~= seq![':', '/', '/']);
    assert("."@ =~= seq!['.']);
}

/// Where a URI starts with `{protocol}://`, every further `{protocol}://` is
/// converted with it, from left to right; what stands between them is kept.
pub proof fn law_further_prefixes_are_applied(
    a: Seq<char>,
    b: Seq<char>,
    http_or_https: Seq<char>,
    protocol: Seq<char>,
)
    requires
        forall|j: int|
            j < a.len() ==> !text::occurs_at(
                a + original_prefix(protocol) + b,
                original_prefix(protocol),
                j,
            ),
    ensures
        applied(
            original_prefix(protocol) + (a + original_prefix(protocol) + b),
            http_or_https,
            protocol,
        ) == work_around_prefix(http_or_https, protocol) + a + applied(
            original_prefix(protocol) + b,
            http_or_https,
            protocol,
        ),
{
    let from = original_prefix(protocol);
    let to = work_around_prefix(http_or_https, protocol);
    let none = Seq::<char>::empty();
    lemma_prefix_lengths(http_or_https, protocol);
    text::law_found_where_put(none, from, a + from + b);
    text::law_found_where_put(none, from, b);
    text::law_occurrences_are_replaced(none, from, a + from + b, to);
    text::law_occurrences_are_replaced(none, from, b, to);
    text::law_occurrences_are_replaced(a, from, b, to);
    assert(none + from + (a + from + b) =~= from + (a + from + b));
    assert(none + from + b =~= from + b);
    assert(none + to + text::replace_all(a + from + b, from, to) =~= to + a + (none + to
        + text::replace_all(b, from, to)));
}

/// On the way back every `{http_or_https}://{protocol}.` is converted, from left
/// to right; what stands between them is kept.
pub proof fn law_every_prefix_is_reverted(
    a: Seq<char>,
    b: Seq<char>,
    http_or_https: Seq<char>,
    protocol: Seq<char>,
)
    requires
        forall|j: int|
            j < a.len() ==> !text::occurs_at(
                a + work_around_prefix(http_or_https, protocol) + b,
                work_around_prefix(http_or_https, protocol),
                j,
            ),
    ensures
        reverted(
            a + work_around_prefix(http_or_https, protocol) + b,
            http_or_https,
            protocol,
        ) == a + original_prefix(protocol) + reverted(b, http_or_https, protocol),
{
    lemma_prefix_lengths(http_or_https, protocol);
    text::law_occurrences_are_replaced(
        a,
        work_around_prefix(http_or_https, protocol),
        b,
        original_prefix(protocol),
    );
}

/// Whatever host, path, query and fragment follow the prefix, a URI is a work
/// around URI for the protocol.
pub proof fn law_any_host_matches(rest: Seq<char>, http_or_https: Seq<char>, protocol: Seq<char>)
    ensures
        work_around_uri(work_around_prefix(http_or_https, protocol) + rest, http_or_https, protocol),
{
    let prefix = work_around_prefix(http_or_https, protocol);
    assert((prefix + rest).subrange(0, prefix.len() as int) =~= prefix);
}

/// A work around URI starts with its scheme: one under another scheme does not
/// match, even if its host looks right.
pub proof fn law_other_schemes_do_not_match(
    uri: Seq<char>,
    http_or_https: Seq<char>,
    protocol: Seq<char>,
)
    requires
        !text::begins_with(uri, original_prefix(http_or_https)),
    ensures
        !work_around_uri(uri, http_or_https, protocol),
{
    let scheme = original_prefix(http_or_https);
    let prefix = work_around_prefix(http_or_https, protocol);
    if work_around_uri(uri, http_or_https, protocol) {
        assert(prefix.subrange(0, scheme.len() as int) =~= scheme);
        assert(uri.subrange(0, scheme.len() as int) =~= uri.subrange(
            0,
            prefix.len() as int,
        ).subrange(0, scheme.len() as int));
    }
}

/// Converting a URI that starts with `{protocol}://` gives a work around URI
/// for the protocol.
pub proof fn law_applied_is_work_around_uri(
    uri: Seq<char>,
    http_or_https: Seq<char>,
    protocol: Seq<char>,
)
    requires
        text::begins_with(uri, original_prefix(protocol)),
    ensures
        work_around_uri(applied(uri, http_or_https, protocol), http_or_https, protocol),
{
    lemma_prefix_lengths(http_or_https, protocol);
    lemma_replaced_prefix(
        uri,
        original_prefix(protocol),
        work_around_prefix(http_or_https, protocol),
    );
}

/// Converting a work around URI for the protocol back gives a URI that starts
/// with `{protocol}://`.
pub proof fn law_reverted_starts_with_protocol(
    uri: Seq<char>,
    http_or_https: Seq<char>,
    protocol: Seq<char>,
)
    requires
        work_around_uri(uri, http_or_https, protocol),
    ensures
        text::begins_with(reverted(uri, http_or_https, protocol), original_prefix(protocol)),
{
    lemma_prefix_lengths(http_or_https, protocol);
    lemma_replaced_prefix(
        uri,
        work_around_prefix(http_or_https, protocol),
        original_prefix(protocol),
    );
}

/// Only the prefix of `{protocol}://{rest}` changes when nothing else in the
/// URI looks like one: host, path, query and fragment are kept.
pub proof fn law_applied_keeps_the_rest(
    rest: Seq<char>,
    http_or_https: Seq<char>,
    protocol: Seq<char>,
)
    requires
        !text::has_within(rest, original_prefix(protocol)),
    ensures
        applied(original_prefix(protocol) + rest, http_or_https, protocol) == work_around_prefix(
            http_or_https,
            protocol,
        ) + rest,
{
    let prefix = original_prefix(protocol);
    lemma_prefix_lengths(http_or_https, protocol);
    assert((prefix + rest).subrange(0, prefix.len() as int) =~= prefix);
    lemma_replaced_once(rest, prefix, work_around_prefix(http_or_https, protocol));
}

/// Only the prefix of `{http_or_https}://{protocol}.{rest}` changes on the way
/// back when nothing else in the URI looks like one.
pub proof fn law_reverted_keeps_the_rest(
    rest: Seq<char>,
    http_or_https: Seq<char>,
    protocol: Seq<char>,
)
    requires
        !text::has_within(rest, work_around_prefix(http_or_https, protocol)),
    ensures
        reverted(work_around_prefix(http_or_https, protocol) + rest, http_or_https, protocol)
            == original_prefix(protocol) + rest,
{
    lemma_prefix_lengths(http_or_https, protocol);
    lemma_replaced_once(
        rest,
        work_around_prefix(http_or_https, protocol),
        original_prefix(protocol),
    );
}

/// A URI is returned unchanged exactly when it does not start with
/// `{protocol}://`.
pub proof fn law_applied_is_noop_without_prefix(
    uri: Seq<char>,
    http_or_https: Seq<char>,
    protocol: Seq<char>,
)
    ensures
        applied(uri, http_or_https, protocol) == uri <==> !text::begins_with(
            uri,
            original_prefix(protocol),
        ),
{
    lemma_prefix_lengths(http_or_https, protocol);
    if text::begins_with(uri, original_prefix(protocol)) {
        lemma_noop(uri, original_prefix(protocol), work_around_prefix(http_or_https, protocol));
    }
}

/// On the way back a URI is returned unchanged exactly when
/// `{http_or_https}://{protocol}.` does not occur in it.
pub proof fn law_reverted_is_noop_without_prefix(
    uri: Seq<char>,
    http_or_https: Seq<char>,
    protocol: Seq<char>,
)
    ensures
        reverted(uri, http_or_https, protocol) == uri <==> !text::has_within(
            uri,
            work_around_prefix(http_or_https, protocol),
        ),
{
    lemma_prefix_lengths(http_or_https, protocol);
    lemma_noop(uri, work_around_prefix(http_or_https, protocol), original_prefix(protocol));
}

/// Reverting undoes applying exactly when the work around prefixes of the
/// converted URI are the ones that the conversion put there: where the URI starts
/// with `{protocol}://`, the converted one splits at them into the pieces that
/// the URI splits into at `{protocol}://`, and otherwise there are none.
pub proof fn law_revert_undoes_apply_iff(
    uri: Seq<char>,
    http_or_https: Seq<char>,
    protocol: Seq<char>,
)
    ensures
        reverted(applied(uri, http_or_https, protocol), http_or_https, protocol) == uri
            <==> if text::begins_with(uri, original_prefix(protocol)) {
            text::split(
                applied(uri, http_or_https, protocol),
                work_around_prefix(http_or_https, protocol),
            ) == text::split(uri, original_prefix(protocol))
        } else {
            !text::has_within(uri, work_around_prefix(http_or_https, protocol))
        },
{
    let from = original_prefix(protocol);
    let to = work_around_prefix(http_or_https, protocol);
    lemma_prefix_lengths(http_or_https, protocol);
    if text::begins_with(uri, from) {
        lemma_round_trip_iff(uri, from, to);
    } else {
        lemma_noop(uri, to, from);
    }
}

/// Applying undoes reverting exactly when the original prefixes of the
/// reverted URI are the ones that reverting put there, where it starts with one;
/// and otherwise when there was nothing to revert.
pub proof fn law_apply_undoes_revert_iff(
    uri: Seq<char>,
    http_or_https: Seq<char>,
    protocol: Seq<char>,
)
    ensures
        applied(reverted(uri, http_or_https, protocol), http_or_https, protocol) == uri
            <==> if text::begins_with(
            reverted(uri, http_or_https, protocol),
            original_prefix(protocol),
        ) {
            text::split(reverted(uri, http_or_https, protocol), original_prefix(protocol))
                == text::split(uri, work_around_prefix(http_or_https, protocol))
        } else {
            !text::has_within(uri, work_around_prefix(http_or_https, protocol))
        },
{
    let from = work_around_prefix(http_or_https, protocol);
    let to = original_prefix(protocol);
    lemma_prefix_lengths(http_or_https, protocol);
    if text::begins_with(reverted(uri, http_or_https, protocol), to) {
        lemma_round_trip_iff(uri, from, to);
    } else {
        lemma_noop(uri, from, to);
    }
}

/// Reverting undoes applying on every URI that holds no work around prefix of
/// its own, for every scheme without `:` and `.` and every protocol without
/// `:`.
pub proof fn law_revert_undoes_apply(
    uri: Seq<char>,
    http_or_https: Seq<char>,
    protocol: Seq<char>,
)
    requires
        !http_or_https.contains(':'),
        !http_or_https.contains('.'),
        !protocol.contains(':'),
        !text::has_within(uri, work_around_prefix(http_or_https, protocol)),
    ensures
        reverted(applied(uri, http_or_https, protocol), http_or_https, protocol) == uri,
{
    let from = original_prefix(protocol);
    let to = work_around_prefix(http_or_https, protocol);
    lemma_prefix_lengths(http_or_https, protocol);
    if text::begins_with(uri, from) {
        lemma_work_around_prefix_borderless(http_or_https, protocol);
        lemma_round_trip(uri, from, to);
    } else {
        lemma_noop(uri, to, from);
    }
}

/// Applying undoes reverting on every URI that starts with a work around prefix
/// or holds none, and that holds no `{protocol}://` of its own, for every
/// protocol without `:` and `/`.
pub proof fn law_apply_undoes_revert(
    uri: Seq<char>,
    http_or_https: Seq<char>,
    protocol: Seq<char>,
)
    requires
        !protocol.contains(':'),
        !protocol.contains('/'),
        !text::has_within(uri, original_prefix(protocol)),
        work_around_uri(uri, http_or_https, protocol) || !text::has_within(
            uri,
            work_around_prefix(http_or_https, protocol),
        ),
    ensures
        applied(reverted(uri, http_or_https, protocol), http_or_https, protocol) == uri,
{
    let from = work_around_prefix(http_or_https, protocol);
    let to = original_prefix(protocol);
    lemma_prefix_lengths(http_or_https, protocol);
    if work_around_uri(uri, http_or_https, protocol) {
        law_reverted_starts_with_protocol(uri, http_or_https, protocol);
        lemma_original_prefix_borderless(protocol);
        lemma_round_trip(uri, from, to);
    } else {
        lemma_noop(uri, from, to);
        assert(!text::occurs_at(uri, to, 0));
    }
}

/// Only one original prefix can match a URI: where those of two different
/// protocols do, one protocol starts with the other's prefix.
pub proof fn law_one_original_prefix_matches(uri: Seq<char>, p: Seq<char>, q: Seq<char>)
    requires
        text::begins_with(uri, original_prefix(p)),
        text::begins_with(uri, original_prefix(q)),
        !text::begins_with(p, original_prefix(q)),
        !text::begins_with(q, original_prefix(p)),
    ensures
        p == q,
{
    lemma_original_prefixes_agree(uri, p, q);
    lemma_original_prefixes_agree(uri, q, p);
    assert(p =~= q);
}

/// A work around URI belongs to one protocol only: where it is one for two
/// different protocols, one protocol starts with the other and a dot.
pub proof fn law_one_work_around_protocol(
    uri: Seq<char>,
    http_or_https: Seq<char>,
    p: Seq<char>,
    q: Seq<char>,
)
    requires
        work_around_uri(uri, http_or_https, p),
        work_around_uri(uri, http_or_https, q),
        !text::begins_with(p, q + "."@),
        !text::begins_with(q, p + "."@),
    ensures
        p == q,
{
    lemma_work_around_prefixes_agree(uri, http_or_https, p, q);
    lemma_work_around_prefixes_agree(uri, http_or_https, q, p);
    assert(p =~= q);
}

// ---------------------------------------------------------------------------
// Replacing and putting back
// ---------------------------------------------------------------------------

/// Text that begins with what is replaced then begins with the replacement.
proof fn lemma_replaced_prefix(s: Seq<char>, from: Seq<char>, to: Seq<char>)
    requires
        from.len() > 0,
        text::begins_with(s, from),
    ensures
        text::begins_with(text::replace_all(s, from, to), to),
{
    let tail = s.skip(from.len() as int);
    text::lemma_split_first(tail, from);
    text::lemma_join_first(Seq::empty(), text::split(tail, from), to);
    let replaced = text::replace_all(s, from, to);
    assert(replaced == Seq::<char>::empty() + to + text::join(text::split(tail, from), to));
    assert(replaced.subrange(0, to.len() as int) =~= to);
}

/// Replacing a prefix that does not occur again.
proof fn lemma_replaced_once(rest: Seq<char>, from: Seq<char>, to: Seq<char>)
    requires
        from.len() > 0,
        !text::has_within(rest, from),
    ensures
        text::replace_all(from + rest, from, to) == to + rest,
{
    let s = from + rest;
    assert(s.subrange(0, from.len() as int) =~= from);
    assert(s.skip(from.len() as int) =~= rest);
    text::lemma_split_none(rest, from);
    text::lemma_join_first(Seq::empty(), seq![rest], to);
    assert(Seq::<char>::empty() + to + rest =~= to + rest);
}

/// Replacing by something of another length changes exactly the text that
/// holds what is replaced.
proof fn lemma_noop(s: Seq<char>, from: Seq<char>, to: Seq<char>)
    requires
        from.len() > 0,
        from.len() != to.len(),
    ensures
        text::replace_all(s, from, to) == s <==> !text::has_within(s, from),
{
    text::lemma_split_first(s, from);
    let parts = text::split(s, from);
    if parts.len() == 1 {
        assert(text::join(parts, to) == s);
    } else {
        assert(text::occurs_at(s, from, parts[0].len() as int));
        text::lemma_join_split(s, from);
        lemma_join_length(parts, from, to);
        assert((parts.len() - 1) * (to.len() - from.len()) != 0) by (nonlinear_arith)
            requires
                parts.len() > 1,
                to.len() != from.len(),
        ;
    }
}

/// How the length of a join depends on the separator.
proof fn lemma_join_length(parts: Seq<Seq<char>>, a: Seq<char>, b: Seq<char>)
    requires
        parts.len() > 0,
    ensures
        text::join(parts, b).len() - text::join(parts, a).len() == (parts.len() - 1) * (b.len()
            - a.len()),
    decreases parts.len(),
{
    if parts.len() > 1 {
        lemma_join_length(parts.skip(1), a, b);
        let n = parts.len() - 1;
        let d = b.len() - a.len();
        assert(n * d == (n - 1) * d + d) by (nonlinear_arith);
    } else {
        let d = b.len() - a.len();
        assert(0 * d == 0);
    }
}

/// Putting `from` back for `to` undoes the replacement exactly when `to` is
/// found where it was put.
proof fn lemma_round_trip_iff(s: Seq<char>, from: Seq<char>, to: Seq<char>)
    requires
        from.len() > 0,
        to.len() > 0,
    ensures
        text::replace_all(text::replace_all(s, from, to), to, from) == s <==> text::split(
            text::replace_all(s, from, to),
            to,
        ) == text::split(s, from),
{
    let w = text::replace_all(s, from, to);
    text::lemma_join_split(s, from);
    if text::replace_all(w, to, from) == s {
        lemma_same_pieces(s, w, from, to);
    }
}

/// Where replacing in each direction turns `s` and `w` into each other, both
/// split into the same pieces.
proof fn lemma_same_pieces(s: Seq<char>, w: Seq<char>, from: Seq<char>, to: Seq<char>)
    requires
        from.len() > 0,
        to.len() > 0,
        text::replace_all(s, from, to) == w,
        text::replace_all(w, to, from) == s,
    ensures
        text::split(w, to) == text::split(s, from),
    decreases s.len(),
{
    let q = text::split(s, from);
    let p = text::split(w, to);
    text::lemma_split_first(s, from);
    text::lemma_split_first(w, to);
    if q.len() > 1 {
        let k = q[0].len() as int;
        let s1 = s.skip(k + from.len());
        text::lemma_split_first(s1, from);
        text::lemma_join_first(q[0], text::split(s1, from), to);
        assert(w == q[0] + to + text::replace_all(s1, from, to));
        assert(w.subrange(k, k + to.len()) =~= to);
        assert(text::occurs_at(w, to, k));
    }
    if p.len() > 1 {
        let k = p[0].len() as int;
        let w1 = w.skip(k + to.len());
        text::lemma_split_first(w1, to);
        text::lemma_join_first(p[0], text::split(w1, to), from);
        assert(s == p[0] + from + text::replace_all(w1, to, from));
        assert(s.subrange(k, k + from.len()) =~= from);
        assert(text::occurs_at(s, from, k));
    }
    if q.len() > 1 && p.len() > 1 {
        let k = q[0].len() as int;
        if p[0].len() < k {
            assert(!text::occurs_at(s, from, p[0].len() as int));
        }
        if k < p[0].len() {
            assert(!text::occurs_at(w, to, k));
        }
        assert(p[0].len() == k);
        let s1 = s.skip(k + from.len());
        let w1 = w.skip(k + to.len());
        assert(w1 =~= text::replace_all(s1, from, to));
        assert(s1 =~= text::replace_all(w1, to, from));
        assert(q[0] =~= p[0]) by {
            assert(q[0] =~= s.take(k));
            assert(p[0] =~= s.take(k));
        }
        lemma_same_pieces(s1, w1, from, to);
    }
    assert(p =~= q);
}

/// No proper prefix of `s` is a suffix of it.
spec fn borderless(s: Seq<char>) -> bool {
    forall|m: int| 0 < m < s.len() ==> s.subrange(0, m) != #[trigger] s.subrange(
        s.len() - m,
        s.len() as int,
    )
}

/// Putting `from` back for a borderless `to` that the text did not hold
/// undoes the replacement.
proof fn lemma_round_trip(s: Seq<char>, from: Seq<char>, to: Seq<char>)
    requires
        from.len() > 0,
        to.len() > 0,
        borderless(to),
        !text::has_within(s, to),
    ensures
        text::replace_all(text::replace_all(s, from, to), to, from) == s,
{
    lemma_split_finds_inserted(s, from, to);
    lemma_round_trip_iff(s, from, to);
}

proof fn lemma_split_finds_inserted(s: Seq<char>, from: Seq<char>, to: Seq<char>)
    requires
        from.len() > 0,
        to.len() > 0,
        borderless(to),
        !text::has_within(s, to),
    ensures
        text::split(text::replace_all(s, from, to), to) == text::split(s, from),
    decreases s.len(),
{
    let q = text::split(s, from);
    let w = text::replace_all(s, from, to);
    text::lemma_split_first(s, from);
    if q.len() == 1 {
        assert(w == s);
        text::lemma_split_none(s, to);
        assert(q =~= seq![s]);
    } else {
        let k = q[0].len() as int;
        let s1 = s.skip(k + from.len());
        let w1 = text::replace_all(s1, from, to);
        assert forall|j: int| !text::occurs_at(s1, to, j) by {
            if text::occurs_at(s1, to, j) {
                let at = k + from.len() + j;
                assert(s1.subrange(j, j + to.len()) =~= s.subrange(at, at + to.len()));
                assert(text::occurs_at(s, to, at));
            }
        }
        lemma_split_finds_inserted(s1, from, to);
        text::lemma_split_first(s1, from);
        text::lemma_join_first(q[0], text::split(s1, from), to);
        assert(w == q[0] + to + w1);
        assert(w.subrange(k, k + to.len()) =~= to);
        assert forall|j: int| j < k implies !text::occurs_at(w, to, j) by {
            if text::occurs_at(w, to, j) {
                if j + to.len() <= k {
                    assert(w.subrange(j, j + to.len()) =~= s.subrange(j, j + to.len()));
                    assert(text::occurs_at(s, to, j));
                } else {
                    let m = j + to.len() - k;
                    assert(to.subrange(0, m) =~= w.subrange(k, k + m));
                    assert(to.subrange(to.len() - m, to.len() as int) =~= w.subrange(k, k + m)) by {
                        let there = w.subrange(j, j + to.len());
                        assert(there == to);
                        assert(there.subrange(to.len() - m, to.len() as int) =~= w.subrange(
                            k,
                            k + m,
                        ));
                    }
                }
            }
        }
        text::lemma_split_at_first(w, to, k);
        assert(w.take(k) =~= q[0]);
        assert(w.skip(k + to.len()) =~= w1);
    }
}

proof fn lemma_work_around_prefix_borderless(http_or_https: Seq<char>, protocol: Seq<char>)
    requires
        !http_or_https.contains(':'),
        !http_or_https.contains('.'),
        !protocol.contains(':'),
    ensures
        borderless(work_around_prefix(http_or_https, protocol)),
{
    reveal_strlit("://");
    reveal_strlit(".");
    let s = work_around_prefix(http_or_https, protocol);
    let h = http_or_https.len() as int;
    assert(s[h] == ':');
    assert forall|m: int| 0 < m < s.len() implies s.subrange(0, m) != #[trigger] s.subrange(
        s.len() - m,
        s.len() as int,
    ) by {
        let head = s.subrange(0, m);
        let tail = s.subrange(s.len() - m, s.len() as int);
        if head == tail {
            if m <= h {
                assert(head[m - 1] == http_or_https[m - 1]);
                assert(tail[m - 1] == '.');
                assert(http_or_https.contains('.'));
            } else {
                let at = s.len() - m + h;
                assert(head[h] == ':');
                assert(tail[h] == s[at]);
                if at >= h + 3 && at < h + 3 + protocol.len() {
                    assert(s[at] == protocol[at - h - 3]);
                    assert(protocol.contains(':'));
                }
            }
        }
    }
}

proof fn lemma_original_prefix_borderless(protocol: Seq<char>)
    requires
        !protocol.contains(':'),
        !protocol.contains('/'),
    ensures
        borderless(original_prefix(protocol)),
{
    reveal_strlit("://");
    let s = original_prefix(protocol);
    let n = protocol.len() as int;
    assert(s[n] == ':' && s[n + 1] == '/' && s[n + 2] == '/');
    assert forall|m: int| 0 < m < s.len() implies s.subrange(0, m) != #[trigger] s.subrange(
        s.len() - m,
        s.len() as int,
    ) by {
        let head = s.subrange(0, m);
        let tail = s.subrange(s.len() - m, s.len() as int);
        if head == tail {
            assert(tail[m - 1] == '/');
            assert(head[m - 1] == s[m - 1]);
            if m <= n {
                assert(s[m - 1] == protocol[m - 1]);
                assert(protocol.contains('/'));
            } else if m == n + 2 {
                assert(head[n] == ':');
                assert(tail[n] == s[n + 1]);
            }
        }
    }
}

/// Where the original prefixes of both protocols match, the one that is not
/// started by the other's prefix is no longer than the other.
proof fn lemma_original_prefixes_agree(uri: Seq<char>, p: Seq<char>, q: Seq<char>)
    requires
        text::begins_with(uri, original_prefix(p)),
        text::begins_with(uri, original_prefix(q)),
        !text::begins_with(p, original_prefix(q)),
    ensures
        p.len() <= q.len(),
        forall|i: int| 0 <= i < p.len() ==> p[i] == #[trigger] q[i],
{
    reveal_strlit("://");
    let a = original_prefix(p);
    let b = original_prefix(q);
    assert forall|i: int| 0 <= i < a.len() implies #[trigger] a[i] == uri[i] by {
        assert(uri.subrange(0, a.len() as int)[i] == uri[i]);
    }
    assert forall|i: int| 0 <= i < b.len() implies #[trigger] b[i] == uri[i] by {
        assert(uri.subrange(0, b.len() as int)[i] == uri[i]);
    }
    let n = q.len() as int;
    if p.len() > n {
        assert(b[n] == ':' && b[n + 1] == '/' && b[n + 2] == '/');
        assert(a[n] == ':' && a[n + 1] == '/' && a[n + 2] == '/');
        let m = p.len() as int;
        assert(a[m] == ':' && a[m + 1] == '/' && a[m + 2] == '/');
        assert(p.len() >= n + 3);
        assert(p.subrange(0, b.len() as int) =~= b) by {
            assert forall|i: int| 0 <= i < b.len() implies p[i] == b[i] by {
                assert(a[i] == p[i]);
            }
        }
    } else {
        assert forall|i: int| 0 <= i < p.len() implies p[i] == #[trigger] q[i] by {
            assert(a[i] == p[i]);
            assert(b[i] == q[i]);
        }
    }
}

/// Where a URI is a work around URI for both protocols, the one that is not
/// started by the other and a dot is no longer than the other.
proof fn lemma_work_around_prefixes_agree(
    uri: Seq<char>,
    http_or_https: Seq<char>,
    p: Seq<char>,
    q: Seq<char>,
)
    requires
        work_around_uri(uri, http_or_https, p),
        work_around_uri(uri, http_or_https, q),
        !text::begins_with(p, q + "."@),
    ensures
        p.len() <= q.len(),
        forall|i: int| 0 <= i < p.len() ==> p[i] == #[trigger] q[i],
{
    reveal_strlit("://");
    reveal_strlit(".");
    let a = work_around_prefix(http_or_https, p);
    let b = work_around_prefix(http_or_https, q);
    let h = http_or_https.len() + 3;
    assert forall|i: int| 0 <= i < a.len() implies #[trigger] a[i] == uri[i] by {
        assert(uri.subrange(0, a.len() as int)[i] == uri[i]);
    }
    assert forall|i: int| 0 <= i < b.len() implies #[trigger] b[i] == uri[i] by {
        assert(uri.subrange(0, b.len() as int)[i] == uri[i]);
    }
    if p.len() > q.len() {
        let head = q + "."@;
        assert(p.subrange(0, head.len() as int) =~= head) by {
            assert forall|i: int| 0 <= i < head.len() implies p[i] == head[i] by {
                assert(a[h + i] == p[i]);
                assert(b[h + i] == head[i]);
            }
        }
    } else {
        assert forall|i: int| 0 <= i < p.len() implies p[i] == #[trigger] q[i] by {
            assert(a[h + i] == p[i]);
            assert(b[h + i] == q[i]);
        }
    }
}

} // verus!
