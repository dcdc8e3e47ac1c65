//! Cookies: how they are written for the platform and read back from it.

use super::error::{Error, ErrorText};
use crate::text;
use vstd::prelude::*;
use vstd::string::*;

verus! {

/// The `SameSite` attribute of a cookie.
#[derive(Debug, Clone, Copy, PartialEq, Eq, Structural)]
pub enum SameSite {
    Strict,
    Lax,
    /// Written `None`: the cookie goes along with every request.
    Unrestricted,
}

/// A cookie. A leading dot of the domain is left out.
#[derive(Debug)]
pub struct Cookie {
    pub name: String,
    pub value: String,
    pub domain: Option<String>,
    pub path: Option<String>,
    pub secure: Option<bool>,
    pub http_only: Option<bool>,
    pub same_site: Option<SameSite>,
}

/// What a [`Cookie`] says.
pub struct CookieText {
    pub name: Seq<char>,
    pub value: Seq<char>,
    pub domain: Option<Seq<char>>,
    pub path: Option<Seq<char>>,
    pub secure: Option<bool>,
    pub http_only: Option<bool>,
    pub same_site: Option<SameSite>,
}

/// The text of an optional string.
pub open spec fn optional_text(string: Option<String>) -> Option<Seq<char>> {
    match string {
        Some(s) => Some(s@),
        None => None,
    }
}

impl View for Cookie {
    type V = CookieText;

    open spec fn view(&self) -> CookieText {
        CookieText {
            name: self.name@,
            value: self.value@,
            domain: optional_text(self.domain),
            path: optional_text(self.path),
            secure: self.secure,
            http_only: self.http_only,
            same_site: self.same_site,
        }
    }
}

/// What the cookies of a list say.
pub open spec fn cookie_texts(cookies: Seq<Cookie>) -> Seq<CookieText> {
    Seq::new(cookies.len(), |i: int| cookies[i]@)
}

// ---------------------------------------------------------------------------
// Writing
// ---------------------------------------------------------------------------

impl SameSite {
    /// How the attribute is written.
    pub open spec fn written(self) -> Seq<char> {
        match self {
            SameSite::Strict => "Strict"@,
            SameSite::Lax => "Lax"@,
            SameSite::Unrestricted => "None"@,
        }
    }

    /// How the attribute is written.
    pub fn as_text(self) -> (text: &'static str)
        ensures
            text@ == self.written(),
    {
        match self {
            SameSite::Strict => "Strict",
            SameSite::Lax => "Lax",
            SameSite::Unrestricted => "None",
        }
    }
}

/// `; {key}={value}` where there is a value, and nothing otherwise.
pub open spec fn attribute(key: Seq<char>, value: Option<Seq<char>>) -> Seq<char> {
    match value {
        Some(v) => key + v,
        None => Seq::empty(),
    }
}

/// `key` where the flag is set to true, and nothing otherwise.
pub open spec fn flag(key: Seq<char>, set: Option<bool>) -> Seq<char> {
    if set == Some(true) {
        key
    } else {
        Seq::empty()
    }
}

/// The value of a `Set-Cookie` header for a cookie: `{name}={value}`, then the
/// attributes that it has.
pub open spec fn set_cookie_value(cookie: CookieText) -> Seq<char> {
    cookie.name + "="@ + cookie.value + attribute("; Domain="@, cookie.domain) + attribute(
        "; Path="@,
        cookie.path,
    ) + flag("; Secure"@, cookie.secure) + flag("; HttpOnly"@, cookie.http_only) + attribute(
        "; SameSite="@,
        match cookie.same_site {
            Some(same_site) => Some(same_site.written()),
            None => None,
        },
    )
}

/// Formats a cookie as a `Set-Cookie` value string (RFC 6265).
pub fn format_set_cookie_value(cookie: &Cookie) -> (value: String)
    ensures
        value@ == set_cookie_value(cookie@),
{
    let mut value = cookie.name.clone();
    value.append("=");
    value.append(cookie.value.as_str());
    let ghost pair = value@;
    if let Some(domain) = &cookie.domain {
        value.append("; Domain=");
        value.append(domain.as_str());
    }
    assert(value@ =~= pair + attribute("; Domain="@, cookie@.domain));
    let ghost with_domain = value@;
    if let Some(path) = &cookie.path {
        value.append("; Path=");
        value.append(path.as_str());
    }
    assert(value@ =~= with_domain + attribute("; Path="@, cookie@.path));
    let ghost with_path = value@;
    if let Some(true) = cookie.secure {
        value.append("; Secure");
    }
    assert(value@ =~= with_path + flag("; Secure"@, cookie@.secure));
    let ghost with_secure = value@;
    if let Some(true) = cookie.http_only {
        value.append("; HttpOnly");
    }
    assert(value@ =~= with_secure + flag("; HttpOnly"@, cookie@.http_only));
    let ghost with_http_only = value@;
    if let Some(same_site) = cookie.same_site {
        value.append("; SameSite=");
        value.append(same_site.as_text());
    }
    assert(value@ =~= with_http_only + attribute(
        "; SameSite="@,
        match cookie@.same_site {
            Some(same_site) => Some(same_site.written()),
            None => None,
        },
    ));
    value
}

/// The URL for which a cookie is set: that of its domain, or else the current
/// one; there is none where both are missing.
pub open spec fn set_cookie_url(domain: Option<Seq<char>>, current_url: Seq<char>) -> Option<
    Seq<char>,
> {
    if domain is Some && domain->0.len() > 0 {
        Some("https://"@ + text::trim_start_char(domain->0, '.'))
    } else if current_url.len() > 0 {
        Some(current_url)
    } else {
        None
    }
}

/// The URL for which `cookie` is set while `current_url` is shown.
pub fn cookie_target_url(cookie: &Cookie, current_url: &str) -> (url: Option<String>)
    ensures
        optional_text(url) == set_cookie_url(cookie@.domain, current_url@),
{
    if let Some(domain) = &cookie.domain {
        if !domain.as_str().is_empty() {
            let mut url = "https://".to_string();
            url.append(text::trim_start_char_text(domain.as_str(), '.'));
            return Some(url);
        }
    }
    if !current_url.is_empty() {
        Some(current_url.to_string())
    } else {
        None
    }
}

// ---------------------------------------------------------------------------
// Reading
// ---------------------------------------------------------------------------

/// A cookie of a name and a value alone.
pub open spec fn bare_cookie(name: Seq<char>, value: Seq<char>) -> CookieText {
    CookieText {
        name,
        value,
        domain: None,
        path: None,
        secure: None,
        http_only: None,
        same_site: None,
    }
}

/// The cookie that `{name}={value}` stands for: the first `=` parts the two,
/// and white space around them is left out. There is none without a `=` or
/// with an empty name.
pub open spec fn cookie_of_pair(pair: Seq<char>) -> Option<CookieText> {
    let at = text::find_char(pair, '=');
    if at == pair.len() || text::trim(pair.take(at)).len() == 0 {
        None
    } else {
        Some(bare_cookie(text::trim(pair.take(at)), text::trim(pair.skip(at + 1))))
    }
}

/// Parses a cookie without attributes.
///
/// Calls `cookie::Cookie::parse`. The claim is that on text without `;` it
/// fails exactly where there is no `=` or where nothing but white space stands
/// before the first one, and that the cookie otherwise has what stands before
/// and after it, trimmed, for name and value, and no attribute.
#[verifier::external_body]
pub(crate) fn parse_cookie(pair: &str) -> (cookie: Option<Cookie>)
    requires
        !pair@.contains(';'),
    ensures
        match cookie {
            Some(c) => cookie_of_pair(pair@) == Some(c@),
            None => cookie_of_pair(pair@) is None,
        },
{
    let c = cookie::Cookie::parse(pair.to_string()).ok()?;
    Some(Cookie {
        name: c.name().to_string(),
        value: c.value().to_string(),
        domain: c.domain().map(String::from),
        path: c.path().map(String::from),
        secure: c.secure(),
        http_only: c.http_only(),
        same_site: match c.same_site() {
            Some(cookie::SameSite::Strict) => Some(SameSite::Strict),
            Some(cookie::SameSite::Lax) => Some(SameSite::Lax),
            Some(cookie::SameSite::None) => Some(SameSite::Unrestricted),
            None => None,
        },
    })
}

/// The cookie that a part of a cookie string stands for, if any.
pub open spec fn cookie_of_part(part: Seq<char>) -> Option<CookieText> {
    if text::trim(part).len() == 0 {
        None
    } else {
        cookie_of_pair(text::trim(part))
    }
}

/// The cookies that the parts stand for, in their order; a part that stands
/// for none is left out.
pub open spec fn cookies_of_parts(parts: Seq<Seq<char>>) -> Seq<CookieText>
    decreases parts.len(),
{
    if parts.len() == 0 {
        Seq::empty()
    } else {
        match cookie_of_part(parts.last()) {
            Some(cookie) => cookies_of_parts(parts.drop_last()).push(cookie),
            None => cookies_of_parts(parts.drop_last()),
        }
    }
}

/// The cookies of a cookie string, whose parts are parted by `;`.
pub open spec fn cookies_in(cookie_string: Seq<char>) -> Seq<CookieText> {
    cookies_of_parts(text::split(cookie_string, seq![';']))
}

/// Parses a cookie string.
pub fn parse_cookie_string(cookie_string: &str) -> (cookies: Vec<Cookie>)
    ensures
        cookie_texts(cookies@) == cookies_in(cookie_string@),
{
    proof {
        reveal_strlit(";");
        assert(";"@ =~= seq![';']);
    }
    let parts = text::split_text(cookie_string, ";");
    let ghost all = text::texts(parts@);
    let mut cookies: Vec<Cookie> = Vec::new();
    let mut i: usize = 0;
    assert(cookie_texts(cookies@) =~= cookies_of_parts(all.take(0)));
    while i < parts.len()
        invariant
            i <= parts.len(),
            all == text::texts(parts@),
            all == text::split(cookie_string@, seq![';']),
            cookie_texts(cookies@) == cookies_of_parts(all.take(i as int)),
        decreases parts.len() - i,
    {
        let part = text::trim_text(parts[i].as_str());
        proof {
            text::lemma_split_char_pieces(cookie_string@, ';', i as int);
            text::lemma_trim_brings_nothing(all[i as int], ';');
            assert(all.take(i + 1).drop_last() =~= all.take(i as int));
            assert(all.take(i + 1).last() == parts@[i as int]@);
        }
        let ghost before = cookies@;
        if !part.is_empty() {
            if let Some(cookie) = parse_cookie(part) {
                cookies.push(cookie);
                assert(cookie_texts(cookies@) =~= cookie_texts(before).push(cookie@));
            }
        }
        i = i + 1;
    }
    assert(all.take(i as int) =~= all);
    cookies
}

/// How a request for cookies ended.
pub enum CookieReply {
    /// With a cookie string.
    Text(String),
    /// With a failure.
    Failed,
    /// It did not end in time.
    TimedOut,
}

/// The error for a request for cookies that did not end in time.
pub open spec fn cookies_timed_out() -> ErrorText {
    ErrorText::Webview("cookies_for_url timed out"@)
}

/// The cookies that a reply brings. A failed request brings none.
pub fn cookies_received(reply: CookieReply) -> (received: Result<Vec<Cookie>, Error>)
    ensures
        match (reply, received) {
            (CookieReply::Text(text), Ok(cookies)) => cookie_texts(cookies@) == cookies_in(text@),
            (CookieReply::Failed, Ok(cookies)) => cookies@.len() == 0,
            (CookieReply::TimedOut, Err(error)) => error@ == cookies_timed_out(),
            _ => false,
        },
{
    match reply {
        CookieReply::Text(text) => Ok(parse_cookie_string(text.as_str())),
        CookieReply::Failed => Ok(Vec::new()),
        CookieReply::TimedOut => Err(
            Error::OpenHarmonyWebviewError("cookies_for_url timed out".to_string()),
        ),
    }
}

// ---------------------------------------------------------------------------
// Laws
// ---------------------------------------------------------------------------

/// A cookie that a cookie string can carry: a name and a value alone, neither
/// with white space at an end nor with a `;`, the name not empty and without a
/// `=`.
pub open spec fn carried(cookie: CookieText) -> bool {
    &&& cookie == bare_cookie(cookie.name, cookie.value)
    &&& cookie.name.len() > 0
    &&& !text::white_space(cookie.name[0])
    &&& !text::white_space(cookie.name.last())
    &&& !cookie.name.contains(';')
    &&& !cookie.name.contains('=')
    &&& cookie.value.len() > 0 ==> !text::white_space(cookie.value[0])
    &&& cookie.value.len() > 0 ==> !text::white_space(cookie.value.last())
    &&& !cookie.value.contains(';')
}

/// The cookies as they are written, each after the other.
pub open spec fn written_cookies(cookies: Seq<CookieText>) -> Seq<Seq<char>> {
    Seq::new(cookies.len(), |i: int| set_cookie_value(cookies[i]))
}

/// Cookies are read back from the cookie string that they are written to, all
/// of them and in their order, with `; ` between each two.
pub proof fn law_cookies_are_read_back(cookies: Seq<CookieText>)
    requires
        forall|i: int| 0 <= i < cookies.len() ==> carried(#[trigger] cookies[i]),
    ensures
        cookies_in(text::join(written_cookies(cookies), "; "@)) == cookies,
{
    let written = written_cookies(cookies);
    let string = text::join(written, "; "@);
    let none = Seq::<char>::empty();
    if cookies.len() == 0 {
        text::lemma_split_none(string, seq![';']);
        assert(cookies_of_parts(text::split(string, seq![';']).drop_last()) =~= Seq::empty());
        assert(cookies_in(string) =~= cookies);
    } else {
        assert forall|i: int| 0 <= i < cookies.len() implies !(#[trigger] written[i]).contains(
            ';',
        ) by {
            assert(carried(cookies[i]));
            lemma_written_pair(cookies[i]);
        }
        lemma_split_joined(none, written);
        assert(none + string =~= string);
        let parts = text::split(string, seq![';']);
        assert forall|i: int| 0 <= i < cookies.len() implies cookie_of_part(#[trigger] parts[i])
            == Some(cookies[i]) by {
            assert(carried(cookies[i]));
            lemma_written_pair(cookies[i]);
            let lead = if i == 0 {
                none
            } else {
                seq![' ']
            };
            assert(parts[i] == lead + written[i]);
            lemma_part_is_read_back(lead, cookies[i]);
        }
        lemma_parts_are_read_back(parts, cookies);
    }
}

/// A cookie of a name and a value alone is written `{name}={value}`.
proof fn lemma_written_pair(cookie: CookieText)
    requires
        carried(cookie),
    ensures
        set_cookie_value(cookie) == cookie.name + seq!['='] + cookie.value,
        !set_cookie_value(cookie).contains(';'),
{
    reveal_strlit("=");
    let pair = cookie.name + seq!['='] + cookie.value;
    assert("="@ =~= seq!['=']);
    assert(set_cookie_value(cookie) =~= pair);
    assert forall|i: int| 0 <= i < pair.len() implies pair[i] != ';' by {
        let n = cookie.name.len();
        if i < n {
            assert(cookie.name.contains(cookie.name[i]));
        } else if i > n {
            assert(cookie.value.contains(cookie.value[i - n - 1]));
        }
    }
}

/// The parts of texts without `;` that are joined with `; `.
proof fn lemma_split_joined(lead: Seq<char>, pieces: Seq<Seq<char>>)
    requires
        pieces.len() > 0,
        !lead.contains(';'),
        forall|i: int| 0 <= i < pieces.len() ==> !(#[trigger] pieces[i]).contains(';'),
    ensures
        text::split(lead + text::join(pieces, "; "@), seq![';']) == Seq::new(
            pieces.len(),
            |i: int|
                (if i == 0 {
                    lead
                } else {
                    seq![' ']
                }) + pieces[i],
        ),
    decreases pieces.len(),
{
    reveal_strlit("; ");
    let pat = seq![';'];
    let string = lead + text::join(pieces, "; "@);
    let first = lead + pieces[0];
    let want = Seq::new(
        pieces.len(),
        |i: int|
            (if i == 0 {
                lead
            } else {
                seq![' ']
            }) + pieces[i],
    );
    let k = first.len() as int;
    assert(!pieces[0].contains(';'));
    assert forall|j: int| 0 <= j < k implies first[j] != ';' by {
        if j < lead.len() {
            assert(lead.contains(lead[j]));
        } else {
            assert(pieces[0].contains(pieces[0][j - lead.len()]));
        }
    }
    if pieces.len() == 1 {
        assert(string == first);
        if text::has_within(string, pat) {
            let j = choose|j: int| text::occurs_at(string, pat, j);
            assert(string.subrange(j, j + 1)[0] == string[j]);
        }
        text::lemma_split_none(string, pat);
        assert(want =~= seq![string]);
    } else {
        let rest = pieces.skip(1);
        let tail = seq![' '] + text::join(rest, "; "@);
        assert(string =~= first + pat + tail) by {
            assert("; "@ =~= seq![';', ' ']);
        }
        assert(string.subrange(k, k + 1) =~= pat);
        assert forall|j: int| j < k implies !text::occurs_at(string, pat, j) by {
            if text::occurs_at(string, pat, j) {
                assert(string.subrange(j, j + 1)[0] == string[j]);
            }
        }
        text::lemma_split_at_first(string, pat, k);
        assert(string.take(k) =~= first);
        assert(string.skip(k + 1) =~= tail);
        assert(!seq![' '].contains(';'));
        assert forall|i: int| 0 <= i < rest.len() implies !(#[trigger] rest[i]).contains(';') by {
            assert(rest[i] == pieces[i + 1]);
        }
        lemma_split_joined(seq![' '], rest);
        assert(seq![first] + text::split(tail, pat) =~= want);
    }
}

/// The first `=` of a pair stands behind its name.
proof fn lemma_find_behind_name(name: Seq<char>, value: Seq<char>)
    requires
        !name.contains('='),
    ensures
        text::find_char(name + seq!['='] + value, '=') == name.len(),
    decreases name.len(),
{
    let pair = name + seq!['='] + value;
    if name.len() > 0 {
        assert(name.contains(name[0]));
        let rest = name.skip(1);
        assert forall|i: int| 0 <= i < rest.len() implies rest[i] != '=' by {
            assert(name.contains(name[i + 1]));
        }
        lemma_find_behind_name(rest, value);
        assert(pair.skip(1) =~= rest + seq!['='] + value);
    }
}

/// Text without white space at either end is not trimmed, nor is more than a
/// space before it.
proof fn lemma_trimmed(lead: Seq<char>, s: Seq<char>)
    requires
        lead.len() == 0 || lead == seq![' '],
        s.len() > 0 ==> !text::white_space(s[0]) && !text::white_space(s.last()),
    ensures
        text::trim(lead + s) == s,
{
    assert(text::trim_start(s) == s);
    assert(text::trim_end(s) == s);
    assert(text::trim_start(lead + s) == s) by {
        if lead.len() == 0 {
            assert(lead + s =~= s);
        } else {
            assert((lead + s).skip(1) =~= s);
        }
    }
}

/// A pair that carries a cookie stands for it.
proof fn lemma_pair_is_read_back(cookie: CookieText)
    requires
        carried(cookie),
    ensures
        cookie_of_pair(cookie.name + seq!['='] + cookie.value) == Some(cookie),
{
    let none = Seq::<char>::empty();
    let name = cookie.name;
    let value = cookie.value;
    let pair = name + seq!['='] + value;
    assert(text::find_char(pair, '=') == name.len()) by {
        lemma_find_behind_name(name, value);
    }
    assert(text::trim(pair.take(name.len() as int)) == name) by {
        lemma_trimmed(none, name);
        assert(pair.take(name.len() as int) =~= none + name);
    }
    assert(text::trim(pair.skip(name.len() as int + 1)) == value) by {
        lemma_trimmed(none, value);
        assert(pair.skip(name.len() as int + 1) =~= none + value);
    }
}

/// The part that carries a cookie, after a space or none, stands for it.
proof fn lemma_part_is_read_back(lead: Seq<char>, cookie: CookieText)
    requires
        carried(cookie),
        lead.len() == 0 || lead == seq![' '],
    ensures
        cookie_of_part(lead + (cookie.name + seq!['='] + cookie.value)) == Some(cookie),
{
    let pair = cookie.name + seq!['='] + cookie.value;
    assert(text::trim(lead + pair) == pair) by {
        assert(pair[0] == cookie.name[0]);
        assert(pair.last() == if cookie.value.len() > 0 {
            cookie.value.last()
        } else {
            '='
        });
        lemma_trimmed(lead, pair);
    }
    lemma_pair_is_read_back(cookie);
}

/// Parts that each stand for a cookie stand for all of them, in their order.
proof fn lemma_parts_are_read_back(parts: Seq<Seq<char>>, cookies: Seq<CookieText>)
    requires
        parts.len() == cookies.len(),
        forall|i: int|
            0 <= i < cookies.len() ==> cookie_of_part(#[trigger] parts[i]) == Some(cookies[i]),
    ensures
        cookies_of_parts(parts) == cookies,
    decreases parts.len(),
{
    if parts.len() == 0 {
        assert(cookies =~= Seq::empty());
    } else {
        let n = parts.len() - 1;
        assert forall|i: int| 0 <= i < n implies cookie_of_part(
            #[trigger] parts.drop_last()[i],
        ) == Some(cookies.drop_last()[i]) by {
            assert(parts.drop_last()[i] == parts[i]);
        }
        lemma_parts_are_read_back(parts.drop_last(), cookies.drop_last());
        assert(cookie_of_part(parts[n]) == Some(cookies[n]));
        assert(cookies.drop_last().push(cookies.last()) =~= cookies);
    }
}

/// A cookie says what it holds, each field for itself, and a list of cookies says
/// what each of them says, in their order.
pub proof fn law_cookie_says_what_it_holds(cookie: Cookie, cookies: Seq<Cookie>)
    ensures
        cookie@.name == cookie.name@,
        cookie@.value == cookie.value@,
        match (cookie@.domain, cookie.domain) {
            (Some(said), Some(held)) => said == held@,
            (said, held) => said is None && held is None,
        },
        match (cookie@.path, cookie.path) {
            (Some(said), Some(held)) => said == held@,
            (said, held) => said is None && held is None,
        },
        cookie@.secure == cookie.secure,
        cookie@.http_only == cookie.http_only,
        cookie@.same_site == cookie.same_site,
        cookie_texts(cookies).len() == cookies.len(),
        forall|i: int| 0 <= i < cookies.len() ==> #[trigger] cookie_texts(cookies)[i] == cookies[i]@,
{
}

/// A cookie of a name and a value alone is written `{name}={value}`, and each
/// attribute adds its own words behind what is written without it, in the order
/// of `Domain`, `Path`, `Secure`, `HttpOnly` and `SameSite`; a flag that is off
/// adds nothing. This is so of every text.
pub proof fn law_attributes_are_appended(cookie: CookieText)
    ensures
        set_cookie_value(bare_cookie(cookie.name, cookie.value)) == cookie.name + "="@
            + cookie.value,
        ({
            let all = cookie;
            let up_to_http_only = CookieText { same_site: None, ..all };
            let up_to_secure = CookieText { http_only: None, ..up_to_http_only };
            let up_to_path = CookieText { secure: None, ..up_to_secure };
            let up_to_domain = CookieText { path: None, ..up_to_path };
            let pair = CookieText { domain: None, ..up_to_domain };
            &&& pair == bare_cookie(cookie.name, cookie.value)
            &&& match cookie.domain {
                Some(domain) => set_cookie_value(up_to_domain) == set_cookie_value(pair)
                    + "; Domain="@ + domain,
                None => set_cookie_value(up_to_domain) == set_cookie_value(pair),
            }
            &&& match cookie.path {
                Some(path) => set_cookie_value(up_to_path) == set_cookie_value(up_to_domain)
                    + "; Path="@ + path,
                None => set_cookie_value(up_to_path) == set_cookie_value(up_to_domain),
            }
            &&& match cookie.secure {
                Some(true) => set_cookie_value(up_to_secure) == set_cookie_value(up_to_path)
                    + "; Secure"@,
                _ => set_cookie_value(up_to_secure) == set_cookie_value(up_to_path),
            }
            &&& match cookie.http_only {
                Some(true) => set_cookie_value(up_to_http_only) == set_cookie_value(up_to_secure)
                    + "; HttpOnly"@,
                _ => set_cookie_value(up_to_http_only) == set_cookie_value(up_to_secure),
            }
            &&& match cookie.same_site {
                Some(SameSite::Strict) => set_cookie_value(all) == set_cookie_value(
                    up_to_http_only,
                ) + "; SameSite="@ + "Strict"@,
                Some(SameSite::Lax) => set_cookie_value(all) == set_cookie_value(up_to_http_only)
                    + "; SameSite="@ + "Lax"@,
                Some(SameSite::Unrestricted) => set_cookie_value(all) == set_cookie_value(
                    up_to_http_only,
                ) + "; SameSite="@ + "None"@,
                None => set_cookie_value(all) == set_cookie_value(up_to_http_only),
            }
        }),
{
    let none = Seq::<char>::empty();
    let all = cookie;
    let up_to_http_only = CookieText { same_site: None, ..all };
    let up_to_secure = CookieText { http_only: None, ..up_to_http_only };
    let up_to_path = CookieText { secure: None, ..up_to_secure };
    let up_to_domain = CookieText { path: None, ..up_to_path };
    let pair = cookie.name + "="@ + cookie.value;
    let domain = attribute("; Domain="@, cookie.domain);
    let path = attribute("; Path="@, cookie.path);
    let secure = flag("; Secure"@, cookie.secure);
    let http_only = flag("; HttpOnly"@, cookie.http_only);
    let same_site = attribute(
        "; SameSite="@,
        match cookie.same_site {
            Some(same_site) => Some(same_site.written()),
            None => None,
        },
    );
    assert(set_cookie_value(bare_cookie(cookie.name, cookie.value)) =~= pair);
    assert(set_cookie_value(up_to_domain) =~= pair + domain);
    assert(set_cookie_value(up_to_path) =~= pair + domain + path);
    assert(set_cookie_value(up_to_secure) =~= pair + domain + path + secure);
    assert(set_cookie_value(up_to_http_only) =~= pair + domain + path + secure + http_only);
    assert(set_cookie_value(all) =~= pair + domain + path + secure + http_only + same_site);
    if let Some(d) = cookie.domain {
        assert(pair + ("; Domain="@ + d) =~= pair + "; Domain="@ + d);
    }
    if let Some(p) = cookie.path {
        assert(pair + domain + ("; Path="@ + p) =~= pair + domain + "; Path="@ + p);
    }
    let flags = pair + domain + path + secure + http_only;
    if let Some(site) = cookie.same_site {
        assert(flags + ("; SameSite="@ + site.written()) =~= flags + "; SameSite="@
            + site.written());
    }
    assert(pair + none =~= pair);
    assert(pair + domain + none =~= pair + domain);
    assert(pair + domain + path + none =~= pair + domain + path);
    assert(pair + domain + path + secure + none =~= pair + domain + path + secure);
    assert(flags + none =~= flags);
}

/// The parts of a written cookie behind its pair, without the space that each
/// begins with.
spec fn written_attributes(cookie: CookieText) -> Seq<Seq<char>> {
    (match cookie.domain {
        Some(domain) => seq!["Domain="@ + domain],
        None => Seq::empty(),
    }) + (match cookie.path {
        Some(path) => seq!["Path="@ + path],
        None => Seq::empty(),
    }) + (if cookie.secure == Some(true) {
        seq!["Secure"@]
    } else {
        Seq::empty()
    }) + (if cookie.http_only == Some(true) {
        seq!["HttpOnly"@]
    } else {
        Seq::empty()
    }) + (match cookie.same_site {
        Some(same_site) => seq!["SameSite="@ + same_site.written()],
        None => Seq::empty(),
    })
}

/// A `Set-Cookie` value, read by its parts between `;`, gives back the cookie:
/// the pair comes first, and behind it stands each attribute that the cookie has
/// and no other. This takes that no `;` stands in the texts of the cookie.
pub proof fn law_attributes_are_read_back(cookie: CookieText)
    requires
        !cookie.name.contains(';'),
        !cookie.value.contains(';'),
        cookie.domain matches Some(domain) ==> !domain.contains(';'),
        cookie.path matches Some(path) ==> !path.contains(';'),
    ensures
        ({
            let parts = text::split(set_cookie_value(cookie), seq![';']);
            let rest = parts.skip(1);
            &&& parts.len() > 0
            &&& parts[0] == cookie.name + "="@ + cookie.value
            &&& rest.contains(" Secure"@) <==> cookie.secure == Some(true)
            &&& rest.contains(" HttpOnly"@) <==> cookie.http_only == Some(true)
            &&& forall|domain: Seq<char>| #[trigger]
                rest.contains(" Domain="@ + domain) <==> cookie.domain == Some(domain)
            &&& forall|path: Seq<char>| #[trigger]
                rest.contains(" Path="@ + path) <==> cookie.path == Some(path)
            &&& rest.contains(" SameSite=Strict"@) <==> cookie.same_site == Some(SameSite::Strict)
            &&& rest.contains(" SameSite=Lax"@) <==> cookie.same_site == Some(SameSite::Lax)
            &&& rest.contains(" SameSite=None"@) <==> cookie.same_site == Some(
                SameSite::Unrestricted,
            )
            &&& rest.len() == (if cookie.domain is Some {
                1int
            } else {
                0
            }) + (if cookie.path is Some {
                1int
            } else {
                0
            }) + (if cookie.secure == Some(true) {
                1int
            } else {
                0
            }) + (if cookie.http_only == Some(true) {
                1int
            } else {
                0
            }) + (if cookie.same_site is Some {
                1int
            } else {
                0
            })
        }),
{
    let none = Seq::<char>::empty();
    let pair = cookie.name + "="@ + cookie.value;
    let attributes = written_attributes(cookie);
    let pieces = seq![pair] + attributes;
    let parts = text::split(set_cookie_value(cookie), seq![';']);
    let rest = parts.skip(1);
    lemma_written_as_pieces(cookie);
    lemma_pieces_without_semicolon(cookie);
    lemma_split_joined(none, pieces);
    assert(none + text::join(pieces, "; "@) =~= set_cookie_value(cookie));
    assert(parts[0] =~= pair);
    assert forall|part: Seq<char>| rest.contains(seq![' '] + part) == attributes.contains(
        part,
    ) by {
        if attributes.contains(part) {
            let i = choose|i: int| 0 <= i < attributes.len() && attributes[i] == part;
            assert(rest[i] == seq![' '] + pieces[i + 1]);
        }
        if rest.contains(seq![' '] + part) {
            let i = choose|i: int| 0 <= i < rest.len() && rest[i] == seq![' '] + part;
            assert(rest[i] == seq![' '] + pieces[i + 1]);
            lemma_same_behind(seq![' '], part, pieces[i + 1]);
            assert(attributes[i] == part);
        }
    }
    lemma_attribute_words(cookie);
    assert(rest.contains(seq![' '] + "Secure"@) == attributes.contains("Secure"@));
    assert(rest.contains(seq![' '] + "HttpOnly"@) == attributes.contains("HttpOnly"@));
    assert(rest.contains(seq![' '] + "SameSite=Strict"@) == attributes.contains(
        "SameSite=Strict"@,
    ));
    assert(rest.contains(seq![' '] + "SameSite=Lax"@) == attributes.contains("SameSite=Lax"@));
    assert(rest.contains(seq![' '] + "SameSite=None"@) == attributes.contains("SameSite=None"@));
    lemma_spaced_words();
    assert forall|domain: Seq<char>| #[trigger] rest.contains(" Domain="@ + domain)
        == (cookie.domain == Some(domain)) by {
        assert(" Domain="@ + domain =~= seq![' '] + ("Domain="@ + domain));
        assert(attributes.contains("Domain="@ + domain) == (cookie.domain == Some(domain)));
    }
    assert forall|path: Seq<char>| #[trigger] rest.contains(" Path="@ + path) == (cookie.path
        == Some(path)) by {
        assert(" Path="@ + path =~= seq![' '] + ("Path="@ + path));
        assert(attributes.contains("Path="@ + path) == (cookie.path == Some(path)));
    }
}

/// The words of the attributes behind a space.
proof fn lemma_spaced_words()
    ensures
        " Secure"@ == seq![' '] + "Secure"@,
        " HttpOnly"@ == seq![' '] + "HttpOnly"@,
        " Domain="@ == seq![' '] + "Domain="@,
        " Path="@ == seq![' '] + "Path="@,
        " SameSite=Strict"@ == seq![' '] + "SameSite=Strict"@,
        " SameSite=Lax"@ == seq![' '] + "SameSite=Lax"@,
        " SameSite=None"@ == seq![' '] + "SameSite=None"@,
{
    reveal_strlit(" Secure");
    reveal_strlit("Secure");
    reveal_strlit(" HttpOnly");
    reveal_strlit("HttpOnly");
    reveal_strlit(" Domain=");
    reveal_strlit("Domain=");
    reveal_strlit(" Path=");
    reveal_strlit("Path=");
    reveal_strlit(" SameSite=Strict");
    reveal_strlit("SameSite=Strict");
    reveal_strlit(" SameSite=Lax");
    reveal_strlit("SameSite=Lax");
    reveal_strlit(" SameSite=None");
    reveal_strlit("SameSite=None");
    assert(" Secure"@ =~= seq![' '] + "Secure"@);
    assert(" HttpOnly"@ =~= seq![' '] + "HttpOnly"@);
    assert(" Domain="@ =~= seq![' '] + "Domain="@);
    assert(" Path="@ =~= seq![' '] + "Path="@);
    assert(" SameSite=Strict"@ =~= seq![' '] + "SameSite=Strict"@);
    assert(" SameSite=Lax"@ =~= seq![' '] + "SameSite=Lax"@);
    assert(" SameSite=None"@ =~= seq![' '] + "SameSite=None"@);
}

/// What stands behind the same text is the same where the whole is.
proof fn lemma_same_behind(key: Seq<char>, a: Seq<char>, b: Seq<char>)
    ensures
        key + a == key + b ==> a == b,
{
    if key + a == key + b {
        assert((key + a).skip(key.len() as int) =~= a);
        assert((key + b).skip(key.len() as int) =~= b);
    }
}

/// A written cookie is its pair and its attributes with `; ` between each two.
proof fn lemma_written_as_pieces(cookie: CookieText)
    ensures
        set_cookie_value(cookie) == text::join(
            seq![cookie.name + "="@ + cookie.value] + written_attributes(cookie),
            "; "@,
        ),
{
    lemma_joined_words();
    let pair = cookie.name + "="@ + cookie.value;
    let none = Seq::<Seq<char>>::empty();
    let domain = match cookie.domain {
        Some(domain) => seq!["Domain="@ + domain],
        None => none,
    };
    let path = match cookie.path {
        Some(path) => seq!["Path="@ + path],
        None => none,
    };
    let secure = if cookie.secure == Some(true) {
        seq!["Secure"@]
    } else {
        none
    };
    let http_only = if cookie.http_only == Some(true) {
        seq!["HttpOnly"@]
    } else {
        none
    };
    let same_site = match cookie.same_site {
        Some(same_site) => seq!["SameSite="@ + same_site.written()],
        None => none,
    };
    let one = seq![pair];
    let two = one + domain;
    let three = two + path;
    let four = three + secure;
    let five = four + http_only;
    let six = five + same_site;
    let a = attribute("; Domain="@, cookie.domain);
    let b = attribute("; Path="@, cookie.path);
    let c = flag("; Secure"@, cookie.secure);
    let d = flag("; HttpOnly"@, cookie.http_only);
    let e = attribute(
        "; SameSite="@,
        match cookie.same_site {
            Some(same_site) => Some(same_site.written()),
            None => None,
        },
    );
    assert(text::join(one, "; "@) == pair);
    assert(text::join(two, "; "@) == pair + a) by {
        if let Some(domain) = cookie.domain {
            assert("; Domain="@ + domain =~= "; "@ + ("Domain="@ + domain));
        }
        lemma_join_option(one, domain, a);
    }
    assert(text::join(three, "; "@) == pair + a + b) by {
        if let Some(path) = cookie.path {
            assert("; Path="@ + path =~= "; "@ + ("Path="@ + path));
        }
        lemma_join_option(two, path, b);
    }
    assert(text::join(four, "; "@) == pair + a + b + c) by {
        lemma_join_option(three, secure, c);
    }
    assert(text::join(five, "; "@) == pair + a + b + c + d) by {
        lemma_join_option(four, http_only, d);
    }
    assert(text::join(six, "; "@) == pair + a + b + c + d + e) by {
        if let Some(site) = cookie.same_site {
            assert("; SameSite="@ + site.written() =~= "; "@ + ("SameSite="@ + site.written()));
        }
        lemma_join_option(five, same_site, e);
    }
    assert(six =~= one + written_attributes(cookie));
}

/// One more piece, or none, at the end of a join adds itself behind `; `.
proof fn lemma_join_option(pieces: Seq<Seq<char>>, more: Seq<Seq<char>>, added: Seq<char>)
    requires
        pieces.len() > 0,
        more.len() <= 1,
        more.len() == 1 ==> added == "; "@ + more[0],
        more.len() == 0 ==> added.len() == 0,
    ensures
        text::join(pieces + more, "; "@) == text::join(pieces, "; "@) + added,
{
    let joined = text::join(pieces, "; "@);
    if more.len() == 1 {
        assert(pieces + more =~= pieces.push(more[0]));
        text::lemma_join_push(pieces, more[0], "; "@);
        assert(joined + "; "@ + more[0] =~= joined + added);
    } else {
        assert(pieces + more =~= pieces);
        assert(joined + added =~= joined);
    }
}

/// The words of the attributes behind `; `.
proof fn lemma_joined_words()
    ensures
        "; Secure"@ == "; "@ + "Secure"@,
        "; HttpOnly"@ == "; "@ + "HttpOnly"@,
        "; Domain="@ == "; "@ + "Domain="@,
        "; Path="@ == "; "@ + "Path="@,
        "; SameSite="@ == "; "@ + "SameSite="@,
{
    reveal_strlit("; ");
    reveal_strlit("; Secure");
    reveal_strlit("Secure");
    reveal_strlit("; HttpOnly");
    reveal_strlit("HttpOnly");
    reveal_strlit("; Domain=");
    reveal_strlit("Domain=");
    reveal_strlit("; Path=");
    reveal_strlit("Path=");
    reveal_strlit("; SameSite=");
    reveal_strlit("SameSite=");
    assert("; Secure"@ =~= "; "@ + "Secure"@);
    assert("; HttpOnly"@ =~= "; "@ + "HttpOnly"@);
    assert("; Domain="@ =~= "; "@ + "Domain="@);
    assert("; Path="@ =~= "; "@ + "Path="@);
    assert("; SameSite="@ =~= "; "@ + "SameSite="@);
}

/// No `;` stands in two texts, nor does it in both together.
proof fn lemma_without_semicolon(a: Seq<char>, b: Seq<char>)
    requires
        !a.contains(';'),
        !b.contains(';'),
    ensures
        !(a + b).contains(';'),
{
    assert forall|i: int| 0 <= i < (a + b).len() implies (a + b)[i] != ';' by {
        if i < a.len() {
            assert(a.contains(a[i]));
        } else {
            assert(b.contains(b[i - a.len()]));
        }
    }
}

/// No `;` stands in the pieces of a written cookie whose texts hold none.
proof fn lemma_pieces_without_semicolon(cookie: CookieText)
    requires
        !cookie.name.contains(';'),
        !cookie.value.contains(';'),
        cookie.domain matches Some(domain) ==> !domain.contains(';'),
        cookie.path matches Some(path) ==> !path.contains(';'),
    ensures
        forall|i: int|
            0 <= i < (seq![cookie.name + "="@ + cookie.value] + written_attributes(cookie)).len()
                ==> !(#[trigger] (seq![cookie.name + "="@ + cookie.value] + written_attributes(
                cookie,
            ))[i]).contains(';'),
{
    reveal_strlit("=");
    reveal_strlit("Secure");
    reveal_strlit("HttpOnly");
    reveal_strlit("Domain=");
    reveal_strlit("Path=");
    reveal_strlit("SameSite=");
    reveal_strlit("Strict");
    reveal_strlit("Lax");
    reveal_strlit("None");
    lemma_without_semicolon(cookie.name, "="@);
    lemma_without_semicolon(cookie.name + "="@, cookie.value);
    if let Some(domain) = cookie.domain {
        lemma_without_semicolon("Domain="@, domain);
    }
    if let Some(path) = cookie.path {
        lemma_without_semicolon("Path="@, path);
    }
    if let Some(same_site) = cookie.same_site {
        lemma_without_semicolon("SameSite="@, same_site.written());
    }
}

/// Which words stand among the attributes.
proof fn lemma_attribute_words(cookie: CookieText)
    ensures
        ({
            let attributes = written_attributes(cookie);
            &&& attributes.contains("Secure"@) <==> cookie.secure == Some(true)
            &&& attributes.contains("HttpOnly"@) <==> cookie.http_only == Some(true)
            &&& forall|domain: Seq<char>| #[trigger]
                attributes.contains("Domain="@ + domain) <==> cookie.domain == Some(domain)
            &&& forall|path: Seq<char>| #[trigger]
                attributes.contains("Path="@ + path) <==> cookie.path == Some(path)
            &&& attributes.contains("SameSite=Strict"@) <==> cookie.same_site == Some(
                SameSite::Strict,
            )
            &&& attributes.contains("SameSite=Lax"@) <==> cookie.same_site == Some(SameSite::Lax)
            &&& attributes.contains("SameSite=None"@) <==> cookie.same_site == Some(
                SameSite::Unrestricted,
            )
        }),
{
    reveal_strlit("Secure");
    reveal_strlit("HttpOnly");
    reveal_strlit("Domain=");
    reveal_strlit("Path=");
    reveal_strlit("SameSite=");
    reveal_strlit("Strict");
    reveal_strlit("Lax");
    reveal_strlit("None");
    reveal_strlit("SameSite=Strict");
    reveal_strlit("SameSite=Lax");
    reveal_strlit("SameSite=None");
    assert("SameSite=Strict"@ =~= "SameSite="@ + "Strict"@);
    assert("SameSite=Lax"@ =~= "SameSite="@ + "Lax"@);
    assert("SameSite=None"@ =~= "SameSite="@ + "None"@);
    let attributes = written_attributes(cookie);
    let d: int = if cookie.domain is Some {
        1
    } else {
        0
    };
    let p: int = if cookie.path is Some {
        d + 1
    } else {
        d
    };
    let s: int = if cookie.secure == Some(true) {
        p + 1
    } else {
        p
    };
    let h: int = if cookie.http_only == Some(true) {
        s + 1
    } else {
        s
    };
    // Where each attribute stands.
    assert(cookie.domain matches Some(domain) ==> attributes[0] == "Domain="@ + domain);
    assert(cookie.path matches Some(path) ==> attributes[d] == "Path="@ + path);
    assert(cookie.secure == Some(true) ==> attributes[p] == "Secure"@);
    assert(cookie.http_only == Some(true) ==> attributes[s] == "HttpOnly"@);
    assert(cookie.same_site matches Some(site) ==> attributes[h] == "SameSite="@ + site.written());
    // What stands at an index, by its first characters.
    assert forall|i: int| 0 <= i < attributes.len() implies {
        ||| i < d && (#[trigger] attributes[i])[0] == 'D'
        ||| d <= i < p && attributes[i][0] == 'P'
        ||| p <= i < s && attributes[i] == "Secure"@
        ||| s <= i < h && attributes[i] == "HttpOnly"@
        ||| h <= i && attributes[i][0] == 'S' && attributes[i][1] == 'a'
    } by {}
    assert forall|domain: Seq<char>| #[trigger] attributes.contains("Domain="@ + domain) == (
    cookie.domain == Some(domain)) by {
        let word = "Domain="@ + domain;
        assert(word[0] == 'D');
        if attributes.contains(word) {
            let i = choose|i: int| 0 <= i < attributes.len() && attributes[i] == word;
            assert(i < d);
            lemma_same_behind("Domain="@, domain, cookie.domain->0);
        }
    }
    assert forall|path: Seq<char>| #[trigger] attributes.contains("Path="@ + path) == (
    cookie.path == Some(path)) by {
        let word = "Path="@ + path;
        assert(word[0] == 'P');
        if attributes.contains(word) {
            let i = choose|i: int| 0 <= i < attributes.len() && attributes[i] == word;
            assert(d <= i < p);
            lemma_same_behind("Path="@, path, cookie.path->0);
        }
    }
    lemma_same_site_word(cookie, "Strict"@);
    lemma_same_site_word(cookie, "Lax"@);
    lemma_same_site_word(cookie, "None"@);
    assert("Strict"@.len() == 6 && "Lax"@.len() == 3 && "None"@.len() == 4);
}

/// Which word stands for `SameSite` among the attributes.
proof fn lemma_same_site_word(cookie: CookieText, word: Seq<char>)
    ensures
        written_attributes(cookie).contains("SameSite="@ + word) <==> (
        cookie.same_site matches Some(site) && site.written() == word),
{
    reveal_strlit("Secure");
    reveal_strlit("HttpOnly");
    reveal_strlit("Domain=");
    reveal_strlit("Path=");
    reveal_strlit("SameSite=");
    let attributes = written_attributes(cookie);
    let whole = "SameSite="@ + word;
    assert(whole[0] == 'S' && whole[1] == 'a');
    if let Some(site) = cookie.same_site {
        assert(attributes.last() == "SameSite="@ + site.written());
        assert(attributes.contains("SameSite="@ + site.written()));
    }
    if attributes.contains(whole) {
        let i = choose|i: int| 0 <= i < attributes.len() && attributes[i] == whole;
        assert(cookie.domain matches Some(d) ==> ("Domain="@ + d)[0] == 'D');
        assert(cookie.path matches Some(p) ==> ("Path="@ + p)[0] == 'P');
        assert("Secure"@[1] == 'e');
        assert("HttpOnly"@[0] == 'H');
        assert(cookie.same_site is Some);
        lemma_same_behind("SameSite="@, word, cookie.same_site->0.written());
    }
}

/// The URL for a cookie is that of its domain without leading dots; a cookie
/// without a domain belongs to the page that is shown, if one is.
pub proof fn law_cookie_belongs_to_its_domain(
    dots: Seq<char>,
    host: Seq<char>,
    current_url: Seq<char>,
)
    requires
        forall|i: int| 0 <= i < dots.len() ==> dots[i] == '.',
        host.len() > 0 ==> host[0] != '.',
        dots.len() + host.len() > 0,
    ensures
        set_cookie_url(Some(dots + host), current_url) == Some("https://"@ + host),
        current_url.len() > 0 ==> set_cookie_url(None, current_url) == Some(current_url),
        current_url.len() > 0 ==> set_cookie_url(Some(Seq::empty()), current_url) == Some(
            current_url,
        ),
        current_url.len() == 0 ==> set_cookie_url(None, current_url) is None,
        current_url.len() == 0 ==> set_cookie_url(Some(Seq::empty()), current_url) is None,
{
    let domain = dots + host;
    let kept = text::trim_start_char(domain, '.');
    text::law_leading_char_is_trimmed(domain, '.');
    let n = domain.len() - kept.len();
    if n < dots.len() {
        assert(kept[0] == domain[n]);
        assert(domain[n] == dots[n]);
    }
    if n > dots.len() {
        assert(domain[dots.len() as int] == host[0]);
    }
    assert(kept =~= host);
}

/// A cookie string is read part by part: two of them with a `;` between hold the
/// cookies of the first and then those of the second.
pub proof fn law_cookie_strings_add_up(a: Seq<char>, b: Seq<char>)
    ensures
        cookies_in(a + seq![';'] + b) == cookies_in(a) + cookies_in(b),
{
    lemma_split_two(a, b);
    lemma_cookies_of_two(text::split(a, seq![';']), text::split(b, seq![';']));
}

/// A part of a cookie string stands for a cookie exactly where a name stands
/// before its first `=`, more than white space. The name is what stands before
/// it and the value what stands behind it, without white space around, and the
/// cookie has no attribute.
pub proof fn law_part_is_name_and_value(name: Seq<char>, value: Seq<char>)
    requires
        !name.contains(';'),
        !name.contains('='),
        !value.contains(';'),
    ensures
        cookies_in(name).len() == 0,
        text::trim(name).len() == 0 ==> cookies_in(name + seq!['='] + value).len() == 0,
        text::trim(name).len() > 0 ==> cookies_in(name + seq!['='] + value) == seq![
            CookieText {
                name: text::trim(name),
                value: text::trim(value),
                domain: None,
                path: None,
                secure: None,
                http_only: None,
                same_site: None,
            },
        ],
{
    let part = name + seq!['='] + value;
    assert(!seq!['='].contains(';'));
    lemma_without_semicolon(name, seq!['=']);
    lemma_without_semicolon(name + seq!['='], value);
    lemma_one_part(part);
    lemma_one_part(name);
    lemma_no_pair(name);
    lemma_part_of_pair(name, value);
    assert(text::split(part, seq![';']).drop_last() =~= Seq::empty());
    assert(text::split(name, seq![';']).drop_last() =~= Seq::empty());
    assert(cookies_of_parts(Seq::empty()) =~= Seq::empty());
    match cookie_of_part(part) {
        Some(cookie) => {
            assert(cookies_in(part) =~= seq![cookie]);
        },
        None => {},
    }
}

/// Text without a `;` is one part.
proof fn lemma_one_part(s: Seq<char>)
    requires
        !s.contains(';'),
    ensures
        text::split(s, seq![';']) == seq![s],
{
    if text::has_within(s, seq![';']) {
        let j = choose|j: int| text::occurs_at(s, seq![';'], j);
        assert(s.subrange(j, j + 1)[0] == s[j]);
        assert(s.contains(s[j]));
    }
    text::lemma_split_none(s, seq![';']);
}

/// A part without a `=` stands for no cookie.
proof fn lemma_no_pair(part: Seq<char>)
    requires
        !part.contains('='),
    ensures
        cookie_of_part(part) is None,
{
    let trimmed = text::trim(part);
    text::lemma_trim_brings_nothing(part, '=');
    text::law_first_char_is_found(trimmed, '=');
    if text::find_char(trimmed, '=') < trimmed.len() {
        assert(trimmed.contains('='));
    }
}

/// The cookie of a part with a `=`.
proof fn lemma_part_of_pair(name: Seq<char>, value: Seq<char>)
    requires
        !name.contains('='),
    ensures
        cookie_of_part(name + seq!['='] + value) == if text::trim(name).len() == 0 {
            None
        } else {
            Some(bare_cookie(text::trim(name), text::trim(value)))
        },
{
    let part = name + seq!['='] + value;
    let n = text::trim(name);
    let v = text::trim(value);
    text::law_trimmed_of_white_space(name);
    text::law_trimmed_of_white_space(value);
    let (a, b) = choose|a: Seq<char>, b: Seq<char>|
        #![trigger text::all_white(a), text::all_white(b)]
        text::all_white(a) && text::all_white(b) && name == a + n + b;
    let (c, d) = choose|c: Seq<char>, d: Seq<char>|
        #![trigger text::all_white(c), text::all_white(d)]
        text::all_white(c) && text::all_white(d) && value == c + v + d;
    let none = Seq::<char>::empty();
    // The value up to where the white space at its end begins.
    let kept = if v.len() > 0 {
        c + v
    } else {
        none
    };
    let left = if v.len() > 0 {
        d
    } else {
        c + d
    };
    lemma_white_together(c, d);
    lemma_white_together(a, b);
    assert(value =~= kept + left);
    if n.len() == 0 {
        // Nothing but white space stands before the `=`.
        let trimmed = seq!['='] + kept;
        assert(part =~= (a + b) + trimmed + left);
        assert(trimmed.last() == if v.len() > 0 {
            v.last()
        } else {
            '='
        });
        text::law_white_space_is_trimmed(a + b, trimmed, left);
        assert(text::find_char(trimmed, '=') == 0);
        assert(trimmed.take(0) =~= none);
        assert(text::trim(none) =~= none);
    } else {
        let head = n + b;
        let trimmed = head + seq!['='] + kept;
        assert(part =~= a + trimmed + left);
        assert(trimmed[0] == n[0]);
        assert(trimmed.last() == if v.len() > 0 {
            v.last()
        } else {
            '='
        });
        text::law_white_space_is_trimmed(a, trimmed, left);
        assert forall|i: int| 0 <= i < head.len() implies head[i] != '=' by {
            assert(head[i] == name[i + a.len()]);
            assert(name.contains(name[i + a.len()]));
        }
        lemma_find_behind_name(head, kept);
        assert(trimmed.take(head.len() as int) =~= none + n + b);
        assert(trimmed.skip(head.len() as int + 1) =~= kept);
        assert(text::all_white(none));
        text::law_white_space_is_trimmed(none, n, b);
        assert(text::trim(kept) == v) by {
            if v.len() > 0 {
                text::law_white_space_is_trimmed(c, v, none);
                assert(kept =~= c + v + none);
            } else {
                assert(text::trim(none) =~= none);
                assert(v =~= none);
            }
        }
    }
}

proof fn lemma_white_together(a: Seq<char>, b: Seq<char>)
    requires
        text::all_white(a),
        text::all_white(b),
    ensures
        text::all_white(a + b),
{
    assert forall|i: int| 0 <= i < (a + b).len() implies text::white_space(
        #[trigger] (a + b)[i],
    ) by {
        if i < a.len() {
            assert(text::white_space(a[i]));
        } else {
            assert(text::white_space(b[i - a.len()]));
        }
    }
}

/// The parts of two texts with a `;` between.
proof fn lemma_split_two(a: Seq<char>, b: Seq<char>)
    ensures
        text::split(a + seq![';'] + b, seq![';']) == text::split(a, seq![';']) + text::split(
            b,
            seq![';'],
        ),
    decreases a.len(),
{
    let pat = seq![';'];
    let whole = a + pat + b;
    let parts = text::split(a, pat);
    text::lemma_split_first(a, pat);
    let k = parts[0].len() as int;
    assert forall|j: int| j < k implies !text::occurs_at(whole, pat, j) by {
        if text::occurs_at(whole, pat, j) {
            assert(whole.subrange(j, j + 1)[0] == a[j]);
            assert(a.subrange(j, j + 1) =~= pat);
            assert(text::occurs_at(a, pat, j));
        }
    }
    if parts.len() == 1 {
        assert(whole.subrange(k, k + 1) =~= pat);
        text::lemma_split_at_first(whole, pat, k);
        assert(whole.take(k) =~= a);
        assert(whole.skip(k + 1) =~= b);
        assert(parts =~= seq![a]);
    } else {
        let rest = a.skip(k + 1);
        assert(whole.subrange(k, k + 1) =~= a.subrange(k, k + 1));
        text::lemma_split_at_first(whole, pat, k);
        assert(whole.take(k) =~= a.take(k));
        assert(whole.skip(k + 1) =~= rest + pat + b);
        lemma_split_two(rest, b);
        assert(seq![a.take(k)] + (text::split(rest, pat) + text::split(b, pat)) =~= parts
            + text::split(b, pat));
    }
}

/// The cookies of the parts of two lists.
proof fn lemma_cookies_of_two(a: Seq<Seq<char>>, b: Seq<Seq<char>>)
    ensures
        cookies_of_parts(a + b) == cookies_of_parts(a) + cookies_of_parts(b),
    decreases b.len(),
{
    if b.len() == 0 {
        assert(a + b =~= a);
        assert(cookies_of_parts(a) + cookies_of_parts(b) =~= cookies_of_parts(a));
    } else {
        lemma_cookies_of_two(a, b.drop_last());
        assert((a + b).drop_last() =~= a + b.drop_last());
        assert((a + b).last() == b.last());
        match cookie_of_part(b.last()) {
            Some(cookie) => {
                assert((cookies_of_parts(a) + cookies_of_parts(b.drop_last())).push(cookie)
                    =~= cookies_of_parts(a) + cookies_of_parts(b.drop_last()).push(cookie));
            },
            None => {},
        }
    }
}

} // verus!
