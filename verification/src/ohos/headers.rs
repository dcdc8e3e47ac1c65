//! Request headers in the form in which the platform takes them.

use super::ops;
use crate::text;
use vstd::prelude::*;
use vstd::string::*;
use vstd::utf8;

verus! {

/// A header: its name and the bytes of its value.
pub struct Header {
    pub name: String,
    pub value: Vec<u8>,
}

/// The bytes that stand for a visible ASCII character, the space or the tab.
pub open spec fn visible_ascii(byte: u8) -> bool {
    32 <= byte < 127 || byte == 9
}

/// Only visible ASCII stands in `bytes`.
pub open spec fn all_visible(bytes: Seq<u8>) -> bool {
    forall|i: int| 0 <= i < bytes.len() ==> visible_ascii(#[trigger] bytes[i])
}

/// ASCII bytes as text.
pub open spec fn ascii_text(bytes: Seq<u8>) -> Seq<char> {
    Seq::new(bytes.len(), |i: int| bytes[i] as char)
}

/// The text of a header value, if it holds visible ASCII only.
///
/// Calls `http::HeaderValue::to_str` on the value that
/// `http::HeaderValue::from_bytes` makes of the bytes. The claim is that there
/// is a text exactly where all bytes are visible ASCII (the space and the tab
/// count as such), and that it holds a character for each byte.
#[verifier::external_body]
pub(crate) fn header_value_text(bytes: &Vec<u8>) -> (text: Option<String>)
    ensures
        text is Some <==> all_visible(bytes@),
        text matches Some(t) ==> t@ == ascii_text(bytes@),
{
    let value = http::HeaderValue::from_bytes(bytes.as_slice()).ok()?;
    value.to_str().ok().map(String::from)
}

/// The text that bytes hold, if they are UTF-8.
///
/// Calls `std::str::from_utf8`. The claim is that there is a text exactly where
/// the bytes are valid UTF-8, and that it is what they decode to.
#[verifier::external_body]
pub(crate) fn utf8_text(bytes: &Vec<u8>) -> (text: Option<String>)
    ensures
        text is Some <==> utf8::valid_utf8(bytes@),
        text matches Some(t) ==> t@ == utf8::decode_utf8(bytes@),
{
    std::str::from_utf8(bytes.as_slice()).ok().map(String::from)
}

/// What a header value becomes: its text, or nothing where it is no UTF-8.
pub open spec fn value_text(bytes: Seq<u8>) -> Seq<char> {
    if utf8::valid_utf8(bytes) {
        utf8::decode_utf8(bytes)
    } else {
        Seq::empty()
    }
}

/// The value of each name; the last header of a name decides.
pub open spec fn header_map(headers: Seq<Header>) -> Map<Seq<char>, Seq<char>>
    decreases headers.len(),
{
    if headers.len() == 0 {
        Map::empty()
    } else {
        header_map(headers.drop_last()).insert(
            headers.last().name@,
            value_text(headers.last().value@),
        )
    }
}

/// The pairs list `map`: each name once, with its value, in the order of the
/// names.
pub open spec fn lists(
    pairs: Seq<(Seq<char>, Seq<char>)>,
    map: Map<Seq<char>, Seq<char>>,
) -> bool {
    &&& forall|i: int, j: int|
        0 <= i < j < pairs.len() ==> text::precedes(
            (#[trigger] pairs[i]).0,
            (#[trigger] pairs[j]).0,
        )
    &&& forall|i: int|
        0 <= i < pairs.len() ==> map.contains_key((#[trigger] pairs[i]).0) && map[pairs[i].0]
            == pairs[i].1
    &&& forall|name: Seq<char>| #[trigger]
        map.contains_key(name) ==> exists|i: int|
            0 <= i < pairs.len() && (#[trigger] pairs[i]).0 == name
}

/// The pairs of a finite map in the order of the names.
pub open spec fn sorted_pairs(map: Map<Seq<char>, Seq<char>>) -> Seq<(Seq<char>, Seq<char>)> {
    choose|pairs: Seq<(Seq<char>, Seq<char>)>| lists(pairs, map)
}

/// Converts headers into pairs of name and value, one for each name and in the
/// order of the names. A value that is no UTF-8 becomes empty.
pub fn headers_to_btree(headers: &Vec<Header>) -> (pairs: Vec<(String, String)>)
    ensures
        lists(ops::text_pairs(pairs@), header_map(headers@)),
        ops::text_pairs(pairs@) == sorted_pairs(header_map(headers@)),
{
    let mut pairs: Vec<(String, String)> = Vec::new();
    let mut i: usize = 0;
    while i < headers.len()
        invariant
            i <= headers.len(),
            lists(ops::text_pairs(pairs@), header_map(headers@.take(i as int))),
        decreases headers.len() - i,
    {
        let header = &headers[i];
        let value = match utf8_text(&header.value) {
            Some(text) => text,
            None => String::new(),
        };
        assert(value@ =~= value_text(header.value@));
        assert(headers@.take(i + 1).drop_last() =~= headers@.take(i as int));
        put(&mut pairs, header.name.clone(), value, Ghost(header_map(headers@.take(i as int))));
        i = i + 1;
    }
    assert(headers@.take(i as int) =~= headers@);
    proof {
        let map = header_map(headers@);
        law_pairs_are_determined(ops::text_pairs(pairs@), sorted_pairs(map), map);
    }
    pairs
}

/// Gives `name` the value `value` in `pairs`, which list `map`.
fn put(
    pairs: &mut Vec<(String, String)>,
    name: String,
    value: String,
    Ghost(map): Ghost<Map<Seq<char>, Seq<char>>>,
)
    requires
        lists(ops::text_pairs(old(pairs)@), map),
    ensures
        lists(ops::text_pairs(final(pairs)@), map.insert(name@, value@)),
{
    let ghost before = ops::text_pairs(pairs@);
    let mut k: usize = 0;
    while k < pairs.len() && text::comes_before(pairs[k].0.as_str(), name.as_str())
        invariant
            k <= pairs.len(),
            pairs@ == old(pairs)@,
            before == ops::text_pairs(pairs@),
            forall|j: int| 0 <= j < k ==> text::precedes((#[trigger] before[j]).0, name@),
        decreases pairs.len() - k,
    {
        assert(before[k as int].0 == pairs@[k as int].0@);
        k = k + 1;
    }
    if k < pairs.len() && pairs[k].0 == name {
        pairs.set(k, (name, value));
        proof {
            lemma_replaced(before, map, k as int, name@, value@);
            assert(ops::text_pairs(pairs@) =~= before.update(k as int, (name@, value@)));
        }
    } else {
        pairs.insert(k, (name, value));
        proof {
            lemma_inserted(before, map, k as int, name@, value@);
            assert(ops::text_pairs(pairs@) =~= before.insert(k as int, (name@, value@)));
        }
    }
}

/// A new value for the name at index `k`.
proof fn lemma_replaced(
    before: Seq<(Seq<char>, Seq<char>)>,
    map: Map<Seq<char>, Seq<char>>,
    k: int,
    name: Seq<char>,
    value: Seq<char>,
)
    requires
        lists(before, map),
        0 <= k < before.len(),
        before[k].0 == name,
    ensures
        lists(before.update(k, (name, value)), map.insert(name, value)),
{
    let after = before.update(k, (name, value));
    let changed = map.insert(name, value);
    assert forall|i: int| 0 <= i < after.len() implies changed.contains_key(
        (#[trigger] after[i]).0,
    ) && changed[after[i].0] == after[i].1 by {
        if i != k {
            assert(after[i] == before[i]);
            text::lemma_precedes_total(before[i].0, name);
            if i < k {
                assert(text::precedes(before[i].0, before[k].0));
            } else {
                assert(text::precedes(before[k].0, before[i].0));
            }
        }
    }
    assert forall|i: int, j: int| 0 <= i < j < after.len() implies text::precedes(
        (#[trigger] after[i]).0,
        (#[trigger] after[j]).0,
    ) by {
        assert(after[i].0 == before[i].0);
        assert(after[j].0 == before[j].0);
    }
    assert forall|n: Seq<char>| #[trigger] changed.contains_key(n) implies exists|j: int|
        0 <= j < after.len() && (#[trigger] after[j]).0 == n by {
        if n == name {
            assert(after[k].0 == n);
        } else {
            assert(map.contains_key(n));
            let j = choose|j: int| 0 <= j < before.len() && (#[trigger] before[j]).0 == n;
            assert(after[j].0 == n);
        }
    }
}

/// A new name at index `k`, where the names before it end.
proof fn lemma_inserted(
    before: Seq<(Seq<char>, Seq<char>)>,
    map: Map<Seq<char>, Seq<char>>,
    k: int,
    name: Seq<char>,
    value: Seq<char>,
)
    requires
        lists(before, map),
        0 <= k <= before.len(),
        forall|j: int| 0 <= j < k ==> text::precedes((#[trigger] before[j]).0, name),
        k < before.len() ==> before[k].0 != name && !text::precedes(before[k].0, name),
    ensures
        lists(before.insert(k, (name, value)), map.insert(name, value)),
{
    let after = before.insert(k, (name, value));
    let changed = map.insert(name, value);
    // Everything from k on follows the name.
    assert forall|j: int| k <= j < before.len() implies text::precedes(
        name,
        (#[trigger] before[j]).0,
    ) by {
        text::lemma_precedes_total(before[k].0, name);
        if j > k {
            text::lemma_precedes_transitive(name, before[k].0, before[j].0);
        }
    }
    assert forall|i: int| 0 <= i < after.len() implies after[i] == if i < k {
        before[i]
    } else if i == k {
        (name, value)
    } else {
        before[i - 1]
    } by {}
    assert forall|i: int| 0 <= i < after.len() implies changed.contains_key(
        (#[trigger] after[i]).0,
    ) && changed[after[i].0] == after[i].1 by {
        if i < k {
            text::lemma_precedes_total(before[i].0, name);
        } else if i > k {
            text::lemma_precedes_total(name, before[i - 1].0);
        }
    }
    assert forall|i: int, j: int| 0 <= i < j < after.len() implies text::precedes(
        (#[trigger] after[i]).0,
        (#[trigger] after[j]).0,
    ) by {
        if j < k {
            assert(text::precedes(before[i].0, before[j].0));
        } else if i > k {
            assert(text::precedes(before[i - 1].0, before[j - 1].0));
        } else if i < k && j > k {
            assert(text::precedes(before[i].0, before[j - 1].0));
        } else if j == k {
            assert(text::precedes(before[i].0, name));
        } else {
            assert(text::precedes(name, before[j - 1].0));
        }
    }
    assert forall|n: Seq<char>| #[trigger] changed.contains_key(n) implies exists|j: int|
        0 <= j < after.len() && (#[trigger] after[j]).0 == n by {
        if n == name {
            assert(after[k].0 == n);
        } else {
            assert(map.contains_key(n));
            let j = choose|j: int| 0 <= j < before.len() && (#[trigger] before[j]).0 == n;
            if j < k {
                assert(after[j].0 == n);
            } else {
                assert(after[j + 1].0 == n);
            }
        }
    }
}

/// How many of the first pairs come before `name`.
spec fn place(pairs: Seq<(Seq<char>, Seq<char>)>, name: Seq<char>) -> int
    decreases pairs.len(),
{
    if pairs.len() == 0 || !text::precedes(pairs[0].0, name) {
        0
    } else {
        1 + place(pairs.skip(1), name)
    }
}

proof fn lemma_place(pairs: Seq<(Seq<char>, Seq<char>)>, name: Seq<char>)
    ensures
        0 <= place(pairs, name) <= pairs.len(),
        forall|j: int|
            0 <= j < place(pairs, name) ==> text::precedes((#[trigger] pairs[j]).0, name),
        place(pairs, name) < pairs.len() ==> !text::precedes(pairs[place(pairs, name)].0, name),
    decreases pairs.len(),
{
    if pairs.len() > 0 && text::precedes(pairs[0].0, name) {
        let rest = pairs.skip(1);
        lemma_place(rest, name);
        assert forall|j: int| 0 <= j < place(pairs, name) implies text::precedes(
            (#[trigger] pairs[j]).0,
            name,
        ) by {
            if j > 0 {
                assert(rest[j - 1] == pairs[j]);
            }
        }
    }
}

// ---------------------------------------------------------------------------
// Laws
// ---------------------------------------------------------------------------

/// The sorted pairs of headers list them: each name once, with its value, in
/// the order of the names.
pub proof fn law_sorted_pairs_list(headers: Seq<Header>)
    ensures
        lists(sorted_pairs(header_map(headers)), header_map(headers)),
    decreases headers.len(),
{
    let map = header_map(headers);
    if headers.len() == 0 {
        assert(lists(Seq::empty(), map));
    } else {
        let name = headers.last().name@;
        let value = value_text(headers.last().value@);
        let before = sorted_pairs(header_map(headers.drop_last()));
        law_sorted_pairs_list(headers.drop_last());
        lemma_place(before, name);
        let k = place(before, name);
        if k < before.len() && before[k].0 == name {
            lemma_replaced(before, header_map(headers.drop_last()), k, name, value);
        } else {
            lemma_inserted(before, header_map(headers.drop_last()), k, name, value);
        }
    }
}

/// The order of the names leaves only one way to list a map.
pub proof fn law_pairs_are_determined(
    a: Seq<(Seq<char>, Seq<char>)>,
    b: Seq<(Seq<char>, Seq<char>)>,
    map: Map<Seq<char>, Seq<char>>,
)
    requires
        lists(a, map),
        lists(b, map),
    ensures
        a == b,
{
    lemma_common_part(a, b, map, a.len());
    lemma_common_part(b, a, map, b.len());
    assert(a =~= b);
}

/// The first `n` pairs of one list are those of the other.
proof fn lemma_common_part(
    a: Seq<(Seq<char>, Seq<char>)>,
    b: Seq<(Seq<char>, Seq<char>)>,
    map: Map<Seq<char>, Seq<char>>,
    n: nat,
)
    requires
        lists(a, map),
        lists(b, map),
        n <= a.len(),
    ensures
        n <= b.len(),
        forall|i: int| 0 <= i < n ==> #[trigger] a[i] == b[i],
    decreases n,
{
    if n > 0 {
        let last = n - 1;
        lemma_common_part(a, b, map, last as nat);
        // The pair stands in the other list, and not among the first ones.
        assert(map.contains_key(a[last].0));
        let j = choose|j: int| 0 <= j < b.len() && (#[trigger] b[j]).0 == a[last].0;
        if j < last {
            assert(a[j] == b[j]);
            text::lemma_precedes_total(a[j].0, a[last].0);
        }
        // The pair of the other list at this place stands in this one too.
        assert(map.contains_key(b[last].0));
        let i = choose|i: int| 0 <= i < a.len() && (#[trigger] a[i]).0 == b[last].0;
        if i < last {
            assert(a[i] == b[i]);
            text::lemma_precedes_total(b[i].0, b[last].0);
        }
        if j > last {
            assert(text::precedes(b[last].0, b[j].0));
            if i > last {
                assert(text::precedes(a[last].0, a[i].0));
                text::lemma_precedes_total(a[last].0, a[i].0);
            } else {
                text::lemma_precedes_total(b[last].0, b[j].0);
            }
        }
        assert(a[last].0 == b[last].0);
    }
}

/// Every name that occurs among the headers is kept, and its value is that of
/// its last header.
pub proof fn law_last_header_decides(headers: Seq<Header>, i: int)
    requires
        0 <= i < headers.len(),
        forall|j: int| i < j < headers.len() ==> (#[trigger] headers[j]).name@ != headers[i].name@,
    ensures
        header_map(headers).contains_key(headers[i].name@),
        header_map(headers)[headers[i].name@] == value_text(headers[i].value@),
    decreases headers.len(),
{
    if i < headers.len() - 1 {
        assert(headers.drop_last()[i] == headers[i]);
        law_last_header_decides(headers.drop_last(), i);
        assert(headers.last().name@ != headers[i].name@);
    }
}

/// A header value is kept as it is where it is UTF-8, and empty otherwise.
pub proof fn law_utf8_values_are_kept(bytes: Seq<u8>)
    ensures
        utf8::valid_utf8(bytes) ==> utf8::encode_utf8(value_text(bytes)) == bytes,
        !utf8::valid_utf8(bytes) ==> value_text(bytes).len() == 0,
{
    if utf8::valid_utf8(bytes) {
        utf8::decode_utf8_encode_utf8(bytes);
    }
}

/// What the platform is handed of headers: the names in ascending order, the
/// value of the last header of each name, and nothing that is no header.
pub proof fn law_headers_come_out_by_name(headers: Seq<Header>, pairs: Seq<(String, String)>)
    requires
        ops::text_pairs(pairs) == sorted_pairs(header_map(headers)),
    ensures
        forall|i: int, j: int|
            0 <= i < j < pairs.len() ==> text::precedes(
                (#[trigger] pairs[i]).0@,
                (#[trigger] pairs[j]).0@,
            ),
        forall|i: int|
            0 <= i < pairs.len() ==> decided_by_a_header(
                headers,
                (#[trigger] pairs[i]).0@,
                pairs[i].1@,
            ),
        forall|k: int|
            #[trigger] last_of_its_name(headers, k) ==> exists|i: int|
                0 <= i < pairs.len() && (#[trigger] pairs[i]).0@ == headers[k].name@
                    && pairs[i].1@ == value_text(headers[k].value@),
{
    let map = header_map(headers);
    let listed = ops::text_pairs(pairs);
    law_sorted_pairs_list(headers);
    assert forall|i: int, j: int| 0 <= i < j < pairs.len() implies text::precedes(
        (#[trigger] pairs[i]).0@,
        (#[trigger] pairs[j]).0@,
    ) by {
        assert(text::precedes(listed[i].0, listed[j].0));
    }
    assert forall|i: int| 0 <= i < pairs.len() implies decided_by_a_header(
        headers,
        (#[trigger] pairs[i]).0@,
        pairs[i].1@,
    ) by {
        assert(map.contains_key(listed[i].0));
        let k = lemma_header_of_name(headers, listed[i].0);
        law_last_header_decides(headers, k);
    }
    assert forall|k: int| #[trigger] last_of_its_name(headers, k) implies exists|i: int|
        0 <= i < pairs.len() && (#[trigger] pairs[i]).0@ == headers[k].name@ && pairs[i].1@
            == value_text(headers[k].value@) by {
        law_last_header_decides(headers, k);
        let i = choose|i: int| 0 <= i < listed.len() && (#[trigger] listed[i]).0 == headers[k].name@;
        assert(pairs[i].0@ == headers[k].name@);
    }
}

/// The header at index `k` is the last one of its name.
pub open spec fn last_of_its_name(headers: Seq<Header>, k: int) -> bool {
    &&& 0 <= k < headers.len()
    &&& forall|j: int| k < j < headers.len() ==> (#[trigger] headers[j]).name@ != headers[k].name@
}

/// Some header is the last one of `name` and gives it `value`.
pub open spec fn decided_by_a_header(
    headers: Seq<Header>,
    name: Seq<char>,
    value: Seq<char>,
) -> bool {
    exists|k: int|
        {
            &&& #[trigger] last_of_its_name(headers, k)
            &&& headers[k].name@ == name
            &&& value_text(headers[k].value@) == value
        }
}

proof fn lemma_header_of_name(headers: Seq<Header>, name: Seq<char>) -> (k: int)
    requires
        header_map(headers).contains_key(name),
    ensures
        last_of_its_name(headers, k),
        headers[k].name@ == name,
    decreases headers.len(),
{
    let n = headers.len() - 1;
    if headers[n].name@ == name {
        n
    } else {
        let k = lemma_header_of_name(headers.drop_last(), name);
        assert(headers.drop_last()[k] == headers[k]);
        assert forall|j: int| k < j < headers.len() implies (#[trigger] headers[j]).name@
            != headers[k].name@ by {
            if j < n {
                assert(headers.drop_last()[j] == headers[j]);
            }
        }
        k
    }
}

} // verus!
