//! Text as sequences of characters: searching, ordering, splitting, joining and
//! trimming.

use vstd::prelude::*;
use vstd::string::*;

verus! {

// ---------------------------------------------------------------------------
// Searching
// ---------------------------------------------------------------------------

/// `pat` stands in `s` at index `at`.
pub open spec fn occurs_at(s: Seq<char>, pat: Seq<char>, at: int) -> bool {
    0 <= at && at + pat.len() <= s.len() && s.subrange(at, at + pat.len()) == pat
}

/// `s` begins with `pat`.
pub open spec fn begins_with(s: Seq<char>, pat: Seq<char>) -> bool {
    occurs_at(s, pat, 0)
}

/// `pat` stands somewhere in `s`.
pub open spec fn has_within(s: Seq<char>, pat: Seq<char>) -> bool {
    exists|at: int| occurs_at(s, pat, at)
}

/// The index of the first `c` in `s`, or the length of `s` where there is none.
pub open spec fn find_char(s: Seq<char>, c: char) -> int
    decreases s.len(),
{
    if s.len() == 0 || s[0] == c {
        0
    } else {
        1 + find_char(s.skip(1), c)
    }
}

/// The characters of `s`.
pub fn chars_of(s: &str) -> (chars: Vec<char>)
    ensures
        chars@ == s@,
{
    let mut chars: Vec<char> = Vec::new();
    for c in it: s.chars()
        invariant
            chars@ == it.seq().take(it.index() as int),
            it.seq() == s@,
    {
        chars.push(c);
    }
    chars
}

/// Whether `pat` stands in `s` at index `at`.
fn matches_at(s: &Vec<char>, pat: &Vec<char>, at: usize) -> (found: bool)
    requires
        at <= s.len(),
    ensures
        found == occurs_at(s@, pat@, at as int),
{
    if pat.len() > s.len() - at {
        return false;
    }
    let mut k: usize = 0;
    while k < pat.len()
        invariant
            at + pat.len() <= s.len(),
            k <= pat.len(),
            forall|j: int| 0 <= j < k ==> s@[at + j] == #[trigger] pat@[j],
        decreases pat.len() - k,
    {
        if s[at + k] != pat[k] {
            assert(s@.subrange(at as int, at + pat.len())[k as int] != pat@[k as int]);
            return false;
        }
        k = k + 1;
    }
    assert(s@.subrange(at as int, at + pat.len()) =~= pat@);
    true
}

/// Whether `s` begins with `pat`.
pub fn starts_with(s: &str, pat: &str) -> (found: bool)
    ensures
        found == begins_with(s@, pat@),
{
    let text = chars_of(s);
    let prefix = chars_of(pat);
    matches_at(&text, &prefix, 0)
}

// ---------------------------------------------------------------------------
// Order
// ---------------------------------------------------------------------------

/// `a` comes before `b` in the order of their characters.
pub open spec fn precedes(a: Seq<char>, b: Seq<char>) -> bool
    decreases a.len(),
{
    if b.len() == 0 {
        false
    } else if a.len() == 0 {
        true
    } else {
        a[0] < b[0] || (a[0] == b[0] && precedes(a.skip(1), b.skip(1)))
    }
}

/// Of two texts one comes before the other, unless they are the same.
pub proof fn lemma_precedes_total(a: Seq<char>, b: Seq<char>)
    ensures
        precedes(a, b) || precedes(b, a) || a == b,
        !(precedes(a, b) && precedes(b, a)),
        a == b ==> !precedes(a, b),
    decreases a.len(),
{
    if a.len() > 0 && b.len() > 0 {
        lemma_precedes_total(a.skip(1), b.skip(1));
        if a[0] == b[0] && a.skip(1) == b.skip(1) {
            assert(a =~= seq![a[0]] + a.skip(1));
            assert(b =~= seq![b[0]] + b.skip(1));
        }
    } else if a.len() == 0 && b.len() == 0 {
        assert(a =~= b);
    }
}

/// What comes before something comes before all that follows it.
pub proof fn lemma_precedes_transitive(a: Seq<char>, b: Seq<char>, c: Seq<char>)
    requires
        precedes(a, b),
        precedes(b, c),
    ensures
        precedes(a, c),
    decreases a.len(),
{
    if a.len() > 0 && a[0] == b[0] && b[0] == c[0] {
        lemma_precedes_transitive(a.skip(1), b.skip(1), c.skip(1));
    }
}

/// Whether `a` comes before `b` in the order of their characters.
pub fn comes_before(a: &str, b: &str) -> (before: bool)
    ensures
        before == precedes(a@, b@),
{
    let left = chars_of(a);
    let right = chars_of(b);
    let mut i: usize = 0;
    assert(a@.skip(0) =~= a@);
    assert(b@.skip(0) =~= b@);
    while i < left.len() && i < right.len()
        invariant
            left@ == a@,
            right@ == b@,
            i <= left.len(),
            i <= right.len(),
            precedes(a@, b@) == precedes(a@.skip(i as int), b@.skip(i as int)),
        decreases left.len() - i,
    {
        if left[i] != right[i] {
            return left[i] < right[i];
        }
        assert(a@.skip(i as int).skip(1) =~= a@.skip(i + 1));
        assert(b@.skip(i as int).skip(1) =~= b@.skip(i + 1));
        i = i + 1;
    }
    i < right.len()
}

// ---------------------------------------------------------------------------
// Splitting and joining
// ---------------------------------------------------------------------------

/// The pieces of `s` between the occurrences of `pat`, which are looked for
/// from left to right and do not overlap. An empty `pat` splits nothing.
pub open spec fn split(s: Seq<char>, pat: Seq<char>) -> Seq<Seq<char>>
    decreases s.len(),
{
    if pat.len() == 0 || s.len() < pat.len() {
        seq![s]
    } else if begins_with(s, pat) {
        seq![Seq::<char>::empty()] + split(s.skip(pat.len() as int), pat)
    } else {
        let rest = split(s.skip(1), pat);
        seq![seq![s[0]] + rest[0]] + rest.skip(1)
    }
}

/// The pieces in their order, with `sep` between each two.
pub open spec fn join(pieces: Seq<Seq<char>>, sep: Seq<char>) -> Seq<char>
    decreases pieces.len(),
{
    if pieces.len() == 0 {
        Seq::empty()
    } else if pieces.len() == 1 {
        pieces[0]
    } else {
        pieces[0] + sep + join(pieces.skip(1), sep)
    }
}

/// `s` with each occurrence of `from`, looked for from left to right without
/// overlap, replaced by `to`.
pub open spec fn replace_all(s: Seq<char>, from: Seq<char>, to: Seq<char>) -> Seq<char> {
    join(split(s, from), to)
}

/// Where the first piece of a split ends: at the first occurrence of `pat`, or
/// with `s` where there is none.
pub proof fn lemma_split_first(s: Seq<char>, pat: Seq<char>)
    requires
        pat.len() > 0,
    ensures
        split(s, pat).len() >= 1,
        split(s, pat).len() == 1 ==> split(s, pat)[0] == s && !has_within(s, pat),
        split(s, pat).len() > 1 ==> {
            let k = split(s, pat)[0].len() as int;
            &&& occurs_at(s, pat, k)
            &&& forall|j: int| j < k ==> !occurs_at(s, pat, j)
            &&& split(s, pat) == seq![s.take(k)] + split(s.skip(k + pat.len()), pat)
        },
    decreases s.len(),
{
    let parts = split(s, pat);
    if s.len() < pat.len() {
    } else if begins_with(s, pat) {
        lemma_split_first(s.skip(pat.len() as int), pat);
        assert(parts[0].len() == 0);
        assert(s.take(0) =~= Seq::<char>::empty());
        assert(0int + pat.len() == pat.len() as int);
    } else {
        let tail = s.skip(1);
        let rest = split(tail, pat);
        lemma_split_first(tail, pat);
        assert(parts[0] == seq![s[0]] + rest[0]);
        assert(parts.len() == rest.len());
        assert forall|j: int| #[trigger] occurs_at(s, pat, j) implies j >= 1 && occurs_at(
            tail,
            pat,
            j - 1,
        ) by {
            assert(tail.subrange(j - 1, j - 1 + pat.len()) =~= s.subrange(j, j + pat.len()));
        }
        if rest.len() == 1 {
            assert(parts[0] =~= s);
            if has_within(s, pat) {
                let j = choose|j: int| occurs_at(s, pat, j);
                assert(occurs_at(tail, pat, j - 1));
            }
        } else {
            let k = rest[0].len() as int;
            assert(tail.subrange(k, k + pat.len()) =~= s.subrange(k + 1, k + 1 + pat.len()));
            assert(occurs_at(s, pat, k + 1));
            assert(rest[0] == tail.take(k));
            assert(parts[0] =~= s.take(k + 1));
            assert(tail.skip(k + pat.len()) =~= s.skip(k + 1 + pat.len()));
            assert(parts =~= seq![s.take(k + 1)] + split(s.skip(k + 1 + pat.len()), pat));
        }
    }
}

/// A split at a known first occurrence.
pub proof fn lemma_split_at_first(s: Seq<char>, pat: Seq<char>, k: int)
    requires
        pat.len() > 0,
        occurs_at(s, pat, k),
        forall|j: int| j < k ==> !occurs_at(s, pat, j),
    ensures
        split(s, pat) == seq![s.take(k)] + split(s.skip(k + pat.len()), pat),
{
    lemma_split_first(s, pat);
    let parts = split(s, pat);
    if parts.len() == 1 {
        assert(has_within(s, pat));
    } else {
        let first = parts[0].len() as int;
        if first < k {
            assert(!occurs_at(s, pat, first));
        } else if k < first {
            assert(!occurs_at(s, pat, k));
        }
    }
}

/// A split of text that does not hold `pat`.
pub proof fn lemma_split_none(s: Seq<char>, pat: Seq<char>)
    requires
        pat.len() > 0,
        !has_within(s, pat),
    ensures
        split(s, pat) == seq![s],
{
    lemma_split_first(s, pat);
    if split(s, pat).len() > 1 {
        assert(occurs_at(s, pat, split(s, pat)[0].len() as int));
    }
    assert(split(s, pat) =~= seq![s]);
}

/// No piece of a split at a character holds the character.
pub proof fn lemma_split_char_pieces(s: Seq<char>, c: char, i: int)
    requires
        0 <= i < split(s, seq![c]).len(),
    ensures
        !split(s, seq![c])[i].contains(c),
    decreases s.len(),
{
    let pat = seq![c];
    lemma_split_first(s, pat);
    let parts = split(s, pat);
    if i == 0 {
        if parts[0].contains(c) {
            let j = choose|j: int| 0 <= j < parts[0].len() && parts[0][j] == c;
            assert(s[j] == c);
            assert(s.subrange(j, j + 1) =~= pat);
            assert(occurs_at(s, pat, j));
        }
    } else {
        let tail = s.skip(parts[0].len() as int + 1);
        assert(parts[i] == split(tail, pat)[i - 1]);
        lemma_split_char_pieces(tail, c, i - 1);
    }
}

/// The first step of a join of two pieces or more.
pub proof fn lemma_join_first(first: Seq<char>, rest: Seq<Seq<char>>, sep: Seq<char>)
    requires
        rest.len() > 0,
    ensures
        join(seq![first] + rest, sep) == first + sep + join(rest, sep),
{
    assert((seq![first] + rest).skip(1) =~= rest);
}

/// Joining the pieces of a split with what it was split at gives the text back.
pub proof fn lemma_join_split(s: Seq<char>, pat: Seq<char>)
    requires
        pat.len() > 0,
    ensures
        join(split(s, pat), pat) == s,
    decreases s.len(),
{
    lemma_split_first(s, pat);
    let parts = split(s, pat);
    if parts.len() > 1 {
        let k = parts[0].len() as int;
        let tail = s.skip(k + pat.len());
        lemma_join_split(tail, pat);
        lemma_split_first(tail, pat);
        lemma_join_first(s.take(k), split(tail, pat), pat);
        assert(s =~= s.take(k) + pat + tail) by {
            assert(pat == s.subrange(k, k + pat.len()));
        }
    }
}

/// One more piece at the end of a join.
pub proof fn lemma_join_push(pieces: Seq<Seq<char>>, last: Seq<char>, sep: Seq<char>)
    ensures
        join(pieces.push(last), sep) == if pieces.len() == 0 {
            last
        } else {
            join(pieces, sep) + sep + last
        },
    decreases pieces.len(),
{
    if pieces.len() > 0 {
        assert(pieces.push(last).skip(1) =~= pieces.skip(1).push(last));
        lemma_join_push(pieces.skip(1), last, sep);
        if pieces.len() > 1 {
            assert(pieces[0] + sep + (join(pieces.skip(1), sep) + sep + last) =~= pieces[0] + sep
                + join(pieces.skip(1), sep) + sep + last);
        }
    }
}

/// A join of the pieces of two lists.
pub proof fn lemma_join_two(first: Seq<Seq<char>>, second: Seq<Seq<char>>, sep: Seq<char>)
    requires
        first.len() > 0,
        second.len() > 0,
    ensures
        join(first + second, sep) == join(first, sep) + sep + join(second, sep),
    decreases first.len(),
{
    let both = first + second;
    assert(both.skip(1) =~= first.skip(1) + second);
    if first.len() == 1 {
        assert(first.skip(1) + second =~= second);
    } else {
        lemma_join_two(first.skip(1), second, sep);
        assert(first[0] + sep + (join(first.skip(1), sep) + sep + join(second, sep)) =~= first[0]
            + sep + join(first.skip(1), sep) + sep + join(second, sep));
    }
}

/// The texts of a list of strings.
pub open spec fn texts(strings: Seq<String>) -> Seq<Seq<char>> {
    Seq::new(strings.len(), |i: int| strings[i]@)
}

/// A copy of a list of strings.
pub fn copy_texts(strings: &Vec<String>) -> (copy: Vec<String>)
    ensures
        copy.len() == strings.len(),
        texts(copy@) == texts(strings@),
{
    let mut copy: Vec<String> = Vec::new();
    let mut i: usize = 0;
    while i < strings.len()
        invariant
            i <= strings.len(),
            copy.len() == i,
            forall|j: int| 0 <= j < i ==> (#[trigger] copy@[j])@ == strings@[j]@,
        decreases strings.len() - i,
    {
        copy.push(strings[i].clone());
        i = i + 1;
    }
    assert(texts(copy@) =~= texts(strings@));
    copy
}

/// The pieces of `s` between the occurrences of `pat`.
pub fn split_text(s: &str, pat: &str) -> (pieces: Vec<String>)
    requires
        pat@.len() > 0,
    ensures
        texts(pieces@) == split(s@, pat@),
{
    let text = chars_of(s);
    let sep = chars_of(pat);
    let mut pieces: Vec<String> = Vec::new();
    let mut start: usize = 0;
    let mut i: usize = 0;
    proof {
        assert(s@.skip(0) =~= s@);
        assert(texts(pieces@) + split(s@, pat@) =~= split(s@, pat@));
    }
    while sep.len() <= text.len() - i
        invariant
            text@ == s@,
            sep@ == pat@,
            sep.len() > 0,
            start <= i <= text.len(),
            split(s@, pat@) == texts(pieces@) + split(s@.skip(start as int), pat@),
            forall|j: int| start <= j < i ==> !#[trigger] occurs_at(s@, pat@, j),
        decreases text.len() - i,
    {
        if matches_at(&text, &sep, i) {
            let piece = s.substring_char(start, i);
            let ghost before = pieces@;
            proof {
                let tail = s@.skip(start as int);
                let k = i - start;
                assert(tail.subrange(k, k + pat@.len()) =~= s@.subrange(
                    i as int,
                    i + pat@.len(),
                ));
                assert forall|j: int| j < k implies !occurs_at(tail, pat@, j) by {
                    if occurs_at(tail, pat@, j) {
                        assert(tail.subrange(j, j + pat@.len()) =~= s@.subrange(
                            start + j,
                            start + j + pat@.len(),
                        ));
                        assert(occurs_at(s@, pat@, start + j));
                    }
                }
                lemma_split_at_first(tail, pat@, k);
                assert(tail.take(k) =~= s@.subrange(start as int, i as int));
                assert(tail.skip(k + pat@.len()) =~= s@.skip(i + pat@.len()));
            }
            pieces.push(piece.to_string());
            i = i + sep.len();
            start = i;
            proof {
                assert(texts(pieces@) =~= texts(before) + seq![piece@]);
                assert(texts(before) + (seq![piece@] + split(s@.skip(start as int), pat@))
                    =~= texts(pieces@) + split(s@.skip(start as int), pat@));
            }
        } else {
            i = i + 1;
        }
    }
    let piece = s.substring_char(start, text.len());
    let ghost before = pieces@;
    proof {
        let tail = s@.skip(start as int);
        if has_within(tail, pat@) {
            let j = choose|j: int| occurs_at(tail, pat@, j);
            assert(tail.subrange(j, j + pat@.len()) =~= s@.subrange(
                start + j,
                start + j + pat@.len(),
            ));
            assert(occurs_at(s@, pat@, start + j));
        }
        lemma_split_none(tail, pat@);
        assert(piece@ =~= tail);
    }
    pieces.push(piece.to_string());
    assert(texts(pieces@) =~= texts(before) + seq![piece@]);
    pieces
}

/// The strings in their order, with `sep` between each two.
pub fn join_texts(pieces: &Vec<String>, sep: &str) -> (joined: String)
    ensures
        joined@ == join(texts(pieces@), sep@),
{
    let mut joined = String::new();
    let mut i: usize = 0;
    while i < pieces.len()
        invariant
            i <= pieces.len(),
            joined@ == join(texts(pieces@).take(i as int), sep@),
        decreases pieces.len() - i,
    {
        proof {
            let all = texts(pieces@);
            lemma_join_push(all.take(i as int), all[i as int], sep@);
            assert(all.take(i as int).push(all[i as int]) =~= all.take(i + 1));
        }
        if i > 0 {
            joined.append(sep);
        }
        joined.append(pieces[i].as_str());
        i = i + 1;
    }
    assert(texts(pieces@).take(i as int) =~= texts(pieces@));
    joined
}

/// `s` with each occurrence of `from` replaced by `to`.
pub fn replace_text(s: &str, from: &str, to: &str) -> (replaced: String)
    requires
        from@.len() > 0,
    ensures
        replaced@ == replace_all(s@, from@, to@),
{
    let pieces = split_text(s, from);
    join_texts(&pieces, to)
}

// ---------------------------------------------------------------------------
// Trimming
// ---------------------------------------------------------------------------

/// The characters with the Unicode property `White_Space`.
pub open spec fn white_space(c: char) -> bool {
    ||| '\u{9}' <= c <= '\u{D}'
    ||| c == ' '
    ||| c == '\u{85}'
    ||| c == '\u{A0}'
    ||| c == '\u{1680}'
    ||| '\u{2000}' <= c <= '\u{200A}'
    ||| c == '\u{2028}'
    ||| c == '\u{2029}'
    ||| c == '\u{202F}'
    ||| c == '\u{205F}'
    ||| c == '\u{3000}'
}

/// `s` without the white space it begins with.
pub open spec fn trim_start(s: Seq<char>) -> Seq<char>
    decreases s.len(),
{
    if s.len() > 0 && white_space(s[0]) {
        trim_start(s.skip(1))
    } else {
        s
    }
}

/// `s` without the white space it ends with.
pub open spec fn trim_end(s: Seq<char>) -> Seq<char>
    decreases s.len(),
{
    if s.len() > 0 && white_space(s.last()) {
        trim_end(s.drop_last())
    } else {
        s
    }
}

/// `s` without the white space at either end.
pub open spec fn trim(s: Seq<char>) -> Seq<char> {
    trim_end(trim_start(s))
}

/// `s` without the occurrences of `c` that it begins with.
pub open spec fn trim_start_char(s: Seq<char>, c: char) -> Seq<char>
    decreases s.len(),
{
    if s.len() > 0 && s[0] == c {
        trim_start_char(s.skip(1), c)
    } else {
        s
    }
}

/// Trimming takes a part of the text: it brings in no character.
pub proof fn lemma_trim_brings_nothing(s: Seq<char>, c: char)
    requires
        !s.contains(c),
    ensures
        !trim(s).contains(c),
{
    lemma_trim_start_brings_nothing(s, c);
    lemma_trim_end_brings_nothing(trim_start(s), c);
}

proof fn lemma_trim_start_brings_nothing(s: Seq<char>, c: char)
    requires
        !s.contains(c),
    ensures
        !trim_start(s).contains(c),
    decreases s.len(),
{
    if s.len() > 0 && white_space(s[0]) {
        assert forall|i: int| 0 <= i < s.len() - 1 implies s.skip(1)[i] != c by {
            assert(s.skip(1)[i] == s[i + 1]);
        }
        lemma_trim_start_brings_nothing(s.skip(1), c);
    }
}

proof fn lemma_trim_end_brings_nothing(s: Seq<char>, c: char)
    requires
        !s.contains(c),
    ensures
        !trim_end(s).contains(c),
    decreases s.len(),
{
    if s.len() > 0 && white_space(s.last()) {
        assert forall|i: int| 0 <= i < s.len() - 1 implies s.drop_last()[i] != c by {
            assert(s.drop_last()[i] == s[i]);
        }
        lemma_trim_end_brings_nothing(s.drop_last(), c);
    }
}

/// Whether `c` is white space.
pub fn is_white_space(c: char) -> (white: bool)
    ensures
        white == white_space(c),
{
    ('\u{9}' <= c && c <= '\u{D}') || c == ' ' || c == '\u{85}' || c == '\u{A0}' || c == '\u{1680}' || (
    '\u{2000}' <= c && c <= '\u{200A}') || c == '\u{2028}' || c == '\u{2029}' || c == '\u{202F}' || c
        == '\u{205F}' || c == '\u{3000}'
}

/// `s` without the white space at either end.
pub fn trim_text(s: &str) -> (trimmed: &str)
    ensures
        trimmed@ == trim(s@),
{
    let text = chars_of(s);
    let mut from: usize = 0;
    assert(s@.skip(0) =~= s@);
    while from < text.len() && is_white_space(text[from])
        invariant
            text@ == s@,
            from <= text.len(),
            trim_start(s@) == trim_start(s@.skip(from as int)),
        decreases text.len() - from,
    {
        assert(s@.skip(from as int).skip(1) =~= s@.skip(from + 1));
        from = from + 1;
    }
    let mut to: usize = text.len();
    let ghost kept = trim_start(s@);
    assert(kept == s@.skip(from as int));
    assert(kept =~= s@.subrange(from as int, to as int));
    while from < to && is_white_space(text[to - 1])
        invariant
            text@ == s@,
            from <= to <= text.len(),
            trim_end(kept) == trim_end(s@.subrange(from as int, to as int)),
        decreases to,
    {
        assert(s@.subrange(from as int, to as int).drop_last() =~= s@.subrange(
            from as int,
            to - 1,
        ));
        to = to - 1;
    }
    s.substring_char(from, to)
}

/// `s` without the occurrences of `c` that it begins with.
pub fn trim_start_char_text(s: &str, c: char) -> (trimmed: &str)
    ensures
        trimmed@ == trim_start_char(s@, c),
{
    let text = chars_of(s);
    let mut from: usize = 0;
    assert(s@.skip(0) =~= s@);
    while from < text.len() && text[from] == c
        invariant
            text@ == s@,
            from <= text.len(),
            trim_start_char(s@, c) == trim_start_char(s@.skip(from as int), c),
        decreases text.len() - from,
    {
        assert(s@.skip(from as int).skip(1) =~= s@.skip(from + 1));
        from = from + 1;
    }
    let end = text.len();
    assert(s@.skip(from as int) =~= s@.subrange(from as int, end as int));
    s.substring_char(from, end)
}

// ---------------------------------------------------------------------------
// Laws
// ---------------------------------------------------------------------------

/// Text is found where it was put.
pub proof fn law_found_where_put(a: Seq<char>, pat: Seq<char>, b: Seq<char>)
    ensures
        occurs_at(a + pat + b, pat, a.len() as int),
        has_within(a + pat + b, pat),
        begins_with(pat + b, pat),
{
    assert((a + pat + b).subrange(a.len() as int, a.len() as int + pat.len()) =~= pat);
    assert((pat + b).subrange(0, pat.len() as int) =~= pat);
}

/// Text is found only where it stands: the rest of the text is what stands
/// before and behind it.
pub proof fn law_found_only_where_it_stands(s: Seq<char>, pat: Seq<char>, at: int)
    ensures
        occurs_at(s, pat, at) ==> 0 <= at <= s.len() && s == s.take(at) + pat + s.skip(
            at + pat.len(),
        ),
        begins_with(s, pat) ==> s == pat + s.skip(pat.len() as int),
        has_within(s, pat) ==> exists|a: Seq<char>, b: Seq<char>| s == #[trigger] (a + pat + b),
{
    if occurs_at(s, pat, at) {
        assert(s =~= s.take(at) + s.subrange(at, at + pat.len()) + s.skip(at + pat.len()));
    }
    if begins_with(s, pat) {
        assert(s =~= s.subrange(0, pat.len() as int) + s.skip(pat.len() as int));
    }
    if has_within(s, pat) {
        let k = choose|k: int| occurs_at(s, pat, k);
        assert(s =~= s.take(k) + s.subrange(k, k + pat.len()) + s.skip(k + pat.len()));
        assert(s == s.take(k) + pat + s.skip(k + pat.len()));
    }
}

/// The first of a character is found: none stands before it, and it is missing
/// only where there is none at all.
pub proof fn law_first_char_is_found(s: Seq<char>, c: char)
    ensures
        0 <= find_char(s, c) <= s.len(),
        find_char(s, c) < s.len() ==> s[find_char(s, c)] == c,
        forall|j: int| 0 <= j < find_char(s, c) ==> s[j] != c,
    decreases s.len(),
{
    if s.len() > 0 && s[0] != c {
        law_first_char_is_found(s.skip(1), c);
        assert forall|j: int| 0 <= j < find_char(s, c) implies s[j] != c by {
            if j > 0 {
                assert(s.skip(1)[j - 1] == s[j]);
            }
        }
    }
}

/// The two texts are the same up to index `n`, where `a` ends or holds the
/// smaller character.
pub open spec fn parts_at(a: Seq<char>, b: Seq<char>, n: int) -> bool {
    &&& 0 <= n <= a.len()
    &&& n < b.len()
    &&& forall|j: int| 0 <= j < n ==> a[j] == b[j]
    &&& n == a.len() || a[n] < b[n]
}

/// The first character in which two texts differ decides which comes first; a
/// text comes before those that it begins.
pub proof fn law_first_difference_decides(a: Seq<char>, b: Seq<char>)
    ensures
        precedes(a, b) <==> exists|n: int| parts_at(a, b, n),
    decreases a.len(),
{
    if a.len() > 0 && b.len() > 0 {
        law_first_difference_decides(a.skip(1), b.skip(1));
        if precedes(a, b) {
            if a[0] < b[0] {
                assert(parts_at(a, b, 0));
            } else {
                let n = choose|n: int| parts_at(a.skip(1), b.skip(1), n);
                assert forall|j: int| 0 <= j < n + 1 implies a[j] == b[j] by {
                    if j > 0 {
                        assert(a.skip(1)[j - 1] == b.skip(1)[j - 1]);
                    }
                }
                assert(parts_at(a, b, n + 1));
            }
        }
        if exists|n: int| parts_at(a, b, n) {
            let n = choose|n: int| parts_at(a, b, n);
            if n > 0 {
                assert(parts_at(a.skip(1), b.skip(1), n - 1));
            }
        }
    } else if b.len() > 0 {
        assert(parts_at(a, b, 0));
    }
}

/// One piece is joined to itself, and a further one is put behind with the
/// separator between.
pub proof fn law_pieces_are_joined(pieces: Seq<Seq<char>>, last: Seq<char>, sep: Seq<char>)
    ensures
        join(Seq::empty(), sep).len() == 0,
        join(seq![last], sep) == last,
        pieces.len() > 0 ==> join(pieces.push(last), sep) == join(pieces, sep) + sep + last,
{
    lemma_join_push(pieces, last, sep);
}

/// What is replaced is the first occurrence, and then what stands behind it;
/// what stands before it stays, and so does text without an occurrence.
pub proof fn law_occurrences_are_replaced(
    a: Seq<char>,
    from: Seq<char>,
    b: Seq<char>,
    to: Seq<char>,
)
    requires
        from.len() > 0,
    ensures
        (forall|j: int| j < a.len() ==> !occurs_at(a + from + b, from, j)) ==> replace_all(
            a + from + b,
            from,
            to,
        ) == a + to + replace_all(b, from, to),
        !has_within(a, from) ==> replace_all(a, from, to) == a,
{
    let s = a + from + b;
    let k = a.len() as int;
    if forall|j: int| j < a.len() ==> !occurs_at(s, from, j) {
        law_found_where_put(a, from, b);
        lemma_split_at_first(s, from, k);
        assert(s.take(k) =~= a);
        assert(s.skip(k + from.len()) =~= b);
        lemma_split_first(b, from);
        lemma_join_first(a, split(b, from), to);
    }
    if !has_within(a, from) {
        lemma_split_none(a, from);
    }
}

/// Only white space is in `s`.
pub open spec fn all_white(s: Seq<char>) -> bool {
    forall|i: int| 0 <= i < s.len() ==> white_space(#[trigger] s[i])
}

/// `s` neither begins nor ends with white space.
pub open spec fn tight(s: Seq<char>) -> bool {
    s.len() > 0 ==> !white_space(s[0]) && !white_space(s.last())
}

/// Trimming leaves out white space at both ends, all of it and nothing else.
pub proof fn law_trimmed_of_white_space(s: Seq<char>)
    ensures
        tight(trim(s)),
        exists|a: Seq<char>, b: Seq<char>|
            #![trigger all_white(a), all_white(b)]
            all_white(a) && all_white(b) && s == a + trim(s) + b,
{
    lemma_trim_start_parts(s);
    let middle = trim_start(s);
    lemma_trim_end_parts(middle);
    let a = s.take(s.len() - middle.len());
    let b = middle.skip(trim(s).len() as int);
    assert(all_white(a) && all_white(b));
    assert(s =~= a + trim(s) + b);
}

/// White space around text that is tight is what trimming leaves out.
pub proof fn law_white_space_is_trimmed(a: Seq<char>, t: Seq<char>, b: Seq<char>)
    requires
        all_white(a),
        all_white(b),
        tight(t),
    ensures
        trim(a + t + b) == t,
{
    let s = a + t + b;
    lemma_trim_start_skips(a, t + b);
    assert(s =~= a + (t + b));
    if t.len() > 0 {
        assert((t + b)[0] == t[0]);
        assert(trim_start(t + b) == t + b);
        lemma_trim_end_skips(t, b);
        assert(trim_end(t) == t);
    } else {
        assert(t + b =~= b + Seq::empty());
        lemma_trim_start_skips(b, Seq::empty());
        assert(t =~= Seq::empty());
    }
}

proof fn lemma_trim_start_parts(s: Seq<char>)
    ensures
        trim_start(s).len() <= s.len(),
        s == s.take(s.len() - trim_start(s).len()) + trim_start(s),
        all_white(s.take(s.len() - trim_start(s).len())),
        trim_start(s).len() > 0 ==> !white_space(trim_start(s)[0]),
    decreases s.len(),
{
    if s.len() > 0 && white_space(s[0]) {
        let rest = s.skip(1);
        lemma_trim_start_parts(rest);
        let n = s.len() - trim_start(s).len();
        assert(s.take(n) =~= seq![s[0]] + rest.take(n - 1));
        assert(s =~= seq![s[0]] + rest);
        assert(s =~= s.take(n) + trim_start(s));
        assert forall|i: int| 0 <= i < n implies white_space(#[trigger] s.take(n)[i]) by {
            if i > 0 {
                assert(s.take(n)[i] == rest.take(n - 1)[i - 1]);
            }
        }
    } else {
        assert(s =~= s.take(0) + s);
    }
}

proof fn lemma_trim_end_parts(s: Seq<char>)
    ensures
        trim_end(s).len() <= s.len(),
        s == trim_end(s) + s.skip(trim_end(s).len() as int),
        all_white(s.skip(trim_end(s).len() as int)),
        trim_end(s).len() > 0 ==> !white_space(trim_end(s).last()),
        trim_end(s).len() > 0 ==> trim_end(s)[0] == s[0],
    decreases s.len(),
{
    if s.len() > 0 && white_space(s.last()) {
        let rest = s.drop_last();
        lemma_trim_end_parts(rest);
        let n = trim_end(s).len() as int;
        assert(s.skip(n) =~= rest.skip(n).push(s.last()));
        assert(s =~= rest.push(s.last()));
        assert(s =~= trim_end(s) + s.skip(n));
        assert forall|i: int| 0 <= i < s.len() - n implies white_space(#[trigger] s.skip(n)[i]) by {
            if i < rest.len() - n {
                assert(s.skip(n)[i] == rest.skip(n)[i]);
            }
        }
    } else {
        assert(s =~= s + s.skip(s.len() as int));
    }
}

proof fn lemma_trim_start_skips(a: Seq<char>, r: Seq<char>)
    requires
        all_white(a),
    ensures
        trim_start(a + r) == trim_start(r),
    decreases a.len(),
{
    if a.len() == 0 {
        assert(a + r =~= r);
    } else {
        assert(white_space(a[0]));
        assert((a + r).skip(1) =~= a.skip(1) + r);
        assert forall|i: int| 0 <= i < a.skip(1).len() implies white_space(
            #[trigger] a.skip(1)[i],
        ) by {
            assert(a.skip(1)[i] == a[i + 1]);
        }
        lemma_trim_start_skips(a.skip(1), r);
    }
}

proof fn lemma_trim_end_skips(r: Seq<char>, b: Seq<char>)
    requires
        all_white(b),
    ensures
        trim_end(r + b) == trim_end(r),
    decreases b.len(),
{
    if b.len() == 0 {
        assert(r + b =~= r);
    } else {
        assert(white_space(b[b.len() - 1]));
        assert((r + b).last() == b.last());
        assert((r + b).drop_last() =~= r + b.drop_last());
        assert forall|i: int| 0 <= i < b.drop_last().len() implies white_space(
            #[trigger] b.drop_last()[i],
        ) by {
            assert(b.drop_last()[i] == b[i]);
        }
        lemma_trim_end_skips(r, b.drop_last());
    }
}

/// Of a character at the start of a text all occurrences are left out, and
/// nothing behind them.
pub proof fn law_leading_char_is_trimmed(s: Seq<char>, c: char)
    ensures
        trim_start_char(s, c).len() <= s.len(),
        s.skip(s.len() - trim_start_char(s, c).len()) == trim_start_char(s, c),
        forall|i: int| 0 <= i < s.len() - trim_start_char(s, c).len() ==> s[i] == c,
        trim_start_char(s, c).len() > 0 ==> trim_start_char(s, c)[0] != c,
    decreases s.len(),
{
    if s.len() > 0 && s[0] == c {
        let rest = s.skip(1);
        law_leading_char_is_trimmed(rest, c);
        let n = s.len() - trim_start_char(s, c).len();
        assert(s.skip(n) =~= rest.skip(n - 1));
        assert forall|i: int| 0 <= i < n implies s[i] == c by {
            if i > 0 {
                assert(s[i] == rest[i - 1]);
            }
        }
    } else {
        assert(s.skip(0) =~= s);
    }
}

/// The texts of a list of strings are those of the strings, one for one.
pub proof fn law_texts_are_those_of_the_strings(strings: Seq<String>)
    ensures
        texts(strings).len() == strings.len(),
        forall|i: int| 0 <= i < strings.len() ==> #[trigger] texts(strings)[i] == strings[i]@,
{
}

} // verus!
