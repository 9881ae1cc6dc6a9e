//! Character classes and sequence operations shared by the parsers and the
//! reconciler, each with an executable version over `&[char]`.

use vstd::prelude::*;
use vstd::slice::slice_subrange;

verus! {

/// The characters that count as white space: the code points with the Unicode
/// property `White_Space`.
pub open spec fn is_space(c: char) -> bool {
    ||| '\u{9}' <= c <= '\u{d}'
    ||| c == ' '
    ||| c == '\u{85}'
    ||| c == '\u{a0}'
    ||| c == '\u{1680}'
    ||| '\u{2000}' <= c <= '\u{200a}'
    ||| c == '\u{2028}'
    ||| c == '\u{2029}'
    ||| c == '\u{202f}'
    ||| c == '\u{205f}'
    ||| c == '\u{3000}'
}

/// Whether `c` is white space.
pub fn is_space_char(c: char) -> (b: bool)
    ensures
        b == is_space(c),
{
    ('\u{9}' <= c && c <= '\u{d}') || c == ' ' || c == '\u{85}' || c == '\u{a0}' || c == '\u{1680}'
        || ('\u{2000}' <= c && c <= '\u{200a}') || c == '\u{2028}' || c == '\u{2029}' || c
        == '\u{202f}' || c == '\u{205f}' || c == '\u{3000}'
}

/// The characters an environment key is made of: `A`-`Z`, `0`-`9` and `_`.
pub open spec fn is_key_char(c: char) -> bool {
    ('A' <= c <= 'Z') || ('0' <= c <= '9') || c == '_'
}

/// Whether `c` may stand in an environment key.
pub fn is_key_character(c: char) -> (b: bool)
    ensures
        b == is_key_char(c),
{
    ('A' <= c && c <= 'Z') || ('0' <= c && c <= '9') || c == '_'
}

/// A single or a double quote.
pub open spec fn is_quote(c: char) -> bool {
    c == '"' || c == '\''
}

/// Whether `c` is a single or a double quote.
pub fn is_quote_char(c: char) -> (b: bool)
    ensures
        b == is_quote(c),
{
    c == '"' || c == '\''
}

/// The first index at or after `from` that holds no white space, or the
/// length of `s` if there is none.
pub open spec fn spaces_end(s: Seq<char>, from: int) -> int
    decreases s.len() - from,
{
    if 0 <= from < s.len() && is_space(s[from]) {
        spaces_end(s, from + 1)
    } else {
        from
    }
}

/// The first index at or after `from` that holds no white space.
pub fn skip_spaces(s: &[char], from: usize) -> (end: usize)
    ensures
        end == spaces_end(s@, from as int),
        from <= end,
        from <= s@.len() ==> end <= s@.len(),
{
    let mut i: usize = from;
    while i < s.len() && is_space_char(s[i])
        invariant
            from <= i,
            from <= s@.len() ==> i <= s@.len(),
            spaces_end(s@, from as int) == spaces_end(s@, i as int),
        decreases s@.len() - i,
    {
        i = i + 1;
    }
    i
}

/// The first index at or after `from` that holds no key character, or the
/// length of `s` if there is none.
pub open spec fn key_end(s: Seq<char>, from: int) -> int
    decreases s.len() - from,
{
    if 0 <= from < s.len() && is_key_char(s[from]) {
        key_end(s, from + 1)
    } else {
        from
    }
}

/// The first index at or after `from` that holds no key character.
pub fn skip_key(s: &[char], from: usize) -> (end: usize)
    ensures
        end == key_end(s@, from as int),
        from <= end,
        from <= s@.len() ==> end <= s@.len(),
{
    let mut i: usize = from;
    while i < s.len() && is_key_character(s[i])
        invariant
            from <= i,
            from <= s@.len() ==> i <= s@.len(),
            key_end(s@, from as int) == key_end(s@, i as int),
        decreases s@.len() - i,
    {
        i = i + 1;
    }
    i
}

/// The first index at or after `from` that holds `c`, or the length of `s` if
/// there is none.
pub open spec fn find_char(s: Seq<char>, from: int, c: char) -> int
    decreases s.len() - from,
{
    if 0 <= from < s.len() && s[from] != c {
        find_char(s, from + 1, c)
    } else {
        from
    }
}

/// The first index at or after `from` that holds `c`.
pub fn find(s: &[char], from: usize, c: char) -> (at: usize)
    ensures
        at == find_char(s@, from as int, c),
        from <= at,
        from <= s@.len() ==> at <= s@.len(),
{
    let mut i: usize = from;
    while i < s.len() && s[i] != c
        invariant
            from <= i,
            from <= s@.len() ==> i <= s@.len(),
            find_char(s@, from as int, c) == find_char(s@, i as int, c),
        decreases s@.len() - i,
    {
        i = i + 1;
    }
    i
}

/// The index just after the last `c` among the first `to` characters of `s`,
/// or 0 if `c` is not among them.
pub open spec fn last_char_end(s: Seq<char>, to: int, c: char) -> int
    decreases to,
{
    if 0 < to <= s.len() && s[to - 1] != c {
        last_char_end(s, to - 1, c)
    } else {
        to
    }
}

/// The index just after the last `c` in `s`, or 0 if `s` holds no `c`.
pub fn find_last_end(s: &[char], c: char) -> (end: usize)
    ensures
        end == last_char_end(s@, s@.len() as int, c),
        end <= s@.len(),
{
    let mut b: usize = s.len();
    while b > 0 && s[b - 1] != c
        invariant
            b <= s@.len(),
            last_char_end(s@, s@.len() as int, c) == last_char_end(s@, b as int, c),
        decreases b,
    {
        b = b - 1;
    }
    b
}

/// The three searches that run forward end at or after their start and
/// within the text.
pub proof fn lemma_search_bounds(s: Seq<char>, from: int, c: char)
    requires
        0 <= from <= s.len(),
    ensures
        from <= spaces_end(s, from) <= s.len(),
        from <= key_end(s, from) <= s.len(),
        from <= find_char(s, from, c) <= s.len(),
    decreases s.len() - from,
{
    if from < s.len() {
        lemma_search_bounds(s, from + 1, c);
    }
}

/// Where [`find_char`] ends: on `c` or at the length, with no `c` before.
pub proof fn lemma_find_char(s: Seq<char>, from: int, c: char)
    requires
        0 <= from <= s.len(),
    ensures
        from <= find_char(s, from, c) <= s.len(),
        find_char(s, from, c) < s.len() ==> s[find_char(s, from, c)] == c,
        forall|i: int| from <= i < find_char(s, from, c) ==> s[i] != c,
    decreases s.len() - from,
{
    if from < s.len() && s[from] != c {
        lemma_find_char(s, from + 1, c);
    }
}

/// What [`find_char`] finds: the index `at`, if `c` stands there and nowhere
/// between `from` and there, or the length where `c` does not come at all.
pub proof fn lemma_find_char_is(s: Seq<char>, from: int, c: char, at: int)
    requires
        0 <= from <= at <= s.len(),
        forall|i: int| from <= i < at ==> s[i] != c,
        at < s.len() ==> s[at] == c,
    ensures
        find_char(s, from, c) == at,
    decreases at - from,
{
    if from < at {
        lemma_find_char_is(s, from + 1, c, at);
    }
}

/// The start of the white space that `s` ends with, looking only at the
/// first `to` characters.
pub open spec fn spaces_start(s: Seq<char>, to: int) -> int
    decreases to,
{
    if 0 < to <= s.len() && is_space(s[to - 1]) {
        spaces_start(s, to - 1)
    } else {
        to
    }
}

/// `s` without the white space at its two ends.
pub open spec fn trim(s: Seq<char>) -> Seq<char> {
    let a = spaces_end(s, 0);
    let b = spaces_start(s, s.len() as int);
    if a < b {
        s.subrange(a, b)
    } else {
        Seq::empty()
    }
}

/// `s` without the white space at its two ends.
pub fn trimmed(s: &[char]) -> (r: &[char])
    ensures
        r@ == trim(s@),
{
    let a = skip_spaces(s, 0);
    let mut b: usize = s.len();
    while b > 0 && is_space_char(s[b - 1])
        invariant
            b <= s@.len(),
            spaces_start(s@, s@.len() as int) == spaces_start(s@, b as int),
        decreases b,
    {
        b = b - 1;
    }
    if a < b {
        slice_subrange(s, a, b)
    } else {
        slice_subrange(s, 0, 0)
    }
}

/// `needle` stands in `hay` at index `at`.
pub open spec fn occurs_at(hay: Seq<char>, needle: Seq<char>, at: int) -> bool {
    &&& 0 <= at
    &&& at + needle.len() <= hay.len()
    &&& hay.subrange(at, at + needle.len()) == needle
}

/// Whether `needle` stands in `hay` at index `at`.
pub fn occurs(hay: &[char], needle: &[char], at: usize) -> (b: bool)
    ensures
        b == occurs_at(hay@, needle@, at as int),
{
    let size: usize = hay.len();
    if at > size || needle.len() > size - at {
        return false;
    }
    let mut j: usize = 0;
    while j < needle.len()
        invariant
            j <= needle@.len(),
            at + needle@.len() <= hay@.len() == size,
            forall|k: int| 0 <= k < j ==> hay@[at + k] == needle@[k],
        decreases needle@.len() - j,
    {
        if hay[at + j] != needle[j] {
            assert(hay@.subrange(at as int, at + needle@.len())[j as int] != needle@[j as int]);
            return false;
        }
        j = j + 1;
    }
    assert(hay@.subrange(at as int, at + needle@.len()) =~= needle@);
    true
}

/// Whether `a` and `b` hold the same characters.
pub fn same_chars(a: &[char], b: &[char]) -> (same: bool)
    ensures
        same == (a@ == b@),
{
    if a.len() != b.len() {
        return false;
    }
    let same = occurs(a, b, 0);
    assert(a@.subrange(0, a@.len() as int) =~= a@);
    same
}

/// `needle` stands somewhere in `hay`, as an unbroken run of characters.
pub open spec fn contains(hay: Seq<char>, needle: Seq<char>) -> bool {
    exists|at: int| occurs_at(hay, needle, at)
}

/// Whether `needle` stands somewhere in `hay`.
pub fn has_substring(hay: &[char], needle: &[char]) -> (b: bool)
    ensures
        b == contains(hay@, needle@),
{
    if needle.len() > hay.len() {
        return false;
    }
    let last: usize = hay.len() - needle.len();
    let mut i: usize = 0;
    while i < last
        invariant
            i <= last,
            last == hay@.len() - needle@.len(),
            forall|k: int| 0 <= k < i ==> !occurs_at(hay@, needle@, k),
        decreases last - i,
    {
        if occurs(hay, needle, i) {
            return true;
        }
        i = i + 1;
    }
    occurs(hay, needle, last)
}

/// Every text holds itself.
pub proof fn lemma_contains_itself(s: Seq<char>)
    ensures
        contains(s, s),
{
    assert(s.subrange(0, s.len() as int) =~= s);
    assert(occurs_at(s, s, 0));
}

/// A text that holds `needle` still holds it with more text around it.
pub proof fn lemma_contains_inside(
    before: Seq<char>,
    mid: Seq<char>,
    after: Seq<char>,
    needle: Seq<char>,
)
    requires
        contains(mid, needle),
    ensures
        contains(before + mid + after, needle),
{
    let at = choose|at: int| occurs_at(mid, needle, at);
    let whole = before + mid + after;
    assert(whole.subrange(before.len() + at, before.len() + at + needle.len()) =~= mid.subrange(
        at,
        at + needle.len(),
    ));
    assert(occurs_at(whole, needle, before.len() + at));
}

/// The letter `c` in lower case if it is one of `A`-`Z`, else `c` itself.
pub open spec fn fold_char(c: char) -> char {
    if 'A' <= c <= 'Z' {
        ((c as u8) + 32) as char
    } else {
        c
    }
}

/// The letter `c` in lower case if it is one of `A`-`Z`, else `c` itself.
pub fn folded(c: char) -> (r: char)
    ensures
        r == fold_char(c),
{
    if 'A' <= c && c <= 'Z' {
        ((c as u8) + 32) as char
    } else {
        c
    }
}

/// `s` with each of the letters `A`-`Z` in lower case.
pub open spec fn lower(s: Seq<char>) -> Seq<char> {
    Seq::new(s.len(), |i: int| fold_char(s[i]))
}

/// `s` with each of the letters `A`-`Z` in lower case.
pub fn lowered(s: &[char]) -> (v: Vec<char>)
    ensures
        v@ == lower(s@),
{
    let mut v: Vec<char> = Vec::new();
    let mut i: usize = 0;
    while i < s.len()
        invariant
            i <= s@.len(),
            v@ == lower(s@).take(i as int),
        decreases s@.len() - i,
    {
        v.push(folded(s[i]));
        i = i + 1;
    }
    v
}

/// What a text holds, it holds in lower case too.
pub proof fn lemma_contains_lower(hay: Seq<char>, needle: Seq<char>)
    requires
        contains(hay, needle),
    ensures
        contains(lower(hay), lower(needle)),
{
    let at = choose|at: int| occurs_at(hay, needle, at);
    assert(lower(hay).subrange(at, at + lower(needle).len()) =~= lower(
        hay.subrange(at, at + needle.len()),
    ));
    assert(occurs_at(lower(hay), lower(needle), at));
}

/// The views of a sequence of strings.
pub open spec fn texts(lines: Seq<String>) -> Seq<Seq<char>> {
    Seq::new(lines.len(), |i: int| lines[i]@)
}

/// The characters of `s`.
pub fn chars_of(s: &str) -> (v: Vec<char>)
    ensures
        v@ == s@,
{
    let mut v: Vec<char> = Vec::new();
    for c in it: s.chars()
        invariant
            it.seq() == s@,
            v@ == s@.take(it.index() as int),
    {
        v.push(c);
    }
    v
}

/// Appends the characters of `s` to `out`.
pub fn append_text(out: &mut Vec<char>, s: &str)
    ensures
        final(out)@ == old(out)@ + s@,
{
    for c in it: s.chars()
        invariant
            it.seq() == s@,
            out@ == old(out)@ + s@.take(it.index() as int),
    {
        out.push(c);
    }
}

/// `String::push`, which appends one character to the string and leaves the
/// characters before it as they are.
#[verifier::external_body]
fn push_char(s: &mut String, c: char)
    ensures
        final(s)@ == old(s)@.push(c),
{
    s.push(c);
}

/// The string of the characters of `s`.
pub fn string_of(s: &[char]) -> (r: String)
    ensures
        r@ == s@,
{
    let mut r = String::new();
    let mut i: usize = 0;
    while i < s.len()
        invariant
            i <= s@.len(),
            r@ == s@.take(i as int),
        decreases s@.len() - i,
    {
        push_char(&mut r, s[i]);
        i = i + 1;
    }
    r
}

} // verus!
