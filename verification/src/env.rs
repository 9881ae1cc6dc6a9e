//! The environment-definition file: lines of the form `KEY=VALUE`.
//!
//! A line is read on its own. White space may stand before the key, around
//! the `=` and after the value; the key is made of `A`-`Z`, `0`-`9` and `_`;
//! the value is the rest of the line, trimmed, without the one pair of quotes
//! that may enclose it. A line of any other form says nothing. When a key
//! comes twice, the later value replaces the earlier one.

use crate::string_map::{distinct_keys, lemma_upsert, lookup, upsert, Pairs, StringMap};
use crate::text::{
    chars_of, find, find_char, is_quote, is_quote_char, key_end, lemma_find_char,
    lemma_find_char_is, skip_key, skip_spaces, spaces_end, string_of, trim, trimmed,
};
use vstd::prelude::*;
use vstd::slice::slice_subrange;

verus! {

/// The lines of `s` from index `from` on: the pieces between line feeds. A
/// carriage return before a line feed stays in its line, where it is white
/// space like any other.
pub open spec fn lines_from(s: Seq<char>, from: int) -> Seq<Seq<char>>
    decreases s.len() - from,
{
    let end = find_char(s, from, '\n');
    if 0 <= from <= end < s.len() {
        seq![s.subrange(from, end)] + lines_from(s, end + 1)
    } else if 0 <= from <= s.len() {
        seq![s.subrange(from, s.len() as int)]
    } else {
        Seq::empty()
    }
}

/// The lines of `s`.
pub open spec fn lines(s: Seq<char>) -> Seq<Seq<char>> {
    lines_from(s, 0)
}

/// The text whose lines are `ls`: the lines with a line feed between each
/// two.
pub open spec fn join_lines(ls: Seq<Seq<char>>) -> Seq<char>
    decreases ls.len(),
{
    if ls.len() == 0 {
        Seq::empty()
    } else if ls.len() == 1 {
        ls[0]
    } else {
        ls[0] + seq!['\n'] + join_lines(ls.skip(1))
    }
}

/// `l` holds no line feed.
pub open spec fn is_line(l: Seq<char>) -> bool {
    forall|i: int| 0 <= i < l.len() ==> l[i] != '\n'
}

/// `v` without its first and last character if these are the same quote, and
/// `v` itself otherwise. A lone quote is no pair and stays.
pub open spec fn unquote(v: Seq<char>) -> Seq<char> {
    if v.len() >= 2 && is_quote(v[0]) && v[v.len() - 1] == v[0] {
        v.subrange(1, v.len() - 1)
    } else {
        v
    }
}

/// The key and the value that `line` defines, if it has the form
/// `KEY=VALUE`: white space if any, a key of one or more key characters,
/// white space if any, `=`, and the value. The value is what follows the `=`
/// without the white space at its two ends and without the pair of quotes
/// that may enclose what is left.
///
/// As a regular expression the form is `^\s*([A-Z0-9_]+)\s*=\s*(.*)\s*$`,
/// with the key as the first group and the value, before it is trimmed and
/// unquoted, as the second.
pub open spec fn env_entry(line: Seq<char>) -> Option<(Seq<char>, Seq<char>)> {
    let key_from = spaces_end(line, 0);
    let key_to = key_end(line, key_from);
    let sign = spaces_end(line, key_to);
    if key_from < key_to && sign < line.len() && line[sign] == '=' {
        Some(
            (
                line.subrange(key_from, key_to),
                unquote(trim(line.subrange(sign + 1, line.len() as int))),
            ),
        )
    } else {
        None
    }
}

/// `line` defines the key `key`, with whatever value.
pub open spec fn defines_key(line: Seq<char>, key: Seq<char>) -> bool {
    match env_entry(line) {
        Some((found, _)) => found == key,
        None => false,
    }
}

/// `pairs` after `line` was read.
pub open spec fn read_line(pairs: Pairs, line: Seq<char>) -> Pairs {
    match env_entry(line) {
        Some((key, value)) => upsert(pairs, key, value),
        None => pairs,
    }
}

/// The mapping that the lines define, read from the first to the last.
pub open spec fn env_pairs(lines: Seq<Seq<char>>) -> Pairs
    decreases lines.len(),
{
    if lines.len() == 0 {
        Pairs::empty()
    } else {
        read_line(env_pairs(lines.drop_last()), lines.last())
    }
}

/// Strips the one pair of quotes that encloses `v`, if there is one.
pub fn strip_quotes(v: &[char]) -> (r: &[char])
    ensures
        r@ == unquote(v@),
{
    let n = v.len();
    if n >= 2 && is_quote_char(v[0]) && v[n - 1] == v[0] {
        slice_subrange(v, 1, n - 1)
    } else {
        v
    }
}

/// Reads one line: the key and the value it defines, or `None` for a line
/// that is not of the form `KEY=VALUE`.
pub fn parse_line(line: &[char]) -> (entry: Option<(String, String)>)
    ensures
        match entry {
            Some((key, value)) => env_entry(line@) == Some((key@, value@)),
            None => env_entry(line@) is None,
        },
{
    let key_from = skip_spaces(line, 0);
    let key_to = skip_key(line, key_from);
    let sign = skip_spaces(line, key_to);
    if key_from < key_to && sign < line.len() && line[sign] == '=' {
        let key = string_of(slice_subrange(line, key_from, key_to));
        let rest = slice_subrange(line, sign + 1, line.len());
        let value = string_of(strip_quotes(trimmed(rest)));
        Some((key, value))
    } else {
        None
    }
}

/// Reads an environment file's text into a mapping from key to value.
pub fn parse_env(content: &str) -> (env: StringMap)
    ensures
        env@ == env_pairs(lines(content@)),
{
    let chars = chars_of(content);
    let text = chars.as_slice();
    let mut env = StringMap::new();
    let mut start: usize = 0;
    let ghost mut done: Seq<Seq<char>> = Seq::empty();
    loop
        invariant_except_break
            start <= text@.len(),
            lines(text@) == done + lines_from(text@, start as int),
            env@ == env_pairs(done),
        ensures
            env@ == env_pairs(lines(text@)),
        decreases text@.len() - start,
    {
        let end = find(text, start, '\n');
        let line = slice_subrange(text, start, end);
        match parse_line(line) {
            Some((key, value)) => {
                env.insert(key, value);
            },
            None => {},
        }
        proof {
            let read = done.push(line@);
            assert(read.drop_last() =~= done);
            if end < text@.len() {
                assert(done + lines_from(text@, start as int) =~= read + lines_from(
                    text@,
                    end + 1,
                ));
            } else {
                assert(done + lines_from(text@, start as int) =~= read);
            }
            done = read;
        }
        if end == text.len() {
            break ;
        }
        start = end + 1;
    }
    env
}

/// The lines of a text from an index on are the lines of what the text holds
/// from there.
pub proof fn lemma_lines_from_suffix(s: Seq<char>, from: int)
    requires
        0 <= from <= s.len(),
    ensures
        lines_from(s, from) == lines_from(s.skip(from), 0),
    decreases s.len() - from,
{
    let t = s.skip(from);
    let end = find_char(s, from, '\n');
    lemma_find_char(s, from, '\n');
    lemma_find_char_is(t, 0, '\n', end - from);
    if end < s.len() {
        lemma_lines_from_suffix(s, end + 1);
        lemma_lines_from_suffix(t, end - from + 1);
        assert(t.skip(end - from + 1) =~= s.skip(end + 1));
        assert(s.subrange(from, end) =~= t.subrange(0, end - from));
    } else {
        assert(s.subrange(from, s.len() as int) =~= t.subrange(0, t.len() as int));
    }
}

/// Every sequence of lines is the lines of a text, that of the lines joined
/// by line feeds. So what holds of all sequences of lines holds of all
/// texts.
pub proof fn lemma_lines_of_joined(ls: Seq<Seq<char>>)
    requires
        ls.len() > 0,
        forall|i: int| 0 <= i < ls.len() ==> is_line(#[trigger] ls[i]),
    ensures
        lines(join_lines(ls)) == ls,
    decreases ls.len(),
{
    let s = join_lines(ls);
    let first = ls[0];
    assert(is_line(first));
    if ls.len() == 1 {
        lemma_find_char_is(s, 0, '\n', s.len() as int);
        assert(s.subrange(0, s.len() as int) =~= s);
        assert(lines(s) =~= ls);
    } else {
        let rest = ls.skip(1);
        assert forall|i: int| 0 <= i < rest.len() implies is_line(#[trigger] rest[i]) by {
            assert(rest[i] == ls[i + 1]);
        }
        lemma_lines_of_joined(rest);
        let n = first.len() as int;
        lemma_find_char_is(s, 0, '\n', n);
        lemma_lines_from_suffix(s, n + 1);
        assert(s.skip(n + 1) =~= join_lines(rest));
        assert(s.subrange(0, n) =~= first);
        assert(lines(s) =~= ls);
    }
}

/// A line that is not of the form `KEY=VALUE` is passed over: the mapping is
/// the one that the lines around it define without it.
pub proof fn lemma_unmatched_line_is_skipped(
    before: Seq<Seq<char>>,
    line: Seq<char>,
    after: Seq<Seq<char>>,
)
    requires
        env_entry(line) is None,
    ensures
        env_pairs(before + seq![line] + after) == env_pairs(before + after),
    decreases after.len(),
{
    let with = before + seq![line] + after;
    let without = before + after;
    if after.len() == 0 {
        assert(with.drop_last() =~= before);
        assert(without =~= before);
    } else {
        assert(with.drop_last() =~= before + seq![line] + after.drop_last());
        assert(without.drop_last() =~= before + after.drop_last());
        lemma_unmatched_line_is_skipped(before, line, after.drop_last());
    }
}

/// In a text, a line that is not of the form `KEY=VALUE` is passed over: the
/// text defines what it defines without that line.
pub proof fn lemma_unmatched_line_in_text(
    before: Seq<Seq<char>>,
    line: Seq<char>,
    after: Seq<Seq<char>>,
)
    requires
        env_entry(line) is None,
        is_line(line),
        forall|i: int| 0 <= i < before.len() ==> is_line(#[trigger] before[i]),
        forall|i: int| 0 <= i < after.len() ==> is_line(#[trigger] after[i]),
    ensures
        env_pairs(lines(join_lines(before + seq![line] + after))) == env_pairs(
            lines(join_lines(before + after)),
        ),
{
    lemma_lines_of_joined(before + seq![line] + after);
    lemma_unmatched_line_is_skipped(before, line, after);
    if before.len() + after.len() > 0 {
        lemma_lines_of_joined(before + after);
    } else {
        let nothing = join_lines(before + after);
        assert(nothing.len() == 0);
        assert(nothing.subrange(0, 0) =~= nothing);
        assert(lines(nothing) =~= seq![nothing]);
        assert(env_entry(nothing) is None);
        assert(seq![nothing].drop_last() =~= Seq::<Seq<char>>::empty());
        assert(env_pairs(Seq::<Seq<char>>::empty()) == Pairs::empty());
        assert(before + after =~= Seq::<Seq<char>>::empty());
    }
}

/// No key comes twice in the mapping that lines define.
pub proof fn lemma_env_keys_are_distinct(lines: Seq<Seq<char>>)
    ensures
        distinct_keys(env_pairs(lines)),
    decreases lines.len(),
{
    if lines.len() > 0 {
        lemma_env_keys_are_distinct(lines.drop_last());
        match env_entry(lines.last()) {
            Some((key, value)) => {
                lemma_upsert(env_pairs(lines.drop_last()), key, value);
            },
            None => {},
        }
    }
}

/// Of the lines that define one key, the last decides its value.
pub proof fn lemma_last_occurrence_wins(
    lines: Seq<Seq<char>>,
    at: int,
    key: Seq<char>,
    value: Seq<char>,
)
    requires
        0 <= at < lines.len(),
        env_entry(lines[at]) == Some((key, value)),
        forall|later: int| at < later < lines.len() ==> !defines_key(#[trigger] lines[later], key),
    ensures
        lookup(env_pairs(lines), key) == Some(value),
    decreases lines.len(),
{
    let earlier = env_pairs(lines.drop_last());
    if at == lines.len() - 1 {
        lemma_upsert(earlier, key, value);
    } else {
        lemma_last_occurrence_wins(lines.drop_last(), at, key, value);
        assert(!defines_key(lines[lines.len() - 1], key));
        match env_entry(lines.last()) {
            Some((other, other_value)) => {
                lemma_upsert(earlier, other, other_value);
            },
            None => {},
        }
    }
}

/// A value enclosed in one pair of quotes loses exactly that pair: what was
/// between the quotes stays as it is, quotes included.
pub proof fn lemma_unquote_strips_one_layer(quote: char, inner: Seq<char>)
    requires
        is_quote(quote),
    ensures
        unquote(seq![quote] + inner + seq![quote]) == inner,
{
    let v = seq![quote] + inner + seq![quote];
    assert(v.subrange(1, v.len() - 1) =~= inner);
}

/// A value that no pair of equal quotes encloses stays untouched: one that
/// is empty or a single character, one that opens or closes without a quote,
/// one whose two ends are different quotes.
pub proof fn lemma_unquote_leaves_partial_quoting(v: Seq<char>)
    requires
        v.len() < 2 || !is_quote(v[0]) || v[v.len() - 1] != v[0],
    ensures
        unquote(v) == v,
{
}

} // verus!
