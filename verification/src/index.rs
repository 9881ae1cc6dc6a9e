//! The section index: which configuration section reads which environment
//! key.
//!
//! A section is one source file, named by the file's name without its
//! extension. A key is read where the text holds `env(`, a quoted key and,
//! somewhere after it, a closing bracket; what stands between the key and
//! that bracket is not looked at. The first section that reads a key owns it.

use crate::string_map::{
    distinct_keys, has_key, insert_new, lemma_insert_new, lemma_key_index, lookup, Pairs,
    StringMap,
};
use crate::text::{
    chars_of, find, find_char, find_last_end, is_quote, is_quote_char, key_end, last_char_end,
    lemma_search_bounds, occurs_at, same_chars, skip_key, skip_spaces, spaces_end, string_of,
    texts,
};
use vstd::prelude::*;
use vstd::slice::slice_subrange;

verus! {

/// A source file of the section directory: its file name and its text.
#[derive(Debug, PartialEq, Eq)]
pub struct SourceFile {
    pub name: String,
    pub content: String,
}

/// A source file as a mathematical value.
pub struct SourceText {
    pub name: Seq<char>,
    pub content: Seq<char>,
}

impl View for SourceFile {
    type V = SourceText;

    open spec fn view(&self) -> SourceText {
        SourceText { name: self.name@, content: self.content@ }
    }
}

/// The views of a sequence of source files.
pub open spec fn file_views(files: Seq<SourceFile>) -> Seq<SourceText> {
    Seq::new(files.len(), |i: int| files[i]@)
}

/// The section that the file named `name` defines: the name up to its last
/// dot, if `php` follows that dot and something stands before it.
pub open spec fn section_of(name: Seq<char>) -> Option<Seq<char>> {
    let end = last_char_end(name, name.len() as int, '.');
    if 2 <= end && name.subrange(end, name.len() as int) == "php"@ {
        Some(name.subrange(0, end - 1))
    } else {
        None
    }
}

/// The call site that starts at index `at` of `text`, as its key and the
/// index just after its closing bracket: `env(`, white space if any, a quote,
/// a key, a quote, and the first `)` from there on. The two quotes need not
/// be the same, and what stands before `env(` is not looked at, so that
/// `getenv(` opens a call site too.
///
/// As a regular expression the call site is
/// `env\(\s*['"]([A-Z0-9_]+)['"]\s*,?\s*[^)]*\)`, with the key as its group.
pub open spec fn call_site(text: Seq<char>, at: int) -> Option<(Seq<char>, int)> {
    let open = spaces_end(text, at + "env("@.len());
    let key_from = open + 1;
    let key_to = key_end(text, key_from);
    let close = find_char(text, key_to + 1, ')');
    if {
        &&& occurs_at(text, "env("@, at)
        &&& open < text.len() && is_quote(text[open])
        &&& key_from < key_to
        &&& key_to < text.len() && is_quote(text[key_to])
        &&& close < text.len()
    } {
        Some((text.subrange(key_from, key_to), close + 1))
    } else {
        None
    }
}

/// The keys of the call sites of `text` from index `from` on, in order. The
/// search for the next call site goes on after the closing bracket of the one
/// before, so a call site inside another's arguments is not seen.
pub open spec fn call_keys(text: Seq<char>, from: int) -> Seq<Seq<char>>
    decreases text.len() - from,
{
    if 0 <= from < text.len() {
        match call_site(text, from) {
            Some((key, end)) => if from < end {
                seq![key] + call_keys(text, end)
            } else {
                Seq::empty()
            },
            None => call_keys(text, from + 1),
        }
    } else {
        Seq::empty()
    }
}

/// `index` after each of `keys` that had no section was given `section`.
pub open spec fn add_keys(index: Pairs, keys: Seq<Seq<char>>, section: Seq<char>) -> Pairs
    decreases keys.len(),
{
    if keys.len() == 0 {
        index
    } else {
        insert_new(add_keys(index, keys.drop_last(), section), keys.last(), section)
    }
}

/// `index` after the file `file` was scanned.
pub open spec fn scan_file(index: Pairs, file: SourceText) -> Pairs {
    match section_of(file.name) {
        Some(section) => add_keys(index, call_keys(file.content, 0), section),
        None => index,
    }
}

/// The index that the files define, scanned from the first to the last.
pub open spec fn section_index(files: Seq<SourceText>) -> Pairs
    decreases files.len(),
{
    if files.len() == 0 {
        Pairs::empty()
    } else {
        scan_file(section_index(files.drop_last()), files.last())
    }
}

/// A call site is at least eight characters long and ends inside the text.
pub proof fn lemma_call_site_bounds(text: Seq<char>, at: int, key: Seq<char>, end: int)
    requires
        call_site(text, at) == Some((key, end)),
    ensures
        at + 8 <= end <= text.len(),
        0 < key.len(),
{
    reveal_strlit("env(");
    let open = spaces_end(text, at + 4);
    let key_to = key_end(text, open + 1);
    lemma_search_bounds(text, at + 4, ')');
    lemma_search_bounds(text, key_to + 1, ')');
}

/// The file is a configuration source whose text reads `key`.
pub open spec fn reads_key(file: SourceText, key: Seq<char>) -> bool {
    section_of(file.name) is Some && call_keys(file.content, 0).contains(key)
}

/// What scanning one text does to one key: a key that has a section keeps
/// it, a key without one gets `section` if it is among `keys`, and stays
/// without one otherwise.
pub proof fn lemma_add_keys(index: Pairs, keys: Seq<Seq<char>>, section: Seq<char>, key: Seq<char>)
    ensures
        has_key(index, key) ==> lookup(add_keys(index, keys, section), key) == lookup(index, key),
        !has_key(index, key) && keys.contains(key) ==> lookup(add_keys(index, keys, section), key)
            == Some(section),
        !has_key(index, key) && !keys.contains(key) ==> !has_key(
            add_keys(index, keys, section),
            key,
        ),
    decreases keys.len(),
{
    if keys.len() > 0 {
        let before = add_keys(index, keys.drop_last(), section);
        lemma_add_keys(index, keys.drop_last(), section, key);
        lemma_insert_new(before, keys.last(), section);
        if !has_key(index, key) {
            if keys.drop_last().contains(key) {
                let shorter = keys.drop_last();
                let i = choose|i: int| 0 <= i < shorter.len() && shorter[i] == key;
                assert(keys[i] == key);
            } else if keys.contains(key) {
                let i = choose|i: int| 0 <= i < keys.len() && keys[i] == key;
                if i < keys.len() - 1 {
                    assert(keys.drop_last()[i] == key);
                }
            } else {
                assert(keys[keys.len() - 1] != key);
            }
        }
    }
}

/// No key comes twice in the index that files define: each key has one
/// section.
pub proof fn lemma_index_keys_are_distinct(files: Seq<SourceText>)
    ensures
        distinct_keys(section_index(files)),
    decreases files.len(),
{
    if files.len() > 0 {
        lemma_index_keys_are_distinct(files.drop_last());
        match section_of(files.last().name) {
            Some(section) => {
                lemma_add_keys_keeps_distinct(
                    section_index(files.drop_last()),
                    call_keys(files.last().content, 0),
                    section,
                );
            },
            None => {},
        }
    }
}

/// Scanning a text keeps the keys of the index distinct.
pub proof fn lemma_add_keys_keeps_distinct(
    index: Pairs,
    keys: Seq<Seq<char>>,
    section: Seq<char>,
)
    requires
        distinct_keys(index),
    ensures
        distinct_keys(add_keys(index, keys, section)),
    decreases keys.len(),
{
    if keys.len() > 0 {
        lemma_add_keys_keeps_distinct(index, keys.drop_last(), section);
        lemma_insert_new(add_keys(index, keys.drop_last(), section), keys.last(), section);
    }
}

/// A key that no file reads has no section.
pub proof fn lemma_unread_key_is_absent(files: Seq<SourceText>, key: Seq<char>)
    requires
        forall|i: int| 0 <= i < files.len() ==> !reads_key(#[trigger] files[i], key),
    ensures
        !has_key(section_index(files), key),
    decreases files.len(),
{
    if files.len() > 0 {
        let earlier = files.drop_last();
        assert forall|i: int| 0 <= i < earlier.len() implies !reads_key(
            #[trigger] earlier[i],
            key,
        ) by {
            assert(earlier[i] == files[i]);
        }
        lemma_unread_key_is_absent(earlier, key);
        assert(!reads_key(files[files.len() - 1], key));
        match section_of(files.last().name) {
            Some(section) => {
                let keys = call_keys(files.last().content, 0);
                lemma_add_keys(section_index(earlier), keys, section, key);
            },
            None => {},
        }
    } else {
        lemma_key_index(section_index(files), key, 0);
    }
}

/// The first file that reads a key owns it: the key's section is that file's
/// section, whatever files come later.
pub proof fn lemma_first_reader_owns_key(
    files: Seq<SourceText>,
    at: int,
    key: Seq<char>,
    section: Seq<char>,
)
    requires
        0 <= at < files.len(),
        section_of(files[at].name) == Some(section),
        call_keys(files[at].content, 0).contains(key),
        forall|i: int| 0 <= i < at ==> !reads_key(#[trigger] files[i], key),
    ensures
        lookup(section_index(files), key) == Some(section),
    decreases files.len(),
{
    let earlier = files.drop_last();
    if at == files.len() - 1 {
        assert forall|i: int| 0 <= i < earlier.len() implies !reads_key(
            #[trigger] earlier[i],
            key,
        ) by {
            assert(earlier[i] == files[i]);
        }
        lemma_unread_key_is_absent(earlier, key);
        lemma_add_keys(section_index(earlier), call_keys(files.last().content, 0), section, key);
    } else {
        assert(earlier[at] == files[at]);
        assert forall|i: int| 0 <= i < at implies !reads_key(#[trigger] earlier[i], key) by {
            assert(earlier[i] == files[i]);
        }
        lemma_first_reader_owns_key(earlier, at, key, section);
        match section_of(files.last().name) {
            Some(later) => {
                let keys = call_keys(files.last().content, 0);
                lemma_add_keys(section_index(earlier), keys, later, key);
            },
            None => {},
        }
    }
}

/// Whether the four characters of `env(` stand at index `at`.
fn starts_call(text: &[char], at: usize) -> (b: bool)
    ensures
        b == occurs_at(text@, "env("@, at as int),
{
    proof {
        reveal_strlit("env(");
    }
    let n = text.len();
    if n < 4 || at > n - 4 {
        return false;
    }
    let b = text[at] == 'e' && text[at + 1] == 'n' && text[at + 2] == 'v' && text[at + 3] == '(';
    proof {
        let here = text@.subrange(at as int, at + 4);
        if b {
            assert(here =~= "env("@);
        } else {
            assert(here[0] == text@[at as int] && here[1] == text@[at + 1] && here[2] == text@[at
                + 2] && here[3] == text@[at + 3]);
        }
    }
    b
}

/// The call site that starts at index `at`, as its key and the index just
/// after its closing bracket.
pub fn call_site_at(text: &[char], at: usize) -> (site: Option<(String, usize)>)
    ensures
        match site {
            Some((key, end)) => call_site(text@, at as int) == Some((key@, end as int)),
            None => call_site(text@, at as int) is None,
        },
{
    let n = text.len();
    if !starts_call(text, at) {
        return None;
    }
    proof {
        reveal_strlit("env(");
    }
    let open = skip_spaces(text, at + 4);
    if open >= n || !is_quote_char(text[open]) {
        return None;
    }
    let key_to = skip_key(text, open + 1);
    if key_to == open + 1 || key_to >= n || !is_quote_char(text[key_to]) {
        return None;
    }
    let close = find(text, key_to + 1, ')');
    if close >= n {
        return None;
    }
    let key = string_of(slice_subrange(text, open + 1, key_to));
    Some((key, close + 1))
}

/// The keys of the call sites of `text`, in order.
pub fn scan_keys(text: &[char]) -> (keys: Vec<String>)
    ensures
        texts(keys@) == call_keys(text@, 0),
{
    let mut keys: Vec<String> = Vec::new();
    let mut at: usize = 0;
    assert(texts(keys@) + call_keys(text@, 0) =~= call_keys(text@, 0));
    while at < text.len()
        invariant
            at <= text@.len(),
            call_keys(text@, 0) == texts(keys@) + call_keys(text@, at as int),
        decreases text@.len() - at,
    {
        match call_site_at(text, at) {
            Some((key, end)) => {
                proof {
                    lemma_call_site_bounds(text@, at as int, key@, end as int);
                    assert(texts(keys@.push(key)) + call_keys(text@, end as int) =~= texts(keys@)
                        + (seq![key@] + call_keys(text@, end as int)));
                }
                keys.push(key);
                at = end;
            },
            None => {
                at = at + 1;
            },
        }
    }
    assert(texts(keys@) + call_keys(text@, at as int) =~= texts(keys@));
    keys
}

/// The section that the file named `file_name` defines, or `None` for a file
/// that is no configuration source.
pub fn section_name(file_name: &str) -> (section: Option<String>)
    ensures
        match section {
            Some(name) => section_of(file_name@) == Some(name@),
            None => section_of(file_name@) is None,
        },
{
    let chars = chars_of(file_name);
    let name = chars.as_slice();
    let extension = chars_of("php");
    let end = find_last_end(name, '.');
    if 2 <= end && same_chars(slice_subrange(name, end, name.len()), extension.as_slice()) {
        Some(string_of(slice_subrange(name, 0, end - 1)))
    } else {
        None
    }
}

/// Scans the text of one section's file and gives the section each key that
/// the text reads and no section has yet.
pub fn index_source(index: &mut StringMap, section: &str, content: &str)
    ensures
        final(index)@ == add_keys(old(index)@, call_keys(content@, 0), section@),
{
    let chars = chars_of(content);
    let keys = scan_keys(chars.as_slice());
    let mut i: usize = 0;
    while i < keys.len()
        invariant
            i <= keys@.len(),
            texts(keys@) == call_keys(content@, 0),
            index@ == add_keys(old(index)@, texts(keys@).take(i as int), section@),
        decreases keys@.len() - i,
    {
        proof {
            assert(texts(keys@).take(i + 1).drop_last() =~= texts(keys@).take(i as int));
        }
        index.insert_if_absent(keys[i].clone(), section.to_owned());
        i = i + 1;
    }
    assert(texts(keys@).take(i as int) =~= texts(keys@));
}

/// Builds the section index from the files of the section directory, in the
/// order in which they are given.
pub fn build_index(files: &Vec<SourceFile>) -> (index: StringMap)
    ensures
        index@ == section_index(file_views(files@)),
{
    let mut index = StringMap::new();
    let mut i: usize = 0;
    while i < files.len()
        invariant
            i <= files@.len(),
            index@ == section_index(file_views(files@).take(i as int)),
        decreases files@.len() - i,
    {
        proof {
            assert(file_views(files@).take(i + 1).drop_last() =~= file_views(files@).take(
                i as int,
            ));
        }
        match section_name(files[i].name.as_str()) {
            Some(section) => {
                index_source(&mut index, section.as_str(), files[i].content.as_str());
            },
            None => {},
        }
        i = i + 1;
    }
    assert(file_views(files@).take(i as int) =~= file_views(files@));
    index
}

} // verus!
