//! The reconciler: for each environment key that some section reads, is the
//! key's value still to be found in that section of the snapshot?
//!
//! The check is by containment. A key belongs to a section, not to one field
//! of it, so the value only has to stand somewhere in the section's text.

use crate::snapshot::{
    has_scalar, lemma_section_text_holds_scalars, section, section_text, SnapshotValue, Tree,
};
use crate::string_map::{has_key, lookup, Pairs, StringMap};
use crate::text::{
    chars_of, contains, has_substring, lemma_contains_inside, lemma_contains_itself,
    lemma_contains_lower, lower, lowered, same_chars, texts,
};
use vstd::prelude::*;
use vstd::string::StringExecFns;

verus! {

/// Whether the section text `rendering` agrees with the environment value
/// `value`. A value that reads `null`, in whatever case of its letters,
/// agrees with a text that holds `null` in whatever case; any other value
/// agrees with a text that holds it exactly as it is.
///
/// Lower case is taken of the letters `A`-`Z` only: no other letter turns
/// into `n`, `u` or `l`, so none could make or break a `null`.
pub open spec fn agrees(value: Seq<char>, rendering: Seq<char>) -> bool {
    if lower(value) == "null"@ {
        contains(lower(rendering), "null"@)
    } else {
        contains(rendering, value)
    }
}

/// The line that reports a value that its section does not hold.
pub open spec fn diff_line(key: Seq<char>) -> Seq<char> {
    "[DIFF] "@ + key
}

/// The line that reports a section that the snapshot does not have.
pub open spec fn missing_line(section: Seq<char>) -> Seq<char> {
    "[MISSING] Section '"@ + section + "' not found in config cache"@
}

/// The line that stands for a run without a difference.
pub open spec fn no_difference_line() -> Seq<char> {
    "No differences found between .env and config cache."@
}

/// The line that the environment entry of `key` and `value` gives rise to,
/// if it does: none for a key that no section reads, the missing-section line
/// where the snapshot lacks the key's section, the difference line where the
/// section's text does not agree with the value.
pub open spec fn entry_line(key: Seq<char>, value: Seq<char>, index: Pairs, snapshot: Tree)
    -> Option<Seq<char>> {
    match lookup(index, key) {
        None => None,
        Some(name) => match section(snapshot, name) {
            None => Some(missing_line(name)),
            Some(found) => if agrees(value, section_text(found)) {
                None
            } else {
                Some(diff_line(key))
            },
        },
    }
}

/// The lines that the entries of `env` give rise to, in the order of the
/// entries.
pub open spec fn difference_lines(env: Pairs, index: Pairs, snapshot: Tree) -> Seq<Seq<char>>
    decreases env.len(),
{
    if env.len() == 0 {
        Seq::empty()
    } else {
        let earlier = difference_lines(env.drop_last(), index, snapshot);
        match entry_line(env.last().0, env.last().1, index, snapshot) {
            Some(line) => earlier.push(line),
            None => earlier,
        }
    }
}

/// The lines of the report: the lines of the differences, or the one line
/// that says that there is none.
pub open spec fn report_lines(env: Pairs, index: Pairs, snapshot: Tree) -> Seq<Seq<char>> {
    let found = difference_lines(env, index, snapshot);
    if found.len() == 0 {
        seq![no_difference_line()]
    } else {
        found
    }
}

/// What a reconciliation found.
#[derive(Debug, PartialEq, Eq)]
pub struct Report {
    /// The lines to print, in order.
    pub lines: Vec<String>,
    /// Whether any line reports a difference or a missing section.
    pub found_difference: bool,
}

/// What a reconciliation found, as a mathematical value.
pub struct ReportView {
    pub lines: Seq<Seq<char>>,
    pub found_difference: bool,
}

impl View for Report {
    type V = ReportView;

    open spec fn view(&self) -> ReportView {
        ReportView { lines: texts(self.lines@), found_difference: self.found_difference }
    }
}

/// What reconciling `env` with `snapshot` through `index` gives: the lines of
/// the report, and whether any of them reports a difference.
pub open spec fn report_of(env: Pairs, index: Pairs, snapshot: Tree) -> ReportView {
    ReportView {
        lines: report_lines(env, index, snapshot),
        found_difference: difference_lines(env, index, snapshot).len() > 0,
    }
}

/// A key that no section reads gives rise to no line, whatever its value:
/// the lines are those of the environment without it.
pub proof fn lemma_unindexed_key_is_silent(
    before: Pairs,
    key: Seq<char>,
    value: Seq<char>,
    after: Pairs,
    index: Pairs,
    snapshot: Tree,
)
    requires
        !has_key(index, key),
    ensures
        entry_line(key, value, index, snapshot) is None,
        difference_lines(before + seq![(key, value)] + after, index, snapshot) == difference_lines(
            before + after,
            index,
            snapshot,
        ),
        report_lines(before + seq![(key, value)] + after, index, snapshot) == report_lines(
            before + after,
            index,
            snapshot,
        ),
    decreases after.len(),
{
    let with = before + seq![(key, value)] + after;
    let without = before + after;
    if after.len() == 0 {
        assert(with.drop_last() =~= before);
        assert(without =~= before);
    } else {
        assert(with.drop_last() =~= before + seq![(key, value)] + after.drop_last());
        assert(without.drop_last() =~= before + after.drop_last());
        lemma_unindexed_key_is_silent(before, key, value, after.drop_last(), index, snapshot);
    }
}

/// The line that an entry gives rise to is among the lines of the report.
pub proof fn lemma_entry_line_is_reported(
    env: Pairs,
    at: int,
    index: Pairs,
    snapshot: Tree,
    line: Seq<char>,
)
    requires
        0 <= at < env.len(),
        entry_line(env[at].0, env[at].1, index, snapshot) == Some(line),
    ensures
        difference_lines(env, index, snapshot).contains(line),
        report_lines(env, index, snapshot).contains(line),
    decreases env.len(),
{
    let earlier = difference_lines(env.drop_last(), index, snapshot);
    let all = difference_lines(env, index, snapshot);
    if at == env.len() - 1 {
        assert(all[all.len() - 1] == line);
    } else {
        lemma_entry_line_is_reported(env.drop_last(), at, index, snapshot, line);
        let i = choose|i: int| 0 <= i < earlier.len() && earlier[i] == line;
        assert(all[i] == line);
    }
}

/// A key whose section the snapshot lacks is reported: the report holds the
/// missing-section line and is marked as having found a difference.
pub proof fn lemma_missing_section_is_reported(
    env: Pairs,
    at: int,
    index: Pairs,
    snapshot: Tree,
    name: Seq<char>,
)
    requires
        0 <= at < env.len(),
        lookup(index, env[at].0) == Some(name),
        section(snapshot, name) is None,
    ensures
        report_of(env, index, snapshot).lines.contains(missing_line(name)),
        report_of(env, index, snapshot).found_difference,
{
    lemma_entry_line_is_reported(env, at, index, snapshot, missing_line(name));
}

/// Reconciling is a function of its inputs: two runs on the same
/// environment, index and snapshot give the same report.
pub proof fn lemma_reports_agree(
    first: ReportView,
    second: ReportView,
    env: Pairs,
    index: Pairs,
    snapshot: Tree,
)
    requires
        first == report_of(env, index, snapshot),
        second == report_of(env, index, snapshot),
    ensures
        first == second,
{
}

/// A value that reads `null` in whatever case agrees with every text that
/// holds a word that reads `null` in whatever case, wherever in the text the
/// word stands.
pub proof fn lemma_null_agrees_in_any_case(
    value: Seq<char>,
    before: Seq<char>,
    word: Seq<char>,
    after: Seq<char>,
)
    requires
        lower(value) == "null"@,
        lower(word) == "null"@,
    ensures
        agrees(value, before + word + after),
{
    lemma_contains_itself(word);
    lemma_contains_inside(before, word, after, word);
    lemma_contains_lower(before + word + after, word);
}

/// A value that reads `null` in whatever case agrees with every section that
/// holds, at any depth, a scalar whose text reads `null` in whatever case.
pub proof fn lemma_null_agrees_with_null_scalar(value: Seq<char>, tree: Tree, word: Seq<char>)
    requires
        lower(value) == "null"@,
        has_scalar(tree, word),
        lower(word) == "null"@,
    ensures
        agrees(value, section_text(tree)),
{
    lemma_section_text_holds_scalars(tree, word);
    lemma_contains_lower(section_text(tree), word);
}

/// Whether the section text `rendering` agrees with the environment value
/// `value`.
pub fn value_agrees(value: &str, rendering: &str) -> (ok: bool)
    ensures
        ok == agrees(value@, rendering@),
{
    let value_chars = chars_of(value);
    let rendering_chars = chars_of(rendering);
    let null = chars_of("null");
    let folded = lowered(value_chars.as_slice());
    if same_chars(folded.as_slice(), null.as_slice()) {
        let folded_rendering = lowered(rendering_chars.as_slice());
        has_substring(folded_rendering.as_slice(), null.as_slice())
    } else {
        has_substring(rendering_chars.as_slice(), value_chars.as_slice())
    }
}

/// The line that the environment entry of `key` and `value` gives rise to,
/// if it does.
pub fn check_entry(key: &str, value: &str, index: &StringMap, snapshot: &SnapshotValue) -> (line:
    Option<String>)
    ensures
        match line {
            Some(text) => entry_line(key@, value@, index@, snapshot@) == Some(text@),
            None => entry_line(key@, value@, index@, snapshot@) is None,
        },
{
    match index.get(key) {
        None => None,
        Some(name) => match snapshot.section(name.as_str()) {
            None => {
                let line = String::from_str("[MISSING] Section '").concat(name.as_str()).concat(
                    "' not found in config cache",
                );
                Some(line)
            },
            Some(found) => {
                let rendering = found.render();
                if value_agrees(value, rendering.as_str()) {
                    None
                } else {
                    Some(String::from_str("[DIFF] ").concat(key))
                }
            },
        },
    }
}

/// Reconciles the environment with the snapshot: one line for each key whose
/// section is missing or does not hold the key's value, in the order of the
/// environment's keys, or the one line that says that nothing differs.
pub fn reconcile(env: &StringMap, index: &StringMap, snapshot: &SnapshotValue) -> (report: Report)
    ensures
        report@ == report_of(env@, index@, snapshot@),
{
    let mut lines: Vec<String> = Vec::new();
    let n = env.len();
    let mut i: usize = 0;
    while i < n
        invariant
            i <= n == env@.len(),
            texts(lines@) == difference_lines(env@.take(i as int), index@, snapshot@),
        decreases n - i,
    {
        proof {
            assert(env@.take(i + 1).drop_last() =~= env@.take(i as int));
        }
        let ghost before = texts(lines@);
        if let Some((key, value)) = env.entry_at(i) {
            match check_entry(key.as_str(), value.as_str(), index, snapshot) {
                Some(line) => {
                    lines.push(line);
                    assert(texts(lines@) =~= before.push(line@));
                },
                None => {},
            }
        }
        i = i + 1;
    }
    assert(env@.take(i as int) =~= env@);
    let found_difference = lines.len() > 0;
    if !found_difference {
        lines.push(String::from_str("No differences found between .env and config cache."));
        assert(texts(lines@) =~= seq![no_difference_line()]);
    }
    Report { lines, found_difference }
}

} // verus!
