//! The resolved snapshot: a tree of named sections, each an arbitrarily
//! nested value, and the text that a section is compared by.

use crate::text::{
    append_text, contains, lemma_contains_inside, lemma_contains_itself, string_of,
};
use vstd::prelude::*;

verus! {

/// A resolved value as a mathematical tree.
pub enum Tree {
    Null,
    Bool(bool),
    /// A number, as its decimal text.
    Number(Seq<char>),
    Text(Seq<char>),
    List(Seq<Tree>),
    /// Named fields, in order.
    Table(Seq<Field>),
}

/// A field of a table as a mathematical value: its name and its value.
pub struct Field {
    pub name: Seq<char>,
    pub value: Tree,
}

/// A resolved value.
#[derive(Debug, PartialEq, Eq)]
pub enum SnapshotValue {
    Null,
    Bool(bool),
    /// A number, as its decimal text.
    Number(String),
    Text(String),
    List(Vec<SnapshotValue>),
    /// Named fields, in order.
    Table(Vec<SnapshotField>),
}

/// A field of a table: its name and its value.
#[derive(Debug, PartialEq, Eq)]
pub struct SnapshotField {
    pub name: String,
    pub value: SnapshotValue,
}

impl View for SnapshotValue {
    type V = Tree;

    open spec fn view(&self) -> Tree
        decreases self,
    {
        match self {
            SnapshotValue::Null => Tree::Null,
            SnapshotValue::Bool(b) => Tree::Bool(*b),
            SnapshotValue::Number(n) => Tree::Number(n@),
            SnapshotValue::Text(s) => Tree::Text(s@),
            SnapshotValue::List(items) => Tree::List(
                Seq::new(
                    items@.len(),
                    |i: int|
                        if 0 <= i < items@.len() {
                            items@[i]@
                        } else {
                            Tree::Null
                        },
                ),
            ),
            SnapshotValue::Table(fields) => Tree::Table(
                Seq::new(
                    fields@.len(),
                    |i: int|
                        if 0 <= i < fields@.len() {
                            Field { name: fields@[i].name@, value: fields@[i].value@ }
                        } else {
                            Field { name: Seq::empty(), value: Tree::Null }
                        },
                ),
            ),
        }
    }
}

/// The text of a value that stands inside another: `null`, `true` or `false`,
/// a number's text, a text between double quotes, a list between square
/// brackets, a table between braces with each field as its name, a colon and
/// its value. Texts and names are written as they are, with nothing escaped.
pub open spec fn nested_text(t: Tree) -> Seq<char>
    decreases t, 0int,
{
    match t {
        Tree::Null => "null"@,
        Tree::Bool(b) => if b {
            "true"@
        } else {
            "false"@
        },
        Tree::Number(n) => n,
        Tree::Text(s) => "\""@ + s + "\""@,
        Tree::List(items) => "["@ + items_text(items, items.len() as int) + "]"@,
        Tree::Table(fields) => "{"@ + fields_text(fields, fields.len() as int) + "}"@,
    }
}

/// The texts of the first `upto` items, with `, ` between them.
pub open spec fn items_text(items: Seq<Tree>, upto: int) -> Seq<char>
    decreases items, upto,
{
    if 0 < upto <= items.len() {
        items_text(items, upto - 1) + separator(upto - 1) + nested_text(items[upto - 1])
    } else {
        Seq::empty()
    }
}

/// The texts of the first `upto` fields, with `, ` between them.
pub open spec fn fields_text(fields: Seq<Field>, upto: int) -> Seq<char>
    decreases fields, upto,
{
    if 0 < upto <= fields.len() {
        fields_text(fields, upto - 1) + separator(upto - 1) + fields[upto - 1].name + ": "@
            + nested_text(fields[upto - 1].value)
    } else {
        Seq::empty()
    }
}

/// What stands before the item at index `i`: nothing before the first,
/// `, ` before the others.
pub open spec fn separator(i: int) -> Seq<char> {
    if i == 0 {
        Seq::empty()
    } else {
        ", "@
    }
}

/// The text that a section's value is compared by: a text as it is, a number
/// as its decimal text, a truth value as `true` or `false`, and any other
/// value as its nested text.
pub open spec fn section_text(t: Tree) -> Seq<char> {
    match t {
        Tree::Text(s) => s,
        other => nested_text(other),
    }
}

impl SnapshotValue {
    /// Appends the nested text of the value to `out`.
    pub fn write_nested(&self, out: &mut Vec<char>)
        ensures
            final(out)@ == old(out)@ + nested_text(self@),
        decreases self,
    {
        match self {
            SnapshotValue::Null => {
                append_text(out, "null");
            },
            SnapshotValue::Bool(b) => {
                if *b {
                    append_text(out, "true");
                } else {
                    append_text(out, "false");
                }
            },
            SnapshotValue::Number(n) => {
                append_text(out, n.as_str());
            },
            SnapshotValue::Text(s) => {
                append_text(out, "\"");
                append_text(out, s.as_str());
                append_text(out, "\"");
                assert(out@ =~= old(out)@ + nested_text(self@));
            },
            SnapshotValue::List(items) => {
                append_text(out, "[");
                let ghost tree = self@->List_0;
                let mut i: usize = 0;
                while i < items.len()
                    invariant
                        i <= items@.len(),
                        self matches SnapshotValue::List(v) && v == items,
                        tree == self@->List_0,
                        out@ == old(out)@ + "["@ + items_text(tree, i as int),
                    decreases items@.len() - i,
                {
                    if i > 0 {
                        append_text(out, ", ");
                    }
                    items[i].write_nested(out);
                    i = i + 1;
                    assert(out@ =~= old(out)@ + "["@ + items_text(tree, i as int));
                }
                append_text(out, "]");
                assert(out@ =~= old(out)@ + nested_text(self@));
            },
            SnapshotValue::Table(fields) => {
                append_text(out, "{");
                let ghost tree = self@->Table_0;
                let mut i: usize = 0;
                while i < fields.len()
                    invariant
                        i <= fields@.len(),
                        self matches SnapshotValue::Table(v) && v == fields,
                        tree == self@->Table_0,
                        out@ == old(out)@ + "{"@ + fields_text(tree, i as int),
                    decreases fields@.len() - i,
                {
                    if i > 0 {
                        append_text(out, ", ");
                    }
                    assert(tree[i as int].name == fields@[i as int].name@);
                    append_text(out, fields[i].name.as_str());
                    append_text(out, ": ");
                    fields[i].value.write_nested(out);
                    i = i + 1;
                    assert(out@ =~= old(out)@ + "{"@ + fields_text(tree, i as int));
                }
                append_text(out, "}");
                assert(out@ =~= old(out)@ + nested_text(self@));
            },
        }
    }

    /// The text that the value is compared by when it is a section's value.
    pub fn render(&self) -> (text: String)
        ensures
            text@ == section_text(self@),
    {
        match self {
            SnapshotValue::Text(s) => s.clone(),
            _ => {
                let mut out: Vec<char> = Vec::new();
                self.write_nested(&mut out);
                assert(out@ =~= nested_text(self@));
                string_of(out.as_slice())
            },
        }
    }

    /// The section named `name`, if the snapshot is a table that has one.
    pub fn section(&self, name: &str) -> (value: Option<&SnapshotValue>)
        ensures
            match value {
                Some(v) => section(self@, name@) == Some(v@),
                None => section(self@, name@) is None,
            },
    {
        match self {
            SnapshotValue::Table(fields) => {
                let wanted: String = name.to_owned();
                let ghost tree = self@->Table_0;
                let mut i: usize = 0;
                while i < fields.len() && fields[i].name != wanted
                    invariant
                        i <= fields@.len(),
                        wanted@ == name@,
                        self matches SnapshotValue::Table(v) && v == fields,
                        tree == self@->Table_0,
                        field_index(tree, name@, 0) == field_index(tree, name@, i as int),
                    decreases fields@.len() - i,
                {
                    assert(tree[i as int].name == fields@[i as int].name@);
                    i = i + 1;
                }
                if i < fields.len() {
                    assert(tree[i as int].name == fields@[i as int].name@);
                    Some(&fields[i].value)
                } else {
                    None
                }
            },
            _ => None,
        }
    }
}

/// The first index at or after `from` whose field has the name `name`, or
/// the number of fields if there is none.
pub open spec fn field_index(fields: Seq<Field>, name: Seq<char>, from: int) -> int
    decreases fields.len() - from,
{
    if 0 <= from < fields.len() && fields[from].name != name {
        field_index(fields, name, from + 1)
    } else {
        from
    }
}

/// The section named `name` of the snapshot `root`: the value of the first
/// field of that name, if the snapshot is a table and has one.
pub open spec fn section(root: Tree, name: Seq<char>) -> Option<Tree> {
    match root {
        Tree::Table(fields) => {
            let at = field_index(fields, name, 0);
            if 0 <= at < fields.len() {
                Some(fields[at].value)
            } else {
                None
            }
        },
        _ => None,
    }
}

/// `text` is the text of a scalar that stands in `t`, at any depth: `null`,
/// `true` or `false`, a number's text or a text.
pub open spec fn has_scalar(t: Tree, text: Seq<char>) -> bool
    decreases t,
{
    match t {
        Tree::Null => text == "null"@,
        Tree::Bool(b) => text == if b {
            "true"@
        } else {
            "false"@
        },
        Tree::Number(n) => text == n,
        Tree::Text(s) => text == s,
        Tree::List(items) => exists|i: int| 0 <= i < items.len() && has_scalar(items[i], text),
        Tree::Table(fields) => exists|i: int|
            0 <= i < fields.len() && has_scalar(fields[i].value, text),
    }
}

/// What the text of one item holds, the text of the items holds.
proof fn lemma_items_text_holds(items: Seq<Tree>, upto: int, i: int, text: Seq<char>)
    requires
        0 <= i < upto <= items.len(),
        contains(nested_text(items[i]), text),
    ensures
        contains(items_text(items, upto), text),
    decreases upto,
{
    let before = items_text(items, upto - 1);
    let last = nested_text(items[upto - 1]);
    if i == upto - 1 {
        lemma_contains_inside(before + separator(upto - 1), last, Seq::empty(), text);
        assert(before + separator(upto - 1) + last + Seq::<char>::empty() =~= items_text(
            items,
            upto,
        ));
    } else {
        lemma_items_text_holds(items, upto - 1, i, text);
        lemma_contains_inside(Seq::empty(), before, separator(upto - 1) + last, text);
        assert(Seq::<char>::empty() + before + (separator(upto - 1) + last) =~= items_text(
            items,
            upto,
        ));
    }
}

/// What the text of one field's value holds, the text of the fields holds.
proof fn lemma_fields_text_holds(
    fields: Seq<Field>,
    upto: int,
    i: int,
    text: Seq<char>,
)
    requires
        0 <= i < upto <= fields.len(),
        contains(nested_text(fields[i].value), text),
    ensures
        contains(fields_text(fields, upto), text),
    decreases upto,
{
    let before = fields_text(fields, upto - 1);
    let name = separator(upto - 1) + fields[upto - 1].name + ": "@;
    let last = nested_text(fields[upto - 1].value);
    if i == upto - 1 {
        lemma_contains_inside(before + name, last, Seq::empty(), text);
        assert(before + name + last + Seq::<char>::empty() =~= fields_text(fields, upto));
    } else {
        lemma_fields_text_holds(fields, upto - 1, i, text);
        lemma_contains_inside(Seq::empty(), before, name + last, text);
        assert(Seq::<char>::empty() + before + (name + last) =~= fields_text(fields, upto));
    }
}

/// The nested text of a value holds the text of every scalar in it.
pub proof fn lemma_nested_text_holds_scalars(t: Tree, text: Seq<char>)
    requires
        has_scalar(t, text),
    ensures
        contains(nested_text(t), text),
    decreases t,
{
    match t {
        Tree::Text(s) => {
            lemma_contains_itself(s);
            lemma_contains_inside("\""@, s, "\""@, text);
        },
        Tree::List(items) => {
            let i = choose|i: int| 0 <= i < items.len() && has_scalar(items[i], text);
            lemma_nested_text_holds_scalars(items[i], text);
            lemma_items_text_holds(items, items.len() as int, i, text);
            lemma_contains_inside("["@, items_text(items, items.len() as int), "]"@, text);
        },
        Tree::Table(fields) => {
            let i = choose|i: int| 0 <= i < fields.len() && has_scalar(fields[i].value, text);
            lemma_nested_text_holds_scalars(fields[i].value, text);
            lemma_fields_text_holds(fields, fields.len() as int, i, text);
            lemma_contains_inside("{"@, fields_text(fields, fields.len() as int), "}"@, text);
        },
        _ => {
            lemma_contains_itself(nested_text(t));
        },
    }
}

/// The text that a section is compared by holds the text of every scalar in
/// the section's value.
pub proof fn lemma_section_text_holds_scalars(t: Tree, text: Seq<char>)
    requires
        has_scalar(t, text),
    ensures
        contains(section_text(t), text),
{
    match t {
        Tree::Text(s) => {
            lemma_contains_itself(s);
        },
        _ => {
            lemma_nested_text_holds_scalars(t, text);
        },
    }
}

} // verus!
