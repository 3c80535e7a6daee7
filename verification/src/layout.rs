//! The text of a value, as a function of its tree and indentation depth.

use crate::node::Tree;
use crate::text::{spaces, trim};
use vstd::prelude::*;

verus! {

/// Null, booleans, numbers and strings.
pub open spec fn is_scalar(node: Tree) -> bool {
    node is Null || node is Boolean || node is Number || node is Text
}

/// Whether `node` sits on the line of its key or dash: a scalar, or a
/// collection without members.
pub open spec fn is_inline(node: Tree) -> bool {
    match node {
        Tree::Sequence(items) => items.len() == 0,
        Tree::Mapping(entries) => entries.len() == 0,
        _ => true,
    }
}

/// The text of a scalar: nothing for null, the literal for a boolean, the
/// number's own text, and a string verbatim unless it is empty.
pub open spec fn scalar_text(node: Tree) -> Seq<char>
    recommends
        is_scalar(node),
{
    match node {
        Tree::Boolean(value) => if value {
            "true"@
        } else {
            "false"@
        },
        Tree::Number(text) => text,
        Tree::Text(text) => if text.len() == 0 {
            "''"@
        } else {
            text
        },
        _ => Seq::empty(),
    }
}

/// What precedes the dash or key of member `index` of a collection at
/// `depth`: nothing for the first, `depth` spaces for the others.
pub open spec fn lead(index: int, depth: nat) -> Seq<char> {
    if index == 0 {
        Seq::empty()
    } else {
        spaces(depth)
    }
}

/// What separates a key from its value: a space for an inline value, a line
/// break and the deeper indentation for a block.
pub open spec fn key_gap(value: Tree, depth: nat) -> Seq<char> {
    if is_inline(value) {
        ": "@
    } else {
        ":\n"@ + spaces(depth + 2)
    }
}

/// The text of `node` at `depth`, ending in a line break. The first line
/// carries no indentation of its own.
pub open spec fn block(node: Tree, depth: nat) -> Seq<char>
    decreases node, 0nat,
{
    match node {
        Tree::Sequence(items) => if items.len() == 0 {
            "[]"@ + "\n"@
        } else {
            items_block(items, depth, items.len())
        },
        Tree::Mapping(entries) => if entries.len() == 0 {
            "{}"@ + "\n"@
        } else {
            entries_block(entries, depth, entries.len())
        },
        _ => scalar_text(node) + "\n"@,
    }
}

/// The line, or group of lines, of element `index` of a sequence at `depth`:
/// the lead, a dash, and the element's block two columns further in.
pub open spec fn item_line(item: Tree, index: int, depth: nat) -> Seq<char>
    decreases item, 1nat,
{
    lead(index, depth) + "- "@ + block(item, depth + 2)
}

/// The line, or group of lines, of entry `index` of a mapping at `depth`: the
/// lead, the key, the gap, the value's trimmed block two columns further in,
/// and a line break.
pub open spec fn entry_line(key: Seq<char>, value: Tree, index: int, depth: nat) -> Seq<char>
    decreases value, 1nat,
{
    lead(index, depth) + key + key_gap(value, depth) + trim(block(value, depth + 2)) + "\n"@
}

/// The lines of the first `count` elements of a sequence at `depth`.
pub open spec fn items_block(items: Seq<Tree>, depth: nat, count: nat) -> Seq<char>
    decreases items, count,
{
    if count == 0 || count > items.len() {
        Seq::empty()
    } else {
        items_block(items, depth, (count - 1) as nat) + item_line(
            items[count - 1],
            count - 1,
            depth,
        )
    }
}

/// The lines of the first `count` entries of a mapping at `depth`, in the
/// order of the entries.
pub open spec fn entries_block(entries: Seq<(Seq<char>, Tree)>, depth: nat, count: nat) -> Seq<
    char,
>
    decreases entries, count,
{
    if count == 0 || count > entries.len() {
        Seq::empty()
    } else {
        let (key, value) = entries[count - 1];
        entries_block(entries, depth, (count - 1) as nat) + entry_line(
            key,
            value,
            count - 1,
            depth,
        )
    }
}

/// The document for `node`: its block at depth 0, trimmed, and one line break.
pub open spec fn document(node: Tree) -> Seq<char> {
    trim(block(node, 0)) + "\n"@
}

/// The document for `node` behind a document-start marker.
pub open spec fn marked_document(node: Tree) -> Seq<char> {
    "---\n"@ + document(node)
}

} // verus!
