//! What holds of every rendering.

use crate::layout::{
    block, document, entries_block, entry_line, is_inline, is_scalar, item_line, items_block,
    key_gap, lead, marked_document, scalar_text,
};
use crate::lines::{
    ends_in_one_break, follows_indented, has_two_blank_lines, lemma_indented_less,
    lemma_join_after_mark, lemma_join_before_mark, lemma_join_indented, lemma_join_lines,
    lemma_no_two_blank_lines, lemma_stretch_indented, lemma_stretch_no_break_triple,
    lines_indented, no_break_pair, no_break_triple, opens_calmly, opens_indented, single_line,
};
use crate::node::Tree;
use crate::text::{is_whitespace, lemma_trim_bounds, lemma_trim_is, spaces, trim};
use vstd::prelude::*;

verus! {

/// A text that is not empty and whose last character is not whitespace.
pub open spec fn ends_visibly(text: Seq<char>) -> bool {
    text.len() > 0 && !is_whitespace(text.last())
}

/// An empty string, an empty sequence or an empty mapping.
pub open spec fn is_empty_value(node: Tree) -> bool {
    match node {
        Tree::Text(text) => text.len() == 0,
        Tree::Sequence(items) => items.len() == 0,
        Tree::Mapping(entries) => entries.len() == 0,
        _ => false,
    }
}

/// The token that stands for an empty value: quotes for a string, brackets
/// for a sequence, braces for a mapping.
pub open spec fn empty_token(node: Tree) -> Seq<char>
    recommends
        is_empty_value(node),
{
    match node {
        Tree::Sequence(_) => "[]"@,
        Tree::Mapping(_) => "{}"@,
        _ => "''"@,
    }
}

/// The document of a sequence of one scalar is a dash, a space, the scalar's
/// text and a line break, for every boolean, and for every number and string
/// whose text ends in a character that is not whitespace.
pub proof fn singleton_scalar_sequence(scalar: Tree)
    requires
        is_scalar(scalar),
        scalar is Boolean || ends_visibly(scalar_text(scalar)),
    ensures
        document(Tree::Sequence(seq![scalar])) == "- "@ + scalar_text(scalar) + "\n"@,
{
    reveal_strlit("- ");
    reveal_strlit("\n");
    reveal_strlit("true");
    reveal_strlit("false");
    let items = seq![scalar];
    let text = scalar_text(scalar);
    let raw = block(Tree::Sequence(items), 0);
    assert(items_block(items, 0, 0) == Seq::<char>::empty());
    assert(raw == items_block(items, 0, 0) + item_line(scalar, 0, 0));
    assert(raw =~= "- "@ + text + "\n"@);
    lemma_trim_is(raw, 0, raw.len() - 1);
    assert(raw.subrange(0, raw.len() - 1) =~= "- "@ + text);
}

/// At the top level an empty value is its token on a line of its own.
pub proof fn empty_value_document(node: Tree)
    requires
        is_empty_value(node),
    ensures
        document(node) == empty_token(node) + "\n"@,
        marked_document(node) == "---\n"@ + empty_token(node) + "\n"@,
{
    lemma_empty_value_block(node, 0);
}

/// As an element of a sequence an empty value is its token behind the dash,
/// whatever the depth and its place among the elements.
pub proof fn empty_value_item(node: Tree, index: int, depth: nat)
    requires
        is_empty_value(node),
    ensures
        item_line(node, index, depth) == lead(index, depth) + "- "@ + empty_token(node) + "\n"@,
{
    lemma_empty_value_block(node, depth + 2);
}

/// As the value of a mapping entry an empty value is its token on the line
/// of its key, whatever the depth and its place among the entries.
pub proof fn empty_value_entry(key: Seq<char>, node: Tree, index: int, depth: nat)
    requires
        is_empty_value(node),
    ensures
        entry_line(key, node, index, depth) == lead(index, depth) + key + ": "@ + empty_token(node)
            + "\n"@,
{
    lemma_empty_value_block(node, depth + 2);
}

/// The block of an empty value is its token and a line break, and trims to
/// the token.
proof fn lemma_empty_value_block(node: Tree, depth: nat)
    requires
        is_empty_value(node),
    ensures
        block(node, depth) == empty_token(node) + "\n"@,
        trim(block(node, depth)) == empty_token(node),
{
    reveal_strlit("\n");
    reveal_strlit("[]");
    reveal_strlit("{}");
    reveal_strlit("''");
    let raw = block(node, depth);
    assert(raw == empty_token(node) + "\n"@);
    lemma_trim_is(raw, 0, 2);
    assert(raw.subrange(0, 2) =~= empty_token(node));
}

/// The lines of the first `count` entries open the lines of the first
/// `total` entries.
proof fn lemma_entries_prefix(
    entries: Seq<(Seq<char>, Tree)>,
    depth: nat,
    count: nat,
    total: nat,
)
    requires
        count <= total <= entries.len(),
    ensures
        entries_block(entries, depth, count).len() <= entries_block(entries, depth, total).len(),
        entries_block(entries, depth, total).subrange(
            0,
            entries_block(entries, depth, count).len() as int,
        ) == entries_block(entries, depth, count),
    decreases total - count,
{
    let short = entries_block(entries, depth, count);
    let long = entries_block(entries, depth, total);
    if count < total {
        lemma_entries_prefix(entries, depth, count, (total - 1) as nat);
        let before = entries_block(entries, depth, (total - 1) as nat);
        assert(before.subrange(0, short.len() as int) == short);
        assert(long.subrange(0, short.len() as int) =~= before.subrange(0, short.len() as int));
    } else {
        assert(long.subrange(0, short.len() as int) =~= short);
    }
}

/// Within the block of a mapping, the line of entry `index` stands behind
/// the lines of the entries before it.
proof fn lemma_entry_place(entries: Seq<(Seq<char>, Tree)>, depth: nat, index: int)
    requires
        0 <= index < entries.len(),
    ensures
        ({
            let text = block(Tree::Mapping(entries), depth);
            let from = entries_block(entries, depth, index as nat).len();
            let line = entry_line(entries[index].0, entries[index].1, index, depth);
            &&& from + line.len() == entries_block(entries, depth, (index + 1) as nat).len()
            &&& from + line.len() <= text.len()
            &&& text.subrange(from as int, (from + line.len()) as int) == line
        }),
{
    let text = block(Tree::Mapping(entries), depth);
    let before = entries_block(entries, depth, index as nat);
    let through = entries_block(entries, depth, (index + 1) as nat);
    let line = entry_line(entries[index].0, entries[index].1, index, depth);
    assert(through == before + line);
    lemma_entries_prefix(entries, depth, (index + 1) as nat, entries.len());
    assert(text.subrange(before.len() as int, (before.len() + line.len()) as int) =~= text.subrange(
        0,
        through.len() as int,
    ).subrange(before.len() as int, through.len() as int));
    assert(through.subrange(before.len() as int, through.len() as int) =~= line);
}

/// A mapping is rendered in the order of its entries: the line of an entry,
/// which opens with its lead, its key and a colon, stands in the block where
/// the lines of the entries before it end, and so wholly before the line of
/// every later entry.
pub proof fn mapping_keeps_entry_order(
    entries: Seq<(Seq<char>, Tree)>,
    depth: nat,
    earlier: int,
    later: int,
)
    requires
        0 <= earlier < later < entries.len(),
    ensures
        ({
            let text = block(Tree::Mapping(entries), depth);
            let first = entry_line(entries[earlier].0, entries[earlier].1, earlier, depth);
            let second = entry_line(entries[later].0, entries[later].1, later, depth);
            let first_at = entries_block(entries, depth, earlier as nat).len();
            let second_at = entries_block(entries, depth, later as nat).len();
            &&& first_at + first.len() <= second_at
            &&& second_at + second.len() <= text.len()
            &&& text.subrange(first_at as int, (first_at + first.len()) as int) == first
            &&& text.subrange(second_at as int, (second_at + second.len()) as int) == second
        }),
{
    lemma_entry_place(entries, depth, earlier);
    lemma_entry_place(entries, depth, later);
    lemma_entries_prefix(entries, depth, (earlier + 1) as nat, later as nat);
}

/// The line of a mapping entry opens with its lead, its key and a colon.
pub proof fn entry_line_opens_with_key(key: Seq<char>, value: Tree, index: int, depth: nat)
    ensures
        ({
            let line = entry_line(key, value, index, depth);
            let opening = lead(index, depth) + key + ":"@;
            &&& opening.len() <= line.len()
            &&& line.subrange(0, opening.len() as int) == opening
        }),
{
    reveal_strlit(":");
    reveal_strlit(": ");
    reveal_strlit(":\n");
    let line = entry_line(key, value, index, depth);
    let opening = lead(index, depth) + key + ":"@;
    assert(line.subrange(0, opening.len() as int) =~= opening);
}

/// The lines of a sequence open with a dash.
proof fn lemma_items_open_with_dash(items: Seq<Tree>, depth: nat, count: nat)
    requires
        1 <= count <= items.len(),
    ensures
        items_block(items, depth, count).len() > 0,
        items_block(items, depth, count)[0] == '-',
    decreases count,
{
    reveal_strlit("- ");
    if count > 1 {
        lemma_items_open_with_dash(items, depth, (count - 1) as nat);
    } else {
        let line = item_line(items[0], 0, depth);
        assert(items_block(items, depth, 0) == Seq::<char>::empty());
        assert(items_block(items, depth, 1) =~= line);
        assert(line[0] == "- "@[0]);
    }
}

/// The lines of a mapping hold a colon right behind the first key.
proof fn lemma_entries_hold_colon(entries: Seq<(Seq<char>, Tree)>, depth: nat, count: nat)
    requires
        1 <= count <= entries.len(),
    ensures
        entries_block(entries, depth, count).len() > entries[0].0.len(),
        entries_block(entries, depth, count)[entries[0].0.len() as int] == ':',
    decreases count,
{
    reveal_strlit(": ");
    reveal_strlit(":\n");
    if count > 1 {
        lemma_entries_hold_colon(entries, depth, (count - 1) as nat);
    } else {
        let (key, value) = entries[0];
        let line = entry_line(key, value, 0, depth);
        assert(entries_block(entries, depth, 0) == Seq::<char>::empty());
        assert(entries_block(entries, depth, 1) =~= line);
        assert(key_gap(value, depth)[0] == ':');
        assert(line[key.len() as int] == key_gap(value, depth)[0]);
    }
}

/// A collection is written on the line of its key or dash exactly when its
/// block trims to a pair of brackets or braces. So a value is inline exactly
/// when it is a scalar or renders as one of these two tokens.
pub proof fn inline_by_text(node: Tree, depth: nat)
    ensures
        is_inline(node) <==> is_scalar(node) || trim(block(node, depth)) == "[]"@ || trim(
            block(node, depth),
        ) == "{}"@,
{
    reveal_strlit("[]");
    reveal_strlit("{}");
    let raw = block(node, depth);
    match node {
        Tree::Sequence(items) => {
            if items.len() == 0 {
                lemma_empty_value_block(node, depth);
                assert(trim(raw) == "[]"@);
            } else {
                lemma_items_open_with_dash(items, depth, items.len());
                let bounds = lemma_trim_bounds(raw);
                assert(!is_whitespace(raw[0]));
                assert(bounds.0 == 0 && bounds.1 > 0);
                assert(trim(raw)[0] == '-');
                assert("[]"@[0] == '[' && "{}"@[0] == '{');
                assert(trim(raw) != "[]"@ && trim(raw) != "{}"@);
                assert(!is_inline(node) && !is_scalar(node));
            }
        },
        Tree::Mapping(entries) => {
            if entries.len() == 0 {
                lemma_empty_value_block(node, depth);
                assert(trim(raw) == "{}"@);
            } else {
                lemma_entries_hold_colon(entries, depth, entries.len());
                let at = entries[0].0.len() as int;
                let bounds = lemma_trim_bounds(raw);
                assert(!is_whitespace(raw[at]));
                assert(bounds.0 <= at < bounds.1);
                assert(trim(raw)[at - bounds.0] == ':');
                let place = at - bounds.0;
                assert(trim(raw).len() > place);
                assert("[]"@.len() == 2 && "[]"@[0] == '[' && "[]"@[1] == ']');
                assert("{}"@.len() == 2 && "{}"@[0] == '{' && "{}"@[1] == '}');
                if trim(raw) == "[]"@ {
                    assert(place == 0 || place == 1);
                    assert(false);
                }
                if trim(raw) == "{}"@ {
                    assert(place == 0 || place == 1);
                    assert(false);
                }
                assert(!is_inline(node) && !is_scalar(node));
            }
        },
        _ => {},
    }
}

/// The block of an inline value is the same at every depth.
pub proof fn inline_block_ignores_depth(node: Tree, depth: nat, other: nat)
    requires
        is_inline(node),
    ensures
        block(node, depth) == block(node, other),
{
}

/// Every block ends in a line break.
pub proof fn block_ends_in_line_break(node: Tree, depth: nat)
    ensures
        block(node, depth).len() > 0,
        block(node, depth).last() == '\n',
    decreases node,
{
    reveal_strlit("\n");
    reveal_strlit("- ");
    match node {
        Tree::Sequence(items) => {
            if items.len() > 0 {
                let last = items[items.len() - 1];
                block_ends_in_line_break(last, depth + 2);
                assert(block(node, depth) == items_block(items, depth, (items.len() - 1) as nat)
                    + item_line(last, items.len() - 1, depth));
            }
        },
        Tree::Mapping(entries) => {
            if entries.len() > 0 {
                let (key, value) = entries[entries.len() - 1];
                assert(block(node, depth) == entries_block(
                    entries,
                    depth,
                    (entries.len() - 1) as nat,
                ) + entry_line(key, value, entries.len() - 1, depth));
            }
        },
        _ => {},
    }
}

/// Trimming is idempotent: a trimmed text trims to itself.
pub proof fn trimming_is_idempotent(text: Seq<char>)
    ensures
        trim(trim(text)) == trim(text),
{
    lemma_trim_bounds(text);
    let once = trim(text);
    lemma_trim_is(once, 0, once.len() as int);
    assert(once.subrange(0, once.len() as int) == once);
}

/// A document is settled: trimmed once more and given its line break
/// again, it is the same document.
pub proof fn document_is_settled(node: Tree)
    ensures
        trim(document(node)) + "\n"@ == document(node),
{
    reveal_strlit("\n");
    let raw = block(node, 0);
    let bare = trim(raw);
    lemma_trim_bounds(raw);
    let plain = document(node);
    lemma_trim_is(plain, 0, bare.len() as int);
    assert(plain.subrange(0, bare.len() as int) == bare);
}

/// No number, string or key within `node` holds two line breaks side by
/// side.
pub open spec fn no_break_pairs(node: Tree) -> bool
    decreases node,
{
    match node {
        Tree::Number(text) => no_break_pair(text),
        Tree::Text(text) => no_break_pair(text),
        Tree::Sequence(items) => forall|i: int|
            0 <= i < items.len() ==> no_break_pairs(#[trigger] items[i]),
        Tree::Mapping(entries) => forall|i: int|
            0 <= i < entries.len() ==> no_break_pair((#[trigger] entries[i]).0) && no_break_pairs(
                entries[i].1,
            ),
        _ => true,
    }
}

/// Rendering never makes two empty lines in a row: where no number, string
/// or key of the value holds two line breaks side by side, neither its
/// document nor its document behind a marker holds two empty lines that
/// follow one another, however its collections are nested and whichever of
/// them are empty.
pub proof fn no_consecutive_blank_lines(node: Tree)
    requires
        no_break_pairs(node),
    ensures
        !has_two_blank_lines(document(node)),
        !has_two_blank_lines(marked_document(node)),
{
    reveal_strlit("\n");
    reveal_strlit("---\n");
    let raw = block(node, 0);
    lemma_block_calm(node, 0);
    let bounds = lemma_trim_bounds(raw);
    let bare = trim(raw);
    lemma_stretch_no_break_triple(raw, bounds.0, bounds.1);
    assert(bare.len() > 0 ==> !is_whitespace(bare[0]) && !is_whitespace(bare.last()));
    let plain = document(node);
    lemma_join_after_mark(bare, "\n"@);
    let marked = marked_document(node);
    lemma_join_lines("---\n"@, plain);
    lemma_no_two_blank_lines(plain);
    lemma_no_two_blank_lines(marked);
}

/// The block of a value whose texts hold no two line breaks side by side
/// holds no three.
proof fn lemma_block_calm(node: Tree, depth: nat)
    requires
        no_break_pairs(node),
    ensures
        no_break_triple(block(node, depth)),
    decreases node, 0nat,
{
    reveal_strlit("\n");
    reveal_strlit("[]");
    reveal_strlit("{}");
    reveal_strlit("''");
    reveal_strlit("true");
    reveal_strlit("false");
    match node {
        Tree::Sequence(items) => {
            if items.len() > 0 {
                lemma_items_calm(items, depth, items.len());
            }
        },
        Tree::Mapping(entries) => {
            if entries.len() > 0 {
                lemma_entries_calm(entries, depth, entries.len());
            }
        },
        _ => {
            let text = scalar_text(node);
            let line = block(node, depth);
            assert(no_break_pair(text));
            assert forall|i: int| 0 <= i && i + 2 < line.len() implies !(#[trigger] line[i] == '\n'
                && line[i + 1] == '\n' && line[i + 2] == '\n') by {
                assert(line[i] == text[i] && line[i + 1] == text[i + 1]);
            }
        },
    }
}

/// The lines of the elements of a sequence hold no three line breaks side
/// by side.
proof fn lemma_items_calm(items: Seq<Tree>, depth: nat, count: nat)
    requires
        forall|i: int| 0 <= i < items.len() ==> no_break_pairs(#[trigger] items[i]),
        count <= items.len(),
    ensures
        no_break_triple(items_block(items, depth, count)),
    decreases items, count,
{
    reveal_strlit("- ");
    if count > 0 {
        let before = items_block(items, depth, (count - 1) as nat);
        let item = items[count - 1];
        let opening = lead(count - 1, depth) + "- "@;
        lemma_items_calm(items, depth, (count - 1) as nat);
        lemma_block_calm(item, depth + 2);
        lemma_join_after_mark(opening, block(item, depth + 2));
        lemma_join_before_mark(before, item_line(item, count - 1, depth));
    }
}

/// The lines of the entries of a mapping hold no three line breaks side by
/// side, and end in a single one.
proof fn lemma_entries_calm(entries: Seq<(Seq<char>, Tree)>, depth: nat, count: nat)
    requires
        forall|i: int|
            0 <= i < entries.len() ==> no_break_pair((#[trigger] entries[i]).0) && no_break_pairs(
                entries[i].1,
            ),
        count <= entries.len(),
    ensures
        no_break_triple(entries_block(entries, depth, count)),
        count > 0 ==> ends_in_one_break(entries_block(entries, depth, count)),
        count == 0 ==> entries_block(entries, depth, count).len() == 0,
    decreases entries, count,
{
    if count > 0 {
        let before = entries_block(entries, depth, (count - 1) as nat);
        let (key, value) = entries[count - 1];
        lemma_entries_calm(entries, depth, (count - 1) as nat);
        lemma_entry_line_calm(key, value, count - 1, depth);
        lemma_join_lines(before, entry_line(key, value, count - 1, depth));
    }
}

/// The line of a mapping entry holds no three line breaks side by side,
/// ends in a single one and does not open with two.
proof fn lemma_entry_line_calm(key: Seq<char>, value: Tree, index: int, depth: nat)
    requires
        no_break_pair(key),
        no_break_pairs(value),
    ensures
        no_break_triple(entry_line(key, value, index, depth)),
        ends_in_one_break(entry_line(key, value, index, depth)),
        opens_calmly(entry_line(key, value, index, depth)),
    decreases value, 1nat,
{
    reveal_strlit("\n");
    reveal_strlit(": ");
    reveal_strlit(":\n");
    let raw = block(value, depth + 2);
    lemma_block_calm(value, depth + 2);
    let bounds = lemma_trim_bounds(raw);
    let kept = trim(raw);
    lemma_stretch_no_break_triple(raw, bounds.0, bounds.1);
    assert(kept.len() > 0 ==> !is_whitespace(kept[0]) && !is_whitespace(kept.last()));
    let indent = lead(index, depth);
    let gap = key_gap(value, depth);
    assert(gap.len() >= 2 && gap[0] == ':' && gap.last() == ' ');
    assert(no_break_triple(gap)) by {
        assert forall|i: int| 0 <= i && i + 2 < gap.len() implies !(#[trigger] gap[i] == '\n'
            && gap[i + 1] == '\n' && gap[i + 2] == '\n') by {
            assert(gap[i + 2] == ' ');
        }
    }
    let keyed = indent + key;
    lemma_join_after_mark(indent, key);
    let opened = keyed + gap;
    lemma_join_before_mark(keyed, gap);
    let filled = opened + kept;
    lemma_join_after_mark(opened, kept);
    let line = filled + "\n"@;
    assert(filled.last() != '\n');
    lemma_join_after_mark(filled, "\n"@);
    assert(line == entry_line(key, value, index, depth));
    assert(opens_calmly(line)) by {
        if indent.len() > 0 {
            assert(line[0] == ' ');
        } else if key.len() >= 2 {
            assert(line[0] == key[0] && line[1] == key[1]);
        } else if key.len() == 1 {
            assert(line[1] == ':');
        } else {
            assert(line[0] == ':');
        }
    }
}

/// No number, string or key within `node` holds a line break.
pub open spec fn single_line_texts(node: Tree) -> bool
    decreases node,
{
    match node {
        Tree::Number(text) => single_line(text),
        Tree::Text(text) => single_line(text),
        Tree::Sequence(items) => forall|i: int|
            0 <= i < items.len() ==> single_line_texts(#[trigger] items[i]),
        Tree::Mapping(entries) => forall|i: int|
            0 <= i < entries.len() ==> single_line((#[trigger] entries[i]).0)
                && single_line_texts(entries[i].1),
        _ => true,
    }
}

/// Where no number, string or key of a value holds a line break, each line
/// of its block at `depth` after the first opens with at least `depth`
/// spaces.
pub proof fn continuation_lines_are_indented(node: Tree, depth: nat)
    requires
        single_line_texts(node),
    ensures
        lines_indented(block(node, depth), depth),
    decreases node, 0nat,
{
    reveal_strlit("\n");
    reveal_strlit("[]");
    reveal_strlit("{}");
    reveal_strlit("''");
    reveal_strlit("true");
    reveal_strlit("false");
    match node {
        Tree::Sequence(items) => {
            if items.len() > 0 {
                lemma_items_indented(items, depth, items.len());
            }
        },
        Tree::Mapping(entries) => {
            if entries.len() > 0 {
                lemma_entries_indented(entries, depth, entries.len());
            }
        },
        _ => {
            assert(single_line(scalar_text(node)));
        },
    }
}

/// The lines of the elements of a sequence are indented to its depth.
proof fn lemma_items_indented(items: Seq<Tree>, depth: nat, count: nat)
    requires
        forall|i: int| 0 <= i < items.len() ==> single_line_texts(#[trigger] items[i]),
        count <= items.len(),
    ensures
        lines_indented(items_block(items, depth, count), depth),
    decreases items, count,
{
    reveal_strlit("- ");
    if count > 0 {
        let before = items_block(items, depth, (count - 1) as nat);
        let item = items[count - 1];
        let opening = lead(count - 1, depth) + "- "@;
        let inner = block(item, depth + 2);
        lemma_items_indented(items, depth, (count - 1) as nat);
        continuation_lines_are_indented(item, depth + 2);
        lemma_indented_less(inner, depth + 2, depth);
        assert(single_line(opening));
        lemma_join_indented(opening, inner, depth);
        let line = item_line(item, count - 1, depth);
        assert(line == opening + inner);
        if count > 1 {
            assert(opens_indented(line, depth)) by {
                assert forall|j: int| 0 <= j < depth implies #[trigger] line[j] == ' ' by {
                    assert(line[j] == spaces(depth)[j]);
                }
            }
        }
        lemma_join_indented(before, line, depth);
    }
}

/// The lines of the entries of a mapping are indented to its depth.
proof fn lemma_entries_indented(entries: Seq<(Seq<char>, Tree)>, depth: nat, count: nat)
    requires
        forall|i: int|
            0 <= i < entries.len() ==> single_line((#[trigger] entries[i]).0) && single_line_texts(
                entries[i].1,
            ),
        count <= entries.len(),
    ensures
        lines_indented(entries_block(entries, depth, count), depth),
    decreases entries, count,
{
    reveal_strlit("\n");
    reveal_strlit(": ");
    reveal_strlit(":\n");
    if count > 0 {
        let before = entries_block(entries, depth, (count - 1) as nat);
        let (key, value) = entries[count - 1];
        lemma_entries_indented(entries, depth, (count - 1) as nat);
        let raw = block(value, depth + 2);
        continuation_lines_are_indented(value, depth + 2);
        let bounds = lemma_trim_bounds(raw);
        let kept = trim(raw);
        assert(bounds.0 < bounds.1 ==> !is_whitespace(raw[bounds.1 - 1]));
        lemma_stretch_indented(raw, bounds.0, bounds.1, depth + 2);
        lemma_indented_less(kept, depth + 2, depth);
        let indent = lead(count - 1, depth);
        let gap = key_gap(value, depth);
        assert(lines_indented(gap, depth)) by {
            assert forall|i: int|
                0 <= i && i + 1 < gap.len() && #[trigger] gap[i] == '\n' implies follows_indented(
                gap,
                i,
                depth,
            ) by {
                assert(i == 1);
                assert forall|j: int| i < j <= i + depth implies #[trigger] gap[j] == ' ' by {
                    assert(gap[j] == spaces(depth + 2)[j - 2]);
                }
            }
        }
        let keyed = indent + key;
        assert(single_line(keyed));
        lemma_join_indented(keyed, gap, depth);
        let opened = keyed + gap;
        assert(opened.last() == ' ');
        lemma_join_indented(opened, kept, depth);
        let filled = opened + kept;
        assert(filled.last() != '\n');
        lemma_join_indented(filled, "\n"@, depth);
        let line = filled + "\n"@;
        assert(line == entry_line(key, value, count - 1, depth));
        if count > 1 {
            assert(opens_indented(line, depth)) by {
                assert forall|j: int| 0 <= j < depth implies #[trigger] line[j] == ' ' by {
                    assert(line[j] == spaces(depth)[j]);
                }
            }
        }
        lemma_join_indented(before, line, depth);
    }
}

} // verus!
