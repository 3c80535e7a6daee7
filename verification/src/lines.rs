//! Line breaks within a text: runs of them, empty lines, and the
//! indentation of the lines that follow them.

use vstd::prelude::*;

verus! {

/// No two line breaks stand side by side in `text`.
pub open spec fn no_break_pair(text: Seq<char>) -> bool {
    forall|i: int|
        0 <= i && i + 1 < text.len() ==> !(#[trigger] text[i] == '\n' && text[i + 1] == '\n')
}

/// No three line breaks stand side by side in `text`.
pub open spec fn no_break_triple(text: Seq<char>) -> bool {
    forall|i: int|
        0 <= i && i + 2 < text.len() ==> !(#[trigger] text[i] == '\n' && text[i + 1] == '\n'
            && text[i + 2] == '\n')
}

/// `text` ends in one line break that follows a character other than a line
/// break.
pub open spec fn ends_in_one_break(text: Seq<char>) -> bool {
    text.len() >= 2 && text[text.len() - 1] == '\n' && text[text.len() - 2] != '\n'
}

/// `text` does not open with two line breaks.
pub open spec fn opens_calmly(text: Seq<char>) -> bool {
    text.len() >= 2 ==> !(text[0] == '\n' && text[1] == '\n')
}

/// The line that the line break at `i` ends is empty.
pub open spec fn blank_line_at(text: Seq<char>, i: int) -> bool {
    0 <= i < text.len() && text[i] == '\n' && (i == 0 || text[i - 1] == '\n')
}

/// Somewhere in `text` two empty lines follow one another.
pub open spec fn has_two_blank_lines(text: Seq<char>) -> bool {
    exists|i: int| #[trigger] blank_line_at(text, i) && blank_line_at(text, i + 1)
}

/// A text without a run of three line breaks that does not open with two
/// holds no two empty lines that follow one another.
pub proof fn lemma_no_two_blank_lines(text: Seq<char>)
    requires
        no_break_triple(text),
        opens_calmly(text),
    ensures
        !has_two_blank_lines(text),
{
    assert forall|i: int| !(#[trigger] blank_line_at(text, i) && blank_line_at(text, i + 1)) by {
        if blank_line_at(text, i) && blank_line_at(text, i + 1) && i > 0 {
            assert(text[i - 1] == '\n');
        }
    }
}

/// Joining two texts makes no run of three line breaks where the first does
/// not end in a line break.
pub proof fn lemma_join_after_mark(left: Seq<char>, right: Seq<char>)
    requires
        no_break_triple(left),
        no_break_triple(right),
        left.len() == 0 || left.last() != '\n',
    ensures
        no_break_triple(left + right),
{
    let joined = left + right;
    assert forall|i: int| 0 <= i && i + 2 < joined.len() implies !(#[trigger] joined[i] == '\n'
        && joined[i + 1] == '\n' && joined[i + 2] == '\n') by {
        if i + 2 < left.len() {
            assert(left[i] == joined[i]);
        } else if i >= left.len() {
            assert(right[i - left.len()] == joined[i]);
        }
    }
}

/// Joining two texts makes no run of three line breaks where the second does
/// not open with a line break.
pub proof fn lemma_join_before_mark(left: Seq<char>, right: Seq<char>)
    requires
        no_break_triple(left),
        no_break_triple(right),
        right.len() == 0 || right[0] != '\n',
    ensures
        no_break_triple(left + right),
{
    let joined = left + right;
    assert forall|i: int| 0 <= i && i + 2 < joined.len() implies !(#[trigger] joined[i] == '\n'
        && joined[i + 1] == '\n' && joined[i + 2] == '\n') by {
        if i + 2 < left.len() {
            assert(left[i] == joined[i]);
        } else if i >= left.len() {
            assert(right[i - left.len()] == joined[i]);
        }
    }
}

/// Joining two texts makes no run of three line breaks where the first ends
/// in one line break and the second does not open with two.
pub proof fn lemma_join_lines(left: Seq<char>, right: Seq<char>)
    requires
        no_break_triple(left),
        no_break_triple(right),
        left.len() == 0 || ends_in_one_break(left),
        opens_calmly(right),
    ensures
        no_break_triple(left + right),
{
    let joined = left + right;
    assert forall|i: int| 0 <= i && i + 2 < joined.len() implies !(#[trigger] joined[i] == '\n'
        && joined[i + 1] == '\n' && joined[i + 2] == '\n') by {
        if i + 2 < left.len() {
            assert(left[i] == joined[i]);
        } else if i >= left.len() {
            assert(right[i - left.len()] == joined[i]);
        }
    }
}

/// A stretch of a text without a run of three line breaks has none either.
pub proof fn lemma_stretch_no_break_triple(text: Seq<char>, from: int, to: int)
    requires
        no_break_triple(text),
        0 <= from <= to <= text.len(),
    ensures
        no_break_triple(text.subrange(from, to)),
{
    let stretch = text.subrange(from, to);
    assert forall|i: int| 0 <= i && i + 2 < stretch.len() implies !(#[trigger] stretch[i] == '\n'
        && stretch[i + 1] == '\n' && stretch[i + 2] == '\n') by {
        assert(text[from + i] == stretch[i]);
    }
}

/// No line break stands in `text`.
pub open spec fn single_line(text: Seq<char>) -> bool {
    forall|i: int| 0 <= i < text.len() ==> #[trigger] text[i] != '\n'
}

/// `text` opens with at least `depth` spaces.
pub open spec fn opens_indented(text: Seq<char>, depth: nat) -> bool {
    text.len() >= depth && forall|j: int| 0 <= j < depth ==> #[trigger] text[j] == ' '
}

/// Every line of `text` after the first opens with at least `depth` spaces:
/// each line break, but one at the very end, is followed by that many.
pub open spec fn lines_indented(text: Seq<char>, depth: nat) -> bool {
    forall|i: int|
        0 <= i && i + 1 < text.len() && #[trigger] text[i] == '\n' ==> follows_indented(
            text,
            i,
            depth,
        )
}

/// Behind place `i` of `text` stand at least `depth` spaces.
pub open spec fn follows_indented(text: Seq<char>, i: int, depth: nat) -> bool {
    i + depth < text.len() && forall|j: int| i < j <= i + depth ==> #[trigger] text[j] == ' '
}

/// Joining two texts keeps the lines indented where the second opens
/// indented, or the first does not end in a line break.
pub proof fn lemma_join_indented(left: Seq<char>, right: Seq<char>, depth: nat)
    requires
        lines_indented(left, depth),
        lines_indented(right, depth),
        left.len() > 0 && left.last() == '\n' && right.len() > 0 ==> opens_indented(right, depth),
    ensures
        lines_indented(left + right, depth),
{
    let joined = left + right;
    assert forall|i: int|
        0 <= i && i + 1 < joined.len() && #[trigger] joined[i] == '\n' implies follows_indented(
        joined,
        i,
        depth,
    ) by {
        if i + 1 < left.len() {
            assert(left[i] == '\n');
            assert(follows_indented(left, i, depth));
            assert forall|j: int| i < j <= i + depth implies #[trigger] joined[j] == ' ' by {
                assert(left[j] == ' ');
            }
        } else if i + 1 == left.len() {
            assert(left.last() == '\n');
            assert forall|j: int| i < j <= i + depth implies #[trigger] joined[j] == ' ' by {
                assert(right[j - left.len()] == ' ');
            }
        } else {
            assert(right[i - left.len()] == '\n');
            assert(follows_indented(right, i - left.len(), depth));
            assert forall|j: int| i < j <= i + depth implies #[trigger] joined[j] == ' ' by {
                assert(right[j - left.len()] == ' ');
            }
        }
    }
}

/// Lines indented to a depth are indented to every smaller one.
pub proof fn lemma_indented_less(text: Seq<char>, depth: nat, less: nat)
    requires
        lines_indented(text, depth),
        less <= depth,
    ensures
        lines_indented(text, less),
{
    assert forall|i: int|
        0 <= i && i + 1 < text.len() && #[trigger] text[i] == '\n' implies follows_indented(
        text,
        i,
        less,
    ) by {
        assert(follows_indented(text, i, depth));
    }
}

/// A stretch that ends behind a character other than a space keeps the
/// lines indented.
pub proof fn lemma_stretch_indented(text: Seq<char>, from: int, to: int, depth: nat)
    requires
        lines_indented(text, depth),
        0 <= from <= to <= text.len(),
        from < to ==> text[to - 1] != ' ',
    ensures
        lines_indented(text.subrange(from, to), depth),
{
    let stretch = text.subrange(from, to);
    assert forall|i: int|
        0 <= i && i + 1 < stretch.len() && #[trigger] stretch[i] == '\n' implies follows_indented(
        stretch,
        i,
        depth,
    ) by {
        assert(text[from + i] == '\n');
        assert(follows_indented(text, from + i, depth));
        if from + i + depth >= to {
            assert(text[to - 1] == ' ');
        }
        assert forall|j: int| i < j <= i + depth implies #[trigger] stretch[j] == ' ' by {
            assert(text[from + j] == ' ');
        }
    }
}

} // verus!
