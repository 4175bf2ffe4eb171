//! What the two renderings of a list are, and which of them is chosen.
//!
//! Each rendering is the concatenation of one piece of text per child, in
//! source order. The piece of a child depends on its kind, on its fragment and
//! on the children around it.

use crate::context::CtxModel;
use crate::node::{prev_solid, GroupKind, ListModel, NodeKind};
use crate::text::{has_break, reindent};
use crate::utils::{blanks, next_ignoring, next_is, none_after, trivia};
use vstd::prelude::*;

verus! {

/// The comment that follows child `at` with nothing but whitespace between,
/// if there is one.
pub open spec fn comment_after(kinds: Seq<NodeKind>, at: int) -> Option<int> {
    let j = next_ignoring(kinds, at, blanks());
    if j < kinds.len() && kinds[j].is_comment() {
        Some(j)
    } else {
        None
    }
}

/// Whether nothing but whitespace lies between child `at` and the closing
/// bracket.
pub open spec fn closes_next(kinds: Seq<NodeKind>, at: int) -> bool {
    next_is(kinds, at, NodeKind::CloseBracket, blanks())
}

/// Whether nothing but whitespace and comments lies between child `at` and
/// the closing bracket.
pub open spec fn reaches_close(kinds: Seq<NodeKind>, at: int) -> bool {
    next_is(kinds, at, NodeKind::CloseBracket, trivia())
}

/// Whether the separator at `at` stands in trailing position: it is the last
/// separator of the list, and nothing but whitespace and comments lies
/// between it and the closing bracket.
pub open spec fn is_trailing_separator(kinds: Seq<NodeKind>, at: int) -> bool {
    none_after(kinds, at, NodeKind::Separator) && reaches_close(kinds, at)
}

/// What child `i` contributes to the single-line rendering.
///
/// Whitespace contributes nothing. A separator directly before the closing
/// bracket is kept in an array and dropped elsewhere; any other separator is
/// followed by one space. Every other child contributes its fragment.
pub open spec fn tight_piece(list: ListModel, frags: Seq<Seq<char>>, i: int) -> Seq<char> {
    match list.kinds[i] {
        NodeKind::Whitespace => Seq::empty(),
        NodeKind::Separator => if closes_next(list.kinds, i) {
            if list.group == GroupKind::Array {
                frags[i]
            } else {
                Seq::empty()
            }
        } else {
            frags[i] + seq![' ']
        },
        NodeKind::OpenBracket
        | NodeKind::CloseBracket
        | NodeKind::LineComment
        | NodeKind::BlockComment
        | NodeKind::Item => frags[i],
    }
}

/// The pieces of the single-line rendering, one per child.
pub open spec fn tight_pieces(list: ListModel, frags: Seq<Seq<char>>) -> Seq<Seq<char>> {
    Seq::new(list.kinds.len(), |i: int| tight_piece(list, frags, i))
}

/// The single-line rendering of the list.
pub open spec fn tight_text(list: ListModel, frags: Seq<Seq<char>>) -> Seq<char> {
    tight_pieces(list, frags).flatten()
}

/// The single-line rendering of the children before child `i`.
pub open spec fn tight_before(list: ListModel, frags: Seq<Seq<char>>, i: int) -> Seq<char> {
    tight_pieces(list, frags).take(i).flatten()
}

/// The pending-trailing flag as it stands when child `i` is reached: whether
/// a trailing separator is still owed.
///
/// It starts out set, except in a parenthesized group. Each separator decides
/// it anew: it is set after the last separator of the list where something
/// other than whitespace and comments follows that separator, and cleared
/// after every other one.
pub open spec fn pending_before(list: ListModel, i: int) -> bool
    decreases i,
{
    if i <= 0 {
        list.group != GroupKind::Parenthesized
    } else if list.kinds[i - 1] == NodeKind::Separator {
        none_after(list.kinds, i - 1, NodeKind::Separator) && !reaches_close(list.kinds, i - 1)
    } else {
        pending_before(list, i - 1)
    }
}

/// Across children that are no separators the pending-trailing flag keeps
/// its value.
pub proof fn lemma_pending_unchanged(list: ListModel, from: int, to: int)
    requires
        0 <= from <= to <= list.kinds.len(),
        forall|j: int| from <= j < to ==> list.kinds[j] != NodeKind::Separator,
    ensures
        pending_before(list, to) == pending_before(list, from),
    decreases to - from,
{
    if from < to {
        lemma_pending_unchanged(list, from, to - 1);
    }
}

/// One space and the re-indented comment, where child `at` is followed by a
/// comment with nothing but whitespace between; nothing otherwise.
pub open spec fn same_line_comment(
    kinds: Seq<NodeKind>,
    frags: Seq<Seq<char>>,
    indent: Seq<char>,
    at: int,
) -> Seq<char> {
    match comment_after(kinds, at) {
        Some(c) => seq![' '] + reindent(frags[c], indent),
        None => Seq::empty(),
    }
}

/// The opening bracket, a line break and the indent. A comment that follows
/// the bracket is pinned there: one space, the comment's fragment, a line
/// break and the indent again.
pub open spec fn open_piece(
    kinds: Seq<NodeKind>,
    frags: Seq<Seq<char>>,
    indent: Seq<char>,
    i: int,
) -> Seq<char> {
    frags[i] + seq!['\n'] + indent + match comment_after(kinds, i) {
        Some(c) => seq![' '] + frags[c] + seq!['\n'] + indent,
        None => Seq::empty(),
    }
}

/// The closing bracket. In a parenthesized group no separator comes before
/// it, so the line of the grouped expression is still open: the comment that
/// trails the expression, if there is one, follows after one space, then a
/// line break, then the bracket.
pub open spec fn close_piece(list: ListModel, frags: Seq<Seq<char>>, i: int) -> Seq<char> {
    if list.group == GroupKind::Parenthesized {
        (match comment_after(list.kinds, prev_solid(list.kinds, i)) {
            Some(c) => seq![' '] + frags[c],
            None => Seq::empty(),
        }) + seq!['\n'] + frags[i]
    } else {
        frags[i]
    }
}

/// Whether breaking the list makes up a separator at child `i`: the child
/// is the last thing before the closing bracket, and a trailing separator is
/// still owed when it is reached.
pub open spec fn owes_separator(list: ListModel, i: int) -> bool {
    closes_next(list.kinds, i) && pending_before(list, i)
}

/// A comment contributes nothing of its own, being rendered with the bracket
/// or the separator it follows, except where it is the last thing before the
/// closing bracket and a trailing separator is owed: then a separator is made
/// up before it, and a line break follows it.
pub open spec fn comment_piece(
    list: ListModel,
    frags: Seq<Seq<char>>,
    indent: Seq<char>,
    i: int,
) -> Seq<char> {
    if owes_separator(list, i) {
        seq![',', ' '] + reindent(frags[i], indent) + seq!['\n']
    } else {
        Seq::empty()
    }
}

/// A separator, the comment that follows it on its line, and a line break.
/// The indent for the next child follows, except after a separator in
/// trailing position: the next line is the closing bracket's.
pub open spec fn separator_piece(
    kinds: Seq<NodeKind>,
    frags: Seq<Seq<char>>,
    indent: Seq<char>,
    i: int,
) -> Seq<char> {
    frags[i] + same_line_comment(kinds, frags, indent, i) + seq!['\n'] + if is_trailing_separator(
        kinds,
        i,
    ) {
        Seq::empty()
    } else {
        indent
    }
}

/// An item, re-indented. Where it is the last thing before the closing
/// bracket and a trailing separator is owed, a separator is made up after it,
/// followed by a line break.
pub open spec fn item_piece(
    list: ListModel,
    frags: Seq<Seq<char>>,
    indent: Seq<char>,
    i: int,
) -> Seq<char> {
    reindent(frags[i], indent) + if owes_separator(list, i) {
        seq![',', '\n']
    } else {
        Seq::empty()
    }
}

/// What child `i` contributes to the multi-line rendering.
pub open spec fn breaking_piece(
    list: ListModel,
    frags: Seq<Seq<char>>,
    indent: Seq<char>,
    i: int,
) -> Seq<char> {
    match list.kinds[i] {
        NodeKind::OpenBracket => open_piece(list.kinds, frags, indent, i),
        NodeKind::CloseBracket => close_piece(list, frags, i),
        NodeKind::LineComment | NodeKind::BlockComment => comment_piece(list, frags, indent, i),
        NodeKind::Whitespace => Seq::empty(),
        NodeKind::Separator => separator_piece(list.kinds, frags, indent, i),
        NodeKind::Item => item_piece(list, frags, indent, i),
    }
}

/// The pieces of the multi-line rendering, one per child.
pub open spec fn breaking_pieces(
    list: ListModel,
    frags: Seq<Seq<char>>,
    indent: Seq<char>,
) -> Seq<Seq<char>> {
    Seq::new(list.kinds.len(), |i: int| breaking_piece(list, frags, indent, i))
}

/// The multi-line rendering of the list.
pub open spec fn breaking_text(
    list: ListModel,
    frags: Seq<Seq<char>>,
    indent: Seq<char>,
) -> Seq<char> {
    breaking_pieces(list, frags, indent).flatten()
}

/// The multi-line rendering of the children before child `i`.
pub open spec fn breaking_before(
    list: ListModel,
    frags: Seq<Seq<char>>,
    indent: Seq<char>,
    i: int,
) -> Seq<char> {
    breaking_pieces(list, frags, indent).take(i).flatten()
}

/// Whether one of the fragments holds a line break.
pub open spec fn any_break(frags: Seq<Seq<char>>) -> bool {
    exists|i: int| 0 <= i < frags.len() && has_break(#[trigger] frags[i])
}

/// The test for a child that counts as content.
pub open spec fn real_kind() -> spec_fn(NodeKind) -> bool {
    |k: NodeKind| k.is_real()
}

/// The number of children that count as content: all but brackets,
/// separators and whitespace. Comments count.
pub open spec fn real_item_count(kinds: Seq<NodeKind>) -> nat {
    kinds.filter(real_kind()).len()
}

/// The rendering that is chosen for the list.
///
/// A line break in any fragment forces the multi-line rendering. Otherwise a
/// list with at most one real item stays on one line whatever its length, and
/// any other list is broken exactly when its single-line rendering reaches
/// the line-width limit.
pub open spec fn formatted(list: ListModel, frags: Seq<Seq<char>>, ctx: CtxModel) -> Seq<char> {
    if any_break(frags) {
        breaking_text(list, frags, ctx.indent)
    } else if real_item_count(list.kinds) <= 1 {
        tight_text(list, frags)
    } else if tight_text(list, frags).len() >= ctx.max_line_length {
        breaking_text(list, frags, ctx.indent)
    } else {
        tight_text(list, frags)
    }
}

/// One more child adds one to the count of real items where it is real, and
/// nothing where it is not.
pub proof fn lemma_real_item_count_push(kinds: Seq<NodeKind>, kind: NodeKind)
    ensures
        real_item_count(kinds.push(kind)) == real_item_count(kinds) + if kind.is_real() {
            1nat
        } else {
            0nat
        },
{
    reveal(Seq::filter);
    assert(kinds.push(kind).drop_last() =~= kinds);
}

} // verus!
