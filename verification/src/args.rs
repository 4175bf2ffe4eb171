//! Rendering a list: on one line, over several lines, and the choice between
//! the two.

use crate::context::Ctx;
use crate::join::lemma_flatten_step;
use crate::laws::{law_breaking_holds_line_break, law_tight_adds_no_line_break};
use crate::layout::{
    any_break, breaking_before, breaking_pieces, breaking_text, formatted,
    lemma_real_item_count_push, pending_before, real_item_count, tight_before, tight_pieces,
    tight_text,
};
use crate::node::{lemma_prev_solid, GroupKind, ListNode, NodeKind};
use crate::text::{contains_line_break, has_break, lemma_unbroken_line_len};
use crate::utils::{
    blanks, find_next, get_next_ignoring, max_line_length, next_is_ignoring, trivia,
};
use vstd::prelude::*;

verus! {

/// Whether one of the fragments holds a line break.
pub fn any_line_break(children: &[String]) -> (b: bool)
    ensures
        b == any_break(children.deep_view()),
{
    let mut i: usize = 0;
    while i < children.len()
        invariant
            i <= children@.len(),
            forall|j: int| 0 <= j < i ==> !has_break(#[trigger] children.deep_view()[j]),
        decreases children@.len() - i,
    {
        if contains_line_break(children[i].as_str()) {
            assert(has_break(children.deep_view()[i as int]));
            return true;
        }
        i += 1;
    }
    false
}

/// The number of children that count as content: all but brackets,
/// separators and whitespace. Comments count.
pub fn count_real_items(parent: &ListNode) -> (count: usize)
    ensures
        count == real_item_count(parent@.kinds),
{
    let n: usize = parent.len();
    let mut count: usize = 0;
    let mut i: usize = 0;
    proof {
        reveal(Seq::filter);
        assert(parent@.kinds.take(0) =~= Seq::<NodeKind>::empty());
    }
    while i < n
        invariant
            n == parent@.kinds.len(),
            i <= n,
            count <= i,
            count == real_item_count(parent@.kinds.take(i as int)),
        decreases n - i,
    {
        proof {
            let kinds = parent@.kinds;
            assert(kinds.take(i + 1) =~= kinds.take(i as int).push(kinds[i as int]));
            lemma_real_item_count_push(kinds.take(i as int), kinds[i as int]);
        }
        if parent.kind(i).is_real() {
            count += 1;
        }
        i += 1;
    }
    proof {
        assert(parent@.kinds.take(n as int) =~= parent@.kinds);
    }
    count
}

/// Renders the list, on one line where that is in order and over several
/// lines otherwise.
///
/// A line break in any fragment forces the multi-line rendering. Otherwise a
/// list with at most one real item stays on one line whatever its length, and
/// any other list is broken exactly when its single-line rendering reaches
/// the line-width limit of the context.
pub fn format_args(parent: &ListNode, children: &[String], ctx: &Ctx) -> (res: String)
    requires
        children@.len() == parent@.kinds.len(),
    ensures
        res@ == formatted(parent@, children.deep_view(), ctx@),
{
    if any_line_break(children) {
        return format_args_breaking(parent, children, ctx);
    }
    let mut res = format_args_tight(parent, children, ctx);
    let number_of_args = count_real_items(parent);

    if number_of_args <= 1 {
        return res;
    }
    proof {
        lemma_unbroken_line_len(res@);
    }
    if max_line_length(res.as_str()) >= ctx.max_line_length {
        res = format_args_breaking(parent, children, ctx);
        return res;
    }
    res
}

/// Renders the list on a single line. No line break is added to what the
/// fragments hold.
pub fn format_args_tight(parent: &ListNode, children: &[String], ctx: &Ctx) -> (res: String)
    requires
        children@.len() == parent@.kinds.len(),
    ensures
        res@ == tight_text(parent@, children.deep_view()),
        !any_break(children.deep_view()) ==> !has_break(res@),
{
    let ghost pieces = tight_pieces(parent@, children.deep_view());
    let mut res = String::new();
    let n: usize = parent.len();
    let mut i: usize = 0;
    proof {
        assert(pieces.take(0) =~= Seq::<Seq<char>>::empty());
    }
    while i < n
        invariant
            n == parent@.kinds.len(),
            n == children@.len(),
            i <= n,
            pieces == tight_pieces(parent@, children.deep_view()),
            res@ == tight_before(parent@, children.deep_view(), i as int),
        decreases n - i,
    {
        let ghost before = res@;
        let s: &str = children[i].as_str();
        match parent.kind(i) {
            NodeKind::Whitespace => {},
            NodeKind::Separator => {
                let blank = [NodeKind::Whitespace];
                proof {
                    assert(blank@ =~= blanks());
                }
                if next_is_ignoring(parent, i, NodeKind::CloseBracket, &blank) {
                    // Without its separator a one-element array would read
                    // as a parenthesized expression.
                    if parent.group() == GroupKind::Array {
                        ctx.push_raw_in(s, &mut res);
                    }
                } else {
                    ctx.push_raw_in(s, &mut res);
                    proof {
                        reveal_strlit(" ");
                        assert(" "@ =~= seq![' ']);
                    }
                    ctx.push_in(" ", &mut res);
                }
            },
            NodeKind::OpenBracket
            | NodeKind::CloseBracket
            | NodeKind::LineComment
            | NodeKind::BlockComment
            | NodeKind::Item => {
                ctx.push_raw_in(s, &mut res);
            },
        }
        proof {
            assert(res@ =~= before + pieces[i as int]);
            lemma_flatten_step(pieces, i as int);
        }
        i += 1;
    }
    proof {
        assert(pieces.take(n as int) =~= pieces);
        if !any_break(children.deep_view()) {
            law_tight_adds_no_line_break(parent@, children.deep_view());
        }
    }
    res
}

/// Renders the list over several lines: the opening bracket, each item on a
/// line of its own at the current indent, the closing bracket. Separators
/// stay on the line of the item they follow, and so do comments; a trailing
/// separator is made up where the list owes one and the source has none.
pub fn format_args_breaking(parent: &ListNode, children: &[String], ctx: &Ctx) -> (res: String)
    requires
        children@.len() == parent@.kinds.len(),
    ensures
        res@ == breaking_text(parent@, children.deep_view(), ctx@.indent),
        has_break(res@),
{
    let ghost list = parent@;
    let ghost frags = children.deep_view();
    let ghost indent = ctx@.indent;
    let ghost pieces = breaking_pieces(list, frags, indent);
    let current_indent = ctx.get_indent();
    let mut res = String::new();
    let mut missing_trailing = parent.group() != GroupKind::Parenthesized;
    let blank = [NodeKind::Whitespace];
    let blank_or_comment = [NodeKind::Whitespace, NodeKind::LineComment, NodeKind::BlockComment];
    let n: usize = parent.len();
    let mut i: usize = 0;
    proof {
        use_type_invariant(parent);
        assert(pieces.take(0) =~= Seq::<Seq<char>>::empty());
        assert(blank@ =~= blanks());
        assert(blank_or_comment@ =~= trivia());
    }
    while i < n
        invariant
            list == parent@,
            list.well_formed(),
            frags == children.deep_view(),
            indent == ctx@.indent,
            indent == current_indent@,
            pieces == breaking_pieces(list, frags, indent),
            blank@ == blanks(),
            blank_or_comment@ == trivia(),
            n == list.kinds.len(),
            n == children@.len(),
            i <= n,
            res@ == breaking_before(list, frags, indent, i as int),
            missing_trailing == pending_before(list, i as int),
        decreases n - i,
    {
        let ghost before = res@;
        let s: &str = children[i].as_str();
        let is_last = next_is_ignoring(parent, i, NodeKind::CloseBracket, &blank);
        match parent.kind(i) {
            NodeKind::OpenBracket => {
                ctx.push_raw_in(s, &mut res);
                res.push('\n');
                ctx.push_raw_in(current_indent.as_str(), &mut res);
                if let Some(next) = get_next_ignoring(parent, i, &blank) {
                    if parent.kind(next).is_comment() {
                        // The comment stays with the bracket, off the line
                        // of the first item.
                        res.push(' ');
                        ctx.push_raw_in(children[next].as_str(), &mut res);
                        res.push('\n');
                        ctx.push_raw_in(current_indent.as_str(), &mut res);
                    }
                }
            },
            NodeKind::CloseBracket => {
                if parent.group() == GroupKind::Parenthesized {
                    proof {
                        lemma_prev_solid(list.kinds, i as int);
                    }
                    let prev = parent.prev_sibling(i).unwrap();
                    if let Some(next) = get_next_ignoring(parent, prev, &blank) {
                        if parent.kind(next).is_comment() {
                            res.push(' ');
                            ctx.push_raw_in(children[next].as_str(), &mut res);
                        }
                    }
                    // No separator was made up, so the line is still open.
                    res.push('\n');
                }
                ctx.push_raw_in(s, &mut res);
            },
            NodeKind::LineComment | NodeKind::BlockComment => {
                // Rendered with the bracket or the separator it follows,
                // unless it is what a missing trailing separator must precede.
                if is_last && missing_trailing {
                    res.push(',');
                    res.push(' ');
                    ctx.push_raw_indent(s, &mut res);
                    res.push('\n');
                }
            },
            NodeKind::Whitespace => {},
            NodeKind::Separator => {
                let is_separator = |kind: NodeKind| -> (b: bool)
                    ensures
                        b == (kind == NodeKind::Separator),
                    { kind == NodeKind::Separator };
                let is_last_comma = find_next(parent, i, &is_separator).is_none();
                let is_trailing = next_is_ignoring(
                    parent,
                    i,
                    NodeKind::CloseBracket,
                    &blank_or_comment,
                );
                let next = get_next_ignoring(parent, i, &blank);
                let next_is_comment = match next {
                    Some(c) => parent.kind(c).is_comment(),
                    None => false,
                };
                // The last separator of a list that goes on after it leaves
                // the trailing separator owed.
                missing_trailing = is_last_comma && !is_trailing;
                ctx.push_raw_in(s, &mut res);
                if next_is_comment {
                    res.push(' ');
                    ctx.push_raw_indent(children[next.unwrap()].as_str(), &mut res);
                }
                res.push('\n');
                if !(is_last_comma && is_trailing) {
                    // After a trailing separator the closing bracket comes
                    // next, and it takes no indent.
                    ctx.push_raw_in(current_indent.as_str(), &mut res);
                }
            },
            NodeKind::Item => {
                ctx.push_raw_indent(s, &mut res);
                if is_last && missing_trailing {
                    res.push(',');
                    res.push('\n');
                }
            },
        }
        proof {
            assert(res@ =~= before + pieces[i as int]);
            lemma_flatten_step(pieces, i as int);
        }
        i += 1;
    }
    proof {
        assert(pieces.take(n as int) =~= pieces);
        law_breaking_holds_line_break(list, frags, indent);
    }
    res
}

} // verus!
