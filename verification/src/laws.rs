//! Laws of the renderings: what holds of every list, whatever its fragments.

use crate::context::CtxModel;
use crate::join::{lemma_flatten_split, lemma_flatten_tail, lemma_flatten_unbroken};
use crate::layout::{
    any_break, breaking_before, breaking_pieces, breaking_text, closes_next, comment_after,
    formatted, is_trailing_separator, lemma_pending_unchanged, owes_separator, pending_before,
    reaches_close, real_item_count, tight_before, tight_pieces, tight_text,
};
use crate::node::{lemma_prev_solid, prev_solid, GroupKind, ListModel, NodeKind};
use crate::text::{
    has_break, last_line_len, lemma_has_break_concat, lemma_line_len_bound, lemma_reindent_push,
    max_line_len, reindent, reindented_char,
};
use crate::utils::{
    blanks, lemma_ignored_kinds, lemma_next_ignoring, lemma_next_ignoring_is, next_ignoring,
    none_after, trivia,
};
use vstd::prelude::*;

verus! {

/// Formatting is a function of what the list, the fragments and the context
/// hold: inputs that agree element by element give the same text.
pub proof fn law_same_input_same_text(
    list_a: ListModel,
    frags_a: Seq<Seq<char>>,
    ctx_a: CtxModel,
    list_b: ListModel,
    frags_b: Seq<Seq<char>>,
    ctx_b: CtxModel,
)
    requires
        list_a.group == list_b.group,
        list_a.kinds.len() == list_b.kinds.len(),
        forall|i: int| 0 <= i < list_a.kinds.len() ==> list_a.kinds[i] == list_b.kinds[i],
        frags_a.len() == frags_b.len(),
        forall|i: int|
            0 <= i < frags_a.len() ==> (#[trigger] frags_a[i]).len() == frags_b[i].len(),
        forall|i: int, j: int|
            0 <= i < frags_a.len() && 0 <= j < frags_a[i].len() ==> frags_a[i][j] == frags_b[i][j],
        ctx_a.indent.len() == ctx_b.indent.len(),
        forall|i: int| 0 <= i < ctx_a.indent.len() ==> ctx_a.indent[i] == ctx_b.indent[i],
        ctx_a.max_line_length == ctx_b.max_line_length,
    ensures
        formatted(list_a, frags_a, ctx_a) == formatted(list_b, frags_b, ctx_b),
        tight_text(list_a, frags_a) == tight_text(list_b, frags_b),
        breaking_text(list_a, frags_a, ctx_a.indent) == breaking_text(
            list_b,
            frags_b,
            ctx_b.indent,
        ),
{
    assert(list_a.kinds =~= list_b.kinds);
    assert(list_a == list_b);
    assert forall|i: int| 0 <= i < frags_a.len() implies frags_a[i] == frags_b[i] by {
        assert(frags_a[i] =~= frags_b[i]);
    }
    assert(frags_a =~= frags_b);
    assert(ctx_a.indent =~= ctx_b.indent);
    assert(ctx_a == ctx_b);
}

/// A line break in any fragment forces the multi-line rendering, whatever
/// the length of the list and the number of its items.
pub proof fn law_line_break_forces_breaking(
    list: ListModel,
    frags: Seq<Seq<char>>,
    ctx: CtxModel,
    i: int,
)
    requires
        0 <= i < frags.len(),
        frags[i].contains('\n'),
    ensures
        formatted(list, frags, ctx) == breaking_text(list, frags, ctx.indent),
{
}

/// A list with at most one real item whose fragments hold no line break is
/// rendered on one line, whatever the line-width limit.
pub proof fn law_single_item_never_breaks(list: ListModel, frags: Seq<Seq<char>>, ctx: CtxModel)
    requires
        !any_break(frags),
        real_item_count(list.kinds) <= 1,
    ensures
        formatted(list, frags, ctx) == tight_text(list, frags),
{
}

/// A list with two or more real items whose fragments hold no line break is
/// broken exactly when its single-line rendering is as long as the
/// line-width limit, or longer.
pub proof fn law_width_threshold(list: ListModel, frags: Seq<Seq<char>>, ctx: CtxModel)
    requires
        !any_break(frags),
        real_item_count(list.kinds) >= 2,
    ensures
        tight_text(list, frags).len() >= ctx.max_line_length ==> formatted(list, frags, ctx)
            == breaking_text(list, frags, ctx.indent),
        tight_text(list, frags).len() < ctx.max_line_length ==> formatted(list, frags, ctx)
            == tight_text(list, frags),
{
}

/// Where nothing but whitespace lies between child `k` and the closing
/// bracket, the closing bracket is the next child that is not whitespace,
/// and the next that is neither whitespace nor a comment.
proof fn lemma_closes_next(list: ListModel, k: int)
    requires
        list.well_formed(),
        0 <= k < list.kinds.len() - 1,
        forall|j: int| k < j < list.kinds.len() - 1 ==> list.kinds[j] == NodeKind::Whitespace,
    ensures
        next_ignoring(list.kinds, k, blanks()) == list.kinds.len() - 1,
        next_ignoring(list.kinds, k, trivia()) == list.kinds.len() - 1,
        closes_next(list.kinds, k),
        comment_after(list.kinds, k) is None,
{
    let last = list.kinds.len() - 1;
    assert forall|j: int| k < j < last implies blanks().contains(#[trigger] list.kinds[j])
        && trivia().contains(list.kinds[j]) by {
        lemma_ignored_kinds(list.kinds[j]);
    }
    lemma_ignored_kinds(list.kinds[last]);
    lemma_next_ignoring_is(list.kinds, k, blanks(), last);
    lemma_next_ignoring_is(list.kinds, k, trivia(), last);
}

/// The single-line rendering adds no line break: where no fragment holds
/// one, neither does the rendering.
pub proof fn law_tight_adds_no_line_break(list: ListModel, frags: Seq<Seq<char>>)
    requires
        frags.len() == list.kinds.len(),
        !any_break(frags),
    ensures
        !has_break(tight_text(list, frags)),
{
    let pieces = tight_pieces(list, frags);
    assert forall|i: int| 0 <= i < pieces.len() implies !has_break(#[trigger] pieces[i]) by {
        assert(!has_break(frags[i]));
        lemma_has_break_concat(frags[i], seq![' ']);
        assert(!has_break(seq![' '])) by {
            if has_break(seq![' ']) {
                let j = choose|j: int| 0 <= j < seq![' '].len() && seq![' '][j] == '\n';
            }
        }
        assert(!has_break(Seq::<char>::empty()));
    }
    lemma_flatten_unbroken(pieces);
}

/// On one line, a separator directly before the closing bracket is kept in
/// an array and dropped from every other list.
pub proof fn law_tight_trailing_separator(list: ListModel, frags: Seq<Seq<char>>, s: int)
    requires
        list.well_formed(),
        frags.len() == list.kinds.len(),
        0 < s < list.kinds.len() - 1,
        list.kinds[s] == NodeKind::Separator,
        forall|j: int| s < j < list.kinds.len() - 1 ==> list.kinds[j] == NodeKind::Whitespace,
    ensures
        list.group == GroupKind::Array ==> tight_text(list, frags) == tight_before(list, frags, s) + frags[s] + frags.last(),
        list.group != GroupKind::Array ==> tight_text(list, frags) == tight_before(list, frags, s) + frags.last(),
{
    let pieces = tight_pieces(list, frags);
    lemma_closes_next(list, s);
    assert forall|j: int| s < j < pieces.len() - 1 implies (#[trigger] pieces[j]).len() == 0 by {
        assert(list.kinds[j] == NodeKind::Whitespace);
    }
    lemma_flatten_tail(pieces, s);
    assert(pieces.last() == frags.last());
    if list.group != GroupKind::Array {
        assert(pieces.take(s).flatten() + pieces[s] =~= pieces.take(s).flatten());
    }
}

/// The multi-line rendering of a list holds a line break, whatever the
/// fragments hold.
pub proof fn law_breaking_holds_line_break(
    list: ListModel,
    frags: Seq<Seq<char>>,
    indent: Seq<char>,
)
    requires
        list.well_formed(),
        frags.len() == list.kinds.len(),
    ensures
        has_break(breaking_text(list, frags, indent)),
{
    let pieces = breaking_pieces(list, frags, indent);
    lemma_flatten_split(pieces, 0);
    let rest = pieces[0].subrange(frags[0].len() as int + 1, pieces[0].len() as int);
    assert(pieces[0] =~= frags[0] + seq!['\n'] + rest);
    assert(seq!['\n'][0] == '\n');
    lemma_has_break_concat(frags[0], seq!['\n']);
    lemma_has_break_concat(frags[0] + seq!['\n'], rest);
    lemma_has_break_concat(pieces.take(0).flatten(), pieces[0]);
    lemma_has_break_concat(pieces.take(0).flatten() + pieces[0], pieces.skip(1).flatten());
}

/// A comment that follows the opening bracket is pinned to it: the broken
/// list starts with the bracket, a line break and the indent, then one space
/// and the comment, then a line break and the indent again, before anything
/// of the first item.
pub proof fn law_comment_pinned_to_opening_bracket(
    list: ListModel,
    frags: Seq<Seq<char>>,
    indent: Seq<char>,
    c: int,
)
    requires
        list.well_formed(),
        frags.len() == list.kinds.len(),
        comment_after(list.kinds, 0) == Some(c),
    ensures
        (frags[0] + seq!['\n'] + indent + seq![' '] + frags[c] + seq!['\n'] + indent).is_prefix_of(
            breaking_text(list, frags, indent),
        ),
{
    let pieces = breaking_pieces(list, frags, indent);
    lemma_flatten_split(pieces, 0);
    assert(pieces.take(0) =~= Seq::<Seq<char>>::empty());
    let head = frags[0] + seq!['\n'] + indent + seq![' '] + frags[c] + seq!['\n'] + indent;
    assert(pieces[0] =~= head);
    let text = breaking_text(list, frags, indent);
    assert(text =~= head + pieces.skip(1).flatten());
    assert(head =~= text.subrange(0, head.len() as int));
}

/// Up to the first separator a trailing separator is owed in every list but
/// a parenthesized group.
pub proof fn law_pending_until_first_separator(list: ListModel, i: int)
    requires
        0 <= i <= list.kinds.len(),
        forall|j: int| 0 <= j < i ==> list.kinds[j] != NodeKind::Separator,
    ensures
        pending_before(list, i) == (list.group != GroupKind::Parenthesized),
{
    lemma_pending_unchanged(list, 0, i);
}

/// After a separator, and up to the next one, a trailing separator is owed
/// exactly when that separator is the last of the list and something other
/// than whitespace and comments lies between it and the closing bracket.
pub proof fn law_pending_after_separator(list: ListModel, s: int, i: int)
    requires
        0 <= s < i <= list.kinds.len(),
        list.kinds[s] == NodeKind::Separator,
        forall|j: int| s < j < i ==> list.kinds[j] != NodeKind::Separator,
    ensures
        pending_before(list, i) == (none_after(list.kinds, s, NodeKind::Separator)
            && !reaches_close(list.kinds, s)),
{
    lemma_pending_unchanged(list, s + 1, i);
}

/// Before the last item of a list that has no separator after it, a trailing
/// separator is owed, unless the list is a parenthesized group without any
/// separator.
proof fn lemma_pending_before_last_item(list: ListModel, t: int, j: int)
    requires
        list.well_formed(),
        0 <= j <= t < list.kinds.len() - 1,
        !list.kinds[t].is_trivia(),
        forall|k: int| j <= k < list.kinds.len() ==> list.kinds[k] != NodeKind::Separator,
    ensures
        pending_before(list, j) == (list.group != GroupKind::Parenthesized || exists|s: int|
            0 <= s < j && list.kinds[s] == NodeKind::Separator),
    decreases j,
{
    if j > 0 {
        if list.kinds[j - 1] == NodeKind::Separator {
            let m = next_ignoring(list.kinds, j - 1, trivia());
            lemma_next_ignoring(list.kinds, j - 1, trivia());
            if m > t {
                assert(trivia().contains(list.kinds[t]));
                lemma_ignored_kinds(list.kinds[t]);
            }
            assert(!list.kinds[m].is_bracket());
            assert(none_after(list.kinds, j - 1, NodeKind::Separator));
            assert(!is_trailing_separator(list.kinds, j - 1));
            assert(list.kinds[j - 1] == NodeKind::Separator);
        } else {
            lemma_pending_before_last_item(list, t, j - 1);
            if exists|s: int| 0 <= s < j && list.kinds[s] == NodeKind::Separator {
                let s = choose|s: int| 0 <= s < j && list.kinds[s] == NodeKind::Separator;
                assert(0 <= s < j - 1);
            }
        }
    }
}

/// Breaking a list makes up at most one separator: at most one child other
/// than whitespace is the last thing before the closing bracket.
pub proof fn law_at_most_one_separator_made_up(list: ListModel, i: int, j: int)
    requires
        list.well_formed(),
        0 <= i < list.kinds.len(),
        0 <= j < list.kinds.len(),
        list.kinds[i] != NodeKind::Whitespace,
        list.kinds[j] != NodeKind::Whitespace,
        owes_separator(list, i),
        owes_separator(list, j),
    ensures
        i == j,
{
    lemma_next_ignoring(list.kinds, i, blanks());
    lemma_next_ignoring(list.kinds, j, blanks());
    lemma_ignored_kinds(list.kinds[i]);
    lemma_ignored_kinds(list.kinds[j]);
    let last = list.kinds.len() - 1;
    assert(next_ignoring(list.kinds, i, blanks()) == last);
    assert(next_ignoring(list.kinds, j, blanks()) == last);
    if i < j {
        assert(blanks().contains(list.kinds[j]));
    }
    if j < i {
        assert(blanks().contains(list.kinds[i]));
    }
}

/// Where the last item of an array or of another list has nothing but
/// whitespace between it and the closing bracket, breaking the list makes up
/// the trailing separator: the text ends with the item, a separator, a line
/// break and the closing bracket.
pub proof fn law_trailing_separator_made_up(
    list: ListModel,
    frags: Seq<Seq<char>>,
    indent: Seq<char>,
    t: int,
)
    requires
        list.well_formed(),
        frags.len() == list.kinds.len(),
        list.group != GroupKind::Parenthesized,
        0 < t < list.kinds.len() - 1,
        list.kinds[t] == NodeKind::Item,
        forall|j: int| t < j < list.kinds.len() - 1 ==> list.kinds[j] == NodeKind::Whitespace,
    ensures
        breaking_text(list, frags, indent) == breaking_before(list, frags, indent, t) + reindent(frags[t], indent) + seq![',', '\n'] + frags.last(),
{
    let pieces = breaking_pieces(list, frags, indent);
    lemma_closes_next(list, t);
    lemma_pending_before_last_item(list, t, t);
    assert forall|j: int| t < j < pieces.len() - 1 implies (#[trigger] pieces[j]).len() == 0 by {
        assert(list.kinds[j] == NodeKind::Whitespace);
    }
    lemma_flatten_tail(pieces, t);
    assert(pieces.last() == frags.last());
    assert(pieces[t] == reindent(frags[t], indent) + seq![',', '\n']);
}

/// A trailing separator that the source supplies is kept as it is when an
/// array or another list is broken: the text ends with the separator, a line
/// break and the closing bracket, and no separator is made up.
pub proof fn law_source_trailing_separator_kept(
    list: ListModel,
    frags: Seq<Seq<char>>,
    indent: Seq<char>,
    s: int,
)
    requires
        list.well_formed(),
        frags.len() == list.kinds.len(),
        list.group != GroupKind::Parenthesized,
        0 < s < list.kinds.len() - 1,
        list.kinds[s] == NodeKind::Separator,
        forall|j: int| s < j < list.kinds.len() - 1 ==> list.kinds[j] == NodeKind::Whitespace,
    ensures
        breaking_text(list, frags, indent) == breaking_before(list, frags, indent, s) + frags[s] + seq!['\n'] + frags.last(),
{
    let pieces = breaking_pieces(list, frags, indent);
    lemma_closes_next(list, s);
    assert(none_after(list.kinds, s, NodeKind::Separator));
    assert(is_trailing_separator(list.kinds, s));
    assert forall|j: int| s < j < pieces.len() - 1 implies (#[trigger] pieces[j]).len() == 0 by {
        assert(list.kinds[j] == NodeKind::Whitespace);
    }
    lemma_flatten_tail(pieces, s);
    assert(pieces.last() == frags.last());
    assert(pieces[s] =~= frags[s] + seq!['\n']);
}

/// A grouped expression never gains a separator: where a parenthesized group
/// without separators is broken, the text ends with the expression, a line
/// break and the closing bracket.
pub proof fn law_group_gains_no_separator(
    list: ListModel,
    frags: Seq<Seq<char>>,
    indent: Seq<char>,
    t: int,
)
    requires
        list.well_formed(),
        frags.len() == list.kinds.len(),
        list.group == GroupKind::Parenthesized,
        forall|j: int| 0 <= j < list.kinds.len() ==> list.kinds[j] != NodeKind::Separator,
        0 < t < list.kinds.len() - 1,
        list.kinds[t] == NodeKind::Item,
        forall|j: int| t < j < list.kinds.len() - 1 ==> list.kinds[j] == NodeKind::Whitespace,
    ensures
        breaking_text(list, frags, indent) == breaking_before(list, frags, indent, t) + reindent(frags[t], indent) + seq!['\n'] + frags.last(),
{
    let pieces = breaking_pieces(list, frags, indent);
    let last = list.kinds.len() - 1;
    lemma_closes_next(list, t);
    lemma_pending_before_last_item(list, t, t);
    assert(!pending_before(list, t));
    assert forall|j: int| t < j < pieces.len() - 1 implies (#[trigger] pieces[j]).len() == 0 by {
        assert(list.kinds[j] == NodeKind::Whitespace);
    }
    lemma_flatten_tail(pieces, t);
    lemma_prev_solid(list.kinds, last);
    assert(prev_solid(list.kinds, last) == t) by {
        let p = prev_solid(list.kinds, last);
        if p < t {
            assert(list.kinds[t].is_trivia());
        }
        if p > t {
            assert(list.kinds[p] == NodeKind::Whitespace);
        }
    }
    assert(pieces.last() =~= seq!['\n'] + frags.last());
    assert(pieces[t] =~= reindent(frags[t], indent));
}

/// Where a comment trails the last item of an array or of another list and
/// the source has no separator after that item, breaking the list makes up a
/// separator before the comment: the text ends with a separator, one space,
/// the re-indented comment, a line break and the closing bracket.
pub proof fn law_separator_made_up_before_trailing_comment(
    list: ListModel,
    frags: Seq<Seq<char>>,
    indent: Seq<char>,
    t: int,
    c: int,
)
    requires
        list.well_formed(),
        frags.len() == list.kinds.len(),
        list.group != GroupKind::Parenthesized,
        0 < t < c < list.kinds.len() - 1,
        list.kinds[t] == NodeKind::Item,
        forall|j: int| t < j < list.kinds.len() - 1 ==> (#[trigger] list.kinds[j]).is_trivia(),
        list.kinds[c].is_comment(),
        forall|j: int| c < j < list.kinds.len() - 1 ==> list.kinds[j] == NodeKind::Whitespace,
    ensures
        breaking_text(list, frags, indent) == breaking_before(list, frags, indent, c) + seq![',', ' '] + reindent(frags[c], indent) + seq!['\n'] + frags.last(),
{
    let pieces = breaking_pieces(list, frags, indent);
    lemma_closes_next(list, c);
    assert forall|k: int| t <= k < list.kinds.len() implies list.kinds[k]
        != NodeKind::Separator by {
        if t < k < list.kinds.len() - 1 {
            assert(list.kinds[k].is_trivia());
        }
    }
    lemma_pending_before_last_item(list, t, t);
    lemma_pending_unchanged(list, t, c);
    assert(pending_before(list, c));
    assert forall|j: int| c < j < pieces.len() - 1 implies (#[trigger] pieces[j]).len() == 0 by {
        assert(list.kinds[j] == NodeKind::Whitespace);
    }
    lemma_flatten_tail(pieces, c);
    assert(pieces.last() == frags.last());
    assert(pieces[c] == seq![',', ' '] + reindent(frags[c], indent) + seq!['\n']);
}

/// Text without line breaks is left alone by re-indentation.
pub proof fn law_reindent_keeps_single_line_text(s: Seq<char>, indent: Seq<char>)
    requires
        !has_break(s),
    ensures
        reindent(s, indent) == s,
    decreases s.len(),
{
    let f = |c: char| reindented_char(c, indent);
    if s.len() == 0 {
        assert(s.map_values(f) =~= Seq::<Seq<char>>::empty());
        assert(reindent(s, indent) =~= s);
    } else {
        let head = s.drop_last();
        assert(!has_break(head)) by {
            if has_break(head) {
                let j = choose|j: int| 0 <= j < head.len() && head[j] == '\n';
                assert(s[j] == '\n');
            }
        }
        assert(s.last() != '\n') by {
            assert(s[s.len() - 1] == s.last());
        }
        law_reindent_keeps_single_line_text(head, indent);
        assert(s =~= head.push(s.last()));
        lemma_reindent_push(head, s.last(), indent);
        assert(reindent(s, indent) =~= s);
    }
}

/// Whether characters `from..to` of the text are a stretch without a line
/// break.
pub open spec fn unbroken_span(s: Seq<char>, from: int, to: int) -> bool {
    &&& 0 <= from <= to <= s.len()
    &&& forall|k: int| from <= k < to ==> s[k] != '\n'
}

/// The last line of a prefix is at least as long as any stretch without a
/// line break that ends where the prefix ends.
proof fn lemma_last_line_covers_span(s: Seq<char>, from: int, to: int)
    requires
        unbroken_span(s, from, to),
    ensures
        last_line_len(s.take(to)) >= to - from,
    decreases to - from,
{
    if from < to {
        assert(s.take(to).last() == s[to - 1]);
        assert(s.take(to).drop_last() =~= s.take(to - 1));
        lemma_last_line_covers_span(s, from, to - 1);
    }
}

/// The longest line of a prefix is no longer than the longest line of the
/// text.
proof fn lemma_max_line_len_of_prefix(s: Seq<char>, n: int)
    requires
        0 <= n <= s.len(),
    ensures
        max_line_len(s.take(n)) <= max_line_len(s),
    decreases s.len() - n,
{
    if n < s.len() {
        lemma_max_line_len_of_prefix(s, n + 1);
        assert(s.take(n + 1).drop_last() =~= s.take(n));
    } else {
        assert(s.take(n) =~= s);
    }
}

/// The last line of the text is a stretch without a line break.
proof fn lemma_last_line_is_span(s: Seq<char>)
    ensures
        unbroken_span(s, s.len() - last_line_len(s), s.len() as int),
    decreases s.len(),
{
    if s.len() > 0 && s.last() != '\n' {
        let head = s.drop_last();
        lemma_last_line_is_span(head);
        lemma_line_len_bound(head);
        let from = s.len() - last_line_len(s);
        assert forall|k: int| from <= k < s.len() implies s[k] != '\n' by {
            if k < head.len() {
                assert(s[k] == head[k]);
            }
        }
    }
}

/// No stretch of the text without a line break is longer than
/// `max_line_len` says.
pub proof fn law_max_line_len_bounds_every_line(s: Seq<char>, from: int, to: int)
    requires
        unbroken_span(s, from, to),
    ensures
        to - from <= max_line_len(s),
{
    lemma_last_line_covers_span(s, from, to);
    lemma_max_line_len_of_prefix(s, to);
}

/// Some stretch of the text without a line break is as long as
/// `max_line_len` says.
pub proof fn law_max_line_len_is_reached(s: Seq<char>) -> (span: (int, int))
    ensures
        unbroken_span(s, span.0, span.1),
        span.1 - span.0 == max_line_len(s),
    decreases s.len(),
{
    if s.len() == 0 {
        (0, 0)
    } else if last_line_len(s) > max_line_len(s.drop_last()) {
        lemma_last_line_is_span(s);
        (s.len() - last_line_len(s), s.len() as int)
    } else {
        let head = s.drop_last();
        let span = law_max_line_len_is_reached(head);
        assert forall|k: int| span.0 <= k < span.1 implies s[k] != '\n' by {
            assert(s[k] == head[k]);
        }
        span
    }
}

} // verus!
