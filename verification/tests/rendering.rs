use list_layout::args::{format_args, format_args_breaking, format_args_tight};
use list_layout::context::Ctx;
use list_layout::node::{GroupKind, ListNode, NodeKind};

use NodeKind::{
    BlockComment, CloseBracket, Item, LineComment, OpenBracket, Separator, Whitespace,
};

fn list(group: GroupKind, kinds: &[NodeKind]) -> ListNode {
    ListNode::new(group, kinds.to_vec()).expect("the list is bounded by its brackets")
}

fn frags(texts: &[&str]) -> Vec<String> {
    texts.iter().map(|t| t.to_string()).collect()
}

fn ctx(max_line_length: usize) -> Ctx {
    Ctx::new("    ".to_string(), max_line_length)
}

#[test]
fn tight_keeps_the_separator_of_a_one_element_array() {
    let node = list(GroupKind::Array, &[OpenBracket, Item, Separator, CloseBracket]);
    let children = frags(&["(", "a", ",", ")"]);
    assert_eq!(format_args_tight(&node, &children, &ctx(80)), "(a,)");
    assert_eq!(format_args(&node, &children, &ctx(80)), "(a,)");
}

#[test]
fn tight_drops_the_trailing_separator_of_other_lists() {
    let node = list(GroupKind::Other, &[OpenBracket, Item, Separator, CloseBracket]);
    let children = frags(&["(", "a", ",", ")"]);
    assert_eq!(format_args_tight(&node, &children, &ctx(80)), "(a)");
    assert_eq!(format_args(&node, &children, &ctx(80)), "(a)");
}

#[test]
fn tight_drops_the_trailing_separator_of_a_parenthesized_group() {
    let node = list(GroupKind::Parenthesized, &[OpenBracket, Item, Separator, CloseBracket]);
    let children = frags(&["(", "a", ",", ")"]);
    assert_eq!(format_args_tight(&node, &children, &ctx(80)), "(a)");
}

#[test]
fn tight_sees_a_trailing_separator_through_whitespace() {
    let kinds = [OpenBracket, Item, Separator, Whitespace, Whitespace, CloseBracket];
    let children = frags(&["[", "a", ",", " ", " ", "]"]);
    assert_eq!(format_args_tight(&list(GroupKind::Array, &kinds), &children, &ctx(80)), "[a,]");
    assert_eq!(format_args_tight(&list(GroupKind::Other, &kinds), &children, &ctx(80)), "[a]");
}

#[test]
fn tight_puts_one_space_after_an_inner_separator() {
    let node = list(
        GroupKind::Other,
        &[OpenBracket, Item, Separator, Whitespace, Whitespace, Item, CloseBracket],
    );
    let children = frags(&["(", "a", ",", " ", "  ", "b", ")"]);
    assert_eq!(format_args_tight(&node, &children, &ctx(80)), "(a, b)");
}

#[test]
fn tight_keeps_a_separator_that_a_comment_follows() {
    // The comment stands between the separator and the bracket, so the
    // separator is not the last thing before the bracket.
    let node = list(
        GroupKind::Other,
        &[OpenBracket, Item, Separator, Whitespace, BlockComment, CloseBracket],
    );
    let children = frags(&["(", "a", ",", " ", "/* c */", ")"]);
    assert_eq!(format_args_tight(&node, &children, &ctx(80)), "(a, /* c */)");
}

#[test]
fn tight_renders_comments_and_brackets_as_they_are() {
    let node = list(
        GroupKind::Other,
        &[OpenBracket, BlockComment, Item, Separator, Item, LineComment, CloseBracket],
    );
    let children = frags(&["(", "/*x*/", "a", ";", "b", "//y", ")"]);
    assert_eq!(format_args_tight(&node, &children, &ctx(80)), "(/*x*/a; b//y)");
}

#[test]
fn tight_renders_an_empty_list() {
    let node = list(GroupKind::Other, &[OpenBracket, CloseBracket]);
    let children = frags(&["(", ")"]);
    assert_eq!(format_args_tight(&node, &children, &ctx(80)), "()");
    assert_eq!(format_args(&node, &children, &ctx(1)), "()");
}

#[test]
fn breaking_makes_up_the_trailing_separator() {
    let node = list(
        GroupKind::Other,
        &[OpenBracket, Item, Separator, Whitespace, Item, CloseBracket],
    );
    let children = frags(&["(", "a", ",", " ", "b", ")"]);
    assert_eq!(format_args_breaking(&node, &children, &ctx(80)), "(\n    a,\n    b,\n)");
}

#[test]
fn breaking_makes_up_the_trailing_separator_in_an_array() {
    let node = list(
        GroupKind::Array,
        &[OpenBracket, Item, Separator, Whitespace, Item, CloseBracket],
    );
    let children = frags(&["(", "a", ",", " ", "b", ")"]);
    assert_eq!(format_args_breaking(&node, &children, &ctx(80)), "(\n    a,\n    b,\n)");
}

#[test]
fn breaking_a_parenthesized_group_adds_no_separator() {
    let node = list(GroupKind::Parenthesized, &[OpenBracket, Item, CloseBracket]);
    let children = frags(&["(", "x", ")"]);
    assert_eq!(format_args_breaking(&node, &children, &ctx(80)), "(\n    x\n)");
}

#[test]
fn breaking_keeps_a_trailing_separator_of_the_source() {
    let node = list(
        GroupKind::Other,
        &[OpenBracket, Item, Separator, Whitespace, Item, Separator, CloseBracket],
    );
    let children = frags(&["(", "a", ",", " ", "b", ",", ")"]);
    assert_eq!(format_args_breaking(&node, &children, &ctx(80)), "(\n    a,\n    b,\n)");
}

#[test]
fn breaking_a_single_item_without_separator() {
    let node = list(GroupKind::Other, &[OpenBracket, Item, CloseBracket]);
    let children = frags(&["(", "a", ")"]);
    assert_eq!(format_args_breaking(&node, &children, &ctx(80)), "(\n    a,\n)");
}

#[test]
fn breaking_an_empty_list() {
    let node = list(GroupKind::Other, &[OpenBracket, CloseBracket]);
    let children = frags(&["(", ")"]);
    assert_eq!(format_args_breaking(&node, &children, &ctx(80)), "(\n    )");
    let group = list(GroupKind::Parenthesized, &[OpenBracket, CloseBracket]);
    assert_eq!(format_args_breaking(&group, &children, &ctx(80)), "(\n    \n)");
}

#[test]
fn breaking_pins_a_comment_that_follows_the_opening_bracket() {
    let node = list(
        GroupKind::Other,
        &[OpenBracket, Whitespace, LineComment, Whitespace, Item, Separator, CloseBracket],
    );
    let children = frags(&["(", " ", "// note", "\n", "a", ",", ")"]);
    assert_eq!(
        format_args_breaking(&node, &children, &ctx(80)),
        "(\n     // note\n    a,\n)"
    );
    // The line break in the whitespace after the comment forces this
    // rendering.
    assert_eq!(format_args(&node, &children, &ctx(80)), "(\n     // note\n    a,\n)");
}

#[test]
fn breaking_pins_a_block_comment_as_given() {
    // The comment pinned to the bracket is not re-indented.
    let node = list(GroupKind::Other, &[OpenBracket, BlockComment, Item, CloseBracket]);
    let children = frags(&["(", "/* a\nb */", "x", ")"]);
    assert_eq!(
        format_args_breaking(&node, &children, &ctx(80)),
        "(\n     /* a\nb */\n    x,\n)"
    );
}

#[test]
fn breaking_makes_up_a_separator_before_a_trailing_comment() {
    let node = list(
        GroupKind::Other,
        &[OpenBracket, Item, Separator, Whitespace, Item, Whitespace, BlockComment, CloseBracket],
    );
    let children = frags(&["(", "a", ",", " ", "b", " ", "/* c */", ")"]);
    assert_eq!(
        format_args_breaking(&node, &children, &ctx(80)),
        "(\n    a,\n    b, /* c */\n)"
    );
}

#[test]
fn breaking_makes_up_a_separator_before_the_comment_of_a_single_item() {
    let node = list(GroupKind::Array, &[OpenBracket, Item, Whitespace, LineComment, Whitespace, CloseBracket]);
    let children = frags(&["(", "a", " ", "// c", "\n", ")"]);
    assert_eq!(format_args_breaking(&node, &children, &ctx(80)), "(\n    a, // c\n)");
}

#[test]
fn breaking_keeps_a_comment_on_the_line_of_its_separator() {
    let node = list(
        GroupKind::Other,
        &[
            OpenBracket, Item, Separator, Whitespace, LineComment, Whitespace, Item, Separator,
            CloseBracket,
        ],
    );
    let children = frags(&["(", "a", ",", " ", "// first", "\n", "b", ",", ")"]);
    assert_eq!(
        format_args_breaking(&node, &children, &ctx(80)),
        "(\n    a, // first\n    b,\n)"
    );
}

#[test]
fn breaking_keeps_a_comment_on_the_line_of_the_trailing_separator() {
    let node = list(
        GroupKind::Other,
        &[OpenBracket, Item, Separator, Whitespace, BlockComment, CloseBracket],
    );
    let children = frags(&["(", "a", ",", " ", "/* c */", ")"]);
    assert_eq!(format_args_breaking(&node, &children, &ctx(80)), "(\n    a, /* c */\n)");
}

#[test]
fn breaking_puts_the_comment_of_a_grouped_expression_before_the_bracket() {
    let node = list(
        GroupKind::Parenthesized,
        &[OpenBracket, Item, Whitespace, BlockComment, CloseBracket],
    );
    let children = frags(&["(", "x", " ", "/* c */", ")"]);
    assert_eq!(format_args_breaking(&node, &children, &ctx(80)), "(\n    x /* c */\n)");
}

#[test]
fn breaking_reindents_an_item_that_spans_lines() {
    let node = list(
        GroupKind::Other,
        &[OpenBracket, Item, Separator, Whitespace, Item, CloseBracket],
    );
    let children = frags(&["(", "f(\n    x,\n)", ",", " ", "b", ")"]);
    assert_eq!(
        format_args_breaking(&node, &children, &ctx(80)),
        "(\n    f(\n        x,\n    ),\n    b,\n)"
    );
}

#[test]
fn breaking_reindents_the_comment_after_a_separator() {
    let node = list(
        GroupKind::Other,
        &[OpenBracket, Item, Separator, BlockComment, Item, CloseBracket],
    );
    let children = frags(&["(", "a", ",", "/* 1\n2 */", "b", ")"]);
    assert_eq!(
        format_args_breaking(&node, &children, &ctx(80)),
        "(\n    a, /* 1\n    2 */\n    b,\n)"
    );
}

#[test]
fn breaking_uses_the_indent_of_the_context() {
    let node = list(GroupKind::Other, &[OpenBracket, Item, Separator, Item, CloseBracket]);
    let children = frags(&["[", "a", ",", "b", "]"]);
    let two = Ctx::new("  ".to_string(), 80);
    assert_eq!(format_args_breaking(&node, &children, &two), "[\n  a,\n  b,\n]");
    let tab = Ctx::new("\t".to_string(), 80);
    assert_eq!(format_args_breaking(&node, &children, &tab), "[\n\ta,\n\tb,\n]");
    let none = Ctx::new(String::new(), 80);
    assert_eq!(format_args_breaking(&node, &children, &none), "[\na,\nb,\n]");
}

#[test]
fn breaking_drops_a_comment_between_an_item_and_its_separator() {
    // A comment is rendered only with the bracket or separator it follows, or
    // as the last thing before the closing bracket.
    let node = list(
        GroupKind::Other,
        &[OpenBracket, Item, BlockComment, Separator, Item, CloseBracket],
    );
    let children = frags(&["(", "a", "/* c */", ",", "b", ")"]);
    assert_eq!(format_args_breaking(&node, &children, &ctx(80)), "(\n    a,\n    b,\n)");
}

#[test]
fn format_breaks_at_the_width_limit() {
    let node = list(
        GroupKind::Other,
        &[OpenBracket, Item, Separator, Whitespace, Item, CloseBracket],
    );
    // "(" + 18 + ", " + 18 + ")" is 40 characters.
    let first = "a".repeat(18);
    let second = "b".repeat(18);
    let children = frags(&["(", &first, ",", " ", &second, ")"]);
    let tight = format!("({}, {})", first, second);
    assert_eq!(tight.chars().count(), 40);
    let broken = format!("(\n    {},\n    {},\n)", first, second);
    assert_eq!(format_args(&node, &children, &ctx(40)), broken);
    assert_eq!(format_args(&node, &children, &ctx(41)), tight);
}

#[test]
fn format_stays_tight_below_the_width_limit() {
    let node = list(
        GroupKind::Other,
        &[OpenBracket, Item, Separator, Whitespace, Item, CloseBracket],
    );
    // One character less: 39.
    let first = "a".repeat(18);
    let second = "b".repeat(17);
    let children = frags(&["(", &first, ",", " ", &second, ")"]);
    let tight = format!("({}, {})", first, second);
    assert_eq!(tight.chars().count(), 39);
    assert_eq!(format_args(&node, &children, &ctx(40)), tight);
    let broken = format!("(\n    {},\n    {},\n)", first, second);
    assert_eq!(format_args(&node, &children, &ctx(39)), broken);
}

#[test]
fn format_measures_characters_not_bytes() {
    let node = list(GroupKind::Other, &[OpenBracket, Item, Separator, Item, CloseBracket]);
    // Six characters, ten bytes.
    let children = frags(&["(", "é", ",", "ü", ")"]);
    assert_eq!(format_args(&node, &children, &ctx(7)), "(é, ü)");
    assert_eq!(format_args(&node, &children, &ctx(6)), "(\n    é,\n    ü,\n)");
}

#[test]
fn format_never_breaks_a_single_item() {
    let node = list(GroupKind::Other, &[OpenBracket, Item, CloseBracket]);
    let long = "x".repeat(200);
    let children = frags(&["(", &long, ")"]);
    assert_eq!(format_args(&node, &children, &ctx(40)), format!("({})", long));
    assert_eq!(format_args(&node, &children, &ctx(1)), format!("({})", long));
}

#[test]
fn format_never_breaks_a_single_item_with_its_separator() {
    let node = list(GroupKind::Array, &[OpenBracket, Item, Separator, CloseBracket]);
    let long = "x".repeat(100);
    let children = frags(&["(", &long, ",", ")"]);
    assert_eq!(format_args(&node, &children, &ctx(10)), format!("({},)", long));
}

#[test]
fn format_counts_a_comment_as_a_real_item() {
    // An item and a comment make two, so the width decides.
    let node = list(GroupKind::Other, &[OpenBracket, Item, Whitespace, BlockComment, CloseBracket]);
    let children = frags(&["(", "a", " ", "/* note */", ")"]);
    assert_eq!(format_args(&node, &children, &ctx(80)), "(a/* note */)");
    assert_eq!(format_args(&node, &children, &ctx(5)), "(\n    a, /* note */\n)");
}

#[test]
fn format_breaks_when_a_fragment_holds_a_line_break() {
    let node = list(GroupKind::Other, &[OpenBracket, Item, CloseBracket]);
    let children = frags(&["(", "f(\n    x,\n)", ")"]);
    // One item, far below the limit: the line break alone decides.
    assert_eq!(
        format_args(&node, &children, &ctx(1000)),
        "(\n    f(\n        x,\n    ),\n)"
    );
    assert_eq!(
        format_args(&node, &children, &ctx(1000)),
        format_args_breaking(&node, &children, &ctx(1000))
    );
}

#[test]
fn format_breaks_on_a_line_break_in_whitespace() {
    let node = list(
        GroupKind::Other,
        &[OpenBracket, Item, Separator, Whitespace, Item, CloseBracket],
    );
    let children = frags(&["(", "a", ",", "\n", "b", ")"]);
    assert_eq!(format_args(&node, &children, &ctx(1000)), "(\n    a,\n    b,\n)");
}

#[test]
fn format_gives_the_same_text_for_the_same_input() {
    let kinds = [OpenBracket, Item, Separator, Whitespace, Item, Whitespace, LineComment, CloseBracket];
    let texts = ["(", "alpha", ",", " ", "beta", " ", "// tail", ")"];
    let first = format_args(&list(GroupKind::Other, &kinds), &frags(&texts), &ctx(12));
    let second = format_args(&list(GroupKind::Other, &kinds), &frags(&texts), &ctx(12));
    assert_eq!(first, second);
    assert_eq!(first, "(\n    alpha,\n    beta, // tail\n)");
}

#[test]
fn breaking_leaves_the_comment_of_a_grouped_expression_as_given() {
    // The comment before the closing bracket of a group is not re-indented.
    let node = list(
        GroupKind::Parenthesized,
        &[OpenBracket, Item, Whitespace, BlockComment, Whitespace, CloseBracket],
    );
    let children = frags(&["(", "x", " ", "/* a\nb */", " ", ")"]);
    assert_eq!(format_args_breaking(&node, &children, &ctx(80)), "(\n    x /* a\nb */\n)");
}

#[test]
fn breaking_a_group_pins_the_comment_after_the_bracket() {
    let node = list(
        GroupKind::Parenthesized,
        &[OpenBracket, Whitespace, BlockComment, Whitespace, Item, CloseBracket],
    );
    let children = frags(&["(", " ", "/* c */", " ", "x", ")"]);
    assert_eq!(format_args_breaking(&node, &children, &ctx(80)), "(\n     /* c */\n    x\n)");
}

#[test]
fn breaking_makes_up_one_separator_only() {
    // Two comments trail the item: the separator goes before the last one,
    // and the first one is not rendered.
    let node = list(
        GroupKind::Other,
        &[OpenBracket, Item, Whitespace, BlockComment, Whitespace, BlockComment, CloseBracket],
    );
    let children = frags(&["(", "a", " ", "/* 1 */", " ", "/* 2 */", ")"]);
    let text = format_args_breaking(&node, &children, &ctx(80));
    assert_eq!(text, "(\n    a, /* 2 */\n)");
    assert_eq!(text.matches(',').count(), 1);
}

#[test]
fn breaking_a_group_that_holds_separators_owes_one_after_the_last() {
    // No parse gives such a group. Its last separator is not in trailing
    // position, so a separator is owed as in any other list.
    let node = list(
        GroupKind::Parenthesized,
        &[OpenBracket, Item, Separator, Whitespace, Item, CloseBracket],
    );
    let children = frags(&["(", "a", ",", " ", "b", ")"]);
    assert_eq!(format_args_breaking(&node, &children, &ctx(80)), "(\n    a,\n    b,\n\n)");
}

#[test]
fn breaking_rereads_a_comment_that_is_pinned_and_last() {
    // The only child of the list is a comment: it is pinned to the bracket,
    // and it is also the last thing before the closing bracket.
    let node = list(GroupKind::Other, &[OpenBracket, BlockComment, CloseBracket]);
    let children = frags(&["(", "/* c */", ")"]);
    assert_eq!(
        format_args_breaking(&node, &children, &ctx(80)),
        "(\n     /* c */\n    , /* c */\n)"
    );
}

#[test]
fn breaking_always_holds_a_line_break() {
    let node = list(GroupKind::Array, &[OpenBracket, CloseBracket]);
    let children = frags(&["", ""]);
    let text = format_args_breaking(&node, &children, &Ctx::new(String::new(), 80));
    assert_eq!(text, "\n");
}

#[test]
fn tight_adds_no_line_break() {
    let node = list(
        GroupKind::Other,
        &[OpenBracket, Item, Separator, Whitespace, Item, Separator, Whitespace, CloseBracket],
    );
    let children = frags(&["(", "a", ",", " ", "b", ",", " ", ")"]);
    let text = format_args_tight(&node, &children, &ctx(80));
    assert_eq!(text, "(a, b)");
    assert!(!text.contains('\n'));
}

#[test]
fn tight_keeps_the_line_breaks_of_the_fragments() {
    let node = list(GroupKind::Other, &[OpenBracket, Item, Separator, Item, CloseBracket]);
    let children = frags(&["(", "a\nb", ",", "c", ")"]);
    assert_eq!(format_args_tight(&node, &children, &ctx(80)), "(a\nb, c)");
}

#[test]
fn format_does_not_change_with_the_indent_when_tight() {
    let node = list(GroupKind::Other, &[OpenBracket, Item, Separator, Item, CloseBracket]);
    let children = frags(&["(", "a", ",", "b", ")"]);
    let wide = Ctx::new("        ".to_string(), 80);
    assert_eq!(format_args(&node, &children, &wide), "(a, b)");
    assert_eq!(format_args(&node, &children, &ctx(80)), "(a, b)");
}
