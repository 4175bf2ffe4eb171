//! Text as sequences of characters: line breaks, line lengths and
//! re-indentation.

use vstd::prelude::*;

verus! {

/// Appending one character to a `String` (`String::push`): the text grows by
/// exactly that character at its end.
pub assume_specification[ String::push ](s: &mut String, ch: char)
    ensures
        final(s)@ == old(s)@.push(ch),
;

/// Whether the text holds a line break.
pub open spec fn has_break(s: Seq<char>) -> bool {
    s.contains('\n')
}

/// A concatenation holds a line break exactly when one of its parts does.
pub proof fn lemma_has_break_concat(a: Seq<char>, b: Seq<char>)
    ensures
        has_break(a + b) <==> has_break(a) || has_break(b),
{
    let ab = a + b;
    if has_break(a) {
        let j = choose|j: int| 0 <= j < a.len() && a[j] == '\n';
        assert(ab[j] == '\n');
    }
    if has_break(b) {
        let j = choose|j: int| 0 <= j < b.len() && b[j] == '\n';
        assert(ab[a.len() + j] == '\n');
    }
    if has_break(ab) {
        let j = choose|j: int| 0 <= j < ab.len() && ab[j] == '\n';
        if j < a.len() {
            assert(a[j] == '\n');
        } else {
            assert(b[j - a.len()] == '\n');
        }
    }
}

/// What one character of a fragment becomes when the fragment is
/// re-indented: a line break is followed by the indent, any other character
/// stays as it is.
pub open spec fn reindented_char(c: char, indent: Seq<char>) -> Seq<char> {
    if c == '\n' {
        seq!['\n'] + indent
    } else {
        seq![c]
    }
}

/// The text with the indent inserted after each of its line breaks, so that
/// every continuation line starts at the indent.
pub open spec fn reindent(s: Seq<char>, indent: Seq<char>) -> Seq<char> {
    s.map_values(|c: char| reindented_char(c, indent)).flatten()
}

/// Length of the line that the end of the text lies on: the number of
/// characters after the last line break.
pub open spec fn last_line_len(s: Seq<char>) -> nat
    decreases s.len(),
{
    if s.len() == 0 || s.last() == '\n' {
        0
    } else {
        1 + last_line_len(s.drop_last())
    }
}

/// Length of the longest line of the text, line breaks not counted.
pub open spec fn max_line_len(s: Seq<char>) -> nat
    decreases s.len(),
{
    if s.len() == 0 {
        0
    } else {
        let before = max_line_len(s.drop_last());
        let here = last_line_len(s);
        if here > before {
            here
        } else {
            before
        }
    }
}

/// Re-indenting a prefix that grows by one character appends what that
/// character becomes.
pub proof fn lemma_reindent_push(s: Seq<char>, c: char, indent: Seq<char>)
    ensures
        reindent(s.push(c), indent) == reindent(s, indent) + reindented_char(c, indent),
{
    let f = |c: char| reindented_char(c, indent);
    assert(s.push(c).map_values(f) =~= s.map_values(f).push(f(c)));
    s.map_values(f).lemma_flatten_push(f(c));
}

/// Where a text has no line break, its only line is the whole text.
pub proof fn lemma_unbroken_line_len(s: Seq<char>)
    requires
        !has_break(s),
    ensures
        last_line_len(s) == s.len(),
        max_line_len(s) == s.len(),
    decreases s.len(),
{
    if s.len() > 0 {
        let head = s.drop_last();
        assert(!has_break(head)) by {
            if has_break(head) {
                let j = choose|j: int| 0 <= j < head.len() && head[j] == '\n';
                assert(s[j] == '\n');
            }
        }
        assert(s.last() != '\n') by {
            assert(s[s.len() - 1] == s.last());
        }
        lemma_unbroken_line_len(head);
    }
}

/// No line is longer than the text.
pub proof fn lemma_line_len_bound(s: Seq<char>)
    ensures
        last_line_len(s) <= s.len(),
        max_line_len(s) <= s.len(),
    decreases s.len(),
{
    if s.len() > 0 {
        lemma_line_len_bound(s.drop_last());
    }
}

/// Whether the text holds a line break.
pub fn contains_line_break(s: &str) -> (b: bool)
    ensures
        b == has_break(s@),
{
    let mut found: bool = false;
    for c in it: s.chars()
        invariant
            it.seq() == s@,
            found == has_break(s@.take(it.index() as int)),
    {
        proof {
            let i = it.index() as int;
            let before = s@.take(i);
            let now = s@.take(i + 1);
            assert(c == s@[i]);
            assert(now =~= before.push(c));
            if has_break(before) {
                let j = choose|j: int| 0 <= j < before.len() && before[j] == '\n';
                assert(now[j] == '\n');
            }
            if c == '\n' {
                assert(now[i] == '\n');
            }
        }
        if c == '\n' {
            found = true;
        }
    }
    proof {
        assert(s@.take(s@.len() as int) =~= s@);
    }
    found
}

} // verus!
