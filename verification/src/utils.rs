//! Queries on the children of a list node, and the measure of a rendering.

use crate::node::{ListNode, NodeKind};
use crate::text::{last_line_len, lemma_line_len_bound, max_line_len};
use vstd::prelude::*;

verus! {

/// Index of the first child after `at` whose kind is not among `ignoring`;
/// the number of children where there is none.
pub open spec fn next_ignoring(kinds: Seq<NodeKind>, at: int, ignoring: Seq<NodeKind>) -> int
    decreases kinds.len() - at,
{
    if at + 1 >= kinds.len() {
        kinds.len() as int
    } else if ignoring.contains(kinds[at + 1]) {
        next_ignoring(kinds, at + 1, ignoring)
    } else {
        at + 1
    }
}

/// Whether the first child after `at` whose kind is not among `ignoring`
/// exists and has kind `is`.
pub open spec fn next_is(
    kinds: Seq<NodeKind>,
    at: int,
    is: NodeKind,
    ignoring: Seq<NodeKind>,
) -> bool {
    let j = next_ignoring(kinds, at, ignoring);
    j < kinds.len() && kinds[j] == is
}

/// Whether no child after `at` has the given kind.
pub open spec fn none_after(kinds: Seq<NodeKind>, at: int, kind: NodeKind) -> bool {
    forall|j: int| at < j < kinds.len() ==> kinds[j] != kind
}

/// The kinds skipped when only whitespace is ignored.
pub open spec fn blanks() -> Seq<NodeKind> {
    seq![NodeKind::Whitespace]
}

/// The kinds skipped when whitespace and comments are ignored.
pub open spec fn trivia() -> Seq<NodeKind> {
    seq![NodeKind::Whitespace, NodeKind::LineComment, NodeKind::BlockComment]
}

/// Membership in `blanks()` and `trivia()`, kind by kind.
pub proof fn lemma_ignored_kinds(kind: NodeKind)
    ensures
        blanks().contains(kind) <==> kind == NodeKind::Whitespace,
        trivia().contains(kind) <==> kind.is_trivia(),
{
    assert(blanks()[0] == NodeKind::Whitespace);
    assert(trivia()[0] == NodeKind::Whitespace);
    assert(trivia()[1] == NodeKind::LineComment);
    assert(trivia()[2] == NodeKind::BlockComment);
}

/// What `next_ignoring` finds: it lies after `at`, every child between is
/// ignored, and the child found, if there is one, is not.
pub proof fn lemma_next_ignoring(kinds: Seq<NodeKind>, at: int, ignoring: Seq<NodeKind>)
    requires
        -1 <= at < kinds.len(),
    ensures
        at < next_ignoring(kinds, at, ignoring) <= kinds.len(),
        forall|k: int|
            at < k < next_ignoring(kinds, at, ignoring) ==> ignoring.contains(#[trigger] kinds[k]),
        next_ignoring(kinds, at, ignoring) < kinds.len() ==> !ignoring.contains(
            kinds[next_ignoring(kinds, at, ignoring)],
        ),
    decreases kinds.len() - at,
{
    if at + 1 < kinds.len() && ignoring.contains(kinds[at + 1]) {
        lemma_next_ignoring(kinds, at + 1, ignoring);
    }
}

/// `next_ignoring` finds `j` where every child between `at` and `j` is
/// ignored and child `j`, if there is one, is not.
pub proof fn lemma_next_ignoring_is(
    kinds: Seq<NodeKind>,
    at: int,
    ignoring: Seq<NodeKind>,
    j: int,
)
    requires
        -1 <= at < j <= kinds.len(),
        forall|k: int| at < k < j ==> ignoring.contains(#[trigger] kinds[k]),
        j < kinds.len() ==> !ignoring.contains(kinds[j]),
    ensures
        next_ignoring(kinds, at, ignoring) == j,
    decreases j - at,
{
    if at + 1 < j {
        assert(ignoring.contains(kinds[at + 1]));
        lemma_next_ignoring_is(kinds, at + 1, ignoring, j);
    }
}

/// Whether `kind` is one of `among`.
pub fn kind_among(kind: NodeKind, among: &[NodeKind]) -> (b: bool)
    ensures
        b == among@.contains(kind),
{
    let mut i: usize = 0;
    while i < among.len()
        invariant
            i <= among@.len(),
            forall|j: int| 0 <= j < i ==> among@[j] != kind,
        decreases among@.len() - i,
    {
        if among[i] == kind {
            return true;
        }
        i += 1;
    }
    false
}

/// The first child after `at` whose kind is not among `ignoring`, if there is
/// one.
pub fn get_next_ignoring(node: &ListNode, at: usize, ignoring: &[NodeKind]) -> (next: Option<usize>)
    ensures
        match next {
            Some(j) => j == next_ignoring(node@.kinds, at as int, ignoring@) && j < node@.kinds.len(),
            None => next_ignoring(node@.kinds, at as int, ignoring@) == node@.kinds.len(),
        },
{
    let n: usize = node.len();
    if at >= n {
        return None;
    }
    let mut j: usize = at + 1;
    while j < n
        invariant
            n == node@.kinds.len(),
            at < j <= n,
            next_ignoring(node@.kinds, at as int, ignoring@) == next_ignoring(
                node@.kinds,
                j - 1,
                ignoring@,
            ),
        decreases n - j,
    {
        if !kind_among(node.kind(j), ignoring) {
            return Some(j);
        }
        j += 1;
    }
    None
}

/// Whether the first child after `at` whose kind is not among `ignoring`
/// exists and has kind `is`.
pub fn next_is_ignoring(node: &ListNode, at: usize, is: NodeKind, ignoring: &[NodeKind]) -> (b: bool)
    ensures
        b == next_is(node@.kinds, at as int, is, ignoring@),
{
    match get_next_ignoring(node, at, ignoring) {
        Some(j) => node.kind(j) == is,
        None => false,
    }
}

/// The first child after `at` whose kind the test accepts, if there is one.
pub fn find_next<F: Fn(NodeKind) -> bool>(node: &ListNode, at: usize, f: &F) -> (found: Option<
    usize,
>)
    requires
        forall|kind: NodeKind| f.requires((kind,)),
    ensures
        match found {
            Some(j) => {
                &&& at < j < node@.kinds.len()
                &&& f.ensures((node@.kinds[j as int],), true)
                &&& forall|k: int| at < k < j ==> f.ensures((#[trigger] node@.kinds[k],), false)
            },
            None => forall|k: int|
                at < k < node@.kinds.len() ==> f.ensures((#[trigger] node@.kinds[k],), false),
        },
{
    let n: usize = node.len();
    if at >= n {
        return None;
    }
    let mut j: usize = at + 1;
    while j < n
        invariant
            n == node@.kinds.len(),
            at < j <= n,
            forall|kind: NodeKind| f.requires((kind,)),
            forall|k: int| at < k < j ==> f.ensures((#[trigger] node@.kinds[k],), false),
        decreases n - j,
    {
        if f(node.kind(j)) {
            return Some(j);
        }
        j += 1;
    }
    None
}

/// Length, in characters, of the longest line of the text.
pub fn max_line_length(s: &str) -> (n: usize)
    ensures
        n == max_line_len(s@),
{
    // No line is longer than the text, so the counts below stay in range.
    let total: usize = s.unicode_len();
    let mut best: usize = 0;
    let mut current: usize = 0;
    for c in it: s.chars()
        invariant
            it.seq() == s@,
            total == s@.len(),
            current == last_line_len(s@.take(it.index() as int)),
            best == max_line_len(s@.take(it.index() as int)),
    {
        proof {
            let i = it.index() as int;
            assert(c == s@[i]);
            assert(s@.take(i + 1).drop_last() =~= s@.take(i));
            assert(s@.take(i + 1).last() == c);
            lemma_line_len_bound(s@.take(i));
        }
        if c == '\n' {
            current = 0;
        } else {
            current = current + 1;
        }
        if current > best {
            best = current;
        }
    }
    proof {
        assert(s@.take(s@.len() as int) =~= s@);
    }
    best
}

} // verus!
