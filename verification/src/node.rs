//! The shape of a list node: the kinds of its children and the construct
//! that encloses them.

use vstd::prelude::*;

verus! {

/// Kind of one child of a list node.
#[derive(Clone, Copy, Debug, PartialEq, Eq, Structural)]
pub enum NodeKind {
    /// The bracket that opens the list.
    OpenBracket,
    /// The bracket that closes the list.
    CloseBracket,
    /// A separator between items (a comma).
    Separator,
    /// Blank space between tokens.
    Whitespace,
    /// A comment that runs to the end of its line.
    LineComment,
    /// A delimited comment.
    BlockComment,
    /// Anything else: an argument, an element, the grouped expression.
    Item,
}

/// The construct that a list belongs to; it governs the trailing separator.
#[derive(Clone, Copy, Debug, PartialEq, Eq, Structural)]
pub enum GroupKind {
    /// A literal sequence. A single element keeps its separator, which tells
    /// the sequence apart from a parenthesized value.
    Array,
    /// A single grouped expression. It never carries a trailing separator.
    Parenthesized,
    /// Any other separator-delimited list, such as call arguments.
    Other,
}

impl NodeKind {
    /// Line comments and block comments.
    pub open spec fn spec_is_comment(self) -> bool {
        self == NodeKind::LineComment || self == NodeKind::BlockComment
    }

    /// Whitespace and comments: what sits between the tokens of a list.
    pub open spec fn spec_is_trivia(self) -> bool {
        self == NodeKind::Whitespace || self.spec_is_comment()
    }

    /// The two brackets.
    pub open spec fn spec_is_bracket(self) -> bool {
        self == NodeKind::OpenBracket || self == NodeKind::CloseBracket
    }

    /// A child that counts as content when the list is measured: anything but
    /// brackets, separators and whitespace. Comments count.
    pub open spec fn spec_is_real(self) -> bool {
        !self.spec_is_bracket() && self != NodeKind::Separator && self != NodeKind::Whitespace
    }

    /// Whether the kind is a line comment or a block comment.
    #[verifier::when_used_as_spec(spec_is_comment)]
    pub fn is_comment(self) -> (b: bool)
        ensures
            b == self.spec_is_comment(),
    {
        self == NodeKind::LineComment || self == NodeKind::BlockComment
    }

    /// Whether the kind is whitespace or a comment.
    #[verifier::when_used_as_spec(spec_is_trivia)]
    pub fn is_trivia(self) -> (b: bool)
        ensures
            b == self.spec_is_trivia(),
    {
        self == NodeKind::Whitespace || self.is_comment()
    }

    /// Whether the kind is one of the two brackets.
    #[verifier::when_used_as_spec(spec_is_bracket)]
    pub fn is_bracket(self) -> (b: bool)
        ensures
            b == self.spec_is_bracket(),
    {
        self == NodeKind::OpenBracket || self == NodeKind::CloseBracket
    }

    /// Whether a child of this kind counts as content when the list is
    /// measured.
    #[verifier::when_used_as_spec(spec_is_real)]
    pub fn is_real(self) -> (b: bool)
        ensures
            b == self.spec_is_real(),
    {
        !self.is_bracket() && self != NodeKind::Separator && self != NodeKind::Whitespace
    }
}

/// Mathematical model of a list node.
pub struct ListModel {
    /// The enclosing construct.
    pub group: GroupKind,
    /// The kinds of the children, in source order.
    pub kinds: Seq<NodeKind>,
}

impl ListModel {
    /// One opening bracket comes first, one closing bracket comes last, and
    /// every other child lies strictly between them and is no bracket.
    pub open spec fn well_formed(self) -> bool {
        &&& self.kinds.len() >= 2
        &&& self.kinds.first() == NodeKind::OpenBracket
        &&& self.kinds.last() == NodeKind::CloseBracket
        &&& forall|i: int| 0 < i < self.kinds.len() - 1 ==> !(#[trigger] self.kinds[i]).is_bracket()
    }
}

/// Index of the last child before `at` that is neither whitespace nor a
/// comment; `-1` where there is none.
pub open spec fn prev_solid(kinds: Seq<NodeKind>, at: int) -> int
    decreases at,
{
    if at <= 0 {
        -1
    } else if !kinds[at - 1].is_trivia() {
        at - 1
    } else {
        prev_solid(kinds, at - 1)
    }
}

/// What `prev_solid` finds: it lies before `at`, every child between is
/// whitespace or a comment, and the child found, if there is one, is neither.
pub proof fn lemma_prev_solid(kinds: Seq<NodeKind>, at: int)
    requires
        0 <= at <= kinds.len(),
    ensures
        -1 <= prev_solid(kinds, at) < at,
        forall|k: int| prev_solid(kinds, at) < k < at ==> (#[trigger] kinds[k]).is_trivia(),
        prev_solid(kinds, at) >= 0 ==> !kinds[prev_solid(kinds, at)].is_trivia(),
    decreases at,
{
    if at > 0 && kinds[at - 1].is_trivia() {
        lemma_prev_solid(kinds, at - 1);
    }
}

/// A list node: the enclosing construct and the kinds of the children. Every
/// value is well formed.
#[derive(Debug)]
pub struct ListNode {
    group: GroupKind,
    kinds: Vec<NodeKind>,
}

impl View for ListNode {
    type V = ListModel;

    closed spec fn view(&self) -> ListModel {
        ListModel { group: self.group, kinds: self.kinds@ }
    }
}

impl ListNode {
    /// What holds of every list node: its children are bounded by one pair of
    /// brackets.
    #[verifier::type_invariant]
    pub open spec fn inv(&self) -> bool {
        self@.well_formed()
    }

    /// Builds a list node from the kinds of its children. Returns `None` when
    /// the children are not bounded by exactly one pair of brackets.
    pub fn new(group: GroupKind, kinds: Vec<NodeKind>) -> (res: Option<ListNode>)
        ensures
            res is Some <==> (ListModel { group, kinds: kinds@ }).well_formed(),
            res matches Some(node) ==> node@ == (ListModel { group, kinds: kinds@ }),
    {
        let n: usize = kinds.len();
        if n < 2 {
            return None;
        }
        if kinds[0] != NodeKind::OpenBracket || kinds[n - 1] != NodeKind::CloseBracket {
            return None;
        }
        let mut i: usize = 1;
        while i < n - 1
            invariant
                n == kinds.len(),
                n >= 2,
                1 <= i <= n - 1,
                forall|j: int| 0 < j < i ==> !(#[trigger] kinds@[j]).is_bracket(),
            decreases n - i,
        {
            if kinds[i].is_bracket() {
                return None;
            }
            i += 1;
        }
        Some(ListNode { group, kinds })
    }

    /// The enclosing construct.
    pub fn group(&self) -> (g: GroupKind)
        ensures
            g == self@.group,
    {
        self.group
    }

    /// The number of children.
    pub fn len(&self) -> (n: usize)
        ensures
            n == self@.kinds.len(),
    {
        self.kinds.len()
    }

    /// The kind of child `i`.
    pub fn kind(&self, i: usize) -> (k: NodeKind)
        requires
            i < self@.kinds.len(),
        ensures
            k == self@.kinds[i as int],
    {
        self.kinds[i]
    }

    /// The last child before `at` that is neither whitespace nor a comment,
    /// if there is one.
    pub fn prev_sibling(&self, at: usize) -> (prev: Option<usize>)
        requires
            at <= self@.kinds.len(),
        ensures
            match prev {
                Some(j) => j == prev_solid(self@.kinds, at as int),
                None => prev_solid(self@.kinds, at as int) == -1,
            },
    {
        let mut j: usize = at;
        while j > 0
            invariant
                j <= at <= self@.kinds.len(),
                prev_solid(self@.kinds, at as int) == prev_solid(self@.kinds, j as int),
            decreases j,
        {
            if !self.kind(j - 1).is_trivia() {
                return Some(j - 1);
            }
            j -= 1;
        }
        None
    }
}

} // verus!
