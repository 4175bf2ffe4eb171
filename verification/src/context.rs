//! The formatting context: the indent of the scope being rendered, the
//! line-width limit, and the primitives that append text to a buffer.

use crate::text::{has_break, lemma_has_break_concat, lemma_reindent_push, reindent};
use vstd::prelude::*;

verus! {

/// Mathematical model of a formatting context.
pub struct CtxModel {
    /// The whitespace that starts each line of the scope being rendered.
    pub indent: Seq<char>,
    /// The line length from which a list is broken.
    pub max_line_length: nat,
}

/// A formatting context. The surrounding formatter sets the indent for the
/// scope it is in; rendering a list only reads it.
#[derive(Debug)]
pub struct Ctx {
    /// The whitespace that starts each line of the scope being rendered.
    pub indent: String,
    /// The line length from which a list is broken.
    pub max_line_length: usize,
}

impl View for Ctx {
    type V = CtxModel;

    open spec fn view(&self) -> CtxModel {
        CtxModel { indent: self.indent@, max_line_length: self.max_line_length as nat }
    }
}

impl Ctx {
    /// A context with the given indent and line-width limit.
    pub fn new(indent: String, max_line_length: usize) -> (ctx: Ctx)
        ensures
            ctx@.indent == indent@,
            ctx@.max_line_length == max_line_length,
    {
        Ctx { indent, max_line_length }
    }

    /// The whitespace for the active nesting level.
    pub fn get_indent(&self) -> (indent: String)
        ensures
            indent@ == self@.indent,
    {
        self.indent.clone()
    }

    /// Appends the text as it is.
    pub fn push_raw_in(&self, s: &str, result: &mut String)
        ensures
            final(result)@ == old(result)@ + s@,
    {
        result.append(s);
    }

    /// Appends text that holds no line break, as it is: the buffer gains no
    /// line, so its width can still be measured as that of one line.
    pub fn push_in(&self, s: &str, result: &mut String)
        requires
            !has_break(s@),
        ensures
            final(result)@ == old(result)@ + s@,
            has_break(final(result)@) == has_break(old(result)@),
    {
        proof {
            lemma_has_break_concat(result@, s@);
        }
        result.append(s);
    }

    /// Appends the text with the current indent inserted after each of its
    /// line breaks, so that the continuation lines of a fragment that already
    /// spans several lines align to the current indent.
    pub fn push_raw_indent(&self, s: &str, result: &mut String)
        ensures
            final(result)@ == old(result)@ + reindent(s@, self@.indent),
    {
        proof {
            assert(s@.take(0) =~= Seq::<char>::empty());
            assert(reindent(s@.take(0), self@.indent) =~= Seq::<char>::empty());
            assert(result@ =~= old(result)@ + reindent(s@.take(0), self@.indent));
        }
        for c in it: s.chars()
            invariant
                it.seq() == s@,
                result@ == old(result)@ + reindent(s@.take(it.index() as int), self@.indent),
        {
            proof {
                let i = it.index() as int;
                assert(c == s@[i]);
                assert(s@.take(i + 1) =~= s@.take(i).push(c));
                lemma_reindent_push(s@.take(i), c, self@.indent);
            }
            result.push(c);
            if c == '\n' {
                result.append(self.indent.as_str());
            }
        }
        proof {
            assert(s@.take(s@.len() as int) =~= s@);
        }
    }
}

} // verus!
