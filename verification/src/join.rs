//! Joining pieces of text: facts about the concatenation of a sequence of
//! pieces.

use crate::text::{has_break, lemma_has_break_concat};
use vstd::prelude::*;
use vstd::seq_lib::lemma_flatten_concat;

verus! {

/// Pieces without line breaks join to a text without line breaks.
pub proof fn lemma_flatten_unbroken(pieces: Seq<Seq<char>>)
    requires
        forall|i: int| 0 <= i < pieces.len() ==> !has_break(#[trigger] pieces[i]),
    ensures
        !has_break(pieces.flatten()),
    decreases pieces.len(),
{
    if pieces.len() > 0 {
        let rest = pieces.drop_first();
        assert forall|i: int| 0 <= i < rest.len() implies !has_break(#[trigger] rest[i]) by {
            assert(rest[i] == pieces[i + 1]);
        }
        lemma_flatten_unbroken(rest);
        lemma_has_break_concat(pieces.first(), rest.flatten());
    }
}

/// The text of the first `i + 1` pieces is the text of the first `i` pieces
/// followed by piece `i`.
pub proof fn lemma_flatten_step(pieces: Seq<Seq<char>>, i: int)
    requires
        0 <= i < pieces.len(),
    ensures
        pieces.take(i + 1).flatten() == pieces.take(i).flatten() + pieces[i],
{
    assert(pieces.take(i + 1) =~= pieces.take(i).push(pieces[i]));
    pieces.take(i).lemma_flatten_push(pieces[i]);
}

/// A text cut at piece `i`: what comes before it, the piece, what comes after.
pub proof fn lemma_flatten_split(pieces: Seq<Seq<char>>, i: int)
    requires
        0 <= i < pieces.len(),
    ensures
        pieces.flatten() == pieces.take(i).flatten() + pieces[i] + pieces.skip(i + 1).flatten(),
{
    assert(pieces =~= pieces.take(i) + pieces.skip(i));
    lemma_flatten_concat(pieces.take(i), pieces.skip(i));
    assert(pieces.skip(i).drop_first() =~= pieces.skip(i + 1));
    assert(pieces.skip(i).first() == pieces[i]);
}

/// Empty pieces join to the empty text.
pub proof fn lemma_flatten_empty_pieces(pieces: Seq<Seq<char>>)
    requires
        forall|j: int| 0 <= j < pieces.len() ==> (#[trigger] pieces[j]).len() == 0,
    ensures
        pieces.flatten() == Seq::<char>::empty(),
    decreases pieces.len(),
{
    if pieces.len() > 0 {
        let rest = pieces.drop_first();
        assert forall|j: int| 0 <= j < rest.len() implies (#[trigger] rest[j]).len() == 0 by {
            assert(rest[j] == pieces[j + 1]);
        }
        lemma_flatten_empty_pieces(rest);
        assert(pieces.flatten() =~= Seq::<char>::empty());
    }
}

/// Where every piece between piece `k` and the last one is empty, the text
/// ends with piece `k` and the last piece.
pub proof fn lemma_flatten_tail(pieces: Seq<Seq<char>>, k: int)
    requires
        0 <= k < pieces.len() - 1,
        forall|j: int| k < j < pieces.len() - 1 ==> (#[trigger] pieces[j]).len() == 0,
    ensures
        pieces.flatten() == pieces.take(k).flatten() + pieces[k] + pieces.last(),
{
    lemma_flatten_split(pieces, k);
    let tail = pieces.skip(k + 1);
    let middle = tail.drop_last();
    assert(tail =~= middle.push(pieces.last()));
    middle.lemma_flatten_push(pieces.last());
    assert forall|j: int| 0 <= j < middle.len() implies (#[trigger] middle[j]).len() == 0 by {
        assert(middle[j] == pieces[k + 1 + j]);
    }
    lemma_flatten_empty_pieces(middle);
    assert(tail.flatten() =~= pieces.last());
}

} // verus!
