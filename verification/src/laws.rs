//! What holds across the two representations.

use vstd::prelude::*;
use crate::arena::AstHead;
use crate::boxes::Ast;
use crate::fuzz::{Draws, FULL, drawn_command};
use crate::grammar::{command_at, lemma_command_sound, lemma_unambiguous, views};
use crate::interface::{ParseError, Token};
use crate::tree::{Tree, is_command, leaves, symbols};

verus! {

/// The two representations agree: a finished tree in an arena and an owned
/// tree that are commands spelling the same tokens stand for the same tree,
/// so a traversal of either visits the same strings in the same order.
pub proof fn lemma_representations_agree(tokens: Seq<Token<'static>>, arena: AstHead, owned: Ast)
    requires
        is_command(arena@),
        symbols(arena@) == views(tokens),
        is_command(owned@),
        symbols(owned@) == views(tokens),
    ensures
        arena@ == owned@,
        leaves(arena@) == leaves(owned@),
{
    lemma_unambiguous(tokens, arena@, owned@);
}

/// Equal draws give equal sentences: two token sequences that are what the
/// same draws make of a command under the same factor spell the same.
pub proof fn lemma_equal_draws_equal_sentences(
    factor: (u32, u32),
    draws: Draws,
    first: Seq<Token<'static>>,
    second: Seq<Token<'static>>,
)
    requires
        command_at(first, 0) == Ok::<Tree, ParseError>(drawn_command(factor, FULL, draws, 0).0),
        command_at(second, 0) == Ok::<Tree, ParseError>(drawn_command(factor, FULL, draws, 0).0),
    ensures
        views(first) == views(second),
{
    lemma_command_sound(first, 0);
    lemma_command_sound(second, 0);
    assert(views(first).skip(0) =~= views(first));
    assert(views(second).skip(0) =~= views(second));
}

} // verus!
