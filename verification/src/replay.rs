//! Playing a sequence of moves
//!
//! What a board becomes when a list of moves is played on it one after the
//! other, and what stays true of it however long the list is.

use crate::board::{
    cross_shaped, grid_wf, jump, legal, lemma_jump_cells, lemma_jump_keeps_shape,
    lemma_jump_removes_one_peg, peg_count, same_shape, start_grid, Grid,
};
use crate::board_serde::{grid_text, lemma_round_trip, read_text};
use crate::move_struct::Move;
use vstd::prelude::*;

verus! {

/// The grid after the moves have been played in order, each a legal jump on
/// the grid that the moves before it left; `None` if one of them is not.
pub open spec fn replay(g: Grid, moves: Seq<Move>) -> Option<Grid>
    decreases moves.len(),
{
    if moves.len() == 0 {
        Some(g)
    } else if legal(g, moves.first()) {
        replay(jump(g, moves.first()), moves.drop_first())
    } else {
        None
    }
}

/// Playing one list of moves and then another is playing the two lists as
/// one.
pub proof fn lemma_replay_concat(g: Grid, first: Seq<Move>, then: Seq<Move>)
    ensures
        replay(g, first + then) == match replay(g, first) {
            Some(between) => replay(between, then),
            None => None,
        },
    decreases first.len(),
{
    if first.len() == 0 {
        assert(first + then =~= then);
    } else {
        assert((first + then).first() == first.first());
        assert((first + then).drop_first() =~= first.drop_first() + then);
        if legal(g, first.first()) {
            lemma_replay_concat(jump(g, first.first()), first.drop_first(), then);
        }
    }
}

/// A move that is legal on the board that a list of moves leads to can be
/// played after them.
pub proof fn lemma_replay_push(g: Grid, moves: Seq<Move>, m: Move)
    requires
        replay(g, moves) is Some,
        legal(replay(g, moves)->0, m),
    ensures
        replay(g, moves.push(m)) == Some(jump(replay(g, moves)->0, m)),
{
    let between = replay(g, moves)->0;
    lemma_replay_concat(g, moves, seq![m]);
    assert(moves.push(m) =~= moves + seq![m]);
    assert(seq![m].first() == m);
    assert(seq![m].drop_first() =~= Seq::<Move>::empty());
    assert(replay(jump(between, m), Seq::<Move>::empty()) == Some(jump(between, m)));
}

/// However many legal moves are played, the playing area keeps its shape:
/// the result is a grid on which exactly the cells that were outside the
/// playing area at the start are outside it.
pub proof fn lemma_replay_keeps_shape(g: Grid, moves: Seq<Move>)
    requires
        grid_wf(g),
        replay(g, moves) is Some,
    ensures
        grid_wf(replay(g, moves)->0),
        same_shape(g, replay(g, moves)->0),
        cross_shaped(g) ==> cross_shaped(replay(g, moves)->0),
    decreases moves.len(),
{
    if moves.len() > 0 {
        let m = moves.first();
        lemma_jump_cells(g, m);
        lemma_jump_keeps_shape(g, m);
        lemma_replay_keeps_shape(jump(g, m), moves.drop_first());
    }
}

/// Each move played takes one peg off the board.
pub proof fn lemma_replay_peg_count(g: Grid, moves: Seq<Move>)
    requires
        grid_wf(g),
        replay(g, moves) is Some,
    ensures
        peg_count(replay(g, moves)->0) == peg_count(g) - moves.len(),
    decreases moves.len(),
{
    if moves.len() > 0 {
        let m = moves.first();
        lemma_jump_cells(g, m);
        lemma_jump_removes_one_peg(g, m);
        lemma_replay_peg_count(jump(g, m), moves.drop_first());
    }
}

/// The text of a board that legal moves lead to from the starting board
/// can be read back: reading it gives that board, and writing what was read
/// gives the same text again.
pub proof fn lemma_round_trip_after_moves(moves: Seq<Move>)
    requires
        replay(start_grid(), moves) is Some,
    ensures
        read_text(grid_text(replay(start_grid(), moves)->0)) == replay(start_grid(), moves)->0,
        grid_text(read_text(grid_text(replay(start_grid(), moves)->0))) == grid_text(
            replay(start_grid(), moves)->0,
        ),
{
    lemma_replay_keeps_shape(start_grid(), moves);
    lemma_round_trip(replay(start_grid(), moves)->0);
}

} // verus!
