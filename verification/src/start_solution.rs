//! A solution of the starting board
//!
//! The starting board can be solved. This module holds one way to do it and
//! the proof that its 31 moves can be played one after the other and leave a
//! single peg. With it the search, which is exhaustive, is known to find a
//! solution of the starting board.

use crate::board::{lemma_start_grid, start_grid, Grid, Space};
use crate::move_struct::Move;
use crate::position::Position;
use crate::replay::{
    lemma_replay_concat, lemma_replay_keeps_shape, lemma_replay_peg_count, lemma_replay_push,
    replay,
};
use crate::solver::{
    first_solution, lemma_first_solution_complete, lemma_first_solution_sound,
    lemma_won_is_single_peg, solvable, solves,
};
use vstd::prelude::*;

verus! {

/// The move from column `x` of row `y` to column `to_x` of row `to_y`.
pub open spec fn hop(x: usize, y: usize, to_x: usize, to_y: usize) -> Move {
    Move { from: Position { x, y }, to: Position { x: to_x, y: to_y } }
}

/// Moves that solve the starting board, in the order in which they are
/// played.
pub open spec fn start_solution() -> Seq<Move> {
    seq![
        hop(3, 1, 3, 3),
        hop(1, 2, 3, 2),
        hop(2, 0, 2, 2),
        hop(4, 0, 2, 0),
        hop(3, 2, 1, 2),
        hop(0, 2, 2, 2),
        hop(4, 2, 4, 0),
        hop(6, 2, 4, 2),
        hop(2, 3, 2, 1),
        hop(2, 0, 2, 2),
        hop(0, 3, 2, 3),
        hop(2, 3, 2, 1),
        hop(4, 3, 2, 3),
        hop(6, 3, 4, 3),
        hop(4, 3, 4, 1),
        hop(4, 0, 4, 2),
        hop(2, 4, 2, 2),
        hop(2, 1, 2, 3),
        hop(0, 4, 2, 4),
        hop(3, 4, 1, 4),
        hop(4, 5, 4, 3),
        hop(6, 4, 4, 4),
        hop(2, 6, 2, 4),
        hop(2, 3, 2, 5),
        hop(4, 6, 2, 6),
        hop(2, 6, 2, 4),
        hop(1, 4, 3, 4),
        hop(3, 4, 5, 4),
        hop(4, 2, 4, 4),
        hop(5, 4, 3, 4),
        hop(3, 4, 3, 6),
    ]
}

/// The board after the first 8 moves of `start_solution`.
spec fn board_after_8() -> Grid {
    let x = Space::NotPartOfBoard;
    let o = Space::Occupied;
    let e = Space::Empty;
    seq![
        seq![x, x, o, e, o, x, x],
        seq![x, x, e, e, e, x, x],
        seq![e, e, o, e, o, e, e],
        seq![o, o, o, o, o, o, o],
        seq![o, o, o, o, o, o, o],
        seq![x, x, o, o, o, x, x],
        seq![x, x, o, o, o, x, x],
    ]
}

/// The board after the first 16 moves of `start_solution`.
spec fn board_after_16() -> Grid {
    let x = Space::NotPartOfBoard;
    let o = Space::Occupied;
    let e = Space::Empty;
    seq![
        seq![x, x, e, e, e, x, x],
        seq![x, x, o, e, e, x, x],
        seq![e, e, e, e, o, e, e],
        seq![e, e, o, e, e, e, e],
        seq![o, o, o, o, o, o, o],
        seq![x, x, o, o, o, x, x],
        seq![x, x, o, o, o, x, x],
    ]
}

/// The board after the first 24 moves of `start_solution`.
spec fn board_after_24() -> Grid {
    let x = Space::NotPartOfBoard;
    let o = Space::Occupied;
    let e = Space::Empty;
    seq![
        seq![x, x, e, e, e, x, x],
        seq![x, x, e, e, e, x, x],
        seq![e, e, e, e, o, e, e],
        seq![e, e, e, e, o, e, e],
        seq![e, o, e, e, o, e, e],
        seq![x, x, o, o, e, x, x],
        seq![x, x, e, o, o, x, x],
    ]
}

/// Moves 1 to 8 of `start_solution` lead from the starting board to the board
/// after move 8.
proof fn lemma_moves_1_to_8()
    ensures
        replay(start_grid(), start_solution().subrange(0, 8)) == Some(board_after_8()),
{
    let s = start_solution();
    let g = start_grid();
    let t0 = Seq::<Move>::empty();
    lemma_replay_push(g, t0, s[0]);
    let t1 = t0.push(s[0]);
    lemma_replay_push(g, t1, s[1]);
    let t2 = t1.push(s[1]);
    lemma_replay_push(g, t2, s[2]);
    let t3 = t2.push(s[2]);
    lemma_replay_push(g, t3, s[3]);
    let t4 = t3.push(s[3]);
    lemma_replay_push(g, t4, s[4]);
    let t5 = t4.push(s[4]);
    lemma_replay_push(g, t5, s[5]);
    let t6 = t5.push(s[5]);
    lemma_replay_push(g, t6, s[6]);
    let t7 = t6.push(s[6]);
    lemma_replay_push(g, t7, s[7]);
    let t8 = t7.push(s[7]);
    assert(t8 =~= s.subrange(0, 8));
    assert(replay(g, t8)->0 =~~= board_after_8());
}

/// Moves 9 to 16 of `start_solution` lead from the board after move 8 to the board
/// after move 16.
proof fn lemma_moves_9_to_16()
    ensures
        replay(board_after_8(), start_solution().subrange(8, 16)) == Some(board_after_16()),
{
    let s = start_solution();
    let g = board_after_8();
    let t8 = Seq::<Move>::empty();
    lemma_replay_push(g, t8, s[8]);
    let t9 = t8.push(s[8]);
    lemma_replay_push(g, t9, s[9]);
    let t10 = t9.push(s[9]);
    lemma_replay_push(g, t10, s[10]);
    let t11 = t10.push(s[10]);
    lemma_replay_push(g, t11, s[11]);
    let t12 = t11.push(s[11]);
    lemma_replay_push(g, t12, s[12]);
    let t13 = t12.push(s[12]);
    lemma_replay_push(g, t13, s[13]);
    let t14 = t13.push(s[13]);
    lemma_replay_push(g, t14, s[14]);
    let t15 = t14.push(s[14]);
    lemma_replay_push(g, t15, s[15]);
    let t16 = t15.push(s[15]);
    assert(t16 =~= s.subrange(8, 16));
    assert(replay(g, t16)->0 =~~= board_after_16());
}

/// Moves 17 to 24 of `start_solution` lead from the board after move 16 to the board
/// after move 24.
proof fn lemma_moves_17_to_24()
    ensures
        replay(board_after_16(), start_solution().subrange(16, 24)) == Some(board_after_24()),
{
    let s = start_solution();
    let g = board_after_16();
    let t16 = Seq::<Move>::empty();
    lemma_replay_push(g, t16, s[16]);
    let t17 = t16.push(s[16]);
    lemma_replay_push(g, t17, s[17]);
    let t18 = t17.push(s[17]);
    lemma_replay_push(g, t18, s[18]);
    let t19 = t18.push(s[18]);
    lemma_replay_push(g, t19, s[19]);
    let t20 = t19.push(s[19]);
    lemma_replay_push(g, t20, s[20]);
    let t21 = t20.push(s[20]);
    lemma_replay_push(g, t21, s[21]);
    let t22 = t21.push(s[21]);
    lemma_replay_push(g, t22, s[22]);
    let t23 = t22.push(s[22]);
    lemma_replay_push(g, t23, s[23]);
    let t24 = t23.push(s[23]);
    assert(t24 =~= s.subrange(16, 24));
    assert(replay(g, t24)->0 =~~= board_after_24());
}

/// Moves 25 to 31 of `start_solution` can be played on the board after
/// move 24.
proof fn lemma_moves_25_to_31()
    ensures
        replay(board_after_24(), start_solution().subrange(24, 31)) is Some,
{
    let s = start_solution();
    let g = board_after_24();
    let t24 = Seq::<Move>::empty();
    lemma_replay_push(g, t24, s[24]);
    let t25 = t24.push(s[24]);
    lemma_replay_push(g, t25, s[25]);
    let t26 = t25.push(s[25]);
    lemma_replay_push(g, t26, s[26]);
    let t27 = t26.push(s[26]);
    lemma_replay_push(g, t27, s[27]);
    let t28 = t27.push(s[27]);
    lemma_replay_push(g, t28, s[28]);
    let t29 = t28.push(s[28]);
    lemma_replay_push(g, t29, s[29]);
    let t30 = t29.push(s[29]);
    lemma_replay_push(g, t30, s[30]);
    let t31 = t30.push(s[30]);
    assert(t31 =~= s.subrange(24, 31));
}

/// The starting board can be solved: the 31 moves of `start_solution` are
/// legal one after the other and leave a single peg. So the search finds a
/// solution of the starting board, and it has 31 moves.
pub proof fn lemma_start_is_solvable()
    ensures
        solves(start_grid(), start_solution()),
        solvable(start_grid()),
        first_solution(start_grid()) matches Some(moves) && solves(start_grid(), moves)
            && moves.len() == 31,
{
    let s = start_solution();
    lemma_moves_1_to_8();
    lemma_moves_9_to_16();
    lemma_moves_17_to_24();
    lemma_moves_25_to_31();
    lemma_replay_concat(start_grid(), s.subrange(0, 8), s.subrange(8, 16));
    assert(s.subrange(0, 16) =~= s.subrange(0, 8) + s.subrange(8, 16));
    lemma_replay_concat(start_grid(), s.subrange(0, 16), s.subrange(16, 24));
    assert(s.subrange(0, 24) =~= s.subrange(0, 16) + s.subrange(16, 24));
    lemma_replay_concat(start_grid(), s.subrange(0, 24), s.subrange(24, 31));
    assert(s.subrange(0, 31) =~= s.subrange(0, 24) + s.subrange(24, 31));
    assert(s.subrange(0, 31) =~= s);
    lemma_start_grid();
    lemma_replay_keeps_shape(start_grid(), s);
    lemma_replay_peg_count(start_grid(), s);
    lemma_won_is_single_peg(replay(start_grid(), s)->0);
    lemma_first_solution_complete(start_grid(), s);
    lemma_first_solution_sound(start_grid());
}

} // verus!
