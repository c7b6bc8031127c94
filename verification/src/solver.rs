//! Brute force solver
//!
//! The solver searches depth first: on each board it takes the legal moves in
//! the order in which the board lists them, plays the first on a copy of the
//! board and goes on from there. A board that allows no move and holds a
//! single peg ends the search; a board on which every move has failed sends
//! it back to try the next move one level up. Nothing is remembered between
//! branches.

use crate::board::{
    grid_wf, jump, legal, lemma_jump_cells, lemma_jump_removes_one_peg, peg_count, start_grid,
    Board, Grid,
};
use crate::board_serde::{fits_grid, in_alphabet, read_text, readable};
use crate::error::Error;
use crate::find_moves::{
    legal_moves, lemma_legal_move_needs_two_pegs, lemma_legal_moves_complete,
    lemma_legal_moves_sound,
};
use crate::move_struct::Move;
use crate::replay::replay;
use crate::start_solution::lemma_start_is_solvable;
use vstd::prelude::*;

verus! {

/// The board allows no move and holds exactly one peg: the game is won.
pub open spec fn won(g: Grid) -> bool {
    legal_moves(g).len() == 0 && peg_count(g) == 1
}

/// Played in order on `g`, the moves are all legal and lead to a won board.
pub open spec fn solves(g: Grid, moves: Seq<Move>) -> bool {
    replay(g, moves) matches Some(end) && won(end)
}

/// Some sequence of moves solves `g`.
pub open spec fn solvable(g: Grid) -> bool {
    exists|moves: Seq<Move>| solves(g, moves)
}

/// The solution that a depth-first search finds first on `g`, its moves in
/// the order in which they are played; `None` if the search finds none.
///
/// A won board is solved by no move at all. On any other board the legal
/// moves are tried in the order of `legal_moves`.
pub open spec fn first_solution(g: Grid) -> Option<Seq<Move>>
    decreases peg_count(g), 1nat, 0nat,
    when grid_wf(g)
{
    if won(g) {
        Some(Seq::empty())
    } else {
        first_solution_among(g, legal_moves(g))
    }
}

/// The solution that a depth-first search finds first on `g` when it tries
/// the moves of `candidates` in order: the first candidate that is legal and
/// leads to a board with a solution, followed by the first solution of that
/// board.
pub open spec fn first_solution_among(g: Grid, candidates: Seq<Move>) -> Option<Seq<Move>>
    decreases peg_count(g), 0nat, candidates.len(),
    when grid_wf(g)
{
    if candidates.len() == 0 {
        None
    } else {
        let m = candidates.first();
        let below = if legal(g, m) {
            proof {
                lemma_jump_removes_one_peg(g, m);
            }
            first_solution(jump(g, m))
        } else {
            None
        };
        match below {
            Some(rest) => Some(seq![m] + rest),
            None => first_solution_among(g, candidates.drop_first()),
        }
    }
}

/// Solver for one board.
pub struct Solver {
    board: Board,
}

impl View for Solver {
    type V = Grid;

    /// The board that the solver was made for.
    closed spec fn view(&self) -> Grid {
        self.board@
    }
}

/// The moves of `v` from the last to the first.
fn reversed(v: Vec<Move>) -> (r: Vec<Move>)
    ensures
        r@ == v@.reverse(),
{
    let mut r: Vec<Move> = Vec::with_capacity(v.len());
    let mut i: usize = v.len();
    while i > 0
        invariant
            i <= v.len(),
            r@ == v@.reverse().take(v.len() - i),
        decreases i,
    {
        i -= 1;
        r.push(v[i]);
        assert(r@ =~= v@.reverse().take(v.len() - i));
    }
    assert(r@ =~= v@.reverse());
    r
}

impl Solver {
    /// A solver for the starting board, which can be solved.
    pub fn new() -> (solver: Solver)
        ensures
            solver@ == start_grid(),
            solvable(solver@),
    {
        proof {
            lemma_start_is_solvable();
        }
        Solver { board: Board::new() }
    }

    /// A solver for the board that `b_str` is the text of.
    pub fn from_str(b_str: &str) -> (r: Result<Solver, Error<'static>>)
        requires
            fits_grid(b_str@),
        ensures
            (match r {
                Ok(solver) => readable(b_str@, b_str@.len() as int) && solver@ == read_text(b_str@),
                Err(e) => exists|i: int|
                    1 <= i < b_str@.len() && readable(b_str@, i) && !in_alphabet(
                        #[trigger] b_str@[i],
                    ) && e == Error::GridFormatError(b_str@[i]),
            }),
    {
        match Board::deserialize(b_str) {
            Ok(board) => Ok(Solver { board }),
            Err(e) => Err(e),
        }
    }

    /// Searches for moves that leave a single peg on the solver's board.
    ///
    /// The answer is the first solution of a depth-first search, the moves in
    /// the order in which they are to be played, or `None` where no sequence
    /// of moves solves the board. The solver's board is left as it is.
    pub fn solve(&mut self) -> (r: Option<Vec<Move>>)
        ensures
            *final(self) == *old(self),
            (match r {
                Some(moves) => {
                    &&& first_solution(old(self)@) == Some(moves@)
                    &&& solves(old(self)@, moves@)
                    &&& moves@.len() == peg_count(old(self)@) - 1
                },
                None => first_solution(old(self)@) is None && !solvable(old(self)@),
            }),
    {
        let start = self.board.clone();
        proof {
            start.lemma_view_wf();
            lemma_first_solution_sound(start@);
            lemma_unsolved_is_unsolvable(start@);
        }
        let solution = self.solve_board(start)?;
        Some(reversed(solution))
    }

    /// The search from `board`: its first solution, the moves from the last
    /// played to the first.
    fn solve_board(&mut self, board: Board) -> (r: Option<Vec<Move>>)
        ensures
            *final(self) == *old(self),
            (match r {
                Some(path) => first_solution(board@) == Some(path@.reverse()),
                None => first_solution(board@) is None,
            }),
        decreases peg_count(board@),
    {
        let ghost g = board@;
        proof {
            board.lemma_view_wf();
        }
        let moves = board.find_moves();
        if moves.len() == 0 && board.find_pieces().len() == 1 {
            let path: Vec<Move> = Vec::with_capacity(32);
            assert(path@.reverse() =~= Seq::<Move>::empty());
            return Some(path);
        }
        assert(moves@.skip(0) =~= moves@);
        let mut i: usize = 0;
        while i < moves.len()
            invariant
                *self == *old(self),
                g == board@,
                grid_wf(g),
                !won(g),
                moves@ == legal_moves(g),
                i <= moves.len(),
                first_solution(g) == first_solution_among(g, moves@.skip(i as int)),
            decreases moves.len() - i,
        {
            let m = moves[i];
            let ghost rest = moves@.skip(i as int);
            proof {
                lemma_legal_moves_sound(g, i as int);
                assert(rest.first() == m);
                assert(rest.drop_first() =~= moves@.skip(i + 1));
            }
            let new_board = board.move_piece(m.from, m.to).expect(
                "all moves should be valid at this point",
            );
            let option_moves = self.solve_board(new_board);
            match option_moves {
                Some(winning_moves) => {
                    let mut winning_moves = winning_moves;
                    let ghost below = winning_moves@;
                    winning_moves.push(m);
                    assert(winning_moves@.reverse() =~= seq![m] + below.reverse());
                    return Some(winning_moves);
                },
                None => {},
            }
            i += 1;
        }
        None
    }
}

/// A won board is one that holds a single peg: a lone peg has nothing to
/// jump over.
pub proof fn lemma_won_is_single_peg(g: Grid)
    requires
        grid_wf(g),
    ensures
        won(g) <==> peg_count(g) == 1,
{
    if peg_count(g) == 1 && legal_moves(g).len() > 0 {
        lemma_legal_moves_sound(g, 0);
        lemma_legal_move_needs_two_pegs(g, legal_moves(g)[0]);
    }
}

/// The search stops with no move to play exactly on a won board: a board
/// that allows no move and holds exactly one peg.
pub proof fn lemma_search_ends_when_won(g: Grid)
    requires
        grid_wf(g),
    ensures
        first_solution(g) == Some(Seq::<Move>::empty()) <==> legal_moves(g).len() == 0
            && peg_count(g) == 1,
{
    if !won(g) {
        lemma_found_among_is_not_empty(g, legal_moves(g));
    }
}

/// A board that allows no move and does not hold exactly one peg is a dead
/// end: the search finds nothing there.
pub proof fn lemma_dead_end(g: Grid)
    requires
        grid_wf(g),
        legal_moves(g).len() == 0,
        peg_count(g) != 1,
    ensures
        first_solution(g) is None,
        !solvable(g),
{
    lemma_unsolved_is_unsolvable(g);
}

/// A solution found among candidates has at least one move.
proof fn lemma_found_among_is_not_empty(g: Grid, candidates: Seq<Move>)
    requires
        grid_wf(g),
    ensures
        first_solution_among(g, candidates) matches Some(moves) ==> moves.len() > 0,
    decreases candidates.len(),
{
    if candidates.len() > 0 {
        lemma_found_among_is_not_empty(g, candidates.drop_first());
    }
}

/// What the search finds is a solution: its moves can be played one after
/// the other, each a legal jump, and they leave a won board. It has one move
/// for each peg but the last.
pub proof fn lemma_first_solution_sound(g: Grid)
    requires
        grid_wf(g),
    ensures
        first_solution(g) matches Some(moves) ==> solves(g, moves) && moves.len() == peg_count(g)
            - 1,
    decreases peg_count(g), 1nat, 0nat,
{
    if !won(g) {
        lemma_found_among_sound(g, legal_moves(g));
    }
}

/// The statement of `lemma_first_solution_sound` for the search among
/// candidates.
proof fn lemma_found_among_sound(g: Grid, candidates: Seq<Move>)
    requires
        grid_wf(g),
    ensures
        first_solution_among(g, candidates) matches Some(moves) ==> solves(g, moves) && moves.len()
            == peg_count(g) - 1,
    decreases peg_count(g), 0nat, candidates.len(),
{
    if candidates.len() > 0 {
        let m = candidates.first();
        if legal(g, m) && first_solution(jump(g, m)) is Some {
            let rest = first_solution(jump(g, m))->0;
            lemma_jump_cells(g, m);
            lemma_jump_removes_one_peg(g, m);
            lemma_first_solution_sound(jump(g, m));
            let moves = seq![m] + rest;
            assert(moves.first() == m);
            assert(moves.drop_first() =~= rest);
        } else {
            lemma_found_among_sound(g, candidates.drop_first());
        }
    }
}

/// The search is exhaustive: on a board that some sequence of moves solves,
/// it finds a solution.
pub proof fn lemma_first_solution_complete(g: Grid, moves: Seq<Move>)
    requires
        grid_wf(g),
        solves(g, moves),
    ensures
        first_solution(g) is Some,
    decreases moves.len(),
{
    if !won(g) {
        if moves.len() == 0 {
            assert(replay(g, moves) == Some(g));
        } else {
            let m = moves.first();
            lemma_jump_cells(g, m);
            lemma_first_solution_complete(jump(g, m), moves.drop_first());
            lemma_legal_moves_complete(g, m);
            let k = choose|k: int| 0 <= k < legal_moves(g).len() && legal_moves(g)[k] == m;
            lemma_found_among_complete(g, legal_moves(g), k);
        }
    }
}

/// Where one of the candidates is legal and leads to a board on which the
/// search finds a solution, the search among the candidates finds one.
proof fn lemma_found_among_complete(g: Grid, candidates: Seq<Move>, k: int)
    requires
        grid_wf(g),
        0 <= k < candidates.len(),
        legal(g, candidates[k]),
        first_solution(jump(g, candidates[k])) is Some,
    ensures
        first_solution_among(g, candidates) is Some,
    decreases candidates.len(),
{
    if k > 0 {
        lemma_found_among_complete(g, candidates.drop_first(), k - 1);
    }
}

/// Where the search finds nothing, no sequence of moves solves the board.
pub proof fn lemma_unsolved_is_unsolvable(g: Grid)
    requires
        grid_wf(g),
    ensures
        first_solution(g) is None ==> !solvable(g),
{
    if first_solution(g) is None && solvable(g) {
        let moves = choose|moves: Seq<Move>| solves(g, moves);
        lemma_first_solution_complete(g, moves);
    }
}

} // verus!
