//! Finds the moves that a board allows
//!
//! The pegs are visited row by row. For each peg the four cells two steps
//! away are tried in a fixed order (towards column 0, away from it, towards
//! row 0, away from it), and each jump that the board allows is kept.

use crate::board::{
    all_positions, cell, grid_wf, holds_peg, legal, lemma_peg_count_with_cell, nth_position,
    peg_count, pegs, with_cell, Board, Grid, Space,
};
use crate::move_struct::{lemma_jump_geometry, Move};
use crate::position::Position;
use vstd::prelude::*;

verus! {

/// The cells two steps away from `p` along its row and its column: towards
/// column 0, away from it, towards row 0, away from it. A cell beyond the
/// edge of the grid is left out.
pub open spec fn neighbor_cells(p: Position) -> Seq<Position> {
    (if p.x > 1 {
        seq![Position { x: (p.x - 2) as usize, y: p.y }]
    } else {
        seq![]
    }) + (if p.x < 5 {
        seq![Position { x: (p.x + 2) as usize, y: p.y }]
    } else {
        seq![]
    }) + (if p.y > 1 {
        seq![Position { x: p.x, y: (p.y - 2) as usize }]
    } else {
        seq![]
    }) + (if p.y < 5 {
        seq![Position { x: p.x, y: (p.y + 2) as usize }]
    } else {
        seq![]
    })
}

/// Makes the move from `from` to a given cell.
pub open spec fn move_from(from: Position) -> spec_fn(Position) -> Move {
    |to: Position| Move { from, to }
}

/// The test whether a move is legal on `g`.
pub open spec fn allowed(g: Grid) -> spec_fn(Move) -> bool {
    |m: Move| legal(g, m)
}

/// The legal jumps of the peg at `p`, in the order of `neighbor_cells`.
pub open spec fn jumps_from(g: Grid, p: Position) -> Seq<Move> {
    neighbor_cells(p).map_values(move_from(p)).filter(allowed(g))
}

/// Gives the legal jumps of a peg of `g`.
pub open spec fn jumps_on(g: Grid) -> spec_fn(Position) -> Seq<Move> {
    |p: Position| jumps_from(g, p)
}

/// All legal moves on `g`: the jumps of each peg, the pegs taken row by row.
pub open spec fn legal_moves(g: Grid) -> Seq<Move> {
    pegs(g).flat_map(jumps_on(g))
}

/// The pegs are the cells of the grid that hold a peg.
pub proof fn lemma_pegs_are_occupied_cells(g: Grid, p: Position)
    ensures
        pegs(g).contains(p) <==> p.on_board() && cell(g, p) == Space::Occupied,
{
    let all = all_positions();
    if pegs(g).contains(p) {
        let i = choose|i: int| 0 <= i < pegs(g).len() && pegs(g)[i] == p;
        lemma_pegs_on_board(g, i);
    }
    if p.on_board() && cell(g, p) == Space::Occupied {
        let k = p.y * 7 + p.x;
        assert(all[k] == nth_position(k));
        all.lemma_filter_contains(holds_peg(g), k);
    }
}

/// Every peg stands on a cell of the grid.
pub proof fn lemma_pegs_on_board(g: Grid, i: int)
    requires
        0 <= i < pegs(g).len(),
    ensures
        pegs(g)[i].on_board(),
        cell(g, pegs(g)[i]) == Space::Occupied,
{
    let all = all_positions();
    let q = pegs(g)[i];
    all.lemma_filter_pred(holds_peg(g), i);
    assert(pegs(g).contains(q));
    all.lemma_filter_contains_rev(holds_peg(g), q);
    let k = choose|k: int| 0 <= k < all.len() && all[k] == q;
    assert(all[k] == nth_position(k));
}

/// The cell that a jump lands on is among the neighbour cells of the cell it
/// starts from.
pub proof fn lemma_jump_lands_on_neighbor(m: Move)
    requires
        m.on_board(),
        m.is_jump(),
    ensures
        neighbor_cells(m.from).contains(m.to),
{
    let p = m.from;
    let west = if p.x > 1 {
        seq![Position { x: (p.x - 2) as usize, y: p.y }]
    } else {
        seq![]
    };
    let east = if p.x < 5 {
        seq![Position { x: (p.x + 2) as usize, y: p.y }]
    } else {
        seq![]
    };
    let north = if p.y > 1 {
        seq![Position { x: p.x, y: (p.y - 2) as usize }]
    } else {
        seq![]
    };
    let south = if p.y < 5 {
        seq![Position { x: p.x, y: (p.y + 2) as usize }]
    } else {
        seq![]
    };
    let cells = neighbor_cells(p);
    assert(cells == west + east + north + south);
    if m.dx() == -2 {
        assert(cells[0] == m.to);
    } else if m.dx() == 2 {
        assert(cells[west.len() as int] == m.to);
    } else if m.dy() == -2 {
        assert(cells[(west.len() + east.len()) as int] == m.to);
    } else {
        assert(m.dy() == 2);
        assert(cells[(west.len() + east.len() + north.len()) as int] == m.to);
    }
}

/// Every move that `legal_moves` lists is legal.
pub proof fn lemma_legal_moves_sound(g: Grid, i: int)
    requires
        0 <= i < legal_moves(g).len(),
    ensures
        legal(g, legal_moves(g)[i]),
{
    assert(pegs(g).take(pegs(g).len() as int) =~= pegs(g));
    lemma_listed_moves_legal(g, pegs(g).len() as int, i);
}

/// The statement of `lemma_legal_moves_sound` for the jumps of the first `n`
/// pegs.
proof fn lemma_listed_moves_legal(g: Grid, n: int, i: int)
    requires
        0 <= n <= pegs(g).len(),
        0 <= i < pegs(g).take(n).flat_map(jumps_on(g)).len(),
    ensures
        legal(g, pegs(g).take(n).flat_map(jumps_on(g))[i]),
    decreases n,
{
    if n == 0 {
        assert(pegs(g).take(0).map_values(jumps_on(g)) =~= Seq::<Seq<Move>>::empty());
    } else {
        let before = pegs(g).take(n - 1).flat_map(jumps_on(g));
        let last = jumps_from(g, pegs(g)[n - 1]);
        pegs(g).lemma_flat_map_take_append(jumps_on(g), n - 1);
        assert(pegs(g).take(n).flat_map(jumps_on(g)) =~= before + last);
        if i < before.len() {
            lemma_listed_moves_legal(g, n - 1, i);
        } else {
            neighbor_cells(pegs(g)[n - 1]).map_values(move_from(pegs(g)[n - 1])).lemma_filter_pred(
                allowed(g),
                i - before.len(),
            );
        }
    }
}

/// Every legal move is listed by `legal_moves`.
pub proof fn lemma_legal_moves_complete(g: Grid, m: Move)
    requires
        legal(g, m),
    ensures
        legal_moves(g).contains(m),
{
    let all = all_positions();
    let k = m.from.y * 7 + m.from.x;
    assert(all[k] == nth_position(k));
    assert(all[k] == m.from);
    all.lemma_filter_contains(holds_peg(g), k);
    let n = choose|n: int| 0 <= n < pegs(g).len() && pegs(g)[n] == m.from;
    lemma_jump_lands_on_neighbor(m);
    let cells = neighbor_cells(m.from);
    let j = choose|j: int| 0 <= j < cells.len() && cells[j] == m.to;
    let candidates = cells.map_values(move_from(m.from));
    assert(candidates[j] == m);
    candidates.lemma_filter_contains(allowed(g), j);
    assert(pegs(g).take(pegs(g).len() as int) =~= pegs(g));
    lemma_jumps_of_peg_listed(g, pegs(g).len() as int, n, m);
}

/// A jump of one of the first `n` pegs is among the jumps of the first `n`
/// pegs.
proof fn lemma_jumps_of_peg_listed(g: Grid, n: int, k: int, m: Move)
    requires
        0 <= k < n <= pegs(g).len(),
        jumps_from(g, pegs(g)[k]).contains(m),
    ensures
        pegs(g).take(n).flat_map(jumps_on(g)).contains(m),
    decreases n,
{
    let before = pegs(g).take(n - 1).flat_map(jumps_on(g));
    let last = jumps_from(g, pegs(g)[n - 1]);
    pegs(g).lemma_flat_map_take_append(jumps_on(g), n - 1);
    assert(pegs(g).take(n).flat_map(jumps_on(g)) =~= before + last);
    if k < n - 1 {
        lemma_jumps_of_peg_listed(g, n - 1, k, m);
    }
    vstd::seq_lib::lemma_seq_concat_contains_all_elements(before, last, m);
}

/// A board with a legal move holds at least two pegs: the one that jumps
/// and the one it jumps over.
pub proof fn lemma_legal_move_needs_two_pegs(g: Grid, m: Move)
    requires
        grid_wf(g),
        legal(g, m),
    ensures
        peg_count(g) >= 2,
{
    lemma_jump_geometry(m);
    let without_first = with_cell(g, m.from, Space::Empty);
    lemma_peg_count_with_cell(g, m.from, Space::Empty);
    lemma_peg_count_with_cell(without_first, m.middle(), Space::Empty);
}

impl Board {
    /// All legal moves on the board: for each peg, row by row, its jumps in the
    /// order in which `neighbors` lists the cells to land on.
    pub fn find_moves(&self) -> (moves: Vec<Move>)
        ensures
            moves@ == legal_moves(self@),
            forall|m: Move| moves@.contains(m) <==> legal(self@, m),
    {
        let mut moves: Vec<Move> = Vec::new();
        let pieces = self.find_pieces();
        let ghost g = self@;
        let mut i: usize = 0;
        proof {
            assert(pegs(g).take(0) =~= Seq::<Position>::empty());
            assert(pegs(g).take(0).map_values(jumps_on(g)) =~= Seq::<Seq<Move>>::empty());
        }
        while i < pieces.len()
            invariant
                g == self@,
                pieces@ == pegs(g),
                i <= pieces.len(),
                moves@ == pegs(g).take(i as int).flat_map(jumps_on(g)),
            decreases pieces.len() - i,
        {
            let piece = pieces[i];
            let around = self.neighbors(piece);
            let ghost done = moves@;
            let ghost candidates = around@.map_values(move_from(piece));
            proof {
                lemma_pegs_on_board(g, i as int);
                assert(candidates.take(0) =~= Seq::<Move>::empty());
                reveal(Seq::filter);
            }
            let mut j: usize = 0;
            while j < around.len()
                invariant
                    g == self@,
                    piece.on_board(),
                    around@ == neighbor_cells(piece),
                    candidates == around@.map_values(move_from(piece)),
                    j <= around.len(),
                    moves@ == done + candidates.take(j as int).filter(allowed(g)),
                decreases around.len() - j,
            {
                let m = Move { from: piece, to: around[j] };
                proof {
                    assert(candidates[j as int] == m);
                    assert(candidates.take(j + 1) =~= candidates.take(j as int).push(m));
                    candidates.take(j as int).lemma_filter_push(m, allowed(g));
                }
                if self.valid_move(m).is_ok() {
                    moves.push(m);
                }
                j += 1;
            }
            proof {
                assert(candidates.take(j as int) =~= candidates);
                pegs(g).lemma_flat_map_take_append(jumps_on(g), i as int);
            }
            i += 1;
        }
        proof {
            assert(pegs(g).take(i as int) =~= pegs(g));
            assert forall|m: Move| moves@.contains(m) <==> legal(g, m) by {
                if moves@.contains(m) {
                    let k = choose|k: int| 0 <= k < moves@.len() && moves@[k] == m;
                    lemma_legal_moves_sound(g, k);
                }
                if legal(g, m) {
                    lemma_legal_moves_complete(g, m);
                }
            }
        }
        moves
    }

    /// The cells two steps away from `p` along its row and its column that do
    /// not lie beyond the edge of the grid. Whether they belong to the
    /// playing area is not looked at here.
    pub fn neighbors(&self, p: Position) -> (cells: Vec<Position>)
        ensures
            cells@ == neighbor_cells(p),
    {
        let mut neighbors: Vec<Position> = Vec::new();
        if p.x > 1 {
            neighbors.push(Position { x: p.x - 2, y: p.y });
        }
        if p.x < 5 {
            neighbors.push(Position { x: p.x + 2, y: p.y });
        }
        if p.y > 1 {
            neighbors.push(Position { x: p.x, y: p.y - 2 });
        }
        if p.y < 5 {
            neighbors.push(Position { x: p.x, y: p.y + 2 });
        }
        assert(neighbors@ =~= neighbor_cells(p));
        neighbors
    }

    /// The positions of the pegs, found by scanning the 49 cells row by row.
    pub fn find_pieces(&self) -> (pieces: Vec<Position>)
        ensures
            pieces@ == pegs(self@),
            pieces@.len() == peg_count(self@),
            forall|p: Position|
                pieces@.contains(p) <==> p.on_board() && cell(self@, p) == Space::Occupied,
    {
        let mut pos: Vec<Position> = Vec::new();
        let ghost g = self@;
        let ghost all = all_positions();
        proof {
            assert(all.take(0) =~= Seq::<Position>::empty());
            reveal(Seq::filter);
        }
        let mut y: usize = 0;
        while y < 7
            invariant
                g == self@,
                all == all_positions(),
                y <= 7,
                pos@ == all.take(y * 7).filter(holds_peg(g)),
            decreases 7 - y,
        {
            let mut x: usize = 0;
            while x < 7
                invariant
                    g == self@,
                    all == all_positions(),
                    y < 7,
                    x <= 7,
                    pos@ == all.take(y * 7 + x).filter(holds_peg(g)),
                decreases 7 - x,
            {
                let p = Position { x, y };
                proof {
                    let n = y * 7 + x;
                    assert(all[n] == nth_position(n));
                    assert(all[n] == p);
                    assert(all.take(n + 1) =~= all.take(n).push(p));
                    all.take(n).lemma_filter_push(p, holds_peg(g));
                }
                match self.at(p) {
                    Space::Occupied => pos.push(p),
                    _ => (),
                }
                x += 1;
            }
            y += 1;
        }
        proof {
            assert(all.take(49) =~= all);
            assert forall|p: Position| pos@.contains(p) <==> p.on_board() && cell(g, p)
                == Space::Occupied by {
                lemma_pegs_are_occupied_cells(g, p);
            }
        }
        pos
    }
}

} // verus!
