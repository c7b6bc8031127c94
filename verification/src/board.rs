//! Board definition
//!
//! The board is a 7x7 grid of cells. The cells of the four 2x2 corners are
//! not part of the cross-shaped playing area; each other cell is empty or
//! holds a peg. The only way a board changes is a jump: a peg moves two cells
//! along a row or a column over a neighbouring peg, which is taken away.

use crate::error::{Error, INVALID_MOVE_MESSAGE};
use crate::move_struct::{lemma_jump_geometry, Move};
use crate::position::{Position, SIDE};
use vstd::prelude::*;
use vstd::std_specs::cmp::PartialEqSpecImpl;

verus! {

/// State of one cell of the grid.
#[derive(Copy, Clone, Debug, PartialEq, Eq, Structural)]
pub enum Space {
    /// A cell of the playing area without a peg.
    Empty,
    /// A cell of the playing area that holds a peg.
    Occupied,
    /// A cell outside the playing area.
    NotPartOfBoard,
}

/// The mathematical model of a board: its rows from top to bottom, each a
/// sequence of cells from left to right.
pub type Grid = Seq<Seq<Space>>;

/// The grid has seven rows of seven cells.
pub open spec fn grid_wf(g: Grid) -> bool {
    &&& g.len() == SIDE
    &&& forall|y: int| 0 <= y < SIDE ==> (#[trigger] g[y]).len() == SIDE
}

/// The state of the cell at `p`.
pub open spec fn cell(g: Grid, p: Position) -> Space {
    g[p.y as int][p.x as int]
}

/// The grid `g` with the cell at `p` set to `s`.
pub open spec fn with_cell(g: Grid, p: Position, s: Space) -> Grid {
    g.update(p.y as int, g[p.y as int].update(p.x as int, s))
}

/// The cell lies in one of the four 2x2 corners of the grid.
pub open spec fn in_corner(p: Position) -> bool {
    &&& p.on_board()
    &&& p.x < 2 || p.x > 4
    &&& p.y < 2 || p.y > 4
}

/// The state of the cell at `p` on the starting board: the corners are
/// outside the playing area, the centre is empty, every other cell holds a
/// peg.
pub open spec fn start_cell(p: Position) -> Space {
    if in_corner(p) {
        Space::NotPartOfBoard
    } else if p.x == 3 && p.y == 3 {
        Space::Empty
    } else {
        Space::Occupied
    }
}

/// The starting board.
pub open spec fn start_grid() -> Grid {
    Seq::new(
        SIDE as nat,
        |y: int| Seq::new(SIDE as nat, |x: int| start_cell(Position { x: x as usize, y: y as usize })),
    )
}

/// The two grids have the same playing area: a cell is outside it on one
/// exactly if it is outside it on the other.
pub open spec fn same_shape(g: Grid, h: Grid) -> bool {
    forall|q: Position|
        q.on_board() ==> (cell(g, q) == Space::NotPartOfBoard <==> cell(h, q)
            == Space::NotPartOfBoard)
}

/// The playing area of the grid is the cross: exactly the cells of the four
/// corners are outside it.
pub open spec fn cross_shaped(g: Grid) -> bool {
    forall|q: Position| q.on_board() ==> (cell(g, q) == Space::NotPartOfBoard <==> in_corner(q))
}

/// The position of the `i`-th cell in row-major order.
pub open spec fn nth_position(i: int) -> Position {
    Position { x: (i % SIDE as int) as usize, y: (i / SIDE as int) as usize }
}

/// All 49 positions of the grid, row by row.
pub open spec fn all_positions() -> Seq<Position> {
    Seq::new((SIDE * SIDE) as nat, |i: int| nth_position(i))
}

/// The test whether a peg stands at a position of `g`.
pub open spec fn holds_peg(g: Grid) -> spec_fn(Position) -> bool {
    |p: Position| cell(g, p) == Space::Occupied
}

/// The positions that hold a peg, in row-major order.
pub open spec fn pegs(g: Grid) -> Seq<Position> {
    all_positions().filter(holds_peg(g))
}

/// The number of pegs on the grid.
pub open spec fn peg_count(g: Grid) -> nat {
    pegs(g).len()
}

/// The cells allow the jump `m`: a peg stands on the first cell and on the
/// cell in the middle, and the landing cell is empty.
pub open spec fn cells_ready(g: Grid, m: Move) -> bool {
    &&& cell(g, m.from) == Space::Occupied
    &&& cell(g, m.to) == Space::Empty
    &&& cell(g, m.middle()) == Space::Occupied
}

/// The move `m` is a legal jump on `g`.
pub open spec fn legal(g: Grid, m: Move) -> bool {
    m.on_board() && m.is_jump() && cells_ready(g, m)
}

/// The grid after the jump `m`: the peg has left its cell and stands on the
/// landing cell, and the peg in the middle is gone.
pub open spec fn jump(g: Grid, m: Move) -> Grid {
    with_cell(
        with_cell(with_cell(g, m.from, Space::Empty), m.to, Space::Occupied),
        m.middle(),
        Space::Empty,
    )
}

/// The grid that an array of rows stands for.
pub open spec fn array_grid(rows: [[Space; 7]; 7]) -> Grid {
    Seq::new(SIDE as nat, |y: int| Seq::new(SIDE as nat, |x: int| rows[y][x]))
}

/// What `Board::valid_move` answers on the board `b` for a move `m` with both
/// ends on the grid: the cell that the jump passes over, or the first of the
/// three checks that `m` fails.
pub open spec fn validation(b: Board, m: Move) -> Result<Position, Error<'static>> {
    if !m.aligned() {
        Err(Error::UnalinedMove(INVALID_MOVE_MESSAGE, b, m))
    } else if m.distance() != 2 {
        Err(Error::DistanceNot2Move(INVALID_MOVE_MESSAGE, b, m))
    } else if !cells_ready(b@, m) {
        Err(Error::SpacesInvolvedNotCorrect(INVALID_MOVE_MESSAGE, b, m))
    } else {
        Ok(m.middle())
    }
}

/// Board is a 7x7 matrix; some of its cells are not used.
///
/// Two boards are equal if each cell has the same state on both.
#[derive(Debug)]
pub struct Board {
    board: [[Space; 7]; 7],
}

impl View for Board {
    type V = Grid;

    closed spec fn view(&self) -> Grid {
        array_grid(self.board)
    }
}

impl PartialEq for Board {
    fn eq(&self, other: &Board) -> (same: bool) {
        let mut y: usize = 0;
        while y < 7
            invariant
                y <= 7,
                forall|r: int, c: int| 0 <= r < y && 0 <= c < 7 ==> self@[r][c] == other@[r][c],
            decreases 7 - y,
        {
            let mut x: usize = 0;
            while x < 7
                invariant
                    y < 7,
                    x <= 7,
                    forall|r: int, c: int| 0 <= r < y && 0 <= c < 7 ==> self@[r][c] == other@[r][c],
                    forall|c: int| 0 <= c < x ==> self@[y as int][c] == other@[y as int][c],
                decreases 7 - x,
            {
                if self.board[y][x] != other.board[y][x] {
                    assert(self@[y as int][x as int] != other@[y as int][x as int]);
                    return false;
                }
                x += 1;
            }
            y += 1;
        }
        assert(self@ =~~= other@);
        true
    }
}

impl PartialEqSpecImpl for Board {
    open spec fn obeys_eq_spec() -> bool {
        true
    }

    open spec fn eq_spec(&self, other: &Board) -> bool {
        self@ == other@
    }
}

impl Clone for Board {
    fn clone(&self) -> (copy: Board)
        ensures
            copy == *self,
    {
        Board { board: self.board }
    }
}

impl Board {
    /// The view of a board has seven rows of seven cells.
    pub proof fn lemma_view_wf(self)
        ensures
            grid_wf(self@),
    {
    }

    /// A board is determined by its view.
    pub proof fn lemma_view_injective(self, other: Board)
        requires
            self@ == other@,
        ensures
            self == other,
    {
        assert forall|y: int| 0 <= y < 7 implies self.board[y] == other.board[y] by {
            assert forall|x: int| 0 <= x < 7 implies self.board[y][x] == other.board[y][x] by {
                assert(self@[y][x] == self.board[y][x]);
                assert(other@[y][x] == other.board[y][x]);
            }
            assert(self.board[y] =~= other.board[y]);
        }
        assert(self.board =~= other.board);
    }

    /// The state of the cell at `pos`.
    pub fn at(&self, pos: Position) -> (state: Space)
        requires
            pos.on_board(),
        ensures
            state == cell(self@, pos),
    {
        self.board[pos.y][pos.x]
    }

    /// Sets the cell at `pos` to `val` and leaves every other cell as it is.
    pub(crate) fn set(&mut self, pos: Position, val: Space)
        requires
            pos.on_board(),
        ensures
            final(self)@ == with_cell(old(self)@, pos, val),
    {
        self.board[pos.y][pos.x] = val;
        proof {
            let before = old(self)@;
            let after = self@;
            assert forall|y: int, x: int| 0 <= y < 7 && 0 <= x < 7 implies #[trigger] after[y][x]
                == with_cell(before, pos, val)[y][x] by {
                assert(after[y][x] == self.board[y][x]);
                assert(before[y][x] == old(self).board[y][x]);
            }
            assert(after =~~= with_cell(before, pos, val));
        }
    }
}

/// The absolute value of one coordinate of a delta.
fn magnitude(d: i32) -> (m: i32)
    requires
        d > i32::MIN,
    ensures
        m == vstd::math::abs(d as int),
{
    if d < 0 {
        -d
    } else {
        d
    }
}

/*
 * Board Game methods
 *
 */
impl Board {
    /// Jumps the peg at `from` to `to`, on a copy of the board: the board
    /// itself stays as it is.
    ///
    /// The answer is the board after the jump where the move is legal, and
    /// else the first check that the move fails.
    pub fn move_piece(&self, from: Position, to: Position) -> (r: Result<Board, Error>)
        requires
            from.on_board(),
            to.on_board(),
        ensures
            r is Ok <==> legal(self@, Move { from, to }),
            (match r {
                Ok(after) => {
                    &&& after@ == jump(self@, Move { from, to })
                    &&& same_shape(self@, after@)
                    &&& cell(after@, from) == Space::Empty
                    &&& cell(after@, to) == Space::Occupied
                    &&& cell(after@, (Move { from, to }).middle()) == Space::Empty
                    &&& peg_count(after@) == peg_count(self@) - 1
                },
                Err(e) => Err::<Position, Error>(e) == validation(*self, Move { from, to }),
            }),
    {
        let middle = match self.valid_move(Move { from, to }) {
            Ok(middle) => middle,
            Err(e) => {
                return Err(e);
            },
        };
        let mut new_board = self.clone();
        new_board.set(from, Space::Empty);
        new_board.set(to, Space::Occupied);
        new_board.set(middle, Space::Empty);
        proof {
            self.lemma_view_wf();
            lemma_jump_geometry(Move { from, to });
            lemma_jump_keeps_shape(self@, Move { from, to });
            lemma_jump_removes_one_peg(self@, Move { from, to });
        }
        Ok(new_board)
    }

    /// Checks the move, first its geometry, then the cells it touches, and
    /// returns the position it passes over if it is legal.
    pub fn valid_move(&self, movement: Move) -> (r: Result<Position, Error>)
        requires
            movement.on_board(),
        ensures
            r == validation(*self, movement),
            r is Ok <==> legal(self@, movement),
    {
        let (to, from) = (movement.to, movement.from);
        let diff = to - from;
        if diff.0 != 0 && diff.1 != 0 {
            return Err(Error::UnalinedMove(INVALID_MOVE_MESSAGE, self.clone(), movement));
        }
        if magnitude(diff.0) + magnitude(diff.1) != 2 {
            return Err(Error::DistanceNot2Move(INVALID_MOVE_MESSAGE, self.clone(), movement));
        }
        let middle: Position = from + (diff.0 / 2, diff.1 / 2);
        assert(middle == movement.middle());
        if self.at(from) != Space::Occupied || self.at(to) != Space::Empty || self.at(middle)
            != Space::Occupied {
            return Err(
                Error::SpacesInvolvedNotCorrect(INVALID_MOVE_MESSAGE, self.clone(), movement),
            );
        }
        Ok(middle)
    }
}

/*
 * Board constructors
 * they are all static methods
 */
impl Board {
    /// The starting board: a peg on every cell of the cross but the centre.
    pub fn new() -> (b: Board)
        ensures
            b@ == start_grid(),
            cross_shaped(b@),
            peg_count(b@) == 32,
    {
        let x = Space::NotPartOfBoard;
        let o = Space::Occupied;
        let b = Board {
            board: [
                [x, x, o, o, o, x, x],
                [x, x, o, o, o, x, x],
                [o, o, o, o, o, o, o],
                [o, o, o, Space::Empty, o, o, o],
                [o, o, o, o, o, o, o],
                [x, x, o, o, o, x, x],
                [x, x, o, o, o, x, x],
            ],
        };
        assert(b@ =~~= start_grid());
        proof {
            lemma_start_grid();
        }
        b
    }

    /// The board whose rows, from top to bottom, are those of `board`.
    pub fn from_array(board: [[Space; 7]; 7]) -> (b: Board)
        ensures
            b@ == array_grid(board),
    {
        Board { board }
    }
}

/// The number of cells among the first `n` in row-major order on which the
/// starting board has a peg.
spec fn start_pegs_before(n: int) -> int
    decreases n,
{
    if n <= 0 {
        0
    } else {
        start_pegs_before(n - 1) + if start_cell(nth_position(n - 1)) == Space::Occupied {
            1int
        } else {
            0int
        }
    }
}

/// The pegs of the starting board among the first `n` cells are as many as
/// `start_pegs_before` counts.
proof fn lemma_start_pegs_before(n: int)
    requires
        0 <= n <= 49,
    ensures
        all_positions().take(n).filter(holds_peg(start_grid())).len() == start_pegs_before(n),
    decreases n,
{
    let all = all_positions();
    if n == 0 {
        assert(all.take(0).len() == 0);
        reveal(Seq::filter);
    } else {
        lemma_start_pegs_before(n - 1);
        let q = all[n - 1];
        assert(q == nth_position(n - 1));
        assert(all.take(n) =~= all.take(n - 1).push(q));
        all.take(n - 1).lemma_filter_len_push(holds_peg(start_grid()), q);
        assert(cell(start_grid(), q) == start_cell(q));
    }
}

/// The starting board is a grid with the cross as its playing area, and it
/// holds 32 pegs: one on each of the 33 cells of the cross but the centre.
pub proof fn lemma_start_grid()
    ensures
        grid_wf(start_grid()),
        cross_shaped(start_grid()),
        peg_count(start_grid()) == 32,
{
    lemma_start_pegs_before(49);
    assert(all_positions().take(49) =~= all_positions());
    assert(start_pegs_before(49) == 32) by {
        reveal_with_fuel(start_pegs_before, 50);
    }
}

/// A move that passes validation is a legal jump, so it can be played: the
/// board after it has the cell it started from and the cell it passed over
/// empty, a peg on the cell it landed on, and one peg less than before.
pub proof fn lemma_validated_move_applies(b: Board, m: Move)
    requires
        m.on_board(),
        validation(b, m) is Ok,
    ensures
        validation(b, m) == Ok::<Position, Error>(m.middle()),
        legal(b@, m),
        cell(jump(b@, m), m.from) == Space::Empty,
        cell(jump(b@, m), m.to) == Space::Occupied,
        cell(jump(b@, m), m.middle()) == Space::Empty,
        peg_count(jump(b@, m)) == peg_count(b@) - 1,
{
    b.lemma_view_wf();
    lemma_jump_cells(b@, m);
    lemma_jump_removes_one_peg(b@, m);
}

/// A move whose ends share neither a row nor a column is refused as
/// unaligned, whatever the cells of the board hold.
pub proof fn lemma_diagonal_is_unaligned(b: Board, m: Move)
    requires
        m.from.x != m.to.x,
        m.from.y != m.to.y,
    ensures
        validation(b, m) == Err::<Position, Error>(
            Error::UnalinedMove(INVALID_MOVE_MESSAGE, b, m),
        ),
{
}

/// Setting one cell changes the number of pegs by what the cell loses and
/// what it gains.
pub proof fn lemma_peg_count_with_cell(g: Grid, p: Position, s: Space)
    requires
        grid_wf(g),
        p.on_board(),
    ensures
        peg_count(with_cell(g, p, s)) == peg_count(g) - (if cell(g, p) == Space::Occupied {
            1int
        } else {
            0int
        }) + (if s == Space::Occupied {
            1int
        } else {
            0int
        }),
{
    lemma_prefix_count_with_cell(g, p, s, 49);
    assert(all_positions().take(49) =~= all_positions());
}

/// The statement of `lemma_peg_count_with_cell` for the first `n` cells in
/// row-major order.
proof fn lemma_prefix_count_with_cell(g: Grid, p: Position, s: Space, n: int)
    requires
        grid_wf(g),
        p.on_board(),
        0 <= n <= 49,
    ensures
        all_positions().take(n).filter(holds_peg(with_cell(g, p, s))).len() == all_positions().take(
            n,
        ).filter(holds_peg(g)).len() + (if p.y * 7 + p.x < n {
            (if s == Space::Occupied {
                1int
            } else {
                0int
            }) - (if cell(g, p) == Space::Occupied {
                1int
            } else {
                0int
            })
        } else {
            0int
        }),
    decreases n,
{
    let all = all_positions();
    let changed = with_cell(g, p, s);
    if n == 0 {
        assert(all.take(0).len() == 0);
        reveal(Seq::filter);
    } else {
        lemma_prefix_count_with_cell(g, p, s, n - 1);
        let q = all[n - 1];
        assert(all.take(n) =~= all.take(n - 1).push(q));
        all.take(n - 1).lemma_filter_len_push(holds_peg(g), q);
        all.take(n - 1).lemma_filter_len_push(holds_peg(changed), q);
        assert(q == nth_position(n - 1));
        if q == p {
            assert(cell(changed, q) == s);
        } else {
            assert(cell(changed, q) == cell(g, q));
        }
    }
}

/// Setting a cell of the grid gives a grid, with that cell changed and every
/// other cell as it was.
pub proof fn lemma_with_cell(g: Grid, p: Position, s: Space)
    requires
        grid_wf(g),
        p.on_board(),
    ensures
        grid_wf(with_cell(g, p, s)),
        cell(with_cell(g, p, s), p) == s,
        forall|q: Position| q.on_board() && q != p ==> cell(with_cell(g, p, s), q) == cell(g, q),
{
}

/// A jump on a grid gives a grid. It empties the cell it starts from and the
/// cell it passes over, fills the cell it lands on, and leaves every other
/// cell as it was.
pub proof fn lemma_jump_cells(g: Grid, m: Move)
    requires
        grid_wf(g),
        m.on_board(),
        m.is_jump(),
    ensures
        grid_wf(jump(g, m)),
        cell(jump(g, m), m.from) == Space::Empty,
        cell(jump(g, m), m.to) == Space::Occupied,
        cell(jump(g, m), m.middle()) == Space::Empty,
        forall|q: Position|
            q.on_board() && q != m.from && q != m.to && q != m.middle() ==> cell(jump(g, m), q)
                == cell(g, q),
{
    lemma_jump_geometry(m);
}

/// A legal jump leaves the playing area as it is: the cells outside it stay
/// outside, and no other cell leaves it.
pub proof fn lemma_jump_keeps_shape(g: Grid, m: Move)
    requires
        grid_wf(g),
        legal(g, m),
    ensures
        same_shape(g, jump(g, m)),
        cross_shaped(g) ==> cross_shaped(jump(g, m)),
{
    lemma_jump_cells(g, m);
}

/// A legal jump takes exactly one peg off the board: the peg that moves
/// leaves one cell and fills another, and the peg it passes over is removed.
pub proof fn lemma_jump_removes_one_peg(g: Grid, m: Move)
    requires
        grid_wf(g),
        legal(g, m),
    ensures
        peg_count(jump(g, m)) == peg_count(g) - 1,
{
    lemma_jump_geometry(m);
    let g1 = with_cell(g, m.from, Space::Empty);
    let g2 = with_cell(g1, m.to, Space::Occupied);
    lemma_peg_count_with_cell(g, m.from, Space::Empty);
    lemma_peg_count_with_cell(g1, m.to, Space::Occupied);
    lemma_peg_count_with_cell(g2, m.middle(), Space::Empty);
}

} // verus!
