//! Placing a piece: its cells are locked, the rows they complete are cleared, and hold
//! and queue move on.

use vstd::prelude::*;
use crate::board::{in_grid, one_if, Board};
use crate::geometry::Piece;
use crate::moves::{Location, Move};

verus! {

/// The marker that locked cells get.
pub const LOCKED: char = 'T';

impl Location {
    /// Whether one of the four cells of the pose lies in row `y`.
    pub open spec fn touches_row(self, y: int) -> bool {
        self.cell(0).1 == y || self.cell(1).1 == y || self.cell(2).1 == y || self.cell(3).1 == y
    }
}

/// Whether every cell of row `y` of the grid is filled.
pub open spec fn row_filled(grid: [[Option<char>; 10]; 40], y: int) -> bool {
    forall|x: int| 0 <= x < 10 ==> (#[trigger] grid[y][x]) is Some
}

impl Board {
    /// Whether the move can be placed: its piece is one of the seven shapes, its four
    /// cells lie in the grid, and the queue holds a piece.
    pub open spec fn accepts(self, mv: Move) -> bool {
        &&& mv.location.piece.placeable()
        &&& mv.location.fits_grid()
        &&& self.queue@.len() > 0
    }

    /// The marker in the cell `(x, y)` once the cells of the move are locked.
    pub open spec fn locked_marker(self, mv: Move, x: int, y: int) -> Option<char> {
        if mv.location.covers(x, y) {
            Some(LOCKED)
        } else {
            self.board[y][x]
        }
    }

    /// Whether the move completes row `y`: one of its cells lies in the row, and with
    /// the cells of the move locked every cell of the row is filled.
    pub open spec fn row_complete(self, mv: Move, y: int) -> bool {
        &&& mv.location.touches_row(y)
        &&& forall|x: int| 0 <= x < 10 ==> (#[trigger] self.locked_marker(mv, x, y)) is Some
    }

    /// How many of the rows below row `y` the move completes.
    pub open spec fn cleared_below(self, mv: Move, y: int) -> int
        decreases y,
    {
        if y <= 0 {
            0
        } else {
            self.cleared_below(mv, y - 1) + one_if(self.row_complete(mv, y - 1))
        }
    }

    /// The held piece after the move. A move of another piece than the front of the
    /// queue played the held piece, and takes the front of the queue into hold.
    pub open spec fn hold_after(self, mv: Move) -> Option<Piece> {
        if mv.location.piece != self.queue@[0] {
            Some(self.queue@[0])
        } else {
            self.hold
        }
    }

    /// The queue after the move. The front of the queue leaves it. Where the move
    /// played another piece and nothing was held, that piece was the second of the
    /// queue and leaves it too, if the queue holds as many.
    pub open spec fn queue_after(self, mv: Move) -> Seq<Piece> {
        if mv.location.piece != self.queue@[0] && self.hold is None && self.queue@.len() >= 2 {
            self.queue@.skip(2)
        } else {
            self.queue@.skip(1)
        }
    }

    /// Whether the grid of `after` is the grid of this board with the move placed.
    ///
    /// The cells of the move are locked. Each row that the move does not complete
    /// sinks by the number of completed rows below it, and as many rows at the top are
    /// left empty.
    pub open spec fn is_settled(self, mv: Move, after: Board) -> bool {
        &&& forall|x: int, y: int|
            in_grid(x, y) && !self.row_complete(mv, y) ==> after.board[y - self.cleared_below(
                mv,
                y,
            )][x] == #[trigger] self.locked_marker(mv, x, y)
        &&& forall|x: int, y: int|
            in_grid(x, y) && y >= 40 - self.cleared_below(mv, 40) ==> (
            #[trigger] after.board[y][x]) is None
    }

    /// Whether `after` is this board with the move placed: the grid is settled, hold
    /// and queue have moved on, combo and back-to-back are as they were.
    pub open spec fn is_played(self, mv: Move, after: Board) -> bool {
        &&& after.combo == self.combo
        &&& after.back_to_back == self.back_to_back
        &&& after.hold == self.hold_after(mv)
        &&& after.queue@ == self.queue_after(mv)
        &&& self.is_settled(mv, after)
    }

    /// Between two rows no more rows are completed than lie between them.
    pub proof fn lemma_cleared_below_grows(self, mv: Move, low: int, high: int)
        requires
            0 <= low <= high,
        ensures
            0 <= self.cleared_below(mv, low) <= self.cleared_below(mv, high),
            self.cleared_below(mv, high) - self.cleared_below(mv, low) <= high - low,
            self.cleared_below(mv, low) <= low,
        decreases high,
    {
        if low < high {
            self.lemma_cleared_below_grows(mv, low, high - 1);
        } else {
            if low > 0 {
                self.lemma_cleared_below_grows(mv, low - 1, low - 1);
            }
        }
    }

    /// Every row of the board after the move, but the empty ones at the top, is a row
    /// that the move did not complete: the row `from` sank to `to`.
    pub proof fn lemma_row_source(self, mv: Move, to: int, below: int) -> (from: int)
        requires
            0 <= below <= 40,
            0 <= to < below - self.cleared_below(mv, below),
        ensures
            0 <= from < below,
            !self.row_complete(mv, from),
            from - self.cleared_below(mv, from) == to,
        decreases below,
    {
        if self.row_complete(mv, below - 1) || to < (below - 1) - self.cleared_below(mv, below - 1) {
            self.lemma_row_source(mv, to, below - 1)
        } else {
            below - 1
        }
    }

    /// A move has one outcome only: two boards that are this board with the move
    /// placed agree in every cell, in hold and queue, combo and back-to-back.
    pub proof fn lemma_played_once(self, mv: Move, first: Board, second: Board)
        requires
            self.accepts(mv),
            self.is_played(mv, first),
            self.is_played(mv, second),
        ensures
            first.hold == second.hold,
            first.queue@ == second.queue@,
            first.combo == second.combo,
            first.back_to_back == second.back_to_back,
            forall|x: int, y: int| in_grid(x, y) ==> first.board[y][x] == second.board[y][x],
    {
        assert forall|x: int, y: int| in_grid(x, y) implies first.board[y][x] == second.board[y][x] by {
            if y >= 40 - self.cleared_below(mv, 40) {
                assert(first.board[y][x] is None);
                assert(second.board[y][x] is None);
            } else {
                let from = self.lemma_row_source(mv, y, 40);
                assert(first.board[y][x] == self.locked_marker(mv, x, from));
                assert(second.board[y][x] == self.locked_marker(mv, x, from));
            }
        }
    }

    /// A row in which the move has a cell is not full afterwards, unless a row that was
    /// full before the move, and that the move did not complete, sinks into its place.
    pub proof fn lemma_touched_row_not_full(self, mv: Move, after: Board, row: int)
        requires
            self.accepts(mv),
            self.is_played(mv, after),
            0 <= row < 40,
            mv.location.touches_row(row),
            forall|from: int|
                0 <= from < 40 && !self.row_complete(mv, from) && from - self.cleared_below(mv, from)
                    == row ==> !row_filled(self.board, from),
        ensures
            !row_filled(after.board, row),
    {
        self.lemma_row_not_full(mv, after, row);
    }

    /// A board without a full row has none after a move.
    pub proof fn lemma_no_full_row_stays(self, mv: Move, after: Board)
        requires
            self.accepts(mv),
            self.is_played(mv, after),
            forall|y: int| 0 <= y < 40 ==> !row_filled(self.board, y),
        ensures
            forall|y: int| 0 <= y < 40 ==> !row_filled(after.board, y),
    {
        assert forall|y: int| 0 <= y < 40 implies !row_filled(after.board, y) by {
            self.lemma_row_not_full(mv, after, y);
        }
    }

    /// A row is not full after the move unless a row that was full before, and that
    /// the move did not complete, sinks into its place.
    proof fn lemma_row_not_full(self, mv: Move, after: Board, row: int)
        requires
            self.accepts(mv),
            self.is_played(mv, after),
            0 <= row < 40,
            forall|from: int|
                0 <= from < 40 && !self.row_complete(mv, from) && from - self.cleared_below(mv, from)
                    == row ==> !row_filled(self.board, from),
        ensures
            !row_filled(after.board, row),
    {
        if row >= 40 - self.cleared_below(mv, 40) {
            assert(after.board[row][0] is None);
        } else {
            let from = self.lemma_row_source(mv, row, 40);
            if row_filled(after.board, row) {
                assert forall|x: int| 0 <= x < 10 implies (#[trigger] self.locked_marker(mv, x, from)) is Some by {
                    assert(after.board[row][x] is Some);
                }
                // The row was full once the move was locked, and the move did not
                // complete it: so the move has no cell in it.
                assert(!mv.location.touches_row(from));
                assert forall|x: int| 0 <= x < 10 implies (#[trigger] self.board[from][x]) is Some by {
                    assert(self.locked_marker(mv, x, from) is Some);
                    assert(!mv.location.covers(x, from));
                }
                assert(row_filled(self.board, from));
            }
        }
    }

    /// Where the move completes one row only, that row goes: the rows below it stay,
    /// the rows above it sink by exactly one, and the top row is left empty.
    pub proof fn lemma_single_row_cleared(self, mv: Move, after: Board, row: int)
        requires
            self.accepts(mv),
            self.is_played(mv, after),
            0 <= row < 40,
            self.row_complete(mv, row),
            forall|y: int| 0 <= y < 40 && y != row ==> !self.row_complete(mv, y),
        ensures
            forall|x: int, y: int|
                in_grid(x, y) && y < row ==> after.board[y][x] == self.locked_marker(mv, x, y),
            forall|x: int, y: int|
                in_grid(x, y) && row <= y < 39 ==> after.board[y][x] == self.locked_marker(mv, x, y + 1),
            forall|x: int| 0 <= x < 10 ==> after.board[39][x] is None,
    {
        assert forall|y: int| 0 <= y <= 40 implies self.cleared_below(mv, y) == if y <= row {
            0int
        } else {
            1int
        } by {
            self.lemma_one_row_count(mv, row, y);
        }
        assert forall|x: int, y: int| in_grid(x, y) && y < row implies after.board[y][x]
            == self.locked_marker(mv, x, y) by {
            assert(self.cleared_below(mv, y) == 0);
        }
        assert forall|x: int, y: int| in_grid(x, y) && row <= y < 39 implies after.board[y][x]
            == self.locked_marker(mv, x, y + 1) by {
            assert(self.cleared_below(mv, y + 1) == 1);
            assert(in_grid(x, y + 1));
        }
        assert forall|x: int| 0 <= x < 10 implies after.board[39][x] is None by {
            assert(self.cleared_below(mv, 40) == 1);
            assert(in_grid(x, 39));
        }
    }

    /// Where the move completes row `row` only, one row is completed below the rows
    /// above it, and none below the others.
    proof fn lemma_one_row_count(self, mv: Move, row: int, y: int)
        requires
            0 <= row < 40,
            0 <= y <= 40,
            self.row_complete(mv, row),
            forall|k: int| 0 <= k < 40 && k != row ==> !self.row_complete(mv, k),
        ensures
            self.cleared_below(mv, y) == if y <= row {
                0int
            } else {
                1int
            },
        decreases y,
    {
        if y > 0 {
            self.lemma_one_row_count(mv, row, y - 1);
        }
    }

    /// Whether the move can be placed.
    pub fn can_place(&self, mv: &Move) -> (r: bool)
        ensures
            r == self.accepts(*mv),
    {
        if mv.location.piece == Piece::G || self.queue.len() == 0 {
            return false;
        }
        if self.collision_with_walls(&mv.location) {
            return false;
        }
        true
    }

    /// Whether one of the cells of the pose lies outside the grid.
    fn collision_with_walls(&self, location: &Location) -> (r: bool)
        requires
            location.piece.placeable(),
        ensures
            r == !location.fits_grid(),
    {
        proof {
            location.piece.lemma_offsets_shape(location.orientation);
        }
        if location.x < 0 || location.x >= 10 || location.y < 0 || location.y >= 40 {
            assert(!in_grid(location.cell(0).0, location.cell(0).1));
            return true;
        }
        let cells = location.cells();
        for i in 0..4usize
            invariant
                forall|k: int|
                    0 <= k < 4 ==> (cells[k].0 as int, cells[k].1 as int) == #[trigger] location.cell(k),
                forall|k: int| 0 <= k < i ==> in_grid(#[trigger] location.cell(k).0, location.cell(k).1),
        {
            let x: i8 = cells[i].0;
            let y: i8 = cells[i].1;
            if x < 0 || x >= 10 || y < 0 || y >= 40 {
                assert(!in_grid(location.cell(i as int).0, location.cell(i as int).1));
                return true;
            }
        }
        false
    }

    /// The board with the move placed.
    pub fn make_move(&self, mv: Move) -> (after: Board)
        requires
            self.accepts(mv),
        ensures
            self.is_played(mv, after),
    {
        let queue = self.queue.clone();
        assert(queue@ =~= self.queue@);
        let mut new_board = Board {
            queue,
            hold: self.hold,
            combo: self.combo,
            back_to_back: self.back_to_back,
            board: self.board,
        };
        proof {
            mv.location.piece.lemma_offsets_shape(mv.location.orientation);
        }
        let piece = mv.location.cells();
        lock_cells(&mut new_board.board, &piece);
        let ghost locked = new_board.board;
        assert forall|x: int, y: int| in_grid(x, y) implies locked[y][x] == #[trigger] self.locked_marker(
            mv,
            x,
            y,
        ) by {
            assert(mv.location.covers(x, y) <==> covered(piece@, 4, x, y));
        }

        // Rows are cleared from the top down, so that a cleared row never moves one
        // that is still to be looked at.
        let mut line: usize = 40;
        while line > 0
            invariant
                line <= 40,
                self.accepts(mv),
                forall|k: int|
                    0 <= k < 4 ==> (piece[k].0 as int, piece[k].1 as int) == #[trigger] mv.location.cell(
                        k,
                    ),
                forall|x: int, y: int|
                    in_grid(x, y) ==> locked[y][x] == #[trigger] self.locked_marker(mv, x, y),
                forall|y: int| 0 <= y < line ==> new_board.board[y] == #[trigger] locked[y],
                forall|x: int, y: int|
                    in_grid(x, y) && y >= line && !self.row_complete(mv, y) ==> new_board.board[y - (
                    self.cleared_below(mv, y) - self.cleared_below(mv, line as int))][x]
                        == #[trigger] self.locked_marker(mv, x, y),
                forall|x: int, y: int|
                    in_grid(x, y) && y >= 40 - (self.cleared_below(mv, 40) - self.cleared_below(
                        mv,
                        line as int,
                    )) ==> (#[trigger] new_board.board[y][x]) is None,
                new_board.queue@ == self.queue@,
                new_board.hold == self.hold,
                new_board.combo == self.combo,
                new_board.back_to_back == self.back_to_back,
            decreases line,
        {
            line -= 1;
            let ghost before = new_board.board;
            proof {
                self.lemma_cleared_below_grows(mv, line as int, 40);
                assert(self.cleared_below(mv, line + 1) == self.cleared_below(mv, line as int) + one_if(
                    self.row_complete(mv, line as int),
                ));
                assert(before[line as int] == locked[line as int]);
                assert(self.row_complete(mv, line as int) <==> (mv.location.touches_row(line as int)
                    && row_filled(before, line as int))) by {
                    if self.row_complete(mv, line as int) {
                        assert forall|x: int| 0 <= x < 10 implies (
                        #[trigger] before[line as int][x]) is Some by {
                            assert(self.locked_marker(mv, x, line as int) is Some);
                        }
                    }
                    if row_filled(before, line as int) {
                        assert forall|x: int| 0 <= x < 10 implies (#[trigger] self.locked_marker(
                            mv,
                            x,
                            line as int,
                        )) is Some by {
                            assert(before[line as int][x] is Some);
                        }
                    }
                }
            }
            if touches(&piece, line) && is_row_filled(&new_board.board, line) {
                remove_row(&mut new_board.board, line);
                proof {
                    let gone = self.cleared_below(mv, line as int);
                    assert forall|x: int, y: int|
                        in_grid(x, y) && y >= line && !self.row_complete(mv, y) implies new_board.board[y
                        - (self.cleared_below(mv, y) - gone)][x] == #[trigger] self.locked_marker(
                        mv,
                        x,
                        y,
                    ) by {
                        self.lemma_cleared_below_grows(mv, line + 1, y);
                        let at = y - (self.cleared_below(mv, y) - (gone + 1));
                        assert(before[at][x] == self.locked_marker(mv, x, y));
                        assert(new_board.board[at - 1] == before[at]);
                    }
                    assert forall|x: int, y: int|
                        in_grid(x, y) && y >= 40 - (self.cleared_below(mv, 40) - gone) implies (
                    #[trigger] new_board.board[y][x]) is None by {
                        if y < 39 {
                            assert(new_board.board[y] == before[y + 1]);
                            assert(before[y + 1][x] is None);
                        }
                    }
                    assert forall|y: int| 0 <= y < line implies new_board.board[y] == #[trigger] locked[y] by {
                        assert(new_board.board[y] == before[y]);
                    }
                }
            } else {
                proof {
                    assert forall|x: int, y: int|
                        in_grid(x, y) && y >= line && !self.row_complete(mv, y) implies new_board.board[y
                        - (self.cleared_below(mv, y) - self.cleared_below(mv, line as int))][x]
                        == #[trigger] self.locked_marker(mv, x, y) by {
                        if y == line {
                            assert(locked[y][x] == self.locked_marker(mv, x, y));
                        }
                    }
                }
            }
        }

        if mv.location.piece != new_board.queue[0] {
            if new_board.hold.is_none() && new_board.queue.len() >= 2 {
                new_board.hold = Some(new_board.queue[0]);
                new_board.queue.remove(0);
            } else {
                new_board.hold = Some(new_board.queue[0]);
            }
        }
        new_board.queue.remove(0);
        proof {
            assert(new_board.queue@ =~= self.queue_after(mv));
        }
        new_board
    }

    /// Places the move on this board.
    pub fn make_move_in_place(&mut self, mv: Move)
        requires
            old(self).accepts(mv),
        ensures
            old(self).is_played(mv, *final(self)),
    {
        let board = self.make_move(mv);
        *self = board;
    }
}

/// Whether one of the first `n` cells is `(x, y)`.
pub open spec fn covered(cells: Seq<(i8, i8)>, n: int, x: int, y: int) -> bool {
    exists|k: int| 0 <= k < n && (#[trigger] cells[k]).0 == x && cells[k].1 == y
}

/// Fills the four cells with the marker of locked cells.
fn lock_cells(grid: &mut [[Option<char>; 10]; 40], cells: &[(i8, i8); 4])
    requires
        forall|k: int| 0 <= k < 4 ==> in_grid(#[trigger] cells[k].0 as int, cells[k].1 as int),
    ensures
        forall|x: int, y: int|
            in_grid(x, y) ==> #[trigger] final(grid)[y][x] == if covered(cells@, 4, x, y) {
                Some(LOCKED)
            } else {
                old(grid)[y][x]
            },
{
    for i in 0..4usize
        invariant
            forall|k: int| 0 <= k < 4 ==> in_grid(#[trigger] cells[k].0 as int, cells[k].1 as int),
            forall|x: int, y: int|
                in_grid(x, y) ==> #[trigger] grid[y][x] == if covered(cells@, i as int, x, y) {
                    Some(LOCKED)
                } else {
                    old(grid)[y][x]
                },
    {
        let ghost before = *grid;
        assert(in_grid(cells[i as int].0 as int, cells[i as int].1 as int));
        let x: usize = cells[i].0 as usize;
        let y: usize = cells[i].1 as usize;
        grid[y][x] = Some(LOCKED);
        proof {
            assert forall|cx: int, cy: int| in_grid(cx, cy) implies #[trigger] grid[cy][cx] == if covered(
                cells@,
                i + 1,
                cx,
                cy,
            ) {
                Some(LOCKED)
            } else {
                old(grid)[cy][cx]
            } by {
                if cx == x && cy == y {
                    assert(cells@[i as int].0 == cx && cells@[i as int].1 == cy);
                } else {
                    assert(grid[cy][cx] == before[cy][cx]);
                    if covered(cells@, i + 1, cx, cy) {
                        let k = choose|k: int|
                            0 <= k < i + 1 && (#[trigger] cells@[k]).0 == cx && cells@[k].1 == cy;
                        assert(k < i);
                    }
                    if covered(cells@, i as int, cx, cy) {
                        let k = choose|k: int|
                            0 <= k < i && (#[trigger] cells@[k]).0 == cx && cells@[k].1 == cy;
                        assert(0 <= k < i + 1);
                    }
                }
            }
        }
    }
}

/// Whether one of the four cells lies in row `y`.
fn touches(cells: &[(i8, i8); 4], y: usize) -> (r: bool)
    requires
        y < 40,
    ensures
        r == (cells[0].1 == y || cells[1].1 == y || cells[2].1 == y || cells[3].1 == y),
{
    let row: i8 = y as i8;
    cells[0].1 == row || cells[1].1 == row || cells[2].1 == row || cells[3].1 == row
}

/// Whether every cell of row `y` is filled.
fn is_row_filled(grid: &[[Option<char>; 10]; 40], y: usize) -> (r: bool)
    requires
        y < 40,
    ensures
        r == row_filled(*grid, y as int),
{
    for x in 0..10usize
        invariant
            y < 40,
            forall|k: int| 0 <= k < x ==> (#[trigger] grid[y as int][k]) is Some,
    {
        if grid[y][x].is_none() {
            return false;
        }
    }
    true
}

/// Takes row `line` out of the grid: the rows above it sink by one, and the top row is
/// left empty.
fn remove_row(grid: &mut [[Option<char>; 10]; 40], line: usize)
    requires
        line < 40,
    ensures
        forall|y: int| 0 <= y < line ==> #[trigger] final(grid)[y] == old(grid)[y],
        forall|y: int| line <= y < 39 ==> #[trigger] final(grid)[y] == old(grid)[y + 1],
        forall|x: int| 0 <= x < 10 ==> (#[trigger] final(grid)[39][x]) is None,
{
    let mut y: usize = line;
    while y < 39
        invariant
            line <= y <= 39,
            forall|k: int| 0 <= k < line ==> #[trigger] grid[k] == old(grid)[k],
            forall|k: int| line <= k < y ==> #[trigger] grid[k] == old(grid)[k + 1],
            forall|k: int| y <= k < 40 ==> #[trigger] grid[k] == old(grid)[k],
        decreases 39 - y,
    {
        grid[y] = grid[y + 1];
        y += 1;
    }
    grid[39] = [None; 10];
}

} // verus!
