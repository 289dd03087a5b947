//! The playing field: a grid of ten columns and forty rows, the held piece and the
//! queue of pieces to come.

use vstd::prelude::*;
use crate::geometry::{as_offsets, Piece};
use crate::moves::Location;
use crate::tbp::TBPBoard;

verus! {

/// The state of a game between two placements.
///
/// `board[y][x]` is the cell in column `x`, counted from the left wall, of row `y`,
/// counted from the floor. A cell that holds a marker is filled; which marker it is
/// plays no part in the rules.
#[derive(Clone)]
pub struct Board {
    /// The piece that is held back, if one is.
    pub hold: Option<Piece>,
    /// The pieces to come, the next one first.
    pub queue: Vec<Piece>,
    /// The count of the running combo.
    pub combo: u32,
    /// Whether a back-to-back is running.
    pub back_to_back: bool,
    /// The grid, row by row from the floor up.
    pub board: [[Option<char>; 10]; 40],
}

/// One if the condition holds, else nothing: for counting.
pub open spec fn one_if(condition: bool) -> int {
    if condition {
        1
    } else {
        0
    }
}

/// Whether `(x, y)` names a cell of the grid.
pub open spec fn in_grid(x: int, y: int) -> bool {
    0 <= x < 10 && 0 <= y < 40
}

impl Location {
    /// The `i`-th of the four cells that the pose covers.
    pub open spec fn cell(self, i: int) -> (int, int) {
        (
            self.x + self.piece.offsets(self.orientation)[i].0,
            self.y + self.piece.offsets(self.orientation)[i].1,
        )
    }

    /// Whether the pose covers the cell `(x, y)`.
    pub open spec fn covers(self, x: int, y: int) -> bool {
        self.cell(0) == (x, y) || self.cell(1) == (x, y) || self.cell(2) == (x, y) || self.cell(3)
            == (x, y)
    }

    /// Whether all four cells of the pose lie in the grid.
    pub open spec fn fits_grid(self) -> bool {
        forall|i: int| 0 <= i < 4 ==> in_grid(#[trigger] self.cell(i).0, self.cell(i).1)
    }

    /// Whether the coordinates of all four cells are in the range of `i8`.
    pub open spec fn cells_representable(self) -> bool {
        forall|i: int|
            0 <= i < 4 ==> {
                &&& i8::MIN <= (#[trigger] self.cell(i)).0 <= i8::MAX
                &&& i8::MIN <= self.cell(i).1 <= i8::MAX
            }
    }

    /// The pose moved to row `y`.
    pub open spec fn at_row(self, y: int) -> Location
        recommends
            i8::MIN <= y <= i8::MAX,
    {
        Location { y: y as i8, ..self }
    }

    /// The four cells that the pose covers.
    #[inline]
    pub fn cells(&self) -> (r: [(i8, i8); 4])
        requires
            self.piece.placeable(),
            self.cells_representable(),
        ensures
            forall|i: int| 0 <= i < 4 ==> (r[i].0 as int, r[i].1 as int) == #[trigger] self.cell(i),
    {
        let c = self.piece.cells(&self.orientation);
        proof {
            self.piece.lemma_offsets_shape(self.orientation);
            assert forall|i: int| 0 <= i < 4 implies (c[i].0 as int, c[i].1 as int)
                == #[trigger] self.piece.offsets(self.orientation)[i] by {
                assert(as_offsets(c@)[i] == (c@[i].0 as int, c@[i].1 as int));
            }
            assert(self.cell(0).0 == self.x + c[0].0);
            assert(self.cell(1).0 == self.x + c[1].0);
            assert(self.cell(2).0 == self.x + c[2].0);
            assert(self.cell(3).0 == self.x + c[3].0);
        }
        [
            (c[0].0 + self.x, c[0].1 + self.y),
            (c[1].0 + self.x, c[1].1 + self.y),
            (c[2].0 + self.x, c[2].1 + self.y),
            (c[3].0 + self.x, c[3].1 + self.y),
        ]
    }
}

impl Board {
    /// Whether the cell `(x, y)` cannot take a piece: it lies outside the grid, which
    /// stands for the walls and the floor, or it is filled.
    pub open spec fn blocked(self, x: int, y: int) -> bool {
        !in_grid(x, y) || self.board[y][x] is Some
    }

    /// Whether one of the four cells of the pose is blocked.
    pub open spec fn collides(self, location: Location) -> bool {
        exists|i: int| 0 <= i < 4 && self.blocked(#[trigger] location.cell(i).0, location.cell(i).1)
    }

    /// Whether the board is the one that the snapshot describes: hold, queue, combo and
    /// back-to-back are those of the snapshot, and each cell of the grid is the cell of
    /// the snapshot at the same place. What the snapshot holds beyond forty rows and
    /// ten columns is left out.
    pub open spec fn is_snapshot_of(self, tbp_board: TBPBoard) -> bool {
        &&& self.hold == tbp_board.hold
        &&& self.queue@ == tbp_board.queue@
        &&& self.combo == tbp_board.combo
        &&& self.back_to_back == tbp_board.back_to_back
        &&& forall|x: int, y: int|
            in_grid(x, y) ==> self.board[y][x] == (#[trigger] tbp_board.board@[y]@[x])
    }

    /// The board that a snapshot of the protocol describes.
    pub fn from_tbp(tbp_board: TBPBoard) -> (r: Board)
        requires
            tbp_board.covers_grid(),
        ensures
            r.is_snapshot_of(tbp_board),
    {
        let mut board: [[Option<char>; 10]; 40] = [[None; 10]; 40];
        for i in 0..40usize
            invariant
                tbp_board.covers_grid(),
                forall|x: int, y: int|
                    0 <= y < i && 0 <= x < 10 ==> board[y][x] == (#[trigger] tbp_board.board@[y]@[x]),
        {
            for j in 0..10usize
                invariant
                    i < 40,
                    tbp_board.covers_grid(),
                    forall|x: int, y: int|
                        0 <= y < i && 0 <= x < 10 ==> board[y][x] == (
                        #[trigger] tbp_board.board@[y]@[x]),
                    forall|x: int| 0 <= x < j ==> board[i as int][x] == (#[trigger] tbp_board.board@[i as int]@[x]),
            {
                board[i][j] = tbp_board.board[i][j];
            }
        }
        Board {
            hold: tbp_board.hold,
            queue: tbp_board.queue,
            combo: tbp_board.combo,
            back_to_back: tbp_board.back_to_back,
            board,
        }
    }

    /// The character that stands for the cell `(x, y)` in a picture of the grid: its
    /// marker, or a dot if it is empty.
    pub open spec fn shown(self, x: int, y: int) -> char {
        match self.board[y][x] {
            Some(marker) => marker,
            None => '.',
        }
    }

    /// A picture of the grid: its rows from the top down, each cell as its marker, or
    /// as a dot if it is empty.
    pub fn picture(&self) -> (rows: Vec<Vec<char>>)
        ensures
            rows@.len() == 40,
            forall|i: int| 0 <= i < 40 ==> (#[trigger] rows@[i])@.len() == 10,
            forall|i: int, x: int|
                0 <= i < 40 && 0 <= x < 10 ==> (#[trigger] rows@[i]@[x]) == self.shown(x, 39 - i),
    {
        let mut rows: Vec<Vec<char>> = Vec::new();
        for i in 0..40usize
            invariant
                rows@.len() == i,
                forall|k: int| 0 <= k < i ==> (#[trigger] rows@[k])@.len() == 10,
                forall|k: int, x: int|
                    0 <= k < i && 0 <= x < 10 ==> (#[trigger] rows@[k]@[x]) == self.shown(x, 39 - k),
        {
            let mut row: Vec<char> = Vec::new();
            for j in 0..10usize
                invariant
                    i < 40,
                    row@.len() == j,
                    forall|x: int| 0 <= x < j ==> (#[trigger] row@[x]) == self.shown(x, 39 - i),
            {
                row.push(self.board[39 - i][j].unwrap_or('.'));
            }
            rows.push(row);
        }
        rows
    }

    /// Whether the cell `(x, y)` is blocked: outside the grid, or filled.
    #[inline]
    pub fn occupied(&self, x: i8, y: i8) -> (r: bool)
        ensures
            r == self.blocked(x as int, y as int),
    {
        if x < 0 || x >= 10 || y < 0 || y >= 40 {
            return true;
        }
        self.board[y as usize][x as usize].is_some()
    }

    /// Whether the pose overlaps a wall, the floor or a filled cell.
    #[inline]
    pub fn collision(&self, location: &Location) -> (r: bool)
        requires
            location.piece.placeable(),
        ensures
            r == self.collides(*location),
    {
        proof {
            location.piece.lemma_offsets_shape(location.orientation);
        }
        if location.x < 0 || location.x >= 10 || location.y < 0 || location.y >= 40 {
            // The reference cell is one of the four.
            assert(self.blocked(location.cell(0).0, location.cell(0).1));
            return true;
        }
        let cells = location.cells();
        for i in 0..4usize
            invariant
                forall|k: int| 0 <= k < 4 ==> (cells[k].0 as int, cells[k].1 as int) == #[trigger] location.cell(k),
                forall|k: int| 0 <= k < i ==> !self.blocked(#[trigger] location.cell(k).0, location.cell(k).1),
        {
            if self.occupied(cells[i].0, cells[i].1) {
                assert(self.blocked(location.cell(i as int).0, location.cell(i as int).1));
                return true;
            }
        }
        false
    }
}

} // verus!
