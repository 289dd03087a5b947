//! The single steps a piece can take on a board: a shift to the side, a quarter turn
//! with its kicks, and the drop to the row where it comes to rest.

use vstd::prelude::*;
use crate::board::{in_grid, one_if, Board};
use crate::geometry::{as_offsets, Orientation, Piece, Rotation};
use crate::moves::{Location, Move, Spin};

verus! {

impl Location {
    /// The pose moved to column `x`.
    pub open spec fn at_column(self, x: int) -> Location
        recommends
            i8::MIN <= x <= i8::MAX,
    {
        Location { x: x as i8, ..self }
    }

    /// Whether the `i`-th kick of a turn leads to coordinates in the range of `i8`.
    pub open spec fn kick_representable(self, rotation: Rotation, i: int) -> bool {
        let kick = self.piece.kicks(self.orientation, rotation)[i];
        &&& i8::MIN <= self.x + kick.0 <= i8::MAX
        &&& i8::MIN <= self.y + kick.1 <= i8::MAX
    }

    /// The pose after a quarter turn moved by the `i`-th kick of its table.
    pub open spec fn kicked(self, rotation: Rotation, i: int) -> Location
        recommends
            self.kick_representable(rotation, i),
    {
        let kick = self.piece.kicks(self.orientation, rotation)[i];
        Location {
            orientation: self.orientation.turned(rotation),
            y: (self.y + kick.1) as i8,
            x: (self.x + kick.0) as i8,
            piece: self.piece,
        }
    }
}

impl Board {
    /// A pose whose reference cell lies outside the grid collides.
    pub proof fn lemma_outside_collides(self, location: Location)
        requires
            !in_grid(location.x as int, location.y as int),
        ensures
            self.collides(location),
    {
        location.piece.lemma_offsets_shape(location.orientation);
        assert(self.blocked(location.cell(0).0, location.cell(0).1));
    }

    /// A pose that does not collide lies in the grid with all its cells, none of them
    /// filled.
    pub proof fn lemma_free_in_grid(self, location: Location)
        requires
            !self.collides(location),
        ensures
            in_grid(location.x as int, location.y as int),
            location.fits_grid(),
    {
        if !in_grid(location.x as int, location.y as int) {
            self.lemma_outside_collides(location);
        }
        assert forall|i: int| 0 <= i < 4 implies in_grid(
            #[trigger] location.cell(i).0,
            location.cell(i).1,
        ) by {
            assert(!self.blocked(location.cell(i).0, location.cell(i).1));
        }
    }

    /// The row at which the pose comes to rest when it falls straight down: the row
    /// above the first one, from its own downwards, at which it collides.
    pub open spec fn drop_row(self, location: Location) -> int
        decreases location.y + 129,
    {
        if location.y < 0 || self.collides(location) {
            location.y + 1
        } else {
            self.drop_row(location.at_row(location.y - 1))
        }
    }

    /// A pose that does not collide falls through free rows only, and rests on a row
    /// below which it would collide.
    pub proof fn lemma_drop_row(self, location: Location)
        requires
            !self.collides(location),
        ensures
            0 <= self.drop_row(location) <= location.y,
            forall|row: int|
                self.drop_row(location) <= row <= location.y ==> !self.collides(
                    #[trigger] location.at_row(row),
                ),
            self.collides(location.at_row(self.drop_row(location) - 1)),
        decreases location.y + 129,
    {
        self.lemma_free_in_grid(location);
        let below = location.at_row(location.y - 1);
        assert(location.at_row(location.y as int) == location);
        if location.y - 1 < 0 || self.collides(below) {
            if location.y - 1 < 0 {
                self.lemma_outside_collides(below);
            }
            assert(self.drop_row(below) == location.y);
            assert forall|row: int|
                self.drop_row(location) <= row <= location.y implies !self.collides(
                #[trigger] location.at_row(row),
            ) by {
                assert(row == location.y);
            }
        } else {
            self.lemma_drop_row(below);
            assert forall|row: int|
                self.drop_row(location) <= row <= location.y implies !self.collides(
                #[trigger] location.at_row(row),
            ) by {
                if row < location.y {
                    assert(below.at_row(row) == location.at_row(row));
                }
            }
            assert(below.at_row(self.drop_row(below) - 1) == location.at_row(
                self.drop_row(location) - 1,
            ));
        }
    }

    /// The placement that a pose stands for: the pose at the row where it comes to
    /// rest. It keeps its spin only if it rests where it is.
    pub open spec fn placement(self, m: Move) -> Move {
        let row = self.drop_row(m.location);
        Move {
            spin: if row == m.location.y {
                m.spin
            } else {
                Spin::NoSpin
            },
            location: m.location.at_row(row),
        }
    }

    /// The pose moved `offset` columns to the right, if it does not collide there.
    pub open spec fn shifted(self, location: Location, offset: int) -> Option<Move> {
        let target = location.at_column(location.x + offset);
        if i8::MIN <= location.x + offset <= i8::MAX && !self.collides(target) {
            Some(Move { spin: Spin::NoSpin, location: target })
        } else {
            None
        }
    }

    /// Whether the `i`-th kick of a turn leads to a pose that does not collide.
    pub open spec fn kick_fits(self, location: Location, rotation: Rotation, i: int) -> bool {
        location.kick_representable(rotation, i) && !self.collides(location.kicked(rotation, i))
    }

    /// The first of the five kicks that fits, or 5 if none does.
    pub open spec fn first_fit(self, location: Location, rotation: Rotation) -> int {
        if self.kick_fits(location, rotation, 0) {
            0
        } else if self.kick_fits(location, rotation, 1) {
            1
        } else if self.kick_fits(location, rotation, 2) {
            2
        } else if self.kick_fits(location, rotation, 3) {
            3
        } else if self.kick_fits(location, rotation, 4) {
            4
        } else {
            5
        }
    }

    /// How many of the four diagonal neighbours of the reference cell are blocked.
    pub open spec fn corners_blocked(self, location: Location) -> int {
        let x = location.x as int;
        let y = location.y as int;
        one_if(self.blocked(x + 1, y + 1)) + one_if(self.blocked(x - 1, y + 1)) + one_if(
            self.blocked(x + 1, y - 1),
        ) + one_if(self.blocked(x - 1, y - 1))
    }

    /// How many of the two diagonal neighbours on the side that the orientation names
    /// are blocked.
    pub open spec fn facing_corners_blocked(self, location: Location) -> int {
        let x = location.x as int;
        let y = location.y as int;
        match location.orientation {
            Orientation::North => one_if(self.blocked(x - 1, y + 1)) + one_if(
                self.blocked(x + 1, y + 1),
            ),
            Orientation::East => one_if(self.blocked(x + 1, y + 1)) + one_if(
                self.blocked(x + 1, y - 1),
            ),
            Orientation::South => one_if(self.blocked(x + 1, y - 1)) + one_if(
                self.blocked(x - 1, y - 1),
            ),
            Orientation::West => one_if(self.blocked(x - 1, y - 1)) + one_if(
                self.blocked(x - 1, y + 1),
            ),
        }
    }

    /// The spin that a turn into `location` earns. Only the `T` piece earns one, and
    /// only with three of its corners blocked: a full one if both facing corners are
    /// blocked or the turn took the last kick of its table, a mini one otherwise.
    pub open spec fn spin_of(self, location: Location, last_kick: bool) -> Spin {
        if location.piece == Piece::T && self.corners_blocked(location) >= 3 {
            if self.facing_corners_blocked(location) == 2 || last_kick {
                Spin::Full
            } else {
                Spin::Mini
            }
        } else {
            Spin::NoSpin
        }
    }

    /// The pose after a quarter turn: moved by the first kick that fits, with the spin
    /// that the turn earns; nothing if no kick fits.
    pub open spec fn rotated(self, location: Location, rotation: Rotation) -> Option<Move> {
        let i = self.first_fit(location, rotation);
        if i < 5 {
            Some(
                Move {
                    spin: self.spin_of(location.kicked(rotation, i), i == 4),
                    location: location.kicked(rotation, i),
                },
            )
        } else {
            None
        }
    }

    /// The pose dropped to the row where it comes to rest, if that is another row and
    /// the pose does not collide there.
    pub open spec fn dropped(self, location: Location) -> Option<Move> {
        let row = self.drop_row(location);
        if row != location.y && row <= i8::MAX && !self.collides(location.at_row(row)) {
            Some(Move { spin: Spin::NoSpin, location: location.at_row(row) })
        } else {
            None
        }
    }

    /// Whether the cell one step diagonally from `(x, y)` is blocked.
    fn blocked_beside(&self, x: i8, y: i8, dx: i8, dy: i8) -> (r: bool)
        requires
            -1 <= dx <= 1,
            -1 <= dy <= 1,
        ensures
            r == self.blocked(x + dx, y + dy),
    {
        let cx: i16 = x as i16 + dx as i16;
        let cy: i16 = y as i16 + dy as i16;
        if cx < 0 || cx >= 10 || cy < 0 || cy >= 40 {
            return true;
        }
        self.occupied(cx as i8, cy as i8)
    }

    /// The spin that a turn into `location` earns; `last_kick` says whether the turn
    /// took the last kick of its table.
    pub fn classify_spin(&self, location: &Location, last_kick: bool) -> (r: Spin)
        ensures
            r == self.spin_of(*location, last_kick),
    {
        if location.piece != Piece::T {
            return Spin::NoSpin;
        }
        let x: i8 = location.x;
        let y: i8 = location.y;
        let up_right: bool = self.blocked_beside(x, y, 1, 1);
        let up_left: bool = self.blocked_beside(x, y, -1, 1);
        let down_right: bool = self.blocked_beside(x, y, 1, -1);
        let down_left: bool = self.blocked_beside(x, y, -1, -1);
        let mut corners: u8 = 0;
        if up_right {
            corners += 1;
        }
        if up_left {
            corners += 1;
        }
        if down_right {
            corners += 1;
        }
        if down_left {
            corners += 1;
        }
        if corners < 3 {
            return Spin::NoSpin;
        }
        let facing: bool = match location.orientation {
            Orientation::North => up_left && up_right,
            Orientation::East => up_right && down_right,
            Orientation::South => down_right && down_left,
            Orientation::West => down_left && up_left,
        };
        if facing || last_kick {
            Spin::Full
        } else {
            Spin::Mini
        }
    }
}

impl Location {
    /// The row at which the pose comes to rest when it falls straight down.
    #[inline]
    pub fn drop_y(&self, board: &Board) -> (y: i8)
        requires
            self.piece.placeable(),
            self.y < i8::MAX,
        ensures
            y == board.drop_row(*self),
    {
        let mut y: i8 = self.y;
        let mut stopped: bool = board.collision(self);
        assert(self.at_row(y as int) == *self);
        while !stopped
            invariant
                self.piece.placeable(),
                y <= self.y,
                stopped == board.collides(self.at_row(y as int)),
                board.drop_row(*self) == board.drop_row(self.at_row(y as int)),
            decreases y + 129,
        {
            proof {
                board.lemma_free_in_grid(self.at_row(y as int));
                assert(self.at_row(y as int).at_row(y - 1) == self.at_row(y - 1));
            }
            y -= 1;
            stopped = board.collision(&Location { y, ..*self });
        }
        y + 1
    }

    /// The pose moved `offset` columns to the right, if it does not collide there.
    #[inline]
    pub fn shift(&self, board: &Board, offset: i8) -> (r: Option<Move>)
        requires
            self.piece.placeable(),
        ensures
            r == board.shifted(*self, offset as int),
    {
        let x: i16 = self.x as i16 + offset as i16;
        if x < 0 || x >= 10 {
            proof {
                if i8::MIN <= x <= i8::MAX {
                    board.lemma_outside_collides(self.at_column(x as int));
                }
            }
            return None;
        }
        let location = Location { x: x as i8, ..*self };
        if board.collision(&location) {
            return None;
        }
        Some(Move { location, spin: Spin::NoSpin })
    }

    /// The pose after a quarter turn. The kicks of the turn are tried in order and the
    /// first that fits is taken; the move carries the spin that the turn earns.
    #[inline]
    pub fn rotate(&self, board: &Board, rotation: Rotation) -> (r: Option<Move>)
        requires
            self.piece.placeable(),
        ensures
            r == board.rotated(*self, rotation),
    {
        proof {
            self.piece.lemma_kicks_shape(self.orientation, rotation);
        }
        if self.x < -2 || self.x > 11 || self.y < -2 || self.y > 41 {
            proof {
                // Wherever a kick leads from here, the reference cell stays outside.
                assert forall|i: int| 0 <= i < 5 implies !board.kick_fits(*self, rotation, i) by {
                    if self.kick_representable(rotation, i) {
                        board.lemma_outside_collides(self.kicked(rotation, i));
                    }
                }
            }
            return None;
        }
        let srs_table = self.piece.srs_table(&self.orientation, rotation);
        let orientation = self.orientation.turn(rotation);
        proof {
            assert forall|i: int| 0 <= i < 5 implies (srs_table[i].0 as int, srs_table[i].1 as int)
                == #[trigger] self.piece.kicks(self.orientation, rotation)[i] by {
                assert(as_offsets(srs_table@)[i] == (srs_table@[i].0 as int, srs_table@[i].1 as int));
            }
        }
        for i in 0..5usize
            invariant
                self.piece.placeable(),
                -2 <= self.x <= 11,
                -2 <= self.y <= 41,
                orientation == self.orientation.turned(rotation),
                forall|k: int|
                    0 <= k < 5 ==> (srs_table[k].0 as int, srs_table[k].1 as int)
                        == #[trigger] self.piece.kicks(self.orientation, rotation)[k],
                forall|k: int|
                    0 <= k < 5 ==> {
                        &&& -2 <= (#[trigger] self.piece.kicks(self.orientation, rotation)[k]).0 <= 2
                        &&& -2 <= self.piece.kicks(self.orientation, rotation)[k].1 <= 2
                    },
                forall|k: int| 0 <= k < i ==> !board.kick_fits(*self, rotation, k),
        {
            let ghost kick = self.piece.kicks(self.orientation, rotation)[i as int];
            assert(kick == (srs_table[i as int].0 as int, srs_table[i as int].1 as int));
            let location = Location {
                x: self.x + srs_table[i].0,
                y: self.y + srs_table[i].1,
                orientation,
                ..*self
            };
            assert(location == self.kicked(rotation, i as int));
            if !board.collision(&location) {
                let spin = board.classify_spin(&location, i == 4);
                assert(board.first_fit(*self, rotation) == i);
                return Some(Move { location, spin });
            }
        }
        None
    }

    /// The pose dropped to the row where it comes to rest, if that is another row and
    /// the pose does not collide there.
    #[inline]
    pub fn soft_drop(&self, board: &Board) -> (r: Option<Move>)
        requires
            self.piece.placeable(),
        ensures
            r == board.dropped(*self),
    {
        if board.collision(self) {
            if self.y >= 39 {
                proof {
                    if self.y + 1 <= i8::MAX {
                        board.lemma_outside_collides(self.at_row(self.y + 1));
                    }
                }
                return None;
            }
            let location = Location { y: self.y + 1, ..*self };
            if board.collision(&location) {
                return None;
            }
            return Some(Move { location, spin: Spin::NoSpin });
        }
        proof {
            board.lemma_free_in_grid(*self);
            board.lemma_drop_row(*self);
        }
        let y: i8 = self.drop_y(board);
        if y == self.y {
            return None;
        }
        Some(Move { location: Location { y, ..*self }, spin: Spin::NoSpin })
    }
}

impl Move {
    /// The placement that the move stands for on the board: its pose at the row where
    /// it comes to rest, with its spin if it rests where it is, and without it else.
    pub fn placed_on(&self, board: &Board) -> (r: Move)
        requires
            self.location.piece.placeable(),
            self.location.y < i8::MAX,
        ensures
            r == board.placement(*self),
    {
        let y: i8 = self.location.drop_y(board);
        let mut spin = Spin::NoSpin;
        if y == self.location.y {
            spin = self.spin;
        }
        Move { location: Location { y, ..self.location }, spin }
    }
}

} // verus!
