//! Pieces, orientations and the two geometry tables: the cells a piece covers in each
//! orientation, and the offsets tried, in order, when a rotation does not fit in place.

use vstd::prelude::*;

verus! {

/// The seven shapes that can be placed, and `G`, the marker of filler cells, which never is.
#[derive(Clone, Copy, Debug, PartialEq, Eq, PartialOrd, Ord, Hash, Structural)]
pub enum Piece {
    O,
    I,
    T,
    L,
    J,
    S,
    Z,
    G,
}

/// The four rotation states, in clockwise order.
#[derive(Clone, Copy, Debug, PartialEq, Eq, PartialOrd, Ord, Hash, Structural)]
pub enum Orientation {
    North,
    East,
    South,
    West,
}

/// The direction of a quarter turn.
#[derive(Clone, Copy, Debug, PartialEq, Eq, Hash, Structural)]
pub enum Rotation {
    Clockwise,
    AntiClockwise,
}

/// A table of `(dx, dy)` pairs read as mathematical integers.
pub open spec fn as_offsets(table: Seq<(i8, i8)>) -> Seq<(int, int)> {
    table.map_values(|c: (i8, i8)| (c.0 as int, c.1 as int))
}

impl Orientation {
    /// The orientation reached from `self` by one quarter turn.
    pub open spec fn turned(self, rotation: Rotation) -> Orientation {
        match rotation {
            Rotation::Clockwise => match self {
                Orientation::North => Orientation::East,
                Orientation::East => Orientation::South,
                Orientation::South => Orientation::West,
                Orientation::West => Orientation::North,
            },
            Rotation::AntiClockwise => match self {
                Orientation::North => Orientation::West,
                Orientation::East => Orientation::North,
                Orientation::South => Orientation::East,
                Orientation::West => Orientation::South,
            },
        }
    }

    /// Turns by a quarter in the given direction.
    pub fn turn(self, rotation: Rotation) -> (r: Orientation)
        ensures
            r == self.turned(rotation),
    {
        match self {
            Orientation::North => match rotation {
                Rotation::Clockwise => Orientation::East,
                Rotation::AntiClockwise => Orientation::West,
            },
            Orientation::East => match rotation {
                Rotation::Clockwise => Orientation::South,
                Rotation::AntiClockwise => Orientation::North,
            },
            Orientation::South => match rotation {
                Rotation::Clockwise => Orientation::West,
                Rotation::AntiClockwise => Orientation::East,
            },
            Orientation::West => match rotation {
                Rotation::Clockwise => Orientation::North,
                Rotation::AntiClockwise => Orientation::South,
            },
        }
    }
}

impl Orientation {
    /// The four orientations form a cycle: four quarter turns one way lead back, and
    /// so does a quarter turn followed by one the other way.
    pub proof fn lemma_turns_cycle(self)
        ensures
            self.turned(Rotation::Clockwise).turned(Rotation::Clockwise).turned(
                Rotation::Clockwise,
            ).turned(Rotation::Clockwise) == self,
            self.turned(Rotation::AntiClockwise).turned(Rotation::AntiClockwise).turned(
                Rotation::AntiClockwise,
            ).turned(Rotation::AntiClockwise) == self,
            self.turned(Rotation::Clockwise).turned(Rotation::AntiClockwise) == self,
            self.turned(Rotation::AntiClockwise).turned(Rotation::Clockwise) == self,
    {
    }
}

impl Piece {
    /// Whether the piece is one of the seven shapes.
    pub open spec fn placeable(self) -> bool {
        self != Piece::G
    }

    /// The four cells the piece covers, as offsets from its reference cell, which is
    /// always the first of them. Meaningful for placeable pieces only.
    pub open spec fn offsets(self, orientation: Orientation) -> Seq<(int, int)> {
        match self {
            Piece::O => match orientation {
                Orientation::North => seq![(0, 0), (1, 0), (0, 1), (1, 1)],
                Orientation::East => seq![(0, 0), (1, 0), (0, -1), (1, -1)],
                Orientation::South => seq![(0, 0), (-1, 0), (0, -1), (-1, -1)],
                Orientation::West => seq![(0, 0), (-1, 0), (0, 1), (-1, 1)],
            },
            Piece::I => match orientation {
                Orientation::North => seq![(0, 0), (-1, 0), (1, 0), (2, 0)],
                Orientation::East => seq![(0, 0), (0, 1), (0, -1), (0, -2)],
                Orientation::South => seq![(0, 0), (1, 0), (-1, 0), (-2, 0)],
                Orientation::West => seq![(0, 0), (0, -1), (0, 1), (0, 2)],
            },
            Piece::T => match orientation {
                Orientation::North => seq![(0, 0), (1, 0), (0, 1), (-1, 0)],
                Orientation::East => seq![(0, 0), (0, 1), (1, 0), (0, -1)],
                Orientation::South => seq![(0, 0), (1, 0), (0, -1), (-1, 0)],
                Orientation::West => seq![(0, 0), (0, 1), (-1, 0), (0, -1)],
            },
            Piece::L => match orientation {
                Orientation::North => seq![(0, 0), (-1, 0), (1, 0), (1, 1)],
                Orientation::East => seq![(0, 0), (0, 1), (0, -1), (1, -1)],
                Orientation::South => seq![(0, 0), (1, 0), (-1, 0), (-1, -1)],
                Orientation::West => seq![(0, 0), (0, -1), (0, 1), (-1, 1)],
            },
            Piece::J => match orientation {
                Orientation::North => seq![(0, 0), (-1, 0), (1, 0), (-1, 1)],
                Orientation::East => seq![(0, 0), (0, 1), (0, -1), (1, 1)],
                Orientation::South => seq![(0, 0), (1, 0), (-1, 0), (1, -1)],
                Orientation::West => seq![(0, 0), (0, -1), (0, 1), (-1, -1)],
            },
            Piece::S => match orientation {
                Orientation::North => seq![(0, 0), (-1, 0), (0, 1), (1, 1)],
                Orientation::East => seq![(0, 0), (0, 1), (1, 0), (1, -1)],
                Orientation::South => seq![(0, 0), (1, 0), (0, -1), (-1, -1)],
                Orientation::West => seq![(0, 0), (0, -1), (-1, 0), (-1, 1)],
            },
            Piece::Z => match orientation {
                Orientation::North => seq![(0, 0), (1, 0), (0, 1), (-1, 1)],
                Orientation::East => seq![(0, 0), (0, -1), (1, 0), (1, 1)],
                Orientation::South => seq![(0, 0), (-1, 0), (0, -1), (1, -1)],
                Orientation::West => seq![(0, 0), (0, 1), (-1, 0), (-1, -1)],
            },
            Piece::G => seq![(0, 0), (0, 0), (0, 0), (0, 0)],
        }
    }

    /// The five offsets tried in order when the piece turns from `orientation` in the
    /// direction `rotation`. The long piece has a table of its own, the square piece is
    /// never moved, and the other five share one table.
    pub open spec fn kicks(self, orientation: Orientation, rotation: Rotation) -> Seq<(int, int)> {
        match self {
            Piece::I => match orientation {
                Orientation::North => match rotation {
                    Rotation::Clockwise => seq![(0, 0), (-2, 0), (1, 0), (-2, -1), (1, 2)],
                    Rotation::AntiClockwise => seq![(0, 0), (-1, 0), (2, 0), (-1, 2), (2, -1)],
                },
                Orientation::East => match rotation {
                    Rotation::Clockwise => seq![(0, 0), (-1, 0), (2, 0), (-1, 2), (2, -1)],
                    Rotation::AntiClockwise => seq![(0, 0), (2, 0), (-1, 0), (2, 1), (-1, -2)],
                },
                Orientation::South => match rotation {
                    Rotation::Clockwise => seq![(0, 0), (2, 0), (-1, 0), (2, 1), (-1, -2)],
                    Rotation::AntiClockwise => seq![(0, 0), (1, 0), (-2, 0), (1, -2), (-2, 1)],
                },
                Orientation::West => match rotation {
                    Rotation::Clockwise => seq![(0, 0), (1, 0), (-2, 0), (1, -2), (-2, 1)],
                    Rotation::AntiClockwise => seq![(0, 0), (-2, 0), (1, 0), (-2, -1), (1, 2)],
                },
            },
            Piece::O | Piece::G => seq![(0, 0), (0, 0), (0, 0), (0, 0), (0, 0)],
            _ => match orientation {
                Orientation::North => match rotation {
                    Rotation::Clockwise => seq![(0, 0), (-1, 0), (-1, 1), (0, -2), (-1, -2)],
                    Rotation::AntiClockwise => seq![(0, 0), (1, 0), (1, 1), (0, -2), (1, -2)],
                },
                Orientation::East => match rotation {
                    Rotation::Clockwise => seq![(0, 0), (1, 0), (1, -1), (0, 2), (1, 2)],
                    Rotation::AntiClockwise => seq![(0, 0), (1, 0), (1, -1), (0, 2), (1, 2)],
                },
                Orientation::South => match rotation {
                    Rotation::Clockwise => seq![(0, 0), (1, 0), (1, 1), (0, -2), (1, -2)],
                    Rotation::AntiClockwise => seq![(0, 0), (-1, 0), (-1, 1), (0, -2), (-1, -2)],
                },
                Orientation::West => match rotation {
                    Rotation::Clockwise => seq![(0, 0), (-1, 0), (-1, -1), (0, 2), (-1, 2)],
                    Rotation::AntiClockwise => seq![(0, 0), (-1, 0), (-1, -1), (0, 2), (-1, 2)],
                },
            },
        }
    }

    /// Every shape is four cells within two steps of the reference cell, which is the
    /// first of them.
    pub proof fn lemma_offsets_shape(self, orientation: Orientation)
        ensures
            self.offsets(orientation).len() == 4,
            self.offsets(orientation)[0] == (0int, 0int),
            forall|i: int|
                0 <= i < 4 ==> {
                    &&& -2 <= (#[trigger] self.offsets(orientation)[i]).0 <= 2
                    &&& -2 <= self.offsets(orientation)[i].1 <= 2
                },
    {
    }

    /// Every kick table holds five offsets of at most two steps each way, and starts
    /// with the turn in place.
    pub proof fn lemma_kicks_shape(self, orientation: Orientation, rotation: Rotation)
        ensures
            self.kicks(orientation, rotation).len() == 5,
            self.kicks(orientation, rotation)[0] == (0int, 0int),
            forall|i: int|
                0 <= i < 5 ==> {
                    &&& -2 <= (#[trigger] self.kicks(orientation, rotation)[i]).0 <= 2
                    &&& -2 <= self.kicks(orientation, rotation)[i].1 <= 2
                },
    {
    }

    /// The square piece is never moved by a kick, and the five pieces that are neither
    /// long nor square share the table of the `T` piece.
    pub proof fn lemma_kick_tables(self, orientation: Orientation, rotation: Rotation)
        ensures
            forall|i: int|
                0 <= i < 5 ==> (#[trigger] Piece::O.kicks(orientation, rotation)[i]) == (0int, 0int),
            self.placeable() && self != Piece::I && self != Piece::O ==> self.kicks(
                orientation,
                rotation,
            ) == Piece::T.kicks(orientation, rotation),
    {
    }

    /// The cells of the piece in the given orientation, as offsets from its reference
    /// cell.
    #[inline]
    pub fn cells(&self, orientation: &Orientation) -> (r: [(i8, i8); 4])
        requires
            self.placeable(),
        ensures
            as_offsets(r@) == self.offsets(*orientation),
    {
        match self {
            Piece::O => match orientation {
                Orientation::North => [(0, 0), (1, 0), (0, 1), (1, 1)],
                Orientation::East => [(0, 0), (1, 0), (0, -1), (1, -1)],
                Orientation::South => [(0, 0), (-1, 0), (0, -1), (-1, -1)],
                Orientation::West => [(0, 0), (-1, 0), (0, 1), (-1, 1)],
            },
            Piece::I => match orientation {
                Orientation::North => [(0, 0), (-1, 0), (1, 0), (2, 0)],
                Orientation::East => [(0, 0), (0, 1), (0, -1), (0, -2)],
                Orientation::South => [(0, 0), (1, 0), (-1, 0), (-2, 0)],
                Orientation::West => [(0, 0), (0, -1), (0, 1), (0, 2)],
            },
            Piece::T => match orientation {
                Orientation::North => [(0, 0), (1, 0), (0, 1), (-1, 0)],
                Orientation::East => [(0, 0), (0, 1), (1, 0), (0, -1)],
                Orientation::South => [(0, 0), (1, 0), (0, -1), (-1, 0)],
                Orientation::West => [(0, 0), (0, 1), (-1, 0), (0, -1)],
            },
            Piece::L => match orientation {
                Orientation::North => [(0, 0), (-1, 0), (1, 0), (1, 1)],
                Orientation::East => [(0, 0), (0, 1), (0, -1), (1, -1)],
                Orientation::South => [(0, 0), (1, 0), (-1, 0), (-1, -1)],
                Orientation::West => [(0, 0), (0, -1), (0, 1), (-1, 1)],
            },
            Piece::J => match orientation {
                Orientation::North => [(0, 0), (-1, 0), (1, 0), (-1, 1)],
                Orientation::East => [(0, 0), (0, 1), (0, -1), (1, 1)],
                Orientation::South => [(0, 0), (1, 0), (-1, 0), (1, -1)],
                Orientation::West => [(0, 0), (0, -1), (0, 1), (-1, -1)],
            },
            Piece::S => match orientation {
                Orientation::North => [(0, 0), (-1, 0), (0, 1), (1, 1)],
                Orientation::East => [(0, 0), (0, 1), (1, 0), (1, -1)],
                Orientation::South => [(0, 0), (1, 0), (0, -1), (-1, -1)],
                Orientation::West => [(0, 0), (0, -1), (-1, 0), (-1, 1)],
            },
            Piece::Z => match orientation {
                Orientation::North => [(0, 0), (1, 0), (0, 1), (-1, 1)],
                Orientation::East => [(0, 0), (0, -1), (1, 0), (1, 1)],
                Orientation::South => [(0, 0), (-1, 0), (0, -1), (1, -1)],
                Orientation::West => [(0, 0), (0, 1), (-1, 0), (-1, -1)],
            },
            Piece::G => [(0, 0), (0, 0), (0, 0), (0, 0)],
        }
    }

    /// The kick offsets for a turn of the piece from `orientation`, in the order in
    /// which they are tried.
    #[inline]
    pub fn srs_table(&self, orientation: &Orientation, rotation: Rotation) -> (r: [(i8, i8); 5])
        requires
            self.placeable(),
        ensures
            as_offsets(r@) == self.kicks(*orientation, rotation),
    {
        match self {
            Piece::I => match orientation {
                Orientation::North => match rotation {
                    Rotation::Clockwise => [(0, 0), (-2, 0), (1, 0), (-2, -1), (1, 2)],
                    Rotation::AntiClockwise => [(0, 0), (-1, 0), (2, 0), (-1, 2), (2, -1)],
                },
                Orientation::East => match rotation {
                    Rotation::Clockwise => [(0, 0), (-1, 0), (2, 0), (-1, 2), (2, -1)],
                    Rotation::AntiClockwise => [(0, 0), (2, 0), (-1, 0), (2, 1), (-1, -2)],
                },
                Orientation::South => match rotation {
                    Rotation::Clockwise => [(0, 0), (2, 0), (-1, 0), (2, 1), (-1, -2)],
                    Rotation::AntiClockwise => [(0, 0), (1, 0), (-2, 0), (1, -2), (-2, 1)],
                },
                Orientation::West => match rotation {
                    Rotation::Clockwise => [(0, 0), (1, 0), (-2, 0), (1, -2), (-2, 1)],
                    Rotation::AntiClockwise => [(0, 0), (-2, 0), (1, 0), (-2, -1), (1, 2)],
                },
            },
            Piece::O | Piece::G => [(0, 0), (0, 0), (0, 0), (0, 0), (0, 0)],
            _ => match orientation {
                Orientation::North => match rotation {
                    Rotation::Clockwise => [(0, 0), (-1, 0), (-1, 1), (0, -2), (-1, -2)],
                    Rotation::AntiClockwise => [(0, 0), (1, 0), (1, 1), (0, -2), (1, -2)],
                },
                Orientation::East => match rotation {
                    Rotation::Clockwise => [(0, 0), (1, 0), (1, -1), (0, 2), (1, 2)],
                    Rotation::AntiClockwise => [(0, 0), (1, 0), (1, -1), (0, 2), (1, 2)],
                },
                Orientation::South => match rotation {
                    Rotation::Clockwise => [(0, 0), (1, 0), (1, 1), (0, -2), (1, -2)],
                    Rotation::AntiClockwise => [(0, 0), (-1, 0), (-1, 1), (0, -2), (-1, -2)],
                },
                Orientation::West => match rotation {
                    Rotation::Clockwise => [(0, 0), (-1, 0), (-1, -1), (0, 2), (-1, 2)],
                    Rotation::AntiClockwise => [(0, 0), (-1, 0), (-1, -1), (0, 2), (-1, 2)],
                },
            },
        }
    }
}

} // verus!
