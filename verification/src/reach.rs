//! What a piece can reach: the states it gets to from where it enters the board, step
//! by step, and the placements they stand for.

use vstd::prelude::*;
use crate::board::{in_grid, Board};
use crate::geometry::{Orientation, Piece, Rotation};
use crate::moves::{
    is_normal_form, lemma_normal_form_of_sorted, lemma_sorted_lists_agree, strictly_sorted, Location,
    Move, Spin, KEY_LIMIT,
};
use crate::placing::row_filled;

verus! {

/// The pose in which a piece enters the board: flat, in the middle of row 19.
pub open spec fn spawn(piece: Piece) -> Move {
    Move {
        spin: Spin::NoSpin,
        location: Location { orientation: Orientation::North, y: 19, x: 5, piece },
    }
}

/// The piece that can be played in place of the front of the queue: the held piece or,
/// if none is held, the second of the queue.
pub open spec fn alternative_of(hold: Option<Piece>, queue: Seq<Piece>) -> Option<Piece> {
    if hold is Some {
        hold
    } else if queue.len() >= 2 {
        Some(queue[1])
    } else {
        None
    }
}

/// Whether moves can be generated with this hold and queue: the queue holds a piece,
/// and neither its front nor the piece that can be played in its place is the filler.
pub open spec fn playable_with(hold: Option<Piece>, queue: Seq<Piece>) -> bool {
    &&& queue.len() > 0
    &&& queue[0].placeable()
    &&& alternative_of(hold, queue) matches Some(piece) ==> piece.placeable()
}

impl Board {
    /// Whether a piece in the state `from` gets to the state `to` by one step: a shift
    /// by one column to either side, a quarter turn either way, or a drop.
    pub open spec fn step(self, from: Move, to: Move) -> bool {
        ||| self.shifted(from.location, -1) == Some(to)
        ||| self.shifted(from.location, 1) == Some(to)
        ||| self.rotated(from.location, Rotation::Clockwise) == Some(to)
        ||| self.rotated(from.location, Rotation::AntiClockwise) == Some(to)
        ||| self.dropped(from.location) == Some(to)
    }

    /// Whether the state after the `i`-th of a path follows from it by one step.
    pub open spec fn step_at(self, path: Seq<Move>, i: int) -> bool {
        self.step(path[i], path[i + 1])
    }

    /// Whether `path` leads a piece from where it enters the board, step by step.
    pub open spec fn is_path(self, piece: Piece, path: Seq<Move>) -> bool {
        &&& path.len() > 0
        &&& path[0] == spawn(piece)
        &&& forall|i: int| 0 <= i < path.len() - 1 ==> #[trigger] self.step_at(path, i)
    }

    /// Whether a piece can get to the state `m` from where it enters the board.
    pub open spec fn reachable(self, piece: Piece, m: Move) -> bool {
        exists|path: Seq<Move>| #[trigger] self.is_path(piece, path) && path.last() == m
    }

    /// Whether `m` is the placement of a state that the piece can get to.
    pub open spec fn is_placement(self, piece: Piece, m: Move) -> bool {
        exists|from: Move| #[trigger] self.reachable(piece, from) && self.placement(from) == m
    }

    /// Whether `list` holds the placements that the piece can reach, each once, in the
    /// order of moves.
    pub open spec fn is_move_list(self, piece: Piece, list: Seq<Move>) -> bool {
        &&& strictly_sorted(list)
        &&& forall|m: Move| list.contains(m) <==> self.is_placement(piece, m)
    }

    /// The list of the placements that the piece can reach.
    pub open spec fn generated(self, piece: Piece) -> Seq<Move> {
        choose|list: Seq<Move>| self.is_move_list(piece, list)
    }

    /// The piece that can be played in place of the front of the queue: the held piece
    /// or, if none is held, the second of the queue.
    pub open spec fn alternative(self) -> Option<Piece> {
        alternative_of(self.hold, self.queue@)
    }

    /// The placements of the alternative piece, if there is one.
    pub open spec fn generated_alternative(self) -> Seq<Move> {
        match self.alternative() {
            Some(piece) => self.generated(piece),
            None => Seq::empty(),
        }
    }

    /// There is one list of placements only.
    pub proof fn lemma_move_list_unique(self, piece: Piece, list: Seq<Move>)
        requires
            self.is_move_list(piece, list),
        ensures
            list == self.generated(piece),
    {
        let other = self.generated(piece);
        assert(self.is_move_list(piece, other));
        lemma_sorted_lists_agree(list, other);
    }

    /// The state in which a piece enters the board can be reached.
    pub proof fn lemma_spawn_reachable(self, piece: Piece)
        ensures
            self.reachable(piece, spawn(piece)),
    {
        let path = seq![spawn(piece)];
        assert(self.is_path(piece, path));
        assert(path.last() == spawn(piece));
    }

    /// A step from a state that can be reached leads to one that can be reached.
    pub proof fn lemma_step_reachable(self, piece: Piece, from: Move, to: Move)
        requires
            self.reachable(piece, from),
            self.step(from, to),
        ensures
            self.reachable(piece, to),
    {
        let path = choose|path: Seq<Move>| #[trigger] self.is_path(piece, path) && path.last() == from;
        let longer = path.push(to);
        assert forall|i: int| 0 <= i < longer.len() - 1 implies #[trigger] self.step_at(longer, i) by {
            if i < path.len() - 1 {
                assert(self.step_at(path, i));
            }
        }
        assert(self.is_path(piece, longer));
        assert(longer.last() == to);
    }

    /// A step leads to a pose of the same piece that does not collide.
    pub proof fn lemma_step_lands_free(self, from: Move, to: Move)
        requires
            self.step(from, to),
        ensures
            to.location.piece == from.location.piece,
            !self.collides(to.location),
    {
    }

    /// Along a path the piece stays the same, and every state but the first is in a
    /// pose that does not collide.
    pub proof fn lemma_path_state(self, piece: Piece, path: Seq<Move>, k: int)
        requires
            self.is_path(piece, path),
            0 <= k < path.len(),
        ensures
            path[k].location.piece == piece,
            k > 0 ==> !self.collides(path[k].location),
        decreases k,
    {
        if k > 0 {
            self.lemma_path_state(piece, path, k - 1);
            assert(self.step_at(path, k - 1));
            self.lemma_step_lands_free(path[k - 1], path[k]);
        }
    }

    /// Only the `T` piece earns a spin: every state that another piece can reach, and
    /// every placement it stands for, is without one.
    pub proof fn lemma_only_t_spins(self, piece: Piece, m: Move)
        requires
            piece != Piece::T,
            self.reachable(piece, m),
        ensures
            m.spin == Spin::NoSpin,
            self.placement(m).spin == Spin::NoSpin,
    {
        let path = choose|path: Seq<Move>| #[trigger] self.is_path(piece, path) && path.last() == m;
        let last = path.len() - 1;
        if last > 0 {
            self.lemma_path_state(piece, path, last - 1);
            assert(self.step_at(path, last - 1));
        }
    }

    /// A state that can be reached is the entering state, or in a pose that does not
    /// collide.
    pub proof fn lemma_reachable_state(self, piece: Piece, m: Move)
        requires
            self.reachable(piece, m),
        ensures
            m.location.piece == piece,
            m == spawn(piece) || !self.collides(m.location),
    {
        let path = choose|path: Seq<Move>| #[trigger] self.is_path(piece, path) && path.last() == m;
        self.lemma_path_state(piece, path, path.len() - 1);
    }

    /// The placement of a state that can be reached lies in the grid with all its
    /// cells. It does not collide unless the piece collides where it enters.
    pub proof fn lemma_placement_fits(self, piece: Piece, from: Move)
        requires
            self.reachable(piece, from),
        ensures
            self.placement(from).location.piece == piece,
            self.placement(from).location.fits_grid(),
            !self.collides(spawn(piece).location) ==> !self.collides(self.placement(from).location),
    {
        self.lemma_reachable_state(piece, from);
        if !self.collides(from.location) {
            self.lemma_drop_row(from.location);
            self.lemma_free_in_grid(self.placement(from).location);
        } else {
            // The piece collides where it enters, and is taken to rest one row up.
            let rest = self.placement(from).location;
            piece.lemma_offsets_shape(Orientation::North);
            assert(rest == Location { y: 20, ..from.location });
            assert forall|i: int| 0 <= i < 4 implies in_grid(#[trigger] rest.cell(i).0, rest.cell(i).1) by {
                assert(-2 <= piece.offsets(Orientation::North)[i].0 <= 2);
            }
        }
    }

    /// The list of placements is never empty: it holds that of the entering state.
    pub proof fn lemma_move_list_not_empty(self, piece: Piece, list: Seq<Move>)
        requires
            self.is_move_list(piece, list),
        ensures
            list.len() > 0,
            list.contains(self.placement(spawn(piece))),
    {
        self.lemma_spawn_reachable(piece);
        let first = self.placement(spawn(piece));
        assert(self.is_placement(piece, first));
        assert(list.contains(first));
        let i = choose|i: int| 0 <= i < list.len() && list[i] == first;
    }

    /// Every placement of the list is of the piece asked for and lies in the grid with
    /// all its cells, so that it can be placed wherever the queue holds a piece.
    pub proof fn lemma_moves_fit_grid(self, piece: Piece, list: Seq<Move>)
        requires
            self.is_move_list(piece, list),
        ensures
            forall|i: int|
                0 <= i < list.len() ==> {
                    &&& (#[trigger] list[i]).location.piece == piece
                    &&& list[i].location.fits_grid()
                },
    {
        assert forall|i: int| 0 <= i < list.len() implies {
            &&& (#[trigger] list[i]).location.piece == piece
            &&& list[i].location.fits_grid()
        } by {
            assert(list.contains(list[i]));
            let from = choose|from: Move| #[trigger]
                self.reachable(piece, from) && self.placement(from) == list[i];
            self.lemma_placement_fits(piece, from);
        }
    }

    /// Where the piece does not collide as it enters, no placement of the list
    /// collides.
    pub proof fn lemma_moves_free(self, piece: Piece, list: Seq<Move>)
        requires
            self.is_move_list(piece, list),
            !self.collides(spawn(piece).location),
        ensures
            forall|i: int| 0 <= i < list.len() ==> !self.collides((#[trigger] list[i]).location),
    {
        assert forall|i: int| 0 <= i < list.len() implies !self.collides((#[trigger] list[i]).location) by {
            assert(list.contains(list[i]));
            let from = choose|from: Move| #[trigger]
                self.reachable(piece, from) && self.placement(from) == list[i];
            self.lemma_placement_fits(piece, from);
        }
    }

    /// Whether `m` is a placement that the piece can reach, with the key `key`.
    pub open spec fn is_placement_with_key(self, piece: Piece, m: Move, key: int) -> bool {
        self.is_placement(piece, m) && m.key_of() == key
    }

    /// The placements that the piece can reach with a key below `bound`, in the order
    /// of their keys, which is the order of moves.
    pub open spec fn placements_below(self, piece: Piece, bound: int) -> Seq<Move>
        decreases bound,
    {
        let key = bound - 1;
        if bound <= 0 {
            Seq::empty()
        } else if exists|m: Move| self.is_placement_with_key(piece, m, key) {
            self.placements_below(piece, key).push(
                choose|m: Move| self.is_placement_with_key(piece, m, key),
            )
        } else {
            self.placements_below(piece, key)
        }
    }

    /// A placement that a piece can reach is a move of that piece.
    pub proof fn lemma_placement_piece(self, piece: Piece, m: Move)
        requires
            self.is_placement(piece, m),
        ensures
            m.location.piece == piece,
    {
        let from = choose|from: Move| #[trigger] self.reachable(piece, from) && self.placement(from) == m;
        self.lemma_placement_fits(piece, from);
    }

    /// The placements with a key below a bound are listed in the order of moves, each
    /// once.
    proof fn lemma_placements_below(self, piece: Piece, bound: int)
        requires
            0 <= bound,
        ensures
            strictly_sorted(self.placements_below(piece, bound)),
            forall|m: Move|
                #![trigger self.placements_below(piece, bound).contains(m)]
                #![trigger self.is_placement(piece, m)]
                self.placements_below(piece, bound).contains(m) <==> (self.is_placement(piece, m)
                    && m.key_of() < bound),
        decreases bound,
    {
        if bound > 0 {
            self.lemma_placements_below(piece, bound - 1);
            let key = bound - 1;
            let rest = self.placements_below(piece, key);
            let list = self.placements_below(piece, bound);
            if exists|m: Move| self.is_placement_with_key(piece, m, key) {
                let top = choose|m: Move| self.is_placement_with_key(piece, m, key);
                self.lemma_placement_piece(piece, top);
                assert(list == rest.push(top));
                assert forall|m: Move|
                    list.contains(m) <==> (self.is_placement(piece, m) && m.key_of() < bound) by {
                    if list.contains(m) {
                        let i = choose|i: int| 0 <= i < list.len() && list[i] == m;
                        if i < rest.len() {
                            assert(rest[i] == m);
                            assert(rest.contains(m));
                        }
                    }
                    if self.is_placement(piece, m) && m.key_of() < bound {
                        if m.key_of() == bound - 1 {
                            self.lemma_placement_piece(piece, m);
                            m.lemma_key_identifies(top);
                            assert(list[rest.len() as int] == m);
                        } else {
                            assert(rest.contains(m));
                            let i = choose|i: int| 0 <= i < rest.len() && rest[i] == m;
                            assert(list[i] == m);
                        }
                    }
                }
                assert forall|i: int, j: int| 0 <= i < j < list.len() implies (#[trigger] list[i]).precedes(
                    #[trigger] list[j],
                ) by {
                    if j < rest.len() {
                        assert(rest[i].precedes(rest[j]));
                    } else {
                        assert(rest.contains(rest[i]));
                        assert(self.is_placement(piece, rest[i]) && rest[i].key_of() < key);
                        assert(list[j] == top);
                        assert(top.key_of() == key);
                        self.lemma_placement_piece(piece, rest[i]);
                        rest[i].lemma_key_order(top);
                    }
                }
            } else {
                assert forall|m: Move|
                    list.contains(m) <==> (self.is_placement(piece, m) && m.key_of() < bound) by {
                    if self.is_placement(piece, m) && m.key_of() == key {
                        assert(self.is_placement_with_key(piece, m, key));
                    }
                }
            }
        }
    }

    /// Every board has a list of the placements that a piece can reach on it.
    pub proof fn lemma_generated_is_move_list(self, piece: Piece)
        ensures
            self.is_move_list(piece, self.generated(piece)),
    {
        let list = self.placements_below(piece, KEY_LIMIT as int);
        self.lemma_placements_below(piece, KEY_LIMIT as int);
        assert forall|m: Move| list.contains(m) <==> self.is_placement(piece, m) by {
            m.lemma_key_bounded();
        }
        assert(self.is_move_list(piece, list));
    }

    /// Where the piece does not collide as it enters, every placement of the list is
    /// at rest: one row further down it would collide.
    pub proof fn lemma_moves_rest(self, piece: Piece, list: Seq<Move>)
        requires
            self.is_move_list(piece, list),
            !self.collides(spawn(piece).location),
        ensures
            forall|i: int|
                0 <= i < list.len() ==> self.drop_row((#[trigger] list[i]).location)
                    == list[i].location.y,
    {
        assert forall|i: int| 0 <= i < list.len() implies self.drop_row((#[trigger] list[i]).location)
            == list[i].location.y by {
            assert(list.contains(list[i]));
            let from = choose|from: Move| #[trigger]
                self.reachable(piece, from) && self.placement(from) == list[i];
            self.lemma_reachable_state(piece, from);
            self.lemma_drop_row(from.location);
            let row = self.drop_row(from.location);
            let rest = from.location.at_row(row);
            let below = from.location.at_row(row - 1);
            assert(list[i].location == rest);
            assert(!self.collides(rest));
            assert(rest.at_row(rest.y - 1) == below);
            assert(self.drop_row(below) == row);
        }
    }

    /// Every placement of the list can be placed, whatever piece the queue holds. Once
    /// it is placed, a row in which it has a cell is not full, unless a row that was
    /// full before, and that the move did not complete, sinks into its place.
    pub proof fn lemma_generated_move_placed(
        self,
        piece: Piece,
        list: Seq<Move>,
        i: int,
        after: Board,
        row: int,
    )
        requires
            piece.placeable(),
            self.is_move_list(piece, list),
            0 <= i < list.len(),
            self.queue@.len() > 0,
            self.is_played(list[i], after),
            0 <= row < 40,
            list[i].location.touches_row(row),
            forall|from: int|
                0 <= from < 40 && !self.row_complete(list[i], from) && from - self.cleared_below(
                    list[i],
                    from,
                ) == row ==> !row_filled(self.board, from),
        ensures
            self.accepts(list[i]),
            !row_filled(after.board, row),
    {
        self.lemma_moves_fit_grid(piece, list);
        self.lemma_touched_row_not_full(list[i], after, row);
    }

    /// Whether no cell of the grid is filled.
    pub open spec fn is_clear(self) -> bool {
        forall|x: int, y: int| in_grid(x, y) ==> (#[trigger] self.board[y][x]) is None
    }

    /// On a board without a filled cell every placeable piece has a placement, and none
    /// of its placements collides.
    pub proof fn lemma_clear_board_moves(self, piece: Piece, list: Seq<Move>)
        requires
            self.is_clear(),
            piece.placeable(),
            self.is_move_list(piece, list),
        ensures
            list.len() > 0,
            forall|i: int| 0 <= i < list.len() ==> !self.collides((#[trigger] list[i]).location),
    {
        let enter = spawn(piece).location;
        piece.lemma_offsets_shape(Orientation::North);
        assert forall|i: int| 0 <= i < 4 implies !self.blocked(#[trigger] enter.cell(i).0, enter.cell(i).1) by {
            assert(-2 <= piece.offsets(Orientation::North)[i].0 <= 2);
            assert(in_grid(enter.cell(i).0, enter.cell(i).1));
        }
        self.lemma_move_list_not_empty(piece, list);
        self.lemma_moves_free(piece, list);
    }

    /// Whether the two boards have the same grid, whatever their hold, queue and
    /// counters.
    pub open spec fn same_grid(self, other: Board) -> bool {
        self.board == other.board
    }

    /// Whether a pose collides depends on the grid alone.
    pub proof fn lemma_same_grid_collides(self, other: Board, location: Location)
        requires
            self.same_grid(other),
        ensures
            self.collides(location) == other.collides(location),
    {
        if self.collides(location) {
            let i = choose|i: int|
                0 <= i < 4 && self.blocked(#[trigger] location.cell(i).0, location.cell(i).1);
            assert(other.blocked(location.cell(i).0, location.cell(i).1));
        }
        if other.collides(location) {
            let i = choose|i: int|
                0 <= i < 4 && other.blocked(#[trigger] location.cell(i).0, location.cell(i).1);
            assert(self.blocked(location.cell(i).0, location.cell(i).1));
        }
    }

    /// Where a pose comes to rest depends on the grid alone.
    pub proof fn lemma_same_grid_drop_row(self, other: Board, location: Location)
        requires
            self.same_grid(other),
        ensures
            self.drop_row(location) == other.drop_row(location),
            self.dropped(location) == other.dropped(location),
        decreases location.y + 129,
    {
        self.lemma_same_grid_collides(other, location);
        if !(location.y < 0 || self.collides(location)) {
            self.lemma_same_grid_drop_row(other, location.at_row(location.y - 1));
        }
        self.lemma_same_grid_collides(other, location.at_row(self.drop_row(location)));
    }

    /// What a quarter turn leads to depends on the grid alone.
    pub proof fn lemma_same_grid_rotated(self, other: Board, location: Location, rotation: Rotation)
        requires
            self.same_grid(other),
        ensures
            self.rotated(location, rotation) == other.rotated(location, rotation),
    {
        self.lemma_same_grid_collides(other, location.kicked(rotation, 0));
        self.lemma_same_grid_collides(other, location.kicked(rotation, 1));
        self.lemma_same_grid_collides(other, location.kicked(rotation, 2));
        self.lemma_same_grid_collides(other, location.kicked(rotation, 3));
        self.lemma_same_grid_collides(other, location.kicked(rotation, 4));
    }

    /// Which steps a piece can take, and which placement a state stands for, depends
    /// on the grid alone.
    pub proof fn lemma_same_grid_step(self, other: Board, from: Move, to: Move)
        requires
            self.same_grid(other),
        ensures
            self.step(from, to) == other.step(from, to),
            self.placement(from) == other.placement(from),
    {
        self.lemma_same_grid_collides(other, from.location.at_column(from.location.x - 1));
        self.lemma_same_grid_collides(other, from.location.at_column(from.location.x + 1));
        self.lemma_same_grid_rotated(other, from.location, Rotation::Clockwise);
        self.lemma_same_grid_rotated(other, from.location, Rotation::AntiClockwise);
        self.lemma_same_grid_drop_row(other, from.location);
    }

    /// Which states a piece can reach depends on the grid alone.
    pub proof fn lemma_same_grid_reachable(self, other: Board, piece: Piece, m: Move)
        requires
            self.same_grid(other),
        ensures
            self.reachable(piece, m) == other.reachable(piece, m),
    {
        if self.reachable(piece, m) {
            let path = choose|path: Seq<Move>| #[trigger] self.is_path(piece, path) && path.last() == m;
            assert forall|i: int| 0 <= i < path.len() - 1 implies #[trigger] other.step_at(path, i) by {
                assert(self.step_at(path, i));
                self.lemma_same_grid_step(other, path[i], path[i + 1]);
            }
            assert(other.is_path(piece, path));
        }
        if other.reachable(piece, m) {
            let path = choose|path: Seq<Move>| #[trigger] other.is_path(piece, path) && path.last() == m;
            assert forall|i: int| 0 <= i < path.len() - 1 implies #[trigger] self.step_at(path, i) by {
                assert(other.step_at(path, i));
                self.lemma_same_grid_step(other, path[i], path[i + 1]);
            }
            assert(self.is_path(piece, path));
        }
    }

    /// Whether a move is a placement that a piece can reach depends on the grid alone.
    pub proof fn lemma_same_grid_placement(self, other: Board, piece: Piece, m: Move)
        requires
            self.same_grid(other),
        ensures
            self.is_placement(piece, m) == other.is_placement(piece, m),
    {
        if self.is_placement(piece, m) {
            let from = choose|from: Move| #[trigger]
                self.reachable(piece, from) && self.placement(from) == m;
            self.lemma_same_grid_reachable(other, piece, from);
            self.lemma_same_grid_step(other, from, from);
        }
        if other.is_placement(piece, m) {
            let from = choose|from: Move| #[trigger]
                other.reachable(piece, from) && other.placement(from) == m;
            self.lemma_same_grid_reachable(other, piece, from);
            self.lemma_same_grid_step(other, from, from);
        }
    }

    /// The placements that a piece can reach depend on the grid alone, not on hold,
    /// queue or counters.
    pub proof fn lemma_same_grid_generated(self, other: Board, piece: Piece)
        requires
            self.same_grid(other),
        ensures
            other.generated(piece) == self.generated(piece),
    {
        let list = self.generated(piece);
        self.lemma_generated_is_move_list(piece);
        assert forall|m: Move| self.is_placement(piece, m) == other.is_placement(piece, m) by {
            self.lemma_same_grid_placement(other, piece, m);
        }
        other.lemma_move_list_unique(piece, list);
    }

    /// A list of placements is in normal form: sorting it and removing duplicates
    /// gives the list back.
    pub proof fn lemma_move_list_is_normal(self, piece: Piece, list: Seq<Move>, again: Seq<Move>)
        requires
            self.is_move_list(piece, list),
            is_normal_form(again, list),
        ensures
            again == list,
    {
        lemma_normal_form_of_sorted(list, again);
    }

    /// Whether moves can be generated from the queue: it holds a piece, and neither
    /// its front nor the piece that can be played in its place is the filler.
    pub open spec fn playable(self) -> bool {
        playable_with(self.hold, self.queue@)
    }

    /// The moves that can be played: the placements of the piece at the front of the
    /// queue, followed by those of the piece that can be played in its place.
    pub open spec fn candidates(self) -> Seq<Move> {
        self.generated(self.queue@[0]) + self.generated_alternative()
    }

    /// Whether the move is one that can be played: a placement that the piece at the
    /// front of the queue can reach, or one that the piece that can be played in its
    /// place can reach.
    pub open spec fn offers(self, mv: Move) -> bool {
        &&& self.queue@.len() > 0
        &&& {
            ||| self.is_placement(self.queue@[0], mv)
            ||| (self.alternative() matches Some(piece) && self.is_placement(piece, mv))
        }
    }

    /// The moves that can be played are those that the board offers.
    pub proof fn lemma_candidates_offered(self, mv: Move)
        requires
            self.queue@.len() > 0,
        ensures
            self.candidates().contains(mv) <==> self.offers(mv),
    {
        self.lemma_generated_is_move_list(self.queue@[0]);
        if let Some(piece) = self.alternative() {
            self.lemma_generated_is_move_list(piece);
        }
        let front = self.generated(self.queue@[0]);
        let back = self.generated_alternative();
        let all = self.candidates();
        if all.contains(mv) {
            let i = choose|i: int| 0 <= i < all.len() && all[i] == mv;
            if i < front.len() {
                assert(front[i] == mv);
                assert(front.contains(mv));
            } else {
                assert(back[i - front.len()] == mv);
                assert(back.contains(mv));
            }
        }
        if front.contains(mv) {
            let i = choose|i: int| 0 <= i < front.len() && front[i] == mv;
            assert(all[i] == mv);
        }
        if back.contains(mv) {
            let i = choose|i: int| 0 <= i < back.len() && back[i] == mv;
            assert(all[front.len() + i] == mv);
        }
    }

    /// Each of the moves that can be played is of a piece that can be placed, and lies
    /// in the grid with all its cells.
    pub proof fn lemma_candidates_fit(self)
        requires
            self.playable(),
        ensures
            forall|i: int|
                0 <= i < self.candidates().len() ==> {
                    &&& (#[trigger] self.candidates()[i]).location.piece.placeable()
                    &&& self.candidates()[i].location.fits_grid()
                },
    {
        let front = self.generated(self.queue@[0]);
        self.lemma_generated_is_move_list(self.queue@[0]);
        self.lemma_moves_fit_grid(self.queue@[0], front);
        if let Some(piece) = self.alternative() {
            self.lemma_generated_is_move_list(piece);
            self.lemma_moves_fit_grid(piece, self.generated(piece));
        }
        assert forall|i: int| 0 <= i < self.candidates().len() implies {
            &&& (#[trigger] self.candidates()[i]).location.piece.placeable()
            &&& self.candidates()[i].location.fits_grid()
        } by {
            if i < front.len() {
                assert(self.candidates()[i] == front[i]);
            } else {
                assert(self.candidates()[i] == self.generated_alternative()[i - front.len()]);
            }
        }
    }
}

} // verus!
