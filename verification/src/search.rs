//! Move generation: a breadth-first search through the states that a piece can reach.

use std::collections::VecDeque;
use rustc_hash::FxHashSet;
use vstd::prelude::*;
use crate::board::Board;
use crate::geometry::{Orientation, Piece, Rotation};
use crate::moves::{
    first_of_its_kind, holds_equal, holds_first, sorted_distinct, Location, Move, Spin, KEY_LIMIT,
};
use crate::reach::spawn;
use crate::seen::{insert_key, lemma_keys_bounded};

verus! {

/// Whether some move of the list has the key `key`.
spec fn has_key(known: Seq<Move>, key: u32) -> bool {
    exists|i: int| 0 <= i < known.len() && (#[trigger] known[i]).key_of() == key
}

/// Whether `longer` starts with `shorter`.
spec fn extends(shorter: Seq<Move>, longer: Seq<Move>) -> bool {
    &&& shorter.len() <= longer.len()
    &&& forall|i: int| 0 <= i < shorter.len() ==> longer[i] == #[trigger] shorter[i]
}

impl Board {
    /// Whether every step from one of the first `n` states of `known` leads to a state
    /// of `known`.
    spec fn closed_upto(self, known: Seq<Move>, n: int) -> bool {
        forall|i: int, to: Move|
            0 <= i < n && #[trigger] self.step(known[i], to) ==> known.contains(to)
    }

    /// A list that holds the entering state, and with each state those that follow it
    /// by one step, holds every state that can be reached.
    proof fn lemma_closed_holds_path(self, piece: Piece, known: Seq<Move>, path: Seq<Move>, k: int)
        requires
            known.contains(spawn(piece)),
            self.closed_upto(known, known.len() as int),
            self.is_path(piece, path),
            0 <= k < path.len(),
        ensures
            known.contains(path[k]),
        decreases k,
    {
        if k > 0 {
            self.lemma_closed_holds_path(piece, known, path, k - 1);
            let i = choose|i: int| 0 <= i < known.len() && known[i] == path[k - 1];
            assert(self.step_at(path, k - 1));
            assert(self.step(known[i], path[k]));
        }
    }

    /// What holds of a search under way. `known` lists the states met so far in the
    /// order in which they were met, the first `head` of them have left the queue, and
    /// `seen` holds the keys of them all.
    spec fn frontier_ok(
        self,
        piece: Piece,
        known: Seq<Move>,
        head: int,
        queue: Seq<Move>,
        seen: Set<u32>,
    ) -> bool {
        &&& 0 <= head <= known.len()
        &&& known.len() > 0
        &&& known[0] == spawn(piece)
        &&& queue =~= known.subrange(head, known.len() as int)
        &&& forall|i: int|
            0 <= i < known.len() ==> {
                &&& (#[trigger] known[i]).location.piece == piece
                &&& self.reachable(piece, known[i])
                &&& known[i].location.y <= 39
                &&& seen.contains(known[i].key_of() as u32)
            }
        &&& forall|k: u32| seen.contains(k) ==> has_key(known, k)
    }

    /// The keys of a search under way are bounded.
    proof fn lemma_frontier_bounded(
        self,
        piece: Piece,
        known: Seq<Move>,
        head: int,
        queue: Seq<Move>,
        seen: Set<u32>,
    )
        requires
            self.frontier_ok(piece, known, head, queue, seen),
        ensures
            seen.finite(),
            seen.len() <= KEY_LIMIT,
    {
        assert forall|k: u32| seen.contains(k) implies k < KEY_LIMIT by {
            assert(has_key(known, k));
        }
        lemma_keys_bounded(seen, KEY_LIMIT);
    }

    /// A state that follows by one step from a known one is either known already, and
    /// then its key has been seen, or can join the search.
    proof fn lemma_offer(
        self,
        piece: Piece,
        known: Seq<Move>,
        head: int,
        queue: Seq<Move>,
        seen: Set<u32>,
        from: int,
        to: Move,
    )
        requires
            self.frontier_ok(piece, known, head, queue, seen),
            0 <= from < known.len(),
            self.step(known[from], to),
        ensures
            seen.contains(to.key_of() as u32) ==> known.contains(to),
            !seen.contains(to.key_of() as u32) ==> self.frontier_ok(
                piece,
                known.push(to),
                head,
                queue.push(to),
                seen.insert(to.key_of() as u32),
            ),
    {
        self.lemma_step_lands_free(known[from], to);
        self.lemma_step_reachable(piece, known[from], to);
        self.lemma_free_in_grid(to.location);
        let key = to.key_of() as u32;
        if seen.contains(key) {
            assert(has_key(known, key));
            let i = choose|i: int| 0 <= i < known.len() && (#[trigger] known[i]).key_of() == key;
            known[i].lemma_key_identifies(to);
        } else {
            let grown = known.push(to);
            let more = seen.insert(key);
            assert forall|k: u32| more.contains(k) implies has_key(grown, k) by {
                if k == key {
                    assert(grown[known.len() as int].key_of() == k);
                } else {
                    assert(has_key(known, k));
                    let i = choose|i: int| 0 <= i < known.len() && (#[trigger] known[i]).key_of() == k;
                    assert(grown[i].key_of() == k);
                }
            }
            assert forall|i: int| 0 <= i < grown.len() implies {
                &&& (#[trigger] grown[i]).location.piece == piece
                &&& self.reachable(piece, grown[i])
                &&& grown[i].location.y <= 39
                &&& more.contains(grown[i].key_of() as u32)
            } by {
                if i < known.len() {
                    assert(grown[i] == known[i]);
                }
            }
        }
    }

    /// What is closed stays closed when the list grows.
    proof fn lemma_closed_grows(self, known: Seq<Move>, n: int, to: Move)
        requires
            self.closed_upto(known, n),
            0 <= n <= known.len(),
        ensures
            self.closed_upto(known.push(to), n),
    {
        let grown = known.push(to);
        assert forall|i: int, t: Move| 0 <= i < n && #[trigger] self.step(grown[i], t) implies grown.contains(
            t,
        ) by {
            assert(grown[i] == known[i]);
            assert(known.contains(t));
            let j = choose|j: int| 0 <= j < known.len() && known[j] == t;
            assert(grown[j] == t);
        }
    }

    /// Takes a state that follows from the one in hand into the search, unless its key
    /// has been seen.
    fn offer(
        &self,
        queue: &mut VecDeque<Move>,
        seen: &mut FxHashSet<u32>,
        candidate: Option<Move>,
        Ghost(piece): Ghost<Piece>,
        Ghost(known): Ghost<Seq<Move>>,
        Ghost(head): Ghost<int>,
    ) -> (grown: Ghost<Seq<Move>>)
        requires
            head >= 1,
            self.frontier_ok(piece, known, head, old(queue)@, old(seen)@),
            self.closed_upto(known, head - 1),
            candidate matches Some(to) ==> self.step(known[head - 1], to),
        ensures
            self.frontier_ok(piece, grown@, head, final(queue)@, final(seen)@),
            self.closed_upto(grown@, head - 1),
            extends(known, grown@),
            grown@[head - 1] == known[head - 1],
            candidate matches Some(to) ==> grown@.contains(to),
            final(seen)@.finite(),
            final(seen)@.len() <= KEY_LIMIT,
            2 * (KEY_LIMIT - final(seen)@.len()) + final(queue)@.len() <= 2 * (KEY_LIMIT - old(
                seen,
            )@.len()) + old(queue)@.len(),
    {
        proof {
            self.lemma_frontier_bounded(piece, known, head, queue@, seen@);
        }
        match candidate {
            Some(to) => {
                proof {
                    self.lemma_offer(piece, known, head, queue@, seen@, head - 1, to);
                }
                if insert_key(seen, to.key()) {
                    queue.push_back(to);
                    proof {
                        self.lemma_closed_grows(known, head - 1, to);
                        self.lemma_frontier_bounded(piece, known.push(to), head, queue@, seen@);
                        assert(known.push(to)[known.len() as int] == to);
                    }
                    Ghost(known.push(to))
                } else {
                    assert(old(seen)@.insert(to.key_of() as u32) =~= old(seen)@);
                    Ghost(known)
                }
            },
            None => Ghost(known),
        }
    }

    /// The placements that `piece` can reach on this board, each once, in the order of
    /// moves.
    ///
    /// The piece enters flat in the middle of row 19 and moves by shifts of one column,
    /// quarter turns and drops, never through a blocked cell. Each state it can get to
    /// stands for the placement at the row where it comes to rest.
    pub fn gen_moves_for_piece(&self, piece: Piece) -> (moves: Vec<Move>)
        requires
            piece.placeable(),
        ensures
            self.is_move_list(piece, moves@),
            moves@ == self.generated(piece),
    {
        let mut move_list: Vec<Move> = Vec::with_capacity(64);
        let mut queue: VecDeque<Move> = VecDeque::new();
        let mut seen: FxHashSet<u32> = FxHashSet::default();

        let initial_location = Location { piece, orientation: Orientation::North, x: 5, y: 19 };
        let initial_move = Move { location: initial_location, spin: Spin::NoSpin };

        queue.push_back(initial_move);
        insert_key(&mut seen, initial_move.key());

        let ghost mut known: Seq<Move> = seq![initial_move];
        let ghost mut head: int = 0;
        proof {
            self.lemma_spawn_reachable(piece);
            assert(known[0].key_of() == initial_move.key_of());
            assert forall|k: u32| seen@.contains(k) implies has_key(known, k) by {
                assert(known[0].key_of() == k);
            }
            assert(self.frontier_ok(piece, known, head, queue@, seen@));
            self.lemma_frontier_bounded(piece, known, head, queue@, seen@);
        }

        while queue.len() > 0
            invariant
                piece.placeable(),
                self.frontier_ok(piece, known, head, queue@, seen@),
                self.closed_upto(known, head),
                move_list@.len() == head,
                forall|i: int| 0 <= i < head ==> move_list@[i] == self.placement(#[trigger] known[i]),
                seen@.finite(),
                seen@.len() <= KEY_LIMIT,
            decreases 2 * (KEY_LIMIT - seen@.len()) + queue@.len(),
        {
            let mv = queue.pop_front().unwrap();
            proof {
                head = head + 1;
                assert(mv == known[head - 1]);
            }
            move_list.push(mv.placed_on(self));

            let left = mv.location.shift(self, -1);
            let grown = self.offer(&mut queue, &mut seen, left, Ghost(piece), Ghost(known), Ghost(head));
            let ghost known1 = grown@;
            let right = mv.location.shift(self, 1);
            let grown = self.offer(&mut queue, &mut seen, right, Ghost(piece), Ghost(known1), Ghost(head));
            let ghost known2 = grown@;
            let clockwise = mv.location.rotate(self, Rotation::Clockwise);
            let grown = self.offer(&mut queue, &mut seen, clockwise, Ghost(piece), Ghost(known2), Ghost(head));
            let ghost known3 = grown@;
            let anticlockwise = mv.location.rotate(self, Rotation::AntiClockwise);
            let grown = self.offer(
                &mut queue,
                &mut seen,
                anticlockwise,
                Ghost(piece),
                Ghost(known3),
                Ghost(head),
            );
            let ghost known4 = grown@;
            let down = mv.location.soft_drop(self);
            let grown = self.offer(&mut queue, &mut seen, down, Ghost(piece), Ghost(known4), Ghost(head));
            let ghost known5 = grown@;

            proof {
                assert forall|i: int, to: Move|
                    0 <= i < head && #[trigger] self.step(known5[i], to) implies known5.contains(to) by {
                    if i == head - 1 {
                        assert(known5[i] == mv);
                        lemma_extends_contains(known1, known5, to);
                        lemma_extends_contains(known2, known5, to);
                        lemma_extends_contains(known3, known5, to);
                        lemma_extends_contains(known4, known5, to);
                    }
                }
                assert forall|i: int| 0 <= i < head implies move_list@[i] == self.placement(
                    #[trigger] known5[i],
                ) by {
                    assert(known5[i] == known[i]);
                }
                known = known5;
            }
        }

        let moves = sorted_distinct(&move_list);
        proof {
            assert(queue@.len() == 0);
            assert(head == known.len());
            assert(known.contains(spawn(piece))) by {
                assert(known[0] == spawn(piece));
            }
            assert forall|m: Move| moves@.contains(m) <==> self.is_placement(piece, m) by {
                if moves@.contains(m) {
                    let k = choose|k: int| 0 <= k < moves@.len() && moves@[k] == m;
                    assert(holds_first(move_list@, moves@[k]));
                    let i = choose|i: int| #[trigger]
                        first_of_its_kind(move_list@, i) && move_list@[i] == m;
                    assert(self.placement(known[i]) == m);
                    assert(self.reachable(piece, known[i]));
                }
                if self.is_placement(piece, m) {
                    let from = choose|from: Move| #[trigger]
                        self.reachable(piece, from) && self.placement(from) == m;
                    let path = choose|path: Seq<Move>| #[trigger]
                        self.is_path(piece, path) && path.last() == from;
                    self.lemma_closed_holds_path(piece, known, path, path.len() - 1);
                    let i = choose|i: int| 0 <= i < known.len() && known[i] == from;
                    assert(move_list@[i] == m);
                    // The list in normal form holds a move equal to it, and that move
                    // is a placement of the same piece: so it is the same in every field.
                    assert(holds_equal(moves@, move_list@[i]));
                    let k = choose|k: int| 0 <= k < moves@.len() && (#[trigger] moves@[k]).same(m);
                    assert(holds_first(move_list@, moves@[k]));
                    let j = choose|j: int| #[trigger]
                        first_of_its_kind(move_list@, j) && move_list@[j] == moves@[k];
                    assert(self.placement(known[j]) == moves@[k]);
                    self.lemma_placement_fits(piece, known[j]);
                    self.lemma_placement_fits(piece, from);
                    m.lemma_key_order(moves@[k]);
                    m.lemma_key_identifies(moves@[k]);
                    assert(moves@[k] == m);
                }
            }
            self.lemma_move_list_unique(piece, moves@);
        }
        moves
    }

    /// Whether moves can be generated from the queue.
    pub fn is_playable(&self) -> (r: bool)
        ensures
            r == self.playable(),
    {
        if self.queue.len() == 0 || self.queue[0] == Piece::G {
            return false;
        }
        match self.hold {
            Some(piece) => piece != Piece::G,
            None => self.queue.len() < 2 || self.queue[1] != Piece::G,
        }
    }

    /// The placements of the piece at the front of the queue, followed by those of the
    /// piece that can be played in its place: the held piece or, if none is held, the
    /// second of the queue.
    pub fn gen_moves(&self) -> (moves: Vec<Move>)
        requires
            self.playable(),
        ensures
            moves@ == self.candidates(),
            moves@.len() > 0,
    {
        let mut move_list: Vec<Move> = Vec::new();
        let mut front = self.gen_moves_for_piece(self.queue[0]);
        proof {
            self.lemma_move_list_not_empty(self.queue@[0], front@);
        }
        move_list.append(&mut front);
        if let Some(hold) = self.hold {
            let mut held = self.gen_moves_for_piece(hold);
            move_list.append(&mut held);
        } else if self.queue.len() >= 2 {
            let mut second = self.gen_moves_for_piece(self.queue[1]);
            move_list.append(&mut second);
        }
        move_list
    }
}

/// What a list holds, every list that starts with it holds too.
proof fn lemma_extends_contains(shorter: Seq<Move>, longer: Seq<Move>, m: Move)
    requires
        extends(shorter, longer),
    ensures
        shorter.contains(m) ==> longer.contains(m),
{
    if shorter.contains(m) {
        let i = choose|i: int| 0 <= i < shorter.len() && shorter[i] == m;
        assert(longer[i] == m);
    }
}

} // verus!
