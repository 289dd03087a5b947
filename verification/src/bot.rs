//! Strategies, and the one that plays at random.

use rand::Rng;
use vstd::prelude::*;
use crate::board::Board;
use crate::harness::{SearchStatus, StatusView};
use crate::moves::Move;
use crate::reach::playable_with;

verus! {

/// How a search task goes on after a round.
#[derive(Clone, Copy, Debug, PartialEq, Eq, Structural)]
pub enum TaskState {
    /// The task goes on with another round.
    Running,
    /// The task found that it has to end.
    Finished,
    /// The task cannot go on: the game handed to it cannot be played.
    Failed,
}

/// What a round of a search task leaves to do.
pub struct SearchStep {
    /// The moves to send in answer to a request for a suggestion, if there was one.
    pub published: Option<Vec<Move>>,
    /// How the task goes on.
    pub state: TaskState,
}

/// A strategy: it owns the board of a game and is driven round by round.
///
/// A round offers the moves the strategy prefers, looks whether the task has to end,
/// and takes in what the frontend has played and dealt since the round before. A
/// strategy never touches the flag that keeps its task alive, answers a request for a
/// suggestion in the round that finds it, and ends in the round that finds the flag
/// cleared.
pub trait Bot: Sized {
    /// What the strategy keeps true of itself from round to round.
    spec fn well_formed(&self) -> bool;

    /// The strategy at the start of a game.
    fn new(board: Board) -> (bot: Self)
        ensures
            bot.well_formed(),
    ;

    /// One round of the search task.
    fn search(&mut self, search_states: &mut SearchStatus) -> (step: SearchStep)
        requires
            old(self).well_formed(),
        ensures
            final(self).well_formed(),
            final(search_states)@.calculating == old(search_states)@.calculating,
            !final(search_states)@.want_moves,
            step.published is Some <==> old(search_states)@.want_moves,
            !old(search_states)@.calculating ==> step.state is Finished,
    ;
}

/// The strategy that picks one of the moves that can be played, at random.
pub struct RandomBot {
    /// The board as the strategy knows it.
    pub board: Board,
    /// The move that the strategy suggests. It is missing once the board cannot be
    /// played.
    pub choice: Option<Move>,
}

/// A number from `rand::Rng::gen_range`, called for the range `0..len` on the
/// generator that `rand::thread_rng` gives. The number lies in the range; which one it
/// is, is up to chance. `gen_range` panics on an empty range, which is left out.
/// `thread_rng` panics where the system gives it no seed, whatever the range.
#[verifier::external_body]
fn random_index(len: usize) -> (index: usize)
    requires
        len > 0,
    ensures
        index < len,
{
    rand::thread_rng().gen_range(0..len)
}

/// The move at the given place of the list.
pub fn pick(moves: &Vec<Move>, index: usize) -> (r: Move)
    requires
        index < moves@.len(),
    ensures
        r == moves@[index as int],
{
    moves[index]
}

impl RandomBot {
    /// The list that the strategy offers: its choice alone, or nothing.
    pub open spec fn shown(self) -> Seq<Move> {
        match self.choice {
            Some(mv) => seq![mv],
            None => Seq::empty(),
        }
    }

    /// How the task goes on after a round that finds the shared state as given.
    ///
    /// It ends if it is told to. Else it fails if the strategy has no choice, if a
    /// move was played that cannot be placed, or if the board cannot be played once
    /// the move is placed.
    pub open spec fn outcome(self, status: StatusView) -> TaskState {
        if !status.calculating {
            TaskState::Finished
        } else if self.choice is None {
            TaskState::Failed
        } else {
            match status.play_move {
                Some(mv) => if self.board.accepts(mv) && playable_with(
                    self.board.hold_after(mv),
                    self.board.queue_after(mv),
                ) {
                    TaskState::Running
                } else {
                    TaskState::Failed
                },
                None => TaskState::Running,
            }
        }
    }

    /// One of the moves that can be played on the board, at random.
    pub fn get_move(board: &Board) -> (r: Move)
        requires
            board.playable(),
        ensures
            board.candidates().contains(r),
            board.offers(r),
    {
        let moves = board.gen_moves();
        let index: usize = random_index(moves.len());
        proof {
            board.lemma_candidates_offered(moves@[index as int]);
        }
        pick(&moves, index)
    }
}

impl Bot for RandomBot {
    /// The move that the strategy suggests is one that can be played on its board.
    open spec fn well_formed(&self) -> bool {
        self.choice matches Some(mv) ==> self.board.offers(mv)
    }

    /// The strategy at the start of a game, with its first choice made if the board
    /// can be played.
    fn new(board: Board) -> (r: RandomBot)
        ensures
            r.board == board,
            r.choice is Some <==> board.playable(),
    {
        let choice = if board.is_playable() {
            Some(RandomBot::get_move(&board))
        } else {
            None
        };
        RandomBot { board, choice }
    }

    /// One round of the search task.
    ///
    /// The choice is offered, alone in its list. If the task has to end, the round
    /// ends here. Else a move that was played is taken and placed on the board, a new
    /// choice is made, and a piece that was dealt is taken and joins the queue. A round
    /// that fails leaves the strategy without a choice, and the piece that was dealt
    /// where it is.
    fn search(&mut self, search_states: &mut SearchStatus) -> (step: SearchStep)
        ensures
            step.published matches Some(list) ==> list@ == old(self).shown(),
            step.state == old(self).outcome(old(search_states)@),
            final(self).board.combo == old(self).board.combo,
            final(self).board.back_to_back == old(self).board.back_to_back,
            step.state is Finished ==> {
                &&& final(search_states)@ == old(search_states)@.moves_offered()
                &&& *final(self) == *old(self)
            },
            step.state is Failed ==> {
                &&& final(self).choice is None
                &&& final(search_states)@.new_piece == old(search_states)@.new_piece
                &&& final(search_states)@.play_move is Some ==> old(self).choice is None
                &&& match old(search_states)@.play_move {
                    Some(mv) if old(self).choice is Some && old(self).board.accepts(mv) => old(
                        self,
                    ).board.is_played(mv, final(self).board),
                    _ => final(self).board == old(self).board,
                }
            },
            step.state is Running ==> {
                &&& final(search_states)@ == old(search_states)@.moves_offered().move_taken().piece_taken()
                &&& final(self).choice is Some
                &&& match old(search_states)@.play_move {
                    Some(mv) => {
                        &&& old(self).board.is_settled(mv, final(self).board)
                        &&& final(self).board.hold == old(self).board.hold_after(mv)
                        &&& final(self).board.queue@ == old(self).board.queue_after(mv)
                            + old(search_states)@.dealt()
                    },
                    None => {
                        &&& final(self).board.board == old(self).board.board
                        &&& final(self).board.hold == old(self).board.hold
                        &&& final(self).board.queue@ == old(self).board.queue@
                            + old(search_states)@.dealt()
                        &&& final(self).choice == old(self).choice
                    },
                }
            },
    {
        let mut list: Vec<Move> = Vec::new();
        if let Some(mv) = self.choice {
            list.push(mv);
        }
        let published = search_states.current_moves(&list);
        if search_states.terminate() {
            return SearchStep { published, state: TaskState::Finished };
        }
        if self.choice.is_none() {
            return SearchStep { published, state: TaskState::Failed };
        }
        if let Some(new_move) = search_states.new_move() {
            if !self.board.can_place(&new_move) {
                self.choice = None;
                return SearchStep { published, state: TaskState::Failed };
            }
            self.board.make_move_in_place(new_move);
            if !self.board.is_playable() {
                self.choice = None;
                return SearchStep { published, state: TaskState::Failed };
            }
            self.choice = Some(RandomBot::get_move(&self.board));
        }
        let ghost before = self.board;
        if let Some(piece) = search_states.new_piece() {
            self.board.queue.push(piece);
        }
        proof {
            // A piece that joins the queue at its end takes no move away.
            let mv = self.choice->0;
            before.lemma_same_grid_placement(self.board, before.queue@[0], mv);
            if let Some(other) = before.alternative() {
                before.lemma_same_grid_placement(self.board, other, mv);
            }
        }
        SearchStep { published, state: TaskState::Running }
    }
}

} // verus!
