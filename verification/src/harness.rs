//! The state that the protocol loop and the search task share, and what each of the two
//! does to it.
//!
//! The state is a plain value. Whoever runs the two sides keeps it behind a lock and
//! calls one method at a time; what is sent and received, and the task itself, are
//! theirs.

use vstd::prelude::*;
use crate::board::Board;
use crate::geometry::Piece;
use crate::moves::Move;
use crate::tbp::{BotMessage, FrontendMessage};

verus! {

/// The state shared between the protocol loop and the search task.
pub struct SearchStatus {
    calculating: bool,
    want_moves: bool,
    new_piece: Option<Piece>,
    play_move: Option<Move>,
}

/// What the shared state holds.
pub struct StatusView {
    /// Whether a search task is alive. A task ends when it finds this cleared.
    pub calculating: bool,
    /// Whether a suggestion has been asked for and not yet been given.
    pub want_moves: bool,
    /// The piece that joins the queue, until the task takes it.
    pub new_piece: Option<Piece>,
    /// The move that was played, until the task takes it.
    pub play_move: Option<Move>,
}

/// What the protocol loop has to do after a message.
pub enum Reaction {
    /// Send the message.
    Reply(BotMessage),
    /// Leave the loop.
    Quit,
    /// Nothing: read the next message.
    Continue,
    /// Wait for the list that the task gives, and send it as a suggestion.
    AwaitSuggestion,
    /// Start a search task on the board.
    Spawn(Board),
    /// Nothing: a task is alive, and the start is turned down.
    AlreadyCalculating,
}

impl View for SearchStatus {
    type V = StatusView;

    closed spec fn view(&self) -> StatusView {
        StatusView {
            calculating: self.calculating,
            want_moves: self.want_moves,
            new_piece: self.new_piece,
            play_move: self.play_move,
        }
    }
}

impl StatusView {
    /// The state while nothing is going on.
    pub open spec fn idle() -> StatusView {
        StatusView { calculating: false, want_moves: false, new_piece: None, play_move: None }
    }

    /// The state after the protocol loop has handled a message.
    pub open spec fn after(self, msg: FrontendMessage) -> StatusView {
        match msg {
            FrontendMessage::Rules => self,
            FrontendMessage::Quit => self,
            FrontendMessage::Stop => StatusView { calculating: false, ..self },
            FrontendMessage::Suggest => StatusView { want_moves: true, ..self },
            FrontendMessage::Play { mv } => StatusView { play_move: Some(mv), ..self },
            FrontendMessage::NewPiece { piece } => StatusView { new_piece: Some(piece), ..self },
            FrontendMessage::Start(_) => StatusView { calculating: true, ..self },
        }
    }

    /// Whether a message makes the protocol loop start a search task.
    pub open spec fn spawns(self, msg: FrontendMessage) -> bool {
        msg is Start && !self.calculating
    }

    /// Whether `reaction` is what the protocol loop has to do after the message.
    pub open spec fn answers(self, msg: FrontendMessage, reaction: Reaction) -> bool {
        match msg {
            FrontendMessage::Rules => reaction matches Reaction::Reply(BotMessage::Ready),
            FrontendMessage::Quit => reaction is Quit,
            FrontendMessage::Stop => reaction is Continue,
            FrontendMessage::Suggest => reaction is AwaitSuggestion,
            FrontendMessage::Play { .. } => reaction is Continue,
            FrontendMessage::NewPiece { .. } => reaction is Continue,
            FrontendMessage::Start(snapshot) => if self.calculating {
                reaction is AlreadyCalculating
            } else {
                (reaction matches Reaction::Spawn(board) && board.is_snapshot_of(snapshot))
            },
        }
    }

    /// The state after the protocol loop has handled the messages one after the other.
    pub open spec fn after_all(self, msgs: Seq<FrontendMessage>) -> StatusView
        decreases msgs.len(),
    {
        if msgs.len() == 0 {
            self
        } else {
            self.after_all(msgs.drop_last()).after(msgs.last())
        }
    }

    /// The state after the task has taken the move that was played.
    pub open spec fn move_taken(self) -> StatusView {
        StatusView { play_move: None, ..self }
    }

    /// The state after the task has taken the piece that joins the queue.
    pub open spec fn piece_taken(self) -> StatusView {
        StatusView { new_piece: None, ..self }
    }

    /// The piece that joins the queue, as a list of one piece or none.
    pub open spec fn dealt(self) -> Seq<Piece> {
        match self.new_piece {
            Some(piece) => seq![piece],
            None => Seq::empty(),
        }
    }

    /// The state after the task has offered its moves.
    pub open spec fn moves_offered(self) -> StatusView {
        StatusView { want_moves: false, ..self }
    }

    /// While a task is alive and no message stops it, no message starts a second one,
    /// and the task stays alive. In particular a second `Start` starts nothing and
    /// changes nothing.
    pub proof fn lemma_one_task(self, msgs: Seq<FrontendMessage>)
        requires
            self.calculating,
            forall|i: int| 0 <= i < msgs.len() ==> !(#[trigger] msgs[i] is Stop),
        ensures
            self.after_all(msgs).calculating,
            forall|i: int|
                0 <= i < msgs.len() ==> !(#[trigger] self.after_all(msgs.take(i))).spawns(msgs[i]),
            forall|i: int|
                0 <= i < msgs.len() && msgs[i] is Start ==> (#[trigger] self.after_all(
                    msgs.take(i + 1),
                )) == self.after_all(msgs.take(i)),
        decreases msgs.len(),
    {
        if msgs.len() > 0 {
            let front = msgs.drop_last();
            self.lemma_one_task(front);
            assert forall|i: int| 0 <= i < msgs.len() implies (#[trigger] self.after_all(
                msgs.take(i),
            )).calculating by {
                if i < front.len() {
                    assert(msgs.take(i) =~= front.take(i));
                    self.lemma_one_task(front.take(i));
                } else {
                    assert(msgs.take(i) =~= front);
                }
            }
            assert forall|i: int| 0 <= i < msgs.len() && msgs[i] is Start implies (
            #[trigger] self.after_all(msgs.take(i + 1))) == self.after_all(msgs.take(i)) by {
                assert(msgs.take(i + 1).drop_last() =~= msgs.take(i));
                assert(self.after_all(msgs.take(i)).calculating);
            }
        }
    }

    /// Whatever the state, a `Start` makes a task alive, and a `Start` that follows it
    /// starts no second task and changes nothing.
    pub proof fn lemma_second_start(self, first: FrontendMessage, second: FrontendMessage)
        requires
            first is Start,
            second is Start,
        ensures
            self.after(first).calculating,
            !self.after(first).spawns(second),
            self.after(first).after(second) == self.after(first),
    {
    }

    /// Of two moves played before the task looks, the task gets the second and never
    /// the first: it takes the second once, and after that finds nothing.
    pub proof fn lemma_last_play_wins(self, first: Move, second: Move)
        ensures
            self.after(FrontendMessage::Play { mv: first }).after(
                FrontendMessage::Play { mv: second },
            ).play_move == Some(second),
            self.after(FrontendMessage::Play { mv: first }).after(
                FrontendMessage::Play { mv: second },
            ).move_taken().play_move is None,
    {
    }
}

impl SearchStatus {
    /// The state while nothing is going on: no task, no request, nothing pending.
    pub fn new() -> (r: SearchStatus)
        ensures
            r@ == StatusView::idle(),
    {
        SearchStatus { calculating: false, want_moves: false, new_piece: None, play_move: None }
    }

    /// Handles one message of the frontend on the side of the protocol loop.
    ///
    /// `Start` while a task is alive is turned down and changes nothing. `Stop` only
    /// clears the flag that the task looks at. `Play` and `NewPiece` overwrite what was
    /// pending, taken or not.
    pub fn handle_message(&mut self, msg: FrontendMessage) -> (reaction: Reaction)
        requires
            msg matches FrontendMessage::Start(snapshot) ==> old(self)@.calculating
                || snapshot.covers_grid(),
        ensures
            final(self)@ == old(self)@.after(msg),
            old(self)@.answers(msg, reaction),
            reaction is Spawn <==> old(self)@.spawns(msg),
    {
        match msg {
            FrontendMessage::Rules => Reaction::Reply(BotMessage::Ready),
            FrontendMessage::Quit => Reaction::Quit,
            FrontendMessage::Stop => {
                self.calculating = false;
                Reaction::Continue
            },
            FrontendMessage::Suggest => {
                self.want_moves = true;
                Reaction::AwaitSuggestion
            },
            FrontendMessage::Play { mv } => {
                self.play_move = Some(mv);
                Reaction::Continue
            },
            FrontendMessage::NewPiece { piece } => {
                self.new_piece = Some(piece);
                Reaction::Continue
            },
            FrontendMessage::Start(tbp_board) => {
                if self.calculating {
                    Reaction::AlreadyCalculating
                } else {
                    let board = Board::from_tbp(tbp_board);
                    self.calculating = true;
                    Reaction::Spawn(board)
                }
            },
        }
    }

    /// Whether the task has to end.
    pub fn terminate(&self) -> (r: bool)
        ensures
            r == !self@.calculating,
    {
        !self.calculating
    }

    /// Offers the moves that the task prefers. They are handed back, to be sent, if a
    /// suggestion has been asked for since the last one was given; the request is then
    /// answered.
    pub fn current_moves(&mut self, moves: &Vec<Move>) -> (sent: Option<Vec<Move>>)
        ensures
            old(self)@.want_moves ==> (sent matches Some(list) && list@ == moves@),
            old(self)@.want_moves ==> final(self)@ == old(self)@.moves_offered(),
            !old(self)@.want_moves ==> sent is None && final(self)@ == old(self)@,
    {
        if self.want_moves {
            let list = moves.clone();
            assert(list@ =~= moves@);
            self.want_moves = false;
            Some(list)
        } else {
            None
        }
    }

    /// Takes the move that was played, if one is pending.
    pub fn new_move(&mut self) -> (r: Option<Move>)
        ensures
            r == old(self)@.play_move,
            final(self)@ == old(self)@.move_taken(),
    {
        let taken = self.play_move;
        self.play_move = None;
        taken
    }

    /// Takes the piece that joins the queue, if one is pending.
    pub fn new_piece(&mut self) -> (r: Option<Piece>)
        ensures
            r == old(self)@.new_piece,
            final(self)@ == old(self)@.piece_taken(),
    {
        let taken = self.new_piece;
        self.new_piece = None;
        taken
    }
}

} // verus!
