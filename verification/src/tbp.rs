//! The messages of the bot protocol, as plain values.

use vstd::prelude::*;
use crate::geometry::Piece;
use crate::moves::Move;

verus! {

/// A message from the frontend.
pub enum FrontendMessage {
    /// The rules of the game to come. The bot answers that it is ready.
    Rules,
    /// Begin to calculate on the game of the snapshot.
    Start(TBPBoard),
    /// Stop calculating.
    Stop,
    /// Suggest moves, in order of preference.
    Suggest,
    /// The move was played: go on from the position after it.
    Play { mv: Move },
    /// The piece joins the queue.
    NewPiece { piece: Piece },
    /// Leave.
    Quit,
}

/// A message to the frontend.
pub enum BotMessage {
    /// Something went wrong.
    Error { reason: String },
    /// The bot is ready for a game.
    Ready,
    /// What the bot says of itself when it starts.
    Info(BotInfo),
    /// The moves that the bot suggests, in order of preference.
    Suggestion { moves: Vec<Move> },
}

/// The snapshot of a game that comes with `Start`: rows from the floor up, each a
/// list of cells from the left wall.
pub struct TBPBoard {
    /// The piece that is held back, if one is.
    pub hold: Option<Piece>,
    /// The pieces to come, the next one first.
    pub queue: Vec<Piece>,
    /// The count of the running combo.
    pub combo: u32,
    /// Whether a back-to-back is running.
    pub back_to_back: bool,
    /// The rows of the grid, each with the marker of every filled cell.
    pub board: Vec<Vec<Option<char>>>,
}

/// What a bot says of itself when it starts.
pub struct BotInfo {
    /// The name of the bot.
    pub name: &'static str,
    /// Its version.
    pub version: &'static str,
    /// Who wrote it.
    pub author: &'static str,
    /// The features of the protocol that it supports.
    pub features: &'static [&'static str],
}

impl TBPBoard {
    /// Whether the snapshot holds at least forty rows of at least ten cells each.
    pub open spec fn covers_grid(self) -> bool {
        &&& self.board@.len() >= 40
        &&& forall|y: int| 0 <= y < 40 ==> (#[trigger] self.board@[y])@.len() >= 10
    }

    /// Whether the snapshot holds at least forty rows of at least ten cells each.
    pub fn has_full_grid(&self) -> (r: bool)
        ensures
            r == self.covers_grid(),
    {
        if self.board.len() < 40 {
            return false;
        }
        let mut y: usize = 0;
        while y < 40
            invariant
                y <= 40,
                self.board@.len() >= 40,
                forall|k: int| 0 <= k < y ==> (#[trigger] self.board@[k])@.len() >= 10,
            decreases 40 - y,
        {
            if self.board[y].len() < 10 {
                return false;
            }
            y += 1;
        }
        true
    }
}

} // verus!
