//! Move generation and bot protocol for a falling-block puzzle game.
//!
//! - [`geometry`]: the pieces, the cells they cover and the kicks of their turns.
//! - [`moves`]: poses and moves, their order, and lists of moves in normal form.
//! - [`board`]: the grid with hold and queue, and what collides on it.
//! - [`steps`]: the single steps of a piece: shift, turn and drop.
//! - [`reach`]: the states that a piece can reach, and the placements they stand for.
//! - [`search`]: the search that lists those placements.
//! - [`placing`]: what placing a move does to the board.
//! - [`tbp`]: the messages of the protocol.
//! - [`harness`]: the state shared by the protocol loop and the search task.
//! - [`bot`]: strategies, and the one that plays at random.
//! - [`seen`]: the set of keys that the search keeps.

pub mod board;
pub mod bot;
pub mod geometry;
pub mod harness;
pub mod moves;
pub mod placing;
pub mod reach;
pub mod search;
pub mod seen;
pub mod steps;
pub mod tbp;

pub use crate::board::Board;
pub use crate::bot::{Bot, RandomBot, SearchStep, TaskState};
pub use crate::geometry::{Orientation, Piece, Rotation};
pub use crate::harness::{Reaction, SearchStatus};
pub use crate::moves::{Location, Move, Spin};
pub use crate::tbp::{BotInfo, BotMessage, FrontendMessage, TBPBoard};
