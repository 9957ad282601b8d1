//! A multiplayer session server core: named rooms hold a lobby roster or a
//! running turn-based game, and every mutation keeps the roster, the turn
//! order and the per-player push channels consistent.
//!
//! The room registry, the room state machine and the game engines are
//! verified; delivery of events over real channels is left to the binary
//! that embeds this crate.

pub mod bingo;
pub mod bluff;
pub mod boxes;
pub mod data;
pub mod games;
pub mod logic;
pub mod ranking;
pub mod registry;
pub mod utils;

use vstd::prelude::*;

verus! {

/// The error taxonomy shared by every operation of the crate.  All failures
/// are reported to the caller; none leaves a room in a partially updated
/// state.
#[derive(Clone, Copy, Debug, PartialEq, Eq, Structural)]
pub enum Error {
    /// No room with the requested id exists in the registry.
    RoomNotFound,
    /// The named player has no roster entry in the room.
    PlayerNotFound,
    /// A room with the freshly drawn id already exists.
    CannotCreate,
    /// The room is in game mode and the player is not part of the game.
    GameAlreadyRunning,
    /// An in-game action arrived while the room is still in the lobby.
    GameNotRunning,
    /// The acting player does not hold the turn.
    NotYourTurn,
    /// The move is rejected by the active game's rules.
    InvalidMove,
    /// A submitted board is not a square grid of distinct in-range values.
    InvalidBoard,
    /// The player already submitted a board for this game.
    BoardAlreadySet,
    /// The message belongs to a different game variant than the active one.
    WrongGameMessage,
}

} // verus!
