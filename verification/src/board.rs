//! The snapshot of a game that a decision is made on.
//!
//! The rules of the game live elsewhere: a snapshot only carries what they
//! hand over, which is the two rows of pits, whose turn it is, the sowing
//! direction, and for each player which pits may be played.

use vstd::prelude::*;

verus! {

/// The number of pits in one player's row, and so the number of moves to
/// choose from.
pub const PITS: usize = 16;

/// The direction in which seeds are sown.
#[derive(Clone, Copy, Debug, PartialEq, Eq, Structural)]
pub enum Direction {
    /// Clockwise.
    CW,
    /// Counter-clockwise.
    CCW,
}

impl Direction {
    /// The number that stands for the direction in a policy's input.
    pub open spec fn input_enc_spec(self) -> u32 {
        match self {
            Direction::CW => 0,
            Direction::CCW => 1,
        }
    }

    /// The number that stands for the direction in a policy's input: zero for
    /// clockwise, one for counter-clockwise.
    #[verifier::when_used_as_spec(input_enc_spec)]
    pub fn input_enc(self) -> (enc: u32)
        ensures
            enc == self.input_enc_spec(),
    {
        match self {
            Direction::CW => 0,
            Direction::CCW => 1,
        }
    }
}

/// Whose turn it is.
#[derive(Clone, Copy, Debug, PartialEq, Eq, Structural)]
pub enum Turn {
    Player1,
    Player2,
}

/// One player's side of the board.
#[derive(Clone, Copy, Debug)]
pub struct Player {
    /// The seeds in each pit of the player's row, in board order.
    pub board_half: [u32; 16],
    /// For each pit, whether the rules let the player start a move from it.
    pub valid: [bool; 16],
}

impl Player {
    /// Whether `index` names a pit that the player may play.
    pub open spec fn is_valid_index_spec(&self, index: usize) -> bool {
        index < PITS && self.valid@[index as int]
    }

    /// Whether `index` names a pit that the player may play. An index past
    /// the row is never valid.
    #[verifier::when_used_as_spec(is_valid_index_spec)]
    pub fn is_valid_index(&self, index: usize) -> (valid: bool)
        ensures
            valid == self.is_valid_index_spec(index),
    {
        index < PITS && self.valid[index]
    }

    /// Whether the player has any pit to play.
    pub open spec fn has_valid_index(&self) -> bool {
        exists|index: usize| self.is_valid_index_spec(index)
    }
}

/// A game at the moment a move is to be chosen.
#[derive(Clone, Copy, Debug)]
pub struct Game {
    pub player1: Player,
    pub player2: Player,
    /// The player who is to move.
    pub turn: Turn,
    pub direction: Direction,
}

impl Game {
    /// The player who is to move.
    pub open spec fn active_spec(&self) -> Player {
        match self.turn {
            Turn::Player1 => self.player1,
            Turn::Player2 => self.player2,
        }
    }

    /// The player who is waiting.
    pub open spec fn passive_spec(&self) -> Player {
        match self.turn {
            Turn::Player1 => self.player2,
            Turn::Player2 => self.player1,
        }
    }

    /// Whose turn it is.
    pub fn turn(&self) -> (turn: Turn)
        ensures
            turn == self.turn,
    {
        self.turn
    }

    /// The player who is to move.
    pub fn active(&self) -> (player: &Player)
        ensures
            *player == self.active_spec(),
    {
        match self.turn {
            Turn::Player1 => &self.player1,
            Turn::Player2 => &self.player2,
        }
    }

    /// The player who is waiting.
    pub fn passive(&self) -> (player: &Player)
        ensures
            *player == self.passive_spec(),
    {
        match self.turn {
            Turn::Player1 => &self.player2,
            Turn::Player2 => &self.player1,
        }
    }
}

} // verus!
