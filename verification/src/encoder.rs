//! Flattening a game into the input of a policy.

use vstd::prelude::*;
use crate::board::{Direction, Game, Turn, PITS};

verus! {

/// The length of a policy's input: both rows of pits and the direction.
pub const INPUTS: usize = 33;

/// The input that stands for a game: the seeds of the player to move, pit by
/// pit, then those of the waiting player, then the number of the direction.
pub open spec fn encoding(game: Game) -> Seq<u32> {
    game.active_spec().board_half@ + game.passive_spec().board_half@
        + seq![game.direction.input_enc_spec()]
}

/// Flattens `game` into the input of a policy.
pub fn encode(game: &Game) -> (input: [u32; 33])
    ensures
        input@ == encoding(*game),
        input@.subrange(0, 16) == game.active_spec().board_half@,
        input@.subrange(16, 32) == game.passive_spec().board_half@,
        input@[32] == game.direction.input_enc_spec(),
{
    let player = game.active();
    let opponent = game.passive();
    let mut input: [u32; 33] = [0; 33];
    let mut pit: usize = 0;
    while pit < PITS
        invariant
            pit <= PITS,
            *player == game.active_spec(),
            *opponent == game.passive_spec(),
            forall|i: int| 0 <= i < pit ==> input@[i] == player.board_half@[i],
            forall|i: int| 0 <= i < pit ==> input@[16 + i] == opponent.board_half@[i],
        decreases PITS - pit,
    {
        input[pit] = player.board_half[pit];
        input[PITS + pit] = opponent.board_half[pit];
        pit += 1;
    }
    input[INPUTS - 1] = game.direction.input_enc();
    input
}

/// On one snapshot, any two encodings are the same array.
pub proof fn lemma_encoding_is_a_function(game: Game, first: [u32; 33], second: [u32; 33])
    requires
        first@ == encoding(game),
        second@ == encoding(game),
    ensures
        first == second,
{
    assert(first =~= second);
}

/// With the first player to move, the input starts with the first player's
/// row and goes on with the second player's; with the second player to move,
/// the two rows change places. The direction comes last, as zero for
/// clockwise and one for counter-clockwise.
pub proof fn lemma_encoding_layout(game: Game)
    ensures
        encoding(game).len() == INPUTS,
        game.turn == Turn::Player1 ==> {
            &&& encoding(game).subrange(0, 16) == game.player1.board_half@
            &&& encoding(game).subrange(16, 32) == game.player2.board_half@
        },
        game.turn == Turn::Player2 ==> {
            &&& encoding(game).subrange(0, 16) == game.player2.board_half@
            &&& encoding(game).subrange(16, 32) == game.player1.board_half@
        },
        game.direction == Direction::CW ==> encoding(game)[32] == 0,
        game.direction == Direction::CCW ==> encoding(game)[32] == 1,
{
}

} // verus!
