//! One round of a game against the search: a move by the player at the
//! console, and the answer to it.

use vstd::prelude::*;
use crate::board::{legal, state_of, with_move, Board, State};
use crate::mark::Mark;
use crate::search::{best_move, minimax};

verus! {

/// What came of a round.
#[derive(Debug, PartialEq, Eq, Clone, Copy, Structural)]
pub enum Round {
    /// The move was not legal. The board is as it was, and the same player
    /// is to be asked again.
    Rejected,
    /// The move was placed and ended the game. No answer was given.
    Ended,
    /// The move was placed and answered with a mark at the given cell.
    Answered(usize),
}

/// Places the player's mark at `index` and, if the game then goes on,
/// answers with the move that is best for `O`, the mark of the second
/// player. An illegal move changes nothing.
pub fn play_round(board: &mut Board, index: usize) -> (round: Round)
    ensures
        !legal(old(board)@, index as int) ==> round == Round::Rejected && *final(board) == *old(
            board,
        ),
        legal(old(board)@, index as int) ==> {
            let placed = with_move(old(board)@, index as int);
            if state_of(placed) is Turn {
                let answer = best_move(placed, Mark::O);
                &&& round == Round::Answered(answer as usize)
                &&& final(board)@ == with_move(placed, answer)
            } else {
                &&& round == Round::Ended
                &&& final(board)@ == placed
            }
        },
{
    if board.place(index).is_none() {
        return Round::Rejected;
    }
    match board.get_state() {
        State::Turn(_) => {
            let answer = minimax(*board, Mark::O).0;
            board.place(answer);
            Round::Answered(answer)
        },
        _ => Round::Ended,
    }
}

} // verus!
