//! Exhaustive search for the best move.
//!
//! A move is scored by playing it and looking at the board that results: a
//! finished game is scored at once, an unfinished one by the best score
//! that the other mark sees on it, negated. The best move is the first free
//! cell, in index order, whose score no other free cell exceeds.
//!
//! The search looks at a board as one of the two marks, which need not be
//! the mark that moves next: the marks are placed in turn whoever looks.

use vstd::prelude::*;
use crate::board::{
    lemma_marks_among_bounds,
    lemma_marks_among_full,
    lemma_marks_among_update,
    state_of,
    turn,
    vacancies,
    vacant,
    with_move,
    Board,
    State,
};
use crate::laws::{lemma_optimal_play_holds_score, lemma_score_is_not_beaten};
use crate::mark::Mark;

verus! {

/// What a finished game is worth to the player `p`: `+1` if `p` has three
/// in a row, `-1` if the other mark has, `0` for a tie.
pub open spec fn leaf_score(end: State, p: Mark) -> int {
    match end {
        State::Winner(w) => w.to_value() * p.to_value(),
        _ => 0,
    }
}

/// The score, as the player `p` sees it, of placing the next mark at the
/// free cell `i`: what the game is worth to `p` if the move ends it, and
/// otherwise the negated score that the other mark sees on the board after
/// the move.
pub open spec fn move_score(cells: Seq<Option<Mark>>, i: int, p: Mark) -> int
    decreases vacancies(cells), 0int,
    when cells.len() == 9 && vacant(cells, i)
    via move_score_terminates
{
    let next = with_move(cells, i);
    match state_of(next) {
        State::Turn(_) => -score(next, p.other()),
        end => leaf_score(end, p),
    }
}

/// The best move among the free cells below `n` with its score, as the
/// player `p` sees it; of several moves with the best score, the one at the
/// lowest index. `None` if no cell below `n` is free.
pub open spec fn best_upto(cells: Seq<Option<Mark>>, p: Mark, n: int) -> Option<(int, int)>
    decreases vacancies(cells), n,
{
    if n <= 0 {
        None
    } else {
        let before = best_upto(cells, p, n - 1);
        if cells.len() == 9 && vacant(cells, n - 1) {
            let s = move_score(cells, n - 1, p);
            match before {
                Some((_, t)) => if t >= s {
                    before
                } else {
                    Some((n - 1, s))
                },
                None => Some((n - 1, s)),
            }
        } else {
            before
        }
    }
}

/// The best score that the player `p` sees among the moves on this board,
/// or `0` if the board has no free cell.
pub open spec fn score(cells: Seq<Option<Mark>>, p: Mark) -> int
    decreases vacancies(cells), 10int,
{
    match best_upto(cells, p, 9) {
        Some((_, t)) => t,
        None => 0,
    }
}

/// The move that `best_upto` picks among all nine cells.
pub open spec fn best_move(cells: Seq<Option<Mark>>, p: Mark) -> int {
    match best_upto(cells, p, 9) {
        Some((m, _)) => m,
        None => 0,
    }
}

#[via_fn]
proof fn move_score_terminates(cells: Seq<Option<Mark>>, i: int, p: Mark) {
    lemma_marks_among_update(cells, i, turn(cells), 9);
    lemma_marks_among_bounds(with_move(cells, i), 9);
}

/// `best_upto` picks a free cell below `n`, reports that cell's score, and
/// no free cell below `n` scores higher nor, before the chosen one, as high.
pub proof fn lemma_best_upto(cells: Seq<Option<Mark>>, p: Mark, n: int)
    requires
        cells.len() == 9,
        0 <= n <= 9,
    ensures
        match best_upto(cells, p, n) {
            Some((m, t)) => {
                &&& 0 <= m < n
                &&& vacant(cells, m)
                &&& t == move_score(cells, m, p)
                &&& forall|i: int|
                    0 <= i < n && vacant(cells, i) ==> #[trigger] move_score(cells, i, p) <= t
                &&& forall|i: int|
                    0 <= i < m && vacant(cells, i) ==> #[trigger] move_score(cells, i, p) < t
            },
            None => forall|i: int| 0 <= i < n ==> !vacant(cells, i),
        },
    decreases n,
{
    if n > 0 {
        lemma_best_upto(cells, p, n - 1);
    }
}

/// While the game goes on, the best move is a free cell, the score of the
/// board is the score of that move, no free cell scores higher, and no
/// free cell before it scores as high.
pub proof fn lemma_best_move(cells: Seq<Option<Mark>>, p: Mark)
    requires
        cells.len() == 9,
        state_of(cells) is Turn,
    ensures
        vacant(cells, best_move(cells, p)),
        score(cells, p) == move_score(cells, best_move(cells, p), p),
        forall|i: int| vacant(cells, i) ==> #[trigger] move_score(cells, i, p) <= score(cells, p),
        forall|i: int|
            vacant(cells, i) && i < best_move(cells, p) ==> #[trigger] move_score(cells, i, p)
                < score(cells, p),
{
    lemma_best_upto(cells, p, 9);
    lemma_marks_among_full(cells, 9);
    let free = choose|i: int| 0 <= i < 9 && cells[i] is None;
    assert(vacant(cells, free));
}

/// Following the search for `p` ends the game worth at least `v` to `p`:
/// if the mark that moves now is placed where `best_move` says for `p`, and
/// again so after each reply, then whatever the replies are the game ends
/// worth at least `v` to `p`. This is said of a board on which the game
/// goes on.
pub open spec fn secures(cells: Seq<Option<Mark>>, p: Mark, v: int) -> bool
    decreases vacancies(cells),
    when cells.len() == 9 && state_of(cells) is Turn
    via secures_terminates
{
    let mine = with_move(cells, best_move(cells, p));
    if state_of(mine) is Turn {
        forall|r: int| #[trigger]
            vacant(mine, r) ==> {
                let theirs = with_move(mine, r);
                if state_of(theirs) is Turn {
                    secures(theirs, p, v)
                } else {
                    leaf_score(state_of(theirs), p) >= v
                }
            }
    } else {
        leaf_score(state_of(mine), p) >= v
    }
}

#[via_fn]
proof fn secures_terminates(cells: Seq<Option<Mark>>, p: Mark, v: int) {
    lemma_best_move(cells, p);
    let mine = with_move(cells, best_move(cells, p));
    lemma_marks_among_update(cells, best_move(cells, p), turn(cells), 9);
    assert forall|r: int| vacant(mine, r) implies 0 <= vacancies(with_move(mine, r)) < vacancies(
        cells,
    ) by {
        lemma_marks_among_update(mine, r, turn(mine), 9);
        lemma_marks_among_bounds(with_move(mine, r), 9);
    }
}

/// Searches every way the game can go on and returns the free cell whose
/// score, as `player` sees it, is highest, together with that score. Of
/// several cells with the highest score the one at the lowest index is
/// returned. The game must still go on.
///
/// The score is what following the search is good for: placing this mark
/// and every second mark after it where the search says for `player` ends
/// the game worth at least the score to `player`; and wherever this mark
/// is placed, placing the next and every second mark after it where the
/// search says for the other player ends the game worth at most the score
/// to `player`.
pub fn minimax(board: Board, player: Mark) -> (best: (usize, i8))
    requires
        state_of(board@) is Turn,
    ensures
        vacant(board@, best.0 as int),
        best.1 == move_score(board@, best.0 as int, player),
        forall|i: int| vacant(board@, i) ==> #[trigger] move_score(board@, i, player) <= best.1,
        forall|i: int|
            vacant(board@, i) && i < best.0 ==> #[trigger] move_score(board@, i, player) < best.1,
        best.0 == best_move(board@, player),
        best.1 == score(board@, player),
        -1 <= best.1 <= 1,
        secures(board@, player, best.1 as int),
        forall|i: int| #[trigger]
            vacant(board@, i) && state_of(with_move(board@, i)) is Turn ==> secures(
                with_move(board@, i),
                player.other(),
                -best.1,
            ),
    decreases vacancies(board@),
{
    proof {
        board.lemma_nine_cells();
        lemma_marks_among_bounds(board@, 9);
        lemma_marks_among_full(board@, 9);
    }
    let possible = board.empty();
    let mut best: Option<(usize, i8)> = None;
    let mut n: usize = 0;
    while n < possible.len()
        invariant
            0 <= n <= possible.len(),
            board@.len() == 9,
            state_of(board@) is Turn,
            forall|k: int| 0 <= k < possible.len() ==> vacant(board@, #[trigger] possible[k] as int),
            forall|j: int, k: int| 0 <= j < k < possible.len() ==> possible[j] < possible[k],
            match best {
                Some((m, t)) => {
                    &&& exists|k: int| 0 <= k < n && possible[k] == m
                    &&& t == move_score(board@, m as int, player)
                    &&& -1 <= t <= 1
                    &&& forall|k: int|
                        0 <= k < n ==> move_score(board@, #[trigger] possible[k] as int, player)
                            <= t
                    &&& forall|k: int|
                        0 <= k < n && possible[k] < m ==> move_score(
                            board@,
                            #[trigger] possible[k] as int,
                            player,
                        ) < t
                },
                None => n == 0,
            },
        decreases possible.len() - n,
    {
        let mve = possible[n];
        let mut new_board = board;
        new_board.place(mve);
        let s: i8 = match new_board.get_state() {
            State::Turn(_) => {
                proof {
                    lemma_marks_among_update(board@, mve as int, turn(board@), 9);
                    lemma_marks_among_bounds(new_board@, 9);
                }
                -minimax(new_board, player.other()).1
            },
            State::Tie => 0,
            State::Winner(m) => {
                proof {
                    m.lemma_value_product(player);
                }
                m.to_value() * player.to_value()
            },
        };
        match best {
            Some((_, t)) => {
                if t < s {
                    best = Some((mve, s));
                }
            },
            None => {
                best = Some((mve, s));
            },
        }
        n += 1;
    }
    let found = best.unwrap();
    proof {
        lemma_best_upto(board@, player, 9);
        lemma_optimal_play_holds_score(board@, player);
        assert forall|i: int| #[trigger]
            vacant(board@, i) && state_of(with_move(board@, i)) is Turn implies secures(
            with_move(board@, i),
            player.other(),
            -found.1,
        ) by {
            lemma_score_is_not_beaten(board@, player, i);
        }
    }
    found
}

} // verus!
