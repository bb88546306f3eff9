//! Laws that relate the state of a game, the moves and the search.

use vstd::prelude::*;
use crate::board::{
    has_line,
    is_full,
    legal,
    lemma_first_line_from,
    lemma_marks_among_bounds,
    lemma_marks_among_update,
    line_mark,
    occupied,
    state_of,
    turn,
    vacancies,
    vacant,
    with_move,
    State,
};
use crate::mark::Mark;
use crate::search::{
    best_move,
    leaf_score,
    lemma_best_move,
    lemma_best_upto,
    move_score,
    score,
    secures,
};

verus! {

/// A board is in exactly one of three states. It is won exactly when some
/// line is filled, and then by the mark of the first filled line in scan
/// order. It is tied exactly when no line is filled and no cell is free.
/// The game goes on exactly when no line is filled and some cell is free.
pub proof fn lemma_state_classification(cells: Seq<Option<Mark>>)
    requires
        cells.len() == 9,
    ensures
        state_of(cells) is Winner <==> has_line(cells),
        state_of(cells) is Tie <==> !has_line(cells) && is_full(cells),
        state_of(cells) is Turn <==> !has_line(cells) && !is_full(cells),
        forall|m: Mark|
            state_of(cells) == State::Winner(m) ==> exists|k: int|
                {
                    &&& 0 <= k < 8
                    &&& #[trigger] line_mark(cells, k) == Some(m)
                    &&& forall|j: int| 0 <= j < k ==> line_mark(cells, j) is None
                },
{
    lemma_first_line_from(cells, 0);
}

/// While the game goes on, `X` moves exactly when the number of marks on
/// the board is even.
pub proof fn lemma_turn_by_parity(cells: Seq<Option<Mark>>, m: Mark)
    requires
        cells.len() == 9,
        state_of(cells) == State::Turn(m),
    ensures
        m == Mark::X <==> occupied(cells) % 2 == 0,
{
}

/// A legal move puts the mark whose turn it is into the chosen cell and
/// leaves every other cell alone; the board then holds one mark more, and
/// the turn passes to the other mark.
pub proof fn lemma_move_passes_turn(cells: Seq<Option<Mark>>, i: int)
    requires
        cells.len() == 9,
        legal(cells, i),
    ensures
        with_move(cells, i)[i] == Some(turn(cells)),
        forall|j: int| 0 <= j < 9 && j != i ==> with_move(cells, i)[j] == cells[j],
        occupied(with_move(cells, i)) == occupied(cells) + 1,
        turn(with_move(cells, i)) == turn(cells).other(),
{
    lemma_marks_among_update(cells, i, turn(cells), 9);
}

/// A finished game is worth `+1` to the mark that has three in a row, `-1`
/// to the other mark, and `0` to both if nobody has; so it is worth to one
/// mark the opposite of what it is worth to the other.
pub proof fn lemma_leaf_score_zero_sum(end: State, p: Mark)
    ensures
        leaf_score(end, p) == 1 <==> end == State::Winner(p),
        leaf_score(end, p) == -1 <==> end == State::Winner(p.other()),
        leaf_score(end, p) == 0 <==> !(end is Winner),
        leaf_score(end, p.other()) == -leaf_score(end, p),
{
    match end {
        State::Winner(w) => {
            w.lemma_value_product(p);
            w.lemma_value_product(p.other());
        },
        _ => {},
    }
}

/// No move and no board scores outside `-1..=1`.
pub proof fn lemma_score_range(cells: Seq<Option<Mark>>, p: Mark)
    requires
        cells.len() == 9,
    ensures
        -1 <= score(cells, p) <= 1,
        forall|i: int| vacant(cells, i) ==> -1 <= #[trigger] move_score(cells, i, p) <= 1,
    decreases vacancies(cells),
{
    assert forall|i: int| vacant(cells, i) implies -1 <= #[trigger] move_score(cells, i, p)
        <= 1 by {
        let next = with_move(cells, i);
        lemma_marks_among_update(cells, i, turn(cells), 9);
        lemma_marks_among_bounds(next, 9);
        if state_of(next) is Turn {
            lemma_score_range(next, p.other());
        } else {
            lemma_leaf_score_zero_sum(state_of(next), p);
        }
    }
    lemma_best_upto(cells, p, 9);
}

/// However the game is played out from this board, it ends worth `v` to
/// the player `p`.
pub open spec fn forced(cells: Seq<Option<Mark>>, p: Mark, v: int) -> bool
    decreases vacancies(cells),
    when cells.len() == 9
    via forced_terminates
{
    forall|i: int| #[trigger]
        vacant(cells, i) ==> {
            let next = with_move(cells, i);
            if state_of(next) is Turn {
                forced(next, p, v)
            } else {
                leaf_score(state_of(next), p) == v
            }
        }
}

#[via_fn]
proof fn forced_terminates(cells: Seq<Option<Mark>>, p: Mark, v: int) {
    assert forall|i: int| vacant(cells, i) implies 0 <= vacancies(with_move(cells, i))
        < vacancies(cells) by {
        lemma_marks_among_update(cells, i, turn(cells), 9);
        lemma_marks_among_bounds(with_move(cells, i), 9);
    }
}

/// A game that ends worth `v` to one mark however it is played ends worth
/// `-v` to the other.
pub proof fn lemma_forced_zero_sum(cells: Seq<Option<Mark>>, p: Mark, v: int)
    requires
        cells.len() == 9,
        forced(cells, p, v),
    ensures
        forced(cells, p.other(), -v),
    decreases vacancies(cells),
{
    assert forall|i: int| #[trigger] vacant(cells, i) implies {
        let next = with_move(cells, i);
        if state_of(next) is Turn {
            forced(next, p.other(), -v)
        } else {
            leaf_score(state_of(next), p.other()) == -v
        }
    } by {
        let next = with_move(cells, i);
        lemma_marks_among_update(cells, i, turn(cells), 9);
        lemma_marks_among_bounds(next, 9);
        if state_of(next) is Turn {
            lemma_forced_zero_sum(next, p, v);
        } else {
            lemma_leaf_score_zero_sum(state_of(next), p);
        }
    }
}

/// While the game goes on and is bound to end worth `v` to `p`, the score
/// that `p` sees is `v`.
pub proof fn lemma_forced_score(cells: Seq<Option<Mark>>, p: Mark, v: int)
    requires
        cells.len() == 9,
        state_of(cells) is Turn,
        forced(cells, p, v),
    ensures
        score(cells, p) == v,
    decreases vacancies(cells),
{
    lemma_best_move(cells, p);
    let m = best_move(cells, p);
    let next = with_move(cells, m);
    lemma_marks_among_update(cells, m, turn(cells), 9);
    lemma_marks_among_bounds(next, 9);
    if state_of(next) is Turn {
        lemma_forced_zero_sum(next, p, v);
        lemma_forced_score(next, p.other(), -v);
    }
}

/// Zero-sum symmetry, where the outcome no longer depends on the moves:
/// while the game goes on and is bound to end the same way however it is
/// played, the score that `X` sees is the negation of the score that `O`
/// sees.
pub proof fn lemma_zero_sum_symmetry(cells: Seq<Option<Mark>>, v: int)
    requires
        cells.len() == 9,
        state_of(cells) is Turn,
        forced(cells, Mark::X, v),
    ensures
        score(cells, Mark::X) == -score(cells, Mark::O),
{
    lemma_forced_score(cells, Mark::X, v);
    lemma_forced_zero_sum(cells, Mark::X, v);
    lemma_forced_score(cells, Mark::O, -v);
}

/// Zero-sum symmetry, one move deep. While the game goes on, and if every
/// move that does not end it leads to a board that `X` and `O` score
/// oppositely, the board itself is scored oppositely by `X` and `O` exactly
/// when all its moves score alike. So a board on which one move wins and
/// another ties is scored `+1` by the mark that moves and `0`, not `-1`, by
/// the other: each mark is scored the best of the moves, and the best for
/// one is not the worst for the other.
pub proof fn lemma_zero_sum_step(cells: Seq<Option<Mark>>)
    requires
        cells.len() == 9,
        state_of(cells) is Turn,
        forall|i: int| #[trigger]
            vacant(cells, i) && state_of(with_move(cells, i)) is Turn ==> score(
                with_move(cells, i),
                Mark::X,
            ) == -score(with_move(cells, i), Mark::O),
    ensures
        score(cells, Mark::X) == -score(cells, Mark::O) <==> forall|i: int, j: int|
            vacant(cells, i) && vacant(cells, j) ==> #[trigger] move_score(cells, i, Mark::X)
                == #[trigger] move_score(cells, j, Mark::X),
{
    assert forall|i: int| #[trigger] vacant(cells, i) implies move_score(cells, i, Mark::O)
        == -move_score(cells, i, Mark::X) by {
        lemma_leaf_score_zero_sum(state_of(with_move(cells, i)), Mark::X);
    }
    lemma_best_move(cells, Mark::X);
    lemma_best_move(cells, Mark::O);
}

/// Play that secures a score secures every lower score.
pub proof fn lemma_secures_less(cells: Seq<Option<Mark>>, p: Mark, v: int, w: int)
    requires
        cells.len() == 9,
        state_of(cells) is Turn,
        secures(cells, p, v),
        w <= v,
    ensures
        secures(cells, p, w),
    decreases vacancies(cells),
{
    lemma_best_move(cells, p);
    let mine = with_move(cells, best_move(cells, p));
    lemma_marks_among_update(cells, best_move(cells, p), turn(cells), 9);
    if state_of(mine) is Turn {
        assert forall|r: int| #[trigger] vacant(mine, r) implies {
            let theirs = with_move(mine, r);
            if state_of(theirs) is Turn {
                secures(theirs, p, w)
            } else {
                leaf_score(state_of(theirs), p) >= w
            }
        } by {
            let theirs = with_move(mine, r);
            lemma_marks_among_update(mine, r, turn(mine), 9);
            lemma_marks_among_bounds(theirs, 9);
            if state_of(theirs) is Turn {
                lemma_secures_less(theirs, p, v, w);
            }
        }
    }
}

/// The search keeps its promise: a player who moves as `best_move` says
/// ends the game worth at least the score of the board they started from,
/// whatever the other player does.
pub proof fn lemma_optimal_play_holds_score(cells: Seq<Option<Mark>>, p: Mark)
    requires
        cells.len() == 9,
        state_of(cells) is Turn,
    ensures
        secures(cells, p, score(cells, p)),
    decreases vacancies(cells),
{
    let v = score(cells, p);
    lemma_best_move(cells, p);
    let mine = with_move(cells, best_move(cells, p));
    lemma_marks_among_update(cells, best_move(cells, p), turn(cells), 9);
    if state_of(mine) is Turn {
        let q = p.other();
        lemma_best_move(mine, q);
        assert forall|r: int| #[trigger] vacant(mine, r) implies {
            let theirs = with_move(mine, r);
            if state_of(theirs) is Turn {
                secures(theirs, p, v)
            } else {
                leaf_score(state_of(theirs), p) >= v
            }
        } by {
            let theirs = with_move(mine, r);
            lemma_marks_among_update(mine, r, turn(mine), 9);
            lemma_marks_among_bounds(theirs, 9);
            assert(move_score(mine, r, q) <= score(mine, q));
            if state_of(theirs) is Turn {
                lemma_optimal_play_holds_score(theirs, p);
                lemma_secures_less(theirs, p, score(theirs, p), v);
            } else {
                lemma_leaf_score_zero_sum(state_of(theirs), p);
            }
        }
    }
}

/// The search is not beaten: wherever the next mark is placed, if the game
/// then goes on and the other player moves as `best_move` says from there,
/// the game ends worth at most the score of the board now to `p`; and if
/// the game ends with that mark, it ends worth at most that score.
pub proof fn lemma_score_is_not_beaten(cells: Seq<Option<Mark>>, p: Mark, i: int)
    requires
        cells.len() == 9,
        state_of(cells) is Turn,
        vacant(cells, i),
    ensures
        state_of(with_move(cells, i)) is Turn ==> secures(
            with_move(cells, i),
            p.other(),
            -score(cells, p),
        ),
        !(state_of(with_move(cells, i)) is Turn) ==> leaf_score(state_of(with_move(cells, i)), p)
            <= score(cells, p),
{
    let next = with_move(cells, i);
    lemma_best_move(cells, p);
    assert(move_score(cells, i, p) <= score(cells, p));
    if state_of(next) is Turn {
        lemma_optimal_play_holds_score(next, p.other());
        lemma_secures_less(next, p.other(), score(next, p.other()), -score(cells, p));
    }
}

/// The board on which the game ends when, from this board on, every mark
/// is placed where `best_move` says for the player who places it.
pub open spec fn self_play(cells: Seq<Option<Mark>>) -> Seq<Option<Mark>>
    decreases vacancies(cells),
    when cells.len() == 9
    via self_play_terminates
{
    if state_of(cells) is Turn {
        self_play(with_move(cells, best_move(cells, turn(cells))))
    } else {
        cells
    }
}

#[via_fn]
proof fn self_play_terminates(cells: Seq<Option<Mark>>) {
    if state_of(cells) is Turn {
        let m = best_move(cells, turn(cells));
        lemma_best_move(cells, turn(cells));
        lemma_marks_among_update(cells, m, turn(cells), 9);
        lemma_marks_among_bounds(with_move(cells, m), 9);
    }
}

/// When both players move as `best_move` says, the game ends, and it ends
/// worth to the player who moves now exactly the score of the board now.
/// So it ends in a tie exactly when that score is `0`.
pub proof fn lemma_self_play_ends_at_score(cells: Seq<Option<Mark>>)
    requires
        cells.len() == 9,
        state_of(cells) is Turn,
    ensures
        !(state_of(self_play(cells)) is Turn),
        leaf_score(state_of(self_play(cells)), turn(cells)) == score(cells, turn(cells)),
        state_of(self_play(cells)) is Tie <==> score(cells, turn(cells)) == 0,
    decreases vacancies(cells),
{
    let p = turn(cells);
    let m = best_move(cells, p);
    let next = with_move(cells, m);
    lemma_best_move(cells, p);
    lemma_move_passes_turn(cells, m);
    lemma_marks_among_bounds(next, 9);
    if state_of(next) is Turn {
        lemma_self_play_ends_at_score(next);
        lemma_leaf_score_zero_sum(state_of(self_play(next)), p);
    }
    lemma_leaf_score_zero_sum(state_of(self_play(cells)), p);
}

/// Optimal play never loses: on a board whose score for the player to move
/// is not negative, that player, moving as `best_move` says, never ends the
/// game with three in a row for the other mark.
pub proof fn lemma_optimal_play_never_loses(cells: Seq<Option<Mark>>)
    requires
        cells.len() == 9,
        state_of(cells) is Turn,
        score(cells, turn(cells)) >= 0,
    ensures
        secures(cells, turn(cells), 0),
{
    lemma_optimal_play_holds_score(cells, turn(cells));
    lemma_secures_less(cells, turn(cells), score(cells, turn(cells)), 0);
}

} // verus!
