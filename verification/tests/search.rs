use tictactoe::board::{Board, State};
use tictactoe::mark::Mark;
use tictactoe::search::minimax;

fn after(moves: &[usize]) -> Board {
    let mut board = Board::new();
    for &m in moves {
        assert_eq!(board.place(m), Some(()), "move {} was refused", m);
    }
    board
}

/// The score of placing the next mark at `cell`, as `player` sees it.
fn score_of_move(board: Board, cell: usize, player: Mark) -> i8 {
    let mut next = board;
    assert_eq!(next.place(cell), Some(()));
    match next.get_state() {
        State::Turn(_) => -minimax(next, player.other()).1,
        State::Tie => 0,
        State::Winner(m) => m.to_value() * player.to_value(),
    }
}

/// Plays the game out from `board` in every way in which `searcher` moves
/// as the search says and the other mark moves anywhere, and hands the
/// state at the end of each game to `expect`.
fn against_every_reply(board: Board, searcher: Mark, expect: &dyn Fn(State)) {
    match board.get_state() {
        State::Turn(m) if m == searcher => {
            let (cell, _) = minimax(board, searcher);
            let mut next = board;
            assert_eq!(next.place(cell), Some(()));
            against_every_reply(next, searcher, expect);
        }
        State::Turn(_) => {
            for cell in board.empty() {
                let mut next = board;
                assert_eq!(next.place(cell), Some(()));
                against_every_reply(next, searcher, expect);
            }
        }
        end => expect(end),
    }
}

#[test]
fn o_answers_a_corner_with_the_centre_and_draws() {
    let board = after(&[0]);
    assert_eq!(minimax(board, Mark::O), (4, 0));
}

#[test]
fn on_the_empty_board_all_moves_draw_and_the_first_is_taken() {
    let board = Board::new();
    for cell in 0..9 {
        assert_eq!(score_of_move(board, cell, Mark::X), 0);
    }
    assert_eq!(minimax(board, Mark::X), (0, 0));
}

#[test]
fn a_winning_move_is_taken() {
    let board = after(&[0, 3, 1, 4]);
    assert_eq!(minimax(board, Mark::X), (2, 1));
}

#[test]
fn the_first_of_two_winning_moves_is_taken() {
    // X X .
    // X O O
    // . O .
    let board = after(&[0, 4, 1, 5, 3, 7]);
    assert_eq!(score_of_move(board, 2, Mark::X), 1);
    assert_eq!(score_of_move(board, 6, Mark::X), 1);
    assert_eq!(minimax(board, Mark::X), (2, 1));
}

#[test]
fn a_threat_is_blocked() {
    let board = after(&[0, 4, 1]);
    assert_eq!(minimax(board, Mark::O), (2, 0));
}

#[test]
fn a_lost_board_scores_minus_one() {
    // X threatens 2 and 6 at once.
    // X X .
    // X O .
    // . . O
    let board = after(&[0, 4, 1, 8, 3]);
    assert_eq!(minimax(board, Mark::O), (2, -1));
}

#[test]
fn the_last_free_cell_is_the_only_move() {
    let board = after(&[0, 1, 2, 4, 3, 5, 7, 6]);
    assert_eq!(minimax(board, Mark::X), (8, 0));
    assert_eq!(minimax(board, Mark::O), (8, 0));
}

#[test]
fn the_move_returned_is_a_free_cell() {
    let openings: [&[usize]; 6] = [&[], &[4], &[0, 4], &[4, 0, 8], &[1, 4, 7, 0], &[0, 1, 2, 4, 3]];
    for moves in openings {
        let board = after(moves);
        for player in [Mark::X, Mark::O] {
            let (cell, score) = minimax(board, player);
            assert!(board.empty().contains(&cell));
            assert!((-1..=1).contains(&score));
        }
    }
}

#[test]
fn the_move_returned_is_the_first_with_the_highest_score() {
    let openings: [&[usize]; 5] = [&[4], &[0, 4], &[4, 0, 8], &[1, 4, 7, 0], &[0, 1, 2, 4, 3]];
    for moves in openings {
        let board = after(moves);
        for player in [Mark::X, Mark::O] {
            let (cell, score) = minimax(board, player);
            assert_eq!(score_of_move(board, cell, player), score);
            for other in board.empty() {
                let s = score_of_move(board, other, player);
                assert!(s <= score);
                if other < cell {
                    assert!(s < score);
                }
            }
        }
    }
}

#[test]
fn minimax_leaves_the_board_it_was_given_alone() {
    let board = after(&[4, 0]);
    let before: String = board.render().into_iter().collect();
    minimax(board, Mark::X);
    let now: String = board.render().into_iter().collect();
    assert_eq!(now, before);
}

#[test]
fn with_one_free_cell_the_marks_score_oppositely() {
    // The last move fills the top row for X.
    let board = after(&[1, 3, 2, 4, 5, 6, 7, 8]);
    assert_eq!(minimax(board, Mark::X), (0, 1));
    assert_eq!(minimax(board, Mark::O), (0, -1));
    assert_eq!(minimax(board, Mark::X).1, -minimax(board, Mark::O).1);
}

#[test]
fn with_a_choice_of_outcomes_the_marks_need_not_score_oppositely() {
    // X X O
    // O O .
    // X . X
    // O to move: cell 5 wins, cell 7 leads to a tie.
    let board = after(&[0, 2, 1, 3, 6, 4, 8]);
    assert_eq!(board.get_state(), State::Turn(Mark::O));
    assert_eq!(minimax(board, Mark::O), (5, 1));
    assert_eq!(minimax(board, Mark::X), (7, 0));
}

#[test]
fn after_a_corner_opening_the_marks_do_not_score_oppositely() {
    let board = after(&[0]);
    assert_eq!(minimax(board, Mark::O), (4, 0));
    assert_eq!(minimax(board, Mark::X), (1, 1));
}

#[test]
fn on_the_empty_board_both_marks_score_zero() {
    assert_eq!(minimax(Board::new(), Mark::X), (0, 0));
    assert_eq!(minimax(Board::new(), Mark::O), (4, 0));
}

#[test]
fn search_against_itself_from_the_empty_board_ends_in_a_tie() {
    let mut board = Board::new();
    let mut moves = 0;
    while let State::Turn(mark) = board.get_state() {
        let (cell, score) = minimax(board, mark);
        assert_eq!(score, 0);
        assert_eq!(board.place(cell), Some(()));
        moves += 1;
    }
    assert_eq!(board.get_state(), State::Tie);
    assert_eq!(moves, 9);
}

#[test]
fn search_moving_second_never_loses() {
    against_every_reply(Board::new(), Mark::O, &|end| assert_ne!(end, State::Winner(Mark::X)));
}

#[test]
fn search_moving_first_never_loses() {
    against_every_reply(Board::new(), Mark::X, &|end| assert_ne!(end, State::Winner(Mark::O)));
}

#[test]
fn a_won_board_stays_won_against_every_reply() {
    // X has a double threat; score +1 for X must end in a win for X.
    let board = after(&[0, 4, 1, 8, 3, 2]);
    assert_eq!(minimax(board, Mark::X), (6, 1));
    against_every_reply(board, Mark::X, &|end| assert_eq!(end, State::Winner(Mark::X)));
}

const TRIPLES: [[usize; 3]; 8] = [
    [0, 1, 2],
    [3, 4, 5],
    [6, 7, 8],
    [0, 3, 6],
    [1, 4, 7],
    [2, 5, 8],
    [0, 4, 8],
    [2, 4, 6],
];

fn won(cells: &[i8; 9]) -> i8 {
    for l in TRIPLES {
        if cells[l[0]] != 0 && cells[l[0]] == cells[l[1]] && cells[l[1]] == cells[l[2]] {
            return cells[l[0]];
        }
    }
    0
}

/// The search written out over plain numbers: a cell holds `-1` for `X`,
/// `1` for `O` and `0` when free.
fn plain_search(cells: &[i8; 9], player: i8) -> (usize, i8) {
    let count = cells.iter().filter(|&&c| c != 0).count();
    let mover: i8 = if count % 2 == 0 { -1 } else { 1 };
    let mut best: Option<(usize, i8)> = None;
    for i in 0..9 {
        if cells[i] != 0 {
            continue;
        }
        let mut next = *cells;
        next[i] = mover;
        let s = if won(&next) != 0 {
            won(&next) * player
        } else if count == 8 {
            0
        } else {
            -plain_search(&next, -player).1
        };
        if best.map_or(true, |(_, t)| s > t) {
            best = Some((i, s));
        }
    }
    best.unwrap()
}

fn compare_below(board: Board, cells: [i8; 9], compared: &mut usize) {
    let mark = match board.get_state() {
        State::Turn(mark) => mark,
        _ => return,
    };
    assert_eq!(minimax(board, Mark::X), plain_search(&cells, -1));
    assert_eq!(minimax(board, Mark::O), plain_search(&cells, 1));
    *compared += 1;
    for i in board.empty() {
        let mut next = board;
        assert_eq!(next.place(i), Some(()));
        let mut then = cells;
        then[i] = mark.to_value();
        compare_below(next, then, compared);
    }
}

#[test]
fn search_agrees_with_a_plain_search_on_every_board_of_every_game() {
    let mut compared = 0;
    compare_below(Board::new(), [0; 9], &mut compared);
    assert_eq!(compared, 549_946 - 255_168);
}
