//! The nine-cell board: what state a game is in, which moves are legal,
//! and how a move changes the board.
//!
//! A board is modelled as a sequence of nine optional marks, indexed
//! row-major (`index = row * 3 + column`). Everything a board can be asked
//! is a function of that sequence.

use vstd::prelude::*;
use crate::mark::Mark;

verus! {

/// What a board says about the game played on it.
#[derive(Debug, PartialEq, Eq, Clone, Copy, Structural)]
pub enum State {
    /// The game goes on and the given mark moves next.
    Turn(Mark),
    /// The given mark has three in a row.
    Winner(Mark),
    /// Every cell is taken and nobody has three in a row.
    Tie,
}

/// The cells of the `k`-th line in scan order: the three rows from the top,
/// the three columns from the left, the diagonal from the top left, the
/// diagonal from the top right.
pub open spec fn line(k: int) -> (int, int, int) {
    if k == 0 {
        (0, 1, 2)
    } else if k == 1 {
        (3, 4, 5)
    } else if k == 2 {
        (6, 7, 8)
    } else if k == 3 {
        (0, 3, 6)
    } else if k == 4 {
        (1, 4, 7)
    } else if k == 5 {
        (2, 5, 8)
    } else if k == 6 {
        (0, 4, 8)
    } else {
        (2, 4, 6)
    }
}

/// The mark that fills the `k`-th line, if one mark holds all three cells.
pub open spec fn line_mark(cells: Seq<Option<Mark>>, k: int) -> Option<Mark> {
    let (a, b, c) = line(k);
    if cells[a] is Some && cells[b] == cells[a] && cells[c] == cells[a] {
        cells[a]
    } else {
        None
    }
}

/// The first filled line at or after `k` in scan order.
pub open spec fn first_line_from(cells: Seq<Option<Mark>>, k: int) -> Option<int>
    decreases 8 - k,
{
    if k < 0 || k >= 8 {
        None
    } else if line_mark(cells, k) is Some {
        Some(k)
    } else {
        first_line_from(cells, k + 1)
    }
}

/// The mark of the first filled line in scan order, if any line is filled.
pub open spec fn winner(cells: Seq<Option<Mark>>) -> Option<Mark> {
    match first_line_from(cells, 0) {
        Some(k) => line_mark(cells, k),
        None => None,
    }
}

/// Some line is filled by one mark.
pub open spec fn has_line(cells: Seq<Option<Mark>>) -> bool {
    exists|k: int| 0 <= k < 8 && line_mark(cells, k) is Some
}

/// No cell is free.
pub open spec fn is_full(cells: Seq<Option<Mark>>) -> bool {
    forall|i: int| 0 <= i < 9 ==> cells[i] is Some
}

/// How many of the first `n` cells hold a mark.
pub open spec fn marks_among(cells: Seq<Option<Mark>>, n: int) -> int
    decreases n,
{
    if n <= 0 {
        0
    } else {
        marks_among(cells, n - 1) + if cells[n - 1] is Some {
            1int
        } else {
            0int
        }
    }
}

/// How many of the nine cells hold a mark.
pub open spec fn occupied(cells: Seq<Option<Mark>>) -> int {
    marks_among(cells, 9)
}

/// How many of the nine cells are free.
pub open spec fn vacancies(cells: Seq<Option<Mark>>) -> int {
    9 - occupied(cells)
}

/// The mark that moves next: `X` when the number of marks on the board is
/// even, `O` when it is odd.
pub open spec fn turn(cells: Seq<Option<Mark>>) -> Mark {
    if occupied(cells) % 2 == 0 {
        Mark::X
    } else {
        Mark::O
    }
}

/// The state of the game, in this precedence: a filled line wins (the first
/// in scan order, should there be several), a full board is a tie, and
/// otherwise the game goes on.
pub open spec fn state_of(cells: Seq<Option<Mark>>) -> State {
    match winner(cells) {
        Some(m) => State::Winner(m),
        None => if is_full(cells) {
            State::Tie
        } else {
            State::Turn(turn(cells))
        },
    }
}

/// Cell `i` exists and is free.
pub open spec fn vacant(cells: Seq<Option<Mark>>, i: int) -> bool {
    0 <= i < 9 && cells[i] is None
}

/// A mark may be placed at `i`: the game goes on and the cell is free.
pub open spec fn legal(cells: Seq<Option<Mark>>, i: int) -> bool {
    state_of(cells) is Turn && vacant(cells, i)
}

/// The board after the mark whose turn it is has been placed at `i`.
pub open spec fn with_move(cells: Seq<Option<Mark>>, i: int) -> Seq<Option<Mark>> {
    cells.update(i, Some(turn(cells)))
}

/// The character a cell is drawn with: its mark, or a space.
pub open spec fn cell_char(cell: Option<Mark>) -> char {
    match cell {
        Some(m) => m.to_char(),
        None => ' ',
    }
}

/// The board as text: three rows of three cells, `|` between the cells of
/// a row and a line break after each row.
pub open spec fn drawing(cells: Seq<Option<Mark>>) -> Seq<char> {
    Seq::new(
        18,
        |k: int|
            if k % 2 == 0 {
                cell_char(cells[k / 2])
            } else if k % 6 == 5 {
                '\n'
            } else {
                '|'
            },
    )
}

/// Writing a mark into a free cell adds one to the count of every prefix
/// that reaches the cell, and changes no other count.
pub proof fn lemma_marks_among_update(cells: Seq<Option<Mark>>, i: int, m: Mark, n: int)
    requires
        0 <= i < cells.len(),
        cells[i] is None,
        0 <= n <= cells.len(),
    ensures
        marks_among(cells.update(i, Some(m)), n) == marks_among(cells, n) + if i < n {
            1int
        } else {
            0int
        },
    decreases n,
{
    if n > 0 {
        lemma_marks_among_update(cells, i, m, n - 1);
    }
}

/// No prefix holds more marks than it has cells.
pub proof fn lemma_marks_among_bounds(cells: Seq<Option<Mark>>, n: int)
    requires
        0 <= n,
    ensures
        0 <= marks_among(cells, n) <= n,
    decreases n,
{
    if n > 0 {
        lemma_marks_among_bounds(cells, n - 1);
    }
}

/// A prefix counts as many marks as it has cells exactly when none of its
/// cells is free.
pub proof fn lemma_marks_among_full(cells: Seq<Option<Mark>>, n: int)
    requires
        0 <= n,
    ensures
        marks_among(cells, n) == n <==> forall|i: int| 0 <= i < n ==> cells[i] is Some,
    decreases n,
{
    if n > 0 {
        lemma_marks_among_full(cells, n - 1);
        lemma_marks_among_bounds(cells, n - 1);
    }
}

/// What `first_line_from` finds is a filled line at or after `k` with no
/// filled line between `k` and it; it finds none only if there is none.
pub proof fn lemma_first_line_from(cells: Seq<Option<Mark>>, k: int)
    requires
        0 <= k <= 8,
    ensures
        match first_line_from(cells, k) {
            Some(j) => {
                &&& k <= j < 8
                &&& line_mark(cells, j) is Some
                &&& forall|i: int| k <= i < j ==> line_mark(cells, i) is None
            },
            None => forall|i: int| k <= i < 8 ==> line_mark(cells, i) is None,
        },
    decreases 8 - k,
{
    if k < 8 {
        lemma_first_line_from(cells, k + 1);
    }
}

/// When no line before `k` is filled, the first filled line is the first
/// one found from `k` on.
proof fn lemma_first_line_skips(cells: Seq<Option<Mark>>, k: int)
    requires
        0 <= k <= 8,
        forall|j: int| 0 <= j < k ==> line_mark(cells, j) is None,
    ensures
        first_line_from(cells, 0) == first_line_from(cells, k),
    decreases k,
{
    if k > 0 {
        lemma_first_line_skips(cells, k - 1);
    }
}

/// A tic-tac-toe board.
#[derive(Debug, Clone, Copy)]
pub struct Board {
    marks: [Option<Mark>; 9],
}

impl View for Board {
    type V = Seq<Option<Mark>>;

    closed spec fn view(&self) -> Seq<Option<Mark>> {
        self.marks@
    }
}

/// Whether a cell holds the given mark.
fn holds(cell: Option<Mark>, m: Mark) -> (b: bool)
    ensures
        b == (cell == Some(m)),
{
    match cell {
        Some(x) => x == m,
        None => false,
    }
}

/// The cells of the `k`-th line in scan order.
fn line_at(k: usize) -> (l: (usize, usize, usize))
    requires
        k < 8,
    ensures
        (l.0 as int, l.1 as int, l.2 as int) == line(k as int),
        l.0 < 9,
        l.1 < 9,
        l.2 < 9,
{
    match k {
        0 => (0, 1, 2),
        1 => (3, 4, 5),
        2 => (6, 7, 8),
        3 => (0, 3, 6),
        4 => (1, 4, 7),
        5 => (2, 5, 8),
        6 => (0, 4, 8),
        _ => (2, 4, 6),
    }
}

impl Board {
    /// Every board has nine cells.
    pub proof fn lemma_nine_cells(self)
        ensures
            self@.len() == 9,
    {
    }

    /// Returns the empty board.
    pub fn new() -> (b: Board)
        ensures
            b@ == Seq::new(9, |i: int| None::<Mark>),
    {
        Board { marks: [None;9] }
    }

    /// Returns the state of the game on this board.
    pub fn get_state(&self) -> (s: State)
        ensures
            s == state_of(self@),
    {
        let mut k: usize = 0;
        while k < 8
            invariant
                0 <= k <= 8,
                forall|j: int| 0 <= j < k ==> line_mark(self@, j) is None,
            decreases 8 - k,
        {
            let (a, b, c) = line_at(k);
            match self.marks[a] {
                Some(m) => {
                    if holds(self.marks[b], m) && holds(self.marks[c], m) {
                        proof {
                            lemma_first_line_skips(self@, k as int);
                        }
                        return State::Winner(m);
                    }
                },
                None => {},
            }
            k += 1;
        }
        proof {
            lemma_first_line_skips(self@, 8);
        }
        let mut count: usize = 0;
        let mut i: usize = 0;
        while i < 9
            invariant
                0 <= i <= 9,
                count == marks_among(self@, i as int),
                count <= i,
            decreases 9 - i,
        {
            if self.marks[i].is_some() {
                count += 1;
            }
            i += 1;
        }
        proof {
            lemma_marks_among_full(self@, 9);
        }
        if count == 9 {
            State::Tie
        } else if count % 2 == 0 {
            State::Turn(Mark::X)
        } else {
            State::Turn(Mark::O)
        }
    }

    /// Places the mark whose turn it is at cell `i`, if the game goes on and
    /// the cell exists and is free. Otherwise the board stays as it was.
    pub fn place(&mut self, i: usize) -> (res: Option<()>)
        ensures
            legal(old(self)@, i as int) ==> res is Some && final(self)@ == with_move(
                old(self)@,
                i as int,
            ),
            !legal(old(self)@, i as int) ==> res is None && *final(self) == *old(self),
    {
        let state = self.get_state();
        let turn = match state {
            State::Turn(m) => m,
            _ => {
                return None;
            },
        };

        if i > 8 {
            return None;
        }
        match self.marks[i] {
            Some(_) => None,
            None => {
                self.marks[i] = Some(turn);
                Some(())
            },
        }
    }

    /// Returns the indices of the free cells, in ascending order.
    pub fn empty(&self) -> (free: Vec<usize>)
        ensures
            free.len() == vacancies(self@),
            forall|k: int| 0 <= k < free.len() ==> vacant(self@, #[trigger] free[k] as int),
            forall|j: int, k: int| 0 <= j < k < free.len() ==> free[j] < free[k],
            forall|i: int| vacant(self@, i) ==> exists|k: int| 0 <= k < free.len() && free[k] == i,
    {
        let mut free: Vec<usize> = Vec::new();
        let mut i: usize = 0;
        while i < 9
            invariant
                0 <= i <= 9,
                free.len() == i - marks_among(self@, i as int),
                forall|k: int| 0 <= k < free.len() ==> vacant(self@, #[trigger] free[k] as int),
                forall|k: int| 0 <= k < free.len() ==> free[k] < i,
                forall|j: int, k: int| 0 <= j < k < free.len() ==> free[j] < free[k],
                forall|c: int|
                    vacant(self@, c) && c < i ==> exists|k: int|
                        0 <= k < free.len() && free[k] == c,
            decreases 9 - i,
        {
            if self.marks[i].is_none() {
                let ghost before = free@;
                free.push(i);
                assert forall|c: int| vacant(self@, c) && c < i + 1 implies exists|k: int|
                    0 <= k < free.len() && free[k] == c by {
                    if c < i {
                        let k = choose|k: int| 0 <= k < before.len() && before[k] == c;
                        assert(free[k] == c);
                    } else {
                        assert(free[before.len() as int] == c);
                    }
                }
            }
            i += 1;
        }
        free
    }

    /// Returns the board as text: three rows of three cells, `|` between the
    /// cells of a row and a line break after each row. A free cell is drawn
    /// as a space.
    pub fn render(&self) -> (text: Vec<char>)
        ensures
            text@ == drawing(self@),
    {
        let mut text: Vec<char> = Vec::new();
        let mut i: usize = 0;
        while i < 9
            invariant
                0 <= i <= 9,
                text.len() == 2 * i,
                forall|k: int| 0 <= k < text.len() ==> text[k] == drawing(self@)[k],
            decreases 9 - i,
        {
            let c = match self.marks[i] {
                None => ' ',
                Some(m) => m.to_char(),
            };
            text.push(c);
            if i % 3 == 2 {
                text.push('\n');
            } else {
                text.push('|');
            }
            i += 1;
        }
        text
    }
}

} // verus!
