//! The two players' marks.

use vstd::prelude::*;

verus! {

/// The symbol of one of the two players.
#[derive(Debug, PartialEq, Eq, Clone, Copy, Structural)]
pub enum Mark {
    X,
    O,
}

impl Mark {
    /// The mark of the opposing player.
    pub open spec fn spec_other(&self) -> Mark {
        match *self {
            Mark::O => Mark::X,
            Mark::X => Mark::O,
        }
    }

    /// The character a mark is drawn with.
    pub open spec fn spec_to_char(self) -> char {
        match self {
            Mark::O => 'O',
            Mark::X => 'X',
        }
    }

    /// The sign a mark carries in scores: `+1` for `O`, `-1` for `X`.
    pub open spec fn spec_to_value(self) -> i8 {
        match self {
            Mark::O => 1i8,
            Mark::X => -1i8,
        }
    }

    /// The values of two marks multiply to `+1` if the marks are the same
    /// and to `-1` if they differ.
    pub proof fn lemma_value_product(self, with: Mark)
        ensures
            self.to_value() * with.to_value() == if self == with {
                1int
            } else {
                -1int
            },
    {
        if self == Mark::X {
            if with == Mark::X {
            } else {
            }
        } else {
            if with == Mark::X {
            } else {
            }
        }
    }

    /// Returns the mark of the opposing player.
    #[verifier::when_used_as_spec(spec_other)]
    pub fn other(&self) -> (m: Mark)
        ensures
            m == self.spec_other(),
    {
        match self {
            Mark::O => Mark::X,
            Mark::X => Mark::O,
        }
    }

    /// Returns the character the mark is drawn with.
    #[verifier::when_used_as_spec(spec_to_char)]
    pub fn to_char(self) -> (c: char)
        ensures
            c == self.spec_to_char(),
    {
        match self {
            Self::O => 'O',
            Self::X => 'X',
        }
    }

    /// Returns the sign of the mark: `+1` for `O`, `-1` for `X`.
    #[verifier::when_used_as_spec(spec_to_value)]
    pub fn to_value(self) -> (v: i8)
        ensures
            v == self.spec_to_value(),
    {
        match self {
            Self::O => 1,
            Self::X => -1,
        }
    }
}

} // verus!
