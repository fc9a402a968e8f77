//! The command vocabulary shared by the host and the board.

use vstd::prelude::*;

verus! {

/// Whether two strings hold the same characters.
pub fn str_equal(a: &str, b: &str) -> (r: bool)
    ensures
        r == (a@ == b@),
{
    let n = a.unicode_len();
    if n != b.unicode_len() {
        return false;
    }
    let mut i: usize = 0;
    while i < n
        invariant
            n == a@.len(),
            n == b@.len(),
            i <= n,
            forall|j: int| 0 <= j < i ==> a@[j] == b@[j],
        decreases n - i,
    {
        if a.get_char(i) != b.get_char(i) {
            return false;
        }
        i = i + 1;
    }
    proof {
        assert(a@ =~= b@);
    }
    true
}

/// A compass direction for a step.
#[derive(Debug, Clone, Copy, PartialEq, Eq, Structural)]
pub enum Direction {
    North,
    East,
    South,
    West,
}

impl Direction {
    /// The number that stands for the direction in a package.
    pub open spec fn code(self) -> u8 {
        match self {
            Direction::North => 1,
            Direction::East => 2,
            Direction::South => 3,
            Direction::West => 4,
        }
    }

    /// The direction a word names: the initial letter, in either case.
    pub open spec fn named(s: Seq<char>) -> Option<Direction> {
        if s == "N"@ || s == "n"@ {
            Some(Direction::North)
        } else if s == "E"@ || s == "e"@ {
            Some(Direction::East)
        } else if s == "S"@ || s == "s"@ {
            Some(Direction::South)
        } else if s == "W"@ || s == "w"@ {
            Some(Direction::West)
        } else {
            None
        }
    }

    /// Reads a direction from its initial letter, in either case.
    pub fn from_str(s: &str) -> (r: Option<Self>)
        ensures
            r == Direction::named(s@),
    {
        if str_equal(s, "N") || str_equal(s, "n") {
            Some(Direction::North)
        } else if str_equal(s, "E") || str_equal(s, "e") {
            Some(Direction::East)
        } else if str_equal(s, "S") || str_equal(s, "s") {
            Some(Direction::South)
        } else if str_equal(s, "W") || str_equal(s, "w") {
            Some(Direction::West)
        } else {
            None
        }
    }

    /// The number that stands for the direction in a package.
    pub fn to_u8(&self) -> (r: u8)
        ensures
            r == self.code(),
    {
        match self {
            Direction::North => 1,
            Direction::East => 2,
            Direction::South => 3,
            Direction::West => 4,
        }
    }
}

/// Distinct directions have distinct codes, all between 1 and 4.
pub proof fn lemma_direction_codes(a: Direction, b: Direction)
    ensures
        1 <= a.code() <= 4,
        a.code() == b.code() ==> a == b,
{
}

/// What the host asks the board to do.
#[allow(non_camel_case_types)]
#[derive(Debug, Clone, Copy, PartialEq, Eq, Structural)]
pub enum Command {
    walk,
    step,
    switch,
    reset,
    exit,
}

/// A command with its optional parameter, as sent over the line.
#[derive(Debug, Clone, Copy, PartialEq, Eq, Structural)]
pub struct Package {
    pub command: Command,
    pub parameter: Option<u8>,
}

} // verus!
