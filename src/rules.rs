use crate::action::decimal;
use crate::board::Stone;
use crate::coord::push_char;
use vstd::prelude::*;
use vstd::string::StringExecFns;

verus! {

/// The rule set a game is played under. It never changes during a game.
#[derive(Clone, Copy, PartialEq, Eq, Debug, Structural)]
pub struct Rules {
    /// Compensation for White, in half-points.
    pub komi: u32,
    /// A move that leaves its own group without liberties is allowed, and
    /// removes that group.
    pub suicide_allowed: bool,
    /// No play may repeat any earlier position of the game.
    pub superko: bool,
}

impl Rules {
    /// Komi 7.5, no suicide, positional superko.
    pub fn chinese() -> (r: Rules)
        ensures
            r == (Rules { komi: 15, suicide_allowed: false, superko: true }),
    {
        Rules { komi: 15, suicide_allowed: false, superko: true }
    }

    pub open spec fn japanese_spec() -> Rules {
        Rules { komi: 13, suicide_allowed: false, superko: false }
    }

    /// Komi 6.5, no suicide, simple ko only.
    pub fn japanese() -> (r: Rules)
        ensures
            r == Self::japanese_spec(),
    {
        Rules { komi: 13, suicide_allowed: false, superko: false }
    }

    /// Komi 7, suicide allowed, positional superko.
    pub fn new_zealand() -> (r: Rules)
        ensures
            r == (Rules { komi: 14, suicide_allowed: true, superko: true }),
    {
        Rules { komi: 14, suicide_allowed: true, superko: true }
    }
}

/// The winner and how the game was won.
#[derive(Clone, Copy, PartialEq, Eq, Debug, Structural)]
pub enum EndGame {
    /// The winner and the margin in half-points.
    Score(Stone, u32),
    Resign(Stone),
    Time(Stone),
    Forfeit(Stone),
    NotOver,
}


/// The name of a colour.
pub open spec fn stone_name(s: Stone) -> Seq<char> {
    match s {
        Stone::Black => "Black"@,
        Stone::White => "White"@,
        Stone::Empty => "Empty"@,
    }
}

/// The text that announces a result. A score is in points, with `.5` for
/// an odd number of half-points.
pub open spec fn end_text(e: EndGame) -> Seq<char> {
    match e {
        EndGame::NotOver => "Game not over."@,
        EndGame::Score(s, p) => stone_name(s) + " won by "@ + decimal((p / 2) as nat) + if p % 2 == 1 {
            ".5"@
        } else {
            Seq::empty()
        } + " points."@,
        EndGame::Resign(s) => stone_name(s) + " won by resignation."@,
        EndGame::Time(s) => stone_name(s) + " won by time."@,
        EndGame::Forfeit(s) => stone_name(s) + " won by forfeit."@,
    }
}

fn name_of(s: Stone) -> (r: String)
    ensures
        r@ == stone_name(s),
{
    match s {
        Stone::Black => String::from_str("Black"),
        Stone::White => String::from_str("White"),
        Stone::Empty => String::from_str("Empty"),
    }
}

impl EndGame {
    /// The result in words, such as `White won by 7.5 points.`
    pub fn display(&self) -> (r: String)
        ensures
            r@ == end_text(*self),
    {
        match self {
            EndGame::NotOver => String::from_str("Game not over."),
            EndGame::Score(s, p) => {
                let mut t = name_of(*s);
                t.append(" won by ");
                crate::action::write_decimal(&mut t, (*p / 2) as usize);
                if *p % 2 == 1 {
                    t.append(".5");
                }
                t.append(" points.");
                t
            },
            EndGame::Resign(s) => name_of(*s).concat(" won by resignation."),
            EndGame::Time(s) => name_of(*s).concat(" won by time."),
            EndGame::Forfeit(s) => name_of(*s).concat(" won by forfeit."),
        }
    }
}

} // verus!
