//! Terminal colours, by their ANSI escape code numbers.
use vstd::prelude::*;

verus! {

/// The eight basic ANSI terminal colours.
#[derive(Debug, Clone, Copy, PartialEq, Eq, Structural)]
pub enum Colour {
    Black,
    Red,
    Green,
    Yellow,
    Blue,
    Magenta,
    Cyan,
    White,
}

impl Colour {
    /// Offset of the colour within the ANSI colour table.
    pub open spec fn index(self) -> nat {
        match self {
            Colour::Black => 0,
            Colour::Red => 1,
            Colour::Green => 2,
            Colour::Yellow => 3,
            Colour::Blue => 4,
            Colour::Magenta => 5,
            Colour::Cyan => 6,
            Colour::White => 7,
        }
    }

    /// Returns the ANSI foreground (text) colour code number: `3` followed by the colour index.
    pub fn fg_code(self) -> (code: &'static str)
        ensures
            code@ == seq!['3', (('0' as nat) + self.index()) as char],
    {
        proof {
            reveal_strlit("30");
            reveal_strlit("31");
            reveal_strlit("32");
            reveal_strlit("33");
            reveal_strlit("34");
            reveal_strlit("35");
            reveal_strlit("36");
            reveal_strlit("37");
        }
        match self {
            Colour::Black => "30",
            Colour::Red => "31",
            Colour::Green => "32",
            Colour::Yellow => "33",
            Colour::Blue => "34",
            Colour::Magenta => "35",
            Colour::Cyan => "36",
            Colour::White => "37",
        }
    }

    /// Returns the ANSI background colour code number: `4` followed by the colour index.
    pub fn bg_code(self) -> (code: &'static str)
        ensures
            code@ == seq!['4', (('0' as nat) + self.index()) as char],
    {
        proof {
            reveal_strlit("40");
            reveal_strlit("41");
            reveal_strlit("42");
            reveal_strlit("43");
            reveal_strlit("44");
            reveal_strlit("45");
            reveal_strlit("46");
            reveal_strlit("47");
        }
        match self {
            Colour::Black => "40",
            Colour::Red => "41",
            Colour::Green => "42",
            Colour::Yellow => "43",
            Colour::Blue => "44",
            Colour::Magenta => "45",
            Colour::Cyan => "46",
            Colour::White => "47",
        }
    }
}

} // verus!
