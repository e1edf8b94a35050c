use vstd::prelude::*;

verus! {

/// The colour printed on a card. Wild cards are black.
#[derive(Clone, Copy, Debug, PartialEq, Eq, Structural)]
pub enum Color {
    Red,
    Blue,
    Yellow,
    Green,
    Black,
}

/// What a card shows: a number, an action or a wild symbol.
#[derive(Clone, Copy, Debug, PartialEq, Eq, Structural)]
pub enum Rank {
    Number(u8),
    DrawTwo,
    Reverse,
    Skip,
    Wild,
    WildDrawFour,
}

#[derive(Clone, Copy, Debug, PartialEq, Eq, Structural)]
pub struct Card {
    pub rank: Rank,
    pub color: Color,
}

/// One of the four colours that numbered and action cards carry.
pub open spec fn is_chromatic(c: Color) -> bool {
    c != Color::Black
}

/// A card that a standard deck can hold: digits 0 to 9 and action cards in a
/// chromatic colour, wild cards in black.
pub open spec fn valid_card(c: Card) -> bool {
    match c.rank {
        Rank::Number(n) => n <= 9 && is_chromatic(c.color),
        Rank::DrawTwo | Rank::Reverse | Rank::Skip => is_chromatic(c.color),
        Rank::Wild | Rank::WildDrawFour => c.color == Color::Black,
    }
}

/// The text a card shows for its rank.
pub open spec fn rank_text(r: Rank) -> Seq<char> {
    match r {
        Rank::Number(n) => if n <= 9 {
            seq![('0' as u8 + n) as char]
        } else {
            seq!['?']
        },
        Rank::DrawTwo => "Draw_2"@,
        Rank::Reverse => "Reverse"@,
        Rank::Skip => "Skip"@,
        Rank::Wild => "Wild"@,
        Rank::WildDrawFour => "Wild_+4"@,
    }
}

impl Rank {
    /// The rank's text: its digit, or the action's name.
    pub fn text(&self) -> (r: String)
        ensures
            r@ == rank_text(*self),
    {
        match *self {
            Rank::Number(n) => {
                let s = match n {
                    0 => "0",
                    1 => "1",
                    2 => "2",
                    3 => "3",
                    4 => "4",
                    5 => "5",
                    6 => "6",
                    7 => "7",
                    8 => "8",
                    9 => "9",
                    _ => "?",
                };
                proof {
                    reveal_strlit("0");
                    reveal_strlit("1");
                    reveal_strlit("2");
                    reveal_strlit("3");
                    reveal_strlit("4");
                    reveal_strlit("5");
                    reveal_strlit("6");
                    reveal_strlit("7");
                    reveal_strlit("8");
                    reveal_strlit("9");
                    reveal_strlit("?");
                }
                String::from_str(s)
            },
            Rank::DrawTwo => String::from_str("Draw_2"),
            Rank::Reverse => String::from_str("Reverse"),
            Rank::Skip => String::from_str("Skip"),
            Rank::Wild => String::from_str("Wild"),
            Rank::WildDrawFour => String::from_str("Wild_+4"),
        }
    }
}

impl Card {
    /// The card as a hand shows it: its rank text between bars.
    pub fn label(&self) -> (r: String)
        ensures
            r@ == "|"@ + rank_text(self.rank) + "|"@,
    {
        let mut s = String::from_str("|");
        let t = self.rank.text();
        s.append(t.as_str());
        s.append("|");
        s
    }
}

/// Whether a label on a card of this colour is written in white for contrast
/// (on red, blue and black) rather than in black (on yellow and green).
pub fn light_text(color: Color) -> (r: bool)
    ensures
        r == (color == Color::Red || color == Color::Blue || color == Color::Black),
{
    match color {
        Color::Red | Color::Blue | Color::Black => true,
        Color::Yellow | Color::Green => false,
    }
}

} // verus!
