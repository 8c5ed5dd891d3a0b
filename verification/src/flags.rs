//! The side to move and the four castling rights.

use vstd::prelude::*;
use crate::color::Color;

verus! {

#[derive(Clone, Copy, Debug, PartialEq, Eq, Structural)]
pub struct StateFlags {
    pub active: Color,
    pub white_king: bool,
    pub white_queen: bool,
    pub black_king: bool,
    pub black_queen: bool,
}

impl StateFlags {
    /// White to move, every castling right held.
    pub fn new() -> (f: StateFlags)
        ensures
            f == (StateFlags {
                active: Color::White,
                white_king: true,
                white_queen: true,
                black_king: true,
                black_queen: true,
            }),
    {
        StateFlags {
            active: Color::White,
            white_king: true,
            white_queen: true,
            black_king: true,
            black_queen: true,
        }
    }

    pub fn active_color(&self) -> (c: Color)
        ensures
            c == self.active,
    {
        self.active
    }

    pub fn white_king_castle_right(&self) -> (b: bool)
        ensures
            b == self.white_king,
    {
        self.white_king
    }

    pub fn white_queen_castle_right(&self) -> (b: bool)
        ensures
            b == self.white_queen,
    {
        self.white_queen
    }

    pub fn black_king_castle_right(&self) -> (b: bool)
        ensures
            b == self.black_king,
    {
        self.black_king
    }

    pub fn black_queen_castle_right(&self) -> (b: bool)
        ensures
            b == self.black_queen,
    {
        self.black_queen
    }

    pub fn set_active_color(&mut self, c: Color)
        ensures
            *final(self) == (StateFlags { active: c, ..*old(self) }),
    {
        self.active = c;
    }

    pub fn set_white_king_castle_right(&mut self, b: bool)
        ensures
            *final(self) == (StateFlags { white_king: b, ..*old(self) }),
    {
        self.white_king = b;
    }

    pub fn set_white_queen_castle_right(&mut self, b: bool)
        ensures
            *final(self) == (StateFlags { white_queen: b, ..*old(self) }),
    {
        self.white_queen = b;
    }

    pub fn set_black_king_castle_right(&mut self, b: bool)
        ensures
            *final(self) == (StateFlags { black_king: b, ..*old(self) }),
    {
        self.black_king = b;
    }

    pub fn set_black_queen_castle_right(&mut self, b: bool)
        ensures
            *final(self) == (StateFlags { black_queen: b, ..*old(self) }),
    {
        self.black_queen = b;
    }

    pub fn toggle_white_king_castle(&mut self)
        ensures
            *final(self) == (StateFlags { white_king: !old(self).white_king, ..*old(self) }),
    {
        self.white_king = !self.white_king;
    }

    pub fn toggle_white_queen_castle(&mut self)
        ensures
            *final(self) == (StateFlags { white_queen: !old(self).white_queen, ..*old(self) }),
    {
        self.white_queen = !self.white_queen;
    }

    pub fn toggle_black_king_castle(&mut self)
        ensures
            *final(self) == (StateFlags { black_king: !old(self).black_king, ..*old(self) }),
    {
        self.black_king = !self.black_king;
    }

    pub fn toggle_black_queen_castle(&mut self)
        ensures
            *final(self) == (StateFlags { black_queen: !old(self).black_queen, ..*old(self) }),
    {
        self.black_queen = !self.black_queen;
    }

    pub fn toggle_active_color(&mut self)
        ensures
            *final(self) == (StateFlags { active: old(self).active.other(), ..*old(self) }),
    {
        self.active = self.active.opposite();
    }

    /// The flags that differ between two values: a right is set where exactly one
    /// of the two holds it, the color is black where the two colors differ.
    pub open spec fn difference(self, other: StateFlags) -> StateFlags {
        StateFlags {
            active: if self.active == other.active { Color::White } else { Color::Black },
            white_king: self.white_king != other.white_king,
            white_queen: self.white_queen != other.white_queen,
            black_king: self.black_king != other.black_king,
            black_queen: self.black_queen != other.black_queen,
        }
    }

    /// Field by field exclusive or.
    pub fn xor(self, other: StateFlags) -> (d: StateFlags)
        ensures
            d == self.difference(other),
    {
        StateFlags {
            active: if self.active == other.active { Color::White } else { Color::Black },
            white_king: self.white_king != other.white_king,
            white_queen: self.white_queen != other.white_queen,
            black_king: self.black_king != other.black_king,
            black_queen: self.black_queen != other.black_queen,
        }
    }
}

} // verus!
