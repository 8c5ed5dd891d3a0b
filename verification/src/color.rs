//! The two sides.

use vstd::prelude::*;

verus! {

#[derive(Clone, Copy, Debug, PartialEq, Eq, Structural)]
pub enum Color {
    White,
    Black,
}

impl Color {
    /// The other side.
    pub open spec fn other(self) -> Color {
        match self {
            Color::White => Color::Black,
            Color::Black => Color::White,
        }
    }

    /// The other side.
    pub fn opposite(self) -> (c: Color)
        ensures
            c == self.other(),
    {
        match self {
            Color::White => Color::Black,
            Color::Black => Color::White,
        }
    }

    /// Reads the side from its letter, `w` or `b`.
    pub fn from_char(c: char) -> (r: Option<Color>)
        ensures
            r == (if c == 'w' {
                Some(Color::White)
            } else if c == 'b' {
                Some(Color::Black)
            } else {
                None
            }),
    {
        if c == 'w' {
            Some(Color::White)
        } else if c == 'b' {
            Some(Color::Black)
        } else {
            None
        }
    }

    /// The letter of the side: `w` or `b`.
    pub fn to_char(self) -> (c: char)
        ensures
            c == (if self == Color::White { 'w' } else { 'b' }),
    {
        match self {
            Color::White => 'w',
            Color::Black => 'b',
        }
    }
}

} // verus!
