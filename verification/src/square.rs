//! Squares of the board and the home squares used by castling.

use vstd::prelude::*;
use vstd::string::StrSliceExecFns;
use crate::chess_board::PieceType;
use crate::color::Color;
use crate::bitboard::square_name;
use crate::text::{digit, letter};

verus! {

/// One of the 64 cells: `8 * rank + file`.
#[derive(Clone, Copy, Debug, PartialEq, Eq, Structural, PartialOrd, Ord, Hash)]
pub struct Square(pub u8);

impl Square {
    /// The square is on the board.
    pub open spec fn valid(self) -> bool {
        self.0 < 64
    }

    pub fn new(rank: u8, file: u8) -> (s: Square)
        requires
            rank < 8,
            file < 8,
        ensures
            s.0 == rank * 8 + file,
            s.valid(),
    {
        Square(rank * 8 + file)
    }

    pub fn rank(&self) -> (r: u8)
        ensures
            r == self.0 / 8,
    {
        self.0 / 8
    }

    pub fn file(&self) -> (f: u8)
        ensures
            f == self.0 % 8,
    {
        self.0 % 8
    }

    /// The square on the same file seen from the other side of the board.
    pub fn mirror(&self) -> (m: Square)
        requires
            self.valid(),
        ensures
            m.0 == (7 - self.0 / 8) * 8 + self.0 % 8,
            m.valid(),
    {
        Square::new(7 - self.rank(), self.file())
    }

    /// All squares, a1 first, h8 last.
    pub fn iter() -> (v: Vec<Square>)
        ensures
            v@.len() == 64,
            forall|i: int| 0 <= i < 64 ==> v@[i].0 == i,
    {
        let mut v: Vec<Square> = Vec::new();
        let mut i: u8 = 0;
        while i < 64
            invariant
                i <= 64,
                v@.len() == i,
                forall|k: int| 0 <= k < i ==> v@[k].0 == k,
            decreases 64 - i,
        {
            v.push(Square(i));
            i += 1;
        }
        v
    }

    pub fn from_bits(bits: u8) -> (s: Square)
        ensures
            s.0 == bits,
    {
        Square(bits)
    }

    pub fn into_bits(self) -> (bits: u8)
        ensures
            bits == self.0,
    {
        self.0
    }

    /// The algebraic name: file letter, then rank digit.
    pub fn to_string(&self) -> (s: String)
        requires
            self.valid(),
        ensures
            s@ == square_name(self.0),
    {
        let mut s = String::new();
        s.push(letter(self.file()));
        s.push(digit(self.rank() + 1));
        assert(s@ =~= square_name(self.0));
        s
    }

    /// The text names a square: a file letter `a` to `h`, then a rank digit `1` to `8`.
    pub open spec fn names_square(text: Seq<char>) -> bool {
        &&& text.len() == 2
        &&& 'a' <= text[0] <= 'h'
        &&& '1' <= text[1] <= '8'
    }

    /// The square that a well-formed name stands for.
    pub open spec fn named(text: Seq<char>) -> Square {
        Square(((text[1] as u8 - 49) * 8 + (text[0] as u8 - 97)) as u8)
    }

    /// Reads a square from its algebraic name.
    pub fn try_from(value: &str) -> (r: Result<Square, &'static str>)
        ensures
            r is Ok <==> Square::names_square(value@),
            r matches Ok(s) ==> s == Square::named(value@) && s.valid(),
    {
        if value.unicode_len() != 2 {
            return Err("Square string malformed.");
        }
        let f = value.get_char(0);
        let r = value.get_char(1);
        if 'a' <= f && f <= 'h' && '1' <= r && r <= '8' {
            Ok(Square::new(r as u8 - 49, f as u8 - 97))
        } else {
            Err("Square string malformed.")
        }
    }
}

/// The wing on which a king castles.
#[derive(Clone, Copy, Debug, PartialEq, Eq, Structural)]
pub enum CastleSide {
    King,
    Queen,
}

/// Finds the home squares of one color.
pub struct SquareFinder(pub Color);

impl SquareFinder {
    /// A first-rank square seen from this color's side of the board.
    pub open spec fn adapted(self, offset: Square) -> Square {
        match self.0 {
            Color::White => offset,
            Color::Black => Square(((7 - offset.0 / 8) * 8 + offset.0 % 8) as u8),
        }
    }

    fn adapt_to_color(&self, offset: Square) -> (s: Square)
        requires
            offset.valid(),
        ensures
            s == self.adapted(offset),
            s.valid(),
    {
        match self.0 {
            Color::White => offset,
            Color::Black => offset.mirror(),
        }
    }

    /// The square on which this color's queen or king starts.
    pub fn source(&self, piece: PieceType) -> (s: Square)
        requires
            piece == PieceType::Queen || piece == PieceType::King,
        ensures
            s == self.adapted(Square(if piece == PieceType::Queen { 3 } else { 4 })),
            s.valid(),
    {
        let offset = match piece {
            PieceType::Queen => Square::new(0, 3),
            _ => Square::new(0, 4),
        };
        self.adapt_to_color(offset)
    }

    /// The square on which this color's king lands when it castles.
    pub fn castle_target(&self, side: CastleSide) -> (s: Square)
        ensures
            s == self.adapted(Square(if side == CastleSide::King { 6 } else { 2 })),
            s.valid(),
    {
        let offset = match side {
            CastleSide::King => Square::new(0, 6),
            CastleSide::Queen => Square::new(0, 2),
        };
        self.adapt_to_color(offset)
    }

    /// The squares that this color's king stands on or crosses when it castles king side.
    pub fn castle_check(&self, side: CastleSide) -> (a: [Square; 3])
        requires
            side == CastleSide::King,
        ensures
            a@ == seq![
                self.adapted(Square(4)),
                self.adapted(Square(5)),
                self.adapted(Square(6)),
            ],
    {
        let a = [
            self.adapt_to_color(Square::new(0, 4)),
            self.adapt_to_color(Square::new(0, 5)),
            self.adapt_to_color(Square::new(0, 6)),
        ];
        assert(a@ =~= seq![
            self.adapted(Square(4)),
            self.adapted(Square(5)),
            self.adapted(Square(6)),
        ]);
        a
    }
}

} // verus!
