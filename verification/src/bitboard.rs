//! Bitboards: a `u64` read as a set of the squares 0..64, square `8 * rank + file`.

use vstd::prelude::*;
use vstd::string::StrSliceExecFns;
use crate::bits::{bit, holds, lsb, msb, lemma_lsb, lemma_msb};
use crate::text::{digit, letter, digit_char, letter_char};

verus! {

/// A set of squares, one bit per square.
pub type BitBoard = u64;

pub const EMPTY: BitBoard = 0;

pub const FULL: BitBoard = 0xFFFF_FFFF_FFFF_FFFF;

/// The first rank.
pub const RANK: BitBoard = 0xFF;

/// The a-file.
pub const FILE: BitBoard = 0x0101_0101_0101_0101;

/// The squares of file `f`.
pub open spec fn file_mask(f: u8) -> u64 {
    FILE << (f as u64)
}

/// The squares of rank `r`.
pub open spec fn rank_mask(r: u8) -> u64 {
    RANK << ((8 * r) as u64)
}

pub broadcast proof fn lemma_file_mask(f: u8, sq: u8)
    by (bit_vector)
    requires
        f < 8,
    ensures
        #[trigger] holds(file_mask(f), sq) == (sq < 64 && sq % 8 == f),
{
}

pub broadcast proof fn lemma_rank_mask(r: u8, sq: u8)
    by (bit_vector)
    requires
        r < 8,
    ensures
        #[trigger] holds(rank_mask(r), sq) == (sq < 64 && sq / 8 == r),
{
}

/// The board drawn as eight lines of eight digits, rank 8 first, file a on the left.
pub open spec fn pretty(b: u64) -> Seq<char> {
    Seq::new(
        72,
        |k: int|
            if k % 9 == 8 {
                '\n'
            } else if holds(b, ((7 - k / 9) * 8 + k % 9) as u8) {
                '1'
            } else {
                '0'
            },
    )
}

/// The algebraic name of a square: file letter, then rank digit.
pub open spec fn square_name(sq: u8) -> Seq<char> {
    seq![letter_char(sq % 8), digit_char((sq / 8 + 1) as u8)]
}

/// Exactly one square is set.
pub open spec fn is_single(b: u64) -> bool {
    b != 0 && b == bit(lsb(b))
}

/// Convenience methods on bitboards.
pub trait BitBoardExt: Sized {
    /// The mask this value stands for.
    spec fn mask(&self) -> u64;

    /// The highest set square, -1 if there is none.
    fn get_msb(&self) -> (r: i8)
        ensures
            r == msb(self.mask()),
            -1 <= r < 64,
            self.mask() != 0 <==> r >= 0,
    ;

    /// The lowest set square, 64 if there is none.
    fn get_lsb(&self) -> (r: u8)
        ensures
            r == lsb(self.mask()),
            r <= 64,
            self.mask() != 0 <==> r < 64,
    ;

    /// Removes the highest set square and returns it.
    fn pop_msb(&mut self) -> (r: u8)
        requires
            old(self).mask() != 0,
        ensures
            r == msb(old(self).mask()),
            r < 64,
            final(self).mask() == old(self).mask() & !bit(r),
    ;

    fn to_pretty_string(&self) -> (s: String)
        ensures
            s@ == pretty(self.mask()),
    ;

    /// Removes the lowest set square and returns it.
    fn pop_lsb(&mut self) -> (r: u8)
        requires
            old(self).mask() != 0,
        ensures
            r == lsb(old(self).mask()),
            r < 64,
            final(self).mask() == old(self).mask() & !bit(r),
    ;

    /// The board holding the square named by a file letter and a rank digit.
    fn from_square(square: &str) -> (b: BitBoard)
        requires
            square@.len() >= 2,
            'a' <= square@[0] <= 'h',
            '1' <= square@[1] <= '8',
        ensures
            b == bit(((square@[1] as u8 - 49) * 8 + (square@[0] as u8 - 97)) as u8),
    ;

    /// The name of the only square of the board.
    fn to_square(&self) -> (s: String)
        requires
            is_single(self.mask()),
        ensures
            s@ == square_name(lsb(self.mask())),
    ;

    /// The squares of file `number`.
    fn column(number: i32) -> (b: BitBoard)
        requires
            0 <= number < 8,
        ensures
            b == file_mask(number as u8),
    ;

    /// The squares of rank `number`.
    fn row(number: i32) -> (b: BitBoard)
        requires
            0 <= number < 8,
        ensures
            b == rank_mask(number as u8),
    ;
}

/// The board holding exactly `sq`.
pub fn square_bit(sq: u8) -> (b: BitBoard)
    requires
        sq < 64,
    ensures
        b == bit(sq),
{
    1u64 << (sq as u64)
}

/// Whether `sq` is set in `b`.
pub fn test_bit(b: BitBoard, sq: u8) -> (r: bool)
    requires
        sq < 64,
    ensures
        r == holds(b, sq),
{
    proof {
        crate::bits::lemma_and_bit(b, sq);
    }
    b & (1u64 << (sq as u64)) != 0
}

impl BitBoardExt for BitBoard {
    open spec fn mask(&self) -> u64 {
        *self
    }

    fn pop_lsb(&mut self) -> (r: u8) {
        proof {
            lemma_lsb(*self);
        }
        let lsb = self.trailing_zeros() as u8;
        *self = *self & !(1u64 << (lsb as u64));
        lsb
    }

    fn pop_msb(&mut self) -> (r: u8) {
        proof {
            lemma_msb(*self);
        }
        let msb = 63 - self.leading_zeros() as u8;
        *self = *self & !(1u64 << (msb as u64));
        msb
    }

    fn get_lsb(&self) -> (r: u8) {
        proof {
            lemma_lsb(*self);
        }
        self.trailing_zeros() as u8
    }

    fn get_msb(&self) -> (r: i8) {
        proof {
            lemma_msb(*self);
        }
        63 - self.leading_zeros() as i8
    }

    fn to_pretty_string(&self) -> (s: String) {
        let mut res = String::new();
        let mut line: u8 = 0;
        while line < 8
            invariant
                line <= 8,
                res@.len() == 9 * line,
                forall|k: int| 0 <= k < res@.len() ==> res@[k] == pretty(*self)[k],
            decreases 8 - line,
        {
            let mut col: u8 = 0;
            while col < 8
                invariant
                    line < 8,
                    col <= 8,
                    res@.len() == 9 * line + col,
                    forall|k: int| 0 <= k < res@.len() ==> res@[k] == pretty(*self)[k],
                decreases 8 - col,
            {
                let sq = (7 - line) * 8 + col;
                if test_bit(*self, sq) {
                    res.push('1');
                } else {
                    res.push('0');
                }
                col += 1;
            }
            res.push('\n');
            line += 1;
        }
        assert(res@ =~= pretty(*self));
        res
    }

    fn from_square(square: &str) -> (b: BitBoard) {
        let file = square.get_char(0) as u8 - 97;
        let rank = square.get_char(1) as u8 - 49;
        1u64 << ((rank * 8 + file) as u64)
    }

    fn to_square(&self) -> (s: String) {
        let lsb = self.get_lsb();
        let file = lsb % 8;
        let rank = lsb / 8;
        let mut s = String::new();
        s.push(letter(file));
        s.push(digit(rank + 1));
        assert(s@ =~= square_name(lsb));
        s
    }

    fn column(number: i32) -> (b: BitBoard) {
        FILE << (number as u64)
    }

    fn row(number: i32) -> (b: BitBoard) {
        RANK << ((number * 8) as u64)
    }
}

} // verus!

