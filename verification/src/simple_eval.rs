//! A static evaluation: material, pawn structure and mobility, from the point of
//! view of the side to move.

use vstd::prelude::*;
use crate::bitboard::{BitBoard, BitBoardExt, file_mask};
use crate::bits::holds;

use crate::game_state::GameState;

verus! {

pub const DOUBLED_PAWN_COEF: i32 = 40;

pub const ISOLATED_PAWN_COEF: i32 = 40;

pub const MOBILITY_COEF: i32 = 5;

/// The number of squares below `n` that the board holds.
pub open spec fn count_below(b: u64, n: int) -> int
    decreases n,
{
    if n <= 0 {
        0
    } else {
        count_below(b, n - 1) + (if holds(b, (n - 1) as u8) { 1int } else { 0int })
    }
}

/// The number of squares that the board holds.
pub open spec fn population(b: u64) -> int {
    count_below(b, 64)
}

pub proof fn lemma_count_bounds(b: u64, n: int)
    requires
        0 <= n <= 64,
    ensures
        0 <= count_below(b, n) <= n,
    decreases n,
{
    if n > 0 {
        lemma_count_bounds(b, n - 1);
    }
}

/// `u64::count_ones` returns the number of ones in the binary representation of
/// its argument, that is the number of squares that the board holds.
pub assume_specification[ u64::count_ones ](i: u64) -> (r: u32)
    ensures
        r == population(i),
;

/// The pawns beyond the first on file `col`.
pub open spec fn doubled_on(pawns: u64, col: int) -> int {
    let on_file = file_mask(col as u8) & pawns;
    if on_file != 0 {
        population(on_file) - 1
    } else {
        0
    }
}

/// The pawns beyond the first of each file, over the files below `n`.
pub open spec fn doubled_below(pawns: u64, n: int) -> int
    decreases n,
{
    if n <= 0 {
        0
    } else {
        doubled_below(pawns, n - 1) + doubled_on(pawns, n - 1)
    }
}

/// Whether file `col` holds pawns and the files beside it hold none.
pub open spec fn isolated_on(pawns: u64, col: int) -> bool {
    &&& (pawns & file_mask(col as u8)) != 0
    &&& col > 0 ==> (pawns & file_mask((col - 1) as u8)) == 0
    &&& col < 7 ==> (pawns & file_mask((col + 1) as u8)) == 0
}

/// The number of files from `lo` below `n` whose pawns are isolated.
pub open spec fn isolated_between(pawns: u64, lo: int, n: int) -> int
    decreases n - lo,
{
    if n <= lo {
        0
    } else {
        isolated_between(pawns, lo, n - 1) + (if isolated_on(pawns, n - 1) { 1int } else { 0int })
    }
}

/// The files with isolated pawns: the two edge files, then the six between.
pub open spec fn isolated_files(pawns: u64) -> int {
    (if isolated_on(pawns, 0) { 1int } else { 0int }) + (if isolated_on(pawns, 7) {
        1int
    } else {
        0int
    }) + isolated_between(pawns, 1, 7)
}

/// The surplus of a kind of piece of the side to move, weighted.
pub open spec fn material_of(active: u64, passive: u64, coef: int) -> int {
    coef * (population(active) - population(passive))
}

/// The material of the side to move less that of the other side, in centipawns.
pub open spec fn material(s: GameState) -> int {
    let a = s.friendly();
    let p = s.enemy();
    material_of(a.pawn, p.pawn, 100) + material_of(a.knight, p.knight, 300) + material_of(
        a.bishop,
        p.bishop,
        300,
    ) + material_of(a.rook, p.rook, 500) + material_of(a.queen, p.queen, 900)
}

/// The doubled pawns of the other side less those of the side to move.
pub open spec fn doubled_pawns(s: GameState) -> int {
    doubled_below(s.enemy().pawn, 8) - doubled_below(s.friendly().pawn, 8)
}

/// The isolated pawn files of the other side less those of the side to move.
pub open spec fn isolated_pawns(s: GameState) -> int {
    isolated_files(s.enemy().pawn) - isolated_files(s.friendly().pawn)
}

/// The pawn structure score of the side to move.
pub open spec fn pawn_structure(s: GameState) -> int {
    DOUBLED_PAWN_COEF * doubled_pawns(s) + ISOLATED_PAWN_COEF * isolated_pawns(s)
}

pub proof fn lemma_doubled_bounds(pawns: u64, n: int)
    requires
        0 <= n <= 8,
    ensures
        0 <= doubled_below(pawns, n) <= 63 * n,
    decreases n,
{
    if n > 0 {
        lemma_doubled_bounds(pawns, n - 1);
        lemma_count_bounds(file_mask((n - 1) as u8) & pawns, 64);
        if (file_mask((n - 1) as u8) & pawns) != 0 {
            lemma_population_nonzero(file_mask((n - 1) as u8) & pawns);
        }
    }
}

/// A board that is not empty holds at least one square.
pub proof fn lemma_population_nonzero(b: u64)
    requires
        b != 0,
    ensures
        population(b) >= 1,
{
    crate::bits::lemma_lsb(b);
    lemma_count_member(b, crate::bits::lsb(b), 64);
}

proof fn lemma_count_member(b: u64, x: u8, n: int)
    requires
        holds(b, x),
        x < n <= 64,
    ensures
        count_below(b, n) >= 1,
    decreases n,
{
    lemma_count_bounds(b, n - 1);
    if x < n - 1 {
        lemma_count_member(b, x, n - 1);
    }
}

pub proof fn lemma_isolated_bounds(pawns: u64, lo: int, n: int)
    requires
        0 <= lo <= n <= 8,
    ensures
        0 <= isolated_between(pawns, lo, n) <= n - lo,
    decreases n - lo,
{
    if n > lo {
        lemma_isolated_bounds(pawns, lo, n - 1);
    }
}

impl GameState {
    /// The doubled pawns of the other side less those of the side to move.
    pub fn doubled_pawn_number(&self) -> (r: i32)
        ensures
            r == doubled_pawns(*self),
            -504 <= r <= 504,
    {
        let (active_boards, passive_boards) = self.split_boards();
        let (active_pawns, passive_pawns) = (active_boards.pawn, passive_boards.pawn);
        let (mut active_doubled_pawns, mut passive_doubled_pawns): (i32, i32) = (0, 0);
        let mut col: i32 = 0;
        while col < 8
            invariant
                0 <= col <= 8,
                active_doubled_pawns == doubled_below(active_pawns, col as int),
                passive_doubled_pawns == doubled_below(passive_pawns, col as int),
            decreases 8 - col,
        {
            proof {
                lemma_doubled_bounds(active_pawns, col as int);
                lemma_doubled_bounds(passive_pawns, col as int);
                lemma_doubled_bounds(active_pawns, col + 1);
                lemma_doubled_bounds(passive_pawns, col + 1);
            }
            let column = BitBoard::column(col);
            let (active_col, passive_col) = (column & active_pawns, column & passive_pawns);
            if active_col > 0 {
                active_doubled_pawns += active_col.count_ones() as i32 - 1;
            }
            if passive_col > 0 {
                passive_doubled_pawns += passive_col.count_ones() as i32 - 1;
            }
            col += 1;
        }
        proof {
            lemma_doubled_bounds(active_pawns, 8);
            lemma_doubled_bounds(passive_pawns, 8);
        }
        passive_doubled_pawns - active_doubled_pawns
    }

    fn isolated_file_number(pawns: BitBoard) -> (r: i32)
        ensures
            r == isolated_files(pawns),
            0 <= r <= 8,
    {
        let mut counter: i32 = 0;
        if pawns & BitBoard::column(0) > 0 && pawns & BitBoard::column(1) == 0 {
            counter += 1;
        }
        if pawns & BitBoard::column(7) > 0 && pawns & BitBoard::column(6) == 0 {
            counter += 1;
        }
        let ghost edges = counter;
        let mut col: i32 = 1;
        while col < 7
            invariant
                1 <= col <= 7,
                0 <= edges <= 2,
                counter == edges + isolated_between(pawns, 1, col as int),
            decreases 7 - col,
        {
            proof {
                lemma_isolated_bounds(pawns, 1, col as int);
            }
            if pawns & BitBoard::column(col) > 0 && pawns & BitBoard::column(col - 1) == 0 && pawns
                & BitBoard::column(col + 1) == 0 {
                counter += 1;
            }
            col += 1;
        }
        proof {
            lemma_isolated_bounds(pawns, 1, 7);
        }
        counter
    }

    /// The isolated pawn files of the other side less those of the side to move.
    pub fn isolated_pawn_number(&self) -> (r: i32)
        ensures
            r == isolated_pawns(*self),
            -8 <= r <= 8,
    {
        let (active_boards, passive_boards) = self.split_boards();
        let active_isolated_pawns = GameState::isolated_file_number(active_boards.pawn);
        let passive_isolated_pawns = GameState::isolated_file_number(passive_boards.pawn);
        passive_isolated_pawns - active_isolated_pawns
    }

    pub fn pawn_structure_score(&self) -> (r: i32)
        ensures
            r == pawn_structure(*self),
            -20480 <= r <= 20480,
    {
        DOUBLED_PAWN_COEF * self.doubled_pawn_number() + ISOLATED_PAWN_COEF
            * self.isolated_pawn_number()
    }

    /// The pieces of the side to move less those of the other side, each worth
    /// `coef`. Sixty-four pieces either way must fit the result.
    pub fn board_material(active_pieces: BitBoard, passive_pieces: BitBoard, coef: i32) -> (r: i32)
        requires
            -i32::MAX <= 64 * coef <= i32::MAX,
        ensures
            r == material_of(active_pieces, passive_pieces, coef as int),
            coef >= 0 ==> -64 * coef <= r <= 64 * coef,
            coef <= 0 ==> 64 * coef <= r <= -64 * coef,
    {
        proof {
            lemma_count_bounds(active_pieces, 64);
            lemma_count_bounds(passive_pieces, 64);
        }
        let active_material = active_pieces.count_ones() as i32;
        let passive_material = passive_pieces.count_ones() as i32;
        let diff = active_material - passive_material;
        assert(coef >= 0 ==> -64 * coef <= coef * diff <= 64 * coef) by (nonlinear_arith)
            requires
                -64 <= diff <= 64,
        ;
        assert(coef <= 0 ==> 64 * coef <= coef * diff <= -64 * coef) by (nonlinear_arith)
            requires
                -64 <= diff <= 64,
        ;
        coef * diff
    }

    pub fn material_score(&self) -> (r: i32)
        ensures
            r == material(*self),
            -134400 <= r <= 134400,
    {
        let (active_pieces, passive_pieces) = self.split_boards();
        GameState::board_material(active_pieces.pawn, passive_pieces.pawn, 100)
            + GameState::board_material(active_pieces.knight, passive_pieces.knight, 300)
            + GameState::board_material(active_pieces.bishop, passive_pieces.bishop, 300)
            + GameState::board_material(active_pieces.rook, passive_pieces.rook, 500)
            + GameState::board_material(active_pieces.queen, passive_pieces.queen, 900)
    }
}

} // verus!
