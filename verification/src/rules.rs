//! What makes a position well formed and a move fit to be applied to it.

use vstd::prelude::*;
use crate::bitboard::is_single;
use crate::bitboard::{BitBoard, BitBoardExt, square_bit, test_bit};
use crate::bits::{
    bit, holds, lsb, lemma_lsb, lemma_ext, lemma_nonempty, lemma_member_nonzero, group_holds,
};
use crate::chess_board::{ChessBoard, ChessBoardSide};
use crate::chess_board::PieceType;
use crate::color::Color;
use crate::flags::StateFlags;
use crate::game_state::GameState;
use crate::make_unmake::{
    captured, capture_square, in_range, king_home, king_target, rook_home, rook_target,
};
use crate::moves::{
    Move, from_of, to_of, code_of, capture_code, castle_code, promotion_code, DOUBLE_PAWN_PUSH,
    EN_PASSANT, KING_CASTLE,
};

verus! {

/// Whether color `c` still holds the right to castle on the given wing.
pub open spec fn castle_right(f: StateFlags, c: Color, king_side: bool) -> bool {
    match c {
        Color::White => if king_side { f.white_king } else { f.white_queen },
        Color::Black => if king_side { f.black_king } else { f.black_queen },
    }
}

/// A held right means that king and rook stand on their home squares.
pub open spec fn right_is_backed(s: GameState, c: Color, king_side: bool) -> bool {
    castle_right(s.flags, c, king_side) ==> {
        &&& s.boards.side(c).king == bit(king_home(c))
        &&& holds(s.boards.side(c).rook, rook_home(c, king_side))
    }
}

/// The en-passant square, where there is one, is the free square that a pawn of
/// the side that is not to move has just passed over.
pub open spec fn en_passant_is_backed(s: GameState) -> bool {
    let x = lsb(s.en_passant);
    s.en_passant != 0 ==> {
        &&& is_single(s.en_passant)
        &&& !holds(s.boards.occupancy(), x)
        &&& match s.flags.active {
            Color::White => 40 <= x < 48 && holds(s.boards.black.pawn, (x - 8) as u8),
            Color::Black => 16 <= x < 24 && holds(s.boards.white.pawn, (x + 8) as u8),
        }
    }
}

/// The position is well formed: no square holds two pieces, each side has one
/// king, the en-passant square, where there is one, lies behind a pawn that has
/// just made a double step, and each castling right that is still held is backed
/// by king and rook on their home squares.
pub open spec fn well_formed(s: GameState) -> bool {
    &&& s.boards.disjoint()
    &&& is_single(s.boards.white.king)
    &&& is_single(s.boards.black.king)
    &&& en_passant_is_backed(s)
    &&& right_is_backed(s, Color::White, true)
    &&& right_is_backed(s, Color::White, false)
    &&& right_is_backed(s, Color::Black, true)
    &&& right_is_backed(s, Color::Black, false)
}

/// The castle fits the position: the right is held, the move names the king's
/// home and target, and the squares on which king and rook land are free.
pub open spec fn castle_fits(s: GameState, m: Move) -> bool {
    let c = s.flags.active;
    let king_side = code_of(m) == KING_CASTLE;
    &&& castle_right(s.flags, c, king_side)
    &&& from_of(m) == king_home(c)
    &&& to_of(m) == king_target(c, king_side)
    &&& !holds(s.boards.occupancy(), king_target(c, king_side))
    &&& !holds(s.boards.occupancy(), rook_target(c, king_side))
}

/// The move, which is no castle, fits the position: a piece of the mover stands
/// on the origin, no piece of the mover on the target; a capture takes a piece
/// that is there and is no king, a move that is no capture lands on a free
/// square; only pawns promote, capture en passant or make a double step, and the
/// double step starts on the pawn's home rank and passes over a free square.
pub open spec fn step_fits(s: GameState, m: Move) -> bool {
    let c = s.flags.active;
    let from = from_of(m);
    let to = to_of(m);
    let code = code_of(m);
    let mine = s.friendly();
    let theirs = s.enemy();
    &&& mine.piece_on(from) is Some
    &&& !holds(mine.occupancy(), to)
    &&& code == EN_PASSANT ==> {
        &&& mine.piece_on(from) == Some(PieceType::Pawn)
        &&& !holds(theirs.occupancy(), to)
        &&& holds(theirs.pawn, capture_square(c, m))
    }
    &&& capture_code(code) && code != EN_PASSANT ==> holds(theirs.occupancy(), to)
    &&& !capture_code(code) ==> !holds(theirs.occupancy(), to)
    &&& promotion_code(code) ==> mine.piece_on(from) == Some(PieceType::Pawn)
    &&& code == DOUBLE_PAWN_PUSH ==> {
        &&& mine.piece_on(from) == Some(PieceType::Pawn)
        &&& match c {
            Color::White => 8 <= from < 16 && to == from + 16 && !holds(
                s.boards.occupancy(),
                (from + 8) as u8,
            ),
            Color::Black => 48 <= from < 56 && to == from - 16 && !holds(
                s.boards.occupancy(),
                (from - 8) as u8,
            ),
        }
    }
    &&& captured(s, m) != Some(PieceType::King)
}

/// The move fits the position, so that it can be applied and taken back.
pub open spec fn applicable(s: GameState, m: Move) -> bool {
    &&& in_range(s, m)
    &&& if castle_code(code_of(m)) {
        castle_fits(s, m)
    } else {
        step_fits(s, m)
    }
}

/// Whether two boards share a square.
pub fn overlaps(a: BitBoard, b: BitBoard) -> (r: bool)
    ensures
        r == exists|sq: u8| holds(a, sq) && holds(b, sq),
{
    proof {
        broadcast use group_holds;
        if a & b != 0 {
            lemma_nonempty(a & b);
            let sq = choose|sq: u8| holds(a & b, sq);
            assert(holds(a, sq) && holds(b, sq));
        }
        if exists|sq: u8| holds(a, sq) && holds(b, sq) {
            let sq = choose|sq: u8| holds(a, sq) && holds(b, sq);
            assert(holds(a & b, sq));
            lemma_member_nonzero(a & b, sq);
        }
    }
    a & b != 0
}

/// Whether a board holds one square exactly.
pub fn holds_one(b: BitBoard) -> (r: bool)
    ensures
        r == is_single(b),
{
    if b == 0 {
        return false;
    }
    proof {
        broadcast use group_holds;
        lemma_lsb(b);
        let x = lsb(b);
        if b & !bit(x) == 0 {
            assert forall|i: u8| i < 64 implies holds(b, i) == holds(bit(x), i) by {
                assert(holds(b & !bit(x), i) == (holds(b, i) && i != x));
            }
            lemma_ext(b, bit(x));
        } else {
            lemma_nonempty(b & !bit(x));
            let i = choose|i: u8| holds(b & !bit(x), i);
            assert(holds(b, i) && i != x);
            assert(!holds(bit(x), i));
        }
    }
    let x = b.get_lsb();
    b & !square_bit(x) == 0
}

impl ChessBoardSide {
    /// Whether no square holds two pieces of this side.
    pub fn is_disjoint(&self) -> (r: bool)
        ensures
            r == self.disjoint(),
    {
        let a = self.pawn;
        let b = a | self.knight;
        let c = b | self.bishop;
        let d = c | self.rook;
        let e = d | self.queen;
        let r = !overlaps(a, self.knight) && !overlaps(b, self.bishop) && !overlaps(c, self.rook)
            && !overlaps(d, self.queen) && !overlaps(e, self.king);
        proof {
            broadcast use group_holds;
            if r {
                assert forall|sq: u8, p: PieceType, q: PieceType|
                    holds(self.board(p), sq) && holds(self.board(q), sq) implies p == q by {
                    assert(!(holds(a, sq) && holds(self.knight, sq)));
                    assert(!(holds(b, sq) && holds(self.bishop, sq)));
                    assert(!(holds(c, sq) && holds(self.rook, sq)));
                    assert(!(holds(d, sq) && holds(self.queen, sq)));
                    assert(!(holds(e, sq) && holds(self.king, sq)));
                }
            }
            if self.disjoint() {
                assert forall|sq: u8| !(holds(a, sq) && holds(self.knight, sq)) && !(holds(b, sq)
                    && holds(self.bishop, sq)) && !(holds(c, sq) && holds(self.rook, sq)) && !(
                holds(d, sq) && holds(self.queen, sq)) && !(holds(e, sq) && holds(self.king, sq)) by {
                    self.lemma_exclusive(sq);
                    self.lemma_occupancy(sq);
                }
            }
        }
        r
    }
}

impl ChessBoard {
    /// Whether no square holds two pieces.
    pub fn is_disjoint(&self) -> (r: bool)
        ensures
            r == self.disjoint(),
    {
        self.white.is_disjoint() && self.black.is_disjoint() && !overlaps(
            self.white.union(),
            self.black.union(),
        )
    }
}

impl GameState {
    fn right_backed(&self, c: Color, king_side: bool) -> (r: bool)
        ensures
            r == right_is_backed(*self, c, king_side),
    {
        let held = match c {
            Color::White => if king_side {
                self.flags.white_king_castle_right()
            } else {
                self.flags.white_queen_castle_right()
            },
            Color::Black => if king_side {
                self.flags.black_king_castle_right()
            } else {
                self.flags.black_queen_castle_right()
            },
        };
        if !held {
            return true;
        }
        let side = self.boards.get_side(c);
        let king_home: u8 = match c {
            Color::White => 4,
            Color::Black => 60,
        };
        let rook_home: u8 = match c {
            Color::White => if king_side { 7 } else { 0 },
            Color::Black => if king_side { 63 } else { 56 },
        };
        side.king == square_bit(king_home) && test_bit(side.rook, rook_home)
    }

    fn en_passant_backed(&self) -> (r: bool)
        ensures
            r == en_passant_is_backed(*self),
    {
        if self.en_passant == 0 {
            return true;
        }
        if !holds_one(self.en_passant) {
            return false;
        }
        proof {
            lemma_lsb(self.en_passant);
        }
        let x = self.en_passant.get_lsb();
        let occupied = self.boards.white.union() | self.boards.black.union();
        if test_bit(occupied, x) {
            return false;
        }
        match self.flags.active_color() {
            Color::White => 40 <= x && x < 48 && test_bit(self.boards.black.pawn, x - 8),
            Color::Black => 16 <= x && x < 24 && test_bit(self.boards.white.pawn, x + 8),
        }
    }

    /// Whether the position is well formed.
    pub fn is_well_formed(&self) -> (r: bool)
        ensures
            r == well_formed(*self),
    {
        self.boards.is_disjoint() && holds_one(self.boards.white.king) && holds_one(
            self.boards.black.king,
        ) && self.en_passant_backed() && self.right_backed(Color::White, true) && self.right_backed(
            Color::White,
            false,
        ) && self.right_backed(Color::Black, true) && self.right_backed(Color::Black, false)
    }
}

} // verus!
