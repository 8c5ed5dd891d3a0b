//! The full position and its hash.

use vstd::prelude::*;
use crate::bitboard::{BitBoard, BitBoardExt};
use crate::bits::{bit, holds, lsb, lemma_lsb, group_holds};
use crate::chess_board::{ChessBoard, ChessBoardSide, PieceType};
use crate::color::Color;
use crate::flags::StateFlags;
use crate::zobrist_numbers::ZobristNumbers;

verus! {

/// The exclusive or of all the elements of `s`.
pub open spec fn fold_xor(s: Seq<u64>) -> u64
    decreases s.len(),
{
    if s.len() == 0 {
        0
    } else {
        fold_xor(s.drop_last()) ^ s.last()
    }
}

pub proof fn lemma_xor_algebra(a: u64, b: u64, c: u64)
    by (bit_vector)
    ensures
        a ^ 0 == a,
        0 ^ a == a,
        a ^ a == 0,
        a ^ b == b ^ a,
        (a ^ b) ^ c == a ^ (b ^ c),
        (a ^ b) ^ c == (a ^ c) ^ b,
        (a ^ b) ^ b == a,
{
}

/// Exclusive or with `d` on one element shows as exclusive or with `d` on the fold.
pub proof fn lemma_fold_update(s: Seq<u64>, i: int, d: u64)
    requires
        0 <= i < s.len(),
    ensures
        fold_xor(s.update(i, s[i] ^ d)) == fold_xor(s) ^ d,
    decreases s.len(),
{
    let t = s.update(i, s[i] ^ d);
    if i == s.len() - 1 {
        assert(t.drop_last() =~= s.drop_last());
        lemma_xor_algebra(fold_xor(s.drop_last()), s.last(), d);
    } else {
        assert(t.drop_last() =~= s.drop_last().update(i, s.drop_last()[i] ^ d));
        lemma_fold_update(s.drop_last(), i, d);
        lemma_xor_algebra(fold_xor(s.drop_last()), d, s.last());
    }
}

/// The fold of zeros is zero.
pub proof fn lemma_fold_zero(s: Seq<u64>)
    requires
        forall|i: int| 0 <= i < s.len() ==> s[i] == 0,
    ensures
        fold_xor(s) == 0,
    decreases s.len(),
{
    if s.len() > 0 {
        lemma_fold_zero(s.drop_last());
        lemma_xor_algebra(0, 0, 0);
    }
}

/// What each square adds to the hash of a board: its number where the board holds it.
pub open spec fn contributions(b: u64, z: Seq<u64>) -> Seq<u64> {
    Seq::new(
        64,
        |i: int|
            if holds(b, i as u8) {
                z[i]
            } else {
                0u64
            },
    )
}

/// The exclusive or of the numbers of the squares that the board holds.
pub open spec fn board_hash(b: u64, z: Seq<u64>) -> u64 {
    fold_xor(contributions(b, z))
}

/// Two boards that differ in the square `sq` alone differ in their hash by its number.
pub proof fn lemma_board_toggle(b: u64, c: u64, z: Seq<u64>, sq: u8)
    requires
        sq < 64,
        z.len() == 64,
        forall|i: u8| i < 64 ==> holds(c, i) == (holds(b, i) != (i == sq)),
    ensures
        board_hash(c, z) == board_hash(b, z) ^ z[sq as int],
{
    let s = contributions(b, z);
    lemma_xor_algebra(z[sq as int], 0, 0);
    assert forall|i: int| 0 <= i < 64 implies contributions(c, z)[i] == s.update(
        sq as int,
        s[sq as int] ^ z[sq as int],
    )[i] by {
        assert(holds(c, i as u8) == (holds(b, i as u8) != (i as u8 == sq)));
    }
    assert(contributions(c, z) =~= s.update(sq as int, s[sq as int] ^ z[sq as int]));
    lemma_fold_update(s, sq as int, z[sq as int]);
}

/// The empty board hashes to zero.
pub proof fn lemma_board_hash_empty(z: Seq<u64>)
    ensures
        board_hash(0, z) == 0,
{
    broadcast use group_holds;
    lemma_fold_zero(contributions(0, z));
}

/// Removing a square that the board holds takes its number out of the hash.
pub proof fn lemma_board_remove(b: u64, z: Seq<u64>, sq: u8)
    requires
        z.len() == 64,
        holds(b, sq),
    ensures
        board_hash(b & !bit(sq), z) == board_hash(b, z) ^ z[sq as int],
{
    broadcast use group_holds;
    lemma_board_toggle(b, b & !bit(sq), z, sq);
}

/// Adding a square that the board lacks puts its number into the hash.
pub proof fn lemma_board_add(b: u64, z: Seq<u64>, sq: u8)
    requires
        z.len() == 64,
        sq < 64,
        !holds(b, sq),
    ensures
        board_hash(b | bit(sq), z) == board_hash(b, z) ^ z[sq as int],
{
    broadcast use group_holds;
    lemma_board_toggle(b, b | bit(sq), z, sq);
}

#[derive(Clone, Copy, Debug, PartialEq, Eq, Structural)]
pub struct GameState {
    pub boards: ChessBoard,
    pub en_passant: BitBoard,
    pub flags: StateFlags,
    pub halfmove: u8,
}

/// The number of a flag that is set, zero otherwise.
pub open spec fn number_if(flag: bool, z: u64) -> u64 {
    if flag {
        z
    } else {
        0
    }
}

/// The number of the file of the en-passant square, zero where there is none.
pub open spec fn en_passant_hash(ep: u64, z: &ZobristNumbers) -> u64 {
    if ep != 0 {
        z.en_passant_file@[(lsb(ep) % 8) as int]
    } else {
        0
    }
}

impl GameState {
    /// The eighteen parts of the hash: the twelve boards, white pawns to black
    /// king, the side to move (black counts), the four castling rights and the
    /// en-passant file.
    pub open spec fn hash_parts(&self, z: &ZobristNumbers) -> Seq<u64> {
        seq![
            board_hash(self.boards.white.pawn, z.board.white.pawn@),
            board_hash(self.boards.white.knight, z.board.white.knight@),
            board_hash(self.boards.white.bishop, z.board.white.bishop@),
            board_hash(self.boards.white.rook, z.board.white.rook@),
            board_hash(self.boards.white.queen, z.board.white.queen@),
            board_hash(self.boards.white.king, z.board.white.king@),
            board_hash(self.boards.black.pawn, z.board.black.pawn@),
            board_hash(self.boards.black.knight, z.board.black.knight@),
            board_hash(self.boards.black.bishop, z.board.black.bishop@),
            board_hash(self.boards.black.rook, z.board.black.rook@),
            board_hash(self.boards.black.queen, z.board.black.queen@),
            board_hash(self.boards.black.king, z.board.black.king@),
            number_if(self.flags.active == Color::Black, z.active_color),
            number_if(self.flags.white_king, z.castling.white_king_side),
            number_if(self.flags.white_queen, z.castling.white_queen_side),
            number_if(self.flags.black_king, z.castling.black_king_side),
            number_if(self.flags.black_queen, z.castling.black_queen_side),
            en_passant_hash(self.en_passant, z),
        ]
    }

    /// The hash of the position, computed from scratch.
    pub open spec fn hash_of(&self, z: &ZobristNumbers) -> u64 {
        fold_xor(self.hash_parts(z))
    }

    /// The boards of the side to move.
    pub open spec fn friendly(&self) -> ChessBoardSide {
        self.boards.side(self.flags.active)
    }

    /// The boards of the side that is not to move.
    pub open spec fn enemy(&self) -> ChessBoardSide {
        self.boards.side(self.flags.active.other())
    }

    fn hash_board(hash: u64, board: BitBoard, numbers: &[u64; 64]) -> (r: u64)
        ensures
            r == hash ^ board_hash(board, numbers@),
    {
        let mut hash = hash;
        let mut b = board;
        let ghost h0 = hash;
        while b != 0
            invariant
                hash ^ board_hash(b, numbers@) == h0 ^ board_hash(board, numbers@),
            decreases b,
        {
            let ghost prev = b;
            let ghost prev_hash = hash;
            proof {
                lemma_lsb(b);
            }
            let sq = b.pop_lsb();
            hash = hash ^ numbers[sq as usize];
            proof {
                crate::bits::lemma_clear_decreases(prev, sq);
                lemma_board_remove(prev, numbers@, sq);
                let z = numbers@[sq as int];
                lemma_xor_algebra(prev_hash, z, board_hash(b, numbers@));
                lemma_xor_algebra(prev_hash, board_hash(b, numbers@), z);
                lemma_xor_algebra(board_hash(prev, numbers@), z, z);
            }
        }
        proof {
            lemma_board_hash_empty(numbers@);
            lemma_xor_algebra(hash, 0, 0);
        }
        hash
    }

    /// The hash of the position, computed from scratch.
    pub fn hash(&self, zobrist_numbers: &ZobristNumbers) -> (h: u64)
        ensures
            h == self.hash_of(zobrist_numbers),
    {
        let z = zobrist_numbers;
        let ghost parts = self.hash_parts(z);
        let mut hash: u64 = 0;
        proof {
            assert(parts.take(0) =~= Seq::<u64>::empty());
        }
        hash = GameState::hash_board(hash, self.boards.white.pawn, &z.board.white.pawn);
        proof { lemma_take_step(parts, 0); }
        hash = GameState::hash_board(hash, self.boards.white.knight, &z.board.white.knight);
        proof { lemma_take_step(parts, 1); }
        hash = GameState::hash_board(hash, self.boards.white.bishop, &z.board.white.bishop);
        proof { lemma_take_step(parts, 2); }
        hash = GameState::hash_board(hash, self.boards.white.rook, &z.board.white.rook);
        proof { lemma_take_step(parts, 3); }
        hash = GameState::hash_board(hash, self.boards.white.queen, &z.board.white.queen);
        proof { lemma_take_step(parts, 4); }
        hash = GameState::hash_board(hash, self.boards.white.king, &z.board.white.king);
        proof { lemma_take_step(parts, 5); }
        hash = GameState::hash_board(hash, self.boards.black.pawn, &z.board.black.pawn);
        proof { lemma_take_step(parts, 6); }
        hash = GameState::hash_board(hash, self.boards.black.knight, &z.board.black.knight);
        proof { lemma_take_step(parts, 7); }
        hash = GameState::hash_board(hash, self.boards.black.bishop, &z.board.black.bishop);
        proof { lemma_take_step(parts, 8); }
        hash = GameState::hash_board(hash, self.boards.black.rook, &z.board.black.rook);
        proof { lemma_take_step(parts, 9); }
        hash = GameState::hash_board(hash, self.boards.black.queen, &z.board.black.queen);
        proof { lemma_take_step(parts, 10); }
        hash = GameState::hash_board(hash, self.boards.black.king, &z.board.black.king);
        proof { lemma_take_step(parts, 11); }
        assert(hash == fold_xor(parts.take(12)));
        let ghost h12 = hash;
        if self.flags.active_color() == Color::Black {
            hash = hash ^ z.active_color;
        }
        proof {
            lemma_xor_algebra(h12, 0, 0);
            lemma_take_step(parts, 12);
        }
        let ghost h13 = hash;
        if self.flags.white_king_castle_right() {
            hash = hash ^ z.castling.white_king_side;
        }
        proof {
            lemma_xor_algebra(h13, 0, 0);
            lemma_take_step(parts, 13);
        }
        let ghost h14 = hash;
        if self.flags.white_queen_castle_right() {
            hash = hash ^ z.castling.white_queen_side;
        }
        proof {
            lemma_xor_algebra(h14, 0, 0);
            lemma_take_step(parts, 14);
        }
        let ghost h15 = hash;
        if self.flags.black_king_castle_right() {
            hash = hash ^ z.castling.black_king_side;
        }
        proof {
            lemma_xor_algebra(h15, 0, 0);
            lemma_take_step(parts, 15);
        }
        let ghost h16 = hash;
        if self.flags.black_queen_castle_right() {
            hash = hash ^ z.castling.black_queen_side;
        }
        proof {
            lemma_xor_algebra(h16, 0, 0);
            lemma_take_step(parts, 16);
        }
        let ghost h17 = hash;
        if self.en_passant != 0 {
            let sq = self.en_passant.get_lsb();
            hash = hash ^ z.en_passant_file[(sq % 8) as usize];
        }
        proof {
            lemma_xor_algebra(h17, 0, 0);
            lemma_take_step(parts, 17);
            assert(parts.take(18) =~= parts);
        }
        hash
    }

    /// The boards of the side to move, then those of the other side, to be changed
    /// in place.
    pub fn split_boards_mut(&mut self) -> (r: (&mut ChessBoardSide, &mut ChessBoardSide))
        ensures
            *r.0 == old(self).friendly(),
            *r.1 == old(self).enemy(),
            *final(self) == (GameState {
                boards: old(self).boards.with_side(old(self).flags.active, *final(r.0)).with_side(
                    old(self).flags.active.other(),
                    *final(r.1),
                ),
                ..*old(self)
            }),
    {
        if self.flags.active_color() == Color::White {
            (&mut self.boards.white, &mut self.boards.black)
        } else {
            (&mut self.boards.black, &mut self.boards.white)
        }
    }

    /// The boards of the side to move, then those of the other side.
    pub fn split_boards(&self) -> (r: (&ChessBoardSide, &ChessBoardSide))
        ensures
            *r.0 == self.friendly(),
            *r.1 == self.enemy(),
    {
        if self.flags.active_color() == Color::White {
            (&self.boards.white, &self.boards.black)
        } else {
            (&self.boards.black, &self.boards.white)
        }
    }
}

/// The fold of the first `k + 1` elements is the fold of the first `k` with element `k`.
pub proof fn lemma_take_step(s: Seq<u64>, k: int)
    requires
        0 <= k < s.len(),
    ensures
        fold_xor(s.take(k + 1)) == fold_xor(s.take(k)) ^ s[k],
{
    assert(s.take(k + 1).drop_last() =~= s.take(k));
}

/// The place of a board among the parts of the hash.
pub open spec fn part_index(c: Color, p: PieceType) -> int {
    (match c {
        Color::White => 0int,
        Color::Black => 6int,
    }) + (match p {
        PieceType::Pawn => 0int,
        PieceType::Knight => 1int,
        PieceType::Bishop => 2int,
        PieceType::Rook => 3int,
        PieceType::Queen => 4int,
        PieceType::King => 5int,
    })
}

/// Replacing one part `x` of the hash by `y` shows as `x ^ y` on the hash.
pub proof fn lemma_part_replaced(a: Seq<u64>, b: Seq<u64>, k: int)
    requires
        0 <= k < a.len(),
        b =~= a.update(k, b[k]),
    ensures
        fold_xor(b) == fold_xor(a) ^ (a[k] ^ b[k]),
{
    lemma_xor_algebra(a[k], a[k], b[k]);
    lemma_xor_algebra(b[k], 0, 0);
    assert(a[k] ^ (a[k] ^ b[k]) == b[k]);
    assert(b =~= a.update(k, a[k] ^ (a[k] ^ b[k])));
    lemma_fold_update(a, k, a[k] ^ b[k]);
}

/// A position that differs from another in one board alone differs in its hash by
/// the hashes of the two boards.
pub proof fn lemma_board_changed(s: GameState, t: GameState, z: &ZobristNumbers, c: Color, p: PieceType)
    requires
        t == (GameState {
            boards: s.boards.with_side(
                c,
                s.boards.side(c).with_board(p, t.boards.side(c).board(p)),
            ),
            ..s
        }),
    ensures
        t.hash_of(z) == s.hash_of(z) ^ (board_hash(
            s.boards.side(c).board(p),
            z.board.side(c).table(p),
        ) ^ board_hash(t.boards.side(c).board(p), z.board.side(c).table(p))),
{
    let k = part_index(c, p);
    let a = s.hash_parts(z);
    let b = t.hash_parts(z);
    assert(b =~= a.update(k, b[k]));
    lemma_part_replaced(a, b, k);
}

/// A position that differs from another in the flags and the en-passant board
/// alone differs in its hash by the numbers of the flags that differ and of the
/// two en-passant files.
pub proof fn lemma_flags_changed(s: GameState, t: GameState, z: &ZobristNumbers)
    requires
        t.boards == s.boards,
    ensures
        t.hash_of(z) == s.hash_of(z) ^ number_if(
            s.flags.white_king != t.flags.white_king,
            z.castling.white_king_side,
        ) ^ number_if(s.flags.white_queen != t.flags.white_queen, z.castling.white_queen_side)
            ^ number_if(s.flags.black_king != t.flags.black_king, z.castling.black_king_side)
            ^ number_if(s.flags.black_queen != t.flags.black_queen, z.castling.black_queen_side)
            ^ number_if(s.flags.active != t.flags.active, z.active_color) ^ en_passant_hash(
            s.en_passant,
            z,
        ) ^ en_passant_hash(t.en_passant, z),
{
    let a0 = s.hash_parts(z);
    let b = t.hash_parts(z);
    let a1 = a0.update(13, b[13]);
    let a2 = a1.update(14, b[14]);
    let a3 = a2.update(15, b[15]);
    let a4 = a3.update(16, b[16]);
    let a5 = a4.update(12, b[12]);
    let a6 = a5.update(17, b[17]);
    assert(a6 =~= b);
    lemma_part_replaced(a0, a1, 13);
    lemma_part_replaced(a1, a2, 14);
    lemma_part_replaced(a2, a3, 15);
    lemma_part_replaced(a3, a4, 16);
    lemma_part_replaced(a4, a5, 12);
    lemma_part_replaced(a5, a6, 17);
    lemma_xor_algebra(z.castling.white_king_side, 0, 0);
    lemma_xor_algebra(z.castling.white_queen_side, 0, 0);
    lemma_xor_algebra(z.castling.black_king_side, 0, 0);
    lemma_xor_algebra(z.castling.black_queen_side, 0, 0);
    lemma_xor_algebra(z.active_color, 0, 0);
    lemma_xor_algebra(0, 0, 0);
    lemma_xor_algebra(fold_xor(a5), a5[17], b[17]);
}

} // verus!
