//! The fixed pseudo-random numbers of the position hash: one per piece, color and
//! square, one for the side to move, four for the castling rights, eight for the
//! en-passant files.

use vstd::prelude::*;
use rand::{RngCore, SeedableRng};
use rand_chacha::ChaCha20Rng;
use crate::chess_board::PieceType;
use crate::color::Color;

verus! {

pub const SEED: u64 = 0xdeadbeef;

/// The value that a ChaCha20 generator yields as its next 64-bit output once it
/// has been seeded from the integer `seed` and moved to the 32-bit word
/// `word_pos` of its stream.
pub uninterp spec fn chacha_u64(seed: u64, word_pos: u128) -> u64;

/// Calls `ChaCha20Rng::seed_from_u64`, `set_word_pos` and `next_u64` of
/// `rand_chacha`. The generator is deterministic: the output depends on the seed
/// and the position alone, which is all the contract claims.
#[verifier::external_body]
fn chacha_u64_at(seed: u64, word_pos: u128) -> (r: u64)
    ensures
        r == chacha_u64(seed, word_pos),
{
    let mut rng = ChaCha20Rng::seed_from_u64(seed);
    rng.set_word_pos(word_pos);
    rng.next_u64()
}

/// Number `n` of the 64-bit values that the generator seeded with [`SEED`] yields in turn.
pub open spec fn draw(n: int) -> u64 {
    chacha_u64(SEED, (2 * n) as u128)
}

fn draw_number(n: u64) -> (r: u64)
    requires
        n < 1024,
    ensures
        r == draw(n as int),
{
    chacha_u64_at(SEED, 2 * (n as u128))
}

pub struct ZobristSide {
    pub pawn: [u64; 64],
    pub knight: [u64; 64],
    pub bishop: [u64; 64],
    pub rook: [u64; 64],
    pub queen: [u64; 64],
    pub king: [u64; 64],
}

impl ZobristSide {
    /// The table of one piece type.
    pub open spec fn table(&self, piece: PieceType) -> Seq<u64> {
        match piece {
            PieceType::Pawn => self.pawn@,
            PieceType::Knight => self.knight@,
            PieceType::Bishop => self.bishop@,
            PieceType::Rook => self.rook@,
            PieceType::Queen => self.queen@,
            PieceType::King => self.king@,
        }
    }

    /// The six tables, pawn to king.
    pub fn as_array(&self) -> (a: [[u64; 64]; 6])
        ensures
            a@ == seq![self.pawn, self.knight, self.bishop, self.rook, self.queen, self.king],
    {
        let a = [self.pawn, self.knight, self.bishop, self.rook, self.queen, self.king];
        assert(a@ =~= seq![
            self.pawn,
            self.knight,
            self.bishop,
            self.rook,
            self.queen,
            self.king,
        ]);
        a
    }

    /// The number of one piece type on one square.
    pub fn number(&self, piece: PieceType, sq: u8) -> (z: u64)
        requires
            sq < 64,
        ensures
            z == self.table(piece)[sq as int],
    {
        match piece {
            PieceType::Pawn => self.pawn[sq as usize],
            PieceType::Knight => self.knight[sq as usize],
            PieceType::Bishop => self.bishop[sq as usize],
            PieceType::Rook => self.rook[sq as usize],
            PieceType::Queen => self.queen[sq as usize],
            PieceType::King => self.king[sq as usize],
        }
    }

    /// Entry `i` of the table of piece number `p`, pawn 0 to king 5, is draw `12 * i + base + p`.
    pub open spec fn entry_drawn(&self, base: int, i: int) -> bool {
        &&& self.pawn@[i] == draw(12 * i + base)
        &&& self.knight@[i] == draw(12 * i + base + 1)
        &&& self.bishop@[i] == draw(12 * i + base + 2)
        &&& self.rook@[i] == draw(12 * i + base + 3)
        &&& self.queen@[i] == draw(12 * i + base + 4)
        &&& self.king@[i] == draw(12 * i + base + 5)
    }

    /// Entry `i` of each of the six tables is zero.
    pub open spec fn entry_zero(&self, i: int) -> bool {
        &&& self.pawn@[i] == 0
        &&& self.knight@[i] == 0
        &&& self.bishop@[i] == 0
        &&& self.rook@[i] == 0
        &&& self.queen@[i] == 0
        &&& self.king@[i] == 0
    }

    /// The entries below `upto` are drawn.
    pub open spec fn drawn(&self, base: int, upto: int) -> bool {
        forall|i: int| 0 <= i < upto ==> #[trigger] self.entry_drawn(base, i)
    }
}

pub struct ZobristBoard {
    pub white: ZobristSide,
    pub black: ZobristSide,
}

impl ZobristBoard {
    /// The tables of one color.
    pub open spec fn side(&self, c: Color) -> &ZobristSide {
        match c {
            Color::White => &self.white,
            Color::Black => &self.black,
        }
    }

    /// The tables of one color.
    pub fn get_side(&self, c: Color) -> (s: &ZobristSide)
        ensures
            s == self.side(c),
    {
        match c {
            Color::White => &self.white,
            Color::Black => &self.black,
        }
    }
}

pub struct ZobristCastling {
    pub white_king_side: u64,
    pub white_queen_side: u64,
    pub black_king_side: u64,
    pub black_queen_side: u64,
}

pub struct ZobristNumbers {
    pub board: ZobristBoard,
    pub active_color: u64,
    pub castling: ZobristCastling,
    pub en_passant_file: [u64; 8],
}

impl ZobristNumbers {
    /// The numbers are the first 781 draws: square by square the twelve piece
    /// numbers, white pawn to black king; then the side to move; the four castling
    /// rights; the eight en-passant files.
    pub open spec fn seeded(&self) -> bool {
        &&& self.board.white.drawn(0, 64)
        &&& self.board.black.drawn(6, 64)
        &&& self.active_color == draw(768)
        &&& self.castling.white_king_side == draw(769)
        &&& self.castling.white_queen_side == draw(770)
        &&& self.castling.black_king_side == draw(771)
        &&& self.castling.black_queen_side == draw(772)
        &&& forall|f: int| 0 <= f < 8 ==> #[trigger] self.en_passant_file@[f] == draw(773 + f)
    }

    /// The tables of one color with every number still zero.
    fn empty_side() -> (s: ZobristSide)
        ensures
            forall|i: int| 0 <= i < 64 ==> #[trigger] s.entry_zero(i),
    {
        ZobristSide {
            pawn: [0; 64],
            knight: [0; 64],
            bishop: [0; 64],
            rook: [0; 64],
            queen: [0; 64],
            king: [0; 64],
        }
    }

    pub fn new() -> (z: ZobristNumbers)
        ensures
            z.seeded(),
    {
        let mut board = ZobristBoard {
            white: ZobristNumbers::empty_side(),
            black: ZobristNumbers::empty_side(),
        };
        let mut i: usize = 0;
        while i < 64
            invariant
                i <= 64,
                board.white.drawn(0, i as int),
                board.black.drawn(6, i as int),
            decreases 64 - i,
        {
            let n = 12 * (i as u64);
            let ghost before = board;
            board.white.pawn[i] = draw_number(n);
            board.white.knight[i] = draw_number(n + 1);
            board.white.bishop[i] = draw_number(n + 2);
            board.white.rook[i] = draw_number(n + 3);
            board.white.queen[i] = draw_number(n + 4);
            board.white.king[i] = draw_number(n + 5);

            board.black.pawn[i] = draw_number(n + 6);
            board.black.knight[i] = draw_number(n + 7);
            board.black.bishop[i] = draw_number(n + 8);
            board.black.rook[i] = draw_number(n + 9);
            board.black.queen[i] = draw_number(n + 10);
            board.black.king[i] = draw_number(n + 11);
            proof {
                assert forall|k: int| 0 <= k < i + 1 implies #[trigger] board.white.entry_drawn(
                    0,
                    k,
                ) by {
                    if k < i {
                        assert(before.white.entry_drawn(0, k));
                    }
                }
                assert forall|k: int| 0 <= k < i + 1 implies #[trigger] board.black.entry_drawn(
                    6,
                    k,
                ) by {
                    if k < i {
                        assert(before.black.entry_drawn(6, k));
                    }
                }
            }
            i += 1;
        }

        let side = draw_number(768);

        let castling = ZobristCastling {
            white_king_side: draw_number(769),
            white_queen_side: draw_number(770),
            black_king_side: draw_number(771),
            black_queen_side: draw_number(772),
        };

        let mut en_passant_file: [u64; 8] = [0; 8];
        let mut f: usize = 0;
        while f < 8
            invariant
                f <= 8,
                forall|k: int| 0 <= k < f ==> #[trigger] en_passant_file@[k] == draw(773 + k),
            decreases 8 - f,
        {
            en_passant_file[f] = draw_number(773 + f as u64);
            f += 1;
        }

        ZobristNumbers { board, active_color: side, castling, en_passant_file }
    }
}

} // verus!
