//! Applying a move to a position and taking it back, with the position hash
//! kept up to date step by step.

use vstd::prelude::*;
use crate::bitboard::{BitBoard, BitBoardExt, square_bit};
use crate::bits::{bit, holds, lsb};
use crate::chess_board::{ChessBoardSide, PieceType};
use crate::color::Color;
use crate::flags::StateFlags;
use crate::game_state::{GameState, en_passant_hash, number_if};
use crate::moves::{
    Move, MoveExt, from_of, to_of, code_of, capture_code, castle_code, promotion_code,
    plain_promotion, DOUBLE_PAWN_PUSH, EN_PASSANT, KING_CASTLE, KNIGHT_PROMOTION, BISHOP_PROMOTION,
    ROOK_PROMOTION,
};
use crate::laws::{
    lemma_applied_well_formed, lemma_hash_applied, lemma_hash_restored, lemma_unmake_restores,
};
use crate::rules::{applicable, well_formed};
use crate::zobrist_numbers::{ZobristNumbers, ZobristSide};

verus! {

/// What a move destroys and `unmake_move` needs back.
#[derive(Clone, Copy, Debug, PartialEq, Eq, Structural)]
pub struct IrreversibleInfo {
    pub halfmove: u8,
    pub en_passant: BitBoard,
    pub flags: StateFlags,
    pub captured_piece_type: Option<PieceType>,
}

/// The piece that a promotion code puts on the board.
pub open spec fn promoted_piece(code: u16) -> PieceType {
    let plain = plain_promotion(code);
    if plain == KNIGHT_PROMOTION {
        PieceType::Knight
    } else if plain == BISHOP_PROMOTION {
        PieceType::Bishop
    } else if plain == ROOK_PROMOTION {
        PieceType::Rook
    } else {
        PieceType::Queen
    }
}

/// The square that the king of color `c` starts on.
pub open spec fn king_home(c: Color) -> u8 {
    match c {
        Color::White => 4,
        Color::Black => 60,
    }
}

/// Where the king of color `c` lands when it castles.
pub open spec fn king_target(c: Color, king_side: bool) -> u8 {
    match c {
        Color::White => if king_side { 6 } else { 2 },
        Color::Black => if king_side { 62 } else { 58 },
    }
}

/// The corner from which the rook of color `c` castles.
pub open spec fn rook_home(c: Color, king_side: bool) -> u8 {
    match c {
        Color::White => if king_side { 7 } else { 0 },
        Color::Black => if king_side { 63 } else { 56 },
    }
}

/// Where the rook of color `c` lands when it castles.
pub open spec fn rook_target(c: Color, king_side: bool) -> u8 {
    match c {
        Color::White => if king_side { 5 } else { 3 },
        Color::Black => if king_side { 61 } else { 59 },
    }
}

/// The move can be applied without leaving the board or the range of the clock.
pub open spec fn in_range(s: GameState, m: Move) -> bool {
    let white = s.flags.active == Color::White;
    &&& s.halfmove < 255
    &&& code_of(m) == DOUBLE_PAWN_PUSH ==> (if white { from_of(m) < 56 } else { from_of(m) >= 8 })
    &&& code_of(m) == EN_PASSANT ==> (if white { to_of(m) >= 8 } else { to_of(m) < 56 })
}

/// The en-passant target after the move: the square passed over by a double push.
pub open spec fn en_passant_after(s: GameState, m: Move) -> u64 {
    if code_of(m) == DOUBLE_PAWN_PUSH {
        if s.flags.active == Color::White {
            bit((from_of(m) + 8) as u8)
        } else {
            bit((from_of(m) - 8) as u8)
        }
    } else {
        0
    }
}

/// The square on which the captured piece stands: behind the target for en passant.
pub open spec fn capture_square(mover: Color, m: Move) -> u8 {
    if code_of(m) == EN_PASSANT {
        if mover == Color::White {
            (to_of(m) - 8) as u8
        } else {
            (to_of(m) + 8) as u8
        }
    } else {
        to_of(m)
    }
}

/// The boards of a side once the piece on `sq` is taken off.
pub open spec fn lifted(side: ChessBoardSide, sq: u8) -> ChessBoardSide {
    match side.piece_on(sq) {
        Some(p) => side.with_board(p, side.board(p) & !bit(sq)),
        None => side,
    }
}

/// The boards of a side once a piece of type `p` is put on `sq`.
pub open spec fn placed(side: ChessBoardSide, p: PieceType, sq: u8) -> ChessBoardSide {
    side.with_board(p, side.board(p) | bit(sq))
}

/// The piece that arrives on the target: the promoted piece, else the piece that left the origin.
pub open spec fn arriving(side: ChessBoardSide, m: Move) -> Option<PieceType> {
    if promotion_code(code_of(m)) {
        Some(promoted_piece(code_of(m)))
    } else {
        side.piece_on(from_of(m))
    }
}

/// The boards of the mover after a move that is no castle.
pub open spec fn mover_after(side: ChessBoardSide, m: Move) -> ChessBoardSide {
    let up = lifted(side, from_of(m));
    match arriving(side, m) {
        Some(p) => placed(up, p, to_of(m)),
        None => up,
    }
}

/// The piece that the move captures.
pub open spec fn captured(s: GameState, m: Move) -> Option<PieceType> {
    if capture_code(code_of(m)) && !castle_code(code_of(m)) {
        s.enemy().piece_on(capture_square(s.flags.active, m))
    } else {
        None
    }
}

/// The boards of the other side after a move that is no castle.
pub open spec fn other_after(s: GameState, m: Move) -> ChessBoardSide {
    if capture_code(code_of(m)) {
        lifted(s.enemy(), capture_square(s.flags.active, m))
    } else {
        s.enemy()
    }
}

/// The boards of a side after it castled.
pub open spec fn castled(side: ChessBoardSide, c: Color, king_side: bool) -> ChessBoardSide {
    ChessBoardSide {
        king: bit(king_target(c, king_side)),
        rook: (side.rook & !bit(rook_home(c, king_side))) | bit(rook_target(c, king_side)),
        ..side
    }
}

/// The boards of a side after its castle was taken back.
pub open spec fn uncastled(side: ChessBoardSide, c: Color, king_side: bool) -> ChessBoardSide {
    ChessBoardSide {
        king: bit(king_home(c)),
        rook: (side.rook & !bit(rook_target(c, king_side))) | bit(rook_home(c, king_side)),
        ..side
    }
}

/// The flags after the move: a right goes when its king or rook leaves its home
/// square or when its rook's corner is captured on; the side to move changes.
pub open spec fn flags_after(f: StateFlags, m: Move) -> StateFlags {
    let from = from_of(m);
    let to = to_of(m);
    let cap = capture_code(code_of(m));
    match f.active {
        Color::White => StateFlags {
            active: Color::Black,
            white_king: f.white_king && !(from == 4 || from == 7),
            white_queen: f.white_queen && !(from == 4 || from == 0),
            black_king: f.black_king && !(cap && to == 63),
            black_queen: f.black_queen && !(cap && to == 56),
        },
        Color::Black => StateFlags {
            active: Color::White,
            white_king: f.white_king && !(cap && to == 7),
            white_queen: f.white_queen && !(cap && to == 0),
            black_king: f.black_king && !(from == 60 || from == 63),
            black_queen: f.black_queen && !(from == 60 || from == 56),
        },
    }
}

/// The position after the move.
pub open spec fn applied(s: GameState, m: Move) -> GameState {
    let c = s.flags.active;
    let code = code_of(m);
    let (mover, other) = if castle_code(code) {
        (castled(s.friendly(), c, code == KING_CASTLE), s.enemy())
    } else {
        (mover_after(s.friendly(), m), other_after(s, m))
    };
    GameState {
        boards: s.boards.with_side(c, mover).with_side(c.other(), other),
        en_passant: if castle_code(code) { 0 } else { en_passant_after(s, m) },
        flags: flags_after(s.flags, m),
        halfmove: (s.halfmove + 1) as u8,
    }
}

/// The undo record of the move.
pub open spec fn frame_of(s: GameState, m: Move) -> IrreversibleInfo {
    IrreversibleInfo {
        halfmove: s.halfmove,
        en_passant: s.en_passant,
        flags: s.flags,
        captured_piece_type: captured(s, m),
    }
}

/// The number of the piece of type `p`, where there is one, on `sq`; zero where there is none.
pub open spec fn piece_number(z: &ZobristSide, p: Option<PieceType>, sq: u8) -> u64 {
    match p {
        Some(p) => z.table(p)[sq as int],
        None => 0,
    }
}

/// What the change of the flags adds to the hash: the number of each right that
/// goes, then the number of the side to move.
pub open spec fn flags_hashed(h: u64, f: StateFlags, g: StateFlags, z: &ZobristNumbers) -> u64 {
    h ^ number_if(f.white_king != g.white_king, z.castling.white_king_side) ^ number_if(
        f.white_queen != g.white_queen,
        z.castling.white_queen_side,
    ) ^ number_if(f.black_king != g.black_king, z.castling.black_king_side) ^ number_if(
        f.black_queen != g.black_queen,
        z.castling.black_queen_side,
    ) ^ z.active_color
}

/// The hash after a castle, from the hash `h` before it.
pub open spec fn castle_hashed(h: u64, c: Color, king_side: bool, z: &ZobristNumbers) -> u64 {
    let zs = z.board.side(c);
    h ^ zs.king@[king_target(c, king_side) as int] ^ zs.king@[king_home(c) as int] ^ zs.rook@[rook_home(
        c,
        king_side,
    ) as int] ^ zs.rook@[rook_target(c, king_side) as int]
}

/// The hash after the board part of a move that is no castle, from the hash `h`
/// before it: the en-passant file goes out and the new one comes in, the piece
/// leaves its origin, the arriving piece lands, the captured piece goes.
pub open spec fn boards_hashed(h: u64, s: GameState, m: Move, z: &ZobristNumbers) -> u64 {
    let c = s.flags.active;
    let zf = z.board.side(c);
    let ze = z.board.side(c.other());
    h ^ en_passant_hash(s.en_passant, z) ^ en_passant_hash(en_passant_after(s, m), z)
        ^ piece_number(zf, s.friendly().piece_on(from_of(m)), from_of(m)) ^ piece_number(
        zf,
        arriving(s.friendly(), m),
        to_of(m),
    ) ^ piece_number(ze, captured(s, m), capture_square(c, m))
}

/// The hash that `make_move` leaves, from the hash `h` before it.
pub open spec fn hash_applied(h: u64, s: GameState, m: Move, z: &ZobristNumbers) -> u64 {
    let c = s.flags.active;
    let h1 = if castle_code(code_of(m)) {
        castle_hashed(h, c, code_of(m) == KING_CASTLE, z) ^ en_passant_hash(s.en_passant, z)
    } else {
        boards_hashed(h, s, m, z)
    };
    flags_hashed(h1, s.flags, flags_after(s.flags, m), z)
}

/// The move can be taken back without leaving the board: `s` is the position
/// after the move, `frame` its undo record.
pub open spec fn revert_in_range(s: GameState, m: Move, frame: IrreversibleInfo) -> bool {
    let white = s.flags.active == Color::White;
    &&& code_of(m) == EN_PASSANT ==> (if white { to_of(m) < 56 } else { to_of(m) >= 8 })
    &&& capture_code(code_of(m)) && !castle_code(code_of(m)) ==> frame.captured_piece_type is Some
}

/// The boards of the mover after a move that is no castle was taken back: the
/// piece on the target goes back to the origin, as a pawn where it had promoted.
pub open spec fn mover_before(side: ChessBoardSide, m: Move) -> ChessBoardSide {
    let up = lifted(side, to_of(m));
    if promotion_code(code_of(m)) {
        placed(up, PieceType::Pawn, from_of(m))
    } else {
        match side.piece_on(to_of(m)) {
            Some(p) => placed(up, p, from_of(m)),
            None => up,
        }
    }
}

/// The boards of the other side after the move was taken back: the captured piece is back.
pub open spec fn other_before(
    side: ChessBoardSide,
    mover: Color,
    m: Move,
    frame: IrreversibleInfo,
) -> ChessBoardSide {
    if capture_code(code_of(m)) {
        match frame.captured_piece_type {
            Some(q) => placed(side, q, capture_square(mover, m)),
            None => side,
        }
    } else {
        side
    }
}

/// The position after the move `m`, which led to `s`, was taken back.
pub open spec fn reverted(s: GameState, m: Move, frame: IrreversibleInfo) -> GameState {
    let mover = s.flags.active.other();
    let code = code_of(m);
    let (mine, other) = if castle_code(code) {
        (uncastled(s.enemy(), mover, code == KING_CASTLE), s.friendly())
    } else {
        (mover_before(s.enemy(), m), other_before(s.friendly(), mover, m, frame))
    };
    GameState {
        boards: s.boards.with_side(mover, mine).with_side(mover.other(), other),
        en_passant: frame.en_passant,
        flags: frame.flags,
        halfmove: frame.halfmove,
    }
}

/// The hash after the castle of color `c` was taken back, from the hash `h` before.
pub open spec fn uncastle_hashed(h: u64, c: Color, king_side: bool, z: &ZobristNumbers) -> u64 {
    let zs = z.board.side(c);
    h ^ (zs.king@[king_target(c, king_side) as int] ^ zs.king@[king_home(c) as int]) ^ (
    zs.rook@[rook_target(c, king_side) as int] ^ zs.rook@[rook_home(c, king_side) as int])
}

/// The piece that goes back to the origin.
pub open spec fn returning(side: ChessBoardSide, m: Move) -> Option<PieceType> {
    if promotion_code(code_of(m)) {
        Some(PieceType::Pawn)
    } else {
        side.piece_on(to_of(m))
    }
}

/// The hash that `unmake_move` leaves, from the hash `h` before it.
pub open spec fn hash_reverted(
    h: u64,
    s: GameState,
    m: Move,
    frame: IrreversibleInfo,
    z: &ZobristNumbers,
) -> u64 {
    let mover = s.flags.active.other();
    let zm = z.board.side(mover);
    let zo = z.board.side(s.flags.active);
    let h1 = if castle_code(code_of(m)) {
        uncastle_hashed(h, mover, code_of(m) == KING_CASTLE, z)
    } else {
        h ^ piece_number(zm, s.enemy().piece_on(to_of(m)), to_of(m)) ^ piece_number(
            zm,
            returning(s.enemy(), m),
            from_of(m),
        ) ^ piece_number(
            zo,
            if capture_code(code_of(m)) {
                frame.captured_piece_type
            } else {
                None
            },
            capture_square(mover, m),
        )
    };
    let d = s.flags.difference(frame.flags);
    h1 ^ en_passant_hash(s.en_passant, z) ^ en_passant_hash(frame.en_passant, z) ^ z.active_color
        ^ number_if(d.white_king, z.castling.white_king_side) ^ number_if(
        d.white_queen,
        z.castling.white_queen_side,
    ) ^ number_if(d.black_king, z.castling.black_king_side) ^ number_if(
        d.black_queen,
        z.castling.black_queen_side,
    )
}

pub struct MakeUnmaker {
    pub state: GameState,
    pub zobrist_hash: u64,
    pub irreversible_stack: Vec<IrreversibleInfo>,
    pub zobrist_numbers: ZobristNumbers,
}

impl MakeUnmaker {
    /// The undo records of the moves made and not yet taken back, oldest first.
    pub open spec fn frames(&self) -> Seq<IrreversibleInfo> {
        self.irreversible_stack@
    }

    /// The hash kept so far is the hash of the position.
    pub open spec fn in_sync(&self) -> bool {
        self.zobrist_hash == self.state.hash_of(&self.zobrist_numbers)
    }

    pub fn new(state: GameState) -> (mu: MakeUnmaker)
        ensures
            mu.state == state,
            mu.in_sync(),
            mu.frames().len() == 0,
            mu.zobrist_numbers.seeded(),
    {
        let zobrist_numbers = ZobristNumbers::new();
        let zobrist_hash = state.hash(&zobrist_numbers);
        MakeUnmaker { state, zobrist_hash, irreversible_stack: Vec::new(), zobrist_numbers }
    }

    /// The number of moves made and not yet taken back.
    pub fn depth(&self) -> (n: usize)
        ensures
            n == self.frames().len(),
    {
        self.irreversible_stack.len()
    }

    fn en_passant_number(&self) -> (z: u64)
        ensures
            z == en_passant_hash(self.state.en_passant, &self.zobrist_numbers),
    {
        if self.state.en_passant != 0 {
            self.zobrist_numbers.en_passant_file[self.get_en_passant_file()]
        } else {
            0
        }
    }

    fn get_en_passant_file(&self) -> (f: usize)
        ensures
            f == lsb(self.state.en_passant) % 8,
            f < 8,
    {
        (self.state.en_passant.get_lsb() % 8) as usize
    }

    fn update_flags(&mut self, m: Move)
        ensures
            final(self).state == (GameState {
                flags: flags_after(old(self).state.flags, m),
                ..old(self).state
            }),
            final(self).zobrist_hash == flags_hashed(
                old(self).zobrist_hash,
                old(self).state.flags,
                flags_after(old(self).state.flags, m),
                &old(self).zobrist_numbers,
            ),
            final(self).irreversible_stack == old(self).irreversible_stack,
            final(self).zobrist_numbers == old(self).zobrist_numbers,
    {
        let ghost h0 = self.zobrist_hash;
        let mut wk: u64 = 0;
        let mut wq: u64 = 0;
        let mut bk: u64 = 0;
        let mut bq: u64 = 0;
        let from = m.get_from();
        let to = m.get_to();
        if self.state.flags.active_color() == Color::White {
            if self.state.flags.white_king_castle_right() {
                if from == 4 || from == 7 {
                    self.state.flags.toggle_white_king_castle();
                    wk = self.zobrist_numbers.castling.white_king_side;
                }
            }
            if self.state.flags.white_queen_castle_right() {
                if from == 4 || from == 0 {
                    self.state.flags.toggle_white_queen_castle();
                    wq = self.zobrist_numbers.castling.white_queen_side;
                }
            }
            if m.is_capture() {
                if to == 56 && self.state.flags.black_queen_castle_right() {
                    self.state.flags.toggle_black_queen_castle();
                    bq = self.zobrist_numbers.castling.black_queen_side;
                } else if to == 63 && self.state.flags.black_king_castle_right() {
                    self.state.flags.toggle_black_king_castle();
                    bk = self.zobrist_numbers.castling.black_king_side;
                }
            }
        } else {
            if self.state.flags.black_king_castle_right() {
                if from == 60 || from == 63 {
                    self.state.flags.toggle_black_king_castle();
                    bk = self.zobrist_numbers.castling.black_king_side;
                }
            }
            if self.state.flags.black_queen_castle_right() {
                if from == 60 || from == 56 {
                    self.state.flags.toggle_black_queen_castle();
                    bq = self.zobrist_numbers.castling.black_queen_side;
                }
            }
            if m.is_capture() {
                if to == 0 && self.state.flags.white_queen_castle_right() {
                    self.state.flags.toggle_white_queen_castle();
                    wq = self.zobrist_numbers.castling.white_queen_side;
                } else if to == 7 && self.state.flags.white_king_castle_right() {
                    self.state.flags.toggle_white_king_castle();
                    wk = self.zobrist_numbers.castling.white_king_side;
                }
            }
        }
        self.zobrist_hash = self.zobrist_hash ^ wk ^ wq ^ bk ^ bq;

        self.state.flags.toggle_active_color();
        self.zobrist_hash = self.zobrist_hash ^ self.zobrist_numbers.active_color;
    }

    fn optional_number(z: &ZobristSide, p: Option<PieceType>, sq: u8) -> (n: u64)
        requires
            sq < 64,
        ensures
            n == piece_number(z, p, sq),
    {
        match p {
            Some(p) => z.number(p, sq),
            None => 0,
        }
    }

    fn make_castle(&mut self, m: Move)
        ensures
            final(self).state == (GameState {
                boards: old(self).state.boards.with_side(
                    old(self).state.flags.active,
                    castled(
                        old(self).state.friendly(),
                        old(self).state.flags.active,
                        code_of(m) == KING_CASTLE,
                    ),
                ),
                ..old(self).state
            }),
            final(self).zobrist_hash == castle_hashed(
                old(self).zobrist_hash,
                old(self).state.flags.active,
                code_of(m) == KING_CASTLE,
                &old(self).zobrist_numbers,
            ),
            final(self).irreversible_stack == old(self).irreversible_stack,
            final(self).zobrist_numbers == old(self).zobrist_numbers,
    {
        let king_side = (m & 0xf000) == KING_CASTLE;
        if self.state.flags.active_color() == Color::Black {
            let black_zobrist = &self.zobrist_numbers.board.black;
            if king_side {
                self.state.boards.black.king = square_bit(62);
                self.state.boards.black.rook = self.state.boards.black.rook & !square_bit(63);
                self.state.boards.black.rook = self.state.boards.black.rook | square_bit(61);
                self.zobrist_hash = self.zobrist_hash ^ black_zobrist.king[62]
                    ^ black_zobrist.king[60] ^ black_zobrist.rook[63] ^ black_zobrist.rook[61];
            } else {
                self.state.boards.black.king = square_bit(58);
                self.state.boards.black.rook = self.state.boards.black.rook & !square_bit(56);
                self.state.boards.black.rook = self.state.boards.black.rook | square_bit(59);
                self.zobrist_hash = self.zobrist_hash ^ black_zobrist.king[58]
                    ^ black_zobrist.king[60] ^ black_zobrist.rook[56] ^ black_zobrist.rook[59];
            }
        } else {
            let white_zobrist = &self.zobrist_numbers.board.white;
            if king_side {
                self.state.boards.white.king = square_bit(6);
                self.state.boards.white.rook = self.state.boards.white.rook & !square_bit(7);
                self.state.boards.white.rook = self.state.boards.white.rook | square_bit(5);
                self.zobrist_hash = self.zobrist_hash ^ white_zobrist.king[6]
                    ^ white_zobrist.king[4] ^ white_zobrist.rook[7] ^ white_zobrist.rook[5];
            } else {
                self.state.boards.white.king = square_bit(2);
                self.state.boards.white.rook = self.state.boards.white.rook & !square_bit(0);
                self.state.boards.white.rook = self.state.boards.white.rook | square_bit(3);
                self.zobrist_hash = self.zobrist_hash ^ white_zobrist.king[2]
                    ^ white_zobrist.king[4] ^ white_zobrist.rook[0] ^ white_zobrist.rook[3];
            }
        }
    }

    /// Takes the piece on `sq` off the boards of `side`; the first board, pawn to
    /// king, that holds the square wins.
    fn lift(side: &mut ChessBoardSide, sq: u8) -> (p: Option<PieceType>)
        requires
            sq < 64,
        ensures
            p == old(side).piece_on(sq),
            *final(side) == lifted(*old(side), sq),
    {
        let found = side.find(sq);
        match found {
            Some(p) => {
                let b = side.get(p) & !square_bit(sq);
                side.set(p, b);
            },
            None => {},
        }
        found
    }

    /// Puts a piece of type `p` on `sq`.
    fn place(side: &mut ChessBoardSide, p: PieceType, sq: u8)
        requires
            sq < 64,
        ensures
            *final(side) == placed(*old(side), p, sq),
    {
        let b = side.get(p) | square_bit(sq);
        side.set(p, b);
    }

    fn promotion_piece(m: Move) -> (p: PieceType)
        requires
            promotion_code(code_of(m)),
        ensures
            p == promoted_piece(code_of(m)),
    {
        let flag = if m.is_capture() {
            m.capture_promotion_to_promotion()
        } else {
            m & 0xf000
        };
        if flag == KNIGHT_PROMOTION {
            PieceType::Knight
        } else if flag == BISHOP_PROMOTION {
            PieceType::Bishop
        } else if flag == ROOK_PROMOTION {
            PieceType::Rook
        } else {
            PieceType::Queen
        }
    }

    fn make_non_castle(&mut self, m: Move) -> (taken: Option<PieceType>)
        requires
            in_range(old(self).state, m),
            !castle_code(code_of(m)),
        ensures
            taken == captured(old(self).state, m),
            final(self).state == (GameState {
                boards: old(self).state.boards.with_side(
                    old(self).state.flags.active,
                    mover_after(old(self).state.friendly(), m),
                ).with_side(
                    old(self).state.flags.active.other(),
                    other_after(old(self).state, m),
                ),
                en_passant: en_passant_after(old(self).state, m),
                ..old(self).state
            }),
            final(self).zobrist_hash == boards_hashed(
                old(self).zobrist_hash,
                old(self).state,
                m,
                &old(self).zobrist_numbers,
            ),
            final(self).irreversible_stack == old(self).irreversible_stack,
            final(self).zobrist_numbers == old(self).zobrist_numbers,
    {
        let color = self.state.flags.active_color();
        let white_to_play = color == Color::White;
        let from = m.get_from();
        let to = m.get_to();

        // The old en-passant file leaves the hash, the new one enters it.
        self.zobrist_hash = self.zobrist_hash ^ self.en_passant_number();
        self.state.en_passant = if (m & 0xf000) == DOUBLE_PAWN_PUSH {
            if white_to_play {
                square_bit(from + 8)
            } else {
                square_bit(from - 8)
            }
        } else {
            0
        };
        self.zobrist_hash = self.zobrist_hash ^ self.en_passant_number();

        let mut friendly = self.state.boards.get_side(color);
        let mut enemy = self.state.boards.get_side(color.opposite());
        let friendly_zobrist = self.zobrist_numbers.board.get_side(color);
        let enemy_zobrist = self.zobrist_numbers.board.get_side(color.opposite());

        // The moving piece leaves its origin.
        let moved = MakeUnmaker::lift(&mut friendly, from);
        self.zobrist_hash = self.zobrist_hash ^ MakeUnmaker::optional_number(
            friendly_zobrist,
            moved,
            from,
        );

        // It lands on the target, as the promoted piece where it promotes.
        let landing = if m.is_promotion() {
            Some(MakeUnmaker::promotion_piece(m))
        } else {
            moved
        };
        match landing {
            Some(p) => {
                MakeUnmaker::place(&mut friendly, p, to);
            },
            None => {},
        }
        self.zobrist_hash = self.zobrist_hash ^ MakeUnmaker::optional_number(
            friendly_zobrist,
            landing,
            to,
        );

        // For en passant the captured pawn stands behind the target.
        let temp_to = if (m & 0xf000) == EN_PASSANT {
            if white_to_play {
                to - 8
            } else {
                to + 8
            }
        } else {
            to
        };
        let mut taken = None;
        if m.is_capture() {
            taken = MakeUnmaker::lift(&mut enemy, temp_to);
        }
        self.zobrist_hash = self.zobrist_hash ^ MakeUnmaker::optional_number(
            enemy_zobrist,
            taken,
            temp_to,
        );
        self.state.boards.set_side(color, friendly);
        self.state.boards.set_side(color.opposite(), enemy);
        taken
    }

    /// Applies the move to the position, keeps the hash in step and records what
    /// `unmake_move` needs.
    pub fn make_move(&mut self, m: Move)
        requires
            in_range(old(self).state, m),
        ensures
            final(self).state == applied(old(self).state, m),
            final(self).zobrist_hash == hash_applied(
                old(self).zobrist_hash,
                old(self).state,
                m,
                &old(self).zobrist_numbers,
            ),
            final(self).frames() == old(self).frames().push(frame_of(old(self).state, m)),
            final(self).zobrist_numbers == old(self).zobrist_numbers,
            // A move that fits a well-formed position leaves a well-formed
            // position, and a hash that was right stays right.
            well_formed(old(self).state) && applicable(old(self).state, m) ==> well_formed(
                final(self).state,
            ) && (old(self).in_sync() ==> final(self).in_sync()),
    {
        proof {
            if well_formed(self.state) && applicable(self.state, m) {
                lemma_applied_well_formed(self.state, m);
                lemma_hash_applied(self.state, m, &self.zobrist_numbers);
            }
        }
        let halfmove = self.state.halfmove;
        let en_passant = self.state.en_passant;
        let flags = self.state.flags;

        let mut captured_piece_type = None;
        if m.is_castle() {
            self.make_castle(m);
            self.zobrist_hash = self.zobrist_hash ^ self.en_passant_number();
            self.state.en_passant = 0;
        } else {
            captured_piece_type = self.make_non_castle(m);
        }
        self.irreversible_stack.push(
            IrreversibleInfo { halfmove, en_passant, flags, captured_piece_type },
        );

        self.state.halfmove = self.state.halfmove + 1;
        self.update_flags(m);
    }

    fn unmake_castle(&mut self, m: Move)
        ensures
            final(self).state == (GameState {
                boards: old(self).state.boards.with_side(
                    old(self).state.flags.active.other(),
                    uncastled(
                        old(self).state.enemy(),
                        old(self).state.flags.active.other(),
                        code_of(m) == KING_CASTLE,
                    ),
                ),
                ..old(self).state
            }),
            final(self).zobrist_hash == uncastle_hashed(
                old(self).zobrist_hash,
                old(self).state.flags.active.other(),
                code_of(m) == KING_CASTLE,
                &old(self).zobrist_numbers,
            ),
            final(self).irreversible_stack == old(self).irreversible_stack,
            final(self).zobrist_numbers == old(self).zobrist_numbers,
    {
        let king_side = (m & 0xf000) == KING_CASTLE;
        // The side to move is the one that did not castle.
        if self.state.flags.active_color() == Color::White {
            let black_zobrist = &self.zobrist_numbers.board.black;
            if king_side {
                self.state.boards.black.king = square_bit(60);
                self.zobrist_hash = self.zobrist_hash ^ (black_zobrist.king[62]
                    ^ black_zobrist.king[60]);
                self.state.boards.black.rook = self.state.boards.black.rook & !square_bit(61);
                self.state.boards.black.rook = self.state.boards.black.rook | square_bit(63);
                self.zobrist_hash = self.zobrist_hash ^ (black_zobrist.rook[61]
                    ^ black_zobrist.rook[63]);
            } else {
                self.state.boards.black.king = square_bit(60);
                self.zobrist_hash = self.zobrist_hash ^ (black_zobrist.king[58]
                    ^ black_zobrist.king[60]);
                self.state.boards.black.rook = self.state.boards.black.rook & !square_bit(59);
                self.state.boards.black.rook = self.state.boards.black.rook | square_bit(56);
                self.zobrist_hash = self.zobrist_hash ^ (black_zobrist.rook[59]
                    ^ black_zobrist.rook[56]);
            }
        } else {
            let white_zobrist = &self.zobrist_numbers.board.white;
            if king_side {
                self.state.boards.white.king = square_bit(4);
                self.zobrist_hash = self.zobrist_hash ^ (white_zobrist.king[6]
                    ^ white_zobrist.king[4]);
                self.state.boards.white.rook = self.state.boards.white.rook & !square_bit(5);
                self.state.boards.white.rook = self.state.boards.white.rook | square_bit(7);
                self.zobrist_hash = self.zobrist_hash ^ (white_zobrist.rook[5]
                    ^ white_zobrist.rook[7]);
            } else {
                self.state.boards.white.king = square_bit(4);
                self.zobrist_hash = self.zobrist_hash ^ (white_zobrist.king[2]
                    ^ white_zobrist.king[4]);
                self.state.boards.white.rook = self.state.boards.white.rook & !square_bit(3);
                self.state.boards.white.rook = self.state.boards.white.rook | square_bit(0);
                self.zobrist_hash = self.zobrist_hash ^ (white_zobrist.rook[3]
                    ^ white_zobrist.rook[0]);
            }
        }
    }

    fn unmake_non_castle(&mut self, m: Move, irreversible_info: &IrreversibleInfo)
        requires
            revert_in_range(old(self).state, m, *irreversible_info),
            !castle_code(code_of(m)),
        ensures
            final(self).state == (GameState {
                boards: old(self).state.boards.with_side(
                    old(self).state.flags.active.other(),
                    mover_before(old(self).state.enemy(), m),
                ).with_side(
                    old(self).state.flags.active,
                    other_before(
                        old(self).state.friendly(),
                        old(self).state.flags.active.other(),
                        m,
                        *irreversible_info,
                    ),
                ),
                ..old(self).state
            }),
            final(self).zobrist_hash == old(self).zobrist_hash ^ piece_number(
                old(self).zobrist_numbers.board.side(old(self).state.flags.active.other()),
                old(self).state.enemy().piece_on(to_of(m)),
                to_of(m),
            ) ^ piece_number(
                old(self).zobrist_numbers.board.side(old(self).state.flags.active.other()),
                returning(old(self).state.enemy(), m),
                from_of(m),
            ) ^ piece_number(
                old(self).zobrist_numbers.board.side(old(self).state.flags.active),
                if capture_code(code_of(m)) {
                    irreversible_info.captured_piece_type
                } else {
                    None
                },
                capture_square(old(self).state.flags.active.other(), m),
            ),
            final(self).irreversible_stack == old(self).irreversible_stack,
            final(self).zobrist_numbers == old(self).zobrist_numbers,
    {
        let color = self.state.flags.active_color();
        let white_to_play = color == Color::White;
        let from = m.get_from();
        let to = m.get_to();

        // The side to move is the one that did not make the move.
        let mut enemy = self.state.boards.get_side(color);
        let mut friendly = self.state.boards.get_side(color.opposite());
        let friendly_zobrist = self.zobrist_numbers.board.get_side(color.opposite());
        let enemy_zobrist = self.zobrist_numbers.board.get_side(color);

        // The moved piece leaves the target.
        let moved = MakeUnmaker::lift(&mut friendly, to);
        self.zobrist_hash = self.zobrist_hash ^ MakeUnmaker::optional_number(
            friendly_zobrist,
            moved,
            to,
        );

        // It goes back to the origin, as a pawn where it had promoted.
        let back = if m.is_promotion() {
            Some(PieceType::Pawn)
        } else {
            moved
        };
        match back {
            Some(p) => {
                MakeUnmaker::place(&mut friendly, p, from);
            },
            None => {},
        }
        self.zobrist_hash = self.zobrist_hash ^ MakeUnmaker::optional_number(
            friendly_zobrist,
            back,
            from,
        );

        // For en passant the captured pawn stood behind the target.
        let temp_to = if (m & 0xf000) == EN_PASSANT {
            if white_to_play {
                to + 8
            } else {
                to - 8
            }
        } else {
            to
        };
        let mut restored = None;
        if m.is_capture() {
            restored = irreversible_info.captured_piece_type;
            match restored {
                Some(piece_type) => {
                    MakeUnmaker::place(&mut enemy, piece_type, temp_to);
                },
                None => {},
            }
        }
        self.zobrist_hash = self.zobrist_hash ^ MakeUnmaker::optional_number(
            enemy_zobrist,
            restored,
            temp_to,
        );
        self.state.boards.set_side(color.opposite(), friendly);
        self.state.boards.set_side(color, enemy);
    }

    /// Takes back the move made last, which has to be `m`.
    pub fn unmake_move(&mut self, m: Move)
        requires
            old(self).frames().len() > 0,
            revert_in_range(old(self).state, m, old(self).frames().last()),
        ensures
            final(self).state == reverted(old(self).state, m, old(self).frames().last()),
            final(self).zobrist_hash == hash_reverted(
                old(self).zobrist_hash,
                old(self).state,
                m,
                old(self).frames().last(),
                &old(self).zobrist_numbers,
            ),
            final(self).frames() == old(self).frames().drop_last(),
            final(self).zobrist_numbers == old(self).zobrist_numbers,
            // Taking back a move that was made on a well-formed position that it
            // fitted restores that position bit for bit, and the hash with it.
            forall|s: GameState|
                well_formed(s) && applicable(s, m) && old(self).state == #[trigger] applied(s, m)
                    && old(self).frames().last() == frame_of(s, m) ==> final(self).state == s,
            forall|s: GameState, h: u64|
                well_formed(s) && applicable(s, m) && old(self).state == applied(s, m)
                    && old(self).frames().last() == frame_of(s, m)
                    && old(self).zobrist_hash == #[trigger] hash_applied(
                    h,
                    s,
                    m,
                    &old(self).zobrist_numbers,
                ) ==> final(self).zobrist_hash == h,
    {
        proof {
            assert forall|s: GameState|
                well_formed(s) && applicable(s, m) && self.state == #[trigger] applied(s, m)
                    && self.frames().last() == frame_of(s, m) implies revert_in_range(
                self.state,
                m,
                self.frames().last(),
            ) && reverted(self.state, m, self.frames().last()) == s by {
                lemma_unmake_restores(s, m);
            }
            assert forall|s: GameState, h: u64|
                well_formed(s) && applicable(s, m) && self.state == applied(s, m)
                    && self.frames().last() == frame_of(s, m) && self.zobrist_hash
                    == #[trigger] hash_applied(h, s, m, &self.zobrist_numbers) implies hash_reverted(
                self.zobrist_hash,
                self.state,
                m,
                self.frames().last(),
                &self.zobrist_numbers,
            ) == h by {
                lemma_hash_restored(h, s, m, &self.zobrist_numbers);
            }
        }
        let irreversible_info = self.irreversible_stack.pop().unwrap();

        if m.is_castle() {
            self.unmake_castle(m);
        } else {
            self.unmake_non_castle(m, &irreversible_info);
        }
        self.state.halfmove = irreversible_info.halfmove;
        self.zobrist_hash = self.zobrist_hash ^ self.en_passant_number();
        self.state.en_passant = irreversible_info.en_passant;
        self.zobrist_hash = self.zobrist_hash ^ self.en_passant_number();

        self.zobrist_hash = self.zobrist_hash ^ self.zobrist_numbers.active_color;

        let flag_diff: StateFlags = self.state.flags.xor(irreversible_info.flags);
        let z = &self.zobrist_numbers.castling;
        let wk = if flag_diff.white_king_castle_right() { z.white_king_side } else { 0 };
        let wq = if flag_diff.white_queen_castle_right() { z.white_queen_side } else { 0 };
        let bk = if flag_diff.black_king_castle_right() { z.black_king_side } else { 0 };
        let bq = if flag_diff.black_queen_castle_right() { z.black_queen_side } else { 0 };
        self.zobrist_hash = self.zobrist_hash ^ wk ^ wq ^ bk ^ bq;

        self.state.flags = irreversible_info.flags;
    }
}

} // verus!
