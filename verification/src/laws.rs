//! What holds of `make_move` and `unmake_move` on every position and move that fit:
//! the hash kept step by step is the hash computed from scratch, and taking a
//! move back restores the position bit for bit.

use vstd::prelude::*;
use crate::bitboard::is_single;
use crate::bits::{bit, holds, lsb, lemma_lsb, lemma_ext, group_holds};
use crate::chess_board::{ChessBoardSide, PieceType};
use crate::color::Color;

use crate::game_state::{
    GameState, board_hash, en_passant_hash, number_if, lemma_xor_algebra, lemma_board_changed,
    lemma_flags_changed, lemma_board_remove, lemma_board_add,
};
use crate::make_unmake::{
    applied, arriving, boards_hashed, capture_square, captured, castle_hashed, castled,
    en_passant_after, flags_after, flags_hashed, frame_of, hash_applied, hash_reverted, king_home,
    king_target, lifted, mover_after, mover_before, other_after, other_before, piece_number,
    placed, returning, revert_in_range, reverted, rook_home, rook_target, uncastled,
};
use crate::moves::{
    Move, from_of, to_of, code_of, capture_code, castle_code, lemma_decode, EN_PASSANT,
    KING_CASTLE, DOUBLE_PAWN_PUSH,
};
use crate::rules::{applicable, castle_right, right_is_backed, well_formed};
use crate::zobrist_numbers::ZobristNumbers;

verus! {

/// The position `s` with the boards of color `c` replaced.
pub open spec fn with_boards(s: GameState, c: Color, side: ChessBoardSide) -> GameState {
    GameState { boards: s.boards.with_side(c, side), ..s }
}

/// Taking the piece on `sq` off the boards of color `c` takes its number out of the hash.
pub proof fn lemma_lift_hash(s: GameState, z: &ZobristNumbers, c: Color, sq: u8)
    requires
        sq < 64,
    ensures
        with_boards(s, c, lifted(s.boards.side(c), sq)).hash_of(z) == s.hash_of(z) ^ piece_number(
            z.board.side(c),
            s.boards.side(c).piece_on(sq),
            sq,
        ),
{
    let side = s.boards.side(c);
    let t = with_boards(s, c, lifted(side, sq));
    match side.piece_on(sq) {
        Some(p) => {
            let table = z.board.side(c).table(p);
            side.lemma_occupancy(sq);
            lemma_board_changed(s, t, z, c, p);
            lemma_board_remove(side.board(p), table, sq);
            lemma_xor_algebra(table[sq as int], 0, 0);
            lemma_xor_algebra(board_hash(side.board(p), table), table[sq as int], 0);
            lemma_xor_algebra(
                board_hash(side.board(p), table),
                board_hash(side.board(p), table),
                table[sq as int],
            );
        },
        None => {
            assert(t == s);
            lemma_xor_algebra(s.hash_of(z), 0, 0);
        },
    }
}

/// Putting a piece on a square that its board lacks puts its number into the hash.
pub proof fn lemma_place_hash(s: GameState, z: &ZobristNumbers, c: Color, p: PieceType, sq: u8)
    requires
        sq < 64,
        !holds(s.boards.side(c).board(p), sq),
    ensures
        with_boards(s, c, placed(s.boards.side(c), p, sq)).hash_of(z) == s.hash_of(z)
            ^ z.board.side(c).table(p)[sq as int],
{
    let side = s.boards.side(c);
    let t = with_boards(s, c, placed(side, p, sq));
    let table = z.board.side(c).table(p);
    lemma_board_changed(s, t, z, c, p);
    lemma_board_add(side.board(p), table, sq);
    lemma_xor_algebra(table[sq as int], 0, 0);
    lemma_xor_algebra(board_hash(side.board(p), table), table[sq as int], 0);
    lemma_xor_algebra(
        board_hash(side.board(p), table),
        board_hash(side.board(p), table),
        table[sq as int],
    );
}

/// Putting the piece `p`, where there is one, on a square that its board lacks.
pub open spec fn placed_if(side: ChessBoardSide, p: Option<PieceType>, sq: u8) -> ChessBoardSide {
    match p {
        Some(p) => placed(side, p, sq),
        None => side,
    }
}

pub proof fn lemma_place_if_hash(
    s: GameState,
    z: &ZobristNumbers,
    c: Color,
    p: Option<PieceType>,
    sq: u8,
)
    requires
        sq < 64,
        p matches Some(q) ==> !holds(s.boards.side(c).board(q), sq),
    ensures
        with_boards(s, c, placed_if(s.boards.side(c), p, sq)).hash_of(z) == s.hash_of(z)
            ^ piece_number(z.board.side(c), p, sq),
{
    match p {
        Some(q) => {
            lemma_place_hash(s, z, c, q, sq);
        },
        None => {
            assert(with_boards(s, c, s.boards.side(c)) == s);
            lemma_xor_algebra(s.hash_of(z), 0, 0);
        },
    }
}

/// The board of `p` after the piece on `sq` was taken off holds what it held, but for `sq`.
pub proof fn lemma_lifted_board(side: ChessBoardSide, sq: u8, p: PieceType, x: u8)
    requires
        sq < 64,
    ensures
        holds(lifted(side, sq).board(p), x) == (holds(side.board(p), x) && !(x == sq
            && side.piece_on(sq) == Some(p))),
{
    broadcast use group_holds;
    side.lemma_occupancy(sq);
}

/// The board of `p` after a piece of type `q` was put on `sq`.
pub proof fn lemma_placed_board(side: ChessBoardSide, q: PieceType, sq: u8, p: PieceType, x: u8)
    requires
        sq < 64,
    ensures
        holds(placed(side, q, sq).board(p), x) == (holds(side.board(p), x) || (x == sq && p == q)),
{
    broadcast use group_holds;
}

/// The hash that `make_move` keeps is the hash of the position it leaves.
pub proof fn lemma_hash_applied(s: GameState, m: Move, z: &ZobristNumbers)
    requires
        well_formed(s),
        applicable(s, m),
    ensures
        hash_applied(s.hash_of(z), s, m, z) == applied(s, m).hash_of(z),
{
    let c = s.flags.active;
    let code = code_of(m);
    let h = s.hash_of(z);
    lemma_decode(m);
    let t = if castle_code(code) {
        lemma_castle_hash(s, m, z)
    } else {
        lemma_step_hash(s, m, z)
    };
    // The flags change last; the clock is no part of the hash.
    let u = GameState { flags: flags_after(s.flags, m), ..t };
    lemma_flags_changed(t, u, z);
    lemma_xor_algebra(
        flags_hashed(t.hash_of(z), s.flags, flags_after(s.flags, m), z),
        en_passant_hash(t.en_passant, z),
        0,
    );
    assert(applied(s, m).hash_parts(z) =~= u.hash_parts(z));
}

/// The board part of a move that is no castle: the position it leaves, with the
/// flags and the clock still as they were.
proof fn lemma_step_hash(s: GameState, m: Move, z: &ZobristNumbers) -> (t: GameState)
    requires
        well_formed(s),
        applicable(s, m),
        !castle_code(code_of(m)),
    ensures
        t.hash_of(z) == boards_hashed(s.hash_of(z), s, m, z),
        t == (GameState { flags: s.flags, halfmove: s.halfmove, ..applied(s, m) }),
{
    let c = s.flags.active;
    let from = from_of(m);
    let to = to_of(m);
    let mine = s.friendly();
    let theirs = s.enemy();
    lemma_decode(m);
    let t1 = GameState { en_passant: en_passant_after(s, m), ..s };
    lemma_flags_changed(s, t1, z);
    lemma_xor_algebra(s.hash_of(z), 0, 0);
    let t2 = with_boards(t1, c, lifted(mine, from));
    lemma_lift_hash(t1, z, c, from);
    let landing = arriving(mine, m);
    let t3 = with_boards(t2, c, placed_if(lifted(mine, from), landing, to));
    assert(landing matches Some(q) ==> !holds(lifted(mine, from).board(q), to)) by {
        if landing is Some {
            let q = landing.unwrap();
            lemma_lifted_board(mine, from, q, to);
            mine.lemma_occupancy(to);
        }
    }
    lemma_place_if_hash(t2, z, c, landing, to);
    let cap_sq = capture_square(c, m);
    let t4 = with_boards(t3, c.other(), other_after(s, m));
    if capture_code(code_of(m)) {
        lemma_lift_hash(t3, z, c.other(), cap_sq);
    } else {
        assert(t4 == t3);
        lemma_xor_algebra(t3.hash_of(z), 0, 0);
    }
    assert(placed_if(lifted(mine, from), landing, to) == mover_after(mine, m));
    t4
}

/// The board part of a castle.
proof fn lemma_castle_hash(s: GameState, m: Move, z: &ZobristNumbers) -> (t: GameState)
    requires
        well_formed(s),
        applicable(s, m),
        castle_code(code_of(m)),
    ensures
        t.hash_of(z) == castle_hashed(s.hash_of(z), s.flags.active, code_of(m) == KING_CASTLE, z)
            ^ en_passant_hash(s.en_passant, z),
        t == (GameState { flags: s.flags, halfmove: s.halfmove, ..applied(s, m) }),
{
    broadcast use group_holds;
    let c = s.flags.active;
    let ks = code_of(m) == KING_CASTLE;
    let mine = s.friendly();
    let zs = z.board.side(c);
    assert(right_is_backed(s, c, ks));
    // The king leaves its home and lands on its target.
    let k1 = ChessBoardSide { king: mine.king | bit(king_target(c, ks)), ..mine };
    let t1 = with_boards(s, c, k1);
    lemma_place_hash(s, z, c, PieceType::King, king_target(c, ks));
    assert(k1 == placed(mine, PieceType::King, king_target(c, ks)));
    let k2 = ChessBoardSide { king: k1.king & !bit(king_home(c)), ..k1 };
    let t2 = with_boards(t1, c, k2);
    assert(k1.piece_on(king_home(c)) == Some(PieceType::King)) by {
        mine.lemma_occupancy(king_home(c));
        assert forall|p: PieceType| p != PieceType::King implies !holds(
            k1.board(p),
            king_home(c),
        ) by {
            assert(holds(mine.board(PieceType::King), king_home(c)));
        }
    }
    lemma_lift_hash(t1, z, c, king_home(c));
    assert(k2 == lifted(k1, king_home(c)));
    assert(k2.king == bit(king_target(c, ks))) by {
        lemma_ext(k2.king, bit(king_target(c, ks)));
    }
    // The rook leaves its corner and lands beside the king.
    assert(k2.piece_on(rook_home(c, ks)) == Some(PieceType::Rook)) by {
        mine.lemma_occupancy(rook_home(c, ks));
        assert(holds(mine.board(PieceType::Rook), rook_home(c, ks)));
    }
    let k3 = lifted(k2, rook_home(c, ks));
    let t3 = with_boards(t2, c, k3);
    lemma_lift_hash(t2, z, c, rook_home(c, ks));
    assert(!holds(k3.rook, rook_target(c, ks))) by {
        mine.lemma_occupancy(rook_target(c, ks));
    }
    let k4 = placed(k3, PieceType::Rook, rook_target(c, ks));
    let t4 = with_boards(t3, c, k4);
    lemma_place_hash(t3, z, c, PieceType::Rook, rook_target(c, ks));
    assert(k4 == castled(mine, c, ks));
    // The en-passant square goes.
    let t5 = GameState { en_passant: 0, ..t4 };
    lemma_flags_changed(t4, t5, z);
    lemma_xor_algebra(t4.hash_of(z), 0, 0);
    lemma_xor_algebra(t4.hash_of(z) ^ en_passant_hash(s.en_passant, z), 0, 0);
    t5
}

/// The board that holds one square alone, and its lowest member.
pub proof fn lemma_single_bit(sq: u8)
    requires
        sq < 64,
    ensures
        is_single(bit(sq)),
        lsb(bit(sq)) == sq,
        bit(sq) != 0,
{
    broadcast use group_holds;
    assert(holds(bit(sq), sq));
    lemma_lsb(bit(sq));
    crate::bits::lemma_member_nonzero(bit(sq), sq);
    assert(holds(bit(sq), lsb(bit(sq))));
}

/// A board of one square is that square's board.
pub proof fn lemma_single_member(b: u64, x: u8)
    requires
        is_single(b),
        holds(b, x),
    ensures
        b == bit(x),
{
    broadcast use group_holds;
    lemma_lsb(b);
    assert(holds(bit(lsb(b)), x));
}

/// No board of the side holds a square that its occupancy lacks.
pub proof fn lemma_free_square(side: ChessBoardSide, sq: u8)
    requires
        !holds(side.occupancy(), sq),
    ensures
        forall|p: PieceType| !holds(#[trigger] side.board(p), sq),
        side.piece_on(sq) is None,
{
    side.lemma_occupancy(sq);
}

/// Putting back the piece that was taken off restores the boards.
pub proof fn lemma_lift_then_place(side: ChessBoardSide, sq: u8)
    requires
        sq < 64,
    ensures
        placed_if(lifted(side, sq), side.piece_on(sq), sq) == side,
{
    broadcast use group_holds;
    match side.piece_on(sq) {
        Some(p) => {
            side.lemma_occupancy(sq);
            lemma_ext((side.board(p) & !bit(sq)) | bit(sq), side.board(p));
        },
        None => {},
    }
}

/// Taking off a piece that was put on a free square restores the boards.
pub proof fn lemma_place_then_lift(side: ChessBoardSide, q: PieceType, sq: u8)
    requires
        sq < 64,
        !holds(side.occupancy(), sq),
    ensures
        placed(side, q, sq).piece_on(sq) == Some(q),
        lifted(placed(side, q, sq), sq) == side,
{
    broadcast use group_holds;
    lemma_free_square(side, sq);
    let up = placed(side, q, sq);
    assert forall|p: PieceType| p != q implies !holds(up.board(p), sq) by {
        assert(up.board(p) == side.board(p));
    }
    assert(holds(up.board(q), sq));
    assert(!holds(up.board(PieceType::Pawn), sq) || q == PieceType::Pawn);
    assert(!holds(up.board(PieceType::Knight), sq) || q == PieceType::Knight);
    assert(!holds(up.board(PieceType::Bishop), sq) || q == PieceType::Bishop);
    assert(!holds(up.board(PieceType::Rook), sq) || q == PieceType::Rook);
    assert(!holds(up.board(PieceType::Queen), sq) || q == PieceType::Queen);
    assert(up.piece_on(sq) == Some(q));
    lemma_ext((side.board(q) | bit(sq)) & !bit(sq), side.board(q));
}

/// The occupancy after the piece on `sq` was taken off.
pub proof fn lemma_lifted_occupancy(side: ChessBoardSide, sq: u8, x: u8)
    requires
        sq < 64,
        side.disjoint(),
    ensures
        holds(lifted(side, sq).occupancy(), x) == (holds(side.occupancy(), x) && x != sq),
        lifted(side, sq).disjoint(),
{
    let up = lifted(side, sq);
    side.lemma_occupancy(x);
    up.lemma_occupancy(x);
    side.lemma_occupancy(sq);
    assert forall|p: PieceType| holds(#[trigger] up.board(p), x) == (holds(side.board(p), x) && !(x
        == sq && side.piece_on(sq) == Some(p))) by {
        lemma_lifted_board(side, sq, p, x);
    }
    if holds(side.occupancy(), x) && x != sq {
        let p = side.piece_on(x).unwrap();
        assert(holds(up.board(p), x));
    }
    if holds(up.occupancy(), x) {
        let p = up.piece_on(x).unwrap();
        assert(holds(up.board(p), x));
        assert(holds(side.board(p), x));
        if x == sq {
            assert(side.piece_on(sq) == Some(p));
        }
    }
    assert forall|y: u8, p: PieceType, q: PieceType|
        holds(up.board(p), y) && holds(up.board(q), y) implies p == q by {
        lemma_lifted_board(side, sq, p, y);
        lemma_lifted_board(side, sq, q, y);
    }
}

/// Taking a move back after making it gives the position that was there before,
/// bit for bit.
pub proof fn lemma_unmake_restores(s: GameState, m: Move)
    requires
        well_formed(s),
        applicable(s, m),
    ensures
        revert_in_range(applied(s, m), m, frame_of(s, m)),
        reverted(applied(s, m), m, frame_of(s, m)) == s,
{
    broadcast use group_holds;
    lemma_decode(m);
    let c = s.flags.active;
    let from = from_of(m);
    let to = to_of(m);
    let code = code_of(m);
    let mine = s.friendly();
    let theirs = s.enemy();
    let t = applied(s, m);
    let frame = frame_of(s, m);
    assert(t.flags.active == c.other());
    if castle_code(code) {
        let ks = code == KING_CASTLE;
        assert(right_is_backed(s, c, ks));
        let after = castled(mine, c, ks);
        let back = uncastled(after, c, ks);
        mine.lemma_occupancy(rook_target(c, ks));
        lemma_ext(back.rook, mine.rook);
        assert(back == mine);
        assert(t.boards.side(c) == after);
        assert(reverted(t, m, frame).boards == s.boards);
    } else {
        let up = lifted(mine, from);
        let landing = arriving(mine, m);
        assert(landing is Some);
        let q = landing.unwrap();
        let after = placed(up, q, to);
        assert(after == mover_after(mine, m));
        // Nothing of the mover stands on the target once the origin is left.
        assert(!holds(up.occupancy(), to)) by {
            s.boards.white.lemma_occupancy(to);
            s.boards.black.lemma_occupancy(to);
            lemma_lifted_occupancy(mine, from, to);
        }
        lemma_place_then_lift(up, q, to);
        lemma_lift_then_place(mine, from);
        assert(mover_before(after, m) == mine);
        let cap_sq = capture_square(c, m);
        if capture_code(code) {
            theirs.lemma_occupancy(cap_sq);
            assert(theirs.piece_on(cap_sq) is Some) by {
                if code == EN_PASSANT {
                    assert(holds(theirs.board(PieceType::Pawn), cap_sq));
                }
            }
            lemma_lift_then_place(theirs, cap_sq);
        }
        assert(other_before(other_after(s, m), c, m, frame) == theirs);
        assert(t.boards.side(c) == after);
        assert(t.boards.side(c.other()) == other_after(s, m));
        assert(reverted(t, m, frame).boards == s.boards);
    }
}

proof fn lemma_step_cancels(
    h: u64,
    e1: u64,
    e2: u64,
    a: u64,
    b: u64,
    c: u64,
    f1: u64,
    f2: u64,
    f3: u64,
    f4: u64,
    act: u64,
)
    by (bit_vector)
    ensures
        (h ^ e1 ^ e2 ^ a ^ b ^ c ^ f1 ^ f2 ^ f3 ^ f4 ^ act) ^ b ^ a ^ c ^ e2 ^ e1 ^ act ^ f1 ^ f2
            ^ f3 ^ f4 == h,
{
}

proof fn lemma_castle_cancels(
    h: u64,
    kt: u64,
    kh: u64,
    rh: u64,
    rt: u64,
    e1: u64,
    f1: u64,
    f2: u64,
    f3: u64,
    f4: u64,
    act: u64,
)
    by (bit_vector)
    ensures
        ((h ^ kt ^ kh ^ rh ^ rt ^ e1 ^ f1 ^ f2 ^ f3 ^ f4 ^ act) ^ (kt ^ kh) ^ (rt ^ rh)) ^ 0 ^ e1
            ^ act ^ f1 ^ f2 ^ f3 ^ f4 == h,
{
}

/// Taking a move back after making it gives the hash that was kept before,
/// whatever that hash was.
pub proof fn lemma_hash_restored(h: u64, s: GameState, m: Move, z: &ZobristNumbers)
    requires
        well_formed(s),
        applicable(s, m),
    ensures
        hash_reverted(hash_applied(h, s, m, z), applied(s, m), m, frame_of(s, m), z) == h,
{
    broadcast use group_holds;
    lemma_decode(m);
    let c = s.flags.active;
    let from = from_of(m);
    let to = to_of(m);
    let code = code_of(m);
    let mine = s.friendly();
    let theirs = s.enemy();
    let t = applied(s, m);
    let frame = frame_of(s, m);
    let g = flags_after(s.flags, m);
    let f1 = number_if(s.flags.white_king != g.white_king, z.castling.white_king_side);
    let f2 = number_if(s.flags.white_queen != g.white_queen, z.castling.white_queen_side);
    let f3 = number_if(s.flags.black_king != g.black_king, z.castling.black_king_side);
    let f4 = number_if(s.flags.black_queen != g.black_queen, z.castling.black_queen_side);
    let act = z.active_color;
    let e1 = en_passant_hash(s.en_passant, z);
    assert(t.flags == g);
    assert(t.flags.active == c.other());
    if castle_code(code) {
        let ks = code == KING_CASTLE;
        let zs = z.board.side(c);
        lemma_castle_cancels(
            h,
            zs.king@[king_target(c, ks) as int],
            zs.king@[king_home(c) as int],
            zs.rook@[rook_home(c, ks) as int],
            zs.rook@[rook_target(c, ks) as int],
            e1,
            f1,
            f2,
            f3,
            f4,
            act,
        );
        assert(en_passant_hash(t.en_passant, z) == 0);
    } else {
        let zf = z.board.side(c);
        let ze = z.board.side(c.other());
        let up = lifted(mine, from);
        let landing = arriving(mine, m);
        let q = landing.unwrap();
        let after = placed(up, q, to);
        assert(after == mover_after(mine, m));
        assert(!holds(up.occupancy(), to)) by {
            s.boards.white.lemma_occupancy(to);
            s.boards.black.lemma_occupancy(to);
            lemma_lifted_occupancy(mine, from, to);
        }
        lemma_place_then_lift(up, q, to);
        assert(t.enemy() == after);
        assert(after.piece_on(to) == landing);
        assert(returning(after, m) == mine.piece_on(from));
        let cap_sq = capture_square(c, m);
        let e2 = en_passant_hash(en_passant_after(s, m), z);
        lemma_step_cancels(
            h,
            e1,
            e2,
            piece_number(zf, mine.piece_on(from), from),
            piece_number(zf, landing, to),
            piece_number(ze, captured(s, m), cap_sq),
            f1,
            f2,
            f3,
            f4,
            act,
        );
    }
}

/// The boards of the mover after a move that is no castle, square by square.
pub proof fn lemma_mover_after_board(side: ChessBoardSide, m: Move, p: PieceType, x: u8)
    ensures
        holds(mover_after(side, m).board(p), x) == ((holds(side.board(p), x) && !(x == from_of(m)
            && side.piece_on(from_of(m)) == Some(p))) || (x == to_of(m) && arriving(side, m)
            == Some(p))),
{
    lemma_decode(m);
    let up = lifted(side, from_of(m));
    lemma_lifted_board(side, from_of(m), p, x);
    match arriving(side, m) {
        Some(q) => {
            lemma_placed_board(up, q, to_of(m), p, x);
        },
        None => {},
    }
}

/// A side whose boards hold, square by square, at most one piece is disjoint,
/// and its occupancy is what its boards hold.
pub proof fn lemma_occupancy_is_union(side: ChessBoardSide, x: u8)
    ensures
        holds(side.occupancy(), x) == exists|p: PieceType| holds(#[trigger] side.board(p), x),
{
    side.lemma_occupancy(x);
    if holds(side.occupancy(), x) {
        let p = side.piece_on(x).unwrap();
        assert(holds(side.board(p), x));
    }
}

/// A move that fits a well-formed position leaves a well-formed position.
pub proof fn lemma_applied_well_formed(s: GameState, m: Move)
    requires
        well_formed(s),
        applicable(s, m),
    ensures
        well_formed(applied(s, m)),
{
    broadcast use group_holds;
    lemma_decode(m);
    let c = s.flags.active;
    let from = from_of(m);
    let to = to_of(m);
    let code = code_of(m);
    let mine = s.friendly();
    let theirs = s.enemy();
    let t = applied(s, m);
    let mine2 = t.boards.side(c);
    let theirs2 = t.boards.side(c.other());
    mine.lemma_occupancy(from);
    mine.lemma_occupancy(to);
    theirs.lemma_occupancy(to);
    if castle_code(code) {
        let ks = code == KING_CASTLE;
        assert(right_is_backed(s, c, ks));
        assert(mine2 == castled(mine, c, ks));
        assert(theirs2 == theirs);
        lemma_single_bit(king_target(c, ks));
        mine.lemma_occupancy(king_target(c, ks));
        mine.lemma_occupancy(rook_target(c, ks));
        theirs.lemma_occupancy(king_target(c, ks));
        theirs.lemma_occupancy(rook_target(c, ks));
        assert forall|x: u8, p: PieceType| #[trigger] holds(mine2.board(p), x) implies (holds(
            mine.board(p),
            x,
        ) && x != king_home(c) && x != rook_home(c, ks)) || (x == king_target(c, ks) && p
            == PieceType::King) || (x == rook_target(c, ks) && p == PieceType::Rook) by {
            assert(holds(mine.board(PieceType::King), king_home(c)));
            assert(holds(mine.board(PieceType::Rook), rook_home(c, ks)));
            if p == PieceType::King {
            } else if p == PieceType::Rook {
                if x == king_home(c) && holds(mine.rook, x) {
                    assert(holds(mine.board(PieceType::Rook), king_home(c)));
                }
            } else {
                assert(mine2.board(p) == mine.board(p));
                if x == king_home(c) {
                    assert(holds(mine.board(p), king_home(c)));
                }
                if x == rook_home(c, ks) {
                    assert(holds(mine.board(p), rook_home(c, ks)));
                }
            }
        }
        assert(mine2.disjoint()) by {
            assert forall|x: u8, p: PieceType, q: PieceType|
                holds(mine2.board(p), x) && holds(mine2.board(q), x) implies p == q by {
                if p != q {
                    assert(holds(mine.board(p), x) || holds(mine.board(q), x));
                    lemma_free_square(mine, king_target(c, ks));
                    lemma_free_square(mine, rook_target(c, ks));
                }
            }
        }
        assert forall|x: u8| !(holds(mine2.occupancy(), x) && holds(theirs2.occupancy(), x)) by {
            lemma_occupancy_is_union(mine2, x);
            lemma_occupancy_is_union(mine, x);
            if holds(mine2.occupancy(), x) {
                let p = choose|p: PieceType| holds(#[trigger] mine2.board(p), x);
                assert(holds(mine2.board(p), x));
                if holds(mine.board(p), x) {
                    assert(holds(mine.occupancy(), x));
                    assert(!(holds(s.boards.white.occupancy(), x) && holds(
                        s.boards.black.occupancy(),
                        x,
                    )));
                }
            }
        }
        lemma_rights_backed(s, m);
    } else {
        let landing = arriving(mine, m);
        let q = landing.unwrap();
        let cap_sq = capture_square(c, m);
        assert(mine2 == mover_after(mine, m));
        assert(theirs2 == other_after(s, m));
        assert forall|x: u8, p: PieceType| #[trigger] holds(mine2.board(p), x) == ((holds(
            mine.board(p),
            x,
        ) && !(x == from && mine.piece_on(from) == Some(p))) || (x == to && landing == Some(p))) by {
            lemma_mover_after_board(mine, m, p, x);
        }
        lemma_free_square(mine, to);
        assert(mine2.disjoint()) by {
            assert forall|x: u8, p: PieceType, r: PieceType|
                holds(mine2.board(p), x) && holds(mine2.board(r), x) implies p == r by {
                if x == to {
                } else {
                    assert(holds(mine.board(p), x) && holds(mine.board(r), x));
                }
            }
        }
        if capture_code(code) {
            lemma_lifted_occupancy(theirs, cap_sq, to);
        }
        assert(theirs2.disjoint() && !holds(theirs2.occupancy(), to)) by {
            if capture_code(code) {
                lemma_lifted_occupancy(theirs, cap_sq, to);
            }
        }
        assert forall|x: u8| !(holds(mine2.occupancy(), x) && holds(theirs2.occupancy(), x)) by {
            lemma_occupancy_is_union(mine2, x);
            lemma_occupancy_is_union(mine, x);
            if capture_code(code) {
                lemma_lifted_occupancy(theirs, cap_sq, x);
            }
            if holds(mine2.occupancy(), x) && x != to {
                let p = choose|p: PieceType| holds(#[trigger] mine2.board(p), x);
                assert(holds(mine.board(p), x));
                assert(holds(mine.occupancy(), x));
                assert(!(holds(s.boards.white.occupancy(), x) && holds(
                    s.boards.black.occupancy(),
                    x,
                )));
            }
        }
        // Each side keeps its one king.
        assert(is_single(mine2.king) && is_single(theirs2.king)) by {
            if mine.piece_on(from) == Some(PieceType::King) {
                lemma_single_member(mine.king, from);
                assert(landing == Some(PieceType::King));
                lemma_ext(mine2.king, bit(to));
                lemma_single_bit(to);
            } else {
                assert(landing != Some(PieceType::King));
                lemma_ext(mine2.king, mine.king);
            }
            if capture_code(code) {
                theirs.lemma_occupancy(cap_sq);
                assert(theirs2.king == theirs.king);
            }
        }
        if code == DOUBLE_PAWN_PUSH {
            if c == Color::White {
                lemma_single_bit((from + 8) as u8);
            } else {
                lemma_single_bit((from - 8) as u8);
            }
        }
        lemma_rights_backed(s, m);
    }
}

/// Each right that the move leaves is still backed by king and rook at home.
proof fn lemma_rights_backed(s: GameState, m: Move)
    requires
        well_formed(s),
        applicable(s, m),
    ensures
        right_is_backed(applied(s, m), Color::White, true),
        right_is_backed(applied(s, m), Color::White, false),
        right_is_backed(applied(s, m), Color::Black, true),
        right_is_backed(applied(s, m), Color::Black, false),
{
    broadcast use group_holds;
    lemma_decode(m);
    let c = s.flags.active;
    let from = from_of(m);
    let to = to_of(m);
    let code = code_of(m);
    let mine = s.friendly();
    let theirs = s.enemy();
    let t = applied(s, m);
    let mine2 = t.boards.side(c);
    let theirs2 = t.boards.side(c.other());
    assert(right_is_backed(s, Color::White, true));
    assert(right_is_backed(s, Color::White, false));
    assert(right_is_backed(s, Color::Black, true));
    assert(right_is_backed(s, Color::Black, false));
    mine.lemma_occupancy(from);
    if castle_code(code) {
        assert(theirs2 == theirs);
    } else {
        let cap_sq = capture_square(c, m);
        assert(mine2 == mover_after(mine, m));
        assert(theirs2 == other_after(s, m));
        // The mover keeps a right only if neither its king nor that rook moved.
        assert forall|ks: bool| castle_right(t.flags, c, ks) implies mine2.king == mine.king
            && holds(mine2.rook, rook_home(c, ks)) by {
            assert(castle_right(s.flags, c, ks));
            assert(right_is_backed(s, c, ks));
            assert(from != king_home(c) && from != rook_home(c, ks));
            assert(holds(mine.board(PieceType::King), king_home(c)));
            assert(mine.piece_on(from) != Some(PieceType::King)) by {
                if mine.piece_on(from) == Some(PieceType::King) {
                    assert(holds(mine.board(PieceType::King), from));
                    assert(holds(bit(king_home(c)), from));
                }
            }
            assert(arriving(mine, m) != Some(PieceType::King));
            assert forall|x: u8| x < 64 implies holds(mine2.king, x) == holds(mine.king, x) by {
                lemma_mover_after_board(mine, m, PieceType::King, x);
            }
            lemma_ext(mine2.king, mine.king);
            lemma_mover_after_board(mine, m, PieceType::Rook, rook_home(c, ks));
            assert(holds(mine.board(PieceType::Rook), rook_home(c, ks)));
            mine.lemma_occupancy(to);
            lemma_free_square(mine, to);
        }
        // The other side keeps a right only if that rook was not captured.
        assert forall|ks: bool| castle_right(t.flags, c.other(), ks) implies theirs2.king
            == theirs.king && holds(theirs2.rook, rook_home(c.other(), ks)) by {
            assert(castle_right(s.flags, c.other(), ks));
            assert(right_is_backed(s, c.other(), ks));
            if capture_code(code) {
                theirs.lemma_occupancy(cap_sq);
                lemma_lifted_board(theirs, cap_sq, PieceType::Rook, rook_home(c.other(), ks));
                assert(theirs.piece_on(cap_sq) != Some(PieceType::King));
                assert(theirs2.king == theirs.king);
                assert(holds(theirs.board(PieceType::Rook), rook_home(c.other(), ks)));
                assert(cap_sq != rook_home(c.other(), ks));
            }
        }
    }
    assert forall|ks: bool| right_is_backed(t, c, ks) by {
        if castle_right(t.flags, c, ks) {
            if castle_code(code) {
                assert(from == king_home(c));
            }
        }
    }
    assert forall|ks: bool| right_is_backed(t, c.other(), ks) by {}
}

} // verus!

