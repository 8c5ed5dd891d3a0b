//! The generated moves are the pseudo-legal moves: each move that the rules of
//! movement allow is generated, no other is, and none is generated twice.

use vstd::prelude::*;
use crate::attack_laws::{
    lemma_slider_rays, ray_moves_of, ray_of, slider_part, slides, sound_boards,
};
use crate::attacks::{clear_ray, diagonal_attack, is_direction, piece_attacks};

use crate::bits::{holds, lsb, lemma_lsb, group_holds};
use crate::chess_board::PieceType;
use crate::color::Color;
use crate::game_state::GameState;
use crate::generation::{
    castle_moves, diagonal_from, diagonal_moves, each_square, king_moves, knight_from,
    leaper_moves, one, pawn_attack_board, pawn_capture_moves, pawn_double_board, pawn_from,
    pawn_moves_from, pawn_passive, pseudo_moves, push_moves, straight_from, straight_moves,
    will_promote,
};
use crate::laws::{lemma_single_bit, lemma_single_member};
use crate::move_maps::{
    MoveMaps, king_step, knight_step, on_ray, pawn_attack, pawn_double, pawn_push,
};
use crate::generation::{gather_down, gather_up};
use crate::moves::{
    Move, MoveCode, encode, from_of, to_of, code_of, is_code, lemma_encode, lemma_codes, CAPTURE,
    QUIET_MOVE, DOUBLE_PAWN_PUSH, EN_PASSANT, KING_CASTLE, QUEEN_CASTLE, KNIGHT_PROMOTION,
    BISHOP_PROMOTION, ROOK_PROMOTION, QUEEN_PROMOTION, KNIGHT_PROMOTION_CAPTURE,
    BISHOP_PROMOTION_CAPTURE, ROOK_PROMOTION_CAPTURE, QUEEN_PROMOTION_CAPTURE,
};
use crate::soundness::{
    lemma_all_occupancy, lemma_concat_contains, lemma_gather_up_member, lemma_leaper_member,
    lemma_pawn_tables, lemma_ray_member, lemma_targets_member, plain_move, ray_moves,
};

verus! {

/// The move takes the piece of type `p`, no pawn, that the side to move has on
/// `from` to a square `to` that it attacks and that holds no piece of its own
/// side: as a capture where an enemy piece stands there, else as a quiet move.
pub open spec fn piece_moves_as(s: GameState, p: PieceType, from: u8, to: u8, m: Move) -> bool {
    &&& p != PieceType::Pawn
    &&& holds(s.friendly().board(p), from)
    &&& piece_attacks(s.boards.occupancy(), s.flags.active, p, from, to)
    &&& plain_move(s.friendly().occupancy(), s.enemy().occupancy(), from, to, m)
}

/// The square that a pawn of color `c` on `from` passes over in a double step.
pub open spec fn passed_over(c: Color, from: u8) -> u8 {
    match c {
        Color::White => (from + 8) as u8,
        Color::Black => (from - 8) as u8,
    }
}

/// The move takes the pawn that the side to move has on `from` to `to`: one
/// step ahead onto a free square, promoting on the last rank; two steps ahead
/// from its home rank over a free square onto a free square; or diagonally
/// ahead onto an enemy piece or the en-passant square, promoting on the last
/// rank, and en passant where the target is the en-passant square and free.
pub open spec fn pawn_moves_as(s: GameState, from: u8, to: u8, m: Move) -> bool {
    let c = s.flags.active;
    let occ = s.boards.occupancy();
    let enemy = s.enemy().occupancy();
    let promote = will_promote(s, from);
    &&& from < 64
    &&& to < 64
    &&& holds(s.friendly().pawn, from)
    &&& {
        ||| pawn_push(c, from, to) && !holds(occ, to) && push_moves(from, promote)(to).contains(m)
        ||| pawn_double(c, from, to) && !holds(occ, to) && !holds(occ, passed_over(c, from)) && m
            == encode(from, to, DOUBLE_PAWN_PUSH)
        ||| pawn_attack(c, from, to) && (holds(enemy, to) || holds(s.en_passant, to))
            && pawn_capture_moves(from, promote, s.en_passant, enemy)(to).contains(m)
    }
}

/// The move is pseudo-legal: a move of a piece, a move of a pawn, or a castle.
pub open spec fn pseudo_legal(s: GameState, m: Move) -> bool {
    ||| exists|p: PieceType, from: u8, to: u8| #[trigger] piece_moves_as(s, p, from, to, m)
    ||| exists|from: u8, to: u8| #[trigger] pawn_moves_as(s, from, to, m)
    ||| castle_moves(s).contains(m)
}

/// The moves of the knights.
proof fn lemma_knight_moves(s: GameState, maps: &MoveMaps, m: Move)
    requires
        sound_boards(s),
        maps.valid(),
    ensures
        each_square(
            s.friendly().knight,
            knight_from(maps, s.friendly().occupancy(), s.enemy().occupancy()),
        ).contains(m) == exists|from: u8, to: u8|
            #[trigger] piece_moves_as(s, PieceType::Knight, from, to, m),
{
    let own = s.friendly().occupancy();
    let enemy = s.enemy().occupancy();
    let f = knight_from(maps, own, enemy);
    let part = each_square(s.friendly().knight, f);
    lemma_gather_up_member(s.friendly().knight, 0, 64, f, m);
    if part.contains(m) {
        let from = choose|x: u8|
            0 <= x < 64 && holds(s.friendly().knight, x) && #[trigger] f(x).contains(m);
        lemma_leaper_member(from, maps.knight.targets(from), own, enemy, m);
        let to = choose|to: u8|
            holds(maps.knight.targets(from), to) && #[trigger] plain_move(own, enemy, from, to, m);
        assert(knight_step(from, to));
        assert(piece_moves_as(s, PieceType::Knight, from, to, m));
    }
    if exists|from: u8, to: u8| #[trigger] piece_moves_as(s, PieceType::Knight, from, to, m) {
        let (from, to) = choose|from: u8, to: u8|
            #[trigger] piece_moves_as(s, PieceType::Knight, from, to, m);
        assert(holds(maps.knight.targets(from), to) && plain_move(own, enemy, from, to, m));
        lemma_leaper_member(from, maps.knight.targets(from), own, enemy, m);
        assert(0 <= from < 64 && holds(s.friendly().knight, from) && f(from).contains(m));
    }
}

/// The moves of the king.
proof fn lemma_king_moves(s: GameState, maps: &MoveMaps, m: Move)
    requires
        sound_boards(s),
        maps.valid(),
    ensures
        king_moves(s, maps).contains(m) == exists|from: u8, to: u8|
            #[trigger] piece_moves_as(s, PieceType::King, from, to, m),
{
    let own = s.friendly().occupancy();
    let enemy = s.enemy().occupancy();
    let king = lsb(s.friendly().king);
    lemma_lsb(s.friendly().king);
    lemma_leaper_member(king, maps.king.targets(king), own, enemy, m);
    if king_moves(s, maps).contains(m) {
        let to = choose|to: u8|
            holds(maps.king.targets(king), to) && #[trigger] plain_move(own, enemy, king, to, m);
        assert(king_step(king, to));
        assert(piece_moves_as(s, PieceType::King, king, to, m));
    }
    if exists|from: u8, to: u8| #[trigger] piece_moves_as(s, PieceType::King, from, to, m) {
        let (from, to) = choose|from: u8, to: u8|
            #[trigger] piece_moves_as(s, PieceType::King, from, to, m);
        lemma_single_member(s.friendly().king, from);
        lemma_single_bit(from);
        assert(from == king);
        assert(holds(maps.king.targets(king), to) && plain_move(own, enemy, king, to, m));
    }
}

/// A slider of type `p` on `from` moves to `to` along a diagonal, or along a
/// rank or file.
pub open spec fn slider_moves_as(
    s: GameState,
    p: PieceType,
    diagonal: bool,
    from: u8,
    to: u8,
    m: Move,
) -> bool {
    &&& holds(s.friendly().board(p), from)
    &&& slides(s.boards.occupancy(), diagonal, from, to)
    &&& plain_move(s.friendly().occupancy(), s.enemy().occupancy(), from, to, m)
}

/// The moves of the sliders of one type along the diagonals, or along ranks and files.
proof fn lemma_slider_moves(s: GameState, maps: &MoveMaps, p: PieceType, diagonal: bool, m: Move)
    requires
        sound_boards(s),
        maps.valid(),
    ensures
        slider_part(s, maps, p, diagonal).contains(m) == exists|from: u8, to: u8|
            #[trigger] slider_moves_as(s, p, diagonal, from, to, m),
{
    let own = s.friendly().occupancy();
    let enemy = s.enemy().occupancy();
    let occ = s.boards.occupancy();
    let board = s.friendly().board(p);
    let f = if diagonal { diagonal_from(maps, own, enemy) } else { straight_from(maps, own, enemy) };
    lemma_all_occupancy(s);
    assert forall|x: u8| !(holds(own, x) && holds(enemy, x)) by {
        s.boards.white.lemma_occupancy(x);
        assert(!(holds(s.boards.white.occupancy(), x) && holds(s.boards.black.occupancy(), x)));
    }
    lemma_gather_up_member(board, 0, 64, f, m);
    if slider_part(s, maps, p, diagonal).contains(m) {
        let from = choose|x: u8| 0 <= x < 64 && holds(board, x) && #[trigger] f(x).contains(m);
        lemma_slider_rays(s, maps, diagonal, from, m);
        let k = choose|k: int|
            0 <= k < 4 && #[trigger] ray_moves_of(maps, diagonal, k, from, own, enemy).contains(m);
        let (ray, df, dr) = ray_of(maps, diagonal, k, from);
        assert(is_direction(df, dr));
        assert forall|x: u8| #[trigger] holds(ray, x) == on_ray(df, dr, from, x) by {
            assert(holds(ray_of(maps, diagonal, k, from).0, x) == on_ray(df, dr, from, x));
        }
        lemma_ray_member(from, ray, own, enemy, df, dr, m);
        let to = choose|to: u8|
            clear_ray(own | enemy, df, dr, from, to) && #[trigger] plain_move(own, enemy, from, to, m);
        assert(clear_ray(occ, df, dr, from, to));
        assert(slider_moves_as(s, p, diagonal, from, to, m));
    }
    if exists|from: u8, to: u8| #[trigger] slider_moves_as(s, p, diagonal, from, to, m) {
        let (from, to) = choose|from: u8, to: u8|
            #[trigger] slider_moves_as(s, p, diagonal, from, to, m);
        let k: int = if diagonal {
            if clear_ray(occ, 1, 1, from, to) {
                0
            } else if clear_ray(occ, -1, 1, from, to) {
                1
            } else if clear_ray(occ, 1, -1, from, to) {
                2
            } else {
                3
            }
        } else {
            if clear_ray(occ, 0, 1, from, to) {
                0
            } else if clear_ray(occ, 0, -1, from, to) {
                1
            } else if clear_ray(occ, 1, 0, from, to) {
                2
            } else {
                3
            }
        };
        let (ray, df, dr) = ray_of(maps, diagonal, k, from);
        assert(clear_ray(own | enemy, df, dr, from, to));
        lemma_slider_rays(s, maps, diagonal, from, m);
        assert forall|x: u8| #[trigger] holds(ray, x) == on_ray(df, dr, from, x) by {
            assert(holds(ray_of(maps, diagonal, k, from).0, x) == on_ray(df, dr, from, x));
        }
        lemma_ray_member(from, ray, own, enemy, df, dr, m);
        assert(ray_moves_of(maps, diagonal, k, from, own, enemy).contains(m));
        assert(0 <= from < 64 && holds(board, from) && f(from).contains(m));
    }
}

/// The double-step table against the rule of the double step.
proof fn lemma_double_board(s: GameState, maps: &MoveMaps, from: u8, to: u8)
    requires
        maps.valid(),
        from < 64,
    ensures
        holds(pawn_double_board(s, maps, from), to) == (pawn_double(s.flags.active, from, to)
            && !holds(s.boards.occupancy(), to) && !holds(
            s.boards.occupancy(),
            passed_over(s.flags.active, from),
        )),
{
    broadcast use group_holds;
    lemma_all_occupancy(s);
    lemma_pawn_tables(s, maps, from, to);
    let c = s.flags.active;
    let white = c == Color::White;
    let mid = passed_over(c, from);
    lemma_pawn_tables(s, maps, from, mid);
    let unoccupied = !(s.friendly().occupancy() | s.enemy().occupancy());
    let table = if white {
        maps.white_pawn_double.targets(from)
    } else {
        maps.black_pawn_double.targets(from)
    };
    let double = table & unoccupied;
    if pawn_double(c, from, to) && !holds(s.boards.occupancy(), to) && !holds(
        s.boards.occupancy(),
        mid,
    ) {
        assert(holds(table, to));
        assert(holds(double, to));
        crate::bits::lemma_member_nonzero(double, to);
        assert(pawn_push(c, from, mid));
        assert(holds(pawn_passive(s, maps, from), mid));
    }
}

/// The moves of the pawns.
proof fn lemma_pawn_moves(s: GameState, maps: &MoveMaps, m: Move)
    requires
        sound_boards(s),
        maps.valid(),
    ensures
        each_square(s.friendly().pawn, pawn_from(s, maps)).contains(m) == exists|from: u8, to: u8|
            #[trigger] pawn_moves_as(s, from, to, m),
{
    let c = s.flags.active;
    let mine = s.friendly();
    let enemy = s.enemy().occupancy();
    let f = pawn_from(s, maps);
    let part = each_square(mine.pawn, f);
    lemma_gather_up_member(mine.pawn, 0, 64, f, m);
    if part.contains(m) {
        let from = choose|x: u8| 0 <= x < 64 && holds(mine.pawn, x) && #[trigger] f(x).contains(m);
        let promote = will_promote(s, from);
        let h = push_moves(from, promote);
        let g = pawn_capture_moves(from, promote, s.en_passant, enemy);
        let pushes = each_square(pawn_passive(s, maps, from), h);
        let doubles = each_square(pawn_double_board(s, maps, from), one(from, DOUBLE_PAWN_PUSH));
        let captures = each_square(pawn_attack_board(s, maps, from), g);
        assert(f(from) == pushes + doubles + captures);
        lemma_concat_contains(pushes + doubles, captures, m);
        lemma_concat_contains(pushes, doubles, m);
        if pushes.contains(m) {
            lemma_gather_up_member(pawn_passive(s, maps, from), 0, 64, h, m);
            let to = choose|x: u8|
                0 <= x < 64 && holds(pawn_passive(s, maps, from), x) && #[trigger] h(x).contains(m);
            lemma_pawn_tables(s, maps, from, to);
            assert(pawn_moves_as(s, from, to, m));
        } else if doubles.contains(m) {
            lemma_targets_member(
                pawn_double_board(s, maps, from),
                0,
                64,
                from,
                DOUBLE_PAWN_PUSH,
                m,
            );
            let to = choose|to: u8|
                0 <= to < 64 && #[trigger] holds(pawn_double_board(s, maps, from), to) && m
                    == encode(from, to, DOUBLE_PAWN_PUSH);
            lemma_double_board(s, maps, from, to);
            assert(pawn_moves_as(s, from, to, m));
        } else {
            lemma_gather_up_member(pawn_attack_board(s, maps, from), 0, 64, g, m);
            let to = choose|x: u8|
                0 <= x < 64 && holds(pawn_attack_board(s, maps, from), x) && #[trigger] g(
                    x,
                ).contains(m);
            lemma_pawn_tables(s, maps, from, to);
            assert(pawn_moves_as(s, from, to, m));
        }
    }
    if exists|from: u8, to: u8| #[trigger] pawn_moves_as(s, from, to, m) {
        let (from, to) = choose|from: u8, to: u8| #[trigger] pawn_moves_as(s, from, to, m);
        let promote = will_promote(s, from);
        let h = push_moves(from, promote);
        let g = pawn_capture_moves(from, promote, s.en_passant, enemy);
        let pushes = each_square(pawn_passive(s, maps, from), h);
        let doubles = each_square(pawn_double_board(s, maps, from), one(from, DOUBLE_PAWN_PUSH));
        let captures = each_square(pawn_attack_board(s, maps, from), g);
        assert(f(from) == pushes + doubles + captures);
        lemma_concat_contains(pushes + doubles, captures, m);
        lemma_concat_contains(pushes, doubles, m);
        lemma_pawn_tables(s, maps, from, to);
        lemma_double_board(s, maps, from, to);
        if pawn_push(c, from, to) && !holds(s.boards.occupancy(), to) && h(to).contains(m) {
            lemma_gather_up_member(pawn_passive(s, maps, from), 0, 64, h, m);
            assert(0 <= to < 64 && holds(pawn_passive(s, maps, from), to) && h(to).contains(m));
        } else if pawn_double(c, from, to) && !holds(s.boards.occupancy(), to) && !holds(
            s.boards.occupancy(),
            passed_over(c, from),
        ) && m == encode(from, to, DOUBLE_PAWN_PUSH) {
            lemma_targets_member(
                pawn_double_board(s, maps, from),
                0,
                64,
                from,
                DOUBLE_PAWN_PUSH,
                m,
            );
            assert(0 <= to < 64 && holds(pawn_double_board(s, maps, from), to) && m == encode(
                from,
                to,
                DOUBLE_PAWN_PUSH,
            ));
        } else {
            lemma_gather_up_member(pawn_attack_board(s, maps, from), 0, 64, g, m);
            assert(0 <= to < 64 && holds(pawn_attack_board(s, maps, from), to) && g(to).contains(
                m,
            ));
        }
        assert(0 <= from < 64 && holds(mine.pawn, from) && f(from).contains(m));
    }
}

/// The generated moves are the pseudo-legal moves: a move is generated exactly
/// when it is a move of a piece to a square that the piece attacks, a move of a
/// pawn, or a castle.
pub proof fn lemma_generated_iff_pseudo_legal(s: GameState, maps: &MoveMaps, m: Move)
    requires
        sound_boards(s),
        maps.valid(),
    ensures
        pseudo_moves(s, maps).contains(m) == pseudo_legal(s, m),
{
    let mine = s.friendly();
    let own = mine.occupancy();
    let enemy = s.enemy().occupancy();
    let occ = s.boards.occupancy();
    let pa = each_square(mine.knight, knight_from(maps, own, enemy));
    let pb = slider_part(s, maps, PieceType::Bishop, true);
    let pc = slider_part(s, maps, PieceType::Queen, true);
    let pd = slider_part(s, maps, PieceType::Rook, false);
    let pe = slider_part(s, maps, PieceType::Queen, false);
    let pf = each_square(mine.pawn, pawn_from(s, maps));
    let pg = king_moves(s, maps);
    let ph = castle_moves(s);
    assert(pseudo_moves(s, maps) == pa + pb + pc + pd + pe + pf + pg + ph);
    lemma_concat_contains(pa + pb + pc + pd + pe + pf + pg, ph, m);
    lemma_concat_contains(pa + pb + pc + pd + pe + pf, pg, m);
    lemma_concat_contains(pa + pb + pc + pd + pe, pf, m);
    lemma_concat_contains(pa + pb + pc + pd, pe, m);
    lemma_concat_contains(pa + pb + pc, pd, m);
    lemma_concat_contains(pa + pb, pc, m);
    lemma_concat_contains(pa, pb, m);
    lemma_knight_moves(s, maps, m);
    lemma_slider_moves(s, maps, PieceType::Bishop, true, m);
    lemma_slider_moves(s, maps, PieceType::Queen, true, m);
    lemma_slider_moves(s, maps, PieceType::Rook, false, m);
    lemma_slider_moves(s, maps, PieceType::Queen, false, m);
    lemma_pawn_moves(s, maps, m);
    lemma_king_moves(s, maps, m);
    let piece = exists|p: PieceType, from: u8, to: u8| #[trigger] piece_moves_as(s, p, from, to, m);
    if pa.contains(m) {
        let (from, to) = choose|from: u8, to: u8|
            #[trigger] piece_moves_as(s, PieceType::Knight, from, to, m);
        assert(piece_moves_as(s, PieceType::Knight, from, to, m));
    }
    if pg.contains(m) {
        let (from, to) = choose|from: u8, to: u8|
            #[trigger] piece_moves_as(s, PieceType::King, from, to, m);
        assert(piece_moves_as(s, PieceType::King, from, to, m));
    }
    if pb.contains(m) {
        let (from, to) = choose|from: u8, to: u8|
            #[trigger] slider_moves_as(s, PieceType::Bishop, true, from, to, m);
        assert(piece_moves_as(s, PieceType::Bishop, from, to, m));
    }
    if pc.contains(m) {
        let (from, to) = choose|from: u8, to: u8|
            #[trigger] slider_moves_as(s, PieceType::Queen, true, from, to, m);
        assert(piece_moves_as(s, PieceType::Queen, from, to, m));
    }
    if pd.contains(m) {
        let (from, to) = choose|from: u8, to: u8|
            #[trigger] slider_moves_as(s, PieceType::Rook, false, from, to, m);
        assert(piece_moves_as(s, PieceType::Rook, from, to, m));
    }
    if pe.contains(m) {
        let (from, to) = choose|from: u8, to: u8|
            #[trigger] slider_moves_as(s, PieceType::Queen, false, from, to, m);
        assert(piece_moves_as(s, PieceType::Queen, from, to, m));
    }
    if piece {
        let (p, from, to) = choose|p: PieceType, from: u8, to: u8|
            #[trigger] piece_moves_as(s, p, from, to, m);
        match p {
            PieceType::Knight => {
                assert(piece_moves_as(s, PieceType::Knight, from, to, m));
            },
            PieceType::King => {
                assert(piece_moves_as(s, PieceType::King, from, to, m));
            },
            PieceType::Bishop => {
                assert(slider_moves_as(s, PieceType::Bishop, true, from, to, m));
            },
            PieceType::Rook => {
                assert(slider_moves_as(s, PieceType::Rook, false, from, to, m));
            },
            PieceType::Queen => {
                if diagonal_attack(occ, from, to) {
                    assert(slider_moves_as(s, PieceType::Queen, true, from, to, m));
                } else {
                    assert(slider_moves_as(s, PieceType::Queen, false, from, to, m));
                }
            },
            PieceType::Pawn => {},
        }
    }
}

/// The sequence holds no move twice; each of its moves leaves `from`, goes to a
/// square that `to_ok` admits and has a code that `code_ok` admits.
pub open spec fn shaped(
    q: Seq<Move>,
    from: u8,
    to_ok: spec_fn(u8) -> bool,
    code_ok: spec_fn(MoveCode) -> bool,
) -> bool {
    &&& q.no_duplicates()
    &&& forall|i: int|
        0 <= i < q.len() ==> from_of(#[trigger] q[i]) == from && to_ok(to_of(q[i])) && code_ok(
            code_of(q[i]),
        )
}

/// Two sequences without a common move and without a move twice make one such sequence.
pub proof fn lemma_concat_no_duplicates(a: Seq<Move>, b: Seq<Move>)
    requires
        a.no_duplicates(),
        b.no_duplicates(),
        forall|i: int, j: int| 0 <= i < a.len() && 0 <= j < b.len() ==> a[i] != b[j],
    ensures
        (a + b).no_duplicates(),
{
    assert forall|i: int, j: int| 0 <= i < (a + b).len() && 0 <= j < (a + b).len() && i != j implies (
    a + b)[i] != (a + b)[j] by {
        if i < a.len() && j < a.len() {
        } else if i >= a.len() && j >= a.len() {
            assert(b[i - a.len()] != b[j - a.len()]);
        } else if i < a.len() {
            assert(a[i] != b[j - a.len()]);
        } else {
            assert(a[j] != b[i - a.len()]);
        }
    }
}

/// Two shaped sequences from the same square that differ in their targets or in
/// their codes make one shaped sequence.
proof fn lemma_shaped_concat(
    a: Seq<Move>,
    b: Seq<Move>,
    from: u8,
    ta: spec_fn(u8) -> bool,
    ca: spec_fn(MoveCode) -> bool,
    tb: spec_fn(u8) -> bool,
    cb: spec_fn(MoveCode) -> bool,
    t: spec_fn(u8) -> bool,
    c: spec_fn(MoveCode) -> bool,
)
    requires
        shaped(a, from, ta, ca),
        shaped(b, from, tb, cb),
        (forall|x: u8| !(#[trigger] ta(x) && tb(x))) || (forall|x: MoveCode|
            !(#[trigger] ca(x) && cb(x))),
        forall|x: u8| #[trigger] ta(x) ==> t(x),
        forall|x: u8| #[trigger] tb(x) ==> t(x),
        forall|x: MoveCode| #[trigger] ca(x) ==> c(x),
        forall|x: MoveCode| #[trigger] cb(x) ==> c(x),
    ensures
        shaped(a + b, from, t, c),
{
    assert forall|i: int, j: int| 0 <= i < a.len() && 0 <= j < b.len() implies a[i] != b[j] by {
        assert(ta(to_of(a[i])) && ca(code_of(a[i])));
        assert(tb(to_of(b[j])) && cb(code_of(b[j])));
    }
    lemma_concat_no_duplicates(a, b);
    assert forall|i: int| 0 <= i < (a + b).len() implies from_of(#[trigger] (a + b)[i]) == from
        && t(to_of((a + b)[i])) && c(code_of((a + b)[i])) by {
        if i < a.len() {
            assert((a + b)[i] == a[i]);
            assert(ta(to_of(a[i])) && ca(code_of(a[i])));
        } else {
            assert((a + b)[i] == b[i - a.len()]);
            assert(tb(to_of(b[i - a.len()])) && cb(code_of(b[i - a.len()])));
        }
    }
}

/// What is gathered from the squares of a board holds no move twice where what
/// each square gives holds none twice and tells its square by `key`.
proof fn lemma_gather_up_no_duplicates(
    b: u64,
    lo: int,
    hi: int,
    f: spec_fn(u8) -> Seq<Move>,
    key: spec_fn(Move) -> u8,
)
    requires
        0 <= lo,
        hi <= 64,
        forall|x: u8|
            lo <= x < hi && holds(b, x) ==> (#[trigger] f(x)).no_duplicates() && forall|i: int|
                0 <= i < f(x).len() ==> key(#[trigger] f(x)[i]) == x,
    ensures
        gather_up(b, lo, hi, f).no_duplicates(),
        forall|i: int|
            0 <= i < gather_up(b, lo, hi, f).len() ==> lo <= key(
                #[trigger] gather_up(b, lo, hi, f)[i],
            ) < hi && holds(b, key(gather_up(b, lo, hi, f)[i])) && f(
                key(gather_up(b, lo, hi, f)[i]),
            ).contains(gather_up(b, lo, hi, f)[i]),
    decreases hi - lo,
{
    if lo < hi {
        let x = lo as u8;
        let head = if holds(b, x) { f(x) } else { Seq::<Move>::empty() };
        let rest = gather_up(b, lo + 1, hi, f);
        lemma_gather_up_no_duplicates(b, lo + 1, hi, f, key);
        assert forall|i: int, j: int| 0 <= i < head.len() && 0 <= j < rest.len() implies head[i]
            != rest[j] by {
            assert(key(head[i]) == x);
            assert(key(rest[j]) > lo);
        }
        lemma_concat_no_duplicates(head, rest);
        let all = gather_up(b, lo, hi, f);
        assert forall|i: int| 0 <= i < all.len() implies lo <= key(#[trigger] all[i]) < hi && holds(
            b,
            key(all[i]),
        ) && f(key(all[i])).contains(all[i]) by {
            if i < head.len() {
                assert(all[i] == head[i]);
                assert(key(head[i]) == x);
            } else {
                assert(all[i] == rest[i - head.len()]);
            }
        }
    }
}

proof fn lemma_gather_down_no_duplicates(
    b: u64,
    lo: int,
    hi: int,
    f: spec_fn(u8) -> Seq<Move>,
    key: spec_fn(Move) -> u8,
)
    requires
        0 <= lo,
        hi <= 64,
        forall|x: u8|
            lo <= x < hi && holds(b, x) ==> (#[trigger] f(x)).no_duplicates() && forall|i: int|
                0 <= i < f(x).len() ==> key(#[trigger] f(x)[i]) == x,
    ensures
        gather_down(b, lo, hi, f).no_duplicates(),
        forall|i: int|
            0 <= i < gather_down(b, lo, hi, f).len() ==> lo <= key(
                #[trigger] gather_down(b, lo, hi, f)[i],
            ) < hi && holds(b, key(gather_down(b, lo, hi, f)[i])),
    decreases hi - lo,
{
    if lo < hi {
        let x = (hi - 1) as u8;
        let head = if holds(b, x) { f(x) } else { Seq::<Move>::empty() };
        let rest = gather_down(b, lo, hi - 1, f);
        lemma_gather_down_no_duplicates(b, lo, hi - 1, f, key);
        assert forall|i: int, j: int| 0 <= i < head.len() && 0 <= j < rest.len() implies head[i]
            != rest[j] by {
            assert(key(head[i]) == x);
            assert(key(rest[j]) < hi - 1);
        }
        lemma_concat_no_duplicates(head, rest);
        let all = gather_down(b, lo, hi, f);
        assert forall|i: int| 0 <= i < all.len() implies lo <= key(#[trigger] all[i]) < hi && holds(
            b,
            key(all[i]),
        ) by {
            if i < head.len() {
                assert(all[i] == head[i]);
                assert(key(head[i]) == x);
            } else {
                assert(all[i] == rest[i - head.len()]);
            }
        }
    }
}

/// The moves with one code from `from` to the squares of a board in a range.
proof fn lemma_targets_shaped(b: u64, lo: int, hi: int, from: u8, code: MoveCode, up: bool)
    requires
        0 <= lo,
        hi <= 64,
        from < 64,
        is_code(code),
    ensures
        shaped(
            if up {
                gather_up(b, lo, hi, one(from, code))
            } else {
                gather_down(b, lo, hi, one(from, code))
            },
            from,
            |to: u8| lo <= to < hi && holds(b, to),
            |c: MoveCode| c == code,
        ),
{
    let f = one(from, code);
    let key = |m: Move| to_of(m);
    assert forall|x: u8| lo <= x < hi && holds(b, x) implies (#[trigger] f(x)).no_duplicates()
        && forall|i: int| 0 <= i < f(x).len() ==> key(#[trigger] f(x)[i]) == x by {
        lemma_encode(from, x, code);
    }
    let q = if up { gather_up(b, lo, hi, f) } else { gather_down(b, lo, hi, f) };
    if up {
        lemma_gather_up_no_duplicates(b, lo, hi, f, key);
    } else {
        lemma_gather_down_no_duplicates(b, lo, hi, f, key);
    }
    assert forall|i: int| 0 <= i < q.len() implies from_of(#[trigger] q[i]) == from && (lo <= to_of(
        q[i],
    ) < hi && holds(b, to_of(q[i]))) && code_of(q[i]) == code by {
        assert(q.contains(q[i]));
        lemma_targets_member(b, lo, hi, from, code, q[i]);
        let to = choose|to: u8| lo <= to < hi && #[trigger] holds(b, to) && q[i] == encode(from, to, code);
        lemma_encode(from, to, code);
    }
}

/// Any target and any code.
pub open spec fn any_square() -> spec_fn(u8) -> bool {
    |to: u8| true
}

/// The codes of a capture and of a quiet move.
pub open spec fn plain_codes() -> spec_fn(MoveCode) -> bool {
    |c: MoveCode| c == CAPTURE || c == QUIET_MOVE
}

/// The moves of a leaper hold no move twice.
proof fn lemma_leaper_shaped(from: u8, targets: u64, own: u64, enemy: u64)
    requires
        from < 64,
    ensures
        shaped(leaper_moves(from, targets, own, enemy), from, any_square(), plain_codes()),
{
    lemma_codes();
    let caps = (targets & !own) & enemy;
    let quiets = (targets & !own) & !enemy;
    lemma_targets_shaped(caps, 0, 64, from, CAPTURE, true);
    lemma_targets_shaped(quiets, 0, 64, from, QUIET_MOVE, true);
    lemma_shaped_concat(
        each_square(caps, one(from, CAPTURE)),
        each_square(quiets, one(from, QUIET_MOVE)),
        from,
        |to: u8| 0 <= to < 64 && holds(caps, to),
        |c: MoveCode| c == CAPTURE,
        |to: u8| 0 <= to < 64 && holds(quiets, to),
        |c: MoveCode| c == QUIET_MOVE,
        any_square(),
        plain_codes(),
    );
}

/// The moves of a slider along one ray hold no move twice and go to squares of the ray.
proof fn lemma_ray_shaped(from: u8, ray: u64, own: u64, enemy: u64, up: bool)
    requires
        from < 64,
    ensures
        shaped(
            ray_moves(up, from, ray, own, enemy),
            from,
            |to: u8| holds(ray, to),
            plain_codes(),
        ),
{
    broadcast use group_holds;
    lemma_codes();
    lemma_lsb(own & ray);
    lemma_lsb(enemy & ray);
    crate::bits::lemma_msb(own & ray);
    crate::bits::lemma_msb(enemy & ray);
    let capture = crate::soundness::ray_capture(up, ray, own, enemy);
    let blocking = crate::soundness::ray_block(up, ray, own, enemy);
    let e = crate::soundness::nearest(up, enemy & ray);
    let head = if capture { seq![encode(from, e as u8, CAPTURE)] } else { Seq::<Move>::empty() };
    let f = one(from, QUIET_MOVE);
    let quiets = if up { gather_up(ray, 0, blocking, f) } else { gather_down(ray, blocking + 1, 64, f) };
    assert(ray_moves(up, from, ray, own, enemy) == head + quiets);
    if up {
        lemma_targets_shaped(ray, 0, blocking, from, QUIET_MOVE, true);
    } else {
        lemma_targets_shaped(ray, blocking + 1, 64, from, QUIET_MOVE, false);
    }
    if capture {
        lemma_encode(from, e as u8, CAPTURE);
        assert(holds(enemy & ray, e as u8));
    }
    assert(shaped(head, from, |to: u8| holds(ray, to), |c: MoveCode| c == CAPTURE));
    let lo = if up { 0 } else { blocking + 1 };
    let hi = if up { blocking } else { 64 };
    lemma_shaped_concat(
        head,
        quiets,
        from,
        |to: u8| holds(ray, to),
        |c: MoveCode| c == CAPTURE,
        |to: u8| lo <= to < hi && holds(ray, to),
        |c: MoveCode| c == QUIET_MOVE,
        |to: u8| holds(ray, to),
        plain_codes(),
    );
}

/// Ray number `k` of a slider on `from` holds the square.
pub open spec fn on_kth(maps: &MoveMaps, diagonal: bool, k: int, from: u8, x: u8) -> bool {
    holds(ray_of(maps, diagonal, k, from).0, x)
}

/// A square lies on one ray at most.
proof fn lemma_one_ray(df: int, dr: int, ef: int, er: int, s: u8, t: u8)
    requires
        is_direction(df, dr),
        is_direction(ef, er),
        on_ray(df, dr, s, t),
        on_ray(ef, er, s, t),
    ensures
        df == ef && dr == er,
{
}

/// The moves of a slider on `from` hold no move twice and go where it slides.
proof fn lemma_slider_shaped(maps: &MoveMaps, diagonal: bool, from: u8, own: u64, enemy: u64)
    requires
        maps.valid(),
        from < 64,
    ensures
        shaped(
            if diagonal {
                diagonal_moves(maps, from, own, enemy)
            } else {
                straight_moves(maps, from, own, enemy)
            },
            from,
            |to: u8| exists|k: int| 0 <= k < 4 && #[trigger] on_kth(maps, diagonal, k, from, to),
            plain_codes(),
        ),
{
    let r = |k: int| ray_moves_of(maps, diagonal, k, from, own, enemy);
    let on = |k: int| (|to: u8| on_kth(maps, diagonal, k, from, to));
    let upto = |n: int|
        (|to: u8| exists|k: int| 0 <= k < n && #[trigger] on_kth(maps, diagonal, k, from, to));
    let all = if diagonal {
        diagonal_moves(maps, from, own, enemy)
    } else {
        straight_moves(maps, from, own, enemy)
    };
    assert(all == r(0) + r(1) + r(2) + r(3));
    assert forall|k: int| 0 <= k < 4 implies shaped(#[trigger] r(k), from, on(k), plain_codes()) by {
        let (ray, df, dr) = ray_of(maps, diagonal, k, from);
        lemma_ray_shaped(from, ray, own, enemy, 8 * dr + df > 0);
    }
    // Two different rays from one square share no square.
    assert forall|j: int, k: int, x: u8| 0 <= j < k < 4 implies !(holds(
        #[trigger] ray_of(maps, diagonal, j, from).0,
        x,
    ) && #[trigger] on_kth(maps, diagonal, k, from, x)) by {
        let (rj, fj, gj) = ray_of(maps, diagonal, j, from);
        let (rk, fk, gk) = ray_of(maps, diagonal, k, from);
        assert(holds(rj, x) == on_ray(fj, gj, from, x));
        assert(holds(rk, x) == on_ray(fk, gk, from, x));
        if on_ray(fj, gj, from, x) && on_ray(fk, gk, from, x) {
            lemma_one_ray(fj, gj, fk, gk, from, x);
        }
    }
    assert(shaped(r(0), from, upto(1), plain_codes())) by {
        assert(shaped(r(0), from, on(0), plain_codes()));
        assert forall|i: int| 0 <= i < r(0).len() implies upto(1)(to_of(#[trigger] r(0)[i])) by {
            assert(on(0)(to_of(r(0)[i])));
            assert(on_kth(maps, diagonal, 0, from, to_of(r(0)[i])));
        }
    }
    lemma_rays_concat(maps, diagonal, from, own, enemy, 1);
    lemma_rays_concat(maps, diagonal, from, own, enemy, 2);
    lemma_rays_concat(maps, diagonal, from, own, enemy, 3);
}

proof fn lemma_rays_concat(
    maps: &MoveMaps,
    diagonal: bool,
    from: u8,
    own: u64,
    enemy: u64,
    n: int,
)
    requires
        maps.valid(),
        from < 64,
        1 <= n < 4,
        shaped(
            rays_first(maps, diagonal, from, own, enemy, n),
            from,
            |to: u8| exists|k: int| 0 <= k < n && #[trigger] on_kth(maps, diagonal, k, from, to),
            plain_codes(),
        ),
        shaped(
            ray_moves_of(maps, diagonal, n, from, own, enemy),
            from,
            |to: u8| on_kth(maps, diagonal, n, from, to),
            plain_codes(),
        ),
        forall|j: int, k: int, x: u8|
            0 <= j < k < 4 ==> !(#[trigger] on_kth(maps, diagonal, j, from, x) && #[trigger] on_kth(
                maps,
                diagonal,
                k,
                from,
                x,
            )),
    ensures
        shaped(
            rays_first(maps, diagonal, from, own, enemy, n + 1),
            from,
            |to: u8|
                exists|k: int| 0 <= k < n + 1 && #[trigger] on_kth(maps, diagonal, k, from, to),
            plain_codes(),
        ),
{
    let a = rays_first(maps, diagonal, from, own, enemy, n);
    let b = ray_moves_of(maps, diagonal, n, from, own, enemy);
    let ta = |to: u8| exists|k: int| 0 <= k < n && #[trigger] on_kth(maps, diagonal, k, from, to);
    let tb = |to: u8| on_kth(maps, diagonal, n, from, to);
    let t = |to: u8|
        exists|k: int| 0 <= k < n + 1 && #[trigger] on_kth(maps, diagonal, k, from, to);
    assert forall|x: u8| !(#[trigger] ta(x) && tb(x)) by {
        if ta(x) && tb(x) {
            let k = choose|k: int| 0 <= k < n && #[trigger] on_kth(maps, diagonal, k, from, x);
            assert(on_kth(maps, diagonal, k, from, x) && on_kth(maps, diagonal, n, from, x));
        }
    }
    assert forall|x: u8| #[trigger] ta(x) implies t(x) by {
        let k = choose|k: int| 0 <= k < n && #[trigger] on_kth(maps, diagonal, k, from, x);
        assert(0 <= k < n + 1 && on_kth(maps, diagonal, k, from, x));
    }
    assert forall|x: u8| #[trigger] tb(x) implies t(x) by {
        assert(0 <= n < n + 1 && on_kth(maps, diagonal, n, from, x));
    }
    lemma_shaped_concat(a, b, from, ta, plain_codes(), tb, plain_codes(), t, plain_codes());
}

/// The moves along the first `n` rays of a slider, `n` from 1 to 4.
spec fn rays_first(maps: &MoveMaps, diagonal: bool, from: u8, own: u64, enemy: u64, n: int) -> Seq<
    Move,
> {
    let r = |k: int| ray_moves_of(maps, diagonal, k, from, own, enemy);
    if n <= 1 {
        r(0)
    } else if n == 2 {
        r(0) + r(1)
    } else if n == 3 {
        r(0) + r(1) + r(2)
    } else {
        r(0) + r(1) + r(2) + r(3)
    }
}

/// What each target gives holds no move twice where each of its moves leaves
/// `from`, goes to the target and has an admitted code.
proof fn lemma_gather_shaped(
    b: u64,
    f: spec_fn(u8) -> Seq<Move>,
    from: u8,
    code_ok: spec_fn(MoveCode) -> bool,
)
    requires
        forall|to: u8|
            to < 64 ==> (#[trigger] f(to)).no_duplicates() && forall|i: int|
                0 <= i < f(to).len() ==> from_of(#[trigger] f(to)[i]) == from && to_of(f(to)[i])
                    == to && code_ok(code_of(f(to)[i])),
    ensures
        shaped(each_square(b, f), from, any_square(), code_ok),
{
    let key = |m: Move| to_of(m);
    lemma_gather_up_no_duplicates(b, 0, 64, f, key);
    let q = each_square(b, f);
    assert forall|i: int| 0 <= i < q.len() implies from_of(#[trigger] q[i]) == from && any_square()(
        to_of(q[i]),
    ) && code_ok(code_of(q[i])) by {
        let to = key(q[i]);
        let ft = f(to);
        assert(ft.contains(q[i]));
        let j = choose|j: int| 0 <= j < ft.len() && ft[j] == q[i];
        assert(from_of(ft[j]) == from && code_ok(code_of(ft[j])));
    }
}

/// The codes of the pushes, of the double step and of the captures of a pawn.
pub open spec fn push_codes() -> spec_fn(MoveCode) -> bool {
    |c: MoveCode|
        c == QUIET_MOVE || c == QUEEN_PROMOTION || c == ROOK_PROMOTION || c == BISHOP_PROMOTION || c
            == KNIGHT_PROMOTION
}

pub open spec fn pawn_capture_codes() -> spec_fn(MoveCode) -> bool {
    |c: MoveCode|
        c == CAPTURE || c == EN_PASSANT || c == QUEEN_PROMOTION_CAPTURE || c
            == ROOK_PROMOTION_CAPTURE || c == BISHOP_PROMOTION_CAPTURE || c
            == KNIGHT_PROMOTION_CAPTURE
}

pub open spec fn pawn_codes() -> spec_fn(MoveCode) -> bool {
    |c: MoveCode| push_codes()(c) || c == DOUBLE_PAWN_PUSH || pawn_capture_codes()(c)
}

/// The moves of the pawn on `from` hold no move twice.
proof fn lemma_pawn_shaped(s: GameState, maps: &MoveMaps, from: u8)
    requires
        from < 64,
    ensures
        shaped(pawn_moves_from(s, maps, from), from, any_square(), pawn_codes()),
{
    lemma_codes();
    let promote = will_promote(s, from);
    let enemy = s.enemy().occupancy();
    let h = push_moves(from, promote);
    let g = pawn_capture_moves(from, promote, s.en_passant, enemy);
    let pushes = each_square(pawn_passive(s, maps, from), h);
    let doubles = each_square(pawn_double_board(s, maps, from), one(from, DOUBLE_PAWN_PUSH));
    let captures = each_square(pawn_attack_board(s, maps, from), g);
    assert forall|to: u8| to < 64 implies (#[trigger] h(to)).no_duplicates() && forall|i: int|
        0 <= i < h(to).len() ==> from_of(#[trigger] h(to)[i]) == from && to_of(h(to)[i]) == to
            && push_codes()(code_of(h(to)[i])) by {
        lemma_encode(from, to, QUEEN_PROMOTION);
        lemma_encode(from, to, ROOK_PROMOTION);
        lemma_encode(from, to, BISHOP_PROMOTION);
        lemma_encode(from, to, KNIGHT_PROMOTION);
        lemma_encode(from, to, QUIET_MOVE);
    }
    assert forall|to: u8| to < 64 implies (#[trigger] g(to)).no_duplicates() && forall|i: int|
        0 <= i < g(to).len() ==> from_of(#[trigger] g(to)[i]) == from && to_of(g(to)[i]) == to
            && pawn_capture_codes()(code_of(g(to)[i])) by {
        lemma_encode(from, to, QUEEN_PROMOTION_CAPTURE);
        lemma_encode(from, to, ROOK_PROMOTION_CAPTURE);
        lemma_encode(from, to, BISHOP_PROMOTION_CAPTURE);
        lemma_encode(from, to, KNIGHT_PROMOTION_CAPTURE);
        lemma_encode(from, to, EN_PASSANT);
        lemma_encode(from, to, CAPTURE);
    }
    lemma_gather_shaped(pawn_passive(s, maps, from), h, from, push_codes());
    lemma_targets_shaped(pawn_double_board(s, maps, from), 0, 64, from, DOUBLE_PAWN_PUSH, true);
    lemma_gather_shaped(pawn_attack_board(s, maps, from), g, from, pawn_capture_codes());
    let first = |c: MoveCode| push_codes()(c) || c == DOUBLE_PAWN_PUSH;
    lemma_shaped_concat(
        pushes,
        doubles,
        from,
        any_square(),
        push_codes(),
        |to: u8| 0 <= to < 64 && holds(pawn_double_board(s, maps, from), to),
        |c: MoveCode| c == DOUBLE_PAWN_PUSH,
        any_square(),
        first,
    );
    lemma_shaped_concat(
        pushes + doubles,
        captures,
        from,
        any_square(),
        first,
        any_square(),
        pawn_capture_codes(),
        any_square(),
        pawn_codes(),
    );
}

/// The class of the moves of each of the eight parts of the generated moves: the
/// board that holds the origin and, where two parts share a board, the kind of
/// target or code.
pub open spec fn of_part(s: GameState, maps: &MoveMaps, k: int, m: Move) -> bool {
    let mine = s.friendly();
    let from = from_of(m);
    let to = to_of(m);
    let diagonal = exists|j: int| 0 <= j < 4 && #[trigger] on_kth(maps, true, j, from, to);
    let straight = exists|j: int| 0 <= j < 4 && #[trigger] on_kth(maps, false, j, from, to);
    if k == 0 {
        holds(mine.knight, from) && plain_codes()(code_of(m))
    } else if k == 1 {
        holds(mine.bishop, from) && plain_codes()(code_of(m))
    } else if k == 2 {
        holds(mine.queen, from) && plain_codes()(code_of(m)) && diagonal
    } else if k == 3 {
        holds(mine.rook, from) && plain_codes()(code_of(m))
    } else if k == 4 {
        holds(mine.queen, from) && plain_codes()(code_of(m)) && straight
    } else if k == 5 {
        holds(mine.pawn, from) && pawn_codes()(code_of(m))
    } else if k == 6 {
        holds(mine.king, from) && plain_codes()(code_of(m))
    } else {
        code_of(m) == KING_CASTLE || code_of(m) == QUEEN_CASTLE
    }
}

/// The eight parts of the generated moves.
pub open spec fn part(s: GameState, maps: &MoveMaps, k: int) -> Seq<Move> {
    let mine = s.friendly();
    let own = mine.occupancy();
    let enemy = s.enemy().occupancy();
    if k == 0 {
        each_square(mine.knight, knight_from(maps, own, enemy))
    } else if k == 1 {
        slider_part(s, maps, PieceType::Bishop, true)
    } else if k == 2 {
        slider_part(s, maps, PieceType::Queen, true)
    } else if k == 3 {
        slider_part(s, maps, PieceType::Rook, false)
    } else if k == 4 {
        slider_part(s, maps, PieceType::Queen, false)
    } else if k == 5 {
        each_square(mine.pawn, pawn_from(s, maps))
    } else if k == 6 {
        king_moves(s, maps)
    } else {
        castle_moves(s)
    }
}

/// Every move of a sequence is of part `k`.
pub open spec fn all_of_part(q: Seq<Move>, s: GameState, maps: &MoveMaps, k: int) -> bool {
    forall|i: int| 0 <= i < q.len() ==> of_part(s, maps, k, #[trigger] q[i])
}

/// The moves gathered from the pieces of one board hold no move twice and are of their part.
proof fn lemma_pieces_shaped(
    s: GameState,
    maps: &MoveMaps,
    k: int,
    board: u64,
    f: spec_fn(u8) -> Seq<Move>,
    to_ok: spec_fn(u8, u8) -> bool,
    code_ok: spec_fn(MoveCode) -> bool,
)
    requires
        forall|from: u8|
            from < 64 ==> shaped(#[trigger] f(from), from, |to: u8| to_ok(from, to), code_ok),
        forall|m: Move|
            holds(board, from_of(m)) && to_ok(from_of(m), to_of(m)) && code_ok(code_of(m))
                ==> #[trigger] of_part(s, maps, k, m),
    ensures
        each_square(board, f).no_duplicates(),
        all_of_part(each_square(board, f), s, maps, k),
{
    let key = |m: Move| from_of(m);
    assert forall|x: u8| 0 <= x < 64 && holds(board, x) implies (#[trigger] f(x)).no_duplicates()
        && forall|i: int| 0 <= i < f(x).len() ==> key(#[trigger] f(x)[i]) == x by {
        assert(shaped(f(x), x, |to: u8| to_ok(x, to), code_ok));
    }
    lemma_gather_up_no_duplicates(board, 0, 64, f, key);
    let q = each_square(board, f);
    assert forall|i: int| 0 <= i < q.len() implies of_part(s, maps, k, #[trigger] q[i]) by {
        let x = key(q[i]);
        let fx = f(x);
        assert(fx.contains(q[i]));
        let j = choose|j: int| 0 <= j < fx.len() && fx[j] == q[i];
        assert(shaped(fx, x, |to: u8| to_ok(x, to), code_ok));
        assert(to_ok(x, to_of(fx[j])) && code_ok(code_of(fx[j])));
    }
}

/// Each part holds no move twice, and its moves are of its class.
proof fn lemma_part_shaped(s: GameState, maps: &MoveMaps, k: int)
    requires
        sound_boards(s),
        maps.valid(),
        0 <= k < 8,
    ensures
        part(s, maps, k).no_duplicates(),
        all_of_part(part(s, maps, k), s, maps, k),
{
    lemma_codes();
    let mine = s.friendly();
    let own = mine.occupancy();
    let enemy = s.enemy().occupancy();
    if k == 0 {
        let f = knight_from(maps, own, enemy);
        assert forall|from: u8| from < 64 implies shaped(
            #[trigger] f(from),
            from,
            |to: u8| true,
            plain_codes(),
        ) by {
            lemma_leaper_shaped(from, maps.knight.targets(from), own, enemy);
            assert(shaped(f(from), from, any_square(), plain_codes()));
        }
        lemma_pieces_shaped(s, maps, 0, mine.knight, f, |from: u8, to: u8| true, plain_codes());
    } else if k == 1 || k == 2 {
        let f = diagonal_from(maps, own, enemy);
        let to_ok = |from: u8, to: u8|
            exists|j: int| 0 <= j < 4 && #[trigger] on_kth(maps, true, j, from, to);
        assert forall|from: u8| from < 64 implies shaped(
            #[trigger] f(from),
            from,
            |to: u8| to_ok(from, to),
            plain_codes(),
        ) by {
            lemma_slider_shaped(maps, true, from, own, enemy);
            assert(f(from) == diagonal_moves(maps, from, own, enemy));
            let q = f(from);
            assert forall|i: int| 0 <= i < q.len() implies to_ok(from, to_of(#[trigger] q[i])) by {
                let j = choose|j: int|
                    0 <= j < 4 && #[trigger] on_kth(maps, true, j, from, to_of(q[i]));
                assert(0 <= j < 4 && on_kth(maps, true, j, from, to_of(q[i])));
            }
        }
        let board = if k == 1 { mine.bishop } else { mine.queen };
        lemma_pieces_shaped(s, maps, k, board, f, to_ok, plain_codes());
    } else if k == 3 || k == 4 {
        let f = straight_from(maps, own, enemy);
        let to_ok = |from: u8, to: u8|
            exists|j: int| 0 <= j < 4 && #[trigger] on_kth(maps, false, j, from, to);
        assert forall|from: u8| from < 64 implies shaped(
            #[trigger] f(from),
            from,
            |to: u8| to_ok(from, to),
            plain_codes(),
        ) by {
            lemma_slider_shaped(maps, false, from, own, enemy);
            assert(f(from) == straight_moves(maps, from, own, enemy));
            let q = f(from);
            assert forall|i: int| 0 <= i < q.len() implies to_ok(from, to_of(#[trigger] q[i])) by {
                let j = choose|j: int|
                    0 <= j < 4 && #[trigger] on_kth(maps, false, j, from, to_of(q[i]));
                assert(0 <= j < 4 && on_kth(maps, false, j, from, to_of(q[i])));
            }
        }
        let board = if k == 3 { mine.rook } else { mine.queen };
        lemma_pieces_shaped(s, maps, k, board, f, to_ok, plain_codes());
    } else if k == 5 {
        let f = pawn_from(s, maps);
        assert forall|from: u8| from < 64 implies shaped(
            #[trigger] f(from),
            from,
            |to: u8| true,
            pawn_codes(),
        ) by {
            lemma_pawn_shaped(s, maps, from);
            assert(shaped(f(from), from, any_square(), pawn_codes()));
        }
        lemma_pieces_shaped(s, maps, 5, mine.pawn, f, |from: u8, to: u8| true, pawn_codes());
    } else if k == 6 {
        let king = lsb(mine.king);
        lemma_lsb(mine.king);
        lemma_leaper_shaped(king, maps.king.targets(king), own, enemy);
        let q = king_moves(s, maps);
        assert(shaped(q, king, any_square(), plain_codes()));
        assert forall|i: int| 0 <= i < q.len() implies of_part(s, maps, 6, #[trigger] q[i]) by {
            assert(from_of(q[i]) == king && plain_codes()(code_of(q[i])));
        }
    } else {
        lemma_castles_shaped(s, maps);
    }
}

/// The castles hold no move twice.
proof fn lemma_castles_shaped(s: GameState, maps: &MoveMaps)
    ensures
        castle_moves(s).no_duplicates(),
        all_of_part(castle_moves(s), s, maps, 7),
{
    lemma_codes();
    lemma_encode(4, 6, KING_CASTLE);
    lemma_encode(4, 2, QUEEN_CASTLE);
    lemma_encode(60, 62, KING_CASTLE);
    lemma_encode(60, 58, QUEEN_CASTLE);
    let q = castle_moves(s);
    assert forall|i: int| 0 <= i < q.len() implies of_part(s, maps, 7, #[trigger] q[i]) && (q[i]
        == encode(4, 6, KING_CASTLE) || q[i] == encode(4, 2, QUEEN_CASTLE) || q[i] == encode(
        60,
        62,
        KING_CASTLE,
    ) || q[i] == encode(60, 58, QUEEN_CASTLE)) by {}
    assert forall|i: int, j: int| 0 <= i < q.len() && 0 <= j < q.len() && i != j implies q[i]
        != q[j] by {}
}

/// No move is of two parts.
proof fn lemma_parts_apart(s: GameState, maps: &MoveMaps, j: int, k: int, m: Move)
    requires
        sound_boards(s),
        maps.valid(),
        0 <= j < k < 8,
    ensures
        !(of_part(s, maps, j, m) && of_part(s, maps, k, m)),
{
    lemma_codes();
    let from = from_of(m);
    let to = to_of(m);
    s.friendly().lemma_exclusive(from);
    if j == 2 && k == 4 && of_part(s, maps, 2, m) && of_part(s, maps, 4, m) {
        let a = choose|a: int| 0 <= a < 4 && #[trigger] on_kth(maps, true, a, from, to);
        let b = choose|b: int| 0 <= b < 4 && #[trigger] on_kth(maps, false, b, from, to);
        let (ra, fa, ga) = ray_of(maps, true, a, from);
        let (rb, fb, gb) = ray_of(maps, false, b, from);
        assert(holds(ra, to) == on_ray(fa, ga, from, to));
        assert(holds(rb, to) == on_ray(fb, gb, from, to));
        lemma_one_ray(fa, ga, fb, gb, from, to);
    }
}

/// The move is of one of the first `n` parts.
pub open spec fn of_parts_upto(s: GameState, maps: &MoveMaps, n: int, m: Move) -> bool {
    exists|k: int| 0 <= k < n && #[trigger] of_part(s, maps, k, m)
}

/// The first `n` parts, one after the other.
pub open spec fn parts_upto(s: GameState, maps: &MoveMaps, n: int) -> Seq<Move>
    decreases n,
{
    if n <= 0 {
        Seq::empty()
    } else {
        parts_upto(s, maps, n - 1) + part(s, maps, n - 1)
    }
}

proof fn lemma_parts_no_duplicates(s: GameState, maps: &MoveMaps, n: int)
    requires
        sound_boards(s),
        maps.valid(),
        0 <= n <= 8,
    ensures
        parts_upto(s, maps, n).no_duplicates(),
        forall|i: int|
            0 <= i < parts_upto(s, maps, n).len() ==> of_parts_upto(
                s,
                maps,
                n,
                #[trigger] parts_upto(s, maps, n)[i],
            ),
    decreases n,
{
    if n > 0 {
        let a = parts_upto(s, maps, n - 1);
        let b = part(s, maps, n - 1);
        lemma_parts_no_duplicates(s, maps, n - 1);
        lemma_part_shaped(s, maps, n - 1);
        assert forall|i: int, j: int| 0 <= i < a.len() && 0 <= j < b.len() implies a[i] != b[j] by {
            assert(of_parts_upto(s, maps, n - 1, a[i]));
            let k = choose|k: int| 0 <= k < n - 1 && #[trigger] of_part(s, maps, k, a[i]);
            assert(of_part(s, maps, n - 1, b[j]));
            lemma_parts_apart(s, maps, k, n - 1, a[i]);
        }
        lemma_concat_no_duplicates(a, b);
        let all = parts_upto(s, maps, n);
        assert forall|i: int| 0 <= i < all.len() implies of_parts_upto(
            s,
            maps,
            n,
            #[trigger] all[i],
        ) by {
            if i < a.len() {
                assert(all[i] == a[i]);
                assert(of_parts_upto(s, maps, n - 1, a[i]));
                let k = choose|k: int| 0 <= k < n - 1 && #[trigger] of_part(s, maps, k, a[i]);
                assert(0 <= k < n && of_part(s, maps, k, all[i]));
            } else {
                assert(all[i] == b[i - a.len()]);
                assert(of_part(s, maps, n - 1, b[i - a.len()]));
            }
        }
    }
}

/// No pseudo-legal move is generated twice.
pub proof fn lemma_generated_once(s: GameState, maps: &MoveMaps)
    requires
        sound_boards(s),
        maps.valid(),
    ensures
        pseudo_moves(s, maps).no_duplicates(),
{
    lemma_parts_no_duplicates(s, maps, 8);
    let p = |k: int| part(s, maps, k);
    assert(parts_upto(s, maps, 0) =~= Seq::<Move>::empty());
    assert(parts_upto(s, maps, 1) =~= p(0));
    assert(parts_upto(s, maps, 2) =~= p(0) + p(1));
    assert(parts_upto(s, maps, 3) =~= p(0) + p(1) + p(2));
    assert(parts_upto(s, maps, 4) =~= p(0) + p(1) + p(2) + p(3));
    assert(parts_upto(s, maps, 5) =~= p(0) + p(1) + p(2) + p(3) + p(4));
    assert(parts_upto(s, maps, 6) =~= p(0) + p(1) + p(2) + p(3) + p(4) + p(5));
    assert(parts_upto(s, maps, 7) =~= p(0) + p(1) + p(2) + p(3) + p(4) + p(5) + p(6));
    assert(parts_upto(s, maps, 8) =~= p(0) + p(1) + p(2) + p(3) + p(4) + p(5) + p(6) + p(7));
    assert(pseudo_moves(s, maps) == p(0) + p(1) + p(2) + p(3) + p(4) + p(5) + p(6) + p(7));
}

} // verus!
