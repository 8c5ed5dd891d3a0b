//! Attack detection and move generation agree: a square that holds a piece of
//! the side that is not to move is attacked exactly when a pseudo-legal move
//! goes to it.

use vstd::prelude::*;
use crate::attacks::{
    attacked, attacks_from, clear_ray, diagonal_attack, is_direction, straight_attack,
};
use crate::bitboard::is_single;
use crate::bits::{holds, lsb, lemma_lsb};
use crate::chess_board::PieceType;
use crate::color::Color;
use crate::game_state::GameState;
use crate::generation::{
    castle_moves, castle_path, diagonal_from, diagonal_moves, each_square, king_moves, knight_from,
    one, pawn_attack_board, pawn_capture_moves, pawn_double_board, pawn_from, pawn_passive,
    pseudo_moves, push_moves, straight_from, straight_moves, will_promote,
};
use crate::laws::{lemma_single_bit, lemma_single_member};
use crate::move_maps::{MoveMaps, king_step, knight_step, on_ray, pawn_attack};
use crate::moves::{
    Move, encode, from_of, to_of, code_of, lemma_encode, lemma_codes, capture_code,
    QUIET_MOVE, DOUBLE_PAWN_PUSH, KING_CASTLE, QUEEN_CASTLE, CAPTURE, EN_PASSANT,
    KNIGHT_PROMOTION, BISHOP_PROMOTION, ROOK_PROMOTION, QUEEN_PROMOTION,
    KNIGHT_PROMOTION_CAPTURE, BISHOP_PROMOTION_CAPTURE, ROOK_PROMOTION_CAPTURE,
    QUEEN_PROMOTION_CAPTURE,
};
use crate::soundness::{
    lemma_all_occupancy, lemma_concat_contains, lemma_gather_up_member, lemma_leaper_member,
    lemma_pawn_tables, lemma_ray_member, lemma_targets_member, plain_move, ray_moves,
};

verus! {

/// What the agreement needs of a position: no square holds two pieces, and the
/// side to move has one king.
pub open spec fn sound_boards(s: GameState) -> bool {
    s.boards.disjoint() && is_single(s.friendly().king)
}

/// The move goes to `t` and captures there, but not en passant.
pub open spec fn captures_on(m: Move, t: u8) -> bool {
    to_of(m) == t && capture_code(code_of(m)) && code_of(m) != EN_PASSANT
}

/// A plain move to an occupied square is a capture there.
pub proof fn lemma_plain_capture(own: u64, enemy: u64, from: u8, to: u8, m: Move)
    requires
        from < 64,
        plain_move(own, enemy, from, to, m),
    ensures
        to_of(m) == to,
        from_of(m) == from,
        holds(enemy, to) ==> captures_on(m, to),
        !holds(enemy, to) ==> code_of(m) == QUIET_MOVE,
{
    lemma_codes();
    lemma_encode(from, to, CAPTURE);
    lemma_encode(from, to, QUIET_MOVE);
}

/// A slider on `from` attacks `t`, along a diagonal or along a rank or file.
pub open spec fn slides(occ: u64, diagonal: bool, from: u8, t: u8) -> bool {
    if diagonal {
        diagonal_attack(occ, from, t)
    } else {
        straight_attack(occ, from, t)
    }
}

/// The moves of the pieces of one kind along their rays.
pub open spec fn slider_part(s: GameState, maps: &MoveMaps, p: PieceType, diagonal: bool) -> Seq<Move> {
    let own = s.friendly().occupancy();
    let enemy = s.enemy().occupancy();
    if diagonal {
        each_square(s.friendly().board(p), diagonal_from(maps, own, enemy))
    } else {
        each_square(s.friendly().board(p), straight_from(maps, own, enemy))
    }
}

/// The four rays of a slider on `from`, with their directions.
pub open spec fn ray_of(maps: &MoveMaps, diagonal: bool, k: int, from: u8) -> (u64, int, int) {
    if diagonal {
        if k == 0 {
            (maps.ne_diagonal.targets(from), 1, 1)
        } else if k == 1 {
            (maps.nw_diagonal.targets(from), -1, 1)
        } else if k == 2 {
            (maps.se_diagonal.targets(from), 1, -1)
        } else {
            (maps.sw_diagonal.targets(from), -1, -1)
        }
    } else {
        if k == 0 {
            (maps.n_file.targets(from), 0, 1)
        } else if k == 1 {
            (maps.s_file.targets(from), 0, -1)
        } else if k == 2 {
            (maps.e_rank.targets(from), 1, 0)
        } else {
            (maps.w_rank.targets(from), -1, 0)
        }
    }
}

/// The moves of a slider on `from` along ray number `k`.
pub open spec fn ray_moves_of(
    maps: &MoveMaps,
    diagonal: bool,
    k: int,
    from: u8,
    own: u64,
    enemy: u64,
) -> Seq<Move> {
    let (ray, df, dr) = ray_of(maps, diagonal, k, from);
    ray_moves(8 * dr + df > 0, from, ray, own, enemy)
}

/// A move is among those of a slider on `from` exactly when it is among those
/// along one of its four rays.
pub proof fn lemma_slider_rays(
    s: GameState,
    maps: &MoveMaps,
    diagonal: bool,
    from: u8,
    m: Move,
)
    requires
        maps.valid(),
        from < 64,
    ensures
        ({
            let own = s.friendly().occupancy();
            let enemy = s.enemy().occupancy();
            let all = if diagonal {
                diagonal_moves(maps, from, own, enemy)
            } else {
                straight_moves(maps, from, own, enemy)
            };
            all.contains(m) == exists|k: int|
                0 <= k < 4 && #[trigger] ray_moves_of(maps, diagonal, k, from, own, enemy).contains(m)
        }),
        forall|k: int, t: u8|
            0 <= k < 4 ==> #[trigger] holds(ray_of(maps, diagonal, k, from).0, t) == on_ray(
                ray_of(maps, diagonal, k, from).1,
                ray_of(maps, diagonal, k, from).2,
                from,
                t,
            ),
        forall|k: int|
            0 <= k < 4 ==> is_direction(
                (#[trigger] ray_of(maps, diagonal, k, from)).1,
                ray_of(maps, diagonal, k, from).2,
            ),
{
    let own = s.friendly().occupancy();
    let enemy = s.enemy().occupancy();
    let r = |k: int| ray_moves_of(maps, diagonal, k, from, own, enemy);
    let all = if diagonal {
        diagonal_moves(maps, from, own, enemy)
    } else {
        straight_moves(maps, from, own, enemy)
    };
    assert(all == r(0) + r(1) + r(2) + r(3));
    lemma_concat_contains(r(0) + r(1) + r(2), r(3), m);
    lemma_concat_contains(r(0) + r(1), r(2), m);
    lemma_concat_contains(r(0), r(1), m);
    if all.contains(m) {
        let k: int = if r(0).contains(m) {
            0
        } else if r(1).contains(m) {
            1
        } else if r(2).contains(m) {
            2
        } else {
            3
        };
        assert(0 <= k < 4 && r(k).contains(m));
    }
}

/// A move of a slider to an occupied square is backed by an attack along a ray,
/// and each such attack gives a move.
proof fn lemma_slider_agrees(
    s: GameState,
    maps: &MoveMaps,
    p: PieceType,
    diagonal: bool,
    t: u8,
)
    requires
        sound_boards(s),
        maps.valid(),
        holds(s.enemy().occupancy(), t),
        if diagonal {
            p == PieceType::Bishop || p == PieceType::Queen
        } else {
            p == PieceType::Rook || p == PieceType::Queen
        },
    ensures
        (exists|m: Move| slider_part(s, maps, p, diagonal).contains(m) && to_of(m) == t)
            == exists|from: u8|
            holds(s.friendly().board(p), from) && #[trigger] slides(
                s.boards.occupancy(),
                diagonal,
                from,
                t,
            ),
        forall|m: Move|
            slider_part(s, maps, p, diagonal).contains(m) && to_of(m) == t ==> captures_on(m, t),
{
    let own = s.friendly().occupancy();
    let enemy = s.enemy().occupancy();
    let occ = s.boards.occupancy();
    let board = s.friendly().board(p);
    let f = if diagonal { diagonal_from(maps, own, enemy) } else { straight_from(maps, own, enemy) };
    lemma_all_occupancy(s);
    assert forall|x: u8| !(holds(own, x) && holds(enemy, x)) by {
        s.boards.white.lemma_occupancy(x);
        assert(!(holds(s.boards.white.occupancy(), x) && holds(s.boards.black.occupancy(), x)));
    }
    // Each move to `t` comes from a slider that attacks `t`.
    assert forall|m: Move|
        slider_part(s, maps, p, diagonal).contains(m) && to_of(m) == t implies captures_on(m, t)
        && exists|from: u8|
        holds(board, from) && #[trigger] slides(occ, diagonal, from, t) by {
        lemma_gather_up_member(board, 0, 64, f, m);
        let from = choose|x: u8| 0 <= x < 64 && holds(board, x) && #[trigger] f(x).contains(m);
        lemma_slider_rays(s, maps, diagonal, from, m);
        let k = choose|k: int|
            0 <= k < 4 && #[trigger] ray_moves_of(maps, diagonal, k, from, own, enemy).contains(m);
        let (ray, df, dr) = ray_of(maps, diagonal, k, from);
        assert(is_direction(df, dr));
        assert forall|x: u8| #[trigger] holds(ray, x) == on_ray(df, dr, from, x) by {
            assert(holds(ray_of(maps, diagonal, k, from).0, x) == on_ray(df, dr, from, x));
        }
        lemma_ray_member(from, ray, own, enemy, df, dr, m);
        let to = choose|to: u8|
            clear_ray(own | enemy, df, dr, from, to) && #[trigger] plain_move(own, enemy, from, to, m);
        lemma_plain_capture(own, enemy, from, to, m);
        assert(clear_ray(occ, df, dr, from, t));
        assert(holds(board, from) && slides(occ, diagonal, from, t));
    }
    // Each attack gives the capture on `t`.
    if exists|from: u8|
        holds(board, from) && #[trigger] slides(occ, diagonal, from, t) {
        let from = choose|from: u8|
            holds(board, from) && #[trigger] slides(occ, diagonal, from, t);
        let m = encode(from, t, CAPTURE);
        let k: int = if diagonal {
            if clear_ray(occ, 1, 1, from, t) {
                0
            } else if clear_ray(occ, -1, 1, from, t) {
                1
            } else if clear_ray(occ, 1, -1, from, t) {
                2
            } else {
                3
            }
        } else {
            if clear_ray(occ, 0, 1, from, t) {
                0
            } else if clear_ray(occ, 0, -1, from, t) {
                1
            } else if clear_ray(occ, 1, 0, from, t) {
                2
            } else {
                3
            }
        };
        let (ray, df, dr) = ray_of(maps, diagonal, k, from);
        assert(clear_ray(own | enemy, df, dr, from, t));
        lemma_slider_rays(s, maps, diagonal, from, m);
        assert forall|x: u8| #[trigger] holds(ray, x) == on_ray(df, dr, from, x) by {
            assert(holds(ray_of(maps, diagonal, k, from).0, x) == on_ray(df, dr, from, x));
        }
        lemma_ray_member(from, ray, own, enemy, df, dr, m);
        assert(!holds(own, t));
        assert(plain_move(own, enemy, from, t, m));
        assert(ray_moves_of(maps, diagonal, k, from, own, enemy).contains(m));
        assert(f(from).contains(m));
        lemma_gather_up_member(board, 0, 64, f, m);
        assert(0 <= from < 64 && holds(board, from) && f(from).contains(m));
        lemma_plain_capture(own, enemy, from, t, m);
        assert(slider_part(s, maps, p, diagonal).contains(m) && to_of(m) == t);
    }
}

/// The knights: a move to `t` for each knight that attacks `t`.
proof fn lemma_knight_agrees(s: GameState, maps: &MoveMaps, t: u8)
    requires
        sound_boards(s),
        maps.valid(),
        holds(s.enemy().occupancy(), t),
    ensures
        (exists|m: Move|
            each_square(
                s.friendly().knight,
                knight_from(maps, s.friendly().occupancy(), s.enemy().occupancy()),
            ).contains(m) && to_of(m) == t) == exists|from: u8|
            holds(s.friendly().knight, from) && #[trigger] knight_step(from, t),
        forall|m: Move|
            each_square(
                s.friendly().knight,
                knight_from(maps, s.friendly().occupancy(), s.enemy().occupancy()),
            ).contains(m) && to_of(m) == t ==> captures_on(m, t),
{
    let own = s.friendly().occupancy();
    let enemy = s.enemy().occupancy();
    let f = knight_from(maps, own, enemy);
    let part = each_square(s.friendly().knight, f);
    lemma_all_occupancy(s);
    assert forall|m: Move| part.contains(m) && to_of(m) == t implies captures_on(m, t) && exists|
        from: u8,
    | holds(s.friendly().knight, from) && #[trigger] knight_step(from, t) by {
        lemma_gather_up_member(s.friendly().knight, 0, 64, f, m);
        let from = choose|x: u8|
            0 <= x < 64 && holds(s.friendly().knight, x) && #[trigger] f(x).contains(m);
        lemma_leaper_member(from, maps.knight.targets(from), own, enemy, m);
        let to = choose|to: u8|
            holds(maps.knight.targets(from), to) && #[trigger] plain_move(own, enemy, from, to, m);
        lemma_plain_capture(own, enemy, from, to, m);
        assert(holds(s.friendly().knight, from) && knight_step(from, t));
    }
    if exists|from: u8| holds(s.friendly().knight, from) && #[trigger] knight_step(from, t) {
        let from = choose|from: u8| holds(s.friendly().knight, from) && #[trigger] knight_step(from, t);
        let m = encode(from, t, CAPTURE);
        assert(!holds(own, t)) by {
            s.boards.white.lemma_occupancy(t);
            assert(!(holds(s.boards.white.occupancy(), t) && holds(s.boards.black.occupancy(), t)));
        }
        assert(holds(maps.knight.targets(from), t) && plain_move(own, enemy, from, t, m));
        lemma_leaper_member(from, maps.knight.targets(from), own, enemy, m);
        assert(f(from).contains(m));
        lemma_gather_up_member(s.friendly().knight, 0, 64, f, m);
        assert(0 <= from < 64 && holds(s.friendly().knight, from) && f(from).contains(m));
        lemma_plain_capture(own, enemy, from, t, m);
        assert(part.contains(m) && to_of(m) == t);
    }
}

/// The king: a move to `t` exactly when the king attacks `t`.
proof fn lemma_king_agrees(s: GameState, maps: &MoveMaps, t: u8)
    requires
        sound_boards(s),
        maps.valid(),
        holds(s.enemy().occupancy(), t),
    ensures
        (exists|m: Move| king_moves(s, maps).contains(m) && to_of(m) == t) == exists|from: u8|
            holds(s.friendly().king, from) && #[trigger] king_step(from, t),
        forall|m: Move| king_moves(s, maps).contains(m) && to_of(m) == t ==> captures_on(m, t),
{
    let own = s.friendly().occupancy();
    let enemy = s.enemy().occupancy();
    let king = lsb(s.friendly().king);
    lemma_lsb(s.friendly().king);
    lemma_all_occupancy(s);
    assert forall|m: Move| king_moves(s, maps).contains(m) && to_of(m) == t implies captures_on(
        m,
        t,
    ) && exists|from: u8| holds(s.friendly().king, from) && #[trigger] king_step(from, t) by {
        lemma_leaper_member(king, maps.king.targets(king), own, enemy, m);
        let to = choose|to: u8|
            holds(maps.king.targets(king), to) && #[trigger] plain_move(own, enemy, king, to, m);
        lemma_plain_capture(own, enemy, king, to, m);
        assert(holds(s.friendly().king, king) && king_step(king, t));
    }
    if exists|from: u8| holds(s.friendly().king, from) && #[trigger] king_step(from, t) {
        let from = choose|from: u8| holds(s.friendly().king, from) && #[trigger] king_step(from, t);
        lemma_single_member(s.friendly().king, from);
        lemma_single_bit(from);
        assert(from == king);
        let m = encode(king, t, CAPTURE);
        assert(!holds(own, t)) by {
            s.boards.white.lemma_occupancy(t);
            assert(!(holds(s.boards.white.occupancy(), t) && holds(s.boards.black.occupancy(), t)));
        }
        assert(holds(maps.king.targets(king), t) && plain_move(own, enemy, king, t, m));
        lemma_leaper_member(king, maps.king.targets(king), own, enemy, m);
        lemma_plain_capture(own, enemy, king, t, m);
        assert(king_moves(s, maps).contains(m) && to_of(m) == t);
    }
}

/// The pawns: a move to `t` exactly when a pawn attacks `t`.
proof fn lemma_pawn_agrees(s: GameState, maps: &MoveMaps, t: u8)
    requires
        sound_boards(s),
        maps.valid(),
        holds(s.enemy().occupancy(), t),
    ensures
        (exists|m: Move|
            each_square(s.friendly().pawn, pawn_from(s, maps)).contains(m) && to_of(m) == t)
            == exists|from: u8|
            holds(s.friendly().pawn, from) && #[trigger] pawn_attack(s.flags.active, from, t),
        forall|m: Move|
            each_square(s.friendly().pawn, pawn_from(s, maps)).contains(m) && to_of(m) == t
                ==> captures_on(m, t),
{
    lemma_codes();
    let c = s.flags.active;
    let mine = s.friendly();
    let enemy = s.enemy().occupancy();
    let f = pawn_from(s, maps);
    let part = each_square(mine.pawn, f);
    lemma_all_occupancy(s);
    crate::bits::lemma_holds_or(mine.occupancy(), enemy, t);
    assert forall|m: Move| part.contains(m) && to_of(m) == t implies captures_on(m, t) && exists|
        from: u8,
    | holds(mine.pawn, from) && #[trigger] pawn_attack(c, from, t) by {
        lemma_gather_up_member(mine.pawn, 0, 64, f, m);
        let from = choose|x: u8| 0 <= x < 64 && holds(mine.pawn, x) && #[trigger] f(x).contains(m);
        let promote = will_promote(s, from);
        let pushes = each_square(pawn_passive(s, maps, from), push_moves(from, promote));
        let doubles = each_square(pawn_double_board(s, maps, from), one(from, DOUBLE_PAWN_PUSH));
        let g = pawn_capture_moves(from, promote, s.en_passant, enemy);
        let captures = each_square(pawn_attack_board(s, maps, from), g);
        assert(f(from) == pushes + doubles + captures);
        lemma_concat_contains(pushes + doubles, captures, m);
        lemma_concat_contains(pushes, doubles, m);
        if pushes.contains(m) {
            let h = push_moves(from, promote);
            lemma_gather_up_member(pawn_passive(s, maps, from), 0, 64, h, m);
            let to = choose|x: u8|
                0 <= x < 64 && holds(pawn_passive(s, maps, from), x) && #[trigger] h(x).contains(m);
            lemma_pawn_tables(s, maps, from, to);
            let hs = h(to);
            let i = choose|i: int| 0 <= i < hs.len() && hs[i] == m;
            lemma_encode(from, to, QUEEN_PROMOTION);
            lemma_encode(from, to, ROOK_PROMOTION);
            lemma_encode(from, to, BISHOP_PROMOTION);
            lemma_encode(from, to, KNIGHT_PROMOTION);
            lemma_encode(from, to, QUIET_MOVE);
            assert(to == t);
            assert(false);
        } else if doubles.contains(m) {
            lemma_targets_member(
                pawn_double_board(s, maps, from),
                0,
                64,
                from,
                DOUBLE_PAWN_PUSH,
                m,
            );
            let to = choose|to: u8|
                0 <= to < 64 && #[trigger] holds(pawn_double_board(s, maps, from), to) && m
                    == encode(from, to, DOUBLE_PAWN_PUSH);
            lemma_pawn_tables(s, maps, from, to);
            lemma_encode(from, to, DOUBLE_PAWN_PUSH);
            assert(to == t);
            assert(false);
        } else {
            lemma_gather_up_member(pawn_attack_board(s, maps, from), 0, 64, g, m);
            let to = choose|x: u8|
                0 <= x < 64 && holds(pawn_attack_board(s, maps, from), x) && #[trigger] g(
                    x,
                ).contains(m);
            lemma_pawn_tables(s, maps, from, to);
            let gs = g(to);
            let i = choose|i: int| 0 <= i < gs.len() && gs[i] == m;
            lemma_encode(from, to, QUEEN_PROMOTION_CAPTURE);
            lemma_encode(from, to, ROOK_PROMOTION_CAPTURE);
            lemma_encode(from, to, BISHOP_PROMOTION_CAPTURE);
            lemma_encode(from, to, KNIGHT_PROMOTION_CAPTURE);
            lemma_encode(from, to, EN_PASSANT);
            lemma_encode(from, to, CAPTURE);
            assert(to == t);
            assert(holds(mine.pawn, from) && pawn_attack(c, from, t));
        }
    }
    if exists|from: u8| holds(mine.pawn, from) && #[trigger] pawn_attack(c, from, t) {
        let from = choose|from: u8| holds(mine.pawn, from) && #[trigger] pawn_attack(c, from, t);
        let promote = will_promote(s, from);
        let pushes = each_square(pawn_passive(s, maps, from), push_moves(from, promote));
        let doubles = each_square(pawn_double_board(s, maps, from), one(from, DOUBLE_PAWN_PUSH));
        let g = pawn_capture_moves(from, promote, s.en_passant, enemy);
        let captures = each_square(pawn_attack_board(s, maps, from), g);
        lemma_pawn_tables(s, maps, from, t);
        let m = g(t)[0];
        assert(g(t).contains(m));
        lemma_gather_up_member(pawn_attack_board(s, maps, from), 0, 64, g, m);
        assert(0 <= t < 64 && holds(pawn_attack_board(s, maps, from), t) && g(t).contains(m));
        assert(f(from) == pushes + doubles + captures);
        lemma_concat_contains(pushes + doubles, captures, m);
        lemma_gather_up_member(mine.pawn, 0, 64, f, m);
        assert(0 <= from < 64 && holds(mine.pawn, from) && f(from).contains(m));
        lemma_encode(from, t, QUEEN_PROMOTION_CAPTURE);
        lemma_encode(from, t, CAPTURE);
        assert(part.contains(m) && to_of(m) == t);
    }
}

/// No castle goes to an occupied square.
proof fn lemma_castle_agrees(s: GameState, t: u8)
    requires
        holds(s.enemy().occupancy(), t),
    ensures
        forall|m: Move| castle_moves(s).contains(m) ==> to_of(m) != t,
{
    lemma_codes();
    let white = s.flags.active == Color::White;
    let e = Seq::<Move>::empty();
    let a = if white && s.flags.white_king && castle_path(s, seq![5u8, 6u8], seq![4u8, 5u8]) {
        seq![encode(4, 6, KING_CASTLE)]
    } else {
        e
    };
    let b = if white && s.flags.white_queen && castle_path(
        s,
        seq![1u8, 2u8, 3u8],
        seq![3u8, 4u8],
    ) {
        seq![encode(4, 2, QUEEN_CASTLE)]
    } else {
        e
    };
    let c = if !white && s.flags.black_king && castle_path(
        s,
        seq![61u8, 62u8],
        seq![60u8, 61u8],
    ) {
        seq![encode(60, 62, KING_CASTLE)]
    } else {
        e
    };
    let d = if !white && s.flags.black_queen && castle_path(
        s,
        seq![57u8, 58u8, 59u8],
        seq![59u8, 60u8],
    ) {
        seq![encode(60, 58, QUEEN_CASTLE)]
    } else {
        e
    };
    assert(castle_moves(s) == a + b + c + d);
    lemma_encode(4, 6, KING_CASTLE);
    lemma_encode(4, 2, QUEEN_CASTLE);
    lemma_encode(60, 62, KING_CASTLE);
    lemma_encode(60, 58, QUEEN_CASTLE);
    crate::bits::lemma_holds_or(s.friendly().occupancy(), s.enemy().occupancy(), t);
    assert forall|m: Move| castle_moves(s).contains(m) implies to_of(m) != t by {
        lemma_concat_contains(a + b + c, d, m);
        lemma_concat_contains(a + b, c, m);
        lemma_concat_contains(a, b, m);
        if a.contains(m) {
            assert(a[0] == m);
            let free = seq![5u8, 6u8];
            assert(!holds(s.friendly().occupancy() | s.enemy().occupancy(), free[1]));
        } else if b.contains(m) {
            assert(b[0] == m);
            let free = seq![1u8, 2u8, 3u8];
            assert(!holds(s.friendly().occupancy() | s.enemy().occupancy(), free[1]));
        } else if c.contains(m) {
            assert(c[0] == m);
            let free = seq![61u8, 62u8];
            assert(!holds(s.friendly().occupancy() | s.enemy().occupancy(), free[1]));
        } else {
            assert(d[0] == m);
            let free = seq![57u8, 58u8, 59u8];
            assert(!holds(s.friendly().occupancy() | s.enemy().occupancy(), free[1]));
        }
    }
}

/// Attack detection agrees with the enumeration of moves: a square that holds a
/// piece of the side that is not to move is attacked by the side to move
/// exactly when one of its pseudo-legal moves goes to that square; and every
/// such move is a capture, but no capture en passant.
pub proof fn lemma_attacked_iff_move_generated(s: GameState, maps: &MoveMaps, t: u8)
    requires
        sound_boards(s),
        maps.valid(),
        holds(s.enemy().occupancy(), t),
    ensures
        attacked(s.boards, t, s.flags.active) == exists|m: Move|
            pseudo_moves(s, maps).contains(m) && to_of(m) == t,
        forall|m: Move| pseudo_moves(s, maps).contains(m) && to_of(m) == t ==> captures_on(m, t),
{
    let c = s.flags.active;
    let mine = s.friendly();
    let own = mine.occupancy();
    let enemy = s.enemy().occupancy();
    let occ = s.boards.occupancy();
    let pa = each_square(mine.knight, knight_from(maps, own, enemy));
    let pb = slider_part(s, maps, PieceType::Bishop, true);
    let pc = slider_part(s, maps, PieceType::Queen, true);
    let pd = slider_part(s, maps, PieceType::Rook, false);
    let pe = slider_part(s, maps, PieceType::Queen, false);
    let pf = each_square(mine.pawn, pawn_from(s, maps));
    let pg = king_moves(s, maps);
    let ph = castle_moves(s);
    assert(pseudo_moves(s, maps) == pa + pb + pc + pd + pe + pf + pg + ph);
    lemma_knight_agrees(s, maps, t);
    lemma_slider_agrees(s, maps, PieceType::Bishop, true, t);
    lemma_slider_agrees(s, maps, PieceType::Queen, true, t);
    lemma_slider_agrees(s, maps, PieceType::Rook, false, t);
    lemma_slider_agrees(s, maps, PieceType::Queen, false, t);
    lemma_pawn_agrees(s, maps, t);
    lemma_king_agrees(s, maps, t);
    lemma_castle_agrees(s, t);
    assert forall|m: Move|
        pseudo_moves(s, maps).contains(m) == (pa.contains(m) || pb.contains(m) || pc.contains(m)
            || pd.contains(m) || pe.contains(m) || pf.contains(m) || pg.contains(m) || ph.contains(
            m,
        )) by {
        lemma_concat_contains(pa + pb + pc + pd + pe + pf + pg, ph, m);
        lemma_concat_contains(pa + pb + pc + pd + pe + pf, pg, m);
        lemma_concat_contains(pa + pb + pc + pd + pe, pf, m);
        lemma_concat_contains(pa + pb + pc + pd, pe, m);
        lemma_concat_contains(pa + pb + pc, pd, m);
        lemma_concat_contains(pa + pb, pc, m);
        lemma_concat_contains(pa, pb, m);
    }
    let generated = exists|m: Move| pseudo_moves(s, maps).contains(m) && to_of(m) == t;
    if generated {
        let m = choose|m: Move| pseudo_moves(s, maps).contains(m) && to_of(m) == t;
        if pa.contains(m) {
            let from = choose|from: u8| holds(mine.knight, from) && #[trigger] knight_step(from, t);
            assert(attacks_from(s.boards, c, PieceType::Knight, from, t));
        } else if pb.contains(m) {
            let from = choose|from: u8|
                holds(mine.board(PieceType::Bishop), from) && #[trigger] slides(occ, true, from, t);
            assert(attacks_from(s.boards, c, PieceType::Bishop, from, t));
        } else if pc.contains(m) {
            let from = choose|from: u8|
                holds(mine.board(PieceType::Queen), from) && #[trigger] slides(occ, true, from, t);
            assert(attacks_from(s.boards, c, PieceType::Queen, from, t));
        } else if pd.contains(m) {
            let from = choose|from: u8|
                holds(mine.board(PieceType::Rook), from) && #[trigger] slides(occ, false, from, t);
            assert(attacks_from(s.boards, c, PieceType::Rook, from, t));
        } else if pe.contains(m) {
            let from = choose|from: u8|
                holds(mine.board(PieceType::Queen), from) && #[trigger] slides(occ, false, from, t);
            assert(attacks_from(s.boards, c, PieceType::Queen, from, t));
        } else if pf.contains(m) {
            let from = choose|from: u8| holds(mine.pawn, from) && #[trigger] pawn_attack(c, from, t);
            assert(attacks_from(s.boards, c, PieceType::Pawn, from, t));
        } else {
            assert(pg.contains(m));
            let from = choose|from: u8| holds(mine.king, from) && #[trigger] king_step(from, t);
            assert(attacks_from(s.boards, c, PieceType::King, from, t));
        }
    }
    if attacked(s.boards, t, c) {
        let (from, p) = choose|from: u8, p: PieceType| attacks_from(s.boards, c, p, from, t);
        match p {
            PieceType::Pawn => {
                assert(holds(mine.pawn, from) && pawn_attack(c, from, t));
                let m = choose|m: Move| pf.contains(m) && to_of(m) == t;
                assert(pseudo_moves(s, maps).contains(m) && to_of(m) == t);
            },
            PieceType::Knight => {
                assert(holds(mine.knight, from) && knight_step(from, t));
                let m = choose|m: Move| pa.contains(m) && to_of(m) == t;
                assert(pseudo_moves(s, maps).contains(m) && to_of(m) == t);
            },
            PieceType::Bishop => {
                assert(holds(mine.board(PieceType::Bishop), from) && slides(occ, true, from, t));
                let m = choose|m: Move| pb.contains(m) && to_of(m) == t;
                assert(pseudo_moves(s, maps).contains(m) && to_of(m) == t);
            },
            PieceType::Rook => {
                assert(holds(mine.board(PieceType::Rook), from) && slides(occ, false, from, t));
                let m = choose|m: Move| pd.contains(m) && to_of(m) == t;
                assert(pseudo_moves(s, maps).contains(m) && to_of(m) == t);
            },
            PieceType::Queen => {
                if diagonal_attack(occ, from, t) {
                    assert(holds(mine.board(PieceType::Queen), from) && slides(occ, true, from, t));
                    let m = choose|m: Move| pc.contains(m) && to_of(m) == t;
                    assert(pseudo_moves(s, maps).contains(m) && to_of(m) == t);
                } else {
                    assert(holds(mine.board(PieceType::Queen), from) && slides(occ, false, from, t));
                    let m = choose|m: Move| pe.contains(m) && to_of(m) == t;
                    assert(pseudo_moves(s, maps).contains(m) && to_of(m) == t);
                }
            },
            PieceType::King => {
                assert(holds(mine.king, from) && king_step(from, t));
                let m = choose|m: Move| pg.contains(m) && to_of(m) == t;
                assert(pseudo_moves(s, maps).contains(m) && to_of(m) == t);
            },
        }
    }
}

} // verus!
