//! Every generated move fits the position it was generated for.

use vstd::prelude::*;
use crate::attacks::{
    attacked, attacks_from, clear_ray, is_direction, lemma_ray_order, piece_attacks,
};

use crate::bits::{holds, lsb, msb, lemma_lsb, lemma_msb, group_holds};
use crate::chess_board::PieceType;
use crate::color::Color;
use crate::game_state::GameState;
use crate::generation::{
    castle_moves, castle_path, diagonal_from, each_square, gather_down, gather_up, king_moves,
    knight_from, leaper_moves, one, pawn_attack_board, pawn_capture_moves, pawn_double_board,
    pawn_from, pawn_passive, pseudo_moves, push_moves, ray_down_moves, ray_up_moves, straight_from,
    will_promote,
};
use crate::laws::{lemma_single_bit, lemma_single_member};
use crate::make_unmake::{captured, capture_square, in_range};
use crate::move_maps::{
    MoveMaps, king_step, knight_step, on_ray, pawn_attack, pawn_double, pawn_push, steps,
};
use crate::moves::{
    Move, MoveCode, encode, code_of, lemma_encode, lemma_codes, castle_code, QUIET_MOVE,
    DOUBLE_PAWN_PUSH, KING_CASTLE, QUEEN_CASTLE, CAPTURE, EN_PASSANT, KNIGHT_PROMOTION,
    BISHOP_PROMOTION, ROOK_PROMOTION, QUEEN_PROMOTION, KNIGHT_PROMOTION_CAPTURE,
    BISHOP_PROMOTION_CAPTURE, ROOK_PROMOTION_CAPTURE, QUEEN_PROMOTION_CAPTURE,
};
use crate::rules::{applicable, castle_fits, step_fits, well_formed};

verus! {

/// The position is well formed and the side that is not to move is not in check.
pub open spec fn playable(s: GameState) -> bool {
    &&& well_formed(s)
    &&& !attacked(s.boards, lsb(s.enemy().king), s.flags.active)
}

/// A move is in a concatenation when it is in one of the two parts.
pub proof fn lemma_concat_contains(a: Seq<Move>, b: Seq<Move>, m: Move)
    ensures
        (a + b).contains(m) == (a.contains(m) || b.contains(m)),
{
    if (a + b).contains(m) {
        let i = choose|i: int| 0 <= i < (a + b).len() && (a + b)[i] == m;
        if i < a.len() {
            assert(a[i] == m);
        } else {
            assert(b[i - a.len()] == m);
        }
    }
    if a.contains(m) {
        let i = choose|i: int| 0 <= i < a.len() && a[i] == m;
        assert((a + b)[i] == m);
    }
    if b.contains(m) {
        let i = choose|i: int| 0 <= i < b.len() && b[i] == m;
        assert((a + b)[i + a.len()] == m);
    }
}

/// What is gathered comes from one of the squares of the board in the range.
pub proof fn lemma_gather_up_member(
    b: u64,
    lo: int,
    hi: int,
    f: spec_fn(u8) -> Seq<Move>,
    m: Move,
)
    requires
        0 <= lo,
        hi <= 64,
    ensures
        gather_up(b, lo, hi, f).contains(m) == exists|x: u8|
            lo <= x < hi && holds(b, x) && #[trigger] f(x).contains(m),
    decreases hi - lo,
{
    if lo < hi {
        let head = if holds(b, lo as u8) { f(lo as u8) } else { Seq::<Move>::empty() };
        let rest = gather_up(b, lo + 1, hi, f);
        lemma_concat_contains(head, rest, m);
        lemma_gather_up_member(b, lo + 1, hi, f, m);
        if head.contains(m) {
            let x = lo as u8;
            assert(lo <= x < hi && holds(b, x) && f(x).contains(m));
        }
        if rest.contains(m) {
            let x = choose|x: u8| lo + 1 <= x < hi && holds(b, x) && #[trigger] f(x).contains(m);
            assert(lo <= x < hi && holds(b, x) && f(x).contains(m));
        }
        if exists|x: u8| lo <= x < hi && holds(b, x) && #[trigger] f(x).contains(m) {
            let x = choose|x: u8| lo <= x < hi && holds(b, x) && #[trigger] f(x).contains(m);
            if x == lo {
                assert(head.contains(m));
            } else {
                assert(lo + 1 <= x < hi && holds(b, x) && f(x).contains(m));
            }
        }
    }
}

pub proof fn lemma_gather_down_member(
    b: u64,
    lo: int,
    hi: int,
    f: spec_fn(u8) -> Seq<Move>,
    m: Move,
)
    requires
        0 <= lo,
        hi <= 64,
    ensures
        gather_down(b, lo, hi, f).contains(m) == exists|x: u8|
            lo <= x < hi && holds(b, x) && #[trigger] f(x).contains(m),
    decreases hi - lo,
{
    if lo < hi {
        let top = (hi - 1) as u8;
        let head = if holds(b, top) { f(top) } else { Seq::<Move>::empty() };
        let rest = gather_down(b, lo, hi - 1, f);
        lemma_concat_contains(head, rest, m);
        lemma_gather_down_member(b, lo, hi - 1, f, m);
        if head.contains(m) {
            assert(lo <= top < hi && holds(b, top) && f(top).contains(m));
        }
        if rest.contains(m) {
            let x = choose|x: u8| lo <= x < hi - 1 && holds(b, x) && #[trigger] f(x).contains(m);
            assert(lo <= x < hi && holds(b, x) && f(x).contains(m));
        }
        if exists|x: u8| lo <= x < hi && holds(b, x) && #[trigger] f(x).contains(m) {
            let x = choose|x: u8| lo <= x < hi && holds(b, x) && #[trigger] f(x).contains(m);
            if x == top {
                assert(head.contains(m));
            } else {
                assert(lo <= x < hi - 1 && holds(b, x) && f(x).contains(m));
            }
        }
    }
}

/// The moves with one code to each square of a board.
pub proof fn lemma_targets_member(b: u64, lo: int, hi: int, from: u8, code: MoveCode, m: Move)
    requires
        0 <= lo,
        hi <= 64,
    ensures
        gather_up(b, lo, hi, one(from, code)).contains(m) == exists|to: u8|
            lo <= to < hi && #[trigger] holds(b, to) && m == encode(from, to, code),
        gather_down(b, lo, hi, one(from, code)).contains(m) == exists|to: u8|
            lo <= to < hi && #[trigger] holds(b, to) && m == encode(from, to, code),
{
    let f = one(from, code);
    lemma_gather_up_member(b, lo, hi, f, m);
    lemma_gather_down_member(b, lo, hi, f, m);
    if exists|x: u8| lo <= x < hi && holds(b, x) && #[trigger] f(x).contains(m) {
        let x = choose|x: u8| lo <= x < hi && holds(b, x) && #[trigger] f(x).contains(m);
        assert(f(x)[0] == encode(from, x, code));
        assert(lo <= x < hi && holds(b, x) && m == encode(from, x, code));
    }
    if exists|to: u8| lo <= to < hi && #[trigger] holds(b, to) && m == encode(from, to, code) {
        let to = choose|to: u8| lo <= to < hi && #[trigger] holds(b, to) && m == encode(from, to, code);
        assert(f(to)[0] == m);
        assert(lo <= to < hi && holds(b, to) && f(to).contains(m));
    }
}

/// A capture of what stands on the target, or a quiet move to a free target.
pub open spec fn plain_move(own: u64, enemy: u64, from: u8, to: u8, m: Move) -> bool {
    &&& to < 64
    &&& !holds(own, to)
    &&& m == encode(from, to, if holds(enemy, to) { CAPTURE } else { QUIET_MOVE })
}

/// The moves of a leaper go to its targets that hold no own piece.
pub proof fn lemma_leaper_member(from: u8, targets: u64, own: u64, enemy: u64, m: Move)
    ensures
        leaper_moves(from, targets, own, enemy).contains(m) == exists|to: u8|
            holds(targets, to) && #[trigger] plain_move(own, enemy, from, to, m),
{
    broadcast use group_holds;
    let caps = (targets & !own) & enemy;
    let quiets = (targets & !own) & !enemy;
    lemma_concat_contains(
        each_square(caps, one(from, CAPTURE)),
        each_square(quiets, one(from, QUIET_MOVE)),
        m,
    );
    lemma_targets_member(caps, 0, 64, from, CAPTURE, m);
    lemma_targets_member(quiets, 0, 64, from, QUIET_MOVE, m);
    if each_square(caps, one(from, CAPTURE)).contains(m) {
        let to = choose|to: u8|
            0 <= to < 64 && #[trigger] holds(caps, to) && m == encode(from, to, CAPTURE);
        assert(holds(targets, to) && plain_move(own, enemy, from, to, m));
    }
    if each_square(quiets, one(from, QUIET_MOVE)).contains(m) {
        let to = choose|to: u8|
            0 <= to < 64 && #[trigger] holds(quiets, to) && m == encode(from, to, QUIET_MOVE);
        assert(holds(targets, to) && plain_move(own, enemy, from, to, m));
    }
    if exists|to: u8| holds(targets, to) && #[trigger] plain_move(own, enemy, from, to, m) {
        let to = choose|to: u8| holds(targets, to) && #[trigger] plain_move(own, enemy, from, to, m);
        if holds(enemy, to) {
            assert(0 <= to < 64 && holds(caps, to) && m == encode(from, to, CAPTURE));
        } else {
            assert(0 <= to < 64 && holds(quiets, to) && m == encode(from, to, QUIET_MOVE));
        }
    }
}

/// The nearest square of a board in the direction of travel: the lowest for a
/// rising ray, the highest for a falling one; 64 or -1 where the board is empty.
pub open spec fn nearest(up: bool, b: u64) -> int {
    if up {
        lsb(b) as int
    } else {
        msb(b) as int
    }
}

/// `x` comes before `y` in the direction of travel.
pub open spec fn before(up: bool, x: int, y: int) -> bool {
    if up {
        x < y
    } else {
        x > y
    }
}

proof fn lemma_nearest(up: bool, board: u64, ray: u64, x: u8)
    ensures
        holds(board, x) && holds(ray, x) ==> !before(up, x as int, nearest(up, board & ray)),
        (board & ray) != 0 ==> 0 <= nearest(up, board & ray) < 64 && holds(
            board,
            nearest(up, board & ray) as u8,
        ) && holds(ray, nearest(up, board & ray) as u8),
        (board & ray) == 0 ==> nearest(up, board & ray) == (if up { 64int } else { -1int }),
        (board & ray) == 0 ==> !(holds(board, x) && holds(ray, x)),
{
    let b = board & ray;
    lemma_lsb(b);
    lemma_msb(b);
    crate::bits::lemma_holds_and(board, ray, x);
    crate::bits::lemma_holds_zero(x);
    if b != 0 {
        crate::bits::lemma_holds_and(board, ray, nearest(up, b) as u8);
    }
}

/// The square of the nearest piece along the ray, and whether it is captured.
pub open spec fn ray_capture(up: bool, ray: u64, own: u64, enemy: u64) -> bool {
    before(up, nearest(up, enemy & ray), nearest(up, own & ray))
}

pub open spec fn ray_block(up: bool, ray: u64, own: u64, enemy: u64) -> int {
    if ray_capture(up, ray, own, enemy) {
        nearest(up, enemy & ray)
    } else {
        nearest(up, own & ray)
    }
}

/// A square of the ray comes before the nearest piece exactly when nothing
/// stands on it or between it and the origin.
proof fn lemma_ray_near(
    from: u8,
    ray: u64,
    own: u64,
    enemy: u64,
    df: int,
    dr: int,
    to: u8,
)
    requires
        from < 64,
        is_direction(df, dr),
        forall|t: u8| #[trigger] holds(ray, t) == on_ray(df, dr, from, t),
        on_ray(df, dr, from, to),
    ensures
        (clear_ray(own | enemy, df, dr, from, to) && !holds(own | enemy, to)) == before(
            8 * dr + df > 0,
            to as int,
            ray_block(8 * dr + df > 0, ray, own, enemy),
        ),
{
    let up = 8 * dr + df > 0;
    let occ = own | enemy;
    let blocking = ray_block(up, ray, own, enemy);
    lemma_nearest(up, own, ray, to);
    lemma_nearest(up, enemy, ray, to);
    crate::bits::lemma_holds_or(own, enemy, to);
    if before(up, to as int, blocking) {
        assert forall|x: u8| #[trigger] on_ray(df, dr, from, x) && steps(from, x) < steps(
            from,
            to,
        ) implies !holds(occ, x) by {
            lemma_ray_order(df, dr, from, x, to);
            lemma_nearest(up, own, ray, x);
            lemma_nearest(up, enemy, ray, x);
            crate::bits::lemma_holds_or(own, enemy, x);
            assert(holds(ray, x));
        }
        assert(holds(ray, to));
    } else {
        if clear_ray(occ, df, dr, from, to) && !holds(occ, to) {
            let b = blocking as u8;
            assert(0 <= blocking < 64);
            lemma_nearest(up, own, ray, b);
            lemma_nearest(up, enemy, ray, b);
            crate::bits::lemma_holds_or(own, enemy, b);
            assert(holds(ray, b));
            assert(on_ray(df, dr, from, b));
            lemma_ray_order(df, dr, from, b, to);
            assert(holds(occ, b));
            assert(on_ray(df, dr, from, b) && steps(from, b) < steps(from, to));
        }
    }
}

/// The capture along a ray takes the nearest enemy piece, reached over free squares.
proof fn lemma_ray_capture(
    from: u8,
    ray: u64,
    own: u64,
    enemy: u64,
    df: int,
    dr: int,
    to: u8,
)
    requires
        from < 64,
        is_direction(df, dr),
        forall|t: u8| #[trigger] holds(ray, t) == on_ray(df, dr, from, t),
        forall|x: u8| !(holds(own, x) && holds(enemy, x)),
    ensures
        (clear_ray(own | enemy, df, dr, from, to) && holds(enemy, to)) == (ray_capture(
            8 * dr + df > 0,
            ray,
            own,
            enemy,
        ) && to == nearest(8 * dr + df > 0, enemy & ray)),
{
    let up = 8 * dr + df > 0;
    let occ = own | enemy;
    let e = nearest(up, enemy & ray);
    let f = nearest(up, own & ray);
    lemma_nearest(up, own, ray, to);
    lemma_nearest(up, enemy, ray, to);
    if ray_capture(up, ray, own, enemy) && to == e {
        assert((enemy & ray) != 0);
        assert(on_ray(df, dr, from, to));
        assert forall|x: u8| #[trigger] on_ray(df, dr, from, x) && steps(from, x) < steps(
            from,
            to,
        ) implies !holds(occ, x) by {
            lemma_ray_order(df, dr, from, x, to);
            lemma_nearest(up, own, ray, x);
            lemma_nearest(up, enemy, ray, x);
            crate::bits::lemma_holds_or(own, enemy, x);
            assert(holds(ray, x));
        }
    }
    if clear_ray(occ, df, dr, from, to) && holds(enemy, to) {
        assert(holds(ray, to));
        assert((enemy & ray) != 0);
        let t = e as u8;
        assert(on_ray(df, dr, from, t));
        lemma_ray_order(df, dr, from, t, to);
        crate::bits::lemma_holds_or(own, enemy, t);
        assert(t == to) by {
            if t != to {
                assert(on_ray(df, dr, from, t) && steps(from, t) < steps(from, to));
            }
        }
        if (own & ray) != 0 {
            let b = f as u8;
            assert(on_ray(df, dr, from, b));
            lemma_ray_order(df, dr, from, b, to);
            crate::bits::lemma_holds_or(own, enemy, b);
            if steps(from, b) < steps(from, to) {
                assert(on_ray(df, dr, from, b) && steps(from, b) < steps(from, to));
            }
            assert(!(holds(own, to) && holds(enemy, to)));
        }
    }
}

/// The moves of a slider along one ray.
pub open spec fn ray_moves(up: bool, from: u8, ray: u64, own: u64, enemy: u64) -> Seq<Move> {
    if up {
        ray_up_moves(from, ray, own, enemy)
    } else {
        ray_down_moves(from, ray, own, enemy)
    }
}

/// The moves of a slider along one ray go to the squares that it reaches over
/// free squares and that hold no own piece.
pub proof fn lemma_ray_member(
    from: u8,
    ray: u64,
    own: u64,
    enemy: u64,
    df: int,
    dr: int,
    m: Move,
)
    requires
        from < 64,
        is_direction(df, dr),
        forall|t: u8| #[trigger] holds(ray, t) == on_ray(df, dr, from, t),
        forall|x: u8| !(holds(own, x) && holds(enemy, x)),
    ensures
        ray_moves(8 * dr + df > 0, from, ray, own, enemy).contains(m) == exists|to: u8|
            clear_ray(own | enemy, df, dr, from, to) && #[trigger] plain_move(
                own,
                enemy,
                from,
                to,
                m,
            ),
{
    let up = 8 * dr + df > 0;
    let occ = own | enemy;
    let capture = ray_capture(up, ray, own, enemy);
    let blocking = ray_block(up, ray, own, enemy);
    let e = nearest(up, enemy & ray);
    let head = if capture { seq![encode(from, e as u8, CAPTURE)] } else { Seq::<Move>::empty() };
    let quiets = if up {
        gather_up(ray, 0, blocking, one(from, QUIET_MOVE))
    } else {
        gather_down(ray, blocking + 1, 64, one(from, QUIET_MOVE))
    };
    lemma_lsb(own & ray);
    lemma_lsb(enemy & ray);
    lemma_msb(own & ray);
    lemma_msb(enemy & ray);
    assert(ray_moves(up, from, ray, own, enemy) == head + quiets);
    lemma_concat_contains(head, quiets, m);
    if up {
        lemma_targets_member(ray, 0, blocking, from, QUIET_MOVE, m);
    } else {
        lemma_targets_member(ray, blocking + 1, 64, from, QUIET_MOVE, m);
    }
    if head.contains(m) {
        assert(head[0] == m);
        let t = e as u8;
        lemma_ray_capture(from, ray, own, enemy, df, dr, t);
        assert(clear_ray(occ, df, dr, from, t) && plain_move(own, enemy, from, t, m));
    }
    if quiets.contains(m) {
        let to = if up {
            choose|to: u8|
                0 <= to < blocking && #[trigger] holds(ray, to) && m == encode(
                    from,
                    to,
                    QUIET_MOVE,
                )
        } else {
            choose|to: u8|
                blocking + 1 <= to < 64 && #[trigger] holds(ray, to) && m == encode(
                    from,
                    to,
                    QUIET_MOVE,
                )
        };
        lemma_ray_near(from, ray, own, enemy, df, dr, to);
        crate::bits::lemma_holds_or(own, enemy, to);
        assert(clear_ray(occ, df, dr, from, to) && plain_move(own, enemy, from, to, m));
    }
    if exists|to: u8|
        clear_ray(occ, df, dr, from, to) && #[trigger] plain_move(own, enemy, from, to, m) {
        let to = choose|to: u8|
            clear_ray(occ, df, dr, from, to) && #[trigger] plain_move(own, enemy, from, to, m);
        crate::bits::lemma_holds_or(own, enemy, to);
        if holds(enemy, to) {
            lemma_ray_capture(from, ray, own, enemy, df, dr, to);
            assert(head[0] == m);
        } else {
            lemma_ray_near(from, ray, own, enemy, df, dr, to);
            assert(holds(ray, to));
            assert(quiets.contains(m));
        }
    }
}

/// The squares that the two sides hold are the occupied squares.
pub proof fn lemma_all_occupancy(s: GameState)
    ensures
        s.friendly().occupancy() | s.enemy().occupancy() == s.boards.occupancy(),
        well_formed(s) ==> forall|x: u8|
            !(holds(s.friendly().occupancy(), x) && holds(s.enemy().occupancy(), x)),
{
    broadcast use group_holds;
    crate::bits::lemma_ext(
        s.friendly().occupancy() | s.enemy().occupancy(),
        s.boards.occupancy(),
    );
}

/// The move fits but for the clock, which no generation knows about.
pub open spec fn fits(s: GameState, m: Move) -> bool {
    in_range(GameState { halfmove: 0, ..s }, m) && if castle_code(code_of(m)) {
        castle_fits(s, m)
    } else {
        step_fits(s, m)
    }
}

/// A capture or quiet move of a piece to a square that it attacks fits.
pub proof fn lemma_plain_fits(s: GameState, p: PieceType, from: u8, to: u8, m: Move)
    requires
        playable(s),
        from < 64,
        holds(s.friendly().board(p), from),
        plain_move(s.friendly().occupancy(), s.enemy().occupancy(), from, to, m),
        holds(s.enemy().occupancy(), to) ==> piece_attacks(
            s.boards.occupancy(),
            s.flags.active,
            p,
            from,
            to,
        ),
    ensures
        fits(s, m),
{
    lemma_codes();
    let c = s.flags.active;
    let mine = s.friendly();
    let theirs = s.enemy();
    lemma_encode(from, to, CAPTURE);
    lemma_encode(from, to, QUIET_MOVE);
    mine.lemma_occupancy(from);
    if holds(theirs.occupancy(), to) {
        assert(code_of(m) == CAPTURE);
        assert(captured(s, m) == theirs.piece_on(to));
        if theirs.piece_on(to) == Some(PieceType::King) {
            theirs.lemma_occupancy(to);
            assert(holds(theirs.board(PieceType::King), to));
            lemma_single_member(theirs.king, to);
            lemma_single_bit(to);
            assert(attacks_from(s.boards, c, p, from, to));
        }
    }
}

proof fn lemma_knight_part(s: GameState, maps: &MoveMaps, m: Move)
    requires
        playable(s),
        maps.valid(),
        each_square(
            s.friendly().knight,
            knight_from(maps, s.friendly().occupancy(), s.enemy().occupancy()),
        ).contains(m),
    ensures
        fits(s, m),
{
    let own = s.friendly().occupancy();
    let enemy = s.enemy().occupancy();
    let f = knight_from(maps, own, enemy);
    lemma_gather_up_member(s.friendly().knight, 0, 64, f, m);
    let from = choose|x: u8| 0 <= x < 64 && holds(s.friendly().knight, x) && #[trigger] f(x).contains(m);
    lemma_leaper_member(from, maps.knight.targets(from), own, enemy, m);
    let to = choose|to: u8|
        holds(maps.knight.targets(from), to) && #[trigger] plain_move(own, enemy, from, to, m);
    assert(knight_step(from, to));
    assert(holds(s.friendly().board(PieceType::Knight), from));
    lemma_plain_fits(s, PieceType::Knight, from, to, m);
}

proof fn lemma_king_part(s: GameState, maps: &MoveMaps, m: Move)
    requires
        playable(s),
        maps.valid(),
        king_moves(s, maps).contains(m),
    ensures
        fits(s, m),
{
    let own = s.friendly().occupancy();
    let enemy = s.enemy().occupancy();
    let from = lsb(s.friendly().king);
    lemma_lsb(s.friendly().king);
    lemma_leaper_member(from, maps.king.targets(from), own, enemy, m);
    let to = choose|to: u8|
        holds(maps.king.targets(from), to) && #[trigger] plain_move(own, enemy, from, to, m);
    assert(king_step(from, to));
    assert(holds(s.friendly().board(PieceType::King), from));
    lemma_plain_fits(s, PieceType::King, from, to, m);
}

/// A move of a slider along the ray of one direction fits.
proof fn lemma_ray_fits(
    s: GameState,
    p: PieceType,
    from: u8,
    ray: u64,
    df: int,
    dr: int,
    m: Move,
)
    requires
        playable(s),
        from < 64,
        is_direction(df, dr),
        holds(s.friendly().board(p), from),
        if df != 0 && dr != 0 {
            p == PieceType::Bishop || p == PieceType::Queen
        } else {
            p == PieceType::Rook || p == PieceType::Queen
        },
        forall|t: u8| #[trigger] holds(ray, t) == on_ray(df, dr, from, t),
        ray_moves(
            8 * dr + df > 0,
            from,
            ray,
            s.friendly().occupancy(),
            s.enemy().occupancy(),
        ).contains(m),
    ensures
        fits(s, m),
{
    let own = s.friendly().occupancy();
    let enemy = s.enemy().occupancy();
    lemma_all_occupancy(s);
    lemma_ray_member(from, ray, own, enemy, df, dr, m);
    let to = choose|to: u8|
        clear_ray(own | enemy, df, dr, from, to) && #[trigger] plain_move(own, enemy, from, to, m);
    assert(clear_ray(s.boards.occupancy(), df, dr, from, to));
    lemma_plain_fits(s, p, from, to, m);
}

proof fn lemma_diagonal_part(s: GameState, maps: &MoveMaps, p: PieceType, m: Move)
    requires
        playable(s),
        maps.valid(),
        p == PieceType::Bishop || p == PieceType::Queen,
        each_square(
            s.friendly().board(p),
            diagonal_from(maps, s.friendly().occupancy(), s.enemy().occupancy()),
        ).contains(m),
    ensures
        fits(s, m),
{
    let own = s.friendly().occupancy();
    let enemy = s.enemy().occupancy();
    let f = diagonal_from(maps, own, enemy);
    lemma_gather_up_member(s.friendly().board(p), 0, 64, f, m);
    let from = choose|x: u8|
        0 <= x < 64 && holds(s.friendly().board(p), x) && #[trigger] f(x).contains(m);
    let ne = maps.ne_diagonal.targets(from);
    let nw = maps.nw_diagonal.targets(from);
    let se = maps.se_diagonal.targets(from);
    let sw = maps.sw_diagonal.targets(from);
    let a = ray_up_moves(from, ne, own, enemy);
    let b = ray_up_moves(from, nw, own, enemy);
    let c = ray_down_moves(from, se, own, enemy);
    let d = ray_down_moves(from, sw, own, enemy);
    assert(f(from) == a + b + c + d);
    lemma_concat_contains(a + b + c, d, m);
    lemma_concat_contains(a + b, c, m);
    lemma_concat_contains(a, b, m);
    if a.contains(m) {
        lemma_ray_fits(s, p, from, ne, 1, 1, m);
    } else if b.contains(m) {
        lemma_ray_fits(s, p, from, nw, -1, 1, m);
    } else if c.contains(m) {
        lemma_ray_fits(s, p, from, se, 1, -1, m);
    } else {
        lemma_ray_fits(s, p, from, sw, -1, -1, m);
    }
}

proof fn lemma_straight_part(s: GameState, maps: &MoveMaps, p: PieceType, m: Move)
    requires
        playable(s),
        maps.valid(),
        p == PieceType::Rook || p == PieceType::Queen,
        each_square(
            s.friendly().board(p),
            straight_from(maps, s.friendly().occupancy(), s.enemy().occupancy()),
        ).contains(m),
    ensures
        fits(s, m),
{
    let own = s.friendly().occupancy();
    let enemy = s.enemy().occupancy();
    let f = straight_from(maps, own, enemy);
    lemma_gather_up_member(s.friendly().board(p), 0, 64, f, m);
    let from = choose|x: u8|
        0 <= x < 64 && holds(s.friendly().board(p), x) && #[trigger] f(x).contains(m);
    let n = maps.n_file.targets(from);
    let so = maps.s_file.targets(from);
    let e = maps.e_rank.targets(from);
    let w = maps.w_rank.targets(from);
    let a = ray_up_moves(from, n, own, enemy);
    let b = ray_down_moves(from, so, own, enemy);
    let c = ray_up_moves(from, e, own, enemy);
    let d = ray_down_moves(from, w, own, enemy);
    assert(f(from) == a + b + c + d);
    lemma_concat_contains(a + b + c, d, m);
    lemma_concat_contains(a + b, c, m);
    lemma_concat_contains(a, b, m);
    if a.contains(m) {
        lemma_ray_fits(s, p, from, n, 0, 1, m);
    } else if b.contains(m) {
        lemma_ray_fits(s, p, from, so, 0, -1, m);
    } else if c.contains(m) {
        lemma_ray_fits(s, p, from, e, 1, 0, m);
    } else {
        lemma_ray_fits(s, p, from, w, -1, 0, m);
    }
}

/// The tables of the pawns of the side to move.
pub proof fn lemma_pawn_tables(s: GameState, maps: &MoveMaps, from: u8, to: u8)
    requires
        maps.valid(),
        from < 64,
    ensures
        holds(pawn_passive(s, maps, from), to) == (pawn_push(s.flags.active, from, to) && !holds(
            s.boards.occupancy(),
            to,
        )),
        holds(pawn_attack_board(s, maps, from), to) == (pawn_attack(s.flags.active, from, to) && (
        holds(s.enemy().occupancy(), to) || holds(s.en_passant, to))),
        holds(pawn_double_board(s, maps, from), to) ==> pawn_double(s.flags.active, from, to)
            && !holds(s.boards.occupancy(), to) && !holds(
            s.boards.occupancy(),
            (if s.flags.active == Color::White { from + 8 } else { from - 8 }) as u8,
        ),
{
    broadcast use group_holds;
    lemma_all_occupancy(s);
    let white = s.flags.active == Color::White;
    let passive = pawn_passive(s, maps, from);
    if holds(pawn_double_board(s, maps, from), to) {
        let mid = (if white { from + 8 } else { from - 8 }) as u8;
        assert(pawn_double(s.flags.active, from, to));
        assert(holds(passive, mid));
    }
}

proof fn lemma_pawn_part(s: GameState, maps: &MoveMaps, m: Move)
    requires
        playable(s),
        maps.valid(),
        each_square(s.friendly().pawn, pawn_from(s, maps)).contains(m),
    ensures
        fits(s, m),
{
    lemma_codes();
    let c = s.flags.active;
    let mine = s.friendly();
    let theirs = s.enemy();
    let f = pawn_from(s, maps);
    lemma_gather_up_member(mine.pawn, 0, 64, f, m);
    let from = choose|x: u8| 0 <= x < 64 && holds(mine.pawn, x) && #[trigger] f(x).contains(m);
    let promote = will_promote(s, from);
    let pushes = each_square(pawn_passive(s, maps, from), push_moves(from, promote));
    let doubles = each_square(pawn_double_board(s, maps, from), one(from, DOUBLE_PAWN_PUSH));
    let capture_fn = pawn_capture_moves(from, promote, s.en_passant, theirs.occupancy());
    let captures = each_square(pawn_attack_board(s, maps, from), capture_fn);
    assert(f(from) == pushes + doubles + captures);
    lemma_concat_contains(pushes + doubles, captures, m);
    lemma_concat_contains(pushes, doubles, m);
    mine.lemma_occupancy(from);
    assert(mine.piece_on(from) == Some(PieceType::Pawn));
    if pushes.contains(m) {
        let g = push_moves(from, promote);
        lemma_gather_up_member(pawn_passive(s, maps, from), 0, 64, g, m);
        let to = choose|x: u8|
            0 <= x < 64 && holds(pawn_passive(s, maps, from), x) && #[trigger] g(x).contains(m);
        lemma_pawn_tables(s, maps, from, to);
        lemma_all_occupancy(s);
        crate::bits::lemma_holds_or(mine.occupancy(), theirs.occupancy(), to);
        let gs = g(to);
        let i = choose|i: int| 0 <= i < gs.len() && gs[i] == m;
        lemma_encode(from, to, QUEEN_PROMOTION);
        lemma_encode(from, to, ROOK_PROMOTION);
        lemma_encode(from, to, BISHOP_PROMOTION);
        lemma_encode(from, to, KNIGHT_PROMOTION);
        lemma_encode(from, to, QUIET_MOVE);
        assert(fits(s, m));
    } else if doubles.contains(m) {
        lemma_targets_member(pawn_double_board(s, maps, from), 0, 64, from, DOUBLE_PAWN_PUSH, m);
        let to = choose|to: u8|
            0 <= to < 64 && #[trigger] holds(pawn_double_board(s, maps, from), to) && m == encode(
                from,
                to,
                DOUBLE_PAWN_PUSH,
            );
        lemma_pawn_tables(s, maps, from, to);
        lemma_all_occupancy(s);
        crate::bits::lemma_holds_or(mine.occupancy(), theirs.occupancy(), to);
        lemma_encode(from, to, DOUBLE_PAWN_PUSH);
        assert(fits(s, m));
    } else {
        lemma_gather_up_member(pawn_attack_board(s, maps, from), 0, 64, capture_fn, m);
        let to = choose|x: u8|
            0 <= x < 64 && holds(pawn_attack_board(s, maps, from), x) && #[trigger] capture_fn(
                x,
            ).contains(m);
        lemma_pawn_capture_fits(s, maps, from, to, m);
    }
}

proof fn lemma_pawn_capture_fits(s: GameState, maps: &MoveMaps, from: u8, to: u8, m: Move)
    requires
        playable(s),
        maps.valid(),
        from < 64,
        to < 64,
        holds(s.friendly().pawn, from),
        holds(pawn_attack_board(s, maps, from), to),
        pawn_capture_moves(
            from,
            will_promote(s, from),
            s.en_passant,
            s.enemy().occupancy(),
        )(to).contains(m),
    ensures
        fits(s, m),
{
    lemma_codes();
    let c = s.flags.active;
    let mine = s.friendly();
    let theirs = s.enemy();
    let promote = will_promote(s, from);
    let g = pawn_capture_moves(from, promote, s.en_passant, theirs.occupancy());
    lemma_pawn_tables(s, maps, from, to);
    lemma_all_occupancy(s);
    mine.lemma_occupancy(from);
    mine.lemma_occupancy(to);
    theirs.lemma_occupancy(to);
    crate::bits::lemma_holds_or(mine.occupancy(), theirs.occupancy(), to);
    lemma_lsb(s.en_passant);
    assert(mine.piece_on(from) == Some(PieceType::Pawn));
    assert(pawn_attack(c, from, to));
    let gs = g(to);
        let i = choose|i: int| 0 <= i < gs.len() && gs[i] == m;
    lemma_encode(from, to, QUEEN_PROMOTION_CAPTURE);
    lemma_encode(from, to, ROOK_PROMOTION_CAPTURE);
    lemma_encode(from, to, BISHOP_PROMOTION_CAPTURE);
    lemma_encode(from, to, KNIGHT_PROMOTION_CAPTURE);
    lemma_encode(from, to, EN_PASSANT);
    lemma_encode(from, to, CAPTURE);
    // The en-passant square is the only square of its board.
    if holds(s.en_passant, to) {
        crate::bits::lemma_member_nonzero(s.en_passant, to);
        lemma_single_member(s.en_passant, to);
        lemma_single_bit(to);
        assert(to == lsb(s.en_passant));
        assert(!holds(s.boards.occupancy(), to));
        assert(!holds(theirs.occupancy(), to));
        assert(!promote);
    }
    if code_of(m) == EN_PASSANT {
        let cap_sq = capture_square(c, m);
        assert(to == lsb(s.en_passant));
        assert(holds(theirs.pawn, cap_sq));
        assert(theirs.piece_on(cap_sq) == Some(PieceType::Pawn));
        // A pawn never stands on a square that its own side holds twice.
        assert(!holds(mine.occupancy(), to)) by {
            assert(!holds(s.boards.occupancy(), to));
        }
    } else {
        assert(holds(theirs.occupancy(), to));
        assert(!holds(mine.occupancy(), to)) by {
            assert(!(holds(s.boards.white.occupancy(), to) && holds(
                s.boards.black.occupancy(),
                to,
            )));
        }
        if theirs.piece_on(to) == Some(PieceType::King) {
            assert(holds(theirs.board(PieceType::King), to));
            lemma_single_member(theirs.king, to);
            lemma_single_bit(to);
            assert(holds(mine.board(PieceType::Pawn), from));
            assert(attacks_from(s.boards, c, PieceType::Pawn, from, to));
        }
    }
}

proof fn lemma_castle_part(s: GameState, m: Move)
    requires
        playable(s),
        castle_moves(s).contains(m),
    ensures
        fits(s, m),
{
    lemma_codes();
    let white = s.flags.active == Color::White;
    let e = Seq::<Move>::empty();
    let a = if white && s.flags.white_king && castle_path(s, seq![5u8, 6u8], seq![4u8, 5u8]) {
        seq![encode(4, 6, KING_CASTLE)]
    } else {
        e
    };
    let b = if white && s.flags.white_queen && castle_path(
        s,
        seq![1u8, 2u8, 3u8],
        seq![3u8, 4u8],
    ) {
        seq![encode(4, 2, QUEEN_CASTLE)]
    } else {
        e
    };
    let c = if !white && s.flags.black_king && castle_path(
        s,
        seq![61u8, 62u8],
        seq![60u8, 61u8],
    ) {
        seq![encode(60, 62, KING_CASTLE)]
    } else {
        e
    };
    let d = if !white && s.flags.black_queen && castle_path(
        s,
        seq![57u8, 58u8, 59u8],
        seq![59u8, 60u8],
    ) {
        seq![encode(60, 58, QUEEN_CASTLE)]
    } else {
        e
    };
    assert(castle_moves(s) == a + b + c + d);
    lemma_concat_contains(a + b + c, d, m);
    lemma_concat_contains(a + b, c, m);
    lemma_concat_contains(a, b, m);
    lemma_all_occupancy(s);
    lemma_encode(4, 6, KING_CASTLE);
    lemma_encode(4, 2, QUEEN_CASTLE);
    lemma_encode(60, 62, KING_CASTLE);
    lemma_encode(60, 58, QUEEN_CASTLE);
    if a.contains(m) {
        assert(a[0] == m);
        let free = seq![5u8, 6u8];
        assert(free[0] == 5 && free[1] == 6);
        assert(!holds(s.boards.occupancy(), free[0]) && !holds(s.boards.occupancy(), free[1]));
    } else if b.contains(m) {
        assert(b[0] == m);
        let free = seq![1u8, 2u8, 3u8];
        assert(free[1] == 2 && free[2] == 3);
        assert(!holds(s.boards.occupancy(), free[1]) && !holds(s.boards.occupancy(), free[2]));
    } else if c.contains(m) {
        assert(c[0] == m);
        let free = seq![61u8, 62u8];
        assert(free[0] == 61 && free[1] == 62);
        assert(!holds(s.boards.occupancy(), free[0]) && !holds(s.boards.occupancy(), free[1]));
    } else {
        assert(d[0] == m);
        let free = seq![57u8, 58u8, 59u8];
        assert(free[1] == 58 && free[2] == 59);
        assert(!holds(s.boards.occupancy(), free[1]) && !holds(s.boards.occupancy(), free[2]));
    }
}

/// Every pseudo-legal move of a playable position fits it: with room on the
/// clock it can be applied and taken back.
pub proof fn lemma_generated_fits(s: GameState, maps: &MoveMaps, m: Move)
    requires
        playable(s),
        maps.valid(),
        pseudo_moves(s, maps).contains(m),
    ensures
        fits(s, m),
        s.halfmove < 255 ==> applicable(s, m),
{
    let mine = s.friendly();
    let own = mine.occupancy();
    let enemy = s.enemy().occupancy();
    let a = each_square(mine.knight, knight_from(maps, own, enemy));
    let b = each_square(mine.bishop, diagonal_from(maps, own, enemy));
    let c = each_square(mine.queen, diagonal_from(maps, own, enemy));
    let d = each_square(mine.rook, straight_from(maps, own, enemy));
    let e = each_square(mine.queen, straight_from(maps, own, enemy));
    let f = each_square(mine.pawn, pawn_from(s, maps));
    let g = king_moves(s, maps);
    let h = castle_moves(s);
    assert(pseudo_moves(s, maps) == a + b + c + d + e + f + g + h);
    lemma_concat_contains(a + b + c + d + e + f + g, h, m);
    lemma_concat_contains(a + b + c + d + e + f, g, m);
    lemma_concat_contains(a + b + c + d + e, f, m);
    lemma_concat_contains(a + b + c + d, e, m);
    lemma_concat_contains(a + b + c, d, m);
    lemma_concat_contains(a + b, c, m);
    lemma_concat_contains(a, b, m);
    if a.contains(m) {
        lemma_knight_part(s, maps, m);
    } else if b.contains(m) {
        assert(mine.board(PieceType::Bishop) == mine.bishop);
        lemma_diagonal_part(s, maps, PieceType::Bishop, m);
    } else if c.contains(m) {
        assert(mine.board(PieceType::Queen) == mine.queen);
        lemma_diagonal_part(s, maps, PieceType::Queen, m);
    } else if d.contains(m) {
        assert(mine.board(PieceType::Rook) == mine.rook);
        lemma_straight_part(s, maps, PieceType::Rook, m);
    } else if e.contains(m) {
        assert(mine.board(PieceType::Queen) == mine.queen);
        lemma_straight_part(s, maps, PieceType::Queen, m);
    } else if f.contains(m) {
        lemma_pawn_part(s, maps, m);
    } else if g.contains(m) {
        lemma_king_part(s, maps, m);
    } else {
        lemma_castle_part(s, m);
    }
}

} // verus!
