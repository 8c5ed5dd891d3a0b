//! Which squares the pieces of a color attack.

use vstd::prelude::*;
use crate::bitboard::{BitBoard, BitBoardExt};
use crate::bits::{holds, lsb, msb, lemma_lsb, lemma_msb, group_holds, lemma_member_nonzero};
use crate::chess_board::{ChessBoard, PieceType};
use crate::color::Color;
use crate::move_maps::{file_of, rank_of, steps, scale, on_ray, knight_step, king_step, pawn_attack};

verus! {

/// (`df`, `dr`) is one of the eight directions.
pub open spec fn is_direction(df: int, dr: int) -> bool {
    -1 <= df <= 1 && -1 <= dr <= 1 && (df != 0 || dr != 0)
}

/// `t` lies on the ray from `s` in direction (`df`, `dr`) and no square strictly
/// between the two is occupied.
pub open spec fn clear_ray(occ: u64, df: int, dr: int, s: u8, t: u8) -> bool {
    &&& on_ray(df, dr, s, t)
    &&& forall|x: u8| #[trigger] on_ray(df, dr, s, x) && steps(s, x) < steps(s, t) ==> !holds(occ, x)
}

/// A bishop on `s` attacks `t` across the occupancy `occ`.
pub open spec fn diagonal_attack(occ: u64, s: u8, t: u8) -> bool {
    clear_ray(occ, 1, 1, s, t) || clear_ray(occ, -1, 1, s, t) || clear_ray(occ, 1, -1, s, t)
        || clear_ray(occ, -1, -1, s, t)
}

/// A rook on `s` attacks `t` across the occupancy `occ`.
pub open spec fn straight_attack(occ: u64, s: u8, t: u8) -> bool {
    clear_ray(occ, 0, 1, s, t) || clear_ray(occ, 0, -1, s, t) || clear_ray(occ, 1, 0, s, t)
        || clear_ray(occ, -1, 0, s, t)
}

/// A piece of type `p` and color `c` on `s` attacks `t` across the occupancy `occ`.
pub open spec fn piece_attacks(occ: u64, c: Color, p: PieceType, s: u8, t: u8) -> bool {
    match p {
        PieceType::Pawn => pawn_attack(c, s, t),
        PieceType::Knight => knight_step(s, t),
        PieceType::Bishop => diagonal_attack(occ, s, t),
        PieceType::Rook => straight_attack(occ, s, t),
        PieceType::Queen => diagonal_attack(occ, s, t) || straight_attack(occ, s, t),
        PieceType::King => king_step(s, t),
    }
}

/// The piece of type `p` that color `by` has on `s` attacks `t`.
pub open spec fn attacks_from(boards: ChessBoard, by: Color, p: PieceType, s: u8, t: u8) -> bool {
    holds(boards.side(by).board(p), s) && piece_attacks(boards.occupancy(), by, p, s, t)
}

/// Some piece of color `by` attacks the square `t`.
pub open spec fn attacked(boards: ChessBoard, t: u8, by: Color) -> bool {
    exists|s: u8, p: PieceType| attacks_from(boards, by, p, s, t)
}

/// Along a ray, a square is nearer to the origin exactly when its number comes
/// first in the direction of travel.
pub proof fn lemma_ray_order(df: int, dr: int, s: u8, x: u8, t: u8)
    requires
        is_direction(df, dr),
        on_ray(df, dr, s, x),
        on_ray(df, dr, s, t),
    ensures
        x == s + steps(s, x) * (8 * dr + df),
        8 * dr + df > 0 ==> ((x < t) == (steps(s, x) < steps(s, t))),
        8 * dr + df < 0 ==> ((x > t) == (steps(s, x) < steps(s, t))),
        8 * dr + df > 0 ==> x > s,
        8 * dr + df < 0 ==> x < s,
{
    let k = steps(s, x);
    let j = steps(s, t);
    assert(x == 8 * rank_of(x) + file_of(x));
    assert(t == 8 * rank_of(t) + file_of(t));
    assert(s == 8 * rank_of(s) + file_of(s));
    assert(x == s + k * (8 * dr + df)) by (nonlinear_arith)
        requires
            x == 8 * rank_of(x) + file_of(x),
            s == 8 * rank_of(s) + file_of(s),
            file_of(x) == file_of(s) + scale(df, k),
            rank_of(x) == rank_of(s) + scale(dr, k),
            is_direction(df, dr),
    ;
    assert(t == s + j * (8 * dr + df)) by (nonlinear_arith)
        requires
            t == 8 * rank_of(t) + file_of(t),
            s == 8 * rank_of(s) + file_of(s),
            file_of(t) == file_of(s) + scale(df, j),
            rank_of(t) == rank_of(s) + scale(dr, j),
            is_direction(df, dr),
    ;
    let d = 8 * dr + df;
    assert(d > 0 ==> ((k < j) == (k * d < j * d))) by (nonlinear_arith)
        requires
            -9 <= d <= 9,
    ;
    assert(d < 0 ==> ((k < j) == (k * d > j * d))) by (nonlinear_arith)
        requires
            -9 <= d <= 9,
    ;
    assert(d > 0 ==> k * d > 0) by (nonlinear_arith)
        requires
            k >= 1,
    ;
    assert(d < 0 ==> k * d < 0) by (nonlinear_arith)
        requires
            k >= 1,
    ;
}

/// A ray seen from its far end runs in the opposite direction, with the same
/// squares in between.
pub proof fn lemma_clear_ray_symmetric(occ: u64, df: int, dr: int, s: u8, t: u8)
    requires
        is_direction(df, dr),
        clear_ray(occ, df, dr, s, t),
    ensures
        clear_ray(occ, -df, -dr, t, s),
{
    assert(on_ray(-df, -dr, t, s));
    assert forall|x: u8| #[trigger] on_ray(-df, -dr, t, x) && steps(t, x) < steps(t, s) implies !holds(
        occ,
        x,
    ) by {
        assert(on_ray(df, dr, s, x) && steps(s, x) < steps(s, t));
    }
}

/// Whether the nearest of the `targets` along a ray whose squares come in rising
/// order is nearer than the nearest of the `blocking` squares.
pub fn capture_in_increasing_direction(
    direction: BitBoard,
    targets: BitBoard,
    blocking: BitBoard,
) -> (r: bool)
    ensures
        r == (lsb(direction & targets) < lsb(direction & blocking)),
{
    let friendly_sb = (direction & blocking).get_lsb();
    let target_sb = (direction & targets).get_lsb();
    target_sb < friendly_sb
}

/// Whether the nearest of the `targets` along a ray whose squares come in falling
/// order is nearer than the nearest of the `blocking` squares.
pub fn capture_in_decreasing_direction(
    direction: BitBoard,
    targets: BitBoard,
    blocking: BitBoard,
) -> (r: bool)
    ensures
        r == (msb(direction & targets) > msb(direction & blocking)),
{
    let friendly_sb = (direction & blocking).get_msb();
    let target_sb = (direction & targets).get_msb();
    target_sb > friendly_sb
}

/// The nearest target along a ray comes before the nearest blocker exactly when
/// some target is reached along the ray over free squares.
pub proof fn lemma_nearest_target(
    ray: u64,
    targets: u64,
    blocking: u64,
    occ: u64,
    df: int,
    dr: int,
    s: u8,
)
    requires
        is_direction(df, dr),
        s < 64,
        forall|t: u8| #[trigger] holds(ray, t) == on_ray(df, dr, s, t),
        forall|x: u8| #[trigger] holds(occ, x) == (holds(targets, x) || holds(blocking, x)),
        forall|x: u8| !(holds(targets, x) && holds(blocking, x)),
    ensures
        8 * dr + df > 0 ==> ((lsb(ray & targets) < lsb(ray & blocking)) == exists|p: u8|
            holds(targets, p) && #[trigger] clear_ray(occ, df, dr, s, p)),
        8 * dr + df < 0 ==> ((msb(ray & targets) > msb(ray & blocking)) == exists|p: u8|
            holds(targets, p) && #[trigger] clear_ray(occ, df, dr, s, p)),
{
    broadcast use group_holds;
    let up = 8 * dr + df > 0;
    lemma_lsb(ray & targets);
    lemma_lsb(ray & blocking);
    lemma_msb(ray & targets);
    lemma_msb(ray & blocking);
    let t0: u8 = if up { lsb(ray & targets) } else { msb(ray & targets) as u8 };
    let b0: u8 = if up { lsb(ray & blocking) } else { msb(ray & blocking) as u8 };
    let some_target = (ray & targets) != 0;
    let some_blocker = (ray & blocking) != 0;
    let first = if up {
        lsb(ray & targets) < lsb(ray & blocking)
    } else {
        msb(ray & targets) > msb(ray & blocking)
    };
    if first {
        assert(some_target);
        assert(holds(ray & targets, t0));
        assert(on_ray(df, dr, s, t0));
        assert forall|x: u8| #[trigger] on_ray(df, dr, s, x) && steps(s, x) < steps(s, t0) implies !holds(
            occ,
            x,
        ) by {
            lemma_ray_order(df, dr, s, x, t0);
            assert(holds(ray, x));
            if holds(targets, x) {
                assert(holds(ray & targets, x));
            }
            if holds(blocking, x) {
                assert(holds(ray & blocking, x));
            }
        }
        assert(holds(targets, t0) && clear_ray(occ, df, dr, s, t0));
    }
    if exists|p: u8| holds(targets, p) && #[trigger] clear_ray(occ, df, dr, s, p) {
        let p = choose|p: u8| holds(targets, p) && #[trigger] clear_ray(occ, df, dr, s, p);
        assert(holds(ray & targets, p));
        lemma_member_nonzero(ray & targets, p);
        assert(holds(ray & targets, t0));
        assert(on_ray(df, dr, s, t0));
        lemma_ray_order(df, dr, s, t0, p);
        assert(t0 == p) by {
            if t0 != p {
                assert(on_ray(df, dr, s, t0) && steps(s, t0) < steps(s, p));
                assert(holds(occ, t0));
            }
        }
        if some_blocker {
            assert(holds(ray & blocking, b0));
            assert(on_ray(df, dr, s, b0));
            lemma_ray_order(df, dr, s, b0, p);
            assert(b0 != p);
            if steps(s, b0) < steps(s, p) {
                assert(on_ray(df, dr, s, b0) && steps(s, b0) < steps(s, p));
                assert(holds(occ, b0));
            }
        }
        assert(first);
    }
}

} // verus!
