//! The pseudo-legal moves of a position, as the sequence in which they are generated.

use vstd::prelude::*;
use crate::attacks::attacked;
use crate::bits::{bit, holds, lsb, msb, lemma_lsb, lemma_msb, group_holds};

use crate::color::Color;
use crate::game_state::GameState;
use crate::move_maps::MoveMaps;
use crate::moves::{
    Move, MoveCode, encode, QUIET_MOVE, DOUBLE_PAWN_PUSH, KING_CASTLE, QUEEN_CASTLE, CAPTURE,
    EN_PASSANT, KNIGHT_PROMOTION, BISHOP_PROMOTION, ROOK_PROMOTION, QUEEN_PROMOTION,
    KNIGHT_PROMOTION_CAPTURE, BISHOP_PROMOTION_CAPTURE, ROOK_PROMOTION_CAPTURE,
    QUEEN_PROMOTION_CAPTURE,
};

verus! {

/// What `f` gives for each square of `b` from `lo` up to `hi`, lowest square first.
pub open spec fn gather_up(b: u64, lo: int, hi: int, f: spec_fn(u8) -> Seq<Move>) -> Seq<Move>
    decreases hi - lo,
{
    if lo >= hi {
        Seq::empty()
    } else {
        (if holds(b, lo as u8) {
            f(lo as u8)
        } else {
            Seq::empty()
        }) + gather_up(b, lo + 1, hi, f)
    }
}

/// What `f` gives for each square of `b` below `hi` down to `lo`, highest square first.
pub open spec fn gather_down(b: u64, lo: int, hi: int, f: spec_fn(u8) -> Seq<Move>) -> Seq<Move>
    decreases hi - lo,
{
    if lo >= hi {
        Seq::empty()
    } else {
        (if holds(b, (hi - 1) as u8) {
            f((hi - 1) as u8)
        } else {
            Seq::empty()
        }) + gather_down(b, lo, hi - 1, f)
    }
}

/// What `f` gives for each square of `b`, lowest square first.
pub open spec fn each_square(b: u64, f: spec_fn(u8) -> Seq<Move>) -> Seq<Move> {
    gather_up(b, 0, 64, f)
}

/// Two boards with the same squares in a range give the same there.
pub proof fn lemma_gather_up_same(b: u64, c: u64, lo: int, hi: int, f: spec_fn(u8) -> Seq<Move>)
    requires
        0 <= lo,
        hi <= 64,
        forall|i: u8| lo <= i < hi ==> holds(b, i) == holds(c, i),
    ensures
        gather_up(b, lo, hi, f) == gather_up(c, lo, hi, f),
    decreases hi - lo,
{
    if lo < hi {
        lemma_gather_up_same(b, c, lo + 1, hi, f);
    }
}

pub proof fn lemma_gather_down_same(b: u64, c: u64, lo: int, hi: int, f: spec_fn(u8) -> Seq<Move>)
    requires
        0 <= lo,
        hi <= 64,
        forall|i: u8| lo <= i < hi ==> holds(b, i) == holds(c, i),
    ensures
        gather_down(b, lo, hi, f) == gather_down(c, lo, hi, f),
    decreases hi - lo,
{
    if lo < hi {
        lemma_gather_down_same(b, c, lo, hi - 1, f);
    }
}

/// A range without squares gives nothing.
pub proof fn lemma_gather_up_none(b: u64, lo: int, hi: int, f: spec_fn(u8) -> Seq<Move>)
    requires
        0 <= lo,
        hi <= 64,
        forall|i: u8| lo <= i < hi ==> !holds(b, i),
    ensures
        gather_up(b, lo, hi, f) == Seq::<Move>::empty(),
    decreases hi - lo,
{
    if lo < hi {
        lemma_gather_up_none(b, lo + 1, hi, f);
    }
}

pub proof fn lemma_gather_down_none(b: u64, lo: int, hi: int, f: spec_fn(u8) -> Seq<Move>)
    requires
        0 <= lo,
        hi <= 64,
        forall|i: u8| lo <= i < hi ==> !holds(b, i),
    ensures
        gather_down(b, lo, hi, f) == Seq::<Move>::empty(),
    decreases hi - lo,
{
    if lo < hi {
        lemma_gather_down_none(b, lo, hi - 1, f);
    }
}

/// The lowest square of a range comes first, the rest follows.
pub proof fn lemma_gather_up_first(b: u64, lo: int, hi: int, f: spec_fn(u8) -> Seq<Move>)
    requires
        0 <= lo <= lsb(b) < hi <= 64,
    ensures
        gather_up(b, lo, hi, f) == f(lsb(b)) + gather_up(b & !bit(lsb(b)), lo, hi, f),
    decreases lsb(b) - lo,
{
    broadcast use group_holds;
    lemma_lsb(b);
    let x = lsb(b);
    let c = b & !bit(x);
    if lo == x {
        lemma_gather_up_same(b, c, lo + 1, hi, f);
        assert(gather_up(c, lo, hi, f) == Seq::<Move>::empty() + gather_up(c, lo + 1, hi, f));
        assert(Seq::<Move>::empty() + gather_up(c, lo + 1, hi, f) =~= gather_up(c, lo + 1, hi, f));
    } else {
        lemma_gather_up_first(b, lo + 1, hi, f);
        assert(!holds(b, lo as u8));
        assert(!holds(c, lo as u8));
        assert(Seq::<Move>::empty() + gather_up(b, lo + 1, hi, f) =~= gather_up(b, lo + 1, hi, f));
        assert(Seq::<Move>::empty() + gather_up(c, lo + 1, hi, f) =~= gather_up(c, lo + 1, hi, f));
    }
}

/// The highest square of a range comes first, the rest follows.
pub proof fn lemma_gather_down_first(b: u64, lo: int, hi: int, f: spec_fn(u8) -> Seq<Move>)
    requires
        0 <= lo <= msb(b) < hi <= 64,
    ensures
        gather_down(b, lo, hi, f) == f(msb(b) as u8) + gather_down(
            b & !bit(msb(b) as u8),
            lo,
            hi,
            f,
        ),
    decreases hi - msb(b),
{
    broadcast use group_holds;
    lemma_msb(b);
    let x = msb(b) as u8;
    let c = b & !bit(x);
    if hi - 1 == x {
        lemma_gather_down_same(b, c, lo, hi - 1, f);
        assert(gather_down(c, lo, hi, f) == Seq::<Move>::empty() + gather_down(c, lo, hi - 1, f));
        assert(Seq::<Move>::empty() + gather_down(c, lo, hi - 1, f) =~= gather_down(
            c,
            lo,
            hi - 1,
            f,
        ));
    } else {
        lemma_gather_down_first(b, lo, hi - 1, f);
        assert(!holds(b, (hi - 1) as u8));
        assert(!holds(c, (hi - 1) as u8));
        assert(Seq::<Move>::empty() + gather_down(b, lo, hi - 1, f) =~= gather_down(
            b,
            lo,
            hi - 1,
            f,
        ));
        assert(Seq::<Move>::empty() + gather_down(c, lo, hi - 1, f) =~= gather_down(
            c,
            lo,
            hi - 1,
            f,
        ));
    }
}

/// One move from `from` with the code `code` to each target.
pub open spec fn one(from: u8, code: MoveCode) -> spec_fn(u8) -> Seq<Move> {
    |to: u8| seq![encode(from, to, code)]
}

/// The moves of a knight or king on `from`: the captures, then the quiet moves.
pub open spec fn leaper_moves(from: u8, targets: u64, own: u64, enemy: u64) -> Seq<Move> {
    each_square((targets & !own) & enemy, one(from, CAPTURE)) + each_square(
        (targets & !own) & !enemy,
        one(from, QUIET_MOVE),
    )
}

/// The moves of a slider on `from` along a ray whose squares come in rising
/// order: the capture of the nearest enemy piece, where no own piece is nearer,
/// then the quiet moves up to the nearest piece.
pub open spec fn ray_up_moves(from: u8, ray: u64, own: u64, enemy: u64) -> Seq<Move> {
    let f = lsb(own & ray);
    let e = lsb(enemy & ray);
    (if e < f {
        seq![encode(from, e, CAPTURE)]
    } else {
        Seq::empty()
    }) + gather_up(ray, 0, if e < f { e as int } else { f as int }, one(from, QUIET_MOVE))
}

/// The same along a ray whose squares come in falling order.
pub open spec fn ray_down_moves(from: u8, ray: u64, own: u64, enemy: u64) -> Seq<Move> {
    let f = msb(own & ray);
    let e = msb(enemy & ray);
    (if e > f {
        seq![encode(from, e as u8, CAPTURE)]
    } else {
        Seq::empty()
    }) + gather_down(ray, if e > f { e + 1 } else { f + 1 }, 64, one(from, QUIET_MOVE))
}

/// The moves of a bishop on `from`.
pub open spec fn diagonal_moves(maps: &MoveMaps, from: u8, own: u64, enemy: u64) -> Seq<Move> {
    ray_up_moves(from, maps.ne_diagonal.targets(from), own, enemy) + ray_up_moves(
        from,
        maps.nw_diagonal.targets(from),
        own,
        enemy,
    ) + ray_down_moves(from, maps.se_diagonal.targets(from), own, enemy) + ray_down_moves(
        from,
        maps.sw_diagonal.targets(from),
        own,
        enemy,
    )
}

/// The moves of a rook on `from`.
pub open spec fn straight_moves(maps: &MoveMaps, from: u8, own: u64, enemy: u64) -> Seq<Move> {
    ray_up_moves(from, maps.n_file.targets(from), own, enemy) + ray_down_moves(
        from,
        maps.s_file.targets(from),
        own,
        enemy,
    ) + ray_up_moves(from, maps.e_rank.targets(from), own, enemy) + ray_down_moves(
        from,
        maps.w_rank.targets(from),
        own,
        enemy,
    )
}

/// A push from `from` to the target: the four promotions on the last rank, else a quiet move.
pub open spec fn push_moves(from: u8, promote: bool) -> spec_fn(u8) -> Seq<Move> {
    |to: u8|
        if promote {
            seq![
                encode(from, to, QUEEN_PROMOTION),
                encode(from, to, ROOK_PROMOTION),
                encode(from, to, BISHOP_PROMOTION),
                encode(from, to, KNIGHT_PROMOTION),
            ]
        } else {
            seq![encode(from, to, QUIET_MOVE)]
        }
}

/// A pawn capture from `from` on the target: the four capturing promotions on the
/// last rank; en passant where the target is the en-passant square and holds no
/// piece; else a capture.
pub open spec fn pawn_capture_moves(from: u8, promote: bool, en_passant: u64, enemy: u64) -> spec_fn(
    u8,
) -> Seq<Move> {
    |to: u8|
        if promote {
            seq![
                encode(from, to, QUEEN_PROMOTION_CAPTURE),
                encode(from, to, ROOK_PROMOTION_CAPTURE),
                encode(from, to, BISHOP_PROMOTION_CAPTURE),
                encode(from, to, KNIGHT_PROMOTION_CAPTURE),
            ]
        } else if to == lsb(en_passant) && !holds(enemy, to) {
            seq![encode(from, to, EN_PASSANT)]
        } else {
            seq![encode(from, to, CAPTURE)]
        }
}

/// The squares to which the pawn on `from` can push one step.
pub open spec fn pawn_passive(s: GameState, maps: &MoveMaps, from: u8) -> u64 {
    let unoccupied = !(s.friendly().occupancy() | s.enemy().occupancy());
    (if s.flags.active == Color::White {
        maps.white_pawn_passive.targets(from)
    } else {
        maps.black_pawn_passive.targets(from)
    }) & unoccupied
}

/// The squares to which the pawn on `from` can push two steps: the square itself
/// and the one passed over are free.
pub open spec fn pawn_double_board(s: GameState, maps: &MoveMaps, from: u8) -> u64 {
    let white = s.flags.active == Color::White;
    let unoccupied = !(s.friendly().occupancy() | s.enemy().occupancy());
    let double = (if white {
        maps.white_pawn_double.targets(from)
    } else {
        maps.black_pawn_double.targets(from)
    }) & unoccupied;
    if double != 0 {
        double & (if white {
            pawn_passive(s, maps, from) << 8
        } else {
            pawn_passive(s, maps, from) >> 8
        })
    } else {
        double
    }
}

/// The squares on which the pawn on `from` can capture.
pub open spec fn pawn_attack_board(s: GameState, maps: &MoveMaps, from: u8) -> u64 {
    (if s.flags.active == Color::White {
        maps.white_pawn_attack.targets(from)
    } else {
        maps.black_pawn_attack.targets(from)
    }) & (s.enemy().occupancy() | s.en_passant)
}

/// Whether a pawn of the side to move on `from` stands before the last rank.
pub open spec fn will_promote(s: GameState, from: u8) -> bool {
    let white = s.flags.active == Color::White;
    white && from >= 48 || !white && from < 16
}

/// The moves of the pawn on `from`: pushes, double pushes, captures.
pub open spec fn pawn_moves_from(s: GameState, maps: &MoveMaps, from: u8) -> Seq<Move> {
    each_square(pawn_passive(s, maps, from), push_moves(from, will_promote(s, from))) + each_square(
        pawn_double_board(s, maps, from),
        one(from, DOUBLE_PAWN_PUSH),
    ) + each_square(
        pawn_attack_board(s, maps, from),
        pawn_capture_moves(from, will_promote(s, from), s.en_passant, s.enemy().occupancy()),
    )
}

/// The squares `a` and `b` are free and the squares `c` and `d` are not attacked by the other side.
pub open spec fn castle_path(s: GameState, free: Seq<u8>, safe: Seq<u8>) -> bool {
    let all = s.friendly().occupancy() | s.enemy().occupancy();
    &&& forall|i: int| 0 <= i < free.len() ==> !holds(all, #[trigger] free[i])
    &&& forall|i: int|
        0 <= i < safe.len() ==> !attacked(s.boards, #[trigger] safe[i], s.flags.active.other())
}

/// The castles: for each right that the side to move holds, the squares between
/// king and rook are free, and the king neither stands on nor crosses an attacked
/// square. Where it lands is not looked at here.
pub open spec fn castle_moves(s: GameState) -> Seq<Move> {
    let white = s.flags.active == Color::White;
    (if white && s.flags.white_king && castle_path(s, seq![5u8, 6u8], seq![4u8, 5u8]) {
        seq![encode(4, 6, KING_CASTLE)]
    } else {
        Seq::empty()
    }) + (if white && s.flags.white_queen && castle_path(s, seq![1u8, 2u8, 3u8], seq![3u8, 4u8]) {
        seq![encode(4, 2, QUEEN_CASTLE)]
    } else {
        Seq::empty()
    }) + (if !white && s.flags.black_king && castle_path(s, seq![61u8, 62u8], seq![60u8, 61u8]) {
        seq![encode(60, 62, KING_CASTLE)]
    } else {
        Seq::empty()
    }) + (if !white && s.flags.black_queen && castle_path(
        s,
        seq![57u8, 58u8, 59u8],
        seq![59u8, 60u8],
    ) {
        seq![encode(60, 58, QUEEN_CASTLE)]
    } else {
        Seq::empty()
    })
}

/// The moves of a knight on each square.
pub open spec fn knight_from(maps: &MoveMaps, own: u64, enemy: u64) -> spec_fn(u8) -> Seq<Move> {
    |from: u8| leaper_moves(from, maps.knight.targets(from), own, enemy)
}

/// The moves of a bishop on each square.
pub open spec fn diagonal_from(maps: &MoveMaps, own: u64, enemy: u64) -> spec_fn(u8) -> Seq<Move> {
    |from: u8| diagonal_moves(maps, from, own, enemy)
}

/// The moves of a rook on each square.
pub open spec fn straight_from(maps: &MoveMaps, own: u64, enemy: u64) -> spec_fn(u8) -> Seq<Move> {
    |from: u8| straight_moves(maps, from, own, enemy)
}

/// The moves of a pawn of the side to move on each square.
pub open spec fn pawn_from(s: GameState, maps: &MoveMaps) -> spec_fn(u8) -> Seq<Move> {
    |from: u8| pawn_moves_from(s, maps, from)
}

/// The moves of the king of the side to move.
pub open spec fn king_moves(s: GameState, maps: &MoveMaps) -> Seq<Move> {
    let king = lsb(s.friendly().king);
    leaper_moves(king, maps.king.targets(king), s.friendly().occupancy(), s.enemy().occupancy())
}

/// The pseudo-legal moves of the side to move, in the order in which they are
/// generated: knights, bishops, queens along diagonals, rooks, queens along ranks
/// and files, pawns, king, castles; the pieces of a kind from the lowest square up.
pub open spec fn pseudo_moves(s: GameState, maps: &MoveMaps) -> Seq<Move> {
    let mine = s.friendly();
    let own = mine.occupancy();
    let enemy = s.enemy().occupancy();
    each_square(mine.knight, knight_from(maps, own, enemy)) + each_square(
        mine.bishop,
        diagonal_from(maps, own, enemy),
    ) + each_square(mine.queen, diagonal_from(maps, own, enemy)) + each_square(
        mine.rook,
        straight_from(maps, own, enemy),
    ) + each_square(mine.queen, straight_from(maps, own, enemy)) + each_square(
        mine.pawn,
        pawn_from(s, maps),
    ) + king_moves(s, maps) + castle_moves(s)
}

/// What is gathered is no longer than the range times the longest part.
pub proof fn lemma_gather_up_len(b: u64, lo: int, hi: int, f: spec_fn(u8) -> Seq<Move>, k: int)
    requires
        0 <= lo <= hi <= 64,
        0 <= k,
        forall|x: u8| #[trigger] f(x).len() <= k,
    ensures
        gather_up(b, lo, hi, f).len() <= k * (hi - lo),
    decreases hi - lo,
{
    if lo < hi {
        lemma_gather_up_len(b, lo + 1, hi, f, k);
        assert(f(lo as u8).len() <= k);
        assert(k + k * (hi - lo - 1) == k * (hi - lo)) by (nonlinear_arith);
    } else {
        assert(k * (hi - lo) == 0) by (nonlinear_arith)
            requires
                hi - lo == 0,
        ;
    }
}

pub proof fn lemma_gather_down_len(b: u64, lo: int, hi: int, f: spec_fn(u8) -> Seq<Move>, k: int)
    requires
        0 <= lo <= hi <= 64,
        0 <= k,
        forall|x: u8| #[trigger] f(x).len() <= k,
    ensures
        gather_down(b, lo, hi, f).len() <= k * (hi - lo),
    decreases hi - lo,
{
    if lo < hi {
        lemma_gather_down_len(b, lo, hi - 1, f, k);
        assert(f((hi - 1) as u8).len() <= k);
        assert(k + k * (hi - lo - 1) == k * (hi - lo)) by (nonlinear_arith);
    } else {
        assert(k * (hi - lo) == 0) by (nonlinear_arith)
            requires
                hi - lo == 0,
        ;
    }
}

proof fn lemma_leaper_len(from: u8, targets: u64, own: u64, enemy: u64)
    ensures
        leaper_moves(from, targets, own, enemy).len() <= 128,
{
    lemma_gather_up_len((targets & !own) & enemy, 0, 64, one(from, CAPTURE), 1);
    lemma_gather_up_len((targets & !own) & !enemy, 0, 64, one(from, QUIET_MOVE), 1);
}

proof fn lemma_ray_len(from: u8, ray: u64, own: u64, enemy: u64)
    ensures
        ray_up_moves(from, ray, own, enemy).len() <= 65,
        ray_down_moves(from, ray, own, enemy).len() <= 65,
{
    lemma_lsb(own & ray);
    lemma_lsb(enemy & ray);
    lemma_msb(own & ray);
    lemma_msb(enemy & ray);
    let f = lsb(own & ray);
    let e = lsb(enemy & ray);
    lemma_gather_up_len(ray, 0, if e < f { e as int } else { f as int }, one(from, QUIET_MOVE), 1);
    let f2 = msb(own & ray);
    let e2 = msb(enemy & ray);
    lemma_gather_down_len(
        ray,
        if e2 > f2 { e2 + 1 } else { f2 + 1 },
        64,
        one(from, QUIET_MOVE),
        1,
    );
}

proof fn lemma_slider_len(maps: &MoveMaps, from: u8, own: u64, enemy: u64)
    ensures
        diagonal_moves(maps, from, own, enemy).len() <= 260,
        straight_moves(maps, from, own, enemy).len() <= 260,
{
    lemma_ray_len(from, maps.ne_diagonal.targets(from), own, enemy);
    lemma_ray_len(from, maps.nw_diagonal.targets(from), own, enemy);
    lemma_ray_len(from, maps.se_diagonal.targets(from), own, enemy);
    lemma_ray_len(from, maps.sw_diagonal.targets(from), own, enemy);
    lemma_ray_len(from, maps.n_file.targets(from), own, enemy);
    lemma_ray_len(from, maps.s_file.targets(from), own, enemy);
    lemma_ray_len(from, maps.e_rank.targets(from), own, enemy);
    lemma_ray_len(from, maps.w_rank.targets(from), own, enemy);
}

proof fn lemma_pawn_len(s: GameState, maps: &MoveMaps, from: u8)
    ensures
        pawn_moves_from(s, maps, from).len() <= 576,
{
    lemma_gather_up_len(
        pawn_passive(s, maps, from),
        0,
        64,
        push_moves(from, will_promote(s, from)),
        4,
    );
    lemma_gather_up_len(pawn_double_board(s, maps, from), 0, 64, one(from, DOUBLE_PAWN_PUSH), 1);
    lemma_gather_up_len(
        pawn_attack_board(s, maps, from),
        0,
        64,
        pawn_capture_moves(from, will_promote(s, from), s.en_passant, s.enemy().occupancy()),
        4,
    );
}

/// The most pseudo-legal moves that any position can have, by a generous count.
pub const MOST_MOVES: usize = 120000;

/// No position has more than [`MOST_MOVES`] pseudo-legal moves.
pub proof fn lemma_pseudo_moves_len(s: GameState, maps: &MoveMaps)
    ensures
        pseudo_moves(s, maps).len() <= MOST_MOVES,
{
    let mine = s.friendly();
    let own = mine.occupancy();
    let enemy = s.enemy().occupancy();
    assert forall|x: u8| #[trigger] knight_from(maps, own, enemy)(x).len() <= 128 by {
        lemma_leaper_len(x, maps.knight.targets(x), own, enemy);
    }
    assert forall|x: u8| #[trigger] diagonal_from(maps, own, enemy)(x).len() <= 260 by {
        lemma_slider_len(maps, x, own, enemy);
    }
    assert forall|x: u8| #[trigger] straight_from(maps, own, enemy)(x).len() <= 260 by {
        lemma_slider_len(maps, x, own, enemy);
    }
    assert forall|x: u8| #[trigger] pawn_from(s, maps)(x).len() <= 576 by {
        lemma_pawn_len(s, maps, x);
    }
    lemma_gather_up_len(mine.knight, 0, 64, knight_from(maps, own, enemy), 128);
    lemma_gather_up_len(mine.bishop, 0, 64, diagonal_from(maps, own, enemy), 260);
    lemma_gather_up_len(mine.queen, 0, 64, diagonal_from(maps, own, enemy), 260);
    lemma_gather_up_len(mine.rook, 0, 64, straight_from(maps, own, enemy), 260);
    lemma_gather_up_len(mine.queen, 0, 64, straight_from(maps, own, enemy), 260);
    lemma_gather_up_len(mine.pawn, 0, 64, pawn_from(s, maps), 576);
    let king = lsb(mine.king);
    lemma_leaper_len(king, maps.king.targets(king), own, enemy);
    assert(castle_moves(s).len() <= 4);
}

} // verus!
