//! Per-square target tables for every piece type and direction, built once by
//! stepping over the board.

use vstd::prelude::*;
use crate::bitboard::{BitBoard, BitBoardExt, EMPTY, file_mask, rank_mask, lemma_file_mask, lemma_rank_mask, square_bit};
use crate::bits::{bit, holds, group_holds};
use crate::bits::lemma_and_bit;
use crate::color::Color;
use crate::square::Square;

verus! {

/// The file of a square, 0 for the a-file.
pub open spec fn file_of(sq: u8) -> int {
    (sq % 8) as int
}

/// The rank of a square, 0 for the first rank.
pub open spec fn rank_of(sq: u8) -> int {
    (sq / 8) as int
}

pub open spec fn dist(a: int, b: int) -> int {
    if a >= b {
        a - b
    } else {
        b - a
    }
}

/// `k` steps along one axis in direction `d`, which is -1, 0 or 1.
pub open spec fn scale(d: int, k: int) -> int {
    if d > 0 {
        k
    } else if d < 0 {
        -k
    } else {
        0
    }
}

/// The number of king steps between two squares.
pub open spec fn steps(s: u8, t: u8) -> int {
    let a = dist(file_of(s), file_of(t));
    let b = dist(rank_of(s), rank_of(t));
    if a >= b {
        a
    } else {
        b
    }
}

/// A knight on `s` reaches `t`.
pub open spec fn knight_step(s: u8, t: u8) -> bool {
    let a = dist(file_of(s), file_of(t));
    let b = dist(rank_of(s), rank_of(t));
    s < 64 && t < 64 && ((a == 1 && b == 2) || (a == 2 && b == 1))
}

/// A king on `s` reaches `t`.
pub open spec fn king_step(s: u8, t: u8) -> bool {
    s < 64 && t < 64 && steps(s, t) == 1
}

/// `t` lies on the ray that leaves `s` in direction (`df`, `dr`), each of them -1, 0 or 1.
pub open spec fn on_ray(df: int, dr: int, s: u8, t: u8) -> bool {
    let k = steps(s, t);
    &&& s < 64
    &&& t < 64
    &&& k >= 1
    &&& file_of(t) == file_of(s) + scale(df, k)
    &&& rank_of(t) == rank_of(s) + scale(dr, k)
}

/// Towards the opponent's side: up the board for white, down for black.
pub open spec fn forward(c: Color) -> int {
    match c {
        Color::White => 1,
        Color::Black => -1,
    }
}

/// A pawn of color `c` on `s` pushes one square to `t`.
pub open spec fn pawn_push(c: Color, s: u8, t: u8) -> bool {
    s < 64 && t < 64 && file_of(t) == file_of(s) && rank_of(t) == rank_of(s) + forward(c)
}

/// A pawn of color `c` on its starting rank `s` pushes two squares to `t`.
pub open spec fn pawn_double(c: Color, s: u8, t: u8) -> bool {
    &&& s < 64
    &&& t < 64
    &&& file_of(t) == file_of(s)
    &&& rank_of(t) == rank_of(s) + 2 * forward(c)
    &&& rank_of(s) == (if c == Color::White { 1int } else { 6int })
}

/// A pawn of color `c` on `s` attacks `t`.
pub open spec fn pawn_attack(c: Color, s: u8, t: u8) -> bool {
    s < 64 && t < 64 && dist(file_of(t), file_of(s)) == 1 && rank_of(t) == rank_of(s) + forward(c)
}

/// One target table: for each square, the board of its targets.
pub struct MoveMap(pub [BitBoard; 64]);

impl MoveMap {
    /// The targets of square `sq`.
    pub open spec fn targets(self, sq: u8) -> u64 {
        self.0@[sq as int]
    }

    /// The table holds exactly the pairs of the relation `rel`.
    pub open spec fn tabulates(self, rel: spec_fn(u8, u8) -> bool) -> bool {
        forall|s: u8, t: u8| s < 64 ==> #[trigger] holds(self.targets(s), t) == rel(s, t)
    }

    /// The targets of square `sq`.
    pub fn get(&self, sq: Square) -> (b: BitBoard)
        requires
            sq.valid(),
        ensures
            b == self.targets(sq.0),
    {
        self.0[sq.0 as usize]
    }

    /// The targets of square `sq`.
    pub fn at(&self, sq: u8) -> (b: BitBoard)
        requires
            sq < 64,
        ensures
            b == self.targets(sq),
    {
        self.0[sq as usize]
    }
}

pub struct MoveMaps {
    pub knight: MoveMap,
    pub king: MoveMap,
    pub ne_diagonal: MoveMap,
    pub nw_diagonal: MoveMap,
    pub sw_diagonal: MoveMap,
    pub se_diagonal: MoveMap,
    pub e_rank: MoveMap,
    pub w_rank: MoveMap,
    pub n_file: MoveMap,
    pub s_file: MoveMap,
    pub white_pawn_passive: MoveMap,
    pub black_pawn_passive: MoveMap,
    pub white_pawn_double: MoveMap,
    pub black_pawn_double: MoveMap,
    pub white_pawn_attack: MoveMap,
    pub black_pawn_attack: MoveMap,
}

/// Square `s` plus offset number `k` is on the board and `s` is outside the mask that forbids it.
pub open spec fn offset_hits(offsets: Seq<i8>, illegal: Seq<u64>, s: u8, t: u8, k: int) -> bool {
    &&& 0 <= k < offsets.len()
    &&& k < illegal.len()
    &&& t < 64
    &&& t == s + offsets[k]
    &&& !holds(illegal[k], s)
}

/// Some offset leads from `s` to `t`.
pub open spec fn offset_target(offsets: Seq<i8>, illegal: Seq<u64>, s: u8, t: u8) -> bool {
    exists|k: int| #[trigger] offset_hits(offsets, illegal, s, t, k)
}

/// Stepping from `p` in direction (`df`, `dr`) leaves the board.
pub open spec fn at_edge(df: int, dr: int, p: u8) -> bool {
    !(0 <= file_of(p) + df < 8 && 0 <= rank_of(p) + dr < 8)
}

impl MoveMaps {
    /// Every table holds the targets that the rules of movement give.
    pub open spec fn valid(&self) -> bool {
        &&& self.knight.tabulates(|s: u8, t: u8| knight_step(s, t))
        &&& self.king.tabulates(|s: u8, t: u8| king_step(s, t))
        &&& self.ne_diagonal.tabulates(|s: u8, t: u8| on_ray(1, 1, s, t))
        &&& self.nw_diagonal.tabulates(|s: u8, t: u8| on_ray(-1, 1, s, t))
        &&& self.sw_diagonal.tabulates(|s: u8, t: u8| on_ray(-1, -1, s, t))
        &&& self.se_diagonal.tabulates(|s: u8, t: u8| on_ray(1, -1, s, t))
        &&& self.e_rank.tabulates(|s: u8, t: u8| on_ray(1, 0, s, t))
        &&& self.w_rank.tabulates(|s: u8, t: u8| on_ray(-1, 0, s, t))
        &&& self.n_file.tabulates(|s: u8, t: u8| on_ray(0, 1, s, t))
        &&& self.s_file.tabulates(|s: u8, t: u8| on_ray(0, -1, s, t))
        &&& self.white_pawn_passive.tabulates(|s: u8, t: u8| pawn_push(Color::White, s, t))
        &&& self.black_pawn_passive.tabulates(|s: u8, t: u8| pawn_push(Color::Black, s, t))
        &&& self.white_pawn_double.tabulates(|s: u8, t: u8| pawn_double(Color::White, s, t))
        &&& self.black_pawn_double.tabulates(|s: u8, t: u8| pawn_double(Color::Black, s, t))
        &&& self.white_pawn_attack.tabulates(|s: u8, t: u8| pawn_attack(Color::White, s, t))
        &&& self.black_pawn_attack.tabulates(|s: u8, t: u8| pawn_attack(Color::Black, s, t))
    }

    fn in_bounds(a: i8) -> (r: bool)
        ensures
            r == (0 <= a < 64),
    {
        0 <= a && a < 64
    }

    /// For each square, the squares reached by one of the offsets; an offset does not
    /// apply on the squares of the mask that goes with it.
    fn generate_from_offsets(offsets: Vec<i8>, illegal_files: Vec<BitBoard>) -> (map: MoveMap)
        requires
            forall|k: int| 0 <= k < offsets@.len() ==> -64 <= #[trigger] offsets@[k] <= 64,
        ensures
            map.tabulates(|s: u8, t: u8| offset_target(offsets@, illegal_files@, s, t)),
    {
        let mut map = MoveMap([0; 64]);
        let n = if offsets.len() < illegal_files.len() {
            offsets.len()
        } else {
            illegal_files.len()
        };
        let mut i: i8 = 0;
        while i < 64
            invariant
                0 <= i <= 64,
                n <= offsets@.len(),
                n <= illegal_files@.len(),
                n == offsets@.len() || n == illegal_files@.len(),
                forall|k: int| 0 <= k < offsets@.len() ==> -64 <= #[trigger] offsets@[k] <= 64,
                forall|s: u8, t: u8|
                    s < i ==> #[trigger] holds(map.targets(s), t) == offset_target(
                        offsets@,
                        illegal_files@,
                        s,
                        t,
                    ),
            decreases 64 - i,
        {
            let mut board: BitBoard = EMPTY;
            let mut k: usize = 0;
            proof {
                broadcast use group_holds;
            }
            while k < n
                invariant
                    0 <= i < 64,
                    k <= n,
                    n <= offsets@.len(),
                    n <= illegal_files@.len(),
                    forall|j: int| 0 <= j < offsets@.len() ==> -64 <= #[trigger] offsets@[j] <= 64,
                    forall|t: u8|
                        #[trigger] holds(board, t) == exists|j: int|
                            j < k && #[trigger] offset_hits(offsets@, illegal_files@, i as u8, t, j),
                decreases n - k,
            {
                let offset = offsets[k];
                let illegal_file = illegal_files[k];
                let to = i + offset;
                let ghost prev = board;
                if MoveMaps::in_bounds(to) && (illegal_file & square_bit(i as u8) == EMPTY) {
                    board = board | square_bit(to as u8);
                }
                proof {
                    broadcast use group_holds;
                    lemma_and_bit(illegal_file, i as u8);
                    assert forall|t: u8| #[trigger] holds(board, t) == exists|j: int|
                        j < k + 1 && #[trigger] offset_hits(offsets@, illegal_files@, i as u8, t, j) by {
                        let hit = offset_hits(offsets@, illegal_files@, i as u8, t, k as int);
                        assert(holds(board, t) == (holds(prev, t) || hit));
                        if holds(prev, t) {
                            let j = choose|j: int|
                                j < k && #[trigger] offset_hits(offsets@, illegal_files@, i as u8, t, j);
                            assert(j < k + 1 && #[trigger] offset_hits(
                                offsets@,
                                illegal_files@,
                                i as u8,
                                t,
                                j,
                            ));
                        }
                        if exists|j: int|
                            j < k + 1 && #[trigger] offset_hits(offsets@, illegal_files@, i as u8, t, j) {
                            let j = choose|j: int|
                                j < k + 1 && #[trigger] offset_hits(offsets@, illegal_files@, i as u8, t, j);
                            if j < k {
                                assert(holds(prev, t));
                            }
                        }
                    }
                }
                k += 1;
            }
            let ghost before = map;
            map.0[i as usize] = board;
            proof {
                assert forall|s: u8, t: u8| s < i + 1 implies #[trigger] holds(map.targets(s), t)
                    == offset_target(offsets@, illegal_files@, s, t) by {
                    if s < i {
                        assert(map.targets(s) == before.targets(s));
                    } else {
                        assert(map.targets(s) == board);
                        if holds(board, t) {
                            let j = choose|j: int|
                                j < n && #[trigger] offset_hits(offsets@, illegal_files@, i as u8, t, j);
                            assert(offset_hits(offsets@, illegal_files@, s, t, j));
                        }
                        if offset_target(offsets@, illegal_files@, s, t) {
                            let j = choose|j: int| #[trigger] offset_hits(offsets@, illegal_files@, s, t, j);
                            assert(j < n && #[trigger] offset_hits(offsets@, illegal_files@, i as u8, t, j));
                        }
                    }
                }
            }
            i += 1;
        }
        map
    }

    fn generate_knight_map() -> (map: MoveMap)
        ensures
            map.tabulates(|s: u8, t: u8| knight_step(s, t)),
    {
        let a_file = BitBoard::column(0);
        let ab_file = a_file | BitBoard::column(1);
        let h_file = BitBoard::column(7);
        let gh_file = h_file | BitBoard::column(6);

        let offsets: Vec<i8> = vec![-17, -15, -10, -6, 6, 10, 15, 17];

        let illegal_files: Vec<BitBoard> = vec![
            a_file,
            h_file,
            ab_file,
            gh_file,
            ab_file,
            gh_file,
            a_file,
            h_file,
        ];
        let ghost o = offsets@;
        let ghost m = illegal_files@;
        let map = MoveMaps::generate_from_offsets(offsets, illegal_files);
        proof {
            assert forall|s: u8, t: u8| s < 64 implies #[trigger] holds(map.targets(s), t)
                == knight_step(s, t) by {
                lemma_knight_offsets(o, m, s, t);
            }
        }
        map
    }

    fn generate_king_map() -> (map: MoveMap)
        ensures
            map.tabulates(|s: u8, t: u8| king_step(s, t)),
    {
        let a_file = BitBoard::column(0);
        let h_file = BitBoard::column(7);
        let offsets: Vec<i8> = vec![-9, -8, -7, -1, 1, 7, 8, 9];
        let illegal_files: Vec<BitBoard> = vec![
            a_file,
            EMPTY,
            h_file,
            a_file,
            h_file,
            a_file,
            EMPTY,
            h_file,
        ];
        let ghost o = offsets@;
        let ghost m = illegal_files@;
        let map = MoveMaps::generate_from_offsets(offsets, illegal_files);
        proof {
            assert forall|s: u8, t: u8| s < 64 implies #[trigger] holds(map.targets(s), t)
                == king_step(s, t) by {
                lemma_king_offsets(o, m, s, t);
            }
        }
        map
    }

    /// The pushes, double pushes or attacks of the pawns of one color.
    fn generate_pawn_map(c: Color, kind: PawnMap) -> (map: MoveMap)
        ensures
            kind == PawnMap::Passive ==> map.tabulates(|s: u8, t: u8| pawn_push(c, s, t)),
            kind == PawnMap::Double ==> map.tabulates(|s: u8, t: u8| pawn_double(c, s, t)),
            kind == PawnMap::Attack ==> map.tabulates(|s: u8, t: u8| pawn_attack(c, s, t)),
    {
        let white = c == Color::White;
        let a_file = BitBoard::column(0);
        let h_file = BitBoard::column(7);
        let (offsets, illegal_files): (Vec<i8>, Vec<BitBoard>) = match kind {
            PawnMap::Passive => if white {
                (vec![8], vec![BitBoard::row(7)])
            } else {
                (vec![-8], vec![BitBoard::row(0)])
            },
            PawnMap::Double => if white {
                (vec![16], vec![!BitBoard::row(1)])
            } else {
                (vec![-16], vec![!BitBoard::row(6)])
            },
            PawnMap::Attack => if white {
                (vec![7, 9], vec![a_file, h_file])
            } else {
                (vec![-7, -9], vec![h_file, a_file])
            },
        };
        let ghost o = offsets@;
        let ghost m = illegal_files@;
        let map = MoveMaps::generate_from_offsets(offsets, illegal_files);
        proof {
            assert forall|s: u8, t: u8| s < 64 implies (kind == PawnMap::Passive ==> #[trigger] holds(
                map.targets(s),
                t,
            ) == pawn_push(c, s, t)) && (kind == PawnMap::Double ==> holds(map.targets(s), t)
                == pawn_double(c, s, t)) && (kind == PawnMap::Attack ==> holds(map.targets(s), t)
                == pawn_attack(c, s, t)) by {
                lemma_pawn_offsets(c, kind, o, m, s, t);
            }
        }
        map
    }

    /// For each square, the ray that leaves it in steps of `direction` and ends on
    /// the first square of `stop_mask`.
    fn generate_from_direction(
        direction: i8,
        stop_mask: BitBoard,
        Ghost(df): Ghost<int>,
        Ghost(dr): Ghost<int>,
    ) -> (map: MoveMap)
        requires
            -1 <= df <= 1,
            -1 <= dr <= 1,
            df != 0 || dr != 0,
            direction == 8 * dr + df,
            forall|p: u8| p < 64 ==> #[trigger] holds(stop_mask, p) == at_edge(df, dr, p),
        ensures
            map.tabulates(|s: u8, t: u8| on_ray(df, dr, s, t)),
    {
        let mut map = MoveMap([0; 64]);
        let mut i: i8 = 0;
        while i < 64
            invariant
                0 <= i <= 64,
                -1 <= df <= 1,
                -1 <= dr <= 1,
                df != 0 || dr != 0,
                direction == 8 * dr + df,
                forall|p: u8| p < 64 ==> #[trigger] holds(stop_mask, p) == at_edge(df, dr, p),
                forall|s: u8, t: u8|
                    s < i ==> #[trigger] holds(map.targets(s), t) == on_ray(df, dr, s, t),
            decreases 64 - i,
        {
            let mut board: BitBoard = 0;
            let mut curr_pos: i8 = i;
            let mut curr_board: BitBoard = square_bit(curr_pos as u8);
            let ghost mut j: int = 0;
            proof {
                broadcast use group_holds;
                lemma_and_bit(stop_mask, curr_pos as u8);
            }
            while stop_mask & curr_board == EMPTY
                invariant
                    0 <= i < 64,
                    0 <= curr_pos < 64,
                    0 <= j <= 7,
                    -1 <= df <= 1,
                    -1 <= dr <= 1,
                    df != 0 || dr != 0,
                    direction == 8 * dr + df,
                    curr_board == bit(curr_pos as u8),
                    (stop_mask & curr_board != 0) == holds(stop_mask, curr_pos as u8),
                    file_of(curr_pos as u8) == file_of(i as u8) + scale(df, j),
                    rank_of(curr_pos as u8) == rank_of(i as u8) + scale(dr, j),
                    forall|p: u8| p < 64 ==> #[trigger] holds(stop_mask, p) == at_edge(df, dr, p),
                    forall|t: u8|
                        #[trigger] holds(board, t) == (on_ray(df, dr, i as u8, t) && steps(
                            i as u8,
                            t,
                        ) <= j),
                decreases 7 - j,
            {
                let ghost prev = board;
                let ghost old_pos = curr_pos as u8;
                assert(!at_edge(df, dr, old_pos));
                curr_pos = curr_pos + direction;
                curr_board = square_bit(curr_pos as u8);
                board = board | curr_board;
                proof {
                    broadcast use group_holds;
                    j = j + 1;
                    lemma_and_bit(stop_mask, curr_pos as u8);
                    assert(file_of(curr_pos as u8) == file_of(old_pos) + df);
                    assert(rank_of(curr_pos as u8) == rank_of(old_pos) + dr);
                    assert forall|t: u8| #[trigger] holds(board, t) == (on_ray(df, dr, i as u8, t)
                        && steps(i as u8, t) <= j) by {
                        assert(holds(board, t) == (holds(prev, t) || t == curr_pos as u8));
                        if on_ray(df, dr, i as u8, t) && steps(i as u8, t) == j {
                            assert(file_of(t) == file_of(curr_pos as u8));
                            assert(rank_of(t) == rank_of(curr_pos as u8));
                            assert(t == curr_pos as u8);
                        }
                    }
                }
            }
            let ghost before = map;
            map.0[i as usize] = board;
            proof {
                assert forall|s: u8, t: u8| s < i + 1 implies #[trigger] holds(map.targets(s), t)
                    == on_ray(df, dr, s, t) by {
                    if s < i {
                        assert(map.targets(s) == before.targets(s));
                    } else {
                        assert(map.targets(s) == board);
                        assert(at_edge(df, dr, curr_pos as u8));
                        if on_ray(df, dr, s, t) && steps(s, t) > j {
                        }
                    }
                }
            }
            i += 1;
        }
        map
    }

    pub fn new() -> (maps: MoveMaps)
        ensures
            maps.valid(),
    {
        let a_file = BitBoard::column(0);
        let h_file = BitBoard::column(7);
        let rank_1 = BitBoard::row(0);
        let rank_8 = BitBoard::row(7);
        proof {
            broadcast use {group_holds, lemma_file_mask, lemma_rank_mask};
        }
        MoveMaps {
            knight: MoveMaps::generate_knight_map(),
            king: MoveMaps::generate_king_map(),
            ne_diagonal: MoveMaps::generate_from_direction(9, h_file | rank_8, Ghost(1), Ghost(1)),
            nw_diagonal: MoveMaps::generate_from_direction(
                7,
                a_file | rank_8,
                Ghost(-1),
                Ghost(1),
            ),
            sw_diagonal: MoveMaps::generate_from_direction(
                -9,
                a_file | rank_1,
                Ghost(-1),
                Ghost(-1),
            ),
            se_diagonal: MoveMaps::generate_from_direction(
                -7,
                h_file | rank_1,
                Ghost(1),
                Ghost(-1),
            ),
            e_rank: MoveMaps::generate_from_direction(1, h_file, Ghost(1), Ghost(0)),
            w_rank: MoveMaps::generate_from_direction(-1, a_file, Ghost(-1), Ghost(0)),
            n_file: MoveMaps::generate_from_direction(8, rank_8, Ghost(0), Ghost(1)),
            s_file: MoveMaps::generate_from_direction(-8, rank_1, Ghost(0), Ghost(-1)),
            white_pawn_passive: MoveMaps::generate_pawn_map(Color::White, PawnMap::Passive),
            black_pawn_passive: MoveMaps::generate_pawn_map(Color::Black, PawnMap::Passive),
            white_pawn_double: MoveMaps::generate_pawn_map(Color::White, PawnMap::Double),
            black_pawn_double: MoveMaps::generate_pawn_map(Color::Black, PawnMap::Double),
            white_pawn_attack: MoveMaps::generate_pawn_map(Color::White, PawnMap::Attack),
            black_pawn_attack: MoveMaps::generate_pawn_map(Color::Black, PawnMap::Attack),
        }
    }
}

/// The three tables that pawns need.
#[derive(Clone, Copy, Debug, PartialEq, Eq, Structural)]
pub enum PawnMap {
    Passive,
    Double,
    Attack,
}

proof fn lemma_knight_offsets(o: Seq<i8>, m: Seq<u64>, s: u8, t: u8)
    requires
        s < 64,
        o =~= seq![-17i8, -15i8, -10i8, -6i8, 6i8, 10i8, 15i8, 17i8],
        m =~= seq![
            file_mask(0),
            file_mask(7),
            file_mask(0) | file_mask(1),
            file_mask(7) | file_mask(6),
            file_mask(0) | file_mask(1),
            file_mask(7) | file_mask(6),
            file_mask(0),
            file_mask(7),
        ],
    ensures
        offset_target(o, m, s, t) == knight_step(s, t),
{
    broadcast use {group_holds, lemma_file_mask};
    if knight_step(s, t) {
        let d = t - s;
        let k: int = if d == -17 {
            0
        } else if d == -15 {
            1
        } else if d == -10 {
            2
        } else if d == -6 {
            3
        } else if d == 6 {
            4
        } else if d == 10 {
            5
        } else if d == 15 {
            6
        } else {
            7
        };
        assert(offset_hits(o, m, s, t, k));
    }
    if offset_target(o, m, s, t) {
        let k = choose|k: int| #[trigger] offset_hits(o, m, s, t, k);
        assert(k == 0 || k == 1 || k == 2 || k == 3 || k == 4 || k == 5 || k == 6 || k == 7);
        assert(knight_step(s, t));
    }
}

proof fn lemma_king_offsets(o: Seq<i8>, m: Seq<u64>, s: u8, t: u8)
    requires
        s < 64,
        o =~= seq![-9i8, -8i8, -7i8, -1i8, 1i8, 7i8, 8i8, 9i8],
        m =~= seq![
            file_mask(0),
            0u64,
            file_mask(7),
            file_mask(0),
            file_mask(7),
            file_mask(0),
            0u64,
            file_mask(7),
        ],
    ensures
        offset_target(o, m, s, t) == king_step(s, t),
{
    broadcast use {group_holds, lemma_file_mask};
    if king_step(s, t) {
        let d = t - s;
        let k: int = if d == -9 {
            0
        } else if d == -8 {
            1
        } else if d == -7 {
            2
        } else if d == -1 {
            3
        } else if d == 1 {
            4
        } else if d == 7 {
            5
        } else if d == 8 {
            6
        } else {
            7
        };
        assert(offset_hits(o, m, s, t, k));
    }
    if offset_target(o, m, s, t) {
        let k = choose|k: int| #[trigger] offset_hits(o, m, s, t, k);
        assert(k == 0 || k == 1 || k == 2 || k == 3 || k == 4 || k == 5 || k == 6 || k == 7);
        assert(king_step(s, t));
    }
}

proof fn lemma_pawn_offsets(c: Color, kind: PawnMap, o: Seq<i8>, m: Seq<u64>, s: u8, t: u8)
    requires
        s < 64,
        kind == PawnMap::Passive && c == Color::White ==> o =~= seq![8i8] && m =~= seq![rank_mask(7)],
        kind == PawnMap::Passive && c == Color::Black ==> o =~= seq![-8i8] && m =~= seq![
            rank_mask(0),
        ],
        kind == PawnMap::Double && c == Color::White ==> o =~= seq![16i8] && m =~= seq![
            !rank_mask(1),
        ],
        kind == PawnMap::Double && c == Color::Black ==> o =~= seq![-16i8] && m =~= seq![
            !rank_mask(6),
        ],
        kind == PawnMap::Attack && c == Color::White ==> o =~= seq![7i8, 9i8] && m =~= seq![
            file_mask(0),
            file_mask(7),
        ],
        kind == PawnMap::Attack && c == Color::Black ==> o =~= seq![-7i8, -9i8] && m =~= seq![
            file_mask(7),
            file_mask(0),
        ],
    ensures
        kind == PawnMap::Passive ==> offset_target(o, m, s, t) == pawn_push(c, s, t),
        kind == PawnMap::Double ==> offset_target(o, m, s, t) == pawn_double(c, s, t),
        kind == PawnMap::Attack ==> offset_target(o, m, s, t) == pawn_attack(c, s, t),
{
    broadcast use {group_holds, lemma_file_mask, lemma_rank_mask};
    let rel = match kind {
        PawnMap::Passive => pawn_push(c, s, t),
        PawnMap::Double => pawn_double(c, s, t),
        PawnMap::Attack => pawn_attack(c, s, t),
    };
    if rel {
        let d = t - s;
        let k: int = if kind == PawnMap::Attack && (d == 9 || d == -9) {
            1
        } else {
            0
        };
        assert(offset_hits(o, m, s, t, k));
    }
    if offset_target(o, m, s, t) {
        let k = choose|k: int| #[trigger] offset_hits(o, m, s, t, k);
        assert(k == 0 || k == 1);
        assert(rel);
    }
}

/// Two tables that hold the same relation are the same.
pub proof fn lemma_tables_equal(a: MoveMap, b: MoveMap, rel: spec_fn(u8, u8) -> bool)
    requires
        a.tabulates(rel),
        b.tabulates(rel),
    ensures
        a == b,
{
    assert forall|i: int| 0 <= i < 64 implies a.0@[i] == b.0@[i] by {
        let s = i as u8;
        assert forall|t: u8| t < 64 implies holds(a.targets(s), t) == holds(b.targets(s), t) by {
            assert(holds(a.targets(s), t) == rel(s, t));
            assert(holds(b.targets(s), t) == rel(s, t));
        }
        crate::bits::lemma_ext(a.targets(s), b.targets(s));
    }
    assert(a.0@ =~= b.0@);
    assert(a.0 == b.0);
}

/// The tables are what the rules of movement make them: there is one valid set only.
pub proof fn lemma_valid_maps_equal(a: &MoveMaps, b: &MoveMaps)
    requires
        a.valid(),
        b.valid(),
    ensures
        *a == *b,
{
    lemma_tables_equal(a.knight, b.knight, |s: u8, t: u8| knight_step(s, t));
    lemma_tables_equal(a.king, b.king, |s: u8, t: u8| king_step(s, t));
    lemma_tables_equal(a.ne_diagonal, b.ne_diagonal, |s: u8, t: u8| on_ray(1, 1, s, t));
    lemma_tables_equal(a.nw_diagonal, b.nw_diagonal, |s: u8, t: u8| on_ray(-1, 1, s, t));
    lemma_tables_equal(a.sw_diagonal, b.sw_diagonal, |s: u8, t: u8| on_ray(-1, -1, s, t));
    lemma_tables_equal(a.se_diagonal, b.se_diagonal, |s: u8, t: u8| on_ray(1, -1, s, t));
    lemma_tables_equal(a.e_rank, b.e_rank, |s: u8, t: u8| on_ray(1, 0, s, t));
    lemma_tables_equal(a.w_rank, b.w_rank, |s: u8, t: u8| on_ray(-1, 0, s, t));
    lemma_tables_equal(a.n_file, b.n_file, |s: u8, t: u8| on_ray(0, 1, s, t));
    lemma_tables_equal(a.s_file, b.s_file, |s: u8, t: u8| on_ray(0, -1, s, t));
    lemma_tables_equal(
        a.white_pawn_passive,
        b.white_pawn_passive,
        |s: u8, t: u8| pawn_push(Color::White, s, t),
    );
    lemma_tables_equal(
        a.black_pawn_passive,
        b.black_pawn_passive,
        |s: u8, t: u8| pawn_push(Color::Black, s, t),
    );
    lemma_tables_equal(
        a.white_pawn_double,
        b.white_pawn_double,
        |s: u8, t: u8| pawn_double(Color::White, s, t),
    );
    lemma_tables_equal(
        a.black_pawn_double,
        b.black_pawn_double,
        |s: u8, t: u8| pawn_double(Color::Black, s, t),
    );
    lemma_tables_equal(
        a.white_pawn_attack,
        b.white_pawn_attack,
        |s: u8, t: u8| pawn_attack(Color::White, s, t),
    );
    lemma_tables_equal(
        a.black_pawn_attack,
        b.black_pawn_attack,
        |s: u8, t: u8| pawn_attack(Color::Black, s, t),
    );
}

/// The tables that hold what the rules of movement give.
pub open spec fn rule_maps() -> MoveMaps {
    choose|maps: MoveMaps| maps.valid()
}

/// Every valid set of tables is [`rule_maps`].
pub proof fn lemma_rule_maps(maps: &MoveMaps)
    requires
        maps.valid(),
    ensures
        *maps == rule_maps(),
{
    lemma_valid_maps_equal(maps, &rule_maps());
}

} // verus!
