//! Pseudo-legal move generation and attack detection on bitboards.

use vstd::prelude::*;
use crate::attacks::{
    attacked, attacks_from, capture_in_decreasing_direction, capture_in_increasing_direction,
    clear_ray, diagonal_attack, is_direction, lemma_clear_ray_symmetric, lemma_nearest_target,
    straight_attack,
};
use crate::bitboard::{BitBoard, BitBoardExt, test_bit};
use crate::bits::{
    holds, lsb, msb, lemma_lsb, lemma_msb, group_holds, lemma_nonempty, lemma_member_nonzero,
};
use crate::chess_board::{ChessBoard, ChessBoardSide, PieceType};
use crate::color::Color;
use crate::game_state::GameState;
use crate::move_list::AddMove;
use crate::move_maps::{MoveMaps, on_ray, knight_step, king_step, pawn_attack};
use crate::moves::{
    Move, MoveExt, MoveCode, encode, CAPTURE, QUIET_MOVE, DOUBLE_PAWN_PUSH, EN_PASSANT,
    KING_CASTLE, QUEEN_CASTLE, KNIGHT_PROMOTION, BISHOP_PROMOTION, ROOK_PROMOTION,
    QUEEN_PROMOTION, KNIGHT_PROMOTION_CAPTURE, BISHOP_PROMOTION_CAPTURE, ROOK_PROMOTION_CAPTURE,
    QUEEN_PROMOTION_CAPTURE,
};
use crate::generation::{
    each_square, gather_up, gather_down, one, leaper_moves, ray_up_moves, ray_down_moves,
    knight_from, diagonal_from, straight_from, pawn_from, king_moves, castle_moves, castle_path,
    diagonal_moves, straight_moves, pawn_moves_from, push_moves, pawn_capture_moves,
    pseudo_moves, lemma_gather_up_first, lemma_gather_up_none,
    lemma_gather_down_first, lemma_gather_down_none,
};

use crate::square::Square;

verus! {

/// The bishops and queens of the attacker: what can attack along a diagonal.
pub open spec fn diagonal_targets(att: ChessBoardSide) -> u64 {
    att.bishop | att.queen
}

/// The rooks and queens of the attacker: what can attack along a rank or file.
pub open spec fn straight_targets(att: ChessBoardSide) -> u64 {
    att.rook | att.queen
}

/// Every piece that can neither attack along a diagonal nor along a rank or file.
pub open spec fn common_blocking(att: ChessBoardSide, def: ChessBoardSide) -> u64 {
    def.occupancy() | att.pawn | att.knight | att.king
}

pub struct MoveGenerator {
    pub move_maps: MoveMaps,
}

/// Along each ray from `sq`, what the slider check of that ray finds.
proof fn lemma_ray_check(
    boards: ChessBoard,
    by: Color,
    ray: u64,
    df: int,
    dr: int,
    diagonal: bool,
    sq: u8,
)
    requires
        boards.disjoint(),
        is_direction(df, dr),
        sq < 64,
        forall|t: u8| #[trigger] holds(ray, t) == on_ray(df, dr, sq, t),
    ensures
        ({
            let att = boards.side(by);
            let def = boards.side(by.other());
            let targets = if diagonal { diagonal_targets(att) } else { straight_targets(att) };
            let blocking = common_blocking(att, def) | (if diagonal { att.rook } else { att.bishop });
            let found = exists|p: u8|
                holds(targets, p) && #[trigger] clear_ray(boards.occupancy(), df, dr, sq, p);
            &&& 8 * dr + df > 0 ==> (lsb(ray & targets) < lsb(ray & blocking)) == found
            &&& 8 * dr + df < 0 ==> (msb(ray & targets) > msb(ray & blocking)) == found
        }),
{
    broadcast use group_holds;
    let att = boards.side(by);
    let def = boards.side(by.other());
    let targets = if diagonal { diagonal_targets(att) } else { straight_targets(att) };
    let blocking = common_blocking(att, def) | (if diagonal { att.rook } else { att.bishop });
    let occ = boards.occupancy();
    assert forall|x: u8| #[trigger] holds(occ, x) == (holds(targets, x) || holds(blocking, x)) by {
        att.lemma_occupancy(x);
        def.lemma_occupancy(x);
    }
    assert forall|x: u8| !(holds(targets, x) && holds(blocking, x)) by {
        att.lemma_exclusive(x);
        att.lemma_occupancy(x);
        def.lemma_occupancy(x);
        assert(!(holds(boards.white.occupancy(), x) && holds(boards.black.occupancy(), x)));
    }
    lemma_nearest_target(ray, targets, blocking, occ, df, dr, sq);
}

impl MoveGenerator {
    /// The tables hold what the rules of movement give.
    pub open spec fn wf(&self) -> bool {
        self.move_maps.valid()
    }

    pub fn new() -> (g: MoveGenerator)
        ensures
            g.wf(),
    {
        MoveGenerator { move_maps: MoveMaps::new() }
    }

    /// Adds the pseudo-legal moves of the side to move to the list, in the order of
    /// [`pseudo_moves`].
    pub fn get_pseudo_legal_moves<T: AddMove>(&self, state: &GameState, move_list: &mut T)
        requires
            self.wf(),
            state.boards.disjoint(),
            state.friendly().king != 0,
            old(move_list).open_ply(),
        ensures
            final(move_list).open_ply(),
            T::grown(old(move_list), final(move_list), pseudo_moves(*state, &self.move_maps)),
    {
        let ctx = MoveGeneratorContext::new(state, &self.move_maps);
        ctx.generate_pseudo_legal_moves(move_list);
    }

    /// Whether the king of the side to move is attacked.
    pub fn is_check(&self, state: &GameState) -> (r: bool)
        requires
            self.wf(),
            state.boards.disjoint(),
            state.friendly().king != 0,
        ensures
            r == attacked(state.boards, lsb(state.friendly().king), state.flags.active.other()),
    {
        let ctx = MoveGeneratorContext::new(state, &self.move_maps);
        ctx.is_check()
    }

    /// Whether the side that has just moved left its own king out of check: the
    /// king of the side that is not to move is not attacked.
    pub fn was_move_legal(&self, state: &GameState) -> (r: bool)
        requires
            self.wf(),
            state.boards.disjoint(),
            state.enemy().king != 0,
        ensures
            r == !attacked(state.boards, lsb(state.enemy().king), state.flags.active),
    {
        let ctx = MoveGeneratorContext::new(state, &self.move_maps);
        ctx.was_move_legal()
    }

    /// Whether the position is well formed and the side that is not to move is
    /// not in check: whether it can be searched.
    pub fn is_playable(&self, state: &GameState) -> (r: bool)
        requires
            self.wf(),
        ensures
            r == crate::soundness::playable(*state),
    {
        state.is_well_formed() && self.was_move_legal(state)
    }

    /// Whether a piece of color `by_color` attacks the square.
    pub fn is_square_attacked(&self, state: &GameState, square: Square, by_color: Color) -> (r:
        bool)
        requires
            self.wf(),
            square.valid(),
            state.boards.disjoint(),
        ensures
            r == attacked(state.boards, square.0, by_color),
    {
        let ctx = MoveGeneratorContext::new(state, &self.move_maps);
        ctx.is_square_attacked(square, by_color)
    }
}

/// What the generation of one position works on.
struct MoveGeneratorContext<'a> {
    state: &'a GameState,
    move_maps: &'a MoveMaps,
    friendly_pieces: &'a ChessBoardSide,
    enemy_pieces: &'a ChessBoardSide,
    friendly_occupation: BitBoard,
    enemy_occupation: BitBoard,
}

impl<'a> MoveGeneratorContext<'a> {
    spec fn wf(&self) -> bool {
        &&& self.move_maps.valid()
        &&& *self.friendly_pieces == self.state.friendly()
        &&& *self.enemy_pieces == self.state.enemy()
        &&& self.friendly_occupation == self.state.friendly().occupancy()
        &&& self.enemy_occupation == self.state.enemy().occupancy()
    }

    fn new(state: &'a GameState, move_maps: &'a MoveMaps) -> (ctx: MoveGeneratorContext<'a>)
        requires
            move_maps.valid(),
        ensures
            ctx.wf(),
            ctx.state == state,
            ctx.move_maps == move_maps,
    {
        let (friendly_pieces, enemy_pieces) = state.split_boards();
        MoveGeneratorContext {
            state,
            move_maps,
            friendly_pieces,
            enemy_pieces,
            friendly_occupation: friendly_pieces.union(),
            enemy_occupation: enemy_pieces.union(),
        }
    }

    /// Adds one move with the code `code` from `from` to each square of `targets`.
    fn add_targets<T: AddMove>(move_list: &mut T, from: u8, targets: BitBoard, code: MoveCode)
        requires
            old(move_list).open_ply(),
        ensures
            final(move_list).open_ply(),
            T::grown(old(move_list), final(move_list), each_square(targets, one(from, code))),
    {
        let ghost start = *move_list;
        let ghost f = one(from, code);
        let ghost mut done = Seq::<Move>::empty();
        let mut rem = targets;
        proof {
            T::grown_none(move_list);
            assert(done + each_square(rem, f) =~= each_square(targets, f));
        }
        while rem != 0
            invariant
                move_list.open_ply(),
                T::grown(&start, move_list, done),
                done + each_square(rem, f) == each_square(targets, f),
                f == one(from, code),
            decreases rem,
        {
            let ghost prev = *move_list;
            let ghost before = rem;
            proof {
                lemma_lsb(rem);
            }
            let to = rem.pop_lsb();
            let m = Move::new(from, to, code);
            move_list.add_move_to_ply(m);
            proof {
                crate::bits::lemma_clear_decreases(before, to);
                lemma_gather_up_first(before, 0, 64, f);
                T::grown_more(&start, &prev, move_list, done, seq![m]);
                assert((done + seq![m]) + each_square(rem, f) =~= done + (f(to) + each_square(
                    rem,
                    f,
                )));
                done = done + seq![m];
            }
        }
        proof {
            broadcast use group_holds;
            lemma_gather_up_none(0, 0, 64, f);
            assert(done + Seq::<Move>::empty() =~= done);
        }
    }

    fn get_pseudo_legal_knight_moves<T: AddMove>(&self, move_list: &mut T)
        requires
            self.wf(),
            old(move_list).open_ply(),
        ensures
            final(move_list).open_ply(),
            T::grown(
                old(move_list),
                final(move_list),
                each_square(
                    self.state.friendly().knight,
                    knight_from(
                        self.move_maps,
                        self.state.friendly().occupancy(),
                        self.state.enemy().occupancy(),
                    ),
                ),
            ),
    {
        let ghost start = *move_list;
        let ghost f = knight_from(self.move_maps, self.friendly_occupation, self.enemy_occupation);
        let ghost mut done = Seq::<Move>::empty();
        let mut knights = self.friendly_pieces.knight;
        proof {
            T::grown_none(move_list);
            assert(done + each_square(knights, f) =~= each_square(knights, f));
        }
        while knights != 0
            invariant
                self.wf(),
                move_list.open_ply(),
                T::grown(&start, move_list, done),
                done + each_square(knights, f) == each_square(self.friendly_pieces.knight, f),
                f == knight_from(self.move_maps, self.friendly_occupation, self.enemy_occupation),
            decreases knights,
        {
            let ghost before = knights;
            proof {
                lemma_lsb(knights);
            }
            let from = knights.pop_lsb();
            let ghost prev = *move_list;
            self.leaper_moves_from(move_list, from, self.move_maps.knight.at(from));
            proof {
                crate::bits::lemma_clear_decreases(before, from);
                lemma_gather_up_first(before, 0, 64, f);
                T::grown_more(&start, &prev, move_list, done, f(from));
                assert((done + f(from)) + each_square(knights, f) =~= done + (f(from)
                    + each_square(knights, f)));
                done = done + f(from);
            }
        }
        proof {
            broadcast use group_holds;
            lemma_gather_up_none(0, 0, 64, f);
            assert(done + Seq::<Move>::empty() =~= done);
        }
    }

    /// The captures, then the quiet moves, of a knight or king on `from` with the
    /// targets `targets`.
    fn leaper_moves_from<T: AddMove>(&self, move_list: &mut T, from: u8, targets: BitBoard)
        requires
            self.wf(),
            old(move_list).open_ply(),
        ensures
            final(move_list).open_ply(),
            T::grown(
                old(move_list),
                final(move_list),
                leaper_moves(from, targets, self.friendly_occupation, self.enemy_occupation),
            ),
    {
        let ghost start = *move_list;
        let to_board = targets & !self.friendly_occupation;
        let to_capture = to_board & self.enemy_occupation;
        let to_quiet = to_board & !self.enemy_occupation;
        MoveGeneratorContext::add_targets(move_list, from, to_capture, CAPTURE);
        let ghost mid = *move_list;
        MoveGeneratorContext::add_targets(move_list, from, to_quiet, QUIET_MOVE);
        proof {
            T::grown_more(
                &start,
                &mid,
                move_list,
                each_square(to_capture, one(from, CAPTURE)),
                each_square(to_quiet, one(from, QUIET_MOVE)),
            );
        }
    }

    fn get_pseudo_legal_moves_in_increasing_direction<T: AddMove>(
        &self,
        move_list: &mut T,
        direction: BitBoard,
        from: u8,
    )
        requires
            self.wf(),
            old(move_list).open_ply(),
        ensures
            final(move_list).open_ply(),
            T::grown(
                old(move_list),
                final(move_list),
                ray_up_moves(from, direction, self.friendly_occupation, self.enemy_occupation),
            ),
    {
        let ghost start = *move_list;
        let ghost f = one(from, QUIET_MOVE);
        // The first own and the first enemy piece along the ray.
        let friendly_sb = (self.friendly_occupation & direction).get_lsb();
        let enemy_sb = (self.enemy_occupation & direction).get_lsb();
        let ghost mut done = Seq::<Move>::empty();
        proof {
            T::grown_none(move_list);
        }
        // Quiet moves go up to the square of the nearer of the two.
        let blocking_sb = if enemy_sb < friendly_sb {
            let m = Move::new(from, enemy_sb, CAPTURE);
            move_list.add_move_to_ply(m);
            proof {
                done = seq![m];
            }
            enemy_sb
        } else {
            friendly_sb
        };
        let ghost head = done;
        let mut to_board = direction;
        proof {
            assert(head + gather_up(to_board, 0, blocking_sb as int, f) =~= ray_up_moves(
                from,
                direction,
                self.friendly_occupation,
                self.enemy_occupation,
            ));
        }
        let mut more = to_board != 0 && to_board.get_lsb() < blocking_sb;
        while more
            invariant
                move_list.open_ply(),
                blocking_sb <= 64,
                T::grown(&start, move_list, done),
                done + gather_up(to_board, 0, blocking_sb as int, f) == head + gather_up(
                    direction,
                    0,
                    blocking_sb as int,
                    f,
                ),
                f == one(from, QUIET_MOVE),
                more == (to_board != 0 && lsb(to_board) < blocking_sb),
            decreases to_board,
        {
            let ghost prev = *move_list;
            let ghost before = to_board;
            proof {
                lemma_lsb(to_board);
            }
            let to = to_board.pop_lsb();
            let m = Move::new(from, to, QUIET_MOVE);
            move_list.add_move_to_ply(m);
            proof {
                crate::bits::lemma_clear_decreases(before, to);
                lemma_gather_up_first(before, 0, blocking_sb as int, f);
                T::grown_more(&start, &prev, move_list, done, seq![m]);
                assert((done + seq![m]) + gather_up(to_board, 0, blocking_sb as int, f) =~= done + (
                f(to) + gather_up(to_board, 0, blocking_sb as int, f)));
                done = done + seq![m];
            }
            more = to_board != 0 && to_board.get_lsb() < blocking_sb;
        }
        proof {
            lemma_lsb(to_board);
            lemma_gather_up_none(to_board, 0, blocking_sb as int, f);
            assert(done + Seq::<Move>::empty() =~= done);
        }
    }

    fn get_pseudo_legal_moves_in_decreasing_direction<T: AddMove>(
        &self,
        move_list: &mut T,
        direction: BitBoard,
        from: u8,
    )
        requires
            self.wf(),
            old(move_list).open_ply(),
        ensures
            final(move_list).open_ply(),
            T::grown(
                old(move_list),
                final(move_list),
                ray_down_moves(from, direction, self.friendly_occupation, self.enemy_occupation),
            ),
    {
        let ghost start = *move_list;
        let ghost f = one(from, QUIET_MOVE);
        let friendly_sb = (self.friendly_occupation & direction).get_msb();
        let enemy_sb = (self.enemy_occupation & direction).get_msb();
        let ghost mut done = Seq::<Move>::empty();
        proof {
            T::grown_none(move_list);
        }
        let blocking_sb = if enemy_sb > friendly_sb {
            let m = Move::new(from, enemy_sb as u8, CAPTURE);
            move_list.add_move_to_ply(m);
            proof {
                done = seq![m];
            }
            enemy_sb
        } else {
            friendly_sb
        };
        let ghost head = done;
        let mut to_board = direction;
        proof {
            assert(head + gather_down(to_board, blocking_sb + 1, 64, f) =~= ray_down_moves(
                from,
                direction,
                self.friendly_occupation,
                self.enemy_occupation,
            ));
        }
        let mut more = to_board != 0 && to_board.get_msb() > blocking_sb;
        while more
            invariant
                move_list.open_ply(),
                -1 <= blocking_sb < 64,
                T::grown(&start, move_list, done),
                done + gather_down(to_board, blocking_sb + 1, 64, f) == head + gather_down(
                    direction,
                    blocking_sb + 1,
                    64,
                    f,
                ),
                f == one(from, QUIET_MOVE),
                more == (to_board != 0 && msb(to_board) > blocking_sb),
            decreases to_board,
        {
            let ghost prev = *move_list;
            let ghost before = to_board;
            proof {
                lemma_msb(to_board);
            }
            let to = to_board.pop_msb();
            let m = Move::new(from, to, QUIET_MOVE);
            move_list.add_move_to_ply(m);
            proof {
                crate::bits::lemma_clear_decreases(before, to);
                lemma_gather_down_first(before, blocking_sb + 1, 64, f);
                T::grown_more(&start, &prev, move_list, done, seq![m]);
                assert((done + seq![m]) + gather_down(to_board, blocking_sb + 1, 64, f) =~= done + (
                f(to) + gather_down(to_board, blocking_sb + 1, 64, f)));
                done = done + seq![m];
            }
            more = to_board != 0 && to_board.get_msb() > blocking_sb;
        }
        proof {
            lemma_msb(to_board);
            lemma_gather_down_none(to_board, blocking_sb + 1, 64, f);
            assert(done + Seq::<Move>::empty() =~= done);
        }
    }

    /// Whether a piece of color `by_color` attacks the square: the square is looked
    /// at as if it held each kind of attacker in turn, to see whether from there
    /// it would reach a real attacker of that kind.
    fn is_square_attacked(&self, square: Square, by_color: Color) -> (r: bool)
        requires
            self.wf(),
            square.valid(),
            self.state.boards.disjoint(),
        ensures
            r == attacked(self.state.boards, square.0, by_color),
    {
        let sq = square.0;
        let state = self.state;
        let (attacking_pieces, defending_pieces) = if by_color == Color::Black {
            (&state.boards.black, &state.boards.white)
        } else {
            (&state.boards.white, &state.boards.black)
        };
        let ghost boards = state.boards;
        let ghost occ = boards.occupancy();
        let ghost att = boards.side(by_color);
        proof {
            lemma_attacked_by_kind(boards, by_color, sq);
        }
        assert(*attacking_pieces == boards.side(by_color));
        assert(*defending_pieces == boards.side(by_color.other()));

        // What blocks an attacker also blocks the view from the attacked square.
        let defending_occupation = defending_pieces.union();
        let blocking_bishop_queen_rook = defending_occupation | attacking_pieces.pawn
            | attacking_pieces.knight | attacking_pieces.king;
        let blocking_bishop_queen = blocking_bishop_queen_rook | attacking_pieces.rook;
        let blocking_rook_queen = blocking_bishop_queen_rook | attacking_pieces.bishop;

        let attacking_bishops_and_queens = attacking_pieces.bishop | attacking_pieces.queen;
        let ne = self.move_maps.ne_diagonal.at(sq);
        let nw = self.move_maps.nw_diagonal.at(sq);
        let se = self.move_maps.se_diagonal.at(sq);
        let sw = self.move_maps.sw_diagonal.at(sq);
        proof {
            lemma_ray_check(boards, by_color, ne, 1, 1, true, sq);
            lemma_ray_check(boards, by_color, nw, -1, 1, true, sq);
            lemma_ray_check(boards, by_color, se, 1, -1, true, sq);
            lemma_ray_check(boards, by_color, sw, -1, -1, true, sq);
        }
        let diagonal = capture_in_increasing_direction(
            ne,
            attacking_bishops_and_queens,
            blocking_bishop_queen,
        ) || capture_in_increasing_direction(nw, attacking_bishops_and_queens, blocking_bishop_queen)
            || capture_in_decreasing_direction(
            se,
            attacking_bishops_and_queens,
            blocking_bishop_queen,
        ) || capture_in_decreasing_direction(sw, attacking_bishops_and_queens, blocking_bishop_queen);
        proof {
            lemma_diagonal_checks(boards, by_color, sq, diagonal);
        }
        if diagonal {
            return true;
        }
        let enemy_rooks_and_queens = attacking_pieces.rook | attacking_pieces.queen;
        let n = self.move_maps.n_file.at(sq);
        let s = self.move_maps.s_file.at(sq);
        let e = self.move_maps.e_rank.at(sq);
        let w = self.move_maps.w_rank.at(sq);
        proof {
            lemma_ray_check(boards, by_color, n, 0, 1, false, sq);
            lemma_ray_check(boards, by_color, s, 0, -1, false, sq);
            lemma_ray_check(boards, by_color, e, 1, 0, false, sq);
            lemma_ray_check(boards, by_color, w, -1, 0, false, sq);
        }
        let straight = capture_in_increasing_direction(
            n,
            enemy_rooks_and_queens,
            blocking_rook_queen,
        ) || capture_in_decreasing_direction(s, enemy_rooks_and_queens, blocking_rook_queen)
            || capture_in_increasing_direction(e, enemy_rooks_and_queens, blocking_rook_queen)
            || capture_in_decreasing_direction(w, enemy_rooks_and_queens, blocking_rook_queen);
        proof {
            lemma_straight_checks(boards, by_color, sq, straight);
        }
        if straight {
            return true;
        }
        // A pawn attacks the square from where a pawn of the other color on the
        // square would attack.
        let attack_map = if by_color == Color::White {
            &self.move_maps.black_pawn_attack
        } else {
            &self.move_maps.white_pawn_attack
        };
        let pawns = attack_map.at(sq) & attacking_pieces.pawn;
        let knights = self.move_maps.knight.at(sq) & attacking_pieces.knight;
        let kings = self.move_maps.king.at(sq) & attacking_pieces.king;
        proof {
            lemma_leaper_checks(
                boards,
                by_color,
                sq,
                attack_map.targets(sq),
                self.move_maps.knight.targets(sq),
                self.move_maps.king.targets(sq),
            );
        }
        if pawns != 0 {
            return true;
        }
        if knights != 0 {
            return true;
        }
        if kings != 0 {
            return true;
        }
        proof {
            lemma_not_attacked(boards, by_color, sq);
        }
        false
    }

    /// Whether the king of the side to move is attacked.
    fn is_check(&self) -> (r: bool)
        requires
            self.wf(),
            self.state.boards.disjoint(),
            self.state.friendly().king != 0,
        ensures
            r == attacked(
                self.state.boards,
                lsb(self.state.friendly().king),
                self.state.flags.active.other(),
            ),
    {
        if self.state.flags.active_color() == Color::White {
            let king = self.state.boards.white.king.get_lsb();
            self.is_square_attacked(Square(king), Color::Black)
        } else {
            let king = self.state.boards.black.king.get_lsb();
            self.is_square_attacked(Square(king), Color::White)
        }
    }

    /// Whether the king of the side that is not to move is free from attack.
    fn was_move_legal(&self) -> (r: bool)
        requires
            self.wf(),
            self.state.boards.disjoint(),
            self.state.enemy().king != 0,
        ensures
            r == !attacked(self.state.boards, lsb(self.state.enemy().king), self.state.flags.active),
    {
        if self.state.flags.active_color() == Color::White {
            let enemy_king = self.state.boards.black.king.get_lsb();
            !self.is_square_attacked(Square(enemy_king), Color::White)
        } else {
            let enemy_king = self.state.boards.white.king.get_lsb();
            !self.is_square_attacked(Square(enemy_king), Color::Black)
        }
    }
}

impl<'a> MoveGeneratorContext<'a> {
    fn diagonal_moves_from<T: AddMove>(&self, move_list: &mut T, from: u8)
        requires
            self.wf(),
            from < 64,
            old(move_list).open_ply(),
        ensures
            final(move_list).open_ply(),
            T::grown(
                old(move_list),
                final(move_list),
                diagonal_moves(
                    self.move_maps,
                    from,
                    self.friendly_occupation,
                    self.enemy_occupation,
                ),
            ),
    {
        let ghost own = self.friendly_occupation;
        let ghost enemy = self.enemy_occupation;
        let ghost s0 = *move_list;
        let ne = self.move_maps.ne_diagonal.at(from);
        let nw = self.move_maps.nw_diagonal.at(from);
        let se = self.move_maps.se_diagonal.at(from);
        let sw = self.move_maps.sw_diagonal.at(from);
        self.get_pseudo_legal_moves_in_increasing_direction(move_list, ne, from);
        let ghost s1 = *move_list;
        self.get_pseudo_legal_moves_in_increasing_direction(move_list, nw, from);
        let ghost s2 = *move_list;
        self.get_pseudo_legal_moves_in_decreasing_direction(move_list, se, from);
        let ghost s3 = *move_list;
        self.get_pseudo_legal_moves_in_decreasing_direction(move_list, sw, from);
        proof {
            let a = ray_up_moves(from, ne, own, enemy);
            let b = ray_up_moves(from, nw, own, enemy);
            let c = ray_down_moves(from, se, own, enemy);
            let d = ray_down_moves(from, sw, own, enemy);
            T::grown_more(&s0, &s1, &s2, a, b);
            T::grown_more(&s0, &s2, &s3, a + b, c);
            T::grown_more(&s0, &s3, move_list, a + b + c, d);
        }
    }

    fn straight_moves_from<T: AddMove>(&self, move_list: &mut T, from: u8)
        requires
            self.wf(),
            from < 64,
            old(move_list).open_ply(),
        ensures
            final(move_list).open_ply(),
            T::grown(
                old(move_list),
                final(move_list),
                straight_moves(
                    self.move_maps,
                    from,
                    self.friendly_occupation,
                    self.enemy_occupation,
                ),
            ),
    {
        let ghost own = self.friendly_occupation;
        let ghost enemy = self.enemy_occupation;
        let ghost s0 = *move_list;
        let n = self.move_maps.n_file.at(from);
        let s = self.move_maps.s_file.at(from);
        let e = self.move_maps.e_rank.at(from);
        let w = self.move_maps.w_rank.at(from);
        self.get_pseudo_legal_moves_in_increasing_direction(move_list, n, from);
        let ghost s1 = *move_list;
        self.get_pseudo_legal_moves_in_decreasing_direction(move_list, s, from);
        let ghost s2 = *move_list;
        self.get_pseudo_legal_moves_in_increasing_direction(move_list, e, from);
        let ghost s3 = *move_list;
        self.get_pseudo_legal_moves_in_decreasing_direction(move_list, w, from);
        proof {
            let a = ray_up_moves(from, n, own, enemy);
            let b = ray_down_moves(from, s, own, enemy);
            let c = ray_up_moves(from, e, own, enemy);
            let d = ray_down_moves(from, w, own, enemy);
            T::grown_more(&s0, &s1, &s2, a, b);
            T::grown_more(&s0, &s2, &s3, a + b, c);
            T::grown_more(&s0, &s3, move_list, a + b + c, d);
        }
    }

    /// The moves along the diagonals of each of the `pieces`.
    fn get_pseudo_legal_diagonal_moves<T: AddMove>(&self, move_list: &mut T, pieces: BitBoard)
        requires
            self.wf(),
            old(move_list).open_ply(),
        ensures
            final(move_list).open_ply(),
            T::grown(
                old(move_list),
                final(move_list),
                each_square(
                    pieces,
                    diagonal_from(self.move_maps, self.friendly_occupation, self.enemy_occupation),
                ),
            ),
    {
        let ghost start = *move_list;
        let ghost f = diagonal_from(self.move_maps, self.friendly_occupation, self.enemy_occupation);
        let ghost mut done = Seq::<Move>::empty();
        let mut rem = pieces;
        proof {
            T::grown_none(move_list);
            assert(done + each_square(rem, f) =~= each_square(pieces, f));
        }
        while rem != 0
            invariant
                self.wf(),
                move_list.open_ply(),
                T::grown(&start, move_list, done),
                done + each_square(rem, f) == each_square(pieces, f),
                f == diagonal_from(self.move_maps, self.friendly_occupation, self.enemy_occupation),
            decreases rem,
        {
            let ghost before = rem;
            proof {
                lemma_lsb(rem);
            }
            let from = rem.pop_lsb();
            let ghost prev = *move_list;
            self.diagonal_moves_from(move_list, from);
            proof {
                crate::bits::lemma_clear_decreases(before, from);
                lemma_gather_up_first(before, 0, 64, f);
                T::grown_more(&start, &prev, move_list, done, f(from));
                assert((done + f(from)) + each_square(rem, f) =~= done + (f(from) + each_square(
                    rem,
                    f,
                )));
                done = done + f(from);
            }
        }
        proof {
            broadcast use group_holds;
            lemma_gather_up_none(0, 0, 64, f);
            assert(done + Seq::<Move>::empty() =~= done);
        }
    }

    /// The moves along ranks and files of each of the `pieces`.
    fn get_pseudo_legal_rank_file_moves<T: AddMove>(&self, move_list: &mut T, pieces: BitBoard)
        requires
            self.wf(),
            old(move_list).open_ply(),
        ensures
            final(move_list).open_ply(),
            T::grown(
                old(move_list),
                final(move_list),
                each_square(
                    pieces,
                    straight_from(self.move_maps, self.friendly_occupation, self.enemy_occupation),
                ),
            ),
    {
        let ghost start = *move_list;
        let ghost f = straight_from(self.move_maps, self.friendly_occupation, self.enemy_occupation);
        let ghost mut done = Seq::<Move>::empty();
        let mut rem = pieces;
        proof {
            T::grown_none(move_list);
            assert(done + each_square(rem, f) =~= each_square(pieces, f));
        }
        while rem != 0
            invariant
                self.wf(),
                move_list.open_ply(),
                T::grown(&start, move_list, done),
                done + each_square(rem, f) == each_square(pieces, f),
                f == straight_from(self.move_maps, self.friendly_occupation, self.enemy_occupation),
            decreases rem,
        {
            let ghost before = rem;
            proof {
                lemma_lsb(rem);
            }
            let from = rem.pop_lsb();
            let ghost prev = *move_list;
            self.straight_moves_from(move_list, from);
            proof {
                crate::bits::lemma_clear_decreases(before, from);
                lemma_gather_up_first(before, 0, 64, f);
                T::grown_more(&start, &prev, move_list, done, f(from));
                assert((done + f(from)) + each_square(rem, f) =~= done + (f(from) + each_square(
                    rem,
                    f,
                )));
                done = done + f(from);
            }
        }
        proof {
            broadcast use group_holds;
            lemma_gather_up_none(0, 0, 64, f);
            assert(done + Seq::<Move>::empty() =~= done);
        }
    }

    /// The pushes of the pawn on `from` to each of the `targets`.
    fn add_pushes<T: AddMove>(move_list: &mut T, from: u8, targets: BitBoard, promote: bool)
        requires
            old(move_list).open_ply(),
        ensures
            final(move_list).open_ply(),
            T::grown(old(move_list), final(move_list), each_square(targets, push_moves(from, promote))),
    {
        let ghost start = *move_list;
        let ghost f = push_moves(from, promote);
        let ghost mut done = Seq::<Move>::empty();
        let mut rem = targets;
        proof {
            T::grown_none(move_list);
            assert(done + each_square(rem, f) =~= each_square(targets, f));
        }
        while rem != 0
            invariant
                move_list.open_ply(),
                T::grown(&start, move_list, done),
                done + each_square(rem, f) == each_square(targets, f),
                f == push_moves(from, promote),
            decreases rem,
        {
            let ghost prev = *move_list;
            let ghost before = rem;
            proof {
                lemma_lsb(rem);
            }
            let to = rem.pop_lsb();
            if promote {
                let ghost w0 = *move_list;
                move_list.add_move_to_ply(Move::new(from, to, QUEEN_PROMOTION));
                let ghost w1 = *move_list;
                move_list.add_move_to_ply(Move::new(from, to, ROOK_PROMOTION));
                let ghost w2 = *move_list;
                move_list.add_move_to_ply(Move::new(from, to, BISHOP_PROMOTION));
                let ghost w3 = *move_list;
                move_list.add_move_to_ply(Move::new(from, to, KNIGHT_PROMOTION));
                proof {
                    let q = seq![encode(from, to, QUEEN_PROMOTION)];
                    let r = seq![encode(from, to, ROOK_PROMOTION)];
                    let b = seq![encode(from, to, BISHOP_PROMOTION)];
                    let n = seq![encode(from, to, KNIGHT_PROMOTION)];
                    T::grown_more(&w0, &w1, &w2, q, r);
                    T::grown_more(&w0, &w2, &w3, q + r, b);
                    T::grown_more(&w0, &w3, move_list, q + r + b, n);
                    assert(q + r + b + n =~= f(to));
                }
            } else {
                move_list.add_move_to_ply(Move::new(from, to, QUIET_MOVE));
            }
            proof {
                crate::bits::lemma_clear_decreases(before, to);
                lemma_gather_up_first(before, 0, 64, f);
                T::grown_more(&start, &prev, move_list, done, f(to));
                assert((done + f(to)) + each_square(rem, f) =~= done + (f(to) + each_square(rem, f)));
                done = done + f(to);
            }
        }
        proof {
            broadcast use group_holds;
            lemma_gather_up_none(0, 0, 64, f);
            assert(done + Seq::<Move>::empty() =~= done);
        }
    }

    /// The captures of the pawn on `from` on each of the `targets`.
    fn add_pawn_captures<T: AddMove>(
        &self,
        move_list: &mut T,
        from: u8,
        targets: BitBoard,
        promote: bool,
    )
        requires
            self.wf(),
            old(move_list).open_ply(),
        ensures
            final(move_list).open_ply(),
            T::grown(
                old(move_list),
                final(move_list),
                each_square(
                    targets,
                    pawn_capture_moves(
                        from,
                        promote,
                        self.state.en_passant,
                        self.enemy_occupation,
                    ),
                ),
            ),
    {
        let ghost start = *move_list;
        let ghost f = pawn_capture_moves(
            from,
            promote,
            self.state.en_passant,
            self.enemy_occupation,
        );
        let ghost mut done = Seq::<Move>::empty();
        let mut rem = targets;
        let en_passant_square = self.state.en_passant.get_lsb();
        proof {
            T::grown_none(move_list);
            assert(done + each_square(rem, f) =~= each_square(targets, f));
        }
        while rem != 0
            invariant
                self.wf(),
                move_list.open_ply(),
                T::grown(&start, move_list, done),
                done + each_square(rem, f) == each_square(targets, f),
                f == pawn_capture_moves(from, promote, self.state.en_passant, self.enemy_occupation),
                en_passant_square == lsb(self.state.en_passant),
            decreases rem,
        {
            let ghost prev = *move_list;
            let ghost before = rem;
            proof {
                lemma_lsb(rem);
            }
            let to = rem.pop_lsb();
            if promote {
                let ghost w0 = *move_list;
                move_list.add_move_to_ply(Move::new(from, to, QUEEN_PROMOTION_CAPTURE));
                let ghost w1 = *move_list;
                move_list.add_move_to_ply(Move::new(from, to, ROOK_PROMOTION_CAPTURE));
                let ghost w2 = *move_list;
                move_list.add_move_to_ply(Move::new(from, to, BISHOP_PROMOTION_CAPTURE));
                let ghost w3 = *move_list;
                move_list.add_move_to_ply(Move::new(from, to, KNIGHT_PROMOTION_CAPTURE));
                proof {
                    let q = seq![encode(from, to, QUEEN_PROMOTION_CAPTURE)];
                    let r = seq![encode(from, to, ROOK_PROMOTION_CAPTURE)];
                    let b = seq![encode(from, to, BISHOP_PROMOTION_CAPTURE)];
                    let n = seq![encode(from, to, KNIGHT_PROMOTION_CAPTURE)];
                    T::grown_more(&w0, &w1, &w2, q, r);
                    T::grown_more(&w0, &w2, &w3, q + r, b);
                    T::grown_more(&w0, &w3, move_list, q + r + b, n);
                    assert(q + r + b + n =~= f(to));
                }
            } else if to == en_passant_square && !test_bit(self.enemy_occupation, to) {
                move_list.add_move_to_ply(Move::new(from, to, EN_PASSANT));
            } else {
                move_list.add_move_to_ply(Move::new(from, to, CAPTURE));
            }
            proof {
                crate::bits::lemma_clear_decreases(before, to);
                lemma_gather_up_first(before, 0, 64, f);
                T::grown_more(&start, &prev, move_list, done, f(to));
                assert((done + f(to)) + each_square(rem, f) =~= done + (f(to) + each_square(rem, f)));
                done = done + f(to);
            }
        }
        proof {
            broadcast use group_holds;
            lemma_gather_up_none(0, 0, 64, f);
            assert(done + Seq::<Move>::empty() =~= done);
        }
    }

    /// The pushes, double pushes and captures of the pawn on `from`.
    fn pawn_moves_of<T: AddMove>(&self, move_list: &mut T, from: u8)
        requires
            self.wf(),
            from < 64,
            old(move_list).open_ply(),
        ensures
            final(move_list).open_ply(),
            T::grown(
                old(move_list),
                final(move_list),
                pawn_moves_from(*self.state, self.move_maps, from),
            ),
    {
        let white = self.state.flags.active_color() == Color::White;
        let unoccupied = !(self.friendly_occupation | self.enemy_occupation);
        let (passive_map, double_map, attack_map) = if white {
            (
                &self.move_maps.white_pawn_passive,
                &self.move_maps.white_pawn_double,
                &self.move_maps.white_pawn_attack,
            )
        } else {
            (
                &self.move_maps.black_pawn_passive,
                &self.move_maps.black_pawn_double,
                &self.move_maps.black_pawn_attack,
            )
        };
        let will_promote = white && from >= 48 || !white && from < 16;
        let passive_board = passive_map.at(from) & unoccupied;
        let mut double_board = double_map.at(from) & unoccupied;
        if double_board != 0 {
            double_board = double_board & if white {
                passive_board << 8
            } else {
                passive_board >> 8
            };
        }
        let attack_board = attack_map.at(from) & (self.enemy_occupation | self.state.en_passant);
        let ghost s0 = *move_list;
        MoveGeneratorContext::add_pushes(move_list, from, passive_board, will_promote);
        let ghost s1 = *move_list;
        MoveGeneratorContext::add_targets(move_list, from, double_board, DOUBLE_PAWN_PUSH);
        let ghost s2 = *move_list;
        self.add_pawn_captures(move_list, from, attack_board, will_promote);
        proof {
            let a = each_square(passive_board, push_moves(from, will_promote));
            let b = each_square(double_board, one(from, DOUBLE_PAWN_PUSH));
            let c = each_square(
                attack_board,
                pawn_capture_moves(
                    from,
                    will_promote,
                    self.state.en_passant,
                    self.enemy_occupation,
                ),
            );
            T::grown_more(&s0, &s1, &s2, a, b);
            T::grown_more(&s0, &s2, move_list, a + b, c);
        }
    }

    fn get_pseudo_legal_pawn_moves<T: AddMove>(&self, move_list: &mut T)
        requires
            self.wf(),
            old(move_list).open_ply(),
        ensures
            final(move_list).open_ply(),
            T::grown(
                old(move_list),
                final(move_list),
                each_square(self.state.friendly().pawn, pawn_from(*self.state, self.move_maps)),
            ),
    {
        let ghost start = *move_list;
        let ghost f = pawn_from(*self.state, self.move_maps);
        let ghost mut done = Seq::<Move>::empty();
        let mut pawns = self.friendly_pieces.pawn;
        proof {
            T::grown_none(move_list);
            assert(done + each_square(pawns, f) =~= each_square(pawns, f));
        }
        while pawns != 0
            invariant
                self.wf(),
                move_list.open_ply(),
                T::grown(&start, move_list, done),
                done + each_square(pawns, f) == each_square(self.friendly_pieces.pawn, f),
                f == pawn_from(*self.state, self.move_maps),
            decreases pawns,
        {
            let ghost before = pawns;
            proof {
                lemma_lsb(pawns);
            }
            let from = pawns.pop_lsb();
            let ghost prev = *move_list;
            self.pawn_moves_of(move_list, from);
            proof {
                crate::bits::lemma_clear_decreases(before, from);
                lemma_gather_up_first(before, 0, 64, f);
                T::grown_more(&start, &prev, move_list, done, f(from));
                assert((done + f(from)) + each_square(pawns, f) =~= done + (f(from) + each_square(
                    pawns,
                    f,
                )));
                done = done + f(from);
            }
        }
        proof {
            broadcast use group_holds;
            lemma_gather_up_none(0, 0, 64, f);
            assert(done + Seq::<Move>::empty() =~= done);
        }
    }

    fn get_pseudo_legal_king_moves<T: AddMove>(&self, move_list: &mut T)
        requires
            self.wf(),
            self.state.friendly().king != 0,
            old(move_list).open_ply(),
        ensures
            final(move_list).open_ply(),
            T::grown(old(move_list), final(move_list), king_moves(*self.state, self.move_maps)),
    {
        let king = self.friendly_pieces.king.get_lsb();
        self.leaper_moves_from(move_list, king, self.move_maps.king.at(king));
    }

    /// Whether none of the two squares holds a piece and the king neither stands
    /// on nor crosses an attacked square.
    fn castle_path_clear(&self, free: [u8; 3], n_free: usize, safe: [u8; 2]) -> (r: bool)
        requires
            self.wf(),
            self.state.boards.disjoint(),
            2 <= n_free <= 3,
            forall|i: int| 0 <= i < 3 ==> free@[i] < 64,
            forall|i: int| 0 <= i < 2 ==> safe@[i] < 64,
        ensures
            r == castle_path(*self.state, free@.take(n_free as int), safe@),
    {
        let all_pieces = self.friendly_occupation | self.enemy_occupation;
        let by = self.state.flags.active_color().opposite();
        let mut unoccupied = true;
        let mut i: usize = 0;
        while i < n_free
            invariant
                i <= n_free <= 3,
                forall|k: int| 0 <= k < 3 ==> free@[k] < 64,
                unoccupied == forall|k: int| 0 <= k < i ==> !holds(all_pieces, #[trigger] free@[k]),
            decreases n_free - i,
        {
            if test_bit(all_pieces, free[i]) {
                unoccupied = false;
            }
            i += 1;
        }
        let mut unchecked = true;
        let mut j: usize = 0;
        while j < 2
            invariant
                j <= 2,
                self.wf(),
                self.state.boards.disjoint(),
                by == self.state.flags.active.other(),
                forall|k: int| 0 <= k < 2 ==> safe@[k] < 64,
                unchecked == forall|k: int|
                    0 <= k < j ==> !attacked(self.state.boards, #[trigger] safe@[k], by),
            decreases 2 - j,
        {
            if self.is_square_attacked(Square(safe[j]), by) {
                unchecked = false;
            }
            j += 1;
        }
        proof {
            let fr = free@.take(n_free as int);
            assert forall|k: int| 0 <= k < n_free implies fr[k] == free@[k] by {}
            assert((forall|k: int| 0 <= k < n_free ==> !holds(all_pieces, #[trigger] free@[k]))
                == (forall|k: int| 0 <= k < fr.len() ==> !holds(all_pieces, #[trigger] fr[k]))) by {
                if forall|k: int| 0 <= k < n_free ==> !holds(all_pieces, #[trigger] free@[k]) {
                    assert forall|k: int| 0 <= k < fr.len() implies !holds(
                        all_pieces,
                        #[trigger] fr[k],
                    ) by {
                        assert(!holds(all_pieces, free@[k]));
                    }
                }
                if forall|k: int| 0 <= k < fr.len() ==> !holds(all_pieces, #[trigger] fr[k]) {
                    assert forall|k: int| 0 <= k < n_free implies !holds(
                        all_pieces,
                        #[trigger] free@[k],
                    ) by {
                        assert(!holds(all_pieces, fr[k]));
                    }
                }
            }
        }
        unoccupied && unchecked
    }

    fn get_pseudo_legal_castles<T: AddMove>(&self, move_list: &mut T)
        requires
            self.wf(),
            self.state.boards.disjoint(),
            old(move_list).open_ply(),
        ensures
            final(move_list).open_ply(),
            T::grown(old(move_list), final(move_list), castle_moves(*self.state)),
    {
        let white = self.state.flags.active_color() == Color::White;
        let ghost s0 = *move_list;
        let ghost e = Seq::<Move>::empty();
        proof {
            T::grown_none(move_list);
        }
        let ghost mut a = e;
        if white && self.state.flags.white_king_castle_right() {
            // Where the king lands is checked once the move is made.
            let free = [5u8, 6u8, 6u8];
            let safe = [4u8, 5u8];
            assert(free@.take(2) =~= seq![5u8, 6u8]);
            assert(safe@ =~= seq![4u8, 5u8]);
            if self.castle_path_clear(free, 2, safe) {
                move_list.add_move_to_ply(Move::new(4, 6, KING_CASTLE));
                proof {
                    a = seq![encode(4, 6, KING_CASTLE)];
                }
            }
        }
        let ghost s1 = *move_list;
        proof {
            T::grown_none(move_list);
        }
        let ghost mut b = e;
        if white && self.state.flags.white_queen_castle_right() {
            let free = [1u8, 2u8, 3u8];
            let safe = [3u8, 4u8];
            assert(free@.take(3) =~= seq![1u8, 2u8, 3u8]);
            assert(safe@ =~= seq![3u8, 4u8]);
            if self.castle_path_clear(free, 3, safe) {
                move_list.add_move_to_ply(Move::new(4, 2, QUEEN_CASTLE));
                proof {
                    b = seq![encode(4, 2, QUEEN_CASTLE)];
                }
            }
        }
        let ghost s2 = *move_list;
        proof {
            T::grown_none(move_list);
        }
        let ghost mut c = e;
        if !white && self.state.flags.black_king_castle_right() {
            let free = [61u8, 62u8, 62u8];
            let safe = [60u8, 61u8];
            assert(free@.take(2) =~= seq![61u8, 62u8]);
            assert(safe@ =~= seq![60u8, 61u8]);
            if self.castle_path_clear(free, 2, safe) {
                move_list.add_move_to_ply(Move::new(60, 62, KING_CASTLE));
                proof {
                    c = seq![encode(60, 62, KING_CASTLE)];
                }
            }
        }
        let ghost s3 = *move_list;
        proof {
            T::grown_none(move_list);
        }
        let ghost mut d = e;
        if !white && self.state.flags.black_queen_castle_right() {
            let free = [57u8, 58u8, 59u8];
            let safe = [59u8, 60u8];
            assert(free@.take(3) =~= seq![57u8, 58u8, 59u8]);
            assert(safe@ =~= seq![59u8, 60u8]);
            if self.castle_path_clear(free, 3, safe) {
                move_list.add_move_to_ply(Move::new(60, 58, QUEEN_CASTLE));
                proof {
                    d = seq![encode(60, 58, QUEEN_CASTLE)];
                }
            }
        }
        proof {
            T::grown_more(&s0, &s1, &s2, a, b);
            T::grown_more(&s0, &s2, &s3, a + b, c);
            T::grown_more(&s0, &s3, move_list, a + b + c, d);
            assert(a + b + c + d =~= castle_moves(*self.state));
        }
    }

    fn generate_pseudo_legal_moves<T: AddMove>(&self, move_list: &mut T)
        requires
            self.wf(),
            self.state.boards.disjoint(),
            self.state.friendly().king != 0,
            old(move_list).open_ply(),
        ensures
            final(move_list).open_ply(),
            T::grown(old(move_list), final(move_list), pseudo_moves(*self.state, self.move_maps)),
    {
        let ghost own = self.friendly_occupation;
        let ghost enemy = self.enemy_occupation;
        let ghost mine = *self.friendly_pieces;
        let ghost maps = self.move_maps;
        let ghost s0 = *move_list;
        self.get_pseudo_legal_knight_moves(move_list);
        let ghost s1 = *move_list;
        self.get_pseudo_legal_diagonal_moves(move_list, self.friendly_pieces.bishop);
        let ghost s2 = *move_list;
        self.get_pseudo_legal_diagonal_moves(move_list, self.friendly_pieces.queen);
        let ghost s3 = *move_list;
        self.get_pseudo_legal_rank_file_moves(move_list, self.friendly_pieces.rook);
        let ghost s4 = *move_list;
        self.get_pseudo_legal_rank_file_moves(move_list, self.friendly_pieces.queen);
        let ghost s5 = *move_list;
        self.get_pseudo_legal_pawn_moves(move_list);
        let ghost s6 = *move_list;
        self.get_pseudo_legal_king_moves(move_list);
        let ghost s7 = *move_list;
        self.get_pseudo_legal_castles(move_list);
        proof {
            let a = each_square(mine.knight, knight_from(maps, own, enemy));
            let b = each_square(mine.bishop, diagonal_from(maps, own, enemy));
            let c = each_square(mine.queen, diagonal_from(maps, own, enemy));
            let d = each_square(mine.rook, straight_from(maps, own, enemy));
            let e = each_square(mine.queen, straight_from(maps, own, enemy));
            let f = each_square(mine.pawn, pawn_from(*self.state, maps));
            let g = king_moves(*self.state, maps);
            let h = castle_moves(*self.state);
            T::grown_more(&s0, &s1, &s2, a, b);
            T::grown_more(&s0, &s2, &s3, a + b, c);
            T::grown_more(&s0, &s3, &s4, a + b + c, d);
            T::grown_more(&s0, &s4, &s5, a + b + c + d, e);
            T::grown_more(&s0, &s5, &s6, a + b + c + d + e, f);
            T::grown_more(&s0, &s6, &s7, a + b + c + d + e + f, g);
            T::grown_more(&s0, &s7, move_list, a + b + c + d + e + f + g, h);
        }
    }
}

/// A bishop or queen of color `by` attacks `sq` along a diagonal.
pub open spec fn diagonal_attacker(boards: ChessBoard, by: Color, sq: u8) -> bool {
    exists|s: u8|
        holds(diagonal_targets(boards.side(by)), s) && #[trigger] diagonal_attack(
            boards.occupancy(),
            s,
            sq,
        )
}

/// A rook or queen of color `by` attacks `sq` along a rank or file.
pub open spec fn straight_attacker(boards: ChessBoard, by: Color, sq: u8) -> bool {
    exists|s: u8|
        holds(straight_targets(boards.side(by)), s) && #[trigger] straight_attack(
            boards.occupancy(),
            s,
            sq,
        )
}

/// A pawn of color `by` attacks `sq`.
pub open spec fn pawn_attacker(boards: ChessBoard, by: Color, sq: u8) -> bool {
    exists|s: u8| holds(boards.side(by).pawn, s) && #[trigger] pawn_attack(by, s, sq)
}

/// A knight of color `by` attacks `sq`.
pub open spec fn knight_attacker(boards: ChessBoard, by: Color, sq: u8) -> bool {
    exists|s: u8| holds(boards.side(by).knight, s) && #[trigger] knight_step(s, sq)
}

/// The king of color `by` attacks `sq`.
pub open spec fn king_attacker(boards: ChessBoard, by: Color, sq: u8) -> bool {
    exists|s: u8| holds(boards.side(by).king, s) && #[trigger] king_step(s, sq)
}

/// A pawn, knight or king of color `by` attacks `sq`.
pub open spec fn leaper_attacker(boards: ChessBoard, by: Color, sq: u8) -> bool {
    pawn_attacker(boards, by, sq) || knight_attacker(boards, by, sq) || king_attacker(
        boards,
        by,
        sq,
    )
}

proof fn lemma_diagonal_checks(boards: ChessBoard, by: Color, sq: u8, found: bool)
    requires
        sq < 64,
        found == ((exists|p: u8|
            holds(diagonal_targets(boards.side(by)), p) && #[trigger] clear_ray(
                boards.occupancy(),
                1,
                1,
                sq,
                p,
            )) || (exists|p: u8|
            holds(diagonal_targets(boards.side(by)), p) && #[trigger] clear_ray(
                boards.occupancy(),
                -1,
                1,
                sq,
                p,
            )) || (exists|p: u8|
            holds(diagonal_targets(boards.side(by)), p) && #[trigger] clear_ray(
                boards.occupancy(),
                1,
                -1,
                sq,
                p,
            )) || (exists|p: u8|
            holds(diagonal_targets(boards.side(by)), p) && #[trigger] clear_ray(
                boards.occupancy(),
                -1,
                -1,
                sq,
                p,
            ))),
    ensures
        found == diagonal_attacker(boards, by, sq),
{
    let occ = boards.occupancy();
    let targets = diagonal_targets(boards.side(by));
    if found {
        let p = if exists|p: u8| holds(targets, p) && #[trigger] clear_ray(occ, 1, 1, sq, p) {
            let p = choose|p: u8| holds(targets, p) && #[trigger] clear_ray(occ, 1, 1, sq, p);
            lemma_clear_ray_symmetric(occ, 1, 1, sq, p);
            p
        } else if exists|p: u8| holds(targets, p) && #[trigger] clear_ray(occ, -1, 1, sq, p) {
            let p = choose|p: u8| holds(targets, p) && #[trigger] clear_ray(occ, -1, 1, sq, p);
            lemma_clear_ray_symmetric(occ, -1, 1, sq, p);
            p
        } else if exists|p: u8| holds(targets, p) && #[trigger] clear_ray(occ, 1, -1, sq, p) {
            let p = choose|p: u8| holds(targets, p) && #[trigger] clear_ray(occ, 1, -1, sq, p);
            lemma_clear_ray_symmetric(occ, 1, -1, sq, p);
            p
        } else {
            let p = choose|p: u8| holds(targets, p) && #[trigger] clear_ray(occ, -1, -1, sq, p);
            lemma_clear_ray_symmetric(occ, -1, -1, sq, p);
            p
        };
        assert(holds(targets, p) && diagonal_attack(occ, p, sq));
    }
    if diagonal_attacker(boards, by, sq) {
        let s = choose|s: u8| holds(targets, s) && #[trigger] diagonal_attack(occ, s, sq);
        if clear_ray(occ, 1, 1, s, sq) {
            lemma_clear_ray_symmetric(occ, 1, 1, s, sq);
            assert(holds(targets, s) && clear_ray(occ, -1, -1, sq, s));
        } else if clear_ray(occ, -1, 1, s, sq) {
            lemma_clear_ray_symmetric(occ, -1, 1, s, sq);
            assert(holds(targets, s) && clear_ray(occ, 1, -1, sq, s));
        } else if clear_ray(occ, 1, -1, s, sq) {
            lemma_clear_ray_symmetric(occ, 1, -1, s, sq);
            assert(holds(targets, s) && clear_ray(occ, -1, 1, sq, s));
        } else {
            lemma_clear_ray_symmetric(occ, -1, -1, s, sq);
            assert(holds(targets, s) && clear_ray(occ, 1, 1, sq, s));
        }
    }
}

proof fn lemma_straight_checks(boards: ChessBoard, by: Color, sq: u8, found: bool)
    requires
        sq < 64,
        found == ((exists|p: u8|
            holds(straight_targets(boards.side(by)), p) && #[trigger] clear_ray(
                boards.occupancy(),
                0,
                1,
                sq,
                p,
            )) || (exists|p: u8|
            holds(straight_targets(boards.side(by)), p) && #[trigger] clear_ray(
                boards.occupancy(),
                0,
                -1,
                sq,
                p,
            )) || (exists|p: u8|
            holds(straight_targets(boards.side(by)), p) && #[trigger] clear_ray(
                boards.occupancy(),
                1,
                0,
                sq,
                p,
            )) || (exists|p: u8|
            holds(straight_targets(boards.side(by)), p) && #[trigger] clear_ray(
                boards.occupancy(),
                -1,
                0,
                sq,
                p,
            ))),
    ensures
        found == straight_attacker(boards, by, sq),
{
    let occ = boards.occupancy();
    let targets = straight_targets(boards.side(by));
    if found {
        let p = if exists|p: u8| holds(targets, p) && #[trigger] clear_ray(occ, 0, 1, sq, p) {
            let p = choose|p: u8| holds(targets, p) && #[trigger] clear_ray(occ, 0, 1, sq, p);
            lemma_clear_ray_symmetric(occ, 0, 1, sq, p);
            p
        } else if exists|p: u8| holds(targets, p) && #[trigger] clear_ray(occ, 0, -1, sq, p) {
            let p = choose|p: u8| holds(targets, p) && #[trigger] clear_ray(occ, 0, -1, sq, p);
            lemma_clear_ray_symmetric(occ, 0, -1, sq, p);
            p
        } else if exists|p: u8| holds(targets, p) && #[trigger] clear_ray(occ, 1, 0, sq, p) {
            let p = choose|p: u8| holds(targets, p) && #[trigger] clear_ray(occ, 1, 0, sq, p);
            lemma_clear_ray_symmetric(occ, 1, 0, sq, p);
            p
        } else {
            let p = choose|p: u8| holds(targets, p) && #[trigger] clear_ray(occ, -1, 0, sq, p);
            lemma_clear_ray_symmetric(occ, -1, 0, sq, p);
            p
        };
        assert(holds(targets, p) && straight_attack(occ, p, sq));
    }
    if straight_attacker(boards, by, sq) {
        let s = choose|s: u8| holds(targets, s) && #[trigger] straight_attack(occ, s, sq);
        if clear_ray(occ, 0, 1, s, sq) {
            lemma_clear_ray_symmetric(occ, 0, 1, s, sq);
            assert(holds(targets, s) && clear_ray(occ, 0, -1, sq, s));
        } else if clear_ray(occ, 0, -1, s, sq) {
            lemma_clear_ray_symmetric(occ, 0, -1, s, sq);
            assert(holds(targets, s) && clear_ray(occ, 0, 1, sq, s));
        } else if clear_ray(occ, 1, 0, s, sq) {
            lemma_clear_ray_symmetric(occ, 1, 0, s, sq);
            assert(holds(targets, s) && clear_ray(occ, -1, 0, sq, s));
        } else {
            lemma_clear_ray_symmetric(occ, -1, 0, s, sq);
            assert(holds(targets, s) && clear_ray(occ, 1, 0, sq, s));
        }
    }
}

proof fn lemma_leaper_checks(
    boards: ChessBoard,
    by: Color,
    sq: u8,
    pawn_map: u64,
    knight_map: u64,
    king_map: u64,
)
    requires
        sq < 64,
        forall|t: u8| #[trigger] holds(pawn_map, t) == pawn_attack(by.other(), sq, t),
        forall|t: u8| #[trigger] holds(knight_map, t) == knight_step(sq, t),
        forall|t: u8| #[trigger] holds(king_map, t) == king_step(sq, t),
    ensures
        ((pawn_map & boards.side(by).pawn) != 0) == pawn_attacker(boards, by, sq),
        ((knight_map & boards.side(by).knight) != 0) == knight_attacker(boards, by, sq),
        ((king_map & boards.side(by).king) != 0) == king_attacker(boards, by, sq),
{
    broadcast use group_holds;
    let att = boards.side(by);
    if (pawn_map & att.pawn) != 0 {
        lemma_nonempty(pawn_map & att.pawn);
        let s = choose|s: u8| holds(pawn_map & att.pawn, s);
        assert(holds(att.pawn, s) && pawn_attack(by, s, sq));
    }
    if (knight_map & att.knight) != 0 {
        lemma_nonempty(knight_map & att.knight);
        let s = choose|s: u8| holds(knight_map & att.knight, s);
        assert(holds(att.knight, s) && knight_step(s, sq));
    }
    if (king_map & att.king) != 0 {
        lemma_nonempty(king_map & att.king);
        let s = choose|s: u8| holds(king_map & att.king, s);
        assert(holds(att.king, s) && king_step(s, sq));
    }
    if pawn_attacker(boards, by, sq) {
        let s = choose|s: u8| holds(att.pawn, s) && #[trigger] pawn_attack(by, s, sq);
        assert(holds(pawn_map & att.pawn, s));
        lemma_member_nonzero(pawn_map & att.pawn, s);
    }
    if knight_attacker(boards, by, sq) {
        let s = choose|s: u8| holds(att.knight, s) && #[trigger] knight_step(s, sq);
        assert(holds(knight_map & att.knight, s));
        lemma_member_nonzero(knight_map & att.knight, s);
    }
    if king_attacker(boards, by, sq) {
        let s = choose|s: u8| holds(att.king, s) && #[trigger] king_step(s, sq);
        assert(holds(king_map & att.king, s));
        lemma_member_nonzero(king_map & att.king, s);
    }
}

/// A square is attacked exactly when a slider or a leaper attacks it.
pub proof fn lemma_attacked_by_kind(boards: ChessBoard, by: Color, sq: u8)
    ensures
        attacked(boards, sq, by) == (diagonal_attacker(boards, by, sq) || straight_attacker(
            boards,
            by,
            sq,
        ) || leaper_attacker(boards, by, sq)),
{
    broadcast use group_holds;
    let att = boards.side(by);
    let occ = boards.occupancy();
    if attacked(boards, sq, by) {
        let (s, p) = choose|s: u8, p: PieceType| attacks_from(boards, by, p, s, sq);
        match p {
            PieceType::Pawn => {
                assert(holds(att.pawn, s) && pawn_attack(by, s, sq));
            },
            PieceType::Knight => {
                assert(holds(att.knight, s) && knight_step(s, sq));
            },
            PieceType::King => {
                assert(holds(att.king, s) && king_step(s, sq));
            },
            PieceType::Bishop => {
                assert(holds(diagonal_targets(att), s) && diagonal_attack(occ, s, sq));
            },
            PieceType::Rook => {
                assert(holds(straight_targets(att), s) && straight_attack(occ, s, sq));
            },
            PieceType::Queen => {
                if diagonal_attack(occ, s, sq) {
                    assert(holds(diagonal_targets(att), s) && diagonal_attack(occ, s, sq));
                } else {
                    assert(holds(straight_targets(att), s) && straight_attack(occ, s, sq));
                }
            },
        }
    }
    if diagonal_attacker(boards, by, sq) {
        let s = choose|s: u8| holds(diagonal_targets(att), s) && #[trigger] diagonal_attack(occ, s, sq);
        if holds(att.bishop, s) {
            assert(attacks_from(boards, by, PieceType::Bishop, s, sq));
        } else {
            assert(attacks_from(boards, by, PieceType::Queen, s, sq));
        }
    }
    if straight_attacker(boards, by, sq) {
        let s = choose|s: u8| holds(straight_targets(att), s) && #[trigger] straight_attack(occ, s, sq);
        if holds(att.rook, s) {
            assert(attacks_from(boards, by, PieceType::Rook, s, sq));
        } else {
            assert(attacks_from(boards, by, PieceType::Queen, s, sq));
        }
    }
    if pawn_attacker(boards, by, sq) {
        let s = choose|s: u8| holds(att.pawn, s) && #[trigger] pawn_attack(by, s, sq);
        assert(attacks_from(boards, by, PieceType::Pawn, s, sq));
    }
    if knight_attacker(boards, by, sq) {
        let s = choose|s: u8| holds(att.knight, s) && #[trigger] knight_step(s, sq);
        assert(attacks_from(boards, by, PieceType::Knight, s, sq));
    }
    if king_attacker(boards, by, sq) {
        let s = choose|s: u8| holds(att.king, s) && #[trigger] king_step(s, sq);
        assert(attacks_from(boards, by, PieceType::King, s, sq));
    }
}

proof fn lemma_not_attacked(boards: ChessBoard, by: Color, sq: u8)
    requires
        !diagonal_attacker(boards, by, sq),
        !straight_attacker(boards, by, sq),
        !leaper_attacker(boards, by, sq),
    ensures
        !attacked(boards, sq, by),
{
    lemma_attacked_by_kind(boards, by, sq);
}

} // verus!
