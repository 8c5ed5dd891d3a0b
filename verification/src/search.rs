//! Depth-bounded negamax alpha-beta search with a quiescence search at the horizon.

use vstd::prelude::*;
use crate::attacks::attacked;
use crate::bits::lsb;

use crate::flags::StateFlags;
use crate::game_state::GameState;
use crate::generation::{pseudo_moves, lemma_pseudo_moves_len, MOST_MOVES};
use crate::laws::{lemma_applied_well_formed, lemma_hash_restored, lemma_unmake_restores};
use crate::make_unmake::{MakeUnmaker, applied};
use crate::move_generator::MoveGenerator;
use crate::move_list::{AddMove, MoveList, ordered, all_from, lemma_ordered_members};
use crate::move_maps::MoveMaps;
use crate::moves::{Move, MoveExt, code_of, quiet_code};
use crate::negamax::{
    negamax, quiet_value, within, reply_of, capture_of, best_of, best_reply, lemma_best_of,
    lemma_best_of_members,
    lemma_best_reply_is_best, lemma_best_capture_is_best, lemma_best_of_grows,
};
use crate::perft::legal_after;
use crate::simple_eval::{material, pawn_structure, MOBILITY_COEF};
use crate::soundness::{lemma_generated_fits, playable};
use crate::stores::{
    stored_in_turn, table_quiesced, table_quiet_scanned, table_scanned, table_searched,
    lemma_table_quiesced, lemma_table_quiet_scanned, lemma_table_scanned, lemma_table_searched,
};
use crate::zobrist_numbers::ZobristNumbers;
use crate::transposition_table::{TranspositionTable, TtEntry, lookup};
use crate::variation::{
    Outcome, Scan, opening, popped, quiesced, quiet_opening, quiet_scanned, scanned, searched,
    taken, tried, rooted, deepened_to, lemma_quiesced, lemma_quiet_scanned, lemma_scanned,
    lemma_searched,
};

verus! {

/// No score is farther from zero than this.
pub const SCORE_BOUND: i32 = 1000000;

/// The score of a side that has been mated.
pub const MATED: i32 = -100000;

/// The position with the other side to move.
pub open spec fn flipped(s: GameState) -> GameState {
    GameState { flags: StateFlags { active: s.flags.active.other(), ..s.flags }, ..s }
}

/// The pseudo-legal moves of the side to move less those that the other side
/// would have, weighted.
pub open spec fn mobility(s: GameState, maps: &MoveMaps) -> int {
    MOBILITY_COEF * (pseudo_moves(s, maps).len() - pseudo_moves(flipped(s), maps).len())
}

/// The score of a position in which the side to move has no legal move and is
/// not in check.
pub const DRAWN: i32 = 0;

/// None of the pseudo-legal moves of the side to move is legal.
pub open spec fn no_legal_move(s: GameState, maps: &MoveMaps) -> bool {
    let moves = pseudo_moves(s, maps);
    forall|i: int| 0 <= i < moves.len() ==> !legal_after(s, #[trigger] moves[i])
}

/// The king of the side to move is attacked.
pub open spec fn in_check(s: GameState) -> bool {
    attacked(s.boards, lsb(s.friendly().king), s.flags.active.other())
}

/// The side to move is in check and none of its pseudo-legal moves is legal.
pub open spec fn checkmate(s: GameState, maps: &MoveMaps) -> bool {
    in_check(s) && no_legal_move(s, maps)
}

/// The side to move is not in check and none of its pseudo-legal moves is legal.
pub open spec fn stalemate(s: GameState, maps: &MoveMaps) -> bool {
    !in_check(s) && no_legal_move(s, maps)
}

/// The static score of the position for the side to move: the mate score where
/// it is mated, the draw score where it is stalemated, and otherwise pawn
/// structure plus material plus mobility.
pub open spec fn evaluation(s: GameState, maps: &MoveMaps) -> int {
    if checkmate(s, maps) {
        MATED as int
    } else if stalemate(s, maps) {
        DRAWN as int
    } else {
        pawn_structure(s) + material(s) + mobility(s, maps)
    }
}

/// The static score, or the best capture where that is better.
pub open spec fn standing(stand: int, best: Option<int>) -> int {
    match best {
        Some(v) => if v > stand {
            v
        } else {
            stand
        },
        None => stand,
    }
}

/// A move that fits a position goes from one square to another: it is not the
/// move that is all zeros.
pub proof fn lemma_fitting_move_is_not_zero(s: GameState, m: Move)
    requires
        crate::soundness::fits(s, m),
    ensures
        m != 0,
{
    crate::moves::lemma_codes();
    if m == 0 {
        s.friendly().lemma_occupancy(0);
    }
}

/// The move is a legal pseudo-legal move of the position after which the
/// negated value of the position is `v`: a best move where `v` is the value.
pub open spec fn leads_to(
    maps: &MoveMaps,
    max_depth: nat,
    s: GameState,
    depth: nat,
    m: Move,
    v: int,
) -> bool {
    pseudo_moves(s, maps).contains(m) && reply_of(maps, max_depth, s, m, depth) == Some(v)
}

/// The score is the negamax value of the position for a search to depth `d`;
/// the line, where the depth is above zero, is empty exactly when no move is
/// legal, and else ends with a best move.
pub open spec fn searched_to(
    maps: &MoveMaps,
    s: GameState,
    d: nat,
    score: int,
    line: Seq<Move>,
) -> bool {
    let moves = pseudo_moves(s, maps);
    &&& score == negamax(maps, d, s, 0)
    &&& d > 0 && line.len() > 0 ==> leads_to(maps, d, s, 0, line.last(), score)
    &&& d > 0 ==> (line.len() > 0) == exists|i: int|
        0 <= i < moves.len() && legal_after(s, #[trigger] moves[i])
}

/// The clock of the position has room for a search to depth `d`.
pub open spec fn room_for(s: GameState, d: nat) -> bool {
    d <= 250 && s.halfmove + d + 4 < 255
}

/// The score and the line are the result of the search to depth `d` in a run
/// of searches from depth `lo` on.
pub open spec fn searched_in_turn(
    maps: &MoveMaps,
    s: GameState,
    lo: nat,
    d: nat,
    score: int,
    line: Seq<Move>,
) -> bool {
    &&& searched_to(maps, s, d, score, line)
    &&& line == deepened_to(maps, s, lo, d).line
}

/// The score and the line are the result of the last search in a run of
/// searches from depth `lo` on, to a depth for which the clock of the position
/// has room, and `after` is the table that the run leaves of the table `before`.
pub open spec fn searched_from(
    maps: &MoveMaps,
    z: &ZobristNumbers,
    s: GameState,
    h: u64,
    lo: nat,
    score: int,
    line: Seq<Move>,
    before: Seq<Option<TtEntry>>,
    after: Seq<Option<TtEntry>>,
) -> bool {
    exists|d: nat| #[trigger]
        searched_in_turn(maps, s, lo, d, score, line) && lo <= d && room_for(s, d) && after
            == stored_in_turn(maps, z, s, h, lo, d, before)
}

/// The depth of the last search in a run that has just searched to depth `d`
/// and then reads the clock at `readings[k]`: one ply deeper each time, while the
/// time since `start` is below the budget, the clock of the position has room
/// and there is a reading left.
pub open spec fn last_depth(
    s: GameState,
    d: nat,
    budget: int,
    start: int,
    readings: Seq<i64>,
    k: nat,
) -> nat
    decreases readings.len() - k,
{
    if k < readings.len() && readings[k as int] - start < budget && room_for(s, d + 1) {
        last_depth(s, d + 1, budget, start, readings, k + 1)
    } else {
        d
    }
}

/// The run never ends before the depth at which it starts.
pub proof fn lemma_last_depth(
    s: GameState,
    d: nat,
    budget: int,
    start: int,
    readings: Seq<i64>,
    k: nat,
)
    ensures
        last_depth(s, d, budget, start, readings, k) >= d,
    decreases readings.len() - k,
{
    if k < readings.len() && readings[k as int] - start < budget && room_for(s, d + 1) {
        lemma_last_depth(s, d + 1, budget, start, readings, k + 1);
    }
}

/// The budget in milliseconds that a span of so many whole milliseconds and so
/// many nanoseconds beyond its whole seconds allows: a part of a millisecond
/// counts as a whole one.
pub open spec fn rounded_up(millis: i64, nanos: i32) -> int {
    if nanos > 0 && nanos % 1000000 != 0 && millis < i64::MAX {
        millis + 1
    } else {
        millis as int
    }
}

/// The budget in milliseconds that the span allows.
pub open spec fn budget_of(span: chrono::TimeDelta) -> int {
    rounded_up(span_millis(span), span_nanos(span))
}

/// Every move of the sequence is quiet.
pub open spec fn all_quiet(moves: Seq<Move>) -> bool {
    forall|i: int| 0 <= i < moves.len() ==> quiet_code(code_of(#[trigger] moves[i]))
}

/// A span of time, as `chrono` measures it.
pub type Duration = chrono::TimeDelta;

/// Makes `chrono::TimeDelta` known to the verifier as a type whose inside it does not see.
#[verifier::external_type_specification]
#[verifier::external_body]
pub struct ExTimeDelta(chrono::TimeDelta);

/// The whole milliseconds of a span, as `TimeDelta::num_milliseconds` of `chrono`
/// counts them.
pub uninterp spec fn span_millis(span: chrono::TimeDelta) -> i64;

/// The nanoseconds of a span beyond its whole seconds, as `TimeDelta::subsec_nanos`
/// of `chrono` counts them.
pub uninterp spec fn span_nanos(span: chrono::TimeDelta) -> i32;

/// Calls `TimeDelta::num_milliseconds` of `chrono`: the whole milliseconds of the span.
#[verifier::external_body]
fn whole_milliseconds(span: &chrono::TimeDelta) -> (ms: i64)
    ensures
        ms == span_millis(*span),
{
    span.num_milliseconds()
}

/// Calls `TimeDelta::subsec_nanos` of `chrono`: the nanoseconds of the span beyond
/// its whole seconds.
#[verifier::external_body]
fn odd_nanoseconds(span: &chrono::TimeDelta) -> (ns: i32)
    ensures
        ns == span_nanos(*span),
{
    span.subsec_nanos()
}

/// Calls `Local::now` and `DateTime::timestamp_millis` of `chrono`: the reading of
/// the wall clock in milliseconds. Nothing is claimed of it.
#[verifier::external_body]
fn wall_clock_millis() -> (ms: i64) {
    chrono::Local::now().timestamp_millis()
}

/// Calls `TimeDelta::new` of `chrono`, which gives a span for every number of
/// seconds up to `i64::MAX / 1000` with less than a second of nanoseconds. Of a
/// span of `secs` seconds from zero on and `nanos` nanoseconds, `chrono` counts
/// a thousand milliseconds for each second and one for each million of the
/// nanoseconds, and `nanos` nanoseconds beyond the whole seconds.
#[verifier::external_body]
pub(crate) fn time_span(secs: i64, nanos: u32) -> (span: Option<chrono::TimeDelta>)
    ensures
        0 <= secs <= 1000000000 && nanos < 1000000000 ==> span is Some,
        span is Some && 0 <= secs ==> span_millis(span->Some_0) == secs * 1000 + nanos / 1000000,
        span is Some && 0 <= secs ==> span_nanos(span->Some_0) == nanos,
{
    chrono::TimeDelta::new(secs, nanos)
}

/// The budget in milliseconds of a span of `millis` whole milliseconds and
/// `nanos` nanoseconds beyond its whole seconds.
pub fn round_up(millis: i64, nanos: i32) -> (budget: i64)
    ensures
        budget == rounded_up(millis, nanos),
{
    if nanos > 0 && nanos % 1000000 != 0 && millis < i64::MAX {
        millis + 1
    } else {
        millis
    }
}

/// Whether the time from `start` to `now` is below the budget, all in milliseconds.
pub fn within_budget(start: i64, now: i64, budget: i64) -> (r: bool)
    ensures
        r == (now - start < budget),
{
    (now as i128) - (start as i128) < (budget as i128)
}

/// A copy of a line of moves.
pub fn copy_line(line: &Vec<Move>) -> (copy: Vec<Move>)
    ensures
        copy@ == line@,
{
    let mut copy: Vec<Move> = Vec::new();
    let mut k: usize = 0;
    while k < line.len()
        invariant
            k <= line@.len(),
            copy@ == line@.take(k as int),
        decreases line@.len() - k,
    {
        copy.push(line[k]);
        proof {
            assert(copy@ =~= line@.take(k + 1));
        }
        k += 1;
    }
    proof {
        assert(line@.take(line@.len() as int) =~= line@);
    }
    copy
}

pub struct SearchContext {
    pub make_unmaker: MakeUnmaker,
    pub move_generator: MoveGenerator,
    pub move_list: MoveList,
    pub transpos: TranspositionTable,
    pub max_depth: u8,
}

impl SearchContext {
    /// The tables are built, the move list is in order, the position is playable
    /// and the quiescence ceiling fits its counter.
    pub open spec fn ready(&self) -> bool {
        &&& self.move_generator.wf()
        &&& self.move_list.wf()
        &&& playable(self.make_unmaker.state)
        &&& self.max_depth <= 251
    }

    /// The clock has room for every move that a search from `depth` may make.
    pub open spec fn room(&self, depth: u8) -> bool {
        self.make_unmaker.state.halfmove + (self.max_depth + 4 - depth) < 255
    }

    /// The position, its hash, the undo records, the move list and the depth are
    /// the same in the two contexts.
    pub open spec fn same_position(&self, other: &SearchContext) -> bool {
        &&& self.make_unmaker.state == other.make_unmaker.state
        &&& self.make_unmaker.zobrist_hash == other.make_unmaker.zobrist_hash
        &&& self.make_unmaker.frames() == other.make_unmaker.frames()
        &&& self.make_unmaker.zobrist_numbers == other.make_unmaker.zobrist_numbers
        &&& self.move_generator == other.move_generator
        &&& self.move_list@ == other.move_list@
        &&& self.move_list.wf() == other.move_list.wf()
        &&& self.max_depth == other.max_depth
    }

    pub const MIN_SCORE: i32 = -2147483647;

    pub const MAX_SCORE: i32 = 2147483647;

    /// A context for searching from `state`; the depth is 1 where none is given.
    pub fn new(state: GameState, max_depth: Option<u8>) -> (ctx: SearchContext)
        ensures
            ctx.make_unmaker.state == state,
            ctx.make_unmaker.in_sync(),
            ctx.make_unmaker.frames().len() == 0,
            ctx.move_generator.wf(),
            ctx.move_list.wf(),
            ctx.move_list@.len() == 0,
            forall|hash: u64| lookup(ctx.transpos@, hash) is None,
            ctx.max_depth == (match max_depth {
                Some(d) => d,
                None => 1,
            }),
    {
        SearchContext {
            make_unmaker: MakeUnmaker::new(state),
            move_generator: MoveGenerator::new(),
            move_list: MoveList::new(),
            transpos: TranspositionTable::new(),
            max_depth: match max_depth {
                Some(d) => d,
                None => 1,
            },
        }
    }

    /// The number of pseudo-legal moves of the side to move.
    fn active_side_move_number(&mut self) -> (n: i32)
        requires
            old(self).move_generator.wf(),
            old(self).move_list.wf(),
            old(self).make_unmaker.state.boards.disjoint(),
            old(self).make_unmaker.state.friendly().king != 0,
        ensures
            final(self).same_position(old(self)),
            final(self).transpos@ == old(self).transpos@,
            n == pseudo_moves(old(self).make_unmaker.state, &old(self).move_generator.move_maps).len(),
            0 <= n <= MOST_MOVES,
    {
        let ghost list0 = self.move_list@;
        let ghost moves = pseudo_moves(self.make_unmaker.state, &self.move_generator.move_maps);
        proof {
            lemma_pseudo_moves_len(self.make_unmaker.state, &self.move_generator.move_maps);
        }
        self.move_list.new_ply();
        self.move_generator.get_pseudo_legal_moves(&self.make_unmaker.state, &mut self.move_list);
        assert(self.move_list@ =~= list0.push(moves)) by {
            assert(Seq::<Move>::empty() + moves =~= moves);
        }
        let res = self.move_list.get_ply_size(self.move_list.get_ply_number());
        self.move_list.drop_current_ply();
        assert(self.move_list@ =~= list0);
        res as i32
    }

    /// The mobility of the side to move less that of the other side, weighted.
    pub fn mobility_score(&mut self) -> (r: i32)
        requires
            old(self).ready(),
        ensures
            final(self).same_position(old(self)),
            final(self).transpos@ == old(self).transpos@,
            r == mobility(old(self).make_unmaker.state, &old(self).move_generator.move_maps),
            -600000 <= r <= 600000,
    {
        let ghost s0 = self.make_unmaker.state;
        proof {
            crate::laws::lemma_single_bit(0);
        }
        let active_mobility = self.active_side_move_number();
        self.make_unmaker.state.flags.toggle_active_color();
        assert(self.make_unmaker.state == flipped(s0));
        let passive_mobility = self.active_side_move_number();
        self.make_unmaker.state.flags.toggle_active_color();
        assert(self.make_unmaker.state == s0);
        MOBILITY_COEF * (active_mobility - passive_mobility)
    }

    /// Whether the side to move is mated. The position is left as it was found.
    pub fn is_checkmate(&mut self) -> (r: bool)
        requires
            old(self).ready(),
            old(self).make_unmaker.state.halfmove < 255,
        ensures
            final(self).same_position(old(self)),
            final(self).transpos@ == old(self).transpos@,
            r == checkmate(old(self).make_unmaker.state, &old(self).move_generator.move_maps),
    {
        if !self.move_generator.is_check(&self.make_unmaker.state) {
            return false;
        }
        self.is_stuck()
    }

    /// Whether the side to move is stalemated. The position is left as it was found.
    pub fn is_stalemate(&mut self) -> (r: bool)
        requires
            old(self).ready(),
            old(self).make_unmaker.state.halfmove < 255,
        ensures
            final(self).same_position(old(self)),
            final(self).transpos@ == old(self).transpos@,
            r == stalemate(old(self).make_unmaker.state, &old(self).move_generator.move_maps),
    {
        if self.move_generator.is_check(&self.make_unmaker.state) {
            return false;
        }
        self.is_stuck()
    }

    /// Whether the side to move has no legal move: each pseudo-legal move is made
    /// and taken back until one leaves its own king safe.
    fn is_stuck(&mut self) -> (r: bool)
        requires
            old(self).ready(),
            old(self).make_unmaker.state.halfmove < 255,
        ensures
            final(self).same_position(old(self)),
            final(self).transpos@ == old(self).transpos@,
            r == no_legal_move(old(self).make_unmaker.state, &old(self).move_generator.move_maps),
    {
        let ghost s0 = self.make_unmaker.state;
        let ghost h0 = self.make_unmaker.zobrist_hash;
        let ghost f0 = self.make_unmaker.frames();
        let ghost list0 = self.move_list@;
        let ghost maps = &self.move_generator.move_maps;
        let ghost moves = pseudo_moves(s0, maps);
        self.move_list.new_ply();
        let mut move_found = false;
        self.move_generator.get_pseudo_legal_moves(&self.make_unmaker.state, &mut self.move_list);
        assert(self.move_list@ =~= list0.push(moves)) by {
            assert(Seq::<Move>::empty() + moves =~= moves);
        }
        let ply_number = self.move_list.get_ply_number();
        let ply_size = self.move_list.get_ply_size(ply_number);
        let mut i: usize = 0;
        while i < ply_size && !move_found
            invariant
                i <= ply_size,
                self.move_generator.wf(),
                self.move_generator == old(self).move_generator,
                maps == &self.move_generator.move_maps,
                self.transpos@ == old(self).transpos@,
                self.max_depth == old(self).max_depth,
                playable(s0),
                s0.halfmove < 255,
                moves == pseudo_moves(s0, maps),
                ply_size == moves.len(),
                ply_number == list0.len() + 1,
                self.make_unmaker.state == s0,
                self.make_unmaker.zobrist_hash == h0,
                self.make_unmaker.frames() == f0,
                self.make_unmaker.zobrist_numbers == old(self).make_unmaker.zobrist_numbers,
                self.move_list.wf(),
                self.move_list@ == list0.push(moves),
                !move_found ==> forall|k: int| 0 <= k < i ==> !legal_after(s0, #[trigger] moves[k]),
                move_found ==> exists|k: int| 0 <= k < moves.len() && legal_after(
                    s0,
                    #[trigger] moves[k],
                ),
            decreases ply_size - i + (if move_found { 0int } else { 1int }),
        {
            let m = self.move_list.get_move(ply_number, i);
            proof {
                assert(moves.contains(m));
                lemma_generated_fits(s0, maps, m);
                lemma_applied_well_formed(s0, m);
                lemma_unmake_restores(s0, m);
                lemma_hash_restored(h0, s0, m, &self.make_unmaker.zobrist_numbers);
            }
            self.make_unmaker.make_move(m);
            if self.move_generator.was_move_legal(&self.make_unmaker.state) {
                move_found = true;
                assert(legal_after(s0, moves[i as int]));
            }
            self.make_unmaker.unmake_move(m);
            proof {
                assert(self.make_unmaker.frames() =~= f0);
            }
            i += 1;
        }
        self.move_list.drop_current_ply();
        proof {
            assert(self.move_list@ =~= list0);
        }
        !move_found
    }

    /// The static score of the position for the side to move: mated, drawn by
    /// stalemate, or pawn structure plus material plus mobility. The position is
    /// left as it was found.
    pub fn evaluate(&mut self) -> (r: i32)
        requires
            old(self).ready(),
            old(self).make_unmaker.state.halfmove < 255,
        ensures
            final(self).same_position(old(self)),
            final(self).transpos@ == old(self).transpos@,
            r == evaluation(old(self).make_unmaker.state, &old(self).move_generator.move_maps),
            -SCORE_BOUND <= r <= SCORE_BOUND,
    {
        if self.is_stuck() {
            if self.move_generator.is_check(&self.make_unmaker.state) {
                return MATED;
            }
            return DRAWN;
        }
        self.make_unmaker.state.pawn_structure_score() + self.make_unmaker.state.material_score()
            + self.mobility_score()
    }

    /// Opens a ply with the pseudo-legal moves of the position, in search order:
    /// first the last move of `prev_pv`, which is taken off it, where the ply
    /// holds that move. Returns the number and the size of the ply.
    fn add_moves_to_list(&mut self, prev_pv: &mut Vec<Move>) -> (r: (usize, usize))
        requires
            old(self).ready(),
        ensures
            final(self).make_unmaker == old(self).make_unmaker,
            final(self).move_generator == old(self).move_generator,
            final(self).max_depth == old(self).max_depth,
            final(self).transpos@ == old(self).transpos@,
            final(self).move_list.wf(),
            final(self).move_list@ == old(self).move_list@.push(
                ordered(
                    pseudo_moves(
                        old(self).make_unmaker.state,
                        &old(self).move_generator.move_maps,
                    ),
                    if old(prev_pv)@.len() > 0 {
                        Some(old(prev_pv)@.last())
                    } else {
                        None
                    },
                ),
            ),
            final(prev_pv)@ == (if old(prev_pv)@.len() > 0 {
                old(prev_pv)@.drop_last()
            } else {
                old(prev_pv)@
            }),
            r.0 == old(self).move_list@.len() + 1,
            r.1 == pseudo_moves(
                old(self).make_unmaker.state,
                &old(self).move_generator.move_maps,
            ).len(),
    {
        let ghost list0 = self.move_list@;
        let ghost moves = pseudo_moves(self.make_unmaker.state, &self.move_generator.move_maps);
        self.move_list.new_ply();
        self.move_generator.get_pseudo_legal_moves(&self.make_unmaker.state, &mut self.move_list);
        assert(self.move_list@ =~= list0.push(moves)) by {
            assert(Seq::<Move>::empty() + moves =~= moves);
        }
        let first = prev_pv.pop();
        self.move_list.order_ply(first);
        proof {
            lemma_ordered_members(moves, first);
            assert(self.move_list@ =~= list0.push(ordered(moves, first)));
        }
        let ply_number = self.move_list.get_ply_number();
        (ply_number, self.move_list.get_ply_size(ply_number))
    }

    /// Makes `pv` the line `line` followed by the move `m`.
    fn set_line(pv: &mut Vec<Move>, line: &Vec<Move>, m: Move)
        ensures
            final(pv)@ == line@.push(m),
    {
        pv.clear();
        let mut k: usize = 0;
        while k < line.len()
            invariant
                k <= line@.len(),
                pv@ == line@.take(k as int),
            decreases line@.len() - k,
        {
            pv.push(line[k]);
            proof {
                assert(pv@ =~= line@.take(k + 1));
            }
            k += 1;
        }
        pv.push(m);
        proof {
            assert(line@.take(line@.len() as int) =~= line@);
        }
    }

    /// Searches the position to the depth of the context with the full window,
    /// trying first at each node the move that `prev_pv` ends with. Returns the
    /// negamax value of the position and the principal variation, last move
    /// first. The position is left as it was found.
    pub fn search(&mut self, prev_pv: Vec<Move>) -> (r: (i32, Vec<Move>))
        requires
            old(self).ready(),
            old(self).room(0),
        ensures
            final(self).same_position(old(self)),
            -SCORE_BOUND <= r.0 <= SCORE_BOUND,
            r.0 == negamax(
                &old(self).move_generator.move_maps,
                old(self).max_depth as nat,
                old(self).make_unmaker.state,
                0,
            ),
            searched_to(
                &old(self).move_generator.move_maps,
                old(self).make_unmaker.state,
                old(self).max_depth as nat,
                r.0 as int,
                r.1@,
            ),
            old(self).max_depth > 0 ==> (lookup(
                final(self).transpos@,
                old(self).make_unmaker.zobrist_hash,
            ) matches Some(e) && e.depth == 0 && e.score == r.0),
            rooted(
                &old(self).move_generator.move_maps,
                old(self).max_depth as nat,
                old(self).make_unmaker.state,
                prev_pv@,
            ).score == r.0,
            rooted(
                &old(self).move_generator.move_maps,
                old(self).max_depth as nat,
                old(self).make_unmaker.state,
                prev_pv@,
            ).line == r.1@,
            final(self).transpos@ == table_searched(
                &old(self).move_generator.move_maps,
                &old(self).make_unmaker.zobrist_numbers,
                old(self).max_depth as nat,
                old(self).make_unmaker.state,
                old(self).make_unmaker.zobrist_hash,
                0,
                -2147483647,
                2147483647,
                Seq::empty(),
                prev_pv@,
                old(self).transpos@,
            ),
    {
        let ghost before = prev_pv@;
        let mut prev_pv = prev_pv;
        let mut pv = Vec::new();
        let score = self.alpha_beta_search(
            SearchContext::MIN_SCORE,
            SearchContext::MAX_SCORE,
            0,
            &mut pv,
            &mut prev_pv,
        );
        proof {
            let maps = &old(self).move_generator.move_maps;
            let s0 = old(self).make_unmaker.state;
            let all = pseudo_moves(s0, maps);
            let horizon = old(self).max_depth as nat;
            if horizon > 0 {
                let reply = |m: Move| reply_of(maps, horizon, s0, m, 0);
                lemma_best_reply_is_best(maps, horizon, s0, all, all.len(), 0);
                lemma_best_of(all, all.len(), reply);
                if exists|i: int| 0 <= i < all.len() && legal_after(s0, #[trigger] all[i]) {
                    let i = choose|i: int| 0 <= i < all.len() && legal_after(s0, #[trigger] all[i]);
                    assert(reply(all[i]) is Some);
                }
            }
        }
        (score, pv)
    }

    /// Negamax with alpha-beta bounds from `depth` down to the depth of the
    /// context, where the quiescence search takes over. The result is the value
    /// of the position where that lies inside the window, else a bound on it
    /// on the side of the window where it lies. Each node takes the last move
    /// off `prev_pv` and tries it first; a move whose score raises the lower
    /// bound makes `pv` the line from below followed by that move. The position
    /// is left as it was found.
    #[verifier::rlimit(60)]
    pub fn alpha_beta_search(
        &mut self,
        alpha: i32,
        beta: i32,
        depth: u8,
        pv: &mut Vec<Move>,
        prev_pv: &mut Vec<Move>,
    ) -> (r: i32)
        requires
            old(self).ready(),
            depth <= old(self).max_depth,
            old(self).room(depth),
            i32::MIN < alpha < beta,
        ensures
            final(self).same_position(old(self)),
            -SCORE_BOUND <= r <= SCORE_BOUND,
            within(
                r as int,
                alpha as int,
                beta as int,
                negamax(
                    &old(self).move_generator.move_maps,
                    old(self).max_depth as nat,
                    old(self).make_unmaker.state,
                    depth as nat,
                ),
            ),
            // Where a legal move gave a value inside the window, the line ends with it.
            depth < old(self).max_depth && alpha < r < beta && best_reply(
                &old(self).move_generator.move_maps,
                old(self).max_depth as nat,
                old(self).make_unmaker.state,
                pseudo_moves(old(self).make_unmaker.state, &old(self).move_generator.move_maps),
                pseudo_moves(
                    old(self).make_unmaker.state,
                    &old(self).move_generator.move_maps,
                ).len(),
                depth as nat,
            ) is Some ==> final(pv)@.len() > 0 && leads_to(
                &old(self).move_generator.move_maps,
                old(self).max_depth as nat,
                old(self).make_unmaker.state,
                depth as nat,
                final(pv)@.last(),
                r as int,
            ),
            // Above the horizon the result is stored under the hash of the position.
            depth < old(self).max_depth ==> (lookup(
                final(self).transpos@,
                old(self).make_unmaker.zobrist_hash,
            ) matches Some(e) && e.depth == depth && e.score == r),
            // Where no move is legal, the line is left as it was.
            depth < old(self).max_depth && best_reply(
                &old(self).move_generator.move_maps,
                old(self).max_depth as nat,
                old(self).make_unmaker.state,
                pseudo_moves(old(self).make_unmaker.state, &old(self).move_generator.move_maps),
                pseudo_moves(
                    old(self).make_unmaker.state,
                    &old(self).move_generator.move_maps,
                ).len(),
                depth as nat,
            ) is None ==> final(pv)@ == old(pv)@,
            // The score, the line and what is left of the line of the search before.
            searched(
                &old(self).move_generator.move_maps,
                old(self).max_depth as nat,
                old(self).make_unmaker.state,
                depth as nat,
                alpha as int,
                beta as int,
                old(pv)@,
                old(prev_pv)@,
            ) == (Outcome { score: r as int, line: final(pv)@, rest: final(prev_pv)@ }),
            final(prev_pv)@.is_prefix_of(old(prev_pv)@),
            // What the table holds afterwards.
            final(self).transpos@ == table_searched(
                &old(self).move_generator.move_maps,
                &old(self).make_unmaker.zobrist_numbers,
                old(self).max_depth as nat,
                old(self).make_unmaker.state,
                old(self).make_unmaker.zobrist_hash,
                depth as nat,
                alpha as int,
                beta as int,
                old(pv)@,
                old(prev_pv)@,
                old(self).transpos@,
            ),
        decreases old(self).max_depth - depth,
    {
        let ghost alpha0 = alpha as int;
        let ghost line0 = pv@;
        let ghost rest0 = prev_pv@;
        let ghost table0 = self.transpos@;
        let ghost z = self.make_unmaker.zobrist_numbers;
        proof {
            lemma_table_searched(
                &self.move_generator.move_maps,
                &z,
                self.max_depth as nat,
                self.make_unmaker.state,
                self.make_unmaker.zobrist_hash,
                depth as nat,
                alpha0,
                beta as int,
                line0,
                rest0,
                table0,
            );
        }
        let mut alpha = alpha;
        proof {
            lemma_searched(
                &self.move_generator.move_maps,
                self.max_depth as nat,
                self.make_unmaker.state,
                depth as nat,
                alpha0,
                beta as int,
                line0,
                rest0,
            );
        }
        if depth == self.max_depth {
            return self.quiesce(alpha, beta, depth, pv, prev_pv);
        }
        let ghost s0 = self.make_unmaker.state;
        let ghost h0 = self.make_unmaker.zobrist_hash;
        let ghost f0 = self.make_unmaker.frames();
        let ghost list0 = self.move_list@;
        let ghost maps = &self.move_generator.move_maps;
        let ghost horizon = self.max_depth as nat;
        let ghost first = if prev_pv@.len() > 0 { Some(prev_pv@.last()) } else { None };
        let ghost moves = ordered(pseudo_moves(s0, maps), first);
        let ghost reply = |m: Move| reply_of(maps, horizon, s0, m, depth as nat);
        proof {
            lemma_ordered_members(pseudo_moves(s0, maps), first);
        }
        let (ply_number, ply_size) = self.add_moves_to_list(prev_pv);

        let mut best_score = i32::MIN + 1;
        let mut best_move: Move = 0;
        let mut line: Vec<Move> = Vec::new();
        let mut cut = false;
        let mut i: usize = 0;
        let ghost goal = scanned(
            maps,
            horizon,
            s0,
            depth as nat,
            beta as int,
            moves,
            0,
            opening(alpha0, line0, rest0),
        );
        let ghost goal_table = table_scanned(
            maps,
            &z,
            horizon,
            s0,
            h0,
            depth as nat,
            beta as int,
            moves,
            0,
            opening(alpha0, line0, rest0),
            table0,
        );
        proof {
            assert(moves == tried(maps, s0, rest0));
            assert(line@ =~= Seq::<Move>::empty());
            assert(prev_pv@.is_prefix_of(rest0));
        }
        while i < ply_size && !cut
            invariant
                z == old(self).make_unmaker.zobrist_numbers,
                goal_table == table_scanned(
                    maps,
                    &z,
                    horizon,
                    s0,
                    h0,
                    depth as nat,
                    beta as int,
                    moves,
                    i as nat,
                    Scan {
                        alpha: alpha as int,
                        best: best_score as int,
                        best_move,
                        line: pv@,
                        below: line@,
                        rest: prev_pv@,
                        cut,
                    },
                    self.transpos@,
                ),
                moves == tried(maps, s0, rest0),
                prev_pv@.is_prefix_of(rest0),
                goal == scanned(
                    maps,
                    horizon,
                    s0,
                    depth as nat,
                    beta as int,
                    moves,
                    i as nat,
                    Scan {
                        alpha: alpha as int,
                        best: best_score as int,
                        best_move,
                        line: pv@,
                        below: line@,
                        rest: prev_pv@,
                        cut,
                    },
                ),
                i <= ply_size,
                depth < self.max_depth <= 251,
                horizon == self.max_depth,
                self.move_generator.wf(),
                self.move_generator == old(self).move_generator,
                maps == &self.move_generator.move_maps,
                self.max_depth == old(self).max_depth,
                playable(s0),
                s0.halfmove + (self.max_depth + 4 - depth) < 255,
                all_from(moves, pseudo_moves(s0, maps)),
                ply_size == moves.len(),
                ply_number == list0.len() + 1,
                self.make_unmaker.state == s0,
                self.make_unmaker.zobrist_hash == h0,
                self.make_unmaker.frames() == f0,
                self.make_unmaker.zobrist_numbers == old(self).make_unmaker.zobrist_numbers,
                self.move_list.wf(),
                self.move_list@ == list0.push(moves),
                reply == (|m: Move| reply_of(maps, horizon, s0, m, depth as nat)),
                i32::MIN < alpha0 < beta,
                alpha == (if best_score > alpha0 { best_score as int } else { alpha0 }),
                !cut ==> alpha < beta,
                best_score == i32::MIN + 1 || -SCORE_BOUND <= best_score <= SCORE_BOUND,
                best_of(moves, i as nat, reply) is None ==> best_move == 0 && best_score == i32::MIN
                    + 1,
                best_of(moves, i as nat, reply) is Some ==> best_move != 0 && -SCORE_BOUND
                    <= best_score <= SCORE_BOUND,
                best_score > alpha0 && !cut ==> best_of(moves, i as nat, reply) == Some(
                    best_score as int,
                ),
                best_score <= alpha0 ==> (best_of(moves, i as nat, reply) matches Some(v) ==> v
                    <= best_score),
                cut ==> best_score >= beta && (best_of(moves, i as nat, reply) matches Some(v)
                    && v >= best_score),
                best_score > alpha0 && !cut ==> pv@.len() > 0 && pseudo_moves(s0, maps).contains(
                    pv@.last(),
                ) && reply(pv@.last()) == Some(best_score as int),
                best_of(moves, i as nat, reply) is None ==> pv@ == old(pv)@,
            decreases ply_size - i + (if cut { 0int } else { 1int }),
        {
            let m = self.move_list.get_move(ply_number, i);
            let ghost st = Scan {
                alpha: alpha as int,
                best: best_score as int,
                best_move,
                line: pv@,
                below: line@,
                rest: prev_pv@,
                cut,
            };
            let ghost table = self.transpos@;
            proof {
                lemma_table_scanned(
                    maps,
                    &z,
                    horizon,
                    s0,
                    h0,
                    depth as nat,
                    beta as int,
                    moves,
                    i as nat,
                    st,
                    table,
                );
                assert(pseudo_moves(s0, maps).contains(moves[i as int]));
                lemma_generated_fits(s0, maps, m);
                lemma_applied_well_formed(s0, m);
                lemma_unmake_restores(s0, m);
                lemma_hash_restored(h0, s0, m, &self.make_unmaker.zobrist_numbers);
                lemma_fitting_move_is_not_zero(s0, m);
            }
            self.make_unmaker.make_move(m);
            if !self.move_generator.was_move_legal(&self.make_unmaker.state) {
                self.make_unmaker.unmake_move(m);
            } else {
                let score = -self.alpha_beta_search(-beta, -alpha, depth + 1, &mut line, prev_pv);
                self.make_unmaker.unmake_move(m);
                if score > best_score {
                    best_score = score;
                    best_move = m;
                    if score > alpha {
                        alpha = score;
                        SearchContext::set_line(pv, &line, m);
                    }
                }
                if score >= beta {
                    cut = true;
                }
                proof {
                    let child = searched(
                        maps,
                        horizon,
                        applied(s0, m),
                        (depth + 1) as nat,
                        -(beta as int),
                        -st.alpha,
                        st.below,
                        st.rest,
                    );
                    assert(taken(st, m, beta as int, child) == (Scan {
                        alpha: alpha as int,
                        best: best_score as int,
                        best_move,
                        line: pv@,
                        below: line@,
                        rest: prev_pv@,
                        cut,
                    }));
                }
            }
            proof {
                lemma_scanned(maps, horizon, s0, depth as nat, beta as int, moves, i as nat, st);
                assert(self.make_unmaker.frames() =~= f0);
                assert(prev_pv@.is_prefix_of(rest0)) by {
                    assert(prev_pv@ =~= rest0.subrange(0, prev_pv@.len() as int));
                }
            }
            i += 1;
        }
        self.move_list.drop_current_ply();
        proof {
            lemma_scanned(
                maps,
                horizon,
                s0,
                depth as nat,
                beta as int,
                moves,
                i as nat,
                Scan {
                    alpha: alpha as int,
                    best: best_score as int,
                    best_move,
                    line: pv@,
                    below: line@,
                    rest: prev_pv@,
                    cut,
                },
            );
            lemma_table_scanned(
                maps,
                &z,
                horizon,
                s0,
                h0,
                depth as nat,
                beta as int,
                moves,
                i as nat,
                Scan {
                    alpha: alpha as int,
                    best: best_score as int,
                    best_move,
                    line: pv@,
                    below: line@,
                    rest: prev_pv@,
                    cut,
                },
                self.transpos@,
            );
            assert(self.move_list@ =~= list0);
            let all = pseudo_moves(s0, maps);
            lemma_best_of_members(moves, all, reply);
            lemma_best_reply_is_best(maps, horizon, s0, all, all.len(), depth as nat);
            lemma_best_of_grows(moves, i as nat, moves.len(), reply);
        }
        // Without a best move the side to move is mated or stalemated: the
        // evaluation tells which.
        if best_move == 0 {
            best_score = self.evaluate();
        }
        self.transpos.store(
            TtEntry { hash: self.make_unmaker.zobrist_hash, depth, score: best_score, best_move },
        );
        best_score
    }

    /// Searches on over captures and promotions only, at most four plies beyond
    /// the depth of the context, with the static score as a lower bound. The
    /// result is the quiescence value of the position where that lies inside the
    /// window, else a bound on it on the side of the window where it lies. Where
    /// every pseudo-legal move is quiet, and where the static score reaches
    /// `beta`, the result is the static score and the line is empty. The lines
    /// are kept as above the horizon. The position is left as it was found.
    #[verifier::rlimit(60)]
    pub fn quiesce(
        &mut self,
        alpha: i32,
        beta: i32,
        depth: u8,
        pv: &mut Vec<Move>,
        prev_pv: &mut Vec<Move>,
    ) -> (r: i32)
        requires
            old(self).ready(),
            depth <= old(self).max_depth + 4,
            old(self).room(depth),
            i32::MIN < alpha < beta,
        ensures
            final(self).same_position(old(self)),
            -SCORE_BOUND <= r <= SCORE_BOUND,
            within(
                r as int,
                alpha as int,
                beta as int,
                quiet_value(
                    &old(self).move_generator.move_maps,
                    old(self).max_depth as nat,
                    old(self).make_unmaker.state,
                    depth as nat,
                ),
            ),
            r >= evaluation(old(self).make_unmaker.state, &old(self).move_generator.move_maps),
            all_quiet(
                pseudo_moves(old(self).make_unmaker.state, &old(self).move_generator.move_maps),
            ) || depth >= old(self).max_depth + 4 ==> r == evaluation(
                old(self).make_unmaker.state,
                &old(self).move_generator.move_maps,
            ) && final(pv)@.len() == 0,
            // A static score that reaches the upper bound is the result.
            evaluation(old(self).make_unmaker.state, &old(self).move_generator.move_maps) >= beta
                ==> r == evaluation(
                old(self).make_unmaker.state,
                &old(self).move_generator.move_maps,
            ) && final(pv)@.len() == 0,
            // The score, the line and what is left of the line of the search before.
            quiesced(
                &old(self).move_generator.move_maps,
                old(self).max_depth as nat,
                old(self).make_unmaker.state,
                depth as nat,
                alpha as int,
                beta as int,
                old(pv)@,
                old(prev_pv)@,
            ) == (Outcome { score: r as int, line: final(pv)@, rest: final(prev_pv)@ }),
            final(prev_pv)@.is_prefix_of(old(prev_pv)@),
            // Where no move is searched, at most the move to try first is taken
            // off the line of the search before.
            depth >= old(self).max_depth + 4 ==> final(prev_pv)@ == old(prev_pv)@,
            depth < old(self).max_depth + 4 && all_quiet(
                pseudo_moves(old(self).make_unmaker.state, &old(self).move_generator.move_maps),
            ) ==> final(prev_pv)@ == popped(old(prev_pv)@),
            // What the table holds afterwards.
            final(self).transpos@ == table_quiesced(
                &old(self).move_generator.move_maps,
                &old(self).make_unmaker.zobrist_numbers,
                old(self).max_depth as nat,
                old(self).make_unmaker.state,
                old(self).make_unmaker.zobrist_hash,
                depth as nat,
                alpha as int,
                beta as int,
                old(pv)@,
                old(prev_pv)@,
                old(self).transpos@,
            ),
        decreases old(self).max_depth + 4 - depth,
    {
        let ghost alpha0 = alpha as int;
        let ghost line0 = pv@;
        let ghost rest0 = prev_pv@;
        let ghost table0 = self.transpos@;
        let ghost z = self.make_unmaker.zobrist_numbers;
        proof {
            lemma_table_quiesced(
                &self.move_generator.move_maps,
                &z,
                self.max_depth as nat,
                self.make_unmaker.state,
                self.make_unmaker.zobrist_hash,
                depth as nat,
                alpha0,
                beta as int,
                line0,
                rest0,
                table0,
            );
        }
        proof {
            lemma_quiesced(
                &self.move_generator.move_maps,
                self.max_depth as nat,
                self.make_unmaker.state,
                depth as nat,
                alpha0,
                beta as int,
                line0,
                rest0,
            );
        }
        if depth >= self.max_depth + 4 {
            pv.clear();
            proof {
                assert(pv@ =~= Seq::<Move>::empty());
            }
            return self.evaluate();
        }
        let mut alpha = alpha;
        let ghost s0 = self.make_unmaker.state;
        let ghost h0 = self.make_unmaker.zobrist_hash;
        let ghost f0 = self.make_unmaker.frames();
        let ghost list0 = self.move_list@;
        let ghost maps = &self.move_generator.move_maps;
        let ghost horizon = self.max_depth as nat;
        let ghost first = if prev_pv@.len() > 0 { Some(prev_pv@.last()) } else { None };
        let ghost moves = ordered(pseudo_moves(s0, maps), first);
        let ghost capture = |m: Move| capture_of(maps, horizon, s0, m, depth as nat);
        proof {
            lemma_ordered_members(pseudo_moves(s0, maps), first);
            let all = pseudo_moves(s0, maps);
            lemma_best_of_members(moves, all, capture);
            lemma_best_capture_is_best(maps, horizon, s0, all, all.len(), depth as nat);
        }
        let (ply_number, ply_size) = self.add_moves_to_list(prev_pv);

        let static_score = self.evaluate();
        let mut best_score = static_score;
        let mut best_move: Move = 0;

        if static_score >= beta {
            pv.clear();
            self.move_list.drop_current_ply();
            proof {
                assert(self.move_list@ =~= list0);
                assert(pv@ =~= Seq::<Move>::empty());
                assert(prev_pv@.is_prefix_of(rest0));
            }
            return static_score;
        }
        if static_score > alpha {
            alpha = static_score;
        }
        let mut line: Vec<Move> = Vec::new();
        let mut cut = false;
        let mut i: usize = 0;
        let ghost goal = quiet_scanned(
            maps,
            horizon,
            s0,
            depth as nat,
            beta as int,
            moves,
            0,
            quiet_opening(static_score as int, alpha0, line0, rest0),
        );
        let ghost goal_table = table_quiet_scanned(
            maps,
            &z,
            horizon,
            s0,
            h0,
            depth as nat,
            beta as int,
            moves,
            0,
            quiet_opening(static_score as int, alpha0, line0, rest0),
            table0,
        );
        proof {
            assert(moves == tried(maps, s0, rest0));
            assert(line@ =~= Seq::<Move>::empty());
            assert(prev_pv@.is_prefix_of(rest0));
        }
        while i < ply_size && !cut
            invariant
                z == old(self).make_unmaker.zobrist_numbers,
                goal_table == table_quiet_scanned(
                    maps,
                    &z,
                    horizon,
                    s0,
                    h0,
                    depth as nat,
                    beta as int,
                    moves,
                    i as nat,
                    Scan {
                        alpha: alpha as int,
                        best: best_score as int,
                        best_move,
                        line: pv@,
                        below: line@,
                        rest: prev_pv@,
                        cut,
                    },
                    self.transpos@,
                ),
                moves == tried(maps, s0, rest0),
                prev_pv@.is_prefix_of(rest0),
                all_quiet(pseudo_moves(s0, maps)) ==> prev_pv@ == popped(rest0),
                goal == quiet_scanned(
                    maps,
                    horizon,
                    s0,
                    depth as nat,
                    beta as int,
                    moves,
                    i as nat,
                    Scan {
                        alpha: alpha as int,
                        best: best_score as int,
                        best_move,
                        line: pv@,
                        below: line@,
                        rest: prev_pv@,
                        cut,
                    },
                ),
                i <= ply_size,
                depth < self.max_depth + 4,
                self.max_depth <= 251,
                horizon == self.max_depth,
                self.move_generator.wf(),
                self.move_generator == old(self).move_generator,
                maps == &self.move_generator.move_maps,
                self.max_depth == old(self).max_depth,
                playable(s0),
                s0.halfmove + (self.max_depth + 4 - depth) < 255,
                all_from(moves, pseudo_moves(s0, maps)),
                ply_size == moves.len(),
                ply_number == list0.len() + 1,
                self.make_unmaker.state == s0,
                self.make_unmaker.zobrist_hash == h0,
                self.make_unmaker.frames() == f0,
                self.make_unmaker.zobrist_numbers == old(self).make_unmaker.zobrist_numbers,
                self.move_list.wf(),
                self.move_list@ == list0.push(moves),
                capture == (|m: Move| capture_of(maps, horizon, s0, m, depth as nat)),
                i32::MIN < alpha0 < beta,
                alpha == (if best_score > alpha0 { best_score as int } else { alpha0 }),
                !cut ==> alpha < beta,
                static_score == evaluation(s0, maps),
                static_score <= best_score <= SCORE_BOUND,
                -SCORE_BOUND <= static_score,
                best_move == 0 ==> best_score == static_score,
                all_quiet(pseudo_moves(s0, maps)) ==> best_move == 0 && !cut,
                best_score > alpha0 && !cut ==> standing(
                    static_score as int,
                    best_of(moves, i as nat, capture),
                ) == best_score,
                best_score <= alpha0 ==> standing(
                    static_score as int,
                    best_of(moves, i as nat, capture),
                ) <= best_score,
                cut ==> best_score >= beta && standing(
                    static_score as int,
                    best_of(moves, i as nat, capture),
                ) >= best_score,
            decreases ply_size - i + (if cut { 0int } else { 1int }),
        {
            let m = self.move_list.get_move(ply_number, i);
            let ghost st = Scan {
                alpha: alpha as int,
                best: best_score as int,
                best_move,
                line: pv@,
                below: line@,
                rest: prev_pv@,
                cut,
            };
            proof {
                assert(pseudo_moves(s0, maps).contains(moves[i as int]));
                lemma_quiet_scanned(maps, horizon, s0, depth as nat, beta as int, moves, i as nat, st);
                lemma_table_quiet_scanned(
                    maps,
                    &z,
                    horizon,
                    s0,
                    h0,
                    depth as nat,
                    beta as int,
                    moves,
                    i as nat,
                    st,
                    self.transpos@,
                );
            }
            if !m.is_quiet() {
                proof {
                    lemma_generated_fits(s0, maps, m);
                    lemma_applied_well_formed(s0, m);
                    lemma_unmake_restores(s0, m);
                    lemma_hash_restored(h0, s0, m, &self.make_unmaker.zobrist_numbers);
                    lemma_fitting_move_is_not_zero(s0, m);
                }
                self.make_unmaker.make_move(m);
                if !self.move_generator.was_move_legal(&self.make_unmaker.state) {
                    self.make_unmaker.unmake_move(m);
                } else {
                    let score = -self.quiesce(-beta, -alpha, depth + 1, &mut line, prev_pv);
                    self.make_unmaker.unmake_move(m);
                    if score > best_score {
                        best_score = score;
                        best_move = m;
                        if score > alpha {
                            alpha = score;
                            SearchContext::set_line(pv, &line, m);
                        }
                    }
                    if score >= beta {
                        cut = true;
                    }
                    proof {
                        let child = quiesced(
                            maps,
                            horizon,
                            applied(s0, m),
                            (depth + 1) as nat,
                            -(beta as int),
                            -st.alpha,
                            st.below,
                            st.rest,
                        );
                        assert(taken(st, m, beta as int, child) == (Scan {
                            alpha: alpha as int,
                            best: best_score as int,
                            best_move,
                            line: pv@,
                            below: line@,
                            rest: prev_pv@,
                            cut,
                        }));
                    }
                }
                proof {
                    assert(self.make_unmaker.frames() =~= f0);
                    assert(prev_pv@.is_prefix_of(rest0)) by {
                        assert(prev_pv@ =~= rest0.subrange(0, prev_pv@.len() as int));
                    }
                }
            }
            i += 1;
        }
        self.move_list.drop_current_ply();
        proof {
            lemma_quiet_scanned(
                maps,
                horizon,
                s0,
                depth as nat,
                beta as int,
                moves,
                i as nat,
                Scan {
                    alpha: alpha as int,
                    best: best_score as int,
                    best_move,
                    line: pv@,
                    below: line@,
                    rest: prev_pv@,
                    cut,
                },
            );
            lemma_table_quiet_scanned(
                maps,
                &z,
                horizon,
                s0,
                h0,
                depth as nat,
                beta as int,
                moves,
                i as nat,
                Scan {
                    alpha: alpha as int,
                    best: best_score as int,
                    best_move,
                    line: pv@,
                    below: line@,
                    rest: prev_pv@,
                    cut,
                },
                self.transpos@,
            );
            assert(self.move_list@ =~= list0);
            lemma_best_of_grows(moves, i as nat, moves.len(), capture);
        }
        if best_move == 0 {
            // No capture was found worth making: the quiescence search stops.
            pv.clear();
            proof {
                assert(pv@ =~= Seq::<Move>::empty());
            }
            return static_score;
        }
        self.transpos.store(
            TtEntry { hash: self.make_unmaker.zobrist_hash, depth: 0, score: best_score, best_move },
        );
        best_score
    }

    /// Whether a search to the current depth fits the clock of the position.
    pub fn has_room(&self) -> (r: bool)
        ensures
            r == (self.max_depth <= 250 && self.room(0)),
    {
        self.max_depth <= 250 && (self.make_unmaker.state.halfmove as u16) + (
        self.max_depth as u16) + 4 < 255
    }

    /// Searches to the depth of the context, then one ply deeper each time, as
    /// long as the time spent since the start is below `max_time` and the clock
    /// of the position has room for a deeper search. Returns the result of the
    /// last search made, or a score of zero with an empty line where none was
    /// made: there is no stopping in the middle of a depth. With a span above
    /// zero and room for a search to the depth of the context that search is
    /// always made; without either none is made. The position and the depth of
    /// the context are left as they were found.
    pub fn iterative_deepen(&mut self, max_time: Duration) -> (r: (i32, Vec<Move>))
        requires
            old(self).move_generator.wf(),
            old(self).move_list.wf(),
            playable(old(self).make_unmaker.state),
        ensures
            final(self).same_position(old(self)),
            -SCORE_BOUND <= r.0 <= SCORE_BOUND,
            budget_of(max_time) > 0 && room_for(
                old(self).make_unmaker.state,
                old(self).max_depth as nat,
            ) ==> searched_from(
                &old(self).move_generator.move_maps,
                &old(self).make_unmaker.zobrist_numbers,
                old(self).make_unmaker.state,
                old(self).make_unmaker.zobrist_hash,
                old(self).max_depth as nat,
                r.0 as int,
                r.1@,
                old(self).transpos@,
                final(self).transpos@,
            ),
            budget_of(max_time) <= 0 || !room_for(
                old(self).make_unmaker.state,
                old(self).max_depth as nat,
            ) ==> r.0 == 0 && r.1@.len() == 0 && final(self).transpos@ == old(self).transpos@,
    {
        let millis = whole_milliseconds(&max_time);
        let nanos = odd_nanoseconds(&max_time);
        self.deepen_for(round_up(millis, nanos))
    }

    /// Iterative deepening with a budget of `budget_millis` milliseconds on the
    /// wall clock. With a budget above zero and room on the clock of the position
    /// the search to the depth of the context is always made, and deeper ones
    /// follow, each with the line of the one before, while the time spent since
    /// the start is below the budget and there is room: the result is that of
    /// the last search made. Without a budget or without room no search is made:
    /// the score is zero and the line empty. The position and the depth of the
    /// context are left as they were found.
    pub fn deepen_for(&mut self, budget_millis: i64) -> (r: (i32, Vec<Move>))
        requires
            old(self).move_generator.wf(),
            old(self).move_list.wf(),
            playable(old(self).make_unmaker.state),
        ensures
            final(self).same_position(old(self)),
            -SCORE_BOUND <= r.0 <= SCORE_BOUND,
            budget_millis > 0 && room_for(
                old(self).make_unmaker.state,
                old(self).max_depth as nat,
            ) ==> searched_from(
                &old(self).move_generator.move_maps,
                &old(self).make_unmaker.zobrist_numbers,
                old(self).make_unmaker.state,
                old(self).make_unmaker.zobrist_hash,
                old(self).max_depth as nat,
                r.0 as int,
                r.1@,
                old(self).transpos@,
                final(self).transpos@,
            ),
            budget_millis <= 0 || !room_for(
                old(self).make_unmaker.state,
                old(self).max_depth as nat,
            ) ==> r.0 == 0 && r.1@.len() == 0 && final(self).transpos@ == old(self).transpos@,
    {
        let start = wall_clock_millis();
        let prev_depth = self.max_depth;
        let mut score: i32 = 0;
        let mut pv: Vec<Move> = Vec::new();
        // At the start no time is spent: the first search is made with any budget above zero.
        let mut more = within_budget(start, start, budget_millis);
        let ghost mut reached: Option<nat> = None;
        while more && self.has_room()
            invariant
                self.move_generator.wf(),
                self.move_list.wf(),
                playable(self.make_unmaker.state),
                self.make_unmaker.state == old(self).make_unmaker.state,
                self.make_unmaker.zobrist_hash == old(self).make_unmaker.zobrist_hash,
                self.make_unmaker.frames() == old(self).make_unmaker.frames(),
                self.make_unmaker.zobrist_numbers == old(self).make_unmaker.zobrist_numbers,
                self.move_generator == old(self).move_generator,
                self.move_list@ == old(self).move_list@,
                -SCORE_BOUND <= score <= SCORE_BOUND,
                prev_depth <= self.max_depth,
                prev_depth == old(self).max_depth,
                reached is None ==> score == 0 && pv@.len() == 0 && self.max_depth == prev_depth
                    && more == (budget_millis > 0) && self.transpos@ == old(self).transpos@,
                reached matches Some(d) ==> self.transpos@ == stored_in_turn(
                    &old(self).move_generator.move_maps,
                    &old(self).make_unmaker.zobrist_numbers,
                    old(self).make_unmaker.state,
                    old(self).make_unmaker.zobrist_hash,
                    prev_depth as nat,
                    d,
                    old(self).transpos@,
                ),
                reached is Some ==> budget_millis > 0 && room_for(
                    old(self).make_unmaker.state,
                    prev_depth as nat,
                ),
                reached matches Some(d) ==> prev_depth <= d && d + 1 == self.max_depth && room_for(
                    old(self).make_unmaker.state,
                    d,
                ) && searched_in_turn(
                    &old(self).move_generator.move_maps,
                    old(self).make_unmaker.state,
                    prev_depth as nat,
                    d,
                    score as int,
                    pv@,
                ),
            decreases 255 - self.max_depth,
        {
            let prev_pv = copy_line(&pv);
            let ghost before = pv@;
            let (s, line) = self.search(prev_pv);
            score = s;
            pv = line;
            proof {
                let maps = &old(self).move_generator.move_maps;
                let s0 = old(self).make_unmaker.state;
                let d = self.max_depth as nat;
                if reached is None {
                    assert(before =~= Seq::<Move>::empty());
                    assert(deepened_to(maps, s0, prev_depth as nat, d) == rooted(
                        maps,
                        d,
                        s0,
                        Seq::empty(),
                    ));
                } else {
                    assert(deepened_to(maps, s0, prev_depth as nat, d) == rooted(
                        maps,
                        d,
                        s0,
                        deepened_to(maps, s0, prev_depth as nat, (d - 1) as nat).line,
                    ));
                }
                reached = Some(d);
            }
            more = within_budget(start, wall_clock_millis(), budget_millis);
            self.max_depth = self.max_depth + 1;
        }
        self.max_depth = prev_depth;
        proof {
            match reached {
                Some(d) => {
                    assert(searched_in_turn(
                        &old(self).move_generator.move_maps,
                        old(self).make_unmaker.state,
                        old(self).max_depth as nat,
                        d,
                        score as int,
                        pv@,
                    ) && old(self).max_depth <= d && room_for(old(self).make_unmaker.state, d));
                    assert(self.transpos@ == stored_in_turn(
                        &old(self).move_generator.move_maps,
                        &old(self).make_unmaker.zobrist_numbers,
                        old(self).make_unmaker.state,
                        old(self).make_unmaker.zobrist_hash,
                        old(self).max_depth as nat,
                        d,
                        old(self).transpos@,
                    ));
                },
                None => {},
            }
        }
        (score, pv)
    }

    /// Iterative deepening against given readings of a clock in milliseconds:
    /// `start` before the first search and `readings[k]` after the search that
    /// follows `k` others. With a budget above zero and room on the clock of the
    /// position the search to the depth of the context is made, and one a ply
    /// deeper after each reading that is less than the budget away from `start`,
    /// while there is room; the run ends with the first reading that is not, or
    /// with the readings. The result is that of the last search made; without a
    /// budget or without room none is made, and the score is zero and the line
    /// empty. The position and the depth of the context are left as they were
    /// found.
    pub fn deepen_by(&mut self, budget_millis: i64, start: i64, readings: &Vec<i64>) -> (r: (
        i32,
        Vec<Move>,
    ))
        requires
            old(self).move_generator.wf(),
            old(self).move_list.wf(),
            playable(old(self).make_unmaker.state),
        ensures
            final(self).same_position(old(self)),
            -SCORE_BOUND <= r.0 <= SCORE_BOUND,
            budget_millis > 0 && room_for(
                old(self).make_unmaker.state,
                old(self).max_depth as nat,
            ) ==> searched_in_turn(
                &old(self).move_generator.move_maps,
                old(self).make_unmaker.state,
                old(self).max_depth as nat,
                last_depth(
                    old(self).make_unmaker.state,
                    old(self).max_depth as nat,
                    budget_millis as int,
                    start as int,
                    readings@,
                    0,
                ),
                r.0 as int,
                r.1@,
            ) && final(self).transpos@ == stored_in_turn(
                &old(self).move_generator.move_maps,
                &old(self).make_unmaker.zobrist_numbers,
                old(self).make_unmaker.state,
                old(self).make_unmaker.zobrist_hash,
                old(self).max_depth as nat,
                last_depth(
                    old(self).make_unmaker.state,
                    old(self).max_depth as nat,
                    budget_millis as int,
                    start as int,
                    readings@,
                    0,
                ),
                old(self).transpos@,
            ),
            budget_millis <= 0 || !room_for(
                old(self).make_unmaker.state,
                old(self).max_depth as nat,
            ) ==> r.0 == 0 && r.1@.len() == 0 && final(self).transpos@ == old(self).transpos@,
    {
        let prev_depth = self.max_depth;
        let mut score: i32 = 0;
        let mut pv: Vec<Move> = Vec::new();
        let mut more = budget_millis > 0;
        let mut made: usize = 0;
        let ghost s0 = self.make_unmaker.state;
        let ghost goal = last_depth(
            s0,
            prev_depth as nat,
            budget_millis as int,
            start as int,
            readings@,
            0,
        );
        while more && self.has_room()
            invariant
                self.move_generator.wf(),
                self.move_list.wf(),
                playable(self.make_unmaker.state),
                s0 == old(self).make_unmaker.state,
                self.make_unmaker.state == old(self).make_unmaker.state,
                self.make_unmaker.zobrist_hash == old(self).make_unmaker.zobrist_hash,
                self.make_unmaker.frames() == old(self).make_unmaker.frames(),
                self.make_unmaker.zobrist_numbers == old(self).make_unmaker.zobrist_numbers,
                self.move_generator == old(self).move_generator,
                self.move_list@ == old(self).move_list@,
                -SCORE_BOUND <= score <= SCORE_BOUND,
                prev_depth == old(self).max_depth,
                self.max_depth == prev_depth + made,
                made <= readings@.len() + 1,
                made == 0 ==> score == 0 && pv@.len() == 0 && more == (budget_millis > 0)
                    && self.transpos@ == old(self).transpos@,
                made > 0 ==> self.transpos@ == stored_in_turn(
                    &old(self).move_generator.move_maps,
                    &old(self).make_unmaker.zobrist_numbers,
                    s0,
                    old(self).make_unmaker.zobrist_hash,
                    prev_depth as nat,
                    (self.max_depth - 1) as nat,
                    old(self).transpos@,
                ),
                made > 0 ==> budget_millis > 0 && room_for(s0, prev_depth as nat) && room_for(
                    s0,
                    (self.max_depth - 1) as nat,
                ),
                made > 0 ==> searched_in_turn(
                    &old(self).move_generator.move_maps,
                    s0,
                    prev_depth as nat,
                    (self.max_depth - 1) as nat,
                    score as int,
                    pv@,
                ),
                goal == last_depth(
                    s0,
                    prev_depth as nat,
                    budget_millis as int,
                    start as int,
                    readings@,
                    0,
                ),
                made > 0 ==> goal == last_depth(
                    s0,
                    (self.max_depth - 1) as nat,
                    budget_millis as int,
                    start as int,
                    readings@,
                    (made - 1) as nat,
                ),
                made > 0 ==> more == (made - 1 < readings@.len() && readings@[made - 1] - start
                    < budget_millis),
            decreases 255 - self.max_depth,
        {
            let prev_pv = copy_line(&pv);
            let ghost before = pv@;
            let (s, line) = self.search(prev_pv);
            score = s;
            pv = line;
            proof {
                let maps = &old(self).move_generator.move_maps;
                let d = self.max_depth as nat;
                if made == 0 {
                    assert(before =~= Seq::<Move>::empty());
                    assert(deepened_to(maps, s0, prev_depth as nat, d) == rooted(
                        maps,
                        d,
                        s0,
                        Seq::empty(),
                    ));
                } else {
                    assert(deepened_to(maps, s0, prev_depth as nat, d) == rooted(
                        maps,
                        d,
                        s0,
                        deepened_to(maps, s0, prev_depth as nat, (d - 1) as nat).line,
                    ));
                    assert(goal == last_depth(
                        s0,
                        d,
                        budget_millis as int,
                        start as int,
                        readings@,
                        made as nat,
                    ));
                }
            }
            if made < readings.len() {
                more = within_budget(start, readings[made], budget_millis);
            } else {
                more = false;
            }
            made = made + 1;
            self.max_depth = self.max_depth + 1;
        }
        self.max_depth = prev_depth;
        (score, pv)
    }
}

} // verus!
