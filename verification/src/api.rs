//! The requests that a host makes: whether a move is legal, whether it
//! promotes, the position after it, and the engine's evaluation and reply.

use vstd::prelude::*;
use vstd::string::StrSliceExecFns;
use crate::fen::{FenError, position_of, position_text, to_chars, from_chars};
use crate::game_state::GameState;
use crate::generation::pseudo_moves;
use crate::laws::lemma_applied_well_formed;
use crate::make_unmake::{MakeUnmaker, applied};
use crate::move_generator::MoveGenerator;
use crate::move_list::{AddMove, MoveList};
use crate::move_maps::{MoveMaps, rule_maps, lemma_rule_maps};
use crate::moves::{
    Move, MoveExt, perft_text, promotion_code, code_of, first_match, find_move,
    lemma_short_text_names_no_promotion,
};
use crate::perft::legal_after;
use crate::negamax::negamax;
use crate::search::{
    SearchContext, time_span, last_depth, leads_to, lemma_last_depth, no_legal_move, room_for,
    searched_in_turn, searched_to,
};
use crate::variation::deepened_to;
use crate::soundness::{lemma_generated_fits, playable};

verus! {

pub struct EvaluationResult {
    pub score: i32,
    pub best_move: String,
}

pub struct FullGameState {
    pub fen: String,
    pub pgn: String,
}

/// Why a request was not answered.
#[derive(Clone, Copy, Debug, PartialEq, Eq, Structural)]
pub enum ApiError {
    /// The text is no position.
    Fen(FenError),
    /// The position is not well formed, or the side that is not to move is in check.
    Position,
    /// The halfmove clock of the position is at its limit.
    Clock,
    /// The search found no move to play.
    NoMove,
}

/// The first four characters of a text, or all of it where it is shorter.
pub open spec fn first_four(text: Seq<char>) -> Seq<char> {
    if text.len() > 4 {
        text.take(4)
    } else {
        text
    }
}

fn leading_four(text: &str) -> (r: String)
    ensures
        r@ == first_four(text@),
{
    let chars = to_chars(text);
    let mut head: Vec<char> = Vec::new();
    let mut i: usize = 0;
    while i < chars.len() && i < 4
        invariant
            i <= chars@.len(),
            i <= 4,
            head@ == chars@.take(i as int),
        decreases chars@.len() - i,
    {
        head.push(chars[i]);
        proof {
            assert(head@ =~= chars@.take(i + 1));
        }
        i += 1;
    }
    proof {
        if chars@.len() <= 4 {
            assert(chars@.take(chars@.len() as int) =~= chars@);
        }
    }
    from_chars(&head)
}

/// Reads the position and sees that it can be played on.
fn read_position(fen: String, move_generator: &MoveGenerator) -> (r: Result<GameState, ApiError>)
    requires
        move_generator.wf(),
    ensures
        r == (match position_of(fen@) {
            Err(e) => Err::<GameState, ApiError>(ApiError::Fen(e)),
            Ok(s) => if !playable(s) {
                Err(ApiError::Position)
            } else if s.halfmove == 255 {
                Err(ApiError::Clock)
            } else {
                Ok(s)
            },
        }),
{
    let state = match GameState::from_fen(fen) {
        Ok(s) => s,
        Err(e) => {
            return Err(ApiError::Fen(e));
        },
    };
    if !move_generator.is_playable(&state) {
        return Err(ApiError::Position);
    }
    if state.halfmove == 255 {
        return Err(ApiError::Clock);
    }
    Ok(state)
}

/// What a request on a position and a move text answers.
pub open spec fn answer<T>(fen: Seq<char>, f: spec_fn(GameState) -> T) -> Result<T, ApiError> {
    match position_of(fen) {
        Err(e) => Err(ApiError::Fen(e)),
        Ok(s) => if !playable(s) {
            Err(ApiError::Position)
        } else if s.halfmove == 255 {
            Err(ApiError::Clock)
        } else {
            Ok(f(s))
        },
    }
}

/// Whether the first pseudo-legal move that matches the first four characters of
/// the text is legal. Promotions are not told apart.
pub fn is_move_legal(fen: String, move_text: String) -> (r: Result<bool, ApiError>)
    requires
        move_text@.len() >= 4,
    ensures
        r == answer(
            fen@,
            |s: GameState|
                match first_match(pseudo_moves(s, &rule_maps()), first_four(move_text@), 0) {
                    Some(m) => legal_after(s, m),
                    None => false,
                },
        ),
{
    let move_generator = MoveGenerator::new();
    let state = match read_position(fen, &move_generator) {
        Ok(s) => s,
        Err(e) => {
            return Err(e);
        },
    };
    let mut make_unmaker = MakeUnmaker::new(state);
    let mut move_list = MoveList::new();
    move_list.new_ply();
    move_generator.get_pseudo_legal_moves(&make_unmaker.state, &mut move_list);
    let ghost moves = pseudo_moves(state, &move_generator.move_maps);
    assert(move_list@.last() =~= moves) by {
        assert(Seq::<Move>::empty() + moves =~= moves);
    }
    let head = leading_four(move_text.as_str());
    let found = find_move(move_list.get_current_ply(), head.as_str());
    proof {
        lemma_rule_maps(&move_generator.move_maps);
    }
    match found {
        None => Ok(false),
        Some(pseudo_legal_move) => {
            proof {
                lemma_generated_fits(state, &move_generator.move_maps, pseudo_legal_move);
                lemma_applied_well_formed(state, pseudo_legal_move);
            }
            make_unmaker.make_move(pseudo_legal_move);
            Ok(move_generator.was_move_legal(&make_unmaker.state))
        },
    }
}

/// Whether the first pseudo-legal move that matches the first four characters of
/// the text is a promotion. It never is: the text of a promotion has a fifth
/// character, which is not looked at.
pub fn needs_promotion(fen: String, move_text: String) -> (r: Result<bool, ApiError>)
    requires
        move_text@.len() >= 4,
    ensures
        r == answer(
            fen@,
            |s: GameState|
                match first_match(pseudo_moves(s, &rule_maps()), first_four(move_text@), 0) {
                    Some(m) => promotion_code(code_of(m)),
                    None => false,
                },
        ),
        r matches Ok(needed) ==> !needed,
{
    let move_generator = MoveGenerator::new();
    let state = match read_position(fen, &move_generator) {
        Ok(s) => s,
        Err(e) => {
            return Err(e);
        },
    };
    let mut move_list = MoveList::new();
    move_list.new_ply();
    move_generator.get_pseudo_legal_moves(&state, &mut move_list);
    let ghost moves = pseudo_moves(state, &move_generator.move_maps);
    assert(move_list@.last() =~= moves) by {
        assert(Seq::<Move>::empty() + moves =~= moves);
    }
    let head = leading_four(move_text.as_str());
    let found = find_move(move_list.get_current_ply(), head.as_str());
    proof {
        lemma_rule_maps(&move_generator.move_maps);
        lemma_short_text_names_no_promotion(moves, first_four(move_text@), 0);
    }
    match found {
        None => Ok(false),
        Some(pseudo_legal_move) => Ok(pseudo_legal_move.is_promotion()),
    }
}

/// The position after the first pseudo-legal move that matches the text; the
/// position itself where none does.
pub open spec fn after_text(s: GameState, maps: &MoveMaps, text: Seq<char>) -> GameState {
    match first_match(pseudo_moves(s, maps), text, 0) {
        Some(m) => applied(s, m),
        None => s,
    }
}

/// The position after the first pseudo-legal move that matches the text. A text
/// that matches no move leaves the position as it is.
pub fn make_move(fgs: FullGameState, move_text: String) -> (r: Result<FullGameState, ApiError>)
    ensures
        (match answer(
            fgs.fen@,
            |s: GameState| position_text(after_text(s, &rule_maps(), move_text@)),
        ) {
            Ok(text) => r is Ok && r->Ok_0.fen@ == text && r->Ok_0.pgn@.len() == 0,
            Err(e) => r == Err::<FullGameState, ApiError>(e),
        }),
{
    let move_generator = MoveGenerator::new();
    let state = match read_position(fgs.fen, &move_generator) {
        Ok(s) => s,
        Err(e) => {
            return Err(e);
        },
    };
    let mut make_unmaker = MakeUnmaker::new(state);
    let mut move_list: Vec<Move> = Vec::new();
    move_generator.get_pseudo_legal_moves(&make_unmaker.state, &mut move_list);
    let ghost moves = pseudo_moves(state, &move_generator.move_maps);
    assert(move_list@ =~= moves) by {
        assert(Seq::<Move>::empty() + moves =~= moves);
    }
    let found = find_move(move_list.as_slice(), move_text.as_str());
    proof {
        lemma_rule_maps(&move_generator.move_maps);
    }
    match found {
        Some(pseudo_legal_move) => {
            proof {
                lemma_generated_fits(state, &move_generator.move_maps, pseudo_legal_move);
            }
            make_unmaker.make_move(pseudo_legal_move);
        },
        None => {},
    }
    Ok(FullGameState { fen: make_unmaker.state.to_fen(), pgn: String::new() })
}

/// The score of the position and the move that the engine would play, after a
/// search of two and a half seconds. There is an answer exactly where the clock
/// of the position has room for a search of one ply and a move is legal.
pub fn evaluate(fgs: FullGameState) -> (r: Result<EvaluationResult, ApiError>)
    ensures
        (match position_of(fgs.fen@) {
            Err(e) => r == Err::<EvaluationResult, ApiError>(ApiError::Fen(e)),
            Ok(s) => if !playable(s) {
                r == Err::<EvaluationResult, ApiError>(ApiError::Position)
            } else {
                &&& (r is Ok) == (room_for(s, 1) && !no_legal_move(s, &rule_maps()))
                &&& match r {
                    Ok(e) => exists|d: nat, m: Move, v: int|
                        #[trigger] leads_to(&rule_maps(), d, s, 0, m, v) && v == negamax(
                            &rule_maps(),
                            d,
                            s,
                            0,
                        ) && e.score == v && e.best_move@ == perft_text(m),
                    Err(e) => e == ApiError::NoMove,
                }
            },
        }),
{
    let state = match GameState::from_fen(fgs.fen) {
        Ok(s) => s,
        Err(e) => {
            return Err(ApiError::Fen(e));
        },
    };
    let mut search_ctx = SearchContext::new(state, None);
    if !search_ctx.move_generator.is_playable(&search_ctx.make_unmaker.state) {
        return Err(ApiError::Position);
    }
    let budget = match time_span(2, 500000000) {
        Some(b) => b,
        None => {
            return Err(ApiError::NoMove);
        },
    };
    let (score, pv) = search_ctx.iterative_deepen(budget);
    let ghost own = search_ctx.move_generator.move_maps;
    proof {
        lemma_rule_maps(&own);
        if room_for(state, 1) {
            let d = choose|d: nat| #[trigger]
                searched_in_turn(&own, state, 1, d, score as int, pv@) && 1 <= d && room_for(
                    state,
                    d,
                );
            let moves = pseudo_moves(state, &own);
            assert(searched_to(&own, state, d, score as int, pv@));
            if pv@.len() == 0 {
                assert(no_legal_move(state, &own));
            } else {
                let i = choose|i: int| 0 <= i < moves.len() && legal_after(state, #[trigger] moves[i]);
                assert(!no_legal_move(state, &own));
            }
        }
    }
    if pv.len() == 0 {
        return Err(ApiError::NoMove);
    }
    let best = pv[pv.len() - 1];
    let best_move = best.to_perft_string();
    let ghost d = choose|d: nat| #[trigger]
        searched_in_turn(&own, state, 1, d, score as int, pv@) && 1 <= d && room_for(state, d);
    proof {
        assert(leads_to(&own, d, state, 0, best, score as int));
    }
    let result = EvaluationResult { score, best_move };
    proof {
        let v = score as int;
        assert(leads_to(&rule_maps(), d, state, 0, best, v) && v == negamax(
            &rule_maps(),
            d,
            state,
            0,
        ) && result.score == v && result.best_move@ == perft_text(best));
    }
    Ok(result)
}

/// The score of the position and the move that the engine would play, by a run
/// of searches from one ply on against given readings of a clock in
/// milliseconds: `start` before the first search and `readings[k]` after the
/// search that follows `k` others. The run ends with the first reading that is
/// not less than the budget away from `start`, with the readings, or where the
/// clock of the position has no room for a deeper search. There is an answer
/// exactly where there is a budget, room for a search of one ply, and a legal
/// move.
pub fn evaluate_by(fgs: FullGameState, budget_millis: i64, start: i64, readings: &Vec<i64>) -> (r:
    Result<EvaluationResult, ApiError>)
    ensures
        (match position_of(fgs.fen@) {
            Err(e) => r == Err::<EvaluationResult, ApiError>(ApiError::Fen(e)),
            Ok(s) => if !playable(s) {
                r == Err::<EvaluationResult, ApiError>(ApiError::Position)
            } else {
                let d = last_depth(s, 1, budget_millis as int, start as int, readings@, 0);
                let line = deepened_to(&rule_maps(), s, 1, d).line;
                &&& (r is Ok) == (budget_millis > 0 && room_for(s, 1) && !no_legal_move(
                    s,
                    &rule_maps(),
                ))
                &&& match r {
                    Ok(e) => line.len() > 0 && e.score == negamax(&rule_maps(), d, s, 0)
                        && e.best_move@ == perft_text(line.last()) && leads_to(
                        &rule_maps(),
                        d,
                        s,
                        0,
                        line.last(),
                        e.score as int,
                    ),
                    Err(e) => e == ApiError::NoMove,
                }
            },
        }),
{
    let state = match GameState::from_fen(fgs.fen) {
        Ok(s) => s,
        Err(e) => {
            return Err(ApiError::Fen(e));
        },
    };
    let mut search_ctx = SearchContext::new(state, None);
    if !search_ctx.move_generator.is_playable(&search_ctx.make_unmaker.state) {
        return Err(ApiError::Position);
    }
    let (score, pv) = search_ctx.deepen_by(budget_millis, start, readings);
    let ghost own = search_ctx.move_generator.move_maps;
    let ghost d = last_depth(state, 1, budget_millis as int, start as int, readings@, 0);
    proof {
        lemma_rule_maps(&own);
        lemma_last_depth(state, 1, budget_millis as int, start as int, readings@, 0);
        if budget_millis > 0 && room_for(state, 1) {
            let moves = pseudo_moves(state, &own);
            assert(searched_to(&own, state, d, score as int, pv@));
            if pv@.len() == 0 {
                assert(no_legal_move(state, &own));
            } else {
                let i = choose|i: int| 0 <= i < moves.len() && legal_after(state, #[trigger] moves[i]);
                assert(!no_legal_move(state, &own));
            }
        }
    }
    if pv.len() == 0 {
        return Err(ApiError::NoMove);
    }
    let best = pv[pv.len() - 1];
    let best_move = best.to_perft_string();
    proof {
        assert(leads_to(&own, d, state, 0, best, score as int));
    }
    Ok(EvaluationResult { score, best_move })
}

/// The position after the move that the engine plays, found by a search of three
/// tenths of a second. There is an answer exactly where the clock of the
/// position has room for a search of one ply and a move is legal.
pub fn respond(fgs: FullGameState) -> (r: Result<FullGameState, ApiError>)
    ensures
        (match position_of(fgs.fen@) {
            Err(e) => r == Err::<FullGameState, ApiError>(ApiError::Fen(e)),
            Ok(s) => if !playable(s) {
                r == Err::<FullGameState, ApiError>(ApiError::Position)
            } else if s.halfmove == 255 {
                r == Err::<FullGameState, ApiError>(ApiError::Clock)
            } else {
                &&& (r is Ok) == (room_for(s, 1) && !no_legal_move(s, &rule_maps()))
                &&& match r {
                    Ok(next) => exists|d: nat, m: Move, v: int|
                        #[trigger] leads_to(&rule_maps(), d, s, 0, m, v) && v == negamax(
                            &rule_maps(),
                            d,
                            s,
                            0,
                        ) && next.fen@ == position_text(applied(s, m)),
                    Err(e) => e == ApiError::NoMove,
                }
            },
        }),
{
    let state = match GameState::from_fen(fgs.fen) {
        Ok(s) => s,
        Err(e) => {
            return Err(ApiError::Fen(e));
        },
    };
    let mut search_ctx = SearchContext::new(state, None);
    if !search_ctx.move_generator.is_playable(&search_ctx.make_unmaker.state) {
        return Err(ApiError::Position);
    }
    if state.halfmove == 255 {
        return Err(ApiError::Clock);
    }
    let budget = match time_span(0, 300000000) {
        Some(b) => b,
        None => {
            return Err(ApiError::NoMove);
        },
    };
    let (score, pv) = search_ctx.iterative_deepen(budget);
    let ghost own = search_ctx.move_generator.move_maps;
    proof {
        lemma_rule_maps(&own);
        if room_for(state, 1) {
            let d = choose|d: nat| #[trigger]
                searched_in_turn(&own, state, 1, d, score as int, pv@) && 1 <= d && room_for(
                    state,
                    d,
                );
            let moves = pseudo_moves(state, &own);
            assert(searched_to(&own, state, d, score as int, pv@));
            if pv@.len() == 0 {
                assert(no_legal_move(state, &own));
            } else {
                let i = choose|i: int| 0 <= i < moves.len() && legal_after(state, #[trigger] moves[i]);
                assert(!no_legal_move(state, &own));
            }
        }
    }
    if pv.len() == 0 {
        return Err(ApiError::NoMove);
    }
    let m = pv[pv.len() - 1];
    let ghost d = choose|d: nat| #[trigger]
        searched_in_turn(&own, state, 1, d, score as int, pv@) && 1 <= d && room_for(state, d);
    proof {
        assert(leads_to(&own, d, state, 0, m, score as int));
        lemma_generated_fits(state, &own, m);
    }
    let mut make_unmaker = MakeUnmaker::new(state);
    make_unmaker.make_move(m);
    let fen = make_unmaker.state.to_fen();
    proof {
        assert(leads_to(&rule_maps(), d, state, 0, m, score as int) && score as int == negamax(
            &rule_maps(),
            d,
            state,
            0,
        ) && fen@ == position_text(applied(state, m)));
    }
    Ok(FullGameState { fen, pgn: String::new() })
}

} // verus!
