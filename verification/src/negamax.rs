//! The value that the search computes: the negamax value of the tree of legal
//! moves down to the depth of the search, with the quiescence value at the
//! horizon.

use vstd::prelude::*;
use crate::game_state::GameState;
use crate::generation::pseudo_moves;
use crate::make_unmake::applied;
use crate::move_list::all_from;
use crate::move_maps::MoveMaps;
use crate::moves::{Move, code_of, quiet_code};
use crate::perft::legal_after;
use crate::search::evaluation;

verus! {

/// The greater of a value, where there is one, and another value.
pub open spec fn better(best: Option<int>, v: int) -> Option<int> {
    match best {
        Some(b) => if v > b {
            Some(v)
        } else {
            Some(b)
        },
        None => Some(v),
    }
}

/// The value of the position for the side to move at `depth` plies from the
/// root of a search to `max_depth`: at the horizon the quiescence value; above
/// it the best of the negated values of the positions after each legal move,
/// and the static score where there is no legal move.
pub open spec fn negamax(maps: &MoveMaps, max_depth: nat, s: GameState, depth: nat) -> int
    decreases max_depth + 4 - depth, 2nat, 0nat,
{
    if depth >= max_depth {
        quiet_value(maps, max_depth, s, depth)
    } else {
        let moves = pseudo_moves(s, maps);
        match best_reply(maps, max_depth, s, moves, moves.len(), depth) {
            Some(v) => v,
            None => evaluation(s, maps),
        }
    }
}

/// The best negated value after one of the first `n` moves that is legal; none
/// where none of them is.
pub open spec fn best_reply(
    maps: &MoveMaps,
    max_depth: nat,
    s: GameState,
    moves: Seq<Move>,
    n: nat,
    depth: nat,
) -> Option<int>
    decreases max_depth + 4 - depth, 0nat, n,
{
    if n == 0 || n > moves.len() || depth >= max_depth {
        None
    } else {
        let rest = best_reply(maps, max_depth, s, moves, (n - 1) as nat, depth);
        let m = moves[n - 1];
        if legal_after(s, m) {
            better(rest, -negamax(maps, max_depth, applied(s, m), depth + 1))
        } else {
            rest
        }
    }
}

/// The quiescence value of the position at `depth` plies from the root: the
/// static score at the ceiling of four plies beyond the horizon; below it the
/// static score or, where that is better, the best negated quiescence value
/// after a legal move that is not quiet.
pub open spec fn quiet_value(maps: &MoveMaps, max_depth: nat, s: GameState, depth: nat) -> int
    decreases max_depth + 4 - depth, 1nat, 0nat,
{
    let stand = evaluation(s, maps);
    if depth >= max_depth + 4 {
        stand
    } else {
        let moves = pseudo_moves(s, maps);
        match best_capture(maps, max_depth, s, moves, moves.len(), depth) {
            Some(v) => if v > stand {
                v
            } else {
                stand
            },
            None => stand,
        }
    }
}

/// The best negated quiescence value after one of the first `n` moves that is
/// legal and not quiet; none where none of them is.
pub open spec fn best_capture(
    maps: &MoveMaps,
    max_depth: nat,
    s: GameState,
    moves: Seq<Move>,
    n: nat,
    depth: nat,
) -> Option<int>
    decreases max_depth + 4 - depth, 0nat, n,
{
    if n == 0 || n > moves.len() || depth >= max_depth + 4 {
        None
    } else {
        let rest = best_capture(maps, max_depth, s, moves, (n - 1) as nat, depth);
        let m = moves[n - 1];
        if !quiet_code(code_of(m)) && legal_after(s, m) {
            better(rest, -quiet_value(maps, max_depth, applied(s, m), depth + 1))
        } else {
            rest
        }
    }
}

/// What a search with the window from `alpha` to `beta` tells of the value `v`
/// by its result `r`: the value itself inside the window, an upper bound at or
/// below `alpha`, a lower bound at or above `beta`.
pub open spec fn within(r: int, alpha: int, beta: int, v: int) -> bool {
    &&& r <= alpha ==> v <= r
    &&& alpha < r < beta ==> v == r
    &&& r >= beta ==> v >= r
}

/// What a move adds to the best reply: its negated value where it is legal.
pub open spec fn reply_of(maps: &MoveMaps, max_depth: nat, s: GameState, m: Move, depth: nat) -> Option<
    int,
> {
    if legal_after(s, m) {
        Some(-negamax(maps, max_depth, applied(s, m), depth + 1))
    } else {
        None
    }
}

/// What a move adds to the best capture: its negated quiescence value where it
/// is legal and not quiet.
pub open spec fn capture_of(maps: &MoveMaps, max_depth: nat, s: GameState, m: Move, depth: nat) -> Option<
    int,
> {
    if !quiet_code(code_of(m)) && legal_after(s, m) {
        Some(-quiet_value(maps, max_depth, applied(s, m), depth + 1))
    } else {
        None
    }
}

/// The best of what `f` gives for the first `n` moves.
pub open spec fn best_of(moves: Seq<Move>, n: nat, f: spec_fn(Move) -> Option<int>) -> Option<int>
    decreases n,
{
    if n == 0 || n > moves.len() {
        None
    } else {
        let rest = best_of(moves, (n - 1) as nat, f);
        match f(moves[n - 1]) {
            Some(v) => better(rest, v),
            None => rest,
        }
    }
}

/// The best reply is the best of the replies.
pub proof fn lemma_best_reply_is_best(
    maps: &MoveMaps,
    max_depth: nat,
    s: GameState,
    moves: Seq<Move>,
    n: nat,
    depth: nat,
)
    requires
        depth < max_depth,
        n <= moves.len(),
    ensures
        best_reply(maps, max_depth, s, moves, n, depth) == best_of(
            moves,
            n,
            |m: Move| reply_of(maps, max_depth, s, m, depth),
        ),
    decreases n,
{
    if n > 0 {
        lemma_best_reply_is_best(maps, max_depth, s, moves, (n - 1) as nat, depth);
    }
}

/// The best capture is the best of the captures.
pub proof fn lemma_best_capture_is_best(
    maps: &MoveMaps,
    max_depth: nat,
    s: GameState,
    moves: Seq<Move>,
    n: nat,
    depth: nat,
)
    requires
        depth < max_depth + 4,
        n <= moves.len(),
    ensures
        best_capture(maps, max_depth, s, moves, n, depth) == best_of(
            moves,
            n,
            |m: Move| capture_of(maps, max_depth, s, m, depth),
        ),
    decreases n,
{
    if n > 0 {
        lemma_best_capture_is_best(maps, max_depth, s, moves, (n - 1) as nat, depth);
    }
}

/// The best of the first `n` is one of them and no less than any of them.
pub proof fn lemma_best_of(moves: Seq<Move>, n: nat, f: spec_fn(Move) -> Option<int>)
    requires
        n <= moves.len(),
    ensures
        best_of(moves, n, f) is None ==> forall|i: int|
            0 <= i < n ==> f(#[trigger] moves[i]) is None,
        best_of(moves, n, f) matches Some(b) ==> (exists|i: int|
            0 <= i < n && f(#[trigger] moves[i]) == Some(b)) && forall|i: int|
            0 <= i < n ==> (f(#[trigger] moves[i]) matches Some(v) ==> v <= b),
    decreases n,
{
    if n > 0 {
        lemma_best_of(moves, (n - 1) as nat, f);
        let rest = best_of(moves, (n - 1) as nat, f);
        match best_of(moves, n, f) {
            Some(b) => {
                if f(moves[n - 1]) == Some(b) {
                    assert(0 <= n - 1 < n && f(moves[n - 1]) == Some(b));
                } else {
                    let i = choose|i: int| 0 <= i < n - 1 && f(#[trigger] moves[i]) == Some(b);
                    assert(0 <= i < n && f(moves[i]) == Some(b));
                }
            },
            None => {},
        }
    }
}

/// The best only grows with more moves.
pub proof fn lemma_best_of_grows(
    moves: Seq<Move>,
    k: nat,
    n: nat,
    f: spec_fn(Move) -> Option<int>,
)
    requires
        k <= n <= moves.len(),
    ensures
        best_of(moves, k, f) matches Some(b) ==> (best_of(moves, n, f) matches Some(c) && b <= c),
    decreases n - k,
{
    if k < n {
        lemma_best_of_grows(moves, k, (n - 1) as nat, f);
    }
}

/// Two sequences with the same moves have the same best.
pub proof fn lemma_best_of_members(a: Seq<Move>, b: Seq<Move>, f: spec_fn(Move) -> Option<int>)
    requires
        all_from(a, b),
    ensures
        best_of(a, a.len(), f) == best_of(b, b.len(), f),
{
    lemma_best_of(a, a.len(), f);
    lemma_best_of(b, b.len(), f);
    let x = best_of(a, a.len(), f);
    let y = best_of(b, b.len(), f);
    match x {
        Some(v) => {
            let i = choose|i: int| 0 <= i < a.len() && f(#[trigger] a[i]) == Some(v);
            assert(b.contains(a[i]));
            let j = choose|j: int| 0 <= j < b.len() && b[j] == a[i];
            assert(f(b[j]) == Some(v));
            let w = y.unwrap();
            let k = choose|k: int| 0 <= k < b.len() && f(#[trigger] b[k]) == Some(w);
            assert(a.contains(b[k]));
            let l = choose|l: int| 0 <= l < a.len() && a[l] == b[k];
            assert(f(a[l]) == Some(w));
        },
        None => {
            if y is Some {
                let w = y.unwrap();
                let k = choose|k: int| 0 <= k < b.len() && f(#[trigger] b[k]) == Some(w);
                assert(a.contains(b[k]));
                let l = choose|l: int| 0 <= l < a.len() && a[l] == b[k];
                assert(f(a[l]) == Some(w));
            }
        },
    }
}

} // verus!
