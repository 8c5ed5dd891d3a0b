//! The principal variation: what the search leaves in its line of moves and in
//! the line of the search before, move by move as it walks the tree.

use vstd::prelude::*;
use crate::game_state::GameState;
use crate::generation::pseudo_moves;
use crate::make_unmake::applied;
use crate::move_list::{ordered, lemma_ordered_members};
use crate::move_maps::MoveMaps;
use crate::moves::{Move, code_of, quiet_code};
use crate::perft::legal_after;
use crate::search::{all_quiet, evaluation};

verus! {

/// What a search of one position comes to: its score, the line of moves that it
/// leaves, last move first, and what it leaves of the line of the search before.
pub struct Outcome {
    pub score: int,
    pub line: Seq<Move>,
    pub rest: Seq<Move>,
}

/// Where a search stands among the moves of one position: the lower bound, the
/// best score and move so far, the line of the position, the line that the last
/// move searched has left, what is left of the line of the search before, and
/// whether a score has reached the upper bound.
pub struct Scan {
    pub alpha: int,
    pub best: int,
    pub best_move: Move,
    pub line: Seq<Move>,
    pub below: Seq<Move>,
    pub rest: Seq<Move>,
    pub cut: bool,
}

/// The line less its last move, which a search tries first.
pub open spec fn popped(line: Seq<Move>) -> Seq<Move> {
    if line.len() > 0 {
        line.drop_last()
    } else {
        line
    }
}

/// The last move of the line, where it has one.
pub open spec fn last_of(line: Seq<Move>) -> Option<Move> {
    if line.len() > 0 {
        Some(line.last())
    } else {
        None
    }
}

/// The moves of the position in the order in which a search tries them.
pub open spec fn tried(maps: &MoveMaps, s: GameState, rest: Seq<Move>) -> Seq<Move> {
    ordered(pseudo_moves(s, maps), last_of(rest))
}

/// The scan after the legal move `m`, whose position the search below has
/// left with `child`: a score above the best so far makes `m` the best move; one
/// that is also above the lower bound raises the bound and makes the line the
/// line from below followed by `m`; one that reaches `beta` ends the scan.
pub open spec fn taken(st: Scan, m: Move, beta: int, child: Outcome) -> Scan {
    let score = -child.score;
    Scan {
        alpha: if score > st.best && score > st.alpha {
            score
        } else {
            st.alpha
        },
        best: if score > st.best {
            score
        } else {
            st.best
        },
        best_move: if score > st.best {
            m
        } else {
            st.best_move
        },
        line: if score > st.best && score > st.alpha {
            child.line.push(m)
        } else {
            st.line
        },
        below: child.line,
        rest: child.rest,
        cut: score >= beta,
    }
}

/// The scan before the first move above the horizon.
pub open spec fn opening(alpha: int, line: Seq<Move>, rest: Seq<Move>) -> Scan {
    Scan {
        alpha,
        best: i32::MIN + 1,
        best_move: 0,
        line,
        below: Seq::empty(),
        rest: popped(rest),
        cut: false,
    }
}

/// What a scan above the horizon comes to: without a best move the static score.
pub open spec fn closing(stand: int, end: Scan) -> Outcome {
    Outcome {
        score: if end.best_move == 0 {
            stand
        } else {
            end.best
        },
        line: end.line,
        rest: end.rest,
    }
}

/// The scan before the first move of the quiescence search, which starts from
/// the static score.
pub open spec fn quiet_opening(stand: int, alpha: int, line: Seq<Move>, rest: Seq<Move>) -> Scan {
    Scan {
        alpha: if stand > alpha {
            stand
        } else {
            alpha
        },
        best: stand,
        best_move: 0,
        line,
        below: Seq::empty(),
        rest: popped(rest),
        cut: false,
    }
}

/// What a scan of the quiescence search comes to: without a best move the
/// static score and an empty line.
pub open spec fn quiet_closing(stand: int, end: Scan) -> Outcome {
    if end.best_move == 0 {
        Outcome { score: stand, line: Seq::empty(), rest: end.rest }
    } else {
        Outcome { score: end.best, line: end.line, rest: end.rest }
    }
}

/// What the search of the position `s` at `depth` comes to with the window from
/// `alpha` to `beta`, where the line holds `line` before and the line of the
/// search before holds `rest`.
#[verifier::opaque]
pub open spec fn searched(
    maps: &MoveMaps,
    horizon: nat,
    s: GameState,
    depth: nat,
    alpha: int,
    beta: int,
    line: Seq<Move>,
    rest: Seq<Move>,
) -> Outcome
    decreases horizon + 4 - depth, 2nat, 0nat,
{
    if depth >= horizon {
        quiesced(maps, horizon, s, depth, alpha, beta, line, rest)
    } else {
        closing(
            evaluation(s, maps),
            scanned(
                maps,
                horizon,
                s,
                depth,
                beta,
                tried(maps, s, rest),
                0,
                opening(alpha, line, rest),
            ),
        )
    }
}

/// The scan of the moves from the `i`-th on above the horizon: each legal move
/// is searched one ply deeper with the window turned round, until the moves
/// end or a score reaches `beta`.
#[verifier::opaque]
pub open spec fn scanned(
    maps: &MoveMaps,
    horizon: nat,
    s: GameState,
    depth: nat,
    beta: int,
    moves: Seq<Move>,
    i: nat,
    st: Scan,
) -> Scan
    decreases horizon + 4 - depth, 0nat, moves.len() - i,
{
    if i >= moves.len() || st.cut || depth >= horizon {
        st
    } else {
        let m = moves[i as int];
        let next = if legal_after(s, m) {
            taken(
                st,
                m,
                beta,
                searched(
                    maps,
                    horizon,
                    applied(s, m),
                    depth + 1,
                    -beta,
                    -st.alpha,
                    st.below,
                    st.rest,
                ),
            )
        } else {
            st
        };
        scanned(maps, horizon, s, depth, beta, moves, i + 1, next)
    }
}

/// What the quiescence search of the position `s` at `depth` comes to: at the
/// ceiling, and where the static score reaches `beta`, that score with an empty
/// line; else the best of the static score and the captures and promotions,
/// with an empty line where the static score stands.
#[verifier::opaque]
pub open spec fn quiesced(
    maps: &MoveMaps,
    horizon: nat,
    s: GameState,
    depth: nat,
    alpha: int,
    beta: int,
    line: Seq<Move>,
    rest: Seq<Move>,
) -> Outcome
    decreases horizon + 4 - depth, 1nat, 0nat,
{
    let stand = evaluation(s, maps);
    if depth >= horizon + 4 {
        Outcome { score: stand, line: Seq::empty(), rest }
    } else if stand >= beta {
        Outcome { score: stand, line: Seq::empty(), rest: popped(rest) }
    } else {
        quiet_closing(
            stand,
            quiet_scanned(
                maps,
                horizon,
                s,
                depth,
                beta,
                tried(maps, s, rest),
                0,
                quiet_opening(stand, alpha, line, rest),
            ),
        )
    }
}

/// The scan of the moves from the `i`-th on in the quiescence search: as above
/// the horizon, but only the legal moves that are not quiet are searched.
#[verifier::opaque]
pub open spec fn quiet_scanned(
    maps: &MoveMaps,
    horizon: nat,
    s: GameState,
    depth: nat,
    beta: int,
    moves: Seq<Move>,
    i: nat,
    st: Scan,
) -> Scan
    decreases horizon + 4 - depth, 0nat, moves.len() - i,
{
    if i >= moves.len() || st.cut || depth >= horizon + 4 {
        st
    } else {
        let m = moves[i as int];
        let next = if !quiet_code(code_of(m)) && legal_after(s, m) {
            taken(
                st,
                m,
                beta,
                quiesced(
                    maps,
                    horizon,
                    applied(s, m),
                    depth + 1,
                    -beta,
                    -st.alpha,
                    st.below,
                    st.rest,
                ),
            )
        } else {
            st
        };
        quiet_scanned(maps, horizon, s, depth, beta, moves, i + 1, next)
    }
}

/// What a search of the position from the root to the depth `horizon` comes
/// to, with the full window and `before` as the line of the search before.
pub open spec fn rooted(maps: &MoveMaps, horizon: nat, s: GameState, before: Seq<Move>) -> Outcome {
    searched(maps, horizon, s, 0, -2147483647, 2147483647, Seq::empty(), before)
}

/// What the search to depth `d` comes to in a run of searches that starts at
/// depth `lo` with no line and goes one ply deeper each time, every search with
/// the line of the one before.
pub open spec fn deepened_to(maps: &MoveMaps, s: GameState, lo: nat, d: nat) -> Outcome
    decreases d,
{
    if d <= lo {
        rooted(maps, lo, s, Seq::empty())
    } else {
        rooted(maps, d, s, deepened_to(maps, s, lo, (d - 1) as nat).line)
    }
}

/// The search above the horizon, unfolded once.
pub proof fn lemma_searched(
    maps: &MoveMaps,
    horizon: nat,
    s: GameState,
    depth: nat,
    alpha: int,
    beta: int,
    line: Seq<Move>,
    rest: Seq<Move>,
)
    ensures
        depth >= horizon ==> searched(maps, horizon, s, depth, alpha, beta, line, rest)
            == quiesced(maps, horizon, s, depth, alpha, beta, line, rest),
        depth < horizon ==> searched(maps, horizon, s, depth, alpha, beta, line, rest) == closing(
            evaluation(s, maps),
            scanned(
                maps,
                horizon,
                s,
                depth,
                beta,
                tried(maps, s, rest),
                0,
                opening(alpha, line, rest),
            ),
        ),
{
    reveal(searched);
    reveal(scanned);
    reveal(quiesced);
    reveal(quiet_scanned);
}

/// One move of the scan above the horizon.
pub proof fn lemma_scanned(
    maps: &MoveMaps,
    horizon: nat,
    s: GameState,
    depth: nat,
    beta: int,
    moves: Seq<Move>,
    i: nat,
    st: Scan,
)
    ensures
        i >= moves.len() || st.cut || depth >= horizon ==> scanned(
            maps,
            horizon,
            s,
            depth,
            beta,
            moves,
            i,
            st,
        ) == st,
        i < moves.len() && !st.cut && depth < horizon && !legal_after(s, moves[i as int])
            ==> scanned(maps, horizon, s, depth, beta, moves, i, st) == scanned(
            maps,
            horizon,
            s,
            depth,
            beta,
            moves,
            i + 1,
            st,
        ),
        i < moves.len() && !st.cut && depth < horizon && legal_after(s, moves[i as int])
            ==> scanned(maps, horizon, s, depth, beta, moves, i, st) == scanned(
            maps,
            horizon,
            s,
            depth,
            beta,
            moves,
            i + 1,
            taken(
                st,
                moves[i as int],
                beta,
                searched(
                    maps,
                    horizon,
                    applied(s, moves[i as int]),
                    depth + 1,
                    -beta,
                    -st.alpha,
                    st.below,
                    st.rest,
                ),
            ),
        ),
{
    reveal(searched);
    reveal(scanned);
    reveal(quiesced);
    reveal(quiet_scanned);
}

/// The quiescence search, unfolded once.
pub proof fn lemma_quiesced(
    maps: &MoveMaps,
    horizon: nat,
    s: GameState,
    depth: nat,
    alpha: int,
    beta: int,
    line: Seq<Move>,
    rest: Seq<Move>,
)
    ensures
        depth >= horizon + 4 ==> quiesced(maps, horizon, s, depth, alpha, beta, line, rest) == (
        Outcome { score: evaluation(s, maps), line: Seq::empty(), rest }),
        depth < horizon + 4 && evaluation(s, maps) >= beta ==> quiesced(
            maps,
            horizon,
            s,
            depth,
            alpha,
            beta,
            line,
            rest,
        ) == (Outcome { score: evaluation(s, maps), line: Seq::empty(), rest: popped(rest) }),
        depth < horizon + 4 && evaluation(s, maps) < beta ==> quiesced(
            maps,
            horizon,
            s,
            depth,
            alpha,
            beta,
            line,
            rest,
        ) == quiet_closing(
            evaluation(s, maps),
            quiet_scanned(
                maps,
                horizon,
                s,
                depth,
                beta,
                tried(maps, s, rest),
                0,
                quiet_opening(evaluation(s, maps), alpha, line, rest),
            ),
        ),
{
    reveal(searched);
    reveal(scanned);
    reveal(quiesced);
    reveal(quiet_scanned);
}

/// One move of the scan of the quiescence search.
pub proof fn lemma_quiet_scanned(
    maps: &MoveMaps,
    horizon: nat,
    s: GameState,
    depth: nat,
    beta: int,
    moves: Seq<Move>,
    i: nat,
    st: Scan,
)
    ensures
        i >= moves.len() || st.cut || depth >= horizon + 4 ==> quiet_scanned(
            maps,
            horizon,
            s,
            depth,
            beta,
            moves,
            i,
            st,
        ) == st,
        i < moves.len() && !st.cut && depth < horizon + 4 && !(!quiet_code(code_of(moves[i as int]))
            && legal_after(s, moves[i as int])) ==> quiet_scanned(
            maps,
            horizon,
            s,
            depth,
            beta,
            moves,
            i,
            st,
        ) == quiet_scanned(maps, horizon, s, depth, beta, moves, i + 1, st),
        i < moves.len() && !st.cut && depth < horizon + 4 && !quiet_code(code_of(moves[i as int]))
            && legal_after(s, moves[i as int]) ==> quiet_scanned(
            maps,
            horizon,
            s,
            depth,
            beta,
            moves,
            i,
            st,
        ) == quiet_scanned(
            maps,
            horizon,
            s,
            depth,
            beta,
            moves,
            i + 1,
            taken(
                st,
                moves[i as int],
                beta,
                quiesced(
                    maps,
                    horizon,
                    applied(s, moves[i as int]),
                    depth + 1,
                    -beta,
                    -st.alpha,
                    st.below,
                    st.rest,
                ),
            ),
        ),
{
    reveal(searched);
    reveal(scanned);
    reveal(quiesced);
    reveal(quiet_scanned);
}

/// A scan of the quiescence search over moves that are all quiet changes nothing.
proof fn lemma_quiet_scan_stays(
    maps: &MoveMaps,
    horizon: nat,
    s: GameState,
    depth: nat,
    beta: int,
    moves: Seq<Move>,
    i: nat,
    st: Scan,
)
    requires
        forall|j: int| 0 <= j < moves.len() ==> quiet_code(code_of(#[trigger] moves[j])),
    ensures
        quiet_scanned(maps, horizon, s, depth, beta, moves, i, st) == st,
    decreases moves.len() - i,
{
    lemma_quiet_scanned(maps, horizon, s, depth, beta, moves, i, st);
    if i < moves.len() && !st.cut && depth < horizon + 4 {
        assert(quiet_code(code_of(moves[i as int])));
        lemma_quiet_scan_stays(maps, horizon, s, depth, beta, moves, i + 1, st);
    }
}

/// In a position whose pseudo-legal moves are all quiet the quiescence search
/// comes to the static score with an empty line, whatever the window, the depth
/// and the lines before; of the line of the search before it takes the move to
/// try first, and nothing at the ceiling.
pub proof fn lemma_quiet_position(
    maps: &MoveMaps,
    horizon: nat,
    s: GameState,
    depth: nat,
    alpha: int,
    beta: int,
    line: Seq<Move>,
    rest: Seq<Move>,
)
    requires
        all_quiet(pseudo_moves(s, maps)),
    ensures
        quiesced(maps, horizon, s, depth, alpha, beta, line, rest) == (Outcome {
            score: evaluation(s, maps),
            line: Seq::empty(),
            rest: if depth >= horizon + 4 {
                rest
            } else {
                popped(rest)
            },
        }),
{
    let all = pseudo_moves(s, maps);
    let moves = tried(maps, s, rest);
    lemma_ordered_members(all, last_of(rest));
    assert forall|j: int| 0 <= j < moves.len() implies quiet_code(code_of(#[trigger] moves[j])) by {
        assert(all.contains(moves[j]));
        let k = choose|k: int| 0 <= k < all.len() && all[k] == moves[j];
        assert(quiet_code(code_of(all[k])));
    }
    lemma_quiesced(maps, horizon, s, depth, alpha, beta, line, rest);
    lemma_quiet_scan_stays(
        maps,
        horizon,
        s,
        depth,
        beta,
        moves,
        0,
        quiet_opening(evaluation(s, maps), alpha, line, rest),
    );
}

} // verus!
