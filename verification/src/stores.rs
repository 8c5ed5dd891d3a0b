//! What a search leaves in the transposition table: every node above the
//! horizon stores its result when its moves are done, and every node of the
//! quiescence search that found a capture worth making.

use vstd::prelude::*;
use crate::game_state::GameState;
use crate::make_unmake::{applied, hash_applied};
use crate::move_maps::MoveMaps;
use crate::moves::{Move, code_of, quiet_code};
use crate::perft::legal_after;
use crate::search::evaluation;
use crate::transposition_table::{TtEntry, stored};
use crate::variation::{
    Scan, closing, deepened_to, opening, quiesced, quiet_opening, quiet_scanned, scanned,
    searched, taken, tried,
};
use crate::zobrist_numbers::ZobristNumbers;

verus! {

/// The entry that a node with the hash `h` stores.
pub open spec fn kept(h: u64, depth: nat, score: int, best_move: Move) -> TtEntry {
    TtEntry { hash: h, depth: depth as u8, score: score as i32, best_move }
}

/// The table after the search of the position `s`, whose hash is `h`, at
/// `depth`: the table after its moves with the result of the node stored.
#[verifier::opaque]
pub open spec fn table_searched(
    maps: &MoveMaps,
    z: &ZobristNumbers,
    horizon: nat,
    s: GameState,
    h: u64,
    depth: nat,
    alpha: int,
    beta: int,
    line: Seq<Move>,
    rest: Seq<Move>,
    table: Seq<Option<TtEntry>>,
) -> Seq<Option<TtEntry>>
    decreases horizon + 4 - depth, 2nat, 0nat,
{
    if depth >= horizon {
        table_quiesced(maps, z, horizon, s, h, depth, alpha, beta, line, rest, table)
    } else {
        let start = opening(alpha, line, rest);
        let moves = tried(maps, s, rest);
        let end = scanned(maps, horizon, s, depth, beta, moves, 0, start);
        stored(
            table_scanned(maps, z, horizon, s, h, depth, beta, moves, 0, start, table),
            kept(h, depth, closing(evaluation(s, maps), end).score, end.best_move),
        )
    }
}

/// The table after the moves from the `i`-th on above the horizon.
#[verifier::opaque]
pub open spec fn table_scanned(
    maps: &MoveMaps,
    z: &ZobristNumbers,
    horizon: nat,
    s: GameState,
    h: u64,
    depth: nat,
    beta: int,
    moves: Seq<Move>,
    i: nat,
    st: Scan,
    table: Seq<Option<TtEntry>>,
) -> Seq<Option<TtEntry>>
    decreases horizon + 4 - depth, 0nat, moves.len() - i,
{
    if i >= moves.len() || st.cut || depth >= horizon {
        table
    } else {
        let m = moves[i as int];
        if legal_after(s, m) {
            table_scanned(
                maps,
                z,
                horizon,
                s,
                h,
                depth,
                beta,
                moves,
                i + 1,
                taken(
                    st,
                    m,
                    beta,
                    searched(
                        maps,
                        horizon,
                        applied(s, m),
                        depth + 1,
                        -beta,
                        -st.alpha,
                        st.below,
                        st.rest,
                    ),
                ),
                table_searched(
                    maps,
                    z,
                    horizon,
                    applied(s, m),
                    hash_applied(h, s, m, z),
                    depth + 1,
                    -beta,
                    -st.alpha,
                    st.below,
                    st.rest,
                    table,
                ),
            )
        } else {
            table_scanned(maps, z, horizon, s, h, depth, beta, moves, i + 1, st, table)
        }
    }
}

/// The table after the quiescence search of the position `s`, whose hash is
/// `h`, at `depth`: the table after its moves, with the result of the node
/// stored where a capture was worth making.
#[verifier::opaque]
pub open spec fn table_quiesced(
    maps: &MoveMaps,
    z: &ZobristNumbers,
    horizon: nat,
    s: GameState,
    h: u64,
    depth: nat,
    alpha: int,
    beta: int,
    line: Seq<Move>,
    rest: Seq<Move>,
    table: Seq<Option<TtEntry>>,
) -> Seq<Option<TtEntry>>
    decreases horizon + 4 - depth, 1nat, 0nat,
{
    let stand = evaluation(s, maps);
    if depth >= horizon + 4 || stand >= beta {
        table
    } else {
        let start = quiet_opening(stand, alpha, line, rest);
        let moves = tried(maps, s, rest);
        let end = quiet_scanned(maps, horizon, s, depth, beta, moves, 0, start);
        let after = table_quiet_scanned(maps, z, horizon, s, h, depth, beta, moves, 0, start, table);
        if end.best_move == 0 {
            after
        } else {
            stored(after, kept(h, 0, end.best, end.best_move))
        }
    }
}

/// The table after the moves from the `i`-th on in the quiescence search.
#[verifier::opaque]
pub open spec fn table_quiet_scanned(
    maps: &MoveMaps,
    z: &ZobristNumbers,
    horizon: nat,
    s: GameState,
    h: u64,
    depth: nat,
    beta: int,
    moves: Seq<Move>,
    i: nat,
    st: Scan,
    table: Seq<Option<TtEntry>>,
) -> Seq<Option<TtEntry>>
    decreases horizon + 4 - depth, 0nat, moves.len() - i,
{
    if i >= moves.len() || st.cut || depth >= horizon + 4 {
        table
    } else {
        let m = moves[i as int];
        if !quiet_code(code_of(m)) && legal_after(s, m) {
            table_quiet_scanned(
                maps,
                z,
                horizon,
                s,
                h,
                depth,
                beta,
                moves,
                i + 1,
                taken(
                    st,
                    m,
                    beta,
                    quiesced(
                        maps,
                        horizon,
                        applied(s, m),
                        depth + 1,
                        -beta,
                        -st.alpha,
                        st.below,
                        st.rest,
                    ),
                ),
                table_quiesced(
                    maps,
                    z,
                    horizon,
                    applied(s, m),
                    hash_applied(h, s, m, z),
                    depth + 1,
                    -beta,
                    -st.alpha,
                    st.below,
                    st.rest,
                    table,
                ),
            )
        } else {
            table_quiet_scanned(maps, z, horizon, s, h, depth, beta, moves, i + 1, st, table)
        }
    }
}

/// The table after the search to depth `d` in a run of searches of the position
/// `s`, whose hash is `h`, that starts at depth `lo` with the table `table` and
/// goes one ply deeper each time, every search with the line of the one before.
pub open spec fn stored_in_turn(
    maps: &MoveMaps,
    z: &ZobristNumbers,
    s: GameState,
    h: u64,
    lo: nat,
    d: nat,
    table: Seq<Option<TtEntry>>,
) -> Seq<Option<TtEntry>>
    decreases d,
{
    if d <= lo {
        table_searched(
            maps,
            z,
            lo,
            s,
            h,
            0,
            -2147483647,
            2147483647,
            Seq::empty(),
            Seq::empty(),
            table,
        )
    } else {
        table_searched(
            maps,
            z,
            d,
            s,
            h,
            0,
            -2147483647,
            2147483647,
            Seq::empty(),
            deepened_to(maps, s, lo, (d - 1) as nat).line,
            stored_in_turn(maps, z, s, h, lo, (d - 1) as nat, table),
        )
    }
}

/// The table after a search above the horizon, unfolded once.
pub proof fn lemma_table_searched(
    maps: &MoveMaps,
    z: &ZobristNumbers,
    horizon: nat,
    s: GameState,
    h: u64,
    depth: nat,
    alpha: int,
    beta: int,
    line: Seq<Move>,
    rest: Seq<Move>,
    table: Seq<Option<TtEntry>>,
)
    ensures
        depth >= horizon ==> table_searched(
            maps,
            z,
            horizon,
            s,
            h,
            depth,
            alpha,
            beta,
            line,
            rest,
            table,
        ) == table_quiesced(maps, z, horizon, s, h, depth, alpha, beta, line, rest, table),
        depth < horizon ==> table_searched(
            maps,
            z,
            horizon,
            s,
            h,
            depth,
            alpha,
            beta,
            line,
            rest,
            table,
        ) == stored(
            table_scanned(
                maps,
                z,
                horizon,
                s,
                h,
                depth,
                beta,
                tried(maps, s, rest),
                0,
                opening(alpha, line, rest),
                table,
            ),
            kept(
                h,
                depth,
                closing(
                    evaluation(s, maps),
                    scanned(
                        maps,
                        horizon,
                        s,
                        depth,
                        beta,
                        tried(maps, s, rest),
                        0,
                        opening(alpha, line, rest),
                    ),
                ).score,
                scanned(
                    maps,
                    horizon,
                    s,
                    depth,
                    beta,
                    tried(maps, s, rest),
                    0,
                    opening(alpha, line, rest),
                ).best_move,
            ),
        ),
{
    reveal(table_searched);
    reveal(table_scanned);
    reveal(table_quiesced);
    reveal(table_quiet_scanned);
}

/// The table after one move of the scan above the horizon.
pub proof fn lemma_table_scanned(
    maps: &MoveMaps,
    z: &ZobristNumbers,
    horizon: nat,
    s: GameState,
    h: u64,
    depth: nat,
    beta: int,
    moves: Seq<Move>,
    i: nat,
    st: Scan,
    table: Seq<Option<TtEntry>>,
)
    ensures
        i >= moves.len() || st.cut || depth >= horizon ==> table_scanned(
            maps,
            z,
            horizon,
            s,
            h,
            depth,
            beta,
            moves,
            i,
            st,
            table,
        ) == table,
        i < moves.len() && !st.cut && depth < horizon && !legal_after(s, moves[i as int])
            ==> table_scanned(maps, z, horizon, s, h, depth, beta, moves, i, st, table)
            == table_scanned(maps, z, horizon, s, h, depth, beta, moves, i + 1, st, table),
        i < moves.len() && !st.cut && depth < horizon && legal_after(s, moves[i as int])
            ==> table_scanned(maps, z, horizon, s, h, depth, beta, moves, i, st, table)
            == table_scanned(
            maps,
            z,
            horizon,
            s,
            h,
            depth,
            beta,
            moves,
            i + 1,
            taken(
                st,
                moves[i as int],
                beta,
                searched(
                    maps,
                    horizon,
                    applied(s, moves[i as int]),
                    depth + 1,
                    -beta,
                    -st.alpha,
                    st.below,
                    st.rest,
                ),
            ),
            table_searched(
                maps,
                z,
                horizon,
                applied(s, moves[i as int]),
                hash_applied(h, s, moves[i as int], z),
                depth + 1,
                -beta,
                -st.alpha,
                st.below,
                st.rest,
                table,
            ),
        ),
{
    reveal(table_searched);
    reveal(table_scanned);
    reveal(table_quiesced);
    reveal(table_quiet_scanned);
}

/// The table after a quiescence search, unfolded once.
pub proof fn lemma_table_quiesced(
    maps: &MoveMaps,
    z: &ZobristNumbers,
    horizon: nat,
    s: GameState,
    h: u64,
    depth: nat,
    alpha: int,
    beta: int,
    line: Seq<Move>,
    rest: Seq<Move>,
    table: Seq<Option<TtEntry>>,
)
    ensures
        depth >= horizon + 4 || evaluation(s, maps) >= beta ==> table_quiesced(
            maps,
            z,
            horizon,
            s,
            h,
            depth,
            alpha,
            beta,
            line,
            rest,
            table,
        ) == table,
        depth < horizon + 4 && evaluation(s, maps) < beta ==> ({
            let start = quiet_opening(evaluation(s, maps), alpha, line, rest);
            let moves = tried(maps, s, rest);
            let end = quiet_scanned(maps, horizon, s, depth, beta, moves, 0, start);
            let after = table_quiet_scanned(
                maps,
                z,
                horizon,
                s,
                h,
                depth,
                beta,
                moves,
                0,
                start,
                table,
            );
            table_quiesced(maps, z, horizon, s, h, depth, alpha, beta, line, rest, table) == (
            if end.best_move == 0 {
                after
            } else {
                stored(after, kept(h, 0, end.best, end.best_move))
            })
        }),
{
    reveal(table_searched);
    reveal(table_scanned);
    reveal(table_quiesced);
    reveal(table_quiet_scanned);
}

/// The table after one move of the scan of the quiescence search.
pub proof fn lemma_table_quiet_scanned(
    maps: &MoveMaps,
    z: &ZobristNumbers,
    horizon: nat,
    s: GameState,
    h: u64,
    depth: nat,
    beta: int,
    moves: Seq<Move>,
    i: nat,
    st: Scan,
    table: Seq<Option<TtEntry>>,
)
    ensures
        i >= moves.len() || st.cut || depth >= horizon + 4 ==> table_quiet_scanned(
            maps,
            z,
            horizon,
            s,
            h,
            depth,
            beta,
            moves,
            i,
            st,
            table,
        ) == table,
        i < moves.len() && !st.cut && depth < horizon + 4 && !(!quiet_code(code_of(moves[i as int]))
            && legal_after(s, moves[i as int])) ==> table_quiet_scanned(
            maps,
            z,
            horizon,
            s,
            h,
            depth,
            beta,
            moves,
            i,
            st,
            table,
        ) == table_quiet_scanned(maps, z, horizon, s, h, depth, beta, moves, i + 1, st, table),
        i < moves.len() && !st.cut && depth < horizon + 4 && !quiet_code(code_of(moves[i as int]))
            && legal_after(s, moves[i as int]) ==> table_quiet_scanned(
            maps,
            z,
            horizon,
            s,
            h,
            depth,
            beta,
            moves,
            i,
            st,
            table,
        ) == table_quiet_scanned(
            maps,
            z,
            horizon,
            s,
            h,
            depth,
            beta,
            moves,
            i + 1,
            taken(
                st,
                moves[i as int],
                beta,
                quiesced(
                    maps,
                    horizon,
                    applied(s, moves[i as int]),
                    depth + 1,
                    -beta,
                    -st.alpha,
                    st.below,
                    st.rest,
                ),
            ),
            table_quiesced(
                maps,
                z,
                horizon,
                applied(s, moves[i as int]),
                hash_applied(h, s, moves[i as int], z),
                depth + 1,
                -beta,
                -st.alpha,
                st.below,
                st.rest,
                table,
            ),
        ),
{
    reveal(table_searched);
    reveal(table_scanned);
    reveal(table_quiesced);
    reveal(table_quiet_scanned);
}

} // verus!
