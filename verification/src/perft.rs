//! Counting the leaves of the tree of legal moves, the standard check of a move
//! generator.

use vstd::prelude::*;
use crate::attacks::attacked;
use crate::bits::lsb;
use crate::game_state::GameState;
use crate::generation::pseudo_moves;
use crate::laws::{
    lemma_applied_well_formed, lemma_hash_restored, lemma_unmake_restores,
};
use crate::make_unmake::{MakeUnmaker, applied};
use crate::move_generator::MoveGenerator;
use crate::move_list::{AddMove, MoveList};
use crate::move_maps::MoveMaps;
use crate::moves::{Move, first_match, find_move};
use crate::soundness::{lemma_generated_fits, playable};

verus! {

/// The move leaves the mover's own king out of check.
pub open spec fn legal_after(s: GameState, m: Move) -> bool {
    let t = applied(s, m);
    !attacked(t.boards, lsb(t.enemy().king), t.flags.active)
}

/// The number of positions reached from `s` by `depth` legal moves.
pub open spec fn perft(s: GameState, maps: &MoveMaps, depth: nat) -> nat
    decreases depth, pseudo_moves(s, maps).len() + 1,
{
    if depth == 0 {
        1
    } else {
        perft_from(s, maps, pseudo_moves(s, maps), 0, depth)
    }
}

/// The positions reached from `s` by `depth` legal moves, the first of them one
/// of `moves` from number `i` on.
pub open spec fn perft_from(
    s: GameState,
    maps: &MoveMaps,
    moves: Seq<Move>,
    i: int,
    depth: nat,
) -> nat
    decreases depth, moves.len() - i,
{
    if i < 0 || i >= moves.len() || depth == 0 {
        0
    } else {
        perft_after(s, maps, moves[i], depth) + perft_from(s, maps, moves, i + 1, depth)
    }
}

/// The positions reached from `s` by `depth` legal moves, the first of them `m`.
pub open spec fn perft_after(s: GameState, maps: &MoveMaps, m: Move, depth: nat) -> nat
    decreases depth, 0nat,
{
    if depth == 0 || !legal_after(s, m) {
        0
    } else {
        perft(applied(s, m), maps, (depth - 1) as nat)
    }
}

/// Adds to `nodes` the number of positions reached from the current one by
/// `depth` legal moves. The position, the hash and the move list are left as
/// they were found.
pub fn recursive_perft(
    move_gen: &MoveGenerator,
    make_unmaker: &mut MakeUnmaker,
    move_list: &mut MoveList,
    depth: u8,
    nodes: &mut u64,
)
    requires
        move_gen.wf(),
        playable(old(make_unmaker).state),
        old(move_list).wf(),
        old(make_unmaker).state.halfmove + depth <= 255,
        *old(nodes) + perft(old(make_unmaker).state, &move_gen.move_maps, depth as nat)
            <= u64::MAX,
    ensures
        final(make_unmaker).state == old(make_unmaker).state,
        final(make_unmaker).zobrist_hash == old(make_unmaker).zobrist_hash,
        final(make_unmaker).frames() == old(make_unmaker).frames(),
        final(make_unmaker).zobrist_numbers == old(make_unmaker).zobrist_numbers,
        final(move_list).wf(),
        final(move_list)@ == old(move_list)@,
        *final(nodes) == *old(nodes) + perft(
            old(make_unmaker).state,
            &move_gen.move_maps,
            depth as nat,
        ),
    decreases depth,
{
    if depth == 0 {
        *nodes = *nodes + 1;
        return ;
    }
    let ghost s0 = make_unmaker.state;
    let ghost h0 = make_unmaker.zobrist_hash;
    let ghost f0 = make_unmaker.frames();
    let ghost list0 = move_list@;
    let ghost n0 = *nodes;
    let ghost maps = &move_gen.move_maps;
    let ghost moves = pseudo_moves(s0, maps);
    move_list.new_ply();
    move_gen.get_pseudo_legal_moves(&make_unmaker.state, move_list);
    assert(move_list@ =~= list0.push(moves)) by {
        assert(Seq::<Move>::empty() + moves =~= moves);
    }
    let ply_number = move_list.get_ply_number();
    let ply_size = move_list.get_ply_size(ply_number);
    let mut i: usize = 0;
    while i < ply_size
        invariant
            i <= ply_size,
            depth >= 1,
            move_gen.wf(),
            maps == &move_gen.move_maps,
            playable(s0),
            s0.halfmove + depth <= 255,
            moves == pseudo_moves(s0, maps),
            ply_size == moves.len(),
            ply_number == list0.len() + 1,
            make_unmaker.state == s0,
            make_unmaker.zobrist_hash == h0,
            make_unmaker.frames() == f0,
            make_unmaker.zobrist_numbers == old(make_unmaker).zobrist_numbers,
            move_list.wf(),
            move_list@ == list0.push(moves),
            *nodes + perft_from(s0, maps, moves, i as int, depth as nat) == n0 + perft_from(
                s0,
                maps,
                moves,
                0,
                depth as nat,
            ),
            n0 + perft_from(s0, maps, moves, 0, depth as nat) <= u64::MAX,
        decreases ply_size - i,
    {
        let m = move_list.get_move(ply_number, i);
        proof {
            assert(moves.contains(m));
            lemma_generated_fits(s0, maps, m);
            lemma_applied_well_formed(s0, m);
            lemma_unmake_restores(s0, m);
            lemma_hash_restored(h0, s0, m, &make_unmaker.zobrist_numbers);
            assert(perft_from(s0, maps, moves, i as int, depth as nat) == perft_after(
                s0,
                maps,
                m,
                depth as nat,
            ) + perft_from(s0, maps, moves, i + 1, depth as nat));
            assert(legal_after(s0, m) ==> perft_after(s0, maps, m, depth as nat) == perft(
                applied(s0, m),
                maps,
                (depth - 1) as nat,
            ));
            assert(!legal_after(s0, m) ==> perft_after(s0, maps, m, depth as nat) == 0);
            assert(perft(applied(s0, m), maps, 0) == 1);
        }
        make_unmaker.make_move(m);
        if move_gen.was_move_legal(&make_unmaker.state) {
            if depth == 1 {
                *nodes = *nodes + 1;
            } else {
                recursive_perft(move_gen, make_unmaker, move_list, depth - 1, nodes);
            }
        }
        make_unmaker.unmake_move(m);
        proof {
            assert(make_unmaker.frames() =~= f0);
        }
        i += 1;
    }
    move_list.drop_current_ply();
    proof {
        assert(move_list@ =~= list0);
    }
}

/// The legal moves of the position, each with the number of positions that
/// `depth - 1` further legal moves reach after it.
pub fn iter_first_level_moves(
    move_gen: &MoveGenerator,
    make_unmaker: &mut MakeUnmaker,
    depth: u8,
) -> (counts: Vec<(Move, u64)>)
    requires
        move_gen.wf(),
        playable(old(make_unmaker).state),
        depth >= 1,
        old(make_unmaker).state.halfmove + depth <= 255,
        perft(old(make_unmaker).state, &move_gen.move_maps, depth as nat) <= u64::MAX,
    ensures
        final(make_unmaker).state == old(make_unmaker).state,
        final(make_unmaker).zobrist_hash == old(make_unmaker).zobrist_hash,
        final(make_unmaker).frames() == old(make_unmaker).frames(),
        counts@ == divided(
            old(make_unmaker).state,
            &move_gen.move_maps,
            pseudo_moves(old(make_unmaker).state, &move_gen.move_maps),
            0,
            depth as nat,
        ),
{
    let ghost s0 = make_unmaker.state;
    let ghost h0 = make_unmaker.zobrist_hash;
    let ghost f0 = make_unmaker.frames();
    let ghost maps = &move_gen.move_maps;
    let ghost moves = pseudo_moves(s0, maps);
    let mut move_list = MoveList::new();
    move_list.new_ply();
    move_gen.get_pseudo_legal_moves(&make_unmaker.state, &mut move_list);
    assert(move_list@ =~= Seq::<Seq<Move>>::empty().push(moves)) by {
        assert(Seq::<Move>::empty() + moves =~= moves);
    }
    let ply_number = move_list.get_ply_number();
    let ply_size = move_list.get_ply_size(ply_number);
    let mut counts: Vec<(Move, u64)> = Vec::new();
    let mut i: usize = 0;
    proof {
        assert(counts@ + divided(s0, maps, moves, 0, depth as nat) =~= divided(
            s0,
            maps,
            moves,
            0,
            depth as nat,
        ));
    }
    while i < ply_size
        invariant
            i <= ply_size,
            depth >= 1,
            move_gen.wf(),
            maps == &move_gen.move_maps,
            playable(s0),
            s0.halfmove + depth <= 255,
            moves == pseudo_moves(s0, maps),
            ply_size == moves.len(),
            ply_number == 1,
            make_unmaker.state == s0,
            make_unmaker.zobrist_hash == h0,
            make_unmaker.frames() == f0,
            move_list.wf(),
            move_list@ == Seq::<Seq<Move>>::empty().push(moves),
            counts@ + divided(s0, maps, moves, i as int, depth as nat) == divided(
                s0,
                maps,
                moves,
                0,
                depth as nat,
            ),
            perft_from(s0, maps, moves, i as int, depth as nat) <= u64::MAX,
        decreases ply_size - i,
    {
        let m = move_list.get_move(ply_number, i);
        proof {
            assert(moves.contains(m));
            lemma_generated_fits(s0, maps, m);
            lemma_applied_well_formed(s0, m);
            lemma_unmake_restores(s0, m);
            lemma_hash_restored(h0, s0, m, &make_unmaker.zobrist_numbers);
            assert(perft_from(s0, maps, moves, i as int, depth as nat) == perft_after(
                s0,
                maps,
                m,
                depth as nat,
            ) + perft_from(s0, maps, moves, i + 1, depth as nat));
            assert(legal_after(s0, m) ==> perft_after(s0, maps, m, depth as nat) == perft(
                applied(s0, m),
                maps,
                (depth - 1) as nat,
            ));
        }
        let ghost before = counts@;
        make_unmaker.make_move(m);
        if move_gen.was_move_legal(&make_unmaker.state) {
            let mut count: u64 = 0;
            recursive_perft(move_gen, make_unmaker, &mut move_list, depth - 1, &mut count);
            counts.push((m, count));
        }
        make_unmaker.unmake_move(m);
        proof {
            assert(make_unmaker.frames() =~= f0);
            let rest = divided(s0, maps, moves, i + 1, depth as nat);
            assert(counts@ + rest =~= before + divided(s0, maps, moves, i as int, depth as nat));
        }
        i += 1;
    }
    proof {
        assert(counts@ + Seq::<(Move, u64)>::empty() =~= counts@);
    }
    counts
}

/// Adds to `nodes` the number of positions reached from the current one by
/// `depth` legal moves, as long as the sum fits: tells whether it does, and
/// stops counting where it does not. The position, the hash and the move list
/// are left as they were found.
pub fn checked_perft(
    move_gen: &MoveGenerator,
    make_unmaker: &mut MakeUnmaker,
    move_list: &mut MoveList,
    depth: u8,
    nodes: &mut u64,
) -> (fits: bool)
    requires
        move_gen.wf(),
        playable(old(make_unmaker).state),
        old(move_list).wf(),
        old(make_unmaker).state.halfmove + depth <= 255,
    ensures
        final(make_unmaker).state == old(make_unmaker).state,
        final(make_unmaker).zobrist_hash == old(make_unmaker).zobrist_hash,
        final(make_unmaker).frames() == old(make_unmaker).frames(),
        final(make_unmaker).zobrist_numbers == old(make_unmaker).zobrist_numbers,
        final(move_list).wf(),
        final(move_list)@ == old(move_list)@,
        fits == (*old(nodes) + perft(old(make_unmaker).state, &move_gen.move_maps, depth as nat)
            <= u64::MAX),
        fits ==> *final(nodes) == *old(nodes) + perft(
            old(make_unmaker).state,
            &move_gen.move_maps,
            depth as nat,
        ),
    decreases depth,
{
    if depth == 0 {
        if *nodes == u64::MAX {
            return false;
        }
        *nodes = *nodes + 1;
        return true;
    }
    let ghost s0 = make_unmaker.state;
    let ghost h0 = make_unmaker.zobrist_hash;
    let ghost f0 = make_unmaker.frames();
    let ghost list0 = move_list@;
    let ghost n0 = *nodes;
    let ghost maps = &move_gen.move_maps;
    let ghost moves = pseudo_moves(s0, maps);
    move_list.new_ply();
    move_gen.get_pseudo_legal_moves(&make_unmaker.state, move_list);
    assert(move_list@ =~= list0.push(moves)) by {
        assert(Seq::<Move>::empty() + moves =~= moves);
    }
    let ply_number = move_list.get_ply_number();
    let ply_size = move_list.get_ply_size(ply_number);
    let mut fits = true;
    let mut i: usize = 0;
    while i < ply_size && fits
        invariant
            i <= ply_size,
            depth >= 1,
            move_gen.wf(),
            maps == &move_gen.move_maps,
            playable(s0),
            s0.halfmove + depth <= 255,
            moves == pseudo_moves(s0, maps),
            ply_size == moves.len(),
            ply_number == list0.len() + 1,
            make_unmaker.state == s0,
            make_unmaker.zobrist_hash == h0,
            make_unmaker.frames() == f0,
            make_unmaker.zobrist_numbers == old(make_unmaker).zobrist_numbers,
            move_list.wf(),
            move_list@ == list0.push(moves),
            fits ==> *nodes + perft_from(s0, maps, moves, i as int, depth as nat) == n0
                + perft_from(s0, maps, moves, 0, depth as nat),
            !fits ==> n0 + perft_from(s0, maps, moves, 0, depth as nat) > u64::MAX,
        decreases ply_size - i + (if fits { 1int } else { 0int }),
    {
        let m = move_list.get_move(ply_number, i);
        proof {
            assert(moves.contains(m));
            lemma_generated_fits(s0, maps, m);
            lemma_applied_well_formed(s0, m);
            lemma_unmake_restores(s0, m);
            lemma_hash_restored(h0, s0, m, &make_unmaker.zobrist_numbers);
            assert(perft_from(s0, maps, moves, i as int, depth as nat) == perft_after(
                s0,
                maps,
                m,
                depth as nat,
            ) + perft_from(s0, maps, moves, i + 1, depth as nat));
            assert(legal_after(s0, m) ==> perft_after(s0, maps, m, depth as nat) == perft(
                applied(s0, m),
                maps,
                (depth - 1) as nat,
            ));
            assert(!legal_after(s0, m) ==> perft_after(s0, maps, m, depth as nat) == 0);
            assert(perft(applied(s0, m), maps, 0) == 1);
        }
        make_unmaker.make_move(m);
        if move_gen.was_move_legal(&make_unmaker.state) {
            if depth == 1 {
                if *nodes == u64::MAX {
                    fits = false;
                } else {
                    *nodes = *nodes + 1;
                }
            } else {
                fits = checked_perft(move_gen, make_unmaker, move_list, depth - 1, nodes);
            }
        }
        make_unmaker.unmake_move(m);
        proof {
            assert(make_unmaker.frames() =~= f0);
        }
        i += 1;
    }
    move_list.drop_current_ply();
    proof {
        assert(move_list@ =~= list0);
        assert(perft_from(s0, maps, moves, moves.len() as int, depth as nat) == 0);
    }
    fits
}

/// The legal moves of the position, each with the number of positions that
/// `depth - 1` further legal moves reach after it, where the number of all of
/// them fits 64 bits; `None` where it does not.
pub fn counted_first_level_moves(
    move_gen: &MoveGenerator,
    make_unmaker: &mut MakeUnmaker,
    depth: u8,
) -> (counts: Option<Vec<(Move, u64)>>)
    requires
        move_gen.wf(),
        playable(old(make_unmaker).state),
        depth >= 1,
        old(make_unmaker).state.halfmove + depth <= 255,
    ensures
        final(make_unmaker).state == old(make_unmaker).state,
        final(make_unmaker).zobrist_hash == old(make_unmaker).zobrist_hash,
        final(make_unmaker).frames() == old(make_unmaker).frames(),
        (counts is Some) == (perft(old(make_unmaker).state, &move_gen.move_maps, depth as nat)
            <= u64::MAX),
        counts matches Some(c) ==> c@ == divided(
            old(make_unmaker).state,
            &move_gen.move_maps,
            pseudo_moves(old(make_unmaker).state, &move_gen.move_maps),
            0,
            depth as nat,
        ),
{
    let mut move_list = MoveList::new();
    let mut nodes: u64 = 0;
    if !checked_perft(move_gen, make_unmaker, &mut move_list, depth, &mut nodes) {
        return None;
    }
    Some(iter_first_level_moves(move_gen, make_unmaker, depth))
}

/// The legal ones of `moves` from number `i` on, each with the number of
/// positions that `depth - 1` further legal moves reach after it.
pub open spec fn divided(
    s: GameState,
    maps: &MoveMaps,
    moves: Seq<Move>,
    i: int,
    depth: nat,
) -> Seq<(Move, u64)>
    decreases moves.len() - i,
{
    if i < 0 || i >= moves.len() {
        Seq::empty()
    } else {
        (if legal_after(s, moves[i]) {
            seq![(moves[i], perft_after(s, maps, moves[i], depth) as u64)]
        } else {
            Seq::empty()
        }) + divided(s, maps, moves, i + 1, depth)
    }
}

/// Why a sequence of moves was not made to its end.
#[derive(Clone, Copy, Debug, PartialEq, Eq, Structural)]
pub enum SequenceError {
    /// The position before the move is not well formed, or the side that is not
    /// to move is in check.
    Position,
    /// The halfmove clock is at its limit.
    Clock,
    /// No pseudo-legal move matches the text.
    NotFound,
}

/// The position after the moves named by the texts from number `k` on: each text
/// stands for the first pseudo-legal move that matches it.
pub open spec fn after_moves(
    s: GameState,
    maps: &MoveMaps,
    texts: Seq<Seq<char>>,
    k: int,
) -> Result<GameState, SequenceError>
    decreases texts.len() - k,
{
    if k < 0 || k >= texts.len() {
        Ok(s)
    } else if !playable(s) {
        Err(SequenceError::Position)
    } else if s.halfmove == 255 {
        Err(SequenceError::Clock)
    } else {
        match first_match(pseudo_moves(s, maps), texts[k], 0) {
            None => Err(SequenceError::NotFound),
            Some(m) => after_moves(applied(s, m), maps, texts, k + 1),
        }
    }
}

/// The position at which making the moves named by the texts from number `k`
/// on comes to a stop: after the last of them, or before the first that cannot
/// be made.
pub open spec fn stopped_at(
    s: GameState,
    maps: &MoveMaps,
    texts: Seq<Seq<char>>,
    k: int,
) -> GameState
    decreases texts.len() - k,
{
    if k < 0 || k >= texts.len() || !playable(s) || s.halfmove == 255 {
        s
    } else {
        match first_match(pseudo_moves(s, maps), texts[k], 0) {
            None => s,
            Some(m) => stopped_at(applied(s, m), maps, texts, k + 1),
        }
    }
}

/// The texts of the strings.
pub open spec fn texts_of(moves: Seq<&str>) -> Seq<Seq<char>> {
    Seq::new(moves.len(), |i: int| moves[i]@)
}

/// Makes the moves that the texts name, one after the other, each the first
/// pseudo-legal move that matches its text. Stops at the first move that cannot
/// be made, with the moves before it made.
pub fn make_move_sequence(
    move_gen: &MoveGenerator,
    make_unmaker: &mut MakeUnmaker,
    moves: Vec<&str>,
) -> (r: Result<(), SequenceError>)
    requires
        move_gen.wf(),
    ensures
        (match after_moves(
            old(make_unmaker).state,
            &move_gen.move_maps,
            texts_of(moves@),
            0,
        ) {
            Ok(s) => r is Ok && final(make_unmaker).state == s,
            Err(e) => r == Err::<(), SequenceError>(e),
        }),
        final(make_unmaker).state == stopped_at(
            old(make_unmaker).state,
            &move_gen.move_maps,
            texts_of(moves@),
            0,
        ),
        old(make_unmaker).in_sync() ==> final(make_unmaker).in_sync(),
        final(make_unmaker).zobrist_numbers == old(make_unmaker).zobrist_numbers,
{
    let ghost maps = &move_gen.move_maps;
    let ghost texts = texts_of(moves@);
    let ghost s0 = make_unmaker.state;
    let mut k: usize = 0;
    while k < moves.len()
        invariant
            k <= moves@.len(),
            move_gen.wf(),
            maps == &move_gen.move_maps,
            texts == texts_of(moves@),
            texts.len() == moves@.len(),
            s0 == old(make_unmaker).state,
            after_moves(s0, maps, texts, 0) == after_moves(make_unmaker.state, maps, texts, k as int),
            stopped_at(s0, maps, texts, 0) == stopped_at(make_unmaker.state, maps, texts, k as int),
            old(make_unmaker).in_sync() ==> make_unmaker.in_sync(),
            make_unmaker.zobrist_numbers == old(make_unmaker).zobrist_numbers,
        decreases moves@.len() - k,
    {
        if !move_gen.is_playable(&make_unmaker.state) {
            return Err(SequenceError::Position);
        }
        if make_unmaker.state.halfmove == 255 {
            return Err(SequenceError::Clock);
        }
        let ghost s = make_unmaker.state;
        let mut move_list = MoveList::new();
        move_list.new_ply();
        move_gen.get_pseudo_legal_moves(&make_unmaker.state, &mut move_list);
        assert(move_list@.last() =~= pseudo_moves(s, maps)) by {
            assert(Seq::<Move>::empty() + pseudo_moves(s, maps) =~= pseudo_moves(s, maps));
        }
        assert(texts[k as int] == moves@[k as int]@);
        match find_move(move_list.get_current_ply(), moves[k]) {
            Some(m) => {
                proof {
                    lemma_generated_fits(s, maps, m);
                    crate::laws::lemma_hash_applied(s, m, &make_unmaker.zobrist_numbers);
                }
                make_unmaker.make_move(m);
            },
            None => {
                return Err(SequenceError::NotFound);
            },
        }
        k += 1;
    }
    Ok(())
}

} // verus!
