use chess_engine::game_state::GameState;
use chess_engine::make_unmake::MakeUnmaker;
use chess_engine::move_generator::MoveGenerator;
use chess_engine::moves::{Move, MoveExt};
use chess_engine::search::{copy_line, round_up, within_budget, SearchContext};

#[test]
fn test_quiesce() {
    let cases = [
        ("rnbqkbnr/pppppppp/8/8/8/8/PPPPPPPP/RNBQKBNR w KQkq - 0 1", (0, 0, vec![])),
        ("rnbqkbnr/ppppppp1/8/8/8/8/PPPPPPPP/RNBQKBNR w KQkq - 0 1", (80, 80, vec![])),
        ("rnbqkb1r/pppppppp/8/8/8/8/PPPPPPPP/RNBQKBNR b KQkq - 0 1", (-350, -300, vec![])),
        ("8/8/8/8/8/8/qQ/5k1K w - - 0 1", (900, 1050, vec![Move::new(9, 8, Move::CAPTURE)])),
        (
            "8/8/8/8/8/1p6/qR6/5k1K w - - 0 1",
            (-150, -50, vec![Move::new(17, 8, Move::CAPTURE), Move::new(9, 8, Move::CAPTURE)]),
        ),
        // Giving up the queen leaves White stalemated, which scores as a draw
        // and is better than taking the pawn.
        (
            "8/8/8/8/1p6/8/rQ6/r4k1K w - - 0 1",
            (0, 0, vec![Move::new(0, 8, Move::CAPTURE), Move::new(9, 8, Move::CAPTURE)]),
        ),
        (
            "k7/pp5r/6P1/3p4/4P3/8/6PP/7K w - - 0 1",
            (50, 150, vec![Move::new(46, 55, Move::CAPTURE)]),
        ),
    ];
    for (fen, (lower_bound, upper_bound, expected_pv)) in cases {
        let state = GameState::from_fen(fen.to_string()).unwrap();
        let mut prev_pv: Vec<Move> = Vec::new();
        let mut pv: Vec<Move> = Vec::new();
        let mut context = SearchContext::new(state, None);
        let score = context.quiesce(
            SearchContext::MIN_SCORE,
            SearchContext::MAX_SCORE,
            0,
            &mut pv,
            &mut prev_pv,
        );
        assert_eq!(prev_pv, vec![]);
        assert_eq!(pv, expected_pv, "State: {:?}", state);
        assert!(score >= lower_bound, "{} < {}", score, lower_bound);
        assert!(score <= upper_bound, "{} > {}", score, upper_bound);
    }
}

#[test]
fn without_captures_quiesce_returns_the_static_score() {
    for fen in [
        "rnbqkbnr/pppppppp/8/8/8/8/PPPPPPPP/RNBQKBNR w KQkq - 0 1",
        "rnbqkbnr/pppppppp/8/8/8/8/1PPPPPPP/RNBQKBNR w KQkq - 0 1",
        "4k3/8/8/8/8/8/8/R3K2R w KQ - 0 1",
    ] {
        let state = GameState::from_fen(fen.to_string()).unwrap();
        let mut context = SearchContext::new(state, Some(2));
        let expected = context.evaluate();
        let mut pv = vec![Move::new(1, 2, Move::QUIET_MOVE)];
        let mut prev_pv: Vec<Move> = Vec::new();
        let score = context.quiesce(
            SearchContext::MIN_SCORE,
            SearchContext::MAX_SCORE,
            2,
            &mut pv,
            &mut prev_pv,
        );
        assert_eq!(score, expected);
        assert!(pv.is_empty());
        assert_eq!(context.make_unmaker.state, state);
    }
}

fn naive_quiesce(ctx: &mut SearchContext, depth: u8) -> i32 {
    let static_score = ctx.evaluate();
    if depth >= ctx.max_depth + 4 {
        return static_score;
    }
    let mut best = static_score;
    ctx.move_list.new_ply();
    ctx.move_generator.get_pseudo_legal_moves(&ctx.make_unmaker.state, &mut ctx.move_list);
    let ply = ctx.move_list.get_ply_number();
    for i in 0..ctx.move_list.get_ply_size(ply) {
        let m = ctx.move_list.get_move(ply, i);
        if m.is_quiet() {
            continue;
        }
        ctx.make_unmaker.make_move(m);
        if ctx.move_generator.was_move_legal(&ctx.make_unmaker.state) {
            let score = -naive_quiesce(ctx, depth + 1);
            if score > best {
                best = score;
            }
        }
        ctx.make_unmaker.unmake_move(m);
    }
    ctx.move_list.drop_current_ply();
    best
}

fn naive_negamax(ctx: &mut SearchContext, depth: u8) -> i32 {
    if depth == ctx.max_depth {
        return naive_quiesce(ctx, depth);
    }
    let mut best: Option<i32> = None;
    ctx.move_list.new_ply();
    ctx.move_generator.get_pseudo_legal_moves(&ctx.make_unmaker.state, &mut ctx.move_list);
    let ply = ctx.move_list.get_ply_number();
    for i in 0..ctx.move_list.get_ply_size(ply) {
        let m = ctx.move_list.get_move(ply, i);
        ctx.make_unmaker.make_move(m);
        if ctx.move_generator.was_move_legal(&ctx.make_unmaker.state) {
            let score = -naive_negamax(ctx, depth + 1);
            if best.map_or(true, |b| score > b) {
                best = Some(score);
            }
        }
        ctx.make_unmaker.unmake_move(m);
    }
    ctx.move_list.drop_current_ply();
    match best {
        Some(score) => score,
        None => ctx.evaluate(),
    }
}

#[test]
fn pruning_does_not_change_the_score() {
    let cases = [
        ("rnbqkbnr/pppppppp/8/8/8/8/PPPPPPPP/RNBQKBNR w KQkq - 0 1", 2),
        ("r3k2r/p1ppqpb1/bn2pnp1/3PN3/1p2P3/2N2Q1p/PPPBBPPP/R3K2R w KQkq - 0 1", 1),
        ("8/2p5/3p4/KP5r/1R3p1k/8/4P1P1/8 w - - 0 1", 3),
        ("k7/pp5r/6P1/3p4/4P3/8/6PP/7K w - - 0 1", 2),
        ("8/8/8/8/8/8/5KQ1/7k b - - 0 1", 2),
        ("7k/5Q2/6K1/8/8/8/8/8 b - - 0 1", 2),
    ];
    for (fen, depth) in cases {
        let state = GameState::from_fen(fen.to_string()).unwrap();
        let mut context = SearchContext::new(state, Some(depth));
        let expected = naive_negamax(&mut context, 0);
        let (score, _) = context.search(Vec::new());
        assert_eq!(score, expected, "{} at depth {}", fen, depth);
        assert_eq!(context.make_unmaker.state, state);
        assert_eq!(context.make_unmaker.zobrist_hash, state.hash(&context.make_unmaker.zobrist_numbers));
        assert_eq!(context.move_list.get_ply_number(), 0);
    }
}

#[test]
fn the_search_finds_a_mate_in_one() {
    let state = GameState::from_fen("7k/8/5K2/8/8/8/8/6Q1 w - - 0 1".to_string()).unwrap();
    let mut context = SearchContext::new(state, Some(1));
    let (score, pv) = context.search(Vec::new());
    assert_eq!(score, 100000);
    let mate = *pv.last().unwrap();
    assert_eq!(mate.get_from(), 6);
    assert!(mate.get_to() == 54 || mate.get_to() == 62);
    // The move found by one search is tried first by the next.
    let (again, pv2) = context.search(pv.clone());
    assert_eq!(again, 100000);
    assert_eq!(pv2.last(), pv.last());
}

#[test]
fn the_search_stores_what_it_found() {
    let state = GameState::from_fen(
        "rnbqkbnr/pppppppp/8/8/8/8/PPPPPPPP/RNBQKBNR w KQkq - 0 1".to_string(),
    )
    .unwrap();
    let mut context = SearchContext::new(state, Some(2));
    let (score, pv) = context.search(Vec::new());
    let entry = *context.transpos.get(context.make_unmaker.zobrist_hash).unwrap();
    assert_eq!(entry.score, score);
    assert_eq!(entry.depth, 0);
    assert_eq!(entry.best_move, *pv.last().unwrap());
    assert_eq!(pv.len(), 2);
}

#[test]
fn deepening_runs_until_the_budget_is_spent() {
    let state = GameState::from_fen(
        "rnbqkbnr/pppppppp/8/8/8/8/PPPPPPPP/RNBQKBNR w KQkq - 0 1".to_string(),
    )
    .unwrap();
    let mut context = SearchContext::new(state, None);
    // No time: no search, no move.
    let (score, pv) = context.iterative_deepen(chrono::TimeDelta::zero());
    assert_eq!(score, 0);
    assert!(pv.is_empty());
    let (_, pv) = context.iterative_deepen(chrono::TimeDelta::milliseconds(50));
    assert!(!pv.is_empty());
    assert_eq!(context.max_depth, 1);
    assert_eq!(context.make_unmaker.state, state);
    // A clock at its limit leaves no room for a search.
    let late = GameState::from_fen("4k3/8/8/8/8/8/8/4K3 w - - 251 1".to_string()).unwrap();
    let mut context = SearchContext::new(late, None);
    let (score, pv) = context.iterative_deepen(chrono::TimeDelta::milliseconds(50));
    assert_eq!(score, 0);
    assert!(pv.is_empty());
    assert!(!context.has_room());
}

#[test]
fn budget_and_line_helpers() {
    assert!(within_budget(1000, 1499, 500));
    assert!(!within_budget(1000, 1500, 500));
    assert!(!within_budget(0, 0, 0));
    assert!(within_budget(i64::MIN, i64::MIN, 1));
    assert!(!within_budget(i64::MIN, i64::MAX, i64::MAX));
    let line = vec![Move::new(1, 2, Move::CAPTURE), Move::new(3, 4, Move::QUIET_MOVE)];
    assert_eq!(copy_line(&line), line);
}

#[test]
fn a_budget_above_zero_always_buys_the_first_search() {
    let state = GameState::from_fen(
        "rnbqkbnr/pppppppp/8/8/8/8/PPPPPPPP/RNBQKBNR w KQkq - 0 1".to_string(),
    )
    .unwrap();
    let mut context = SearchContext::new(state, Some(2));
    let (first_score, first_line) = context.search(Vec::new());
    // One millisecond is spent before the second search could start, or it is
    // not: either way the result is that of a search from depth two on.
    let (score, line) = context.deepen_for(1);
    assert!(!line.is_empty());
    assert!(line.len() >= 2);
    if line.len() == 2 {
        assert_eq!(score, first_score);
        assert_eq!(line.last(), first_line.last());
    }
    assert_eq!(context.max_depth, 2);
    assert_eq!(context.make_unmaker.state, state);
    // Without a budget no search is made.
    assert_eq!(context.deepen_for(0), (0, vec![]));
    assert_eq!(context.deepen_for(-7), (0, vec![]));
    // Without room on the clock no search is made, whatever the budget.
    let late = GameState::from_fen("4k3/8/8/8/8/8/8/4K3 w - - 250 1".to_string()).unwrap();
    let mut context = SearchContext::new(late, Some(1));
    assert_eq!(context.deepen_for(1000), (0, vec![]));
    let mut context = SearchContext::new(late, Some(0));
    let (_, line) = context.deepen_for(1);
    assert!(line.is_empty());
    assert_eq!(context.max_depth, 0);
}

const START: &str = "rnbqkbnr/pppppppp/8/8/8/8/PPPPPPPP/RNBQKBNR w KQkq - 0 1";

#[test]
fn the_readings_of_the_clock_decide_the_depth() {
    let state = GameState::from_fen(START.to_string()).unwrap();
    // The searches one by one, each with the line of the one before.
    let mut by_hand: Vec<(i32, Vec<Move>)> = Vec::new();
    let mut line: Vec<Move> = Vec::new();
    for depth in 1..=3u8 {
        let mut context = SearchContext::new(state, Some(depth));
        let (score, pv) = context.search(line.clone());
        line = pv.clone();
        by_hand.push((score, pv));
    }
    // The second reading is the first that is not below the budget: two searches.
    let mut context = SearchContext::new(state, None);
    assert_eq!(context.deepen_by(100, 1000, &vec![1099, 1100, 1000]), by_hand[1]);
    assert_eq!(context.max_depth, 1);
    assert_eq!(context.make_unmaker.state, state);
    // Every reading is below the budget: the run ends with the readings.
    let mut context = SearchContext::new(state, None);
    assert_eq!(context.deepen_by(100, 1000, &vec![1001, 1002]), by_hand[2]);
    let mut context = SearchContext::new(state, None);
    assert_eq!(context.deepen_by(100, 1000, &vec![]), by_hand[0]);
    let mut context = SearchContext::new(state, None);
    assert_eq!(context.deepen_by(100, 1000, &vec![1100, 0, 0]), by_hand[0]);
    // No budget, no search.
    let mut context = SearchContext::new(state, None);
    assert_eq!(context.deepen_by(0, 1000, &vec![1001, 1002]), (0, vec![]));
    // The clock of the position leaves room for depth one and no more.
    let late = GameState::from_fen("4k3/8/8/8/8/8/8/R3K3 w - - 249 1".to_string()).unwrap();
    let mut alone = SearchContext::new(late, Some(1));
    let first = alone.search(Vec::new());
    let mut context = SearchContext::new(late, None);
    assert_eq!(context.deepen_by(100, 0, &vec![1, 2, 3]), first);
    let later = GameState::from_fen("4k3/8/8/8/8/8/8/R3K3 w - - 250 1".to_string()).unwrap();
    let mut context = SearchContext::new(later, None);
    assert_eq!(context.deepen_by(100, 0, &vec![1, 2, 3]), (0, vec![]));
}

#[test]
fn a_part_of_a_millisecond_is_a_budget() {
    assert_eq!(round_up(0, 500000), 1);
    assert_eq!(round_up(2500, 500000000), 2500);
    assert_eq!(round_up(2, 2000001), 3);
    assert_eq!(round_up(0, 0), 0);
    assert_eq!(round_up(0, -500000), 0);
    assert_eq!(round_up(-3, -3000001), -3);
    assert_eq!(round_up(i64::MAX, 1), i64::MAX);
    let state = GameState::from_fen(START.to_string()).unwrap();
    let mut context = SearchContext::new(state, None);
    let (_, line) = context.iterative_deepen(chrono::TimeDelta::microseconds(500));
    assert!(!line.is_empty());
    let (_, line) = context.iterative_deepen(chrono::TimeDelta::nanoseconds(1));
    assert!(!line.is_empty());
    assert_eq!(context.iterative_deepen(chrono::TimeDelta::microseconds(-500)), (0, vec![]));
    assert_eq!(context.iterative_deepen(chrono::TimeDelta::milliseconds(-2)), (0, vec![]));
}

#[test]
fn the_line_can_be_played_move_by_move() {
    for (fen, depth) in [
        (START, 3u8),
        ("r3k2r/p1ppqpb1/bn2pnp1/3PN3/1p2P3/2N2Q1p/PPPBBPPP/R3K2R w KQkq - 0 1", 2u8),
        ("7k/8/5K2/8/8/8/8/6Q1 w - - 0 1", 1u8),
    ] {
        let state = GameState::from_fen(fen.to_string()).unwrap();
        let mut context = SearchContext::new(state, Some(depth));
        let (_, pv) = context.search(Vec::new());
        assert!(!pv.is_empty());
        let generator = MoveGenerator::new();
        let mut position = MakeUnmaker::new(state);
        for m in pv.iter().rev() {
            let mut moves: Vec<Move> = Vec::new();
            generator.get_pseudo_legal_moves(&position.state, &mut moves);
            assert!(moves.contains(m), "{} in {}", m.to_perft_string(), fen);
            position.make_move(*m);
            assert!(generator.was_move_legal(&position.state));
        }
    }
}

#[test]
fn a_static_score_at_the_upper_bound_ends_the_quiescence() {
    // White is a queen up and could take a pawn: with a window below the
    // static score nothing is searched.
    let state = GameState::from_fen("6k1/8/8/3p4/4Q3/8/8/4K3 w - - 0 1".to_string()).unwrap();
    let mut context = SearchContext::new(state, Some(0));
    let stand = context.evaluate();
    assert!(stand > 10);
    let junk = Move::new(1, 2, Move::QUIET_MOVE);
    let other = Move::new(3, 4, Move::QUIET_MOVE);
    let mut pv = vec![junk];
    let mut prev_pv = vec![junk, other];
    assert_eq!(context.quiesce(-10, 10, 0, &mut pv, &mut prev_pv), stand);
    assert!(pv.is_empty());
    assert_eq!(prev_pv, vec![junk]);
    // With the full window the pawn is taken, and the line says so.
    let mut pv = vec![junk];
    let mut prev_pv: Vec<Move> = Vec::new();
    let score = context.quiesce(
        SearchContext::MIN_SCORE,
        SearchContext::MAX_SCORE,
        0,
        &mut pv,
        &mut prev_pv,
    );
    assert!(score > stand);
    assert_eq!(pv, vec![Move::new(28, 35, Move::CAPTURE)]);
    // At the ceiling the line of the search before is not touched.
    let mut pv = vec![junk];
    let mut prev_pv = vec![junk, other];
    assert_eq!(context.quiesce(-10, 10, 4, &mut pv, &mut prev_pv), stand);
    assert!(pv.is_empty());
    assert_eq!(prev_pv, vec![junk, other]);
}

#[test]
fn the_line_of_the_search_before_only_loses_moves_from_its_end() {
    let state = GameState::from_fen(START.to_string()).unwrap();
    let mut context = SearchContext::new(state, Some(2));
    let before = vec![
        Move::new(1, 18, Move::QUIET_MOVE),
        Move::new(52, 36, Move::DOUBLE_PAWN_PUSH),
        Move::new(12, 28, Move::DOUBLE_PAWN_PUSH),
    ];
    let mut prev_pv = before.clone();
    let mut pv: Vec<Move> = Vec::new();
    context.alpha_beta_search(
        SearchContext::MIN_SCORE,
        SearchContext::MAX_SCORE,
        0,
        &mut pv,
        &mut prev_pv,
    );
    assert!(before.starts_with(&prev_pv));
    assert!(prev_pv.len() < before.len());
    assert!(pv.len() >= 2);
    // In a position without captures the quiescence search takes one move off.
    let mut prev_pv = before.clone();
    let mut context = SearchContext::new(state, Some(0));
    context.quiesce(SearchContext::MIN_SCORE, SearchContext::MAX_SCORE, 0, &mut pv, &mut prev_pv);
    assert_eq!(prev_pv, before[..2].to_vec());
}

#[test]
fn every_node_above_the_horizon_stores_its_result() {
    let state = GameState::from_fen(START.to_string()).unwrap();
    let mut context = SearchContext::new(state, Some(2));
    let (score, pv) = context.search(Vec::new());
    let best = *pv.last().unwrap();
    // The position after the best move was searched one ply down, with the
    // negated score as its result.
    let mut position = MakeUnmaker::new(state);
    position.make_move(best);
    let below = *context.transpos.get(position.zobrist_hash).unwrap();
    assert_eq!(below.hash, position.state.hash(&position.zobrist_numbers));
    assert_eq!(below.depth, 1);
    assert_eq!(below.score, -score);
    // A quiescence search that finds no capture worth making stores nothing.
    let mut context = SearchContext::new(state, Some(0));
    let mut pv: Vec<Move> = Vec::new();
    let mut prev_pv: Vec<Move> = Vec::new();
    context.quiesce(SearchContext::MIN_SCORE, SearchContext::MAX_SCORE, 0, &mut pv, &mut prev_pv);
    assert!(context.transpos.get(context.make_unmaker.zobrist_hash).is_none());
    // One that takes a pawn stores the capture at depth zero.
    let state = GameState::from_fen("6k1/8/8/3p4/4Q3/8/8/4K3 w - - 0 1".to_string()).unwrap();
    let mut context = SearchContext::new(state, Some(0));
    let score = context.quiesce(
        SearchContext::MIN_SCORE,
        SearchContext::MAX_SCORE,
        0,
        &mut pv,
        &mut prev_pv,
    );
    let entry = *context.transpos.get(context.make_unmaker.zobrist_hash).unwrap();
    assert_eq!(entry.depth, 0);
    assert_eq!(entry.score, score);
    assert_eq!(entry.best_move, Move::new(28, 35, Move::CAPTURE));
}
