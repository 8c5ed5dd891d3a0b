use chess_engine::game_state::GameState;
use chess_engine::make_unmake::MakeUnmaker;
use chess_engine::move_generator::MoveGenerator;
use chess_engine::move_list::MoveList;
use chess_engine::moves::{Move, MoveExt};
use chess_engine::perft::{
    checked_perft, counted_first_level_moves, iter_first_level_moves, make_move_sequence,
    recursive_perft, SequenceError,
};

#[test]
fn recursive_perft_test() {
    let initial_fen = "rnbqkbnr/pppppppp/8/8/8/8/PPPPPPPP/RNBQKBNR w KQkq - 0 1";
    let position_2 = "r3k2r/p1ppqpb1/bn2pnp1/3PN3/1p2P3/2N2Q1p/PPPBBPPP/R3K2R w KQkq - 0 1";
    let position_3 = "8/2p5/3p4/KP5r/1R3p1k/8/4P1P1/8 w - - 0 1";
    let cases = [
        (initial_fen, 1, 20),
        (initial_fen, 2, 400),
        (initial_fen, 3, 8902),
        (initial_fen, 4, 197281),
        (position_2, 1, 48),
        (position_2, 2, 2039),
        (position_2, 3, 97862),
        (position_3, 1, 14),
        (position_3, 2, 191),
        (position_3, 3, 2812),
        (position_3, 4, 43238),
    ];
    for (fen, depth, nodes) in cases {
        let game_state = GameState::from_fen(fen.to_string()).unwrap();
        println!("{}", depth);
        let move_gen = MoveGenerator::new();
        let mut make_unmaker = MakeUnmaker::new(game_state);
        let mut move_list = MoveList::new();
        let mut count = 0;
        recursive_perft(&move_gen, &mut make_unmaker, &mut move_list, depth, &mut count);
        assert_eq!(count, nodes);
    }
}

#[test]
fn perft_leaves_everything_as_it_was() {
    let fen = "r3k2r/p1ppqpb1/bn2pnp1/3PN3/1p2P3/2N2Q1p/PPPBBPPP/R3K2R w KQkq - 0 1";
    let state = GameState::from_fen(fen.to_string()).unwrap();
    let move_gen = MoveGenerator::new();
    let mut make_unmaker = MakeUnmaker::new(state);
    let hash = make_unmaker.zobrist_hash;
    let mut move_list = MoveList::new();
    move_list.new_ply();
    let mut count = 7;
    recursive_perft(&move_gen, &mut make_unmaker, &mut move_list, 2, &mut count);
    assert_eq!(count, 7 + 2039);
    assert_eq!(make_unmaker.state, state);
    assert_eq!(make_unmaker.zobrist_hash, hash);
    assert_eq!(make_unmaker.depth(), 0);
    assert_eq!(move_list.get_ply_number(), 1);
    assert_eq!(move_list.total_count(), 0);
    let mut zero = 0;
    recursive_perft(&move_gen, &mut make_unmaker, &mut move_list, 0, &mut zero);
    assert_eq!(zero, 1);
}

#[test]
fn the_counts_of_the_first_moves_add_up() {
    let state = GameState::from_fen(
        "rnbqkbnr/pppppppp/8/8/8/8/PPPPPPPP/RNBQKBNR w KQkq - 0 1".to_string(),
    )
    .unwrap();
    let move_gen = MoveGenerator::new();
    let mut make_unmaker = MakeUnmaker::new(state);
    let counts = iter_first_level_moves(&move_gen, &mut make_unmaker, 3);
    assert_eq!(counts.len(), 20);
    assert_eq!(counts.iter().map(|c| c.1).sum::<u64>(), 8902);
    let e2e4 = Move::new(12, 28, Move::DOUBLE_PAWN_PUSH);
    assert_eq!(counts.iter().find(|c| c.0 == e2e4).unwrap().1, 600);
    assert_eq!(make_unmaker.state, state);
    let first = iter_first_level_moves(&move_gen, &mut make_unmaker, 1);
    assert!(first.iter().all(|c| c.1 == 1));
}

#[test]
fn a_sequence_of_moves_by_their_texts() {
    let state = GameState::from_fen(
        "rnbqkbnr/pppppppp/8/8/8/8/PPPPPPPP/RNBQKBNR w KQkq - 0 1".to_string(),
    )
    .unwrap();
    let move_gen = MoveGenerator::new();
    let mut make_unmaker = MakeUnmaker::new(state);
    assert_eq!(make_move_sequence(&move_gen, &mut make_unmaker, vec!["e2e4", "c7c5", "g1f3"]), Ok(()));
    assert_eq!(
        make_unmaker.state.to_fen(),
        "rnbqkbnr/pp1ppppp/8/2p5/4P3/5N2/PPPP1PPP/RNBQKB1R b KQkq - 3 1"
    );
    assert_eq!(make_unmaker.zobrist_hash, make_unmaker.state.hash(&make_unmaker.zobrist_numbers));
    assert_eq!(
        make_move_sequence(&move_gen, &mut make_unmaker, vec!["d7d6", "e1e3"]),
        Err(SequenceError::NotFound)
    );
    // The move before the one that was not found has been made.
    assert_eq!(
        make_unmaker.state.to_fen(),
        "rnbqkbnr/pp2pppp/3p4/2p5/4P3/5N2/PPPP1PPP/RNBQKB1R w KQkq - 4 1"
    );
    let full = GameState::from_fen("4k3/8/8/8/8/8/8/4K3 w - - 255 1".to_string()).unwrap();
    let mut at_limit = MakeUnmaker::new(full);
    assert_eq!(make_move_sequence(&move_gen, &mut at_limit, vec!["e1e2"]), Err(SequenceError::Clock));
    let bad = GameState::from_fen("8/8/8/8/8/8/5KQ1/7k w - - 0 1".to_string()).unwrap();
    let mut unplayable = MakeUnmaker::new(bad);
    assert_eq!(
        make_move_sequence(&move_gen, &mut unplayable, vec!["g2h1"]),
        Err(SequenceError::Position)
    );
    assert_eq!(make_move_sequence(&move_gen, &mut unplayable, vec![]), Ok(()));
}

#[test]
fn counting_stops_where_the_sum_would_not_fit() {
    let start = "rnbqkbnr/pppppppp/8/8/8/8/PPPPPPPP/RNBQKBNR w KQkq - 0 1";
    let state = GameState::from_fen(start.to_string()).unwrap();
    let move_gen = MoveGenerator::new();
    let mut make_unmaker = MakeUnmaker::new(state);
    let mut move_list = MoveList::new();
    let mut nodes: u64 = 7;
    assert!(checked_perft(&move_gen, &mut make_unmaker, &mut move_list, 3, &mut nodes));
    assert_eq!(nodes, 7 + 8902);
    // Four hundred positions fit exactly below the limit, and no more.
    let mut nodes: u64 = u64::MAX - 400;
    assert!(checked_perft(&move_gen, &mut make_unmaker, &mut move_list, 2, &mut nodes));
    assert_eq!(nodes, u64::MAX);
    let mut nodes: u64 = u64::MAX - 399;
    assert!(!checked_perft(&move_gen, &mut make_unmaker, &mut move_list, 2, &mut nodes));
    let mut nodes: u64 = u64::MAX;
    assert!(!checked_perft(&move_gen, &mut make_unmaker, &mut move_list, 0, &mut nodes));
    assert_eq!(make_unmaker.state, state);
    assert_eq!(move_list.get_ply_number(), 0);
    let counts = counted_first_level_moves(&move_gen, &mut make_unmaker, 3).unwrap();
    assert_eq!(counts, iter_first_level_moves(&move_gen, &mut make_unmaker, 3));
    assert_eq!(counts.iter().map(|c| c.1).sum::<u64>(), 8902);
}
