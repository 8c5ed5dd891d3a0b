use chess_engine::game_state::GameState;
use chess_engine::search::SearchContext;
use chess_engine::simple_eval::{DOUBLED_PAWN_COEF, ISOLATED_PAWN_COEF, MOBILITY_COEF};

#[test]
fn test_is_checkmate() {
    for (fen, result) in [
        ("rnbqkbnr/pppppppp/8/8/8/8/PPPPPPPP/RNBQKBNR w KQkq - 0 1", false),
        ("8/8/8/8/8/8/5KQ1/7k b - - 0 1", true),
    ] {
        let state = GameState::from_fen(fen.to_string()).unwrap();
        let mut search_context = SearchContext::new(state, None);
        assert_eq!(search_context.is_checkmate(), result);
    }
}

#[test]
fn test_material_evaluation() {
    for (fen, result) in [
        ("rnbqkbnr/pppppppp/8/8/8/8/PPPPPPPP/RNBQKBNR w KQkq - 0 1", 0),
        ("rnbqkbnr/ppppppp1/8/8/8/8/PPPPPPPP/RNBQKBNR w KQkq - 0 1", 100),
        ("rnbqkb1r/pppppppp/8/8/8/8/PPPPPPPP/RNBQKBNR b KQkq - 0 1", -300),
        ("rnbqkbnr/pppppppp/8/8/8/8/PPPPPPPP/RNBQKB1R w KQkq - 0 1", -300),
    ] {
        let state = GameState::from_fen(fen.to_string()).unwrap();
        let search_context = SearchContext::new(state, None);
        let score = search_context.make_unmaker.state.material_score();
        assert_eq!(score, result);
    }
}

#[test]
fn test_doubled_pawn_evaluation() {
    for (fen, result) in [
        ("rnbqkbnr/pppppppp/8/8/8/8/PPPPPPPP/RNBQKBNR w KQkq - 0 1", 0),
        ("rnbqkbnr/pppppppp/8/8/8/1P6/1PPPPPPP/RNBQKBNR w KQkq - 0 1", -DOUBLED_PAWN_COEF),
        ("rnbqkbnr/1ppppppp/1p6/8/8/8/PPPPPPPP/RNBQKB1R w KQkq - 0 1", DOUBLED_PAWN_COEF),
        ("rnbqkbnr/pppppppp/8/8/2P5/2P5/11PPPPPP/RNBQKBNR b KQkq - 0 1", 2 * DOUBLED_PAWN_COEF),
    ] {
        let state = GameState::from_fen(fen.to_string()).unwrap();
        let search_context = SearchContext::new(state, None);
        let score = search_context.make_unmaker.state.doubled_pawn_number() * DOUBLED_PAWN_COEF;
        assert_eq!(score, result, "FEN: {}", fen);
    }
}

#[test]
fn test_isolated_pawn_evaluation() {
    for (fen, result) in [
        ("rnbqkbnr/pppppppp/8/8/8/8/PPPPPPPP/RNBQKBNR w KQkq - 0 1", 0),
        ("rnbqkbnr/pppppppp/8/8/8/8/P1PPPPPP/RNBQKBNR w KQkq - 0 1", -ISOLATED_PAWN_COEF),
        ("rnbqkbnr/pppppppp/8/8/8/8/1P1PPPPP/RNBQKBNR b KQkq - 0 1", ISOLATED_PAWN_COEF),
    ] {
        let state = GameState::from_fen(fen.to_string()).unwrap();
        let search_context = SearchContext::new(state, None);
        let score = search_context.make_unmaker.state.isolated_pawn_number() * ISOLATED_PAWN_COEF;
        assert_eq!(score, result, "FEN: {}", fen);
    }
}

#[test]
fn test_mobility_evaluation() {
    for (fen, result) in [
        ("rnbqkbnr/pppppppp/8/8/8/8/PPPPPPPP/RNBQKBNR w KQkq - 0 1", 0),
        ("rnbqkbnr/pppppppp/8/8/8/8/1PPPPPPP/RNBQKBNR w KQkq - 0 1", 4 * MOBILITY_COEF),
    ] {
        let state = GameState::from_fen(fen.to_string()).unwrap();
        let mut search_context = SearchContext::new(state, None);
        let score = search_context.mobility_score();
        assert_eq!(score, result, "FEN: {}", fen);
    }
}

#[test]
fn the_evaluation_adds_its_three_parts() {
    // White lacks the a-pawn: 100 down in material, four moves up in mobility.
    let fen = "rnbqkbnr/pppppppp/8/8/8/8/1PPPPPPP/RNBQKBNR w KQkq - 0 1";
    let state = GameState::from_fen(fen.to_string()).unwrap();
    let mut context = SearchContext::new(state, None);
    assert_eq!(context.make_unmaker.state.pawn_structure_score(), 0);
    assert_eq!(context.evaluate(), -100 + 4 * MOBILITY_COEF);
    assert_eq!(context.make_unmaker.state, state);
    assert_eq!(context.move_list.get_ply_number(), 0);
    let mated = GameState::from_fen("8/8/8/8/8/8/5KQ1/7k b - - 0 1".to_string()).unwrap();
    assert_eq!(SearchContext::new(mated, None).evaluate(), -100000);
}

#[test]
fn stalemate_scores_as_a_draw() {
    // Black to move has no legal move and is not in check, a queen down.
    let stalemate = GameState::from_fen("7k/5Q2/6K1/8/8/8/8/8 b - - 0 1".to_string()).unwrap();
    let mut context = SearchContext::new(stalemate, None);
    assert!(!context.is_checkmate());
    assert!(context.is_stalemate());
    assert_eq!(context.evaluate(), 0);
    assert_eq!(context.search(Vec::new()).0, 0);
    assert_eq!(context.make_unmaker.state, stalemate);
    // The same position with White to move is an ordinary one.
    let open = GameState::from_fen("7k/5Q2/6K1/8/8/8/8/8 w - - 0 1".to_string()).unwrap();
    let mut context = SearchContext::new(open, None);
    assert!(!context.is_stalemate());
    assert!(context.evaluate() > 900);
    // A mated side is not stalemated.
    let mated = GameState::from_fen("8/8/8/8/8/8/5KQ1/7k b - - 0 1".to_string()).unwrap();
    assert!(!SearchContext::new(mated, None).is_stalemate());
}

#[test]
fn material_counts_each_kind_of_piece() {
    assert_eq!(GameState::board_material(0b111, 0b1, 100), 200);
    assert_eq!(GameState::board_material(0, u64::MAX, 900), -57600);
    let queen_up = GameState::from_fen("4k3/8/8/8/8/8/8/3QK3 w - - 0 1".to_string()).unwrap();
    assert_eq!(queen_up.material_score(), 900);
    let rook_down = GameState::from_fen("r3k3/8/8/8/8/8/8/4K3 w - - 0 1".to_string()).unwrap();
    assert_eq!(rook_down.material_score(), -500);
    let bishop = GameState::from_fen("4k3/8/8/8/8/8/8/2B1K3 b - - 0 1".to_string()).unwrap();
    assert_eq!(bishop.material_score(), -300);
}
