use chess_engine::api::{
    evaluate, evaluate_by, is_move_legal, make_move, needs_promotion, respond, ApiError,
    FullGameState,
};
use chess_engine::fen::FenError;
use chess_engine::game_state::GameState;
use chess_engine::moves::MoveExt;
use chess_engine::search::SearchContext;

#[test]
fn test_evaluate() {
    let fgs = FullGameState {
        fen: "rnbqkbnr/pppppppp/8/8/8/8/PPPPPPPP/RNBQKBNR w KQkq - 0 1".to_string(),
        pgn: String::new(),
    };
    // The clock is a script here, so that the result does not hang on the
    // speed of the machine: the fifth search uses up the two and a half seconds.
    let res = evaluate_by(fgs, 2500, 0, &vec![500, 1000, 1500, 2000, 2500]).unwrap();
    println!("{}", res.best_move);
    assert_eq!(res.score, 35);
}

#[test]
fn the_evaluation_against_a_scripted_clock() {
    let start = || FullGameState { fen: START.to_string(), pgn: String::new() };
    let state = GameState::from_fen(START.to_string()).unwrap();
    // One search, at one ply.
    let mut context = SearchContext::new(state, Some(1));
    let (score, pv) = context.search(Vec::new());
    let res = evaluate_by(start(), 100, 0, &vec![100]).unwrap();
    assert_eq!(res.score, score);
    assert_eq!(res.best_move, pv[pv.len() - 1].to_perft_string());
    assert_eq!(evaluate_by(start(), 1, 7, &vec![]).unwrap().score, score);
    // Without a budget there is no search and no move.
    assert!(matches!(evaluate_by(start(), 0, 0, &vec![0, 0]), Err(ApiError::NoMove)));
    let mated = FullGameState { fen: "8/8/8/8/8/8/5KQ1/7k b - - 0 1".to_string(), pgn: String::new() };
    assert!(matches!(evaluate_by(mated, 100, 0, &vec![1]), Err(ApiError::NoMove)));
    let stalemated =
        FullGameState { fen: "7k/5Q2/6K1/8/8/8/8/8 b - - 0 1".to_string(), pgn: String::new() };
    assert!(matches!(evaluate_by(stalemated, 100, 0, &vec![1]), Err(ApiError::NoMove)));
    let late = FullGameState { fen: "4k3/8/8/8/8/8/8/4K3 w - - 250 1".to_string(), pgn: String::new() };
    assert!(matches!(evaluate_by(late, 100, 0, &vec![1]), Err(ApiError::NoMove)));
    let bad = FullGameState { fen: "x".to_string(), pgn: String::new() };
    assert!(matches!(evaluate_by(bad, 100, 0, &vec![1]), Err(ApiError::Fen(FenError::MissingField))));
    let unplayable =
        FullGameState { fen: "8/8/8/8/8/8/5KQ1/7k w - - 0 1".to_string(), pgn: String::new() };
    assert!(matches!(evaluate_by(unplayable, 100, 0, &vec![1]), Err(ApiError::Position)));
}

#[test]
fn test_evaluate_bug() {
    let fen = "r1bqk1nr/pppp1ppp/2B5/4p2Q/4P3/8/PPPP1bPP/RNB1K1NR w KQkq - 0 5";
    let fgs = FullGameState { fen: fen.to_string(), pgn: String::new() };
    let _res = evaluate(fgs).unwrap();
    println!("{}", _res.best_move);
}

const START: &str = "rnbqkbnr/pppppppp/8/8/8/8/PPPPPPPP/RNBQKBNR w KQkq - 0 1";

#[test]
fn legal_and_illegal_moves() {
    assert_eq!(is_move_legal(START.to_string(), "e2e4".to_string()), Ok(true));
    assert_eq!(is_move_legal(START.to_string(), "e2e5".to_string()), Ok(false));
    assert_eq!(is_move_legal(START.to_string(), "e2e4 and more".to_string()), Ok(true));
    // A pinned knight may not move.
    let pinned = "4k3/8/8/8/8/4r3/4N3/4K3 w - - 0 1";
    assert_eq!(is_move_legal(pinned.to_string(), "e2c3".to_string()), Ok(false));
    assert_eq!(is_move_legal(pinned.to_string(), "e1d2".to_string()), Ok(true));
    // Only the first four characters count.
    let promotion = "2n1k3/1P6/8/8/8/8/8/4K3 w - - 0 1";
    assert_eq!(is_move_legal(promotion.to_string(), "b7b8".to_string()), Ok(false));
    assert_eq!(
        is_move_legal("nonsense".to_string(), "e2e4".to_string()),
        Err(ApiError::Fen(FenError::MissingField))
    );
    assert_eq!(
        is_move_legal("8/8/8/8/8/8/5KQ1/7k w - - 0 1".to_string(), "g2h1".to_string()),
        Err(ApiError::Position)
    );
    assert_eq!(
        is_move_legal("4k3/8/8/8/8/8/8/4K3 w - - 255 1".to_string(), "e1e2".to_string()),
        Err(ApiError::Clock)
    );
}

#[test]
fn moves_that_need_a_promotion() {
    let promotion = "2n1k3/1P6/8/8/8/8/8/4K3 w - - 0 1";
    // The text of a promotion has five characters: four never match it.
    assert_eq!(needs_promotion(promotion.to_string(), "b7b8".to_string()), Ok(false));
    assert_eq!(needs_promotion(promotion.to_string(), "b7c8q".to_string()), Ok(false));
    assert_eq!(needs_promotion(promotion.to_string(), "e1e2".to_string()), Ok(false));
    assert_eq!(needs_promotion(START.to_string(), "e2e4".to_string()), Ok(false));
    assert_eq!(needs_promotion(START.to_string(), "zzzz".to_string()), Ok(false));
    assert_eq!(
        needs_promotion("4k3/8/8/8/8/8/8/4K3 w - e9 0 1".to_string(), "e1e2".to_string()),
        Err(ApiError::Fen(FenError::EnPassant))
    );
}

#[test]
fn the_position_after_a_move() {
    let fgs = FullGameState { fen: START.to_string(), pgn: "1. ".to_string() };
    let next = make_move(fgs, "e2e4".to_string()).unwrap();
    assert_eq!(next.fen, "rnbqkbnr/pppppppp/8/8/4P3/8/PPPP1PPP/RNBQKBNR b KQkq e3 1 1");
    assert_eq!(next.pgn, "");
    let promotion = "2n1k3/1P6/8/8/8/8/8/4K3 w - - 0 1";
    let fgs = FullGameState { fen: promotion.to_string(), pgn: String::new() };
    let next = make_move(fgs, "b7c8r".to_string()).unwrap();
    assert_eq!(next.fen, "2R1k3/8/8/8/8/8/8/4K3 b - - 1 1");
    // A text that names no move leaves the position as it is.
    let fgs = FullGameState { fen: START.to_string(), pgn: String::new() };
    assert_eq!(make_move(fgs, "e2e5".to_string()).unwrap().fen, START);
    let fgs = FullGameState { fen: "8/8 w - -".to_string(), pgn: String::new() };
    assert_eq!(make_move(fgs, "e2e4".to_string()).err(), Some(ApiError::Position));
}

#[test]
fn the_engine_replies_with_a_move() {
    let fgs = FullGameState { fen: START.to_string(), pgn: String::new() };
    let next = respond(fgs).unwrap();
    assert_ne!(next.fen, START);
    assert!(next.fen.contains(" b KQkq "));
    assert!(next.fen.ends_with(" 1 1"));
    let mated = FullGameState { fen: "8/8/8/8/8/8/5KQ1/7k b - - 0 1".to_string(), pgn: String::new() };
    assert!(matches!(respond(mated), Err(ApiError::NoMove)));
    let bad = FullGameState { fen: "x".to_string(), pgn: String::new() };
    assert!(matches!(evaluate(bad), Err(ApiError::Fen(FenError::MissingField))));
}
