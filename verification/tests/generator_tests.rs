use chess_engine::color::Color;
use chess_engine::game_state::GameState;
use chess_engine::move_generator::MoveGenerator;
use chess_engine::move_list::MoveList;
use chess_engine::moves::{Move, MoveExt};
use chess_engine::square::Square;

const START: &str = "rnbqkbnr/pppppppp/8/8/8/8/PPPPPPPP/RNBQKBNR w KQkq - 0 1";
const KIWIPETE: &str = "r3k2r/p1ppqpb1/bn2pnp1/3PN3/1p2P3/2N2Q1p/PPPBBPPP/R3K2R w KQkq - 0 1";
const ENDGAME: &str = "8/2p5/3p4/KP5r/1R3p1k/8/4P1P1/8 w - - 0 1";

fn position(fen: &str) -> GameState {
    GameState::from_fen(fen.to_string()).unwrap()
}

fn pseudo_moves(state: &GameState) -> Vec<Move> {
    let generator = MoveGenerator::new();
    let mut moves: Vec<Move> = Vec::new();
    generator.get_pseudo_legal_moves(state, &mut moves);
    moves
}

#[test]
fn test_pseudo_legal_moves_from_starting_position() {
    let game_state = GameState::from_fen(
        "rnbqkbnr/p1pppppp/8/1p6/8/N7/PPPPPPPP/R1BQKBNR w KQkq - 0 1".to_string(),
    )
    .unwrap();
    println!("{:?}", game_state);
    let mut move_list = MoveList::new();
    move_list.new_ply();
    let move_generator = MoveGenerator::new();
    move_generator.get_pseudo_legal_moves(&game_state, &mut move_list);
    let mut n_moves = 0;
    for m in move_list.get_current_ply() {
        println!("{:?}", m);
        n_moves += 1;
    }
    assert_eq!(n_moves, 20);
}

#[test]
fn the_starting_position_has_twenty_pseudo_legal_moves() {
    let moves = pseudo_moves(&position(START));
    assert_eq!(moves.len(), 20);
    let knights = moves.iter().filter(|m| m.get_from() == 1 || m.get_from() == 6).count();
    assert_eq!(knights, 4);
    let doubles = moves.iter().filter(|m| (**m & 0xf000) == Move::DOUBLE_PAWN_PUSH).count();
    assert_eq!(doubles, 8);
    // Knights come first, lowest square first, then the pawns.
    assert_eq!(moves[0], Move::new(1, 16, Move::QUIET_MOVE));
    assert_eq!(moves[1], Move::new(1, 18, Move::QUIET_MOVE));
    assert_eq!(moves[4], Move::new(8, 16, Move::QUIET_MOVE));
    assert_eq!(moves[5], Move::new(8, 24, Move::DOUBLE_PAWN_PUSH));
}

#[test]
fn each_move_is_emitted_once() {
    for fen in [START, KIWIPETE, ENDGAME] {
        let moves = pseudo_moves(&position(fen));
        for i in 0..moves.len() {
            for j in 0..i {
                assert_ne!(moves[i], moves[j]);
            }
        }
    }
}

#[test]
fn castles_need_free_and_safe_squares() {
    let moves = pseudo_moves(&position(KIWIPETE));
    assert_eq!(moves.len(), 48);
    assert!(moves.contains(&Move::new(4, 6, Move::KING_CASTLE)));
    assert!(moves.contains(&Move::new(4, 2, Move::QUEEN_CASTLE)));
    // A bishop between king and rook: no castle on that wing.
    let blocked = pseudo_moves(&position("r3k2r/8/8/8/8/8/8/R3KB1R w KQkq - 0 1"));
    assert!(!blocked.contains(&Move::new(4, 6, Move::KING_CASTLE)));
    assert!(blocked.contains(&Move::new(4, 2, Move::QUEEN_CASTLE)));
    // A rook that attacks f1: the king may not cross it.
    let attacked = pseudo_moves(&position("4kr2/8/8/8/8/8/8/R3K2R w KQ - 0 1"));
    assert!(!attacked.contains(&Move::new(4, 6, Move::KING_CASTLE)));
    assert!(attacked.contains(&Move::new(4, 2, Move::QUEEN_CASTLE)));
    // A king in check does not castle.
    let check = pseudo_moves(&position("4r1k1/8/8/8/8/8/8/R3K2R w KQ - 0 1"));
    assert!(!check.contains(&Move::new(4, 6, Move::KING_CASTLE)));
    assert!(!check.contains(&Move::new(4, 2, Move::QUEEN_CASTLE)));
    // Black castles from e8.
    let black = pseudo_moves(&position("r3k2r/8/8/8/8/8/8/R3K2R b KQkq - 0 1"));
    assert!(black.contains(&Move::new(60, 62, Move::KING_CASTLE)));
    assert!(black.contains(&Move::new(60, 58, Move::QUEEN_CASTLE)));
}

#[test]
fn pawns_promote_in_four_ways_and_capture_en_passant() {
    let moves = pseudo_moves(&position("2n1k3/1P6/8/8/8/8/8/4K3 w - - 0 1"));
    for code in [
        Move::QUEEN_PROMOTION,
        Move::ROOK_PROMOTION,
        Move::BISHOP_PROMOTION,
        Move::KNIGHT_PROMOTION,
    ] {
        assert!(moves.contains(&Move::new(49, 57, code)));
    }
    for code in [
        Move::QUEEN_PROMOTION_CAPTURE,
        Move::ROOK_PROMOTION_CAPTURE,
        Move::BISHOP_PROMOTION_CAPTURE,
        Move::KNIGHT_PROMOTION_CAPTURE,
    ] {
        assert!(moves.contains(&Move::new(49, 58, code)));
    }
    assert!(!moves.contains(&Move::new(49, 57, Move::QUIET_MOVE)));
    let en_passant = pseudo_moves(&position("4k3/8/8/3pP3/8/8/8/4K3 w - d6 0 1"));
    assert!(en_passant.contains(&Move::new(36, 43, Move::EN_PASSANT)));
    assert!(!en_passant.contains(&Move::new(36, 43, Move::CAPTURE)));
    assert!(en_passant.contains(&Move::new(36, 44, Move::QUIET_MOVE)));
}

#[test]
fn double_pushes_need_both_squares_free() {
    let moves = pseudo_moves(&position("4k3/8/8/8/8/4n3/4P3/4K3 w - - 0 1"));
    assert!(!moves.contains(&Move::new(12, 20, Move::QUIET_MOVE)));
    assert!(!moves.contains(&Move::new(12, 28, Move::DOUBLE_PAWN_PUSH)));
    let moves = pseudo_moves(&position("4k3/8/8/8/4n3/8/4P3/4K3 w - - 0 1"));
    assert!(moves.contains(&Move::new(12, 20, Move::QUIET_MOVE)));
    assert!(!moves.contains(&Move::new(12, 28, Move::DOUBLE_PAWN_PUSH)));
}

#[test]
fn sliders_stop_at_the_first_piece() {
    // A rook on a1, an own pawn on a4, an enemy knight on d1.
    let moves = pseudo_moves(&position("4k3/8/8/8/P6p/8/8/R2nK3 w - - 0 1"));
    let rook: Vec<Move> = moves.iter().copied().filter(|m| m.get_from() == 0).collect();
    assert_eq!(
        rook,
        vec![
            Move::new(0, 8, Move::QUIET_MOVE),
            Move::new(0, 16, Move::QUIET_MOVE),
            Move::new(0, 3, Move::CAPTURE),
            Move::new(0, 1, Move::QUIET_MOVE),
            Move::new(0, 2, Move::QUIET_MOVE),
        ]
    );
}

#[test]
fn check_and_legality() {
    let generator = MoveGenerator::new();
    let start = position(START);
    assert!(!generator.is_check(&start));
    assert!(generator.was_move_legal(&start));
    let mated = position("8/8/8/8/8/8/5KQ1/7k b - - 0 1");
    assert!(generator.is_check(&mated));
    // White to move with the black king attacked: black's last move was illegal.
    let illegal = position("8/8/8/8/8/8/5KQ1/7k w - - 0 1");
    assert!(!generator.was_move_legal(&illegal));
    assert!(!generator.is_playable(&illegal));
    assert!(generator.is_playable(&start));
}

#[test]
fn attacks_of_each_kind_of_piece() {
    let generator = MoveGenerator::new();
    let state = position("4k3/8/8/8/8/2n5/1P6/R3K3 w - - 0 1");
    // The pawn on b2 attacks a3 and c3, not b3.
    assert!(generator.is_square_attacked(&state, Square(16), Color::White));
    assert!(generator.is_square_attacked(&state, Square(18), Color::White));
    assert!(!generator.is_square_attacked(&state, Square(17), Color::White));
    // The rook on a1 attacks along the first rank up to the king and up the file.
    assert!(generator.is_square_attacked(&state, Square(3), Color::White));
    assert!(generator.is_square_attacked(&state, Square(56), Color::White));
    assert!(!generator.is_square_attacked(&state, Square(7), Color::White));
    // The knight on c3 attacks a2, e2, b1 and d1 among others.
    assert!(generator.is_square_attacked(&state, Square(8), Color::Black));
    assert!(generator.is_square_attacked(&state, Square(12), Color::Black));
    assert!(generator.is_square_attacked(&state, Square(1), Color::Black));
    assert!(!generator.is_square_attacked(&state, Square(2), Color::Black));
    // The king on e8 attacks d7.
    assert!(generator.is_square_attacked(&state, Square(51), Color::Black));
    assert!(!generator.is_square_attacked(&state, Square(43), Color::Black));
}

fn attacked_by_enumeration(state: &GameState, square: u8, by: Color) -> bool {
    let mut view = *state;
    view.flags.set_active_color(by);
    view.en_passant = 0;
    pseudo_moves(&view).iter().any(|m| m.get_to() == square && m.is_capture() && !m.is_en_passant())
}

#[test]
fn attack_detection_agrees_with_move_enumeration() {
    let generator = MoveGenerator::new();
    let fens = [
        START,
        KIWIPETE,
        ENDGAME,
        "r1bqk1nr/pppp1ppp/2B5/4p2Q/4P3/8/PPPP1bPP/RNB1K1NR w KQkq - 0 5",
        "4k3/8/8/3pP3/8/8/8/4K3 w - d6 0 1",
        "k7/pp5r/6P1/3p4/4P3/8/6PP/7K w - - 0 1",
        "rnbq1rk1/pp2ppbp/3p1np1/2p5/2P1P3/2N2N2/PP1PBPPP/R1BQ1RK1 b - - 0 7",
    ];
    for fen in fens {
        let state = position(fen);
        for by in [Color::White, Color::Black] {
            let defenders = match by {
                Color::White => state.boards.black.union(),
                Color::Black => state.boards.white.union(),
            };
            for square in 0..64u8 {
                if defenders & (1u64 << square) == 0 {
                    continue;
                }
                assert_eq!(
                    generator.is_square_attacked(&state, Square(square), by),
                    attacked_by_enumeration(&state, square, by),
                    "{} square {} by {:?}",
                    fen,
                    square,
                    by
                );
            }
        }
    }
}

#[test]
fn en_passant_does_not_count_as_an_attack_on_its_target() {
    // White can capture the d5 pawn en passant on d6. The square d6 is empty and
    // attacked by the e5 pawn; the pawn on d5 itself is not attacked by it.
    let generator = MoveGenerator::new();
    let state = position("4k3/8/8/3pP3/8/8/8/4K3 w - d6 0 1");
    assert!(generator.is_square_attacked(&state, Square(43), Color::White));
    assert!(!generator.is_square_attacked(&state, Square(35), Color::White));
    // A rook behind the two pawns: taking en passant would open the rank on the
    // white king. The move is generated and then found illegal once it is made.
    let pinned = position("8/8/8/K2pP2r/8/8/8/4k3 w - d6 0 1");
    let moves = pseudo_moves(&pinned);
    let capture = Move::new(36, 43, Move::EN_PASSANT);
    assert!(moves.contains(&capture));
    let mut make_unmaker = chess_engine::make_unmake::MakeUnmaker::new(pinned);
    make_unmaker.make_move(capture);
    assert!(!generator.was_move_legal(&make_unmaker.state));
    make_unmaker.unmake_move(capture);
    assert_eq!(make_unmaker.state, pinned);
}
