use chess_engine::chess_board::PieceType;
use chess_engine::color::Color;
use chess_engine::game_state::GameState;
use chess_engine::make_unmake::MakeUnmaker;
use chess_engine::move_generator::MoveGenerator;
use chess_engine::move_list::MoveList;
use chess_engine::moves::{Move, MoveExt};

#[test]
fn make_unmake_test_make_unmake_move() {
    let fens = [
        "rnbqkbnr/pppppppp/8/8/8/8/PPPPPPPP/RNBQKBNR w KQkq - 0 1",
        "r3k2r/p1ppqpb1/bn2pnp1/3PN3/1p2P3/2N2Q1p/PPPBBPPP/R3K2R w KQkq - 0 1",
        "8/2p5/3p4/KP5r/1R3p1k/8/4P1P1/8 w - - 0 1",
    ];
    let move_gen = &MoveGenerator::new();
    for fen in fens {
        let state = GameState::from_fen(fen.to_string()).unwrap();
        let make_unmaker = &mut MakeUnmaker::new(state);
        recursize_test_make_unmake_move(move_gen, make_unmaker, &mut MoveList::new(), 3);
    }
}

#[test]
fn test_make_unmake_move() {
    let fens = [
        "rnbqkbnr/pppppppp/8/8/8/8/PPPPPPPP/RNBQKBNR w KQkq - 0 1",
        "r3k2r/p1ppqpb1/bn2pnp1/3PN3/1p2P3/2N2Q1p/PPPBBPPP/R3K2R w KQkq - 0 1",
        "8/2p5/3p4/KP5r/1R3p1k/8/4P1P1/8 w - - 0 1",
    ];
    let move_gen = &MoveGenerator::new();
    for fen in fens {
        let state = GameState::from_fen(fen.to_string()).unwrap();
        let make_unmaker = &mut MakeUnmaker::new(state);
        let move_list = &mut MoveList::new();
        recursize_test_make_unmake_move(move_gen, make_unmaker, move_list, 3);
        assert_eq!(make_unmaker.state, state);
        assert_eq!(move_list.get_ply_number(), 0);
    }
}

fn recursize_test_make_unmake_move(
    move_gen: &MoveGenerator,
    make_unmaker: &mut MakeUnmaker,
    move_list: &mut MoveList,
    depth: u8,
) {
    if depth == 0 {
        return;
    }
    move_list.new_ply();
    move_gen.get_pseudo_legal_moves(&make_unmaker.state, move_list);
    let current_ply = move_list.get_ply_number();
    let ply_size = move_list.get_ply_size(current_ply);

    for i in 0..ply_size {
        let m = move_list.get_move(current_ply, i);

        let earlier_gs = make_unmaker.state;
        make_unmaker.make_move(m);

        if move_gen.was_move_legal(&make_unmaker.state) {
            let moved_gs = make_unmaker.state;
            assert_eq!(
                make_unmaker.zobrist_hash,
                moved_gs.hash(&make_unmaker.zobrist_numbers),
                "Move: {}\nBoard: {:?}",
                m.to_pretty_string(),
                earlier_gs
            );
            recursize_test_make_unmake_move(move_gen, make_unmaker, move_list, depth - 1);
            make_unmaker.unmake_move(m);
            assert_eq!(
                earlier_gs,
                make_unmaker.state,
                "\nMove: {}\nMade move: {:?}",
                m.to_pretty_string(),
                moved_gs
            );
            assert_eq!(
                earlier_gs.hash(&make_unmaker.zobrist_numbers),
                make_unmaker.zobrist_hash,
                "\nMove: {}\nMade move: {:?}",
                m.to_pretty_string(),
                moved_gs
            );
        } else {
            make_unmaker.unmake_move(m);
        }
    }
    move_list.drop_current_ply();
}

fn after(fen: &str, m: Move) -> MakeUnmaker {
    let mut make_unmaker = MakeUnmaker::new(GameState::from_fen(fen.to_string()).unwrap());
    make_unmaker.make_move(m);
    make_unmaker
}

#[test]
fn a_double_push_sets_the_square_passed_over() {
    let mu = after(
        "rnbqkbnr/pppppppp/8/8/8/8/PPPPPPPP/RNBQKBNR w KQkq - 0 1",
        Move::new(12, 28, Move::DOUBLE_PAWN_PUSH),
    );
    assert_eq!(mu.state.en_passant, 1 << 20);
    assert_eq!(mu.state.halfmove, 1);
    assert_eq!(mu.state.flags.active_color(), Color::Black);
    assert_eq!(mu.state.boards.white.pawn, 0xff00 & !(1 << 12) | (1 << 28));
    assert_eq!(mu.state.to_fen(), "rnbqkbnr/pppppppp/8/8/4P3/8/PPPP1PPP/RNBQKBNR b KQkq e3 1 1");
    assert_eq!(mu.zobrist_hash, mu.state.hash(&mu.zobrist_numbers));
    assert_eq!(mu.depth(), 1);
}

#[test]
fn castling_moves_king_and_rook_and_clears_both_rights() {
    let fen = "r3k2r/8/8/8/8/8/8/R3K2R w KQkq e6 5 1";
    let mut mu = after(fen, Move::new(4, 6, Move::KING_CASTLE));
    assert_eq!(mu.state.to_fen(), "r3k2r/8/8/8/8/8/8/R4RK1 b kq - 6 1");
    assert_eq!(mu.zobrist_hash, mu.state.hash(&mu.zobrist_numbers));
    mu.unmake_move(Move::new(4, 6, Move::KING_CASTLE));
    assert_eq!(mu.state.to_fen(), fen);
    assert_eq!(mu.zobrist_hash, mu.state.hash(&mu.zobrist_numbers));
    let mu = after(fen, Move::new(4, 2, Move::QUEEN_CASTLE));
    assert_eq!(mu.state.to_fen(), "r3k2r/8/8/8/8/8/8/2KR3R b kq - 6 1");
    let black = "r3k2r/8/8/8/8/8/8/R3K2R b KQkq - 0 1";
    let mu = after(black, Move::new(60, 62, Move::KING_CASTLE));
    assert_eq!(mu.state.to_fen(), "r4rk1/8/8/8/8/8/8/R3K2R w KQ - 1 1");
    let mu = after(black, Move::new(60, 58, Move::QUEEN_CASTLE));
    assert_eq!(mu.state.to_fen(), "2kr3r/8/8/8/8/8/8/R3K2R w KQ - 1 1");
}

#[test]
fn rights_go_when_a_rook_moves_or_is_captured() {
    let fen = "r3k2r/8/8/8/8/8/8/R3K2R w KQkq - 0 1";
    let mu = after(fen, Move::new(7, 15, Move::QUIET_MOVE));
    assert_eq!(mu.state.to_fen(), "r3k2r/8/8/8/8/8/7R/R3K3 b Qkq - 1 1");
    let mu = after(fen, Move::new(0, 56, Move::CAPTURE));
    assert_eq!(mu.state.to_fen(), "R3k2r/8/8/8/8/8/8/4K2R b Kk - 1 1");
    assert_eq!(mu.zobrist_hash, mu.state.hash(&mu.zobrist_numbers));
    let mu = after(fen, Move::new(7, 63, Move::CAPTURE));
    assert_eq!(mu.state.to_fen(), "r3k2R/8/8/8/8/8/8/R3K3 b Qq - 1 1");
    let mu = after(fen, Move::new(4, 12, Move::QUIET_MOVE));
    assert_eq!(mu.state.to_fen(), "r3k2r/8/8/8/8/8/4K3/R6R b kq - 1 1");
}

#[test]
fn en_passant_takes_the_pawn_behind_the_target() {
    let fen = "4k3/8/8/3pP3/8/8/8/4K3 w - d6 0 1";
    let capture = Move::new(36, 43, Move::EN_PASSANT);
    let mut mu = after(fen, capture);
    assert_eq!(mu.state.to_fen(), "4k3/8/3P4/8/8/8/8/4K3 b - - 1 1");
    assert_eq!(mu.zobrist_hash, mu.state.hash(&mu.zobrist_numbers));
    mu.unmake_move(capture);
    assert_eq!(mu.state.to_fen(), fen);
    assert_eq!(mu.zobrist_hash, mu.state.hash(&mu.zobrist_numbers));
    let black = "4k3/8/8/8/3pP3/8/8/4K3 b - e3 0 1";
    let capture = Move::new(27, 20, Move::EN_PASSANT);
    let mut mu = after(black, capture);
    assert_eq!(mu.state.to_fen(), "4k3/8/8/8/8/4p3/8/4K3 w - - 1 1");
    mu.unmake_move(capture);
    assert_eq!(mu.state.to_fen(), black);
}

#[test]
fn promotions_replace_the_pawn() {
    let fen = "2n1k3/1P6/8/8/8/8/8/4K3 w - - 0 1";
    let push = Move::new(49, 57, Move::KNIGHT_PROMOTION);
    let mut mu = after(fen, push);
    assert_eq!(mu.state.to_fen(), "1Nn1k3/8/8/8/8/8/8/4K3 b - - 1 1");
    assert_eq!(mu.zobrist_hash, mu.state.hash(&mu.zobrist_numbers));
    mu.unmake_move(push);
    assert_eq!(mu.state.to_fen(), fen);
    let capture = Move::new(49, 58, Move::QUEEN_PROMOTION_CAPTURE);
    let mut mu = after(fen, capture);
    assert_eq!(mu.state.to_fen(), "2Q1k3/8/8/8/8/8/8/4K3 b - - 1 1");
    assert_eq!(mu.state.boards.black.knight, 0);
    mu.unmake_move(capture);
    assert_eq!(mu.state.to_fen(), fen);
    assert_eq!(mu.state.boards.black.get(PieceType::Knight), 1 << 58);
    assert_eq!(mu.zobrist_hash, mu.state.hash(&mu.zobrist_numbers));
    assert_eq!(mu.depth(), 0);
}

#[test]
fn the_hash_tells_positions_apart() {
    let start = GameState::from_fen(
        "rnbqkbnr/pppppppp/8/8/8/8/PPPPPPPP/RNBQKBNR w KQkq - 0 1".to_string(),
    )
    .unwrap();
    let mu = MakeUnmaker::new(start);
    let z = &mu.zobrist_numbers;
    let mut black_to_move = start;
    black_to_move.flags.toggle_active_color();
    assert_eq!(start.hash(z) ^ black_to_move.hash(z), z.active_color);
    let mut no_right = start;
    no_right.flags.toggle_white_king_castle();
    assert_eq!(start.hash(z) ^ no_right.hash(z), z.castling.white_king_side);
    let mut with_target = start;
    with_target.en_passant = 1 << 20;
    assert_eq!(start.hash(z) ^ with_target.hash(z), z.en_passant_file[4]);
    let mut fewer = start;
    fewer.boards.white.pawn &= !(1 << 8);
    assert_eq!(start.hash(z) ^ fewer.hash(z), z.board.white.pawn[8]);
    // The halfmove clock is no part of the hash.
    let mut later = start;
    later.halfmove = 40;
    assert_eq!(start.hash(z), later.hash(z));
}
