use chess_engine::bitboard::{BitBoard, BitBoardExt};
use chess_engine::chess_board::ChessBoard;
use chess_engine::color::Color;
use chess_engine::fen::FenError;
use chess_engine::flags::StateFlags;
use chess_engine::game_state::GameState;
use chess_engine::square::{CastleSide, Square, SquareFinder};
use chess_engine::chess_board::PieceType;

#[test]
fn test_from_fen() {
    let fen = "rnbqkbnr/pppppppp/8/8/8/8/PPPPPPPP/RNBQKBNR w KQkq - 0 1".to_string();
    let gs = GameState::from_fen(fen).unwrap();
    assert_eq!(gs.boards.white.pawn, <BitBoard as BitBoardExt>::row(1));
    assert_eq!(gs.boards.white.knight, 0b0100_0010);
    assert_eq!(gs.halfmove, 0);
    assert_eq!(gs.flags.active_color(), Color::White);
    assert!(
        gs.flags.white_king_castle_right()
            && gs.flags.white_queen_castle_right()
            && gs.flags.black_king_castle_right()
            && gs.flags.black_queen_castle_right()
    );
}

#[test]
fn test_to_fen() {
    let fens = [
        "rnbqkbnr/pppppppp/8/8/8/8/PPPPPPPP/RNBQKBNR w KQkq - 0 1",
        "rnbqkbnr/pppppppp/4p3/8/8/8/PPPPPPPP/RNBQKBNR b KQkq - 0 1",
        "rnbqkbnr/pppppppp/8/8/8/8/PPPPPPPP/RNBQKBNR w kq e3 0 1",
        "rnbqkbnr/pppppppp/8/8/8/8/PPPPPPPP/RNBQKBNR b Kq e3 0 1",
    ];
    for fen in fens {
        let gs = GameState::from_fen(fen.to_string()).unwrap();
        assert_eq!(gs.to_fen(), fen);
    }
}

#[test]
fn every_board_of_the_starting_position() {
    let gs = GameState::from_fen(
        "rnbqkbnr/pppppppp/8/8/8/8/PPPPPPPP/RNBQKBNR w KQkq - 0 1".to_string(),
    )
    .unwrap();
    assert_eq!(gs.boards.white.rook, 0x81);
    assert_eq!(gs.boards.white.bishop, 0x24);
    assert_eq!(gs.boards.white.queen, 0x08);
    assert_eq!(gs.boards.white.king, 0x10);
    assert_eq!(gs.boards.black.pawn, 0x00ff_0000_0000_0000);
    assert_eq!(gs.boards.black.king, 0x1000_0000_0000_0000);
    assert_eq!(gs.boards.black.union(), 0xffff_0000_0000_0000);
    assert_eq!(gs.en_passant, 0);
    assert!(gs.is_well_formed());
}

#[test]
fn the_halfmove_clock_is_optional_and_at_most_255() {
    let board = "4k3/8/8/8/8/8/8/4K3 w - -";
    assert_eq!(GameState::from_fen(board.to_string()).unwrap().halfmove, 0);
    assert_eq!(GameState::from_fen(format!("{} 17 9", board)).unwrap().halfmove, 17);
    assert_eq!(GameState::from_fen(format!("{} +255", board)).unwrap().halfmove, 255);
    assert_eq!(GameState::from_fen(format!("{} 007", board)).unwrap().halfmove, 7);
    assert_eq!(GameState::from_fen(format!("{} 256", board)), Err(FenError::HalfMove));
    assert_eq!(GameState::from_fen(format!("{} -1", board)), Err(FenError::HalfMove));
    assert_eq!(GameState::from_fen(format!("{} x", board)), Err(FenError::HalfMove));
    assert_eq!(GameState::from_fen(format!("{} +", board)), Err(FenError::HalfMove));
    let late = GameState::from_fen(format!("{} 200", board)).unwrap();
    assert_eq!(late.to_fen(), "4k3/8/8/8/8/8/8/4K3 w - - 200 1");
}

#[test]
fn each_bad_field_is_named() {
    assert_eq!(GameState::from_fen("".to_string()), Err(FenError::MissingField));
    assert_eq!(GameState::from_fen("8/8 w -".to_string()), Err(FenError::MissingField));
    assert_eq!(
        GameState::from_fen("4k3/8/8/8/8/8/8/4X3 w - - 0 1".to_string()),
        Err(FenError::Board)
    );
    assert_eq!(
        GameState::from_fen("4k3/8/8/8/8/8/8/8/4K3 w - - 0 1".to_string()),
        Err(FenError::Board)
    );
    assert_eq!(
        GameState::from_fen("4k3/8/8/8/8/8/8/4K3 x - - 0 1".to_string()),
        Err(FenError::ActiveColor)
    );
    assert_eq!(
        GameState::from_fen("4k3/8/8/8/8/8/8/4K3 w - e9 0 1".to_string()),
        Err(FenError::EnPassant)
    );
    assert_eq!(
        GameState::from_fen("4k3/8/8/8/8/8/8/4K3 w - e 0 1".to_string()),
        Err(FenError::EnPassant)
    );
    assert_eq!(FenError::Board.message(), "FEN: invalid piece placement");
    // The first bad field decides.
    assert_eq!(
        GameState::from_fen("4k3/8/8/8/8/8/8/4X3 x - e9 z".to_string()),
        Err(FenError::Board)
    );
}

#[test]
fn fields_may_be_parted_by_any_white_space() {
    let gs = GameState::from_fen("  4k3/8/8/8/8/8/8/4K3\tb \n Kq  e3   12  ".to_string()).unwrap();
    assert_eq!(gs.flags.active_color(), Color::Black);
    assert!(gs.flags.white_king_castle_right());
    assert!(!gs.flags.white_queen_castle_right());
    assert!(!gs.flags.black_king_castle_right());
    assert!(gs.flags.black_queen_castle_right());
    assert_eq!(gs.en_passant, 1 << 20);
    assert_eq!(gs.halfmove, 12);
}

#[test]
fn short_ranks_are_read_from_the_a_file() {
    let board = ChessBoard::from_fen("8/8/8/8/8/8/qQ/5k1K").unwrap();
    assert_eq!(board.black.queen, 1 << 8);
    assert_eq!(board.white.queen, 1 << 9);
    assert_eq!(board.black.king, 1 << 5);
    assert_eq!(board.white.king, 1 << 7);
    assert_eq!(board.to_fen(), "8/8/8/8/8/8/qQ6/5k1K");
    assert_eq!(ChessBoard::from_fen("9/8"), Ok(ChessBoard::from_fen("8/8").unwrap()));
    // A rank that is too long runs on into the rank above.
    assert_eq!(ChessBoard::from_fen("8/7PP").unwrap().white.pawn, (1 << 7) | (1 << 8));
    assert_eq!(ChessBoard::from_fen("1P6/8/8/8/8/8/8/8/8"), Err(FenError::Board));
}

#[test]
fn flags_to_and_from_text() {
    let flags = StateFlags::from_fen('b', "Qk").unwrap();
    assert_eq!(flags.active_color(), Color::Black);
    assert_eq!(flags.to_fen(), "b Qk");
    assert_eq!(StateFlags::from_fen('w', "-").unwrap().to_fen(), "w -");
    assert_eq!(StateFlags::from_fen('w', "qkQK").unwrap().to_fen(), "w KQkq");
    assert_eq!(StateFlags::from_fen('W', "KQkq"), Err(FenError::ActiveColor));
    assert_eq!(StateFlags::new().to_fen(), "w KQkq");
    let mut toggled = StateFlags::new();
    toggled.toggle_white_king_castle();
    toggled.toggle_black_queen_castle();
    toggled.toggle_active_color();
    assert_eq!(toggled.to_fen(), "b Qk");
    toggled.toggle_white_queen_castle();
    toggled.toggle_black_king_castle();
    assert_eq!(toggled.to_fen(), "b -");
    let diff = StateFlags::new().xor(toggled);
    assert!(diff.white_king_castle_right() && diff.black_queen_castle_right());
    assert_eq!(diff.active_color(), Color::Black);
}

#[test]
fn ill_formed_positions_are_told() {
    let no_king = GameState::from_fen("8/8/8/8/8/8/8/4K3 w - - 0 1".to_string()).unwrap();
    assert!(!no_king.is_well_formed());
    let no_rook = GameState::from_fen("4k3/8/8/8/8/8/8/4K3 w K - 0 1".to_string()).unwrap();
    assert!(!no_rook.is_well_formed());
    let stray_target =
        GameState::from_fen("rnbqkbnr/pppppppp/8/8/8/8/PPPPPPPP/RNBQKBNR w kq e3 0 1".to_string())
            .unwrap();
    assert!(!stray_target.is_well_formed());
    let target =
        GameState::from_fen("rnbqkbnr/pppppppp/8/8/4P3/8/PPPP1PPP/RNBQKBNR b KQkq e3 0 1".to_string())
            .unwrap();
    assert!(target.is_well_formed());
    let mut doubled = target;
    doubled.boards.black.pawn |= 1 << 28;
    assert!(!doubled.is_well_formed());
}

#[test]
fn squares_and_home_squares() {
    assert_eq!(Square::new(2, 4), Square(20));
    assert_eq!(Square(20).rank(), 2);
    assert_eq!(Square(20).file(), 4);
    assert_eq!(Square(20).mirror(), Square(44));
    assert_eq!(Square::from_bits(9).into_bits(), 9);
    assert_eq!(Square(20).to_string(), "e3");
    assert_eq!(Square::try_from("h8"), Ok(Square(63)));
    assert_eq!(Square::try_from("a1"), Ok(Square(0)));
    assert!(Square::try_from("i1").is_err());
    assert!(Square::try_from("a0").is_err());
    assert!(Square::try_from("a").is_err());
    let all = Square::iter();
    assert_eq!(all.len(), 64);
    assert_eq!(all[0], Square(0));
    assert_eq!(all[63], Square(63));
    let white = SquareFinder(Color::White);
    let black = SquareFinder(Color::Black);
    assert_eq!(white.source(PieceType::King), Square(4));
    assert_eq!(black.source(PieceType::King), Square(60));
    assert_eq!(black.source(PieceType::Queen), Square(59));
    assert_eq!(white.castle_target(CastleSide::King), Square(6));
    assert_eq!(black.castle_target(CastleSide::Queen), Square(58));
    assert_eq!(black.castle_check(CastleSide::King), [Square(60), Square(61), Square(62)]);
    assert_eq!(PieceType::Knight.as_char(), 'N');
    assert_eq!(Color::White.opposite(), Color::Black);
    assert_eq!(Color::from_char('b'), Some(Color::Black));
    assert_eq!(Color::from_char('x'), None);
    assert_eq!(Color::Black.to_char(), 'b');
}
