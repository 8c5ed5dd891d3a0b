use chess_engine::move_list::{AddMove, MoveList};
use chess_engine::moves::{Move, MoveExt};

#[test]
fn test_move_list() {
    let first_ply_moves = [
        Move::new(0, 1, Move::QUIET_MOVE),
        Move::new(0, 2, Move::QUIET_MOVE),
        Move::new(0, 3, Move::QUIET_MOVE),
    ];
    let second_ply_moves = [
        Move::new(0, 4, Move::QUIET_MOVE),
        Move::new(0, 5, Move::CAPTURE),
        Move::new(0, 6, Move::QUIET_MOVE),
    ];

    let mut move_list = MoveList::new();
    move_list.new_ply();
    for m in first_ply_moves {
        move_list.add_move_to_ply(m);
    }
    assert_eq!(move_list.get_current_ply(), &first_ply_moves);
    assert_eq!(move_list.get_move(1, 0), first_ply_moves[0]);
    assert_eq!(move_list.get_ply_number(), 1);
    assert_eq!(move_list.total_count(), 3);

    move_list.new_ply();
    for m in second_ply_moves {
        move_list.add_move_to_ply(m);
    }
    assert_eq!(move_list.get_current_ply(), &second_ply_moves);
    assert_eq!(move_list.get_move(2, 0), second_ply_moves[0]);
    assert_eq!(move_list.get_ply_number(), 2);
    assert_eq!(move_list.total_count(), 6);

    move_list.order_ply(Some(second_ply_moves[2]));
    assert_eq!(
        move_list.get_current_ply(),
        &[second_ply_moves[2], second_ply_moves[1], second_ply_moves[0]]
    );

    move_list.drop_current_ply();
    assert_eq!(move_list.get_current_ply(), &first_ply_moves);
    assert_eq!(move_list.get_ply_number(), 1);
    assert_eq!(move_list.total_count(), 3);
}

#[test]
fn ply_sizes_and_moves_by_index() {
    let mut list = MoveList::new();
    assert_eq!(list.get_ply_number(), 0);
    list.new_ply();
    list.add_move_to_ply(Move::new(8, 16, Move::QUIET_MOVE));
    list.new_ply();
    assert_eq!(list.get_ply_size(1), 1);
    assert_eq!(list.get_ply_size(2), 0);
    list.add_move_to_ply(Move::new(9, 17, Move::CAPTURE));
    list.add_move_to_ply(Move::new(9, 25, Move::DOUBLE_PAWN_PUSH));
    assert_eq!(list.get_ply_size(2), 2);
    assert_eq!(list.get_move(2, 1), Move::new(9, 25, Move::DOUBLE_PAWN_PUSH));
    assert_eq!(list.get_move(1, 0), Move::new(8, 16, Move::QUIET_MOVE));
}

#[test]
fn order_ply_puts_loud_moves_before_quiet_ones() {
    let quiet = Move::new(1, 2, Move::QUIET_MOVE);
    let castle = Move::new(4, 6, Move::KING_CASTLE);
    let capture = Move::new(3, 4, Move::CAPTURE);
    let promotion = Move::new(48, 56, Move::QUEEN_PROMOTION);
    let mut list = MoveList::new();
    list.new_ply();
    for m in [quiet, castle, capture, promotion] {
        list.add_move_to_ply(m);
    }
    list.order_ply(None);
    assert_eq!(list.get_current_ply(), &[castle, capture, promotion, quiet]);
    // A first move that the ply does not hold changes nothing.
    list.order_ply(Some(Move::new(60, 61, Move::QUIET_MOVE)));
    assert_eq!(list.get_current_ply(), &[castle, capture, promotion, quiet]);
    list.order_ply(Some(quiet));
    assert_eq!(list.get_current_ply(), &[quiet, capture, promotion, castle]);
}

#[test]
fn order_ply_puts_a_castle_before_a_quiet_move() {
    let quiet = Move::new(12, 20, Move::QUIET_MOVE);
    let castle = Move::new(4, 6, Move::KING_CASTLE);
    let mut list = MoveList::new();
    list.new_ply();
    list.add_move_to_ply(quiet);
    list.add_move_to_ply(castle);
    list.order_ply(None);
    assert_eq!(list.get_current_ply(), &[castle, quiet]);
    let mut list = MoveList::new();
    list.new_ply();
    list.add_move_to_ply(Move::new(12, 28, Move::DOUBLE_PAWN_PUSH));
    list.add_move_to_ply(Move::new(4, 2, Move::QUEEN_CASTLE));
    list.order_ply(None);
    assert_eq!(
        list.get_current_ply(),
        &[Move::new(4, 2, Move::QUEEN_CASTLE), Move::new(12, 28, Move::DOUBLE_PAWN_PUSH)]
    );
}

#[test]
fn a_vector_collects_moves_too() {
    let mut moves: Vec<Move> = Vec::new();
    moves.add_move_to_ply(Move::new(1, 2, Move::QUIET_MOVE));
    moves.add_move_to_ply(Move::new(3, 4, Move::CAPTURE));
    assert_eq!(moves, vec![Move::new(1, 2, Move::QUIET_MOVE), Move::new(3, 4, Move::CAPTURE)]);
}

#[test]
fn move_fields_and_predicates() {
    let m = Move::new(12, 28, Move::DOUBLE_PAWN_PUSH);
    assert_eq!(m.get_from(), 12);
    assert_eq!(m.get_to(), 28);
    assert!(m.is_quiet());
    assert!(!m.is_capture());
    assert!(!m.is_promotion());
    assert!(!m.is_castle());
    let c = Move::new(52, 61, Move::ROOK_PROMOTION_CAPTURE);
    assert!(c.is_capture() && c.is_promotion() && !c.is_quiet());
    assert_eq!(c.capture_promotion_to_promotion(), Move::ROOK_PROMOTION);
    assert!(Move::new(36, 43, Move::EN_PASSANT).is_en_passant());
    assert!(Move::new(4, 2, Move::QUEEN_CASTLE).is_castle());
    assert_eq!(Move::new(12, 28, Move::QUIET_MOVE), 12 | (28 << 6));
}

#[test]
fn move_texts() {
    let m = Move::new(12, 28, Move::DOUBLE_PAWN_PUSH);
    assert_eq!(m.to_perft_string(), "e2e4");
    let p = Move::new(48, 57, Move::QUEEN_PROMOTION_CAPTURE);
    assert_eq!(p.to_perft_string(), "a7b8Q");
    assert!(p.matches_perft_string("a7b8q"));
    assert!(p.matches_perft_string("A7B8Q"));
    assert!(!p.matches_perft_string("a7b8"));
    assert!(!p.matches_perft_string("a7b8r"));
    assert_eq!(m.to_pretty_string(), "Move e2e4 with flag DOUBLE_PAWN_PUSH");
    assert_eq!(Move::new(0, 1, 0xe000).to_pretty_string(), "Move a1b1 with flag UNKNOWN");
    let moves = [m, p, Move::new(48, 57, Move::ROOK_PROMOTION_CAPTURE)];
    assert_eq!(<Move as MoveExt>::from_perft_string("a7b8q", &moves), p);
    assert_eq!(<Move as MoveExt>::from_perft_string("a7b8R", &moves), moves[2]);
}
