use chess_engine::moves::{Move, MoveExt};
use chess_engine::transposition_table::{TranspositionTable, TtEntry, TABLE_SIZE};
use chess_engine::zobrist_numbers::{ZobristNumbers, SEED};
use rand::{Rng, SeedableRng};
use rand_chacha::ChaCha20Rng;

#[test]
fn a_stored_entry_is_found_under_its_hash() {
    let mut table = TranspositionTable::new();
    assert!(table.get(42).is_none());
    assert!(table.get(0).is_none());
    let entry = TtEntry { hash: 42, depth: 3, score: -17, best_move: Move::new(12, 28, Move::CAPTURE) };
    table.store(entry);
    assert_eq!(table.get(42), Some(&entry));
    assert!(table.get(43).is_none());
}

#[test]
fn another_hash_of_the_same_slot_replaces() {
    let mut table = TranspositionTable::new();
    let h = 7u64;
    let h2 = h + TABLE_SIZE as u64;
    let first = TtEntry { hash: h, depth: 9, score: 100, best_move: 1 };
    let second = TtEntry { hash: h2, depth: 1, score: -5, best_move: 2 };
    table.store(first);
    assert!(table.get(h2).is_none());
    table.store(second);
    assert!(table.get(h).is_none());
    assert_eq!(table.get(h2), Some(&second));
    // The deeper entry does not survive: a store always replaces.
    table.store(first);
    assert_eq!(table.get(h), Some(&first));
    // The highest slot is in reach.
    let last = TtEntry { hash: u64::MAX, depth: 0, score: 0, best_move: 0 };
    table.store(last);
    assert_eq!(table.get(u64::MAX), Some(&last));
    assert_eq!(table.get(h), Some(&first));
}

#[test]
fn the_zobrist_numbers_are_the_draws_of_the_seeded_generator() {
    let z = ZobristNumbers::new();
    let mut rng = ChaCha20Rng::seed_from_u64(SEED);
    for i in 0..64 {
        assert_eq!(z.board.white.pawn[i], rng.gen::<u64>());
        assert_eq!(z.board.white.knight[i], rng.gen::<u64>());
        assert_eq!(z.board.white.bishop[i], rng.gen::<u64>());
        assert_eq!(z.board.white.rook[i], rng.gen::<u64>());
        assert_eq!(z.board.white.queen[i], rng.gen::<u64>());
        assert_eq!(z.board.white.king[i], rng.gen::<u64>());
        assert_eq!(z.board.black.pawn[i], rng.gen::<u64>());
        assert_eq!(z.board.black.knight[i], rng.gen::<u64>());
        assert_eq!(z.board.black.bishop[i], rng.gen::<u64>());
        assert_eq!(z.board.black.rook[i], rng.gen::<u64>());
        assert_eq!(z.board.black.queen[i], rng.gen::<u64>());
        assert_eq!(z.board.black.king[i], rng.gen::<u64>());
    }
    assert_eq!(z.active_color, rng.gen::<u64>());
    assert_eq!(z.castling.white_king_side, rng.gen::<u64>());
    assert_eq!(z.castling.white_queen_side, rng.gen::<u64>());
    assert_eq!(z.castling.black_king_side, rng.gen::<u64>());
    assert_eq!(z.castling.black_queen_side, rng.gen::<u64>());
    for f in 0..8 {
        assert_eq!(z.en_passant_file[f], rng.gen::<u64>());
    }
}

#[test]
fn the_zobrist_numbers_differ_from_each_other_and_from_the_seed() {
    let z = ZobristNumbers::new();
    assert_ne!(z.active_color, SEED);
    assert_ne!(z.board.white.pawn[0], z.board.white.pawn[1]);
    assert_ne!(z.board.white.pawn[0], z.board.black.pawn[0]);
    assert_ne!(z.castling.white_king_side, z.castling.black_king_side);
    let tables = z.board.white.as_array();
    assert_eq!(tables[0], z.board.white.pawn);
    assert_eq!(tables[5], z.board.white.king);
    let again = ZobristNumbers::new();
    assert_eq!(again.active_color, z.active_color);
    assert_eq!(again.en_passant_file, z.en_passant_file);
}
