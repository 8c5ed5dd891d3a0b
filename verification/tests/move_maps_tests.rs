use chess_engine::bitboard::BitBoardExt;
use chess_engine::move_maps::MoveMaps;
use chess_engine::square::Square;

#[test]
fn move_maps_print_all() {
    let move_maps = MoveMaps::new();
    let index = Square(8);
    println!("knight:\n{}\n", move_maps.knight.get(index).to_pretty_string());
    println!("king:\n{}\n", move_maps.king.get(index).to_pretty_string());
    println!("ne_diagonal:\n{}\n", move_maps.ne_diagonal.get(index).to_pretty_string());
    println!("nw_diagonal:\n{}\n", move_maps.nw_diagonal.get(index).to_pretty_string());
    println!("sw_diagonal:\n{}\n", move_maps.sw_diagonal.get(index).to_pretty_string());
    println!("se_diagonal:\n{}\n", move_maps.se_diagonal.get(index).to_pretty_string());
    println!("e_rank:\n{}\n", move_maps.e_rank.get(index).to_pretty_string());
    println!("w_rank:\n{}\n", move_maps.w_rank.get(index).to_pretty_string());
    println!("n_file:\n{}\n", move_maps.n_file.get(index).to_pretty_string());
    println!("s_file:\n{}\n", move_maps.s_file.get(index).to_pretty_string());
}

#[test]
fn print_all() {
    let move_maps = MoveMaps::new();
    let index = 8;
    println!("knight:\n{}\n", move_maps.knight.at(index).to_pretty_string());
    println!("king:\n{}\n", move_maps.king.at(index).to_pretty_string());
    println!("ne_diagonal:\n{}\n", move_maps.ne_diagonal.at(index).to_pretty_string());
    println!("nw_diagonal:\n{}\n", move_maps.nw_diagonal.at(index).to_pretty_string());
    println!("sw_diagonal:\n{}\n", move_maps.sw_diagonal.at(index).to_pretty_string());
    println!("se_diagonal:\n{}\n", move_maps.se_diagonal.at(index).to_pretty_string());
    println!("e_rank:\n{}\n", move_maps.e_rank.at(index).to_pretty_string());
    println!("w_rank:\n{}\n", move_maps.w_rank.at(index).to_pretty_string());
    println!("n_file:\n{}\n", move_maps.n_file.at(index).to_pretty_string());
    println!("s_file:\n{}\n", move_maps.s_file.at(index).to_pretty_string());
}

fn board(squares: &[u8]) -> u64 {
    squares.iter().fold(0u64, |b, s| b | (1u64 << s))
}

#[test]
fn leaper_tables_do_not_wrap_around_the_edges() {
    let maps = MoveMaps::new();
    assert_eq!(maps.knight.at(0), board(&[10, 17]));
    assert_eq!(maps.knight.at(7), board(&[13, 22]));
    assert_eq!(maps.knight.at(63), board(&[46, 53]));
    assert_eq!(maps.knight.at(27), board(&[10, 12, 17, 21, 33, 37, 42, 44]));
    assert_eq!(maps.king.at(0), board(&[1, 8, 9]));
    assert_eq!(maps.king.at(7), board(&[6, 14, 15]));
    assert_eq!(maps.king.at(56), board(&[48, 49, 57]));
    assert_eq!(maps.king.at(27), board(&[18, 19, 20, 26, 28, 34, 35, 36]));
}

#[test]
fn ray_tables_run_to_the_edge() {
    let maps = MoveMaps::new();
    assert_eq!(maps.ne_diagonal.at(0), board(&[9, 18, 27, 36, 45, 54, 63]));
    assert_eq!(maps.ne_diagonal.at(7), 0);
    assert_eq!(maps.nw_diagonal.at(7), board(&[14, 21, 28, 35, 42, 49, 56]));
    assert_eq!(maps.sw_diagonal.at(63), board(&[54, 45, 36, 27, 18, 9, 0]));
    assert_eq!(maps.se_diagonal.at(56), board(&[49, 42, 35, 28, 21, 14, 7]));
    assert_eq!(maps.e_rank.at(8), board(&[9, 10, 11, 12, 13, 14, 15]));
    assert_eq!(maps.w_rank.at(8), 0);
    assert_eq!(maps.w_rank.at(15), board(&[8, 9, 10, 11, 12, 13, 14]));
    assert_eq!(maps.n_file.at(8), board(&[16, 24, 32, 40, 48, 56]));
    assert_eq!(maps.s_file.at(8), board(&[0]));
    assert_eq!(maps.s_file.at(0), 0);
}

#[test]
fn pawn_tables() {
    let maps = MoveMaps::new();
    assert_eq!(maps.white_pawn_passive.at(8), board(&[16]));
    assert_eq!(maps.white_pawn_passive.at(56), 0);
    assert_eq!(maps.black_pawn_passive.at(48), board(&[40]));
    assert_eq!(maps.black_pawn_passive.at(7), 0);
    assert_eq!(maps.white_pawn_double.at(8), board(&[24]));
    assert_eq!(maps.white_pawn_double.at(16), 0);
    assert_eq!(maps.black_pawn_double.at(55), board(&[39]));
    assert_eq!(maps.black_pawn_double.at(47), 0);
    assert_eq!(maps.white_pawn_attack.at(8), board(&[17]));
    assert_eq!(maps.white_pawn_attack.at(12), board(&[19, 21]));
    assert_eq!(maps.white_pawn_attack.at(15), board(&[22]));
    assert_eq!(maps.black_pawn_attack.at(48), board(&[41]));
    assert_eq!(maps.black_pawn_attack.at(52), board(&[43, 45]));
    assert_eq!(maps.black_pawn_attack.at(55), board(&[46]));
}
