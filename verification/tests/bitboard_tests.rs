use chess_engine::bitboard::{BitBoard, BitBoardExt, EMPTY, FILE, FULL, RANK};

#[test]
fn test_pop_lsb() {
    let mut bb: BitBoard = 0b1100;
    assert_eq!(bb.pop_lsb(), 2);
    assert_eq!(bb, 0b1000);
}

#[test]
fn test_pop_msb() {
    let mut bb: BitBoard = 0b1100;
    assert_eq!(bb.pop_msb(), 3);
    assert_eq!(bb, 0b0100);
}

#[test]
fn test_get_lsb() {
    let bb: BitBoard = 0b1100;
    println!("{}", 0_u64.trailing_zeros());
    assert_eq!(bb.get_lsb(), 2);
}

#[test]
fn test_get_msb() {
    let bb: u64 = 0b1100;
    assert_eq!(bb.get_msb(), 3);
    assert_eq!(1u64.get_msb(), 0);
}

#[test]
fn lsb_and_msb_of_the_empty_board() {
    assert_eq!(EMPTY.get_lsb(), 64);
    assert_eq!(EMPTY.get_msb(), -1);
    assert_eq!(FULL.get_lsb(), 0);
    assert_eq!(FULL.get_msb(), 63);
}

#[test]
fn columns_and_rows() {
    assert_eq!(<BitBoard as BitBoardExt>::column(0), FILE);
    assert_eq!(<BitBoard as BitBoardExt>::column(7), 0x8080_8080_8080_8080);
    assert_eq!(<BitBoard as BitBoardExt>::row(0), RANK);
    assert_eq!(<BitBoard as BitBoardExt>::row(7), 0xFF00_0000_0000_0000);
}

#[test]
fn squares_by_name() {
    assert_eq!(<BitBoard as BitBoardExt>::from_square("a1"), 1);
    assert_eq!(<BitBoard as BitBoardExt>::from_square("h8"), 1 << 63);
    assert_eq!(<BitBoard as BitBoardExt>::from_square("e3"), 1 << 20);
    assert_eq!((1u64 << 20).to_square(), "e3");
    assert_eq!((1u64 << 63).to_square(), "h8");
}

#[test]
fn pretty_string_draws_rank_eight_first() {
    let bb: BitBoard = 1 | (1 << 63);
    let text = bb.to_pretty_string();
    let lines: Vec<&str> = text.lines().collect();
    assert_eq!(lines.len(), 8);
    assert_eq!(lines[0], "00000001");
    assert_eq!(lines[7], "10000000");
    assert_eq!(lines[3], "00000000");
}
