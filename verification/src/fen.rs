//! Reading and writing positions in Forsyth-Edwards notation.

use vstd::prelude::*;
use vstd::string::StrSliceExecFns;
use crate::bitboard::{BitBoard, BitBoardExt, square_bit, square_name};
use crate::bits::{bit, holds, lsb};
use crate::chess_board::{ChessBoard, ChessBoardSide, PieceType};
use crate::color::Color;
use crate::flags::StateFlags;
use crate::game_state::GameState;
use crate::square::Square;
use crate::text::{digit, digit_char, letter};

verus! {

/// Why a text is no position.
#[derive(Clone, Copy, Debug, PartialEq, Eq, Structural)]
pub enum FenError {
    /// One of the four leading fields is missing.
    MissingField,
    /// The piece placement holds a letter that is no piece, or a piece beyond the board.
    Board,
    /// The active color is neither `w` nor `b`.
    ActiveColor,
    /// The en-passant field is neither `-` nor a square.
    EnPassant,
    /// The halfmove clock is no number from 0 to 255.
    HalfMove,
}

impl FenError {
    /// What went wrong, in words.
    pub open spec fn text(self) -> Seq<char> {
        match self {
            FenError::MissingField => "FEN: a field is missing"@,
            FenError::Board => "FEN: invalid piece placement"@,
            FenError::ActiveColor => "FEN: invalid active color"@,
            FenError::EnPassant => "FEN: invalid en passant square"@,
            FenError::HalfMove => "FEN: invalid halfmove clock"@,
        }
    }

    /// What went wrong, in words.
    pub fn message(&self) -> (s: &'static str)
        ensures
            s@ == self.text(),
    {
        match self {
            FenError::MissingField => "FEN: a field is missing",
            FenError::Board => "FEN: invalid piece placement",
            FenError::ActiveColor => "FEN: invalid active color",
            FenError::EnPassant => "FEN: invalid en passant square",
            FenError::HalfMove => "FEN: invalid halfmove clock",
        }
    }
}

/// White space as Unicode defines it.
pub open spec fn is_space(c: char) -> bool {
    let n = c as u32;
    (9 <= n <= 13) || n == 32 || n == 0x85 || n == 0xa0 || n == 0x1680 || (0x2000 <= n <= 0x200a)
        || n == 0x2028 || n == 0x2029 || n == 0x202f || n == 0x205f || n == 0x3000
}

fn space(c: char) -> (r: bool)
    ensures
        r == is_space(c),
{
    let n = c as u32;
    (9 <= n && n <= 13) || n == 32 || n == 0x85 || n == 0xa0 || n == 0x1680 || (0x2000 <= n && n
        <= 0x200a) || n == 0x2028 || n == 0x2029 || n == 0x202f || n == 0x205f || n == 0x3000
}

/// The first index from `i` on that holds no white space, or the length.
pub open spec fn skip_spaces(text: Seq<char>, i: int) -> int
    decreases text.len() - i,
{
    if i < 0 || i >= text.len() || !is_space(text[i]) {
        i
    } else {
        skip_spaces(text, i + 1)
    }
}

/// The first index from `i` on that holds white space, or the length.
pub open spec fn skip_word(text: Seq<char>, i: int) -> int
    decreases text.len() - i,
{
    if i < 0 || i >= text.len() || is_space(text[i]) {
        i
    } else {
        skip_word(text, i + 1)
    }
}

/// The fields of the text from index `i` on: the runs of characters that are no white space.
pub open spec fn fields_from(text: Seq<char>, i: int) -> Seq<Seq<char>>
    decreases text.len() - i,
{
    let a = skip_spaces(text, i);
    if i < 0 || a >= text.len() || a < i {
        Seq::empty()
    } else {
        let b = skip_word(text, a + 1);
        if b <= a || b > text.len() {
            Seq::empty()
        } else {
            seq![text.subrange(a, b)] + fields_from(text, b)
        }
    }
}

/// The fields of the text.
pub open spec fn fields(text: Seq<char>) -> Seq<Seq<char>> {
    fields_from(text, 0)
}

proof fn lemma_skip_bounds(text: Seq<char>, i: int)
    requires
        0 <= i <= text.len(),
    ensures
        i <= skip_spaces(text, i) <= text.len(),
        i <= skip_word(text, i) <= text.len(),
    decreases text.len() - i,
{
    if i < text.len() {
        lemma_skip_bounds(text, i + 1);
    }
}

/// The piece that a letter of the placement stands for.
pub open spec fn piece_of(c: char) -> Option<(Color, PieceType)> {
    if c == 'P' {
        Some((Color::White, PieceType::Pawn))
    } else if c == 'N' {
        Some((Color::White, PieceType::Knight))
    } else if c == 'B' {
        Some((Color::White, PieceType::Bishop))
    } else if c == 'R' {
        Some((Color::White, PieceType::Rook))
    } else if c == 'Q' {
        Some((Color::White, PieceType::Queen))
    } else if c == 'K' {
        Some((Color::White, PieceType::King))
    } else if c == 'p' {
        Some((Color::Black, PieceType::Pawn))
    } else if c == 'n' {
        Some((Color::Black, PieceType::Knight))
    } else if c == 'b' {
        Some((Color::Black, PieceType::Bishop))
    } else if c == 'r' {
        Some((Color::Black, PieceType::Rook))
    } else if c == 'q' {
        Some((Color::Black, PieceType::Queen))
    } else if c == 'k' {
        Some((Color::Black, PieceType::King))
    } else {
        None
    }
}

fn piece_from_letter(c: char) -> (r: Option<(Color, PieceType)>)
    ensures
        r == piece_of(c),
{
    if c == 'P' {
        Some((Color::White, PieceType::Pawn))
    } else if c == 'N' {
        Some((Color::White, PieceType::Knight))
    } else if c == 'B' {
        Some((Color::White, PieceType::Bishop))
    } else if c == 'R' {
        Some((Color::White, PieceType::Rook))
    } else if c == 'Q' {
        Some((Color::White, PieceType::Queen))
    } else if c == 'K' {
        Some((Color::White, PieceType::King))
    } else if c == 'p' {
        Some((Color::Black, PieceType::Pawn))
    } else if c == 'n' {
        Some((Color::Black, PieceType::Knight))
    } else if c == 'b' {
        Some((Color::Black, PieceType::Bishop))
    } else if c == 'r' {
        Some((Color::Black, PieceType::Rook))
    } else if c == 'q' {
        Some((Color::Black, PieceType::Queen))
    } else if c == 'k' {
        Some((Color::Black, PieceType::King))
    } else {
        None
    }
}

/// The number of `/` in the text from index `i` on.
pub open spec fn slashes_from(text: Seq<char>, i: int) -> int
    decreases text.len() - i,
{
    if i < 0 || i >= text.len() {
        0
    } else {
        (if text[i] == '/' { 1int } else { 0int }) + slashes_from(text, i + 1)
    }
}

proof fn lemma_slashes_bounds(text: Seq<char>, i: int)
    requires
        0 <= i <= text.len(),
    ensures
        0 <= slashes_from(text, i) <= text.len() - i,
    decreases text.len() - i,
{
    if i < text.len() {
        lemma_slashes_bounds(text, i + 1);
    }
}

/// The boards with one more piece.
pub open spec fn with_piece(b: ChessBoard, c: Color, p: PieceType, sq: u8) -> ChessBoard {
    b.with_side(c, b.side(c).with_board(p, b.side(c).board(p) | bit(sq)))
}

/// The placement read from index `i` on, with `board` read so far, on rank
/// `rank` at file `file`: each `/` starts the rank below at file 0, a digit
/// skips that many files, a piece letter puts the piece on the square and moves
/// on by one file. Any other character, and a piece beyond the board, fail.
pub open spec fn placement_from(
    text: Seq<char>,
    i: int,
    rank: int,
    file: int,
    board: ChessBoard,
) -> Option<ChessBoard>
    decreases text.len() - i,
{
    if i < 0 || i >= text.len() {
        Some(board)
    } else {
        let c = text[i];
        if c == '/' {
            placement_from(text, i + 1, rank - 1, 0, board)
        } else if '0' <= c <= '9' {
            placement_from(text, i + 1, rank, file + (c as u32 - 48), board)
        } else {
            match piece_of(c) {
                Some((color, piece)) => {
                    let sq = rank * 8 + file;
                    if 0 <= sq < 64 {
                        placement_from(
                            text,
                            i + 1,
                            rank,
                            file + 1,
                            with_piece(board, color, piece, sq as u8),
                        )
                    } else {
                        None
                    }
                },
                None => None,
            }
        }
    }
}

/// The boards that a piece placement describes: its last rank is the first rank
/// of the board.
pub open spec fn placement(text: Seq<char>) -> Option<ChessBoard> {
    placement_from(text, 0, slashes_from(text, 0), 0, ChessBoard::empty())
}

/// The characters of a text.
pub fn to_chars(s: &str) -> (v: Vec<char>)
    ensures
        v@ == s@,
{
    let n = s.unicode_len();
    let mut v: Vec<char> = Vec::new();
    let mut i: usize = 0;
    while i < n
        invariant
            i <= n,
            n == s@.len(),
            v@ == s@.take(i as int),
        decreases n - i,
    {
        v.push(s.get_char(i));
        proof {
            assert(v@ =~= s@.take(i + 1));
        }
        i += 1;
    }
    proof {
        assert(s@.take(n as int) =~= s@);
    }
    v
}

/// The text made of the characters.
pub fn from_chars(v: &Vec<char>) -> (s: String)
    ensures
        s@ == v@,
{
    let mut s = String::new();
    let mut i: usize = 0;
    while i < v.len()
        invariant
            i <= v@.len(),
            s@ == v@.take(i as int),
        decreases v@.len() - i,
    {
        s.push(v[i]);
        proof {
            assert(s@ =~= v@.take(i + 1));
        }
        i += 1;
    }
    proof {
        assert(v@.take(v@.len() as int) =~= v@);
    }
    s
}

fn count_slashes(text: &Vec<char>) -> (n: usize)
    ensures
        n == slashes_from(text@, 0),
{
    let mut n: usize = 0;
    let len = text.len();
    let mut i: usize = len;
    while i > 0
        invariant
            i <= len,
            len == text@.len(),
            n == slashes_from(text@, i as int),
            n <= len - i,
        decreases i,
    {
        i -= 1;
        if text[i] == '/' {
            n += 1;
        }
    }
    n
}

fn add_piece(boards: &mut ChessBoard, color: Color, piece: PieceType, sq: u8)
    requires
        sq < 64,
    ensures
        *final(boards) == with_piece(*old(boards), color, piece, sq),
{
    let mut side = boards.get_side(color);
    let b = side.get(piece) | square_bit(sq);
    side.set(piece, b);
    boards.set_side(color, side);
}

impl ChessBoard {
    /// Reads a piece placement.
    pub fn from_chars(text: &Vec<char>) -> (r: Result<ChessBoard, FenError>)
        ensures
            r == (match placement(text@) {
                Some(b) => Ok::<ChessBoard, FenError>(b),
                None => Err(FenError::Board),
            }),
    {
        let none = ChessBoardSide { pawn: 0, knight: 0, bishop: 0, rook: 0, queen: 0, king: 0 };
        let mut boards = ChessBoard { white: none, black: none };
        let slashes = count_slashes(text);
        // The rank counts down from the number of slashes; it may go below the
        // board only while no piece is placed.
        let mut rank: usize = slashes;
        // Files beyond the board all count as file 64.
        let mut file: usize = 0;
        let ghost mut true_file: int = 0;
        let mut i: usize = 0;
        let n = text.len();
        while i < n
            invariant
                i <= n,
                n == text@.len(),
                rank == slashes_from(text@, i as int),
                0 <= true_file,
                file == (if true_file < 64 { true_file } else { 64 }),
                placement(text@) == placement_from(text@, i as int, rank as int, true_file, boards),
            decreases n - i,
        {
            let c = text[i];
            assert(slashes_from(text@, i as int) == (if text@[i as int] == '/' { 1int } else { 0int })
                + slashes_from(text@, i + 1));
            if c == '/' {
                proof {
                    lemma_slashes_bounds(text@, i + 1);
                }
                rank = rank - 1;
                file = 0;
                proof {
                    true_file = 0;
                }
            } else if '0' <= c && c <= '9' {
                let d = (c as u32 - 48) as usize;
                file = if file + d < 64 { file + d } else { 64 };
                proof {
                    true_file = true_file + d;
                }
            } else {
                match piece_from_letter(c) {
                    Some((color, piece)) => {
                        if rank <= 7 && file < 64 && rank * 8 + file < 64 {
                            add_piece(&mut boards, color, piece, (rank * 8 + file) as u8);
                            file = file + 1;
                            proof {
                                true_file = true_file + 1;
                            }
                        } else {
                            return Err(FenError::Board);
                        }
                    },
                    None => {
                        return Err(FenError::Board);
                    },
                }
            }
            i += 1;
        }
        Ok(boards)
    }

    /// Reads a piece placement.
    pub fn from_fen(board: &str) -> (r: Result<ChessBoard, FenError>)
        ensures
            r == (match placement(board@) {
                Some(b) => Ok::<ChessBoard, FenError>(b),
                None => Err(FenError::Board),
            }),
    {
        let text = to_chars(board);
        ChessBoard::from_chars(&text)
    }
}

/// The letter of a black piece.
pub open spec fn small_letter(p: PieceType) -> char {
    match p {
        PieceType::Pawn => 'p',
        PieceType::Knight => 'n',
        PieceType::Bishop => 'b',
        PieceType::Rook => 'r',
        PieceType::Queen => 'q',
        PieceType::King => 'k',
    }
}

fn small(p: PieceType) -> (c: char)
    ensures
        c == small_letter(p),
{
    match p {
        PieceType::Pawn => 'p',
        PieceType::Knight => 'n',
        PieceType::Bishop => 'b',
        PieceType::Rook => 'r',
        PieceType::Queen => 'q',
        PieceType::King => 'k',
    }
}

/// The letters that a square adds to the placement: that of the white piece on
/// it, then that of the black piece on it.
pub open spec fn square_letters(b: ChessBoard, sq: u8) -> Seq<char> {
    (match b.white.piece_on(sq) {
        Some(p) => seq![p.letter()],
        None => Seq::empty(),
    }) + (match b.black.piece_on(sq) {
        Some(p) => seq![small_letter(p)],
        None => Seq::empty(),
    })
}

/// The count of free squares before a piece or the end of a rank, where there are any.
pub open spec fn gap(empty: int) -> Seq<char> {
    if empty > 0 {
        seq![digit_char(empty as u8)]
    } else {
        Seq::empty()
    }
}

/// The text of rank `rank` from file `file` on, with `empty` free squares just before.
pub open spec fn rank_text(b: ChessBoard, rank: int, file: int, empty: int) -> Seq<char>
    decreases 8 - file,
{
    if file >= 8 {
        gap(empty)
    } else {
        let letters = square_letters(b, (rank * 8 + file) as u8);
        if letters.len() > 0 {
            gap(empty) + letters + rank_text(b, rank, file + 1, 0)
        } else {
            rank_text(b, rank, file + 1, empty + 1)
        }
    }
}

/// The text of the ranks from `rank` down to the first, with `/` between them.
pub open spec fn board_text(b: ChessBoard, rank: int) -> Seq<char>
    decreases rank + 1,
{
    if rank < 0 {
        Seq::empty()
    } else {
        rank_text(b, rank, 0, 0) + (if rank > 0 {
            seq!['/']
        } else {
            Seq::empty()
        }) + board_text(b, rank - 1)
    }
}

impl ChessBoard {
    /// Writes the piece placement, rank 8 first.
    pub fn to_chars(&self) -> (out: Vec<char>)
        ensures
            out@ == board_text(*self, 7),
    {
        let mut out: Vec<char> = Vec::new();
        let mut i: u8 = 8;
        proof {
            assert(out@ + board_text(*self, 7) =~= board_text(*self, 7));
        }
        while i > 0
            invariant
                i <= 8,
                out@ + board_text(*self, i - 1) == board_text(*self, 7),
            decreases i,
        {
            i -= 1;
            let ghost start = out@;
            let mut empty: u8 = 0;
            let mut j: u8 = 0;
            proof {
                assert(out@ + rank_text(*self, i as int, 0, 0) =~= start + rank_text(
                    *self,
                    i as int,
                    0,
                    0,
                ));
            }
            while j < 8
                invariant
                    j <= 8,
                    i < 8,
                    empty <= j,
                    out@ + rank_text(*self, i as int, j as int, empty as int) == start + rank_text(
                        *self,
                        i as int,
                        0,
                        0,
                    ),
                decreases 8 - j,
            {
                let sq = i * 8 + j;
                let ghost before = out@;
                let white = self.white.find(sq);
                let black = self.black.find(sq);
                let found = white.is_some() || black.is_some();
                if found && empty > 0 {
                    out.push(digit(empty));
                }
                match white {
                    Some(piece) => {
                        out.push(piece.as_char());
                    },
                    None => {},
                }
                match black {
                    Some(piece) => {
                        out.push(small(piece));
                    },
                    None => {},
                }
                proof {
                    let letters = square_letters(*self, sq);
                    if found {
                        assert(out@ =~= before + gap(empty as int) + letters);
                        assert(out@ + rank_text(*self, i as int, j + 1, 0) =~= before + (gap(
                            empty as int,
                        ) + letters + rank_text(*self, i as int, j + 1, 0)));
                    } else {
                        assert(letters.len() == 0);
                    }
                }
                if found {
                    empty = 0;
                } else {
                    empty += 1;
                }
                j += 1;
            }
            let ghost before = out@;
            if empty > 0 {
                out.push(digit(empty));
            }
            if i > 0 {
                out.push('/');
            }
            proof {
                let sep = if i > 0 { seq!['/'] } else { Seq::<char>::empty() };
                assert(out@ =~= before + gap(empty as int) + sep);
                assert(out@ + board_text(*self, i - 1) =~= start + (rank_text(*self, i as int, 0, 0)
                    + sep + board_text(*self, i - 1)));
            }
        }
        proof {
            assert(out@ + Seq::<char>::empty() =~= out@);
        }
        out
    }

    /// Writes the piece placement, rank 8 first.
    pub fn to_fen(&self) -> (s: String)
        ensures
            s@ == board_text(*self, 7),
    {
        from_chars(&self.to_chars())
    }
}

/// The flags that the two fields of a position describe: a right is held where
/// the castling field holds its letter.
pub open spec fn flags_of(c: Color, castling: Seq<char>) -> StateFlags {
    StateFlags {
        active: c,
        white_king: castling.contains('K'),
        white_queen: castling.contains('Q'),
        black_king: castling.contains('k'),
        black_queen: castling.contains('q'),
    }
}

/// The color that a letter stands for.
pub open spec fn color_of(c: char) -> Option<Color> {
    if c == 'w' {
        Some(Color::White)
    } else if c == 'b' {
        Some(Color::Black)
    } else {
        None
    }
}

/// The letters of the rights that are held, `-` where none is.
pub open spec fn rights_text(f: StateFlags) -> Seq<char> {
    let held = (if f.white_king { seq!['K'] } else { Seq::empty() }) + (if f.white_queen {
        seq!['Q']
    } else {
        Seq::empty()
    }) + (if f.black_king { seq!['k'] } else { Seq::empty() }) + (if f.black_queen {
        seq!['q']
    } else {
        Seq::empty()
    });
    if held.len() == 0 {
        seq!['-']
    } else {
        held
    }
}

/// The two fields of the flags: the color, a blank, the rights.
pub open spec fn flags_text(f: StateFlags) -> Seq<char> {
    seq![if f.active == Color::White { 'w' } else { 'b' }, ' '] + rights_text(f)
}

fn holds_char(text: &Vec<char>, c: char) -> (r: bool)
    ensures
        r == text@.contains(c),
{
    let mut i: usize = 0;
    while i < text.len()
        invariant
            i <= text@.len(),
            forall|k: int| 0 <= k < i ==> text@[k] != c,
        decreases text@.len() - i,
    {
        if text[i] == c {
            return true;
        }
        i += 1;
    }
    false
}

impl StateFlags {
    /// Reads the flags from the active color and the castling field.
    pub fn from_chars(active_color: char, castling_rights: &Vec<char>) -> (r: Result<
        StateFlags,
        FenError,
    >)
        ensures
            r == (match color_of(active_color) {
                Some(c) => Ok::<StateFlags, FenError>(flags_of(c, castling_rights@)),
                None => Err(FenError::ActiveColor),
            }),
    {
        let mut flags = StateFlags::new();
        match Color::from_char(active_color) {
            Some(c) => {
                flags.set_active_color(c);
            },
            None => {
                return Err(FenError::ActiveColor);
            },
        }
        if !holds_char(castling_rights, 'K') {
            flags.set_white_king_castle_right(false);
        }
        if !holds_char(castling_rights, 'Q') {
            flags.set_white_queen_castle_right(false);
        }
        if !holds_char(castling_rights, 'k') {
            flags.set_black_king_castle_right(false);
        }
        if !holds_char(castling_rights, 'q') {
            flags.set_black_queen_castle_right(false);
        }
        Ok(flags)
    }

    /// Reads the flags from the active color and the castling field.
    pub fn from_fen(active_color: char, castling_rights: &str) -> (r: Result<StateFlags, FenError>)
        ensures
            r == (match color_of(active_color) {
                Some(c) => Ok::<StateFlags, FenError>(flags_of(c, castling_rights@)),
                None => Err(FenError::ActiveColor),
            }),
    {
        let text = to_chars(castling_rights);
        StateFlags::from_chars(active_color, &text)
    }

    /// Writes the active color and the castling field.
    pub fn to_chars(&self) -> (out: Vec<char>)
        ensures
            out@ == flags_text(*self),
    {
        let mut out: Vec<char> = Vec::new();
        out.push(self.active_color().to_char());
        out.push(' ');
        let ghost head = out@;
        if self.white_king_castle_right() {
            out.push('K');
        }
        if self.white_queen_castle_right() {
            out.push('Q');
        }
        if self.black_king_castle_right() {
            out.push('k');
        }
        if self.black_queen_castle_right() {
            out.push('q');
        }
        if out.len() == 2 {
            out.push('-');
        }
        proof {
            assert(out@ =~= flags_text(*self));
        }
        out
    }

    /// Writes the active color and the castling field.
    pub fn to_fen(&self) -> (s: String)
        ensures
            s@ == flags_text(*self),
    {
        from_chars(&self.to_chars())
    }
}

/// The number that a text of decimal digits stands for.
pub open spec fn decimal_value(text: Seq<char>) -> int
    decreases text.len(),
{
    if text.len() == 0 {
        0
    } else {
        decimal_value(text.drop_last()) * 10 + (text.last() as u32 - 48)
    }
}

/// Every character is a decimal digit.
pub open spec fn all_digits(text: Seq<char>) -> bool {
    forall|i: int| 0 <= i < text.len() ==> '0' <= #[trigger] text[i] <= '9'
}

/// The halfmove clock that a field stands for: decimal digits after an optional
/// `+`, with a value of at most 255.
pub open spec fn halfmove_of(text: Seq<char>) -> Option<u8> {
    let digits = if text.len() > 0 && text[0] == '+' {
        text.subrange(1, text.len() as int)
    } else {
        text
    };
    if digits.len() > 0 && all_digits(digits) && decimal_value(digits) <= 255 {
        Some(decimal_value(digits) as u8)
    } else {
        None
    }
}

proof fn lemma_decimal_grows(text: Seq<char>, k: int)
    requires
        0 <= k <= text.len(),
        all_digits(text),
    ensures
        0 <= decimal_value(text.take(k)) <= decimal_value(text),
    decreases text.len() - k,
{
    if k < text.len() {
        lemma_decimal_grows(text, k + 1);
        assert(text.take(k + 1).drop_last() =~= text.take(k));
        lemma_decimal_nonneg(text.take(k));
    } else {
        assert(text.take(k) =~= text);
        lemma_decimal_nonneg(text);
    }
}

proof fn lemma_decimal_nonneg(text: Seq<char>)
    requires
        all_digits(text),
    ensures
        decimal_value(text) >= 0,
    decreases text.len(),
{
    if text.len() > 0 {
        lemma_decimal_nonneg(text.drop_last());
    }
}

/// Reads a halfmove clock.
pub fn parse_halfmove(text: &Vec<char>) -> (r: Option<u8>)
    ensures
        r == halfmove_of(text@),
{
    let n = text.len();
    let start: usize = if n > 0 && text[0] == '+' { 1 } else { 0 };
    let ghost digits = text@.subrange(start as int, n as int);
    proof {
        if start == 0 {
            assert(digits =~= text@);
        }
    }
    if start >= n {
        return None;
    }
    let mut value: u32 = 0;
    let mut i: usize = start;
    proof {
        assert(digits.take(0) =~= Seq::<char>::empty());
    }
    while i < n
        invariant
            start <= i <= n,
            n == text@.len(),
            digits == text@.subrange(start as int, n as int),
            halfmove_of(text@) == (if digits.len() > 0 && all_digits(digits) && decimal_value(
                digits,
            ) <= 255 {
                Some(decimal_value(digits) as u8)
            } else {
                None
            }),
            all_digits(digits.take(i - start)),
            value == decimal_value(digits.take(i - start)),
            value <= 255,
        decreases n - i,
    {
        let c = text[i];
        if !('0' <= c && c <= '9') {
            proof {
                assert(digits[i - start] == c);
                assert(!all_digits(digits));
            }
            return None;
        }
        proof {
            assert(digits.take(i - start + 1).drop_last() =~= digits.take(i - start));
            assert(digits.take(i - start + 1).last() == c);
            assert(all_digits(digits.take(i - start + 1))) by {
                assert forall|k: int| 0 <= k < i - start + 1 implies '0' <= #[trigger] digits.take(
                    i - start + 1,
                )[k] <= '9' by {
                    if k < i - start {
                        assert(digits.take(i - start)[k] == digits[k]);
                    }
                }
            }
        }
        let next = value * 10 + (c as u32 - 48);
        assert(decimal_value(digits.take(i - start + 1)) == next);
        if next > 255 {
            proof {
                // The value only grows with more digits.
                if all_digits(digits) {
                    lemma_decimal_grows(digits, i - start + 1);
                }
            }
            return None;
        }
        value = next;
        i += 1;
    }
    proof {
        assert(digits.take(n - start) =~= digits);
    }
    Some(value as u8)
}

/// The decimal digits of a number, without leading zeros.
pub open spec fn decimal_text(n: nat) -> Seq<char>
    decreases n,
{
    if n < 10 {
        seq![digit_char(n as u8)]
    } else {
        decimal_text(n / 10) + seq![digit_char((n % 10) as u8)]
    }
}

fn push_decimal(out: &mut Vec<char>, n: u8)
    ensures
        final(out)@ == old(out)@ + decimal_text(n as nat),
{
    let ghost before = out@;
    if n >= 100 {
        out.push(digit(n / 100));
        out.push(digit((n / 10) % 10));
        out.push(digit(n % 10));
        proof {
            let m = (n / 10) as nat;
            assert(decimal_text(m / 10) =~= seq![digit_char((n / 100) as u8)]);
            assert(decimal_text(m) =~= seq![digit_char((n / 100) as u8), digit_char((m % 10) as u8)]);
            assert(out@ =~= before + decimal_text(n as nat));
        }
    } else if n >= 10 {
        out.push(digit(n / 10));
        out.push(digit(n % 10));
        proof {
            assert(decimal_text((n / 10) as nat) =~= seq![digit_char((n / 10) as u8)]);
            assert(out@ =~= before + decimal_text(n as nat));
        }
    } else {
        out.push(digit(n));
        proof {
            assert(out@ =~= before + decimal_text(n as nat));
        }
    }
}

/// The en-passant board that a field stands for: none for `-`, else the square named.
pub open spec fn en_passant_of(text: Seq<char>) -> Option<u64> {
    if text =~= seq!['-'] {
        Some(0)
    } else if Square::names_square(text) {
        Some(bit(Square::named(text).0))
    } else {
        None
    }
}

/// The en-passant field: `-` for none, else the name of the lowest square.
pub open spec fn en_passant_text(ep: u64) -> Seq<char> {
    if ep == 0 {
        seq!['-']
    } else {
        square_name(lsb(ep))
    }
}

/// The position that the fields of a text describe: placement, active color,
/// castling rights, en-passant square and, where there is one, halfmove clock.
/// The first field that is missing or wrong decides the error.
pub open spec fn position_of(text: Seq<char>) -> Result<GameState, FenError> {
    let f = fields(text);
    if f.len() < 4 {
        Err(FenError::MissingField)
    } else {
        match placement(f[0]) {
            None => Err(FenError::Board),
            Some(boards) => match color_of(f[1][0]) {
                None => Err(FenError::ActiveColor),
                Some(c) => match en_passant_of(f[3]) {
                    None => Err(FenError::EnPassant),
                    Some(ep) => match (if f.len() > 4 {
                        halfmove_of(f[4])
                    } else {
                        Some(0u8)
                    }) {
                        None => Err(FenError::HalfMove),
                        Some(h) => Ok(
                            GameState {
                                boards,
                                en_passant: ep,
                                flags: flags_of(c, f[2]),
                                halfmove: h,
                            },
                        ),
                    },
                },
            },
        }
    }
}

/// The text of a position: placement, flags, en-passant square, halfmove clock
/// and the fullmove number 1, with blanks between.
pub open spec fn position_text(s: GameState) -> Seq<char> {
    board_text(s.boards, 7) + seq![' '] + flags_text(s.flags) + seq![' '] + en_passant_text(
        s.en_passant,
    ) + seq![' '] + decimal_text(s.halfmove as nat) + seq![' ', '1']
}

/// The first five fields of a text, fewer where the text has fewer.
fn split_fields(text: &Vec<char>) -> (out: Vec<Vec<char>>)
    ensures
        out@.len() <= 5,
        out@.len() == (if fields(text@).len() < 5 { fields(text@).len() } else { 5 }),
        forall|k: int| 0 <= k < out@.len() ==> (#[trigger] out@[k])@ == fields(text@)[k],
{
    let n = text.len();
    let mut out: Vec<Vec<char>> = Vec::new();
    let mut i: usize = 0;
    let ghost mut done: Seq<Seq<char>> = Seq::empty();
    let mut more = true;
    proof {
        assert(done + fields_from(text@, 0) =~= fields(text@));
    }
    while more && out.len() < 5
        invariant
            i <= n,
            n == text@.len(),
            out@.len() == done.len(),
            out@.len() <= 5,
            forall|k: int| 0 <= k < out@.len() ==> (#[trigger] out@[k])@ == done[k],
            more ==> done + fields_from(text@, i as int) == fields(text@),
            !more ==> done == fields(text@),
        decreases (if more { 1int } else { 0int }), n - i,
    {
        // Skip the white space before the field.
        let mut a = i;
        while a < n && space(text[a])
            invariant
                i <= a <= n,
                n == text@.len(),
                skip_spaces(text@, i as int) == skip_spaces(text@, a as int),
            decreases n - a,
        {
            a += 1;
        }
        if a >= n {
            more = false;
            proof {
                assert(done + Seq::<Seq<char>>::empty() =~= done);
            }
        } else {
            // Take the characters up to the next white space.
            let mut field: Vec<char> = Vec::new();
            field.push(text[a]);
            let mut b = a + 1;
            while b < n && !space(text[b])
                invariant
                    a < b <= n,
                    n == text@.len(),
                    skip_word(text@, a + 1) == skip_word(text@, b as int),
                    field@ == text@.subrange(a as int, b as int),
                decreases n - b,
            {
                field.push(text[b]);
                proof {
                    assert(field@ =~= text@.subrange(a as int, b + 1));
                }
                b += 1;
            }
            proof {
                let rest = fields_from(text@, b as int);
                assert(fields_from(text@, i as int) == seq![text@.subrange(a as int, b as int)]
                    + rest);
                assert((done + seq![field@]) + rest =~= done + (seq![field@] + rest));
                done = done + seq![field@];
            }
            out.push(field);
            i = b;
        }
    }
    proof {
        if more {
            assert(out@.len() == 5);
            lemma_fields_prefix(done, fields_from(text@, i as int));
        }
    }
    out
}

proof fn lemma_fields_prefix(a: Seq<Seq<char>>, b: Seq<Seq<char>>)
    ensures
        (a + b).len() >= a.len(),
        forall|k: int| 0 <= k < a.len() ==> (a + b)[k] == a[k],
{
}

impl GameState {
    /// Reads a position.
    pub fn from_fen(fen: String) -> (r: Result<GameState, FenError>)
        ensures
            r == position_of(fen@),
    {
        let text = to_chars(fen.as_str());
        let f = split_fields(&text);
        if f.len() < 4 {
            return Err(FenError::MissingField);
        }
        let boards = match ChessBoard::from_chars(&f[0]) {
            Ok(b) => b,
            Err(e) => {
                return Err(e);
            },
        };
        proof {
            lemma_field_nonempty(text@, 0, 1);
        }
        let flags = match StateFlags::from_chars(f[1][0], &f[2]) {
            Ok(x) => x,
            Err(e) => {
                return Err(e);
            },
        };
        let ep_text = &f[3];
        let en_passant: BitBoard = if ep_text.len() == 1 && ep_text[0] == '-' {
            assert(ep_text@ =~= seq!['-']);
            0
        } else if ep_text.len() == 2 && 'a' <= ep_text[0] && ep_text[0] <= 'h' && '1' <= ep_text[1]
            && ep_text[1] <= '8' {
            let sq = Square::new(ep_text[1] as u8 - 49, ep_text[0] as u8 - 97);
            square_bit(sq.0)
        } else {
            proof {
                if ep_text@ =~= seq!['-'] {
                    assert(ep_text@[0] == '-');
                }
            }
            return Err(FenError::EnPassant);
        };
        let halfmove: u8 = if f.len() > 4 {
            match parse_halfmove(&f[4]) {
                Some(h) => h,
                None => {
                    return Err(FenError::HalfMove);
                },
            }
        } else {
            0
        };
        Ok(GameState { boards, en_passant, flags, halfmove })
    }

    /// Writes the position; the fullmove number is always 1.
    pub fn to_fen(self) -> (s: String)
        ensures
            s@ == position_text(self),
    {
        let mut out = self.boards.to_chars();
        out.push(' ');
        let flags = self.flags.to_chars();
        let ghost a = out@;
        append_chars(&mut out, &flags);
        out.push(' ');
        if self.en_passant == 0 {
            out.push('-');
        } else {
            let sq = self.en_passant.get_lsb();
            out.push(letter(sq % 8));
            out.push(digit(sq / 8 + 1));
        }
        out.push(' ');
        let ghost b = out@;
        push_decimal(&mut out, self.halfmove);
        out.push(' ');
        out.push('1');
        proof {
            assert(b =~= board_text(self.boards, 7) + seq![' '] + flags_text(self.flags) + seq![' ']
                + en_passant_text(self.en_passant) + seq![' ']);
            assert(out@ =~= position_text(self));
        }
        from_chars(&out)
    }
}

fn append_chars(out: &mut Vec<char>, more: &Vec<char>)
    ensures
        final(out)@ == old(out)@ + more@,
{
    let mut i: usize = 0;
    proof {
        assert(out@ =~= old(out)@ + more@.take(0));
    }
    while i < more.len()
        invariant
            i <= more@.len(),
            out@ == old(out)@ + more@.take(i as int),
        decreases more@.len() - i,
    {
        out.push(more[i]);
        proof {
            assert(out@ =~= old(out)@ + more@.take(i + 1));
        }
        i += 1;
    }
    proof {
        assert(more@.take(more@.len() as int) =~= more@);
    }
}

/// Each field holds at least one character.
proof fn lemma_field_nonempty(text: Seq<char>, i: int, k: int)
    requires
        0 <= i <= text.len(),
        0 <= k < fields_from(text, i).len(),
    ensures
        fields_from(text, i)[k].len() > 0,
    decreases text.len() - i,
{
    lemma_skip_bounds(text, i);
    let a = skip_spaces(text, i);
    if a < text.len() {
        lemma_skip_bounds(text, a + 1);
        let b = skip_word(text, a + 1);
        if k > 0 {
            lemma_field_nonempty(text, b, k - 1);
        }
    }
}

} // verus!
