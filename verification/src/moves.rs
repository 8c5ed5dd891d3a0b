//! Moves packed into 16 bits, and the buffer that holds the candidates of each ply.

use vstd::prelude::*;
use vstd::string::{StrSliceExecFns, StringExecFns};

use crate::bitboard::square_name;
use crate::text::{digit, letter};

verus! {

/// A move: bits 0..6 the origin, bits 6..12 the destination, bits 12..16 the special code.
pub type Move = u16;

pub type MoveMask = u16;

pub type MoveCode = u16;

pub const QUIET_MOVE: MoveCode = 0x0000;

pub const DOUBLE_PAWN_PUSH: MoveCode = 0x1000;

pub const KING_CASTLE: MoveCode = 0x2000;

pub const QUEEN_CASTLE: MoveCode = 0x3000;

pub const CAPTURE: MoveCode = 0x4000;

pub const EN_PASSANT: MoveCode = 0x5000;

pub const KNIGHT_PROMOTION: MoveCode = 0x6000;

pub const BISHOP_PROMOTION: MoveCode = 0x7000;

pub const ROOK_PROMOTION: MoveCode = 0x8000;

pub const QUEEN_PROMOTION: MoveCode = 0x9000;

pub const KNIGHT_PROMOTION_CAPTURE: MoveCode = 0xa000;

pub const BISHOP_PROMOTION_CAPTURE: MoveCode = 0xb000;

pub const ROOK_PROMOTION_CAPTURE: MoveCode = 0xc000;

pub const QUEEN_PROMOTION_CAPTURE: MoveCode = 0xd000;

/// The origin square of a move.
pub open spec fn from_of(m: Move) -> u8 {
    (m & 0x3f) as u8
}

/// The destination square of a move.
pub open spec fn to_of(m: Move) -> u8 {
    ((m & 0x0fc0) >> 6) as u8
}

/// The special code of a move, still in bits 12..16.
pub open spec fn code_of(m: Move) -> MoveCode {
    m & 0xf000
}

/// The move made of an origin, a destination and a code.
pub open spec fn encode(from: u8, to: u8, flag: MoveCode) -> Move {
    (from as u16) | ((to as u16) << 6) | flag
}

/// A code leaves the twelve square bits alone.
pub open spec fn is_code(flag: MoveCode) -> bool {
    flag & 0x0fff == 0
}

pub open spec fn quiet_code(c: MoveCode) -> bool {
    c == QUIET_MOVE || c == DOUBLE_PAWN_PUSH || c == KING_CASTLE || c == QUEEN_CASTLE
}

/// A code that moves one piece to an empty square: neither a capture, a castle
/// nor a promotion.
pub open spec fn calm_code(c: MoveCode) -> bool {
    c == QUIET_MOVE || c == DOUBLE_PAWN_PUSH
}

pub open spec fn castle_code(c: MoveCode) -> bool {
    c == KING_CASTLE || c == QUEEN_CASTLE
}

pub open spec fn capture_code(c: MoveCode) -> bool {
    c == CAPTURE || c == EN_PASSANT || c == KNIGHT_PROMOTION_CAPTURE || c
        == BISHOP_PROMOTION_CAPTURE || c == ROOK_PROMOTION_CAPTURE || c == QUEEN_PROMOTION_CAPTURE
}

pub open spec fn promotion_code(c: MoveCode) -> bool {
    c == KNIGHT_PROMOTION || c == BISHOP_PROMOTION || c == ROOK_PROMOTION || c == QUEEN_PROMOTION
        || c == KNIGHT_PROMOTION_CAPTURE || c == BISHOP_PROMOTION_CAPTURE || c
        == ROOK_PROMOTION_CAPTURE || c == QUEEN_PROMOTION_CAPTURE
}

/// The promotion code without its capture part.
pub open spec fn plain_promotion(c: MoveCode) -> MoveCode {
    if c == KNIGHT_PROMOTION_CAPTURE {
        KNIGHT_PROMOTION
    } else if c == BISHOP_PROMOTION_CAPTURE {
        BISHOP_PROMOTION
    } else if c == ROOK_PROMOTION_CAPTURE {
        ROOK_PROMOTION
    } else if c == QUEEN_PROMOTION_CAPTURE {
        QUEEN_PROMOTION
    } else {
        c
    }
}

pub broadcast proof fn lemma_encode(from: u8, to: u8, flag: MoveCode)
    by (bit_vector)
    requires
        from < 64,
        to < 64,
        is_code(flag),
    ensures
        from_of(#[trigger] encode(from, to, flag)) == from,
        to_of(encode(from, to, flag)) == to,
        code_of(encode(from, to, flag)) == flag,
{
}

/// Each of the fourteen codes is a code.
pub proof fn lemma_codes()
    by (bit_vector)
    ensures
        is_code(QUIET_MOVE),
        is_code(DOUBLE_PAWN_PUSH),
        is_code(KING_CASTLE),
        is_code(QUEEN_CASTLE),
        is_code(CAPTURE),
        is_code(EN_PASSANT),
        is_code(KNIGHT_PROMOTION),
        is_code(BISHOP_PROMOTION),
        is_code(ROOK_PROMOTION),
        is_code(QUEEN_PROMOTION),
        is_code(KNIGHT_PROMOTION_CAPTURE),
        is_code(BISHOP_PROMOTION_CAPTURE),
        is_code(ROOK_PROMOTION_CAPTURE),
        is_code(QUEEN_PROMOTION_CAPTURE),
        from_of(0) == 0,
        to_of(0) == 0,
{
}

pub proof fn lemma_decode(m: Move)
    by (bit_vector)
    ensures
        from_of(m) < 64,
        to_of(m) < 64,
        m & 0x3f < 64,
        (m & 0x0fc0) >> 6 < 64,
        is_code(code_of(m)),
        encode(from_of(m), to_of(m), code_of(m)) == m,
{
}

/// The letter that a promotion adds to the text of a move.
pub open spec fn promotion_letter(c: MoveCode) -> Seq<char> {
    if c == KNIGHT_PROMOTION || c == KNIGHT_PROMOTION_CAPTURE {
        seq!['N']
    } else if c == BISHOP_PROMOTION || c == BISHOP_PROMOTION_CAPTURE {
        seq!['B']
    } else if c == ROOK_PROMOTION || c == ROOK_PROMOTION_CAPTURE {
        seq!['R']
    } else if c == QUEEN_PROMOTION || c == QUEEN_PROMOTION_CAPTURE {
        seq!['Q']
    } else {
        Seq::empty()
    }
}

/// The long algebraic text of a move: origin, destination, promotion letter.
pub open spec fn perft_text(m: Move) -> Seq<char> {
    square_name(from_of(m)) + square_name(to_of(m)) + promotion_letter(code_of(m))
}

/// The name of a code, as the pretty text shows it.
pub open spec fn code_name(c: MoveCode) -> Seq<char> {
    if c == QUIET_MOVE {
        "QUIET_MOVE"@
    } else if c == DOUBLE_PAWN_PUSH {
        "DOUBLE_PAWN_PUSH"@
    } else if c == KING_CASTLE {
        "KING_CASTLE"@
    } else if c == QUEEN_CASTLE {
        "QUEEN_CASTLE"@
    } else if c == CAPTURE {
        "CAPTURE"@
    } else if c == EN_PASSANT {
        "EN_PASSANT"@
    } else if c == KNIGHT_PROMOTION {
        "KNIGHT_PROMOTION"@
    } else if c == BISHOP_PROMOTION {
        "BISHOP_PROMOTION"@
    } else if c == ROOK_PROMOTION {
        "ROOK_PROMOTION"@
    } else if c == QUEEN_PROMOTION {
        "QUEEN_PROMOTION"@
    } else if c == KNIGHT_PROMOTION_CAPTURE {
        "KNIGHT_PROMOTION_CAPTURE"@
    } else if c == BISHOP_PROMOTION_CAPTURE {
        "BISHOP_PROMOTION_CAPTURE"@
    } else if c == ROOK_PROMOTION_CAPTURE {
        "ROOK_PROMOTION_CAPTURE"@
    } else if c == QUEEN_PROMOTION_CAPTURE {
        "QUEEN_PROMOTION_CAPTURE"@
    } else {
        "UNKNOWN"@
    }
}

/// An ASCII upper-case letter turned into lower case; any other character unchanged.
pub open spec fn lower(c: char) -> char {
    if 'A' <= c <= 'Z' {
        ((c as u8) + 32) as char
    } else {
        c
    }
}

/// The text with every ASCII letter in lower case.
pub open spec fn lowered(s: Seq<char>) -> Seq<char> {
    s.map_values(|c: char| lower(c))
}

/// A move matches a text when the two are equal up to the case of ASCII letters.
pub open spec fn matches_text(m: Move, text: Seq<char>) -> bool {
    lowered(perft_text(m)) == lowered(text)
}

fn to_lower(c: char) -> (r: char)
    ensures
        r == lower(c),
{
    if 'A' <= c && c <= 'Z' {
        ((c as u8) + 32) as char
    } else {
        c
    }
}

/// Whether two texts are equal up to the case of ASCII letters.
pub fn eq_ignore_case(a: &str, b: &str) -> (r: bool)
    ensures
        r == (lowered(a@) == lowered(b@)),
{
    let n = a.unicode_len();
    if b.unicode_len() != n {
        assert(lowered(a@).len() != lowered(b@).len());
        return false;
    }
    let mut i: usize = 0;
    while i < n
        invariant
            i <= n,
            a@.len() == n,
            b@.len() == n,
            forall|k: int| 0 <= k < i ==> lower(a@[k]) == lower(b@[k]),
        decreases n - i,
    {
        if to_lower(a.get_char(i)) != to_lower(b.get_char(i)) {
            assert(lowered(a@)[i as int] != lowered(b@)[i as int]);
            return false;
        }
        i += 1;
    }
    assert(lowered(a@) =~= lowered(b@));
    true
}

/// Accessors and predicates of a packed move.
pub trait MoveExt: Sized {
    const FLAG_SHIFT: u8;

    const TO_SHIFT: u8;

    const FROM_SHIFT: u8;

    const FROM_MASK: MoveMask;

    const TO_MASK: MoveMask;

    const FLAG_MASK: MoveMask;

    const QUIET_MOVE: MoveCode;

    const DOUBLE_PAWN_PUSH: MoveCode;

    const KING_CASTLE: MoveCode;

    const QUEEN_CASTLE: MoveCode;

    const CAPTURE: MoveCode;

    const EN_PASSANT: MoveCode;

    const KNIGHT_PROMOTION: MoveCode;

    const BISHOP_PROMOTION: MoveCode;

    const ROOK_PROMOTION: MoveCode;

    const QUEEN_PROMOTION: MoveCode;

    const KNIGHT_PROMOTION_CAPTURE: MoveCode;

    const BISHOP_PROMOTION_CAPTURE: MoveCode;

    const ROOK_PROMOTION_CAPTURE: MoveCode;

    const QUEEN_PROMOTION_CAPTURE: MoveCode;

    /// The sixteen bits of the move.
    spec fn raw(&self) -> Move;

    fn is_quiet(&self) -> (b: bool)
        ensures
            b == quiet_code(code_of(self.raw())),
    ;

    fn is_en_passant(&self) -> (b: bool)
        ensures
            b == (code_of(self.raw()) == EN_PASSANT),
    ;

    fn matches_perft_string(self, string: &str) -> (b: bool)
        ensures
            b == matches_text(self.raw(), string@),
    ;

    /// The first of the possible moves whose text matches.
    fn from_perft_string(string: &str, possible_moves: &[Move]) -> (m: Move)
        requires
            exists|i: int| 0 <= i < possible_moves@.len() && matches_text(possible_moves@[i], string@),
        ensures
            exists|i: int|
                0 <= i < possible_moves@.len() && possible_moves@[i] == m && matches_text(m, string@)
                    && forall|j: int| 0 <= j < i ==> !matches_text(possible_moves@[j], string@),
    ;

    fn to_perft_string(self) -> (s: String)
        ensures
            s@ == perft_text(self.raw()),
    ;

    fn is_capture(&self) -> (b: bool)
        ensures
            b == capture_code(code_of(self.raw())),
    ;

    /// The promotion code of a capturing promotion.
    fn capture_promotion_to_promotion(&self) -> (c: Move)
        requires
            capture_code(code_of(self.raw())),
            promotion_code(code_of(self.raw())),
        ensures
            c == plain_promotion(code_of(self.raw())),
    ;

    fn is_promotion(&self) -> (b: bool)
        ensures
            b == promotion_code(code_of(self.raw())),
    ;

    fn is_castle(&self) -> (b: bool)
        ensures
            b == castle_code(code_of(self.raw())),
    ;

    fn get_to(&self) -> (sq: u8)
        ensures
            sq == to_of(self.raw()),
            sq < 64,
    ;

    fn get_from(&self) -> (sq: u8)
        ensures
            sq == from_of(self.raw()),
            sq < 64,
    ;

    fn new(from: u8, to: u8, flag: MoveCode) -> (m: Self)
        ensures
            m.raw() == encode(from, to, flag),
    ;

    fn to_pretty_string(&self) -> (s: String)
        ensures
            s@ == "Move "@ + perft_text(self.raw()) + " with flag "@ + code_name(code_of(self.raw())),
    ;
}

impl MoveExt for Move {
    const FROM_MASK: MoveMask = 0x003f;

    const FROM_SHIFT: u8 = 0;

    const TO_MASK: MoveMask = 0x0fc0;

    const TO_SHIFT: u8 = 6;

    const FLAG_MASK: MoveMask = 0xf000;

    const FLAG_SHIFT: u8 = 12;

    const QUIET_MOVE: MoveCode = 0x0000;

    const DOUBLE_PAWN_PUSH: MoveCode = 0x1000;

    const KING_CASTLE: MoveCode = 0x2000;

    const QUEEN_CASTLE: MoveCode = 0x3000;

    const CAPTURE: MoveCode = 0x4000;

    const EN_PASSANT: MoveCode = 0x5000;

    const KNIGHT_PROMOTION: MoveCode = 0x6000;

    const BISHOP_PROMOTION: MoveCode = 0x7000;

    const ROOK_PROMOTION: MoveCode = 0x8000;

    const QUEEN_PROMOTION: MoveCode = 0x9000;

    const KNIGHT_PROMOTION_CAPTURE: MoveCode = 0xa000;

    const BISHOP_PROMOTION_CAPTURE: MoveCode = 0xb000;

    const ROOK_PROMOTION_CAPTURE: MoveCode = 0xc000;

    const QUEEN_PROMOTION_CAPTURE: MoveCode = 0xd000;

    open spec fn raw(&self) -> Move {
        *self
    }

    fn new(from: u8, to: u8, flag: MoveCode) -> (m: Move) {
        (from as u16) | ((to as u16) << 6) | flag
    }

    fn to_pretty_string(&self) -> (s: String) {
        let flag = *self & 0xf000;
        let flag_string = if flag == QUIET_MOVE {
            "QUIET_MOVE"
        } else if flag == DOUBLE_PAWN_PUSH {
            "DOUBLE_PAWN_PUSH"
        } else if flag == KING_CASTLE {
            "KING_CASTLE"
        } else if flag == QUEEN_CASTLE {
            "QUEEN_CASTLE"
        } else if flag == CAPTURE {
            "CAPTURE"
        } else if flag == EN_PASSANT {
            "EN_PASSANT"
        } else if flag == KNIGHT_PROMOTION {
            "KNIGHT_PROMOTION"
        } else if flag == BISHOP_PROMOTION {
            "BISHOP_PROMOTION"
        } else if flag == ROOK_PROMOTION {
            "ROOK_PROMOTION"
        } else if flag == QUEEN_PROMOTION {
            "QUEEN_PROMOTION"
        } else if flag == KNIGHT_PROMOTION_CAPTURE {
            "KNIGHT_PROMOTION_CAPTURE"
        } else if flag == BISHOP_PROMOTION_CAPTURE {
            "BISHOP_PROMOTION_CAPTURE"
        } else if flag == ROOK_PROMOTION_CAPTURE {
            "ROOK_PROMOTION_CAPTURE"
        } else if flag == QUEEN_PROMOTION_CAPTURE {
            "QUEEN_PROMOTION_CAPTURE"
        } else {
            "UNKNOWN"
        };
        let mut s = String::from_str("Move ");
        let text = self.to_perft_string();
        s.append(text.as_str());
        s.append(" with flag ");
        s.append(flag_string);
        s
    }

    fn to_perft_string(self) -> (s: String) {
        let from = self.get_from();
        let to = self.get_to();
        let flag = self & 0xf000;
        let mut res = String::new();
        res.push(letter(from % 8));
        res.push(digit(from / 8 + 1));
        res.push(letter(to % 8));
        res.push(digit(to / 8 + 1));
        if flag == KNIGHT_PROMOTION || flag == KNIGHT_PROMOTION_CAPTURE {
            res.push('N');
        } else if flag == BISHOP_PROMOTION || flag == BISHOP_PROMOTION_CAPTURE {
            res.push('B');
        } else if flag == ROOK_PROMOTION || flag == ROOK_PROMOTION_CAPTURE {
            res.push('R');
        } else if flag == QUEEN_PROMOTION || flag == QUEEN_PROMOTION_CAPTURE {
            res.push('Q');
        }
        assert(res@ =~= perft_text(self));
        res
    }

    fn matches_perft_string(self, string: &str) -> (b: bool) {
        let perft_string = self.to_perft_string();
        eq_ignore_case(perft_string.as_str(), string)
    }

    fn get_from(&self) -> (sq: u8) {
        proof {
            lemma_decode(*self);
        }
        (*self & 0x003f) as u8
    }

    fn get_to(&self) -> (sq: u8) {
        proof {
            lemma_decode(*self);
        }
        ((*self & 0x0fc0) >> 6) as u8
    }

    fn is_castle(&self) -> (b: bool) {
        let flag = *self & 0xf000;
        flag == KING_CASTLE || flag == QUEEN_CASTLE
    }

    fn is_capture(&self) -> (b: bool) {
        let flag = *self & 0xf000;
        flag == CAPTURE || flag == EN_PASSANT || flag == KNIGHT_PROMOTION_CAPTURE || flag
            == BISHOP_PROMOTION_CAPTURE || flag == ROOK_PROMOTION_CAPTURE || flag
            == QUEEN_PROMOTION_CAPTURE
    }

    fn is_promotion(&self) -> (b: bool) {
        let flag = *self & 0xf000;
        flag == KNIGHT_PROMOTION || flag == BISHOP_PROMOTION || flag == ROOK_PROMOTION || flag
            == QUEEN_PROMOTION || flag == KNIGHT_PROMOTION_CAPTURE || flag
            == BISHOP_PROMOTION_CAPTURE || flag == ROOK_PROMOTION_CAPTURE || flag
            == QUEEN_PROMOTION_CAPTURE
    }

    fn capture_promotion_to_promotion(&self) -> (c: Move) {
        let flag = *self & 0xf000;
        if flag == KNIGHT_PROMOTION_CAPTURE {
            KNIGHT_PROMOTION
        } else if flag == BISHOP_PROMOTION_CAPTURE {
            BISHOP_PROMOTION
        } else if flag == ROOK_PROMOTION_CAPTURE {
            ROOK_PROMOTION
        } else {
            QUEEN_PROMOTION
        }
    }

    fn is_quiet(&self) -> (b: bool) {
        let flag = *self & 0xf000;
        flag == QUIET_MOVE || flag == DOUBLE_PAWN_PUSH || flag == KING_CASTLE || flag
            == QUEEN_CASTLE
    }

    fn is_en_passant(&self) -> (b: bool) {
        let flag = *self & 0xf000;
        flag == EN_PASSANT
    }

    fn from_perft_string(string: &str, possible_moves: &[Move]) -> (m: Move) {
        let mut i: usize = 0;
        while i < possible_moves.len()
            invariant
                i <= possible_moves@.len(),
                forall|j: int| 0 <= j < i ==> !matches_text(possible_moves@[j], string@),
                exists|k: int|
                    0 <= k < possible_moves@.len() && matches_text(possible_moves@[k], string@),
            decreases possible_moves@.len() - i,
        {
            let m = possible_moves[i];
            if m.matches_perft_string(string) {
                return m;
            }
            i += 1;
        }
        possible_moves[0]
    }
}

/// The first of the moves from number `i` on that matches the text.
pub open spec fn first_match(moves: Seq<Move>, text: Seq<char>, i: int) -> Option<Move>
    decreases moves.len() - i,
{
    if i < 0 || i >= moves.len() {
        None
    } else if matches_text(moves[i], text) {
        Some(moves[i])
    } else {
        first_match(moves, text, i + 1)
    }
}

/// The text of a promotion has five characters, so a text of four or fewer
/// names none: the first move that matches it is no promotion.
pub proof fn lemma_short_text_names_no_promotion(moves: Seq<Move>, text: Seq<char>, i: int)
    requires
        text.len() <= 4,
    ensures
        first_match(moves, text, i) matches Some(m) ==> !promotion_code(code_of(m)),
    decreases moves.len() - i,
{
    if 0 <= i < moves.len() {
        let m = moves[i];
        if matches_text(m, text) {
            assert(lowered(perft_text(m)).len() == lowered(text).len());
            assert(square_name(from_of(m)).len() == 2);
            assert(square_name(to_of(m)).len() == 2);
            if promotion_code(code_of(m)) {
                assert(promotion_letter(code_of(m)).len() == 1);
                assert(perft_text(m).len() == 5);
            }
        } else {
            lemma_short_text_names_no_promotion(moves, text, i + 1);
        }
    }
}

/// The first of the moves that matches the text.
pub fn find_move(moves: &[Move], text: &str) -> (r: Option<Move>)
    ensures
        r == first_match(moves@, text@, 0),
        r matches Some(m) ==> moves@.contains(m),
{
    let mut i: usize = 0;
    while i < moves.len()
        invariant
            i <= moves@.len(),
            first_match(moves@, text@, 0) == first_match(moves@, text@, i as int),
        decreases moves@.len() - i,
    {
        let m = moves[i];
        if m.matches_perft_string(text) {
            return Some(m);
        }
        i += 1;
    }
    None
}

} // verus!
