//! Piece placement: six disjoint bitboards per side.

use vstd::prelude::*;
use crate::bitboard::BitBoard;
use crate::bits::{bit, group_holds, holds, lemma_and_bit};
use crate::color::Color;

verus! {

/// The kind of a piece.
#[derive(Clone, Copy, Debug, PartialEq, Eq, Structural)]
pub enum PieceType {
    Pawn,
    Knight,
    Bishop,
    Rook,
    Queen,
    King,
}

impl PieceType {
    /// The upper-case letter of the piece.
    pub open spec fn letter(self) -> char {
        match self {
            PieceType::Pawn => 'P',
            PieceType::Knight => 'N',
            PieceType::Bishop => 'B',
            PieceType::Rook => 'R',
            PieceType::Queen => 'Q',
            PieceType::King => 'K',
        }
    }

    pub fn as_char(&self) -> (c: char)
        ensures
            c == self.letter(),
    {
        match self {
            PieceType::Pawn => 'P',
            PieceType::Knight => 'N',
            PieceType::Bishop => 'B',
            PieceType::Rook => 'R',
            PieceType::Queen => 'Q',
            PieceType::King => 'K',
        }
    }
}

/// All the bitboards of one color, one per piece type.
#[derive(Clone, Copy, Debug, PartialEq, Eq, Structural)]
pub struct ChessBoardSide {
    pub pawn: BitBoard,
    pub knight: BitBoard,
    pub bishop: BitBoard,
    pub rook: BitBoard,
    pub queen: BitBoard,
    pub king: BitBoard,
}

impl ChessBoardSide {
    /// The board of one piece type.
    pub open spec fn board(self, piece: PieceType) -> u64 {
        match piece {
            PieceType::Pawn => self.pawn,
            PieceType::Knight => self.knight,
            PieceType::Bishop => self.bishop,
            PieceType::Rook => self.rook,
            PieceType::Queen => self.queen,
            PieceType::King => self.king,
        }
    }

    /// This side with the board of one piece type replaced.
    pub open spec fn with_board(self, piece: PieceType, b: u64) -> ChessBoardSide {
        match piece {
            PieceType::Pawn => ChessBoardSide { pawn: b, ..self },
            PieceType::Knight => ChessBoardSide { knight: b, ..self },
            PieceType::Bishop => ChessBoardSide { bishop: b, ..self },
            PieceType::Rook => ChessBoardSide { rook: b, ..self },
            PieceType::Queen => ChessBoardSide { queen: b, ..self },
            PieceType::King => ChessBoardSide { king: b, ..self },
        }
    }

    /// Every square that holds a piece of this side.
    pub open spec fn occupancy(self) -> u64 {
        self.pawn | self.knight | self.bishop | self.rook | self.queen | self.king
    }

    /// The piece of this side on `sq`: the first board, pawn to king, that holds it.
    pub open spec fn piece_on(self, sq: u8) -> Option<PieceType> {
        if holds(self.pawn, sq) {
            Some(PieceType::Pawn)
        } else if holds(self.knight, sq) {
            Some(PieceType::Knight)
        } else if holds(self.bishop, sq) {
            Some(PieceType::Bishop)
        } else if holds(self.rook, sq) {
            Some(PieceType::Rook)
        } else if holds(self.queen, sq) {
            Some(PieceType::Queen)
        } else if holds(self.king, sq) {
            Some(PieceType::King)
        } else {
            None
        }
    }

    /// No square holds two pieces of this side.
    pub open spec fn disjoint(self) -> bool {
        forall|sq: u8, p: PieceType, q: PieceType|
            holds(self.board(p), sq) && holds(self.board(q), sq) ==> p == q
    }

    /// A square is occupied exactly when some board holds it.
    pub proof fn lemma_occupancy(self, sq: u8)
        ensures
            holds(self.occupancy(), sq) == (self.piece_on(sq) is Some),
            self.piece_on(sq) matches Some(p) ==> holds(self.board(p), sq),
            forall|p: PieceType| holds(self.board(p), sq) ==> self.piece_on(sq) is Some,
            self.disjoint() ==> forall|p: PieceType|
                holds(self.board(p), sq) ==> self.piece_on(sq) == Some(p),
    {
        broadcast use group_holds;
        assert forall|p: PieceType| holds(self.board(p), sq) implies self.piece_on(sq) is Some by {
        }
        if self.disjoint() {
            assert forall|p: PieceType| holds(self.board(p), sq) implies self.piece_on(sq) == Some(
                p,
            ) by {
                let q = self.piece_on(sq).unwrap();
                assert(holds(self.board(q), sq));
            }
        }
    }

    /// On a disjoint side, a square that one board holds is held by no other.
    pub proof fn lemma_exclusive(self, sq: u8)
        requires
            self.disjoint(),
        ensures
            forall|p: PieceType, q: PieceType|
                holds(#[trigger] self.board(p), sq) && p != q ==> !holds(
                    #[trigger] self.board(q),
                    sq,
                ),
            holds(self.pawn, sq) == (self.piece_on(sq) == Some(PieceType::Pawn)),
            holds(self.knight, sq) == (self.piece_on(sq) == Some(PieceType::Knight)),
            holds(self.bishop, sq) == (self.piece_on(sq) == Some(PieceType::Bishop)),
            holds(self.rook, sq) == (self.piece_on(sq) == Some(PieceType::Rook)),
            holds(self.queen, sq) == (self.piece_on(sq) == Some(PieceType::Queen)),
            holds(self.king, sq) == (self.piece_on(sq) == Some(PieceType::King)),
    {
        self.lemma_occupancy(sq);
        assert(holds(self.board(PieceType::Pawn), sq) == holds(self.pawn, sq));
        assert(holds(self.board(PieceType::Knight), sq) == holds(self.knight, sq));
        assert(holds(self.board(PieceType::Bishop), sq) == holds(self.bishop, sq));
        assert(holds(self.board(PieceType::Rook), sq) == holds(self.rook, sq));
        assert(holds(self.board(PieceType::Queen), sq) == holds(self.queen, sq));
        assert(holds(self.board(PieceType::King), sq) == holds(self.king, sq));
    }

    pub fn union(&self) -> (b: BitBoard)
        ensures
            b == self.occupancy(),
    {
        self.pawn | self.knight | self.bishop | self.rook | self.queen | self.king
    }

    /// The six boards with their piece types, pawn to king.
    pub fn as_array(&self) -> (a: [(BitBoard, PieceType); 6])
        ensures
            a@ == seq![
                (self.pawn, PieceType::Pawn),
                (self.knight, PieceType::Knight),
                (self.bishop, PieceType::Bishop),
                (self.rook, PieceType::Rook),
                (self.queen, PieceType::Queen),
                (self.king, PieceType::King),
            ],
    {
        let a = [
            (self.pawn, PieceType::Pawn),
            (self.knight, PieceType::Knight),
            (self.bishop, PieceType::Bishop),
            (self.rook, PieceType::Rook),
            (self.queen, PieceType::Queen),
            (self.king, PieceType::King),
        ];
        assert(a@ =~= seq![
            (self.pawn, PieceType::Pawn),
            (self.knight, PieceType::Knight),
            (self.bishop, PieceType::Bishop),
            (self.rook, PieceType::Rook),
            (self.queen, PieceType::Queen),
            (self.king, PieceType::King),
        ]);
        a
    }

    /// The six boards with their piece types, pawn to king, to be changed in place.
    pub fn as_array_mut(&mut self) -> (a: [(&mut BitBoard, PieceType); 6])
        ensures
            *a@[0].0 == old(self).pawn,
            *a@[1].0 == old(self).knight,
            *a@[2].0 == old(self).bishop,
            *a@[3].0 == old(self).rook,
            *a@[4].0 == old(self).queen,
            *a@[5].0 == old(self).king,
            a@[0].1 == PieceType::Pawn,
            a@[1].1 == PieceType::Knight,
            a@[2].1 == PieceType::Bishop,
            a@[3].1 == PieceType::Rook,
            a@[4].1 == PieceType::Queen,
            a@[5].1 == PieceType::King,
            *final(self) == (ChessBoardSide {
                pawn: *final(a@[0].0),
                knight: *final(a@[1].0),
                bishop: *final(a@[2].0),
                rook: *final(a@[3].0),
                queen: *final(a@[4].0),
                king: *final(a@[5].0),
            }),
    {
        [
            (&mut self.pawn, PieceType::Pawn),
            (&mut self.knight, PieceType::Knight),
            (&mut self.bishop, PieceType::Bishop),
            (&mut self.rook, PieceType::Rook),
            (&mut self.queen, PieceType::Queen),
            (&mut self.king, PieceType::King),
        ]
    }

    /// The board of one piece type.
    pub fn get(&self, piece: PieceType) -> (b: BitBoard)
        ensures
            b == self.board(piece),
    {
        match piece {
            PieceType::Pawn => self.pawn,
            PieceType::Knight => self.knight,
            PieceType::Bishop => self.bishop,
            PieceType::Rook => self.rook,
            PieceType::Queen => self.queen,
            PieceType::King => self.king,
        }
    }

    /// Replaces the board of one piece type.
    pub fn set(&mut self, piece: PieceType, b: BitBoard)
        ensures
            *final(self) == old(self).with_board(piece, b),
    {
        match piece {
            PieceType::Pawn => self.pawn = b,
            PieceType::Knight => self.knight = b,
            PieceType::Bishop => self.bishop = b,
            PieceType::Rook => self.rook = b,
            PieceType::Queen => self.queen = b,
            PieceType::King => self.king = b,
        }
    }

    /// The piece on `sq`, scanning the boards pawn to king; the first hit wins.
    pub fn find(&self, sq: u8) -> (r: Option<PieceType>)
        requires
            sq < 64,
        ensures
            r == self.piece_on(sq),
    {
        let b = crate::bitboard::square_bit(sq);
        proof {
            lemma_and_bit(self.pawn, sq);
            lemma_and_bit(self.knight, sq);
            lemma_and_bit(self.bishop, sq);
            lemma_and_bit(self.rook, sq);
            lemma_and_bit(self.queen, sq);
            lemma_and_bit(self.king, sq);
        }
        if self.pawn & b != 0 {
            Some(PieceType::Pawn)
        } else if self.knight & b != 0 {
            Some(PieceType::Knight)
        } else if self.bishop & b != 0 {
            Some(PieceType::Bishop)
        } else if self.rook & b != 0 {
            Some(PieceType::Rook)
        } else if self.queen & b != 0 {
            Some(PieceType::Queen)
        } else if self.king & b != 0 {
            Some(PieceType::King)
        } else {
            None
        }
    }
}

/// All the bitboards of both colors.
#[derive(Clone, Copy, Debug, PartialEq, Eq, Structural)]
pub struct ChessBoard {
    pub white: ChessBoardSide,
    pub black: ChessBoardSide,
}

impl ChessBoard {
    /// The boards of one color.
    pub open spec fn side(self, c: Color) -> ChessBoardSide {
        match c {
            Color::White => self.white,
            Color::Black => self.black,
        }
    }

    /// These boards with the side of one color replaced.
    pub open spec fn with_side(self, c: Color, s: ChessBoardSide) -> ChessBoard {
        match c {
            Color::White => ChessBoard { white: s, ..self },
            Color::Black => ChessBoard { black: s, ..self },
        }
    }

    /// Every occupied square.
    pub open spec fn occupancy(self) -> u64 {
        self.white.occupancy() | self.black.occupancy()
    }

    /// The boards of one color.
    pub fn get_side(&self, c: Color) -> (s: ChessBoardSide)
        ensures
            s == self.side(c),
    {
        match c {
            Color::White => self.white,
            Color::Black => self.black,
        }
    }

    /// Replaces the boards of one color.
    pub fn set_side(&mut self, c: Color, s: ChessBoardSide)
        ensures
            *final(self) == old(self).with_side(c, s),
    {
        match c {
            Color::White => self.white = s,
            Color::Black => self.black = s,
        }
    }

    /// No square holds two pieces.
    pub open spec fn disjoint(self) -> bool {
        &&& self.white.disjoint()
        &&& self.black.disjoint()
        &&& forall|sq: u8| !(holds(self.white.occupancy(), sq) && holds(self.black.occupancy(), sq))
    }

    /// The board without any piece.
    pub open spec fn empty() -> ChessBoard {
        let none = ChessBoardSide { pawn: 0, knight: 0, bishop: 0, rook: 0, queen: 0, king: 0 };
        ChessBoard { white: none, black: none }
    }
}

} // verus!
