//! Pieces: a type in the low three bits and a color flag above them.
use vstd::prelude::*;

verus! {

#[derive(Clone, Copy, PartialEq, Eq, Structural, Debug, Hash)]
pub struct Piece(pub u8);

impl Piece {
    pub const NONE: u8 = 0;
    pub const PAWN: u8 = 1;
    pub const KNIGHT: u8 = 2;
    pub const BISHOP: u8 = 3;
    pub const ROOK: u8 = 4;
    pub const QUEEN: u8 = 5;
    pub const KING: u8 = 6;

    pub const WHITE: u8 = 8;
    pub const BLACK: u8 = 16;

    pub const WHITE_PAWN: u8 = 9;
    pub const WHITE_KNIGHT: u8 = 10;
    pub const WHITE_BISHOP: u8 = 11;
    pub const WHITE_ROOK: u8 = 12;
    pub const WHITE_QUEEN: u8 = 13;
    pub const WHITE_KING: u8 = 14;
    pub const BLACK_PAWN: u8 = 17;
    pub const BLACK_KNIGHT: u8 = 18;
    pub const BLACK_BISHOP: u8 = 19;
    pub const BLACK_ROOK: u8 = 20;
    pub const BLACK_QUEEN: u8 = 21;
    pub const BLACK_KING: u8 = 22;

    pub const MAX_PIECE_INDEX: u8 = 22;

    pub fn null() -> (r: Piece)
        ensures
            r.0 == 0,
    {
        Piece(0)
    }

    pub open spec fn ptype(self) -> u8 {
        self.0 & 7u8
    }

    pub open spec fn pcolor(self) -> u8 {
        self.0 & 24u8
    }

    /// A piece value is a type (0 to 6) with at most one color flag.
    pub open spec fn well_formed(self) -> bool {
        self.0 & 7u8 <= 6 && (self.0 & !31u8) == 0 && (self.0 & 24u8) != 24u8
    }

    pub fn new(v: u8) -> (r: Piece)
        ensures
            r.0 == v,
    {
        Piece(v)
    }

    pub fn piece_type(&self) -> (r: u8)
        ensures
            r == self.ptype(),
            r < 8,
    {
        proof {
            let v = self.0;
            assert(v & 7u8 < 8u8) by (bit_vector);
        }
        self.0 & 7
    }

    pub fn color(&self) -> (r: u8)
        ensures
            r == self.pcolor(),
    {
        self.0 & 24
    }

    pub fn is_color(&self, c: u8) -> (r: bool)
        ensures
            r == (self.pcolor() == c),
    {
        self.0 & 24 == c
    }

    pub fn is_white(&self) -> (r: bool)
        ensures
            r == (self.pcolor() == Piece::WHITE),
    {
        self.0 & 24 == Piece::WHITE
    }

    /// 0 for white pieces, 1 for all others.
    pub fn color_index(&self) -> (r: usize)
        ensures
            r == (if self.pcolor() == Piece::WHITE { 0usize } else { 1usize }),
    {
        if self.0 & 24 == Piece::WHITE { 0 } else { 1 }
    }

    pub fn index(&self) -> (r: usize)
        ensures
            r == self.0,
    {
        self.0 as usize
    }

    pub fn is_bishop_or_queen(&self) -> (r: bool)
        ensures
            r == (self.ptype() == Piece::BISHOP || self.ptype() == Piece::QUEEN),
    {
        let t = self.0 & 7;
        t == Piece::BISHOP || t == Piece::QUEEN
    }

    pub fn is_rook_or_queen(&self) -> (r: bool)
        ensures
            r == (self.ptype() == Piece::ROOK || self.ptype() == Piece::QUEEN),
    {
        let t = self.0 & 7;
        t == Piece::ROOK || t == Piece::QUEEN
    }
}

/// A piece type with a color flag is their sum, and its type and color come back out.
pub proof fn lemma_with_color(t: u8, c: u8)
    requires
        t < 8,
        c == 8 || c == 16,
    ensures
        t | c == t + c,
        (t | c) & 7u8 == t,
        (t | c) & 24u8 == c,
{
    assert((t | c) == t + c && (t | c) & 7u8 == t && (t | c) & 24u8 == c) by (bit_vector)
        requires t < 8, c == 8 || c == 16;
}

/// The empty square has no piece type.
pub proof fn lemma_null_ptype()
    ensures
        Piece(0).ptype() == 0,
        (0u8 & 7u8) == 0u8,
{
    assert((0u8 & 7u8) == 0u8) by (bit_vector);
}

} // verus!
