//! Moves packed in 16 bits: start square (bits 0-5), target square (6-11), flag (12-15).
use vstd::prelude::*;
use crate::coord::Coord;
use crate::piece::Piece;

verus! {

pub const START_SQUARE_MASK: u16 = 0b0000000000111111;
pub const TARGET_SQUARE_MASK: u16 = 0b0000111111000000;
pub const FLAG_MASK: u16 = 0b1111000000000000;

pub open spec fn start_of(v: u16) -> int {
    (v & START_SQUARE_MASK) as int
}

pub open spec fn target_of(v: u16) -> int {
    ((v & TARGET_SQUARE_MASK) >> 6u16) as int
}

pub open spec fn flag_of(v: u16) -> int {
    (v >> 12u16) as int
}

pub open spec fn is_promotion_flag(f: int) -> bool {
    3 <= f <= 6
}

#[derive(PartialEq, Eq, Structural, Clone, Copy, Debug)]
pub struct Move(pub u16);

impl Move {
    pub const NORMAL: u8 = 0;
    pub const EN_PASSANT_CAPTURE: u8 = 1;
    pub const CASTLING: u8 = 2;
    pub const QUEEN_PROMOTION: u8 = 3;
    pub const KNIGHT_PROMOTION: u8 = 4;
    pub const ROOK_PROMOTION: u8 = 5;
    pub const BISHOP_PROMOTION: u8 = 6;
    pub const PAWN_TWO_FORWARD: u8 = 7;

    pub open spec fn start_sq(self) -> int {
        start_of(self.0)
    }

    pub open spec fn target_sq(self) -> int {
        target_of(self.0)
    }

    pub open spec fn flag(self) -> int {
        flag_of(self.0)
    }

    /// The move that is no move (all bits zero).
    pub fn null() -> (r: Move)
        ensures
            r.0 == 0,
    {
        Move(0)
    }

    pub fn from_value(val: u16) -> (r: Self)
        ensures
            r.0 == val,
    {
        Self(val)
    }

    pub fn from_start_end(start: i8, target: i8) -> (r: Self)
        requires
            0 <= start < 64,
            0 <= target < 64,
        ensures
            r.0 == (start as u16) | ((target as u16) << 6u16),
            r.start_sq() == start,
            r.target_sq() == target,
            r.flag() == 0,
    {
        let s = start as u16;
        let t = target as u16;
        proof {
            lemma_pack(s, t, 0);
        }
        Self(s | (t << 6u16))
    }

    pub fn from_start_end_flagged(start: i8, target: i8, flag: u8) -> (r: Self)
        requires
            0 <= start < 64,
            0 <= target < 64,
            flag < 16,
        ensures
            r.0 == (start as u16) | ((target as u16) << 6u16) | ((flag as u16) << 12u16),
            r.start_sq() == start,
            r.target_sq() == target,
            r.flag() == flag,
    {
        let s = start as u16;
        let t = target as u16;
        let f = flag as u16;
        proof {
            lemma_pack(s, t, f);
        }
        Self(s | (t << 6u16) | (f << 12u16))
    }

    pub fn same_move(a: Self, b: Self) -> (r: bool)
        ensures
            r == (a.0 == b.0),
    {
        a.0 == b.0
    }

    /// Equal as moves, where the flags count only for promotions.
    pub fn same_move_and_prom(self, rhs: Self) -> (r: bool)
        ensures
            r == (self.0 == rhs.0 || (self.0 & !FLAG_MASK) | (if is_promotion_flag(self.flag()) { (self.flag() as u16) << 12u16 } else { 0u16 })
                == (rhs.0 & !FLAG_MASK) | (if is_promotion_flag(rhs.flag()) { (rhs.flag() as u16) << 12u16 } else { 0u16 })),
    {
        if self.0 == rhs.0 {
            true
        } else {
            let flag1 = self.move_flag();
            let flag2 = rhs.move_flag();
            let a = (self.0 & !FLAG_MASK) | (if 3 <= flag1 && flag1 <= 6 { (flag1 as u16) << 12u16 } else { 0 });
            let b = (rhs.0 & !FLAG_MASK) | (if 3 <= flag2 && flag2 <= 6 { (flag2 as u16) << 12u16 } else { 0 });
            a == b
        }
    }

    pub fn start_idx(&self) -> (r: i8)
        ensures
            r == self.start_sq(),
            0 <= r < 64,
    {
        let v = self.0;
        assert(v & START_SQUARE_MASK < 64) by (bit_vector);
        (self.0 & START_SQUARE_MASK) as i8
    }

    pub fn target_idx(&self) -> (r: i8)
        ensures
            r == self.target_sq(),
            0 <= r < 64,
    {
        let v = self.0;
        assert((v & TARGET_SQUARE_MASK) >> 6u16 < 64) by (bit_vector);
        ((self.0 & TARGET_SQUARE_MASK) >> 6u16) as i8
    }

    pub fn start(&self) -> (r: Coord)
        ensures
            r.valid(),
            r.sq() == self.start_sq(),
            r == Coord::of_sq(self.start_sq()),
    {
        Coord::from_idx(self.start_idx())
    }

    pub fn target(&self) -> (r: Coord)
        ensures
            r.valid(),
            r.sq() == self.target_sq(),
            r == Coord::of_sq(self.target_sq()),
    {
        Coord::from_idx(self.target_idx())
    }

    pub fn is_promotion(&self) -> (r: bool)
        ensures
            r == is_promotion_flag(self.flag()),
    {
        let flag = self.move_flag();
        flag == Move::QUEEN_PROMOTION || flag == Move::ROOK_PROMOTION || flag == Move::KNIGHT_PROMOTION
            || flag == Move::BISHOP_PROMOTION
    }

    pub fn move_flag(&self) -> (r: u8)
        ensures
            r == self.flag(),
            r < 16,
    {
        let v = self.0;
        assert(v >> 12u16 < 16) by (bit_vector);
        (self.0 >> 12u16) as u8
    }

    /// The piece type a promotion makes, else none.
    pub fn promotion_ptype(&self) -> (r: u8)
        ensures
            r == (if self.flag() == 3 { Piece::QUEEN } else if self.flag() == 4 { Piece::KNIGHT }
                else if self.flag() == 5 { Piece::ROOK } else if self.flag() == 6 { Piece::BISHOP } else { Piece::NONE }),
    {
        match self.move_flag() {
            3 => Piece::QUEEN,
            4 => Piece::KNIGHT,
            5 => Piece::ROOK,
            6 => Piece::BISHOP,
            _ => Piece::NONE,
        }
    }

    pub fn value(&self) -> (r: u16)
        ensures
            r == self.0,
    {
        self.0
    }

    pub fn is_invalid(&self) -> (r: bool)
        ensures
            r == (self.0 == 0),
    {
        self.0 == 0
    }
}

/// Packing a start, a target and a flag keeps each of them.
pub proof fn lemma_pack(s: u16, t: u16, f: u16)
    requires
        s < 64,
        t < 64,
        f < 16,
    ensures
        start_of(s | (t << 6u16) | (f << 12u16)) == s,
        target_of(s | (t << 6u16) | (f << 12u16)) == t,
        flag_of(s | (t << 6u16) | (f << 12u16)) == f,
        s | (t << 6u16) | (0u16 << 12u16) == s | (t << 6u16),
{
    assert((s | (t << 6u16) | (f << 12u16)) & START_SQUARE_MASK == s) by (bit_vector)
        requires s < 64, t < 64, f < 16;
    assert(((s | (t << 6u16) | (f << 12u16)) & TARGET_SQUARE_MASK) >> 6u16 == t) by (bit_vector)
        requires s < 64, t < 64, f < 16;
    assert((s | (t << 6u16) | (f << 12u16)) >> 12u16 == f) by (bit_vector)
        requires s < 64, t < 64, f < 16;
    assert(s | (t << 6u16) | (0u16 << 12u16) == s | (t << 6u16)) by (bit_vector);
}

/// A move's squares are on the board and its flag has four bits.
pub proof fn lemma_move_parts(m: Move)
    ensures
        0 <= m.start_sq() < 64,
        0 <= m.target_sq() < 64,
        0 <= m.flag() < 16,
{
    let v = m.0;
    assert(v & START_SQUARE_MASK < 64 && (v & TARGET_SQUARE_MASK) >> 6u16 < 64 && v >> 12u16 < 16) by (bit_vector);
}

} // verus!
