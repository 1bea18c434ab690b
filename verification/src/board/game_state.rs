//! The parts of a position that cannot be recovered from the pieces alone.
use vstd::prelude::*;

verus! {

#[derive(Clone, Copy, PartialEq, Eq, Structural, Debug)]
pub struct GameState {
    pub captured_ptype: u8,
    /// 1 to 8 for the file of a pawn that just moved two squares, else 0.
    pub en_passant_file: i8,
    /// Bits: white kingside, white queenside, black kingside, black queenside.
    pub castling_rights: u8,
    pub fifty_move_counter: u8,
    pub zobrist_key: u64,
}

pub open spec fn kingside_bit(white: bool) -> u8 {
    if white { 1u8 } else { 4u8 }
}

pub open spec fn queenside_bit(white: bool) -> u8 {
    if white { 2u8 } else { 8u8 }
}

impl GameState {
    pub const CLEAR_WHITE_KINGSIDE_MASK: u8 = 0b1110;
    pub const CLEAR_WHITE_QUEENSIDE_MASK: u8 = 0b1101;
    pub const CLEAR_BLACK_KINGSIDE_MASK: u8 = 0b1011;
    pub const CLEAR_BLACK_QUEENSIDE_MASK: u8 = 0b0111;

    pub fn has_kingside_castle_right(&self, white: bool) -> (r: bool)
        ensures
            r == (self.castling_rights & kingside_bit(white) != 0),
    {
        let mask: u8 = if white { 1 } else { 4 };
        self.castling_rights & mask != 0
    }

    pub fn has_queenside_castle_right(&self, white: bool) -> (r: bool)
        ensures
            r == (self.castling_rights & queenside_bit(white) != 0),
    {
        let mask: u8 = if white { 2 } else { 8 };
        self.castling_rights & mask != 0
    }
}

} // verus!
