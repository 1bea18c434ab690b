//! Material: piece values and piece-square tables.
use vstd::prelude::*;
use crate::bitboard::{BitBoard, bit, popcount};
use crate::board::Board;
use crate::color::{Color, rel_rank};
use crate::coord::Coord;
use crate::piece::Piece;
use crate::eval::{Evaluation, opposite, pieces_of, side_of, lemma_side_piece};
use crate::eval::pawns::sum_squares;

verus! {

pub const PIECE_VALUE_BONUS_MG: [i32; 5] = [124, 781, 825, 1276, 2538];
pub const PIECE_VALUE_BONUS_EG: [i32; 5] = [206, 854, 915, 1380, 2682];

pub const PSQT_BONUS_MG: [[[i32; 4]; 8]; 5] = [
    [[-175, -92, -74, -73], [-77, -41, -27, -15], [-61, -17, 6, 12], [-35, 8, 40, 49], [-34, 13, 44, 51], [-9, 22, 58, 53], [-67, -27, 4, 37], [-201, -83, -56, -26]],
    [[-53, -5, -8, -23], [-15, 8, 19, 4], [-7, 21, -5, 17], [-5, 11, 25, 39], [-12, 29, 22, 31], [-16, 6, 1, 11], [-17, -14, 5, 0], [-48, 1, -14, -23]],
    [[-31, -20, -14, -5], [-21, -13, -8, 6], [-25, -11, -1, 3], [-13, -5, -4, -6], [-27, -15, -4, 3], [-22, -2, 6, 12], [-2, 12, 16, 18], [-17, -19, -1, 9]],
    [[3, -5, -5, 4], [-3, 5, 8, 12], [-3, 6, 13, 7], [4, 5, 9, 8], [0, 14, 12, 5], [-4, 10, 6, 8], [-5, 6, 10, 8], [-2, -2, 1, -2]],
    [[271, 327, 271, 198], [278, 303, 234, 179], [195, 258, 169, 120], [164, 190, 138, 98], [154, 179, 105, 70], [123, 145, 81, 31], [88, 120, 65, 33], [59, 89, 45, -1]],
];

pub const PSQT_BONUS_EG: [[[i32; 4]; 8]; 5] = [
    [[-96, -65, -49, -21], [-67, -54, -18, 8], [-40, -27, -8, 29], [-35, -2, 13, 28], [-45, -16, 9, 39], [-51, -44, -16, 17], [-69, -50, -51, 12], [-100, -88, -56, -17]],
    [[-57, -30, -37, -12], [-37, -13, -17, 1], [-16, -1, -2, 10], [-20, -6, 0, 17], [-17, -1, -14, 15], [-30, 6, 4, 6], [-31, -20, -1, 1], [-46, -42, -37, -24]],
    [[-9, -13, -10, -9], [-12, -9, -1, -2], [6, -8, -2, -6], [-6, 1, -9, 7], [-5, 8, 7, -6], [6, 1, -7, 10], [4, 5, 20, -5], [18, 0, 19, 13]],
    [[-69, -57, -47, -26], [-55, -31, -22, -4], [-39, -18, -9, 3], [-23, -3, 13, 24], [-29, -6, 9, 21], [-38, -18, -12, 1], [-50, -27, -24, -8], [-75, -52, -43, -36]],
    [[1, 45, 85, 76], [53, 100, 133, 135], [88, 130, 169, 175], [103, 156, 172, 172], [96, 166, 199, 199], [92, 172, 184, 191], [47, 121, 116, 131], [11, 59, 73, 78]],
];

pub const PSQT_BONUS_MG_PAWN: [[i32; 8]; 8] = [
    [0, 0, 0, 0, 0, 0, 0, 0],
    [3, 3, 10, 19, 16, 19, 7, -5],
    [-9, -15, 11, 15, 32, 22, 5, -22],
    [-4, -23, 6, 20, 40, 17, 4, -8],
    [13, 0, -13, 1, 11, -2, -13, 5],
    [5, -12, -7, 22, -8, -5, -15, -8],
    [-7, 7, -3, -13, 5, -16, 10, -8],
    [0, 0, 0, 0, 0, 0, 0, 0],
];

pub const PSQT_BONUS_EG_PAWN: [[i32; 8]; 8] = [
    [0, 0, 0, 0, 0, 0, 0, 0],
    [-10, -6, 10, 0, 14, 7, -5, -19],
    [-10, -10, -10, 4, 4, 3, -6, -4],
    [6, -2, -8, -4, -13, -12, -10, -9],
    [10, 5, 4, -5, -5, -5, 14, 9],
    [28, 20, 21, 28, 30, 7, 6, 13],
    [0, -11, 12, 21, 25, 19, 4, 7],
    [0, 0, 0, 0, 0, 0, 0, 0],
];

/// The material of `w` without pawns, in middle game values.
pub open spec fn non_pawn_material_of(b: Board, w: bool) -> int {
    (781 * popcount(pieces_of(b, w, Piece::KNIGHT)) + 825 * popcount(pieces_of(b, w, Piece::BISHOP))
        + 1276 * popcount(pieces_of(b, w, Piece::ROOK)) + 2538 * popcount(pieces_of(b, w, Piece::QUEEN))) as int
}

pub open spec fn piece_value_mg_of(b: Board, w: bool) -> int {
    124 * popcount(pieces_of(b, w, Piece::PAWN)) + non_pawn_material_of(b, w)
}

pub open spec fn piece_value_eg_of(b: Board, w: bool) -> int {
    (206 * popcount(pieces_of(b, w, Piece::PAWN)) + 854 * popcount(pieces_of(b, w, Piece::KNIGHT))
        + 915 * popcount(pieces_of(b, w, Piece::BISHOP)) + 1380 * popcount(pieces_of(b, w, Piece::ROOK))
        + 2682 * popcount(pieces_of(b, w, Piece::QUEEN))) as int
}

/// The file counted from the nearer edge.
pub open spec fn edge_file(f: int) -> int {
    if f < 7 - f { f } else { 7 - f }
}

/// The piece-square value of a piece of type `t` of `w` on `s`; `eg` for the endgame table.
pub open spec fn psqt_at(w: bool, t: int, s: int, eg: bool) -> int {
    let r = rel_rank(w, s / 8);
    if t == 1 {
        if eg { PSQT_BONUS_EG_PAWN[r][s % 8] as int } else { PSQT_BONUS_MG_PAWN[r][s % 8] as int }
    } else {
        if eg { PSQT_BONUS_EG[t - 2][r][edge_file(s % 8)] as int } else { PSQT_BONUS_MG[t - 2][r][edge_file(s % 8)] as int }
    }
}

pub open spec fn psqt_fn(b: Board, w: bool, eg: bool) -> spec_fn(int) -> int {
    |s: int| if bit(side_of(b, w), s) { psqt_at(w, b.square[s].ptype() as int, s, eg) } else { 0 }
}

/// The piece-square total of the pieces of `w`.
pub open spec fn psqt_of(b: Board, w: bool, eg: bool) -> int {
    sum_squares(psqt_fn(b, w, eg), 64)
}

/// Every piece-square value lies within `-400..=400`.
pub proof fn lemma_psqt_bound(t: int, r: int, f: int, g: int)
    requires
        0 <= t < 5,
        0 <= r < 8,
        0 <= f < 4,
        0 <= g < 8,
    ensures
        -400 <= PSQT_BONUS_MG[t][r][f] <= 400,
        -400 <= PSQT_BONUS_EG[t][r][f] <= 400,
        -400 <= PSQT_BONUS_MG_PAWN[r][g] <= 400,
        -400 <= PSQT_BONUS_EG_PAWN[r][g] <= 400,
{
    broadcast use vstd::array::group_array_axioms;
    assert(-400 <= PSQT_BONUS_MG[t][r][f] <= 400);
    assert(-400 <= PSQT_BONUS_EG[t][r][f] <= 400);
    assert(-400 <= PSQT_BONUS_MG_PAWN[r][g] <= 400);
    assert(-400 <= PSQT_BONUS_EG_PAWN[r][g] <= 400);
}

} // verus!

verus! {

impl<'a> Evaluation<'a> {
    /// The material of `W` without pawns.
    pub fn non_pawn_material<W: Color, B: Color>(&self) -> (r: i32)
        ensures
            r == non_pawn_material_of(*self.board, W::spec_white()),
            0 <= r <= 346880,
    {
        proof {
            crate::bitboard::lemma_pop_bound(pieces_of(*self.board, W::spec_white(), Piece::KNIGHT), 64);
        }
        781 * self.knight_count::<W, B>() + 825 * self.bishop_count::<W, B>()
            + 1276 * self.rook_count::<W, B>() + 2538 * self.queen_count::<W, B>()
    }

    /// The middle game material value of `W`.
    pub fn piece_value_mg<W: Color, B: Color>(&self) -> (r: i32)
        ensures
            r == piece_value_mg_of(*self.board, W::spec_white()),
            0 <= r <= 400000,
    {
        124 * self.pawn_count::<W, B>() + 781 * self.knight_count::<W, B>() + 825 * self.bishop_count::<W, B>()
            + 1276 * self.rook_count::<W, B>() + 2538 * self.queen_count::<W, B>()
    }

    /// The endgame material value of `W`.
    pub fn piece_value_eg<W: Color, B: Color>(&self) -> (r: i32)
        ensures
            r == piece_value_eg_of(*self.board, W::spec_white()),
            0 <= r <= 420000,
    {
        206 * self.pawn_count::<W, B>() + 854 * self.knight_count::<W, B>() + 915 * self.bishop_count::<W, B>()
            + 1380 * self.rook_count::<W, B>() + 2682 * self.queen_count::<W, B>()
    }

    /// The piece-square total of `W`, from the endgame tables when `eg`.
    fn psqt<W: Color, B: Color>(&self, eg: bool) -> (r: i32)
        requires
            self.board.wf(),
        ensures
            r == psqt_of(*self.board, W::spec_white(), eg),
            -25600 <= r <= 25600,
    {
        let ghost b = *self.board;
        let ghost w = W::spec_white();
        let pieces = self.side_all::<W>();
        let mut v: i32 = 0;
        let mut i: i8 = 0;
        while i < 64
            invariant
                0 <= i <= 64,
                b == *self.board,
                b.wf(),
                w == W::spec_white(),
                pieces.0 == side_of(b, w),
                v == sum_squares(psqt_fn(b, w, eg), i as nat),
                -400 * i <= v <= 400 * i,
            decreases 64 - i,
        {
            if pieces.contains_square(i) {
                proof {
                    lemma_side_piece(b, w, i as int);
                }
                let sqr = Coord::from_idx(i);
                let ptype = self.board.square[i as usize].piece_type();
                let r = W::rank(sqr.rank()) as usize;
                let f = sqr.file();
                let ef = (if f < 7 - f { f } else { 7 - f }) as usize;
                proof {
                    lemma_psqt_bound(if ptype >= 2 { (ptype - 2) as int } else { 0 }, r as int, ef as int, f as int);
                }
                let val = if ptype == Piece::PAWN {
                    if eg { PSQT_BONUS_EG_PAWN[r][f as usize] } else { PSQT_BONUS_MG_PAWN[r][f as usize] }
                } else {
                    if eg { PSQT_BONUS_EG[ptype as usize - 2][r][ef] } else { PSQT_BONUS_MG[ptype as usize - 2][r][ef] }
                };
                v = v + val;
            }
            i += 1;
        }
        v
    }

    /// The middle game piece-square total of `W`.
    pub fn psqt_mg<W: Color, B: Color>(&self) -> (r: i32)
        requires
            self.board.wf(),
        ensures
            r == psqt_of(*self.board, W::spec_white(), false),
            -25600 <= r <= 25600,
    {
        self.psqt::<W, B>(false)
    }

    /// The endgame piece-square total of `W`.
    pub fn psqt_eg<W: Color, B: Color>(&self) -> (r: i32)
        requires
            self.board.wf(),
        ensures
            r == psqt_of(*self.board, W::spec_white(), true),
            -25600 <= r <= 25600,
    {
        self.psqt::<W, B>(true)
    }
}

} // verus!
