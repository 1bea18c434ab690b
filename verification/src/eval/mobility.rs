//! Mobility: the squares each piece can reach in the mobility area.
use vstd::prelude::*;
use crate::bitboard::{BitBoard, bit, squares_where, popcount, ranks_between, lemma_bit_ops};
use crate::bitboard::square_values::{SquareEvaluations, bounded};
use crate::board::Board;
use crate::color::{Color, up_step, side_index};
use crate::coord::Coord;
use crate::piece::Piece;
use crate::eval::{Evaluation, opposite, pieces_of, side_of, shift};
use crate::eval::attack::{type_attacks, pinned_moves, pin_rays_of};
use crate::eval::pawns::sum_squares;

verus! {

pub const MOBILITY_BONUS_MG: [[i32; 28]; 4] = [
    [-62, -53, -12, -4, 3, 13, 22, 28, 33, 0, 0, 0, 0, 0, 0, 0, 0, 0, 0, 0, 0, 0, 0, 0, 0, 0, 0, 0],
    [-48, -20, 16, 26, 38, 51, 55, 63, 63, 68, 81, 81, 91, 98, 0, 0, 0, 0, 0, 0, 0, 0, 0, 0, 0, 0, 0, 0],
    [-60, -20, 2, 3, 3, 11, 22, 31, 40, 40, 41, 48, 57, 57, 62, 0, 0, 0, 0, 0, 0, 0, 0, 0, 0, 0, 0, 0],
    [-30, -12, -8, -9, 20, 23, 23, 35, 38, 53, 64, 65, 65, 66, 67, 67, 72, 72, 77, 79, 93, 108, 108, 108, 110, 114, 114, 116],
];

pub const MOBILITY_BONUS_EG: [[i32; 28]; 4] = [
    [-81, -56, -31, -16, 5, 11, 17, 20, 25, 0, 0, 0, 0, 0, 0, 0, 0, 0, 0, 0, 0, 0, 0, 0, 0, 0, 0, 0],
    [-59, -23, -3, 13, 24, 42, 54, 57, 65, 73, 78, 86, 88, 97, 0, 0, 0, 0, 0, 0, 0, 0, 0, 0, 0, 0, 0, 0],
    [-78, -17, 23, 39, 70, 99, 103, 121, 134, 139, 158, 164, 168, 169, 172, 0, 0, 0, 0, 0, 0, 0, 0, 0, 0, 0, 0, 0],
    [-48, -30, -7, 19, 40, 55, 59, 75, 78, 96, 96, 100, 121, 127, 131, 133, 136, 141, 147, 150, 151, 168, 168, 171, 182, 182, 192, 219],
];

/// The pieces, of either side, standing alone between the king of `w` and an enemy slider.
pub open spec fn own_blockers(b: Board, w: bool) -> u64 {
    crate::eval::attack::king_blockers_of(b, w)
}

/// The squares where the pieces of `w` count as mobile.
pub open spec fn mobility_area_of(b: Board, w: bool) -> u64 {
    let p = pieces_of(b, w, Piece::PAWN);
    let u = up_step(w);
    let lo = if w { 1int } else { 5int };
    let hi = if w { 2int } else { 6int };
    !pieces_of(b, w, Piece::KING) & !pieces_of(b, w, Piece::QUEEN) & !type_attacks(b, !w, Piece::PAWN).0
        & !(p & (squares_where(ranks_between(lo, hi)) | shift(b.all_pieces_bitboard.0, 0, -u)))
        & !own_blockers(b, w)
}

/// The squares the piece of type `t` of `w` on `s` attacks: nothing for a pinned knight.
pub open spec fn attacks_from_of(b: Board, w: bool, t: u8, s: int) -> u64 {
    if t == Piece::KNIGHT && bit(pin_rays_of(b, w), s) {
        0
    } else {
        pinned_moves(b, w, t, pin_rays_of(b, w))(s)
    }
}

/// The mobility of the piece of `w` on `s`: reachable squares in the mobility area, where minor
/// pieces don't count squares of their own queens.
pub open spec fn mobility_at(b: Board, w: bool, s: int) -> int {
    let area = mobility_area_of(b, w);
    let area_no_queen = area & !pieces_of(b, w, Piece::QUEEN);
    let pieces = side_of(b, w) & !pieces_of(b, w, Piece::PAWN) & !pieces_of(b, w, Piece::KING);
    if !bit(pieces, s) {
        0
    } else if bit(pieces_of(b, w, Piece::KNIGHT), s) {
        popcount(attacks_from_of(b, w, Piece::KNIGHT, s) & area_no_queen) as int
    } else if bit(pieces_of(b, w, Piece::BISHOP), s) {
        popcount(attacks_from_of(b, w, Piece::BISHOP, s) & area_no_queen) as int
    } else if bit(pieces_of(b, w, Piece::ROOK), s) {
        popcount(attacks_from_of(b, w, Piece::ROOK, s) & area) as int
    } else {
        popcount(attacks_from_of(b, w, Piece::QUEEN, s) & area) as int
    }
}

/// The bonus table entry for a mobility `m`; counts above 27 cannot occur and read the last entry.
pub open spec fn mobility_entry(k: int, m: int, eg: bool) -> int {
    let i = if m > 27 { 27 } else { m };
    if eg { MOBILITY_BONUS_EG[k][i] as int } else { MOBILITY_BONUS_MG[k][i] as int }
}

/// The mobility bonus of the piece of `w` on `s`, by its type.
pub open spec fn mobility_bonus_at(b: Board, w: bool, s: int, eg: bool) -> int {
    let m = mobility_at(b, w, s);
    if bit(pieces_of(b, w, Piece::KNIGHT), s) {
        mobility_entry(0, m, eg)
    } else if bit(pieces_of(b, w, Piece::BISHOP), s) {
        mobility_entry(1, m, eg)
    } else if bit(pieces_of(b, w, Piece::ROOK), s) {
        mobility_entry(2, m, eg)
    } else if bit(pieces_of(b, w, Piece::QUEEN), s) {
        mobility_entry(3, m, eg)
    } else {
        0
    }
}

pub open spec fn mobility_bonus_fn(b: Board, w: bool, eg: bool) -> spec_fn(int) -> int {
    |s: int| mobility_bonus_at(b, w, s, eg)
}

/// The mobility bonus of `w`: middle game and endgame.
pub open spec fn mobility_bonus_of(b: Board, w: bool) -> (int, int) {
    (sum_squares(mobility_bonus_fn(b, w, false), 64), sum_squares(mobility_bonus_fn(b, w, true), 64))
}

pub proof fn lemma_mobility_table_bound(k: int, i: int)
    requires
        0 <= k < 4,
        0 <= i < 28,
    ensures
        -100 <= MOBILITY_BONUS_MG[k][i] <= 250,
        -100 <= MOBILITY_BONUS_EG[k][i] <= 250,
{
    broadcast use vstd::array::group_array_axioms;
}

impl<'a> Evaluation<'a> {
    /// The squares the piece of type `t` of `W` on `sqr` attacks.
    fn attacks_from<W: Color, B: Color>(&self, t: u8, sqr: Coord) -> (r: BitBoard)
        requires
            self.pins_ready(),
            opposite::<W, B>(),
            2 <= t <= 5,
            sqr.valid(),
        ensures
            r.0 == attacks_from_of(*self.board, W::spec_white(), t, sqr.sq()),
    {
        if t == Piece::KNIGHT && self.pinned::<W, B>(sqr) {
            BitBoard(0)
        } else {
            self.moves_from::<W, B>(t, sqr)
        }
    }

    /// The squares the knight of `W` on `sqr` attacks; none when it is pinned.
    pub fn knight_attack_from<W: Color, B: Color>(&self, sqr: Coord) -> (r: BitBoard)
        requires
            self.pins_ready(),
            opposite::<W, B>(),
            sqr.valid(),
        ensures
            r.0 == attacks_from_of(*self.board, W::spec_white(), Piece::KNIGHT, sqr.sq()),
    {
        self.attacks_from::<W, B>(Piece::KNIGHT, sqr)
    }

    /// The squares the bishop of `W` on `sqr` attacks through queens, along its pin when pinned.
    pub fn bishop_xray_attack_from<W: Color, B: Color>(&self, sqr: Coord) -> (r: BitBoard)
        requires
            self.pins_ready(),
            opposite::<W, B>(),
            sqr.valid(),
        ensures
            r.0 == attacks_from_of(*self.board, W::spec_white(), Piece::BISHOP, sqr.sq()),
    {
        self.attacks_from::<W, B>(Piece::BISHOP, sqr)
    }

    /// The squares the rook of `W` on `sqr` attacks through queens and rooks of `W`, along its
    /// pin when pinned.
    pub fn rook_xray_attack_from<W: Color, B: Color>(&self, sqr: Coord) -> (r: BitBoard)
        requires
            self.pins_ready(),
            opposite::<W, B>(),
            sqr.valid(),
        ensures
            r.0 == attacks_from_of(*self.board, W::spec_white(), Piece::ROOK, sqr.sq()),
    {
        self.attacks_from::<W, B>(Piece::ROOK, sqr)
    }

    /// The squares the queen of `W` on `sqr` attacks, along its pin when pinned.
    pub fn queen_attack_from<W: Color, B: Color>(&self, sqr: Coord) -> (r: BitBoard)
        requires
            self.pins_ready(),
            opposite::<W, B>(),
            sqr.valid(),
        ensures
            r.0 == attacks_from_of(*self.board, W::spec_white(), Piece::QUEEN, sqr.sq()),
    {
        self.attacks_from::<W, B>(Piece::QUEEN, sqr)
    }

    /// The squares where the pieces of `W` count as mobile.
    pub fn mobility_area<W: Color, B: Color>(&self) -> (r: BitBoard)
        requires
            self.attacks_ready(),
            opposite::<W, B>(),
        ensures
            r.0 == mobility_area_of(*self.board, W::spec_white()),
    {
        let (lo, hi) = W::ranks(1, 2);
        self.side_pieces::<W>(Piece::KING).not()
            .and(self.side_pieces::<W>(Piece::QUEEN).not())
            .and(self.attacks_by::<B, W>(Piece::PAWN).0.not())
            .and(self.side_pieces::<W>(Piece::PAWN).and(BitBoard::from_ranks(lo, hi)
                .or(self.board.all_pieces_bitboard.shifted_2d(W::offset(0, -1)))).not())
            .and(self.blockers_for_king::<B, W>().not())
    }

    /// The mobility of each piece of `W` other than pawns and the king.
    pub fn mobility<W: Color, B: Color>(&self) -> (r: SquareEvaluations)
        requires
            self.attacks_ready(),
            opposite::<W, B>(),
        ensures
            forall|s: int| 0 <= s < 64 ==> #[trigger] r.0[s] == mobility_at(*self.board, W::spec_white(), s),
            forall|s: int| 0 <= s < 64 ==> 0 <= #[trigger] r.0[s] <= 64,
    {
        let ghost b = *self.board;
        let ghost w = W::spec_white();
        let pieces = self.side_all::<W>().and(self.side_pieces::<W>(Piece::PAWN).not())
            .and(self.side_pieces::<W>(Piece::KING).not());
        let area = self.mobility_area::<W, B>();
        let area_no_queen = area.and(self.side_pieces::<W>(Piece::QUEEN).not());
        let knights = self.side_pieces::<W>(Piece::KNIGHT);
        let bishops = self.side_pieces::<W>(Piece::BISHOP);
        let rooks = self.side_pieces::<W>(Piece::ROOK);
        let mut eval = SquareEvaluations::new();
        let mut i: i8 = 0;
        while i < 64
            invariant
                0 <= i <= 64,
                b == *self.board,
                w == W::spec_white(),
                self.attacks_ready(),
                opposite::<W, B>(),
                pieces.0 == side_of(b, w) & !pieces_of(b, w, Piece::PAWN) & !pieces_of(b, w, Piece::KING),
                area.0 == mobility_area_of(b, w),
                area_no_queen.0 == mobility_area_of(b, w) & !pieces_of(b, w, Piece::QUEEN),
                knights.0 == pieces_of(b, w, Piece::KNIGHT),
                bishops.0 == pieces_of(b, w, Piece::BISHOP),
                rooks.0 == pieces_of(b, w, Piece::ROOK),
                forall|s: int| 0 <= s < i ==> #[trigger] eval.0[s] == mobility_at(b, w, s),
                forall|s: int| 0 <= s < 64 ==> 0 <= #[trigger] eval.0[s] <= 64,
                forall|s: int| i <= s < 64 ==> #[trigger] eval.0[s] == 0,
            decreases 64 - i,
        {
            if pieces.contains_square(i) {
                let sqr = Coord::from_idx(i);
                let v = if knights.contains_square(i) {
                    self.knight_attack_from::<W, B>(sqr).and(area_no_queen).count()
                } else if bishops.contains_square(i) {
                    self.bishop_xray_attack_from::<W, B>(sqr).and(area_no_queen).count()
                } else if rooks.contains_square(i) {
                    self.rook_xray_attack_from::<W, B>(sqr).and(area).count()
                } else {
                    self.queen_attack_from::<W, B>(sqr).and(area).count()
                };
                eval.0[i as usize] = v as i32;
            }
            i += 1;
        }
        eval
    }

    /// Returns `(mg, eg)`: the mobility bonus of `W`.
    pub fn mobility_bonus<W: Color, B: Color>(&self) -> (r: (i32, i32))
        requires
            self.attacks_ready(),
            opposite::<W, B>(),
        ensures
            r.0 == mobility_bonus_of(*self.board, W::spec_white()).0,
            r.1 == mobility_bonus_of(*self.board, W::spec_white()).1,
            -6400 <= r.0 <= 16000,
            -6400 <= r.1 <= 16000,
    {
        let ghost b = *self.board;
        let ghost w = W::spec_white();
        let knights = self.side_pieces::<W>(Piece::KNIGHT);
        let bishops = self.side_pieces::<W>(Piece::BISHOP);
        let rooks = self.side_pieces::<W>(Piece::ROOK);
        let queens = self.side_pieces::<W>(Piece::QUEEN);
        let mobility = self.mobility::<W, B>();
        let mut mg: i32 = 0;
        let mut eg: i32 = 0;
        let mut i: i8 = 0;
        while i < 64
            invariant
                0 <= i <= 64,
                b == *self.board,
                w == W::spec_white(),
                knights.0 == pieces_of(b, w, Piece::KNIGHT),
                bishops.0 == pieces_of(b, w, Piece::BISHOP),
                rooks.0 == pieces_of(b, w, Piece::ROOK),
                queens.0 == pieces_of(b, w, Piece::QUEEN),
                forall|s: int| 0 <= s < 64 ==> #[trigger] mobility.0[s] == mobility_at(b, w, s),
                forall|s: int| 0 <= s < 64 ==> 0 <= #[trigger] mobility.0[s] <= 64,
                mg == sum_squares(mobility_bonus_fn(b, w, false), i as nat),
                eg == sum_squares(mobility_bonus_fn(b, w, true), i as nat),
                -100 * i <= mg <= 250 * i,
                -100 * i <= eg <= 250 * i,
            decreases 64 - i,
        {
            let m = mobility.0[i as usize];
            let idx: usize = if m > 27 { 27 } else { m as usize };
            let k: usize = if knights.contains_square(i) { 0 } else if bishops.contains_square(i) { 1 }
                else if rooks.contains_square(i) { 2 } else if queens.contains_square(i) { 3 } else { 4 };
            if k < 4 {
                proof {
                    lemma_mobility_table_bound(k as int, idx as int);
                }
                mg = mg + MOBILITY_BONUS_MG[k][idx];
                eg = eg + MOBILITY_BONUS_EG[k][idx];
            }
            i += 1;
        }
        (mg, eg)
    }

    /// The cached middle game mobility bonus of `W`.
    pub fn mobility_mg<W: Color, B: Color>(&self) -> (r: i32)
        requires
            self.ready(),
        ensures
            r == mobility_bonus_of(*self.board, W::spec_white()).0,
            -6400 <= r <= 16000,
    {
        self.mobility_bonus[W::index()].0
    }
}

} // verus!
