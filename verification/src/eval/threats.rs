//! Threats: attacked and hanging enemy pieces, safe pawn threats and threats to the queen.
use vstd::prelude::*;
use crate::bitboard::{BitBoard, bit, squares_where, mask_upto, lemma_mask_step, popcount, ranks_between};
use crate::bitboard::square_values::{SquareEvaluations, bounded};
use crate::board::Board;
use crate::color::{Color, up_step, rel_rank};
use crate::coord::Coord;
use crate::piece::Piece;
use crate::precomp::{Precomputed, pawn_attacks_spec, knight_pred};
use crate::eval::{Evaluation, opposite, pieces_of, side_of, shift};
use crate::eval::attack::{type_attacks, all_attacks_of, all_doubled_of, bishop_xray_attack_of, rook_xray_attack_of,
    queen_attack_of, queen_attack_diagonal_of};
use crate::eval::mobility::mobility_area_of;
use crate::eval::pawns::sum_squares;

verus! {

pub open spec fn safe_pawn_of(b: Board, w: bool) -> u64 {
    pieces_of(b, w, Piece::PAWN) & (all_attacks_of(b, w) | !all_attacks_of(b, !w))
}

pub open spec fn non_pawn_pieces(b: Board, w: bool) -> u64 {
    pieces_of(b, w, Piece::KNIGHT) | pieces_of(b, w, Piece::BISHOP) | pieces_of(b, w, Piece::ROOK) | pieces_of(b, w, Piece::QUEEN)
}

pub open spec fn threat_safe_pawn_of(b: Board, w: bool) -> u64 {
    non_pawn_pieces(b, !w) & pawn_attacks_spec(safe_pawn_of(b, w), w)
}

/// Enemy pieces not defended by pawns that `w` attacks twice, or attacks while the enemy
/// defends them at most once.
pub open spec fn weak_enemies_of(b: Board, w: bool) -> u64 {
    (side_of(b, !w) & !type_attacks(b, !w, Piece::PAWN).0)
        & (all_doubled_of(b, w) | (all_attacks_of(b, w) & !all_doubled_of(b, !w)))
}

/// Enemy pieces attacked by the knights or bishops of `w`, unless they are pawns or strongly
/// defended, and not weak.
pub open spec fn minor_threatened(b: Board, w: bool) -> u64 {
    let e = pieces_of(b, !w, Piece::PAWN);
    side_of(b, !w) & (type_attacks(b, w, Piece::KNIGHT).0 | type_attacks(b, w, Piece::BISHOP).0)
        & !((e | !(pawn_attacks_spec(e, !w)
            | (all_attacks_of(b, w) & !all_doubled_of(b, w) & all_doubled_of(b, !w))))
            & !weak_enemies_of(b, w))
}

/// Weak enemy pieces attacked by the rooks of `w`.
pub open spec fn rook_threatened(b: Board, w: bool) -> u64 {
    side_of(b, !w) & weak_enemies_of(b, w) & type_attacks(b, w, Piece::ROOK).0
}

/// The type of the piece on `s` where `x` has it, else 0.
pub open spec fn type_on(b: Board, x: u64, s: int) -> int {
    if bit(x, s) { b.square[s].ptype() as int } else { 0 }
}

pub open spec fn hanging_of(b: Board, w: bool) -> u64 {
    weak_enemies_of(b, w) & ((!pieces_of(b, !w, Piece::PAWN) & all_doubled_of(b, w)) | !all_attacks_of(b, !w))
}

pub open spec fn king_threat_of(b: Board, w: bool) -> u64 {
    (side_of(b, !w) & !pieces_of(b, !w, Piece::KING)) & weak_enemies_of(b, w) & type_attacks(b, w, Piece::KING).0
}

/// The enemy pieces a safe pawn push of `w` towards file side `d` (1 or -1) would attack.
pub open spec fn push_threat_side(b: Board, w: bool, d: int) -> u64 {
    let p = pieces_of(b, w, Piece::PAWN);
    let e = pieces_of(b, !w, Piece::PAWN);
    let pieces = b.all_pieces_bitboard.0;
    let a = all_attacks_of(b, w);
    let ea = all_attacks_of(b, !w);
    let u = up_step(w);
    let guard = shift(a, d, u) | !shift(ea, d, u);
    (shift(p, d, 2 * u) & !shift(pieces, d, u) & !shift(e, 2 * d, 0) & guard)
        | (squares_where(ranks_between(rel_rank(w, 4), rel_rank(w, 4))) & shift(p, d, 3 * u) & !shift(pieces, d, 2 * u)
            & !shift(pieces, d, u) & !shift(e, 2 * d, 0) & guard)
}

pub open spec fn pawn_push_threat_of(b: Board, w: bool) -> u64 {
    (side_of(b, !w) & !pieces_of(b, !w, Piece::PAWN)) & (push_threat_side(b, w, 1) | push_threat_side(b, w, -1))
}

/// Squares from which a slider of `w` could attack the enemy's queen.
pub open spec fn slider_threat_squares(b: Board, w: bool) -> u64 {
    !pieces_of(b, w, Piece::PAWN) & !type_attacks(b, !w, Piece::PAWN).0 & all_doubled_of(b, w) & mobility_area_of(b, w)
}

pub open spec fn slider_on_queen_pred(b: Board, w: bool) -> spec_fn(int) -> bool {
    |s: int| bit(slider_threat_squares(b, w), s) && {
        let diagonal = popcount(queen_attack_diagonal_of(b, !w, None, s)) > 0;
        (diagonal && popcount(bishop_xray_attack_of(b, w, None, s)) > 0)
            || (!diagonal && popcount(rook_xray_attack_of(b, w, None, s)) > 0 && popcount(queen_attack_of(b, !w, None, s)) > 0)
    }
}

pub open spec fn slider_on_queen_of(b: Board, w: bool) -> u64 {
    if popcount(pieces_of(b, !w, Piece::QUEEN)) != 1 { 0 } else { squares_where(slider_on_queen_pred(b, w)) }
}

/// Squares from which a knight of `w` could attack the enemy's queen.
pub open spec fn knight_threat_squares(b: Board, w: bool) -> u64 {
    !pieces_of(b, w, Piece::PAWN) & !type_attacks(b, !w, Piece::PAWN).0
        & !(!all_doubled_of(b, w) & all_doubled_of(b, !w)) & mobility_area_of(b, w) & type_attacks(b, w, Piece::KNIGHT).0
}

pub open spec fn knight_on_queen_of(b: Board, w: bool) -> u64 {
    let q = pieces_of(b, !w, Piece::QUEEN);
    if popcount(q) != 1 {
        0
    } else {
        knight_threat_squares(b, w) & squares_where(knight_pred(vstd::std_specs::bits::u64_trailing_zeros(q) as int))
    }
}

pub open spec fn restricted_of(b: Board, w: bool) -> u64 {
    all_attacks_of(b, w) & all_attacks_of(b, !w) & !type_attacks(b, !w, Piece::PAWN).0
        & !(all_doubled_of(b, !w) & (all_attacks_of(b, w) & !all_doubled_of(b, w)))
}

pub open spec fn weak_queen_protection_of(b: Board, w: bool) -> u64 {
    weak_enemies_of(b, w) & type_attacks(b, !w, Piece::QUEEN).0
}

pub const MINOR_THREAT_MG_VALS: [i32; 7] = [0, 5, 57, 77, 88, 79, 0];
pub const ROOK_THREAT_MG_VALS: [i32; 7] = [0, 3, 37, 42, 0, 58, 0];
pub const MINOR_THREAT_EG_VALS: [i32; 7] = [0, 32, 41, 56, 119, 161, 0];
pub const ROOK_THREAT_EG_VALS: [i32; 7] = [0, 46, 68, 60, 38, 41, 0];

/// The table value of the threatened piece type on `s`.
pub open spec fn threat_value(b: Board, x: u64, s: int, rook: bool, eg: bool) -> int {
    let t = type_on(b, x, s);
    if t > 6 { 0 }
    else if rook { if eg { ROOK_THREAT_EG_VALS[t] as int } else { ROOK_THREAT_MG_VALS[t] as int } }
    else { if eg { MINOR_THREAT_EG_VALS[t] as int } else { MINOR_THREAT_MG_VALS[t] as int } }
}

pub open spec fn threat_value_fn(b: Board, x: u64, rook: bool, eg: bool) -> spec_fn(int) -> int {
    |s: int| threat_value(b, x, s, rook, eg)
}

/// Twice `n` when `w` has no queen.
pub open spec fn queenless_double(b: Board, w: bool, n: int) -> int {
    if popcount(pieces_of(b, w, Piece::QUEEN)) == 0 { 2 * n } else { n }
}

pub open spec fn threats_of(b: Board, w: bool, eg: bool) -> int {
    (if eg { 36int } else { 69int }) * popcount(hanging_of(b, w))
        + (if king_threat_of(b, w) > 0 { if eg { 89int } else { 24int } } else { 0int })
        + (if eg { 39int } else { 48int }) * popcount(pawn_push_threat_of(b, w))
        + (if eg { 94int } else { 173int }) * popcount(threat_safe_pawn_of(b, w))
        + (if eg { 18int } else { 60int }) * queenless_double(b, w, popcount(slider_on_queen_of(b, w)) as int)
        + (if eg { 11int } else { 16int }) * queenless_double(b, w, popcount(knight_on_queen_of(b, w)) as int)
        + 7 * popcount(restricted_of(b, w))
        + (if eg { 0int } else { 14 * popcount(weak_queen_protection_of(b, w)) as int })
        + sum_squares(threat_value_fn(b, minor_threatened(b, w), false, eg), 64)
        + sum_squares(threat_value_fn(b, rook_threatened(b, w), true, eg), 64)
}

pub proof fn lemma_threat_table_bound(t: int)
    requires
        0 <= t < 7,
    ensures
        0 <= MINOR_THREAT_MG_VALS[t] <= 200,
        0 <= ROOK_THREAT_MG_VALS[t] <= 200,
        0 <= MINOR_THREAT_EG_VALS[t] <= 200,
        0 <= ROOK_THREAT_EG_VALS[t] <= 200,
{
    broadcast use vstd::array::group_array_axioms;
}

impl<'a> Evaluation<'a> {
    /// The pawns of `W` that are defended or not attacked.
    pub fn safe_pawn<W: Color, B: Color>(&self) -> (r: BitBoard)
        requires
            self.attacks_ready(),
            opposite::<W, B>(),
        ensures
            r.0 == safe_pawn_of(*self.board, W::spec_white()),
    {
        self.side_pieces::<W>(Piece::PAWN).and(self.all_attacks::<W, B>().or(self.all_attacks::<B, W>().not()))
    }

    /// The enemy pieces other than pawns attacked by safe pawns of `W`.
    pub fn threat_safe_pawn<W: Color, B: Color>(&self) -> (r: BitBoard)
        requires
            self.attacks_ready(),
            opposite::<W, B>(),
        ensures
            r.0 == threat_safe_pawn_of(*self.board, W::spec_white()),
    {
        let non_pawn_enemies = self.side_pieces::<B>(Piece::KNIGHT).or(self.side_pieces::<B>(Piece::BISHOP))
            .or(self.side_pieces::<B>(Piece::ROOK)).or(self.side_pieces::<B>(Piece::QUEEN));
        let safe_pawn_attacks = Precomputed::pawn_attacks(self.safe_pawn::<W, B>(), W::is_white());
        non_pawn_enemies.and(safe_pawn_attacks)
    }

    /// The enemy pieces not defended by pawns and attacked more than they are defended.
    pub fn weak_enemies<W: Color, B: Color>(&self) -> (r: BitBoard)
        requires
            self.attacks_ready(),
            opposite::<W, B>(),
        ensures
            r.0 == weak_enemies_of(*self.board, W::spec_white()),
    {
        let enemies = self.side_all::<B>();
        let pawn_defended = self.attacks_by::<B, W>(Piece::PAWN).0;
        enemies.and(pawn_defended.not())
            .and(self.all_doubled_attacks::<W, B>().or(self.all_attacks::<W, B>().and(self.all_doubled_attacks::<B, W>().not())))
    }

    /// The type of each piece on the squares of `x`.
    fn types_on(&self, x: BitBoard) -> (r: SquareEvaluations)
        ensures
            forall|s: int| 0 <= s < 64 ==> #[trigger] r.0[s] == type_on(*self.board, x.0, s),
            bounded(r.0, 7),
    {
        let mut eval = SquareEvaluations::new();
        let mut i: i8 = 0;
        while i < 64
            invariant
                0 <= i <= 64,
                forall|s: int| 0 <= s < i ==> #[trigger] eval.0[s] == type_on(*self.board, x.0, s),
                forall|s: int| i <= s < 64 ==> #[trigger] eval.0[s] == 0,
                bounded(eval.0, 7),
            decreases 64 - i,
        {
            if x.contains_square(i) {
                eval.0[i as usize] = self.board.square[i as usize].piece_type() as i32;
            }
            i += 1;
        }
        eval
    }

    /// The type of each enemy piece threatened by a knight or bishop of `W`.
    pub fn minor_threat<W: Color, B: Color>(&self) -> (r: SquareEvaluations)
        requires
            self.attacks_ready(),
            opposite::<W, B>(),
        ensures
            forall|s: int| 0 <= s < 64 ==> #[trigger] r.0[s] == type_on(*self.board, minor_threatened(*self.board, W::spec_white()), s),
            bounded(r.0, 7),
    {
        let enemy_pawns = self.side_pieces::<B>(Piece::PAWN);
        let attacks = self.all_attacks::<W, B>();
        let pieces = self.side_all::<B>()
            .and(self.attacks_by::<W, B>(Piece::KNIGHT).0.or(self.attacks_by::<W, B>(Piece::BISHOP).0))
            .and(enemy_pawns.or(Precomputed::pawn_attacks(enemy_pawns, B::is_white())
                .or(attacks.and(self.all_doubled_attacks::<W, B>().not()).and(self.all_doubled_attacks::<B, W>())).not())
                .and(self.weak_enemies::<W, B>().not()).not());
        self.types_on(pieces)
    }

    /// The type of each weak enemy piece attacked by a rook of `W`.
    pub fn rook_threat<W: Color, B: Color>(&self) -> (r: SquareEvaluations)
        requires
            self.attacks_ready(),
            opposite::<W, B>(),
        ensures
            forall|s: int| 0 <= s < 64 ==> #[trigger] r.0[s] == type_on(*self.board, rook_threatened(*self.board, W::spec_white()), s),
            bounded(r.0, 7),
    {
        let pieces = self.side_all::<B>().and(self.weak_enemies::<W, B>()).and(self.attacks_by::<W, B>(Piece::ROOK).0);
        self.types_on(pieces)
    }

    /// The weak enemy pieces that hang: attacked twice when not pawns, or not defended.
    pub fn hanging<W: Color, B: Color>(&self) -> (r: BitBoard)
        requires
            self.attacks_ready(),
            opposite::<W, B>(),
        ensures
            r.0 == hanging_of(*self.board, W::spec_white()),
    {
        self.weak_enemies::<W, B>().and(self.side_pieces::<B>(Piece::PAWN).not().and(self.all_doubled_attacks::<W, B>())
            .or(self.all_attacks::<B, W>().not()))
    }

    /// The weak enemy pieces other than the king attacked by the king of `W`.
    pub fn king_threat<W: Color, B: Color>(&self) -> (r: BitBoard)
        requires
            self.attacks_ready(),
            opposite::<W, B>(),
        ensures
            r.0 == king_threat_of(*self.board, W::spec_white()),
    {
        self.side_all::<B>().and(self.side_pieces::<B>(Piece::KING).not()).and(self.weak_enemies::<W, B>())
            .and(self.attacks_by::<W, B>(Piece::KING).0)
    }

    /// The enemy pieces other than pawns a safe pawn push of `W` would attack.
    pub fn pawn_push_threat<W: Color, B: Color>(&self) -> (r: BitBoard)
        requires
            self.attacks_ready(),
            opposite::<W, B>(),
        ensures
            r.0 == pawn_push_threat_of(*self.board, W::spec_white()),
    {
        let pawns = self.side_pieces::<W>(Piece::PAWN);
        let enemy_pawns = self.side_pieces::<B>(Piece::PAWN);
        let enemies = self.side_all::<B>().and(enemy_pawns.not());
        let pieces = self.board.all_pieces_bitboard;
        let attacks = self.all_attacks::<W, B>();
        let enemy_attacks = self.all_attacks::<B, W>();
        let r4 = W::rank(4);
        let fourth = BitBoard::from_ranks(r4, r4);
        let right = pawns.shifted_2d(W::offset(1, 2)).and(pieces.shifted_2d(W::offset(1, 1)).not())
            .and(enemy_pawns.shifted_2d(W::offset(2, 0)).not())
            .and(attacks.shifted_2d(W::offset(1, 1)).or(enemy_attacks.shifted_2d(B::offset(1, -1)).not()))
            .or(fourth.and(pawns.shifted_2d(W::offset(1, 3))).and(pieces.shifted_2d(W::offset(1, 2)).not())
                .and(pieces.shifted_2d(W::offset(1, 1)).not()).and(enemy_pawns.shifted_2d(W::offset(2, 0)).not())
                .and(attacks.shifted_2d(W::offset(1, 1)).or(enemy_attacks.shifted_2d(B::offset(1, -1)).not())));
        let left = pawns.shifted_2d(W::offset(-1, 2)).and(pieces.shifted_2d(W::offset(-1, 1)).not())
            .and(enemy_pawns.shifted_2d(W::offset(-2, 0)).not())
            .and(attacks.shifted_2d(W::offset(-1, 1)).or(enemy_attacks.shifted_2d(B::offset(-1, -1)).not()))
            .or(fourth.and(pawns.shifted_2d(W::offset(-1, 3))).and(pieces.shifted_2d(W::offset(-1, 2)).not())
                .and(pieces.shifted_2d(W::offset(-1, 1)).not()).and(enemy_pawns.shifted_2d(W::offset(-2, 0)).not())
                .and(attacks.shifted_2d(W::offset(-1, 1)).or(enemy_attacks.shifted_2d(B::offset(-1, -1)).not())));
        enemies.and(right.or(left))
    }
}

} // verus!

verus! {

impl<'a> Evaluation<'a> {
    /// The squares from which a slider of `W` would attack the single enemy queen; nothing when
    /// the enemy has no queen or more than one. Remember to multiply by two when `W` has no
    /// queen.
    pub fn slider_on_queen<W: Color, B: Color>(&self) -> (r: BitBoard)
        requires
            self.attacks_ready(),
            opposite::<W, B>(),
        ensures
            r.0 == slider_on_queen_of(*self.board, W::spec_white()),
    {
        let ghost b = *self.board;
        let ghost w = W::spec_white();
        if self.queen_count::<B, W>() != 1 {
            return BitBoard(0);
        }
        let threats = self.side_pieces::<W>(Piece::PAWN).not()
            .and(self.attacks_by::<B, W>(Piece::PAWN).0.not())
            .and(self.all_doubled_attacks::<W, B>())
            .and(self.mobility_area::<W, B>());
        let mut r: u64 = 0;
        let mut i: i8 = 0;
        while i < 64
            invariant
                0 <= i <= 64,
                b == *self.board,
                w == W::spec_white(),
                self.attacks_ready(),
                opposite::<W, B>(),
                threats.0 == slider_threat_squares(b, w),
                r == mask_upto(slider_on_queen_pred(b, w), i as nat),
            decreases 64 - i,
        {
            let mut c = false;
            if threats.contains_square(i) {
                let sqr = Coord::from_idx(i);
                let diagonal = self.queen_attack_diagonal::<B, W>(None, sqr).count() > 0;
                c = (diagonal && self.bishop_xray_attack::<W, B>(None, sqr).count() > 0)
                    || (!diagonal && self.rook_xray_attack::<W, B>(None, sqr).count() > 0
                        && self.queen_attack::<B, W>(None, sqr).count() > 0);
            }
            proof {
                lemma_mask_step(slider_on_queen_pred(b, w), i as nat);
            }
            r = r | (if c { 1u64 << (i as u64) } else { 0u64 });
            i += 1;
        }
        BitBoard(r)
    }

    /// The squares from which a knight of `W` would attack the single enemy queen; nothing when
    /// the enemy has no queen or more than one. Remember to multiply by two when `W` has no
    /// queen.
    pub fn knight_on_queen<W: Color, B: Color>(&self) -> (r: BitBoard)
        requires
            self.attacks_ready(),
            opposite::<W, B>(),
        ensures
            r.0 == knight_on_queen_of(*self.board, W::spec_white()),
    {
        if self.queen_count::<B, W>() != 1 {
            return BitBoard(0);
        }
        let mut queens = self.side_pieces::<B>(Piece::QUEEN);
        proof {
            crate::bitboard::lemma_pop_empty(64);
        }
        let queen = Coord::from_idx(queens.pop_lsb() as i8);
        let threats = self.side_pieces::<W>(Piece::PAWN).not()
            .and(self.attacks_by::<B, W>(Piece::PAWN).0.not())
            .and(self.all_doubled_attacks::<W, B>().not().and(self.all_doubled_attacks::<B, W>()).not())
            .and(self.mobility_area::<W, B>())
            .and(self.attacks_by::<W, B>(Piece::KNIGHT).0);
        threats.and(Precomputed::knight_moves(queen))
    }

    /// The squares both sides attack, that the enemy doesn't defend strongly.
    pub fn restricted<W: Color, B: Color>(&self) -> (r: BitBoard)
        requires
            self.attacks_ready(),
            opposite::<W, B>(),
        ensures
            r.0 == restricted_of(*self.board, W::spec_white()),
    {
        let attacks = self.all_attacks::<W, B>();
        attacks.and(self.all_attacks::<B, W>()).and(self.attacks_by::<B, W>(Piece::PAWN).0.not())
            .and(self.all_doubled_attacks::<B, W>().and(attacks.and(self.all_doubled_attacks::<W, B>().not())).not())
    }

    /// The weak enemy pieces defended only by their queen.
    pub fn weak_queen_protection<W: Color, B: Color>(&self) -> (r: BitBoard)
        requires
            self.attacks_ready(),
            opposite::<W, B>(),
        ensures
            r.0 == weak_queen_protection_of(*self.board, W::spec_white()),
    {
        self.weak_enemies::<W, B>().and(self.attacks_by::<B, W>(Piece::QUEEN).0)
    }

    /// The sum of the table values of the threatened piece types in `types`.
    fn threat_values(&self, types: &SquareEvaluations, Ghost(x): Ghost<u64>, rook: bool, eg: bool) -> (r: i32)
        requires
            forall|s: int| 0 <= s < 64 ==> #[trigger] types.0[s] == type_on(*self.board, x, s),
        ensures
            r == sum_squares(threat_value_fn(*self.board, x, rook, eg), 64),
            0 <= r <= 200 * 64,
    {
        let mut v: i32 = 0;
        let mut i: usize = 0;
        while i < 64
            invariant
                i <= 64,
                forall|s: int| 0 <= s < 64 ==> #[trigger] types.0[s] == type_on(*self.board, x, s),
                v == sum_squares(threat_value_fn(*self.board, x, rook, eg), i as nat),
                0 <= v <= 200 * i,
            decreases 64 - i,
        {
            let t = types.0[i];
            proof {
                assert(types.0[i as int] == type_on(*self.board, x, i as int));
            }
            if 0 <= t && t <= 6 {
                proof {
                    lemma_threat_table_bound(t as int);
                }
                let tu = t as usize;
                v = v + if rook {
                    if eg { ROOK_THREAT_EG_VALS[tu] } else { ROOK_THREAT_MG_VALS[tu] }
                } else {
                    if eg { MINOR_THREAT_EG_VALS[tu] } else { MINOR_THREAT_MG_VALS[tu] }
                };
            }
            i += 1;
        }
        v
    }

    /// The threats of `W`, for the endgame when `eg`.
    fn threats_total<W: Color, B: Color>(&self, eg: bool) -> (r: i32)
        requires
            self.attacks_ready(),
            opposite::<W, B>(),
        ensures
            r == threats_of(*self.board, W::spec_white(), eg),
            0 <= r <= 100000,
    {
        let ghost b = *self.board;
        let ghost w = W::spec_white();
        let mut v: i32 = 0;
        v += (if eg { 36 } else { 69 }) * self.hanging::<W, B>().count() as i32;
        v += if self.king_threat::<W, B>().0 > 0 { if eg { 89 } else { 24 } } else { 0 };
        v += (if eg { 39 } else { 48 }) * self.pawn_push_threat::<W, B>().count() as i32;
        v += (if eg { 94 } else { 173 }) * self.threat_safe_pawn::<W, B>().count() as i32;
        let no_queen = self.queen_count::<W, B>() == 0;
        let slider_on_queen = self.slider_on_queen::<W, B>().count() as i32;
        v += (if eg { 18 } else { 60 }) * if no_queen { 2 * slider_on_queen } else { slider_on_queen };
        let knight_on_queen = self.knight_on_queen::<W, B>().count() as i32;
        v += (if eg { 11 } else { 16 }) * if no_queen { 2 * knight_on_queen } else { knight_on_queen };
        v += 7 * self.restricted::<W, B>().count() as i32;
        if !eg {
            v += 14 * self.weak_queen_protection::<W, B>().count() as i32;
        }
        let minor = self.minor_threat::<W, B>();
        v += self.threat_values(&minor, Ghost(minor_threatened(b, w)), false, eg);
        let rook = self.rook_threat::<W, B>();
        v += self.threat_values(&rook, Ghost(rook_threatened(b, w)), true, eg);
        v
    }

    /// The middle game threats of `W`.
    pub fn threats_mg<W: Color, B: Color>(&self) -> (r: i32)
        requires
            self.attacks_ready(),
            opposite::<W, B>(),
        ensures
            r == threats_of(*self.board, W::spec_white(), false),
            0 <= r <= 100000,
    {
        self.threats_total::<W, B>(false)
    }

    /// The endgame threats of `W`.
    pub fn threats_eg<W: Color, B: Color>(&self) -> (r: i32)
        requires
            self.attacks_ready(),
            opposite::<W, B>(),
        ensures
            r == threats_of(*self.board, W::spec_white(), true),
            0 <= r <= 100000,
    {
        self.threats_total::<W, B>(true)
    }

    /// Returns `(mg, eg)`: the threats of `W`.
    pub fn threats<W: Color, B: Color>(&self) -> (r: (i32, i32))
        requires
            self.attacks_ready(),
            opposite::<W, B>(),
        ensures
            r.0 == threats_of(*self.board, W::spec_white(), false),
            r.1 == threats_of(*self.board, W::spec_white(), true),
            0 <= r.0 <= 100000,
            0 <= r.1 <= 100000,
    {
        (self.threats_mg::<W, B>(), self.threats_eg::<W, B>())
    }
}

} // verus!
