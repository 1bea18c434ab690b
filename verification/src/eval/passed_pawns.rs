//! Passed pawns: candidates, their ranks and files, how free their path is and how close the
//! kings are.
use vstd::prelude::*;
use crate::bitboard::{BitBoard, bit, square_bb, squares_where, mask_upto, lemma_mask_step, popcount, ranks_between};
use crate::bitboard::square_values::{SquareEvaluations, bounded};
use crate::board::Board;
use crate::color::{Color, up_step, rel_rank, side_index};
use crate::coord::{Coord, abs};
use crate::piece::Piece;
use crate::precomp::{Precomputed, pawn_attacks_spec, forward_files_pred, pawn_attack_span_pred};
use crate::eval::{Evaluation, opposite, pieces_of, side_of, shift, king_of};
use crate::eval::attack::{all_attacks_of, all_doubled_of};
use crate::eval::pawns::{supported_of, sum_squares};

verus! {

/// The highest square below `n` set in `x`, or -1.
pub open spec fn highest_below(x: u64, n: nat) -> int
    decreases n,
{
    if n == 0 { -1 } else if bit(x, n - 1) { n - 1 } else { highest_below(x, (n - 1) as nat) }
}

/// The lowest square from `k` on set in `x`, or 64.
pub open spec fn lowest_from(x: u64, k: int) -> int
    decreases 64 - k,
{
    if k >= 64 { 64 } else if bit(x, k) { k } else { lowest_from(x, k + 1) }
}

/// The rank of the square of `x` farthest up for side `w`.
pub open spec fn farthest_rank(x: u64, w: bool) -> int {
    if w { highest_below(x, 64) / 8 } else { lowest_from(x, 0) / 8 }
}

/// Whether file `f`, rank `r` is on the board and set in `x`.
pub open spec fn holds_at(x: u64, f: int, r: int) -> bool {
    0 <= f < 8 && 0 <= r < 8 && bit(x, r * 8 + f)
}

/// Rank `a` lies at or below rank `c` for side `w`.
pub open spec fn below_eq(w: bool, a: int, c: int) -> bool {
    if w { a <= c } else { a >= c }
}

/// Rank `a` lies above rank `c` for side `w`.
pub open spec fn above(w: bool, a: int, c: int) -> bool {
    if w { a > c } else { a < c }
}

/// Whether the pawn of `w` on `s` is a candidate passed pawn, `supported` holding the pawns of
/// `w` defended by pawns.
pub open spec fn candidate_passed_at(b: Board, w: bool, s: int, supported: u64) -> bool {
    let p = pieces_of(b, w, Piece::PAWN);
    let e = pieces_of(b, !w, Piece::PAWN);
    let f = s % 8;
    let rk = s / 8;
    let u = up_step(w);
    let ff = squares_where(forward_files_pred(w, s));
    let mbr = rel_rank(w, -1);
    if !bit(p, s) || ff & p != 0 {
        false
    } else {
        let fe = ff & e;
        let span = squares_where(pawn_attack_span_pred(w, s)) & e;
        let ty1 = if fe != 0 { farthest_rank(fe, w) } else { mbr };
        let ty2 = if span != 0 { farthest_rank(span, w) } else { mbr };
        if ty1 == mbr && below_eq(w, ty2, rk + u) {
            true
        } else if above(w, ty2, rk + 2 * u) || above(w, ty1, rk + u) {
            false
        } else if below_eq(w, ty2, rk) && ty1 == rk + u && above(w, rk, rel_rank(w, 3))
            && ((holds_at(p, f - 1, rk - u) && !holds_at(e, f - 1, rk) && !holds_at(e, f - 2, rk + u))
                || (holds_at(p, f + 1, rk - u) && !holds_at(e, f + 1, rk) && !holds_at(e, f + 2, rk + u))) {
            true
        } else if holds_at(e, f, rk + u) {
            false
        } else {
            let lever = popcount(pawn_attacks_spec(square_bb(s), w) & e) as int;
            let lever_push = popcount(pawn_attacks_spec(shift(square_bb(s), 0, u), w) & e) as int;
            let phalanx = popcount(pawn_attacks_spec(shift(square_bb(s), 0, -u), w) & p) as int;
            !(lever - (if bit(supported, s) { 1int } else { 0int }) > 1)
                && !(lever_push - phalanx > 0)
                && !(lever > 0 && lever_push > 0)
        }
    }
}

pub open spec fn candidate_pred(b: Board, w: bool) -> spec_fn(int) -> bool {
    |s: int| candidate_passed_at(b, w, s, supported_of(b, w).0)
}

pub open spec fn candidate_passed_of(b: Board, w: bool) -> u64 {
    squares_where(candidate_pred(b, w))
}

/// The candidates that are not stopped by an enemy pawn, or whose stopper can be traded off.
pub open spec fn passed_leverable_of(b: Board, w: bool) -> u64 {
    let passed = candidate_passed_of(b, w);
    let p = pieces_of(b, w, Piece::PAWN);
    let u = up_step(w);
    (passed & !shift(pieces_of(b, !w, Piece::PAWN), 0, -u))
        | (passed & shift(p, 1, u) & !shift(side_of(b, !w), 1, 0)
            & (shift(all_attacks_of(b, w), 1, 0) | !shift(all_doubled_of(b, !w), 1, 0)))
        | (passed & shift(p, -1, u) & !shift(side_of(b, !w), -1, 0)
            & (shift(all_attacks_of(b, w), -1, 0) | !shift(all_doubled_of(b, !w), -1, 0)))
}

/// The pawns of `w` stand below the last rank of `w`.
pub open spec fn pawns_on_board(b: Board, w: bool) -> bool {
    forall|s: int| 0 <= s < 64 && #[trigger] bit(pieces_of(b, w, Piece::PAWN), s) ==> rel_rank(w, s / 8) <= 6
}

pub proof fn lemma_highest_step(x: u64, n: nat)
    ensures
        highest_below(x, n + 1) == (if bit(x, n as int) { n as int } else { highest_below(x, n) }),
{
}

pub proof fn lemma_highest_range(x: u64, n: nat)
    ensures
        -1 <= highest_below(x, n) < n,
        highest_below(x, n) >= 0 ==> bit(x, highest_below(x, n)),
    decreases n,
{
    if n > 0 {
        lemma_highest_range(x, (n - 1) as nat);
    }
}

pub proof fn lemma_lowest_range(x: u64, k: int)
    requires
        0 <= k <= 64,
    ensures
        k <= lowest_from(x, k) <= 64,
        lowest_from(x, k) < 64 ==> bit(x, lowest_from(x, k)),
    decreases 64 - k,
{
    if k < 64 {
        lemma_lowest_range(x, k + 1);
    }
}

/// A nonempty board has a set square.
pub proof fn lemma_some_square(x: u64)
    requires
        x != 0,
    ensures
        0 <= highest_below(x, 64) < 64,
        0 <= lowest_from(x, 0) < 64,
{
    if highest_below(x, 64) < 0 || lowest_from(x, 0) >= 64 {
        assert forall|j: int| 0 <= j < 64 implies !bit(x, j) by {
            if bit(x, j) {
                lemma_highest_has(x, 64, j);
                lemma_lowest_has(x, 0, j);
            }
        }
        crate::bitboard::lemma_no_bits_zero(x);
    }
    lemma_highest_range(x, 64);
    lemma_lowest_range(x, 0);
}

pub proof fn lemma_highest_has(x: u64, n: nat, j: int)
    requires
        0 <= j < n,
        bit(x, j),
    ensures
        highest_below(x, n) >= j,
    decreases n,
{
    if n - 1 != j && !bit(x, n - 1) {
        lemma_highest_has(x, (n - 1) as nat, j);
    }
}

pub proof fn lemma_lowest_has(x: u64, k: int, j: int)
    requires
        k <= j < 64,
        bit(x, j),
    ensures
        lowest_from(x, k) <= j,
    decreases 64 - k,
{
    if k < j && !bit(x, k) {
        lemma_lowest_has(x, k + 1, j);
    }
}

impl<'a> Evaluation<'a> {
    /// The rank of the square of `x` farthest up for `W`.
    fn farthest<W: Color>(x: BitBoard) -> (r: i8)
        requires
            x.0 != 0,
        ensures
            r == farthest_rank(x.0, W::spec_white()),
            0 <= r < 8,
    {
        proof {
            lemma_some_square(x.0);
        }
        let mut high: i8 = -1;
        let mut low: i8 = 64;
        let mut i: i8 = 0;
        while i < 64
            invariant
                0 <= i <= 64,
                high == highest_below(x.0, i as nat),
                low == (if lowest_from(x.0, 0) < i { lowest_from(x.0, 0) } else { 64 }),
            decreases 64 - i,
        {
            proof {
                lemma_highest_step(x.0, i as nat);
                lemma_lowest_range(x.0, 0);
                if bit(x.0, i as int) && low == 64 {
                    lemma_lowest_has(x.0, 0, i as int);
                    lemma_lowest_first(x.0, 0, i as int);
                }
            }
            if x.contains_square(i) {
                high = i;
                if low == 64 {
                    low = i;
                }
            }
            i += 1;
        }
        if W::is_white() { high / 8 } else { low / 8 }
    }
}

/// The lowest square from `k` is `j` when `j` is set and nothing between `k` and `j` is.
pub proof fn lemma_lowest_first(x: u64, k: int, j: int)
    requires
        0 <= k <= j < 64,
        bit(x, j),
        lowest_from(x, k) >= j,
    ensures
        lowest_from(x, k) == j,
    decreases j - k,
{
    lemma_lowest_has(x, k, j);
}

} // verus!

verus! {

impl<'a> Evaluation<'a> {
    /// Whether the pawn of `W` on `sqr` is a candidate passed pawn.
    fn is_candidate_passed<W: Color, B: Color>(&self, sqr: Coord, supported: BitBoard) -> (r: bool)
        requires
            opposite::<W, B>(),
            sqr.valid(),
        ensures
            r == candidate_passed_at(*self.board, W::spec_white(), sqr.sq(), supported.0),
    {
        let ghost b = *self.board;
        let ghost w = W::spec_white();
        let friendly_pawns = self.side_pieces::<W>(Piece::PAWN);
        let enemy_pawns = self.side_pieces::<B>(Piece::PAWN);
        let s = sqr.square();
        if !friendly_pawns.contains_square(s) {
            return false;
        }
        let ff = Precomputed::forward_files(W::index(), sqr);
        if ff.and(friendly_pawns).0 != 0 {
            return false;
        }
        let mbr = W::max_back_rank();
        let forward_enemies = ff.and(enemy_pawns);
        let ty1 = if forward_enemies.0 != 0 { Self::farthest::<W>(forward_enemies) } else { mbr };
        let span = Precomputed::pawn_attack_span(W::index(), sqr).and(enemy_pawns);
        let ty2 = if span.0 != 0 { Self::farthest::<W>(span) } else { mbr };
        let rank = sqr.rank();
        let file = sqr.file();
        let up = W::up_dir();
        let down = W::down_dir();
        if ty1 == mbr && W::below_eq(ty2, rank + up) {
            return true;
        }
        if W::above(ty2, rank + 2 * up) || W::above(ty1, rank + up) {
            return false;
        }
        if (W::below_eq(ty2, rank) && ty1 == rank + up && W::above(rank, W::rank(3)))
            && ((friendly_pawns.contains_checked(Coord::new_unchecked(file - 1, rank + down))
                && !enemy_pawns.contains_checked(Coord::new_unchecked(file - 1, rank))
                && !enemy_pawns.contains_checked(Coord::new_unchecked(file - 2, rank + up)))
            || (friendly_pawns.contains_checked(Coord::new_unchecked(file + 1, rank + down))
                && !enemy_pawns.contains_checked(Coord::new_unchecked(file + 1, rank))
                && !enemy_pawns.contains_checked(Coord::new_unchecked(file + 2, rank + up)))) {
            return true;
        }
        if enemy_pawns.contains_checked(Coord::new(file, rank + up)) {
            return false;
        }
        let bb = sqr.to_bitboard();
        let lever = Precomputed::pawn_attacks(bb, W::is_white()).and(enemy_pawns).count() as i32;
        let lever_push = Precomputed::pawn_attacks(bb.shifted_2d(W::up()), W::is_white()).and(enemy_pawns).count() as i32;
        let phalanx = Precomputed::pawn_attacks(bb.shifted_2d(W::down()), W::is_white()).and(friendly_pawns).count() as i32;
        if lever - (if supported.contains_square(s) { 1 } else { 0 }) > 1 {
            return false;
        }
        if lever_push - phalanx > 0 {
            return false;
        }
        if lever > 0 && lever_push > 0 {
            return false;
        }
        true
    }

    /// The candidate passed pawns of `W`.
    ///
    /// Requires: `supported`
    pub fn candidate_passed<W: Color, B: Color>(&self) -> (r: BitBoard)
        requires
            self.pawns_ready(),
            opposite::<W, B>(),
        ensures
            r.0 == candidate_passed_of(*self.board, W::spec_white()),
    {
        let ghost b = *self.board;
        let ghost w = W::spec_white();
        let supported = self.supported[W::index()].0;
        let mut r: u64 = 0;
        let mut i: i8 = 0;
        while i < 64
            invariant
                0 <= i <= 64,
                b == *self.board,
                w == W::spec_white(),
                opposite::<W, B>(),
                supported.0 == supported_of(b, w).0,
                r == mask_upto(candidate_pred(b, w), i as nat),
            decreases 64 - i,
        {
            let c = self.is_candidate_passed::<W, B>(Coord::from_idx(i), supported);
            proof {
                lemma_mask_step(candidate_pred(b, w), i as nat);
            }
            r = r | (if c { 1u64 << (i as u64) } else { 0u64 });
            i += 1;
        }
        BitBoard(r)
    }

    /// The candidate passed pawns of `W` that are free to advance or whose stopper can be
    /// traded.
    ///
    /// Requires: `candidate_passed`, `all_attacks`, `all_doubled_attacks`
    pub fn passed_leverable<W: Color, B: Color>(&self) -> (r: BitBoard)
        requires
            self.candidates_ready(),
            opposite::<W, B>(),
        ensures
            r.0 == passed_leverable_of(*self.board, W::spec_white()),
    {
        let passed = self.candidate_passed[W::index()];
        let pawns = self.side_pieces::<W>(Piece::PAWN);
        let enemies = self.side_all::<B>();
        let attacks = self.all_attacks[W::index()];
        let enemy_doubled = self.all_doubled_attacks[B::index()];
        passed.and(self.side_pieces::<B>(Piece::PAWN).shifted_2d(W::down()).not())
            .or(passed.and(pawns.shifted_2d(W::offset(1, 1))).and(enemies.shifted_2d(Coord::new(1, 0)).not())
                .and(attacks.shifted_2d(W::offset(1, 0)).or(enemy_doubled.shifted_2d(W::offset(1, 0)).not())))
            .or(passed.and(pawns.shifted_2d(W::offset(-1, 1))).and(enemies.shifted_2d(Coord::new(-1, 0)).not())
                .and(attacks.shifted_2d(W::offset(-1, 0)).or(enemy_doubled.shifted_2d(W::offset(-1, 0)).not())))
    }
}

} // verus!

verus! {

pub const PASSED_RANK_VAL_MG: [i32; 7] = [0, 10, 17, 15, 62, 168, 276];
pub const PASSED_RANK_VAL_EG: [i32; 7] = [0, 28, 33, 41, 72, 177, 260];

pub open spec fn min5(x: int) -> int {
    if x < 5 { x } else { 5 }
}

pub open spec fn max2(a: int, c: int) -> int {
    if a > c { a } else { c }
}

/// How near the kings are to the passed pawn of `w` on `s`: the enemy king far is good.
pub open spec fn king_proximity_at(b: Board, w: bool, s: int) -> int {
    let r = rel_rank(w, s / 8);
    let wt = if r > 2 { 5 * r - 13 } else { 0 };
    if !bit(passed_leverable_of(b, w), s) || wt <= 0 {
        0
    } else {
        let kw = b.king_square[side_index(w) as int];
        let kb = b.king_square[side_index(!w) as int];
        let off = if w { 1int } else { -1int };
        let d1 = min5(max2(abs(kb.rank - s / 8 - off), abs(kb.file - s % 8)));
        let d2 = min5(max2(abs(kw.rank - s / 8 - off), abs(kw.file - s % 8)));
        let d3 = min5(max2(abs(kw.rank - s / 8 - 2 * off), abs(kw.file - s % 8)));
        (d1 * 19 / 4) * wt - d2 * 2 * wt - (if r < 6 { d3 * wt } else { 0 })
    }
}

/// The passed pawns of `w` on its fourth to eighth rank whose next square is empty.
pub open spec fn block_candidates(b: Board, w: bool) -> u64 {
    let lo = if w { 3int } else { 0int };
    let hi = if w { 7int } else { 4int };
    squares_where(ranks_between(lo, hi)) & passed_leverable_of(b, w)
        & (pieces_of(b, w, Piece::PAWN) & !shift(b.all_pieces_bitboard.0, 0, -up_step(w)))
}

/// The bonus for how freely the passed pawn of `w` on `s` may advance.
pub open spec fn passed_block_at(b: Board, w: bool, s: int) -> int {
    if !bit(block_candidates(b, w), s) {
        0
    } else {
        let wt = 5 * rel_rank(w, s / 8) - 13;
        let ff = squares_where(forward_files_pred(w, s));
        let span = squares_where(pawn_attack_span_pred(w, s));
        let push = shift(square_bb(s), 0, up_step(w));
        let a = all_attacks_of(b, w);
        let ea = all_attacks_of(b, !w);
        let behind = squares_where(forward_files_pred(!w, s));
        let defenders = pieces_of(b, w, Piece::ROOK) | pieces_of(b, w, Piece::QUEEN);
        let attackers = pieces_of(b, !w, Piece::ROOK) | pieces_of(b, !w, Piece::QUEEN);
        let defended_1 = if behind & defenders != 0 { 1 } else { popcount(push & a) as int };
        let not_safe = if behind & attackers != 0 { 1 } else { popcount(ff & ea) as int };
        let not_safe_1 = if behind & attackers != 0 { 1 } else { popcount(push & ea) as int };
        let w_not_safe = popcount(span & ea) as int;
        let k = (if not_safe == 0 && w_not_safe == 0 { 35int } else if not_safe == 0 { 20int } else if not_safe_1 == 0 { 9int } else { 0int })
            + (if defended_1 != 0 { 5int } else { 0int });
        k * wt
    }
}

pub open spec fn passed_file_at(b: Board, w: bool, s: int) -> int {
    if bit(passed_leverable_of(b, w), s) { if s % 8 < 7 - s % 8 { s % 8 } else { 7 - s % 8 } } else { 0 }
}

pub open spec fn passed_rank_at(b: Board, w: bool, s: int) -> int {
    if bit(passed_leverable_of(b, w), s) { rel_rank(w, s / 8) } else { 0 }
}

pub open spec fn passed_fn(b: Board, w: bool, eg: bool) -> spec_fn(int) -> int {
    |s: int| {
        let r = passed_rank_at(b, w, s);
        let table = if r <= 6 { if eg { PASSED_RANK_VAL_EG[r] as int } else { PASSED_RANK_VAL_MG[r] as int } } else { 0 };
        table + passed_block_at(b, w, s) - (if eg { 8int } else { 11int }) * passed_file_at(b, w, s)
            + (if eg { king_proximity_at(b, w, s) } else { 0 })
    }
}

/// Returns `(mg, eg)`: the passed pawn score of `w`.
pub open spec fn passed_of(b: Board, w: bool) -> (int, int) {
    (sum_squares(passed_fn(b, w, false), 64), sum_squares(passed_fn(b, w, true), 64))
}

/// A leverable passed pawn is a pawn.
pub proof fn lemma_leverable_pawn(b: Board, w: bool, s: int)
    requires
        0 <= s < 64,
        bit(passed_leverable_of(b, w), s),
    ensures
        bit(pieces_of(b, w, Piece::PAWN), s),
{
    let c = candidate_passed_of(b, w);
    let u = up_step(w);
    let p = pieces_of(b, w, Piece::PAWN);
    let x = !shift(pieces_of(b, !w, Piece::PAWN), 0, -u);
    let y = shift(p, 1, u) & !shift(side_of(b, !w), 1, 0) & (shift(all_attacks_of(b, w), 1, 0) | !shift(all_doubled_of(b, !w), 1, 0));
    let z = shift(p, -1, u) & !shift(side_of(b, !w), -1, 0) & (shift(all_attacks_of(b, w), -1, 0) | !shift(all_doubled_of(b, !w), -1, 0));
    assert(c & shift(p, 1, u) & !shift(side_of(b, !w), 1, 0) & (shift(all_attacks_of(b, w), 1, 0) | !shift(all_doubled_of(b, !w), 1, 0))
        == c & y) by {
        let a1 = shift(p, 1, u);
        let a2 = !shift(side_of(b, !w), 1, 0);
        let a3 = shift(all_attacks_of(b, w), 1, 0) | !shift(all_doubled_of(b, !w), 1, 0);
        assert(c & a1 & a2 & a3 == c & (a1 & a2 & a3)) by (bit_vector);
    }
    assert(c & shift(p, -1, u) & !shift(side_of(b, !w), -1, 0) & (shift(all_attacks_of(b, w), -1, 0) | !shift(all_doubled_of(b, !w), -1, 0))
        == c & z) by {
        let a1 = shift(p, -1, u);
        let a2 = !shift(side_of(b, !w), -1, 0);
        let a3 = shift(all_attacks_of(b, w), -1, 0) | !shift(all_doubled_of(b, !w), -1, 0);
        assert(c & a1 & a2 & a3 == c & (a1 & a2 & a3)) by (bit_vector);
    }
    crate::bitboard::lemma_bit_ops(c & x, c & y, s);
    crate::bitboard::lemma_bit_ops((c & x) | (c & y), c & z, s);
    crate::bitboard::lemma_bit_ops(c, x, s);
    crate::bitboard::lemma_bit_ops(c, y, s);
    crate::bitboard::lemma_bit_ops(c, z, s);
    crate::bitboard::lemma_mask_bit(candidate_pred(b, w), 64, s);
}

} // verus!

verus! {

impl<'a> Evaluation<'a> {
    /// The distance term of a king on `k` to the square `file`, `rank` ahead of a pawn.
    fn king_term(k: Coord, file: i8, rank: i8) -> (r: i32)
        requires
            k.valid(),
            -16 <= rank <= 16,
            0 <= file < 8,
        ensures
            r == min5(max2(abs(k.rank - rank), abs(k.file - file))),
            0 <= r <= 5,
    {
        let dr = (k.rank - rank) as i32;
        let df = (k.file - file) as i32;
        let ar = if dr < 0 { -dr } else { dr };
        let af = if df < 0 { -df } else { df };
        let m = if ar > af { ar } else { af };
        if m < 5 { m } else { 5 }
    }

    /// How near the kings are to each leverable passed pawn of `W`.
    ///
    /// Requires: `passed_leverable`
    pub fn king_proximity<W: Color, B: Color>(&self) -> (r: SquareEvaluations)
        requires
            self.ready(),
            opposite::<W, B>(),
        ensures
            forall|s: int| 0 <= s < 64 ==> #[trigger] r.0[s] == king_proximity_at(*self.board, W::spec_white(), s),
            bounded(r.0, 1000),
    {
        let ghost b = *self.board;
        let ghost w = W::spec_white();
        let sqrs = self.passed_leverable[W::index()];
        let kw = self.king_square::<W, B>();
        let kb = self.king_square::<B, W>();
        proof {
            if w { assert(side_index(w) == 0 && side_index(!w) == 1); } else { assert(side_index(w) == 1 && side_index(!w) == 0); }
        }
        let offset: i8 = if W::is_white() { 1 } else { -1 };
        let mut eval = SquareEvaluations::new();
        let mut i: i8 = 0;
        while i < 64
            invariant
                0 <= i <= 64,
                b == *self.board,
                w == W::spec_white(),
                sqrs.0 == passed_leverable_of(b, w),
                kw.valid(),
                kb.valid(),
                kw == b.king_square[side_index(w) as int],
                kb == b.king_square[side_index(!w) as int],
                offset == (if w { 1int } else { -1int }),
                forall|s: int| 0 <= s < i ==> #[trigger] eval.0[s] == king_proximity_at(b, w, s),
                forall|s: int| i <= s < 64 ==> #[trigger] eval.0[s] == 0,
                bounded(eval.0, 1000),
            decreases 64 - i,
        {
            if sqrs.contains_square(i) {
                let sqr = Coord::from_idx(i);
                let r = W::rank(sqr.rank()) as i32;
                let wt = if r > 2 { 5 * r - 13 } else { 0 };
                if wt > 0 {
                    let d1 = Self::king_term(kb, sqr.file(), sqr.rank() + offset);
                    let d2 = Self::king_term(kw, sqr.file(), sqr.rank() + offset);
                    let d3 = Self::king_term(kw, sqr.file(), sqr.rank() + 2 * offset);
                    proof {
                        assert(0 <= d1 * 19 / 4 <= 23 && 0 <= wt <= 22);
                        assert(0 <= (d1 * 19 / 4) * wt <= 23 * 22) by (nonlinear_arith)
                            requires 0 <= d1 * 19 / 4 <= 23, 0 <= wt <= 22;
                        assert(0 <= d2 * 2 * wt <= 10 * 22) by (nonlinear_arith)
                            requires 0 <= d2 <= 5, 0 <= wt <= 22;
                        assert(0 <= d3 * wt <= 5 * 22) by (nonlinear_arith)
                            requires 0 <= d3 <= 5, 0 <= wt <= 22;
                    }
                    let mut v = d1 * 19 / 4 * wt;
                    v -= d2 * 2 * wt;
                    if r < 6 {
                        v -= d3 * wt;
                    }
                    eval.0[i as usize] = v;
                }
            }
            i += 1;
        }
        eval
    }

    /// The bonus for how freely each passed pawn of `W` may advance.
    ///
    /// Requires: `passed_leverable`, `all_attacks`
    pub fn passed_block<W: Color, B: Color>(&self) -> (r: SquareEvaluations)
        requires
            self.ready(),
            opposite::<W, B>(),
        ensures
            forall|s: int| 0 <= s < 64 ==> #[trigger] r.0[s] == passed_block_at(*self.board, W::spec_white(), s),
            bounded(r.0, 1000),
    {
        let ghost b = *self.board;
        let ghost w = W::spec_white();
        let (lo, hi) = W::ranks(3, 7);
        let pawns = self.side_pieces::<W>(Piece::PAWN).and(self.board.all_pieces_bitboard.shifted_2d(W::down()).not());
        let sqrs = BitBoard::from_ranks(lo, hi).and(self.passed_leverable[W::index()]).and(pawns);
        let attacks = self.all_attacks[W::index()];
        let enemy_attacks = self.all_attacks[B::index()];
        let defenders = self.side_pieces::<W>(Piece::ROOK).or(self.side_pieces::<W>(Piece::QUEEN));
        let attackers = self.side_pieces::<B>(Piece::ROOK).or(self.side_pieces::<B>(Piece::QUEEN));
        let mut eval = SquareEvaluations::new();
        let mut i: i8 = 0;
        while i < 64
            invariant
                0 <= i <= 64,
                b == *self.board,
                w == W::spec_white(),
                opposite::<W, B>(),
                sqrs.0 == block_candidates(b, w),
                attacks.0 == all_attacks_of(b, w),
                enemy_attacks.0 == all_attacks_of(b, !w),
                defenders.0 == pieces_of(b, w, Piece::ROOK) | pieces_of(b, w, Piece::QUEEN),
                attackers.0 == pieces_of(b, !w, Piece::ROOK) | pieces_of(b, !w, Piece::QUEEN),
                forall|s: int| 0 <= s < i ==> #[trigger] eval.0[s] == passed_block_at(b, w, s),
                forall|s: int| i <= s < 64 ==> #[trigger] eval.0[s] == 0,
                bounded(eval.0, 1000),
            decreases 64 - i,
        {
            if sqrs.contains_square(i) {
                proof {
                    lemma_block_rank(b, w, i as int);
                }
                let sqr = Coord::from_idx(i);
                let r = W::rank(sqr.rank()) as i32;
                let wt = 5 * r - 13;
                let forward_file = Precomputed::forward_files(W::index(), sqr);
                let span = Precomputed::pawn_attack_span(W::index(), sqr);
                let push_sqr = sqr.to_bitboard().shifted_2d(W::up());
                let mut not_safe = forward_file.and(enemy_attacks).count() as i32;
                let w_not_safe = span.and(enemy_attacks).count() as i32;
                let mut defended_1 = push_sqr.and(attacks).count() as i32;
                let mut not_safe_1 = push_sqr.and(enemy_attacks).count() as i32;
                let backward_file = Precomputed::forward_files(B::index(), sqr);
                if backward_file.and(defenders).0 != 0 {
                    defended_1 = 1;
                }
                if backward_file.and(attackers).0 != 0 {
                    not_safe = 1;
                    not_safe_1 = 1;
                }
                let k = if not_safe == 0 && w_not_safe == 0 { 35 }
                    else if not_safe == 0 { 20 }
                    else if not_safe_1 == 0 { 9 }
                    else { 0 }
                    + if defended_1 != 0 { 5 } else { 0 };
                proof {
                    assert(0 <= k * wt <= 40 * 22) by (nonlinear_arith)
                        requires 0 <= k <= 40, 2 <= wt <= 22;
                }
                eval.0[i as usize] = k * wt;
            }
            i += 1;
        }
        eval
    }

    /// The file of each leverable passed pawn of `W`, counted from the nearer edge.
    pub fn passed_file<W: Color, B: Color>(&self) -> (r: SquareEvaluations)
        requires
            self.ready(),
        ensures
            forall|s: int| 0 <= s < 64 ==> #[trigger] r.0[s] == passed_file_at(*self.board, W::spec_white(), s),
            bounded(r.0, 7),
    {
        let sqrs = self.passed_leverable[W::index()];
        let mut eval = SquareEvaluations::new();
        let mut i: i8 = 0;
        while i < 64
            invariant
                0 <= i <= 64,
                sqrs.0 == passed_leverable_of(*self.board, W::spec_white()),
                forall|s: int| 0 <= s < i ==> #[trigger] eval.0[s] == passed_file_at(*self.board, W::spec_white(), s),
                forall|s: int| i <= s < 64 ==> #[trigger] eval.0[s] == 0,
                bounded(eval.0, 7),
            decreases 64 - i,
        {
            if sqrs.contains_square(i) {
                let f = i % 8;
                eval.0[i as usize] = (if f < 7 - f { f } else { 7 - f }) as i32;
            }
            i += 1;
        }
        eval
    }

    /// The rank of each leverable passed pawn of `W`, counted from its side.
    pub fn passed_rank<W: Color, B: Color>(&self) -> (r: SquareEvaluations)
        requires
            self.ready(),
        ensures
            forall|s: int| 0 <= s < 64 ==> #[trigger] r.0[s] == passed_rank_at(*self.board, W::spec_white(), s),
            bounded(r.0, 7),
    {
        let sqrs = self.passed_leverable[W::index()];
        let mut eval = SquareEvaluations::new();
        let mut i: i8 = 0;
        while i < 64
            invariant
                0 <= i <= 64,
                sqrs.0 == passed_leverable_of(*self.board, W::spec_white()),
                forall|s: int| 0 <= s < i ==> #[trigger] eval.0[s] == passed_rank_at(*self.board, W::spec_white(), s),
                forall|s: int| i <= s < 64 ==> #[trigger] eval.0[s] == 0,
                bounded(eval.0, 7),
            decreases 64 - i,
        {
            if sqrs.contains_square(i) {
                eval.0[i as usize] = W::rank(i / 8) as i32;
            }
            i += 1;
        }
        eval
    }

    /// Returns `(mg, eg)`: the passed pawn score of `W`.
    pub fn passed<W: Color, B: Color>(&self) -> (r: (i32, i32))
        requires
            self.ready(),
            opposite::<W, B>(),
            pawns_on_board(*self.board, W::spec_white()),
        ensures
            r.0 == passed_of(*self.board, W::spec_white()).0,
            r.1 == passed_of(*self.board, W::spec_white()).1,
            -192000 <= r.0 <= 192000,
            -192000 <= r.1 <= 192000,
    {
        let ghost b = *self.board;
        let ghost w = W::spec_white();
        let passed_rank = self.passed_rank::<W, B>();
        let passed_block = self.passed_block::<W, B>();
        let passed_file = self.passed_file::<W, B>();
        let proximity = self.king_proximity::<W, B>();
        let mut mg: i32 = 0;
        let mut eg: i32 = 0;
        let mut i: usize = 0;
        while i < 64
            invariant
                i <= 64,
                b == *self.board,
                w == W::spec_white(),
                pawns_on_board(b, w),
                forall|s: int| 0 <= s < 64 ==> #[trigger] passed_rank.0[s] == passed_rank_at(b, w, s),
                forall|s: int| 0 <= s < 64 ==> #[trigger] passed_block.0[s] == passed_block_at(b, w, s),
                forall|s: int| 0 <= s < 64 ==> #[trigger] passed_file.0[s] == passed_file_at(b, w, s),
                forall|s: int| 0 <= s < 64 ==> #[trigger] proximity.0[s] == king_proximity_at(b, w, s),
                bounded(passed_block.0, 1000),
                bounded(passed_file.0, 7),
                bounded(proximity.0, 1000),
                mg == sum_squares(passed_fn(b, w, false), i as nat),
                eg == sum_squares(passed_fn(b, w, true), i as nat),
                -3000 * i <= mg <= 3000 * i,
                -3000 * i <= eg <= 3000 * i,
            decreases 64 - i,
        {
            let r = passed_rank.0[i];
            proof {
                assert(passed_rank.0[i as int] == passed_rank_at(b, w, i as int));
                assert(-1000 <= passed_block.0[i as int] <= 1000);
                assert(-7 <= passed_file.0[i as int] <= 7);
                assert(-1000 <= proximity.0[i as int] <= 1000);
                if bit(passed_leverable_of(b, w), i as int) {
                    lemma_leverable_pawn(b, w, i as int);
                    assert(bit(pieces_of(b, w, Piece::PAWN), i as int));
                }
                assert(PASSED_RANK_VAL_MG@ =~= seq![0i32, 10, 17, 15, 62, 168, 276]);
                assert(PASSED_RANK_VAL_EG@ =~= seq![0i32, 28, 33, 41, 72, 177, 260]);
            }
            let ru = r as usize;
            mg = mg + PASSED_RANK_VAL_MG[ru] + passed_block.0[i] - 11 * passed_file.0[i];
            eg = eg + PASSED_RANK_VAL_EG[ru] + passed_block.0[i] - 8 * passed_file.0[i] + proximity.0[i];
            i += 1;
        }
        (mg, eg)
    }
}

/// A block candidate stands on the fourth to eighth rank of its side.
pub proof fn lemma_block_rank(b: Board, w: bool, s: int)
    requires
        0 <= s < 64,
        bit(block_candidates(b, w), s),
    ensures
        3 <= rel_rank(w, s / 8) <= 7,
{
    let lo = if w { 3int } else { 0int };
    let hi = if w { 7int } else { 4int };
    let x = squares_where(ranks_between(lo, hi));
    let y = passed_leverable_of(b, w);
    let z = pieces_of(b, w, Piece::PAWN) & !shift(b.all_pieces_bitboard.0, 0, -up_step(w));
    crate::bitboard::lemma_bit_ops(x, y, s);
    crate::bitboard::lemma_bit_ops(x & y, z, s);
    crate::bitboard::lemma_mask_bit(ranks_between(lo, hi), 64, s);
}

} // verus!

verus! {

/// With no pawn on the first or last rank, every pawn stands below its last rank.
pub proof fn lemma_inside_on_board(b: Board, w: bool)
    requires
        b.pawns_inside(),
    ensures
        pawns_on_board(b, w),
{
    crate::piece::lemma_with_color(Piece::PAWN, crate::color::color_flag(w));
    assert forall|s: int| 0 <= s < 64 && #[trigger] bit(pieces_of(b, w, Piece::PAWN), s) implies rel_rank(w, s / 8) <= 6 by {
        if w {
            assert(bit(b.piece_bitboards[9].0, s));
        } else {
            assert(bit(b.piece_bitboards[17].0, s));
        }
    }
}

} // verus!
