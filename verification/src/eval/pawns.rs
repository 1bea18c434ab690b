//! Pawn structure: isolated, opposed, backward, doubled, connected and blocked pawns.
use vstd::prelude::*;
use crate::bitboard::{BitBoard, bit, squares_where, mask_upto, lemma_mask_step, popcount, shift_pred, ranks_between, lemma_bits_identity, lemma_bit_ops, lemma_mask_bit};
use crate::bitboard::square_values::{SquareEvaluations, bounded, sum_below};
use crate::board::Board;
use crate::color::{Color, up_step, rel_rank, side_index};
use crate::coord::Coord;
use crate::piece::Piece;
use crate::precomp::{Precomputed, adjacent_files_pred, forward_files_pred, pawn_attack_span_pred};
use crate::eval::{Evaluation, opposite, pieces_of, shift};
use crate::eval::attack::type_attacks;

verus! {

/// Pawns of `w` with no pawn of `w` on an adjacent file.
pub open spec fn isolated_pred(b: Board, w: bool) -> spec_fn(int) -> bool {
    |s: int| bit(pieces_of(b, w, Piece::PAWN), s)
        && squares_where(adjacent_files_pred(s % 8)) & pieces_of(b, w, Piece::PAWN) == 0
}

pub open spec fn isolated_of(b: Board, w: bool) -> u64 {
    squares_where(isolated_pred(b, w))
}

/// Pawns of `w` with an enemy pawn ahead on their file.
pub open spec fn opposed_pred(b: Board, w: bool) -> spec_fn(int) -> bool {
    |s: int| bit(pieces_of(b, w, Piece::PAWN), s)
        && squares_where(forward_files_pred(w, s)) & pieces_of(b, !w, Piece::PAWN) != 0
}

pub open spec fn opposed_of(b: Board, w: bool) -> u64 {
    squares_where(opposed_pred(b, w))
}

/// Pawns of `w` with a pawn of `w` beside them.
pub open spec fn phalanx_of(b: Board, w: bool) -> u64 {
    let p = pieces_of(b, w, Piece::PAWN);
    p & (shift(p, -1, 0) | shift(p, 1, 0))
}

/// Pawns of `w` defended by a pawn of `w`, and those defended by two.
pub open spec fn supported_of(b: Board, w: bool) -> (u64, u64) {
    let p = pieces_of(b, w, Piece::PAWN);
    (p & type_attacks(b, w, Piece::PAWN).0, p & type_attacks(b, w, Piece::PAWN).1)
}

/// Pawns of `w` whose advance is stopped or attacked by enemy pawns.
pub open spec fn backward_candidates(b: Board, w: bool) -> u64 {
    let e = pieces_of(b, !w, Piece::PAWN);
    let u = up_step(w);
    pieces_of(b, w, Piece::PAWN) & (shift(e, -1, -2 * u) | shift(e, 1, -2 * u) | shift(e, 0, -u))
}

/// Such a pawn with no pawn of `w` beside or behind it on an adjacent file.
pub open spec fn backward_pred(b: Board, w: bool) -> spec_fn(int) -> bool {
    |s: int| bit(backward_candidates(b, w), s)
        && squares_where(pawn_attack_span_pred(!w, s + 8 * up_step(w))) & pieces_of(b, w, Piece::PAWN) == 0
}

pub open spec fn backward_of(b: Board, w: bool) -> u64 {
    squares_where(backward_pred(b, w))
}

/// Pawns of `w` with a pawn of `w` right behind, not supported from the side.
pub open spec fn doubled_of(b: Board, w: bool) -> u64 {
    let p = pieces_of(b, w, Piece::PAWN);
    let u = up_step(w);
    p & shift(p, 0, u) & !shift(p, -1, u) & !shift(p, 1, u)
}

pub open spec fn connected_of(b: Board, w: bool) -> u64 {
    supported_of(b, w).0 | phalanx_of(b, w)
}

pub const CONNECTED_BONUS_SEED: [i32; 7] = [0, 7, 8, 12, 29, 48, 86];

/// The connected pawn bonus on square `s`.
pub open spec fn connected_bonus_at(b: Board, w: bool, s: int) -> int {
    if bit(connected_of(b, w), s) && 1 <= rel_rank(w, s / 8) <= 6 {
        CONNECTED_BONUS_SEED[rel_rank(w, s / 8)] as int
            * (2 + (if bit(phalanx_of(b, w), s) { 1int } else { 0int }) - (if bit(opposed_of(b, w), s) { 1int } else { 0int }))
            + 21 * ((if bit(supported_of(b, w).0, s) { 1int } else { 0int })
                + (if bit(supported_of(b, w).1, s) { 1int } else { 0int }))
    } else {
        0
    }
}

/// Pawns of `w` attacked by two enemy pawns and defended by none.
pub open spec fn weak_lever_of(b: Board, w: bool) -> u64 {
    let p = pieces_of(b, w, Piece::PAWN);
    let e = pieces_of(b, !w, Piece::PAWN);
    let u = up_step(w);
    p & shift(e, -1, -u) & shift(e, 1, -u) & !shift(p, -1, u) & !shift(p, 1, u)
}

/// Pawns of `w` stopped by an enemy pawn on the fifth and on the sixth rank of `w`.
pub open spec fn blocked_of(b: Board, w: bool) -> (u64, u64) {
    let blocked = pieces_of(b, w, Piece::PAWN) & shift(pieces_of(b, !w, Piece::PAWN), 0, -up_step(w));
    (
        blocked & squares_where(ranks_between(rel_rank(w, 4), rel_rank(w, 4))),
        blocked & squares_where(ranks_between(rel_rank(w, 5), rel_rank(w, 5))),
    )
}

/// Isolated pawns of `w` with a pawn of `w` behind, an enemy pawn ahead and no enemy pawn on an
/// adjacent file.
pub open spec fn doubled_isolated_pred(b: Board, w: bool) -> spec_fn(int) -> bool {
    |s: int| bit(isolated_of(b, w), s)
        && popcount(squares_where(forward_files_pred(!w, s)) & pieces_of(b, w, Piece::PAWN)) > 0
        && popcount(squares_where(adjacent_files_pred(s % 8)) & pieces_of(b, !w, Piece::PAWN)) == 0
        && popcount(squares_where(forward_files_pred(w, s)) & pieces_of(b, !w, Piece::PAWN)) > 0
}

pub open spec fn doubled_isolated_of(b: Board, w: bool) -> u64 {
    squares_where(doubled_isolated_pred(b, w))
}

/// Isolated pawns not counted as doubled isolated, and backward pawns counted as neither.
pub open spec fn pawn_weakness(b: Board, w: bool) -> (u64, u64, u64) {
    let di = doubled_isolated_of(b, w);
    let iso = isolated_of(b, w) & !di;
    let back = backward_of(b, w) & !(di | iso);
    (di, iso, back)
}

/// The middle game pawn structure score of `w`.
pub open spec fn pawns_mg_of(b: Board, w: bool) -> int {
    let connected_total = sum_squares(connected_bonus_fn(b, w), 64);
    let (di, iso, back) = pawn_weakness(b, w);
    let unopposed = !opposed_of(b, w);
    let blocked = blocked_of(b, w);
    -11 * popcount(di) - 5 * popcount(iso) - 9 * popcount(back) - 11 * popcount(doubled_of(b, w))
        + connected_total
        - 13 * (popcount(unopposed & isolated_of(b, w)) + popcount(unopposed & backward_of(b, w)))
        - 11 * popcount(blocked.0) - 3 * popcount(blocked.1)
}

/// Rust's `/` on integers: the quotient rounded towards zero.
pub open spec fn div_trunc(a: int, d: int) -> int {
    if a >= 0 { a / d } else { -((-a) / d) }
}

/// The connected bonus of `s` scaled by `(rank - 2) / 4` for the endgame, rounded towards zero.
pub open spec fn connected_eg_at(b: Board, w: bool, s: int) -> int {
    div_trunc(connected_bonus_at(b, w, s) * (rel_rank(w, s / 8) - 2), 4)
}

/// The endgame pawn structure score of `w`.
pub open spec fn pawns_eg_of(b: Board, w: bool) -> int {
    let connected_total = sum_squares(connected_eg_fn(b, w), 64);
    let (di, iso, back) = pawn_weakness(b, w);
    let unopposed = !opposed_of(b, w);
    let blocked = blocked_of(b, w);
    -56 * popcount(di) - 15 * popcount(iso) - 24 * popcount(back) - 56 * popcount(doubled_of(b, w))
        + connected_total
        - 27 * (popcount(unopposed & isolated_of(b, w)) + popcount(unopposed & backward_of(b, w)))
        - 56 * popcount(weak_lever_of(b, w))
        - 4 * popcount(blocked.0) + 4 * popcount(blocked.1)
}

/// The sum of `f` over the squares below `n`.
pub open spec fn sum_squares(f: spec_fn(int) -> int, n: nat) -> int
    decreases n,
{
    if n == 0 { 0 } else { sum_squares(f, (n - 1) as nat) + f(n - 1) }
}

pub open spec fn connected_bonus_fn(b: Board, w: bool) -> spec_fn(int) -> int {
    |s: int| connected_bonus_at(b, w, s)
}

pub open spec fn connected_eg_fn(b: Board, w: bool) -> spec_fn(int) -> int {
    |s: int| connected_eg_at(b, w, s)
}

/// A bonus is at most 86 * 3 + 21.
pub proof fn lemma_connected_bonus_bound(b: Board, w: bool, s: int)
    ensures
        0 <= connected_bonus_at(b, w, s) <= 300,
{
    if bit(connected_of(b, w), s) && 1 <= rel_rank(w, s / 8) <= 6 {
        let k = rel_rank(w, s / 8);
        let seed = CONNECTED_BONUS_SEED[k] as int;
        assert(0 <= seed <= 86) by {
            assert(CONNECTED_BONUS_SEED@ =~= seq![0i32, 7, 8, 12, 29, 48, 86]);
        }
        let m = 2 + (if bit(phalanx_of(b, w), s) { 1int } else { 0int }) - (if bit(opposed_of(b, w), s) { 1int } else { 0int });
        assert(0 <= seed * m <= 258) by (nonlinear_arith)
            requires 0 <= seed <= 86, 1 <= m <= 3;
    }
}

impl<'a> Evaluation<'a> {
    /// The isolated pawns of `W`.
    pub fn isolated<W: Color, B: Color>(&self) -> (r: BitBoard)
        ensures
            r.0 == isolated_of(*self.board, W::spec_white()),
    {
        let ghost b = *self.board;
        let ghost w = W::spec_white();
        let pawns = self.side_pieces::<W>(Piece::PAWN);
        let mut r: u64 = 0;
        let mut i: i8 = 0;
        while i < 64
            invariant
                0 <= i <= 64,
                b == *self.board,
                w == W::spec_white(),
                pawns.0 == pieces_of(b, w, Piece::PAWN),
                r == mask_upto(isolated_pred(b, w), i as nat),
            decreases 64 - i,
        {
            let sqr = Coord::from_idx(i);
            let c = pawns.contains_square(i) && Precomputed::adjacent_file_mask(sqr.file() as usize).0 & pawns.0 == 0;
            proof {
                lemma_mask_step(isolated_pred(b, w), i as nat);
            }
            r = r | (if c { 1u64 << (i as u64) } else { 0u64 });
            i += 1;
        }
        BitBoard(r)
    }

    /// The pawns of `W` with an enemy pawn ahead on their file.
    pub fn opposed<W: Color, B: Color>(&self) -> (r: BitBoard)
        requires
            opposite::<W, B>(),
        ensures
            r.0 == opposed_of(*self.board, W::spec_white()),
    {
        let ghost b = *self.board;
        let ghost w = W::spec_white();
        let pawns = self.side_pieces::<W>(Piece::PAWN);
        let enemy = self.side_pieces::<B>(Piece::PAWN);
        let mut r: u64 = 0;
        let mut i: i8 = 0;
        while i < 64
            invariant
                0 <= i <= 64,
                b == *self.board,
                w == W::spec_white(),
                pawns.0 == pieces_of(b, w, Piece::PAWN),
                enemy.0 == pieces_of(b, !w, Piece::PAWN),
                r == mask_upto(opposed_pred(b, w), i as nat),
            decreases 64 - i,
        {
            let c = pawns.contains_square(i) && Precomputed::forward_files(W::index(), Coord::from_idx(i)).0 & enemy.0 != 0;
            proof {
                lemma_mask_step(opposed_pred(b, w), i as nat);
            }
            r = r | (if c { 1u64 << (i as u64) } else { 0u64 });
            i += 1;
        }
        BitBoard(r)
    }

    /// The pawns of `W` with a pawn of `W` beside them.
    pub fn phalanx<W: Color, B: Color>(&self) -> (r: BitBoard)
        ensures
            r.0 == phalanx_of(*self.board, W::spec_white()),
    {
        let pawns = self.side_pieces::<W>(Piece::PAWN);
        pawns.and(pawns.shifted_2d(Coord::new(-1, 0)).or(pawns.shifted_2d(Coord::new(1, 0))))
    }

    /// Returns `(supported once or more, supported twice)`
    pub fn supported<W: Color, B: Color>(&self) -> (r: (BitBoard, BitBoard))
        requires
            self.attacks_ready(),
        ensures
            r.0.0 == supported_of(*self.board, W::spec_white()).0,
            r.1.0 == supported_of(*self.board, W::spec_white()).1,
    {
        let attacks = self.attacks_by::<W, B>(Piece::PAWN);
        let pawns = self.side_pieces::<W>(Piece::PAWN);
        (pawns.and(attacks.0), pawns.and(attacks.1))
    }

    /// The backward pawns of `W`.
    pub fn backward<W: Color, B: Color>(&self) -> (r: BitBoard)
        requires
            opposite::<W, B>(),
        ensures
            r.0 == backward_of(*self.board, W::spec_white()),
    {
        let ghost b = *self.board;
        let ghost w = W::spec_white();
        let own = self.side_pieces::<W>(Piece::PAWN);
        let opp_pawns = self.side_pieces::<B>(Piece::PAWN);
        let pawns = own.and(opp_pawns.shifted_2d(W::offset(-1, -2))
            .or(opp_pawns.shifted_2d(W::offset(1, -2)))
            .or(opp_pawns.shifted_2d(W::offset(0, -1))));
        assert(pawns.0 == backward_candidates(b, w));
        let mut r: u64 = 0;
        let mut i: i8 = 0;
        while i < 64
            invariant
                0 <= i <= 64,
                b == *self.board,
                w == W::spec_white(),
                own.0 == pieces_of(b, w, Piece::PAWN),
                pawns.0 == backward_candidates(b, w),
                opposite::<W, B>(),
                r == mask_upto(backward_pred(b, w), i as nat),
            decreases 64 - i,
        {
            let mut c = false;
            if pawns.contains_square(i) {
                proof {
                    lemma_candidate_ahead(b, w, i as int);
                }
                let sqr = Coord::from_idx(i);
                let ahead = sqr.add(W::up());
                c = Precomputed::pawn_attack_span(B::index(), ahead).0 & own.0 == 0;
            }
            proof {
                lemma_mask_step(backward_pred(b, w), i as nat);
            }
            r = r | (if c { 1u64 << (i as u64) } else { 0u64 });
            i += 1;
        }
        BitBoard(r)
    }

    /// The doubled pawns of `W`.
    pub fn doubled<W: Color, B: Color>(&self) -> (r: BitBoard)
        ensures
            r.0 == doubled_of(*self.board, W::spec_white()),
    {
        let pawns = self.side_pieces::<W>(Piece::PAWN);
        pawns.and(pawns.shifted_2d(W::offset(0, 1)))
            .and(pawns.shifted_2d(W::offset(-1, 1)).not())
            .and(pawns.shifted_2d(W::offset(1, 1)).not())
    }

    /// The connected pawns of `W`: supported or in a phalanx.
    pub fn connected<W: Color, B: Color>(&self) -> (r: BitBoard)
        requires
            self.attacks_ready(),
        ensures
            r.0 == connected_of(*self.board, W::spec_white()),
    {
        self.supported::<W, B>().0.or(self.phalanx::<W, B>())
    }

    /// The bonus of each connected pawn of `W`.
    pub fn connected_bonus<W: Color, B: Color>(&self) -> (r: SquareEvaluations)
        requires
            self.attacks_ready(),
            opposite::<W, B>(),
        ensures
            forall|s: int| 0 <= s < 64 ==> #[trigger] r.0[s] == connected_bonus_at(*self.board, W::spec_white(), s),
            bounded(r.0, 300),
    {
        let ghost b = *self.board;
        let ghost w = W::spec_white();
        let (lo, hi) = W::ranks(1, 6);
        let connected = self.connected::<W, B>().and(BitBoard::from_ranks(lo, hi));
        let opposed = self.opposed::<W, B>();
        let phalanx = self.phalanx::<W, B>();
        let supported_pair = self.supported::<W, B>();
        let supported = supported_pair.0;
        let supported_twice = supported_pair.1;
        let mut evals = SquareEvaluations::new();
        let mut i: i8 = 0;
        while i < 64
            invariant
                0 <= i <= 64,
                b == *self.board,
                w == W::spec_white(),
                connected.0 == connected_of(b, w) & squares_where(ranks_between(lo as int, hi as int)),
                (lo as int, hi as int) == (if w { (1int, 6int) } else { (1int, 6int) }),
                opposed.0 == opposed_of(b, w),
                phalanx.0 == phalanx_of(b, w),
                supported.0 == supported_of(b, w).0,
                supported_twice.0 == supported_of(b, w).1,
                opposite::<W, B>(),
                forall|s: int| 0 <= s < i ==> #[trigger] evals.0[s] == connected_bonus_at(b, w, s),
                forall|s: int| i <= s < 64 ==> #[trigger] evals.0[s] == 0,
            decreases 64 - i,
        {
            proof {
                lemma_bit_ops(connected_of(b, w), squares_where(ranks_between(lo as int, hi as int)), i as int);
                lemma_mask_bit(ranks_between(lo as int, hi as int), 64, i as int);
            }
            if connected.contains_square(i) {
                let rank = W::rank(i / 8);
                proof {
                    assert(CONNECTED_BONUS_SEED@ =~= seq![0i32, 7, 8, 12, 29, 48, 86]);
                }
                let seed = CONNECTED_BONUS_SEED[rank as usize];
                let m = 2 + phalanx.square_value(i) - opposed.square_value(i);
                proof {
                    assert(0 <= seed * m <= 258) by (nonlinear_arith)
                        requires 0 <= seed <= 86, 1 <= m <= 3;
                }
                let v = seed * m + 21 * (supported.square_value(i) + supported_twice.square_value(i));
                evals.0[i as usize] = v;
            }
            i += 1;
        }
        proof {
            assert forall|s: int| 0 <= s < 64 implies -300 <= #[trigger] evals.0[s] <= 300 by {
                lemma_connected_bonus_bound(b, w, s);
            }
        }
        evals
    }
}

/// A backward candidate has a square ahead of it on the board.
pub proof fn lemma_candidate_ahead(b: Board, w: bool, s: int)
    requires
        0 <= s < 64,
        bit(backward_candidates(b, w), s),
    ensures
        0 <= s + 8 * up_step(w) < 64,
{
    crate::eval::lemma_shift_source(pieces_of(b, !w, Piece::PAWN), -1, -2 * up_step(w), s);
    crate::eval::lemma_shift_source(pieces_of(b, !w, Piece::PAWN), 1, -2 * up_step(w), s);
    crate::eval::lemma_shift_source(pieces_of(b, !w, Piece::PAWN), 0, -up_step(w), s);
    crate::eval::lemma_bit_and_or3(pieces_of(b, w, Piece::PAWN),
        shift(pieces_of(b, !w, Piece::PAWN), -1, -2 * up_step(w)),
        shift(pieces_of(b, !w, Piece::PAWN), 1, -2 * up_step(w)),
        shift(pieces_of(b, !w, Piece::PAWN), 0, -up_step(w)), s);
}

impl<'a> Evaluation<'a> {
    /// Returns `(isolated, backward)`: the weak pawns of `W` with no enemy pawn ahead.
    pub fn weak_unopposed_pawn<W: Color, B: Color>(&self) -> (r: (BitBoard, BitBoard))
        requires
            opposite::<W, B>(),
        ensures
            r.0.0 == !opposed_of(*self.board, W::spec_white()) & isolated_of(*self.board, W::spec_white()),
            r.1.0 == !opposed_of(*self.board, W::spec_white()) & backward_of(*self.board, W::spec_white()),
    {
        let unopposed = self.opposed::<W, B>().not();
        (unopposed.and(self.isolated::<W, B>()), unopposed.and(self.backward::<W, B>()))
    }

    /// The pawns of `W` attacked by two enemy pawns and defended by none.
    pub fn weak_lever<W: Color, B: Color>(&self) -> (r: BitBoard)
        requires
            opposite::<W, B>(),
        ensures
            r.0 == weak_lever_of(*self.board, W::spec_white()),
    {
        let pawns = self.side_pieces::<W>(Piece::PAWN);
        let enemy = self.side_pieces::<B>(Piece::PAWN);
        pawns.and(enemy.shifted_2d(W::offset(-1, -1))).and(enemy.shifted_2d(W::offset(1, -1)))
            .and(pawns.shifted_2d(W::offset(-1, 1)).not()).and(pawns.shifted_2d(W::offset(1, 1)).not())
    }
}

impl<'a> Evaluation<'a> {
    /// Returns `(on fifth rank, on sixth rank)`: the pawns of `W` stopped by an enemy pawn.
    pub fn blocked<W: Color, B: Color>(&self) -> (r: (BitBoard, BitBoard))
        requires
            opposite::<W, B>(),
        ensures
            r.0.0 == blocked_of(*self.board, W::spec_white()).0,
            r.1.0 == blocked_of(*self.board, W::spec_white()).1,
    {
        let pawns = self.side_pieces::<W>(Piece::PAWN);
        let blockers = self.side_pieces::<B>(Piece::PAWN).shifted_2d(W::down());
        let blocked = pawns.and(blockers);
        let r4 = W::rank(4);
        let r5 = W::rank(5);
        (blocked.and(BitBoard::from_ranks(r4, r4)), blocked.and(BitBoard::from_ranks(r5, r5)))
    }

    /// The isolated pawns of `W` with a pawn of `W` behind and an enemy pawn ahead on their file,
    /// and no enemy pawn on an adjacent file.
    pub fn doubled_isolated<W: Color, B: Color>(&self) -> (r: BitBoard)
        requires
            opposite::<W, B>(),
        ensures
            r.0 == doubled_isolated_of(*self.board, W::spec_white()),
    {
        let ghost b = *self.board;
        let ghost w = W::spec_white();
        let friendly_pawns = self.side_pieces::<W>(Piece::PAWN);
        let enemy_pawns = self.side_pieces::<B>(Piece::PAWN);
        let pawns = self.isolated::<W, B>();
        let mut r: u64 = 0;
        let mut i: i8 = 0;
        while i < 64
            invariant
                0 <= i <= 64,
                b == *self.board,
                w == W::spec_white(),
                opposite::<W, B>(),
                friendly_pawns.0 == pieces_of(b, w, Piece::PAWN),
                enemy_pawns.0 == pieces_of(b, !w, Piece::PAWN),
                pawns.0 == isolated_of(b, w),
                r == mask_upto(doubled_isolated_pred(b, w), i as nat),
            decreases 64 - i,
        {
            let mut c = false;
            if pawns.contains_square(i) {
                let sqr = Coord::from_idx(i);
                let behind_pawns = Precomputed::forward_files(B::index(), sqr).and(friendly_pawns);
                let opposers = Precomputed::forward_files(W::index(), sqr).and(enemy_pawns);
                let adjacent = Precomputed::adjacent_file_mask(sqr.file() as usize).and(enemy_pawns);
                c = behind_pawns.count() > 0 && adjacent.count() == 0 && opposers.count() > 0;
            }
            proof {
                lemma_mask_step(doubled_isolated_pred(b, w), i as nat);
            }
            r = r | (if c { 1u64 << (i as u64) } else { 0u64 });
            i += 1;
        }
        BitBoard(r)
    }

    /// The middle game pawn structure score of `W`.
    pub fn pawns_mg<W: Color, B: Color>(&self) -> (r: i32)
        requires
            self.attacks_ready(),
            opposite::<W, B>(),
        ensures
            r == pawns_mg_of(*self.board, W::spec_white()),
            -60000 <= r <= 60000,
    {
        let ghost b = *self.board;
        let ghost w = W::spec_white();
        let doubled_isolated = self.doubled_isolated::<W, B>();
        let isolated = self.isolated::<W, B>().and(doubled_isolated.not());
        let backward = self.backward::<W, B>().and(doubled_isolated.or(isolated).not());
        let bonus = self.connected_bonus::<W, B>();
        let connected_total = bonus.count();
        proof {
            lemma_sum_squares_of(bonus.0, connected_bonus_fn(b, w), 64);
            crate::bitboard::square_values::lemma_sum_bound(bonus.0, 300, 64);
        }
        let weak_unopposed = self.weak_unopposed_pawn::<W, B>();
        let blocked = self.blocked::<W, B>();
        let mut v: i32 = 0;
        v -= 11 * doubled_isolated.count() as i32;
        v -= 5 * isolated.count() as i32;
        v -= 9 * backward.count() as i32;
        v -= 11 * self.doubled::<W, B>().count() as i32;
        v += connected_total;
        v -= 13 * (weak_unopposed.0.count() as i32 + weak_unopposed.1.count() as i32);
        v -= 11 * blocked.0.count() as i32;
        v -= 3 * blocked.1.count() as i32;
        v
    }

    /// The endgame pawn structure score of `W`.
    pub fn pawns_eg<W: Color, B: Color>(&self) -> (r: i32)
        requires
            self.attacks_ready(),
            opposite::<W, B>(),
        ensures
            r == pawns_eg_of(*self.board, W::spec_white()),
            -100000 <= r <= 100000,
    {
        let ghost b = *self.board;
        let ghost w = W::spec_white();
        let doubled_isolated = self.doubled_isolated::<W, B>();
        let isolated = self.isolated::<W, B>().and(doubled_isolated.not());
        let backward = self.backward::<W, B>().and(doubled_isolated.or(isolated).not());
        let bonus = self.connected_bonus::<W, B>();
        let mut connected_total: i32 = 0;
        let mut i: i8 = 0;
        while i < 64
            invariant
                0 <= i <= 64,
                b == *self.board,
                w == W::spec_white(),
                forall|s: int| 0 <= s < 64 ==> #[trigger] bonus.0[s] == connected_bonus_at(b, w, s),
                connected_total == sum_squares(connected_eg_fn(b, w), i as nat),
                -500 * i <= connected_total <= 500 * i,
            decreases 64 - i,
        {
            let bv = bonus.0[i as usize];
            let rk = (W::rank(i / 8) - 2) as i32;
            proof {
                lemma_connected_bonus_bound(b, w, i as int);
                assert(-2 <= rk <= 5);
                assert(-600 <= bv * rk <= 1500) by (nonlinear_arith)
                    requires 0 <= bv <= 300, -2 <= rk <= 5;
            }
            let p = bv * rk;
            let q = if p >= 0 { p / 4 } else { -((-p) / 4) };
            connected_total = connected_total + q;
            i += 1;
        }
        let weak_unopposed = self.weak_unopposed_pawn::<W, B>();
        let blocked = self.blocked::<W, B>();
        let mut v: i32 = 0;
        v -= 56 * doubled_isolated.count() as i32;
        v -= 15 * isolated.count() as i32;
        v -= 24 * backward.count() as i32;
        v -= 56 * self.doubled::<W, B>().count() as i32;
        v += connected_total;
        v -= 27 * (weak_unopposed.0.count() as i32 + weak_unopposed.1.count() as i32);
        v -= 56 * self.weak_lever::<W, B>().count() as i32;
        v -= 4 * blocked.0.count() as i32;
        v += 4 * blocked.1.count() as i32;
        v
    }

    /// Returns `(mg, eg)`: the pawn structure scores of `W`.
    pub fn pawns<W: Color, B: Color>(&self) -> (r: (i32, i32))
        requires
            self.attacks_ready(),
            opposite::<W, B>(),
        ensures
            r == (pawns_mg_of(*self.board, W::spec_white()) as i32, pawns_eg_of(*self.board, W::spec_white()) as i32),
            -60000 <= r.0 <= 60000,
            -100000 <= r.1 <= 100000,
    {
        (self.pawns_mg::<W, B>(), self.pawns_eg::<W, B>())
    }
}

/// A board of values, each `f` of its square, sums as `f` does.
pub proof fn lemma_sum_squares_of(v: [i32; 64], f: spec_fn(int) -> int, n: nat)
    requires
        n <= 64,
        forall|s: int| 0 <= s < 64 ==> #[trigger] v[s] == f(s),
    ensures
        sum_below(v, n) == sum_squares(f, n),
    decreases n,
{
    if n > 0 {
        lemma_sum_squares_of(v, f, (n - 1) as nat);
        assert(v[n - 1] == f(n - 1));
    }
}

} // verus!
