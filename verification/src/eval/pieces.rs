//! Pieces: outposts, minor pieces behind pawns, bishops and their pawns, rooks on files,
//! trapped rooks, weak queens and pieces near the enemy king.
use vstd::prelude::*;
use crate::bitboard::{BitBoard, bit, squares_where, mask_upto, lemma_mask_step, popcount, ranks_between, files_between,
    union_over, lemma_bits_identity, RANK_1, RANK_2, RANK_3, RANK_4, RANK_5, RANK_6, RANK_7, RANK_8, FILE_A,
    LIGHT_SQUARES_BITS, DARK_SQUARES_BITS};
use crate::bitboard::square_values::{SquareEvaluations, bounded};
use crate::board::Board;
use crate::color::{Color, up_step, side_index};
use crate::coord::{Coord, king_dist};
use crate::piece::Piece;
use crate::precomp::{Precomputed, knight_pred};
use crate::magics::{Magics, bishop_attacks_spec};
use crate::eval::{Evaluation, opposite, pieces_of, side_of, shift};
use crate::eval::attack::{type_attacks, knight_attack_of, bishop_xray_attack_of};
use crate::eval::utils::{pawn_attacks_span_of, king_ring_of};
use crate::eval::king::king_attackers_origin_of;

verus! {

pub const LONG_DIAGONALS: u64 = 0b10000001_01000010_00100100_00011000_00011000_00100100_01000010_10000001;
pub const CENTER_SQUARES: u64 = 0b00000000_00000000_00000000_00011000_00011000_00000000_00000000_00000000;

/// Squares on the fourth to sixth rank of `w` that its pawns defend and enemy pawns cannot attack.
pub open spec fn outpost_square_of(b: Board, w: bool) -> u64 {
    let lo = if w { 3int } else { 2int };
    let hi = if w { 5int } else { 4int };
    squares_where(ranks_between(lo, hi)) & type_attacks(b, w, Piece::PAWN).0 & !pawn_attacks_span_of(b, w)
}

pub open spec fn minors_of(b: Board, w: bool) -> u64 {
    pieces_of(b, w, Piece::KNIGHT) | pieces_of(b, w, Piece::BISHOP)
}

pub open spec fn outpost_of(b: Board, w: bool) -> u64 {
    outpost_square_of(b, w) & minors_of(b, w)
}

/// Empty outposts that minor pieces of `w` reach.
pub open spec fn reachable_squares(b: Board, w: bool) -> u64 {
    (type_attacks(b, w, Piece::KNIGHT).0 | type_attacks(b, w, Piece::BISHOP).0) & outpost_square_of(b, w) & !side_of(b, w)
}

/// The minor pieces of `w` that reach `s`.
pub open spec fn reach_fn(b: Board, w: bool) -> spec_fn(int) -> u64 {
    |s: int| knight_attack_of(b, w, None, s) | bishop_xray_attack_of(b, w, None, s)
}

/// Returns `(not supported by pawn, supported by pawn)`: the minor pieces of `w` that reach an
/// outpost, by whether a pawn defends the outpost.
pub open spec fn reachable_outpost_of(b: Board, w: bool) -> (u64, u64) {
    let reachable = reachable_squares(b, w);
    let supported = reachable & type_attacks(b, w, Piece::PAWN).0;
    (union_over(reachable & !supported, reach_fn(b, w), 64), union_over(supported, reach_fn(b, w), 64))
}

pub open spec fn minor_behind_pawn_of(b: Board, w: bool) -> u64 {
    minors_of(b, w) & shift(b.piece_bitboards[9].0 | b.piece_bitboards[17].0, 0, -up_step(w))
}

pub open spec fn pawn_color_squares(b: Board, w: bool, s: int) -> u64 {
    pieces_of(b, w, Piece::PAWN) & (if (s % 8 + s / 8) % 2 != 0 { LIGHT_SQUARES_BITS } else { DARK_SQUARES_BITS })
}

/// The bishop-pawn term of the bishop of `w` on `s`.
pub open spec fn bishop_pawns_at(b: Board, w: bool, s: int) -> int {
    if bit(pieces_of(b, w, Piece::BISHOP), s) {
        let blocked = pieces_of(b, w, Piece::PAWN) & squares_where(files_between(2, 5)) & shift(b.all_pieces_bitboard.0, 0, -up_step(w));
        let attacked = if popcount(crate::eval::attack::pawn_attack_of(b, w, None, s)) > 0 { 0int } else { 1int };
        popcount(pawn_color_squares(b, w, s)) * (popcount(blocked) + attacked)
    } else {
        0
    }
}

/// The file mask of the file of `s`.
pub open spec fn file_of_square(s: int) -> u64 {
    FILE_A << ((s % 8) as u64)
}

pub open spec fn open_file_pred(b: Board, w: bool, semi: bool) -> spec_fn(int) -> bool {
    |s: int| bit(pieces_of(b, w, Piece::ROOK), s)
        && file_of_square(s) & pieces_of(b, w, Piece::PAWN) == 0
        && (if semi { file_of_square(s) & pieces_of(b, !w, Piece::PAWN) != 0 } else { file_of_square(s) & pieces_of(b, !w, Piece::PAWN) == 0 })
}

/// Returns `(on open file, on semi-open file)`.
pub open spec fn rook_on_file_of(b: Board, w: bool) -> (u64, u64) {
    (squares_where(open_file_pred(b, w, false)), squares_where(open_file_pred(b, w, true)))
}

pub open spec fn rook_on_queen_file_pred(b: Board, w: bool) -> spec_fn(int) -> bool {
    |s: int| bit(pieces_of(b, w, Piece::ROOK), s)
        && file_of_square(s) & (pieces_of(b, w, Piece::QUEEN) | pieces_of(b, !w, Piece::QUEEN)) != 0
}

pub open spec fn rook_on_queen_file_of(b: Board, w: bool) -> u64 {
    squares_where(rook_on_queen_file_pred(b, w))
}

pub open spec fn bishop_xray_pawns_at(b: Board, w: bool, s: int) -> int {
    if bit(pieces_of(b, w, Piece::BISHOP), s) {
        popcount(pieces_of(b, !w, Piece::PAWN) & bishop_attacks_spec(s, 0)) as int
    } else {
        0
    }
}

pub open spec fn rook_on_king_ring_pred(b: Board, w: bool) -> spec_fn(int) -> bool {
    |s: int| bit(pieces_of(b, w, Piece::ROOK) & !king_attackers_origin_of(b, w).0, s)
        && file_of_square(s) & king_ring_of(b, w, false) != 0
}

pub open spec fn bishop_on_king_ring_pred(b: Board, w: bool) -> spec_fn(int) -> bool {
    |s: int| bit(pieces_of(b, w, Piece::BISHOP) & !king_attackers_origin_of(b, w).0, s)
        && bishop_attacks_spec(s, pieces_of(b, w, Piece::PAWN) | pieces_of(b, !w, Piece::PAWN)) & king_ring_of(b, w, false) != 0
}

pub open spec fn queen_infiltration_of(b: Board, w: bool) -> u64 {
    let home = if !w { RANK_1 | RANK_2 | RANK_3 | RANK_4 } else { RANK_5 | RANK_6 | RANK_7 | RANK_8 };
    pieces_of(b, w, Piece::QUEEN) & home & !type_attacks(b, !w, Piece::PAWN).0 & !pawn_attacks_span_of(b, w)
}

pub open spec fn long_diagonal_pred(b: Board, w: bool) -> spec_fn(int) -> bool {
    |s: int| bit(pieces_of(b, w, Piece::BISHOP) & LONG_DIAGONALS & !CENTER_SQUARES, s)
        && bishop_attacks_spec(s, pieces_of(b, w, Piece::PAWN) | pieces_of(b, !w, Piece::PAWN))
            & !(pieces_of(b, w, Piece::PAWN) | pieces_of(b, !w, Piece::PAWN)) & CENTER_SQUARES != 0
}

impl<'a> Evaluation<'a> {
    /// The outpost squares of `W`.
    pub fn outpost_square<W: Color, B: Color>(&self) -> (r: BitBoard)
        requires
            self.attacks_ready(),
            opposite::<W, B>(),
        ensures
            r.0 == outpost_square_of(*self.board, W::spec_white()),
    {
        let (lo, hi) = W::ranks(3, 5);
        BitBoard::from_ranks(lo, hi).and(self.attacks_by::<W, B>(Piece::PAWN).0).and(self.pawn_attacks_span::<W, B>().not())
    }

    /// The knights and bishops of `W` on outposts.
    pub fn outpost<W: Color, B: Color>(&self) -> (r: BitBoard)
        requires
            self.attacks_ready(),
            opposite::<W, B>(),
        ensures
            r.0 == outpost_of(*self.board, W::spec_white()),
    {
        self.outpost_square::<W, B>().and(self.side_pieces::<W>(Piece::KNIGHT).or(self.side_pieces::<W>(Piece::BISHOP)))
    }

    /// Returns `(not supported by pawn, supported by pawn)`: the minor pieces of `W` that can
    /// reach an empty outpost.
    pub fn reachable_outpost<W: Color, B: Color>(&self) -> (r: (BitBoard, BitBoard))
        requires
            self.attacks_ready(),
            opposite::<W, B>(),
        ensures
            r.0.0 == reachable_outpost_of(*self.board, W::spec_white()).0,
            r.1.0 == reachable_outpost_of(*self.board, W::spec_white()).1,
    {
        let ghost b = *self.board;
        let ghost w = W::spec_white();
        let reachable = self.attacks_by::<W, B>(Piece::KNIGHT).0.or(self.attacks_by::<W, B>(Piece::BISHOP).0)
            .and(self.outpost_square::<W, B>()).and(self.side_all::<W>().not());
        let supported = reachable.and(self.attacks_by::<W, B>(Piece::PAWN).0);
        let unsupported = reachable.and(supported.not());
        let mut supported_origins: u64 = 0;
        let mut origins: u64 = 0;
        let mut i: i8 = 0;
        while i < 64
            invariant
                0 <= i <= 64,
                b == *self.board,
                w == W::spec_white(),
                self.attacks_ready(),
                supported.0 == reachable_squares(b, w) & type_attacks(b, w, Piece::PAWN).0,
                unsupported.0 == reachable_squares(b, w) & !(reachable_squares(b, w) & type_attacks(b, w, Piece::PAWN).0),
                origins == union_over(unsupported.0, reach_fn(b, w), i as nat),
                supported_origins == union_over(supported.0, reach_fn(b, w), i as nat),
            decreases 64 - i,
        {
            proof {
                lemma_bits_identity(origins);
                lemma_bits_identity(supported_origins);
            }
            let in_u = unsupported.contains_square(i);
            let in_s = supported.contains_square(i);
            if in_u || in_s {
                let sqr = Coord::from_idx(i);
                let attacks = self.knight_attack::<W, B>(None, sqr).or(self.bishop_xray_attack::<W, B>(None, sqr));
                if in_s {
                    supported_origins = supported_origins | attacks.0;
                }
                if in_u {
                    origins = origins | attacks.0;
                }
            }
            i += 1;
        }
        (BitBoard(origins), BitBoard(supported_origins))
    }

    /// The knights and bishops of `W` right behind a pawn.
    pub fn minor_behind_pawn<W: Color, B: Color>(&self) -> (r: BitBoard)
        ensures
            r.0 == minor_behind_pawn_of(*self.board, W::spec_white()),
    {
        self.side_pieces::<W>(Piece::KNIGHT).or(self.side_pieces::<W>(Piece::BISHOP))
            .and(self.board.piece_bitboards[9].or(self.board.piece_bitboards[17]).shifted_2d(W::down()))
    }

    /// For each bishop of `W`: its pawns on squares of its color, times the blocked central
    /// pawns plus one when no pawn defends the bishop.
    pub fn bishop_pawns<W: Color, B: Color>(&self) -> (r: SquareEvaluations)
        requires
            self.pins_ready(),
        ensures
            forall|s: int| 0 <= s < 64 ==> #[trigger] r.0[s] == bishop_pawns_at(*self.board, W::spec_white(), s),
            bounded(r.0, 4160),
    {
        let ghost b = *self.board;
        let ghost w = W::spec_white();
        let bishops = self.side_pieces::<W>(Piece::BISHOP);
        let pawns = self.side_pieces::<W>(Piece::PAWN);
        let blocked = pawns.and(BitBoard::from_files(2, 5)).and(self.board.all_pieces_bitboard.shifted_2d(W::down()));
        let bc = blocked.count() as i32;
        let mut eval = SquareEvaluations::new();
        let mut i: i8 = 0;
        while i < 64
            invariant
                0 <= i <= 64,
                b == *self.board,
                w == W::spec_white(),
                self.pins_ready(),
                bishops.0 == pieces_of(b, w, Piece::BISHOP),
                pawns.0 == pieces_of(b, w, Piece::PAWN),
                bc == popcount(pieces_of(b, w, Piece::PAWN) & squares_where(files_between(2, 5)) & shift(b.all_pieces_bitboard.0, 0, -up_step(w))),
                0 <= bc <= 64,
                forall|s: int| 0 <= s < i ==> #[trigger] eval.0[s] == bishop_pawns_at(b, w, s),
                forall|s: int| i <= s < 64 ==> #[trigger] eval.0[s] == 0,
                bounded(eval.0, 4160),
            decreases 64 - i,
        {
            if bishops.contains_square(i) {
                let sqr = Coord::from_idx(i);
                let is_light_sqr = (sqr.file() + sqr.rank()) % 2 != 0;
                let on_sqr_col = pawns.and(if is_light_sqr { BitBoard(LIGHT_SQUARES_BITS) } else { BitBoard(DARK_SQUARES_BITS) });
                let attacked = if self.pawn_attack::<W, B>(None, sqr).count() > 0 { 0 } else { 1 };
                let c = on_sqr_col.count() as i32;
                proof {
                    assert(0 <= c * (bc + attacked) <= 64 * 65) by (nonlinear_arith)
                        requires 0 <= c <= 64, 0 <= bc + attacked <= 65;
                }
                eval.0[i as usize] = c * (bc + attacked);
            }
            i += 1;
        }
        eval
    }

    /// Returns `(on open file, on semi-open file)`: the rooks of `W` on files without pawns of
    /// `W`, and without enemy pawns either or with some.
    pub fn rook_on_file<W: Color, B: Color>(&self) -> (r: (BitBoard, BitBoard))
        requires
            opposite::<W, B>(),
        ensures
            r.0.0 == rook_on_file_of(*self.board, W::spec_white()).0,
            r.1.0 == rook_on_file_of(*self.board, W::spec_white()).1,
    {
        let ghost b = *self.board;
        let ghost w = W::spec_white();
        let rooks = self.side_pieces::<W>(Piece::ROOK);
        let own = self.side_pieces::<W>(Piece::PAWN);
        let enemy = self.side_pieces::<B>(Piece::PAWN);
        let mut open: u64 = 0;
        let mut semiopen: u64 = 0;
        let mut i: i8 = 0;
        while i < 64
            invariant
                0 <= i <= 64,
                b == *self.board,
                w == W::spec_white(),
                rooks.0 == pieces_of(b, w, Piece::ROOK),
                own.0 == pieces_of(b, w, Piece::PAWN),
                enemy.0 == pieces_of(b, !w, Piece::PAWN),
                open == mask_upto(open_file_pred(b, w, false), i as nat),
                semiopen == mask_upto(open_file_pred(b, w, true), i as nat),
            decreases 64 - i,
        {
            let file = BitBoard::from_file(i % 8);
            let no_own = rooks.contains_square(i) && file.0 & own.0 == 0;
            let c_open = no_own && file.0 & enemy.0 == 0;
            let c_semi = no_own && file.0 & enemy.0 != 0;
            proof {
                lemma_mask_step(open_file_pred(b, w, false), i as nat);
                lemma_mask_step(open_file_pred(b, w, true), i as nat);
            }
            open = open | (if c_open { 1u64 << (i as u64) } else { 0u64 });
            semiopen = semiopen | (if c_semi { 1u64 << (i as u64) } else { 0u64 });
            i += 1;
        }
        (BitBoard(open), BitBoard(semiopen))
    }

    /// The rooks of `W` on a file with a queen.
    pub fn rook_on_queen_file<W: Color, B: Color>(&self) -> (r: BitBoard)
        requires
            opposite::<W, B>(),
        ensures
            r.0 == rook_on_queen_file_of(*self.board, W::spec_white()),
    {
        let ghost b = *self.board;
        let ghost w = W::spec_white();
        let rooks = self.side_pieces::<W>(Piece::ROOK);
        let queens = self.side_pieces::<W>(Piece::QUEEN).or(self.side_pieces::<B>(Piece::QUEEN));
        let mut r: u64 = 0;
        let mut i: i8 = 0;
        while i < 64
            invariant
                0 <= i <= 64,
                b == *self.board,
                w == W::spec_white(),
                rooks.0 == pieces_of(b, w, Piece::ROOK),
                queens.0 == pieces_of(b, w, Piece::QUEEN) | pieces_of(b, !w, Piece::QUEEN),
                r == mask_upto(rook_on_queen_file_pred(b, w), i as nat),
            decreases 64 - i,
        {
            let c = rooks.contains_square(i) && BitBoard::from_file(i % 8).0 & queens.0 != 0;
            proof {
                lemma_mask_step(rook_on_queen_file_pred(b, w), i as nat);
            }
            r = r | (if c { 1u64 << (i as u64) } else { 0u64 });
            i += 1;
        }
        BitBoard(r)
    }

    /// For each bishop of `W`, the enemy pawns on its diagonals.
    pub fn bishop_xray_pawns<W: Color, B: Color>(&self) -> (r: SquareEvaluations)
        requires
            opposite::<W, B>(),
        ensures
            forall|s: int| 0 <= s < 64 ==> #[trigger] r.0[s] == bishop_xray_pawns_at(*self.board, W::spec_white(), s),
            bounded(r.0, 64),
    {
        let ghost b = *self.board;
        let ghost w = W::spec_white();
        let bishops = self.side_pieces::<W>(Piece::BISHOP);
        let enemy_pawns = self.side_pieces::<B>(Piece::PAWN);
        let mut eval = SquareEvaluations::new();
        let mut i: i8 = 0;
        while i < 64
            invariant
                0 <= i <= 64,
                b == *self.board,
                w == W::spec_white(),
                bishops.0 == pieces_of(b, w, Piece::BISHOP),
                enemy_pawns.0 == pieces_of(b, !w, Piece::PAWN),
                forall|s: int| 0 <= s < i ==> #[trigger] eval.0[s] == bishop_xray_pawns_at(b, w, s),
                forall|s: int| i <= s < 64 ==> #[trigger] eval.0[s] == 0,
                bounded(eval.0, 64),
            decreases 64 - i,
        {
            if bishops.contains_square(i) {
                eval.0[i as usize] = enemy_pawns.and(Magics::bishop_attacks(Coord::from_idx(i), BitBoard(0))).count() as i32;
            }
            i += 1;
        }
        eval
    }

    /// The queens of `W` in the enemy half that enemy pawns cannot attack.
    pub fn queen_infiltration<W: Color, B: Color>(&self) -> (r: BitBoard)
        requires
            self.attacks_ready(),
            opposite::<W, B>(),
        ensures
            r.0 == queen_infiltration_of(*self.board, W::spec_white()),
    {
        self.side_pieces::<W>(Piece::QUEEN).and(B::home_side()).and(self.attacks_by::<B, W>(Piece::PAWN).0.not())
            .and(self.pawn_attacks_span::<W, B>().not())
    }

    /// The bishops of `W` on a long diagonal, off the center, that see the center past pawns.
    pub fn long_diagonal_bishop<W: Color, B: Color>(&self) -> (r: BitBoard)
        requires
            opposite::<W, B>(),
        ensures
            r.0 == squares_where(long_diagonal_pred(*self.board, W::spec_white())),
    {
        let ghost b = *self.board;
        let ghost w = W::spec_white();
        let bishops = self.side_pieces::<W>(Piece::BISHOP).and(BitBoard(LONG_DIAGONALS)).and(BitBoard(CENTER_SQUARES).not());
        let blockers = self.side_pieces::<W>(Piece::PAWN).or(self.side_pieces::<B>(Piece::PAWN));
        let mut r: u64 = 0;
        let mut i: i8 = 0;
        while i < 64
            invariant
                0 <= i <= 64,
                b == *self.board,
                w == W::spec_white(),
                bishops.0 == pieces_of(b, w, Piece::BISHOP) & LONG_DIAGONALS & !CENTER_SQUARES,
                blockers.0 == pieces_of(b, w, Piece::PAWN) | pieces_of(b, !w, Piece::PAWN),
                r == mask_upto(long_diagonal_pred(b, w), i as nat),
            decreases 64 - i,
        {
            let c = bishops.contains_square(i)
                && Magics::bishop_attacks(Coord::from_idx(i), blockers).and(blockers.not()).0 & CENTER_SQUARES != 0;
            proof {
                lemma_mask_step(long_diagonal_pred(b, w), i as nat);
            }
            r = r | (if c { 1u64 << (i as u64) } else { 0u64 });
            i += 1;
        }
        BitBoard(r)
    }

    /// The rooks of `W` not attacking the enemy king ring but on a file through it.
    pub fn rook_on_king_ring<W: Color, B: Color>(&self) -> (r: BitBoard)
        requires
            self.attacks_ready(),
            opposite::<W, B>(),
        ensures
            r.0 == squares_where(rook_on_king_ring_pred(*self.board, W::spec_white())),
    {
        let ghost b = *self.board;
        let ghost w = W::spec_white();
        let rooks = self.side_pieces::<W>(Piece::ROOK).and(self.king_attackers_origin::<W, B>().0.not());
        let ring = self.king_ring::<W, B>(false);
        let mut r: u64 = 0;
        let mut i: i8 = 0;
        while i < 64
            invariant
                0 <= i <= 64,
                b == *self.board,
                w == W::spec_white(),
                rooks.0 == pieces_of(b, w, Piece::ROOK) & !king_attackers_origin_of(b, w).0,
                ring.0 == king_ring_of(b, w, false),
                r == mask_upto(rook_on_king_ring_pred(b, w), i as nat),
            decreases 64 - i,
        {
            let c = rooks.contains_square(i) && BitBoard::from_file(i % 8).0 & ring.0 != 0;
            proof {
                lemma_mask_step(rook_on_king_ring_pred(b, w), i as nat);
            }
            r = r | (if c { 1u64 << (i as u64) } else { 0u64 });
            i += 1;
        }
        BitBoard(r)
    }

    /// The bishops of `W` not attacking the enemy king ring but seeing it past pawns.
    pub fn bishop_on_king_ring<W: Color, B: Color>(&self) -> (r: BitBoard)
        requires
            self.attacks_ready(),
            opposite::<W, B>(),
        ensures
            r.0 == squares_where(bishop_on_king_ring_pred(*self.board, W::spec_white())),
    {
        let ghost b = *self.board;
        let ghost w = W::spec_white();
        let bishops = self.side_pieces::<W>(Piece::BISHOP).and(self.king_attackers_origin::<W, B>().0.not());
        let blockers = self.side_pieces::<W>(Piece::PAWN).or(self.side_pieces::<B>(Piece::PAWN));
        let ring = self.king_ring::<W, B>(false);
        let mut r: u64 = 0;
        let mut i: i8 = 0;
        while i < 64
            invariant
                0 <= i <= 64,
                b == *self.board,
                w == W::spec_white(),
                bishops.0 == pieces_of(b, w, Piece::BISHOP) & !king_attackers_origin_of(b, w).0,
                blockers.0 == pieces_of(b, w, Piece::PAWN) | pieces_of(b, !w, Piece::PAWN),
                ring.0 == king_ring_of(b, w, false),
                r == mask_upto(bishop_on_king_ring_pred(b, w), i as nat),
            decreases 64 - i,
        {
            let c = bishops.contains_square(i) && Magics::bishop_attacks(Coord::from_idx(i), blockers).0 & ring.0 != 0;
            proof {
                lemma_mask_step(bishop_on_king_ring_pred(b, w), i as nat);
            }
            r = r | (if c { 1u64 << (i as u64) } else { 0u64 });
            i += 1;
        }
        BitBoard(r)
    }
}

} // verus!

verus! {

pub const OUTPOST_TOTAL_VALS_MG: [i32; 5] = [0, 31, -7, 30, 56];
pub const OUTPOST_TOTAL_VALS_EG: [i32; 5] = [0, 22, 36, 23, 36];

pub open spec fn trapped_pred(b: Board, w: bool) -> spec_fn(int) -> bool {
    |s: int| {
        let rof = rook_on_file_of(b, w);
        let kx = b.king_square[side_index(w) as int].file;
        bit(pieces_of(b, w, Piece::ROOK) & !(rof.0 | rof.1), s)
            && (if kx < 4 { s % 8 < kx } else { s % 8 >= kx })
            && crate::eval::mobility::mobility_at(b, w, s) <= 3
    }
}

pub open spec fn trapped_rook_of(b: Board, w: bool) -> u64 {
    squares_where(trapped_pred(b, w))
}

/// Walking from a queen on `q` in direction `d` from step `i` on: whether the second piece met
/// is a slider of the direction's kind behind the first.
pub open spec fn queen_ray(b: Board, q: int, d: int, i: int, n: int, seen: bool) -> bool
    decreases n - i,
{
    if i >= n {
        false
    } else {
        let p = b.square[crate::eval::attack::ray_square(q, d, i + 1)];
        if p.0 == 0 {
            queen_ray(b, q, d, i + 1, n, seen)
        } else if seen {
            (d > 3 && p.ptype() == Piece::BISHOP) || (d <= 3 && p.ptype() == Piece::ROOK)
        } else {
            queen_ray(b, q, d, i + 1, n, true)
        }
    }
}

pub open spec fn weak_dir(b: Board, w: bool, q: int, d: int) -> bool {
    squares_where(crate::precomp::ray_pred(q, crate::precomp::dir_file(d), crate::precomp::dir_rank(d)))
        & crate::eval::attack::sliders_of(b, !w, d > 3) != 0
        && queen_ray(b, q, d, 0, crate::precomp::edge_distance(q, d), false)
}

pub open spec fn weak_dirs(b: Board, w: bool, q: int, d: int) -> bool
    decreases 8 - d,
{
    if d >= 8 { false } else { weak_dir(b, w, q, d) || weak_dirs(b, w, q, d + 1) }
}

pub open spec fn weak_queen_pred(b: Board, w: bool) -> spec_fn(int) -> bool {
    |s: int| bit(pieces_of(b, w, Piece::QUEEN), s) && weak_dirs(b, w, s, 0)
}

pub open spec fn king_protector_at(b: Board, w: bool, s: int) -> int {
    if bit(minors_of(b, w), s) { king_dist(b.king_square[side_index(w) as int], Coord::of_sq(s)) } else { 0 }
}

/// The outpost kind of the minor piece of `w` on `s`: 0 none, 1 reaching an outpost, 2 a lone
/// knight on an edge outpost, 3 a bishop and 4 a knight on an outpost.
pub open spec fn outpost_total_at(b: Board, w: bool, s: int) -> int {
    let knight = bit(pieces_of(b, w, Piece::KNIGHT), s);
    if !bit(minors_of(b, w), s) {
        0
    } else if !bit(outpost_of(b, w), s) {
        if !knight {
            0
        } else {
            let ro = reachable_outpost_of(b, w);
            if bit(ro.0, s) || bit(ro.1, s) { 1 } else { 0 }
        }
    } else if knight && (s % 8 < 2 || s % 8 > 5)
        && squares_where(knight_pred(s)) & side_of(b, !w) == 0
        && popcount(side_of(b, !w) & (if s % 8 < 4 { squares_where(files_between(0, 3)) } else { squares_where(files_between(4, 7)) })) <= 1 {
        2
    } else if knight {
        4
    } else {
        3
    }
}

pub proof fn lemma_outpost_tables(i: int)
    requires
        0 <= i < 5,
    ensures
        -10 <= OUTPOST_TOTAL_VALS_MG[i] <= 60,
        -10 <= OUTPOST_TOTAL_VALS_EG[i] <= 60,
{
    broadcast use vstd::array::group_array_axioms;
}

impl<'a> Evaluation<'a> {
    /// The rooks of `W` with no open file, on the side of the king away from the center, and
    /// with at most three moves.
    pub fn trapped_rook<W: Color, B: Color>(&self) -> (r: BitBoard)
        requires
            self.attacks_ready(),
            opposite::<W, B>(),
        ensures
            r.0 == trapped_rook_of(*self.board, W::spec_white()),
    {
        let ghost b = *self.board;
        let ghost w = W::spec_white();
        let on_file = self.rook_on_file::<W, B>();
        let rooks = self.side_pieces::<W>(Piece::ROOK).and(on_file.0.or(on_file.1).not());
        let kx = self.king_square::<W, B>().file();
        let mobility = self.mobility::<W, B>();
        let mut r: u64 = 0;
        let mut i: i8 = 0;
        while i < 64
            invariant
                0 <= i <= 64,
                b == *self.board,
                w == W::spec_white(),
                rooks.0 == pieces_of(b, w, Piece::ROOK) & !(rook_on_file_of(b, w).0 | rook_on_file_of(b, w).1),
                kx == b.king_square[side_index(w) as int].file,
                forall|s: int| 0 <= s < 64 ==> #[trigger] mobility.0[s] == crate::eval::mobility::mobility_at(b, w, s),
                r == mask_upto(trapped_pred(b, w), i as nat),
            decreases 64 - i,
        {
            let f = i % 8;
            let c = rooks.contains_square(i) && (if kx < 4 { f < kx } else { f >= kx }) && mobility.0[i as usize] <= 3;
            proof {
                lemma_mask_step(trapped_pred(b, w), i as nat);
            }
            r = r | (if c { 1u64 << (i as u64) } else { 0u64 });
            i += 1;
        }
        BitBoard(r)
    }

    /// Walks from the queen on `q` in direction `d`: whether the second piece met is a slider of
    /// the direction's kind.
    fn queen_ray_weak(&self, q: Coord, d: usize) -> (r: bool)
        requires
            q.valid(),
            d < 8,
        ensures
            r == queen_ray(*self.board, q.sq(), d as int, 0, crate::precomp::edge_distance(q.sq(), d as int), false),
    {
        let ghost b = *self.board;
        let n = Precomputed::num_sqrs_to_edge(q, d);
        let df = Precomputed::dir_offsets_2d(d);
        let mut i: i8 = 0;
        let mut seen = false;
        while i < n
            invariant
                q.valid(),
                d < 8,
                n == crate::precomp::edge_distance(q.sq(), d as int),
                0 <= n <= 7,
                0 <= i <= n,
                df.file == crate::precomp::dir_file(d as int),
                df.rank == crate::precomp::dir_rank(d as int),
                b == *self.board,
                queen_ray(b, q.sq(), d as int, 0, n as int, false) == queen_ray(b, q.sq(), d as int, i as int, n as int, seen),
            decreases n - i,
        {
            proof {
                crate::eval::attack::lemma_ray_square(q.sq(), d as int, i + 1);
                assert(q.sq() % 8 == q.file && q.sq() / 8 == q.rank);
            }
            let f = q.file + df.file * (i + 1);
            let rk = q.rank + df.rank * (i + 1);
            let s = rk * 8 + f;
            proof {
                let rs = crate::eval::attack::ray_square(q.sq(), d as int, i + 1);
                assert(rs == crate::precomp::sq_rank(rs) * 8 + crate::precomp::sq_file(rs));
                assert(s == rs);
            }
            let p = self.board.square[s as usize];
            if p.0 != 0 {
                if seen {
                    let t = p.piece_type();
                    return (d > 3 && t == Piece::BISHOP) || (d <= 3 && t == Piece::ROOK);
                }
                seen = true;
            }
            i += 1;
        }
        false
    }

    /// The queens of `W` that an enemy slider would hit after the piece in between moves.
    pub fn weak_queen<W: Color, B: Color>(&self) -> (r: BitBoard)
        requires
            opposite::<W, B>(),
        ensures
            r.0 == squares_where(weak_queen_pred(*self.board, W::spec_white())),
    {
        let ghost b = *self.board;
        let ghost w = W::spec_white();
        let queens = self.side_pieces::<W>(Piece::QUEEN);
        let diagonal = self.diagonal_sliders::<B, W>();
        let orthogonal = self.orthogonal_sliders::<B, W>();
        let mut r: u64 = 0;
        let mut i: i8 = 0;
        while i < 64
            invariant
                0 <= i <= 64,
                b == *self.board,
                w == W::spec_white(),
                queens.0 == pieces_of(b, w, Piece::QUEEN),
                diagonal.0 == crate::eval::attack::sliders_of(b, !w, true),
                orthogonal.0 == crate::eval::attack::sliders_of(b, !w, false),
                r == mask_upto(weak_queen_pred(b, w), i as nat),
            decreases 64 - i,
        {
            let mut c = false;
            if queens.contains_square(i) {
                let q = Coord::from_idx(i);
                let mut dir: usize = 0;
                while dir < 8
                    invariant_except_break
                        weak_dirs(b, w, i as int, 0) == weak_dirs(b, w, i as int, dir as int),
                        !c,
                    invariant
                        dir <= 8,
                        q.valid(),
                        q.sq() == i,
                        b == *self.board,
                        w == W::spec_white(),
                        diagonal.0 == crate::eval::attack::sliders_of(b, !w, true),
                        orthogonal.0 == crate::eval::attack::sliders_of(b, !w, false),
                    ensures
                        weak_dirs(b, w, i as int, 0) == c,
                    decreases 8 - dir,
                {
                    let slider = if dir > 3 { diagonal } else { orthogonal };
                    if Precomputed::dir_ray_mask(q, dir).0 & slider.0 != 0 && self.queen_ray_weak(q, dir) {
                        c = true;
                        break;
                    }
                    dir += 1;
                }
            }
            proof {
                lemma_mask_step(weak_queen_pred(b, w), i as nat);
            }
            r = r | (if c { 1u64 << (i as u64) } else { 0u64 });
            i += 1;
        }
        BitBoard(r)
    }

    /// The king distance of each knight and bishop of `W` to its king.
    pub fn king_protector<W: Color, B: Color>(&self) -> (r: SquareEvaluations)
        requires
            self.board.king_squares_valid(),
        ensures
            forall|s: int| 0 <= s < 64 ==> #[trigger] r.0[s] == king_protector_at(*self.board, W::spec_white(), s),
            bounded(r.0, 7),
    {
        let ghost b = *self.board;
        let ghost w = W::spec_white();
        let sqrs = self.side_pieces::<W>(Piece::KNIGHT).or(self.side_pieces::<W>(Piece::BISHOP));
        let king_distance = self.king_distance::<W, B>();
        let mut eval = SquareEvaluations::new();
        let mut i: usize = 0;
        while i < 64
            invariant
                i <= 64,
                b == *self.board,
                w == W::spec_white(),
                sqrs.0 == minors_of(b, w),
                forall|s: int| 0 <= s < 64 ==> #[trigger] king_distance.0[s] == king_dist(b.king_square[side_index(w) as int], Coord::of_sq(s)),
                bounded(king_distance.0, 7),
                forall|s: int| 0 <= s < i ==> #[trigger] eval.0[s] == king_protector_at(b, w, s),
                forall|s: int| i <= s < 64 ==> #[trigger] eval.0[s] == 0,
                bounded(eval.0, 7),
            decreases 64 - i,
        {
            if sqrs.contains_square(i as i8) {
                eval.0[i] = king_distance.0[i];
            }
            i += 1;
        }
        eval
    }

    /// The outpost kind of each minor piece of `W`.
    pub fn outpost_total<W: Color, B: Color>(&self) -> (r: SquareEvaluations)
        requires
            self.attacks_ready(),
            opposite::<W, B>(),
        ensures
            forall|s: int| 0 <= s < 64 ==> #[trigger] r.0[s] == outpost_total_at(*self.board, W::spec_white(), s),
            forall|s: int| 0 <= s < 64 ==> 0 <= #[trigger] r.0[s] <= 4,
    {
        let ghost b = *self.board;
        let ghost w = W::spec_white();
        let knights = self.side_pieces::<W>(Piece::KNIGHT);
        let sqrs = knights.or(self.side_pieces::<W>(Piece::BISHOP));
        let outposts = self.outpost::<W, B>();
        let reachable_outpost = self.reachable_outpost::<W, B>();
        let enemies = self.side_all::<B>();
        let mut eval = SquareEvaluations::new();
        let mut i: i8 = 0;
        while i < 64
            invariant
                0 <= i <= 64,
                b == *self.board,
                w == W::spec_white(),
                knights.0 == pieces_of(b, w, Piece::KNIGHT),
                sqrs.0 == minors_of(b, w),
                outposts.0 == outpost_of(b, w),
                reachable_outpost.0.0 == reachable_outpost_of(b, w).0,
                reachable_outpost.1.0 == reachable_outpost_of(b, w).1,
                enemies.0 == side_of(b, !w),
                forall|s: int| 0 <= s < i ==> #[trigger] eval.0[s] == outpost_total_at(b, w, s),
                forall|s: int| i <= s < 64 ==> #[trigger] eval.0[s] == 0,
                forall|s: int| 0 <= s < 64 ==> 0 <= #[trigger] eval.0[s] <= 4,
            decreases 64 - i,
        {
            if sqrs.contains_square(i) {
                let sqr = Coord::from_idx(i);
                let knight = knights.contains_square(i);
                let v: i32 = if !outposts.contains_square(i) {
                    if !knight {
                        0
                    } else if reachable_outpost.0.contains_square(i) || reachable_outpost.1.contains_square(i) {
                        1
                    } else {
                        0
                    }
                } else if knight && (sqr.file() < 2 || sqr.file() > 5)
                    && Precomputed::knight_moves(sqr).0 & enemies.0 == 0
                    && enemies.and(if sqr.file() < 4 { BitBoard::from_files(0, 3) } else { BitBoard::from_files(4, 7) }).count() <= 1 {
                    2
                } else if knight {
                    4
                } else {
                    3
                };
                eval.0[i as usize] = v;
            }
            i += 1;
        }
        eval
    }
}

} // verus!

verus! {

/// The square by square part of the piece score of `w`.
pub open spec fn pieces_square_fn(b: Board, w: bool, eg: bool) -> spec_fn(int) -> int {
    |s: int| {
        let ot = outpost_total_at(b, w, s);
        let kp = king_protector_at(b, w, s);
        (if eg { OUTPOST_TOTAL_VALS_EG[ot] as int } else { OUTPOST_TOTAL_VALS_MG[ot] as int })
            - (if eg { 7int } else { 3int }) * bishop_pawns_at(b, w, s)
            - (if eg { 5int } else { 4int }) * bishop_xray_pawns_at(b, w, s)
            - (if eg { 9int } else if bit(pieces_of(b, w, Piece::KNIGHT), s) { 8int } else { 6int }) * kp
    }
}

/// The piece score of `w`, for the endgame when `eg`.
pub open spec fn pieces_score(b: Board, w: bool, eg: bool) -> int {
    let rof = rook_on_file_of(b, w);
    let cm = if b.current_state.castling_rights & crate::board::game_state::kingside_bit(w) != 0
        || b.current_state.castling_rights & crate::board::game_state::queenside_bit(w) != 0 { 1int } else { 2int };
    let mbp = popcount(minor_behind_pawn_of(b, w)) as int;
    let roqf = popcount(rook_on_queen_file_of(b, w)) as int;
    let tr = popcount(trapped_rook_of(b, w)) as int;
    let wq = popcount(squares_where(weak_queen_pred(b, w))) as int;
    let qi = popcount(queen_infiltration_of(b, w)) as int;
    crate::eval::pawns::sum_squares(pieces_square_fn(b, w, eg), 64)
        + if eg {
            3 * mbp + 11 * roqf + 7 * popcount(rof.1) + 29 * popcount(rof.0) - tr * 13 * cm - 15 * wq + 14 * qi
        } else {
            18 * mbp + 6 * roqf + 16 * popcount(squares_where(rook_on_king_ring_pred(b, w)))
                + 24 * popcount(squares_where(bishop_on_king_ring_pred(b, w)))
                + 19 * popcount(rof.1) + 48 * popcount(rof.0) - tr * 55 * cm - 56 * wq - 2 * qi
                + 45 * popcount(squares_where(long_diagonal_pred(b, w)))
        }
}

impl<'a> Evaluation<'a> {
    /// The square by square part of the piece score of `W`.
    fn pieces_squares<W: Color, B: Color>(&self, eg: bool) -> (r: i32)
        requires
            self.attacks_ready(),
            opposite::<W, B>(),
        ensures
            r == crate::eval::pawns::sum_squares(pieces_square_fn(*self.board, W::spec_white(), eg), 64),
            -64 * 30000 <= r <= 64 * 30000,
    {
        let ghost b = *self.board;
        let ghost w = W::spec_white();
        let outpost_total = self.outpost_total::<W, B>();
        let bishop_pawns = self.bishop_pawns::<W, B>();
        let bishop_xray_pawns = self.bishop_xray_pawns::<W, B>();
        let king_protector = self.king_protector::<W, B>();
        let knights = self.side_pieces::<W>(Piece::KNIGHT);
        let mut v: i32 = 0;
        let mut i: usize = 0;
        while i < 64
            invariant
                i <= 64,
                b == *self.board,
                w == W::spec_white(),
                knights.0 == pieces_of(b, w, Piece::KNIGHT),
                forall|s: int| 0 <= s < 64 ==> #[trigger] outpost_total.0[s] == outpost_total_at(b, w, s),
                forall|s: int| 0 <= s < 64 ==> 0 <= #[trigger] outpost_total.0[s] <= 4,
                forall|s: int| 0 <= s < 64 ==> #[trigger] bishop_pawns.0[s] == bishop_pawns_at(b, w, s),
                bounded(bishop_pawns.0, 4160),
                forall|s: int| 0 <= s < 64 ==> #[trigger] bishop_xray_pawns.0[s] == bishop_xray_pawns_at(b, w, s),
                bounded(bishop_xray_pawns.0, 64),
                forall|s: int| 0 <= s < 64 ==> #[trigger] king_protector.0[s] == king_protector_at(b, w, s),
                bounded(king_protector.0, 7),
                v == crate::eval::pawns::sum_squares(pieces_square_fn(b, w, eg), i as nat),
                -30000 * i <= v <= 30000 * i,
            decreases 64 - i,
        {
            let ot = outpost_total.0[i];
            proof {
                assert(0 <= outpost_total.0[i as int] <= 4);
                lemma_outpost_tables(ot as int);
                assert(-4160 <= bishop_pawns.0[i as int] <= 4160);
                assert(-64 <= bishop_xray_pawns.0[i as int] <= 64);
                assert(-7 <= king_protector.0[i as int] <= 7);
            }
            let table = if eg { OUTPOST_TOTAL_VALS_EG[ot as usize] } else { OUTPOST_TOTAL_VALS_MG[ot as usize] };
            let kp_weight = if eg { 9 } else if knights.contains_square(i as i8) { 8 } else { 6 };
            v = v + table
                - (if eg { 7 } else { 3 }) * bishop_pawns.0[i]
                - (if eg { 5 } else { 4 }) * bishop_xray_pawns.0[i]
                - kp_weight * king_protector.0[i];
            i += 1;
        }
        v
    }

    /// Returns `(mg, eg)`: the piece score of `W`.
    pub fn pieces<W: Color, B: Color>(&self) -> (r: (i32, i32))
        requires
            self.attacks_ready(),
            opposite::<W, B>(),
        ensures
            r.0 == pieces_score(*self.board, W::spec_white(), false),
            r.1 == pieces_score(*self.board, W::spec_white(), true),
            -2_100_000 <= r.0 <= 2_100_000,
            -2_100_000 <= r.1 <= 2_100_000,
    {
        let minor_behind_pawn = self.minor_behind_pawn::<W, B>().count() as i32;
        let rook_on_queen_file = self.rook_on_queen_file::<W, B>().count() as i32;
        let rook_on_file = self.rook_on_file::<W, B>();
        let trapped_rook = self.trapped_rook::<W, B>().count() as i32;
        let castle_mult = if self.board.current_state.has_kingside_castle_right(W::is_white())
            || self.board.current_state.has_queenside_castle_right(W::is_white()) { 1 } else { 2 };
        let weak_queen = self.weak_queen::<W, B>().count() as i32;
        let queen_infiltration = self.queen_infiltration::<W, B>().count() as i32;

        let mut mg = self.pieces_squares::<W, B>(false);
        mg += 18 * minor_behind_pawn;
        mg += 6 * rook_on_queen_file;
        mg += 16 * self.rook_on_king_ring::<W, B>().count() as i32;
        mg += 24 * self.bishop_on_king_ring::<W, B>().count() as i32;
        mg += 19 * rook_on_file.1.count() as i32;
        mg += 48 * rook_on_file.0.count() as i32;
        mg -= trapped_rook * 55 * castle_mult;
        mg -= 56 * weak_queen;
        mg -= 2 * queen_infiltration;
        mg += 45 * self.long_diagonal_bishop::<W, B>().count() as i32;

        let mut eg = self.pieces_squares::<W, B>(true);
        eg += 3 * minor_behind_pawn;
        eg += 11 * rook_on_queen_file;
        eg += 7 * rook_on_file.1.count() as i32;
        eg += 29 * rook_on_file.0.count() as i32;
        eg -= trapped_rook * 13 * castle_mult;
        eg -= 15 * weak_queen;
        eg += 14 * queen_infiltration;
        (mg, eg)
    }
}

} // verus!
