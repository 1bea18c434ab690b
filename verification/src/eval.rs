//! Position evaluation after the Stockfish evaluation guide. Every term is written once for
//! both sides: `W` is the side the term is for, `B` the other side.
use vstd::prelude::*;
use crate::bitboard::{BitBoard, bit, square_bb, squares_where, shift_pred, lemma_mask_bit, lemma_bit_ops, popcount};
use crate::board::Board;
use crate::color::{Color, side_piece, side_index, color_flag};
use crate::coord::Coord;
use crate::piece::Piece;
use crate::precomp::Precomputed;

pub mod attack;
pub mod pawns;
pub mod material;
pub mod utils;
pub mod imbalance;
pub mod mobility;
pub mod king;
pub mod threats;
pub mod space;
pub mod passed_pawns;
pub mod pieces;
pub mod winnable;

use crate::eval::attack::{pin_rays_of, type_attacks, all_attacks_of, all_doubled_of};
use crate::eval::mobility::mobility_bonus_of;
use crate::eval::passed_pawns::{candidate_passed_of, passed_leverable_of};
use crate::eval::threats::weak_enemies_of;
use crate::eval::pawns::{isolated_of, opposed_of, phalanx_of, supported_of, backward_of};

verus! {

/// The two type parameters name the two different sides.
pub open spec fn opposite<W: Color, B: Color>() -> bool {
    W::spec_white() != B::spec_white()
}

/// The board `x` moved by `df` files and `dr` ranks; squares leaving the board are dropped.
pub open spec fn shift(x: u64, df: int, dr: int) -> u64 {
    squares_where(shift_pred(x, df, dr))
}

/// A square of a moved board comes from a square of the board.
pub proof fn lemma_shift_source(x: u64, df: int, dr: int, s: int)
    requires
        0 <= s < 64,
    ensures
        bit(shift(x, df, dr), s) <==> (0 <= s % 8 - df < 8 && 0 <= s / 8 - dr < 8 && bit(x, (s / 8 - dr) * 8 + (s % 8 - df))),
{
    lemma_mask_bit(shift_pred(x, df, dr), 64, s);
}

/// A square of `a & (x | y | z)`.
pub proof fn lemma_bit_and_or3(a: u64, x: u64, y: u64, z: u64, s: int)
    requires
        0 <= s < 64,
    ensures
        bit(a & (x | y | z), s) <==> (bit(a, s) && (bit(x, s) || bit(y, s) || bit(z, s))),
{
    lemma_bit_ops(x, y, s);
    lemma_bit_ops(x | y, z, s);
    lemma_bit_ops(a, x | y | z, s);
}

/// A piece of a side on a well formed board has a type and that side's flag; only a king is
/// on the side's king board.
pub proof fn lemma_side_piece(b: Board, w: bool, s: int)
    requires
        b.wf(),
        0 <= s < 64,
        bit(side_of(b, w), s),
    ensures
        1 <= b.square[s].ptype() <= 6,
        b.square[s].pcolor() == color_flag(w),
        b.square[s].0 == b.square[s].ptype() + color_flag(w),
        b.square[s].ptype() == Piece::KING <==> bit(pieces_of(b, w, Piece::KING), s),
{
    let sq = b.square;
    assert(crate::board::valid_piece_value(sq[s].0));
    if w {
        lemma_mask_bit(crate::board::color_on(sq, true), 64, s);
    } else {
        lemma_mask_bit(crate::board::color_on(sq, false), 64, s);
    }
    crate::board::lemma_valid_piece(sq[s].0);
    crate::piece::lemma_with_color(Piece::KING, color_flag(w));
    lemma_mask_bit(crate::board::piece_on(sq, side_piece(w, Piece::KING) as int), 64, s);
}

/// The pieces of type `t` of side `w`.
pub open spec fn pieces_of(b: Board, w: bool, t: u8) -> u64 {
    b.piece_bitboards[side_piece(w, t) as int].0
}

/// All pieces of side `w`.
pub open spec fn side_of(b: Board, w: bool) -> u64 {
    b.color_bitboards[side_index(w) as int].0
}

/// The king square recorded for side `w`.
pub open spec fn king_of(b: Board, w: bool) -> int {
    b.king_square[side_index(w) as int].sq()
}

/// The single square `s`, or every square when there is none.
pub open spec fn only_from(s2: Option<Coord>) -> u64 {
    match s2 {
        Some(s) => square_bb(s.sq()),
        None => 0xFFFF_FFFF_FFFF_FFFFu64,
    }
}

pub open spec fn opt_valid(s2: Option<Coord>) -> bool {
    match s2 {
        Some(s) => s.valid(),
        None => true,
    }
}

pub struct Evaluation<'a> {
    pub board: &'a Board,

    pub pin_rays: [BitBoard; 2],
    pub all_king_attacks: [BitBoard; 2],
    pub all_pawn_attacks: [(BitBoard, BitBoard); 2],
    pub all_knight_attacks: [(BitBoard, BitBoard); 2],
    pub all_bishop_attacks: [(BitBoard, BitBoard); 2],
    pub all_rook_attacks: [(BitBoard, BitBoard); 2],
    pub all_queen_attacks: [(BitBoard, BitBoard); 2],
    pub all_attacks: [BitBoard; 2],
    pub all_doubled_attacks: [BitBoard; 2],

    pub candidate_passed: [BitBoard; 2],
    pub passed_leverable: [BitBoard; 2],

    pub isolated: [BitBoard; 2],
    pub opposed: [BitBoard; 2],
    pub phalanx: [BitBoard; 2],
    pub supported: [(BitBoard, BitBoard); 2],
    pub backward: [BitBoard; 2],

    pub weak_enemies: [BitBoard; 2],
    pub mobility_bonus: [(i32, i32); 2],
}

impl<'a> Evaluation<'a> {
    /// The king squares are on the board and the pin rays are cached.
    pub open spec fn pins_ready(self) -> bool {
        &&& self.board.king_squares_valid()
        &&& self.pin_rays[0].0 == pin_rays_of(*self.board, true)
        &&& self.pin_rays[1].0 == pin_rays_of(*self.board, false)
    }

    /// The attacks of each piece type of side `w` are cached.
    pub open spec fn attacks_cached(self, w: bool) -> bool {
        let i = side_index(w) as int;
        let b = *self.board;
        &&& self.all_king_attacks[i].0 == type_attacks(b, w, Piece::KING).0
        &&& self.all_pawn_attacks[i].0.0 == type_attacks(b, w, Piece::PAWN).0
        &&& self.all_pawn_attacks[i].1.0 == type_attacks(b, w, Piece::PAWN).1
        &&& self.all_knight_attacks[i].0.0 == type_attacks(b, w, Piece::KNIGHT).0
        &&& self.all_knight_attacks[i].1.0 == type_attacks(b, w, Piece::KNIGHT).1
        &&& self.all_bishop_attacks[i].0.0 == type_attacks(b, w, Piece::BISHOP).0
        &&& self.all_bishop_attacks[i].1.0 == type_attacks(b, w, Piece::BISHOP).1
        &&& self.all_rook_attacks[i].0.0 == type_attacks(b, w, Piece::ROOK).0
        &&& self.all_rook_attacks[i].1.0 == type_attacks(b, w, Piece::ROOK).1
        &&& self.all_queen_attacks[i].0.0 == type_attacks(b, w, Piece::QUEEN).0
        &&& self.all_queen_attacks[i].1.0 == type_attacks(b, w, Piece::QUEEN).1
    }

    pub open spec fn attacks_ready(self) -> bool {
        &&& self.pins_ready()
        &&& self.attacks_cached(true)
        &&& self.attacks_cached(false)
    }

    /// The attacked and doubly attacked squares of side `w` are cached.
    pub open spec fn combined_cached(self, w: bool) -> bool {
        let i = side_index(w) as int;
        &&& self.all_attacks[i].0 == all_attacks_of(*self.board, w)
        &&& self.all_doubled_attacks[i].0 == all_doubled_of(*self.board, w)
    }

    pub open spec fn combined_ready(self) -> bool {
        &&& self.attacks_ready()
        &&& self.combined_cached(true)
        &&& self.combined_cached(false)
    }

    /// The pawn structure boards of side `w` are cached.
    pub open spec fn pawns_cached(self, w: bool) -> bool {
        let i = side_index(w) as int;
        let b = *self.board;
        &&& self.isolated[i].0 == isolated_of(b, w)
        &&& self.opposed[i].0 == opposed_of(b, w)
        &&& self.phalanx[i].0 == phalanx_of(b, w)
        &&& self.supported[i].0.0 == supported_of(b, w).0
        &&& self.supported[i].1.0 == supported_of(b, w).1
        &&& self.backward[i].0 == backward_of(b, w)
    }

    pub open spec fn pawns_ready(self) -> bool {
        &&& self.combined_ready()
        &&& self.pawns_cached(true)
        &&& self.pawns_cached(false)
    }

    /// The candidate passed pawns of both sides are cached.
    pub open spec fn candidates_ready(self) -> bool {
        &&& self.pawns_ready()
        &&& self.candidate_passed[0].0 == candidate_passed_of(*self.board, true)
        &&& self.candidate_passed[1].0 == candidate_passed_of(*self.board, false)
    }

    /// All caches hold what `init` computes for the board.
    pub open spec fn ready(self) -> bool {
        &&& self.candidates_ready()
        &&& self.passed_leverable[0].0 == passed_leverable_of(*self.board, true)
        &&& self.passed_leverable[1].0 == passed_leverable_of(*self.board, false)
        &&& self.weak_enemies[0].0 == weak_enemies_of(*self.board, true)
        &&& self.weak_enemies[1].0 == weak_enemies_of(*self.board, false)
        &&& self.mobility_bonus[0].0 == mobility_bonus_of(*self.board, true).0
        &&& self.mobility_bonus[0].1 == mobility_bonus_of(*self.board, true).1
        &&& self.mobility_bonus[1].0 == mobility_bonus_of(*self.board, false).0
        &&& self.mobility_bonus[1].1 == mobility_bonus_of(*self.board, false).1
        &&& -6400 <= self.mobility_bonus[0].0 <= 16000
        &&& -6400 <= self.mobility_bonus[0].1 <= 16000
        &&& -6400 <= self.mobility_bonus[1].0 <= 16000
        &&& -6400 <= self.mobility_bonus[1].1 <= 16000
    }

    /// Fills the caches for the board, for both sides.
    pub fn init<W: Color, B: Color>(&mut self)
        requires
            old(self).board.king_squares_valid(),
            opposite::<W, B>(),
        ensures
            final(self).board == old(self).board,
            final(self).ready(),
    {
        let w = W::index();
        let b = B::index();
        self.pin_rays[w] = self.pin_rays::<W, B>();
        self.pin_rays[b] = self.pin_rays::<B, W>();
        assert(self.pins_ready());
        self.all_king_attacks[w] = self.all_king_attacks::<W, B>();
        self.all_king_attacks[b] = self.all_king_attacks::<B, W>();
        self.all_pawn_attacks[w] = self.all_pawn_attacks::<W, B>();
        self.all_pawn_attacks[b] = self.all_pawn_attacks::<B, W>();
        self.all_knight_attacks[w] = self.all_knight_attacks::<W, B>();
        self.all_knight_attacks[b] = self.all_knight_attacks::<B, W>();
        self.all_bishop_attacks[w] = self.all_bishop_xray_attacks::<W, B>();
        self.all_bishop_attacks[b] = self.all_bishop_xray_attacks::<B, W>();
        self.all_rook_attacks[w] = self.all_rook_xray_attacks::<W, B>();
        self.all_rook_attacks[b] = self.all_rook_xray_attacks::<B, W>();
        self.all_queen_attacks[w] = self.all_queen_attacks::<W, B>();
        self.all_queen_attacks[b] = self.all_queen_attacks::<B, W>();
        assert(self.attacks_ready());
        self.all_attacks[w] = self.all_attacks::<W, B>();
        self.all_attacks[b] = self.all_attacks::<B, W>();
        self.all_doubled_attacks[w] = self.all_doubled_attacks::<W, B>();
        self.all_doubled_attacks[b] = self.all_doubled_attacks::<B, W>();
        assert(self.combined_ready());

        self.isolated[w] = self.isolated::<W, B>();
        self.isolated[b] = self.isolated::<B, W>();
        self.opposed[w] = self.opposed::<W, B>();
        self.opposed[b] = self.opposed::<B, W>();
        self.phalanx[w] = self.phalanx::<W, B>();
        self.phalanx[b] = self.phalanx::<B, W>();
        self.supported[w] = self.supported::<W, B>();
        self.supported[b] = self.supported::<B, W>();
        self.backward[w] = self.backward::<W, B>();
        self.backward[b] = self.backward::<B, W>();
        assert(self.pawns_ready());
        self.candidate_passed[w] = self.candidate_passed::<W, B>();
        self.candidate_passed[b] = self.candidate_passed::<B, W>();
        assert(self.candidates_ready());
        self.passed_leverable[w] = self.passed_leverable::<W, B>();
        self.passed_leverable[b] = self.passed_leverable::<B, W>();
        self.weak_enemies[w] = self.weak_enemies::<W, B>();
        self.weak_enemies[b] = self.weak_enemies::<B, W>();
        self.mobility_bonus[w] = self.mobility_bonus::<W, B>();
        self.mobility_bonus[b] = self.mobility_bonus::<B, W>();
    }

    /// An evaluation of `board` with empty caches; `init` fills them.
    pub fn new(board: &'a Board) -> (r: Self)
        ensures
            r.board == board,
    {
        Evaluation {
            board,
            pin_rays: [BitBoard(0); 2],
            all_king_attacks: [BitBoard(0); 2],
            all_pawn_attacks: [(BitBoard(0), BitBoard(0)); 2],
            all_knight_attacks: [(BitBoard(0), BitBoard(0)); 2],
            all_bishop_attacks: [(BitBoard(0), BitBoard(0)); 2],
            all_rook_attacks: [(BitBoard(0), BitBoard(0)); 2],
            all_queen_attacks: [(BitBoard(0), BitBoard(0)); 2],
            all_attacks: [BitBoard(0); 2],
            all_doubled_attacks: [BitBoard(0); 2],
            candidate_passed: [BitBoard(0); 2],
            passed_leverable: [BitBoard(0); 2],
            isolated: [BitBoard(0); 2],
            opposed: [BitBoard(0); 2],
            phalanx: [BitBoard(0); 2],
            supported: [(BitBoard(0), BitBoard(0)); 2],
            backward: [BitBoard(0); 2],
            weak_enemies: [BitBoard(0); 2],
            mobility_bonus: [(0, 0); 2],
        }
    }

    /// The pieces of type `t` of side `W`.
    pub fn side_pieces<W: Color>(&self, t: u8) -> (r: BitBoard)
        requires
            1 <= t <= 6,
        ensures
            r.0 == pieces_of(*self.board, W::spec_white(), t),
    {
        proof {
            crate::piece::lemma_with_color(t, color_flag(W::spec_white()));
        }
        let p = W::piece(t);
        self.board.piece_bitboards[p.index()]
    }

    /// All pieces of side `W`.
    pub fn side_all<W: Color>(&self) -> (r: BitBoard)
        ensures
            r.0 == side_of(*self.board, W::spec_white()),
    {
        self.board.color_bitboards[W::index()]
    }
}

} // verus!

verus! {

/// The middle game score of `w` before the winnability correction.
#[verifier::opaque]
pub open spec fn mg_sum(b: Board, w: bool) -> int {
    crate::eval::material::piece_value_mg_of(b, w) - crate::eval::material::piece_value_mg_of(b, !w)
        + crate::eval::material::psqt_of(b, w, false) - crate::eval::material::psqt_of(b, !w, false)
        + crate::eval::pawns::pawns_mg_of(b, w) - crate::eval::pawns::pawns_mg_of(b, !w)
        + crate::eval::imbalance::imbalance_total_of(b, w)
        + crate::eval::pieces::pieces_score(b, w, false) - crate::eval::pieces::pieces_score(b, !w, false)
        + mobility_bonus_of(b, w).0 - mobility_bonus_of(b, !w).0
        + crate::eval::threats::threats_of(b, w, false) - crate::eval::threats::threats_of(b, !w, false)
        + crate::eval::passed_pawns::passed_of(b, w).0 - crate::eval::passed_pawns::passed_of(b, !w).0
        + crate::eval::space::space_of(b, w) - crate::eval::space::space_of(b, !w)
        + crate::eval::king::king_mg_of(b, w) - crate::eval::king::king_mg_of(b, !w)
}

/// The endgame score of `w` before the winnability correction.
#[verifier::opaque]
pub open spec fn eg_sum(b: Board, w: bool) -> int {
    crate::eval::material::piece_value_eg_of(b, w) - crate::eval::material::piece_value_eg_of(b, !w)
        + crate::eval::material::psqt_of(b, w, true) - crate::eval::material::psqt_of(b, !w, true)
        + crate::eval::pawns::pawns_eg_of(b, w) - crate::eval::pawns::pawns_eg_of(b, !w)
        + crate::eval::imbalance::imbalance_total_of(b, w)
        + crate::eval::pieces::pieces_score(b, w, true) - crate::eval::pieces::pieces_score(b, !w, true)
        + mobility_bonus_of(b, w).1 - mobility_bonus_of(b, !w).1
        + crate::eval::threats::threats_of(b, w, true) - crate::eval::threats::threats_of(b, !w, true)
        + crate::eval::passed_pawns::passed_of(b, w).1 - crate::eval::passed_pawns::passed_of(b, !w).1
        + crate::eval::king::king_eg_of(b, w) - crate::eval::king::king_eg_of(b, !w)
}

pub open spec fn middle_game_of(b: Board, w: bool) -> int {
    mg_sum(b, w) + crate::eval::winnable::winnable_total_of(b, w, mg_sum(b, w)).0
}

pub open spec fn end_game_of(b: Board, w: bool) -> int {
    eg_sum(b, w) + crate::eval::winnable::winnable_total_of(b, w, eg_sum(b, w)).1
}

pub const PHASE_MG_LIMIT: i32 = 15258;
pub const PHASE_EG_LIMIT: i32 = 3915;

/// The game phase from 0 (endgame) to 128 (middle game), by the material on the board.
pub open spec fn phase_of(b: Board) -> int {
    let total = crate::eval::material::non_pawn_material_of(b, true) + crate::eval::material::non_pawn_material_of(b, false);
    let npm = if total < 3915 { 3915 } else if total > 15258 { 15258 } else { total };
    ((npm - 3915) * 128) / (15258 - 3915)
}

/// How much of the endgame score of `w` (in 64ths) remains for a drawish material balance.
pub open spec fn scale_factor_of(b: Board, w: bool) -> int {
    let pc_w = popcount(pieces_of(b, w, Piece::PAWN)) as int;
    let pc_b = popcount(pieces_of(b, !w, Piece::PAWN)) as int;
    let qc_w = popcount(pieces_of(b, w, Piece::QUEEN)) as int;
    let qc_b = popcount(pieces_of(b, !w, Piece::QUEEN)) as int;
    let bc_w = popcount(pieces_of(b, w, Piece::BISHOP)) as int;
    let bc_b = popcount(pieces_of(b, !w, Piece::BISHOP)) as int;
    let nc_w = popcount(pieces_of(b, w, Piece::KNIGHT)) as int;
    let nc_b = popcount(pieces_of(b, !w, Piece::KNIGHT)) as int;
    let npm_w = crate::eval::material::non_pawn_material_of(b, w);
    let npm_b = crate::eval::material::non_pawn_material_of(b, !w);
    let sf0 = if pc_w == 0 && npm_w - npm_b <= 825 {
        if npm_w < 1276 { 0int } else if npm_b <= 825 { 4int } else { 14int }
    } else {
        64int
    };
    if sf0 != 64 {
        sf0
    } else {
        let ob = crate::eval::utils::opposite_bishops_of(b);
        if ob && npm_w == 825 && npm_b == 825 {
            22 + 4 * popcount(crate::eval::passed_pawns::candidate_passed_of(b, w)) as int
        } else if ob {
            22 + 3 * popcount(side_of(b, w)) as int
        } else {
            let pawns = pieces_of(b, w, Piece::PAWN);
            let left = squares_where(crate::bitboard::ranks_between(0, 3)) & pawns > 0;
            let right = squares_where(crate::bitboard::ranks_between(4, 7)) & pawns > 0;
            let pawnking_b = squares_where(crate::precomp::king_pred(king_of(b, !w))) & pieces_of(b, !w, Piece::PAWN) > 0;
            if npm_w == 1276 && npm_b == 1276 && pc_w - pc_b <= 1 && left != right && pawnking_b {
                36
            } else if qc_w + qc_b == 1 {
                37 + 3 * (if qc_w == 1 { bc_b + nc_b } else { bc_w + nc_w })
            } else {
                if 64 < 36 + 7 * pc_w { 64 } else { 36 + 7 * pc_w }
            }
        }
    }
}

/// The bonus for the side to move.
pub open spec fn tempo_of(b: Board, w: bool) -> int {
    if w == b.white_to_move { 28 } else { -28 }
}

/// A value clamped into the range of `i32`.
pub open spec fn saturate(v: int) -> int {
    if v > i32::MAX { i32::MAX as int } else if v < i32::MIN { i32::MIN as int } else { v }
}

/// The evaluation of the position for `w`: middle game and endgame blended by the phase, the
/// endgame scaled, rounded down to a multiple of 16, the tempo added, and damped by the fifty
/// move counter. Each division rounds towards zero.
pub open spec fn evaluate_of(b: Board, w: bool) -> int {
    let mg = middle_game_of(b, w);
    let eg = end_game_of(b, w);
    let p = phase_of(b);
    let rule50 = b.current_state.fifty_move_counter as int;
    let sf = if eg > 0 { scale_factor_of(b, w) } else { scale_factor_of(b, !w) };
    blend(mg, eg, p, rule50, sf, tempo_of(b, w))
}

/// Middle game `mg` and endgame `eg` blended by the phase `p`, the endgame scaled by `sf` 64ths,
/// rounded down to a multiple of 16, `tempo` added, and damped by the fifty move counter
/// `rule50`; each division rounds towards zero, and the result is clamped into `i32`.
pub open spec fn blend(mg: int, eg: int, p: int, rule50: int, sf: int, tempo: int) -> int {
    let a = crate::eval::pawns::div_trunc(eg * sf * (128 - p), 64);
    let v1 = crate::eval::pawns::div_trunc(mg * p + a, 128);
    let v2 = crate::eval::pawns::div_trunc(v1, 16) * 16 + tempo;
    saturate(crate::eval::pawns::div_trunc(v2 * (100 - rule50), 100))
}

} // verus!

verus! {

impl<'a> Evaluation<'a> {
    /// The middle game score of `W`.
    #[verifier::rlimit(100)]
    pub fn middle_game_eval<W: Color, B: Color>(&self) -> (r: i32)
        requires
            self.ready(),
            opposite::<W, B>(),
            self.board.wf(),
            self.board.pawns_inside(),
        ensures
            r == middle_game_of(*self.board, W::spec_white()),
    {
        proof {
            crate::eval::passed_pawns::lemma_inside_on_board(*self.board, W::spec_white());
            crate::eval::passed_pawns::lemma_inside_on_board(*self.board, !W::spec_white());
        }
        let mut v: i32 = 0;
        v += self.piece_value_mg::<W, B>() - self.piece_value_mg::<B, W>();
        v += self.psqt_mg::<W, B>() - self.psqt_mg::<B, W>();
        v += self.pawns_mg::<W, B>() - self.pawns_mg::<B, W>();
        v += self.imbalance_total::<W, B>();
        v += self.pieces::<W, B>().0 - self.pieces::<B, W>().0;
        v += self.mobility_bonus::<W, B>().0 - self.mobility_bonus::<B, W>().0;
        v += self.threats_mg::<W, B>() - self.threats_mg::<B, W>();
        v += self.passed::<W, B>().0 - self.passed::<B, W>().0;
        v += self.space::<W, B>() - self.space::<B, W>();
        v += self.king_mg::<W, B>() - self.king_mg::<B, W>();
        proof {
            reveal(mg_sum);
        }
        v += self.winnable_total::<W, B>(v).0;
        v
    }

    /// The endgame score of `W`.
    #[verifier::rlimit(100)]
    pub fn end_game_eval<W: Color, B: Color>(&self) -> (r: i32)
        requires
            self.ready(),
            opposite::<W, B>(),
            self.board.wf(),
            self.board.pawns_inside(),
        ensures
            r == end_game_of(*self.board, W::spec_white()),
    {
        proof {
            crate::eval::passed_pawns::lemma_inside_on_board(*self.board, W::spec_white());
            crate::eval::passed_pawns::lemma_inside_on_board(*self.board, !W::spec_white());
        }
        let mut v: i32 = 0;
        v += self.piece_value_eg::<W, B>() - self.piece_value_eg::<B, W>();
        v += self.psqt_eg::<W, B>() - self.psqt_eg::<B, W>();
        v += self.pawns_eg::<W, B>() - self.pawns_eg::<B, W>();
        v += self.imbalance_total::<W, B>();
        v += self.pieces::<W, B>().1 - self.pieces::<B, W>().1;
        v += self.mobility_bonus::<W, B>().1 - self.mobility_bonus::<B, W>().1;
        v += self.threats_eg::<W, B>() - self.threats_eg::<B, W>();
        v += self.passed::<W, B>().1 - self.passed::<B, W>().1;
        v += self.king_eg::<W, B>() - self.king_eg::<B, W>();
        proof {
            reveal(eg_sum);
        }
        v += self.winnable_total::<W, B>(v).1;
        v
    }

    /// The game phase from 0 (endgame) to 128 (middle game).
    pub fn phase<W: Color, B: Color>(&self) -> (r: i32)
        requires
            opposite::<W, B>(),
        ensures
            r == phase_of(*self.board),
            0 <= r <= 128,
    {
        let total = self.non_pawn_material::<W, B>() + self.non_pawn_material::<B, W>();
        let npm = if total < PHASE_EG_LIMIT { PHASE_EG_LIMIT } else if total > PHASE_MG_LIMIT { PHASE_MG_LIMIT } else { total };
        ((npm - PHASE_EG_LIMIT) * 128) / (PHASE_MG_LIMIT - PHASE_EG_LIMIT)
    }

    /// The fifty move counter.
    pub fn rule50(&self) -> (r: i32)
        ensures
            r == self.board.current_state.fifty_move_counter,
    {
        self.board.current_state.fifty_move_counter as i32
    }

    /// The scale factor of the endgame score of `W`.
    pub fn scale_factor<W: Color, B: Color>(&self) -> (r: i32)
        requires
            self.candidates_ready(),
            opposite::<W, B>(),
        ensures
            r == scale_factor_of(*self.board, W::spec_white()),
            0 <= r <= 37 + 3 * 128 + 22 + 4 * 64 + 3 * 64,
    {
        let ghost b = *self.board;
        let ghost w = W::spec_white();
        let mut sf: i32 = 64;
        let (pc_w, pc_b) = (self.pawn_count::<W, B>(), self.pawn_count::<B, W>());
        let (qc_w, qc_b) = (self.queen_count::<W, B>(), self.queen_count::<B, W>());
        let (bc_w, bc_b) = (self.bishop_count::<W, B>(), self.bishop_count::<B, W>());
        let (nc_w, nc_b) = (self.knight_count::<W, B>(), self.knight_count::<B, W>());
        let (npm_w, npm_b) = (self.non_pawn_material::<W, B>(), self.non_pawn_material::<B, W>());
        if pc_w == 0 && npm_w - npm_b <= 825 {
            sf = if npm_w < 1276 { 0 } else if npm_b <= 825 { 4 } else { 14 };
        }
        if sf == 64 {
            let ob = self.opposite_bishops();
            if ob && npm_w == 825 && npm_b == 825 {
                sf = 22 + 4 * self.candidate_passed[W::index()].count() as i32;
            } else if ob {
                sf = 22 + 3 * self.piece_count::<W, B>();
            } else {
                if npm_w == 1276 && npm_b == 1276 && pc_w - pc_b <= 1 {
                    let pawns = self.side_pieces::<W>(Piece::PAWN);
                    let left_flank = BitBoard::from_ranks(0, 3).0 & pawns.0 > 0;
                    let right_flank = BitBoard::from_ranks(4, 7).0 & pawns.0 > 0;
                    let king = self.king_square::<B, W>();
                    proof {
                        if w { assert(side_index(!w) == 1); } else { assert(side_index(!w) == 0); }
                    }
                    let pawnking_b = Precomputed::king_moves(king).0 & self.side_pieces::<B>(Piece::PAWN).0 > 0;
                    if left_flank != right_flank && pawnking_b {
                        return 36;
                    }
                }
                if qc_w + qc_b == 1 {
                    sf = 37 + 3 * (if qc_w == 1 { bc_b + nc_b } else { bc_w + nc_w });
                } else {
                    sf = if sf < 36 + 7 * pc_w { sf } else { 36 + 7 * pc_w };
                }
            }
        }
        sf
    }

    /// 28 for the side to move, -28 for the other.
    pub fn tempo<W: Color>(&self) -> (r: i32)
        ensures
            r == tempo_of(*self.board, W::spec_white()),
    {
        if W::is_white() == self.board.white_to_move { 28 } else { -28 }
    }

    /// Evaluation function adapted from the Stockfish evaluation guide, for `W` against `B`.
    /// Fills the caches first.
    pub fn evaluate<W: Color, B: Color>(&mut self) -> (r: i32)
        requires
            old(self).board.king_squares_valid(),
            old(self).board.wf(),
            old(self).board.pawns_inside(),
            opposite::<W, B>(),
        ensures
            final(self).board == old(self).board,
            final(self).ready(),
            r == evaluate_of(*old(self).board, W::spec_white()),
    {
        self.init::<W, B>();
        let mg = self.middle_game_eval::<W, B>();
        let eg = self.end_game_eval::<W, B>();
        let p = self.phase::<W, B>();
        let rule50 = self.rule50();
        let sf = if eg > 0 { self.scale_factor::<W, B>() } else { self.scale_factor::<B, W>() };
        Self::blend_values(mg, eg, p, rule50, sf, self.tempo::<W>())
    }

    /// The final blend of the evaluation; see `blend`.
    fn blend_values(mg: i32, eg: i32, p: i32, rule50: i32, sf: i32, tempo: i32) -> (r: i32)
        requires
            0 <= p <= 128,
            0 <= rule50 <= 255,
            0 <= sf <= 1000,
            -28 <= tempo <= 28,
        ensures
            r == blend(mg as int, eg as int, p as int, rule50 as int, sf as int, tempo as int),
    {
        let mg = mg as i64;
        let eg = eg as i64;
        let p = p as i64;
        let rule50 = rule50 as i64;
        let sf = sf as i64;
        proof {
            assert(-0x8000_0000 * 1000 <= eg * sf <= 0x8000_0000 * 1000) by (nonlinear_arith)
                requires -0x8000_0000 <= eg < 0x8000_0000, 0 <= sf <= 1000;
            assert(-0x8000_0000 * 1000 * 128 <= eg * sf * (128 - p) <= 0x8000_0000 * 1000 * 128) by (nonlinear_arith)
                requires -0x8000_0000 <= eg < 0x8000_0000, 0 <= sf <= 1000, 0 <= p <= 128;
            assert(-0x8000_0000 * 128 <= mg * p <= 0x8000_0000 * 128) by (nonlinear_arith)
                requires -0x8000_0000 <= mg < 0x8000_0000, 0 <= p <= 128;
        }
        let x = eg * sf * (128 - p);
        let a = if x >= 0 { x / 64 } else { -((-x) / 64) };
        let y = mg * p + a;
        let v1 = if y >= 0 { y / 128 } else { -((-y) / 128) };
        let q = if v1 >= 0 { v1 / 16 } else { -((-v1) / 16) };
        let v2 = q * 16 + tempo as i64;
        proof {
            assert(-0x100_0000_0000 * 256 <= v2 * (100 - rule50) <= 0x100_0000_0000 * 256) by (nonlinear_arith)
                requires -0x100_0000_0000 <= v2 <= 0x100_0000_0000, -155 <= 100 - rule50 <= 100;
        }
        let z = v2 * (100 - rule50);
        let v3 = if z >= 0 { z / 100 } else { -((-z) / 100) };
        if v3 > i32::MAX as i64 {
            i32::MAX
        } else if v3 < i32::MIN as i64 {
            i32::MIN
        } else {
            v3 as i32
        }
    }
}

} // verus!
