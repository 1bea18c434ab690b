//! King safety: shelter and storm, king attackers, checks, the king's flank and king danger.
use vstd::prelude::*;
use crate::bitboard::{BitBoard, bit, squares_where, mask_upto, lemma_mask_step, popcount, ranks_between, files_between};
use crate::bitboard::square_values::{SquareEvaluations, bounded};
use crate::board::Board;
use crate::color::{Color, side_index};
use crate::coord::Coord;
use crate::piece::Piece;
use crate::precomp::Precomputed;
use crate::eval::pawns::{div_trunc, sum_squares};
use crate::eval::mobility::mobility_bonus_of;
use crate::eval::{Evaluation, opposite, pieces_of, side_of, only_from};
use crate::eval::attack::{lemma_from_single, bishop_blockers, rook_blockers, pin_rays_of, type_attacks, all_attacks_of, all_doubled_of, knight_attack_of, bishop_xray_attack_of,
    rook_xray_attack_of, queen_attack_of, pawn_attack_of};
use crate::magics::{Magics, rook_attacks_spec, bishop_attacks_spec};
use crate::precomp::{knight_pred, king_ring_pred, diagonal_adjacent_pred, orthogonal_adjacent_pred};

verus! {

/// The kinds of pieces a check may come from.
#[derive(Clone, Copy, PartialEq, Eq, Structural, Debug)]
pub enum CheckType {
    All,
    Knight,
    Bishop,
    Rook,
    Queen,
    NotQueen,
}

impl<'a> Evaluation<'a> {
    /// The pieces, of either side, standing alone between the enemy king and a slider of `W`
    /// moving along the line.
    pub fn blockers_for_king<W: Color, B: Color>(&self) -> (r: BitBoard)
        requires
            self.board.king_squares_valid(),
        ensures
            r.0 == crate::eval::attack::king_blockers_of(*self.board, B::spec_white()),
    {
        self.king_blockers::<B, W>()
    }
}

} // verus!

verus! {

/// The number of squares of `x` on file `f`.
pub open spec fn file_count(x: u64, f: int) -> int {
    popcount(x & (crate::bitboard::FILE_A << (f as u64))) as int
}

/// Whether the flank of the king of the side against `w` holds no pawn, of either side.
pub open spec fn pawnless_flank_of(b: Board, w: bool) -> bool {
    let kx = b.king_square[side_index(!w) as int].file;
    let p = pieces_of(b, w, Piece::PAWN) | pieces_of(b, !w, Piece::PAWN);
    let sum = if kx == 0 {
        file_count(p, 0) + file_count(p, 1) + file_count(p, 2)
    } else if kx <= 2 {
        file_count(p, 0) + file_count(p, 1) + file_count(p, 2) + file_count(p, 3)
    } else if kx <= 4 {
        file_count(p, 2) + file_count(p, 3) + file_count(p, 4) + file_count(p, 5)
    } else if kx <= 6 {
        file_count(p, 4) + file_count(p, 5) + file_count(p, 6) + file_count(p, 7)
    } else {
        file_count(p, 5) + file_count(p, 6) + file_count(p, 7)
    };
    sum == 0
}

pub const WEAKNESS: [[i32; 7]; 4] = [
    [-6, 81, 93, 58, 39, 18, 25],
    [-43, 61, 35, -49, -29, -11, -63],
    [-10, 75, 23, -2, 32, 3, -45],
    [-39, -13, -29, -52, -48, -67, -166],
];

pub const UNBLOCKED_STORM: [[i32; 7]; 4] = [
    [85, -289, -166, 97, 50, 45, 50],
    [46, -25, 122, 45, 37, -10, 20],
    [-6, 51, 168, 34, -2, -22, -14],
    [-15, -11, 101, 4, 11, -15, -29],
];

pub const BLOCKED_STORM: [[i32; 7]; 2] = [
    [0, 0, 76, -10, -7, -4, -1],
    [0, 0, 78, 15, 10, 6, 2],
];

pub open spec fn holds(x: u64, f: int, r: int) -> bool {
    0 <= f < 8 && 0 <= r < 8 && bit(x, r * 8 + f)
}

/// Over the first `n` ranks of `w` on `file`: `7 - k` for the last rank `k` with an enemy pawn
/// that no pawn of `w` beside and behind it guards, else 0.
pub open spec fn shelter_us(b: Board, w: bool, file: int, n: nat) -> int
    decreases n,
{
    if n == 0 {
        0
    } else {
        let k = n - 1;
        let rank = crate::color::rel_rank(w, k);
        let u = crate::color::up_step(w);
        if holds(pieces_of(b, !w, Piece::PAWN), file, rank) && !holds(pieces_of(b, w, Piece::PAWN), file - 1, rank - u)
            && !holds(pieces_of(b, w, Piece::PAWN), file + 1, rank - u) {
            7 - k
        } else {
            shelter_us(b, w, file, (n - 1) as nat)
        }
    }
}

/// Over the first `n` ranks of `w` on `file`: `7 - k` for the last rank `k` with a pawn of `w`,
/// else 0.
pub open spec fn storm_them(b: Board, w: bool, file: int, n: nat) -> int
    decreases n,
{
    if n == 0 {
        0
    } else {
        let k = n - 1;
        if holds(pieces_of(b, w, Piece::PAWN), file, crate::color::rel_rank(w, k)) {
            7 - k
        } else {
            storm_them(b, w, file, (n - 1) as nat)
        }
    }
}

pub open spec fn clamp16(x: int) -> int {
    if x < 1 { 1 } else if x > 6 { 6 } else { x }
}

pub open spec fn edge(f: int) -> int {
    if f < 7 - f { f } else { 7 - f }
}

/// The shelter term of `file` for square `s`.
pub open spec fn strength_term(b: Board, w: bool, file: int, s: int) -> int {
    let us = shelter_us(b, w, file, (crate::color::rel_rank(w, s / 8) + 1) as nat);
    if us < 7 { WEAKNESS[edge(file)][us] as int } else { 0 }
}

/// The shelter strength for a king of the enemy of `w` on `s`.
pub open spec fn strength_at(b: Board, w: bool, s: int) -> int {
    let kx = clamp16(s % 8);
    5 + strength_term(b, w, kx - 1, s) + strength_term(b, w, kx, s) + strength_term(b, w, kx + 1, s)
}

/// The storm term of `file` for square `s`.
pub open spec fn storm_term(b: Board, w: bool, file: int, s: int, eg: bool) -> int {
    let n = (crate::color::rel_rank(w, s / 8) + 1) as nat;
    let us = shelter_us(b, w, file, n);
    let them = storm_them(b, w, file, n);
    if us > 0 && them == us + 1 {
        BLOCKED_STORM[if eg { 1int } else { 0int }][them] as int
    } else if !eg {
        UNBLOCKED_STORM[edge(file)][them] as int
    } else {
        0
    }
}

/// The pawn storm against a king of the enemy of `w` on `s`.
pub open spec fn storm_at(b: Board, w: bool, s: int, eg: bool) -> int {
    let kx = clamp16(s % 8);
    storm_term(b, w, kx - 1, s, eg) + storm_term(b, w, kx, s, eg) + storm_term(b, w, kx + 1, s, eg)
        + (if eg { 5int } else { 0int })
}

pub proof fn lemma_king_tables(a: int, c: int)
    requires
        0 <= a < 4,
        0 <= c < 7,
    ensures
        -300 <= WEAKNESS[a][c] <= 300,
        -300 <= UNBLOCKED_STORM[a][c] <= 300,
        a < 2 ==> -300 <= BLOCKED_STORM[a][c] <= 300,
{
    broadcast use vstd::array::group_array_axioms;
}

pub proof fn lemma_us_range(b: Board, w: bool, file: int, n: nat)
    ensures
        0 <= shelter_us(b, w, file, n) <= 7,
        0 <= storm_them(b, w, file, n) <= 7,
        n >= 1 ==> shelter_us(b, w, file, n) >= 8 - n || shelter_us(b, w, file, n) == 0,
    decreases n,
{
    if n > 0 {
        lemma_us_range(b, w, file, (n - 1) as nat);
    }
}

impl<'a> Evaluation<'a> {
    /// Whether the flank of the enemy king holds no pawn, of either side.
    pub fn pawnless_flank<W: Color, B: Color>(&self) -> (r: bool)
        requires
            self.board.king_squares_valid(),
            opposite::<W, B>(),
        ensures
            r == pawnless_flank_of(*self.board, W::spec_white()),
    {
        let kx = self.king_square::<B, W>().file();
        proof {
            if W::spec_white() { assert(side_index(!W::spec_white()) == 1); } else { assert(side_index(!W::spec_white()) == 0); }
        }
        let pawns = self.side_pieces::<W>(Piece::PAWN).or(self.side_pieces::<B>(Piece::PAWN));
        let c0 = pawns.and(BitBoard::from_file(0)).count();
        let c1 = pawns.and(BitBoard::from_file(1)).count();
        let c2 = pawns.and(BitBoard::from_file(2)).count();
        let c3 = pawns.and(BitBoard::from_file(3)).count();
        let c4 = pawns.and(BitBoard::from_file(4)).count();
        let c5 = pawns.and(BitBoard::from_file(5)).count();
        let c6 = pawns.and(BitBoard::from_file(6)).count();
        let c7 = pawns.and(BitBoard::from_file(7)).count();
        let sum = if kx == 0 {
            c0 + c1 + c2
        } else if kx <= 2 {
            c0 + c1 + c2 + c3
        } else if kx <= 4 {
            c2 + c3 + c4 + c5
        } else if kx <= 6 {
            c4 + c5 + c6 + c7
        } else {
            c5 + c6 + c7
        };
        sum == 0
    }

    /// The rank index `7 - k` of the last shelter-breaking enemy pawn (`them` false) or of the
    /// last pawn of `W` (`them` true) on `file`, over the first `n` ranks of `W`.
    fn file_scan<W: Color, B: Color>(&self, file: i8, n: i8, them: bool) -> (r: i32)
        requires
            opposite::<W, B>(),
            0 <= file < 8,
            0 <= n <= 8,
        ensures
            r == (if them { storm_them(*self.board, W::spec_white(), file as int, n as nat) } else { shelter_us(*self.board, W::spec_white(), file as int, n as nat) }),
    {
        let ghost b = *self.board;
        let ghost w = W::spec_white();
        let friendly_pawns = self.side_pieces::<W>(Piece::PAWN);
        let enemy_pawns = self.side_pieces::<B>(Piece::PAWN);
        let mut v: i32 = 0;
        let mut k: i8 = 0;
        while k < n
            invariant
                0 <= k <= n <= 8,
                0 <= file < 8,
                b == *self.board,
                w == W::spec_white(),
                opposite::<W, B>(),
                friendly_pawns.0 == pieces_of(b, w, Piece::PAWN),
                enemy_pawns.0 == pieces_of(b, !w, Piece::PAWN),
                v == (if them { storm_them(b, w, file as int, k as nat) } else { shelter_us(b, w, file as int, k as nat) }),
            decreases n - k,
        {
            let rank = W::rank(k);
            let down = W::down_dir();
            if them {
                if friendly_pawns.contains_checked(Coord::new(file, rank)) {
                    v = 7 - k as i32;
                }
            } else {
                if enemy_pawns.contains_checked(Coord::new(file, rank))
                    && !friendly_pawns.contains_checked(Coord::new_unchecked(file - 1, rank + down))
                    && !friendly_pawns.contains_checked(Coord::new_unchecked(file + 1, rank + down)) {
                    v = 7 - k as i32;
                }
            }
            k += 1;
        }
        v
    }

    /// The shelter strength of the pawns for a king of the enemy on each square.
    pub fn strength_square<W: Color, B: Color>(&self) -> (r: SquareEvaluations)
        requires
            opposite::<W, B>(),
        ensures
            forall|s: int| 0 <= s < 64 ==> #[trigger] r.0[s] == strength_at(*self.board, W::spec_white(), s),
            bounded(r.0, 1000),
    {
        let ghost b = *self.board;
        let ghost w = W::spec_white();
        let mut eval = SquareEvaluations::new();
        let mut i: i8 = 0;
        while i < 64
            invariant
                0 <= i <= 64,
                b == *self.board,
                w == W::spec_white(),
                opposite::<W, B>(),
                forall|s: int| 0 <= s < i ==> #[trigger] eval.0[s] == strength_at(b, w, s),
                bounded(eval.0, 1000),
            decreases 64 - i,
        {
            let sqr = Coord::from_idx(i);
            let f0 = sqr.file();
            let kx = if f0 < 1 { 1 } else if f0 > 6 { 6 } else { f0 };
            let n = W::rank(sqr.rank()) + 1;
            let mut v: i32 = 5;
            let mut file = kx - 1;
            while file <= kx + 1
                invariant
                    1 <= kx <= 6,
                    kx - 1 <= file <= kx + 2,
                    1 <= n <= 8,
                    n == crate::color::rel_rank(w, i as int / 8) + 1,
                    kx == clamp16(i as int % 8),
                    0 <= i < 64,
                    b == *self.board,
                    w == W::spec_white(),
                    opposite::<W, B>(),
                    v == 5 + (if file > kx - 1 { strength_term(b, w, kx - 1, i as int) } else { 0 })
                        + (if file > kx { strength_term(b, w, kx as int, i as int) } else { 0 })
                        + (if file > kx + 1 { strength_term(b, w, kx + 1, i as int) } else { 0 }),
                    5 - 300 * (file - kx + 1) <= v <= 5 + 300 * (file - kx + 1),
                decreases kx + 2 - file,
            {
                let us = self.file_scan::<W, B>(file, n, false);
                proof {
                    lemma_us_range(b, w, file as int, n as nat);
                }
                let f = if file < 7 - file { file } else { 7 - file };
                if us < 7 {
                    proof {
                        lemma_king_tables(f as int, us as int);
                    }
                    v = v + WEAKNESS[f as usize][us as usize];
                }
                file += 1;
            }
            eval.0[i as usize] = v;
            i += 1;
        }
        eval
    }
}

} // verus!

verus! {

pub open spec fn side_piece_pawn(w: bool) -> u8 {
    crate::color::side_piece(w, Piece::PAWN)
}

/// With no pawn on the first or last rank, a pawn of `w` is never on its home rank.
pub proof fn lemma_them_inside(b: Board, w: bool, file: int, n: nat)
    requires
        b.pawns_inside(),
        0 <= file < 8,
        n <= 8,
    ensures
        storm_them(b, w, file, n) <= 6,
    decreases n,
{
    if n > 0 {
        lemma_them_inside(b, w, file, (n - 1) as nat);
        let k = n - 1;
        let rank = crate::color::rel_rank(w, k);
        crate::piece::lemma_with_color(Piece::PAWN, crate::color::color_flag(w));
        if holds(pieces_of(b, w, Piece::PAWN), file, rank) {
            let s = rank * 8 + file;
            assert(side_piece_pawn(w) == 9 || side_piece_pawn(w) == 17);
            assert(bit(b.piece_bitboards[9].0, s) || bit(b.piece_bitboards[17].0, s));
            assert(0 <= s < 64);
            assert(s / 8 == rank);
            assert(1 <= rank <= 6);
            assert(k >= 1);
        }
    }
}

/// The king square chosen for the shelter over the squares below `n`: the king's own square
/// and the squares it may castle to, the one with the best storm minus shelter.
pub open spec fn shelter_candidate(b: Board, w: bool, s: int) -> bool {
    let back = crate::color::rel_rank(!w, 0);
    ||| s == b.king_square[side_index(!w) as int].sq()
    ||| (b.current_state.castling_rights & crate::board::game_state::kingside_bit(!w) != 0 && s % 8 == 6 && s / 8 == back)
    ||| (b.current_state.castling_rights & crate::board::game_state::queenside_bit(!w) != 0 && s % 8 == 2 && s / 8 == back)
}

pub open spec fn shelter_fold(b: Board, w: bool, n: nat) -> (int, int, int)
    decreases n,
{
    if n == 0 {
        (0, 1024, 0)
    } else {
        let prev = shelter_fold(b, w, (n - 1) as nat);
        let s = n - 1;
        let w1 = strength_at(b, w, s);
        let s1 = storm_at(b, w, s, false);
        if shelter_candidate(b, w, s) && s1 - w1 < prev.1 - prev.0 {
            (w1, s1, storm_at(b, w, s, true))
        } else {
            prev
        }
    }
}

/// Returns `(shelter_strength, shelter_storm, endgame_shelter)` of the enemy king.
pub open spec fn shelter_of(b: Board, w: bool) -> (int, int, int) {
    shelter_fold(b, w, 64)
}

/// The king distance from the king of `w` to its nearest pawn, at most 6, over squares below `n`.
pub open spec fn pawn_distance_fold(b: Board, w: bool, n: nat) -> int
    decreases n,
{
    if n == 0 {
        6
    } else {
        let prev = pawn_distance_fold(b, w, (n - 1) as nat);
        if bit(pieces_of(b, w, Piece::PAWN), n - 1) {
            let d = crate::coord::king_dist(Coord::of_sq(n - 1), b.king_square[side_index(w) as int]);
            if d < prev { d } else { prev }
        } else {
            prev
        }
    }
}

impl<'a> Evaluation<'a> {
    /// The pawn storm of `W` against a king of the enemy on each square; the endgame terms
    /// when `eg`.
    pub fn storm_square<W: Color, B: Color>(&self, eg: bool) -> (r: SquareEvaluations)
        requires
            opposite::<W, B>(),
            self.board.pawns_inside(),
        ensures
            forall|s: int| 0 <= s < 64 ==> #[trigger] r.0[s] == storm_at(*self.board, W::spec_white(), s, eg),
            bounded(r.0, 1000),
    {
        let ghost b = *self.board;
        let ghost w = W::spec_white();
        let blocked_idx: usize = if eg { 1 } else { 0 };
        let mut eval = SquareEvaluations::new();
        let mut i: i8 = 0;
        while i < 64
            invariant
                0 <= i <= 64,
                b == *self.board,
                b.pawns_inside(),
                w == W::spec_white(),
                opposite::<W, B>(),
                blocked_idx == (if eg { 1int } else { 0int }),
                forall|s: int| 0 <= s < i ==> #[trigger] eval.0[s] == storm_at(b, w, s, eg),
                bounded(eval.0, 1000),
            decreases 64 - i,
        {
            let sqr = Coord::from_idx(i);
            let f0 = sqr.file();
            let kx = if f0 < 1 { 1 } else if f0 > 6 { 6 } else { f0 };
            let n = W::rank(sqr.rank()) + 1;
            let mut v: i32 = 0;
            let mut file = kx - 1;
            while file <= kx + 1
                invariant
                    1 <= kx <= 6,
                    kx - 1 <= file <= kx + 2,
                    1 <= n <= 8,
                    n == crate::color::rel_rank(w, i as int / 8) + 1,
                    kx == clamp16(i as int % 8),
                    0 <= i < 64,
                    b == *self.board,
                    b.pawns_inside(),
                    w == W::spec_white(),
                    opposite::<W, B>(),
                    blocked_idx == (if eg { 1int } else { 0int }),
                    v == (if file > kx - 1 { storm_term(b, w, kx - 1, i as int, eg) } else { 0 })
                        + (if file > kx { storm_term(b, w, kx as int, i as int, eg) } else { 0 })
                        + (if file > kx + 1 { storm_term(b, w, kx + 1, i as int, eg) } else { 0 }),
                    -300 * (file - kx + 1) <= v <= 300 * (file - kx + 1),
                decreases kx + 2 - file,
            {
                let us = self.file_scan::<W, B>(file, n, false);
                let them = self.file_scan::<W, B>(file, n, true);
                proof {
                    lemma_us_range(b, w, file as int, n as nat);
                    lemma_them_inside(b, w, file as int, n as nat);
                }
                let f = if file < 7 - file { file } else { 7 - file };
                if us > 0 && them == us + 1 {
                    proof {
                        lemma_king_tables(blocked_idx as int, them as int);
                    }
                    v = v + BLOCKED_STORM[blocked_idx][them as usize];
                } else if !eg {
                    proof {
                        lemma_king_tables(f as int, them as int);
                    }
                    v = v + UNBLOCKED_STORM[f as usize][them as usize];
                }
                file += 1;
            }
            eval.0[i as usize] = if eg { v + 5 } else { v };
            i += 1;
        }
        eval
    }

    /// Returns `(shelter_strength, shelter_storm, endgame_shelter)`: the shelter of the enemy
    /// king on the square, of its own and those it may castle to, where the storm most exceeds
    /// the shelter.
    pub fn shelter_strength_storm_eg<W: Color, B: Color>(&self) -> (r: (i32, i32, i32))
        requires
            opposite::<W, B>(),
            self.board.pawns_inside(),
            self.board.king_squares_valid(),
        ensures
            r.0 == shelter_of(*self.board, W::spec_white()).0,
            r.1 == shelter_of(*self.board, W::spec_white()).1,
            r.2 == shelter_of(*self.board, W::spec_white()).2,
            -1000 <= r.0 <= 1000,
            -1000 <= r.1 <= 1024,
            -1000 <= r.2 <= 1000,
    {
        let ghost b = *self.board;
        let ghost w = W::spec_white();
        let strength = self.strength_square::<W, B>();
        let storm = self.storm_square::<W, B>(false);
        let storm_eg = self.storm_square::<W, B>(true);
        let king = self.king_square::<B, W>();
        let ks = self.board.current_state.has_kingside_castle_right(B::is_white());
        let qs = self.board.current_state.has_queenside_castle_right(B::is_white());
        let back = B::back_rank();
        let mut ws: i32 = 0;
        let mut ss: i32 = 1024;
        let mut es: i32 = 0;
        let mut i: i8 = 0;
        proof {
            if w { assert(side_index(!w) == 1); } else { assert(side_index(!w) == 0); }
        }
        while i < 64
            invariant
                0 <= i <= 64,
                b == *self.board,
                w == W::spec_white(),
                opposite::<W, B>(),
                king == b.king_square[side_index(!w) as int],
                king.valid(),
                ks == (b.current_state.castling_rights & crate::board::game_state::kingside_bit(!w) != 0),
                qs == (b.current_state.castling_rights & crate::board::game_state::queenside_bit(!w) != 0),
                back == crate::color::rel_rank(!w, 0),
                forall|s: int| 0 <= s < 64 ==> #[trigger] strength.0[s] == strength_at(b, w, s),
                forall|s: int| 0 <= s < 64 ==> #[trigger] storm.0[s] == storm_at(b, w, s, false),
                forall|s: int| 0 <= s < 64 ==> #[trigger] storm_eg.0[s] == storm_at(b, w, s, true),
                bounded(strength.0, 1000),
                bounded(storm.0, 1000),
                bounded(storm_eg.0, 1000),
                (ws as int, ss as int, es as int) == shelter_fold(b, w, i as nat),
                -1000 <= ws <= 1000,
                -1000 <= ss <= 1024,
                -1000 <= es <= 1000,
            decreases 64 - i,
        {
            let sqr = Coord::from_idx(i);
            if sqr == king || (ks && sqr.file() == 6 && sqr.rank() == back) || (qs && sqr.file() == 2 && sqr.rank() == back) {
                let w1 = strength.0[i as usize];
                let s1 = storm.0[i as usize];
                if s1 - w1 < ss - ws {
                    ws = w1;
                    ss = s1;
                    es = storm_eg.0[i as usize];
                }
            }
            i += 1;
        }
        (ws, ss, es)
    }

    /// The king distance from the king of `W` to its nearest pawn; 6 at most.
    pub fn king_pawn_distance<W: Color, B: Color>(&self) -> (r: i32)
        requires
            self.board.king_squares_valid(),
        ensures
            r == pawn_distance_fold(*self.board, W::spec_white(), 64),
            0 <= r <= 6,
    {
        let ghost b = *self.board;
        let ghost w = W::spec_white();
        let k = self.king_square::<W, B>();
        proof {
            if w { assert(side_index(w) == 0); } else { assert(side_index(w) == 1); }
        }
        let pawns = self.side_pieces::<W>(Piece::PAWN);
        let mut closest: u32 = 6;
        let mut i: i8 = 0;
        while i < 64
            invariant
                0 <= i <= 64,
                b == *self.board,
                w == W::spec_white(),
                k == b.king_square[side_index(w) as int],
                k.valid(),
                pawns.0 == pieces_of(b, w, Piece::PAWN),
                closest == pawn_distance_fold(b, w, i as nat),
                closest <= 6,
            decreases 64 - i,
        {
            if pawns.contains_square(i) {
                let d = Precomputed::king_distance(Coord::from_idx(i), k);
                if d < closest {
                    closest = d;
                }
            }
            i += 1;
        }
        closest as i32
    }
}

} // verus!

verus! {

/// Whether checks of type `ty` come from rooks, bishops, knights and queens.
pub open spec fn checks_with(ty: CheckType, t: u8) -> bool {
    if t == Piece::ROOK { ty == CheckType::Rook || ty == CheckType::All || ty == CheckType::NotQueen }
    else if t == Piece::BISHOP { ty == CheckType::Bishop || ty == CheckType::All || ty == CheckType::NotQueen }
    else if t == Piece::KNIGHT { ty == CheckType::Knight || ty == CheckType::All || ty == CheckType::NotQueen }
    else { ty == CheckType::All || ty == CheckType::Queen }
}

/// Through the enemy queen the checking lines are seen.
pub open spec fn check_blockers(b: Board, w: bool) -> u64 {
    b.all_pieces_bitboard.0 & !pieces_of(b, !w, Piece::QUEEN)
}

/// The squares a piece of `w` of a kind `ty` admits can reach and give check from.
pub open spec fn check_pred(b: Board, w: bool, ty: CheckType) -> spec_fn(int) -> bool {
    |s: int| {
        let k = b.king_square[side_index(!w) as int].sq();
        let blk = check_blockers(b, w);
        ||| (checks_with(ty, Piece::ROOK) && bit(type_attacks(b, w, Piece::ROOK).0, s) && bit(rook_attacks_spec(s, blk), k))
        ||| (checks_with(ty, Piece::BISHOP) && bit(type_attacks(b, w, Piece::BISHOP).0, s) && bit(bishop_attacks_spec(s, blk), k))
        ||| (checks_with(ty, Piece::KNIGHT) && bit(type_attacks(b, w, Piece::KNIGHT).0, s) && bit(squares_where(knight_pred(s)), k))
        ||| (checks_with(ty, Piece::QUEEN) && bit(type_attacks(b, w, Piece::QUEEN).0, s)
            && bit(bishop_attacks_spec(s, blk) | rook_attacks_spec(s, blk), k))
    }
}

pub open spec fn check_of(b: Board, w: bool, ty: CheckType) -> u64 {
    squares_where(check_pred(b, w, ty))
}

/// Squares the enemy defends weakly: attacked by `w`, not doubly defended, and defended by
/// nothing or only by the king or a queen.
pub open spec fn weak_squares_of(b: Board, w: bool) -> u64 {
    all_attacks_of(b, w) & !all_doubled_of(b, !w)
        & (!all_attacks_of(b, !w) | type_attacks(b, !w, Piece::KING).0 | type_attacks(b, !w, Piece::QUEEN).0)
}

pub open spec fn check_rank(ty: CheckType) -> int {
    if ty == CheckType::Bishop { 2 } else if ty == CheckType::Queen { 1 } else { 0 }
}

/// Checks that the enemy cannot answer by capturing; a queen check where a rook check is safe,
/// and a bishop check where a queen check is safe, don't count.
pub open spec fn safe_check_of(b: Board, w: bool, ty: CheckType) -> u64
    decreases check_rank(ty),
{
    let checks = check_of(b, w, ty) & !side_of(b, w);
    let c1 = if ty == CheckType::Queen {
        checks & !safe_check_of(b, w, CheckType::Rook)
    } else if ty == CheckType::Bishop {
        checks & !safe_check_of(b, w, CheckType::Queen)
    } else {
        checks
    };
    let c2 = c1 & (!all_attacks_of(b, !w) | (weak_squares_of(b, w) & all_doubled_of(b, w)));
    if ty == CheckType::Queen { c2 & !type_attacks(b, !w, Piece::QUEEN).0 } else { c2 }
}

/// Over the squares below `n` of the attacked king ring: the attackers found, the pawns found,
/// and the pawns found twice.
pub open spec fn attackers_fold(b: Board, w: bool, n: nat) -> (u64, u64, u64)
    decreases n,
{
    if n == 0 {
        (0, 0, 0)
    } else {
        let prev = attackers_fold(b, w, (n - 1) as nat);
        let s = n - 1;
        let ring = squares_where(king_ring_pred(b.king_square[side_index(!w) as int].sq())) & all_attacks_of(b, w);
        if bit(ring, s) {
            let pa = pawn_attack_of(b, w, None, s);
            (
                prev.0 | (pa | knight_attack_of(b, w, None, s) | bishop_xray_attack_of(b, w, None, s)
                    | rook_xray_attack_of(b, w, None, s) | queen_attack_of(b, w, None, s)),
                prev.1 | pa,
                prev.2 | (prev.1 & pa),
            )
        } else {
            prev
        }
    }
}

/// Returns `(attackers, pawns attacking twice)` of the enemy king ring.
pub open spec fn king_attackers_origin_of(b: Board, w: bool) -> (u64, u64) {
    let f = attackers_fold(b, w, 64);
    (f.0 | f.2, f.2)
}

pub open spec fn king_attackers_weight_of(b: Board, w: bool) -> int {
    let a = king_attackers_origin_of(b, w).0;
    (popcount(a & pieces_of(b, w, Piece::KNIGHT)) * 81 + popcount(a & pieces_of(b, w, Piece::BISHOP)) * 52
        + popcount(a & pieces_of(b, w, Piece::ROOK)) * 44 + popcount(a & pieces_of(b, w, Piece::QUEEN)) * 10) as int
}

/// The attacks a piece of `w` on `q` makes on the squares next to the enemy king, over the
/// squares below `n`.
pub open spec fn king_attacks_fold(b: Board, w: bool, q: int, n: nat) -> int
    decreases n,
{
    if n == 0 {
        0
    } else {
        let s = n - 1;
        let k = b.king_square[side_index(!w) as int].sq();
        let adjacent = squares_where(diagonal_adjacent_pred(k)) | squares_where(orthogonal_adjacent_pred(k));
        let from = Some(Coord::of_sq(q));
        king_attacks_fold(b, w, q, (n - 1) as nat) + (if bit(adjacent, s) {
            (popcount(knight_attack_of(b, w, from, s)) + popcount(bishop_xray_attack_of(b, w, from, s))
                + popcount(rook_xray_attack_of(b, w, from, s)) + popcount(queen_attack_of(b, w, from, s))) as int
        } else {
            0
        })
    }
}

pub open spec fn king_attacks_at(b: Board, w: bool, q: int) -> int {
    king_attacks_fold(b, w, q, 64)
}

pub open spec fn all_or_none(c: bool) -> u64 {
    if c { 0xFFFF_FFFF_FFFF_FFFFu64 } else { 0u64 }
}

pub open spec fn files_bb(lo: int, hi: int) -> u64 {
    squares_where(files_between(lo, hi))
}

/// The flank of the enemy king, in the half of the board of the enemy and its own third rank.
pub open spec fn king_flank_of(b: Board, w: bool) -> u64 {
    let lo = if w { 0int } else { 5int };
    let hi = if w { 2int } else { 7int };
    let kx = b.king_square[side_index(!w) as int].file;
    !squares_where(ranks_between(lo, hi))
        & !(files_bb(3, 7) & all_or_none(kx == 0))
        & !(files_bb(4, 7) & all_or_none(kx < 3))
        & !((files_bb(0, 1) | files_bb(6, 7)) & all_or_none(3 <= kx < 5))
        & !(files_bb(0, 3) & all_or_none(kx >= 5))
        & !(files_bb(0, 4) & all_or_none(kx == 7))
}

} // verus!

verus! {

impl<'a> Evaluation<'a> {
    /// The squares from which pieces of `W` of the kinds `ty` admits could give check.
    pub fn check<W: Color, B: Color>(&self, ty: CheckType) -> (r: BitBoard)
        requires
            self.attacks_ready(),
            opposite::<W, B>(),
        ensures
            r.0 == check_of(*self.board, W::spec_white(), ty),
    {
        let ghost b = *self.board;
        let ghost w = W::spec_white();
        let king = self.king_square::<B, W>();
        proof {
            if w { assert(side_index(!w) == 1); } else { assert(side_index(!w) == 0); }
        }
        let k = king.square();
        let blockers = self.board.all_pieces_bitboard.and(self.side_pieces::<B>(Piece::QUEEN).not());
        let rooks = self.attacks_by::<W, B>(Piece::ROOK).0;
        let bishops = self.attacks_by::<W, B>(Piece::BISHOP).0;
        let knights = self.attacks_by::<W, B>(Piece::KNIGHT).0;
        let queens = self.attacks_by::<W, B>(Piece::QUEEN).0;
        let with_rook = ty == CheckType::Rook || ty == CheckType::All || ty == CheckType::NotQueen;
        let with_bishop = ty == CheckType::Bishop || ty == CheckType::All || ty == CheckType::NotQueen;
        let with_knight = ty == CheckType::Knight || ty == CheckType::All || ty == CheckType::NotQueen;
        let with_queen = ty == CheckType::All || ty == CheckType::Queen;
        let mut r: u64 = 0;
        let mut i: i8 = 0;
        while i < 64
            invariant
                0 <= i <= 64,
                b == *self.board,
                w == W::spec_white(),
                k == b.king_square[side_index(!w) as int].sq(),
                0 <= k < 64,
                blockers.0 == check_blockers(b, w),
                rooks.0 == type_attacks(b, w, Piece::ROOK).0,
                bishops.0 == type_attacks(b, w, Piece::BISHOP).0,
                knights.0 == type_attacks(b, w, Piece::KNIGHT).0,
                queens.0 == type_attacks(b, w, Piece::QUEEN).0,
                with_rook == checks_with(ty, Piece::ROOK),
                with_bishop == checks_with(ty, Piece::BISHOP),
                with_knight == checks_with(ty, Piece::KNIGHT),
                with_queen == checks_with(ty, Piece::QUEEN),
                r == mask_upto(check_pred(b, w, ty), i as nat),
            decreases 64 - i,
        {
            let sqr = Coord::from_idx(i);
            let c = (with_rook && rooks.contains_square(i) && Magics::rook_attacks(sqr, blockers).contains_square(k))
                || (with_bishop && bishops.contains_square(i) && Magics::bishop_attacks(sqr, blockers).contains_square(k))
                || (with_knight && knights.contains_square(i) && Precomputed::knight_moves(sqr).contains_square(k))
                || (with_queen && queens.contains_square(i)
                    && Magics::bishop_attacks(sqr, blockers).or(Magics::rook_attacks(sqr, blockers)).contains_square(k));
            proof {
                lemma_mask_step(check_pred(b, w, ty), i as nat);
            }
            r = r | (if c { 1u64 << (i as u64) } else { 0u64 });
            i += 1;
        }
        BitBoard(r)
    }

    /// The squares the enemy defends weakly.
    pub fn weak_squares<W: Color, B: Color>(&self) -> (r: BitBoard)
        requires
            self.attacks_ready(),
            opposite::<W, B>(),
        ensures
            r.0 == weak_squares_of(*self.board, W::spec_white()),
    {
        self.all_attacks::<W, B>().and(self.all_doubled_attacks::<B, W>().not())
            .and(self.all_attacks::<B, W>().not().or(self.attacks_by::<B, W>(Piece::KING).0).or(self.attacks_by::<B, W>(Piece::QUEEN).0))
    }

    /// The squares from which pieces of `W` of the kinds `ty` admits could give check without
    /// being captured.
    pub fn safe_check<W: Color, B: Color>(&self, ty: CheckType) -> (r: BitBoard)
        requires
            self.attacks_ready(),
            opposite::<W, B>(),
        ensures
            r.0 == safe_check_of(*self.board, W::spec_white(), ty),
        decreases check_rank(ty),
    {
        let mut checks = self.check::<W, B>(ty).and(self.side_all::<W>().not());
        if ty == CheckType::Queen {
            checks = checks.and(self.safe_check::<W, B>(CheckType::Rook).not());
        } else if ty == CheckType::Bishop {
            checks = checks.and(self.safe_check::<W, B>(CheckType::Queen).not());
        }
        checks = checks.and(self.all_attacks::<B, W>().not().or(self.weak_squares::<W, B>().and(self.all_doubled_attacks::<W, B>())));
        if ty == CheckType::Queen {
            checks = checks.and(self.attacks_by::<B, W>(Piece::QUEEN).0.not());
        }
        checks
    }

    /// Returns `(attackers (+ double pawn attacks), double pawn attacks)`: the pieces of `W`
    /// attacking squares of the enemy king ring, where pawns attacking two squares of it also
    /// count in the second board.
    pub fn king_attackers_origin<W: Color, B: Color>(&self) -> (r: (BitBoard, BitBoard))
        requires
            self.attacks_ready(),
            opposite::<W, B>(),
        ensures
            r.0.0 == king_attackers_origin_of(*self.board, W::spec_white()).0,
            r.1.0 == king_attackers_origin_of(*self.board, W::spec_white()).1,
    {
        let ghost b = *self.board;
        let ghost w = W::spec_white();
        let king = self.king_square::<B, W>();
        proof {
            if w { assert(side_index(!w) == 1); } else { assert(side_index(!w) == 0); }
        }
        let ring = Precomputed::king_ring(king).and(self.all_attacks::<W, B>());
        let mut attacked: u64 = 0;
        let mut pawn_attacked: u64 = 0;
        let mut double_pawn_attacked: u64 = 0;
        let mut i: i8 = 0;
        while i < 64
            invariant
                0 <= i <= 64,
                b == *self.board,
                w == W::spec_white(),
                self.attacks_ready(),
                opposite::<W, B>(),
                ring.0 == squares_where(king_ring_pred(b.king_square[side_index(!w) as int].sq())) & all_attacks_of(b, w),
                (attacked, pawn_attacked, double_pawn_attacked) == attackers_fold(b, w, i as nat),
            decreases 64 - i,
        {
            if ring.contains_square(i) {
                let sqr = Coord::from_idx(i);
                let pawn_attacks = self.pawn_attack::<W, B>(None, sqr);
                attacked = attacked | (pawn_attacks.0
                    | self.knight_attack::<W, B>(None, sqr).0
                    | self.bishop_xray_attack::<W, B>(None, sqr).0
                    | self.rook_xray_attack::<W, B>(None, sqr).0
                    | self.queen_attack::<W, B>(None, sqr).0);
                double_pawn_attacked = double_pawn_attacked | (pawn_attacked & pawn_attacks.0);
                pawn_attacked = pawn_attacked | pawn_attacks.0;
            }
            i += 1;
        }
        (BitBoard(attacked | double_pawn_attacked), BitBoard(double_pawn_attacked))
    }

    /// The weight of the pieces of `W` attacking the enemy king ring.
    pub fn king_attackers_weight<W: Color, B: Color>(&self) -> (r: i32)
        requires
            self.attacks_ready(),
            opposite::<W, B>(),
        ensures
            r == king_attackers_weight_of(*self.board, W::spec_white()),
            0 <= r <= 64 * 187,
    {
        let attacks = self.king_attackers_origin::<W, B>().0;
        attacks.and(self.side_pieces::<W>(Piece::KNIGHT)).count() as i32 * 81
            + attacks.and(self.side_pieces::<W>(Piece::BISHOP)).count() as i32 * 52
            + attacks.and(self.side_pieces::<W>(Piece::ROOK)).count() as i32 * 44
            + attacks.and(self.side_pieces::<W>(Piece::QUEEN)).count() as i32 * 10
    }

    /// For each square, the attacks a piece of `W` there makes on the squares next to the
    /// enemy king.
    pub fn king_attacks<W: Color, B: Color>(&self) -> (r: SquareEvaluations)
        requires
            self.attacks_ready(),
            opposite::<W, B>(),
        ensures
            forall|s: int| 0 <= s < 64 ==> #[trigger] r.0[s] == king_attacks_at(*self.board, W::spec_white(), s),
            forall|s: int| 0 <= s < 64 ==> 0 <= #[trigger] r.0[s] <= 256,
    {
        let ghost b = *self.board;
        let ghost w = W::spec_white();
        let king = self.king_square::<B, W>();
        proof {
            if w { assert(side_index(!w) == 1); } else { assert(side_index(!w) == 0); }
        }
        let adjacent = Precomputed::diagonal_directions(king).or(Precomputed::orthogonal_directions(king));
        let mut eval = SquareEvaluations::new();
        let mut q: i8 = 0;
        while q < 64
            invariant
                0 <= q <= 64,
                b == *self.board,
                w == W::spec_white(),
                self.attacks_ready(),
                opposite::<W, B>(),
                king == b.king_square[side_index(!w) as int],
                adjacent.0 == squares_where(diagonal_adjacent_pred(king.sq())) | squares_where(orthogonal_adjacent_pred(king.sq())),
                forall|s: int| 0 <= s < q ==> #[trigger] eval.0[s] == king_attacks_at(b, w, s),
                forall|s: int| 0 <= s < 64 ==> 0 <= #[trigger] eval.0[s] <= 256,
            decreases 64 - q,
        {
            let from = Some(Coord::from_idx(q));
            let mut v: i32 = 0;
            let mut i: i8 = 0;
            while i < 64
                invariant
                    0 <= i <= 64,
                    0 <= q < 64,
                    from == Some(Coord::of_sq(q as int)),
                    b == *self.board,
                    w == W::spec_white(),
                    self.attacks_ready(),
                    king == b.king_square[side_index(!w) as int],
                    adjacent.0 == squares_where(diagonal_adjacent_pred(king.sq())) | squares_where(orthogonal_adjacent_pred(king.sq())),
                    v == king_attacks_fold(b, w, q as int, i as nat),
                    0 <= v <= 4 * i,
                decreases 64 - i,
            {
                if adjacent.contains_square(i) {
                    let s = Coord::from_idx(i);
                    let ghost pins = pin_rays_of(b, w);
                    let ghost k = crate::eval::king_of(b, w);
                    proof {
                        let si = i as int;
                        let all = b.all_pieces_bitboard.0;
                        lemma_from_single(knight_attack_of(b, w, from, si), squares_where(knight_pred(si)) & pieces_of(b, w, Piece::KNIGHT) & !pins, from, 0, 0, 0, false);
                        lemma_from_single(bishop_attacks_spec(si, bishop_blockers(b)) & pieces_of(b, w, Piece::BISHOP) & only_from(from),
                            bishop_attacks_spec(si, bishop_blockers(b)) & pieces_of(b, w, Piece::BISHOP), from, pins, k, si, true);
                        lemma_from_single(rook_attacks_spec(si, rook_blockers(b, w)) & pieces_of(b, w, Piece::ROOK) & only_from(from),
                            rook_attacks_spec(si, rook_blockers(b, w)) & pieces_of(b, w, Piece::ROOK), from, pins, k, si, true);
                        lemma_from_single((bishop_attacks_spec(si, all) | rook_attacks_spec(si, all)) & pieces_of(b, w, Piece::QUEEN) & only_from(from),
                            (bishop_attacks_spec(si, all) | rook_attacks_spec(si, all)) & pieces_of(b, w, Piece::QUEEN), from, pins, k, si, true);
                    }
                    v = v + self.knight_attack::<W, B>(from, s).count() as i32
                        + self.bishop_xray_attack::<W, B>(from, s).count() as i32
                        + self.rook_xray_attack::<W, B>(from, s).count() as i32
                        + self.queen_attack::<W, B>(from, s).count() as i32;
                }
                i += 1;
            }
            eval.0[q as usize] = v;
            q += 1;
        }
        eval
    }

    /// The weak squares in the enemy king ring.
    pub fn weak_bonus<W: Color, B: Color>(&self) -> (r: BitBoard)
        requires
            self.attacks_ready(),
            opposite::<W, B>(),
        ensures
            r.0 == weak_squares_of(*self.board, W::spec_white()) & crate::eval::utils::king_ring_of(*self.board, W::spec_white(), false),
    {
        self.weak_squares::<W, B>().and(self.king_ring::<W, B>(false))
    }

    /// The checks of `W` that the enemy can capture, of each kind that has no safe check.
    pub fn unsafe_checks<W: Color, B: Color>(&self) -> (r: BitBoard)
        requires
            self.attacks_ready(),
            opposite::<W, B>(),
        ensures
            r.0 == (check_of(*self.board, W::spec_white(), CheckType::Knight)
                    & all_or_none(popcount(safe_check_of(*self.board, W::spec_white(), CheckType::Knight)) == 0))
                | (check_of(*self.board, W::spec_white(), CheckType::Bishop)
                    & all_or_none(popcount(safe_check_of(*self.board, W::spec_white(), CheckType::Bishop)) == 0))
                | (check_of(*self.board, W::spec_white(), CheckType::Rook)
                    & all_or_none(popcount(safe_check_of(*self.board, W::spec_white(), CheckType::Rook)) == 0)),
    {
        let all = BitBoard(0xFFFF_FFFF_FFFF_FFFF);
        let none = BitBoard(0);
        self.check::<W, B>(CheckType::Knight).and(if self.safe_check::<W, B>(CheckType::Knight).count() == 0 { all } else { none })
            .or(self.check::<W, B>(CheckType::Bishop).and(if self.safe_check::<W, B>(CheckType::Bishop).count() == 0 { all } else { none }))
            .or(self.check::<W, B>(CheckType::Rook).and(if self.safe_check::<W, B>(CheckType::Rook).count() == 0 { all } else { none }))
    }

    /// The squares both a knight and the king of `W` defend.
    pub fn knight_defender<W: Color, B: Color>(&self) -> (r: BitBoard)
        requires
            self.attacks_ready(),
        ensures
            r.0 == type_attacks(*self.board, W::spec_white(), Piece::KNIGHT).0 & type_attacks(*self.board, W::spec_white(), Piece::KING).0,
    {
        self.attacks_by::<W, B>(Piece::KNIGHT).0.and(self.attacks_by::<W, B>(Piece::KING).0)
    }

    /// The flank of the enemy king, beyond the third rank of `W`.
    pub fn king_flank<W: Color, B: Color>(&self) -> (r: BitBoard)
        requires
            opposite::<W, B>(),
        ensures
            r.0 == king_flank_of(*self.board, W::spec_white()),
    {
        let (lo, hi) = W::ranks(0, 2);
        let kx = self.king_square::<B, W>().file();
        let all = BitBoard(0xFFFF_FFFF_FFFF_FFFF);
        let none = BitBoard(0);
        BitBoard::from_ranks(lo, hi).not()
            .and(BitBoard::from_files(3, 7).and(if kx == 0 { all } else { none }).not())
            .and(BitBoard::from_files(4, 7).and(if kx < 3 { all } else { none }).not())
            .and(BitBoard::from_files(0, 1).or(BitBoard::from_files(6, 7)).and(if 3 <= kx && kx < 5 { all } else { none }).not())
            .and(BitBoard::from_files(0, 3).and(if kx >= 5 { all } else { none }).not())
            .and(BitBoard::from_files(0, 4).and(if kx == 7 { all } else { none }).not())
    }

    /// Returns `(attacked exactly once, attacked twice)`: the squares of the enemy king flank
    /// `W` attacks.
    pub fn flank_attack<W: Color, B: Color>(&self) -> (r: (BitBoard, BitBoard))
        requires
            self.attacks_ready(),
            opposite::<W, B>(),
        ensures
            r.0.0 == (king_flank_of(*self.board, W::spec_white()) & all_attacks_of(*self.board, W::spec_white())) & !all_doubled_of(*self.board, W::spec_white()),
            r.1.0 == (king_flank_of(*self.board, W::spec_white()) & all_attacks_of(*self.board, W::spec_white())) & all_doubled_of(*self.board, W::spec_white()),
    {
        let attacked = self.king_flank::<W, B>().and(self.all_attacks::<W, B>());
        let a = self.all_doubled_attacks::<W, B>();
        (attacked.and(a.not()), attacked.and(a))
    }

    /// The squares of the enemy king flank the enemy defends.
    pub fn flank_defense<W: Color, B: Color>(&self) -> (r: BitBoard)
        requires
            self.attacks_ready(),
            opposite::<W, B>(),
        ensures
            r.0 == king_flank_of(*self.board, W::spec_white()) & all_attacks_of(*self.board, !W::spec_white()),
    {
        self.king_flank::<W, B>().and(self.all_attacks::<B, W>())
    }
}

} // verus!

verus! {

/// The weight of 0, 1, or 2 and more safe checks.
pub open spec fn check_weight(c: int, one: int, two: int) -> int {
    if c == 0 { 0 } else if c == 1 { one } else { two }
}

/// The checks of `w` that the enemy can capture, of each kind that has no safe check.
pub open spec fn unsafe_checks_of(b: Board, w: bool) -> u64 {
    (check_of(b, w, CheckType::Knight) & all_or_none(popcount(safe_check_of(b, w, CheckType::Knight)) == 0))
        | (check_of(b, w, CheckType::Bishop) & all_or_none(popcount(safe_check_of(b, w, CheckType::Bishop)) == 0))
        | (check_of(b, w, CheckType::Rook) & all_or_none(popcount(safe_check_of(b, w, CheckType::Rook)) == 0))
}

pub open spec fn king_attacks_fn(b: Board, w: bool) -> spec_fn(int) -> int {
    |s: int| king_attacks_at(b, w, s)
}

/// The flank attack count: squares attacked once, and twice counted double.
pub open spec fn flank_attack_count(b: Board, w: bool) -> int {
    let attacked = king_flank_of(b, w) & all_attacks_of(b, w);
    (popcount(attacked & !all_doubled_of(b, w)) + 2 * popcount(attacked & all_doubled_of(b, w))) as int
}

/// The danger from the attackers, the attacks and the weak squares near the enemy king.
pub open spec fn danger_attacks(b: Board, w: bool) -> int {
    let kao = king_attackers_origin_of(b, w);
    let count = popcount(kao.0) + popcount(kao.1);
    let kfa = flank_attack_count(b, w);
    count * king_attackers_weight_of(b, w)
        + 69 * sum_squares(king_attacks_fn(b, w), 64)
        + 185 * popcount(weak_squares_of(b, w) & crate::eval::utils::king_ring_of(b, w, false))
        - 100 * (if popcount(type_attacks(b, !w, Piece::KNIGHT).0 & type_attacks(b, !w, Piece::KING).0) > 0 { 1int } else { 0int })
        + 148 * popcount(unsafe_checks_of(b, w))
        + 98 * popcount(crate::eval::attack::king_blockers_of(b, !w))
        - 4 * popcount(king_flank_of(b, w) & all_attacks_of(b, !w))
        + (3 * kfa * kfa / 8)
}

/// The danger from a missing queen, the shelter, mobility and safe checks.
pub open spec fn danger_rest(b: Board, w: bool) -> int {
    let sh = shelter_of(b, w);
    -873 * (if popcount(pieces_of(b, w, Piece::QUEEN)) > 0 { 0int } else { 1int })
        - div_trunc(6 * (sh.0 - sh.1), 8)
        + mobility_bonus_of(b, w).0 - mobility_bonus_of(b, !w).0
        + 37
        + check_weight(popcount(safe_check_of(b, w, CheckType::Queen)) as int, 772, 1119)
        + check_weight(popcount(safe_check_of(b, w, CheckType::Rook)) as int, 1084, 1897)
        + check_weight(popcount(safe_check_of(b, w, CheckType::Bishop)) as int, 645, 967)
        + check_weight(popcount(safe_check_of(b, w, CheckType::Knight)) as int, 792, 1283)
}

/// The danger to the enemy king before it is cut off below 100.
pub open spec fn king_danger_raw(b: Board, w: bool) -> int {
    danger_attacks(b, w) + danger_rest(b, w)
}

/// The danger to the enemy king: nothing below 101.
pub open spec fn king_danger_of(b: Board, w: bool) -> int {
    if king_danger_raw(b, w) > 100 { king_danger_raw(b, w) } else { 0 }
}

pub open spec fn king_mg_of(b: Board, w: bool) -> int {
    let kd = king_danger_of(b, w);
    let sh = shelter_of(b, w);
    -sh.0 + sh.1 + kd * kd / 4096 + 8 * flank_attack_count(b, w) + 17 * (if pawnless_flank_of(b, w) { 1int } else { 0int })
}

pub open spec fn king_eg_of(b: Board, w: bool) -> int {
    -16 * pawn_distance_fold(b, w, 64) + shelter_of(b, w).2 + 95 * (if pawnless_flank_of(b, w) { 1int } else { 0int })
        + king_danger_of(b, w) / 16
}

impl<'a> Evaluation<'a> {
    fn check_term(c: u32, one: i32, two: i32) -> (r: i32)
        ensures
            r == check_weight(c as int, one as int, two as int),
    {
        if c == 0 { 0 } else if c == 1 { one } else { two }
    }

    fn danger_attacks_part<W: Color, B: Color>(&self) -> (r: i32)
        requires
            self.ready(),
            opposite::<W, B>(),
        ensures
            r == danger_attacks(*self.board, W::spec_white()),
            -1_200_000 <= r <= 2_710_000,
    {
        let ghost b = *self.board;
        let ghost w = W::spec_white();
        let king_attackers_origin = self.king_attackers_origin::<W, B>();
        let count = (king_attackers_origin.0.count() + king_attackers_origin.1.count()) as i32;
        let weight = self.king_attackers_weight::<W, B>();
        let attacks = self.king_attacks::<W, B>();
        proof {
            crate::eval::pawns::lemma_sum_squares_of(attacks.0, king_attacks_fn(b, w), 64);
            crate::bitboard::square_values::lemma_sum_bound(attacks.0, 256, 64);
        }
        let king_attacks = attacks.count();
        let weak = self.weak_bonus::<W, B>().count() as i32;
        let unsafe_checks = self.unsafe_checks::<W, B>().count() as i32;
        let blockers_for_king = self.blockers_for_king::<W, B>().count() as i32;
        let flank_attack_total = self.flank_attack::<W, B>();
        let king_flank_attack = (flank_attack_total.0.count() + 2 * flank_attack_total.1.count()) as i32;
        let king_flank_defense = self.flank_defense::<W, B>().count() as i32;
        let defender = if self.knight_defender::<B, W>().count() > 0 { 1 } else { 0 };
        proof {
            assert(0 <= count * weight <= 128 * 11968) by (nonlinear_arith)
                requires 0 <= count <= 128, 0 <= weight <= 11968;
            assert(0 <= 3 * king_flank_attack * king_flank_attack <= 3 * 192 * 192) by (nonlinear_arith)
                requires 0 <= king_flank_attack <= 192;
        }
        count * weight
            + 69 * king_attacks
            + 185 * weak
            - 100 * defender
            + 148 * unsafe_checks
            + 98 * blockers_for_king
            - 4 * king_flank_defense
            + (3 * king_flank_attack * king_flank_attack / 8)
    }

    fn danger_rest_part<W: Color, B: Color>(&self) -> (r: i32)
        requires
            self.ready(),
            opposite::<W, B>(),
            self.board.pawns_inside(),
        ensures
            r == danger_rest(*self.board, W::spec_white()),
            -40000 <= r <= 40000,
    {
        let no_queen = if self.queen_count::<W, B>() > 0 { 0 } else { 1 };
        let shelter = self.shelter_strength_storm_eg::<W, B>();
        let diff = shelter.0 - shelter.1;
        let shelter_term = if 6 * diff >= 0 { 6 * diff / 8 } else { -((-(6 * diff)) / 8) };
        -873 * no_queen
            - shelter_term
            + self.mobility_mg::<W, B>() - self.mobility_mg::<B, W>()
            + 37
            + Self::check_term(self.safe_check::<W, B>(CheckType::Queen).count(), 772, 1119)
            + Self::check_term(self.safe_check::<W, B>(CheckType::Rook).count(), 1084, 1897)
            + Self::check_term(self.safe_check::<W, B>(CheckType::Bishop).count(), 645, 967)
            + Self::check_term(self.safe_check::<W, B>(CheckType::Knight).count(), 792, 1283)
    }

    /// The danger to the enemy king from the pieces of `W`; zero when at most 100.
    pub fn king_danger<W: Color, B: Color>(&self) -> (r: i32)
        requires
            self.ready(),
            opposite::<W, B>(),
            self.board.pawns_inside(),
        ensures
            r == king_danger_of(*self.board, W::spec_white()),
            0 <= r <= 2_800_000,
    {
        let v = self.danger_attacks_part::<W, B>() + self.danger_rest_part::<W, B>();
        if v > 100 { v } else { 0 }
    }

    /// The middle game king safety of the enemy against `W`.
    pub fn king_mg<W: Color, B: Color>(&self) -> (r: i32)
        requires
            self.ready(),
            opposite::<W, B>(),
            self.board.pawns_inside(),
        ensures
            r == king_mg_of(*self.board, W::spec_white()),
            -5000 <= r <= 1_914_100_000,
    {
        let kd = self.king_danger::<W, B>();
        let shelter = self.shelter_strength_storm_eg::<W, B>();
        let flank = self.flank_attack::<W, B>();
        proof {
            assert(0 <= (kd as int) * (kd as int) <= 2_800_000 * 2_800_000) by (nonlinear_arith)
                requires 0 <= kd <= 2_800_000;
        }
        let kd2 = (kd as i64) * (kd as i64) / 4096;
        let mut v: i32 = 0;
        v -= shelter.0;
        v += shelter.1;
        v += kd2 as i32;
        v += 8 * (flank.0.count() + 2 * flank.1.count()) as i32;
        v += 17 * if self.pawnless_flank::<W, B>() { 1 } else { 0 };
        v
    }

    /// The endgame king safety of the enemy against `W`.
    pub fn king_eg<W: Color, B: Color>(&self) -> (r: i32)
        requires
            self.ready(),
            opposite::<W, B>(),
            self.board.pawns_inside(),
        ensures
            r == king_eg_of(*self.board, W::spec_white()),
            -2000 <= r <= 180000,
    {
        let mut v: i32 = 0;
        v -= 16 * self.king_pawn_distance::<W, B>();
        v += self.shelter_strength_storm_eg::<W, B>().2;
        v += 95 * if self.pawnless_flank::<W, B>() { 1 } else { 0 };
        v += self.king_danger::<W, B>() / 16;
        v
    }

    /// Returns `(mg, eg)`: the king safety of the enemy against `W`.
    pub fn king<W: Color, B: Color>(&self) -> (r: (i32, i32))
        requires
            self.ready(),
            opposite::<W, B>(),
            self.board.pawns_inside(),
        ensures
            r.0 == king_mg_of(*self.board, W::spec_white()),
            r.1 == king_eg_of(*self.board, W::spec_white()),
            -5000 <= r.0 <= 1_914_100_000,
            -2000 <= r.1 <= 180000,
    {
        (self.king_mg::<W, B>(), self.king_eg::<W, B>())
    }
}

} // verus!
