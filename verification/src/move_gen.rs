//! Legal move generation: checks and pins seen from the king, then the moves of each piece.
use vstd::prelude::*;
use crate::bitboard::{BitBoard, bit, squares_seq, square_bb, lemma_mask_bit, lemma_xor, lemma_or};
use crate::coord::Coord;
use crate::piece::Piece;
use crate::board::Board;
use crate::board::moves::Move;
use crate::precomp::{Precomputed, dir_file, dir_rank, edge_distance, ray_pred, sq_file, sq_rank};
use crate::bitboard::squares_where;

verus! {

/// The move from `s` to `t` with flag `f`.
pub open spec fn mk_move(s: int, t: int, f: int) -> Move {
    Move(((s as u16) | ((t as u16) << 6u16) | ((f as u16) << 12u16)) as u16)
}

/// The moves `g(s)` for the squares `s` of `sqs`, in order.
pub open spec fn flat_emit(sqs: Seq<int>, g: spec_fn(int) -> Seq<Move>) -> Seq<Move>
    decreases sqs.len(),
{
    if sqs.len() == 0 {
        Seq::empty()
    } else {
        g(sqs[0]) + flat_emit(sqs.drop_first(), g)
    }
}

/// Emitting for a first square and then the rest.
pub proof fn lemma_flat_emit_cons(t: int, rest: Seq<int>, g: spec_fn(int) -> Seq<Move>)
    ensures
        flat_emit(seq![t] + rest, g) == g(t) + flat_emit(rest, g),
{
    assert((seq![t] + rest).drop_first() =~= rest);
    assert((seq![t] + rest)[0] == t);
}

/// The empty board has no squares.
pub proof fn lemma_squares_seq_zero(n: nat)
    requires
        n <= 64,
    ensures
        squares_seq(0u64, n) == Seq::<int>::empty(),
    decreases n,
{
    if n > 0 {
        lemma_squares_seq_zero((n - 1) as nat);
        lemma_mask_bit(|j: int| false, 0, n - 1);
        assert(crate::bitboard::mask_upto(|j: int| false, 0) == 0u64);
    }
}

/// The single move from `s` to `t` with flag `f`.
pub open spec fn one_move(s: int, f: int) -> spec_fn(int) -> Seq<Move> {
    |t: int| seq![mk_move(s, t, f)]
}

/// Appends the moves from `start` to each square of `targets`, lowest first.
pub fn push_from(moves: &mut Vec<Move>, start: i8, targets: BitBoard, flag: u8)
    requires
        0 <= start < 64,
        flag < 16,
    ensures
        final(moves)@ == old(moves)@ + flat_emit(squares_seq(targets.0, 64), one_move(start as int, flag as int)),
{
    let ghost g = one_move(start as int, flag as int);
    let ghost m0 = moves@;
    let mut x = targets;
    while x.0 != 0
        invariant
            0 <= start < 64,
            flag < 16,
            g == one_move(start as int, flag as int),
            m0 + flat_emit(squares_seq(targets.0, 64), g) == moves@ + flat_emit(squares_seq(x.0, 64), g),
        decreases squares_seq(x.0, 64).len(),
    {
        let ghost x_before = x.0;
        let t = x.pop_lsb() as i8;
        proof {
            lemma_flat_emit_cons(t as int, squares_seq(x.0, 64), g);
        }
        let m = Move::from_start_end_flagged(start, t, flag);
        let ghost before = moves@;
        moves.push(m);
        proof {
            assert(m == mk_move(start as int, t as int, flag as int));
            assert(moves@ + flat_emit(squares_seq(x.0, 64), g)
                =~= before + flat_emit(squares_seq(x_before, 64), g));
        }
    }
    proof {
        lemma_squares_seq_zero(64);
    }
}

/// Which promotions are generated besides the queen's (when quiet moves are).
#[derive(PartialEq, Eq, Clone, Copy, Structural, Debug)]
pub enum PromotionMode {
    All,
    QueenOnly,
    QueenAndKnight,
}

impl PromotionMode {
    pub fn default() -> (r: Self)
        ensures
            r == PromotionMode::All,
    {
        PromotionMode::All
    }
}

pub struct MoveGenerator {
    pub moves: Vec<Move>,
    pub promotions_to_gen: PromotionMode,
    pub white_to_move: bool,
    pub friendly_color: u8,
    pub enemy_color: u8,
    pub friendly_king_sqr: Coord,
    pub friendly_idx: usize,
    pub enemy_idx: usize,
    pub in_check: bool,
    pub in_double_check: bool,
    pub check_ray_bitmask: BitBoard,
    pub pin_rays: BitBoard,
    pub not_pin_rays: BitBoard,
    pub enemy_attack_map_no_pawns: BitBoard,
    pub enemy_attack_map: BitBoard,
    pub enemy_pawn_attack_map: BitBoard,
    pub enemy_sliding_attack_map: BitBoard,
    pub gen_quiet_moves: bool,
    pub enemy_pieces: BitBoard,
    pub friendly_pieces: BitBoard,
    pub all_pieces: BitBoard,
    pub empty_sqrs: BitBoard,
    pub empty_or_enemy_sqrs: BitBoard,
    pub move_type_mask: BitBoard,
}

/// The square `i + 1` steps from `k` in direction `d`.
pub open spec fn ray_square(k: int, d: int, i: int) -> int {
    k + (i + 1) * (dir_rank(d) * 8 + dir_file(d))
}

/// Walks the ray from `k` in direction `d` from step `i` (of `n`), with the squares passed so
/// far in `mask`: `(1, ray)` when an enemy slider of the ray's kind stands behind exactly one
/// piece of side `friendly` (a pin), `(2, ray)` when it stands behind none (a check), else
/// `(0, ray)`.
pub open spec fn ray_scan(b: Board, k: int, d: int, i: int, n: int, friendly: u8, seen: bool, mask: u64) -> (int, u64)
    decreases n - i,
{
    if i >= n {
        (0, mask)
    } else {
        let s = ray_square(k, d, i);
        let m2 = mask | square_bb(s);
        let p = b.square[s];
        if p.0 == 0 {
            ray_scan(b, k, d, i + 1, n, friendly, seen, m2)
        } else if p.pcolor() == friendly {
            if !seen { ray_scan(b, k, d, i + 1, n, friendly, true, m2) } else { (0, m2) }
        } else if (d > 3 && (p.ptype() == Piece::BISHOP || p.ptype() == Piece::QUEEN))
            || (d <= 3 && (p.ptype() == Piece::ROOK || p.ptype() == Piece::QUEEN)) {
            (if seen { 1int } else { 2int }, m2)
        } else {
            (0, m2)
        }
    }
}

/// A square reached along a ray before its edge is on the board.
pub proof fn lemma_ray_square_in(k: int, d: int, i: int)
    requires
        0 <= k < 64,
        0 <= d < 8,
        0 <= i < edge_distance(k, d),
    ensures
        0 <= ray_square(k, d, i) < 64,
        sq_file(ray_square(k, d, i)) == sq_file(k) + (i + 1) * dir_file(d),
        sq_rank(ray_square(k, d, i)) == sq_rank(k) + (i + 1) * dir_rank(d),
{
    let x = k % 8;
    let y = k / 8;
    assert(k == 8 * y + x);
    let j = i + 1;
    let f = x + j * dir_file(d);
    let r = y + j * dir_rank(d);
    assert(0 <= f < 8 && 0 <= r < 8) by (nonlinear_arith)
        requires
            0 <= x < 8, 0 <= y < 8, 1 <= j, j <= edge_distance(k, d), 0 <= d < 8,
            x == k % 8, y == k / 8,
            edge_distance(k, d) == (if d == 0 { 7 - y } else if d == 1 { y } else if d == 2 { x } else if d == 3 { 7 - x }
                else if d == 4 { crate::precomp::min(7 - y, x) } else if d == 5 { crate::precomp::min(y, 7 - x) }
                else if d == 6 { crate::precomp::min(7 - y, 7 - x) } else { crate::precomp::min(y, x) }),
            f == x + j * dir_file(d), r == y + j * dir_rank(d),
            dir_file(d) == (if d == 0 || d == 1 { 0int } else if d == 2 || d == 4 || d == 7 { -1int } else { 1int }),
            dir_rank(d) == (if d == 2 || d == 3 { 0int } else if d == 1 || d == 5 || d == 7 { -1int } else { 1int });
    assert(ray_square(k, d, i) == 8 * r + f) by (nonlinear_arith)
        requires k == 8 * y + x, f == x + j * dir_file(d), r == y + j * dir_rank(d), j == i + 1,
            ray_square(k, d, i) == k + j * (dir_rank(d) * 8 + dir_file(d));
}

/// `(in check, in double check, check rays, pin rays)` as the rays from the king are scanned.
pub open spec fn dir_step(b: Board, k: int, d: int, friendly: u8, slider: u64,
    st: (bool, bool, u64, u64)) -> (bool, bool, u64, u64)
{
    if squares_where(ray_pred(k, dir_file(d), dir_rank(d))) & slider == 0 {
        st
    } else {
        let r = ray_scan(b, k, d, 0, edge_distance(k, d), friendly, false, 0);
        if r.0 == 1 {
            (st.0, st.1, st.2, st.3 | r.1)
        } else if r.0 == 2 {
            (true, st.0, st.2 | r.1, st.3)
        } else {
            st
        }
    }
}

/// The enemy sliders that move along direction `d`.
pub open spec fn slider_for(b: Board, d: int) -> u64 {
    if d > 3 { b.enemy_diagonal_sliders.0 } else { b.enemy_orthogonal_sliders.0 }
}

/// The scan over directions `d` up to `end`, stopping at a double check.
pub open spec fn dirs_fold(b: Board, k: int, friendly: u8, d: int, end: int,
    st: (bool, bool, u64, u64)) -> (bool, bool, u64, u64)
    decreases end - d,
{
    if d >= end {
        st
    } else {
        let st2 = dir_step(b, k, d, friendly, slider_for(b, d), st);
        if st2.1 { st2 } else { dirs_fold(b, k, friendly, d + 1, end, st2) }
    }
}

/// The union of `f(s)` over the squares `s` of `sqs`.
pub open spec fn seq_union(sqs: Seq<int>, f: spec_fn(int) -> u64) -> u64
    decreases sqs.len(),
{
    if sqs.len() == 0 { 0u64 } else { f(sqs[0]) | seq_union(sqs.drop_first(), f) }
}

/// The knights of `sqs` in turn: their attacks gathered, and each one that attacks the king
/// `king_bb` giving check. The state is `(in check, in double check, check rays, attacks)`.
pub open spec fn knight_fold(sqs: Seq<int>, king_bb: u64, st: (bool, bool, u64, u64)) -> (bool, bool, u64, u64)
    decreases sqs.len(),
{
    if sqs.len() == 0 {
        st
    } else {
        let k = sqs[0];
        let ka = squares_where(crate::precomp::knight_pred(k));
        let st1 = (st.0, st.1, st.2, st.3 | ka);
        let st2 = if ka & king_bb != 0 { (true, st1.0, st1.2 | square_bb(k), st1.3) } else { st1 };
        knight_fold(sqs.drop_first(), king_bb, st2)
    }
}

/// The directions worth scanning for the enemy pieces of color `ec`: without a queen, the
/// orthogonal ones only with a rook and the diagonal ones only with a bishop.
pub open spec fn dir_range(b: Board, ec: u8) -> (int, int) {
    if crate::bitboard::popcount(b.piece_bitboards[(Piece::QUEEN | ec) as int].0) == 0 {
        (if crate::bitboard::popcount(b.piece_bitboards[(Piece::ROOK | ec) as int].0) > 0 { 0int } else { 4int },
         if crate::bitboard::popcount(b.piece_bitboards[(Piece::BISHOP | ec) as int].0) > 0 { 8int } else { 4int })
    } else {
        (0, 8)
    }
}

/// What the enemy attacks, seen from the king on `k` of side `fc` (white when `white`):
/// `(in check, in double check, check rays, pin rays, slider attacks, knight attacks, pawn
/// attacks)`. The check rays are every square when not in check.
pub open spec fn attack_spec(b: Board, fc: u8, ec: u8, k: int, white: bool)
    -> (bool, bool, u64, u64, u64, u64, u64)
{
    let blockers = b.all_pieces_bitboard.0 & !square_bb(k);
    let sliding = seq_union(squares_seq(b.enemy_orthogonal_sliders.0, 64), |s: int| crate::magics::rook_attacks_spec(s, blockers))
        | seq_union(squares_seq(b.enemy_diagonal_sliders.0, 64), |s: int| crate::magics::bishop_attacks_spec(s, blockers));
    let range = dir_range(b, ec);
    let st1 = dirs_fold(b, k, fc, range.0, range.1, (false, false, 0u64, 0u64));
    let kn = knight_fold(squares_seq(b.piece_bitboards[(Piece::KNIGHT | ec) as int].0, 64),
        b.piece_bitboards[(Piece::KING | fc) as int].0, (st1.0, st1.1, st1.2, 0u64));
    let pawns = b.piece_bitboards[(Piece::PAWN | ec) as int].0;
    let pm = crate::precomp::pawn_attacks_spec(pawns, !white);
    let origins = squares_where(crate::precomp::pawn_attack_pred(b.white_to_move, k));
    let st3 = if bit(pm, k) { (true, kn.0, kn.2 | (pawns & origins)) } else { (kn.0, kn.1, kn.2) };
    (st3.0, st3.1, if st3.0 { st3.2 } else { 0xFFFF_FFFF_FFFF_FFFFu64 }, st1.3, sliding, kn.3, pm)
}

impl MoveGenerator {
    /// Scans the ray from the king in direction `dir`; see `ray_scan`.
    fn scan_ray(board: &Board, king: Coord, dir: usize, friendly: u8) -> (r: (u8, BitBoard))
        requires
            king.valid(),
            dir < 8,
        ensures
            (r.0 as int, r.1.0) == ray_scan(*board, king.sq(), dir as int, 0,
                edge_distance(king.sq(), dir as int), friendly, false, 0),
    {
        let n = Precomputed::num_sqrs_to_edge(king, dir);
        let dir_offset = Precomputed::direction_offsets(dir);
        let k = king.square();
        let ghost total = ray_scan(*board, k as int, dir as int, 0, n as int, friendly, false, 0);
        let mut seen = false;
        let mut ray_mask: u64 = 0;
        let mut i: i8 = 0;
        while i < n
            invariant
                0 <= i <= n,
                n == edge_distance(k as int, dir as int),
                0 <= k < 64,
                dir < 8,
                dir_offset == dir_rank(dir as int) * 8 + dir_file(dir as int),
                ray_scan(*board, k as int, dir as int, i as int, n as int, friendly, seen, ray_mask) == total,
                total == ray_scan(*board, king.sq(), dir as int, 0, edge_distance(king.sq(), dir as int), friendly, false, 0),
                k == king.sq(),
            decreases n - i,
        {
            proof {
                lemma_ray_square_in(k as int, dir as int, i as int);
                assert(-72 <= dir_offset * (i + 1) <= 72 && ray_square(k as int, dir as int, i as int) == k + dir_offset * (i + 1))
                    by (nonlinear_arith)
                    requires -9 <= dir_offset <= 9, 0 <= i < 8,
                        dir_offset == dir_rank(dir as int) * 8 + dir_file(dir as int),
                        ray_square(k as int, dir as int, i as int) == k + (i + 1) * (dir_rank(dir as int) * 8 + dir_file(dir as int));
            }
            let sqr = ((k as i16) + (dir_offset as i16) * ((i as i16) + 1)) as usize;
            let ghost m0 = ray_mask;
            ray_mask = ray_mask | (1u64 << (sqr as u64));
            assert(ray_mask == m0 | square_bb(ray_square(k as int, dir as int, i as int)));
            assert(ray_scan(*board, k as int, dir as int, i as int, n as int, friendly, seen, m0)
                == ({
                    let p = board.square[sqr as int];
                    if p.0 == 0 {
                        ray_scan(*board, k as int, dir as int, i + 1, n as int, friendly, seen, ray_mask)
                    } else if p.pcolor() == friendly {
                        if !seen { ray_scan(*board, k as int, dir as int, i + 1, n as int, friendly, true, ray_mask) } else { (0int, ray_mask) }
                    } else if (dir > 3 && (p.ptype() == Piece::BISHOP || p.ptype() == Piece::QUEEN))
                        || (dir <= 3 && (p.ptype() == Piece::ROOK || p.ptype() == Piece::QUEEN)) {
                        (if seen { 1int } else { 2int }, ray_mask)
                    } else {
                        (0int, ray_mask)
                    }
                }));
            let piece = board.square[sqr];
            if piece.0 != 0 {
                if piece.is_color(friendly) {
                    if !seen {
                        seen = true;
                    } else {
                        return (0, BitBoard(ray_mask));
                    }
                } else if (dir > 3 && piece.is_bishop_or_queen()) || (dir <= 3 && piece.is_rook_or_queen()) {
                    return (if seen { 1 } else { 2 }, BitBoard(ray_mask));
                } else {
                    return (0, BitBoard(ray_mask));
                }
            }
            i += 1;
        }
        (0, BitBoard(ray_mask))
    }

    /// The union of the attacks of the sliders on `pieces` (rook moves when `ortho`, bishop
    /// moves otherwise) through `blockers`.
    fn slider_union(pieces: BitBoard, blockers: BitBoard, ortho: bool) -> (r: u64)
        ensures
            r == (if ortho {
                seq_union(squares_seq(pieces.0, 64), |s: int| crate::magics::rook_attacks_spec(s, blockers.0))
            } else {
                seq_union(squares_seq(pieces.0, 64), |s: int| crate::magics::bishop_attacks_spec(s, blockers.0))
            }),
    {
        let ghost f = if ortho {
            |s: int| crate::magics::rook_attacks_spec(s, blockers.0)
        } else {
            |s: int| crate::magics::bishop_attacks_spec(s, blockers.0)
        };
        let mut acc: u64 = 0;
        let mut x = pieces;
        proof { lemma_or(seq_union(squares_seq(pieces.0, 64), f), 0u64, 0u64); }
        while x.0 != 0
            invariant
                f == (if ortho {
                    |s: int| crate::magics::rook_attacks_spec(s, blockers.0)
                } else {
                    |s: int| crate::magics::bishop_attacks_spec(s, blockers.0)
                }),
                acc | seq_union(squares_seq(x.0, 64), f) == seq_union(squares_seq(pieces.0, 64), f),
            decreases squares_seq(x.0, 64).len(),
        {
            let ghost xb = x.0;
            let t = x.pop_lsb();
            let start = Coord::from_idx(t as i8);
            let a = crate::magics::Magics::slider_attacks(start, blockers, ortho);
            proof {
                let rest = squares_seq(x.0, 64);
                assert((seq![t as int] + rest).drop_first() =~= rest);
                assert(seq_union(squares_seq(xb, 64), f) == f(t as int) | seq_union(rest, f));
                assert(a.0 == f(t as int));
                lemma_or(acc, a.0, seq_union(rest, f));
            }
            acc = acc | a.0;
        }
        proof {
            lemma_squares_seq_zero(64);
            lemma_or(acc, 0u64, 0u64);
        }
        acc
    }
}

/// The board can be searched for moves: its bitboards agree with its squares, its side fields
/// and sliders agree with the side to move, and both kings' squares are on the board.
pub open spec fn gen_ready(b: Board) -> bool {
    &&& b.wf()
    &&& b.sides_consistent()
    &&& b.sliders_consistent()
    &&& b.king_squares_valid()
}

/// The attack fields of `g` are those seen from its king on `b`.
pub open spec fn attacks_match(g: MoveGenerator, b: Board) -> bool {
    let a = attack_spec(b, g.friendly_color, g.enemy_color, g.friendly_king_sqr.sq(), g.white_to_move);
    let enemy_king = b.king_square[g.enemy_idx as int].sq();
    &&& g.in_check == a.0
    &&& g.in_double_check == a.1
    &&& g.check_ray_bitmask.0 == a.2
    &&& g.pin_rays.0 == a.3
    &&& g.not_pin_rays.0 == !a.3
    &&& g.enemy_sliding_attack_map.0 == a.4
    &&& g.enemy_pawn_attack_map.0 == a.6
    &&& g.enemy_attack_map_no_pawns.0 == a.4 | a.5 | squares_where(crate::precomp::king_pred(enemy_king))
    &&& g.enemy_attack_map.0 == g.enemy_attack_map_no_pawns.0 | a.6
}

/// The fields of `g` describe `b`, with quiet moves generated when `quiet`.
pub open spec fn init_matches(g: MoveGenerator, b: Board, quiet: bool) -> bool {
    &&& g.gen_quiet_moves == quiet
    &&& g.white_to_move == (b.move_color == Piece::WHITE)
    &&& g.friendly_color == b.move_color
    &&& g.enemy_color == b.opponent_color
    &&& g.friendly_king_sqr == b.king_square[b.move_color_idx as int]
    &&& g.friendly_idx == b.move_color_idx
    &&& g.enemy_idx == b.opponent_color_idx
    &&& g.enemy_pieces == b.color_bitboards[b.opponent_color_idx as int]
    &&& g.friendly_pieces == b.color_bitboards[b.move_color_idx as int]
    &&& g.all_pieces == b.all_pieces_bitboard
    &&& g.empty_sqrs.0 == !b.all_pieces_bitboard.0
    &&& g.empty_or_enemy_sqrs.0 == g.empty_sqrs.0 | g.enemy_pieces.0
    &&& g.move_type_mask.0 == (if quiet { 0xFFFF_FFFF_FFFF_FFFFu64 } else { g.enemy_pieces.0 })
    &&& attacks_match(g, b)
}

impl MoveGenerator {
    /// Reads the side to move, its king and the occupancy from `board`, then what the enemy
    /// attacks.
    pub fn init(&mut self, board: &Board)
        requires
            gen_ready(*board),
        ensures
            init_matches(*final(self), *board, old(self).gen_quiet_moves),
            final(self).moves == old(self).moves,
            final(self).promotions_to_gen == old(self).promotions_to_gen,
    {
        self.in_check = false;
        self.in_double_check = false;
        self.check_ray_bitmask = BitBoard(0);
        self.pin_rays = BitBoard(0);

        self.white_to_move = board.move_color == Piece::WHITE;
        self.friendly_color = board.move_color;
        self.enemy_color = board.opponent_color;
        self.friendly_king_sqr = board.king_square[board.move_color_idx];
        self.friendly_idx = board.move_color_idx;
        self.enemy_idx = board.opponent_color_idx;

        self.enemy_pieces = board.color_bitboards[self.enemy_idx];
        self.friendly_pieces = board.color_bitboards[self.friendly_idx];
        self.all_pieces = board.all_pieces_bitboard;
        self.empty_sqrs = self.all_pieces.not();
        self.empty_or_enemy_sqrs = self.empty_sqrs.or(self.enemy_pieces);
        self.move_type_mask = if self.gen_quiet_moves { BitBoard(0xFFFF_FFFF_FFFF_FFFF) } else { self.enemy_pieces };

        self.calc_attack_data(board);
    }

    /// Scans for checks and pins from the king, and gathers the squares the enemy attacks.
    fn calc_attack_data(&mut self, board: &Board)
        requires
            gen_ready(*board),
            old(self).friendly_color == board.move_color,
            old(self).enemy_color == board.opponent_color,
            old(self).friendly_king_sqr == board.king_square[board.move_color_idx as int],
            old(self).enemy_idx == board.opponent_color_idx,
            old(self).white_to_move == (board.move_color == Piece::WHITE),
        ensures
            attacks_match(*final(self), *board),
            *final(self) == (MoveGenerator {
                in_check: final(self).in_check,
                in_double_check: final(self).in_double_check,
                check_ray_bitmask: final(self).check_ray_bitmask,
                pin_rays: final(self).pin_rays,
                not_pin_rays: final(self).not_pin_rays,
                enemy_sliding_attack_map: final(self).enemy_sliding_attack_map,
                enemy_pawn_attack_map: final(self).enemy_pawn_attack_map,
                enemy_attack_map_no_pawns: final(self).enemy_attack_map_no_pawns,
                enemy_attack_map: final(self).enemy_attack_map,
                ..*old(self)
            }),
    {
        let ghost b = *board;
        let king = self.friendly_king_sqr;
        let fc = self.friendly_color;
        let ec = self.enemy_color;
        let ghost k = king.sq();
        let ghost a = attack_spec(b, fc, ec, k, self.white_to_move);
        proof {
            crate::piece::lemma_with_color(Piece::QUEEN, ec);
            crate::piece::lemma_with_color(Piece::ROOK, ec);
            crate::piece::lemma_with_color(Piece::BISHOP, ec);
            crate::piece::lemma_with_color(Piece::KNIGHT, ec);
            crate::piece::lemma_with_color(Piece::PAWN, ec);
            crate::piece::lemma_with_color(Piece::KING, fc);
        }

        let blockers = BitBoard(board.all_pieces_bitboard.0 & !king.to_bitboard().0);
        let sliding = Self::slider_union(board.enemy_orthogonal_sliders, blockers, true)
            | Self::slider_union(board.enemy_diagonal_sliders, blockers, false);
        self.enemy_sliding_attack_map = BitBoard(sliding);

        let mut start_dir: usize = 0;
        let mut end_dir: usize = 8;
        if board.piece_bitboards[(Piece::QUEEN | ec) as usize].count() == 0 {
            start_dir = if board.piece_bitboards[(Piece::ROOK | ec) as usize].count() > 0 { 0 } else { 4 };
            end_dir = if board.piece_bitboards[(Piece::BISHOP | ec) as usize].count() > 0 { 8 } else { 4 };
        }
        let ghost st1 = dirs_fold(b, k, fc, start_dir as int, end_dir as int, (false, false, 0u64, 0u64));
        let mut in_check = false;
        let mut in_double_check = false;
        let mut check: u64 = 0;
        let mut pins: u64 = 0;
        let mut dir = start_dir;
        while dir < end_dir && !in_double_check
            invariant
                b == *board,
                king.valid(),
                k == king.sq(),
                start_dir <= dir,
                end_dir <= 8,
                if in_double_check {
                    (in_check, in_double_check, check, pins) == st1
                } else {
                    dirs_fold(b, k, fc, dir as int, end_dir as int, (in_check, in_double_check, check, pins)) == st1
                },
            decreases end_dir - dir,
        {
            let slider = if dir > 3 { board.enemy_diagonal_sliders } else { board.enemy_orthogonal_sliders };
            if Precomputed::dir_ray_mask(king, dir).0 & slider.0 != 0 {
                let (kind, mask) = Self::scan_ray(board, king, dir, fc);
                if kind == 1 {
                    pins = pins | mask.0;
                } else if kind == 2 {
                    check = check | mask.0;
                    in_double_check = in_check;
                    in_check = true;
                }
            }
            dir += 1;
        }

        let mut opponent_knight_attacks: u64 = 0;
        let knights0 = board.piece_bitboards[(Piece::KNIGHT | ec) as usize];
        let mut knights = knights0;
        let friendly_king_bitboard = board.piece_bitboards[(Piece::KING | fc) as usize];
        let ghost kn = knight_fold(squares_seq(knights0.0, 64), friendly_king_bitboard.0, (st1.0, st1.1, st1.2, 0u64));
        while knights.0 != 0
            invariant
                knight_fold(squares_seq(knights.0, 64), friendly_king_bitboard.0,
                    (in_check, in_double_check, check, opponent_knight_attacks)) == kn,
            decreases squares_seq(knights.0, 64).len(),
        {
            let ghost kb = knights.0;
            let knight_sqr = knights.pop_lsb();
            let knight_attacks = Precomputed::knight_moves(Coord::from_idx(knight_sqr as i8));
            proof {
                let rest = squares_seq(knights.0, 64);
                assert((seq![knight_sqr as int] + rest).drop_first() =~= rest);
                assert((seq![knight_sqr as int] + rest)[0] == knight_sqr as int);
            }
            opponent_knight_attacks = opponent_knight_attacks | knight_attacks.0;
            if knight_attacks.0 & friendly_king_bitboard.0 != 0 {
                in_double_check = in_check;
                in_check = true;
                check = check | (1u64 << (knight_sqr as u64));
            }
        }
        proof {
            lemma_squares_seq_zero(64);
        }
        self.pin_rays = BitBoard(pins);
        self.not_pin_rays = BitBoard(!pins);

        let enemy_pawns_bitboard = board.piece_bitboards[(Piece::PAWN | ec) as usize];
        self.enemy_pawn_attack_map = Precomputed::pawn_attacks(enemy_pawns_bitboard, !self.white_to_move);
        if self.enemy_pawn_attack_map.contains_square(king.square()) {
            in_double_check = in_check;
            in_check = true;
            let possible_pawn_attack_origins = if board.white_to_move {
                Precomputed::white_pawn_attacks(king)
            } else {
                Precomputed::black_pawn_attacks(king)
            };
            check = check | (enemy_pawns_bitboard.0 & possible_pawn_attack_origins.0);
        }

        let enemy_king_sqr = board.king_square[self.enemy_idx];
        self.enemy_attack_map_no_pawns = BitBoard(sliding | opponent_knight_attacks | Precomputed::king_moves(enemy_king_sqr).0);
        self.enemy_attack_map = BitBoard(self.enemy_attack_map_no_pawns.0 | self.enemy_pawn_attack_map.0);
        if !in_check {
            check = 0xFFFF_FFFF_FFFF_FFFF;
        }
        self.in_check = in_check;
        self.in_double_check = in_double_check;
        self.check_ray_bitmask = BitBoard(check);
    }
}

/// The king's moves: to the squares next to it that the enemy does not attack and no friendly
/// piece holds (only captures when quiet moves are off), then castling on each side whose right
/// remains, when not in check, the squares the king crosses are not attacked, and the squares
/// between king and rook are empty.
pub open spec fn king_moves_spec(g: MoveGenerator, b: Board) -> Seq<Move> {
    let k = g.friendly_king_sqr.sq();
    let legal = !(g.enemy_attack_map.0 | g.friendly_pieces.0);
    let km = squares_where(crate::precomp::king_pred(k)) & legal & g.move_type_mask.0;
    let castles_ok = !g.in_check && g.gen_quiet_moves;
    let blockers = g.enemy_attack_map.0 | b.all_pieces_bitboard.0;
    let w = g.white_to_move;
    let cr = b.current_state.castling_rights;
    let kingside = castles_ok && cr & crate::board::game_state::kingside_bit(w) != 0
        && (if w { 0x60u64 } else { 0x6000_0000_0000_0000u64 }) & blockers == 0;
    let queenside = castles_ok && cr & crate::board::game_state::queenside_bit(w) != 0
        && (if w { 0x0Cu64 } else { 0x0C00_0000_0000_0000u64 }) & blockers == 0
        && (if w { 0x0Eu64 } else { 0x0E00_0000_0000_0000u64 }) & b.all_pieces_bitboard.0 == 0;
    flat_emit(squares_seq(km, 64), one_move(k, 0))
        + (if kingside { seq![mk_move(k, if w { 6int } else { 62int }, 2)] } else { Seq::empty() })
        + (if queenside { seq![mk_move(k, if w { 2int } else { 58int }, 2)] } else { Seq::empty() })
}

/// The squares the slider on `s` may move to: empty or enemy squares it reaches that stop a
/// check (when in check), along the line to the king when it is pinned.
pub open spec fn slide_targets(g: MoveGenerator, s: int, ortho: bool) -> u64 {
    let mm = g.empty_or_enemy_sqrs.0 & g.check_ray_bitmask.0 & g.move_type_mask.0;
    let t = (if ortho {
        crate::magics::rook_attacks_spec(s, g.all_pieces.0)
    } else {
        crate::magics::bishop_attacks_spec(s, g.all_pieces.0)
    }) & mm;
    if bit(g.pin_rays.0, s) { t & squares_where(crate::precomp::align_pred(s, g.friendly_king_sqr.sq())) } else { t }
}

pub open spec fn slider_g(g: MoveGenerator, ortho: bool) -> spec_fn(int) -> Seq<Move> {
    |s: int| flat_emit(squares_seq(slide_targets(g, s, ortho), 64), one_move(s, 0))
}

/// The moves of the rooks, bishops and queens (orthogonally, then diagonally); in check, the
/// pinned ones do not move.
pub open spec fn slider_moves_spec(g: MoveGenerator, b: Board) -> Seq<Move> {
    let o = if g.in_check { b.friendly_orthogonal_sliders.0 & g.not_pin_rays.0 } else { b.friendly_orthogonal_sliders.0 };
    let d = if g.in_check { b.friendly_diagonal_sliders.0 & g.not_pin_rays.0 } else { b.friendly_diagonal_sliders.0 };
    flat_emit(squares_seq(o, 64), slider_g(g, true)) + flat_emit(squares_seq(d, 64), slider_g(g, false))
}

pub open spec fn knight_g(g: MoveGenerator) -> spec_fn(int) -> Seq<Move> {
    |s: int| flat_emit(squares_seq(squares_where(crate::precomp::knight_pred(s))
        & (g.empty_or_enemy_sqrs.0 & g.check_ray_bitmask.0 & g.move_type_mask.0), 64), one_move(s, 0))
}

/// The moves of the knights that are not pinned.
pub open spec fn knight_moves_spec(g: MoveGenerator, b: Board) -> Seq<Move> {
    let knights = b.piece_bitboards[(Piece::KNIGHT | g.friendly_color) as int].0 & g.not_pin_rays.0;
    flat_emit(squares_seq(knights, 64), knight_g(g))
}

impl MoveGenerator {
    /// Whether the piece on `sqr` is pinned to the king.
    pub fn is_pinned(&self, sqr: Coord) -> (r: bool)
        requires
            sqr.valid(),
        ensures
            r == bit(self.pin_rays.0, sqr.sq()),
    {
        proof { crate::bitboard::lemma_and_one(self.pin_rays.0 >> (sqr.sq() as u64)); }
        (self.pin_rays.0 >> (sqr.index() as u64)) & 1 != 0
    }

    fn gen_king_moves(&mut self, board: &Board)
        requires
            old(self).friendly_king_sqr.valid(),
        ensures
            final(self).moves@ == old(self).moves@ + king_moves_spec(*old(self), *board),
            *final(self) == (MoveGenerator { moves: final(self).moves, ..*old(self) }),
    {
        let ghost g = *self;
        let legal_mask = (self.enemy_attack_map.or(self.friendly_pieces)).not();
        let king_moves = Precomputed::king_moves(self.friendly_king_sqr).and(legal_mask).and(self.move_type_mask);
        push_from(&mut self.moves, self.friendly_king_sqr.square(), king_moves, 0);
        let ghost after_steps = self.moves@;

        let mut kingside = false;
        let mut queenside = false;
        if !self.in_check && self.gen_quiet_moves {
            let castle_blockers = self.enemy_attack_map.or(board.all_pieces_bitboard);
            if board.current_state.has_kingside_castle_right(self.white_to_move) {
                let castle_mask = if self.white_to_move { Precomputed::white_kingside_mask() } else { Precomputed::black_kingside_mask() };
                if castle_mask.0 & castle_blockers.0 == 0 {
                    let target = if self.white_to_move { Coord::g1() } else { Coord::g8() };
                    self.moves.push(Move::from_start_end_flagged(self.friendly_king_sqr.square(), target.square(), Move::CASTLING));
                    kingside = true;
                }
            }
            let ghost after_k = self.moves@;
            if board.current_state.has_queenside_castle_right(self.white_to_move) {
                let castle_mask = if self.white_to_move { Precomputed::white_queenside_mask_2() } else { Precomputed::black_queenside_mask_2() };
                let castle_block_mask = if self.white_to_move { Precomputed::white_queenside_mask() } else { Precomputed::black_queenside_mask() };
                if castle_mask.0 & castle_blockers.0 == 0 && castle_block_mask.0 & board.all_pieces_bitboard.0 == 0 {
                    let target = if self.white_to_move { Coord::c1() } else { Coord::c8() };
                    self.moves.push(Move::from_start_end_flagged(self.friendly_king_sqr.square(), target.square(), Move::CASTLING));
                    queenside = true;
                }
            }
        }
        proof {
            let k = g.friendly_king_sqr.sq();
            let ks = if kingside { seq![mk_move(k, if g.white_to_move { 6int } else { 62int }, 2)] } else { Seq::<Move>::empty() };
            let qs = if queenside { seq![mk_move(k, if g.white_to_move { 2int } else { 58int }, 2)] } else { Seq::<Move>::empty() };
            assert(self.moves@ =~= after_steps + ks + qs);
        }
    }

    fn gen_sliding_moves(&mut self, board: &Board)
        requires
            old(self).friendly_king_sqr.valid(),
        ensures
            final(self).moves@ == old(self).moves@ + slider_moves_spec(*old(self), *board),
            *final(self) == (MoveGenerator { moves: final(self).moves, ..*old(self) }),
    {
        let ghost g = *self;
        let move_mask = self.empty_or_enemy_sqrs.and(self.check_ray_bitmask).and(self.move_type_mask);
        let mut orthogonal_sliders = board.friendly_orthogonal_sliders;
        let mut diagonal_sliders = board.friendly_diagonal_sliders;
        if self.in_check {
            orthogonal_sliders = orthogonal_sliders.and(self.not_pin_rays);
            diagonal_sliders = diagonal_sliders.and(self.not_pin_rays);
        }
        let ghost o0 = orthogonal_sliders.0;
        let ghost d0 = diagonal_sliders.0;
        let ghost m0 = self.moves@;
        while orthogonal_sliders.0 != 0
            invariant
                *self == (MoveGenerator { moves: self.moves, ..g }),
                g.friendly_king_sqr.valid(),
                move_mask.0 == g.empty_or_enemy_sqrs.0 & g.check_ray_bitmask.0 & g.move_type_mask.0,
                m0 + flat_emit(squares_seq(o0, 64), slider_g(g, true))
                    == self.moves@ + flat_emit(squares_seq(orthogonal_sliders.0, 64), slider_g(g, true)),
            decreases squares_seq(orthogonal_sliders.0, 64).len(),
        {
            let ghost xb = orthogonal_sliders.0;
            let start = Coord::from_idx(orthogonal_sliders.pop_lsb() as i8);
            let mut move_sqrs = crate::magics::Magics::rook_attacks(start, self.all_pieces).and(move_mask);
            if self.is_pinned(start) {
                move_sqrs = move_sqrs.and(Precomputed::align_mask(start, self.friendly_king_sqr));
            }
            let ghost before = self.moves@;
            push_from(&mut self.moves, start.square(), move_sqrs, 0);
            proof {
                lemma_flat_emit_cons(start.sq(), squares_seq(orthogonal_sliders.0, 64), slider_g(g, true));
                assert(self.moves@ + flat_emit(squares_seq(orthogonal_sliders.0, 64), slider_g(g, true))
                    =~= before + flat_emit(squares_seq(xb, 64), slider_g(g, true)));
            }
        }
        proof { lemma_squares_seq_zero(64); }
        let ghost m1 = self.moves@;
        while diagonal_sliders.0 != 0
            invariant
                *self == (MoveGenerator { moves: self.moves, ..g }),
                g.friendly_king_sqr.valid(),
                move_mask.0 == g.empty_or_enemy_sqrs.0 & g.check_ray_bitmask.0 & g.move_type_mask.0,
                m1 + flat_emit(squares_seq(d0, 64), slider_g(g, false))
                    == self.moves@ + flat_emit(squares_seq(diagonal_sliders.0, 64), slider_g(g, false)),
            decreases squares_seq(diagonal_sliders.0, 64).len(),
        {
            let ghost xb = diagonal_sliders.0;
            let start = Coord::from_idx(diagonal_sliders.pop_lsb() as i8);
            let mut move_sqrs = crate::magics::Magics::bishop_attacks(start, self.all_pieces).and(move_mask);
            if self.is_pinned(start) {
                move_sqrs = move_sqrs.and(Precomputed::align_mask(start, self.friendly_king_sqr));
            }
            let ghost before = self.moves@;
            push_from(&mut self.moves, start.square(), move_sqrs, 0);
            proof {
                lemma_flat_emit_cons(start.sq(), squares_seq(diagonal_sliders.0, 64), slider_g(g, false));
                assert(self.moves@ + flat_emit(squares_seq(diagonal_sliders.0, 64), slider_g(g, false))
                    =~= before + flat_emit(squares_seq(xb, 64), slider_g(g, false)));
            }
        }
        proof {
            lemma_squares_seq_zero(64);
            assert(self.moves@ =~= m0 + slider_moves_spec(g, *board));
        }
    }

    fn gen_knight_moves(&mut self, board: &Board)
        requires
            old(self).friendly_color == 8 || old(self).friendly_color == 16,
        ensures
            final(self).moves@ == old(self).moves@ + knight_moves_spec(*old(self), *board),
            *final(self) == (MoveGenerator { moves: final(self).moves, ..*old(self) }),
    {
        let ghost g = *self;
        proof { crate::piece::lemma_with_color(Piece::KNIGHT, self.friendly_color); }
        let friendly_knight_piece = Piece::new(Piece::KNIGHT | self.friendly_color);
        let mut knights = board.piece_bitboards[friendly_knight_piece.index()].and(self.not_pin_rays);
        let move_mask = self.empty_or_enemy_sqrs.and(self.check_ray_bitmask).and(self.move_type_mask);
        let ghost k0 = knights.0;
        let ghost m0 = self.moves@;
        while knights.0 != 0
            invariant
                *self == (MoveGenerator { moves: self.moves, ..g }),
                move_mask.0 == g.empty_or_enemy_sqrs.0 & g.check_ray_bitmask.0 & g.move_type_mask.0,
                m0 + flat_emit(squares_seq(k0, 64), knight_g(g))
                    == self.moves@ + flat_emit(squares_seq(knights.0, 64), knight_g(g)),
            decreases squares_seq(knights.0, 64).len(),
        {
            let ghost xb = knights.0;
            let knight_sqr = knights.pop_lsb() as i8;
            let move_sqrs = Precomputed::knight_moves(Coord::from_idx(knight_sqr)).and(move_mask);
            let ghost before = self.moves@;
            push_from(&mut self.moves, knight_sqr, move_sqrs, 0);
            proof {
                lemma_flat_emit_cons(knight_sqr as int, squares_seq(knights.0, 64), knight_g(g));
                assert(self.moves@ + flat_emit(squares_seq(knights.0, 64), knight_g(g))
                    =~= before + flat_emit(squares_seq(xb, 64), knight_g(g)));
            }
        }
        proof {
            lemma_squares_seq_zero(64);
            assert(self.moves@ =~= m0 + knight_moves_spec(g, *board));
        }
    }
}

/// `x` shifted up by `n` squares (down when `n` is negative).
pub open spec fn shift_by(x: u64, n: int) -> u64 {
    if n > 0 { x << (n as u64) } else { x >> ((-n) as u64) }
}

/// A square of a shifted board comes from a square of the board.
pub proof fn lemma_shift_range(x: u64, off: int, t: int)
    requires
        -63 <= off <= 63,
        off != 0,
        0 <= t < 64,
        bit(shift_by(x, off), t),
    ensures
        0 <= t - off < 64,
        bit(x, t - off),
{
    if off > 0 {
        crate::bitboard::lemma_shift_bits(x, off as u64, t as u64);
    } else {
        crate::bitboard::lemma_shift_bits(x, (-off) as u64, t as u64);
    }
}

/// A pawn on `s` may go to `t`: it is not pinned, or `t` lies on its line to the king.
pub open spec fn align_ok(pins: u64, king: int, s: int, t: int) -> bool {
    !bit(pins, s)
        || squares_where(crate::precomp::align_pred(s, king)) == squares_where(crate::precomp::align_pred(t, king))
}

/// The promotions of a pawn from `s` to `t`: the queen, then, with quiet moves, the knight,
/// rook and bishop (all) or the knight (queen and knight).
pub open spec fn promos(quiet: bool, mode: PromotionMode, s: int, t: int) -> Seq<Move> {
    seq![mk_move(s, t, 3)] + (if quiet {
        if mode == PromotionMode::All {
            seq![mk_move(s, t, 4), mk_move(s, t, 5), mk_move(s, t, 6)]
        } else if mode == PromotionMode::QueenAndKnight {
            seq![mk_move(s, t, 4)]
        } else {
            Seq::empty()
        }
    } else {
        Seq::empty()
    })
}

/// The moves of a pawn landing on `t` from `t - off`: promotions or one move with `flag`,
/// when the pin allows it (`strict`: only when not pinned).
pub open spec fn pawn_g(g: MoveGenerator, off: int, flag: int, prom: bool, strict: bool) -> spec_fn(int) -> Seq<Move> {
    pawn_g_of(g.pin_rays.0, g.friendly_king_sqr.sq(), g.gen_quiet_moves, g.promotions_to_gen, off, flag, prom, strict)
}

pub open spec fn pawn_g_of(pins: u64, king: int, quiet: bool, mode: PromotionMode, off: int, flag: int,
    prom: bool, strict: bool) -> spec_fn(int) -> Seq<Move>
{
    |t: int| {
        let s = t - off;
        if (if strict { !bit(pins, s) } else { align_ok(pins, king, s, t) }) {
            if prom { promos(quiet, mode, s, t) } else { seq![mk_move(s, t, flag)] }
        } else {
            Seq::empty()
        }
    }
}

/// Capturing en passant from `s` to `t`, taking the pawn on `c`, would open a rank to an
/// enemy rook or queen.
pub open spec fn in_check_after_ep(g: MoveGenerator, b: Board, s: int, t: int, c: int) -> bool {
    b.enemy_orthogonal_sliders.0 != 0
        && crate::magics::rook_attacks_spec(g.friendly_king_sqr.sq(),
            g.all_pieces.0 ^ (square_bb(c) | square_bb(s) | square_bb(t))) & b.enemy_orthogonal_sliders.0 != 0
}

pub open spec fn ep_g(g: MoveGenerator, b: Board, t: int, c: int) -> spec_fn(int) -> Seq<Move> {
    ep_g_of(g.pin_rays.0, g.friendly_king_sqr.sq(), g.all_pieces.0, b.enemy_orthogonal_sliders.0, t, c)
}

pub open spec fn ep_g_of(pins: u64, king: int, all: u64, ortho: u64, t: int, c: int) -> spec_fn(int) -> Seq<Move> {
    |s: int| if align_ok(pins, king, s, t) && !(ortho != 0
        && crate::magics::rook_attacks_spec(king, all ^ (square_bb(c) | square_bb(s) | square_bb(t))) & ortho != 0) {
        seq![mk_move(s, t, 1)]
    } else {
        Seq::empty()
    }
}

/// The en passant captures onto the file recorded in the board's state.
pub open spec fn ep_moves_spec(g: MoveGenerator, b: Board) -> Seq<Move> {
    let ep = b.current_state.en_passant_file as int;
    let w = g.white_to_move;
    let off: int = if w { 8 } else { -8 };
    let t = (if w { 5int } else { 2int }) * 8 + ep - 1;
    let c = t - off;
    let pawns = b.piece_bitboards[(Piece::PAWN | g.friendly_color) as int].0;
    if ep > 0 && bit(g.check_ray_bitmask.0, c) {
        let can = pawns & crate::precomp::pawn_attacks_spec(square_bb(t), !w);
        flat_emit(squares_seq(can, 64), ep_g(g, b, t, c))
    } else {
        Seq::empty()
    }
}

/// The pawn moves: single and double pushes (with quiet moves), captures to either side,
/// then the promotions by push and by capture, then the en passant captures.
pub open spec fn pawn_moves_spec(g: MoveGenerator, b: Board) -> Seq<Move> {
    let w = g.white_to_move;
    let dir: int = if w { 1 } else { -1 };
    let off = dir * 8;
    let pawns = b.piece_bitboards[(Piece::PAWN | g.friendly_color) as int].0;
    let prom = if w { crate::bitboard::RANK_8 } else { crate::bitboard::RANK_1 };
    let check = g.check_ray_bitmask.0;
    let single = shift_by(pawns, off) & g.empty_sqrs.0;
    let push_proms = single & prom & check;
    let m1 = if w { !crate::bitboard::FILE_A } else { !crate::bitboard::FILE_H };
    let m2 = if w { !crate::bitboard::FILE_H } else { !crate::bitboard::FILE_A };
    let cap_a0 = shift_by(pawns & m1, dir * 7) & g.enemy_pieces.0;
    let cap_b0 = shift_by(pawns & m2, dir * 9) & g.enemy_pieces.0;
    let single_np = single & !prom & check;
    let cap_proms_a = cap_a0 & prom & check;
    let cap_proms_b = cap_b0 & prom & check;
    let cap_a = cap_a0 & (check & !prom);
    let cap_b = cap_b0 & (check & !prom);
    let double = shift_by(single, off) & g.empty_sqrs.0
        & (if w { crate::bitboard::RANK_4 } else { crate::bitboard::RANK_5 }) & check;
    (if g.gen_quiet_moves {
        flat_emit(squares_seq(single_np, 64), pawn_g(g, off, 0, false, false))
            + flat_emit(squares_seq(double, 64), pawn_g(g, 2 * off, 7, false, false))
    } else {
        Seq::empty()
    })
        + flat_emit(squares_seq(cap_a, 64), pawn_g(g, dir * 7, 0, false, false))
        + flat_emit(squares_seq(cap_b, 64), pawn_g(g, dir * 9, 0, false, false))
        + flat_emit(squares_seq(push_proms, 64), pawn_g(g, off, 0, true, true))
        + flat_emit(squares_seq(cap_proms_a, 64), pawn_g(g, dir * 7, 0, true, false))
        + flat_emit(squares_seq(cap_proms_b, 64), pawn_g(g, dir * 9, 0, true, false))
        + ep_moves_spec(g, b)
}

impl MoveGenerator {
    fn gen_proms(&mut self, start_sqr: i8, target_sqr: i8)
        requires
            0 <= start_sqr < 64,
            0 <= target_sqr < 64,
        ensures
            final(self).moves@ == old(self).moves@ + promos(old(self).gen_quiet_moves, old(self).promotions_to_gen, start_sqr as int, target_sqr as int),
            *final(self) == (MoveGenerator { moves: final(self).moves, ..*old(self) }),
    {
        let ghost m0 = self.moves@;
        self.moves.push(Move::from_start_end_flagged(start_sqr, target_sqr, Move::QUEEN_PROMOTION));
        if self.gen_quiet_moves {
            if self.promotions_to_gen == PromotionMode::All {
                self.moves.push(Move::from_start_end_flagged(start_sqr, target_sqr, Move::KNIGHT_PROMOTION));
                self.moves.push(Move::from_start_end_flagged(start_sqr, target_sqr, Move::ROOK_PROMOTION));
                self.moves.push(Move::from_start_end_flagged(start_sqr, target_sqr, Move::BISHOP_PROMOTION));
            } else if self.promotions_to_gen == PromotionMode::QueenAndKnight {
                self.moves.push(Move::from_start_end_flagged(start_sqr, target_sqr, Move::KNIGHT_PROMOTION));
            }
        }
        proof {
            assert(self.moves@ =~= m0 + promos(old(self).gen_quiet_moves, old(self).promotions_to_gen, start_sqr as int, target_sqr as int));
        }
    }

    /// Appends the moves of the pawns landing on the squares of `targets` from `off` squares
    /// back; see `pawn_g`.
    fn push_pawns(&mut self, targets: BitBoard, off: i8, flag: u8, prom: bool, strict: bool)
        requires
            old(self).friendly_king_sqr.valid(),
            -16 <= off <= 16,
            flag < 16,
            forall|t: int| 0 <= t < 64 && #[trigger] bit(targets.0, t) ==> 0 <= t - off < 64,
        ensures
            final(self).moves@ == old(self).moves@ + flat_emit(squares_seq(targets.0, 64), pawn_g(*old(self), off as int, flag as int, prom, strict)),
            *final(self) == (MoveGenerator { moves: final(self).moves, ..*old(self) }),
    {
        let ghost g = *self;
        let ghost pg = pawn_g(g, off as int, flag as int, prom, strict);
        let ghost m0 = self.moves@;
        let mut x = targets;
        while x.0 != 0
            invariant
                *self == (MoveGenerator { moves: self.moves, ..g }),
                g.friendly_king_sqr.valid(),
                -16 <= off <= 16,
                flag < 16,
                pg == pawn_g(g, off as int, flag as int, prom, strict),
                forall|t: int| 0 <= t < 64 && #[trigger] bit(targets.0, t) ==> 0 <= t - off < 64,
                forall|t: int| 0 <= t < 64 && #[trigger] bit(x.0, t) ==> bit(targets.0, t),
                m0 + flat_emit(squares_seq(targets.0, 64), pg) == self.moves@ + flat_emit(squares_seq(x.0, 64), pg),
            decreases squares_seq(x.0, 64).len(),
        {
            let ghost xb = x.0;
            let t = x.pop_lsb() as i8;
            proof {
                assert(bit(targets.0, t as int));
                assert forall|j: int| 0 <= j < 64 && #[trigger] bit(x.0, j) implies bit(targets.0, j) by {
                    crate::bitboard::lemma_bit_ops(xb, (xb - 1) as u64, j);
                }
                lemma_flat_emit_cons(t as int, squares_seq(x.0, 64), pg);
            }
            let s = t - off;
            let start = Coord::from_idx(s);
            let ok = if strict {
                !self.is_pinned(start)
            } else {
                !self.is_pinned(start)
                    || Precomputed::align_mask(start, self.friendly_king_sqr) == Precomputed::align_mask(Coord::from_idx(t), self.friendly_king_sqr)
            };
            let ghost before = self.moves@;
            if ok {
                if prom {
                    self.gen_proms(s, t);
                } else {
                    self.moves.push(Move::from_start_end_flagged(s, t, flag));
                }
            }
            proof {
                assert(self.moves@ =~= before + pg(t as int));
                assert(self.moves@ + flat_emit(squares_seq(x.0, 64), pg)
                    =~= before + flat_emit(squares_seq(xb, 64), pg));
            }
        }
        proof {
            lemma_squares_seq_zero(64);
        }
    }
}

/// Each square of `y` that is a square of `x` shifted by `off` (and in `y` only through `x`)
/// comes from a square `off` back.
pub proof fn lemma_targets_from(x: u64, off: int, y: u64)
    requires
        -63 <= off <= 63,
        off != 0,
        forall|t: int| 0 <= t < 64 && #[trigger] bit(y, t) ==> bit(shift_by(x, off), t),
    ensures
        forall|t: int| 0 <= t < 64 && #[trigger] bit(y, t) ==> 0 <= t - off < 64 && bit(x, t - off),
{
    assert forall|t: int| 0 <= t < 64 && #[trigger] bit(y, t) implies 0 <= t - off < 64 && bit(x, t - off) by {
        lemma_shift_range(x, off, t);
    }
}

impl MoveGenerator {
    fn in_check_after_ep(&self, board: &Board, start_sqr: i8, target_sqr: i8, captured_pawn_sqr: i8) -> (r: bool)
        requires
            self.friendly_king_sqr.valid(),
            0 <= start_sqr < 64,
            0 <= target_sqr < 64,
            0 <= captured_pawn_sqr < 64,
        ensures
            r == in_check_after_ep(*self, *board, start_sqr as int, target_sqr as int, captured_pawn_sqr as int),
    {
        let enemy_ortho = board.enemy_orthogonal_sliders;
        if enemy_ortho.0 != 0 {
            let masked_blockers = BitBoard(self.all_pieces.0 ^ ((1u64 << (captured_pawn_sqr as u64))
                | (1u64 << (start_sqr as u64)) | (1u64 << (target_sqr as u64))));
            let rook_attacks = crate::magics::Magics::rook_attacks(self.friendly_king_sqr, masked_blockers);
            return rook_attacks.0 & enemy_ortho.0 != 0;
        }
        false
    }

    #[verifier::rlimit(100)]
    #[verifier::spinoff_prover]
    fn gen_pawn_moves(&mut self, board: &Board)
        requires
            old(self).friendly_king_sqr.valid(),
            old(self).friendly_color == 8 || old(self).friendly_color == 16,
            0 <= board.current_state.en_passant_file <= 8,
        ensures
            final(self).moves@ == old(self).moves@ + pawn_moves_spec(*old(self), *board),
            *final(self) == (MoveGenerator { moves: final(self).moves, ..*old(self) }),
    {
        let ghost g = *self;
        let ghost m0 = self.moves@;
        let push_dir: i8 = if self.white_to_move { 1 } else { -1 };
        let push_offset: i8 = push_dir * 8;
        proof { crate::piece::lemma_with_color(Piece::PAWN, self.friendly_color); }
        let friendly_pawn_piece = Piece::new(Piece::PAWN | self.friendly_color);
        let pawns = board.piece_bitboards[friendly_pawn_piece.index()];

        let prom_rank_mask = BitBoard(if self.white_to_move { crate::bitboard::RANK_8 } else { crate::bitboard::RANK_1 });
        let single_push = pawns.shifted(push_offset).and(self.empty_sqrs);
        let push_proms = single_push.and(prom_rank_mask).and(self.check_ray_bitmask);

        let capture_edge_file_mask = BitBoard(if self.white_to_move { !crate::bitboard::FILE_A } else { !crate::bitboard::FILE_H });
        let capture_edge_file_mask_2 = BitBoard(if self.white_to_move { !crate::bitboard::FILE_H } else { !crate::bitboard::FILE_A });
        let capture_a0 = pawns.and(capture_edge_file_mask).shifted(push_dir * 7).and(self.enemy_pieces);
        let capture_b0 = pawns.and(capture_edge_file_mask_2).shifted(push_dir * 9).and(self.enemy_pieces);

        let single_push_no_proms = single_push.and(prom_rank_mask.not()).and(self.check_ray_bitmask);
        let capture_proms_a = capture_a0.and(prom_rank_mask).and(self.check_ray_bitmask);
        let capture_proms_b = capture_b0.and(prom_rank_mask).and(self.check_ray_bitmask);
        let capture_a = capture_a0.and(self.check_ray_bitmask.and(prom_rank_mask.not()));
        let capture_b = capture_b0.and(self.check_ray_bitmask.and(prom_rank_mask.not()));

        proof {
            let w = g.white_to_move;
            assert forall|t: int| 0 <= t < 64 && #[trigger] bit(single_push_no_proms.0, t) implies bit(shift_by(pawns.0, push_offset as int), t) by {
                crate::bitboard::lemma_bit_ops(single_push.0 & !prom_rank_mask.0, self.check_ray_bitmask.0, t);
                crate::bitboard::lemma_bit_ops(single_push.0, !prom_rank_mask.0, t);
                crate::bitboard::lemma_bit_ops(shift_by(pawns.0, push_offset as int), self.empty_sqrs.0, t);
            }
            lemma_targets_from(pawns.0, push_offset as int, single_push_no_proms.0);
            assert forall|t: int| 0 <= t < 64 && #[trigger] bit(push_proms.0, t) implies bit(shift_by(pawns.0, push_offset as int), t) by {
                crate::bitboard::lemma_bit_ops(single_push.0 & prom_rank_mask.0, self.check_ray_bitmask.0, t);
                crate::bitboard::lemma_bit_ops(single_push.0, prom_rank_mask.0, t);
                crate::bitboard::lemma_bit_ops(shift_by(pawns.0, push_offset as int), self.empty_sqrs.0, t);
            }
            lemma_targets_from(pawns.0, push_offset as int, push_proms.0);
            let sa = shift_by(pawns.0 & capture_edge_file_mask.0, (push_dir * 7) as int);
            let sb = shift_by(pawns.0 & capture_edge_file_mask_2.0, (push_dir * 9) as int);
            assert forall|t: int| 0 <= t < 64 && #[trigger] bit(capture_a.0, t) implies bit(sa, t) by {
                crate::bitboard::lemma_bit_ops(capture_a0.0, self.check_ray_bitmask.0 & !prom_rank_mask.0, t);
                crate::bitboard::lemma_bit_ops(sa, self.enemy_pieces.0, t);
            }
            lemma_targets_from(pawns.0 & capture_edge_file_mask.0, (push_dir * 7) as int, capture_a.0);
            assert forall|t: int| 0 <= t < 64 && #[trigger] bit(capture_b.0, t) implies bit(sb, t) by {
                crate::bitboard::lemma_bit_ops(capture_b0.0, self.check_ray_bitmask.0 & !prom_rank_mask.0, t);
                crate::bitboard::lemma_bit_ops(sb, self.enemy_pieces.0, t);
            }
            lemma_targets_from(pawns.0 & capture_edge_file_mask_2.0, (push_dir * 9) as int, capture_b.0);
            assert forall|t: int| 0 <= t < 64 && #[trigger] bit(capture_proms_a.0, t) implies bit(sa, t) by {
                crate::bitboard::lemma_bit_ops(capture_a0.0 & prom_rank_mask.0, self.check_ray_bitmask.0, t);
                crate::bitboard::lemma_bit_ops(capture_a0.0, prom_rank_mask.0, t);
                crate::bitboard::lemma_bit_ops(sa, self.enemy_pieces.0, t);
            }
            lemma_targets_from(pawns.0 & capture_edge_file_mask.0, (push_dir * 7) as int, capture_proms_a.0);
            assert forall|t: int| 0 <= t < 64 && #[trigger] bit(capture_proms_b.0, t) implies bit(sb, t) by {
                crate::bitboard::lemma_bit_ops(capture_b0.0 & prom_rank_mask.0, self.check_ray_bitmask.0, t);
                crate::bitboard::lemma_bit_ops(capture_b0.0, prom_rank_mask.0, t);
                crate::bitboard::lemma_bit_ops(sb, self.enemy_pieces.0, t);
            }
            lemma_targets_from(pawns.0 & capture_edge_file_mask_2.0, (push_dir * 9) as int, capture_proms_b.0);
        }

        if self.gen_quiet_moves {
            self.push_pawns(single_push_no_proms, push_offset, 0, false, false);
            let double_push_target_rank_mask = BitBoard(if self.white_to_move { crate::bitboard::RANK_4 } else { crate::bitboard::RANK_5 });
            let double_push = single_push.shifted(push_offset).and(self.empty_sqrs).and(double_push_target_rank_mask).and(self.check_ray_bitmask);
            proof {
                let sd = shift_by(single_push.0, push_offset as int);
                assert forall|t: int| 0 <= t < 64 && #[trigger] bit(double_push.0, t) implies bit(sd, t) by {
                    crate::bitboard::lemma_bit_ops(sd & self.empty_sqrs.0 & double_push_target_rank_mask.0, self.check_ray_bitmask.0, t);
                    crate::bitboard::lemma_bit_ops(sd & self.empty_sqrs.0, double_push_target_rank_mask.0, t);
                    crate::bitboard::lemma_bit_ops(sd, self.empty_sqrs.0, t);
                }
                lemma_targets_from(single_push.0, push_offset as int, double_push.0);
                assert forall|t: int| 0 <= t < 64 && #[trigger] bit(double_push.0, t) implies 0 <= t - push_offset * 2 < 64 by {
                    let u = t - push_offset;
                    crate::bitboard::lemma_bit_ops(shift_by(pawns.0, push_offset as int), self.empty_sqrs.0, u);
                    lemma_shift_range(pawns.0, push_offset as int, u);
                }
            }
            self.push_pawns(double_push, push_offset * 2, Move::PAWN_TWO_FORWARD, false, false);
        }
        let ghost mq = self.moves@;
        self.push_pawns(capture_a, push_dir * 7, 0, false, false);
        self.push_pawns(capture_b, push_dir * 9, 0, false, false);
        self.push_pawns(push_proms, push_offset, 0, true, true);
        self.push_pawns(capture_proms_a, push_dir * 7, 0, true, false);
        self.push_pawns(capture_proms_b, push_dir * 9, 0, true, false);
        let ghost before_ep = self.moves@;
        proof {
            let dir = push_dir as int;
            let off = push_offset as int;
            assert(before_ep =~= mq
                + flat_emit(squares_seq(capture_a.0, 64), pawn_g(g, dir * 7, 0, false, false))
                + flat_emit(squares_seq(capture_b.0, 64), pawn_g(g, dir * 9, 0, false, false))
                + flat_emit(squares_seq(push_proms.0, 64), pawn_g(g, off, 0, true, true))
                + flat_emit(squares_seq(capture_proms_a.0, 64), pawn_g(g, dir * 7, 0, true, false))
                + flat_emit(squares_seq(capture_proms_b.0, 64), pawn_g(g, dir * 9, 0, true, false)));
            let quiet = if g.gen_quiet_moves {
                flat_emit(squares_seq(single_push_no_proms.0, 64), pawn_g(g, off, 0, false, false))
                    + flat_emit(squares_seq((shift_by(single_push.0, off) & g.empty_sqrs.0
                        & (if g.white_to_move { crate::bitboard::RANK_4 } else { crate::bitboard::RANK_5 })
                        & g.check_ray_bitmask.0), 64), pawn_g(g, 2 * off, 7, false, false))
            } else {
                Seq::empty()
            };
            assert(mq =~= m0 + quiet);
        }

        self.gen_ep_moves(board, pawns);
        proof {
            assert(self.moves@ =~= before_ep + ep_moves_spec(g, *board));
            assert(self.moves@ =~= m0 + pawn_moves_spec(g, *board));
        }
    }

    fn gen_ep_moves(&mut self, board: &Board, pawns: BitBoard)
        requires
            old(self).friendly_king_sqr.valid(),
            old(self).friendly_color == 8 || old(self).friendly_color == 16,
            0 <= board.current_state.en_passant_file <= 8,
            pawns == board.piece_bitboards[(Piece::PAWN | old(self).friendly_color) as int],
        ensures
            final(self).moves@ == old(self).moves@ + ep_moves_spec(*old(self), *board),
            *final(self) == (MoveGenerator { moves: final(self).moves, ..*old(self) }),
    {
        let ghost g = *self;
        let ghost m0 = self.moves@;
        let push_offset: i8 = if self.white_to_move { 8 } else { -8 };
        if board.current_state.en_passant_file > 0 {
            let ep_file_idx = board.current_state.en_passant_file - 1;
            let ep_rank_idx: i8 = if self.white_to_move { 5 } else { 2 };
            let target_sqr = ep_rank_idx * 8 + ep_file_idx;
            let captured_pawn_sqr = target_sqr - push_offset;
            if self.check_ray_bitmask.contains_square(captured_pawn_sqr) {
                let can0 = pawns.and(Precomputed::pawn_attacks(BitBoard(1u64 << (target_sqr as u64)), !self.white_to_move));
                let mut pawns_that_can_ep = can0;
                let ghost eg = ep_g(g, *board, target_sqr as int, captured_pawn_sqr as int);
                let ghost m1 = self.moves@;
                assert(m1 == m0);
                while pawns_that_can_ep.0 != 0
                    invariant
                        *self == (MoveGenerator { moves: self.moves, ..g }),
                        g.friendly_king_sqr.valid(),
                        0 <= target_sqr < 64,
                        0 <= captured_pawn_sqr < 64,
                        eg == ep_g(g, *board, target_sqr as int, captured_pawn_sqr as int),
                        m1 + flat_emit(squares_seq(can0.0, 64), eg) == self.moves@ + flat_emit(squares_seq(pawns_that_can_ep.0, 64), eg),
                    decreases squares_seq(pawns_that_can_ep.0, 64).len(),
                {
                    let ghost xb = pawns_that_can_ep.0;
                    let start_sqr = pawns_that_can_ep.pop_lsb() as i8;
                    proof {
                        lemma_flat_emit_cons(start_sqr as int, squares_seq(pawns_that_can_ep.0, 64), eg);
                    }
                    let ghost before = self.moves@;
                    if (!self.is_pinned(Coord::from_idx(start_sqr))
                        || Precomputed::align_mask(Coord::from_idx(start_sqr), self.friendly_king_sqr)
                        == Precomputed::align_mask(Coord::from_idx(target_sqr), self.friendly_king_sqr))
                        && !self.in_check_after_ep(board, start_sqr, target_sqr, captured_pawn_sqr) {
                        self.moves.push(Move::from_start_end_flagged(start_sqr, target_sqr, Move::EN_PASSANT_CAPTURE));
                    }
                    proof {
                        assert(self.moves@ =~= before + eg(start_sqr as int));
                        assert(self.moves@ + flat_emit(squares_seq(pawns_that_can_ep.0, 64), eg)
                            =~= before + flat_emit(squares_seq(xb, 64), eg));
                    }
                }
                proof {
                    lemma_squares_seq_zero(64);
                }
            }
        }
        proof {
            assert(self.moves@ =~= m0 + ep_moves_spec(g, *board));
        }
    }
}

/// All the legal moves: the king's, then (unless in double check) the sliders', the knights'
/// and the pawns'.
pub open spec fn all_moves_spec(g: MoveGenerator, b: Board) -> Seq<Move> {
    king_moves_spec(g, b) + (if !g.in_double_check {
        slider_moves_spec(g, b) + knight_moves_spec(g, b) + pawn_moves_spec(g, b)
    } else {
        Seq::empty()
    })
}

/// Two generators that differ only in their list of moves generate the same moves.
pub proof fn lemma_moves_spec_ignore_list(g1: MoveGenerator, g2: MoveGenerator, b: Board)
    requires
        g1 == (MoveGenerator { moves: g1.moves, ..g2 }),
    ensures
        all_moves_spec(g1, b) == all_moves_spec(g2, b),
        king_moves_spec(g1, b) == king_moves_spec(g2, b),
        slider_moves_spec(g1, b) == slider_moves_spec(g2, b),
        knight_moves_spec(g1, b) == knight_moves_spec(g2, b),
        pawn_moves_spec(g1, b) == pawn_moves_spec(g2, b),
{
    assert(slider_g(g1, true) =~= slider_g(g2, true));
    assert(slider_g(g1, false) =~= slider_g(g2, false));
    assert(knight_g(g1) =~= knight_g(g2));
}

/// A copy of the moves.
fn copy_moves(v: &Vec<Move>) -> (r: Vec<Move>)
    ensures
        r@ == v@,
{
    let mut r: Vec<Move> = Vec::new();
    let mut i: usize = 0;
    while i < v.len()
        invariant
            i <= v.len(),
            r@ == v@.subrange(0, i as int),
        decreases v.len() - i,
    {
        r.push(v[i]);
        i += 1;
        proof {
            assert(r@ =~= v@.subrange(0, i as int));
        }
    }
    proof {
        assert(v@.subrange(0, v.len() as int) =~= v@);
    }
    r
}

impl MoveGenerator {
    /// The legal moves of the side to move on `board` (captures only when `captures_only`),
    /// also kept in `moves`.
    pub fn generate_moves(&mut self, board: &Board, captures_only: bool) -> (r: Vec<Move>)
        requires
            gen_ready(*board),
            0 <= board.current_state.en_passant_file <= 8,
        ensures
            init_matches(*final(self), *board, !captures_only),
            final(self).promotions_to_gen == old(self).promotions_to_gen,
            final(self).moves@ == all_moves_spec(*final(self), *board),
            r@ == final(self).moves@,
    {
        self.moves.clear();
        self.gen_quiet_moves = !captures_only;
        self.init(board);
        let ghost g = *self;
        proof {
            assert(self.friendly_king_sqr.valid());
        }
        self.gen_king_moves(board);
        if !self.in_double_check {
            let ghost g1 = *self;
            self.gen_sliding_moves(board);
            let ghost g2 = *self;
            self.gen_knight_moves(board);
            let ghost g3 = *self;
            self.gen_pawn_moves(board);
            proof {
                lemma_moves_spec_ignore_list(g1, g, *board);
                lemma_moves_spec_ignore_list(g2, g, *board);
                lemma_moves_spec_ignore_list(g3, g, *board);
            }
        }
        proof {
            assert(self.moves@ =~= all_moves_spec(g, *board));
            lemma_moves_spec_ignore_list(*self, g, *board);
        }
        copy_moves(&self.moves)
    }

    pub fn in_check(&self) -> (r: bool)
        ensures
            r == self.in_check,
    {
        self.in_check
    }

    pub fn default() -> (r: Self)
        ensures
            r.moves@.len() == 0,
            r.promotions_to_gen == PromotionMode::All,
            r.white_to_move,
            r.friendly_color == Piece::WHITE,
            r.enemy_color == Piece::BLACK,
            r.friendly_king_sqr == Coord::of_sq(0),
            r.gen_quiet_moves,
    {
        MoveGenerator {
            moves: Vec::new(),
            promotions_to_gen: PromotionMode::All,
            white_to_move: true,
            friendly_color: Piece::WHITE,
            enemy_color: Piece::BLACK,
            friendly_king_sqr: Coord::a1(),
            friendly_idx: Board::WHITE_INDEX,
            enemy_idx: Board::BLACK_INDEX,
            in_check: false,
            in_double_check: false,
            check_ray_bitmask: BitBoard(0),
            pin_rays: BitBoard(0),
            not_pin_rays: BitBoard(0),
            enemy_attack_map_no_pawns: BitBoard(0),
            enemy_attack_map: BitBoard(0),
            enemy_pawn_attack_map: BitBoard(0),
            enemy_sliding_attack_map: BitBoard(0),
            gen_quiet_moves: true,
            enemy_pieces: BitBoard(0),
            friendly_pieces: BitBoard(0),
            all_pieces: BitBoard(0),
            empty_sqrs: BitBoard(0),
            empty_or_enemy_sqrs: BitBoard(0),
            move_type_mask: BitBoard(0),
        }
    }
}

} // verus!
