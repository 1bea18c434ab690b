//! Attacks: which pieces of a side attack a square, and the squares a side attacks once or twice.
//! Pinned sliders and pawns only attack along the line of their pin; pinned knights don't attack.
use vstd::prelude::*;
use crate::bitboard::{BitBoard, bit, square_bb, squares_where, mask_upto, lemma_mask_step, popcount, union_over, doubled_over, lemma_bits_identity};
use crate::board::Board;
use crate::color::{Color, color_flag, side_index};
use crate::coord::Coord;
use crate::piece::Piece;
use crate::precomp::{Precomputed, ray_pred, dir_file, dir_rank, edge_distance, sq_file, sq_rank, pawn_attack_pred, knight_pred, king_pred, align_pred};
use crate::magics::{Magics, bishop_attacks_spec, rook_attacks_spec};
use crate::eval::{Evaluation, opposite, pieces_of, king_of, only_from, opt_valid};

verus! {

/// The slider board of side `w` for diagonal (`diag`) or straight rays.
pub open spec fn sliders_of(b: Board, w: bool, diag: bool) -> u64 {
    if w == b.white_to_move {
        if diag { b.friendly_diagonal_sliders.0 } else { b.friendly_orthogonal_sliders.0 }
    } else {
        if diag { b.enemy_diagonal_sliders.0 } else { b.enemy_orthogonal_sliders.0 }
    }
}

/// The `i`-th square from `k` in direction `d` (0 to 3 straight, 4 to 7 diagonal).
pub open spec fn ray_square(k: int, d: int, i: int) -> int {
    k + i * (dir_rank(d) * 8 + dir_file(d))
}

/// Whether piece `p` moves along direction `d` as a slider.
pub open spec fn slides_along(p: Piece, d: int) -> bool {
    if d > 3 {
        p.ptype() == Piece::BISHOP || p.ptype() == Piece::QUEEN
    } else {
        p.ptype() == Piece::ROOK || p.ptype() == Piece::QUEEN
    }
}

/// What the ray from `k` in direction `d` meets from step `i` on, `n` steps being on the board,
/// for the king of side `w`: `(2, squares up to the slider)` for a lone piece of `w` pinned by an
/// enemy slider, `(1, 0)` for a slider giving check, `(0, 0)` otherwise. `seen` tells that a
/// piece of `w` was met before step `i`; `mask` holds the squares walked so far.
pub open spec fn ray_scan(b: Board, w: bool, k: int, d: int, i: int, n: int, seen: bool, mask: u64) -> (u8, u64)
    decreases n - i,
{
    if i >= n {
        (0u8, 0u64)
    } else {
        let s = ray_square(k, d, i + 1);
        let m = mask | square_bb(s);
        let p = b.square[s];
        if p.0 == 0 {
            ray_scan(b, w, k, d, i + 1, n, seen, m)
        } else if p.pcolor() == color_flag(w) {
            if seen { (0u8, 0u64) } else { ray_scan(b, w, k, d, i + 1, n, true, m) }
        } else if slides_along(p, d) {
            if seen { (2u8, m) } else { (1u8, 0u64) }
        } else {
            (0u8, 0u64)
        }
    }
}

/// The pin rays found in directions `d..end` around the king of `w`, added to `pins`; the
/// search stops at a second check.
pub open spec fn pin_scan(b: Board, w: bool, d: int, end: int, pins: u64, in_check: bool) -> u64
    decreases end - d,
{
    if d >= end {
        pins
    } else {
        let k = king_of(b, w);
        if squares_where(ray_pred(k, dir_file(d), dir_rank(d))) & sliders_of(b, !w, d > 3) == 0 {
            pin_scan(b, w, d + 1, end, pins, in_check)
        } else {
            let res = ray_scan(b, w, k, d, 0, edge_distance(k, d), false, 0);
            if res.0 == 2 {
                pin_scan(b, w, d + 1, end, pins | res.1, in_check)
            } else if res.0 == 1 {
                if in_check { pins } else { pin_scan(b, w, d + 1, end, pins, true) }
            } else {
                pin_scan(b, w, d + 1, end, pins, in_check)
            }
        }
    }
}

/// Along the ray from `k` in direction `d`, from step `i` on (`n` steps being on the board):
/// the square of the first piece met (`first`, once met), where the next piece met is a slider
/// of the side against `w` moving along the ray; else nothing.
pub open spec fn blocker_scan(b: Board, w: bool, k: int, d: int, i: int, n: int, first: Option<int>) -> u64
    decreases n - i,
{
    if i >= n {
        0u64
    } else {
        let s = ray_square(k, d, i + 1);
        let p = b.square[s];
        if p.0 == 0 {
            blocker_scan(b, w, k, d, i + 1, n, first)
        } else {
            match first {
                None => blocker_scan(b, w, k, d, i + 1, n, Some(s)),
                Some(f) => if p.pcolor() != color_flag(w) && slides_along(p, d) { square_bb(f) } else { 0u64 },
            }
        }
    }
}

/// The pieces, of either side, that stand alone between the king of `w` and an enemy slider
/// moving along the line, in the first `dn` directions.
pub open spec fn king_blockers_upto(b: Board, w: bool, dn: int) -> u64
    decreases dn,
{
    if dn <= 0 {
        0u64
    } else {
        let k = king_of(b, w);
        king_blockers_upto(b, w, dn - 1) | blocker_scan(b, w, k, dn - 1, 0, edge_distance(k, dn - 1), None)
    }
}

/// The pieces, of either side, that stand alone between the king of `w` and an enemy slider
/// moving along the line.
pub open spec fn king_blockers_of(b: Board, w: bool) -> u64 {
    king_blockers_upto(b, w, 8)
}

/// The directions searched for pins: only those the enemy has sliders for when it has no queen.
pub open spec fn pin_dirs(b: Board, w: bool) -> (int, int) {
    if popcount(pieces_of(b, !w, Piece::QUEEN)) == 0 {
        (
            if popcount(pieces_of(b, !w, Piece::ROOK)) > 0 { 0int } else { 4int },
            if popcount(pieces_of(b, !w, Piece::BISHOP)) > 0 { 8int } else { 4int },
        )
    } else {
        (0int, 8int)
    }
}

/// The squares from the king of `w` to each enemy slider that pins a piece of `w`.
pub open spec fn pin_rays_of(b: Board, w: bool) -> u64 {
    pin_scan(b, w, pin_dirs(b, w).0, pin_dirs(b, w).1, 0, false)
}

/// Steps along a direction stay on the board up to the edge.
pub proof fn lemma_ray_square(k: int, d: int, j: int)
    requires
        0 <= k < 64,
        0 <= d < 8,
        0 <= j <= edge_distance(k, d),
    ensures
        0 <= ray_square(k, d, j) < 64,
        sq_file(ray_square(k, d, j)) == sq_file(k) + j * dir_file(d),
        sq_rank(ray_square(k, d, j)) == sq_rank(k) + j * dir_rank(d),
{
    let f = k % 8;
    let r = k / 8;
    let dr = dir_rank(d);
    let df = dir_file(d);
    assert(k == r * 8 + f);
    assert(-1 <= dr <= 1 && -1 <= df <= 1);
    assert(ray_square(k, d, j) == (r + j * dr) * 8 + (f + j * df)) by (nonlinear_arith)
        requires
            ray_square(k, d, j) == k + j * (dr * 8 + df),
            k == r * 8 + f;
    if d == 0 || d == 6 || d == 4 {
        assert(j * dr == j);
    } else if d == 1 || d == 5 || d == 7 {
        assert(dr == -1);
        assert(j * dr == -j) by (nonlinear_arith) requires dr == -1;
    } else {
        assert(j * dr == 0);
    }
    if d == 3 || d == 5 || d == 6 {
        assert(j * df == j);
    } else if d == 2 || d == 4 || d == 7 {
        assert(df == -1);
        assert(j * df == -j) by (nonlinear_arith) requires df == -1;
    } else {
        assert(j * df == 0);
    }
}

impl<'a> Evaluation<'a> {
    /// The king square of side `W`.
    pub fn king_square<W: Color, B: Color>(&self) -> (r: Coord)
        ensures
            r == self.board.king_square[side_index(W::spec_white()) as int],
    {
        self.board.king_square[W::index()]
    }

    /// The bishops and queens of side `W`.
    pub fn diagonal_sliders<W: Color, B: Color>(&self) -> (r: BitBoard)
        ensures
            r.0 == sliders_of(*self.board, W::spec_white(), true),
    {
        if W::is_white() == self.board.white_to_move {
            self.board.friendly_diagonal_sliders
        } else {
            self.board.enemy_diagonal_sliders
        }
    }

    /// The rooks and queens of side `W`.
    pub fn orthogonal_sliders<W: Color, B: Color>(&self) -> (r: BitBoard)
        ensures
            r.0 == sliders_of(*self.board, W::spec_white(), false),
    {
        if W::is_white() == self.board.white_to_move {
            self.board.friendly_orthogonal_sliders
        } else {
            self.board.enemy_orthogonal_sliders
        }
    }

    /// Walks the ray from the king of `W` in direction `d`.
    fn scan_ray<W: Color, B: Color>(&self, k: Coord, d: usize) -> (r: (u8, BitBoard))
        requires
            k.valid(),
            d < 8,
        ensures
            r.0 == ray_scan(*self.board, W::spec_white(), k.sq(), d as int, 0, edge_distance(k.sq(), d as int), false, 0).0,
            r.1.0 == ray_scan(*self.board, W::spec_white(), k.sq(), d as int, 0, edge_distance(k.sq(), d as int), false, 0).1,
    {
        let ghost b = *self.board;
        let ghost w = W::spec_white();
        let n = Precomputed::num_sqrs_to_edge(k, d);
        let df = Precomputed::dir_offsets_2d(d);
        let own = W::piece_color();
        let mut i: i8 = 0;
        let mut seen = false;
        let mut mask: u64 = 0;
        while i < n
            invariant
                k.valid(),
                d < 8,
                n == edge_distance(k.sq(), d as int),
                0 <= n <= 7,
                0 <= i <= n,
                df.file == dir_file(d as int),
                df.rank == dir_rank(d as int),
                own == color_flag(w),
                b == *self.board,
                w == W::spec_white(),
                ray_scan(b, w, k.sq(), d as int, 0, n as int, false, 0) == ray_scan(b, w, k.sq(), d as int, i as int, n as int, seen, mask),
            decreases n - i,
        {
            proof {
                lemma_ray_square(k.sq(), d as int, i + 1);
                assert(k.sq() % 8 == k.file && k.sq() / 8 == k.rank);
            }
            let f = k.file + df.file * (i + 1);
            let rk = k.rank + df.rank * (i + 1);
            let s = rk * 8 + f;
            proof {
                let rs = ray_square(k.sq(), d as int, i + 1);
                assert(rs == sq_rank(rs) * 8 + sq_file(rs));
                assert(s == rs);
            }
            let m = mask | (1u64 << (s as u64));
            let p = self.board.square[s as usize];
            if p.0 != 0 {
                if p.is_color(own) {
                    if seen {
                        return (0, BitBoard(0));
                    }
                    seen = true;
                } else if (d > 3 && p.is_bishop_or_queen()) || (d <= 3 && p.is_rook_or_queen()) {
                    if seen {
                        return (2, BitBoard(m));
                    }
                    return (1, BitBoard(0));
                } else {
                    return (0, BitBoard(0));
                }
            }
            mask = m;
            i += 1;
        }
        (0, BitBoard(0))
    }

    /// The piece standing alone between the king of `W` and an enemy slider in direction `d`.
    fn blocker_ray<W: Color, B: Color>(&self, k: Coord, d: usize) -> (r: u64)
        requires
            k.valid(),
            d < 8,
        ensures
            r == blocker_scan(*self.board, W::spec_white(), k.sq(), d as int, 0, edge_distance(k.sq(), d as int), None),
    {
        let ghost b = *self.board;
        let ghost w = W::spec_white();
        let n = Precomputed::num_sqrs_to_edge(k, d);
        let df = Precomputed::dir_offsets_2d(d);
        let own = W::piece_color();
        let mut i: i8 = 0;
        let mut first: Option<i8> = None;
        while i < n
            invariant
                k.valid(),
                d < 8,
                n == edge_distance(k.sq(), d as int),
                0 <= n <= 7,
                0 <= i <= n,
                df.file == dir_file(d as int),
                df.rank == dir_rank(d as int),
                own == color_flag(w),
                b == *self.board,
                w == W::spec_white(),
                first matches Some(f) ==> 0 <= f < 64,
                blocker_scan(b, w, k.sq(), d as int, 0, n as int, None) == blocker_scan(b, w, k.sq(), d as int,
                    i as int, n as int, match first { Some(f) => Some(f as int), None => None }),
            decreases n - i,
        {
            proof {
                lemma_ray_square(k.sq(), d as int, i + 1);
                assert(k.sq() % 8 == k.file && k.sq() / 8 == k.rank);
            }
            let f = k.file + df.file * (i + 1);
            let rk = k.rank + df.rank * (i + 1);
            let s = rk * 8 + f;
            proof {
                let rs = ray_square(k.sq(), d as int, i + 1);
                assert(rs == sq_rank(rs) * 8 + sq_file(rs));
                assert(s == rs);
            }
            let p = self.board.square[s as usize];
            if p.0 != 0 {
                match first {
                    None => {
                        first = Some(s);
                    },
                    Some(fs) => {
                        if !p.is_color(own) && ((d > 3 && p.is_bishop_or_queen()) || (d <= 3 && p.is_rook_or_queen())) {
                            return 1u64 << (fs as u64);
                        }
                        return 0;
                    },
                }
            }
            i += 1;
        }
        0
    }

    /// The pieces, of either side, standing alone between the king of `W` and an enemy slider
    /// moving along the line; see `king_blockers_of`.
    pub fn king_blockers<W: Color, B: Color>(&self) -> (r: BitBoard)
        requires
            self.board.king_squares_valid(),
        ensures
            r.0 == king_blockers_of(*self.board, W::spec_white()),
    {
        let ghost b = *self.board;
        let ghost w = W::spec_white();
        let k = self.king_square::<W, B>();
        proof {
            assert(k.valid()) by {
                if w { assert(side_index(w) == 0); } else { assert(side_index(w) == 1); }
            }
        }
        let mut acc: u64 = 0;
        let mut d: usize = 0;
        while d < 8
            invariant
                d <= 8,
                k.valid(),
                k.sq() == king_of(b, w),
                b == *self.board,
                w == W::spec_white(),
                acc == king_blockers_upto(b, w, d as int),
            decreases 8 - d,
        {
            acc = acc | self.blocker_ray::<W, B>(k, d);
            d += 1;
        }
        BitBoard(acc)
    }

    /// The squares from the king of `W` to each enemy slider pinning a piece of `W`, the
    /// slider included.
    pub fn pin_rays<W: Color, B: Color>(&self) -> (r: BitBoard)
        requires
            opposite::<W, B>(),
            self.board.king_squares_valid(),
        ensures
            r.0 == pin_rays_of(*self.board, W::spec_white()),
    {
        let ghost b = *self.board;
        let ghost w = W::spec_white();
        let mut pin_rays: u64 = 0;
        let mut start_dir_idx: usize = 0;
        let mut end_dir_idx: usize = 8;
        let mut in_check = false;

        if self.side_pieces::<B>(Piece::QUEEN).count() == 0 {
            start_dir_idx = if self.side_pieces::<B>(Piece::ROOK).count() > 0 { 0 } else { 4 };
            end_dir_idx = if self.side_pieces::<B>(Piece::BISHOP).count() > 0 { 8 } else { 4 };
        }
        let k = self.king_square::<W, B>();
        proof {
            assert(k.valid()) by {
                if w { assert(side_index(w) == 0); } else { assert(side_index(w) == 1); }
            }
        }
        let mut dir = start_dir_idx;
        while dir < end_dir_idx
            invariant
                start_dir_idx <= dir <= end_dir_idx <= 8,
                k.valid(),
                k.sq() == king_of(b, w),
                b == *self.board,
                w == W::spec_white(),
                !w == B::spec_white(),
                (start_dir_idx as int, end_dir_idx as int) == pin_dirs(b, w),
                pin_rays_of(b, w) == pin_scan(b, w, dir as int, end_dir_idx as int, pin_rays, in_check),
            decreases end_dir_idx - dir,
        {
            let is_diagonal = dir > 3;
            let slider = if is_diagonal { self.diagonal_sliders::<B, W>() } else { self.orthogonal_sliders::<B, W>() };
            if Precomputed::dir_ray_mask(k, dir).0 & slider.0 != 0 {
                let res = self.scan_ray::<W, B>(k, dir);
                if res.0 == 2 {
                    pin_rays = pin_rays | res.1.0;
                } else if res.0 == 1 {
                    if in_check {
                        return BitBoard(pin_rays);
                    }
                    in_check = true;
                }
            }
            dir += 1;
        }
        BitBoard(pin_rays)
    }
}

} // verus!

verus! {

/// Both queens.
pub open spec fn queens_bb(b: Board) -> u64 {
    b.piece_bitboards[13].0 | b.piece_bitboards[21].0
}

/// Bishops see through queens.
pub open spec fn bishop_blockers(b: Board) -> u64 {
    b.all_pieces_bitboard.0 & !queens_bb(b)
}

/// Rooks see through queens and the other rooks of their side.
pub open spec fn rook_blockers(b: Board, w: bool) -> u64 {
    b.all_pieces_bitboard.0 & !(queens_bb(b) | pieces_of(b, w, Piece::ROOK))
}

/// The squares a piece of type `t` of side `w` on `s` attacks.
pub open spec fn piece_moves(b: Board, w: bool, t: u8, s: int) -> u64 {
    if t == Piece::PAWN {
        squares_where(pawn_attack_pred(w, s))
    } else if t == Piece::KNIGHT {
        squares_where(knight_pred(s))
    } else if t == Piece::BISHOP {
        bishop_attacks_spec(s, bishop_blockers(b))
    } else if t == Piece::ROOK {
        rook_attacks_spec(s, rook_blockers(b, w))
    } else if t == Piece::QUEEN {
        bishop_attacks_spec(s, b.all_pieces_bitboard.0) | rook_attacks_spec(s, b.all_pieces_bitboard.0)
    } else {
        squares_where(king_pred(s))
    }
}

/// What a piece of type `t` on `s` attacks; a pinned slider only along its pin.
pub open spec fn pinned_moves(b: Board, w: bool, t: u8, pins: u64) -> spec_fn(int) -> u64 {
    |s: int| if (t == Piece::BISHOP || t == Piece::ROOK || t == Piece::QUEEN) && bit(pins, s) {
        piece_moves(b, w, t, s) & pins
    } else {
        piece_moves(b, w, t, s)
    }
}

/// The pieces of type `t` that attack at all: pinned knights don't.
pub open spec fn attackers_of(b: Board, w: bool, t: u8, pins: u64) -> u64 {
    if t == Piece::KNIGHT { pieces_of(b, w, t) & !pins } else { pieces_of(b, w, t) }
}

/// The squares attacked by the pieces of type `t` of side `w`, and those attacked by two of them.
pub open spec fn type_attacks(b: Board, w: bool, t: u8) -> (u64, u64) {
    let pins = pin_rays_of(b, w);
    (
        union_over(attackers_of(b, w, t, pins), pinned_moves(b, w, t, pins), 64),
        doubled_over(attackers_of(b, w, t, pins), pinned_moves(b, w, t, pins), 64),
    )
}

/// The attackers in `a` of square `q`, without the pinned ones that would leave their pin line.
pub open spec fn pin_keep(pins: u64, k: int, a: u64, q: int) -> spec_fn(int) -> bool {
    |t: int| bit(a, t) && !(bit(pins, t) && !bit(squares_where(align_pred(t, k)), q))
}

pub open spec fn pin_filter(b: Board, w: bool, a: u64, q: int) -> u64 {
    squares_where(pin_keep(pin_rays_of(b, w), king_of(b, w), a, q))
}

impl<'a> Evaluation<'a> {
    /// The cached pin rays of side `W`.
    pub(crate) fn pins<W: Color, B: Color>(&self) -> (r: BitBoard)
        requires
            self.pins_ready(),
        ensures
            r.0 == pin_rays_of(*self.board, W::spec_white()),
    {
        self.pin_rays[W::index()]
    }

    /// Whether the piece of `W` on `sqr` is pinned.
    ///
    /// Requires: `pin_rays`
    pub fn pinned<W: Color, B: Color>(&self, sqr: Coord) -> (r: bool)
        requires
            self.pins_ready(),
            sqr.valid(),
        ensures
            r == bit(pin_rays_of(*self.board, W::spec_white()), sqr.sq()),
    {
        self.pins::<W, B>().contains_square(sqr.square())
    }

    /// What the piece of type `t` of `W` on `s` attacks.
    pub(crate) fn moves_from<W: Color, B: Color>(&self, t: u8, s: Coord) -> (r: BitBoard)
        requires
            self.pins_ready(),
            opposite::<W, B>(),
            1 <= t <= 6,
            s.valid(),
        ensures
            r.0 == pinned_moves(*self.board, W::spec_white(), t, pin_rays_of(*self.board, W::spec_white()))(s.sq()),
    {
        let all = self.board.all_pieces_bitboard;
        let queens = self.board.piece_bitboards[13].or(self.board.piece_bitboards[21]);
        let moves = if t == Piece::PAWN {
            if W::is_white() { Precomputed::white_pawn_attacks(s) } else { Precomputed::black_pawn_attacks(s) }
        } else if t == Piece::KNIGHT {
            Precomputed::knight_moves(s)
        } else if t == Piece::BISHOP {
            Magics::bishop_attacks(s, all.and(queens.not()))
        } else if t == Piece::ROOK {
            Magics::rook_attacks(s, all.and(queens.or(self.side_pieces::<W>(Piece::ROOK)).not()))
        } else if t == Piece::QUEEN {
            Magics::bishop_attacks(s, all).or(Magics::rook_attacks(s, all))
        } else {
            Precomputed::king_moves(s)
        };
        if (t == Piece::BISHOP || t == Piece::ROOK || t == Piece::QUEEN) && self.pinned::<W, B>(s) {
            moves.and(self.pins::<W, B>())
        } else {
            moves
        }
    }

    /// The squares attacked by the pieces of type `t` of `W`, and those attacked by two of them.
    fn attacks_of_type<W: Color, B: Color>(&self, t: u8) -> (r: (BitBoard, BitBoard))
        requires
            self.pins_ready(),
            opposite::<W, B>(),
            1 <= t <= 6,
        ensures
            r.0.0 == type_attacks(*self.board, W::spec_white(), t).0,
            r.1.0 == type_attacks(*self.board, W::spec_white(), t).1,
    {
        let ghost b = *self.board;
        let ghost w = W::spec_white();
        let ghost pins = pin_rays_of(b, w);
        let mut x = self.side_pieces::<W>(t);
        if t == Piece::KNIGHT {
            x = x.and(self.pins::<W, B>().not());
        }
        let mut attacks: u64 = 0;
        let mut doubled: u64 = 0;
        let mut i: i8 = 0;
        while i < 64
            invariant
                0 <= i <= 64,
                self.pins_ready(),
                opposite::<W, B>(),
                1 <= t <= 6,
                b == *self.board,
                w == W::spec_white(),
                pins == pin_rays_of(b, w),
                x.0 == attackers_of(b, w, t, pins),
                attacks == union_over(x.0, pinned_moves(b, w, t, pins), i as nat),
                doubled == doubled_over(x.0, pinned_moves(b, w, t, pins), i as nat),
            decreases 64 - i,
        {
            proof {
                lemma_bits_identity(attacks);
                lemma_bits_identity(doubled);
            }
            if x.contains_square(i) {
                let m = self.moves_from::<W, B>(t, Coord::from_idx(i));
                doubled = doubled | (attacks & m.0);
                attacks = attacks | m.0;
            }
            i += 1;
        }
        (BitBoard(attacks), BitBoard(doubled))
    }

    /// Keeps the attackers in `a` of `sqr` that may leave their square: pinned ones only when
    /// `sqr` lies on their pin line.
    pub(crate) fn drop_pinned<W: Color, B: Color>(&self, a: BitBoard, sqr: Coord) -> (r: BitBoard)
        requires
            self.pins_ready(),
            sqr.valid(),
        ensures
            r.0 == pin_filter(*self.board, W::spec_white(), a.0, sqr.sq()),
    {
        let ghost b = *self.board;
        let ghost w = W::spec_white();
        let k = self.king_square::<W, B>();
        proof {
            assert(k.valid()) by {
                if w { assert(side_index(w) == 0); } else { assert(side_index(w) == 1); }
            }
        }
        let mut r: u64 = 0;
        let mut i: i8 = 0;
        while i < 64
            invariant
                0 <= i <= 64,
                self.pins_ready(),
                sqr.valid(),
                k.valid(),
                k.sq() == king_of(b, w),
                b == *self.board,
                w == W::spec_white(),
                r == mask_upto(pin_keep(pin_rays_of(b, w), king_of(b, w), a.0, sqr.sq()), i as nat),
            decreases 64 - i,
        {
            let t = Coord::from_idx(i);
            let c = a.contains_square(i) && !(self.pinned::<W, B>(t) && !Precomputed::align_mask(t, k).contains_square(sqr.square()));
            proof {
                lemma_mask_step(pin_keep(pin_rays_of(b, w), king_of(b, w), a.0, sqr.sq()), i as nat);
            }
            r = r | (if c { 1u64 << (i as u64) } else { 0u64 });
            i += 1;
        }
        BitBoard(r)
    }

    /// Returns `(all_attacks, double_attacks)` of the knights of `W`.
    pub fn all_knight_attacks<W: Color, B: Color>(&self) -> (r: (BitBoard, BitBoard))
        requires
            self.pins_ready(),
            opposite::<W, B>(),
        ensures
            r.0.0 == type_attacks(*self.board, W::spec_white(), Piece::KNIGHT).0,
            r.1.0 == type_attacks(*self.board, W::spec_white(), Piece::KNIGHT).1,
    {
        self.attacks_of_type::<W, B>(Piece::KNIGHT)
    }

    /// Returns `(all_attacks, double_attacks)` of the bishops of `W`, seeing through queens.
    pub fn all_bishop_xray_attacks<W: Color, B: Color>(&self) -> (r: (BitBoard, BitBoard))
        requires
            self.pins_ready(),
            opposite::<W, B>(),
        ensures
            r.0.0 == type_attacks(*self.board, W::spec_white(), Piece::BISHOP).0,
            r.1.0 == type_attacks(*self.board, W::spec_white(), Piece::BISHOP).1,
    {
        self.attacks_of_type::<W, B>(Piece::BISHOP)
    }

    /// Returns `(all_attacks, double_attacks)` of the rooks of `W`, seeing through queens and
    /// rooks of `W`.
    pub fn all_rook_xray_attacks<W: Color, B: Color>(&self) -> (r: (BitBoard, BitBoard))
        requires
            self.pins_ready(),
            opposite::<W, B>(),
        ensures
            r.0.0 == type_attacks(*self.board, W::spec_white(), Piece::ROOK).0,
            r.1.0 == type_attacks(*self.board, W::spec_white(), Piece::ROOK).1,
    {
        self.attacks_of_type::<W, B>(Piece::ROOK)
    }

    /// Returns `(all_attacks, double_attacks)` of the queens of `W`.
    pub fn all_queen_attacks<W: Color, B: Color>(&self) -> (r: (BitBoard, BitBoard))
        requires
            self.pins_ready(),
            opposite::<W, B>(),
        ensures
            r.0.0 == type_attacks(*self.board, W::spec_white(), Piece::QUEEN).0,
            r.1.0 == type_attacks(*self.board, W::spec_white(), Piece::QUEEN).1,
    {
        self.attacks_of_type::<W, B>(Piece::QUEEN)
    }

    /// Returns `(all_attacks, double_attacks)` of the pawns of `W`.
    pub fn all_pawn_attacks<W: Color, B: Color>(&self) -> (r: (BitBoard, BitBoard))
        requires
            self.pins_ready(),
            opposite::<W, B>(),
        ensures
            r.0.0 == type_attacks(*self.board, W::spec_white(), Piece::PAWN).0,
            r.1.0 == type_attacks(*self.board, W::spec_white(), Piece::PAWN).1,
    {
        self.attacks_of_type::<W, B>(Piece::PAWN)
    }

    /// The squares attacked by the king of `W`.
    pub fn all_king_attacks<W: Color, B: Color>(&self) -> (r: BitBoard)
        requires
            self.pins_ready(),
            opposite::<W, B>(),
        ensures
            r.0 == type_attacks(*self.board, W::spec_white(), Piece::KING).0,
    {
        self.attacks_of_type::<W, B>(Piece::KING).0
    }

    /// The knights of `W` attacking `sqr`; only the one on `s2` when given.
    ///
    /// Requires: `pin_rays`
    pub fn knight_attack<W: Color, B: Color>(&self, s2: Option<Coord>, sqr: Coord) -> (r: BitBoard)
        requires
            self.pins_ready(),
            sqr.valid(),
            opt_valid(s2),
        ensures
            r.0 == squares_where(knight_pred(sqr.sq())) & pieces_of(*self.board, W::spec_white(), Piece::KNIGHT)
                & !pin_rays_of(*self.board, W::spec_white()) & only_from(s2),
    {
        let attacks = Precomputed::knight_moves(sqr).and(self.side_pieces::<W>(Piece::KNIGHT)).and(self.pins::<W, B>().not());
        match s2 {
            Some(s) => attacks.and(s.to_bitboard()),
            None => {
                proof {
                    let a = attacks.0;
                    assert(a & 0xFFFF_FFFF_FFFF_FFFFu64 == a) by (bit_vector);
                }
                attacks
            },
        }
    }

    /// The single square `s2`, or every square.
    fn only_mask(s2: Option<Coord>) -> (r: BitBoard)
        requires
            opt_valid(s2),
        ensures
            r.0 == only_from(s2),
    {
        match s2 {
            Some(s) => s.to_bitboard(),
            None => BitBoard(0xFFFF_FFFF_FFFF_FFFF),
        }
    }

    /// The bishops of `W` attacking `sqr`, through queens; only the one on `s2` when given.
    ///
    /// Requires: `pin_rays`
    pub fn bishop_xray_attack<W: Color, B: Color>(&self, s2: Option<Coord>, sqr: Coord) -> (r: BitBoard)
        requires
            self.pins_ready(),
            sqr.valid(),
            opt_valid(s2),
        ensures
            r.0 == pin_filter(*self.board, W::spec_white(),
                bishop_attacks_spec(sqr.sq(), bishop_blockers(*self.board)) & pieces_of(*self.board, W::spec_white(), Piece::BISHOP) & only_from(s2),
                sqr.sq()),
    {
        let queens = self.board.piece_bitboards[13].or(self.board.piece_bitboards[21]);
        let blockers = self.board.all_pieces_bitboard.and(queens.not());
        let attacks = Magics::bishop_attacks(sqr, blockers).and(self.side_pieces::<W>(Piece::BISHOP)).and(Self::only_mask(s2));
        self.drop_pinned::<W, B>(attacks, sqr)
    }

    /// The rooks of `W` attacking `sqr`, through queens and rooks of `W`; only the one on `s2`
    /// when given.
    ///
    /// Requires: `pin_rays`
    pub fn rook_xray_attack<W: Color, B: Color>(&self, s2: Option<Coord>, sqr: Coord) -> (r: BitBoard)
        requires
            self.pins_ready(),
            sqr.valid(),
            opt_valid(s2),
        ensures
            r.0 == pin_filter(*self.board, W::spec_white(),
                rook_attacks_spec(sqr.sq(), rook_blockers(*self.board, W::spec_white())) & pieces_of(*self.board, W::spec_white(), Piece::ROOK) & only_from(s2),
                sqr.sq()),
    {
        let queens = self.board.piece_bitboards[13].or(self.board.piece_bitboards[21]);
        let rooks = self.side_pieces::<W>(Piece::ROOK);
        let blockers = self.board.all_pieces_bitboard.and(queens.or(rooks).not());
        let attacks = Magics::rook_attacks(sqr, blockers).and(rooks).and(Self::only_mask(s2));
        self.drop_pinned::<W, B>(attacks, sqr)
    }

    /// The queens of `W` attacking `sqr`; only the one on `s2` when given.
    ///
    /// Requires: `pin_rays`
    pub fn queen_attack<W: Color, B: Color>(&self, s2: Option<Coord>, sqr: Coord) -> (r: BitBoard)
        requires
            self.pins_ready(),
            sqr.valid(),
            opt_valid(s2),
        ensures
            r.0 == pin_filter(*self.board, W::spec_white(),
                (bishop_attacks_spec(sqr.sq(), self.board.all_pieces_bitboard.0) | rook_attacks_spec(sqr.sq(), self.board.all_pieces_bitboard.0))
                    & pieces_of(*self.board, W::spec_white(), Piece::QUEEN) & only_from(s2),
                sqr.sq()),
    {
        let all = self.board.all_pieces_bitboard;
        let attacks = Magics::bishop_attacks(sqr, all).or(Magics::rook_attacks(sqr, all))
            .and(self.side_pieces::<W>(Piece::QUEEN)).and(Self::only_mask(s2));
        self.drop_pinned::<W, B>(attacks, sqr)
    }

    /// The queens of `W` attacking `sqr` along a diagonal; only the one on `s2` when given.
    ///
    /// Requires: `pin_rays`
    pub fn queen_attack_diagonal<W: Color, B: Color>(&self, s2: Option<Coord>, sqr: Coord) -> (r: BitBoard)
        requires
            self.pins_ready(),
            sqr.valid(),
            opt_valid(s2),
        ensures
            r.0 == pin_filter(*self.board, W::spec_white(),
                bishop_attacks_spec(sqr.sq(), self.board.all_pieces_bitboard.0)
                    & pieces_of(*self.board, W::spec_white(), Piece::QUEEN) & only_from(s2),
                sqr.sq()),
    {
        let all = self.board.all_pieces_bitboard;
        let attacks = Magics::bishop_attacks(sqr, all).and(self.side_pieces::<W>(Piece::QUEEN)).and(Self::only_mask(s2));
        self.drop_pinned::<W, B>(attacks, sqr)
    }

    /// The pawns of `W` attacking `sqr`, without en passant; only the one on `s2` when given.
    ///
    /// Requires: `pin_rays`
    pub fn pawn_attack<W: Color, B: Color>(&self, s2: Option<Coord>, sqr: Coord) -> (r: BitBoard)
        requires
            self.pins_ready(),
            sqr.valid(),
            opt_valid(s2),
        ensures
            r.0 == pin_filter(*self.board, W::spec_white(),
                squares_where(pawn_attack_pred(!W::spec_white(), sqr.sq()))
                    & pieces_of(*self.board, W::spec_white(), Piece::PAWN) & only_from(s2),
                sqr.sq()),
    {
        let map = if W::is_white() { Precomputed::black_pawn_attacks(sqr) } else { Precomputed::white_pawn_attacks(sqr) };
        let attacks = map.and(self.side_pieces::<W>(Piece::PAWN)).and(Self::only_mask(s2));
        self.drop_pinned::<W, B>(attacks, sqr)
    }

    /// The king of `W` when it attacks `sqr`; only on `s2` when given.
    pub fn king_attack<W: Color, B: Color>(&self, s2: Option<Coord>, sqr: Coord) -> (r: BitBoard)
        requires
            sqr.valid(),
            opt_valid(s2),
        ensures
            r.0 == squares_where(king_pred(sqr.sq())) & pieces_of(*self.board, W::spec_white(), Piece::KING) & only_from(s2),
    {
        Precomputed::king_moves(sqr).and(self.side_pieces::<W>(Piece::KING)).and(Self::only_mask(s2))
    }

    /// The pieces of `W` attacking `sqr`.
    ///
    /// Requires: `pin_rays`
    pub fn attack<W: Color, B: Color>(&self, sqr: Coord) -> (r: BitBoard)
        requires
            self.pins_ready(),
            sqr.valid(),
        ensures
            r.0 == square_attackers(*self.board, W::spec_white(), sqr.sq()),
    {
        self.pawn_attack::<W, B>(None, sqr)
            .or(self.king_attack::<W, B>(None, sqr))
            .or(self.knight_attack::<W, B>(None, sqr))
            .or(self.bishop_xray_attack::<W, B>(None, sqr))
            .or(self.rook_xray_attack::<W, B>(None, sqr))
            .or(self.queen_attack::<W, B>(None, sqr))
    }
}

/// The pieces of side `w` attacking square `q`.
pub open spec fn square_attackers(b: Board, w: bool, q: int) -> u64 {
    let all = 0xFFFF_FFFF_FFFF_FFFFu64;
    pin_filter(b, w, squares_where(pawn_attack_pred(!w, q)) & pieces_of(b, w, Piece::PAWN) & all, q)
        | (squares_where(king_pred(q)) & pieces_of(b, w, Piece::KING) & all)
        | (squares_where(knight_pred(q)) & pieces_of(b, w, Piece::KNIGHT) & !pin_rays_of(b, w) & all)
        | pin_filter(b, w, bishop_attacks_spec(q, bishop_blockers(b)) & pieces_of(b, w, Piece::BISHOP) & all, q)
        | pin_filter(b, w, rook_attacks_spec(q, rook_blockers(b, w)) & pieces_of(b, w, Piece::ROOK) & all, q)
        | pin_filter(b, w, (bishop_attacks_spec(q, b.all_pieces_bitboard.0) | rook_attacks_spec(q, b.all_pieces_bitboard.0))
            & pieces_of(b, w, Piece::QUEEN) & all, q)
}

} // verus!

verus! {

/// The squares side `w` attacks.
pub open spec fn all_attacks_of(b: Board, w: bool) -> u64 {
    type_attacks(b, w, Piece::PAWN).0
        | type_attacks(b, w, Piece::KING).0
        | type_attacks(b, w, Piece::KNIGHT).0
        | type_attacks(b, w, Piece::BISHOP).0
        | type_attacks(b, w, Piece::ROOK).0
        | type_attacks(b, w, Piece::QUEEN).0
}

/// The squares side `w` attacks twice or more.
pub open spec fn all_doubled_of(b: Board, w: bool) -> u64 {
    let p = type_attacks(b, w, Piece::PAWN);
    let n = type_attacks(b, w, Piece::KNIGHT);
    let bi = type_attacks(b, w, Piece::BISHOP);
    let r = type_attacks(b, w, Piece::ROOK);
    let q = type_attacks(b, w, Piece::QUEEN);
    let k = type_attacks(b, w, Piece::KING).0;
    (p.1 | n.1 | bi.1 | r.1 | q.1)
        | ((p.0 & (n.0 | bi.0 | r.0 | q.0 | k))
        | (n.0 & (p.0 | bi.0 | r.0 | q.0 | k))
        | (bi.0 & (p.0 | n.0 | r.0 | q.0 | k))
        | (r.0 & (p.0 | n.0 | bi.0 | q.0 | k))
        | (q.0 & (p.0 | n.0 | bi.0 | r.0 | k)))
        | (k & (p.0 | n.0 | bi.0 | r.0 | q.0))
}

impl<'a> Evaluation<'a> {
    /// The cached attacks of the pieces of type `t` of `W`, and the squares attacked twice.
    pub fn attacks_by<W: Color, B: Color>(&self, t: u8) -> (r: (BitBoard, BitBoard))
        requires
            self.attacks_ready(),
            1 <= t <= 6,
        ensures
            r.0.0 == type_attacks(*self.board, W::spec_white(), t).0,
            t != Piece::KING ==> r.1.0 == type_attacks(*self.board, W::spec_white(), t).1,
    {
        let i = W::index();
        if t == Piece::PAWN {
            self.all_pawn_attacks[i]
        } else if t == Piece::KNIGHT {
            self.all_knight_attacks[i]
        } else if t == Piece::BISHOP {
            self.all_bishop_attacks[i]
        } else if t == Piece::ROOK {
            self.all_rook_attacks[i]
        } else if t == Piece::QUEEN {
            self.all_queen_attacks[i]
        } else {
            (self.all_king_attacks[i], BitBoard(0))
        }
    }

    /// The squares attacked by `W`.
    pub fn all_attacks<W: Color, B: Color>(&self) -> (r: BitBoard)
        requires
            self.attacks_ready(),
        ensures
            r.0 == all_attacks_of(*self.board, W::spec_white()),
    {
        self.attacks_by::<W, B>(Piece::PAWN).0
            .or(self.attacks_by::<W, B>(Piece::KING).0)
            .or(self.attacks_by::<W, B>(Piece::KNIGHT).0)
            .or(self.attacks_by::<W, B>(Piece::BISHOP).0)
            .or(self.attacks_by::<W, B>(Piece::ROOK).0)
            .or(self.attacks_by::<W, B>(Piece::QUEEN).0)
    }

    /// The squares attacked twice or more by `W`.
    pub fn all_doubled_attacks<W: Color, B: Color>(&self) -> (r: BitBoard)
        requires
            self.attacks_ready(),
        ensures
            r.0 == all_doubled_of(*self.board, W::spec_white()),
    {
        let p = self.attacks_by::<W, B>(Piece::PAWN);
        let n = self.attacks_by::<W, B>(Piece::KNIGHT);
        let bi = self.attacks_by::<W, B>(Piece::BISHOP);
        let r = self.attacks_by::<W, B>(Piece::ROOK);
        let q = self.attacks_by::<W, B>(Piece::QUEEN);
        let k = self.attacks_by::<W, B>(Piece::KING).0;
        let doubled = p.1.0 | n.1.0 | bi.1.0 | r.1.0 | q.1.0;
        BitBoard(doubled
            | ((p.0.0 & (n.0.0 | bi.0.0 | r.0.0 | q.0.0 | k.0))
            | (n.0.0 & (p.0.0 | bi.0.0 | r.0.0 | q.0.0 | k.0))
            | (bi.0.0 & (p.0.0 | n.0.0 | r.0.0 | q.0.0 | k.0))
            | (r.0.0 & (p.0.0 | n.0.0 | bi.0.0 | q.0.0 | k.0))
            | (q.0.0 & (p.0.0 | n.0.0 | bi.0.0 | r.0.0 | k.0)))
            | (k.0 & (p.0.0 | n.0.0 | bi.0.0 | r.0.0 | q.0.0)))
    }
}

} // verus!

verus! {

/// The knights of `w` attacking `q` (only the one on `s2` when given).
pub open spec fn knight_attack_of(b: Board, w: bool, s2: Option<Coord>, q: int) -> u64 {
    squares_where(knight_pred(q)) & pieces_of(b, w, Piece::KNIGHT) & !pin_rays_of(b, w) & only_from(s2)
}

/// The bishops of `w` attacking `q` through queens.
pub open spec fn bishop_xray_attack_of(b: Board, w: bool, s2: Option<Coord>, q: int) -> u64 {
    pin_filter(b, w, bishop_attacks_spec(q, bishop_blockers(b)) & pieces_of(b, w, Piece::BISHOP) & only_from(s2), q)
}

/// The rooks of `w` attacking `q` through queens and rooks of `w`.
pub open spec fn rook_xray_attack_of(b: Board, w: bool, s2: Option<Coord>, q: int) -> u64 {
    pin_filter(b, w, rook_attacks_spec(q, rook_blockers(b, w)) & pieces_of(b, w, Piece::ROOK) & only_from(s2), q)
}

/// The queens of `w` attacking `q`.
pub open spec fn queen_attack_of(b: Board, w: bool, s2: Option<Coord>, q: int) -> u64 {
    pin_filter(b, w, (bishop_attacks_spec(q, b.all_pieces_bitboard.0) | rook_attacks_spec(q, b.all_pieces_bitboard.0))
        & pieces_of(b, w, Piece::QUEEN) & only_from(s2), q)
}

/// The queens of `w` attacking `q` along a diagonal.
pub open spec fn queen_attack_diagonal_of(b: Board, w: bool, s2: Option<Coord>, q: int) -> u64 {
    pin_filter(b, w, bishop_attacks_spec(q, b.all_pieces_bitboard.0) & pieces_of(b, w, Piece::QUEEN) & only_from(s2), q)
}

/// The pawns of `w` attacking `q`.
pub open spec fn pawn_attack_of(b: Board, w: bool, s2: Option<Coord>, q: int) -> u64 {
    pin_filter(b, w, squares_where(pawn_attack_pred(!w, q)) & pieces_of(b, w, Piece::PAWN) & only_from(s2), q)
}

} // verus!

verus! {

/// An attacker board restricted to the square `s2` has at most that square.
pub proof fn lemma_from_single(a: u64, m: u64, s2: Option<Coord>, pins: u64, k: int, q: int, filtered: bool)
    requires
        opt_valid(s2),
        s2.is_some(),
        a == m & only_from(s2),
    ensures
        popcount(if filtered { squares_where(pin_keep(pins, k, a, q)) } else { a }) <= 1,
{
    let c = s2.unwrap().sq();
    let x = if filtered { squares_where(pin_keep(pins, k, a, q)) } else { a };
    assert forall|j: int| 0 <= j < 64 && #[trigger] bit(x, j) implies j == c by {
        if filtered {
            crate::bitboard::lemma_mask_bit(pin_keep(pins, k, a, q), 64, j);
        }
        crate::bitboard::lemma_bit_ops(m, square_bb(c), j);
        crate::bitboard::lemma_square_bit(c, j);
    }
    crate::bitboard::lemma_pop_at_most_one(x, c, 64);
}

} // verus!
