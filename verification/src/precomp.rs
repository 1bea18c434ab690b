//! Tables of the engine, each computed from its definition: the moves of the
//! leaping pieces, rays, distances and the pawn-structure masks.
use vstd::prelude::*;
use crate::bitboard::{BitBoard, bit, mask_upto, squares_where, lemma_mask_step, FILE_A, FILE_H};
use crate::coord::{Coord, abs, king_dist};

verus! {

pub open spec fn sq_file(t: int) -> int {
    t % 8
}

pub open spec fn sq_rank(t: int) -> int {
    t / 8
}

pub open spec fn knight_pred(s: int) -> spec_fn(int) -> bool {
    |t: int| {
        let df = abs(sq_file(t) - sq_file(s));
        let dr = abs(sq_rank(t) - sq_rank(s));
        (df == 1 && dr == 2) || (df == 2 && dr == 1)
    }
}

pub open spec fn king_pred(s: int) -> spec_fn(int) -> bool {
    |t: int| {
        let df = abs(sq_file(t) - sq_file(s));
        let dr = abs(sq_rank(t) - sq_rank(s));
        df <= 1 && dr <= 1 && !(df == 0 && dr == 0)
    }
}

/// `t` is attacked by a pawn of side `w` standing on `s`.
pub open spec fn pawn_attack_pred(w: bool, s: int) -> spec_fn(int) -> bool {
    |t: int| abs(sq_file(t) - sq_file(s)) == 1 && sq_rank(t) == sq_rank(s) + (if w { 1int } else { -1int })
}

/// `e` points in direction `d` (or is zero when `d` is).
pub open spec fn along(e: int, d: int) -> bool {
    if d > 0 { e >= 0 } else if d < 0 { e <= 0 } else { e == 0 }
}

/// `t` lies on the ray from `s` (itself included) in direction `(df, dr)`.
pub open spec fn ray_pred(s: int, df: int, dr: int) -> spec_fn(int) -> bool {
    |t: int| {
        let ef = sq_file(t) - sq_file(s);
        let er = sq_rank(t) - sq_rank(s);
        along(ef, df) && along(er, dr) && (df == 0 || dr == 0 || abs(ef) == abs(er))
    }
}

/// `t` lies on the line through `a` in the direction of `b`; the square `a` alone when `a == b`.
pub open spec fn align_pred(a: int, b: int) -> spec_fn(int) -> bool {
    |t: int| {
        let dx = crate::coord::sign(sq_file(b) - sq_file(a));
        let dy = crate::coord::sign(sq_rank(b) - sq_rank(a));
        let ef = sq_file(t) - sq_file(a);
        let er = sq_rank(t) - sq_rank(a);
        if dx == 0 && dy == 0 { t == a }
        else if dx == 0 { ef == 0 }
        else if dy == 0 { er == 0 }
        else if dx == dy { ef == er }
        else { ef == -er }
    }
}

pub open spec fn orthogonal_adjacent_pred(s: int) -> spec_fn(int) -> bool {
    |t: int| abs(sq_file(t) - sq_file(s)) + abs(sq_rank(t) - sq_rank(s)) == 1
}

pub open spec fn diagonal_adjacent_pred(s: int) -> spec_fn(int) -> bool {
    |t: int| abs(sq_file(t) - sq_file(s)) == 1 && abs(sq_rank(t) - sq_rank(s)) == 1
}

pub open spec fn rook_xray_pred(s: int) -> spec_fn(int) -> bool {
    |t: int| t != s && (sq_file(t) == sq_file(s) || sq_rank(t) == sq_rank(s))
}

pub open spec fn bishop_xray_pred(s: int) -> spec_fn(int) -> bool {
    |t: int| t != s && abs(sq_file(t) - sq_file(s)) == abs(sq_rank(t) - sq_rank(s))
}

pub open spec fn queen_xray_pred(s: int) -> spec_fn(int) -> bool {
    |t: int| t != s && (sq_file(t) == sq_file(s) || sq_rank(t) == sq_rank(s)
        || abs(sq_file(t) - sq_file(s)) == abs(sq_rank(t) - sq_rank(s)))
}

/// Squares strictly ahead of rank `r` for side `w`.
pub open spec fn forward_ranks_pred(w: bool, r: int) -> spec_fn(int) -> bool {
    |t: int| if w { sq_rank(t) > r } else { sq_rank(t) < r }
}

/// Squares strictly ahead of `s` on its file, for side `w`.
pub open spec fn forward_files_pred(w: bool, s: int) -> spec_fn(int) -> bool {
    |t: int| sq_file(t) == sq_file(s) && (if w { sq_rank(t) > sq_rank(s) } else { sq_rank(t) < sq_rank(s) })
}

/// Squares strictly ahead of `s` on the neighbouring files, for side `w`.
pub open spec fn pawn_attack_span_pred(w: bool, s: int) -> spec_fn(int) -> bool {
    |t: int| abs(sq_file(t) - sq_file(s)) == 1 && (if w { sq_rank(t) > sq_rank(s) } else { sq_rank(t) < sq_rank(s) })
}

pub open spec fn adjacent_files_pred(f: int) -> spec_fn(int) -> bool {
    |t: int| abs(sq_file(t) - f) == 1
}

pub open spec fn clamp16(f: int) -> int {
    if f < 1 { 1 } else if f > 6 { 6 } else { f }
}

pub open spec fn triple_file_pred(f: int) -> spec_fn(int) -> bool {
    |t: int| abs(sq_file(t) - clamp16(f)) <= 1
}

pub open spec fn king_safety_pred(s: int) -> spec_fn(int) -> bool {
    |t: int| abs(sq_file(t) - sq_file(s)) <= 1 && abs(sq_rank(t) - sq_rank(s)) <= 1
}

pub open spec fn ring_lo(x: int) -> int {
    if x == 0 { 0 } else if x == 7 { 5 } else { x - 1 }
}

pub open spec fn ring_hi(x: int) -> int {
    if x == 0 { 2 } else if x == 7 { 7 } else { x + 1 }
}

/// The king ring: the squares around the king, pushed inwards from the board's edges.
pub open spec fn king_ring_pred(s: int) -> spec_fn(int) -> bool {
    |t: int| ring_lo(sq_file(s)) <= sq_file(t) <= ring_hi(sq_file(s)) && ring_lo(sq_rank(s)) <= sq_rank(t) <= ring_hi(sq_rank(s))
}

/// Squares on a diagonal through `s`, at most `depth` steps away.
pub open spec fn diagonal_squares_pred(depth: int, s: int) -> spec_fn(int) -> bool {
    |t: int| {
        let df = abs(sq_file(t) - sq_file(s));
        let dr = abs(sq_rank(t) - sq_rank(s));
        df == dr && 1 <= df <= depth
    }
}

/// Squares on the file or the rank of `s`, at most `depth` steps away.
pub open spec fn orthogonal_squares_pred(depth: int, s: int) -> spec_fn(int) -> bool {
    |t: int| {
        let df = abs(sq_file(t) - sq_file(s));
        let dr = abs(sq_rank(t) - sq_rank(s));
        (df == 0 && 1 <= dr <= depth) || (dr == 0 && 1 <= df <= depth)
    }
}

pub open spec fn pawn_attacks_spec(b: u64, w: bool) -> u64 {
    if w {
        ((b << 9u64) & !FILE_A) | ((b << 7u64) & !FILE_H)
    } else {
        ((b >> 7u64) & !FILE_A) | ((b >> 9u64) & !FILE_H)
    }
}

pub open spec fn dir_file(d: int) -> int {
    if d == 0 || d == 1 { 0 } else if d == 2 || d == 4 || d == 7 { -1 } else { 1 }
}

pub open spec fn dir_rank(d: int) -> int {
    if d == 2 || d == 3 { 0 } else if d == 1 || d == 5 || d == 7 { -1 } else { 1 }
}

pub open spec fn min(a: int, b: int) -> int {
    if a < b { a } else { b }
}

/// Squares from `s` to the edge of the board in direction `d`.
pub open spec fn edge_distance(s: int, d: int) -> int {
    let x = sq_file(s);
    let y = sq_rank(s);
    if d == 0 { 7 - y }
    else if d == 1 { y }
    else if d == 2 { x }
    else if d == 3 { 7 - x }
    else if d == 4 { min(7 - y, x) }
    else if d == 5 { min(y, 7 - x) }
    else if d == 6 { min(7 - y, 7 - x) }
    else { min(y, x) }
}

pub struct Precomputed;

impl Precomputed {
    /// All pseudo-legal knight moves from a given square.
    #[verifier::loop_isolation(false)]
    #[verifier::rlimit(100)]
    #[verifier::spinoff_prover]
        pub fn knight_moves(s: Coord) -> (r: BitBoard)
        requires
            s.valid(),
        ensures
            r.0 == squares_where(knight_pred(s.sq())),
    {
        let mut r: u64 = 0;
        let mut i: i16 = 0;
        let sf: i16 = s.file as i16;
        let sr: i16 = s.rank as i16;
        proof {
            assert(sq_file(s.sq()) == sf && sq_rank(s.sq()) == sr);
        }
        while i < 64
            invariant
                0 <= i <= 64,
                r == mask_upto(knight_pred(s.sq()), i as nat),
            decreases 64 - i,
        {
            let tf: i16 = i % 8;
            let tr: i16 = i / 8;
            proof {
                assert(sq_file(i as int) == tf && sq_rank(i as int) == tr);
            }
            let c: bool = { let df = if tf > sf { tf - sf } else { sf - tf }; let dr = if tr > sr { tr - sr } else { sr - tr }; (df == 1 && dr == 2) || (df == 2 && dr == 1) };
            proof {
                assert(c == knight_pred(s.sq())(i as int));
                lemma_mask_step(knight_pred(s.sq()), i as nat);
            }
            r = r | (if c { 1u64 << (i as u64) } else { 0u64 });
            i += 1;
        }
        BitBoard(r)
    }
    /// All pseudo-legal king moves from a given square.
    #[verifier::loop_isolation(false)]
    #[verifier::rlimit(100)]
    #[verifier::spinoff_prover]
        pub fn king_moves(s: Coord) -> (r: BitBoard)
        requires
            s.valid(),
        ensures
            r.0 == squares_where(king_pred(s.sq())),
    {
        let mut r: u64 = 0;
        let mut i: i16 = 0;
        let sf: i16 = s.file as i16;
        let sr: i16 = s.rank as i16;
        proof {
            assert(sq_file(s.sq()) == sf && sq_rank(s.sq()) == sr);
        }
        while i < 64
            invariant
                0 <= i <= 64,
                r == mask_upto(king_pred(s.sq()), i as nat),
            decreases 64 - i,
        {
            let tf: i16 = i % 8;
            let tr: i16 = i / 8;
            proof {
                assert(sq_file(i as int) == tf && sq_rank(i as int) == tr);
            }
            let c: bool = { let df = if tf > sf { tf - sf } else { sf - tf }; let dr = if tr > sr { tr - sr } else { sr - tr }; df <= 1 && dr <= 1 && !(df == 0 && dr == 0) };
            proof {
                assert(c == king_pred(s.sq())(i as int));
                lemma_mask_step(king_pred(s.sq()), i as nat);
            }
            r = r | (if c { 1u64 << (i as u64) } else { 0u64 });
            i += 1;
        }
        BitBoard(r)
    }
    /// The squares a white pawn on `s` attacks.
    #[verifier::loop_isolation(false)]
    #[verifier::rlimit(100)]
    #[verifier::spinoff_prover]
        pub fn white_pawn_attacks(s: Coord) -> (r: BitBoard)
        requires
            s.valid(),
        ensures
            r.0 == squares_where(pawn_attack_pred(true, s.sq())),
    {
        let mut r: u64 = 0;
        let mut i: i16 = 0;
        let sf: i16 = s.file as i16;
        let sr: i16 = s.rank as i16;
        proof {
            assert(sq_file(s.sq()) == sf && sq_rank(s.sq()) == sr);
        }
        while i < 64
            invariant
                0 <= i <= 64,
                r == mask_upto(pawn_attack_pred(true, s.sq()), i as nat),
            decreases 64 - i,
        {
            let tf: i16 = i % 8;
            let tr: i16 = i / 8;
            proof {
                assert(sq_file(i as int) == tf && sq_rank(i as int) == tr);
            }
            let c: bool = (tf - sf == 1 || sf - tf == 1) && tr == sr + 1;
            proof {
                assert(c == pawn_attack_pred(true, s.sq())(i as int));
                lemma_mask_step(pawn_attack_pred(true, s.sq()), i as nat);
            }
            r = r | (if c { 1u64 << (i as u64) } else { 0u64 });
            i += 1;
        }
        BitBoard(r)
    }
    /// The squares a black pawn on `s` attacks.
    #[verifier::loop_isolation(false)]
    #[verifier::rlimit(100)]
    #[verifier::spinoff_prover]
        pub fn black_pawn_attacks(s: Coord) -> (r: BitBoard)
        requires
            s.valid(),
        ensures
            r.0 == squares_where(pawn_attack_pred(false, s.sq())),
    {
        let mut r: u64 = 0;
        let mut i: i16 = 0;
        let sf: i16 = s.file as i16;
        let sr: i16 = s.rank as i16;
        proof {
            assert(sq_file(s.sq()) == sf && sq_rank(s.sq()) == sr);
        }
        while i < 64
            invariant
                0 <= i <= 64,
                r == mask_upto(pawn_attack_pred(false, s.sq()), i as nat),
            decreases 64 - i,
        {
            let tf: i16 = i % 8;
            let tr: i16 = i / 8;
            proof {
                assert(sq_file(i as int) == tf && sq_rank(i as int) == tr);
            }
            let c: bool = (tf - sf == 1 || sf - tf == 1) && tr == sr - 1;
            proof {
                assert(c == pawn_attack_pred(false, s.sq())(i as int));
                lemma_mask_step(pawn_attack_pred(false, s.sq()), i as nat);
            }
            r = r | (if c { 1u64 << (i as u64) } else { 0u64 });
            i += 1;
        }
        BitBoard(r)
    }
    /// The squares next to `s` on its file or rank.
    #[verifier::loop_isolation(false)]
    #[verifier::rlimit(100)]
    #[verifier::spinoff_prover]
        pub fn orthogonal_directions(s: Coord) -> (r: BitBoard)
        requires
            s.valid(),
        ensures
            r.0 == squares_where(orthogonal_adjacent_pred(s.sq())),
    {
        let mut r: u64 = 0;
        let mut i: i16 = 0;
        let sf: i16 = s.file as i16;
        let sr: i16 = s.rank as i16;
        proof {
            assert(sq_file(s.sq()) == sf && sq_rank(s.sq()) == sr);
        }
        while i < 64
            invariant
                0 <= i <= 64,
                r == mask_upto(orthogonal_adjacent_pred(s.sq()), i as nat),
            decreases 64 - i,
        {
            let tf: i16 = i % 8;
            let tr: i16 = i / 8;
            proof {
                assert(sq_file(i as int) == tf && sq_rank(i as int) == tr);
            }
            let c: bool = { let df = if tf > sf { tf - sf } else { sf - tf }; let dr = if tr > sr { tr - sr } else { sr - tr }; df + dr == 1 };
            proof {
                assert(c == orthogonal_adjacent_pred(s.sq())(i as int));
                lemma_mask_step(orthogonal_adjacent_pred(s.sq()), i as nat);
            }
            r = r | (if c { 1u64 << (i as u64) } else { 0u64 });
            i += 1;
        }
        BitBoard(r)
    }
    /// The squares diagonally next to `s`.
    #[verifier::loop_isolation(false)]
    #[verifier::rlimit(100)]
    #[verifier::spinoff_prover]
        pub fn diagonal_directions(s: Coord) -> (r: BitBoard)
        requires
            s.valid(),
        ensures
            r.0 == squares_where(diagonal_adjacent_pred(s.sq())),
    {
        let mut r: u64 = 0;
        let mut i: i16 = 0;
        let sf: i16 = s.file as i16;
        let sr: i16 = s.rank as i16;
        proof {
            assert(sq_file(s.sq()) == sf && sq_rank(s.sq()) == sr);
        }
        while i < 64
            invariant
                0 <= i <= 64,
                r == mask_upto(diagonal_adjacent_pred(s.sq()), i as nat),
            decreases 64 - i,
        {
            let tf: i16 = i % 8;
            let tr: i16 = i / 8;
            proof {
                assert(sq_file(i as int) == tf && sq_rank(i as int) == tr);
            }
            let c: bool = { let df = if tf > sf { tf - sf } else { sf - tf }; let dr = if tr > sr { tr - sr } else { sr - tr }; df == 1 && dr == 1 };
            proof {
                assert(c == diagonal_adjacent_pred(s.sq())(i as int));
                lemma_mask_step(diagonal_adjacent_pred(s.sq()), i as nat);
            }
            r = r | (if c { 1u64 << (i as u64) } else { 0u64 });
            i += 1;
        }
        BitBoard(r)
    }
    /// The rook moves from `s` on an empty board.
    #[verifier::loop_isolation(false)]
    #[verifier::rlimit(100)]
    #[verifier::spinoff_prover]
        pub fn rook_xray_moves(s: Coord) -> (r: BitBoard)
        requires
            s.valid(),
        ensures
            r.0 == squares_where(rook_xray_pred(s.sq())),
    {
        let mut r: u64 = 0;
        let mut i: i16 = 0;
        let sf: i16 = s.file as i16;
        let sr: i16 = s.rank as i16;
        proof {
            assert(sq_file(s.sq()) == sf && sq_rank(s.sq()) == sr);
        }
        while i < 64
            invariant
                0 <= i <= 64,
                r == mask_upto(rook_xray_pred(s.sq()), i as nat),
            decreases 64 - i,
        {
            let tf: i16 = i % 8;
            let tr: i16 = i / 8;
            proof {
                assert(sq_file(i as int) == tf && sq_rank(i as int) == tr);
            }
            let c: bool = !(tf == sf && tr == sr) && (tf == sf || tr == sr);
            proof {
                assert(c == rook_xray_pred(s.sq())(i as int));
                lemma_mask_step(rook_xray_pred(s.sq()), i as nat);
            }
            r = r | (if c { 1u64 << (i as u64) } else { 0u64 });
            i += 1;
        }
        BitBoard(r)
    }
    /// The bishop moves from `s` on an empty board.
    #[verifier::loop_isolation(false)]
    #[verifier::rlimit(100)]
    #[verifier::spinoff_prover]
        pub fn bishop_xray_moves(s: Coord) -> (r: BitBoard)
        requires
            s.valid(),
        ensures
            r.0 == squares_where(bishop_xray_pred(s.sq())),
    {
        let mut r: u64 = 0;
        let mut i: i16 = 0;
        let sf: i16 = s.file as i16;
        let sr: i16 = s.rank as i16;
        proof {
            assert(sq_file(s.sq()) == sf && sq_rank(s.sq()) == sr);
        }
        while i < 64
            invariant
                0 <= i <= 64,
                r == mask_upto(bishop_xray_pred(s.sq()), i as nat),
            decreases 64 - i,
        {
            let tf: i16 = i % 8;
            let tr: i16 = i / 8;
            proof {
                assert(sq_file(i as int) == tf && sq_rank(i as int) == tr);
            }
            let c: bool = { let df = if tf > sf { tf - sf } else { sf - tf }; let dr = if tr > sr { tr - sr } else { sr - tr }; !(tf == sf && tr == sr) && df == dr };
            proof {
                assert(c == bishop_xray_pred(s.sq())(i as int));
                lemma_mask_step(bishop_xray_pred(s.sq()), i as nat);
            }
            r = r | (if c { 1u64 << (i as u64) } else { 0u64 });
            i += 1;
        }
        BitBoard(r)
    }
    /// The queen moves from `s` on an empty board.
    #[verifier::loop_isolation(false)]
    #[verifier::rlimit(100)]
    #[verifier::spinoff_prover]
        pub fn queen_xray_moves(s: Coord) -> (r: BitBoard)
        requires
            s.valid(),
        ensures
            r.0 == squares_where(queen_xray_pred(s.sq())),
    {
        let mut r: u64 = 0;
        let mut i: i16 = 0;
        let sf: i16 = s.file as i16;
        let sr: i16 = s.rank as i16;
        proof {
            assert(sq_file(s.sq()) == sf && sq_rank(s.sq()) == sr);
        }
        while i < 64
            invariant
                0 <= i <= 64,
                r == mask_upto(queen_xray_pred(s.sq()), i as nat),
            decreases 64 - i,
        {
            let tf: i16 = i % 8;
            let tr: i16 = i / 8;
            proof {
                assert(sq_file(i as int) == tf && sq_rank(i as int) == tr);
            }
            let c: bool = { let df = if tf > sf { tf - sf } else { sf - tf }; let dr = if tr > sr { tr - sr } else { sr - tr }; !(tf == sf && tr == sr) && (tf == sf || tr == sr || df == dr) };
            proof {
                assert(c == queen_xray_pred(s.sq())(i as int));
                lemma_mask_step(queen_xray_pred(s.sq()), i as nat);
            }
            r = r | (if c { 1u64 << (i as u64) } else { 0u64 });
            i += 1;
        }
        BitBoard(r)
    }
    /// The ranks strictly ahead of rank `rk` for the side of index `color` (0 for white).
    #[verifier::loop_isolation(false)]
    #[verifier::rlimit(100)]
    #[verifier::spinoff_prover]
        pub fn forward_ranks(color: usize, rk: usize) -> (r: BitBoard)
        requires
            rk < 8,
        ensures
            r.0 == squares_where(forward_ranks_pred(color == 0, rk as int)),
    {
        let mut r: u64 = 0;
        let mut i: i16 = 0;
        while i < 64
            invariant
                0 <= i <= 64,
                r == mask_upto(forward_ranks_pred(color == 0, rk as int), i as nat),
            decreases 64 - i,
        {
            let tf: i16 = i % 8;
            let tr: i16 = i / 8;
            proof {
                assert(sq_file(i as int) == tf && sq_rank(i as int) == tr);
            }
            let c: bool = if color == 0 { tr > rk as i16 } else { tr < rk as i16 };
            proof {
                assert(c == forward_ranks_pred(color == 0, rk as int)(i as int));
                lemma_mask_step(forward_ranks_pred(color == 0, rk as int), i as nat);
            }
            r = r | (if c { 1u64 << (i as u64) } else { 0u64 });
            i += 1;
        }
        BitBoard(r)
    }
    /// The squares strictly ahead of `s` on its file, for the side of index `color`.
    #[verifier::loop_isolation(false)]
    #[verifier::rlimit(100)]
    #[verifier::spinoff_prover]
        pub fn forward_files(color: usize, s: Coord) -> (r: BitBoard)
        requires
            s.valid(),
        ensures
            r.0 == squares_where(forward_files_pred(color == 0, s.sq())),
    {
        let mut r: u64 = 0;
        let mut i: i16 = 0;
        let sf: i16 = s.file as i16;
        let sr: i16 = s.rank as i16;
        proof {
            assert(sq_file(s.sq()) == sf && sq_rank(s.sq()) == sr);
        }
        while i < 64
            invariant
                0 <= i <= 64,
                r == mask_upto(forward_files_pred(color == 0, s.sq()), i as nat),
            decreases 64 - i,
        {
            let tf: i16 = i % 8;
            let tr: i16 = i / 8;
            proof {
                assert(sq_file(i as int) == tf && sq_rank(i as int) == tr);
            }
            let c: bool = tf == sf && (if color == 0 { tr > sr } else { tr < sr });
            proof {
                assert(c == forward_files_pred(color == 0, s.sq())(i as int));
                lemma_mask_step(forward_files_pred(color == 0, s.sq()), i as nat);
            }
            r = r | (if c { 1u64 << (i as u64) } else { 0u64 });
            i += 1;
        }
        BitBoard(r)
    }
    /// The squares strictly ahead of `s` on the neighbouring files, for the side of index `color`.
    #[verifier::loop_isolation(false)]
    #[verifier::rlimit(100)]
    #[verifier::spinoff_prover]
        pub fn pawn_attack_span(color: usize, s: Coord) -> (r: BitBoard)
        requires
            s.valid(),
        ensures
            r.0 == squares_where(pawn_attack_span_pred(color == 0, s.sq())),
    {
        let mut r: u64 = 0;
        let mut i: i16 = 0;
        let sf: i16 = s.file as i16;
        let sr: i16 = s.rank as i16;
        proof {
            assert(sq_file(s.sq()) == sf && sq_rank(s.sq()) == sr);
        }
        while i < 64
            invariant
                0 <= i <= 64,
                r == mask_upto(pawn_attack_span_pred(color == 0, s.sq()), i as nat),
            decreases 64 - i,
        {
            let tf: i16 = i % 8;
            let tr: i16 = i / 8;
            proof {
                assert(sq_file(i as int) == tf && sq_rank(i as int) == tr);
            }
            let c: bool = (tf - sf == 1 || sf - tf == 1) && (if color == 0 { tr > sr } else { tr < sr });
            proof {
                assert(c == pawn_attack_span_pred(color == 0, s.sq())(i as int));
                lemma_mask_step(pawn_attack_span_pred(color == 0, s.sq()), i as nat);
            }
            r = r | (if c { 1u64 << (i as u64) } else { 0u64 });
            i += 1;
        }
        BitBoard(r)
    }
    /// The files next to file `f`.
    #[verifier::loop_isolation(false)]
    #[verifier::rlimit(100)]
    #[verifier::spinoff_prover]
        pub fn adjacent_file_mask(f: usize) -> (r: BitBoard)
        requires
            f < 8,
        ensures
            r.0 == squares_where(adjacent_files_pred(f as int)),
    {
        let mut r: u64 = 0;
        let mut i: i16 = 0;
        while i < 64
            invariant
                0 <= i <= 64,
                r == mask_upto(adjacent_files_pred(f as int), i as nat),
            decreases 64 - i,
        {
            let tf: i16 = i % 8;
            let tr: i16 = i / 8;
            proof {
                assert(sq_file(i as int) == tf && sq_rank(i as int) == tr);
            }
            let c: bool = tf - (f as i16) == 1 || (f as i16) - tf == 1;
            proof {
                assert(c == adjacent_files_pred(f as int)(i as int));
                lemma_mask_step(adjacent_files_pred(f as int), i as nat);
            }
            r = r | (if c { 1u64 << (i as u64) } else { 0u64 });
            i += 1;
        }
        BitBoard(r)
    }
    /// File `f` and its neighbours, moved inwards at the edges of the board.
    #[verifier::loop_isolation(false)]
    #[verifier::rlimit(100)]
    #[verifier::spinoff_prover]
        pub fn triple_file_mask(f: usize) -> (r: BitBoard)
        requires
            f < 8,
        ensures
            r.0 == squares_where(triple_file_pred(f as int)),
    {
        let mut r: u64 = 0;
        let mut i: i16 = 0;
        while i < 64
            invariant
                0 <= i <= 64,
                r == mask_upto(triple_file_pred(f as int), i as nat),
            decreases 64 - i,
        {
            let tf: i16 = i % 8;
            let tr: i16 = i / 8;
            proof {
                assert(sq_file(i as int) == tf && sq_rank(i as int) == tr);
            }
            let c: bool = { let c: i16 = if f < 1 { 1 } else if f > 6 { 6 } else { f as i16 }; tf - c <= 1 && c - tf <= 1 };
            proof {
                assert(c == triple_file_pred(f as int)(i as int));
                lemma_mask_step(triple_file_pred(f as int), i as nat);
            }
            r = r | (if c { 1u64 << (i as u64) } else { 0u64 });
            i += 1;
        }
        BitBoard(r)
    }
    /// The square `s` and the squares around it.
    #[verifier::loop_isolation(false)]
    #[verifier::rlimit(100)]
    #[verifier::spinoff_prover]
        pub fn king_safety_mask(s: Coord) -> (r: BitBoard)
        requires
            s.valid(),
        ensures
            r.0 == squares_where(king_safety_pred(s.sq())),
    {
        let mut r: u64 = 0;
        let mut i: i16 = 0;
        let sf: i16 = s.file as i16;
        let sr: i16 = s.rank as i16;
        proof {
            assert(sq_file(s.sq()) == sf && sq_rank(s.sq()) == sr);
        }
        while i < 64
            invariant
                0 <= i <= 64,
                r == mask_upto(king_safety_pred(s.sq()), i as nat),
            decreases 64 - i,
        {
            let tf: i16 = i % 8;
            let tr: i16 = i / 8;
            proof {
                assert(sq_file(i as int) == tf && sq_rank(i as int) == tr);
            }
            let c: bool = { let df = if tf > sf { tf - sf } else { sf - tf }; let dr = if tr > sr { tr - sr } else { sr - tr }; df <= 1 && dr <= 1 };
            proof {
                assert(c == king_safety_pred(s.sq())(i as int));
                lemma_mask_step(king_safety_pred(s.sq()), i as nat);
            }
            r = r | (if c { 1u64 << (i as u64) } else { 0u64 });
            i += 1;
        }
        BitBoard(r)
    }
    /// The king ring of a king on `s`.
    #[verifier::loop_isolation(false)]
    #[verifier::rlimit(100)]
    #[verifier::spinoff_prover]
        pub fn king_ring(s: Coord) -> (r: BitBoard)
        requires
            s.valid(),
        ensures
            r.0 == squares_where(king_ring_pred(s.sq())),
    {
        let mut r: u64 = 0;
        let mut i: i16 = 0;
        let sf: i16 = s.file as i16;
        let sr: i16 = s.rank as i16;
        proof {
            assert(sq_file(s.sq()) == sf && sq_rank(s.sq()) == sr);
        }
        while i < 64
            invariant
                0 <= i <= 64,
                r == mask_upto(king_ring_pred(s.sq()), i as nat),
            decreases 64 - i,
        {
            let tf: i16 = i % 8;
            let tr: i16 = i / 8;
            proof {
                assert(sq_file(i as int) == tf && sq_rank(i as int) == tr);
            }
            let c: bool = { let flo: i16 = if sf == 0 { 0 } else if sf == 7 { 5 } else { sf - 1 }; let fhi: i16 = if sf == 0 { 2 } else if sf == 7 { 7 } else { sf + 1 }; let rlo: i16 = if sr == 0 { 0 } else if sr == 7 { 5 } else { sr - 1 }; let rhi: i16 = if sr == 0 { 2 } else if sr == 7 { 7 } else { sr + 1 }; flo <= tf && tf <= fhi && rlo <= tr && tr <= rhi };
            proof {
                assert(c == king_ring_pred(s.sq())(i as int));
                lemma_mask_step(king_ring_pred(s.sq()), i as nat);
            }
            r = r | (if c { 1u64 << (i as u64) } else { 0u64 });
            i += 1;
        }
        BitBoard(r)
    }
    /// The squares on the diagonals through `s`, at most `depth_idx + 1` steps away.
    #[verifier::loop_isolation(false)]
    #[verifier::rlimit(100)]
    #[verifier::spinoff_prover]
        pub fn diagonal_squares(depth_idx: usize, s: Coord) -> (r: BitBoard)
        requires
            s.valid(),
            depth_idx < 8,
        ensures
            r.0 == squares_where(diagonal_squares_pred(depth_idx + 1, s.sq())),
    {
        let mut r: u64 = 0;
        let mut i: i16 = 0;
        let sf: i16 = s.file as i16;
        let sr: i16 = s.rank as i16;
        proof {
            assert(sq_file(s.sq()) == sf && sq_rank(s.sq()) == sr);
        }
        while i < 64
            invariant
                0 <= i <= 64,
                r == mask_upto(diagonal_squares_pred(depth_idx + 1, s.sq()), i as nat),
            decreases 64 - i,
        {
            let tf: i16 = i % 8;
            let tr: i16 = i / 8;
            proof {
                assert(sq_file(i as int) == tf && sq_rank(i as int) == tr);
            }
            let c: bool = { let df = if tf > sf { tf - sf } else { sf - tf }; let dr = if tr > sr { tr - sr } else { sr - tr }; df == dr && 1 <= df && df <= depth_idx as i16 + 1 };
            proof {
                assert(c == diagonal_squares_pred(depth_idx + 1, s.sq())(i as int));
                lemma_mask_step(diagonal_squares_pred(depth_idx + 1, s.sq()), i as nat);
            }
            r = r | (if c { 1u64 << (i as u64) } else { 0u64 });
            i += 1;
        }
        BitBoard(r)
    }
    /// The squares on the file and rank of `s`, at most `depth_idx + 1` steps away.
    #[verifier::loop_isolation(false)]
    #[verifier::rlimit(100)]
    #[verifier::spinoff_prover]
        pub fn orthogonal_squares(depth_idx: usize, s: Coord) -> (r: BitBoard)
        requires
            s.valid(),
            depth_idx < 8,
        ensures
            r.0 == squares_where(orthogonal_squares_pred(depth_idx + 1, s.sq())),
    {
        let mut r: u64 = 0;
        let mut i: i16 = 0;
        let sf: i16 = s.file as i16;
        let sr: i16 = s.rank as i16;
        proof {
            assert(sq_file(s.sq()) == sf && sq_rank(s.sq()) == sr);
        }
        while i < 64
            invariant
                0 <= i <= 64,
                r == mask_upto(orthogonal_squares_pred(depth_idx + 1, s.sq()), i as nat),
            decreases 64 - i,
        {
            let tf: i16 = i % 8;
            let tr: i16 = i / 8;
            proof {
                assert(sq_file(i as int) == tf && sq_rank(i as int) == tr);
            }
            let c: bool = { let df = if tf > sf { tf - sf } else { sf - tf }; let dr = if tr > sr { tr - sr } else { sr - tr }; (df == 0 && 1 <= dr && dr <= depth_idx as i16 + 1) || (dr == 0 && 1 <= df && df <= depth_idx as i16 + 1) };
            proof {
                assert(c == orthogonal_squares_pred(depth_idx + 1, s.sq())(i as int));
                lemma_mask_step(orthogonal_squares_pred(depth_idx + 1, s.sq()), i as nat);
            }
            r = r | (if c { 1u64 << (i as u64) } else { 0u64 });
            i += 1;
        }
        BitBoard(r)
    }
    /// A mask of all the squares to the edge of the board from a given square and going in the
        /// given direction, the square itself included.
    #[verifier::loop_isolation(false)]
    #[verifier::rlimit(100)]
    #[verifier::spinoff_prover]
        pub fn dir_ray_mask(s: Coord, dir: usize) -> (r: BitBoard)
        requires
            s.valid(),
            dir < 8,
        ensures
            r.0 == squares_where(ray_pred(s.sq(), dir_file(dir as int), dir_rank(dir as int))),
    {
        let mut r: u64 = 0;
        let mut i: i16 = 0;
        let sf: i16 = s.file as i16;
        let sr: i16 = s.rank as i16;
        proof {
            assert(sq_file(s.sq()) == sf && sq_rank(s.sq()) == sr);
        }
        while i < 64
            invariant
                0 <= i <= 64,
                r == mask_upto(ray_pred(s.sq(), dir_file(dir as int), dir_rank(dir as int)), i as nat),
            decreases 64 - i,
        {
            let tf: i16 = i % 8;
            let tr: i16 = i / 8;
            proof {
                assert(sq_file(i as int) == tf && sq_rank(i as int) == tr);
            }
            let c: bool = { let df: i16 = if dir == 0 || dir == 1 { 0 } else if dir == 2 || dir == 4 || dir == 7 { -1 } else { 1 }; let dr: i16 = if dir == 2 || dir == 3 { 0 } else if dir == 1 || dir == 5 || dir == 7 { -1 } else { 1 }; let ef = tf - sf; let er = tr - sr; let af = if df > 0 { ef >= 0 } else if df < 0 { ef <= 0 } else { ef == 0 }; let ar = if dr > 0 { er >= 0 } else if dr < 0 { er <= 0 } else { er == 0 }; let aef = if ef < 0 { -ef } else { ef }; let aer = if er < 0 { -er } else { er }; af && ar && (df == 0 || dr == 0 || aef == aer) };
            proof {
                assert(c == ray_pred(s.sq(), dir_file(dir as int), dir_rank(dir as int))(i as int));
                lemma_mask_step(ray_pred(s.sq(), dir_file(dir as int), dir_rank(dir as int)), i as nat);
            }
            r = r | (if c { 1u64 << (i as u64) } else { 0u64 });
            i += 1;
        }
        BitBoard(r)
    }
    /// The line through `a` and `b` (order doesn't matter when they are aligned).
    #[verifier::loop_isolation(false)]
    #[verifier::rlimit(100)]
    #[verifier::spinoff_prover]
        pub fn align_mask(a: Coord, b: Coord) -> (r: BitBoard)
        requires
            a.valid(),
            b.valid(),
        ensures
            r.0 == squares_where(align_pred(a.sq(), b.sq())),
    {
        let mut r: u64 = 0;
        let mut i: i16 = 0;
        let af: i16 = a.file as i16;
        let ar: i16 = a.rank as i16;
        let bf: i16 = b.file as i16;
        let br: i16 = b.rank as i16;
        while i < 64
            invariant
                0 <= i <= 64,
                r == mask_upto(align_pred(a.sq(), b.sq()), i as nat),
            decreases 64 - i,
        {
            let tf: i16 = i % 8;
            let tr: i16 = i / 8;
            proof {
                assert(sq_file(i as int) == tf && sq_rank(i as int) == tr);
            }
            let c: bool = { let dx: i16 = if bf > af { 1 } else if bf < af { -1 } else { 0 }; let dy: i16 = if br > ar { 1 } else if br < ar { -1 } else { 0 }; let ef = tf - af; let er = tr - ar; if dx == 0 && dy == 0 { tf == af && tr == ar } else if dx == 0 { ef == 0 } else if dy == 0 { er == 0 } else if dx == dy { ef == er } else { ef == -er } };
            proof {
                assert(c == align_pred(a.sq(), b.sq())(i as int));
                lemma_mask_step(align_pred(a.sq(), b.sq()), i as nat);
            }
            r = r | (if c { 1u64 << (i as u64) } else { 0u64 });
            i += 1;
        }
        BitBoard(r)
    }

    pub fn white_kingside_mask() -> (r: BitBoard)
        ensures
            r.0 == 0x60u64,
    {
        BitBoard(0x60)
    }

    pub fn black_kingside_mask() -> (r: BitBoard)
        ensures
            r.0 == 0x6000_0000_0000_0000u64,
    {
        BitBoard(0x6000_0000_0000_0000)
    }

    pub fn white_queenside_mask_2() -> (r: BitBoard)
        ensures
            r.0 == 0x0Cu64,
    {
        BitBoard(0x0C)
    }

    pub fn black_queenside_mask_2() -> (r: BitBoard)
        ensures
            r.0 == 0x0C00_0000_0000_0000u64,
    {
        BitBoard(0x0C00_0000_0000_0000)
    }

    pub fn white_queenside_mask() -> (r: BitBoard)
        ensures
            r.0 == 0x0Eu64,
    {
        BitBoard(0x0E)
    }

    pub fn black_queenside_mask() -> (r: BitBoard)
        ensures
            r.0 == 0x0E00_0000_0000_0000u64,
    {
        BitBoard(0x0E00_0000_0000_0000)
    }

    /// The squares attacked by the pawns of `b`, of the given side.
    pub fn pawn_attacks(b: BitBoard, is_white: bool) -> (r: BitBoard)
        ensures
            r.0 == pawn_attacks_spec(b.0, is_white),
    {
        if is_white {
            return BitBoard(((b.0 << 9u64) & !FILE_A) | ((b.0 << 7u64) & !FILE_H));
        }
        BitBoard(((b.0 >> 7u64) & !FILE_A) | ((b.0 >> 9u64) & !FILE_H))
    }

    /// Offsets in square indices of the directions N, S, W, E, NW, SE, NE, SW.
    pub fn direction_offsets(d: usize) -> (r: i8)
        requires
            d < 8,
        ensures
            r == dir_rank(d as int) * 8 + dir_file(d as int),
    {
        if d == 0 { 8 } else if d == 1 { -8 } else if d == 2 { -1 } else if d == 3 { 1 }
        else if d == 4 { 7 } else if d == 5 { -7 } else if d == 6 { 9 } else { -9 }
    }

    /// The directions N, S, W, E, NW, SE, NE, SW as file and rank steps.
    pub fn dir_offsets_2d(d: usize) -> (r: Coord)
        requires
            d < 8,
        ensures
            r.file == dir_file(d as int),
            r.rank == dir_rank(d as int),
    {
        let f: i8 = if d == 0 || d == 1 { 0 } else if d == 2 || d == 4 || d == 7 { -1 } else { 1 };
        let rk: i8 = if d == 2 || d == 3 { 0 } else if d == 1 || d == 5 || d == 7 { -1 } else { 1 };
        Coord::new(f, rk)
    }

    /// The number of squares until we hit the edge of the board, given a direction.
    pub fn num_sqrs_to_edge(sqr: Coord, dir: usize) -> (r: i8)
        requires
            sqr.valid(),
            dir < 8,
        ensures
            r == edge_distance(sqr.sq(), dir as int),
            0 <= r <= 7,
    {
        let x = sqr.file;
        let y = sqr.rank;
        let north = 7 - y;
        let south = y;
        let west = x;
        let east = 7 - x;
        if dir == 0 { north }
        else if dir == 1 { south }
        else if dir == 2 { west }
        else if dir == 3 { east }
        else if dir == 4 { if north < west { north } else { west } }
        else if dir == 5 { if south < east { south } else { east } }
        else if dir == 6 { if north < east { north } else { east } }
        else { if south < west { south } else { west } }
    }

    /// The two directions from which a pawn of the given color can attack.
    pub fn pawn_attack_dirs(color: usize) -> (r: [Coord; 2])
        requires
            color < 2,
        ensures
            r[0].file == 1,
            r[1].file == -1,
            r[0].rank == (if color == 0 { 1int } else { -1int }),
            r[1].rank == (if color == 0 { 1int } else { -1int }),
    {
        if color == 0 {
            [Coord::new(1, 1), Coord::new(-1, 1)]
        } else {
            [Coord::new(1, -1), Coord::new(-1, -1)]
        }
    }

    /// The manhattan distance between two given squares.
    pub fn manhattan_distance(a: Coord, b: Coord) -> (r: u32)
        requires
            a.valid(),
            b.valid(),
        ensures
            r == abs(a.file - b.file) + abs(a.rank - b.rank),
    {
        let df = if a.file > b.file { a.file - b.file } else { b.file - a.file };
        let dr = if a.rank > b.rank { a.rank - b.rank } else { b.rank - a.rank };
        (df + dr) as u32
    }

    /// The number of rook moves between two squares on an empty board's metric.
    pub fn num_rook_moves_to_sqr(start_sqr: u32, target_sqr: u32) -> (r: u32)
        requires
            start_sqr < 64,
            target_sqr < 64,
        ensures
            r == abs(sq_file(start_sqr as int) - sq_file(target_sqr as int)) + abs(sq_rank(start_sqr as int) - sq_rank(target_sqr as int)),
    {
        Self::manhattan_distance(Coord::from_idx(start_sqr as i8), Coord::from_idx(target_sqr as i8))
    }

    /// The distance between two given squares, using the max of the difference between the rank
    /// and file.
    pub fn king_distance(a: Coord, b: Coord) -> (r: u32)
        requires
            a.valid(),
            b.valid(),
        ensures
            r == king_dist(a, b),
            r <= 7,
    {
        a.distance(b) as u32
    }

    /// The king distance between two squares given as indices.
    pub fn num_king_moves_to_sqr(start_sqr: u32, target_sqr: u32) -> (r: u32)
        requires
            start_sqr < 64,
            target_sqr < 64,
        ensures
            r == king_dist(Coord::of_sq(start_sqr as int), Coord::of_sq(target_sqr as int)),
    {
        Self::king_distance(Coord::from_idx(start_sqr as i8), Coord::from_idx(target_sqr as i8))
    }

    /// The manhattan distance from the given square to the center of the board.
    pub fn center_manhattan_distance(s: Coord) -> (r: u32)
        requires
            s.valid(),
        ensures
            r == (if 3 - s.file > s.file - 4 { 3 - s.file } else { s.file - 4 })
                + (if 3 - s.rank > s.rank - 4 { 3 - s.rank } else { s.rank - 4 }),
    {
        let f = if 3 - s.file > s.file - 4 { 3 - s.file } else { s.file - 4 };
        let rk = if 3 - s.rank > s.rank - 4 { 3 - s.rank } else { s.rank - 4 };
        (f + rk) as u32
    }
}

} // verus!
