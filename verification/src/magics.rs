//! Attacks of the sliding pieces, walked ray by ray over the blockers.
use vstd::prelude::*;
use crate::bitboard::{BitBoard, bit, square_bb, mask_upto, squares_where, squares_seq, lemma_mask_step, FILE_A, FILE_H, RANK_1, RANK_8};
use vstd::arithmetic::power2::pow2;
use crate::coord::Coord;
use crate::precomp::{sq_file, sq_rank};

verus! {

/// The squares reached from `(f, r)` stepping by `(df, dr)` at most `n` times: each step lands
/// on a square, and the walk stops after the first blocker or at the edge of the board.
pub open spec fn ray_walk(f: int, r: int, df: int, dr: int, b: u64, n: nat) -> u64
    decreases n,
{
    if n == 0 {
        0
    } else {
        let nf = f + df;
        let nr = r + dr;
        if !(0 <= nf < 8 && 0 <= nr < 8) {
            0
        } else {
            square_bb(nr * 8 + nf) | (if bit(b, nr * 8 + nf) { 0u64 } else { ray_walk(nf, nr, df, dr, b, (n - 1) as nat) })
        }
    }
}

/// The squares a rook on `s` attacks, given the blockers `b`.
pub open spec fn rook_attacks_spec(s: int, b: u64) -> u64 {
    let f = sq_file(s);
    let r = sq_rank(s);
    ray_walk(f, r, -1, 0, b, 7) | ray_walk(f, r, 0, 1, b, 7) | ray_walk(f, r, 1, 0, b, 7) | ray_walk(f, r, 0, -1, b, 7)
}

/// The squares a bishop on `s` attacks, given the blockers `b`.
pub open spec fn bishop_attacks_spec(s: int, b: u64) -> u64 {
    let f = sq_file(s);
    let r = sq_rank(s);
    ray_walk(f, r, -1, -1, b, 7) | ray_walk(f, r, -1, 1, b, 7) | ray_walk(f, r, 1, 1, b, 7) | ray_walk(f, r, 1, -1, b, 7)
}

pub open spec fn slider_attacks_spec(s: int, b: u64, ortho: bool) -> u64 {
    if ortho { rook_attacks_spec(s, b) } else { bishop_attacks_spec(s, b) }
}

fn ray(f: i8, r: i8, df: i8, dr: i8, b: u64, n: u8) -> (res: u64)
    requires
        0 <= f < 8,
        0 <= r < 8,
        -1 <= df <= 1,
        -1 <= dr <= 1,
    ensures
        res == ray_walk(f as int, r as int, df as int, dr as int, b, n as nat),
    decreases n,
{
    if n == 0 {
        return 0;
    }
    let nf = f + df;
    let nr = r + dr;
    if !(0 <= nf && nf < 8 && 0 <= nr && nr < 8) {
        return 0;
    }
    let s = (nr * 8 + nf) as u64;
    let blocked = (b >> s) & 1 == 1;
    let rest = if blocked { 0 } else { ray(nf, nr, df, dr, b, n - 1) };
    (1u64 << s) | rest
}

/// The edges a movement mask leaves out: the outer files and ranks, except (for rooks) those
/// of the start square itself.
pub open spec fn edges_spec(f: int, r: int, ortho: bool) -> u64 {
    ((FILE_A | FILE_H) & (if ortho { !(FILE_A << (f as u64)) } else { 0xFFFF_FFFF_FFFF_FFFFu64 }))
        | ((RANK_1 | RANK_8) & (if ortho { !(RANK_1 << ((8 * r) as u64)) } else { 0xFFFF_FFFF_FFFF_FFFFu64 }))
}

/// `t` lies on a rook (or bishop) line from `s`, is not `s`, and the next square beyond it on
/// that line is still on the board.
pub open spec fn movement_pred(s: int, ortho: bool) -> spec_fn(int) -> bool {
    |t: int| {
        let ef = sq_file(t) - sq_file(s);
        let er = sq_rank(t) - sq_rank(s);
        let df = if ef > 0 { 1int } else if ef < 0 { -1int } else { 0int };
        let dr = if er > 0 { 1int } else if er < 0 { -1int } else { 0int };
        let line = if ortho { (ef == 0) != (er == 0) } else { ef != 0 && (ef == er || ef == -er) };
        line && 0 <= sq_file(t) + df < 8 && 0 <= sq_rank(t) + dr < 8
    }
}

#[derive(Debug)]
pub struct Magics;

impl Magics {
    #[inline]
    pub fn slider_attacks(square: Coord, blockers: BitBoard, ortho: bool) -> (r: BitBoard)
        requires
            square.valid(),
        ensures
            r.0 == slider_attacks_spec(square.sq(), blockers.0, ortho),
    {
        if ortho { Self::rook_attacks(square, blockers) } else { Self::bishop_attacks(square, blockers) }
    }

    #[inline]
    pub fn rook_attacks(square: Coord, blockers: BitBoard) -> (r: BitBoard)
        requires
            square.valid(),
        ensures
            r.0 == rook_attacks_spec(square.sq(), blockers.0),
    {
        Self::legal_move_bitboard_from_blockers(square, blockers, true)
    }

    #[inline]
    pub fn bishop_attacks(square: Coord, blockers: BitBoard) -> (r: BitBoard)
        requires
            square.valid(),
        ensures
            r.0 == bishop_attacks_spec(square.sq(), blockers.0),
    {
        Self::legal_move_bitboard_from_blockers(square, blockers, false)
    }

    /// The squares a rook (`ortho`) or bishop on `start_sqr` reaches, up to and including the
    /// first blocker in each direction.
    pub fn legal_move_bitboard_from_blockers(start_sqr: Coord, blockers: BitBoard, ortho: bool) -> (r: BitBoard)
        requires
            start_sqr.valid(),
        ensures
            r.0 == slider_attacks_spec(start_sqr.sq(), blockers.0, ortho),
    {
        let f = start_sqr.file;
        let rk = start_sqr.rank;
        let b = blockers.0;
        proof {
            assert(sq_file(start_sqr.sq()) == f);
            assert(sq_rank(start_sqr.sq()) == rk);
        }
        if ortho {
            BitBoard(ray(f, rk, -1, 0, b, 7) | ray(f, rk, 0, 1, b, 7) | ray(f, rk, 1, 0, b, 7) | ray(f, rk, 0, -1, b, 7))
        } else {
            BitBoard(ray(f, rk, -1, -1, b, 7) | ray(f, rk, -1, 1, b, 7) | ray(f, rk, 1, 1, b, 7) | ray(f, rk, 1, -1, b, 7))
        }
    }

    /// The squares whose occupancy decides the moves of a rook (`ortho`) or bishop on
    /// `start_coord`: its lines without their last square and without the board's edges.
    #[verifier::loop_isolation(false)]
    #[verifier::rlimit(50)]
    pub fn create_movement_mask(start_coord: Coord, ortho: bool) -> (r: BitBoard)
        requires
            start_coord.valid(),
        ensures
            r.0 == squares_where(movement_pred(start_coord.sq(), ortho))
                & !edges_spec(start_coord.file as int, start_coord.rank as int, ortho),
    {
        let sf = start_coord.file as i16;
        let sr = start_coord.rank as i16;
        let mut m: u64 = 0;
        let mut i: i16 = 0;
        while i < 64
            invariant
                0 <= i <= 64,
                m == mask_upto(movement_pred(start_coord.sq(), ortho), i as nat),
            decreases 64 - i,
        {
            let tf = i % 8;
            let tr = i / 8;
            let ef = tf - sf;
            let er = tr - sr;
            let df: i16 = if ef > 0 { 1 } else if ef < 0 { -1 } else { 0 };
            let dr: i16 = if er > 0 { 1 } else if er < 0 { -1 } else { 0 };
            let line = if ortho { (ef == 0) != (er == 0) } else { ef != 0 && (ef == er || ef == -er) };
            let c = line && 0 <= tf + df && tf + df < 8 && 0 <= tr + dr && tr + dr < 8;
            proof {
                assert(c == movement_pred(start_coord.sq(), ortho)(i as int));
                lemma_mask_step(movement_pred(start_coord.sq(), ortho), i as nat);
            }
            m = m | (if c { 1u64 << (i as u64) } else { 0u64 });
            i += 1;
        }
        let file_mask = if ortho { !(FILE_A << (start_coord.file as u64)) } else { 0xFFFF_FFFF_FFFF_FFFFu64 };
        let rank_mask = if ortho { !(RANK_1 << ((8 * start_coord.rank) as u64)) } else { 0xFFFF_FFFF_FFFF_FFFFu64 };
        let edges = ((FILE_A | FILE_H) & file_mask) | ((RANK_1 | RANK_8) & rank_mask);
        BitBoard(m & !edges)
    }
}

/// The blockers of pattern `p` on the squares `sqs`: of the first `n` squares, the `j`-th is
/// taken when bit `j` of `p` is set.
pub open spec fn pattern_blockers(p: u64, sqs: Seq<int>, n: nat) -> u64
    decreases n,
{
    if n == 0 {
        0
    } else {
        pattern_blockers(p, sqs, (n - 1) as nat) | (if (p >> ((n - 1) as u64)) & 1u64 == 1u64 {
            square_bb(sqs[n - 1])
        } else {
            0u64
        })
    }
}

impl Magics {
    /// Every set of blockers on the squares of `move_mask`, indexed by pattern: pattern `p`
    /// takes the `j`-th square of the mask (from the lowest up) when bit `j` of `p` is set. The
    /// `2^n` sets, for a mask of `n` squares, must fit in memory (`2^n` boards of 8 bytes in at
    /// most `isize::MAX` bytes).
    pub fn create_blocker_bitboards(move_mask: BitBoard) -> (r: Vec<BitBoard>)
        requires
            squares_seq(move_mask.0, 64).len() + 5 <= usize::BITS,
        ensures
            r@.len() == pow2(squares_seq(move_mask.0, 64).len()),
            forall|p: int| 0 <= p < r@.len() ==> #[trigger] r@[p].0 == pattern_blockers(
                p as u64,
                squares_seq(move_mask.0, 64),
                squares_seq(move_mask.0, 64).len(),
            ),
    {
        let ghost sqs = squares_seq(move_mask.0, 64);
        let mut idx: Vec<u64> = Vec::new();
        let mut i: u64 = 0;
        while i < 64
            invariant
                i <= 64,
                idx@.len() == squares_seq(move_mask.0, i as nat).len(),
                forall|j: int| 0 <= j < idx@.len() ==> idx@[j] as int == #[trigger] squares_seq(move_mask.0, i as nat)[j],
                forall|j: int| 0 <= j < idx@.len() ==> idx@[j] < 64,
            decreases 64 - i,
        {
            let ghost before = squares_seq(move_mask.0, i as nat);
            if (move_mask.0 >> i) & 1 == 1 {
                idx.push(i);
            }
            i += 1;
            proof {
                assert(squares_seq(move_mask.0, i as nat) == before + (if bit(move_mask.0, i - 1) {
                    seq![i - 1]
                } else {
                    Seq::<int>::empty()
                }));
            }
        }
        let n = idx.len();
        proof {
            vstd::bits::lemma_u64_pow2_no_overflow(n as nat);
            vstd::bits::lemma_u64_shl_is_mul(1u64, n as u64);
        }
        let n_patterns: u64 = 1u64 << (n as u64);
        let mut out: Vec<BitBoard> = Vec::new();
        let mut p: u64 = 0;
        while p < n_patterns
            invariant
                p <= n_patterns,
                n < 64,
                n_patterns == pow2(n as nat),
                n == sqs.len(),
                n == idx@.len(),
                forall|j: int| 0 <= j < n ==> idx@[j] as int == #[trigger] sqs[j],
                forall|j: int| 0 <= j < n ==> idx@[j] < 64,
                out@.len() == p,
                forall|q: int| 0 <= q < p ==> #[trigger] out@[q].0 == pattern_blockers(q as u64, sqs, n as nat),
            decreases n_patterns - p,
        {
            let mut b: u64 = 0;
            let mut j: usize = 0;
            while j < n
                invariant
                    j <= n,
                    n < 64,
                    n == sqs.len(),
                    n == idx@.len(),
                    forall|k: int| 0 <= k < n ==> idx@[k] as int == #[trigger] sqs[k],
                    forall|k: int| 0 <= k < n ==> idx@[k] < 64,
                    b == pattern_blockers(p, sqs, j as nat),
                decreases n - j,
            {
                let sq = idx[j];
                proof { assert(idx@[j as int] as int == sqs[j as int]); }
                if (p >> (j as u64)) & 1 == 1 {
                    b = b | (1u64 << sq);
                } else {
                    proof { assert(b | 0u64 == b) by (bit_vector); }
                }
                j += 1;
            }
            out.push(BitBoard(b));
            p += 1;
        }
        out
    }
}

/// An entry of a magic lookup table.
#[derive(Clone, Copy)]
pub struct Magic {
    pub offset: usize,
    pub mask: u64,
    pub magic: u64,
    pub shift: u32,
}

impl Magic {
    pub fn new() -> (r: Self)
        ensures
            r.offset == 0,
            r.mask == 0,
            r.magic == 0,
            r.shift == 0,
    {
        Magic { offset: 0, mask: 0, magic: 0, shift: 0 }
    }
}

/// A magic lookup table entry while the tables are being laid out.
#[derive(Clone, Copy)]
pub struct PreMagic {
    pub start: usize,
    pub len: usize,
    pub mask: u64,
    pub magic: u64,
    pub shift: u32,
}

impl PreMagic {
    pub fn new() -> (r: PreMagic)
        ensures
            r.start == 0,
            r.len == 0,
            r.mask == 0,
            r.magic == 0,
            r.shift == 0,
    {
        PreMagic { start: 0, len: 0, mask: 0, magic: 0, shift: 0 }
    }

    /// Where the next table starts.
    pub fn next_idx(&self) -> (r: usize)
        requires
            self.start + self.len <= usize::MAX,
        ensures
            r == self.start + self.len,
    {
        self.start + self.len
    }
}

} // verus!
