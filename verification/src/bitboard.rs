//! 64-bit boards: bit `s` stands for square `s` (a1 = 0, h8 = 63).
use vstd::prelude::*;
use crate::coord::Coord;

pub mod square_values;

verus! {

/// Whether square `s` is set in `x`.
pub open spec fn bit(x: u64, s: int) -> bool {
    (x >> (s as u64)) & 1u64 == 1u64
}

/// The board whose squares below `n` are those that satisfy `p`.
pub open spec fn mask_upto(p: spec_fn(int) -> bool, n: nat) -> u64
    decreases n,
{
    if n == 0 {
        0
    } else {
        mask_upto(p, (n - 1) as nat) | (if p(n - 1) { 1u64 << ((n - 1) as u64) } else { 0u64 })
    }
}

/// The board of all squares that satisfy `p`.
pub open spec fn squares_where(p: spec_fn(int) -> bool) -> u64 {
    mask_upto(p, 64)
}

/// Number of squares below `n` set in `x`.
pub open spec fn pop(x: u64, n: nat) -> nat
    decreases n,
{
    if n == 0 {
        0
    } else {
        pop(x, (n - 1) as nat) + (if bit(x, n - 1) { 1nat } else { 0nat })
    }
}

/// Number of squares set in `x`.
pub open spec fn popcount(x: u64) -> nat {
    pop(x, 64)
}

/// Union of `f(s)` over the squares `s < n` set in `x`.
pub open spec fn union_over(x: u64, f: spec_fn(int) -> u64, n: nat) -> u64
    decreases n,
{
    if n == 0 {
        0
    } else {
        union_over(x, f, (n - 1) as nat) | (if bit(x, n - 1) { f(n - 1) } else { 0u64 })
    }
}

/// The squares that lie in `f(s)` for two or more squares `s < n` set in `x`.
pub open spec fn doubled_over(x: u64, f: spec_fn(int) -> u64, n: nat) -> u64
    decreases n,
{
    if n == 0 {
        0
    } else {
        doubled_over(x, f, (n - 1) as nat) | (if bit(x, n - 1) {
            union_over(x, f, (n - 1) as nat) & f(n - 1)
        } else {
            0u64
        })
    }
}

/// Sum of `f(s)` over the squares `s < n` set in `x`.
pub open spec fn sum_over(x: u64, f: spec_fn(int) -> int, n: nat) -> int
    decreases n,
{
    if n == 0 {
        0
    } else {
        sum_over(x, f, (n - 1) as nat) + (if bit(x, n - 1) { f(n - 1) } else { 0 })
    }
}

pub proof fn lemma_and_one(y: u64)
    ensures
        y & 1u64 == 0u64 || y & 1u64 == 1u64,
{
    assert(y & 1u64 == 0u64 || y & 1u64 == 1u64) by (bit_vector);
}

pub proof fn lemma_pop_bound(x: u64, n: nat)
    ensures
        pop(x, n) <= n,
    decreases n,
{
    if n > 0 {
        lemma_pop_bound(x, (n - 1) as nat);
    }
}

/// Bit `s` of a board built from a predicate is the predicate at `s`.
pub proof fn lemma_mask_bit(p: spec_fn(int) -> bool, n: nat, s: int)
    requires
        n <= 64,
        0 <= s < 64,
    ensures
        bit(mask_upto(p, n), s) <==> (s < n && p(s)),
    decreases n,
{
    if n == 0 {
        let ss = s as u64;
        assert((0u64 >> ss) & 1u64 != 1u64) by (bit_vector);
    } else {
        lemma_mask_bit(p, (n - 1) as nat, s);
        let m = mask_upto(p, (n - 1) as nat);
        let k = (n - 1) as u64;
        let ss = s as u64;
        let e: u64 = if p(n - 1) { 1u64 << k } else { 0u64 };
        assert(mask_upto(p, n) == m | e);
        lemma_bit_or_single(m, k, ss, p(n - 1));
    }
}

/// One more square of a board built from a predicate.
pub proof fn lemma_mask_step(p: spec_fn(int) -> bool, n: nat)
    ensures
        mask_upto(p, n + 1) == mask_upto(p, n) | (if p(n as int) { 1u64 << (n as u64) } else { 0u64 }),
{
}

/// Setting square `k` (or nothing) changes only square `k`.
pub proof fn lemma_bit_or_single(m: u64, k: u64, ss: u64, add: bool)
    requires
        k < 64,
        ss < 64,
    ensures
        ((m | (if add { 1u64 << k } else { 0u64 })) >> ss) & 1u64 == 1u64 <==> (((m >> ss) & 1u64 == 1u64) || (add && ss == k)),
{
    if add {
        assert(((m | (1u64 << k)) >> ss) & 1u64 == 1u64 <==> (((m >> ss) & 1u64 == 1u64) || ss == k))
            by (bit_vector)
            requires ss < 64, k < 64;
    } else {
        assert(((m | 0u64) >> ss) & 1u64 == (m >> ss) & 1u64) by (bit_vector);
    }
}

/// A board with no square set is zero.
pub proof fn lemma_no_bits_zero(x: u64)
    requires
        forall|j: int| 0 <= j < 64 ==> !bit(x, j),
    ensures
        x == 0,
{
    if x != 0 {
        vstd::std_specs::bits::axiom_u64_trailing_zeros(x);
        let t = vstd::std_specs::bits::u64_trailing_zeros(x);
        assert(bit(x, t as int));
    }
}

/// A square of `x & y`, `x | y`, `!x` and `x ^ y` is set as the boolean operation says.
pub proof fn lemma_bit_ops(x: u64, y: u64, s: int)
    requires
        0 <= s < 64,
    ensures
        bit(x & y, s) <==> (bit(x, s) && bit(y, s)),
        bit(x | y, s) <==> (bit(x, s) || bit(y, s)),
        bit(!x, s) <==> !bit(x, s),
        bit(x ^ y, s) <==> (bit(x, s) != bit(y, s)),
{
    let ss = s as u64;
    assert(
        (((x & y) >> ss) & 1u64 == 1u64 <==> ((x >> ss) & 1u64 == 1u64 && (y >> ss) & 1u64 == 1u64))
        && (((x | y) >> ss) & 1u64 == 1u64 <==> ((x >> ss) & 1u64 == 1u64 || (y >> ss) & 1u64 == 1u64))
        && (((!x) >> ss) & 1u64 == 1u64 <==> !((x >> ss) & 1u64 == 1u64))
        && (((x ^ y) >> ss) & 1u64 == 1u64 <==> (((x >> ss) & 1u64 == 1u64) != ((y >> ss) & 1u64 == 1u64)))
    ) by (bit_vector)
        requires ss < 64;
}

/// The single-square board has exactly that square.
pub proof fn lemma_square_bit(k: int, j: int)
    requires
        0 <= k < 64,
        0 <= j < 64,
    ensures
        bit(square_bb(k), j) <==> j == k,
{
    let kk = k as u64;
    let jj = j as u64;
    assert(((1u64 << kk) >> jj) & 1u64 == 1u64 <==> jj == kk) by (bit_vector)
        requires kk < 64, jj < 64;
}

/// A board whose squares are all `q` has at most one square.
pub proof fn lemma_pop_at_most_one(x: u64, q: int, n: nat)
    requires
        0 <= q < 64,
        n <= 64,
        forall|j: int| 0 <= j < 64 && #[trigger] bit(x, j) ==> j == q,
    ensures
        pop(x, n) <= (if q < n { 1int } else { 0int }),
    decreases n,
{
    if n > 0 {
        lemma_pop_at_most_one(x, q, (n - 1) as nat);
    }
}

/// Laws of exclusive or.
pub proof fn lemma_xor(a: u64, b: u64, c: u64)
    ensures
        a ^ 0u64 == a,
        (a ^ b) ^ b == a,
        (a ^ b) ^ c == (a ^ c) ^ b,
        (a ^ b) ^ c == a ^ (b ^ c),
        (a ^ c) ^ (b ^ c) == a ^ b,
        a ^ b == c ==> a == c ^ b,
        a ^ b == b ^ a,
        a ^ a == 0u64,
{
    assert(a ^ b == b ^ a && a ^ a == 0u64 && a ^ 0u64 == a && (a ^ b) ^ b == a && (a ^ b) ^ c == (a ^ c) ^ b && (a ^ b) ^ c == a ^ (b ^ c)
        && (a ^ c) ^ (b ^ c) == a ^ b && (a ^ b == c ==> a == c ^ b)) by (bit_vector);
}

/// Laws of union.
pub proof fn lemma_or(a: u64, b: u64, c: u64)
    ensures
        (a | b) | c == a | (b | c),
        0u64 | a == a,
        a | 0u64 == a,
{
    assert((a | b) | c == a | (b | c) && 0u64 | a == a && a | 0u64 == a) by (bit_vector);
}

/// The squares of a board shifted up or down by `k` are those of the board, moved.
pub proof fn lemma_shift_bits(x: u64, k: u64, t: u64)
    requires
        k < 64,
        t < 64,
    ensures
        ((x << k) >> t) & 1u64 == 1u64 <==> (t >= k && (x >> ((t - k) as u64)) & 1u64 == 1u64),
        ((x >> k) >> t) & 1u64 == 1u64 <==> (t + k < 64 && (x >> ((t + k) as u64)) & 1u64 == 1u64),
{
    assert((((x << k) >> t) & 1u64 == 1u64 <==> (t >= k && (x >> ((t - k) as u64)) & 1u64 == 1u64))
        && (((x >> k) >> t) & 1u64 == 1u64 <==> (t + k < 64 && (x >> ((t + k) as u64)) & 1u64 == 1u64))) by (bit_vector)
        requires k < 64, t < 64;
}

/// Keeping some bits of a byte never makes it larger, and a value below 16 keeps its low four
/// bits.
pub proof fn lemma_u8_bits(x: u8, m: u8)
    ensures
        x & m <= x,
        x < 16u8 ==> x & 15u8 == x,
        x & 15u8 < 16u8,
{
    assert(x & m <= x && (x < 16u8 ==> x & 15u8 == x) && x & 15u8 < 16u8) by (bit_vector);
}

/// The squares below `n` set in `x`, from the lowest up.
pub open spec fn squares_seq(x: u64, n: nat) -> Seq<int>
    decreases n,
{
    if n == 0 {
        Seq::empty()
    } else {
        squares_seq(x, (n - 1) as nat) + (if bit(x, n - 1) { seq![n - 1] } else { Seq::empty() })
    }
}

/// Clearing the lowest square `t` of `x`: the other squares stay.
pub proof fn lemma_clear_lowest(x: u64, t: u64)
    requires
        t < 64,
        x & (((1u64 << t) - 1) as u64) == 0u64,
        (x >> t) & 1u64 == 1u64,
    ensures
        x & ((x - 1) as u64) == x ^ (1u64 << t),
{
    assert(x & ((x - 1) as u64) == x ^ (1u64 << t)) by (bit_vector)
        requires t < 64, x & (((1u64 << t) - 1) as u64) == 0u64, (x >> t) & 1u64 == 1u64;
}

/// The squares of `x` are its lowest square `t` followed by the squares of `y`, the board
/// without it.
pub proof fn lemma_squares_seq_pop(x: u64, y: u64, t: int, n: nat)
    requires
        0 <= t < 64,
        n <= 64,
        bit(x, t),
        !bit(y, t),
        forall|j: int| 0 <= j < t ==> !bit(x, j),
        forall|j: int| 0 <= j < 64 && j != t ==> bit(x, j) == bit(y, j),
    ensures
        squares_seq(x, n) == (if t < n { seq![t] + squares_seq(y, n) } else { Seq::<int>::empty() }),
        n <= t ==> squares_seq(y, n) == Seq::<int>::empty(),
    decreases n,
{
    if n > 0 {
        lemma_squares_seq_pop(x, y, t, (n - 1) as nat);
        if t < n - 1 {
            assert(squares_seq(x, n) =~= seq![t] + squares_seq(y, n));
        } else if t == n - 1 {
            assert(squares_seq(x, n) =~= seq![t] + squares_seq(y, n));
        }
    }
}

/// A board that keeps only squares of `x` has at most as many squares.
pub proof fn lemma_pop_and_le(x: u64, y: u64, n: nat)
    requires
        n <= 64,
    ensures
        pop(x & y, n) <= pop(x, n),
    decreases n,
{
    if n > 0 {
        lemma_pop_and_le(x, y, (n - 1) as nat);
        lemma_bit_ops(x, y, n - 1);
    }
}

/// The empty board has no squares.
pub proof fn lemma_pop_empty(n: nat)
    ensures
        pop(0u64, n) == 0,
    decreases n,
{
    if n > 0 {
        lemma_pop_empty((n - 1) as nat);
        let k = (n - 1) as u64;
        assert((0u64 >> k) & 1u64 != 1u64) by (bit_vector);
    }
}

/// Identities of `|` and `&` with the empty and the full board.
pub proof fn lemma_bits_identity(x: u64)
    ensures
        x | 0u64 == x,
        0u64 | x == x,
        x & 0xFFFF_FFFF_FFFF_FFFFu64 == x,
        x & 0u64 == 0u64,
        x & !0u64 == x,
{
    assert(x | 0u64 == x && 0u64 | x == x && x & 0xFFFF_FFFF_FFFF_FFFFu64 == x && x & 0u64 == 0u64 && x & !0u64 == x) by (bit_vector);
}

/// The board with only square `s`.
pub open spec fn square_bb(s: int) -> u64 {
    1u64 << (s as u64)
}

pub const LIGHT_SQUARES_BITS: u64 = 0x55AA_55AA_55AA_55AA;
pub const DARK_SQUARES_BITS: u64 = 0xAA55_AA55_AA55_AA55;
pub const FILE_A: u64 = 0x0101010101010101;
pub const FILE_B: u64 = 0x0202020202020202;
pub const FILE_C: u64 = 0x0404040404040404;
pub const FILE_D: u64 = 0x0808080808080808;
pub const FILE_E: u64 = 0x1010101010101010;
pub const FILE_F: u64 = 0x2020202020202020;
pub const FILE_G: u64 = 0x4040404040404040;
pub const FILE_H: u64 = 0x8080808080808080;
pub const RANK_1: u64 = 0x00000000000000FF;
pub const RANK_2: u64 = 0x000000000000FF00;
pub const RANK_3: u64 = 0x0000000000FF0000;
pub const RANK_4: u64 = 0x00000000FF000000;
pub const RANK_5: u64 = 0x000000FF00000000;
pub const RANK_6: u64 = 0x0000FF0000000000;
pub const RANK_7: u64 = 0x00FF000000000000;
pub const RANK_8: u64 = 0xFF00000000000000;
pub const ALL: u64 = 0xFFFFFFFFFFFFFFFF;

/// A set of squares, one bit per square.
#[derive(Clone, Copy, PartialEq, Eq, Structural, Debug, Hash)]
pub struct BitBoard(pub u64);

impl BitBoard {
    pub fn and(self, o: BitBoard) -> (r: BitBoard)
        ensures
            r.0 == self.0 & o.0,
    {
        BitBoard(self.0 & o.0)
    }

    pub fn or(self, o: BitBoard) -> (r: BitBoard)
        ensures
            r.0 == self.0 | o.0,
    {
        BitBoard(self.0 | o.0)
    }

    pub fn xor(self, o: BitBoard) -> (r: BitBoard)
        ensures
            r.0 == self.0 ^ o.0,
    {
        BitBoard(self.0 ^ o.0)
    }

    pub fn not(self) -> (r: BitBoard)
        ensures
            r.0 == !self.0,
    {
        BitBoard(!self.0)
    }

    pub fn is_empty(self) -> (r: bool)
        ensures
            r == (self.0 == 0),
    {
        self.0 == 0
    }

    /// The board of every square in `coords`.
    pub fn from_coords(coords: Vec<Coord>) -> (r: Self)
        requires
            forall|i: int| 0 <= i < coords@.len() ==> #[trigger] coords@[i].valid(),
        ensures
            forall|s: int| 0 <= s < 64 ==> (bit(r.0, s) <==> exists|i: int| 0 <= i < coords@.len() && #[trigger] coords@[i].sq() == s),
    {
        let mut bb: u64 = 0;
        let mut i: usize = 0;
        assert forall|s: int| 0 <= s < 64 implies !bit(bb, s) by {
            let ss = s as u64;
            assert((0u64 >> ss) & 1u64 != 1u64) by (bit_vector);
        }
        while i < coords.len()
            invariant
                i <= coords@.len(),
                forall|j: int| 0 <= j < coords@.len() ==> #[trigger] coords@[j].valid(),
                forall|s: int| 0 <= s < 64 ==> (bit(bb, s) <==> exists|j: int| 0 <= j < i && #[trigger] coords@[j].sq() == s),
            decreases coords@.len() - i,
        {
            let c = coords[i];
            let k = c.square() as u64;
            let old_bb = bb;
            bb = bb | (1u64 << k);
            assert forall|s: int| 0 <= s < 64 implies (bit(bb, s) <==> exists|j: int| 0 <= j < i + 1 && #[trigger] coords@[j].sq() == s) by {
                let ss = s as u64;
                lemma_bit_or_single(old_bb, k, ss, true);
                assert(bit(bb, s) <==> (bit(old_bb, s) || ss == k));
                assert(coords@[i as int].sq() == k);
                if ss == k {
                    assert(coords@[i as int].sq() == s);
                } else {
                    if exists|j: int| 0 <= j < i + 1 && #[trigger] coords@[j].sq() == s {
                        let j = choose|j: int| 0 <= j < i + 1 && #[trigger] coords@[j].sq() == s;
                        assert(j != i);
                        assert(0 <= j < i && coords@[j].sq() == s);
                    }
                }
            }
            i += 1;
        }
        BitBoard(bb)
    }

    /// The squares of file `file` (0 = a).
    pub fn from_file(file: i8) -> (r: Self)
        requires
            0 <= file < 8,
        ensures
            r.0 == FILE_A << (file as u64),
    {
        BitBoard(FILE_A << (file as u64))
    }

    /// The squares of rank `rank` (0 = first rank).
    pub fn from_rank(rank: i8) -> (r: Self)
        requires
            0 <= rank < 8,
        ensures
            r.0 == RANK_1 << (8 * rank as u64),
    {
        BitBoard(RANK_1 << (8 * rank as u64))
    }

    /// The squares whose rank lies in `lo..=hi`.
    pub fn from_ranks(lo: i8, hi: i8) -> (r: Self)
        ensures
            r.0 == squares_where(ranks_between(lo as int, hi as int)),
    {
        BitBoard(mask_where_ranks(lo, hi))
    }

    /// The squares whose file lies in `lo..=hi`.
    pub fn from_files(lo: i8, hi: i8) -> (r: Self)
        ensures
            r.0 == squares_where(files_between(lo as int, hi as int)),
    {
        BitBoard(mask_where_files(lo, hi))
    }

    /// Removes the lowest square and returns its index.
    pub fn pop_lsb(&mut self) -> (r: u32)
        requires
            old(self).0 != 0,
        ensures
            r == vstd::std_specs::bits::u64_trailing_zeros(old(self).0),
            r < 64,
            bit(old(self).0, r as int),
            final(self).0 == old(self).0 & ((old(self).0 - 1) as u64),
            squares_seq(old(self).0, 64) == seq![r as int] + squares_seq(final(self).0, 64),
    {
        let ghost x = self.0;
        let i = self.0.trailing_zeros();
        proof {
            vstd::std_specs::bits::axiom_u64_trailing_zeros(self.0);
            let t = i as u64;
            assert forall|j: int| 0 <= j < i implies !bit(x, j) by {
                let jj = j as u64;
                assert((x >> jj) & 1u64 == 0u64);
            }
            assert(x & (((1u64 << t) - 1) as u64) == 0u64) by {
                assert forall|j: int| 0 <= j < 64 implies !#[trigger] bit(x & (((1u64 << t) - 1) as u64), j) by {
                    let jj = j as u64;
                    if j < i {
                        assert(!bit(x, j));
                        assert((x >> jj) & 1u64 != 1u64 ==> ((x & (((1u64 << t) - 1) as u64)) >> jj) & 1u64 != 1u64) by (bit_vector);
                    } else {
                        assert(jj >= t && t < 64 ==> ((x & (((1u64 << t) - 1) as u64)) >> jj) & 1u64 != 1u64) by (bit_vector);
                    }
                }
                lemma_no_bits_zero(x & (((1u64 << t) - 1) as u64));
            }
            lemma_clear_lowest(x, t);
            let y = x ^ (1u64 << t);
            assert forall|j: int| 0 <= j < 64 implies bit(y, j) == (bit(x, j) && j != i) by {
                lemma_bit_ops(x, 1u64 << t, j);
                lemma_square_bit(i as int, j);
            }
            lemma_squares_seq_pop(x, y, i as int, 64);
        }
        self.0 = self.0 & (self.0 - 1);
        i
    }

    /// The index of the lowest square.
    pub fn lsb(self) -> (r: u32)
        requires
            self.0 != 0,
        ensures
            r < 64,
            bit(self.0, r as int),
            forall|j: int| 0 <= j < r ==> !bit(self.0, j),
    {
        let i = self.0.trailing_zeros();
        proof {
            vstd::std_specs::bits::axiom_u64_trailing_zeros(self.0);
            assert forall|j: int| 0 <= j < i implies !bit(self.0, j) by {
                let jj = j as u64;
                assert((self.0 >> jj) & 1u64 == 0u64);
            }
        }
        i
    }

    /// The index of the highest square.
    pub fn msb(self) -> (r: u32)
        requires
            self.0 != 0,
        ensures
            r < 64,
            bit(self.0, r as int),
            forall|j: int| r < j < 64 ==> !bit(self.0, j),
    {
        let mut i: u32 = 63;
        while (self.0 >> (i as u64)) & 1 != 1
            invariant
                i < 64,
                self.0 != 0,
                forall|j: int| i < j < 64 ==> !bit(self.0, j),
            decreases i,
        {
            if i == 0 {
                proof {
                    assert forall|j: int| 0 <= j < 64 implies !bit(self.0, j) by {
                        if j == 0 {
                        }
                    }
                    lemma_no_bits_zero(self.0);
                }
                assert(false);
            }
            i = i - 1;
        }
        i
    }

    pub fn set_square(&mut self, sqr_idx: i8)
        requires
            0 <= sqr_idx < 64,
        ensures
            final(self).0 == old(self).0 | square_bb(sqr_idx as int),
    {
        self.0 = self.0 | (1u64 << (sqr_idx as u64));
    }

    pub fn clear_square(&mut self, sqr_idx: i8)
        requires
            0 <= sqr_idx < 64,
        ensures
            final(self).0 == old(self).0 & !square_bb(sqr_idx as int),
    {
        self.0 = self.0 & !(1u64 << (sqr_idx as u64));
    }

    pub fn toggle_square(&mut self, sqr_idx: i8)
        requires
            0 <= sqr_idx < 64,
        ensures
            final(self).0 == old(self).0 ^ square_bb(sqr_idx as int),
    {
        self.0 = self.0 ^ (1u64 << (sqr_idx as u64));
    }

    pub fn toggle_squares(&mut self, sqr_a: i8, sqr_b: i8)
        requires
            0 <= sqr_a < 64,
            0 <= sqr_b < 64,
        ensures
            final(self).0 == old(self).0 ^ (square_bb(sqr_a as int) | square_bb(sqr_b as int)),
    {
        self.0 = self.0 ^ ((1u64 << (sqr_a as u64)) | (1u64 << (sqr_b as u64)));
    }

    pub fn contains_square(&self, sqr_idx: i8) -> (r: bool)
        requires
            0 <= sqr_idx < 64,
        ensures
            r == bit(self.0, sqr_idx as int),
    {
        (self.0 >> (sqr_idx as u64)) & 1 == 1
    }

    /// Whether `sqr` is on the board and set; off-board squares are never set.
    pub fn get_square(&self, sqr: Coord) -> (r: bool)
        ensures
            r == (sqr.valid() && bit(self.0, sqr.sq())),
    {
        if sqr.is_valid() {
            (self.0 >> (sqr.square() as u64)) & 1 == 1
        } else {
            false
        }
    }

    /// Same as `get_square`: a square off the board is reported as not set.
    pub fn contains_checked(&self, sqr: Coord) -> (r: bool)
        ensures
            r == (sqr.valid() && bit(self.0, sqr.sq())),
    {
        self.get_square(sqr)
    }

    /// 1 when the square is set, else 0.
    pub fn square_value(&self, sqr_idx: i8) -> (r: i32)
        requires
            0 <= sqr_idx < 64,
        ensures
            r == (if bit(self.0, sqr_idx as int) { 1int } else { 0int }),
    {
        if self.contains_square(sqr_idx) { 1 } else { 0 }
    }

    /// The board with the single square `sqr_idx`.
    pub fn from_bit(sqr_idx: u32) -> (r: Self)
        requires
            sqr_idx < 64,
        ensures
            r.0 == square_bb(sqr_idx as int),
    {
        BitBoard(1u64 << (sqr_idx as u64))
    }

    /// Shifts the raw bits by `n` (towards h8 when positive), without regard to files.
    pub fn shifted(self, n: i8) -> (r: BitBoard)
        requires
            -64 < n < 64,
        ensures
            r.0 == (if n > 0 { self.0 << (n as u64) } else { self.0 >> ((-n) as u64) }),
    {
        if n > 0 {
            BitBoard(self.0 << (n as u64))
        } else {
            BitBoard(self.0 >> ((-n) as u64))
        }
    }

    /// Moves every square by `offset` (file and rank); squares that leave the board are dropped.
    pub fn shifted_2d(self, offset: Coord) -> (r: BitBoard)
        ensures
            r.0 == squares_where(shift_pred(self.0, offset.file as int, offset.rank as int)),
    {
        let mut r: u64 = 0;
        let mut i: i8 = 0;
        let df = offset.file;
        let dr = offset.rank;
        while i < 64
            invariant
                0 <= i <= 64,
                df == offset.file,
                dr == offset.rank,
                r == mask_upto(shift_pred(self.0, df as int, dr as int), i as nat),
            decreases 64 - i,
        {
            let f = (i % 8) as i16 - df as i16;
            let rk = (i / 8) as i16 - dr as i16;
            let c = 0 <= f && f < 8 && 0 <= rk && rk < 8 && (self.0 >> ((rk * 8 + f) as u64)) & 1 == 1;
            r = r | (if c { 1u64 << (i as u64) } else { 0u64 });
            i += 1;
        }
        BitBoard(r)
    }

    /// The number of squares on the board.
    pub fn count(self) -> (r: u32)
        ensures
            r == popcount(self.0),
            r <= 64,
    {
        let mut c: u32 = 0;
        let mut i: u64 = 0;
        while i < 64
            invariant
                i <= 64,
                c == pop(self.0, i as nat),
                c <= i,
            decreases 64 - i,
        {
            proof {
                lemma_and_one(self.0 >> i);
            }
            let b = ((self.0 >> i) & 1) as u32;
            c = c + b;
            i += 1;
        }
        c
    }
}

/// The square `t` holds a square of `x` moved by `(df, dr)`.
pub open spec fn shift_pred(x: u64, df: int, dr: int) -> spec_fn(int) -> bool {
    |t: int| {
        let f = t % 8 - df;
        let r = t / 8 - dr;
        0 <= f < 8 && 0 <= r < 8 && bit(x, r * 8 + f)
    }
}

/// The rank of the square lies in `lo..=hi`.
pub open spec fn ranks_between(lo: int, hi: int) -> spec_fn(int) -> bool {
    |s: int| lo <= s / 8 <= hi
}

/// The file of the square lies in `lo..=hi`.
pub open spec fn files_between(lo: int, hi: int) -> spec_fn(int) -> bool {
    |s: int| lo <= s % 8 <= hi
}

fn mask_where_ranks(lo: i8, hi: i8) -> (r: u64)
    ensures
        r == squares_where(ranks_between(lo as int, hi as int)),
{
    let mut r: u64 = 0;
    let mut i: u64 = 0;
    while i < 64
        invariant
            i <= 64,
            r == mask_upto(ranks_between(lo as int, hi as int), i as nat),
        decreases 64 - i,
    {
        let rk = (i / 8) as i8;
        let c = lo <= rk && rk <= hi;
        r = r | (if c { 1u64 << i } else { 0u64 });
        i += 1;
    }
    r
}

fn mask_where_files(lo: i8, hi: i8) -> (r: u64)
    ensures
        r == squares_where(files_between(lo as int, hi as int)),
{
    let mut r: u64 = 0;
    let mut i: u64 = 0;
    while i < 64
        invariant
            i <= 64,
            r == mask_upto(files_between(lo as int, hi as int), i as nat),
        decreases 64 - i,
    {
        let f = (i % 8) as i8;
        let c = lo <= f && f <= hi;
        r = r | (if c { 1u64 << i } else { 0u64 });
        i += 1;
    }
    r
}

/// One rank of a board's diagram, its first `n` files: `1 ` for a square in the board, `• `
/// for one outside it.
pub open spec fn rank_text(x: u64, rank: int, n: nat) -> Seq<char>
    decreases n,
{
    if n == 0 {
        Seq::empty()
    } else {
        rank_text(x, rank, (n - 1) as nat) + (if bit(x, rank * 8 + n - 1) { seq!['1', ' '] } else {
            seq!['\u{2022}', ' ']
        })
    }
}

/// The first `k` ranks of a board's diagram, from the eighth down, each ended by `\n\r`.
pub open spec fn ranks_text(x: u64, k: nat) -> Seq<char>
    decreases k,
{
    if k == 0 {
        Seq::empty()
    } else {
        ranks_text(x, (k - 1) as nat) + rank_text(x, 8 - k, 8) + seq!['\n', '\r']
    }
}

/// A board's diagram: a line break, then its ranks from the eighth down.
pub open spec fn diagram_text(x: u64) -> Seq<char> {
    seq!['\n', '\r'] + ranks_text(x, 8)
}

impl BitBoard {
    /// The diagram of the board; see `diagram_text`.
    pub fn diagram(&self) -> (r: String)
        ensures
            r@ == diagram_text(self.0),
    {
        let mut text: Vec<char> = Vec::new();
        text.push('\n');
        text.push('\r');
        let mut k: i8 = 0;
        while k < 8
            invariant
                0 <= k <= 8,
                text@ == seq!['\n', '\r'] + ranks_text(self.0, k as nat),
            decreases 8 - k,
        {
            let rank: i8 = 7 - k;
            let ghost before = text@;
            let mut file: i8 = 0;
            while file < 8
                invariant
                    0 <= file <= 8,
                    0 <= rank < 8,
                    text@ == before + rank_text(self.0, rank as int, file as nat),
                decreases 8 - file,
            {
                let ghost mid = text@;
                if self.contains_square(rank * 8 + file) {
                    text.push('1');
                } else {
                    text.push('\u{2022}');
                }
                text.push(' ');
                file += 1;
                proof {
                    assert(text@ =~= before + rank_text(self.0, rank as int, file as nat));
                }
            }
            text.push('\n');
            text.push('\r');
            k += 1;
            proof {
                assert(text@ =~= seq!['\n', '\r'] + ranks_text(self.0, k as nat));
            }
        }
        crate::utils::text::string_of(text.as_slice())
    }
}

} // verus!
