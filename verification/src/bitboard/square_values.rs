//! One value per square.
use vstd::prelude::*;
use crate::bitboard::{BitBoard, bit};

verus! {

/// A value for each of the 64 squares, indexed by square.
pub struct SquareValues<T>(pub [T; 64]);

pub type SquareEvaluations = SquareValues<i32>;

pub type SquareCounts = SquareValues<u8>;

/// The sum of the values on the squares below `n`.
pub open spec fn sum_below(v: [i32; 64], n: nat) -> int
    decreases n,
{
    if n == 0 {
        0
    } else {
        sum_below(v, (n - 1) as nat) + v[n - 1] as int
    }
}

/// Every value lies within `-bound..=bound`.
pub open spec fn bounded(v: [i32; 64], bound: int) -> bool {
    forall|s: int| 0 <= s < 64 ==> -bound <= #[trigger] v[s] <= bound
}

pub proof fn lemma_sum_bound(v: [i32; 64], bound: int, n: nat)
    requires
        bounded(v, bound),
        n <= 64,
    ensures
        -bound * n <= sum_below(v, n) <= bound * n,
    decreases n,
{
    if n > 0 {
        lemma_sum_bound(v, bound, (n - 1) as nat);
        assert(-bound <= v[n - 1] <= bound);
        assert(bound * n == bound * (n - 1) + bound) by (nonlinear_arith);
        assert(-bound * n == -bound * (n - 1) - bound) by (nonlinear_arith);
    }
}

impl SquareValues<i32> {
    /// Zero on every square.
    pub fn new() -> (r: Self)
        ensures
            forall|s: int| 0 <= s < 64 ==> #[trigger] r.0[s] == 0,
    {
        let r = SquareValues([0i32; 64]);
        proof {
            broadcast use vstd::array::group_array_axioms;
            assert forall|s: int| 0 <= s < 64 implies #[trigger] r.0[s] == 0 by {
                assert(r.0@[s] == 0);
            }
        }
        r
    }

    /// The sum over all squares.
    pub fn count(&self) -> (r: i32)
        requires
            bounded(self.0, 0x100_0000),
        ensures
            r == sum_below(self.0, 64),
    {
        let mut sum: i32 = 0;
        let mut i: usize = 0;
        while i < 64
            invariant
                i <= 64,
                bounded(self.0, 0x100_0000),
                sum == sum_below(self.0, i as nat),
            decreases 64 - i,
        {
            proof {
                lemma_sum_bound(self.0, 0x100_0000, (i + 1) as nat);
            }
            sum = sum + self.0[i];
            i += 1;
        }
        sum
    }

    /// The value of `f` at each square.
    pub fn map<F: Fn(i32) -> i32>(self, f: F) -> (r: SquareValues<i32>)
        requires
            forall|s: int| 0 <= s < 64 ==> call_requires(f, (#[trigger] self.0[s],)),
        ensures
            forall|s: int| 0 <= s < 64 ==> call_ensures(f, (#[trigger] self.0[s],), r.0[s]),
    {
        let mut out = [0i32; 64];
        let mut i: usize = 0;
        while i < 64
            invariant
                i <= 64,
                forall|s: int| 0 <= s < 64 ==> call_requires(f, (#[trigger] self.0[s],)),
                forall|s: int| 0 <= s < i ==> call_ensures(f, (#[trigger] self.0[s],), out[s]),
            decreases 64 - i,
        {
            let v = f(self.0[i]);
            out[i] = v;
            i += 1;
        }
        SquareValues(out)
    }

    /// The values of both, square by square.
    pub fn zip(self, rhs: SquareValues<i32>) -> (r: SquareValues<(i32, i32)>)
        ensures
            forall|s: int| 0 <= s < 64 ==> #[trigger] r.0[s] == (self.0[s], rhs.0[s]),
    {
        let mut out = [(0i32, 0i32); 64];
        let mut i: usize = 0;
        while i < 64
            invariant
                i <= 64,
                forall|s: int| 0 <= s < i ==> #[trigger] out[s] == (self.0[s], rhs.0[s]),
            decreases 64 - i,
        {
            out[i] = (self.0[i], rhs.0[i]);
            i += 1;
        }
        SquareValues(out)
    }

    /// Each value with its square.
    pub fn enumerate(self) -> (r: SquareValues<(usize, i32)>)
        ensures
            forall|s: int| 0 <= s < 64 ==> #[trigger] r.0[s] == (s as usize, self.0[s]),
    {
        let mut out = [(0usize, 0i32); 64];
        let mut i: usize = 0;
        while i < 64
            invariant
                i <= 64,
                forall|s: int| 0 <= s < i ==> #[trigger] out[s] == (s as usize, self.0[s]),
            decreases 64 - i,
        {
            out[i] = (i, self.0[i]);
            i += 1;
        }
        SquareValues(out)
    }

    /// The values on the squares of `bb`, zero elsewhere.
    pub fn masked(self, bb: BitBoard) -> (r: SquareValues<i32>)
        ensures
            forall|s: int| 0 <= s < 64 ==> #[trigger] r.0[s] == (if bit(bb.0, s) { self.0[s] } else { 0i32 }),
    {
        let mut out = [0i32; 64];
        let mut i: usize = 0;
        while i < 64
            invariant
                i <= 64,
                forall|s: int| 0 <= s < i ==> #[trigger] out[s] == (if bit(bb.0, s) { self.0[s] } else { 0i32 }),
            decreases 64 - i,
        {
            out[i] = if bb.contains_square(i as i8) { self.0[i] } else { 0 };
            i += 1;
        }
        SquareValues(out)
    }
}

} // verus!
