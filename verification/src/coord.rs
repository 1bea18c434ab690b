//! Squares and square offsets, as a file and a rank.
use vstd::prelude::*;
use crate::bitboard::{BitBoard, square_bb};

verus! {

/// A file and a rank. On the board both lie in `0..8`; as an offset they may be negative.
#[derive(Clone, Copy, PartialEq, Eq, Structural, Debug, Hash)]
pub struct Coord {
    pub file: i8,
    pub rank: i8,
}

pub open spec fn clamp7(x: int) -> int {
    if x < 0 { 0 } else if x > 7 { 7 } else { x }
}

pub open spec fn sign(x: int) -> int {
    if x > 0 { 1 } else if x < 0 { -1 } else { 0 }
}

impl Coord {
    pub open spec fn valid(self) -> bool {
        0 <= self.file < 8 && 0 <= self.rank < 8
    }

    /// The square index, `rank * 8 + file`.
    pub open spec fn sq(self) -> int {
        self.rank * 8 + self.file
    }

    pub open spec fn of_sq(s: int) -> Coord {
        Coord { file: (s % 8) as i8, rank: (s / 8) as i8 }
    }

    pub fn a1() -> (r: Coord)
        ensures
            r.file == 0,
            r.rank == 0,
    {
        Coord { file: 0, rank: 0 }
    }

    pub fn b1() -> (r: Coord)
        ensures
            r.file == 1,
            r.rank == 0,
    {
        Coord { file: 1, rank: 0 }
    }

    pub fn c1() -> (r: Coord)
        ensures
            r.file == 2,
            r.rank == 0,
    {
        Coord { file: 2, rank: 0 }
    }

    pub fn d1() -> (r: Coord)
        ensures
            r.file == 3,
            r.rank == 0,
    {
        Coord { file: 3, rank: 0 }
    }

    pub fn e1() -> (r: Coord)
        ensures
            r.file == 4,
            r.rank == 0,
    {
        Coord { file: 4, rank: 0 }
    }

    pub fn f1() -> (r: Coord)
        ensures
            r.file == 5,
            r.rank == 0,
    {
        Coord { file: 5, rank: 0 }
    }

    pub fn g1() -> (r: Coord)
        ensures
            r.file == 6,
            r.rank == 0,
    {
        Coord { file: 6, rank: 0 }
    }

    pub fn h1() -> (r: Coord)
        ensures
            r.file == 7,
            r.rank == 0,
    {
        Coord { file: 7, rank: 0 }
    }

    pub fn a8() -> (r: Coord)
        ensures
            r.file == 0,
            r.rank == 7,
    {
        Coord { file: 0, rank: 7 }
    }

    pub fn b8() -> (r: Coord)
        ensures
            r.file == 1,
            r.rank == 7,
    {
        Coord { file: 1, rank: 7 }
    }

    pub fn c8() -> (r: Coord)
        ensures
            r.file == 2,
            r.rank == 7,
    {
        Coord { file: 2, rank: 7 }
    }

    pub fn d8() -> (r: Coord)
        ensures
            r.file == 3,
            r.rank == 7,
    {
        Coord { file: 3, rank: 7 }
    }

    pub fn e8() -> (r: Coord)
        ensures
            r.file == 4,
            r.rank == 7,
    {
        Coord { file: 4, rank: 7 }
    }

    pub fn f8() -> (r: Coord)
        ensures
            r.file == 5,
            r.rank == 7,
    {
        Coord { file: 5, rank: 7 }
    }

    pub fn g8() -> (r: Coord)
        ensures
            r.file == 6,
            r.rank == 7,
    {
        Coord { file: 6, rank: 7 }
    }

    pub fn h8() -> (r: Coord)
        ensures
            r.file == 7,
            r.rank == 7,
    {
        Coord { file: 7, rank: 7 }
    }

    pub fn new(file: i8, rank: i8) -> (r: Coord)
        ensures
            r.file == file,
            r.rank == rank,
    {
        Coord { file, rank }
    }

    pub fn new_unchecked(file: i8, rank: i8) -> (r: Coord)
        ensures
            r.file == file,
            r.rank == rank,
    {
        Coord { file, rank }
    }

    /// Both parts clamped into `0..8`.
    pub fn new_clamp(file: i8, rank: i8) -> (r: Coord)
        ensures
            r.file == clamp7(file as int),
            r.rank == clamp7(rank as int),
            r.valid(),
    {
        let f = if file < 0 { 0 } else if file > 7 { 7 } else { file };
        let rk = if rank < 0 { 0 } else if rank > 7 { 7 } else { rank };
        Coord { file: f, rank: rk }
    }

    pub fn from_idx(idx: i8) -> (r: Coord)
        requires
            0 <= idx < 64,
        ensures
            r.valid(),
            r.sq() == idx,
            r == Coord::of_sq(idx as int),
    {
        Coord { file: idx % 8, rank: idx / 8 }
    }

    /// The square index of a file and a rank on the board.
    pub fn to_index(file: i8, rank: i8) -> (r: i8)
        requires
            0 <= file < 8,
            0 <= rank < 8,
        ensures
            r == rank * 8 + file,
    {
        rank * 8 + file
    }

    pub fn file(&self) -> (r: i8)
        ensures
            r == self.file,
    {
        self.file
    }

    pub fn rank(&self) -> (r: i8)
        ensures
            r == self.rank,
    {
        self.rank
    }

    pub fn is_valid(&self) -> (r: bool)
        ensures
            r == self.valid(),
    {
        0 <= self.file && self.file < 8 && 0 <= self.rank && self.rank < 8
    }

    pub fn square(&self) -> (r: i8)
        requires
            self.valid(),
        ensures
            r == self.sq(),
            0 <= r < 64,
    {
        self.rank * 8 + self.file
    }

    pub fn index(&self) -> (r: usize)
        requires
            self.valid(),
        ensures
            r == self.sq(),
            r < 64,
    {
        (self.rank * 8 + self.file) as usize
    }

    /// The board holding only this square.
    pub fn to_bitboard(&self) -> (r: BitBoard)
        requires
            self.valid(),
        ensures
            r.0 == square_bb(self.sq()),
    {
        BitBoard(1u64 << ((self.rank * 8 + self.file) as u64))
    }

    /// The offset of a direction in square indices, `rank * 8 + file`.
    pub fn offset(&self) -> (r: i8)
        requires
            -8 <= self.file <= 8,
            -8 <= self.rank <= 8,
        ensures
            r == self.rank * 8 + self.file,
    {
        self.rank * 8 + self.file
    }

    /// Part by part sum.
    pub fn add(self, o: Coord) -> (r: Coord)
        requires
            -64 <= self.file <= 64,
            -64 <= self.rank <= 64,
            -64 <= o.file <= 63,
            -64 <= o.rank <= 63,
        ensures
            r.file == self.file + o.file,
            r.rank == self.rank + o.rank,
    {
        Coord { file: self.file + o.file, rank: self.rank + o.rank }
    }

    /// Part by part sum, clamped onto the board.
    pub fn add_clamp(self, o: Coord) -> (r: Coord)
        requires
            -64 <= self.file <= 64,
            -64 <= self.rank <= 64,
            -64 <= o.file <= 63,
            -64 <= o.rank <= 63,
        ensures
            r.file == clamp7(self.file + o.file),
            r.rank == clamp7(self.rank + o.rank),
            r.valid(),
    {
        Coord::new_clamp(self.file + o.file, self.rank + o.rank)
    }

    /// Part by part difference, `o - self`.
    pub fn delta(self, o: Coord) -> (r: Coord)
        requires
            self.valid(),
            o.valid(),
        ensures
            r.file == o.file - self.file,
            r.rank == o.rank - self.rank,
    {
        Coord { file: o.file - self.file, rank: o.rank - self.rank }
    }

    /// Both parts multiplied by `k`.
    pub fn mul(self, k: i8) -> (r: Coord)
        requires
            -8 <= self.file <= 8,
            -8 <= self.rank <= 8,
            -8 <= k <= 8,
        ensures
            r.file == self.file * k,
            r.rank == self.rank * k,
    {
        assert(-64 <= self.file * k <= 64) by (nonlinear_arith)
            requires -8 <= self.file <= 8, -8 <= k <= 8;
        assert(-64 <= self.rank * k <= 64) by (nonlinear_arith)
            requires -8 <= self.rank <= 8, -8 <= k <= 8;
        Coord { file: self.file * k, rank: self.rank * k }
    }

    /// The square `n` indices further on.
    pub fn add_offset(self, n: i8) -> (r: Coord)
        requires
            self.valid(),
            0 <= self.sq() + n < 64,
        ensures
            r.valid(),
            r.sq() == self.sq() + n,
    {
        Coord::from_idx(self.square() + n)
    }

    /// The same file on the mirrored rank.
    pub fn flip_rank(self) -> (r: Coord)
        requires
            self.valid(),
        ensures
            r.file == self.file,
            r.rank == 7 - self.rank,
            r.valid(),
    {
        Coord { file: self.file, rank: 7 - self.rank }
    }

    /// Light squares are those with an odd sum of file and rank (h1, a2, ...).
    pub fn is_light_square(&self) -> (r: bool)
        requires
            self.valid(),
        ensures
            r == ((self.file + self.rank) % 2 != 0),
    {
        (self.file + self.rank) % 2 != 0
    }

    /// King steps between two squares: the larger of the file and the rank distance.
    pub fn distance(&self, o: Coord) -> (r: i8)
        requires
            self.valid(),
            o.valid(),
        ensures
            r == king_dist(*self, o),
    {
        let df = if self.file > o.file { self.file - o.file } else { o.file - self.file };
        let dr = if self.rank > o.rank { self.rank - o.rank } else { o.rank - self.rank };
        if df > dr { df } else { dr }
    }
}

pub open spec fn abs(x: int) -> int {
    if x < 0 { -x } else { x }
}

pub open spec fn king_dist(a: Coord, b: Coord) -> int {
    let df = abs(a.file - b.file);
    let dr = abs(a.rank - b.rank);
    if df > dr { df } else { dr }
}

} // verus!
