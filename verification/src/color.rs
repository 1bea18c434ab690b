//! The two sides. Code that is written once for both sides takes the side as a type
//! parameter; "up" is towards the enemy's home side.
use vstd::prelude::*;
use crate::bitboard::{BitBoard, RANK_1, RANK_2, RANK_3, RANK_4, RANK_5, RANK_6, RANK_7, RANK_8};
use crate::coord::Coord;
use crate::piece::Piece;

verus! {

/// The color flag of a side's pieces.
pub open spec fn color_flag(w: bool) -> u8 {
    if w { Piece::WHITE } else { Piece::BLACK }
}

/// The piece value of type `t` of a side.
pub open spec fn side_piece(w: bool, t: u8) -> u8 {
    t | color_flag(w)
}

/// Rank `n` counted from a side's home rank.
pub open spec fn rel_rank(w: bool, n: int) -> int {
    if w { n } else { 7 - n }
}

/// One step up: +1 for white, -1 for black.
pub open spec fn up_step(w: bool) -> int {
    if w { 1 } else { -1 }
}

pub open spec fn side_index(w: bool) -> usize {
    if w { 0usize } else { 1usize }
}

pub trait Color {
    spec fn spec_white() -> bool;

    fn piece(ptype: u8) -> (r: Piece)
        ensures
            r.0 == side_piece(Self::spec_white(), ptype),
    ;

    fn piece_color() -> (r: u8)
        ensures
            r == color_flag(Self::spec_white()),
    ;

    /// The `up` direction of this color, traveling towards the enemy side.
    fn up() -> (r: Coord)
        ensures
            r.file == 0,
            r.rank == up_step(Self::spec_white()),
    ;

    /// The `down` direction of this color, traveling towards the home side.
    fn down() -> (r: Coord)
        ensures
            r.file == 0,
            r.rank == -up_step(Self::spec_white()),
    ;

    fn rank(n: i8) -> (r: i8)
        requires
            -100 <= n <= 100,
        ensures
            r == rel_rank(Self::spec_white(), n as int),
    ;

    /// The ranks `lo..=hi` counted from this side's home rank, as absolute ranks.
    fn ranks(lo: i8, hi: i8) -> (r: (i8, i8))
        requires
            -100 <= lo <= 100,
            -100 <= hi <= 100,
        ensures
            r == (if Self::spec_white() { (lo, hi) } else { ((7 - hi) as i8, (7 - lo) as i8) }),
    ;

    fn back_rank() -> (r: i8)
        ensures
            r == rel_rank(Self::spec_white(), 0),
    ;

    fn first_rank() -> (r: i8)
        ensures
            r == rel_rank(Self::spec_white(), 1),
    ;

    /// The rank just behind the home rank: no square lies at or below it.
    fn max_back_rank() -> (r: i8)
        ensures
            r == rel_rank(Self::spec_white(), -1),
    ;

    fn home_side() -> (r: BitBoard)
        ensures
            r.0 == (if Self::spec_white() { RANK_1 | RANK_2 | RANK_3 | RANK_4 } else { RANK_5 | RANK_6 | RANK_7 | RANK_8 }),
    ;

    fn up_dir() -> (r: i8)
        ensures
            r == up_step(Self::spec_white()),
    ;

    fn down_dir() -> (r: i8)
        ensures
            r == -up_step(Self::spec_white()),
    ;

    /// Whether absolute rank `a` lies at or below `b`, seen from this side.
    fn below_eq(a: i8, b: i8) -> (r: bool)
        ensures
            r == (if Self::spec_white() { a <= b } else { a >= b }),
    ;

    /// Whether absolute rank `a` lies above `b`, seen from this side.
    fn above(a: i8, b: i8) -> (r: bool)
        ensures
            r == (if Self::spec_white() { a > b } else { a < b }),
    ;

    /// Iterates over ranks in the `up` direction of this color.
    fn ranks_up() -> (r: RanksIterator)
        ensures
            r.direction == up_step(Self::spec_white()),
            r.current == rel_rank(Self::spec_white(), 0) - up_step(Self::spec_white()),
    ;

    /// Iterates over ranks in the `down` direction of this color.
    fn ranks_down() -> (r: RanksIterator)
        ensures
            r.direction == -up_step(Self::spec_white()),
            r.current == rel_rank(Self::spec_white(), 7) + up_step(Self::spec_white()),
    ;

    /// Iterates over ranks in the `up` direction of this color, starting at and including rank
    /// `start`.
    fn ranks_up_from(start: i8) -> (r: RanksIterator)
        requires
            -100 <= start <= 100,
        ensures
            r.direction == up_step(Self::spec_white()),
            r.current == start - up_step(Self::spec_white()),
    ;

    /// Iterates over ranks in the `down` direction of this color, starting at and including rank
    /// `start`.
    fn ranks_down_from(start: i8) -> (r: RanksIterator)
        requires
            -100 <= start <= 100,
        ensures
            r.direction == -up_step(Self::spec_white()),
            r.current == start + up_step(Self::spec_white()),
    ;

    /// From the home rank up to and including `end`.
    fn ranks_up_till_incl(end: i8) -> (r: RanksIteratorUntil)
        requires
            -100 <= end <= 100,
        ensures
            r.direction == up_step(Self::spec_white()),
            r.current == rel_rank(Self::spec_white(), 0) - up_step(Self::spec_white()),
            r.end == end + up_step(Self::spec_white()),
    ;

    /// From the far rank down to and including `end`.
    fn ranks_down_till_incl(end: i8) -> (r: RanksIteratorUntil)
        requires
            -100 <= end <= 100,
        ensures
            r.direction == -up_step(Self::spec_white()),
            r.current == rel_rank(Self::spec_white(), 7) + up_step(Self::spec_white()),
            r.end == end - up_step(Self::spec_white()),
    ;

    /// From the home rank up to `end`, without it.
    fn ranks_up_till_excl(end: i8) -> (r: RanksIteratorUntil)
        ensures
            r.direction == up_step(Self::spec_white()),
            r.current == rel_rank(Self::spec_white(), 0) - up_step(Self::spec_white()),
            r.end == end,
    ;

    /// From the far rank down to `end`, without it.
    fn ranks_down_till_excl(end: i8) -> (r: RanksIteratorUntil)
        ensures
            r.direction == -up_step(Self::spec_white()),
            r.current == rel_rank(Self::spec_white(), 7) + up_step(Self::spec_white()),
            r.end == end,
    ;

    /// The square at `file` and rank `rank` counted from this side's home rank.
    fn at(file: i8, rank: i8) -> (r: Coord)
        requires
            -100 <= rank <= 100,
        ensures
            r.file == file,
            r.rank == rel_rank(Self::spec_white(), rank as int),
    ;

    /// The offset `file` sideways and `rank` up, seen from this side.
    fn offset(file: i8, rank: i8) -> (r: Coord)
        requires
            -100 <= rank <= 100,
        ensures
            r.file == file,
            r.rank == rank * up_step(Self::spec_white()),
    ;

    fn is_white() -> (r: bool)
        ensures
            r == Self::spec_white(),
    ;

    fn index() -> (r: usize)
        ensures
            r == side_index(Self::spec_white()),
    ;
}

pub struct White;

pub struct Black;

impl Color for White {
    open spec fn spec_white() -> bool {
        true
    }

    fn piece(ptype: u8) -> (r: Piece) {
        Piece::new(ptype | Piece::WHITE)
    }

    fn piece_color() -> (r: u8) {
        Piece::WHITE
    }

    fn up() -> (r: Coord) {
        Coord::new(0, 1)
    }

    fn down() -> (r: Coord) {
        Coord::new(0, -1)
    }

    fn rank(n: i8) -> (r: i8) {
        n
    }

    fn ranks(lo: i8, hi: i8) -> (r: (i8, i8)) {
        (lo, hi)
    }

    fn back_rank() -> (r: i8) {
        0
    }

    fn first_rank() -> (r: i8) {
        1
    }

    fn max_back_rank() -> (r: i8) {
        -1
    }

    fn home_side() -> (r: BitBoard) {
        BitBoard(RANK_1 | RANK_2 | RANK_3 | RANK_4)
    }

    fn up_dir() -> (r: i8) {
        1
    }

    fn down_dir() -> (r: i8) {
        -1
    }

    fn below_eq(a: i8, b: i8) -> (r: bool) {
        a <= b
    }

    fn above(a: i8, b: i8) -> (r: bool) {
        a > b
    }

    fn ranks_up() -> (r: RanksIterator) {
        RanksIterator::new(1, 0)
    }

    fn ranks_down() -> (r: RanksIterator) {
        RanksIterator::new(-1, 7)
    }

    fn ranks_up_from(start: i8) -> (r: RanksIterator) {
        RanksIterator::new(1, start)
    }

    fn ranks_down_from(start: i8) -> (r: RanksIterator) {
        RanksIterator::new(-1, start)
    }

    fn ranks_up_till_incl(end: i8) -> (r: RanksIteratorUntil) {
        RanksIteratorUntil::new(1, 0, end + 1)
    }

    fn ranks_down_till_incl(end: i8) -> (r: RanksIteratorUntil) {
        RanksIteratorUntil::new(-1, 7, end - 1)
    }

    fn ranks_up_till_excl(end: i8) -> (r: RanksIteratorUntil) {
        RanksIteratorUntil::new(1, 0, end)
    }

    fn ranks_down_till_excl(end: i8) -> (r: RanksIteratorUntil) {
        RanksIteratorUntil::new(-1, 7, end)
    }

    fn at(file: i8, rank: i8) -> (r: Coord) {
        Coord::new(file, rank)
    }

    fn offset(file: i8, rank: i8) -> (r: Coord) {
        Coord::new(file, rank)
    }

    fn is_white() -> (r: bool) {
        true
    }

    fn index() -> (r: usize) {
        0
    }
}

impl Color for Black {
    open spec fn spec_white() -> bool {
        false
    }

    fn piece(ptype: u8) -> (r: Piece) {
        Piece::new(ptype | Piece::BLACK)
    }

    fn piece_color() -> (r: u8) {
        Piece::BLACK
    }

    fn up() -> (r: Coord) {
        Coord::new(0, -1)
    }

    fn down() -> (r: Coord) {
        Coord::new(0, 1)
    }

    fn rank(n: i8) -> (r: i8) {
        7 - n
    }

    fn ranks(lo: i8, hi: i8) -> (r: (i8, i8)) {
        (7 - hi, 7 - lo)
    }

    fn back_rank() -> (r: i8) {
        7
    }

    fn first_rank() -> (r: i8) {
        6
    }

    fn max_back_rank() -> (r: i8) {
        8
    }

    fn home_side() -> (r: BitBoard) {
        BitBoard(RANK_5 | RANK_6 | RANK_7 | RANK_8)
    }

    fn up_dir() -> (r: i8) {
        -1
    }

    fn down_dir() -> (r: i8) {
        1
    }

    fn below_eq(a: i8, b: i8) -> (r: bool) {
        a >= b
    }

    fn above(a: i8, b: i8) -> (r: bool) {
        a < b
    }

    fn ranks_up() -> (r: RanksIterator) {
        RanksIterator::new(-1, 7)
    }

    fn ranks_down() -> (r: RanksIterator) {
        RanksIterator::new(1, 0)
    }

    fn ranks_up_from(start: i8) -> (r: RanksIterator) {
        RanksIterator::new(-1, start)
    }

    fn ranks_down_from(start: i8) -> (r: RanksIterator) {
        RanksIterator::new(1, start)
    }

    fn ranks_up_till_incl(end: i8) -> (r: RanksIteratorUntil) {
        RanksIteratorUntil::new(-1, 7, end - 1)
    }

    fn ranks_down_till_incl(end: i8) -> (r: RanksIteratorUntil) {
        RanksIteratorUntil::new(1, 0, end + 1)
    }

    fn ranks_up_till_excl(end: i8) -> (r: RanksIteratorUntil) {
        RanksIteratorUntil::new(-1, 7, end)
    }

    fn ranks_down_till_excl(end: i8) -> (r: RanksIteratorUntil) {
        RanksIteratorUntil::new(1, 0, end)
    }

    fn at(file: i8, rank: i8) -> (r: Coord) {
        Coord::new(file, 7 - rank)
    }

    fn offset(file: i8, rank: i8) -> (r: Coord) {
        Coord::new(file, -rank)
    }

    fn is_white() -> (r: bool) {
        false
    }

    fn index() -> (r: usize) {
        1
    }
}

/// Ranks from a start, one step at a time, while on the board.
pub struct RanksIterator {
    pub direction: i8,
    pub current: i8,
}

impl RanksIterator {
    pub fn new(direction: i8, start: i8) -> (r: Self)
        requires
            -128 <= start - direction <= 127,
        ensures
            r.direction == direction,
            r.current == start - direction,
    {
        Self { direction, current: start - direction }
    }

    /// The next rank, or `None` once the rank leaves the board.
    pub fn next(&mut self) -> (r: Option<i8>)
        requires
            -128 <= old(self).current + old(self).direction <= 127,
        ensures
            final(self).direction == old(self).direction,
            final(self).current == old(self).current + old(self).direction,
            r == (if final(self).current < 0 || final(self).current > 7 { None } else { Some(final(self).current) }),
    {
        self.current = self.current + self.direction;
        if self.current < 0 || self.current > 7 {
            return None;
        }
        Some(self.current)
    }
}

/// Ranks from a start, one step at a time, while on the board and before `end`.
pub struct RanksIteratorUntil {
    pub direction: i8,
    pub current: i8,
    pub end: i8,
}

impl RanksIteratorUntil {
    pub fn new(direction: i8, start: i8, end: i8) -> (r: Self)
        requires
            -128 <= start - direction <= 127,
        ensures
            r.direction == direction,
            r.current == start - direction,
            r.end == end,
    {
        Self { direction, current: start - direction, end }
    }

    /// The next rank, or `None` once the rank leaves the board or reaches `end`.
    pub fn next(&mut self) -> (r: Option<i8>)
        requires
            -128 <= old(self).current + old(self).direction <= 127,
        ensures
            final(self).direction == old(self).direction,
            final(self).end == old(self).end,
            final(self).current == old(self).current + old(self).direction,
            r == (if final(self).current < 0 || final(self).current > 7 || final(self).current == final(self).end {
                None
            } else {
                Some(final(self).current)
            }),
    {
        self.current = self.current + self.direction;
        if self.current < 0 || self.current > 7 || self.current == self.end {
            return None;
        }
        Some(self.current)
    }
}

} // verus!
