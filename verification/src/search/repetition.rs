//! The keys of the positions on the current line, to spot repetitions.
use vstd::prelude::*;
use crate::board::Board;

verus! {

pub struct RepetitionTable {
    pub hashes: [u64; 256],
    pub start_indices: [u32; 257],
    pub count: usize,
}

/// The slots a lookup scans: from the start recorded for `count` on, `count - 1` of them,
/// within the table.
pub open spec fn scanned(t: RepetitionTable, i: int) -> bool {
    let s = t.start_indices[t.count as int] as int;
    s <= i < s + t.count - 1 && i < 256
}

impl RepetitionTable {
    /// A table holding the keys recorded on `board`, the latest first (at most 256 of them).
    pub fn new(board: &Board) -> (r: Self)
        ensures
            r.count == board.repeat_position_history@.len(),
            forall|i: int| 0 <= i < 256 ==> #[trigger] r.hashes[i] == (if i < board.repeat_position_history@.len() {
                board.repeat_position_history@[board.repeat_position_history@.len() - 1 - i]
            } else {
                0u64
            }),
            forall|i: int| 0 <= i < 257 ==> #[trigger] r.start_indices[i] == 0,
    {
        let n = board.repeat_position_history.len();
        let mut hashes = [0u64; 256];
        let mut i: usize = 0;
        while i < 256
            invariant
                i <= 256,
                n == board.repeat_position_history@.len(),
                forall|j: int| 0 <= j < i ==> #[trigger] hashes[j] == (if j < n {
                    board.repeat_position_history@[n - 1 - j]
                } else {
                    0u64
                }),
                forall|j: int| i <= j < 256 ==> #[trigger] hashes[j] == 0u64,
            decreases 256 - i,
        {
            if i < n {
                hashes[i] = board.repeat_position_history[n - 1 - i];
            }
            i += 1;
        }
        let start_indices = [0u32; 257];
        proof {
            assert forall|j: int| 0 <= j < 257 implies #[trigger] start_indices[j] == 0 by {
                assert(start_indices@[j] == 0u32);
            }
        }
        RepetitionTable { hashes, start_indices, count: n }
    }

    /// Records `hash` as the next position; `reset` (after a pawn move or a capture) makes
    /// lookups from there on start at it.
    pub fn push(&mut self, hash: u64, reset: bool)
        requires
            old(self).count != 256,
            old(self).count < usize::MAX,
        ensures
            final(self).count == old(self).count + 1,
            old(self).count < 256 ==> {
                &&& final(self).hashes@ == old(self).hashes@.update(old(self).count as int, hash)
                &&& final(self).start_indices@ == old(self).start_indices@.update(old(self).count + 1,
                    if reset { old(self).count as u32 } else { old(self).start_indices[old(self).count as int] })
            },
            old(self).count > 256 ==> final(self).hashes == old(self).hashes && final(self).start_indices == old(self).start_indices,
    {
        if self.count <= 256 {
            self.hashes[self.count] = hash;
            self.start_indices[self.count + 1] = if reset { self.count as u32 } else { self.start_indices[self.count] };
        }
        self.count = self.count + 1;
    }

    /// Forgets the last position recorded (nothing when there is none).
    pub fn pop(&mut self)
        ensures
            final(self).count == (if old(self).count > 0 { old(self).count - 1 } else { 0 }),
            final(self).hashes == old(self).hashes,
            final(self).start_indices == old(self).start_indices,
    {
        self.count = (if self.count > 1 { self.count } else { 1 }) - 1;
    }

    /// Whether `hash` was recorded since the last reset, before the latest position.
    pub fn contains(&self, hash: u64) -> (r: bool)
        requires
            1 <= self.count <= 256,
        ensures
            r == exists|i: int| #[trigger] scanned(*self, i) && self.hashes[i] == hash,
    {
        let s = self.start_indices[self.count] as usize;
        let n = self.count - 1;
        if s >= 256 {
            return false;
        }
        let mut k: usize = 0;
        while k < n && k < 256 - s
            invariant
                s < 256,
                k <= n,
                s == self.start_indices[self.count as int],
                n == self.count - 1,
                1 <= self.count <= 256,
                forall|i: int| s <= i < s + k ==> self.hashes[i] != hash,
            decreases n - k,
        {
            if self.hashes[s + k] == hash {
                assert(scanned(*self, (s + k) as int));
                return true;
            }
            k += 1;
        }
        proof {
            assert forall|i: int| #[trigger] scanned(*self, i) implies self.hashes[i] != hash by {
                assert(s <= i < s + k);
            }
        }
        false
    }
}

} // verus!
