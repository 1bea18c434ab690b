//! The transposition table: evaluations of positions already searched, by key.
use vstd::prelude::*;
use crate::board::moves::Move;
use crate::search::IMMEDIATE_MATE_SCORE;

verus! {

#[derive(Clone, Copy, PartialEq, Eq, Structural, Debug)]
pub enum TranspositionNodeType {
    Exact,
    LowerBound,
    UpperBound,
}

impl Default for TranspositionNodeType {
    fn default() -> (r: Self)
        ensures
            r == TranspositionNodeType::Exact,
    {
        TranspositionNodeType::Exact
    }
}

#[derive(Clone, Copy, Debug)]
pub struct TranspositionEntry {
    pub key: u64,
    pub eval: i32,
    pub m: Move,
    pub depth: u8,
    pub node_type: TranspositionNodeType,
}

impl Default for TranspositionEntry {
    fn default() -> (r: Self)
        ensures
            r == empty_entry(),
    {
        TranspositionEntry { key: 0, eval: 0, m: Move(0), depth: 0, node_type: TranspositionNodeType::Exact }
    }
}

/// The entry of a table that holds nothing yet.
pub open spec fn empty_entry() -> TranspositionEntry {
    TranspositionEntry { key: 0, eval: 0, m: Move(0), depth: 0, node_type: TranspositionNodeType::Exact }
}

impl TranspositionEntry {
    pub fn new(key: u64, eval: i32, m: Move, depth: u8, node_type: TranspositionNodeType) -> (r: Self)
        ensures
            r == (TranspositionEntry { key, eval, m, depth, node_type }),
    {
        Self { key, eval, m, depth, node_type }
    }

    /// The size of an entry in memory, in bytes.
    pub fn size() -> (r: usize)
        ensures
            r as nat == vstd::layout::size_of::<TranspositionEntry>(),
    {
        core::mem::size_of::<TranspositionEntry>()
    }
}

/// A score is a mate score: more than a thousand plies short of the immediate mate.
pub open spec fn is_mate(score: int) -> bool {
    score > IMMEDIATE_MATE_SCORE - 1000 || score < -(IMMEDIATE_MATE_SCORE - 1000)
}

/// A mate score as stored: its distance counted from the position itself, `n` plies further
/// from the root.
pub open spec fn stored_score(score: int, n: int) -> int {
    if is_mate(score) { if score > 0 { score + n } else { score - n } } else { score }
}

/// A stored mate score as seen `n` plies from the root.
pub open spec fn retrieved_score(score: int, n: int) -> int {
    if is_mate(score) { if score > 0 { score - n } else { score + n } } else { score }
}

/// What a lookup of `key` (for a search `depth` deep, `n` plies from the root, in the window
/// from `alpha` to `beta`) finds in `e`: the score when the entry is for this key, deep enough,
/// and exact or a bound that already settles the window.
pub open spec fn lookup_of(e: TranspositionEntry, key: u64, depth: u8, n: u8, alpha: i32, beta: i32) -> Option<i32> {
    if e.key == key && e.depth >= depth {
        let score = retrieved_score(e.eval as int, n as int);
        if e.node_type == TranspositionNodeType::Exact
            || (e.node_type == TranspositionNodeType::UpperBound && score <= alpha)
            || (e.node_type == TranspositionNodeType::LowerBound && score >= beta) {
            Some(score as i32)
        } else {
            None
        }
    } else {
        None
    }
}

pub struct TranspositionTable<const N: usize> {
    pub entries: Vec<TranspositionEntry>,
    pub enabled: bool,
}

impl<const N: usize> TranspositionTable<N> {
    /// One entry per slot.
    pub open spec fn wf(self) -> bool {
        self.entries@.len() == N && N > 0
    }

    /// The slot of `key`.
    pub open spec fn slot(key: u64) -> int {
        (key % (N as u64)) as int
    }

    pub fn new() -> (r: Self)
        requires
            N > 0,
        ensures
            r.wf(),
            r.enabled,
            forall|i: int| 0 <= i < N ==> r.entries@[i] == empty_entry(),
    {
        let mut entries: Vec<TranspositionEntry> = Vec::new();
        let mut i: usize = 0;
        while i < N
            invariant
                i <= N,
                entries@.len() == i,
                forall|j: int| 0 <= j < i ==> entries@[j] == empty_entry(),
            decreases N - i,
        {
            entries.push(TranspositionEntry::default());
            i += 1;
        }
        Self { entries, enabled: true }
    }

    /// Empties every slot.
    pub fn clear(&mut self)
        ensures
            final(self).entries@.len() == old(self).entries@.len(),
            forall|i: int| 0 <= i < final(self).entries@.len() ==> final(self).entries@[i] == empty_entry(),
            final(self).enabled == old(self).enabled,
    {
        let n = self.entries.len();
        let mut i: usize = 0;
        while i < n
            invariant
                i <= n,
                n == self.entries@.len(),
                forall|j: int| 0 <= j < i ==> self.entries@[j] == empty_entry(),
                self.enabled == old(self).enabled,
            decreases n - i,
        {
            self.entries.set(i, TranspositionEntry::default());
            i += 1;
        }
    }

    pub fn index(&self, key: u64) -> (r: u64)
        requires
            N > 0,
        ensures
            r == Self::slot(key),
            r < N,
    {
        key % (N as u64)
    }

    /// The move stored in the slot of `key`.
    pub fn get_stored_move(&self, key: u64) -> (r: Move)
        requires
            self.wf(),
        ensures
            r == self.entries@[Self::slot(key)].m,
    {
        self.entries[self.index(key) as usize].m
    }

    /// The score stored for `key` if it settles the search; see `lookup_of`. A disabled table
    /// finds nothing.
    pub fn lookup(&self, key: u64, depth: u8, dst_from_root: u8, alpha: i32, beta: i32) -> (r: Option<i32>)
        requires
            self.wf(),
            self.entries@[Self::slot(key)].eval > i32::MIN,
        ensures
            r == (if self.enabled { lookup_of(self.entries@[Self::slot(key)], key, depth, dst_from_root, alpha, beta) } else { None }),
    {
        if !self.enabled {
            return None;
        }
        let entry = self.entries[self.index(key) as usize];
        if entry.key == key && entry.depth >= depth {
            let score = Self::correct_retrieved_mate_score(entry.eval, dst_from_root);
            if entry.node_type == TranspositionNodeType::Exact {
                return Some(score);
            }
            if entry.node_type == TranspositionNodeType::UpperBound && score <= alpha {
                return Some(score);
            }
            if entry.node_type == TranspositionNodeType::LowerBound && score >= beta {
                return Some(score);
            }
        }
        None
    }

    /// Stores the evaluation of `key` in its slot, unless the slot holds an evaluation of a
    /// deeper search (depth-preferred replacement).
    pub fn store(&mut self, key: u64, depth: u8, dst_from_root: u8, eval: i32, eval_type: TranspositionNodeType, m: Move)
        requires
            old(self).wf(),
            eval > i32::MIN,
            i32::MIN <= stored_score(eval as int, dst_from_root as int) <= i32::MAX,
        ensures
            final(self).wf(),
            final(self).enabled == old(self).enabled,
            final(self).entries@ == (if old(self).enabled && depth >= old(self).entries@[Self::slot(key)].depth {
                old(self).entries@.update(Self::slot(key), TranspositionEntry {
                    key,
                    eval: stored_score(eval as int, dst_from_root as int) as i32,
                    m,
                    depth,
                    node_type: eval_type,
                })
            } else {
                old(self).entries@
            }),
    {
        if !self.enabled {
            return;
        }
        let index = self.index(key) as usize;
        if depth < self.entries[index].depth {
            return;
        }
        let entry = TranspositionEntry::new(key, Self::correct_store_mate_score(eval, dst_from_root), m, depth, eval_type);
        self.entries.set(index, entry);
    }

    /// A mate score as stored, counted from the position `num_positions_searched` plies from
    /// the root.
    pub fn correct_store_mate_score(score: i32, num_positions_searched: u8) -> (r: i32)
        requires
            score > i32::MIN,
            i32::MIN <= stored_score(score as int, num_positions_searched as int) <= i32::MAX,
        ensures
            r == stored_score(score as int, num_positions_searched as int),
    {
        let abs = if score < 0 { -score } else { score };
        if abs > IMMEDIATE_MATE_SCORE - 1000 {
            if score > 0 { score + num_positions_searched as i32 } else { score - num_positions_searched as i32 }
        } else {
            score
        }
    }

    /// A stored mate score as seen `num_positions_searched` plies from the root.
    pub fn correct_retrieved_mate_score(score: i32, num_positions_searched: u8) -> (r: i32)
        requires
            score > i32::MIN,
        ensures
            r == retrieved_score(score as int, num_positions_searched as int),
    {
        let abs = if score < 0 { -score } else { score };
        if abs > IMMEDIATE_MATE_SCORE - 1000 {
            if score > 0 { score - num_positions_searched as i32 } else { score + num_positions_searched as i32 }
        } else {
            score
        }
    }

    /// The entry in the slot of `key`.
    pub fn get(&self, key: u64) -> (r: TranspositionEntry)
        requires
            self.wf(),
        ensures
            r == self.entries@[Self::slot(key)],
    {
        self.entries[(key % (N as u64)) as usize]
    }
}

/// Only mate scores are corrected for the distance from the root: a score of at most
/// `IMMEDIATE_MATE_SCORE - 1000` either way is stored and read back as it is, and a mate score
/// is stored one ply further from mate for each ply from the root (and read back the other way).
pub proof fn lemma_mate_correction_only_for_mates(score: int, n: int)
    requires
        0 <= n,
    ensures
        -(IMMEDIATE_MATE_SCORE - 1000) <= score <= IMMEDIATE_MATE_SCORE - 1000
            ==> stored_score(score, n) == score && retrieved_score(score, n) == score,
        score > IMMEDIATE_MATE_SCORE - 1000 ==> stored_score(score, n) == score + n && retrieved_score(score, n) == score - n,
        score < -(IMMEDIATE_MATE_SCORE - 1000) ==> stored_score(score, n) == score - n && retrieved_score(score, n) == score + n,
{
}

/// A mate score stored and read back at the same distance from the root is the score itself.
pub proof fn lemma_mate_score_round_trip(score: int, n: int)
    requires
        0 <= n <= 255,
    ensures
        retrieved_score(stored_score(score, n), n) == score,
{
}

/// A lookup settles a node only as the entry's bound allows: what it finds is the entry's
/// score seen from this distance, for this key and from a search at least as deep, and a lower
/// bound is found only when it reaches `beta`, an upper bound only when it stays at or below
/// `alpha`; an exact score is always found.
pub proof fn lemma_lookup_respects_bounds(e: TranspositionEntry, key: u64, depth: u8, n: u8, alpha: i32, beta: i32)
    ensures
        lookup_of(e, key, depth, n, alpha, beta) matches Some(v) ==> {
            &&& e.key == key
            &&& e.depth >= depth
            &&& v == retrieved_score(e.eval as int, n as int) as i32
            &&& e.node_type == TranspositionNodeType::LowerBound ==> retrieved_score(e.eval as int, n as int) >= beta
            &&& e.node_type == TranspositionNodeType::UpperBound ==> retrieved_score(e.eval as int, n as int) <= alpha
        },
        e.key == key && e.depth >= depth ==> {
            &&& e.node_type == TranspositionNodeType::Exact ==> lookup_of(e, key, depth, n, alpha, beta) is Some
            &&& e.node_type == TranspositionNodeType::LowerBound
                ==> (lookup_of(e, key, depth, n, alpha, beta) is Some <==> retrieved_score(e.eval as int, n as int) >= beta)
            &&& e.node_type == TranspositionNodeType::UpperBound
                ==> (lookup_of(e, key, depth, n, alpha, beta) is Some <==> retrieved_score(e.eval as int, n as int) <= alpha)
        },
        e.key != key || e.depth < depth ==> lookup_of(e, key, depth, n, alpha, beta) is None,
{
}

/// What a read gives back of a bound written: after storing `eval` for `key` as a lower bound,
/// a lookup no deeper at the same distance from the root finds it exactly when it reaches
/// `beta`; as an upper bound, exactly when it is at most `alpha`; a deeper lookup finds nothing.
pub proof fn lemma_lookup_after_store_bound(key: u64, depth: u8, n: u8, eval: i32, m: Move, d2: u8,
    alpha: i32, beta: i32)
    requires
        eval > i32::MIN,
        i32::MIN <= stored_score(eval as int, n as int) <= i32::MAX,
    ensures
        lookup_of(TranspositionEntry { key, eval: stored_score(eval as int, n as int) as i32, m, depth,
            node_type: TranspositionNodeType::LowerBound }, key, d2, n, alpha, beta)
            == (if d2 <= depth && eval >= beta { Some(eval) } else { None }),
        lookup_of(TranspositionEntry { key, eval: stored_score(eval as int, n as int) as i32, m, depth,
            node_type: TranspositionNodeType::UpperBound }, key, d2, n, alpha, beta)
            == (if d2 <= depth && eval <= alpha { Some(eval) } else { None }),
        lookup_of(TranspositionEntry { key, eval: stored_score(eval as int, n as int) as i32, m, depth,
            node_type: TranspositionNodeType::Exact }, key, d2, n, alpha, beta)
            == (if d2 <= depth { Some(eval) } else { None }),
{
    lemma_mate_score_round_trip(eval as int, n as int);
}

/// What a read gives back of a write: after storing an exact evaluation of `key`, a lookup of
/// `key` no deeper than the stored depth, at the same distance from the root, finds the
/// evaluation, whatever the window.
pub proof fn lemma_lookup_after_store(key: u64, depth: u8, n: u8, eval: i32, m: Move, d2: u8, alpha: i32, beta: i32)
    requires
        eval > i32::MIN,
        i32::MIN <= stored_score(eval as int, n as int) <= i32::MAX,
        d2 <= depth,
    ensures
        lookup_of(TranspositionEntry { key, eval: stored_score(eval as int, n as int) as i32, m, depth,
            node_type: TranspositionNodeType::Exact }, key, d2, n, alpha, beta) == Some(eval),
{
    lemma_mate_score_round_trip(eval as int, n as int);
}

} // verus!
