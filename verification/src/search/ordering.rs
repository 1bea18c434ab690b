//! Move ordering: likely good moves first, so that the search cuts off early.
use vstd::prelude::*;
use crate::bitboard::{BitBoard, bit};
use crate::board::Board;
use crate::board::moves::Move;
use crate::piece::Piece;

verus! {

pub const MAX_KILLER_MOVE_DEPTH: usize = 32;
pub const CONTROLLED_BY_OPP_PAWN_PENALTY: i32 = 350;
pub const CAPTURED_PIECE_MULTIPLIER: i32 = 100;
pub const MILLION: i32 = 1000000;
pub const FIRST_MOVE_SCORE: i32 = 100000000;
pub const WINNING_CAPTURE_BIAS: i32 = 8000000;
pub const PROMOTION_BIAS: i32 = 6000000;
pub const LOSING_CAPTURE_BIAS: i32 = 2000000;
pub const KILLER_BIAS: i32 = 4000000;
pub const NORMAL_BIAS: i32 = 0;

pub const PSQT_PAWNS: [i32; 64] = [
    0,   0,   0,   0,   0,   0,   0,   0,
    50,  50,  50,  50,  50,  50,  50,  50,
    10,  10,  20,  30,  30,  20,  10,  10,
    5,   5,  10,  25,  25,  10,   5,   5,
    0,   0,   0,  20,  20,   0,   0,   0,
    5,  -5, -10,   0,   0, -10,  -5,   5,
    5,  10,  10, -20, -20,  10,  10,   5,
    0,   0,   0,   0,   0,   0,   0,   0,
];

pub const PSQT_KNIGHTS: [i32; 64] = [
    -50, -40, -30, -30, -30, -30, -40, -50,
    -40, -20,   0,   0,   0,   0, -20, -40,
    -30,   0,  10,  15,  15,  10,   0, -30,
    -30,   5,  15,  20,  20,  15,   5, -30,
    -30,   0,  15,  20,  20,  15,   0, -30,
    -30,   5,  10,  15,  15,  10,   5, -30,
    -40, -20,   0,   5,   5,   0, -20, -40,
    -50, -40, -30, -30, -30, -30, -40, -50,
];

pub const PSQT_BISHOPS: [i32; 64] = [
    -20, -10, -10, -10, -10, -10, -10, -20,
    -10,   0,   0,   0,   0,   0,   0, -10,
    -10,   0,   5,  10,  10,   5,   0, -10,
    -10,   5,   5,  10,  10,   5,   5, -10,
    -10,   0,  10,  10,  10,  10,   0, -10,
    -10,  10,  10,  10,  10,  10,  10, -10,
    -10,   5,   0,   0,   0,   0,   5, -10,
    -20, -10, -10, -10, -10, -10, -10, -20,
];

pub const PSQT_ROOKS: [i32; 64] = [
    0,  0,  0,  0,  0,  0,  0,  0,
    5, 10, 10, 10, 10, 10, 10,  5,
    -5,  0,  0,  0,  0,  0,  0, -5,
    -5,  0,  0,  0,  0,  0,  0, -5,
    -5,  0,  0,  0,  0,  0,  0, -5,
    -5,  0,  0,  0,  0,  0,  0, -5,
    -5,  0,  0,  0,  0,  0,  0, -5,
    0,  0,  0,  5,  5,  0,  0,  0,
];

pub const PSQT_QUEENS: [i32; 64] = [
    -20, -10, -10, -5, -5, -10, -10, -20,
    -10,   0,   0,  0,  0,   0,   0, -10,
    -10,   0,   5,  5,  5,   5,   0, -10,
    -5,    0,   5,  5,  5,   5,   0,  -5,
    0,     0,   5,  5,  5,   5,   0,  -5,
    -10,   5,   5,  5,  5,   5,   0, -10,
    -10,   0,   5,  0,  0,   0,   0, -10,
    -20, -10, -10, -5, -5, -10, -10, -20,
];

pub const PSQT_KINGS: [i32; 64] = [
    -80, -70, -70, -70, -70, -70, -70, -80,
    -60, -60, -60, -60, -60, -60, -60, -60,
    -40, -50, -50, -60, -60, -50, -50, -40,
    -30, -40, -40, -50, -50, -40, -40, -30,
    -20, -30, -30, -40, -40, -30, -30, -20,
    -10, -20, -20, -20, -20, -20, -20, -10,
    20,  20,  -5,  -5,  -5,  -5,  20,  20,
    20,  30,  10,   0,   0,  10,  30,  20,
];

/// The two most recent quiet moves that caused a cutoff at some depth.
#[derive(Clone, Copy, Debug)]
pub struct KillerMoves {
    pub a: Move,
    pub b: Move,
}

impl Default for KillerMoves {
    fn default() -> (r: Self)
        ensures
            r.a == Move(0) && r.b == Move(0),
    {
        Self { a: Move(0), b: Move(0) }
    }
}

impl KillerMoves {
    /// Records `m` as the latest killer, the previous one moving to second place (unless `m`
    /// is already the latest).
    pub fn add(&mut self, m: Move)
        ensures
            *final(self) == (if m.0 != old(self).a.0 { KillerMoves { a: m, b: old(self).a } } else { *old(self) }),
    {
        if m.value() != self.a.value() {
            self.b = self.a;
            self.a = m;
        }
    }

    pub fn matches(&self, m: Move) -> (r: bool)
        ensures
            r == (m.0 == self.a.0 || m.0 == self.b.0),
    {
        m.value() == self.a.value() || m.value() == self.b.value()
    }
}

/// The value of a piece type for ordering captures.
pub open spec fn piece_value_of(t: u8) -> int {
    if t == 1 { 100 } else if t == 2 { 300 } else if t == 3 { 320 } else if t == 4 { 500 }
    else if t == 5 { 900 } else { 0 }
}

/// The table value of piece `p` on square `s`, read from white's side of the board.
pub open spec fn psqt_of(p: Piece, s: int) -> int {
    let s2 = if p.pcolor() == Piece::WHITE { (7 - s / 8) * 8 + s % 8 } else { s };
    let t = p.ptype();
    if t == 1 { PSQT_PAWNS[s2] as int } else if t == 2 { PSQT_KNIGHTS[s2] as int }
    else if t == 3 { PSQT_BISHOPS[s2] as int } else if t == 4 { PSQT_ROOKS[s2] as int }
    else if t == 5 { PSQT_QUEENS[s2] as int } else if t == 6 { PSQT_KINGS[s2] as int } else { 0 }
}

pub struct MoveOrdering {
    pub killers: [KillerMoves; 32],
    pub history: [[[i32; 64]; 64]; 2],
}

/// The history scores are small enough to add to a move's score.
pub open spec fn history_bounded(o: MoveOrdering) -> bool {
    forall|c: int, s: int, t: int| 0 <= c < 2 && 0 <= s < 64 && 0 <= t < 64
        ==> -1_000_000_000 <= #[trigger] o.history[c][s][t] <= 1_000_000_000
}

/// The score by which a move is ordered: the move to try first above all; captures by the
/// value taken less the value of the taker, a winning bias unless a recapture makes it a
/// losing trade; a queen promotion by push; for other pieces than pawns and kings the gain in
/// table value, less a penalty on attacked squares; and for quiet moves the killer bias and the
/// history score.
pub open spec fn move_score(o: MoveOrdering, first: Move, m: Move, b: Board, opp: u64, opp_pawn: u64,
    depth: u8, q: bool) -> int
{
    if m == first {
        FIRST_MOVE_SCORE as int
    } else {
        let s = m.start_sq();
        let t = m.target_sq();
        let mp = b.square[s];
        let mt = mp.ptype();
        let ct = b.square[t].ptype();
        let cap = ct != 0;
        let pv = piece_value_of(mt);
        let c1 = if cap {
            let diff = piece_value_of(ct) - pv;
            if bit(opp | opp_pawn, t) {
                (if diff >= 0 { WINNING_CAPTURE_BIAS as int } else { LOSING_CAPTURE_BIAS as int }) + diff
            } else {
                WINNING_CAPTURE_BIAS + diff
            }
        } else {
            0
        };
        let c2 = if mt == Piece::PAWN {
            if m.flag() == 3 && !cap { PROMOTION_BIAS as int } else { 0 }
        } else if mt != Piece::KING {
            psqt_of(mp, t) - psqt_of(mp, s) - (if bit(opp_pawn, t) { 50int } else if bit(opp, t) { 25int } else { 0int })
        } else {
            0
        };
        let c3 = if !cap {
            (if !q && depth < 32 && (m.0 == o.killers[depth as int].a.0 || m.0 == o.killers[depth as int].b.0) {
                KILLER_BIAS as int
            } else {
                0
            }) + o.history[b.move_color_idx as int][s][t]
        } else {
            0
        };
        c1 + c2 + c3
    }
}

impl MoveOrdering {
    pub fn new() -> (r: Self)
        ensures
            forall|d: int| 0 <= d < 32 ==> #[trigger] r.killers[d].a == Move(0) && r.killers[d].b == Move(0),
            forall|c: int, s: int, t: int| 0 <= c < 2 && 0 <= s < 64 && 0 <= t < 64 ==> #[trigger] r.history[c][s][t] == 0,
            history_bounded(r),
    {
        let killers = [KillerMoves { a: Move(0), b: Move(0) }; 32];
        let history = [[[0i32; 64]; 64]; 2];
        proof {
            assert forall|d: int| 0 <= d < 32 implies #[trigger] killers[d].a == Move(0) && killers[d].b == Move(0) by {
                assert(killers@[d] == KillerMoves { a: Move(0), b: Move(0) });
            }
            assert forall|c: int, s: int, t: int| 0 <= c < 2 && 0 <= s < 64 && 0 <= t < 64 implies #[trigger] history[c][s][t] == 0 by {
                assert(history@[c]@[s]@[t] == 0i32);
            }
        }
        Self { killers, history }
    }

    /// Adds `v` to the history score of the move from `s` to `t` for side `c`; the score
    /// stops at the bound of `history_bounded`.
    pub fn add_history(&mut self, c: usize, s: usize, t: usize, v: i32)
        requires
            history_bounded(*old(self)),
            c < 2,
            s < 64,
            t < 64,
            0 <= v <= 65_025,
        ensures
            history_bounded(*final(self)),
            final(self).killers == old(self).killers,
            forall|c2: int, s2: int, t2: int| 0 <= c2 < 2 && 0 <= s2 < 64 && 0 <= t2 < 64 ==>
                #[trigger] final(self).history[c2][s2][t2] == (if c2 == c && s2 == s && t2 == t {
                    if old(self).history[c2][s2][t2] + v > 1_000_000_000 { 1_000_000_000int } else { old(self).history[c2][s2][t2] + v }
                } else {
                    old(self).history[c2][s2][t2] as int
                }),
    {
        let old_v = self.history[c][s][t];
        proof { assert(-1_000_000_000 <= old_v <= 1_000_000_000); }
        let nv = if old_v + v > 1_000_000_000 { 1_000_000_000 } else { old_v + v };
        let mut row = self.history[c][s];
        row[t] = nv;
        let mut plane = self.history[c];
        plane[s] = row;
        self.history[c] = plane;
    }

    /// Records `m` as a killer move at `depth`.
    pub fn add_killer(&mut self, depth: usize, m: Move)
        requires
            depth < 32,
        ensures
            final(self).history == old(self).history,
            forall|d: int| 0 <= d < 32 && d != depth ==> #[trigger] final(self).killers[d] == old(self).killers[d],
            final(self).killers[depth as int] == (if m.0 != old(self).killers[depth as int].a.0 {
                KillerMoves { a: m, b: old(self).killers[depth as int].a }
            } else {
                old(self).killers[depth as int]
            }),
    {
        let mut k = self.killers[depth];
        k.add(m);
        self.killers[depth] = k;
    }

    /// The value of a piece type for ordering captures.
    pub fn piece_value_score(ptype: u8) -> (r: i32)
        ensures
            r == piece_value_of(ptype),
    {
        match ptype {
            1 => 100,
            2 => 300,
            3 => 320,
            4 => 500,
            5 => 900,
            _ => 0,
        }
    }

    fn psqt_score(piece: Piece, square: usize) -> (r: i32)
        requires
            square < 64,
        ensures
            r == psqt_of(piece, square as int),
    {
        let s = if piece.color() == Piece::WHITE { (7 - square / 8) * 8 + square % 8 } else { square };
        match piece.piece_type() {
            1 => PSQT_PAWNS[s],
            2 => PSQT_KNIGHTS[s],
            3 => PSQT_BISHOPS[s],
            4 => PSQT_ROOKS[s],
            5 => PSQT_QUEENS[s],
            6 => PSQT_KINGS[s],
            _ => 0,
        }
    }
}

/// Every ordering table value lies within `-100..=100`.
pub proof fn lemma_psqt_tables_bound(s: int)
    requires
        0 <= s < 64,
    ensures
        -100 <= PSQT_PAWNS[s] <= 100,
        -100 <= PSQT_KNIGHTS[s] <= 100,
        -100 <= PSQT_BISHOPS[s] <= 100,
        -100 <= PSQT_ROOKS[s] <= 100,
        -100 <= PSQT_QUEENS[s] <= 100,
        -100 <= PSQT_KINGS[s] <= 100,
{
    broadcast use vstd::array::group_array_axioms;
    assert(-100 <= PSQT_PAWNS[s] <= 100);
    assert(-100 <= PSQT_KNIGHTS[s] <= 100);
    assert(-100 <= PSQT_BISHOPS[s] <= 100);
    assert(-100 <= PSQT_ROOKS[s] <= 100);
    assert(-100 <= PSQT_QUEENS[s] <= 100);
    assert(-100 <= PSQT_KINGS[s] <= 100);
}

/// The ordering tables of knights, bishops, rooks and queens stay within `-50..=20`.
proof fn lemma_officer_tables_bound(s: int)
    requires
        0 <= s < 64,
    ensures
        -50 <= PSQT_KNIGHTS[s] <= 20,
        -20 <= PSQT_BISHOPS[s] <= 10,
        -5 <= PSQT_ROOKS[s] <= 10,
        -20 <= PSQT_QUEENS[s] <= 5,
{
    broadcast use vstd::array::group_array_axioms;
    assert(-50 <= PSQT_KNIGHTS[s] <= 20);
    assert(-20 <= PSQT_BISHOPS[s] <= 10);
    assert(-5 <= PSQT_ROOKS[s] <= 10);
    assert(-20 <= PSQT_QUEENS[s] <= 5);
}

/// How much a taker is worth when ordering captures: pawn, then knight and bishop, then rook,
/// then queen.
pub open spec fn taker_rank(t: u8) -> int {
    if t == Piece::PAWN { 0 } else if t == Piece::KNIGHT || t == Piece::BISHOP { 1 }
    else if t == Piece::ROOK { 2 } else if t == Piece::QUEEN { 3 } else { -1 }
}

/// Captures are tried cheapest taker first: of two captures of the same piece on a square the
/// enemy does not attack, neither of them the move to try first, the one by the less valuable
/// piece (pawn, then knight or bishop, then rook, then queen) scores higher.
pub proof fn lemma_cheaper_taker_first(o: MoveOrdering, first: Move, m1: Move, m2: Move, b: Board, opp: u64,
    opp_pawn: u64, depth: u8, q: bool)
    requires
        m1 != first,
        m2 != first,
        m1.target_sq() == m2.target_sq(),
        b.square[m1.target_sq()].ptype() != 0,
        !bit(opp | opp_pawn, m1.target_sq()),
        0 <= taker_rank(b.square[m1.start_sq()].ptype()) < taker_rank(b.square[m2.start_sq()].ptype()),
    ensures
        move_score(o, first, m1, b, opp, opp_pawn, depth, q) > move_score(o, first, m2, b, opp, opp_pawn, depth, q),
{
    crate::board::moves::lemma_move_parts(m1);
    crate::board::moves::lemma_move_parts(m2);
    let t = m1.target_sq();
    let tt = t as u64;
    assert(!bit(opp_pawn, t) && !bit(opp, t)) by {
        assert(((opp | opp_pawn) >> tt) & 1u64 != 1u64 ==> (opp >> tt) & 1u64 != 1u64 && (opp_pawn >> tt) & 1u64 != 1u64)
            by (bit_vector);
    }
    let s1 = m1.start_sq();
    let s2 = m2.start_sq();
    let p1 = b.square[s1];
    let p2 = b.square[s2];
    let w1 = if p1.pcolor() == Piece::WHITE { (7 - s1 / 8) * 8 + s1 % 8 } else { s1 };
    let x1 = if p1.pcolor() == Piece::WHITE { (7 - t / 8) * 8 + t % 8 } else { t };
    let w2 = if p2.pcolor() == Piece::WHITE { (7 - s2 / 8) * 8 + s2 % 8 } else { s2 };
    let x2 = if p2.pcolor() == Piece::WHITE { (7 - t / 8) * 8 + t % 8 } else { t };
    lemma_officer_tables_bound(w1);
    lemma_officer_tables_bound(x1);
    lemma_officer_tables_bound(w2);
    lemma_officer_tables_bound(x2);
}

/// The move to try first outranks every other move while the history scores stay below
/// fifty million.
pub proof fn lemma_first_move_first(o: MoveOrdering, first: Move, m: Move, b: Board, opp: u64, opp_pawn: u64,
    depth: u8, q: bool)
    requires
        m != first,
        b.move_color_idx < 2,
        forall|c: int, s: int, t: int| 0 <= c < 2 && 0 <= s < 64 && 0 <= t < 64
            ==> -50_000_000 <= #[trigger] o.history[c][s][t] <= 50_000_000,
    ensures
        move_score(o, first, m, b, opp, opp_pawn, depth, q) < move_score(o, first, first, b, opp, opp_pawn, depth, q),
{
    crate::board::moves::lemma_move_parts(m);
    let s = m.start_sq();
    let t = m.target_sq();
    let p = b.square[s];
    let w = if p.pcolor() == Piece::WHITE { (7 - s / 8) * 8 + s % 8 } else { s };
    let x = if p.pcolor() == Piece::WHITE { (7 - t / 8) * 8 + t % 8 } else { t };
    lemma_psqt_tables_bound(w);
    lemma_psqt_tables_bound(x);
    assert(-50_000_000 <= o.history[b.move_color_idx as int][s][t] <= 50_000_000);
}

/// The moves of `r` are in order of non-increasing score.
pub open spec fn sorted_desc(r: Seq<Move>, score: spec_fn(Move) -> int) -> bool {
    forall|i: int, j: int| 0 <= i < j < r.len() ==> score(r[i]) >= score(r[j])
}

impl MoveOrdering {
    /// The ordering score of one move; see `move_score`.
    #[verifier::rlimit(100)]
    pub fn score_move(&self, firstmove: Move, m: Move, board: &Board, opp_attacks: BitBoard,
        opp_pawn_attacks: BitBoard, depth: u8, in_q_search: bool) -> (r: i32)
        requires
            history_bounded(*self),
            board.move_color_idx < 2,
        ensures
            r == move_score(*self, firstmove, m, *board, opp_attacks.0, opp_pawn_attacks.0, depth, in_q_search),
    {
        if m == firstmove {
            return FIRST_MOVE_SCORE;
        }
        let mut score: i32 = 0;
        let start = m.start_idx() as usize;
        let target = m.target_idx() as usize;
        let move_piece = board.square[start];
        let move_ptype = move_piece.piece_type();
        let capture_ptype = board.square[target].piece_type();
        let is_capture = capture_ptype != Piece::NONE;
        let flag = m.move_flag();
        let piece_value = Self::piece_value_score(move_ptype);
        proof {
            lemma_psqt_tables_bound(start as int);
            lemma_psqt_tables_bound(target as int);
            lemma_psqt_tables_bound((7 - start as int / 8) * 8 + start as int % 8);
            lemma_psqt_tables_bound((7 - target as int / 8) * 8 + target as int % 8);
        }

        if is_capture {
            let material_diff = Self::piece_value_score(capture_ptype) - piece_value;
            let opp_can_recapture = opp_attacks.or(opp_pawn_attacks).contains_square(target as i8);
            if opp_can_recapture {
                score = score + if material_diff >= 0 { WINNING_CAPTURE_BIAS } else { LOSING_CAPTURE_BIAS } + material_diff;
            } else {
                score = score + WINNING_CAPTURE_BIAS + material_diff;
            }
        }
        let ghost c1 = score;

        if move_ptype == Piece::PAWN {
            if flag == Move::QUEEN_PROMOTION && !is_capture {
                score = score + PROMOTION_BIAS;
            }
        } else if move_ptype != Piece::KING {
            let to_score = Self::psqt_score(move_piece, target);
            let from_score = Self::psqt_score(move_piece, start);
            score = score + (to_score - from_score);
            if opp_pawn_attacks.contains_square(target as i8) {
                score = score - 50;
            } else if opp_attacks.contains_square(target as i8) {
                score = score - 25;
            }
        }

        if !is_capture {
            let is_killer = !in_q_search && depth < 32 && self.killers[depth as usize].matches(m);
            score = score + if is_killer { KILLER_BIAS } else { NORMAL_BIAS };
            score = score + self.history[board.move_color_idx][start][target];
        }
        score
    }

    /// The moves in order of non-increasing score (moves of equal score keep their order).
    pub fn order(&self, firstmove: Move, moves: &[Move], board: &Board, opp_attacks: BitBoard,
        opp_pawn_attacks: BitBoard, depth: u8, in_q_search: bool) -> (r: Vec<Move>)
        requires
            history_bounded(*self),
            board.move_color_idx < 2,
        ensures
            r@.to_multiset() == moves@.to_multiset(),
            sorted_desc(r@, |m: Move| move_score(*self, firstmove, m, *board, opp_attacks.0, opp_pawn_attacks.0, depth, in_q_search)),
    {
        let ghost sc = |m: Move| move_score(*self, firstmove, m, *board, opp_attacks.0, opp_pawn_attacks.0, depth, in_q_search);
        let mut out: Vec<Move> = Vec::new();
        let mut out_scores: Vec<i32> = Vec::new();
        let mut i: usize = 0;
        proof {
            assert(out@ =~= moves@.subrange(0, 0));
        }
        while i < moves.len()
            invariant
                i <= moves@.len(),
                history_bounded(*self),
                board.move_color_idx < 2,
                sc == (|m: Move| move_score(*self, firstmove, m, *board, opp_attacks.0, opp_pawn_attacks.0, depth, in_q_search)),
                out@.len() == out_scores@.len(),
                forall|k: int| 0 <= k < out@.len() ==> out_scores@[k] == sc(#[trigger] out@[k]),
                sorted_desc(out@, sc),
                out@.to_multiset() == moves@.subrange(0, i as int).to_multiset(),
            decreases moves@.len() - i,
        {
            let m = moves[i];
            let s = self.score_move(firstmove, m, board, opp_attacks, opp_pawn_attacks, depth, in_q_search);
            let mut pos: usize = 0;
            while pos < out.len() && out_scores[pos] >= s
                invariant
                    pos <= out@.len(),
                    out@.len() == out_scores@.len(),
                    forall|k: int| 0 <= k < pos ==> out_scores@[k] >= s,
                decreases out@.len() - pos,
            {
                pos += 1;
            }
            let ghost before = out@;
            let ghost before_scores = out_scores@;
            out.insert(pos, m);
            out_scores.insert(pos, s);
            proof {
                assert(sc(m) == s as int);
                assert forall|k: int| 0 <= k < out@.len() implies out_scores@[k] == sc(#[trigger] out@[k]) by {
                    if k < pos {
                        assert(out@[k] == before[k]);
                    } else if k > pos {
                        assert(out@[k] == before[k - 1]);
                    }
                }
                assert forall|a: int, c: int| 0 <= a < c < out@.len() implies sc(out@[a]) >= sc(out@[c]) by {
                    assert(out_scores@[a] == sc(out@[a]));
                    assert(out_scores@[c] == sc(out@[c]));
                    if a < pos && c > pos {
                        assert(before_scores[a] >= s);
                        assert(before_scores[a] == sc(before[a]));
                        assert(before_scores[c - 1] == sc(before[c - 1]));
                    } else if a == pos {
                        if pos < before.len() {
                            assert(!(before_scores[pos as int] >= s));
                            if c - 1 > pos {
                                assert(sc(before[pos as int]) >= sc(before[c - 1]));
                            }
                            assert(before_scores[pos as int] == sc(before[pos as int]));
                        }
                    } else if c == pos {
                        assert(before_scores[a] >= s);
                    } else if a < pos {
                        assert(sc(before[a]) >= sc(before[c]));
                    } else {
                        assert(sc(before[a - 1]) >= sc(before[c - 1]));
                    }
                }
                vstd::seq_lib::to_multiset_insert(before, pos as int, m);
                assert(moves@.subrange(0, i + 1) =~= moves@.subrange(0, i as int).push(m));
                vstd::seq_lib::to_multiset_build(moves@.subrange(0, i as int), m);
                broadcast use vstd::multiset::group_multiset_axioms;
            }
            i += 1;
        }
        proof {
            assert(moves@.subrange(0, moves@.len() as int) =~= moves@);
        }
        out
    }
}

} // verus!
