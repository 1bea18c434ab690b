//! The alpha-beta search: iterative deepening with aspiration windows, a transposition table,
//! late move reductions, check extensions and a quiescence search over captures.
use vstd::prelude::*;
use std::time::{Duration, Instant};
use crate::board::Board;
use crate::board::moves::Move;
use crate::board::zobrist::Zobrist;
use crate::board::make::{can_make, made, unmade, lemma_made_can_unmake, lemma_unmake_undoes_make};
use crate::color::{White, Black};
use crate::coord::Coord;
use crate::eval::{Evaluation, evaluate_of};
use crate::move_gen::{MoveGenerator, PromotionMode, gen_ready, init_matches, all_moves_spec, attack_spec};
use crate::board::check::in_check_of;
use crate::piece::Piece;
use crate::search::IMMEDIATE_MATE_SCORE;
use crate::search::diagnostics::SearchDiagnostics;
use crate::search::options::SearchOptions;
use crate::search::ordering::{MoveOrdering, history_bounded};
use crate::search::repetition::{RepetitionTable, scanned};
use crate::search::transpositions::{TranspositionTable, TranspositionNodeType, TranspositionEntry, lookup_of};

verus! {

#[verifier::external_type_specification]
#[verifier::external_body]
pub struct ExInstant(Instant);

/// `Instant::now`, the time at the call; nothing is stated of it.
#[verifier::external_body]
fn now() -> (r: Instant) {
    Instant::now()
}

/// `Instant::elapsed`: the time since `start`; nothing is stated of it, as it depends on the
/// clock.
#[verifier::external_body]
fn elapsed(start: &Instant) -> (r: Duration) {
    start.elapsed()
}

/// `Duration::as_millis`: the whole milliseconds of `d`; nothing is stated of it.
#[verifier::external_body]
fn as_millis(d: &Duration) -> (r: u128) {
    d.as_millis()
}

/// Above any score a search can reach.
pub const POSITIVE_INFINITY: i32 = 2147483647;
/// The most extensions along one line.
pub const MAX_EXTENSIONS: u8 = 16;
pub const ASPIRATION_WINDOW_SIZE: i32 = 40;
/// The longest chain of captures the quiescence search follows: a capture removes a piece and a
/// promotion a pawn, so no chain on a board of 64 squares reaches it.
pub const QUIESCENCE_LIMIT: u16 = 200;
/// Slots of the transposition table (64 MB).
pub const TABLE_SIZE: usize = 4194304;

/// A board the search can work on: consistent, with its recorded state last in the history,
/// no pawn on the first or last rank, and an en passant file in range.
#[verifier::opaque]
pub open spec fn node_ready(b: Board) -> bool {
    &&& gen_ready(b)
    &&& b.count_consistent()
    &&& b.history_consistent()
    &&& b.pawns_inside()
    &&& 0 <= b.current_state.en_passant_file <= 8
}

/// `b` is `b0` again: every field but the cached check answer.
#[verifier::opaque]
pub open spec fn restored(b0: Board, b: Board) -> bool {
    &&& b.square == b0.square
    &&& b.king_square == b0.king_square
    &&& b.piece_bitboards == b0.piece_bitboards
    &&& b.color_bitboards == b0.color_bitboards
    &&& b.all_pieces_bitboard == b0.all_pieces_bitboard
    &&& b.friendly_orthogonal_sliders == b0.friendly_orthogonal_sliders
    &&& b.friendly_diagonal_sliders == b0.friendly_diagonal_sliders
    &&& b.enemy_orthogonal_sliders == b0.enemy_orthogonal_sliders
    &&& b.enemy_diagonal_sliders == b0.enemy_diagonal_sliders
    &&& b.total_pieces_no_pawns_kings == b0.total_pieces_no_pawns_kings
    &&& b.game_state_history@ == b0.game_state_history@
    &&& b.white_to_move == b0.white_to_move
    &&& b.move_color == b0.move_color
    &&& b.opponent_color == b0.opponent_color
    &&& b.move_color_idx == b0.move_color_idx
    &&& b.opponent_color_idx == b0.opponent_color_idx
    &&& b.repeat_position_history@ == b0.repeat_position_history@
    &&& b.plycount == b0.plycount
    &&& b.current_state == b0.current_state
    &&& b.move_log@ == b0.move_log@
}

/// A move the search makes: `can_make`, and a king leaves the square recorded for it.
pub open spec fn playable(b: Board, m: Move) -> bool {
    &&& can_make(b, m)
    &&& b.square[m.start_sq()].ptype() == Piece::KING ==> b.king_square[b.move_color_idx as int] == Coord::of_sq(m.start_sq())
}

/// A ready board stays ready when restored.
proof fn lemma_ready_restored(b0: Board, b: Board)
    requires
        node_ready(b0),
        restored(b0, b),
    ensures
        node_ready(b),
{
    reveal(node_ready);
    reveal(restored);
}

/// What a ready board offers.
pub proof fn lemma_ready_facts(b: Board)
    requires
        node_ready(b),
    ensures
        gen_ready(b),
        b.wf(),
        b.sides_consistent(),
        b.count_consistent(),
        b.history_consistent(),
        b.pawns_inside(),
        b.king_squares_valid(),
        0 <= b.current_state.en_passant_file <= 8,
        b.move_color_idx < 2,
        b.opponent_color == 8 || b.opponent_color == 16,
{
    reveal(node_ready);
}

/// A board is restored to itself, and restoring is transitive.
pub proof fn lemma_restored_chain(a: Board, b: Board, c: Board)
    ensures
        restored(a, a),
        restored(a, b) && restored(b, c) ==> restored(a, c),
{
    reveal(restored);
}

/// After a move the board is ready again, given that no pawn reached the first or last rank.
proof fn lemma_ready_after_make(b: Board, m: Move, z: Zobrist, b1: Board)
    requires
        node_ready(b),
        can_make(b, m),
        made(b, m, true, z, b1),
        b1.pawns_inside(),
    ensures
        node_ready(b1),
{
    reveal(node_ready);
    let t = m.target_sq();
    crate::board::moves::lemma_move_parts(m);
    assert(Coord::of_sq(t).valid());
}

/// A board restored after a move is the board the move made.
proof fn lemma_made_restored(b: Board, m: Move, z: Zobrist, b1: Board, b1c: Board)
    requires
        made(b, m, true, z, b1),
        restored(b1, b1c),
        b1c.cached_in_check_val.is_none(),
    ensures
        made(b, m, true, z, b1c),
{
    reveal(restored);
    assert(crate::board::zobrist::position_key(z, b1c) == crate::board::zobrist::position_key(z, b1));
}

/// Taking back a move made and searched gives back the board.
proof fn lemma_back(b: Board, m: Move, z: Zobrist, b1c: Board, b2: Board)
    requires
        node_ready(b),
        playable(b, m),
        made(b, m, true, z, b1c),
        unmade(b1c, m, true, b2),
    ensures
        restored(b, b2),
        b2.cached_in_check_val.is_none(),
{
    reveal(restored);
    reveal(node_ready);
    lemma_unmake_undoes_make(b, m, true, z, b1c, b2);
    assert(b2.square =~= b.square);
    assert(b2.king_square =~= b.king_square);
    assert(b2.piece_bitboards =~= b.piece_bitboards);
    assert(b2.color_bitboards =~= b.color_bitboards);
}

/// Makes `m`, and takes it back at once where a pawn was left on the first or last rank;
/// returns whether the move stands.
fn make_checked(board: &mut Board, m: Move, zobrist: &Zobrist) -> (r: bool)
    requires
        node_ready(*old(board)),
        playable(*old(board), m),
    ensures
        r ==> made(*old(board), m, true, *zobrist, *final(board)) && node_ready(*final(board)),
        (forall|b1: Board| #[trigger] made(*old(board), m, true, *zobrist, b1) ==> b1.pawns_inside()) ==> r,
        !r ==> restored(*old(board), *final(board)) && final(board).cached_in_check_val.is_none(),
{
    let ghost b = *board;
    proof { lemma_ready_facts(b); }
    board.make_move(m, true, zobrist);
    if board.pawns_inside_now() {
        proof { lemma_ready_after_make(b, m, *zobrist, *board); }
        true
    } else {
        let ghost b1 = *board;
        proof { lemma_made_can_unmake(b, m, true, *zobrist, b1); }
        board.unmake_move(m, true);
        proof { lemma_back(b, m, *zobrist, b1, *board); }
        false
    }
}

/// Takes back `m` after its search.
fn unmake_checked(board: &mut Board, m: Move, Ghost(b): Ghost<Board>, Ghost(b1): Ghost<Board>, zobrist: &Zobrist)
    requires
        node_ready(b),
        playable(b, m),
        made(b, m, true, *zobrist, b1),
        restored(b1, *old(board)),
        old(board).cached_in_check_val.is_none(),
    ensures
        restored(b, *final(board)),
        final(board).cached_in_check_val.is_none(),
{
    proof {
        lemma_ready_facts(b);
        lemma_made_restored(b, m, *zobrist, b1, *board);
        lemma_made_can_unmake(b, m, true, *zobrist, *board);
    }
    let ghost b1c = *board;
    board.unmake_move(m, true);
    proof { lemma_back(b, m, *zobrist, b1c, *board); }
}

/// Whether the search may make `m` on `board`.
fn playable_now(board: &Board, m: Move) -> (r: bool)
    requires
        node_ready(*board),
    ensures
        r == playable(*board, m),
{
    proof { lemma_ready_facts(*board); }
    board.can_make_move(m) && (board.square[m.start_idx() as usize].piece_type() != Piece::KING
        || board.king_square[board.move_color_idx] == m.start())
}

/// The static evaluation of `b` for the side to move (the lowest `i32` taken as the one
/// above it).
pub open spec fn stand_pat(b: Board) -> int {
    let e = evaluate_of(b, true);
    let e1: int = if e == i32::MIN { -POSITIVE_INFINITY as int } else { e };
    if b.white_to_move { e1 } else { -e1 }
}

/// The static evaluation for the side to move (the lowest value is taken as one above it).
fn static_eval(board: &Board) -> (r: i32)
    requires
        node_ready(*board),
    ensures
        -POSITIVE_INFINITY <= r,
        r == stand_pat(*board),
{
    proof { lemma_ready_facts(*board); }
    let e0 = {
        let mut ev = Evaluation::new(board);
        ev.evaluate::<White, Black>()
    };
    let e1 = if e0 == i32::MIN { -POSITIVE_INFINITY } else { e0 };
    if board.white_to_move { e1 } else { -e1 }
}

/// The moves of the side to move (captures only for `captures_only`), in the order to search
/// them, `first` first.
fn ordered_moves(board: &Board, ordering: &MoveOrdering, movegen: &mut MoveGenerator, first: Move, depth: u8,
    captures_only: bool) -> (r: Vec<Move>)
    requires
        node_ready(*board),
        history_bounded(*ordering),
    ensures
        final(movegen).promotions_to_gen == old(movegen).promotions_to_gen,
        init_matches(*final(movegen), *board, !captures_only),
        r@.to_multiset() == final(movegen).moves@.to_multiset(),
        r@.len() == final(movegen).moves@.len(),
        final(movegen).moves@ == all_moves_spec(*final(movegen), *board),
{
    proof { lemma_ready_facts(*board); }
    let moves = movegen.generate_moves(board, captures_only);
    let r = ordering.order(first, moves.as_slice(), board, movegen.enemy_attack_map, movegen.enemy_pawn_attack_map,
        depth, captures_only);
    proof {
        vstd::seq_lib::to_multiset_len(r@);
        vstd::seq_lib::to_multiset_len(moves@);
    }
    r
}

#[verifier::rlimit(50)]
/// The quiescence search: the static evaluation for the side to move, raised by captures,
/// within the window from `alpha` to `beta`; `fuel` bounds the chain of captures.
fn quiescence_search(alpha: i32, beta: i32, board: &mut Board, ordering: &MoveOrdering, zobrist: &Zobrist,
    movegen: &mut MoveGenerator, fuel: u16) -> (r: i32)
    requires
        node_ready(*old(board)),
        history_bounded(*ordering),
        -POSITIVE_INFINITY <= alpha,
        -POSITIVE_INFINITY <= beta,
    ensures
        restored(*old(board), *final(board)),
        old(board).cached_in_check_val.is_none() ==> final(board).cached_in_check_val.is_none(),
        final(movegen).promotions_to_gen == old(movegen).promotions_to_gen,
        -POSITIVE_INFINITY <= r,
        alpha <= beta ==> alpha <= r <= beta,
        alpha <= beta && stand_pat(*old(board)) >= beta ==> r == beta,
        alpha <= beta ==> r >= stand_pat(*old(board)) || r == beta,
        alpha <= beta && stand_pat(*old(board)) < beta
            && (forall|g: MoveGenerator| init_matches(g, *old(board), false)
                && g.promotions_to_gen == old(movegen).promotions_to_gen ==> #[trigger] all_moves_spec(g, *old(board)).len() == 0)
            ==> r == (if stand_pat(*old(board)) > alpha { stand_pat(*old(board)) } else { alpha as int }),
    decreases fuel,
{
    let ghost b0 = *board;
    proof {
        lemma_ready_facts(b0);
        lemma_restored_chain(b0, b0, b0);
    }
    let mut alpha = alpha;
    let mut eval = static_eval(board);
    if eval >= beta {
        return beta;
    }
    if eval > alpha {
        alpha = eval;
    }
    if fuel == 0 {
        return alpha;
    }
    let ghost alpha0 = alpha;
    let ordered = ordered_moves(board, ordering, movegen, Move::null(), 0, true);
    let ghost nocap = forall|g: MoveGenerator| init_matches(g, b0, false)
        && g.promotions_to_gen == old(movegen).promotions_to_gen ==> #[trigger] all_moves_spec(g, b0).len() == 0;
    proof {
        vstd::seq_lib::to_multiset_len(ordered@);
        vstd::seq_lib::to_multiset_len(movegen.moves@);
        if nocap {
            assert(all_moves_spec(*movegen, b0).len() == 0);
        }
    }
    let mut i: usize = 0;
    while i < ordered.len()
        invariant
            node_ready(b0),
            restored(b0, *board),
            b0.cached_in_check_val.is_none() ==> board.cached_in_check_val.is_none(),
            history_bounded(*ordering),
            movegen.promotions_to_gen == old(movegen).promotions_to_gen,
            -POSITIVE_INFINITY <= alpha,
            -POSITIVE_INFINITY <= beta,
            alpha >= alpha0,
            alpha0 >= stand_pat(b0),
            nocap ==> ordered@.len() == 0 && alpha == alpha0,
            nocap == (forall|g: MoveGenerator| init_matches(g, b0, false)
                && g.promotions_to_gen == old(movegen).promotions_to_gen ==> #[trigger] all_moves_spec(g, b0).len() == 0),
            alpha0 < beta ==> alpha < beta,
            alpha0 <= beta ==> alpha <= beta,
            b0 == *old(board),
            fuel > 0,
        decreases ordered@.len() - i,
    {
        let m = ordered[i];
        let ghost b = *board;
        proof { lemma_ready_restored(b0, b); }
        if playable_now(board, m) {
            if make_checked(board, m, zobrist) {
                let ghost b1 = *board;
                let v = quiescence_search(-beta, -alpha, board, ordering, zobrist, movegen, fuel - 1);
                unmake_checked(board, m, Ghost(b), Ghost(b1), zobrist);
                proof { lemma_restored_chain(b0, b, *board); }
                eval = -v;
                if eval > alpha {
                    alpha = eval;
                    if eval >= beta {
                        return beta;
                    }
                }
            } else {
                proof { lemma_restored_chain(b0, b, *board); }
            }
        }
        i += 1;
    }
    alpha
}

/// The transposition table keeps scores it can give back: none is the lowest `i32`.
pub open spec fn tt_ok(t: TranspositionTable<TABLE_SIZE>) -> bool {
    &&& t.wf()
    &&& forall|i: int| 0 <= i < TABLE_SIZE ==> #[trigger] t.entries@[i].eval > i32::MIN
}

/// Whether the side to move is in check, as the move generator finds it.
pub open spec fn gen_in_check(b: Board) -> bool {
    attack_spec(b, b.move_color, b.opponent_color, b.king_square[b.move_color_idx as int].sq(),
        b.move_color == Piece::WHITE).0
}

/// Whether the key `k` was recorded in `t` since the last reset, before the latest position.
pub open spec fn repeated(t: RepetitionTable, k: u64) -> bool {
    exists|i: int| #[trigger] scanned(t, i) && t.hashes[i] == k
}

/// `t1` is `t0` with `key` recorded as the next position (`reset` after a pawn move or a
/// capture), as `RepetitionTable::push` records it.
pub open spec fn pushed(t0: RepetitionTable, key: u64, reset: bool, t1: RepetitionTable) -> bool {
    &&& t1.count == t0.count + 1
    &&& t1.hashes@ == t0.hashes@.update(t0.count as int, key)
    &&& t1.start_indices@ == t0.start_indices@.update(t0.count + 1,
        if reset { t0.count as u32 } else { t0.start_indices[t0.count as int] })
}

/// On `b` the only move (for generators making promotions `promos`) is `m`, which the search
/// makes, and it mates: after it the other side has no move and is in check (by the board's
/// test and the generator's), no pawn stands on a back rank, and the position is neither drawn
/// by the fifty-move count nor a repetition once `b`'s key is recorded in `t0` (`reset` after
/// a pawn move or a capture).
pub open spec fn only_move_mates(b: Board, m: Move, z: Zobrist, promos: PromotionMode, t0: RepetitionTable,
    reset: bool) -> bool {
    &&& forall|g: MoveGenerator| init_matches(g, b, true) && g.promotions_to_gen == promos
        ==> #[trigger] all_moves_spec(g, b) == seq![m]
    &&& playable(b, m)
    &&& forall|b1: Board| #[trigger] made(b, m, true, z, b1) ==> {
        &&& b1.pawns_inside()
        &&& b1.current_state.fifty_move_counter < 100
        &&& in_check_of(b1)
        &&& gen_in_check(b1)
        &&& (forall|t1: RepetitionTable| pushed(t0, b.current_state.zobrist_key, reset, t1)
            ==> !repeated(t1, b1.current_state.zobrist_key))
        &&& (forall|g: MoveGenerator| init_matches(g, b1, true) && g.promotions_to_gen == promos
            ==> #[trigger] all_moves_spec(g, b1).len() == 0)
    }
}

/// A list holding the same moves as a list of one move is that list.
proof fn lemma_same_as_one(s: Seq<Move>, m: Move)
    requires
        s.to_multiset() == seq![m].to_multiset(),
    ensures
        s == seq![m],
{
    vstd::seq_lib::to_multiset_len(s);
    vstd::seq_lib::to_multiset_len(seq![m]);
    assert(s.contains(s[0]));
    vstd::seq_lib::to_multiset_contains(s, s[0]);
    vstd::seq_lib::to_multiset_contains(seq![m], s[0]);
    assert(s =~= seq![m]);
}

/// What the transposition table settles for a node: its lookup with the window narrowed by
/// the mate distance.
pub open spec fn table_settles(t: TranspositionTable<TABLE_SIZE>, key: u64, depth: u8, dr: u8, alpha: i32, beta: i32) -> bool {
    let a = if alpha > -IMMEDIATE_MATE_SCORE + depth { alpha } else { (-IMMEDIATE_MATE_SCORE + depth) as i32 };
    let b = if beta < IMMEDIATE_MATE_SCORE - depth { beta } else { (IMMEDIATE_MATE_SCORE - depth) as i32 };
    t.enabled && lookup_of(t.entries@[TranspositionTable::<TABLE_SIZE>::slot(key)], key, dr, depth, a, b) is Some
}

/// `m` is the move of one of the table entries `hits`.
pub open spec fn table_gave(hits: Set<TranspositionEntry>, m: Move) -> bool {
    exists|e: TranspositionEntry| #[trigger] hits.contains(e) && e.m == m
}

/// The search's state between calls.
pub struct Searcher {
    pub diagnostics: SearchDiagnostics,
    pub in_search: bool,
    pub transposition_table: TranspositionTable<TABLE_SIZE>,
    pub best_move: Option<Move>,
    pub backup_move: Move,
    pub start_time: Instant,
    pub opts: SearchOptions,
    /// The entries the transposition table gave for the root during the last search.
    pub root_table_hits: Ghost<Set<TranspositionEntry>>,
}

impl Searcher {
    /// A searcher with an empty table and no search started.
    pub fn new() -> (r: Self)
        ensures
            tt_ok(r.transposition_table),
            !r.in_search,
            r.best_move is None,
    {
        let t: TranspositionTable<TABLE_SIZE> = TranspositionTable::new();
        Searcher {
            diagnostics: SearchDiagnostics::default(),
            in_search: false,
            transposition_table: t,
            best_move: None,
            backup_move: Move::null(),
            start_time: now(),
            opts: SearchOptions::default(),
            root_table_hits: Ghost(Set::empty()),
        }
    }

    /// Stores an evaluation whose mate correction stays within `i32`; others are not stored.
    fn store_entry(&mut self, key: u64, depth: u8, ply: u8, eval: i32, t: TranspositionNodeType, m: Move)
        requires
            tt_ok(old(self).transposition_table),
        ensures
            tt_ok(final(self).transposition_table),
            final(self).in_search == old(self).in_search,
            final(self).opts == old(self).opts,
            final(self).best_move == old(self).best_move,
            final(self).root_table_hits == old(self).root_table_hits,
            final(self).backup_move == old(self).backup_move,
            final(self).transposition_table.enabled == old(self).transposition_table.enabled,
    {
        if -(POSITIVE_INFINITY - 255) <= eval && eval <= POSITIVE_INFINITY - 255 {
            let ghost t0 = self.transposition_table;
            self.transposition_table.store(key, depth, ply, eval, t, m);
            proof {
                let t1 = self.transposition_table;
                assert forall|i: int| 0 <= i < TABLE_SIZE implies #[trigger] t1.entries@[i].eval > i32::MIN by {
                    assert(t0.entries@[i].eval > i32::MIN);
                }
            }
        }
    }

    /// Searches the position `depth` plies from the root, `depth_remaining` plies deep (more
    /// with check extensions, fewer with late move reductions), in the window from `alpha_in` to
    /// `beta_in`; returns the score for the side to move. A search out of time returns 0 and
    /// stops the search. A generated move the board cannot make (see `playable`), or one that
    /// leaves a pawn on the first or last rank, is passed over. Of a search that ran to its end
    /// the contract states the mate and stalemate scores, the answer to a window that the mate
    /// distance closes, and the score of a node whose only move mates.
    #[verifier::rlimit(100)]
    fn search(&mut self, depth: u8, depth_remaining: u8, alpha_in: i32, beta_in: i32, n_extensions: u8, board: &mut Board,
        ordering: &mut MoveOrdering, repetition_table: &mut RepetitionTable, prev_move: Move,
        prev_move_was_capture: bool, zobrist: &Zobrist, movegen: &mut MoveGenerator) -> (r: i32)
        requires
            node_ready(*old(board)),
            tt_ok(old(self).transposition_table),
            history_bounded(*old(ordering)),
            1 <= old(repetition_table).count,
            n_extensions <= MAX_EXTENSIONS,
            old(repetition_table).count + depth_remaining + (MAX_EXTENSIONS - n_extensions) < 256,
            depth + depth_remaining + (MAX_EXTENSIONS - n_extensions) < 256,
        ensures
            restored(*old(board), *final(board)),
            old(board).cached_in_check_val.is_none() ==> final(board).cached_in_check_val.is_none(),
            tt_ok(final(self).transposition_table),
            history_bounded(*final(ordering)),
            final(self).in_search ==> final(repetition_table).count == old(repetition_table).count,
            final(repetition_table).count >= old(repetition_table).count,
            final(self).in_search ==> old(self).in_search,
            final(self).opts == old(self).opts,
            final(self).best_move == old(self).best_move,
            final(self).root_table_hits == old(self).root_table_hits,
            final(self).backup_move == old(self).backup_move,
            final(self).transposition_table.enabled == old(self).transposition_table.enabled,
            final(movegen).promotions_to_gen == old(movegen).promotions_to_gen,
            -POSITIVE_INFINITY <= r,
            ({
                let b = *old(board);
                (final(self).in_search && b.current_state.fifty_move_counter < 100
                    && !repeated(*old(repetition_table), b.current_state.zobrist_key)
                    && (if alpha_in > -IMMEDIATE_MATE_SCORE + depth { alpha_in as int } else { -IMMEDIATE_MATE_SCORE + depth })
                        < (if beta_in < IMMEDIATE_MATE_SCORE - depth { beta_in as int } else { IMMEDIATE_MATE_SCORE - depth })
                    && !table_settles(old(self).transposition_table, b.current_state.zobrist_key, depth, depth_remaining, alpha_in, beta_in)
                    && depth_remaining > 0
                    && (forall|g: MoveGenerator| init_matches(g, b, true) && g.promotions_to_gen == old(movegen).promotions_to_gen
                        ==> #[trigger] all_moves_spec(g, b).len() == 0))
                ==> r == (if gen_in_check(b) { -(IMMEDIATE_MATE_SCORE - depth) } else { 0 })
            }),
            ({
                let b = *old(board);
                let a1: int = if alpha_in > -IMMEDIATE_MATE_SCORE + depth { alpha_in as int } else { -IMMEDIATE_MATE_SCORE + depth };
                let b1: int = if beta_in < IMMEDIATE_MATE_SCORE - depth { beta_in as int } else { IMMEDIATE_MATE_SCORE - depth };
                (final(self).in_search && b.current_state.fifty_move_counter < 100
                    && !repeated(*old(repetition_table), b.current_state.zobrist_key) && a1 >= b1)
                ==> r == a1
            }),
            ({
                let b = *old(board);
                let reset = prev_move_was_capture || b.square[prev_move.target_sq()].ptype() == Piece::PAWN;
                (final(self).in_search && !old(self).transposition_table.enabled
                    && b.current_state.fifty_move_counter < 100
                    && !repeated(*old(repetition_table), b.current_state.zobrist_key)
                    && (if alpha_in > -IMMEDIATE_MATE_SCORE + depth { alpha_in as int } else { -IMMEDIATE_MATE_SCORE + depth })
                        < (if beta_in < IMMEDIATE_MATE_SCORE - depth { beta_in as int } else { IMMEDIATE_MATE_SCORE - depth })
                    && depth_remaining > 0 && n_extensions < MAX_EXTENSIONS
                    && exists|m: Move| #[trigger] only_move_mates(b, m, *zobrist, old(movegen).promotions_to_gen,
                        *old(repetition_table), reset))
                ==> r == (if beta_in < IMMEDIATE_MATE_SCORE - depth - 1 { beta_in as int } else { IMMEDIATE_MATE_SCORE - depth - 1 })
            }),
        decreases depth_remaining + (MAX_EXTENSIONS - n_extensions),
    {
        let ghost b0 = *board;
        proof {
            lemma_ready_facts(b0);
            lemma_restored_chain(b0, b0, b0);
        }
        match self.opts.movetime {
            Some(time) => {
                let spent = elapsed(&self.start_time);
                let elapsed = as_millis(&spent);
                if (time as u128) <= elapsed {
                    self.in_search = false;
                    return 0;
                }
            },
            None => {},
        }
        let key = board.current_state.zobrist_key;
        if board.current_state.fifty_move_counter >= 100 || repetition_table.contains(key) {
            return 0;
        }
        let mut alpha = if alpha_in > -IMMEDIATE_MATE_SCORE + depth as i32 { alpha_in } else { -IMMEDIATE_MATE_SCORE + depth as i32 };
        let beta = if beta_in < IMMEDIATE_MATE_SCORE - depth as i32 { beta_in } else { IMMEDIATE_MATE_SCORE - depth as i32 };
        if alpha >= beta {
            return alpha;
        }
        proof {
            assert(self.transposition_table.entries@[TranspositionTable::<TABLE_SIZE>::slot(key)].eval > i32::MIN);
        }
        match self.transposition_table.lookup(key, depth_remaining, depth, alpha, beta) {
            Some(tt_eval) => {
                return tt_eval;
            },
            None => {},
        }
        if depth_remaining == 0 {
            return quiescence_search(alpha, beta, board, ordering, zobrist, movegen, QUIESCENCE_LIMIT);
        }
        let first = self.transposition_table.get_stored_move(key);
        let ordered = ordered_moves(board, ordering, movegen, first, depth, false);
        if ordered.len() == 0 {
            if movegen.in_check() {
                return -(IMMEDIATE_MATE_SCORE - depth as i32);
            } else {
                return 0;
            }
        }
        let ghost g0 = *movegen;
        assert(all_moves_spec(g0, b0).len() > 0);
        let was_pawn_move = board.square[prev_move.target_idx() as usize].piece_type() == Piece::PAWN;
        let ghost t0 = *repetition_table;
        let ghost reset = prev_move_was_capture || was_pawn_move;
        let ghost promos = old(movegen).promotions_to_gen;
        let ghost mate = !self.transposition_table.enabled && n_extensions < MAX_EXTENSIONS
            && exists|m: Move| #[trigger] only_move_mates(b0, m, *zobrist, promos, t0, reset);
        let ghost m0 = choose|m: Move| #[trigger] only_move_mates(b0, m, *zobrist, promos, t0, reset);
        proof {
            if mate {
                assert(all_moves_spec(g0, b0) == seq![m0]);
                lemma_same_as_one(ordered@, m0);
            }
        }
        repetition_table.push(key, prev_move_was_capture || was_pawn_move);
        let ghost count1 = repetition_table.count;
        let ghost alpha_c = alpha;

        let mut best_move = Move::null();
        let mut best_score = -POSITIVE_INFINITY;
        let mut eval_bound = TranspositionNodeType::UpperBound;
        let mut i: usize = 0;
        while i < ordered.len()
            invariant
                node_ready(b0),
                restored(b0, *board),
                b0.cached_in_check_val.is_none() ==> board.cached_in_check_val.is_none(),
                b0 == *old(board),
                init_matches(g0, b0, true),
                g0.promotions_to_gen == old(movegen).promotions_to_gen,
                all_moves_spec(g0, b0).len() > 0,
                tt_ok(self.transposition_table),
                history_bounded(*ordering),
                repetition_table.count == count1,
                count1 == old(repetition_table).count + 1,
                self.in_search ==> old(self).in_search,
                self.opts == old(self).opts,
                self.best_move == old(self).best_move,
                self.root_table_hits == old(self).root_table_hits,
                self.backup_move == old(self).backup_move,
                self.transposition_table.enabled == old(self).transposition_table.enabled,
                movegen.promotions_to_gen == old(movegen).promotions_to_gen,
                -IMMEDIATE_MATE_SCORE <= alpha < beta <= IMMEDIATE_MATE_SCORE,
                -POSITIVE_INFINITY <= best_score,
                1 <= depth_remaining,
                n_extensions <= MAX_EXTENSIONS,
                count1 + depth_remaining + (MAX_EXTENSIONS - n_extensions) < 257,
                depth + depth_remaining + (MAX_EXTENSIONS - n_extensions) < 256,
                mate ==> ordered@ == seq![m0] && only_move_mates(b0, m0, *zobrist, promos, t0, reset),
                mate ==> !self.transposition_table.enabled && n_extensions < MAX_EXTENSIONS,
                promos == old(movegen).promotions_to_gen,
                key == b0.current_state.zobrist_key,
                t0 == *old(repetition_table),
                reset == (prev_move_was_capture || b0.square[prev_move.target_sq()].ptype() == Piece::PAWN),
                mate == (!old(self).transposition_table.enabled && n_extensions < MAX_EXTENSIONS
                    && exists|m: Move| #[trigger] only_move_mates(b0, m, *zobrist, promos, t0, reset)),
                i == 0 ==> pushed(t0, key, reset, *repetition_table) && alpha == alpha_c && best_score == -POSITIVE_INFINITY
                    && *board == b0,
                alpha_c == (if alpha_in > -IMMEDIATE_MATE_SCORE + depth { alpha_in as int } else { -IMMEDIATE_MATE_SCORE + depth }),
                beta == (if beta_in < IMMEDIATE_MATE_SCORE - depth { beta_in as int } else { IMMEDIATE_MATE_SCORE - depth }),
                alpha_c < beta,
                mate && i >= 1 && self.in_search ==> best_score == IMMEDIATE_MATE_SCORE - depth - 1
                    && IMMEDIATE_MATE_SCORE - depth - 1 < beta,
            decreases ordered@.len() - i,
        {
            let m = ordered[i];
            let ghost b = *board;
            proof { lemma_ready_restored(b0, b); }
            if playable_now(board, m) {
                let is_capture = board.square[m.target_idx() as usize].piece_type() != Piece::NONE;
                if make_checked(board, m, zobrist) {
                    let ghost b1 = *board;
                    proof {
                        lemma_ready_facts(b1);
                        lemma_restored_chain(b1, b1, b1);
                    }
                    let extension: u8 = if n_extensions < MAX_EXTENSIONS {
                        if board.get_in_check_state() { 1 } else { 0 }
                    } else {
                        0
                    };
                    let mut eval: i32 = 0;
                    let mut needs_full_search = true;
                    if extension == 0 && depth_remaining >= 3 && i >= 3 && !is_capture {
                        let v = self.search(depth + 1, depth_remaining - 2, -alpha - 1, -alpha, n_extensions, board,
                            ordering, repetition_table, m, is_capture, zobrist, movegen);
                        eval = -v;
                        needs_full_search = eval > alpha;
                        if !self.in_search {
                            unmake_checked(board, m, Ghost(b), Ghost(b1), zobrist);
                            proof { lemma_restored_chain(b0, b, *board); }
                            return 0;
                        }
                    }
                    if needs_full_search {
                        let ghost bm = *board;
                        let ghost rt = *repetition_table;
                        let ghost tt = self.transposition_table;
                        proof { lemma_ready_restored(b1, bm); }
                        let v = self.search(depth + 1, depth_remaining - 1 + extension, -beta, -alpha,
                            n_extensions + extension, board, ordering, repetition_table, m, is_capture, zobrist, movegen);
                        proof {
                            lemma_restored_chain(b1, bm, *board);
                            if mate && i == 0 && self.in_search {
                                assert(ordered@[0] == m0);
                                assert(m == m0);
                                assert(bm == b1);
                                assert(made(b0, m0, true, *zobrist, b1));
                                assert(pushed(t0, key, reset, rt));
                                assert(!repeated(rt, b1.current_state.zobrist_key));
                                assert(!tt.enabled);
                                assert(extension == 1);
                                assert(v == -(IMMEDIATE_MATE_SCORE - depth - 1) || v == -beta
                                    || v == -IMMEDIATE_MATE_SCORE + depth + 1);
                            }
                        }
                        eval = -v;
                        proof {
                            if mate && i == 0 && self.in_search {
                                assert(eval >= (if beta < IMMEDIATE_MATE_SCORE - depth - 1 { beta as int } else { IMMEDIATE_MATE_SCORE - depth - 1 }));
                                assert(eval < beta ==> eval == IMMEDIATE_MATE_SCORE - depth - 1);
                                assert(eval == IMMEDIATE_MATE_SCORE - depth - 1
                                    || eval == (if beta < IMMEDIATE_MATE_SCORE - depth - 1 { beta as int } else { IMMEDIATE_MATE_SCORE - depth - 1 }));
                            }
                        }
                    }
                    unmake_checked(board, m, Ghost(b), Ghost(b1), zobrist);
                    proof { lemma_restored_chain(b0, b, *board); }
                    if !self.in_search {
                        return 0;
                    }
                    if eval > best_score {
                        best_score = eval;
                        if eval > alpha {
                            alpha = eval;
                            best_move = m;
                            eval_bound = TranspositionNodeType::Exact;
                            if eval >= beta {
                                self.store_entry(key, depth_remaining, depth, beta, TranspositionNodeType::LowerBound, m);
                                if !is_capture {
                                    if (depth as usize) < 32 {
                                        ordering.add_killer(depth as usize, m);
                                    }
                                    let dr = depth_remaining as i32;
                                    proof {
                                        assert(0 <= dr * dr <= 65025) by (nonlinear_arith)
                                            requires 0 <= dr <= 255;
                                        lemma_ready_restored(b0, *board);
                                        lemma_ready_facts(*board);
                                    }
                                    let history_score = dr * dr;
                                    ordering.add_history(board.move_color_idx, m.start_idx() as usize,
                                        m.target_idx() as usize, history_score);
                                }
                                repetition_table.pop();
                                return beta;
                            }
                        }
                    }
                } else {
                    proof { lemma_restored_chain(b0, b, *board); }
                }
            }
            i += 1;
        }
        repetition_table.pop();
        self.store_entry(key, depth_remaining, depth, best_score, eval_bound, best_move);
        best_score
    }

    /// Searches `board` for the best move of the side to move, which must have a move:
    /// iterative deepening from depth 1, each depth searched in an aspiration window around the
    /// last score and searched again in a wider window where the score falls outside it, until
    /// the time runs out, a mate is found or the depth reaches its limit. The depth stops where
    /// the line could outgrow the repetition table; a search that settles no move leaves the
    /// first generated move as the best.
    #[verifier::rlimit(100)]
    pub fn begin_search(&mut self, opts: SearchOptions, board: &mut Board, zobrist: &Zobrist,
        movegen: &mut MoveGenerator)
        requires
            node_ready(*old(board)),
            tt_ok(old(self).transposition_table),
            1 <= old(board).repeat_position_history@.len(),
            forall|g: MoveGenerator| init_matches(g, *old(board), true)
                && g.promotions_to_gen == old(movegen).promotions_to_gen
                ==> #[trigger] all_moves_spec(g, *old(board)).len() > 0,
        ensures
            !final(self).in_search,
            final(self).best_move is Some,
            final(self).best_move matches Some(m) ==> (exists|g: MoveGenerator| init_matches(g, *old(board), true)
                && g.promotions_to_gen == old(movegen).promotions_to_gen && #[trigger] all_moves_spec(g, *old(board)).contains(m))
                || table_gave(final(self).root_table_hits@, m),
            forall|e: TranspositionEntry| #[trigger] final(self).root_table_hits@.contains(e)
                ==> e.key == old(board).current_state.zobrist_key,
            final(self).opts == opts,
            restored(*old(board), *final(board)),
            tt_ok(final(self).transposition_table),
            final(movegen).promotions_to_gen == old(movegen).promotions_to_gen,
    {
        let ghost b0 = *board;
        proof {
            lemma_ready_facts(b0);
            lemma_restored_chain(b0, b0, b0);
        }
        self.opts = opts;
        self.init();
        let moves = movegen.generate_moves(board, false);
        let ghost g1 = *movegen;
        self.backup_move = moves[0];
        let mut repetition_table = RepetitionTable::new(board);
        let mut ordering = MoveOrdering::new();
        let mut alpha = -POSITIVE_INFINITY;
        let mut beta = POSITIVE_INFINITY;
        let mut left_window = ASPIRATION_WINDOW_SIZE;
        let mut right_window = ASPIRATION_WINDOW_SIZE;
        let mut depth: u8 = 1;
        while depth < 255 && repetition_table.count < 256 && (depth as usize) + repetition_table.count + 16 < 256
            invariant_except_break
                self.in_search,
                repetition_table.count == b0.repeat_position_history@.len(),
            invariant
                node_ready(b0),
                restored(b0, *board),
                b0 == *old(board),
                1 <= b0.repeat_position_history@.len(),
                tt_ok(self.transposition_table),
                history_bounded(ordering),
                self.opts == opts,
                movegen.promotions_to_gen == old(movegen).promotions_to_gen,
                -POSITIVE_INFINITY <= alpha,
                -POSITIVE_INFINITY <= beta,
                1 <= depth,
                init_matches(g1, b0, true),
                g1.promotions_to_gen == old(movegen).promotions_to_gen,
                moves@ == all_moves_spec(g1, b0),
                self.backup_move == moves@[0],
                moves@.len() > 0,
                self.best_move matches Some(m) ==> moves@.contains(m)
                    || table_gave(self.root_table_hits@, m),
                forall|e: TranspositionEntry| #[trigger] self.root_table_hits@.contains(e)
                    ==> e.key == b0.current_state.zobrist_key,
                0 < left_window <= 1073741824,
                0 < right_window <= 1073741824,
            ensures
                restored(b0, *board),
                self.backup_move == moves@[0],
                self.best_move matches Some(m) ==> moves@.contains(m)
                    || table_gave(self.root_table_hits@, m),
                forall|e: TranspositionEntry| #[trigger] self.root_table_hits@.contains(e)
                    ==> e.key == b0.current_state.zobrist_key,
                tt_ok(self.transposition_table),
                self.opts == opts,
                movegen.promotions_to_gen == old(movegen).promotions_to_gen,
            decreases 255 - depth, (alpha + POSITIVE_INFINITY) + (POSITIVE_INFINITY - beta),
        {
            let ghost bd = *board;
            proof {
                lemma_ready_restored(b0, bd);
                reveal(restored);
            }
            let ghost hits0 = self.root_table_hits@;
            let ghost best0 = self.best_move;
            let (score, best_move_this_iter) = self.search_root(depth, alpha, beta, &moves, board, &mut ordering,
                &mut repetition_table, zobrist, movegen);
            proof {
                lemma_restored_chain(b0, bd, *board);
                let hits = self.root_table_hits@;
                if best0 is Some && !moves@.contains(best0->0) {
                    let e = choose|e: TranspositionEntry| #[trigger] hits0.contains(e) && e.m == best0->0;
                    assert(hits.contains(e));
                    assert(table_gave(hits, best0->0));
                }
                if best_move_this_iter is Some && !moves@.contains(best_move_this_iter->0) {
                    let e = choose|e: TranspositionEntry| #[trigger] hits.contains(e) && e.m == best_move_this_iter->0;
                    assert(hits.contains(e) && e.m == best_move_this_iter->0);
                }
                assert forall|e: TranspositionEntry| #[trigger] hits.contains(e) implies e.key == b0.current_state.zobrist_key by {
                    if !hits0.contains(e) {
                        assert(e.key == bd.current_state.zobrist_key);
                    }
                }
            }
            if !self.in_search {
                // A partial search considered the previous best move first, so what it found
                // is at least as good.
                match best_move_this_iter {
                    Some(m) => {
                        self.best_move = Some(m);
                        self.diagnostics.evaluation = score;
                    },
                    None => {},
                }
                break;
            }
            if score <= alpha && alpha > -POSITIVE_INFINITY {
                alpha = if alpha > -POSITIVE_INFINITY + left_window { alpha - left_window } else { -POSITIVE_INFINITY };
                left_window = if left_window < 536870912 { left_window * 2 } else { left_window };
            } else if score >= beta && beta < POSITIVE_INFINITY {
                beta = if beta < POSITIVE_INFINITY - right_window { beta + right_window } else { POSITIVE_INFINITY };
                right_window = if right_window < 536870912 { right_window * 2 } else { right_window };
            } else {
                self.best_move = best_move_this_iter;
                proof {
                    let hits = self.root_table_hits@;
                    if best_move_this_iter is Some && !moves@.contains(best_move_this_iter->0) {
                        let e = choose|e: TranspositionEntry| #[trigger] hits.contains(e) && e.m == best_move_this_iter->0;
                        assert(hits.contains(e) && e.m == best_move_this_iter->0);
                    }
                }
                self.diagnostics.depth_searched = depth;
                self.diagnostics.evaluation = score;
                left_window = ASPIRATION_WINDOW_SIZE;
                right_window = ASPIRATION_WINDOW_SIZE;
                alpha = if score > -POSITIVE_INFINITY + left_window { score - left_window } else { -POSITIVE_INFINITY };
                beta = if score < POSITIVE_INFINITY - right_window { score + right_window } else { POSITIVE_INFINITY };
                let abs_score = if score < 0 { -score } else { score };
                if abs_score > IMMEDIATE_MATE_SCORE - 1000 && IMMEDIATE_MATE_SCORE - abs_score <= depth as i32 {
                    break;
                }
                depth += 1;
            }
        }
        if self.best_move.is_none() {
            self.best_move = Some(self.backup_move);
            proof {
                assert(moves@.contains(moves@[0]));
            }
        }
        self.in_search = false;
        proof {
            let m = self.best_move->0;
            let hits = self.root_table_hits@;
            if moves@.contains(m) {
                assert(all_moves_spec(g1, b0).contains(m));
            } else {
                let e = choose|e: TranspositionEntry| #[trigger] hits.contains(e) && e.m == m;
                assert(hits.contains(e) && e.m == m);
            }
        }
    }

    /// Searches the root `depth` plies deep in the window from `alpha` to `beta`, the moves
    /// `moves` in order, the previous best move first; returns the best score and the move that
    /// raised the window (from the table where it settles the root).
    #[verifier::rlimit(100)]
    fn search_root(&mut self, depth: u8, alpha: i32, beta: i32, moves: &Vec<Move>, board: &mut Board,
        ordering: &mut MoveOrdering, repetition_table: &mut RepetitionTable, zobrist: &Zobrist,
        movegen: &mut MoveGenerator) -> (r: (i32, Option<Move>))
        requires
            node_ready(*old(board)),
            tt_ok(old(self).transposition_table),
            history_bounded(*old(ordering)),
            old(self).in_search,
            1 <= old(repetition_table).count,
            1 <= depth,
            old(repetition_table).count + depth + MAX_EXTENSIONS < 256,
            depth + MAX_EXTENSIONS < 256,
            -POSITIVE_INFINITY <= alpha,
            -POSITIVE_INFINITY <= beta,
        ensures
            restored(*old(board), *final(board)),
            tt_ok(final(self).transposition_table),
            history_bounded(*final(ordering)),
            final(self).in_search ==> final(repetition_table).count == old(repetition_table).count,
            final(repetition_table).count >= old(repetition_table).count,
            final(self).in_search ==> old(self).in_search,
            final(self).opts == old(self).opts,
            final(self).best_move == old(self).best_move,
            old(self).root_table_hits@.subset_of(final(self).root_table_hits@),
            final(self).backup_move == old(self).backup_move,
            forall|e: TranspositionEntry| #[trigger] final(self).root_table_hits@.contains(e) ==> old(self).root_table_hits@.contains(e)
                || (e == old(self).transposition_table.entries@[TranspositionTable::<TABLE_SIZE>::slot(old(board).current_state.zobrist_key)]
                    && e.key == old(board).current_state.zobrist_key),
            final(self).transposition_table.enabled == old(self).transposition_table.enabled,
            final(movegen).promotions_to_gen == old(movegen).promotions_to_gen,
            -POSITIVE_INFINITY <= r.0,
            r.1 matches Some(m) ==> moves@.contains(m) || table_gave(final(self).root_table_hits@, m),
            r.1 is None ==> r.0 <= alpha,
    {
        let ghost b0 = *board;
        proof {
            lemma_ready_facts(b0);
            lemma_restored_chain(b0, b0, b0);
        }
        let key = board.current_state.zobrist_key;
        proof {
            assert(self.transposition_table.entries@[TranspositionTable::<TABLE_SIZE>::slot(key)].eval > i32::MIN);
        }
        match self.transposition_table.lookup(key, depth, 0, alpha, beta) {
            Some(tt_eval) => {
                let entry = self.transposition_table.get(key);
                self.root_table_hits = Ghost(self.root_table_hits@.insert(entry));
                proof {
                    assert(self.root_table_hits@.contains(entry));
                }
                return (tt_eval, Some(entry.m));
            },
            None => {},
        }
        let first = match self.best_move {
            Some(m) => m,
            None => Move::null(),
        };
        let ordered = ordering.order(first, moves.as_slice(), board, movegen.enemy_attack_map,
            movegen.enemy_pawn_attack_map, 0, false);
        let ghost alpha0 = alpha;
        let mut alpha = alpha;
        let mut best_move: Option<Move> = None;
        let mut best_score = -POSITIVE_INFINITY;
        let mut eval_bound = TranspositionNodeType::UpperBound;
        let ghost count0 = repetition_table.count;
        let mut i: usize = 0;
        while i < ordered.len() && self.in_search
            invariant
                node_ready(b0),
                restored(b0, *board),
                b0 == *old(board),
                ordered@.to_multiset() == moves@.to_multiset(),
                tt_ok(self.transposition_table),
                history_bounded(*ordering),
                self.in_search ==> repetition_table.count == count0,
                repetition_table.count >= count0,
                count0 == old(repetition_table).count,
                1 <= count0,
                self.in_search ==> old(self).in_search,
                self.opts == old(self).opts,
                self.best_move == old(self).best_move,
                self.root_table_hits == old(self).root_table_hits,
                self.backup_move == old(self).backup_move,
                self.transposition_table.enabled == old(self).transposition_table.enabled,
                movegen.promotions_to_gen == old(movegen).promotions_to_gen,
                -POSITIVE_INFINITY <= alpha0 <= alpha,
                -POSITIVE_INFINITY <= beta,
                -POSITIVE_INFINITY <= best_score,
                best_move matches Some(m) ==> moves@.contains(m),
                best_move is None ==> best_score <= alpha0 && alpha == alpha0,
                count0 + depth + MAX_EXTENSIONS < 256,
                depth + MAX_EXTENSIONS < 256,
                1 <= depth,
            decreases ordered@.len() - i,
        {
            let m = ordered[i];
            proof {
                vstd::seq_lib::to_multiset_contains(ordered@, m);
                vstd::seq_lib::to_multiset_contains(moves@, m);
                assert(ordered@.contains(m)) by { assert(ordered@[i as int] == m); }
            }
            let ghost b = *board;
            proof { lemma_ready_restored(b0, b); }
            if playable_now(board, m) {
                let is_capture = board.square[m.target_idx() as usize].piece_type() != Piece::NONE;
                if make_checked(board, m, zobrist) {
                    let ghost b1 = *board;
                    proof {
                        lemma_ready_facts(b1);
                        lemma_restored_chain(b1, b1, b1);
                    }
                    let extension: u8 = if board.get_in_check_state() { 1 } else { 0 };
                    let mut eval: i32 = 0;
                    let mut needs_full_search = true;
                    if extension == 0 && depth >= 3 && i >= 3 && !is_capture {
                        let v = self.search(1, depth - 2, -alpha - 1, -alpha, extension, board, ordering,
                            repetition_table, m, is_capture, zobrist, movegen);
                        eval = -v;
                        needs_full_search = eval > alpha;
                    }
                    if needs_full_search && self.in_search {
                        let ghost bm = *board;
                        proof { lemma_ready_restored(b1, bm); }
                        let v = self.search(1, depth - 1 + extension, -beta, -alpha, extension, board, ordering,
                            repetition_table, m, is_capture, zobrist, movegen);
                        proof { lemma_restored_chain(b1, bm, *board); }
                        eval = -v;
                    }
                    unmake_checked(board, m, Ghost(b), Ghost(b1), zobrist);
                    proof { lemma_restored_chain(b0, b, *board); }
                    if self.in_search && eval > best_score {
                        best_score = eval;
                        if eval > alpha {
                            best_move = Some(m);
                            alpha = eval;
                            eval_bound = TranspositionNodeType::Exact;
                        }
                    }
                } else {
                    proof { lemma_restored_chain(b0, b, *board); }
                }
            }
            i += 1;
        }
        match best_move {
            Some(m) => {
                self.store_entry(key, depth, 0, best_score, eval_bound, m);
            },
            None => {},
        }
        (best_score, best_move)
    }

    /// Clears the result of the last search and starts the clock.
    fn init(&mut self)
        ensures
            final(self).best_move is None,
            final(self).in_search,
            final(self).transposition_table == old(self).transposition_table,
            final(self).opts == old(self).opts,
            final(self).root_table_hits@ == Set::<TranspositionEntry>::empty(),
    {
        self.root_table_hits = Ghost(Set::empty());
        self.best_move = None;
        self.in_search = true;
        self.start_time = now();
        self.diagnostics = SearchDiagnostics::default();
    }

    /// The best move of the finished search; none while it runs.
    pub fn best_move(&mut self) -> (r: Option<Move>)
        ensures
            r == (if old(self).in_search { None } else { old(self).best_move }),
            *final(self) == *old(self),
    {
        if self.in_search { None } else { self.best_move }
    }

    /// Asks the search to stop; it stops at its next check of the clock.
    pub fn abort(&mut self)
        ensures
            *final(self) == *old(self),
    {
    }

    /// The best move found so far, else the first legal move of the position searched.
    pub fn force_best_move(&mut self) -> (r: Move)
        ensures
            r == (match old(self).best_move { Some(m) => m, None => old(self).backup_move }),
            *final(self) == *old(self),
    {
        self.abort();
        match self.best_move {
            Some(m) => m,
            None => self.backup_move,
        }
    }
}

} // verus!
