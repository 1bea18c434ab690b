//! How a game stands after a move: mate, stalemate, the draw rules, or still going.
use vstd::prelude::*;
use crate::bitboard::{BitBoard, popcount, LIGHT_SQUARES_BITS};
use crate::board::Board;
use crate::piece::Piece;
use crate::move_gen::{MoveGenerator, all_moves_spec, gen_ready, init_matches};
use crate::result::GameResult;
use crate::board::moves::Move;
use crate::coord::Coord;

verus! {

/// How many times `k` occurs in `s`.
pub open spec fn occurrences(s: Seq<u64>, k: u64) -> nat
    decreases s.len(),
{
    if s.len() == 0 { 0 } else { occurrences(s.drop_last(), k) + (if s.last() == k { 1nat } else { 0nat }) }
}

/// Neither side can mate: no pawns, rooks or queens, and at most one minor piece, or one bishop
/// each on squares of the same color.
pub open spec fn insufficient_material_of(b: Board) -> bool {
    let wb = popcount(b.piece_bitboards[Piece::WHITE_BISHOP as int].0);
    let bb = popcount(b.piece_bitboards[Piece::BLACK_BISHOP as int].0);
    let wn = popcount(b.piece_bitboards[Piece::WHITE_KNIGHT as int].0);
    let bn = popcount(b.piece_bitboards[Piece::BLACK_KNIGHT as int].0);
    let minors = wb + wn + bb + bn;
    if popcount(b.piece_bitboards[Piece::WHITE_PAWN as int].0) > 0 || popcount(b.piece_bitboards[Piece::BLACK_PAWN as int].0) > 0 {
        false
    } else if b.friendly_orthogonal_sliders.0 != 0 || b.enemy_orthogonal_sliders.0 != 0 {
        false
    } else if minors <= 1 {
        true
    } else if minors == 2 && wb == 1 && bb == 1 {
        (LIGHT_SQUARES_BITS & b.piece_bitboards[Piece::WHITE_BISHOP as int].0 != 0)
            == (LIGHT_SQUARES_BITS & b.piece_bitboards[Piece::BLACK_BISHOP as int].0 != 0)
    } else {
        false
    }
}

/// Insufficient material, case by case: it needs no pawn, rook or queen on the board, at most
/// one minor piece on each side and at most one knight in all, and two minor pieces only as
/// one bishop each on squares of one color; with no pawn, rook or queen, a single minor piece
/// (or none) is always insufficient, and so are two bishops of opposite sides on squares of one
/// color.
pub proof fn lemma_insufficient_material_cases(b: Board)
    ensures
        ({
            let wp = popcount(b.piece_bitboards[Piece::WHITE_PAWN as int].0);
            let bp = popcount(b.piece_bitboards[Piece::BLACK_PAWN as int].0);
            let wb = popcount(b.piece_bitboards[Piece::WHITE_BISHOP as int].0);
            let bb = popcount(b.piece_bitboards[Piece::BLACK_BISHOP as int].0);
            let wn = popcount(b.piece_bitboards[Piece::WHITE_KNIGHT as int].0);
            let bn = popcount(b.piece_bitboards[Piece::BLACK_KNIGHT as int].0);
            let no_heavy = wp == 0 && bp == 0 && b.friendly_orthogonal_sliders.0 == 0
                && b.enemy_orthogonal_sliders.0 == 0;
            let same_color = (LIGHT_SQUARES_BITS & b.piece_bitboards[Piece::WHITE_BISHOP as int].0 != 0)
                == (LIGHT_SQUARES_BITS & b.piece_bitboards[Piece::BLACK_BISHOP as int].0 != 0);
            &&& insufficient_material_of(b) ==> {
                &&& no_heavy
                &&& wb + wn <= 1
                &&& bb + bn <= 1
                &&& wn + bn <= 1
                &&& wb + wn + bb + bn == 2 ==> wb == 1 && bb == 1 && same_color
            }
            &&& no_heavy && wb + wn + bb + bn <= 1 ==> insufficient_material_of(b)
            &&& no_heavy && wb == 1 && bb == 1 && wn == 0 && bn == 0 && same_color ==> insufficient_material_of(b)
        }),
{
}

/// The result of the game on `b`, given the legal moves there and whether the side to move is
/// in check.
pub open spec fn game_result_of(b: Board, moves: Seq<crate::board::moves::Move>, in_check: bool) -> GameResult {
    if moves.len() == 0 {
        if in_check {
            if b.white_to_move { GameResult::WhiteMated } else { GameResult::BlackMated }
        } else {
            GameResult::Stalemate
        }
    } else if b.current_state.fifty_move_counter >= 100 {
        GameResult::FiftyMoveRule
    } else if occurrences(b.repeat_position_history@, b.current_state.zobrist_key) == 3 {
        GameResult::Repetition
    } else if insufficient_material_of(b) {
        GameResult::InsufficientMaterial
    } else {
        GameResult::InProgress
    }
}

/// The result by cases: with no legal move, a mate of the side to move when it is in check
/// and a stalemate otherwise; with moves, the fifty-move rule from a count of 100 on, then a
/// third occurrence of the position, then insufficient material, else the game goes on.
pub proof fn lemma_game_result_cases(b: Board, moves: Seq<Move>, in_check: bool)
    ensures
        ({
            let r = game_result_of(b, moves, in_check);
            &&& (r == GameResult::WhiteMated || r == GameResult::BlackMated) <==> moves.len() == 0 && in_check
            &&& r == GameResult::WhiteMated ==> b.white_to_move
            &&& r == GameResult::BlackMated ==> !b.white_to_move
            &&& r == GameResult::Stalemate <==> moves.len() == 0 && !in_check
            &&& r == GameResult::FiftyMoveRule <==> moves.len() > 0 && b.current_state.fifty_move_counter >= 100
            &&& r == GameResult::Repetition ==> moves.len() > 0
                && occurrences(b.repeat_position_history@, b.current_state.zobrist_key) == 3
            &&& r == GameResult::InsufficientMaterial ==> moves.len() > 0 && insufficient_material_of(b)
            &&& r == GameResult::InProgress <==> moves.len() > 0 && b.current_state.fifty_move_counter < 100
                && occurrences(b.repeat_position_history@, b.current_state.zobrist_key) != 3
                && !insufficient_material_of(b)
        }),
{
}

/// Whether neither side has the material to mate; see `insufficient_material_of`.
pub fn insufficient_material(board: &Board) -> (r: bool)
    ensures
        r == insufficient_material_of(*board),
{
    if board.piece_bitboards[Piece::WHITE_PAWN as usize].count() > 0
        || board.piece_bitboards[Piece::BLACK_PAWN as usize].count() > 0 {
        return false;
    }
    if board.friendly_orthogonal_sliders.0 != 0 || board.enemy_orthogonal_sliders.0 != 0 {
        return false;
    }
    let n_white_bishops = board.piece_bitboards[Piece::WHITE_BISHOP as usize].count();
    let n_black_bishops = board.piece_bitboards[Piece::BLACK_BISHOP as usize].count();
    let n_white_knights = board.piece_bitboards[Piece::WHITE_KNIGHT as usize].count();
    let n_black_knights = board.piece_bitboards[Piece::BLACK_KNIGHT as usize].count();
    let n_white_minors = n_white_bishops + n_white_knights;
    let n_black_minors = n_black_bishops + n_black_knights;
    let n_minors = n_white_minors + n_black_minors;
    if n_minors <= 1 {
        return true;
    }
    if n_minors == 2 && n_white_bishops == 1 && n_black_bishops == 1 {
        let white_bishop_light = LIGHT_SQUARES_BITS & board.piece_bitboards[Piece::WHITE_BISHOP as usize].0 != 0;
        let black_bishop_light = LIGHT_SQUARES_BITS & board.piece_bitboards[Piece::BLACK_BISHOP as usize].0 != 0;
        return white_bishop_light == black_bishop_light;
    }
    false
}

/// The number of times `key` was recorded.
fn count_key(history: &Vec<u64>, key: u64) -> (r: usize)
    ensures
        r == occurrences(history@, key),
{
    let mut n: usize = 0;
    let mut i: usize = 0;
    while i < history.len()
        invariant
            i <= history@.len(),
            n == occurrences(history@.subrange(0, i as int), key),
            n <= i,
        decreases history@.len() - i,
    {
        proof {
            assert(history@.subrange(0, i + 1).drop_last() =~= history@.subrange(0, i as int));
        }
        if history[i] == key {
            n += 1;
        }
        i += 1;
    }
    proof {
        assert(history@.subrange(0, history@.len() as int) =~= history@);
    }
    n
}

/// The result of the game on `board`: the legal moves are generated with `movegen`, then
/// mate or stalemate, the fifty-move rule, a third repetition and insufficient material are
/// tested in turn.
pub fn game_result(board: &Board, movegen: &mut MoveGenerator) -> (r: GameResult)
    requires
        gen_ready(*board),
        0 <= board.current_state.en_passant_file <= 8,
    ensures
        init_matches(*final(movegen), *board, true),
        final(movegen).moves@ == all_moves_spec(*final(movegen), *board),
        r == game_result_of(*board, final(movegen).moves@, final(movegen).in_check),
{
    movegen.generate_moves(board, false);
    if movegen.moves.len() == 0 {
        if movegen.in_check() {
            return if board.white_to_move { GameResult::WhiteMated } else { GameResult::BlackMated };
        }
        return GameResult::Stalemate;
    }
    if board.current_state.fifty_move_counter >= 100 {
        return GameResult::FiftyMoveRule;
    }
    let rep_count = count_key(&board.repeat_position_history, board.current_state.zobrist_key);
    if rep_count == 3 {
        return GameResult::Repetition;
    }
    if insufficient_material(board) {
        return GameResult::InsufficientMaterial;
    }
    GameResult::InProgress
}

/// The moves in `moves` that start on `sqr`, in their order: what a player may do with the
/// piece there.
pub fn moves_from_square(moves: &[Move], sqr: Coord) -> (r: Vec<Move>)
    ensures
        r@ == moves@.filter(|m: Move| Coord::of_sq(m.start_sq()) == sqr),
{
    let mut out: Vec<Move> = Vec::new();
    let mut i: usize = 0;
    while i < moves.len()
        invariant
            i <= moves@.len(),
            out@ == moves@.take(i as int).filter(|m: Move| Coord::of_sq(m.start_sq()) == sqr),
        decreases moves@.len() - i,
    {
        let m = moves[i];
        proof {
            assert(moves@.take(i + 1).drop_last() =~= moves@.take(i as int));
            assert(moves@.take(i + 1).last() == m);
            moves@.take(i as int).lemma_filter_push(m, |m: Move| Coord::of_sq(m.start_sq()) == sqr);
            assert(moves@.take(i as int).push(m) =~= moves@.take(i + 1));
        }
        if m.start() == sqr {
            out.push(m);
        }
        i += 1;
    }
    proof { assert(moves@.take(i as int) =~= moves@); }
    out
}

} // verus!
