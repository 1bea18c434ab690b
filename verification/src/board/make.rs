//! Making and taking back moves.
use vstd::prelude::*;
use crate::coord::Coord;
use crate::piece::Piece;
use crate::board::{Board, valid_piece_value, lemma_valid_piece, officers_upto, piece_on, color_on};
use crate::bitboard::{BitBoard, squares_where, square_bb};
use crate::board::moves::{Move, is_promotion_flag};
use crate::board::game_state::GameState;
use crate::board::zobrist::{Zobrist, piece_key, pieces_key, position_key, lemma_pieces_key_update};
use crate::board::update::is_officer;

verus! {

/// The square of the pawn taken en passant by a pawn of the side (`white` or not) landing on `t`.
pub open spec fn ep_capture_sq(t: int, white: bool) -> int {
    if white { t - 8 } else { t + 8 }
}

/// A king landing on `t` castles kingside.
pub open spec fn is_kingside_target(t: int) -> bool {
    t == 6 || t == 62
}

/// The square the rook castles from, for a king landing on `t`.
pub open spec fn rook_from(t: int) -> int {
    if is_kingside_target(t) { t + 1 } else { t - 2 }
}

/// The square the rook castles to, for a king landing on `t`.
pub open spec fn rook_to(t: int) -> int {
    if is_kingside_target(t) { t - 1 } else { t + 1 }
}

/// The piece type a promotion flag makes.
pub open spec fn promo_ptype(f: int) -> u8 {
    if f == 3 { Piece::QUEEN } else if f == 4 { Piece::KNIGHT } else if f == 5 { Piece::ROOK }
    else if f == 6 { Piece::BISHOP } else { Piece::NONE }
}

/// The move can be made on the board: a piece of the side to move leaves its start, and what
/// the move's flag says about the squares holds.
pub open spec fn move_fits(b: Board, m: Move) -> bool {
    let s = m.start_sq();
    let t = m.target_sq();
    let f = m.flag();
    let moved = b.square[s];
    let target = b.square[t];
    &&& s != t
    &&& moved.ptype() != 0 && moved.pcolor() == b.move_color
    &&& target.ptype() == 0 || (target.pcolor() == b.opponent_color && target.ptype() != Piece::KING)
    &&& f == 1 ==> {
        &&& moved.ptype() == Piece::PAWN
        &&& target.ptype() == 0
        &&& 0 <= ep_capture_sq(t, b.white_to_move) < 64
        &&& b.square[ep_capture_sq(t, b.white_to_move)] == Piece(Piece::PAWN | b.opponent_color)
    }
    &&& (f == 2 && moved.ptype() == Piece::KING) ==> {
        &&& t == 2 || t == 6 || t == 58 || t == 62
        &&& target.ptype() == 0
        &&& b.square[rook_from(t)] == Piece(Piece::ROOK | b.move_color)
        &&& b.square[rook_to(t)].ptype() == 0
    }
    &&& is_promotion_flag(f) ==> moved.ptype() == Piece::PAWN
}

/// The squares after the move: the piece leaves its start for its target, a pawn taken en
/// passant leaves the board, a castling rook jumps over the king, a promoting pawn becomes the
/// new piece.
pub open spec fn squares_after(b: Board, m: Move) -> Seq<Piece> {
    let s = m.start_sq();
    let t = m.target_sq();
    let f = m.flag();
    let moved = b.square[s];
    let sq1 = b.square@.update(s, Piece(0)).update(t, moved);
    let sq2 = if f == 1 { sq1.update(ep_capture_sq(t, b.white_to_move), Piece(0)) } else { sq1 };
    let sq3 = if moved.ptype() == Piece::KING && f == 2 {
        sq2.update(rook_from(t), Piece(0)).update(rook_to(t), Piece(Piece::ROOK | b.move_color))
    } else {
        sq2
    };
    if is_promotion_flag(f) { sq3.update(t, Piece(promo_ptype(f) | b.move_color)) } else { sq3 }
}

/// The type of the piece the move takes (none if it takes nothing).
pub open spec fn captured_type(b: Board, m: Move) -> u8 {
    if m.flag() == 1 { Piece::PAWN } else { b.square[m.target_sq()].ptype() }
}

/// Castling rights after a move from `s` to `t`: a king move drops its side's rights, and a
/// move from or to a corner drops the right of the rook there.
pub open spec fn rights_after(cr: u8, s: int, t: int, king_moved: bool, white: bool) -> u8 {
    let c1 = if king_moved { cr & (if white { 12u8 } else { 3u8 }) } else { cr };
    if c1 == 0 {
        0
    } else {
        let c2 = if t == 7 || s == 7 { c1 & 14u8 } else { c1 };
        let c3 = if t == 0 || s == 0 { c2 & 13u8 } else { c2 };
        let c4 = if t == 63 || s == 63 { c3 & 11u8 } else { c3 };
        if t == 56 || s == 56 { c4 & 7u8 } else { c4 }
    }
}

/// The castling rights after a move, right by right (1: white kingside, rook on h1; 2: white
/// queenside, a1; 4: black kingside, h8; 8: black queenside, a8): no right is gained; a right is
/// lost when its rook's corner is left or entered, or its side's king moves; otherwise it is
/// kept.
pub proof fn lemma_castling_rights_after(b: Board, m: Move, in_search: bool, z: Zobrist, b1: Board)
    requires
        made(b, m, in_search, z, b1),
    ensures
        ({
            let cr0 = b.current_state.castling_rights;
            let cr1 = b1.current_state.castling_rights;
            let s = m.start_sq();
            let t = m.target_sq();
            let king = b.square[s].ptype() == Piece::KING;
            let w = b.white_to_move;
            &&& cr1 & !cr0 == 0
            &&& (cr1 & 1u8 != 0 <==> cr0 & 1u8 != 0 && s != 7 && t != 7 && !(king && w))
            &&& (cr1 & 2u8 != 0 <==> cr0 & 2u8 != 0 && s != 0 && t != 0 && !(king && w))
            &&& (cr1 & 4u8 != 0 <==> cr0 & 4u8 != 0 && s != 63 && t != 63 && !(king && !w))
            &&& (cr1 & 8u8 != 0 <==> cr0 & 8u8 != 0 && s != 56 && t != 56 && !(king && !w))
        }),
{
    let cr = b.current_state.castling_rights;
    let s = m.start_sq();
    let t = m.target_sq();
    let k = b.square[s].ptype() == Piece::KING;
    let w = b.white_to_move;
    let h1 = t == 7 || s == 7;
    let a1 = t == 0 || s == 0;
    let h8 = t == 63 || s == 63;
    let a8 = t == 56 || s == 56;
    let c1: u8 = if k { cr & (if w { 12u8 } else { 3u8 }) } else { cr };
    let c2: u8 = if h1 { c1 & 14u8 } else { c1 };
    let c3: u8 = if a1 { c2 & 13u8 } else { c2 };
    let c4: u8 = if h8 { c3 & 11u8 } else { c3 };
    let r: u8 = if c1 == 0 { 0u8 } else if a8 { c4 & 7u8 } else { c4 };
    assert(b1.current_state.castling_rights == r);
    assert({
        &&& r & !cr == 0
        &&& (r & 1u8 != 0 <==> cr & 1u8 != 0 && !h1 && !(k && w))
        &&& (r & 2u8 != 0 <==> cr & 2u8 != 0 && !a1 && !(k && w))
        &&& (r & 4u8 != 0 <==> cr & 4u8 != 0 && !h8 && !(k && !w))
        &&& (r & 8u8 != 0 <==> cr & 8u8 != 0 && !a8 && !(k && !w))
    }) by (bit_vector)
        requires
            c1 == (if k { cr & (if w { 12u8 } else { 3u8 }) } else { cr }),
            c2 == (if h1 { c1 & 14u8 } else { c1 }),
            c3 == (if a1 { c2 & 13u8 } else { c2 }),
            c4 == (if h8 { c3 & 11u8 } else { c3 }),
            r == (if c1 == 0 { 0u8 } else if a8 { c4 & 7u8 } else { c4 });
}

/// The state a move leaves: the other side moves; the fifty-move count starts again after a
/// pawn move or a capture (en passant included) and otherwise goes up by one; an en passant
/// file (1 to 8) is recorded exactly after a double pawn push, on the pawn's file; the piece
/// type taken is the one that stood on the target (a pawn for en passant); the ply count goes
/// up by one and the state joins the history.
pub proof fn lemma_state_after_move(b: Board, m: Move, in_search: bool, z: Zobrist, b1: Board)
    requires
        made(b, m, in_search, z, b1),
    ensures
        b1.white_to_move == !b.white_to_move,
        b1.plycount == b.plycount + 1,
        b1.game_state_history@ == b.game_state_history@.push(b1.current_state),
        ({
            let taken = if m.flag() == 1 { Piece::PAWN } else { b.square[m.target_sq()].ptype() };
            let pawn = b.square[m.start_sq()].ptype() == Piece::PAWN;
            &&& b1.current_state.captured_ptype == taken
            &&& (b1.current_state.fifty_move_counter == 0 <== pawn || taken != 0)
            &&& (!pawn && taken == 0 ==> b1.current_state.fifty_move_counter == b.current_state.fifty_move_counter + 1
                || b.current_state.fifty_move_counter == 255)
            &&& (m.flag() == 7 ==> b1.current_state.en_passant_file == m.start_sq() % 8 + 1)
            &&& (m.flag() != 7 ==> b1.current_state.en_passant_file == 0)
        }),
{
}

/// A pawn move or a capture: the fifty-move count starts again.
pub open spec fn irreversible(b: Board, m: Move) -> bool {
    b.square[m.start_sq()].ptype() == Piece::PAWN || captured_type(b, m) != 0
}

/// The state after the move, with key `key`.
pub open spec fn state_after(b: Board, m: Move, key: u64) -> GameState {
    let s = m.start_sq();
    let t = m.target_sq();
    GameState {
        captured_ptype: captured_type(b, m),
        en_passant_file: if m.flag() == 7 { (s % 8 + 1) as i8 } else { 0i8 },
        castling_rights: rights_after(b.current_state.castling_rights, s, t,
            b.square[s].ptype() == Piece::KING, b.white_to_move),
        fifty_move_counter: if irreversible(b, m) { 0u8 } else { (b.current_state.fifty_move_counter + 1) as u8 },
        zobrist_key: key,
    }
}

/// An officer on a square below `n` counts.
pub proof fn lemma_officer_present(sq: [Piece; 64], s: int, n: nat)
    requires
        0 <= s < n <= 64,
        is_officer(sq[s]),
    ensures
        officers_upto(sq, n) >= 1,
    decreases n,
{
    if s < n - 1 {
        lemma_officer_present(sq, s, (n - 1) as nat);
    }
}

/// There are at most `n` officers below `n`.
pub proof fn lemma_officers_bound(sq: [Piece; 64], n: nat)
    requires
        n <= 64,
    ensures
        officers_upto(sq, n) <= n,
    decreases n,
{
    if n > 0 {
        lemma_officers_bound(sq, (n - 1) as nat);
    }
}

/// Changing a key and the pieces' key by the same amount keeps their exclusive or.
pub proof fn lemma_xor_cancel(a: u64, p: u64, r: u64)
    ensures
        (a ^ r) ^ (p ^ r) == a ^ p,
{
    crate::bitboard::lemma_xor(a, p, r);
}

/// Keeping some bits of a value never makes it larger.
pub proof fn lemma_and_le(x: u8, m: u8)
    ensures
        x & m <= x,
{
    crate::bitboard::lemma_u8_bits(x, m);
}

/// How the step-by-step key of a move relates to the keys of the two positions.
pub proof fn lemma_key_algebra(k0: u64, p0: u64, p5: u64, crp: u64, crn: u64, epp: u64, epn: u64,
    ep0: u64, side: u64, w0: bool, changed: bool, epz: bool)
    requires
        !changed ==> crp == crn,
    ensures
        (k0 ^ p0 ^ p5) ^ (if epz { 0u64 } else { epn }) ^ side ^ epp ^ (if changed { crp ^ crn } else { 0u64 })
            == k0 ^ (p5 ^ crn ^ (if epz { ep0 } else { epn }) ^ (if !w0 { 0u64 } else { side }))
                ^ (p0 ^ crp ^ epp ^ (if w0 { 0u64 } else { side })) ^ (if epz { ep0 } else { 0u64 }),
{
    assert(
        (k0 ^ p0 ^ p5) ^ (if epz { 0u64 } else { epn }) ^ side ^ epp ^ (if changed { crp ^ crn } else { 0u64 })
            == k0 ^ (p5 ^ crn ^ (if epz { ep0 } else { epn }) ^ (if !w0 { 0u64 } else { side }))
                ^ (p0 ^ crp ^ epp ^ (if w0 { 0u64 } else { side })) ^ (if epz { ep0 } else { 0u64 })) by (bit_vector)
        requires !changed ==> crp == crn;
}

impl Board {
    /// The last recorded state is the current one.
    pub open spec fn history_consistent(self) -> bool {
        self.game_state_history@.len() > 0
            && self.game_state_history@.last() == self.current_state
    }

    /// Puts `v` on square `s` and returns the change of the pieces' key.
    fn put_keyed(&mut self, s: usize, v: Piece, zobrist: &Zobrist) -> (r: u64)
        requires
            s < 64,
            old(self).wf(),
            valid_piece_value(v.0),
        ensures
            final(self).wf(),
            final(self).square@ == old(self).square@.update(s as int, v),
            *final(self) == (Board {
                square: final(self).square,
                piece_bitboards: final(self).piece_bitboards,
                color_bitboards: final(self).color_bitboards,
                all_pieces_bitboard: final(self).all_pieces_bitboard,
                ..*old(self)
            }),
            officers_upto(final(self).square, 64) + (if is_officer(old(self).square[s as int]) { 1int } else { 0int })
                == officers_upto(old(self).square, 64) + (if is_officer(v) { 1int } else { 0int }),
            r == piece_key(*zobrist, s as int, old(self).square[s as int]) ^ piece_key(*zobrist, s as int, v),
            pieces_key(*zobrist, final(self).square@, 64) == pieces_key(*zobrist, old(self).square@, 64) ^ r,
    {
        let ghost sq0 = self.square@;
        let old_piece = self.square[s];
        let k_old = if old_piece.0 != 0 && old_piece.0 < 23 { zobrist.pieces_array[s][old_piece.0 as usize] } else { 0 };
        let k_new = if v.0 != 0 && v.0 < 23 { zobrist.pieces_array[s][v.0 as usize] } else { 0 };
        self.put(s, v);
        proof {
            lemma_pieces_key_update(*zobrist, sq0, s as int, v, 64);
            let a = pieces_key(*zobrist, sq0, 64);
            crate::bitboard::lemma_xor(a, k_old, k_new);
        }
        k_old ^ k_new
    }
}

/// What the board may hold before a move is made.
pub open spec fn can_make(b: Board, m: Move) -> bool {
    &&& b.wf()
    &&& b.count_consistent()
    &&& b.sides_consistent()
    &&& move_fits(b, m)
    &&& b.current_state.fifty_move_counter < 255
    &&& b.current_state.castling_rights < 16
    &&& 0 <= b.current_state.en_passant_file <= 8
    &&& b.plycount < usize::MAX
}

/// `b1` is `b` after the move `m` (made inside a search or not, with the keys of `z`).
pub open spec fn made(b: Board, m: Move, in_search: bool, z: Zobrist, b1: Board) -> bool {
    &&& b1.wf()
    &&& b1.count_consistent()
    &&& b1.sides_consistent()
    &&& b1.sliders_consistent()
    &&& b1.history_consistent()
    &&& b1.square@ == squares_after(b, m)
    &&& b1.white_to_move == !b.white_to_move
    &&& b1.king_square[b.move_color_idx as int] == (if b.square[m.start_sq()].ptype() == Piece::KING {
        Coord::of_sq(m.target_sq())
    } else {
        b.king_square[b.move_color_idx as int]
    })
    &&& b1.king_square[b.opponent_color_idx as int] == b.king_square[b.opponent_color_idx as int]
    &&& b1.current_state == state_after(b, m, b1.current_state.zobrist_key)
    &&& b1.current_state.zobrist_key == b.current_state.zobrist_key ^ position_key(z, b1) ^ position_key(z, b)
        ^ (if b1.current_state.en_passant_file == 0 { z.en_passant_file[0] } else { 0u64 })
    &&& b1.game_state_history@ == b.game_state_history@.push(b1.current_state)
    &&& b1.repeat_position_history@ == (if in_search {
        b.repeat_position_history@
    } else if irreversible(b, m) {
        seq![b1.current_state.zobrist_key]
    } else {
        b.repeat_position_history@.push(b1.current_state.zobrist_key)
    })
    &&& b1.move_log@ == (if in_search { b.move_log@ } else { b.move_log@.push(m) })
    &&& b1.plycount == b.plycount + 1
    &&& b1.cached_in_check_val.is_none()
}

impl Board {
    /// Whether `m` can be made on this board: the checks of `can_make` that read the squares,
    /// the flag and the counters (the consistency of the board is required).
    pub fn can_make_move(&self, m: Move) -> (r: bool)
        requires
            self.wf(),
            self.count_consistent(),
            self.sides_consistent(),
        ensures
            r == can_make(*self, m),
    {
        let s = m.start_idx();
        let t = m.target_idx();
        let f = m.move_flag();
        let moved = self.square[s as usize];
        let target = self.square[t as usize];
        if s == t {
            return false;
        }
        if moved.piece_type() == 0 || moved.color() != self.move_color {
            return false;
        }
        if !(target.piece_type() == 0 || (target.color() == self.opponent_color && target.piece_type() != Piece::KING)) {
            return false;
        }
        if f == 1 {
            if moved.piece_type() != Piece::PAWN || target.piece_type() != 0 {
                return false;
            }
            let ep: i8 = if self.white_to_move { t - 8 } else { t + 8 };
            if ep < 0 || ep >= 64 {
                return false;
            }
            if self.square[ep as usize].0 != Piece::PAWN | self.opponent_color {
                return false;
            }
        }
        if f == 2 && moved.piece_type() == Piece::KING {
            if !(t == 2 || t == 6 || t == 58 || t == 62) || target.piece_type() != 0 {
                return false;
            }
            let from: i8 = if t == 6 || t == 62 { t + 1 } else { t - 2 };
            let to: i8 = if t == 6 || t == 62 { t - 1 } else { t + 1 };
            if self.square[from as usize].0 != Piece::ROOK | self.move_color || self.square[to as usize].piece_type() != 0 {
                return false;
            }
        }
        if 3 <= f && f <= 6 && moved.piece_type() != Piece::PAWN {
            return false;
        }
        self.current_state.fifty_move_counter < 255 && self.current_state.castling_rights < 16
            && 0 <= self.current_state.en_passant_file && self.current_state.en_passant_file <= 8
            && self.plycount < usize::MAX
    }
}

impl Board {
    /// Makes `mov`: moves the piece (taking, castling and promoting as its flag says), records
    /// the new state with its key updated step by step, and passes the turn. Outside a search
    /// the move is logged and the position's key recorded for repetitions (after a pawn move or
    /// a capture, those recorded before are dropped).
    #[verifier::rlimit(100)]
    #[verifier::spinoff_prover]
    pub fn make_move(&mut self, mov: Move, in_search: bool, zobrist: &Zobrist)
        requires
            can_make(*old(self), mov),
        ensures
            made(*old(self), mov, in_search, *zobrist, *final(self)),
    {
        let ghost b0 = *self;
        let ghost pk0 = pieces_key(*zobrist, self.square@, 64);
        let start = mov.start_idx() as usize;
        let target = mov.target_idx() as usize;
        let move_flag = mov.move_flag();
        let is_promotion = mov.is_promotion();
        let is_en_passant = move_flag == Move::EN_PASSANT_CAPTURE;

        let moved_piece = self.square[start];
        let moved_ptype = moved_piece.piece_type();
        proof {
            assert(valid_piece_value(b0.square[start as int].0));
            assert(valid_piece_value(b0.square[target as int].0));
            lemma_valid_piece(moved_piece.0);
            lemma_valid_piece(b0.square[target as int].0);
            crate::piece::lemma_with_color(Piece::PAWN, self.opponent_color);
            crate::piece::lemma_with_color(Piece::ROOK, self.move_color);
            crate::piece::lemma_null_ptype();
            lemma_officers_bound(b0.square, 64);
        }
        let captured_piece = if is_en_passant { Piece::new(Piece::PAWN | self.opponent_color) } else { self.square[target] };
        let captured_ptype = captured_piece.piece_type();

        let prev_castle_state = self.current_state.castling_rights;
        let prev_en_passant_file = self.current_state.en_passant_file;
        let mut new_zobrist_key = self.current_state.zobrist_key;
        let mut new_castling_rights = prev_castle_state;
        let mut new_en_passant_file: i8 = 0;
        let mut total = self.total_pieces_no_pawns_kings;
        if captured_ptype != Piece::NONE && captured_ptype != Piece::PAWN {
            proof {
                lemma_officer_present(b0.square, target as int, 64);
            }
            total -= 1;
        }

        let ghost key0 = new_zobrist_key;
        let d = self.put_keyed(start, Piece::null(), zobrist);
        proof { lemma_xor_cancel(new_zobrist_key, pieces_key(*zobrist, b0.square@, 64), d); }
        new_zobrist_key = new_zobrist_key ^ d;
        let ghost b1 = *self;
        let d = self.put_keyed(target, moved_piece, zobrist);
        proof { lemma_xor_cancel(new_zobrist_key, pieces_key(*zobrist, b1.square@, 64), d); }
        new_zobrist_key = new_zobrist_key ^ d;
        let ghost b2 = *self;
        if captured_ptype != Piece::NONE && is_en_passant {
            let capture_sqr = if self.white_to_move { target - 8 } else { target + 8 };
            let d = self.put_keyed(capture_sqr, Piece::null(), zobrist);
            proof { lemma_xor_cancel(new_zobrist_key, pieces_key(*zobrist, b2.square@, 64), d); }
            new_zobrist_key = new_zobrist_key ^ d;
        }
        let ghost b3 = *self;
        if moved_ptype == Piece::KING {
            self.king_square[self.move_color_idx] = Coord::from_idx(target as i8);
            let mask: u8 = if self.white_to_move { 0b1100u8 } else { 0b0011u8 };
            proof { lemma_and_le(new_castling_rights, mask); }
            new_castling_rights = new_castling_rights & mask;
            if move_flag == Move::CASTLING {
                let rook_piece = Piece::new(Piece::ROOK | self.move_color);
                let kingside = target == 6 || target == 62;
                let rook_from_sqr = if kingside { target + 1 } else { target - 2 };
                let rook_to_sqr = if kingside { target - 1 } else { target + 1 };
                let ghost c0 = *self;
                let d = self.put_keyed(rook_from_sqr, Piece::null(), zobrist);
                proof { lemma_xor_cancel(new_zobrist_key, pieces_key(*zobrist, c0.square@, 64), d); }
                new_zobrist_key = new_zobrist_key ^ d;
                let ghost c1 = *self;
                let d = self.put_keyed(rook_to_sqr, rook_piece, zobrist);
                proof { lemma_xor_cancel(new_zobrist_key, pieces_key(*zobrist, c1.square@, 64), d); }
                new_zobrist_key = new_zobrist_key ^ d;
            }
        }
        let ghost b4 = *self;
        if is_promotion {
            total += 1;
            let prom_ptype = mov.promotion_ptype();
            let prom_piece = Piece::new(prom_ptype | self.move_color);
            proof {
                crate::piece::lemma_with_color(prom_ptype, self.move_color);
            }
            let d = self.put_keyed(target, prom_piece, zobrist);
            proof { lemma_xor_cancel(new_zobrist_key, pieces_key(*zobrist, b4.square@, 64), d); }
            new_zobrist_key = new_zobrist_key ^ d;
        }
        let ghost b5 = *self;
        let ghost key_pieces = new_zobrist_key;
        assert(key_pieces ^ pieces_key(*zobrist, b5.square@, 64) == key0 ^ pk0);
        proof {
            let p5 = pieces_key(*zobrist, b5.square@, 64);
            crate::bitboard::lemma_xor(key_pieces, p5, key0 ^ pk0);
        }

        let mut ep_term: u64 = 0;
        if move_flag == Move::PAWN_TWO_FORWARD {
            let file = (start % 8) as i8 + 1;
            new_en_passant_file = file;
            ep_term = zobrist.en_passant_file[file as usize];
        }
        new_zobrist_key = new_zobrist_key ^ ep_term;
        assert(ep_term == (if new_en_passant_file == 0 { 0u64 } else { zobrist.en_passant_file[new_en_passant_file as int] }));

        if new_castling_rights != 0 {
            if target == 7 || start == 7 {
                proof { lemma_and_le(new_castling_rights, GameState::CLEAR_WHITE_KINGSIDE_MASK); }
                new_castling_rights = new_castling_rights & GameState::CLEAR_WHITE_KINGSIDE_MASK;
            }
            if target == 0 || start == 0 {
                proof { lemma_and_le(new_castling_rights, GameState::CLEAR_WHITE_QUEENSIDE_MASK); }
                new_castling_rights = new_castling_rights & GameState::CLEAR_WHITE_QUEENSIDE_MASK;
            }
            if target == 63 || start == 63 {
                proof { lemma_and_le(new_castling_rights, GameState::CLEAR_BLACK_KINGSIDE_MASK); }
                new_castling_rights = new_castling_rights & GameState::CLEAR_BLACK_KINGSIDE_MASK;
            }
            if target == 56 || start == 56 {
                proof { lemma_and_le(new_castling_rights, GameState::CLEAR_BLACK_QUEENSIDE_MASK); }
                new_castling_rights = new_castling_rights & GameState::CLEAR_BLACK_QUEENSIDE_MASK;
            }
        }
        let ghost ep_changed = new_castling_rights != prev_castle_state;

        new_zobrist_key = new_zobrist_key ^ zobrist.side_to_move;
        new_zobrist_key = new_zobrist_key ^ zobrist.en_passant_file[prev_en_passant_file as usize];
        let castling_term = if new_castling_rights != prev_castle_state {
            zobrist.castling_rights[prev_castle_state as usize] ^ zobrist.castling_rights[new_castling_rights as usize]
        } else {
            0
        };
        new_zobrist_key = new_zobrist_key ^ castling_term;

        self.white_to_move = !self.white_to_move;
        self.move_color = if self.white_to_move { Piece::WHITE } else { Piece::BLACK };
        self.opponent_color = if self.white_to_move { Piece::BLACK } else { Piece::WHITE };
        self.move_color_idx = 1 - self.move_color_idx;
        self.opponent_color_idx = 1 - self.opponent_color_idx;
        self.plycount = self.plycount + 1;
        self.total_pieces_no_pawns_kings = total;
        let mut new_fifty_move_counter = self.current_state.fifty_move_counter + 1;
        self.update_slider_bitboards();

        if moved_ptype == Piece::PAWN || captured_ptype != Piece::NONE {
            if !in_search {
                self.repeat_position_history.clear();
            }
            new_fifty_move_counter = 0;
        }

        let new_state = GameState {
            captured_ptype,
            en_passant_file: new_en_passant_file,
            castling_rights: new_castling_rights,
            fifty_move_counter: new_fifty_move_counter,
            zobrist_key: new_zobrist_key,
        };
        self.game_state_history.push(new_state);
        self.current_state = new_state;
        self.cached_in_check_val = None;
        if !in_search {
            self.repeat_position_history.push(new_state.zobrist_key);
            self.move_log.push(mov);
        }
        proof {
            let z = *zobrist;
            let crp = prev_castle_state;
            let crn = new_castling_rights;
            crate::bitboard::lemma_u8_bits(crp, 15u8);
            crate::bitboard::lemma_u8_bits(crn, 15u8);
            assert(pieces_key(z, self.square@, 64) == pieces_key(z, b5.square@, 64));
            assert(self.current_state.zobrist_key == key_pieces ^ (if new_en_passant_file == 0 { 0u64 } else { z.en_passant_file[new_en_passant_file as int] })
                ^ z.side_to_move ^ z.en_passant_file[prev_en_passant_file as int]
                ^ (if crn != crp { z.castling_rights[crp as int] ^ z.castling_rights[crn as int] } else { 0u64 }));
            assert(position_key(z, *self) == pieces_key(z, b5.square@, 64) ^ z.castling_rights[crn as int]
                ^ z.en_passant_file[new_en_passant_file as int] ^ (if self.white_to_move { 0u64 } else { z.side_to_move }));
            assert(position_key(z, b0) == pk0 ^ z.castling_rights[crp as int]
                ^ z.en_passant_file[prev_en_passant_file as int] ^ (if b0.white_to_move { 0u64 } else { z.side_to_move }));
            lemma_key_algebra(key0, pk0, pieces_key(z, b5.square@, 64), z.castling_rights[crp as int],
                z.castling_rights[crn as int], z.en_passant_file[prev_en_passant_file as int],
                z.en_passant_file[new_en_passant_file as int], z.en_passant_file[0], z.side_to_move,
                b0.white_to_move, crn != crp, new_en_passant_file == 0);
        }
    }
}

/// The squares before the move `m` was made by the side `white` (or not), taking a piece of
/// type `ct`: the piece goes back to its start (a promoted piece as a pawn), what it took comes
/// back, and a castling rook returns to its corner.
pub open spec fn squares_before(sq: Seq<Piece>, m: Move, white: bool, ct: u8) -> Seq<Piece> {
    let s = m.start_sq();
    let t = m.target_sq();
    let f = m.flag();
    let mc: u8 = if white { Piece::WHITE } else { Piece::BLACK };
    let oc: u8 = if white { Piece::BLACK } else { Piece::WHITE };
    let moved = if is_promotion_flag(f) { Piece(Piece::PAWN | mc) } else { sq[t] };
    let sq1 = sq.update(t, Piece(0)).update(s, moved);
    let cap = if f == 1 { ep_capture_sq(t, white) } else { t };
    let sq2 = if ct != 0 { sq1.update(cap, Piece(ct | oc)) } else { sq1 };
    if moved.ptype() == Piece::KING && f == 2 {
        sq2.update(rook_to(t), Piece(0)).update(rook_from(t), Piece(Piece::ROOK | mc))
    } else {
        sq2
    }
}

/// The move `m` can be taken back on `b`: it stands on its target, its start is empty, and
/// what its flag and the recorded capture say about the squares holds.
pub open spec fn unmove_fits(b: Board, m: Move) -> bool {
    let s = m.start_sq();
    let t = m.target_sq();
    let f = m.flag();
    let white = !b.white_to_move;
    let mc = b.opponent_color;
    let ct = b.current_state.captured_ptype;
    let piece = b.square[t];
    &&& s != t
    &&& b.square[s].ptype() == 0
    &&& piece.ptype() != 0 && piece.pcolor() == mc
    &&& is_promotion_flag(f) ==> piece.ptype() == promo_ptype(f)
    &&& ct <= 5
    &&& f == 1 ==> {
        &&& ct == Piece::PAWN
        &&& piece.ptype() == Piece::PAWN
        &&& 0 <= ep_capture_sq(t, white) < 64
        &&& b.square[ep_capture_sq(t, white)].ptype() == 0
    }
    &&& (f == 2 && piece.ptype() == Piece::KING && !is_promotion_flag(f)) ==> {
        &&& t == 2 || t == 6 || t == 58 || t == 62
        &&& ct == 0
        &&& b.square[rook_to(t)] == Piece(Piece::ROOK | mc)
        &&& b.square[rook_from(t)].ptype() == 0
    }
}

/// What the board may hold before a move is taken back.
pub open spec fn can_unmake(b: Board, m: Move, in_search: bool) -> bool {
    &&& b.wf()
    &&& b.count_consistent()
    &&& b.sides_consistent()
    &&& b.game_state_history@.len() >= 2
    &&& b.plycount >= 1
    &&& !in_search ==> b.move_log@.len() >= 1
    &&& unmove_fits(b, m)
}

/// `b2` is `b1` with the move `m` taken back.
pub open spec fn unmade(b1: Board, m: Move, in_search: bool, b2: Board) -> bool {
    let white = !b1.white_to_move;
    let moved_king = !is_promotion_flag(m.flag()) && b1.square[m.target_sq()].ptype() == Piece::KING;
    &&& b2.wf()
    &&& b2.count_consistent()
    &&& b2.sides_consistent()
    &&& b2.sliders_consistent()
    &&& b2.square@ == squares_before(b1.square@, m, white, b1.current_state.captured_ptype)
    &&& b2.white_to_move == white
    &&& b2.king_square[b1.opponent_color_idx as int] == (if moved_king {
        Coord::of_sq(m.start_sq())
    } else {
        b1.king_square[b1.opponent_color_idx as int]
    })
    &&& b2.king_square[b1.move_color_idx as int] == b1.king_square[b1.move_color_idx as int]
    &&& b2.game_state_history@ == b1.game_state_history@.drop_last()
    &&& b2.current_state == b2.game_state_history@.last()
    &&& b2.repeat_position_history@ == (if !in_search && b1.repeat_position_history@.len() > 0 {
        b1.repeat_position_history@.drop_last()
    } else {
        b1.repeat_position_history@
    })
    &&& b2.move_log@ == (if in_search { b1.move_log@ } else { b1.move_log@.drop_last() })
    &&& b2.plycount == b1.plycount - 1
    &&& b2.cached_in_check_val.is_none()
}

impl Board {
    /// Takes back `mov`, the last move made: the piece returns (a promoted piece as a pawn),
    /// the piece it took comes back, a castling rook returns, and the previous state is
    /// restored from the history. Outside a search the move leaves the log and the last
    /// recorded key is dropped.
    #[verifier::rlimit(100)]
    #[verifier::spinoff_prover]
    pub fn unmake_move(&mut self, mov: Move, in_search: bool)
        requires
            can_unmake(*old(self), mov, in_search),
        ensures
            unmade(*old(self), mov, in_search, *final(self)),
    {
        let ghost b1 = *self;
        self.white_to_move = !self.white_to_move;
        self.move_color = if self.white_to_move { Piece::WHITE } else { Piece::BLACK };
        self.opponent_color = if self.white_to_move { Piece::BLACK } else { Piece::WHITE };
        self.move_color_idx = 1 - self.move_color_idx;
        self.opponent_color_idx = 1 - self.opponent_color_idx;
        let undoing_white_move = self.white_to_move;

        let move_from = mov.start_idx() as usize;
        let move_to = mov.target_idx() as usize;
        let move_flag = mov.move_flag();
        let undoing_en_passant = move_flag == Move::EN_PASSANT_CAPTURE;
        let undoing_promotion = mov.is_promotion();
        let undoing_capture = self.current_state.captured_ptype != Piece::NONE;

        proof {
            assert(valid_piece_value(b1.square[move_to as int].0));
            lemma_valid_piece(b1.square[move_to as int].0);
            crate::piece::lemma_with_color(Piece::PAWN, self.move_color);
            crate::piece::lemma_with_color(Piece::ROOK, self.move_color);
            crate::piece::lemma_with_color(b1.current_state.captured_ptype, self.opponent_color);
            crate::piece::lemma_null_ptype();
            lemma_officers_bound(b1.square, 64);
        }
        let moved_piece = if undoing_promotion { Piece::new(Piece::PAWN | self.move_color) } else { self.square[move_to] };
        let moved_ptype = moved_piece.piece_type();
        let captured_ptype = self.current_state.captured_ptype;

        let mut total = self.total_pieces_no_pawns_kings;
        if undoing_promotion {
            proof {
                lemma_officer_present(b1.square, move_to as int, 64);
            }
            total -= 1;
        }
        self.put(move_to, Piece::null());
        self.put(move_from, moved_piece);
        if undoing_capture {
            let capture_square = if undoing_en_passant {
                if undoing_white_move { move_to - 8 } else { move_to + 8 }
            } else {
                move_to
            };
            if captured_ptype != Piece::PAWN {
                total += 1;
            }
            self.put(capture_square, Piece::new(captured_ptype | self.opponent_color));
        }
        if moved_ptype == Piece::KING {
            self.king_square[self.move_color_idx] = Coord::from_idx(move_from as i8);
            if move_flag == Move::CASTLING {
                let rook_piece = Piece::new(Piece::ROOK | self.move_color);
                let kingside = move_to == 6 || move_to == 62;
                let rook_square_before_castling = if kingside { move_to + 1 } else { move_to - 2 };
                let rook_square_after_castling = if kingside { move_to - 1 } else { move_to + 1 };
                self.put(rook_square_after_castling, Piece::null());
                self.put(rook_square_before_castling, rook_piece);
            }
        }
        self.total_pieces_no_pawns_kings = total;
        self.update_slider_bitboards();

        if !in_search && !self.repeat_position_history.is_empty() {
            self.repeat_position_history.pop();
        }
        if !in_search {
            let last = self.move_log.len() - 1;
            self.move_log.remove(last);
        }
        self.game_state_history.pop();
        let n = self.game_state_history.len();
        self.current_state = self.game_state_history[n - 1];
        self.plycount = self.plycount - 1;
        self.cached_in_check_val = None;
    }
}

/// A valid piece value is its type with its color flag.
pub proof fn lemma_piece_parts(v: u8)
    requires
        valid_piece_value(v),
    ensures
        v == (v & 7u8) | (v & 24u8),
{
    assert(v == 0 || (9 <= v <= 14) || (17 <= v <= 22) ==> v == (v & 7u8) | (v & 24u8)) by (bit_vector);
}

/// After a move is made, it can be taken back.
pub proof fn lemma_made_can_unmake(b: Board, m: Move, in_search: bool, z: Zobrist, b1: Board)
    requires
        can_make(b, m),
        b.game_state_history@.len() >= 1,
        made(b, m, in_search, z, b1),
    ensures
        can_unmake(b1, m, in_search),
{
    let s = m.start_sq();
    let t = m.target_sq();
    let moved = b.square[s];
    crate::board::moves::lemma_move_parts(m);
    assert(valid_piece_value(moved.0));
    assert(valid_piece_value(b.square[t].0));
    lemma_valid_piece(moved.0);
    lemma_valid_piece(b.square[t].0);
    crate::piece::lemma_with_color(Piece::PAWN, b.move_color);
    crate::piece::lemma_with_color(Piece::ROOK, b.move_color);
    crate::piece::lemma_with_color(promo_ptype(m.flag()), b.move_color);
    crate::piece::lemma_null_ptype();
    assert(b1.square[t] == b1.square@[t]);
    assert(b1.square[s] == b1.square@[s]);
}

/// Taking back a move just made gives back the position: its squares and bitboards, kings,
/// side to move, state, histories and counters. The keys recorded for repetitions come back
/// unless the move was a pawn move or a capture made outside a search.
pub proof fn lemma_unmake_undoes_make(b: Board, m: Move, in_search: bool, z: Zobrist, b1: Board, b2: Board)
    requires
        can_make(b, m),
        b.history_consistent(),
        b.square[m.start_sq()].ptype() == Piece::KING ==> b.king_square[b.move_color_idx as int] == Coord::of_sq(m.start_sq()),
        made(b, m, in_search, z, b1),
        unmade(b1, m, in_search, b2),
    ensures
        b2.square@ == b.square@,
        forall|p: int| 0 <= p < 23 ==> #[trigger] b2.piece_bitboards[p] == b.piece_bitboards[p],
        b2.color_bitboards[0] == b.color_bitboards[0],
        b2.color_bitboards[1] == b.color_bitboards[1],
        b2.all_pieces_bitboard == b.all_pieces_bitboard,
        b2.white_to_move == b.white_to_move,
        b2.move_color == b.move_color,
        b2.opponent_color == b.opponent_color,
        b2.move_color_idx == b.move_color_idx,
        b2.opponent_color_idx == b.opponent_color_idx,
        b.sliders_consistent() ==> {
            &&& b2.friendly_orthogonal_sliders == b.friendly_orthogonal_sliders
            &&& b2.friendly_diagonal_sliders == b.friendly_diagonal_sliders
            &&& b2.enemy_orthogonal_sliders == b.enemy_orthogonal_sliders
            &&& b2.enemy_diagonal_sliders == b.enemy_diagonal_sliders
        },
        b2.king_square[0] == b.king_square[0],
        b2.king_square[1] == b.king_square[1],
        b2.total_pieces_no_pawns_kings == b.total_pieces_no_pawns_kings,
        b2.current_state == b.current_state,
        b2.game_state_history@ == b.game_state_history@,
        b2.move_log@ == b.move_log@,
        b2.plycount == b.plycount,
        in_search || !irreversible(b, m) ==> b2.repeat_position_history@ == b.repeat_position_history@,
{
    let s = m.start_sq();
    let t = m.target_sq();
    let f = m.flag();
    let moved = b.square[s];
    crate::board::moves::lemma_move_parts(m);
    assert(valid_piece_value(moved.0));
    assert(valid_piece_value(b.square[t].0));
    lemma_valid_piece(moved.0);
    lemma_valid_piece(b.square[t].0);
    lemma_piece_parts(moved.0);
    lemma_piece_parts(b.square[t].0);
    crate::piece::lemma_with_color(Piece::PAWN, b.move_color);
    crate::piece::lemma_with_color(Piece::PAWN, b.opponent_color);
    crate::piece::lemma_with_color(Piece::ROOK, b.move_color);
    crate::piece::lemma_with_color(promo_ptype(f), b.move_color);
    crate::piece::lemma_with_color(b.square[t].ptype(), b.opponent_color);
    crate::piece::lemma_null_ptype();
    assert(b1.square[t] == b1.square@[t]);
    if f == 2 && moved.ptype() == Piece::KING {
        let rt = rook_to(t);
        assert(valid_piece_value(b.square[rt].0));
        lemma_valid_piece(b.square[rt].0);
    }
    if f == 1 {
        let c = ep_capture_sq(t, b.white_to_move);
        assert(b.square[c] == b.square@[c]);
    }
    assert(b2.square@ =~= b.square@);
    assert forall|p: int| 0 <= p < 23 implies #[trigger] b2.piece_bitboards[p] == b.piece_bitboards[p] by {
        assert(piece_on(b2.square, p) =~= piece_on(b.square, p));
        assert(b2.piece_bitboards[p].0 == squares_where(piece_on(b2.square, p)));
        assert(b.piece_bitboards[p].0 == squares_where(piece_on(b.square, p)));
    }
    if b.sliders_consistent() {
        let rm = (Piece::ROOK | b.move_color) as int;
        let qm = (Piece::QUEEN | b.move_color) as int;
        let bm = (Piece::BISHOP | b.move_color) as int;
        let ro = (Piece::ROOK | b.opponent_color) as int;
        let qo = (Piece::QUEEN | b.opponent_color) as int;
        let bo = (Piece::BISHOP | b.opponent_color) as int;
        crate::piece::lemma_with_color(Piece::ROOK, b.move_color);
        crate::piece::lemma_with_color(Piece::QUEEN, b.move_color);
        crate::piece::lemma_with_color(Piece::BISHOP, b.move_color);
        crate::piece::lemma_with_color(Piece::ROOK, b.opponent_color);
        crate::piece::lemma_with_color(Piece::QUEEN, b.opponent_color);
        crate::piece::lemma_with_color(Piece::BISHOP, b.opponent_color);
        assert(b2.piece_bitboards[rm] == b.piece_bitboards[rm]);
        assert(b2.piece_bitboards[qm] == b.piece_bitboards[qm]);
        assert(b2.piece_bitboards[bm] == b.piece_bitboards[bm]);
        assert(b2.piece_bitboards[ro] == b.piece_bitboards[ro]);
        assert(b2.piece_bitboards[qo] == b.piece_bitboards[qo]);
        assert(b2.piece_bitboards[bo] == b.piece_bitboards[bo]);
    }
    assert(color_on(b2.square, true) =~= color_on(b.square, true));
    assert(color_on(b2.square, false) =~= color_on(b.square, false));
    lemma_officers_same(b2.square, b.square, 64);
    if !in_search {
        assert(b2.move_log@ =~= b.move_log@);
    }
    assert(b2.game_state_history@ =~= b.game_state_history@);
    if !in_search && !irreversible(b, m) {
        assert(b2.repeat_position_history@ =~= b.repeat_position_history@);
    }
}

/// Two boards with the same squares count the same officers.
pub proof fn lemma_officers_same(a: [Piece; 64], c: [Piece; 64], n: nat)
    requires
        a@ == c@,
        n <= 64,
    ensures
        officers_upto(a, n) == officers_upto(c, n),
    decreases n,
{
    if n > 0 {
        lemma_officers_same(a, c, (n - 1) as nat);
        assert(a[n - 1] == a@[n - 1]);
        assert(c[n - 1] == c@[n - 1]);
    }
}

/// With the keys of `Zobrist::new` (no en passant file has key zero), a move made on a position
/// whose key is its own leaves a position whose key is its own.
pub proof fn lemma_make_keeps_key(b: Board, m: Move, in_search: bool, z: Zobrist, b1: Board)
    requires
        made(b, m, in_search, z, b1),
        b.current_state.zobrist_key == position_key(z, b),
        z.en_passant_file[0] == 0,
    ensures
        b1.current_state.zobrist_key == position_key(z, b1),
{
    let k = b.current_state.zobrist_key;
    let p1 = position_key(z, b1);
    crate::bitboard::lemma_xor(k ^ p1 ^ k, 0u64, 0u64);
    crate::bitboard::lemma_xor(k, p1, k);
    crate::bitboard::lemma_xor(p1, k, k);
}

impl Board {
    /// Passes the turn without a move: the side to move changes (the color fields stay), the
    /// en passant file is cleared, the fifty-move count goes up and the key follows.
    pub fn make_null_move(&mut self, zobrist: &Zobrist)
        requires
            old(self).move_color == 8 || old(self).move_color == 16,
            old(self).opponent_color == 8 || old(self).opponent_color == 16,
            old(self).current_state.fifty_move_counter < 255,
            0 <= old(self).current_state.en_passant_file <= 8,
            old(self).plycount < usize::MAX,
        ensures
            final(self).white_to_move == !old(self).white_to_move,
            final(self).plycount == old(self).plycount + 1,
            final(self).current_state == (GameState {
                captured_ptype: Piece::NONE,
                en_passant_file: 0,
                castling_rights: old(self).current_state.castling_rights,
                fifty_move_counter: (old(self).current_state.fifty_move_counter + 1) as u8,
                zobrist_key: old(self).current_state.zobrist_key ^ zobrist.side_to_move
                    ^ zobrist.en_passant_file[old(self).current_state.en_passant_file as int],
            }),
            final(self).game_state_history@ == old(self).game_state_history@.push(final(self).current_state),
            final(self).cached_in_check_val == Some(false),
            final(self).sliders_consistent(),
            final(self).square == old(self).square,
            final(self).piece_bitboards == old(self).piece_bitboards,
            final(self).color_bitboards == old(self).color_bitboards,
            final(self).all_pieces_bitboard == old(self).all_pieces_bitboard,
            final(self).king_square == old(self).king_square,
            final(self).total_pieces_no_pawns_kings == old(self).total_pieces_no_pawns_kings,
            final(self).move_color == old(self).move_color,
            final(self).opponent_color == old(self).opponent_color,
            final(self).move_color_idx == old(self).move_color_idx,
            final(self).opponent_color_idx == old(self).opponent_color_idx,
            final(self).repeat_position_history == old(self).repeat_position_history,
            final(self).move_log == old(self).move_log,
    {
        self.white_to_move = !self.white_to_move;
        self.plycount = self.plycount + 1;

        let mut new_zobrist_key = self.current_state.zobrist_key;
        new_zobrist_key = new_zobrist_key ^ zobrist.side_to_move;
        new_zobrist_key = new_zobrist_key ^ zobrist.en_passant_file[self.current_state.en_passant_file as usize];

        let new_state = GameState {
            captured_ptype: Piece::NONE,
            en_passant_file: 0,
            castling_rights: self.current_state.castling_rights,
            fifty_move_counter: self.current_state.fifty_move_counter + 1,
            zobrist_key: new_zobrist_key,
        };
        self.current_state = new_state;
        self.game_state_history.push(new_state);
        self.update_slider_bitboards();
        self.cached_in_check_val = Some(false);
    }

    /// Takes back a pass: the side to move changes back and the previous state returns.
    pub fn unmake_null_move(&mut self)
        requires
            old(self).move_color == 8 || old(self).move_color == 16,
            old(self).opponent_color == 8 || old(self).opponent_color == 16,
            old(self).game_state_history@.len() >= 2,
            old(self).plycount >= 1,
        ensures
            final(self).white_to_move == !old(self).white_to_move,
            final(self).plycount == old(self).plycount - 1,
            final(self).game_state_history@ == old(self).game_state_history@.drop_last(),
            final(self).current_state == final(self).game_state_history@.last(),
            final(self).cached_in_check_val == Some(false),
            final(self).sliders_consistent(),
            final(self).square == old(self).square,
            final(self).piece_bitboards == old(self).piece_bitboards,
            final(self).color_bitboards == old(self).color_bitboards,
            final(self).all_pieces_bitboard == old(self).all_pieces_bitboard,
            final(self).king_square == old(self).king_square,
            final(self).total_pieces_no_pawns_kings == old(self).total_pieces_no_pawns_kings,
            final(self).move_color == old(self).move_color,
            final(self).opponent_color == old(self).opponent_color,
            final(self).move_color_idx == old(self).move_color_idx,
            final(self).opponent_color_idx == old(self).opponent_color_idx,
            final(self).repeat_position_history == old(self).repeat_position_history,
            final(self).move_log == old(self).move_log,
    {
        self.white_to_move = !self.white_to_move;
        self.plycount = self.plycount - 1;
        self.game_state_history.pop();
        let n = self.game_state_history.len();
        self.current_state = self.game_state_history[n - 1];
        self.update_slider_bitboards();
        self.cached_in_check_val = Some(false);
    }
}

/// Passing and taking the pass back gives back the side to move, the state, its history and
/// the ply count.
pub proof fn lemma_unmake_null_undoes_null(b: Board, z: Zobrist, b1: Board, b2: Board)
    requires
        b.history_consistent(),
        b1.white_to_move == !b.white_to_move,
        b1.plycount == b.plycount + 1,
        b1.game_state_history@ == b.game_state_history@.push(b1.current_state),
        b2.white_to_move == !b1.white_to_move,
        b2.plycount == b1.plycount - 1,
        b2.game_state_history@ == b1.game_state_history@.drop_last(),
        b2.current_state == b2.game_state_history@.last(),
    ensures
        b2.white_to_move == b.white_to_move,
        b2.plycount == b.plycount,
        b2.game_state_history@ == b.game_state_history@,
        b2.current_state == b.current_state,
{
    assert(b2.game_state_history@ =~= b.game_state_history@);
}

/// With the keys of `Zobrist::new`, a pass on a position whose key is its own leaves a
/// position whose key is its own.
pub proof fn lemma_null_keeps_key(b: Board, z: Zobrist, b1: Board)
    requires
        b.current_state.zobrist_key == position_key(z, b),
        0 <= b.current_state.en_passant_file <= 8,
        z.en_passant_file[0] == 0,
        b1.white_to_move == !b.white_to_move,
        b1.square == b.square,
        b1.current_state.castling_rights == b.current_state.castling_rights,
        b1.current_state.en_passant_file == 0,
        b1.current_state.zobrist_key == b.current_state.zobrist_key ^ z.side_to_move
            ^ z.en_passant_file[b.current_state.en_passant_file as int],
    ensures
        b1.current_state.zobrist_key == position_key(z, b1),
{
    let pk = pieces_key(z, b.square@, 64);
    let cr = z.castling_rights[(b.current_state.castling_rights & 15u8) as int];
    let ep = z.en_passant_file[b.current_state.en_passant_file as int];
    let side = z.side_to_move;
    let w = b.white_to_move;
    assert((pk ^ cr ^ ep ^ (if w { 0u64 } else { side })) ^ side ^ ep
        == pk ^ cr ^ 0u64 ^ (if !w { 0u64 } else { side })) by (bit_vector);
}

impl Board {
    /// Moves `piece` from `start` to `target`, emptying `start`; the bitboards follow.
    pub fn move_piece(&mut self, piece: Piece, start: Coord, target: Coord)
        requires
            old(self).wf(),
            valid_piece_value(piece.0),
            start.valid(),
            target.valid(),
        ensures
            final(self).wf(),
            final(self).square@ == old(self).square@.update(start.sq(), Piece(0)).update(target.sq(), piece),
    {
        proof { crate::piece::lemma_null_ptype(); }
        self.put(start.index(), Piece::null());
        self.put(target.index(), piece);
    }

    /// Puts `piece` on `square` in place of what stood there, bitboard by bitboard: the square
    /// leaves the piece and color bitboards of the piece that stood there and joins those of
    /// `piece` (the color bitboard of an empty square being black's), the occupancy bitboard is
    /// left as it was, and the slider bitboards are recomputed.
    pub fn set_piece(&mut self, piece: Piece, square: Coord)
        requires
            old(self).square[square.sq()].0 < 23,
            piece.0 < 23,
            square.valid(),
            old(self).move_color == 8 || old(self).move_color == 16,
            old(self).opponent_color == 8 || old(self).opponent_color == 16,
        ensures
            ({
                let prev = old(self).square[square.sq()];
                let bb = square_bb(square.sq());
                let pb1 = old(self).piece_bitboards@.update(prev.0 as int, BitBoard(old(self).piece_bitboards[prev.0 as int].0 & !bb));
                let ci0: int = if prev.pcolor() == Piece::WHITE { 0 } else { 1 };
                let ci1: int = if piece.pcolor() == Piece::WHITE { 0 } else { 1 };
                let cb1 = old(self).color_bitboards@.update(ci0, BitBoard(old(self).color_bitboards[ci0].0 & !bb));
                &&& final(self).piece_bitboards@ == pb1.update(piece.0 as int, BitBoard(pb1[piece.0 as int].0 | bb))
                &&& final(self).color_bitboards@ == cb1.update(ci1, BitBoard(cb1[ci1].0 | bb))
            }),
            final(self).square@ == old(self).square@.update(square.sq(), piece),
            final(self).sliders_consistent(),
            *final(self) == (Board {
                square: final(self).square,
                piece_bitboards: final(self).piece_bitboards,
                color_bitboards: final(self).color_bitboards,
                friendly_orthogonal_sliders: final(self).friendly_orthogonal_sliders,
                friendly_diagonal_sliders: final(self).friendly_diagonal_sliders,
                enemy_orthogonal_sliders: final(self).enemy_orthogonal_sliders,
                enemy_diagonal_sliders: final(self).enemy_diagonal_sliders,
                ..*old(self)
            }),
    {
        let s = square.square();
        let prev_piece = self.square[square.index()];
        let pi = prev_piece.index();
        let mut bb = self.piece_bitboards[pi];
        bb.clear_square(s);
        self.piece_bitboards[pi] = bb;
        let ni = piece.index();
        let mut bb = self.piece_bitboards[ni];
        bb.set_square(s);
        self.piece_bitboards[ni] = bb;
        let ci = prev_piece.color_index();
        let mut cb = self.color_bitboards[ci];
        cb.clear_square(s);
        self.color_bitboards[ci] = cb;
        let ci = piece.color_index();
        let mut cb = self.color_bitboards[ci];
        cb.set_square(s);
        self.color_bitboards[ci] = cb;
        self.square[square.index()] = piece;
        self.update_slider_bitboards();
    }

    /// Empties `square`; the bitboards follow.
    pub fn remove_piece(&mut self, square: Coord)
        requires
            old(self).wf(),
            old(self).sides_consistent(),
            square.valid(),
        ensures
            final(self).wf(),
            final(self).sides_consistent(),
            final(self).sliders_consistent(),
            final(self).square@ == old(self).square@.update(square.sq(), Piece(0)),
    {
        self.put(square.index(), Piece::null());
        self.update_slider_bitboards();
    }
}

} // verus!
