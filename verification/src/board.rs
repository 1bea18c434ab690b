//! The position: pieces by square and by bitboard, the side to move, and the history
//! needed to take moves back.
use vstd::prelude::*;
use crate::bitboard::{BitBoard, bit, mask_upto, squares_where, lemma_mask_step, square_bb};
use crate::coord::Coord;
use crate::piece::Piece;
use crate::precomp::{Precomputed, knight_pred, pawn_attack_pred};
use crate::magics::{Magics, rook_attacks_spec, bishop_attacks_spec};
use crate::utils::fen::{self, LoadedPositionInfo, fen_info_ok, fen_squares, fen_white, fen_fifty,
    fen_move_count, fen_castling, ep_file_of};
use crate::board::game_state::GameState;
use crate::board::zobrist::{Zobrist, position_key};
use crate::board::moves::Move;

pub mod game_state;
pub mod zobrist;
pub mod moves;
pub mod update;
pub mod make;
pub mod check;

verus! {

/// Empty, or a piece type from pawn to king with one side's flag.
pub open spec fn valid_piece_value(v: u8) -> bool {
    v == 0 || (9 <= v <= 14) || (17 <= v <= 22)
}

/// The type and side of a valid piece value.
pub proof fn lemma_valid_piece(v: u8)
    requires
        valid_piece_value(v),
    ensures
        v == 0 ==> v & 7u8 == 0 && v & 24u8 == 0,
        9 <= v <= 14 ==> v & 7u8 == v - 8 && v & 24u8 == 8,
        17 <= v <= 22 ==> v & 7u8 == v - 16 && v & 24u8 == 16,
{
    assert((v == 0 ==> v & 7u8 == 0 && v & 24u8 == 0)
        && (9 <= v <= 14 ==> v & 7u8 == v - 8 && v & 24u8 == 8)
        && (17 <= v <= 22 ==> v & 7u8 == v - 16 && v & 24u8 == 16)) by (bit_vector);
}

/// The squares that hold piece value `p` (a piece with a type).
pub open spec fn piece_on(sq: [Piece; 64], p: int) -> spec_fn(int) -> bool {
    |s: int| sq[s].ptype() != 0 && sq[s].0 == p
}

/// The squares that hold a piece (with a type) of the white side (`w`) or of the other side.
pub open spec fn color_on(sq: [Piece; 64], w: bool) -> spec_fn(int) -> bool {
    |s: int| sq[s].ptype() != 0 && sq[s].0 <= 22 && ((sq[s].pcolor() == Piece::WHITE) == w)
}

/// A king of the white side (`w`) or of the other side.
pub open spec fn is_king_of(p: Piece, w: bool) -> bool {
    p.ptype() == Piece::KING && ((p.pcolor() == Piece::WHITE) == w)
}

/// The king square a position records for one side: the last square (highest index below `n`)
/// holding that side's king, else a1.
pub open spec fn last_king(sq: [Piece; 64], w: bool, n: nat) -> int
    decreases n,
{
    if n == 0 {
        0
    } else if is_king_of(sq[n - 1], w) {
        n - 1
    } else {
        last_king(sq, w, (n - 1) as nat)
    }
}

/// Number of squares below `n` holding a piece that is neither a pawn nor a king.
pub open spec fn officers_upto(sq: [Piece; 64], n: nat) -> nat
    decreases n,
{
    if n == 0 {
        0
    } else {
        officers_upto(sq, (n - 1) as nat) + (if sq[n - 1].ptype() != 0 && sq[n - 1].ptype() != 1 && sq[n - 1].ptype() != 6 { 1nat } else { 0nat })
    }
}

pub struct Board {
    pub square: [Piece; 64],
    pub king_square: [Coord; 2],

    pub piece_bitboards: [BitBoard; 23],
    pub color_bitboards: [BitBoard; 2],
    pub all_pieces_bitboard: BitBoard,
    pub friendly_orthogonal_sliders: BitBoard,
    pub friendly_diagonal_sliders: BitBoard,
    pub enemy_orthogonal_sliders: BitBoard,
    pub enemy_diagonal_sliders: BitBoard,

    pub total_pieces_no_pawns_kings: usize,
    pub game_state_history: Vec<GameState>,
    pub cached_in_check_val: Option<bool>,

    pub white_to_move: bool,
    pub move_color: u8,
    pub opponent_color: u8,
    pub move_color_idx: usize,
    pub opponent_color_idx: usize,
    pub repeat_position_history: Vec<u64>,

    pub plycount: usize,
    pub current_state: GameState,
    pub move_log: Vec<Move>,
}

pub struct BoardUnmakeMove {
    pub mov: Move,
    pub in_search: bool,
}

impl Board {
    pub const WHITE_INDEX: usize = 0;
    pub const BLACK_INDEX: usize = 1;

    /// The bitboards agree with the squares.
    pub open spec fn pieces_consistent(self) -> bool {
        &&& forall|p: int| 0 <= p < 23 ==> #[trigger] self.piece_bitboards[p].0 == squares_where(piece_on(self.square, p))
        &&& self.color_bitboards[0].0 == squares_where(color_on(self.square, true))
        &&& self.color_bitboards[1].0 == squares_where(color_on(self.square, false))
        &&& self.all_pieces_bitboard.0 == self.color_bitboards[0].0 | self.color_bitboards[1].0
    }

    /// The slider bitboards are the rooks and queens, and the bishops and queens, of the side
    /// to move (friendly) and of the other side (enemy).
    pub open spec fn sliders_consistent(self) -> bool {
        &&& self.friendly_orthogonal_sliders.0 == self.piece_bitboards[(Piece::ROOK | self.move_color) as int].0 | self.piece_bitboards[(Piece::QUEEN | self.move_color) as int].0
        &&& self.friendly_diagonal_sliders.0 == self.piece_bitboards[(Piece::BISHOP | self.move_color) as int].0 | self.piece_bitboards[(Piece::QUEEN | self.move_color) as int].0
        &&& self.enemy_orthogonal_sliders.0 == self.piece_bitboards[(Piece::ROOK | self.opponent_color) as int].0 | self.piece_bitboards[(Piece::QUEEN | self.opponent_color) as int].0
        &&& self.enemy_diagonal_sliders.0 == self.piece_bitboards[(Piece::BISHOP | self.opponent_color) as int].0 | self.piece_bitboards[(Piece::QUEEN | self.opponent_color) as int].0
    }

    /// The side fields agree with `white_to_move`.
    pub open spec fn sides_consistent(self) -> bool {
        &&& self.move_color == (if self.white_to_move { Piece::WHITE } else { Piece::BLACK })
        &&& self.opponent_color == (if self.white_to_move { Piece::BLACK } else { Piece::WHITE })
        &&& self.move_color_idx == (if self.white_to_move { 0usize } else { 1usize })
        &&& self.opponent_color_idx == (if self.white_to_move { 1usize } else { 0usize })
    }

    /// The squares hold pieces with a type and a side, and the bitboards agree with them.
    pub open spec fn wf(self) -> bool {
        &&& self.pieces_consistent()
        &&& forall|s: int| 0 <= s < 64 ==> #[trigger] valid_piece_value(self.square[s].0)
    }

    /// No pawn stands on the first or the last rank.
    pub open spec fn pawns_inside(self) -> bool {
        &&& forall|s: int| 0 <= s < 64 && #[trigger] bit(self.piece_bitboards[9].0, s) ==> 1 <= s / 8 <= 6
        &&& forall|s: int| 0 <= s < 64 && #[trigger] bit(self.piece_bitboards[17].0, s) ==> 1 <= s / 8 <= 6
    }

    pub open spec fn king_squares_valid(self) -> bool {
        self.king_square[0].valid() && self.king_square[1].valid()
    }

    /// Whether no pawn stands on the first or the last rank.
    pub fn pawns_inside_now(&self) -> (r: bool)
        ensures
            r == self.pawns_inside(),
    {
        let mut s: i8 = 0;
        while s < 64
            invariant
                0 <= s <= 64,
                forall|q: int| 0 <= q < s && #[trigger] bit(self.piece_bitboards[9].0, q) ==> 1 <= q / 8 <= 6,
                forall|q: int| 0 <= q < s && #[trigger] bit(self.piece_bitboards[17].0, q) ==> 1 <= q / 8 <= 6,
            decreases 64 - s,
        {
            if (s < 8 || s >= 56) && (self.piece_bitboards[9].contains_square(s) || self.piece_bitboards[17].contains_square(s)) {
                return false;
            }
            s += 1;
        }
        true
    }

    pub fn default() -> (r: Self)
        ensures
            forall|s: int| 0 <= s < 64 ==> r.square[s].0 == 0,
            r.pieces_consistent(),
            r.sliders_consistent(),
            r.sides_consistent(),
            r.white_to_move,
            r.king_square[0] == Coord::of_sq(0),
            r.king_square[1] == Coord::of_sq(0),
            r.total_pieces_no_pawns_kings == 0,
            r.game_state_history@.len() == 0,
            r.repeat_position_history@.len() == 0,
            r.move_log@.len() == 0,
            r.cached_in_check_val.is_none(),
            r.plycount == 0,
            r.current_state == (GameState { captured_ptype: 0, en_passant_file: 0, castling_rights: 0, fifty_move_counter: 0, zobrist_key: 0 }),
    {
        let square = [Piece(0); 64];
        let mut piece_bitboards = [BitBoard(0); 23];
        proof {
            broadcast use vstd::array::group_array_axioms;
            assert forall|s: int| 0 <= s < 64 implies #[trigger] square[s].0 == 0 by {
                assert(square@[s] == Piece(0));
            }
            assert forall|p: int| 0 <= p < 23 implies #[trigger] piece_bitboards[p].0 == squares_where(piece_on(square, p)) by {
                assert(piece_bitboards@[p] == BitBoard(0));
                assert forall|s: int| 0 <= s < 64 implies !#[trigger] piece_on(square, p)(s) by {
                    assert(square[s].0 == 0);
                    crate::piece::lemma_null_ptype();
                }
                lemma_empty_mask(piece_on(square, p), 64);
            }
            assert forall|s: int| 0 <= s < 64 implies !#[trigger] color_on(square, true)(s) && !color_on(square, false)(s) by {
                assert(square[s].0 == 0);
                crate::piece::lemma_null_ptype();
            }
            lemma_empty_mask(color_on(square, true), 64);
            lemma_empty_mask(color_on(square, false), 64);
            assert(0u64 | 0u64 == 0u64) by (bit_vector);
        }
        proof {
            crate::piece::lemma_with_color(Piece::ROOK, Piece::WHITE);
            crate::piece::lemma_with_color(Piece::QUEEN, Piece::WHITE);
            crate::piece::lemma_with_color(Piece::BISHOP, Piece::WHITE);
            crate::piece::lemma_with_color(Piece::ROOK, Piece::BLACK);
            crate::piece::lemma_with_color(Piece::QUEEN, Piece::BLACK);
            crate::piece::lemma_with_color(Piece::BISHOP, Piece::BLACK);
            assert(piece_bitboards@[12] == BitBoard(0));
            assert(piece_bitboards@[13] == BitBoard(0));
            assert(piece_bitboards@[11] == BitBoard(0));
            assert(piece_bitboards@[20] == BitBoard(0));
            assert(piece_bitboards@[21] == BitBoard(0));
            assert(piece_bitboards@[19] == BitBoard(0));
        }
        let b = Board {
            square,
            king_square: [Coord::a1(); 2],
            piece_bitboards,
            color_bitboards: [BitBoard(0); 2],
            all_pieces_bitboard: BitBoard(0),
            friendly_orthogonal_sliders: BitBoard(0),
            friendly_diagonal_sliders: BitBoard(0),
            enemy_orthogonal_sliders: BitBoard(0),
            enemy_diagonal_sliders: BitBoard(0),
            total_pieces_no_pawns_kings: 0,
            game_state_history: Vec::new(),
            cached_in_check_val: None,
            white_to_move: true,
            move_color: Piece::WHITE,
            opponent_color: Piece::BLACK,
            move_color_idx: Board::WHITE_INDEX,
            opponent_color_idx: Board::BLACK_INDEX,
            repeat_position_history: Vec::new(),
            plycount: 0,
            current_state: GameState {
                captured_ptype: 0,
                en_passant_file: 0,
                castling_rights: 0,
                fifty_move_counter: 0,
                zobrist_key: 0,
            },
            move_log: Vec::new(),
        };
        b
    }
}

/// The position described by the FEN bytes `b`, with its key from `z`.
pub open spec fn loaded_from(r: Board, b: Seq<u8>, z: Zobrist) -> bool {
    &&& forall|s: int| 0 <= s < 64 ==> #[trigger] r.square[s].0 == fen_squares(b)[s]
    &&& r.pieces_consistent()
    &&& r.sliders_consistent()
    &&& r.sides_consistent()
    &&& r.white_to_move == fen_white(b)
    &&& r.king_square[0] == Coord::of_sq(last_king(r.square, true, 64))
    &&& r.king_square[1] == Coord::of_sq(last_king(r.square, false, 64))
    &&& r.total_pieces_no_pawns_kings == officers_upto(r.square, 64)
    &&& r.current_state.captured_ptype == 0
    &&& r.current_state.en_passant_file == ep_file_of(b)
    &&& r.current_state.castling_rights == fen_castling(b)
    &&& r.current_state.fifty_move_counter == fen_fifty(b)
    &&& r.current_state.zobrist_key == position_key(z, r)
    &&& r.plycount == (fen_move_count(b) - 1) * 2 + (if fen_white(b) { 0int } else { 1int })
    &&& r.game_state_history@ == seq![r.current_state]
    &&& r.repeat_position_history@ == seq![r.current_state.zobrist_key]
    &&& r.move_log@.len() == 0
    &&& r.cached_in_check_val.is_none()
}

/// The bytes a position is loaded from: the given FEN string, or the start position.
pub open spec fn fen_source(fen_str: Option<String>) -> Seq<u8> {
    match fen_str {
        Some(s) => vstd::utf8::encode_utf8(s@),
        None => vstd::utf8::encode_utf8(fen::START_FEN@),
    }
}

/// The squares holding piece value `p`.
fn pieces_mask(sq: &[Piece; 64], p: u8) -> (r: u64)
    ensures
        r == squares_where(piece_on(*sq, p as int)),
{
    let mut r: u64 = 0;
    let mut i: usize = 0;
    while i < 64
        invariant
            i <= 64,
            r == mask_upto(piece_on(*sq, p as int), i as nat),
        decreases 64 - i,
    {
        let c = sq[i].0 & 7 != 0 && sq[i].0 == p;
        proof {
            lemma_mask_step(piece_on(*sq, p as int), i as nat);
        }
        r = r | (if c { 1u64 << (i as u64) } else { 0u64 });
        i += 1;
    }
    r
}

/// The squares holding a piece of the white side (`w`) or of the other side.
fn colors_mask(sq: &[Piece; 64], w: bool) -> (r: u64)
    ensures
        r == squares_where(color_on(*sq, w)),
{
    let mut r: u64 = 0;
    let mut i: usize = 0;
    while i < 64
        invariant
            i <= 64,
            r == mask_upto(color_on(*sq, w), i as nat),
        decreases 64 - i,
    {
        let v = sq[i].0;
        let c = v & 7 != 0 && v <= 22 && ((v & 24 == Piece::WHITE) == w);
        proof {
            lemma_mask_step(color_on(*sq, w), i as nat);
        }
        r = r | (if c { 1u64 << (i as u64) } else { 0u64 });
        i += 1;
    }
    r
}

impl Board {
    /// Sets up the position of a FEN string, or the start position.
    pub fn load_position(fen_str: Option<String>, zobrist: &mut Zobrist) -> (r: Self)
        requires
            1 <= fen_move_count(fen_source(fen_str)) <= 0x3FFF_FFFF,
        ensures
            loaded_from(r, fen_source(fen_str), *old(zobrist)),
            *final(zobrist) == *old(zobrist),
    {
        let ghost src = fen_source(fen_str);
        let loaded_pos = match fen_str {
            Some(s) => fen::position_from_fen(s),
            None => fen::position_from_fen(fen::START_FEN.to_owned()),
        };
        let mut square = [Piece(0); 64];
        let mut i: usize = 0;
        while i < 64
            invariant
                i <= 64,
                forall|j: int| 0 <= j < i ==> #[trigger] square[j].0 == loaded_pos.squares[j],
            decreases 64 - i,
        {
            square[i] = Piece::new(loaded_pos.squares[i]);
            i += 1;
        }
        let mut piece_bitboards = [BitBoard(0); 23];
        let mut p: usize = 0;
        while p < 23
            invariant
                p <= 23,
                forall|q: int| 0 <= q < p ==> #[trigger] piece_bitboards[q].0 == squares_where(piece_on(square, q)),
            decreases 23 - p,
        {
            piece_bitboards[p] = BitBoard(pieces_mask(&square, p as u8));
            p += 1;
        }
        let white_bb = colors_mask(&square, true);
        let black_bb = colors_mask(&square, false);

        let mut king_square = [Coord::a1(); 2];
        let mut total: usize = 0;
        let mut s: usize = 0;
        proof {
            broadcast use vstd::array::group_array_axioms;
        }
        while s < 64
            invariant
                s <= 64,
                king_square[0] == Coord::of_sq(last_king(square, true, s as nat)),
                king_square[1] == Coord::of_sq(last_king(square, false, s as nat)),
                total == officers_upto(square, s as nat),
                total <= s,
            decreases 64 - s,
        {
            let piece = square[s];
            let ptype = piece.piece_type();
            if ptype != Piece::NONE {
                let color_idx = if piece.is_color(Piece::WHITE) { 0 } else { 1 };
                if ptype == Piece::KING {
                    king_square[color_idx] = Coord::from_idx(s as i8);
                }
                total += if ptype == Piece::KING || ptype == Piece::PAWN { 0 } else { 1 };
            }
            s += 1;
        }

        let white_to_move = loaded_pos.white_to_move;
        let move_color = if white_to_move { Piece::WHITE } else { Piece::BLACK };
        let opponent_color = if white_to_move { Piece::BLACK } else { Piece::WHITE };
        let move_color_idx: usize = if white_to_move { 0 } else { 1 };

        let c1: u8 = if loaded_pos.white_castle_kingside { 1 } else { 0 };
        let c2: u8 = if loaded_pos.white_castle_queenside { 2 } else { 0 };
        let c3: u8 = if loaded_pos.black_castle_kingside { 4 } else { 0 };
        let c4: u8 = if loaded_pos.black_castle_queenside { 8 } else { 0 };
        let castling_rights = c1 | c2 | c3 | c4;

        let plycount = ((loaded_pos.move_count - 1) as usize) * 2 + (if white_to_move { 0 } else { 1 });
        let mut board = Board {
            square,
            king_square,
            piece_bitboards,
            color_bitboards: [BitBoard(white_bb), BitBoard(black_bb)],
            all_pieces_bitboard: BitBoard(white_bb | black_bb),
            friendly_orthogonal_sliders: BitBoard(0),
            friendly_diagonal_sliders: BitBoard(0),
            enemy_orthogonal_sliders: BitBoard(0),
            enemy_diagonal_sliders: BitBoard(0),
            total_pieces_no_pawns_kings: total,
            game_state_history: Vec::new(),
            cached_in_check_val: None,
            white_to_move,
            move_color,
            opponent_color,
            move_color_idx,
            opponent_color_idx: 1 - move_color_idx,
            repeat_position_history: Vec::new(),
            plycount,
            current_state: GameState {
                captured_ptype: Piece::NONE,
                en_passant_file: loaded_pos.ep_file,
                castling_rights,
                fifty_move_counter: loaded_pos.fifty_move_ply_count,
                zobrist_key: 0,
            },
            move_log: Vec::new(),
        };
        board.update_slider_bitboards();
        let zobrist_key = zobrist.calc_zobrist_key(&board);
        board.current_state.zobrist_key = zobrist_key;
        board.repeat_position_history.push(zobrist_key);
        board.game_state_history.push(board.current_state);
        proof {
            assert(board.square == square);
            assert(board.game_state_history@ =~= seq![board.current_state]);
            assert(board.repeat_position_history@ =~= seq![board.current_state.zobrist_key]);
        }
        board
    }

    /// Recomputes the slider bitboards of both sides from the piece bitboards.
    pub fn update_slider_bitboards(&mut self)
        requires
            old(self).move_color == 8 || old(self).move_color == 16,
            old(self).opponent_color == 8 || old(self).opponent_color == 16,
        ensures
            final(self).sliders_consistent(),
            *final(self) == (Board {
                friendly_orthogonal_sliders: final(self).friendly_orthogonal_sliders,
                friendly_diagonal_sliders: final(self).friendly_diagonal_sliders,
                enemy_orthogonal_sliders: final(self).enemy_orthogonal_sliders,
                enemy_diagonal_sliders: final(self).enemy_diagonal_sliders,
                ..*old(self)
            }),
    {
        proof {
            crate::piece::lemma_with_color(Piece::ROOK, self.move_color);
            crate::piece::lemma_with_color(Piece::QUEEN, self.move_color);
            crate::piece::lemma_with_color(Piece::BISHOP, self.move_color);
            crate::piece::lemma_with_color(Piece::ROOK, self.opponent_color);
            crate::piece::lemma_with_color(Piece::QUEEN, self.opponent_color);
            crate::piece::lemma_with_color(Piece::BISHOP, self.opponent_color);
        }
        let friendly_rook = Piece::new(Piece::ROOK | self.move_color);
        let friendly_queen = Piece::new(Piece::QUEEN | self.move_color);
        let friendly_bishop = Piece::new(Piece::BISHOP | self.move_color);
        self.friendly_orthogonal_sliders = self.piece_bitboards[friendly_rook.index()].or(self.piece_bitboards[friendly_queen.index()]);
        self.friendly_diagonal_sliders = self.piece_bitboards[friendly_bishop.index()].or(self.piece_bitboards[friendly_queen.index()]);

        let enemy_rook = Piece::new(Piece::ROOK | self.opponent_color);
        let enemy_queen = Piece::new(Piece::QUEEN | self.opponent_color);
        let enemy_bishop = Piece::new(Piece::BISHOP | self.opponent_color);
        self.enemy_orthogonal_sliders = self.piece_bitboards[enemy_rook.index()].or(self.piece_bitboards[enemy_queen.index()]);
        self.enemy_diagonal_sliders = self.piece_bitboards[enemy_bishop.index()].or(self.piece_bitboards[enemy_queen.index()]);
    }
}

pub proof fn lemma_empty_mask(p: spec_fn(int) -> bool, n: nat)
    requires
        forall|s: int| 0 <= s < n ==> !#[trigger] p(s),
    ensures
        mask_upto(p, n) == 0,
    decreases n,
{
    if n > 0 {
        lemma_empty_mask(p, (n - 1) as nat);
        assert(0u64 | 0u64 == 0u64) by (bit_vector);
    }
}

} // verus!
