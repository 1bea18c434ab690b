//! Changing one square of a position while its bitboards follow.
use vstd::prelude::*;
use crate::bitboard::{BitBoard, bit, squares_where, square_bb, lemma_mask_bit, lemma_bit_ops,
    lemma_square_bit, lemma_no_bits_zero};
use crate::piece::Piece;
use crate::board::{Board, valid_piece_value, lemma_valid_piece, piece_on, color_on, officers_upto};

verus! {

/// Two boards with the same squares are equal.
pub proof fn lemma_eq_bits(x: u64, y: u64)
    requires
        forall|j: int| 0 <= j < 64 ==> bit(x, j) == bit(y, j),
    ensures
        x == y,
{
    assert forall|j: int| 0 <= j < 64 implies !bit(x ^ y, j) by {
        lemma_bit_ops(x, y, j);
    }
    lemma_no_bits_zero(x ^ y);
    assert(x ^ y == 0u64 ==> x == y) by (bit_vector);
}

/// A board whose squares are those of a predicate is the board of that predicate.
pub proof fn lemma_board_of(x: u64, p: spec_fn(int) -> bool)
    requires
        forall|j: int| 0 <= j < 64 ==> bit(x, j) == p(j),
    ensures
        x == squares_where(p),
{
    assert forall|j: int| 0 <= j < 64 implies bit(x, j) == bit(squares_where(p), j) by {
        lemma_mask_bit(p, 64, j);
    }
    lemma_eq_bits(x, squares_where(p));
}

/// The number of pieces other than pawns and kings, square by square.
pub open spec fn is_officer(p: Piece) -> bool {
    p.ptype() != 0 && p.ptype() != 1 && p.ptype() != 6
}

/// Putting `v` on square `s` changes the count of officers by what leaves and what comes.
pub proof fn lemma_officers_update(sq: [Piece; 64], sq2: [Piece; 64], s: int, v: Piece, n: nat)
    requires
        0 <= s < 64,
        n <= 64,
        sq2@ == sq@.update(s, v),
    ensures
        officers_upto(sq2, n) + (if s < n && is_officer(sq[s]) { 1int } else { 0int })
            == officers_upto(sq, n) + (if s < n && is_officer(v) { 1int } else { 0int }),
    decreases n,
{
    if n > 0 {
        lemma_officers_update(sq, sq2, s, v, (n - 1) as nat);
        assert(sq2[n - 1] == sq2@[n - 1]);
        assert(sq[n - 1] == sq@[n - 1]);
    }
}

impl Board {
    /// The count of pieces other than pawns and kings agrees with the squares.
    pub open spec fn count_consistent(self) -> bool {
        self.total_pieces_no_pawns_kings == officers_upto(self.square, 64)
    }

    /// Puts `v` on square `s` (the empty piece empties it); the piece, color and occupancy
    /// bitboards follow, and nothing else changes.
    pub fn put(&mut self, s: usize, v: Piece)
        requires
            s < 64,
            old(self).wf(),
            valid_piece_value(v.0),
        ensures
            final(self).wf(),
            final(self).square@ == old(self).square@.update(s as int, v),
            *final(self) == (Board {
                square: final(self).square,
                piece_bitboards: final(self).piece_bitboards,
                color_bitboards: final(self).color_bitboards,
                all_pieces_bitboard: final(self).all_pieces_bitboard,
                ..*old(self)
            }),
            officers_upto(final(self).square, 64) + (if is_officer(old(self).square[s as int]) { 1int } else { 0int })
                == officers_upto(old(self).square, 64) + (if is_officer(v) { 1int } else { 0int }),
    {
        let ghost b0 = *self;
        let old_piece = self.square[s];
        let si = s as i8;
        proof {
            assert(valid_piece_value(b0.square[s as int].0));
            lemma_valid_piece(old_piece.0);
            lemma_valid_piece(v.0);
        }
        if old_piece.0 & 7 != 0 {
            let oi = old_piece.0 as usize;
            let mut bb = self.piece_bitboards[oi];
            bb.clear_square(si);
            self.piece_bitboards[oi] = bb;
            let ci = old_piece.color_index();
            let mut cb = self.color_bitboards[ci];
            cb.clear_square(si);
            self.color_bitboards[ci] = cb;
        }
        let ghost b1 = *self;
        self.square[s] = v;
        if v.0 & 7 != 0 {
            let vi = v.0 as usize;
            let mut bb = self.piece_bitboards[vi];
            bb.set_square(si);
            self.piece_bitboards[vi] = bb;
            let ci = v.color_index();
            let mut cb = self.color_bitboards[ci];
            cb.set_square(si);
            self.color_bitboards[ci] = cb;
        }
        self.all_pieces_bitboard = BitBoard(self.color_bitboards[0].0 | self.color_bitboards[1].0);
        proof {
            let sq0 = b0.square;
            let sq2 = self.square;
            assert(sq2@ == sq0@.update(s as int, v));
            assert forall|j: int| 0 <= j < 64 implies #[trigger] valid_piece_value(sq2[j].0) by {
                if j != s {
                    assert(sq2[j] == sq0[j]);
                }
            }
            assert forall|p: int| 0 <= p < 23 implies #[trigger] self.piece_bitboards[p].0
                == squares_where(piece_on(sq2, p)) by {
                assert forall|j: int| 0 <= j < 64 implies bit(self.piece_bitboards[p].0, j)
                    == piece_on(sq2, p)(j) by {
                    lemma_mask_bit(piece_on(sq0, p), 64, j);
                    lemma_square_bit(s as int, j);
                    lemma_bit_ops(b0.piece_bitboards[p].0, !square_bb(s as int), j);
                    lemma_bit_ops(square_bb(s as int), square_bb(s as int), j);
                    lemma_bit_ops(b1.piece_bitboards[p].0, square_bb(s as int), j);
                    if j != s {
                        assert(sq2[j] == sq0[j]);
                    }
                }
                lemma_board_of(self.piece_bitboards[p].0, piece_on(sq2, p));
            }
            assert forall|c: int| 0 <= c < 2 implies #[trigger] self.color_bitboards[c].0
                == squares_where(color_on(sq2, c == 0)) by {
                assert forall|j: int| 0 <= j < 64 implies bit(self.color_bitboards[c].0, j)
                    == color_on(sq2, c == 0)(j) by {
                    lemma_mask_bit(color_on(sq0, c == 0), 64, j);
                    lemma_square_bit(s as int, j);
                    lemma_bit_ops(b0.color_bitboards[c].0, !square_bb(s as int), j);
                    lemma_bit_ops(square_bb(s as int), square_bb(s as int), j);
                    lemma_bit_ops(b1.color_bitboards[c].0, square_bb(s as int), j);
                    if j != s {
                        assert(sq2[j] == sq0[j]);
                    }
                }
                lemma_board_of(self.color_bitboards[c].0, color_on(sq2, c == 0));
            }
            lemma_officers_update(sq0, sq2, s as int, v, 64);
        }
    }
}

} // verus!
