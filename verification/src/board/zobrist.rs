//! Random keys whose exclusive or identifies a position.
use vstd::prelude::*;
use crate::prng::{PRNG, xorshift, scramble};

verus! {

pub const ZOBRIST_SEED: u64 = 29_426_028;

/// The seed after `n` rounds.
pub open spec fn seed_after(n: nat) -> u64
    decreases n,
{
    if n == 0 { ZOBRIST_SEED } else { xorshift(seed_after((n - 1) as nat)) }
}

/// The `n`th number drawn (from 1).
pub open spec fn draw(n: nat) -> u64 {
    scramble(seed_after(n))
}

pub struct Zobrist {
    /// Indexed by square, then by piece value.
    pub pieces_array: [[u64; 23]; 64],
    /// Indexed by the castling rights bits.
    pub castling_rights: [u64; 16],
    /// Indexed by the en passant file (0 for none).
    pub en_passant_file: [u64; 9],
    pub side_to_move: u64,
}

impl Zobrist {
    /// Keys drawn in order: the pieces (square by square), then the castling rights, then the
    /// en passant files, then the side to move. "No en passant file" has the key zero.
    pub fn new() -> (r: Zobrist)
        ensures
            forall|s: int, p: int| 0 <= s < 64 && 0 <= p < 23 ==> #[trigger] r.pieces_array[s][p] == draw((s * 23 + p + 1) as nat),
            forall|c: int| 0 <= c < 16 ==> #[trigger] r.castling_rights[c] == draw((64 * 23 + c + 1) as nat),
            r.en_passant_file[0] == 0,
            forall|e: int| 1 <= e < 9 ==> #[trigger] r.en_passant_file[e] == draw((64 * 23 + 16 + e) as nat),
            r.side_to_move == draw(64 * 23 + 16 + 8 + 1),
    {
        let mut rng = PRNG::new(ZOBRIST_SEED);
        let mut pieces_array = [[0u64; 23]; 64];
        let mut s: usize = 0;
        while s < 64
            invariant
                s <= 64,
                rng.seed == seed_after((s * 23) as nat),
                forall|i: int, p: int| 0 <= i < s && 0 <= p < 23 ==> #[trigger] pieces_array[i][p] == draw((i * 23 + p + 1) as nat),
            decreases 64 - s,
        {
            let mut row = [0u64; 23];
            let mut p: usize = 0;
            while p < 23
                invariant
                    s < 64,
                    p <= 23,
                    rng.seed == seed_after((s * 23 + p) as nat),
                    forall|q: int| 0 <= q < p ==> #[trigger] row[q] == draw((s * 23 + q + 1) as nat),
                decreases 23 - p,
            {
                row[p] = rng.gen();
                p += 1;
            }
            pieces_array[s] = row;
            s += 1;
        }
        let mut castling_rights = [0u64; 16];
        let mut c: usize = 0;
        while c < 16
            invariant
                c <= 16,
                rng.seed == seed_after((64 * 23 + c) as nat),
                forall|q: int| 0 <= q < c ==> #[trigger] castling_rights[q] == draw((64 * 23 + q + 1) as nat),
            decreases 16 - c,
        {
            castling_rights[c] = rng.gen();
            c += 1;
        }
        let mut en_passant_file = [0u64; 9];
        let mut e: usize = 1;
        while e < 9
            invariant
                1 <= e <= 9,
                rng.seed == seed_after((64 * 23 + 16 + e - 1) as nat),
                en_passant_file[0] == 0,
                forall|q: int| 1 <= q < e ==> #[trigger] en_passant_file[q] == draw((64 * 23 + 16 + q) as nat),
            decreases 9 - e,
        {
            en_passant_file[e] = rng.gen();
            e += 1;
        }
        let side_to_move = rng.gen();
        Zobrist { pieces_array, castling_rights, en_passant_file, side_to_move }
    }
}

} // verus!

verus! {

/// The key of piece `p` on square `s` (zero for the empty square).
pub open spec fn piece_key(z: Zobrist, s: int, p: crate::piece::Piece) -> u64 {
    if p.0 != 0 && p.0 < 23 { z.pieces_array[s][p.0 as int] } else { 0u64 }
}

/// The exclusive or of the keys of the pieces on the squares below `n`.
pub open spec fn pieces_key(z: Zobrist, sq: Seq<crate::piece::Piece>, n: nat) -> u64
    decreases n,
{
    if n == 0 {
        0
    } else {
        pieces_key(z, sq, (n - 1) as nat) ^ piece_key(z, n - 1, sq[n - 1])
    }
}

/// Putting `v` on square `s` changes the pieces' key by the keys of the old and the new piece
/// there.
pub proof fn lemma_pieces_key_update(z: Zobrist, sq: Seq<crate::piece::Piece>, s: int, v: crate::piece::Piece, n: nat)
    requires
        0 <= s < sq.len(),
        n <= sq.len(),
    ensures
        pieces_key(z, sq.update(s, v), n) == (if s < n {
            pieces_key(z, sq, n) ^ piece_key(z, s, sq[s]) ^ piece_key(z, s, v)
        } else {
            pieces_key(z, sq, n)
        }),
    decreases n,
{
    if n > 0 {
        lemma_pieces_key_update(z, sq, s, v, (n - 1) as nat);
        let a = pieces_key(z, sq, (n - 1) as nat);
        let k1 = piece_key(z, s, sq[s]);
        let k2 = piece_key(z, s, v);
        let x = piece_key(z, n - 1, sq[n - 1]);
        if s < n - 1 {
            crate::bitboard::lemma_xor(a ^ k1, k2, x);
            crate::bitboard::lemma_xor(a, k1, x);
        } else if s == n - 1 {
            crate::bitboard::lemma_xor(a, k1, k2);
        }
    }
}

/// The key of a position: its pieces, castling rights, en passant file and side to move.
pub open spec fn position_key(z: Zobrist, b: crate::board::Board) -> u64 {
    pieces_key(z, b.square@, 64)
        ^ z.castling_rights[(b.current_state.castling_rights & 15u8) as int]
        ^ z.en_passant_file[if 0 <= b.current_state.en_passant_file < 9 { b.current_state.en_passant_file as int } else { 0 }]
        ^ (if b.white_to_move { 0u64 } else { z.side_to_move })
}

impl Zobrist {
    pub fn calc_zobrist_key(&self, board: &crate::board::Board) -> (r: u64)
        ensures
            r == position_key(*self, *board),
    {
        let mut key: u64 = 0;
        let mut s: usize = 0;
        while s < 64
            invariant
                s <= 64,
                key == pieces_key(*self, board.square@, s as nat),
            decreases 64 - s,
        {
            let p = board.square[s].0;
            key = key ^ (if p != 0 && p < 23 { self.pieces_array[s][p as usize] } else { 0 });
            s += 1;
        }
        let rights = board.current_state.castling_rights & 15;
        proof {
            let cr = board.current_state.castling_rights;
            crate::bitboard::lemma_u8_bits(cr, 15u8);
        }
        key = key ^ self.castling_rights[rights as usize];
        let ep = board.current_state.en_passant_file;
        key = key ^ self.en_passant_file[if 0 <= ep && ep < 9 { ep as usize } else { 0 }];
        key = key ^ (if board.white_to_move { 0 } else { self.side_to_move });
        key
    }
}

} // verus!
