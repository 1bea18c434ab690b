//! Moves in the long algebraic notation of the UCI protocol (`e2e4`, `e7e8q`).
use vstd::prelude::*;
use crate::board::Board;
use crate::board::moves::Move;
use crate::coord::Coord;
use crate::piece::Piece;
use crate::move_gen::mk_move;
use vstd::string::StringSliceAdditionalSpecFns;
use crate::utils::text::{
    char_views, chars_of, find_word, parse_u64, parse_u64_chars, split_tokens, string_of, strings_from, texts,
    tokens, word_index,
};
use crate::search::options::SearchOptions;
use vstd::string::StringExecFns;

verus! {

/// The square named by a file letter and a rank digit.
pub open spec fn square_of_name(f: u8, r: u8) -> Option<int> {
    if 97 <= f <= 104 && 49 <= r <= 56 { Some((r - 49) * 8 + (f - 97)) } else { None }
}

/// The flag of the move from `s` to `t` written as `b`: a pawn's promotion letter, double step or
/// en passant capture (a diagonal step to an empty square), a king's castling (a step of two
/// files), else a normal move.
pub open spec fn flag_of_name(board: Board, b: Seq<u8>, s: int, t: int) -> int {
    let piece = board.square[s].ptype();
    if piece == Piece::PAWN {
        if b.len() > 4 {
            let c = b.last();
            if c == 110 { 4 } else if c == 98 { 6 } else if c == 114 { 5 } else if c == 113 { 3 } else { 0 }
        } else if crate::coord::abs(t / 8 - s / 8) == 2 {
            7
        } else if s % 8 != t % 8 && board.square[t].ptype() == 0 {
            1
        } else {
            0
        }
    } else if piece == Piece::KING {
        if crate::coord::abs(s % 8 - t % 8) > 1 { 2 } else { 0 }
    } else {
        0
    }
}

/// The move a name stands for on `board`: the squares from its first four characters, the
/// flag from the moving piece; none for a name too short or naming no squares.
pub open spec fn move_of_name(board: Board, b: Seq<u8>) -> Option<Move> {
    if b.len() < 4 {
        None
    } else {
        match (square_of_name(b[0], b[1]), square_of_name(b[2], b[3])) {
            (Some(s), Some(t)) => Some(mk_move(s, t, flag_of_name(board, b, s, t))),
            _ => None,
        }
    }
}

/// The name of a move: its squares, then the promotion letter.
pub open spec fn name_of_move(m: Move) -> Seq<u8> {
    let s = m.start_sq();
    let t = m.target_sq();
    let f = m.flag();
    seq![(97 + s % 8) as u8, (49 + s / 8) as u8, (97 + t % 8) as u8, (49 + t / 8) as u8]
        + (if f == 4 { seq![110u8] } else if f == 6 { seq![98u8] } else if f == 5 { seq![114u8] }
            else if f == 3 { seq![113u8] } else { Seq::empty() })
}

fn square_from_name(f: u8, r: u8) -> (res: Option<Coord>)
    ensures
        res == (match square_of_name(f, r) { Some(s) => Some(Coord::of_sq(s)), None => None }),
        res is Some ==> res->0.valid(),
{
    if 97 <= f && f <= 104 && 49 <= r && r <= 56 {
        Some(Coord::new((f - 97) as i8, (r - 49) as i8))
    } else {
        None
    }
}

/// Byte `i` of the UTF-8 text `b` starts a character (or ends the text).
pub open spec fn starts_char(b: Seq<u8>, i: int) -> bool {
    i == b.len() || !(128 <= b[i] < 192)
}

/// The move named `m` on `board`; see `move_of_name`. The squares are read from the first two
/// and the next two bytes of the name, which must each hold whole characters. A square name
/// is ASCII, so a name with another character there names no move, and a promotion letter
/// other than `n`, `b`, `r` or `q` makes a normal move.
pub fn move_from_name(board: &Board, m: &str) -> (r: Option<Move>)
    requires
        m.spec_bytes().len() >= 4 ==> starts_char(m.spec_bytes(), 2) && starts_char(m.spec_bytes(), 4),
    ensures
        r == move_of_name(*board, m.spec_bytes()),
{
    let b = m.as_bytes();
    if b.len() < 4 {
        return None;
    }
    let start_sqr = match square_from_name(b[0], b[1]) {
        Some(c) => c,
        None => return None,
    };
    let target_sqr = match square_from_name(b[2], b[3]) {
        Some(c) => c,
        None => return None,
    };
    let piece = board.square[start_sqr.index()].piece_type();
    let flag: u8 = if piece == Piece::PAWN {
        if b.len() > 4 {
            let c = b[b.len() - 1];
            if c == 110 { Move::KNIGHT_PROMOTION } else if c == 98 { Move::BISHOP_PROMOTION }
            else if c == 114 { Move::ROOK_PROMOTION } else if c == 113 { Move::QUEEN_PROMOTION }
            else { Move::NORMAL }
        } else if target_sqr.rank() - start_sqr.rank() == 2 || start_sqr.rank() - target_sqr.rank() == 2 {
            Move::PAWN_TWO_FORWARD
        } else if start_sqr.file() != target_sqr.file() && board.square[target_sqr.index()].piece_type() == Piece::NONE {
            Move::EN_PASSANT_CAPTURE
        } else {
            Move::NORMAL
        }
    } else if piece == Piece::KING {
        if start_sqr.file() - target_sqr.file() > 1 || target_sqr.file() - start_sqr.file() > 1 {
            Move::CASTLING
        } else {
            Move::NORMAL
        }
    } else {
        Move::NORMAL
    };
    Some(Move::from_start_end_flagged(start_sqr.square(), target_sqr.square(), flag))
}

/// The name of `m`; see `name_of_move`.
pub fn name_from_move(m: Move) -> (r: Option<String>)
    ensures
        r is Some,
        r->0@ == crate::utils::fen::ascii_chars(name_of_move(m)),
{
    let s = m.start_idx();
    let t = m.target_idx();
    let mut name: Vec<u8> = Vec::new();
    name.push((97 + s % 8) as u8);
    name.push((49 + s / 8) as u8);
    name.push((97 + t % 8) as u8);
    name.push((49 + t / 8) as u8);
    let flag = m.move_flag();
    if flag == Move::KNIGHT_PROMOTION {
        name.push(110);
    } else if flag == Move::BISHOP_PROMOTION {
        name.push(98);
    } else if flag == Move::ROOK_PROMOTION {
        name.push(114);
    } else if flag == Move::QUEEN_PROMOTION {
        name.push(113);
    }
    proof {
        assert(name@ =~= name_of_move(m));
    }
    Some(crate::utils::fen::ascii_string(name))
}

/// Reading back the name of a move gives its squares, and for a pawn its promotion.
pub proof fn lemma_name_round_trip(board: Board, m: Move)
    ensures
        move_of_name(board, name_of_move(m)) is Some,
        move_of_name(board, name_of_move(m))->0.start_sq() == m.start_sq(),
        move_of_name(board, name_of_move(m))->0.target_sq() == m.target_sq(),
        board.square[m.start_sq()].ptype() == Piece::PAWN && crate::board::moves::is_promotion_flag(m.flag())
            ==> move_of_name(board, name_of_move(m))->0.flag() == m.flag(),
{
    crate::board::moves::lemma_move_parts(m);
    let s = m.start_sq();
    let t = m.target_sq();
    let b = name_of_move(m);
    assert(square_of_name(b[0], b[1]) == Some(s));
    assert(square_of_name(b[2], b[3]) == Some(t));
    let f = flag_of_name(board, b, s, t);
    assert(0 <= f < 16);
    crate::board::moves::lemma_pack(s as u16, t as u16, f as u16);
}

/// A move read from a name: its squares are the two named, the castling flag goes exactly to a
/// king moving two files or more, a king stepping at most one file makes a normal move, and a
/// piece other than a pawn or a king always makes a normal move.
pub proof fn lemma_name_flags(board: Board, b: Seq<u8>)
    ensures
        move_of_name(board, b) matches Some(mv) ==> {
            let s = mv.start_sq();
            let t = mv.target_sq();
            let king = board.square[s].ptype() == Piece::KING;
            &&& b.len() >= 4
            &&& square_of_name(b[0], b[1]) == Some(s)
            &&& square_of_name(b[2], b[3]) == Some(t)
            &&& (mv.flag() == 2 <==> king && crate::coord::abs(s % 8 - t % 8) >= 2)
            &&& king && crate::coord::abs(s % 8 - t % 8) <= 1 ==> mv.flag() == 0
            &&& board.square[s].ptype() != Piece::PAWN && !king ==> mv.flag() == 0
        },
{
    if b.len() >= 4 {
        match (square_of_name(b[0], b[1]), square_of_name(b[2], b[3])) {
            (Some(s), Some(t)) => {
                let f = flag_of_name(board, b, s, t);
                assert(0 <= f < 16);
                crate::board::moves::lemma_pack(s as u16, t as u16, f as u16);
            },
            _ => {},
        }
    }
}

/// The flag a pawn's move gets from its name: a name longer than four characters promotes by
/// its last letter (`n`, `b`, `r`, `q`; another letter makes a normal move); a four-letter name
/// is a double push when the ranks are two apart, an en passant capture when it changes file
/// onto an empty square, and otherwise a normal move.
pub proof fn lemma_pawn_name_flags(board: Board, b: Seq<u8>)
    ensures
        move_of_name(board, b) matches Some(mv) ==> {
            let s = mv.start_sq();
            let t = mv.target_sq();
            board.square[s].ptype() == Piece::PAWN ==> {
                &&& b.len() > 4 ==> mv.flag() == (if b.last() == 110 { 4int } else if b.last() == 98 { 6int }
                    else if b.last() == 114 { 5int } else if b.last() == 113 { 3int } else { 0int })
                &&& b.len() == 4 && crate::coord::abs(t / 8 - s / 8) == 2 ==> mv.flag() == 7
                &&& b.len() == 4 && crate::coord::abs(t / 8 - s / 8) != 2 && s % 8 != t % 8
                    && board.square[t].ptype() == 0 ==> mv.flag() == 1
                &&& b.len() == 4 && crate::coord::abs(t / 8 - s / 8) != 2
                    && (s % 8 == t % 8 || board.square[t].ptype() != 0) ==> mv.flag() == 0
            }
        },
{
    lemma_name_flags(board, b);
    if b.len() >= 4 {
        match (square_of_name(b[0], b[1]), square_of_name(b[2], b[3])) {
            (Some(s), Some(t)) => {
                let f = flag_of_name(board, b, s, t);
                assert(0 <= f < 16);
                crate::board::moves::lemma_pack(s as u16, t as u16, f as u16);
            },
            _ => {},
        }
    }
}

/// The display name of a move: `O-O` or `O-O-O` for castling (by the target file), else the
/// squares and the promotion letter.
pub open spec fn display_name(m: Move) -> Seq<u8> {
    if m.flag() == 2 {
        if m.target_sq() % 8 == 6 { seq![79u8, 45u8, 79u8] } else { seq![79u8, 45u8, 79u8, 45u8, 79u8] }
    } else {
        name_of_move(m)
    }
}

impl Move {
    /// The display name of the move; see `display_name`.
    pub fn name(&self) -> (r: String)
        ensures
            r@ == crate::utils::fen::ascii_chars(display_name(*self)),
    {
        let mut v: Vec<u8> = Vec::new();
        if self.move_flag() == Move::CASTLING {
            v.push(79);
            v.push(45);
            v.push(79);
            if self.target().file() != 6 {
                v.push(45);
                v.push(79);
            }
            proof {
                assert(v@ =~= display_name(*self));
            }
            return crate::utils::fen::ascii_string(v);
        }
        let s = self.start_idx();
        let t = self.target_idx();
        v.push((97 + s % 8) as u8);
        v.push((49 + s / 8) as u8);
        v.push((97 + t % 8) as u8);
        v.push((49 + t / 8) as u8);
        let flag = self.move_flag();
        if flag == Move::KNIGHT_PROMOTION {
            v.push(110);
        } else if flag == Move::BISHOP_PROMOTION {
            v.push(98);
        } else if flag == Move::ROOK_PROMOTION {
            v.push(114);
        } else if flag == Move::QUEEN_PROMOTION {
            v.push(113);
        }
        proof {
            assert(v@ =~= display_name(*self));
        }
        crate::utils::fen::ascii_string(v)
    }
}

/// What a `position` command asks for: a FEN (none for the start position) and the names of
/// the moves to make from there.
pub struct PositionCommand {
    pub fen: Option<String>,
    pub moves: Vec<String>,
}

/// Words joined with single spaces.
pub open spec fn joined(ws: Seq<Seq<char>>) -> Seq<char>
    decreases ws.len(),
{
    if ws.len() == 0 {
        Seq::empty()
    } else if ws.len() == 1 {
        ws[0]
    } else {
        joined(ws.drop_last()) + seq![' '] + ws.last()
    }
}

/// The words of a `position` command read: `startpos` anywhere gives the start position, else
/// the six words after the first `fen` give the FEN (none if fewer follow); without either
/// the command says nothing. The moves are the words after the first `moves`.
pub open spec fn position_of(toks: Seq<Seq<char>>) -> Option<(Option<Seq<char>>, Seq<Seq<char>>)> {
    let moves = match word_index(toks, seq!['m', 'o', 'v', 'e', 's']) {
        Some(i) => toks.skip(i + 1),
        None => Seq::empty(),
    };
    if toks.contains(seq!['s', 't', 'a', 'r', 't', 'p', 'o', 's']) {
        Some((None, moves))
    } else {
        match word_index(toks, seq!['f', 'e', 'n']) {
            Some(i) => if i + 7 <= toks.len() {
                Some((Some(joined(toks.subrange(i + 1, i + 7))), moves))
            } else {
                None
            },
            None => None,
        }
    }
}

/// Reads a `position` command; see `position_of`.
pub fn position_command(cmd: &String) -> (r: Option<PositionCommand>)
    ensures
        ({
            let toks = tokens(cmd@);
            match r {
                Some(pc) => position_of(toks) == Some((
                    match pc.fen { Some(f) => Some(f@), None => None::<Seq<char>> },
                    texts(pc.moves@),
                )),
                None => position_of(toks) is None,
            }
        }),
{
    let cs = chars_of(cmd);
    let toks = split_tokens(cs.as_slice());
    let ghost v = char_views(toks@);
    let n = toks.len();
    let moves = match find_word(&toks, &['m', 'o', 'v', 'e', 's']) {
        Some(i) => strings_from(&toks, i + 1),
        None => {
            let e: Vec<String> = Vec::new();
            proof { assert(texts(e@) =~= Seq::<Seq<char>>::empty()); }
            e
        },
    };
    let start = find_word(&toks, &['s', 't', 'a', 'r', 't', 'p', 'o', 's']);
    proof {
        let sp = seq!['s', 't', 'a', 'r', 't', 'p', 'o', 's'];
        if start is Some {
            crate::utils::text::lemma_word_index_holds(v, sp, 0);
            assert(v[start->0 as int] == sp);
            assert(v.contains(sp));
        } else if v.contains(sp) {
            let j = choose|j: int| 0 <= j < v.len() && v[j] == sp;
            lemma_word_index_finds(v, sp, 0, j);
        }
    }
    if start.is_some() {
        return Some(PositionCommand { fen: None, moves });
    }
    match find_word(&toks, &['f', 'e', 'n']) {
        Some(i) => {
            if toks.len() - i < 7 {
                return None;
            }
            let mut fen = string_of(toks[i + 1].as_slice());
            let mut k: usize = 2;
            proof { assert(v.subrange(i + 1, i + 2) =~= seq![v[i + 1]]); }
            while k <= 6
                invariant
                    2 <= k <= 7,
                    i + 7 <= toks@.len(),
                    v == char_views(toks@),
                    fen@ == joined(v.subrange(i + 1, i + k)),
                decreases 7 - k,
            {
                let sep = string_of(&[' ']);
                let w = string_of(toks[i + k].as_slice());
                fen = fen.concat(sep.as_str());
                fen = fen.concat(w.as_str());
                proof {
                    let ws = v.subrange(i + 1, i + k + 1);
                    assert(ws.drop_last() =~= v.subrange(i + 1, i + k));
                    assert(ws.last() == v[i + k]);
                    assert(fen@ =~= joined(ws));
                }
                k += 1;
            }
            Some(PositionCommand { fen: Some(fen), moves })
        },
        None => None,
    }
}

/// A word that occurs at or after `from` is found there or earlier.
proof fn lemma_word_index_finds(v: Seq<Seq<char>>, w: Seq<char>, from: int, j: int)
    requires
        0 <= from <= j < v.len(),
        v[j] == w,
    ensures
        crate::utils::text::word_index_from(v, w, from) is Some,
    decreases j - from,
{
    if v[from] != w {
        lemma_word_index_finds(v, w, from + 1, j);
    }
}

/// What `u32::from_str` reads from `s`.
pub open spec fn parse_u32(s: Seq<char>) -> Option<u32> {
    match parse_u64(s) {
        Some(v) => if v <= u32::MAX { Some(v as u32) } else { None },
        None => None,
    }
}

/// What `u16::from_str` reads from `s`.
pub open spec fn parse_u16(s: Seq<char>) -> Option<u16> {
    match parse_u64(s) {
        Some(v) => if v <= u16::MAX { Some(v as u16) } else { None },
        None => None,
    }
}

/// The search options of a `go` command with the words `toks`: a move time after the first
/// `movetime`, else a depth after the first `depth`, else neither; none where the word after
/// is missing or is no number.
pub open spec fn go_of(toks: Seq<Seq<char>>) -> Option<(Option<u32>, Option<u16>)> {
    match word_index(toks, seq!['m', 'o', 'v', 'e', 't', 'i', 'm', 'e']) {
        Some(i) => if i + 1 < toks.len() {
            match parse_u32(toks[i + 1]) {
                Some(t) => Some((Some(t), None)),
                None => None,
            }
        } else {
            None
        },
        None => match word_index(toks, seq!['d', 'e', 'p', 't', 'h']) {
            Some(i) => if i + 1 < toks.len() {
                match parse_u16(toks[i + 1]) {
                    Some(d) => Some((None, Some(d))),
                    None => None,
                }
            } else {
                None
            },
            None => Some((None, None)),
        },
    }
}

/// Reads the search options of a `go` command; see `go_of`.
pub fn go_options(cmd: &String) -> (r: Option<SearchOptions>)
    ensures
        match r {
            Some(o) => go_of(tokens(cmd@)) == Some((o.movetime, o.depth)),
            None => go_of(tokens(cmd@)) is None,
        },
{
    let cs = chars_of(cmd);
    let toks = split_tokens(cs.as_slice());
    let n = toks.len();
    match find_word(&toks, &['m', 'o', 'v', 'e', 't', 'i', 'm', 'e']) {
        Some(i) => {
            if i >= n - 1 {
                return None;
            }
            match parse_u64_chars(toks[i + 1].as_slice()) {
                Some(v) => if v <= 0xFFFF_FFFF {
                    Some(SearchOptions { movetime: Some(v as u32), depth: None })
                } else {
                    None
                },
                None => None,
            }
        },
        None => match find_word(&toks, &['d', 'e', 'p', 't', 'h']) {
            Some(i) => {
                if i >= n - 1 {
                    return None;
                }
                match parse_u64_chars(toks[i + 1].as_slice()) {
                    Some(v) => if v <= 0xFFFF {
                        Some(SearchOptions { movetime: None, depth: Some(v as u16) })
                    } else {
                        None
                    },
                    None => None,
                }
            },
            None => Some(SearchOptions { movetime: None, depth: None }),
        },
    }
}

} // verus!
