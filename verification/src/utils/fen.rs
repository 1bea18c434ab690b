//! Reading and writing positions in Forsyth-Edwards Notation.
use vstd::prelude::*;
use crate::piece::Piece;
use crate::board::valid_piece_value;

verus! {

pub const START_FEN: &'static str = "rnbqkbnr/pppppppp/8/8/8/8/PPPPPPPP/RNBQKBNR w KQkq - 0 1";

/// The piece type a lowercase letter names (none for other characters).
pub open spec fn ptype_of(c: u8) -> u8 {
    if c == 107 { Piece::KING }
    else if c == 112 { Piece::PAWN }
    else if c == 110 { Piece::KNIGHT }
    else if c == 98 { Piece::BISHOP }
    else if c == 114 { Piece::ROOK }
    else if c == 113 { Piece::QUEEN }
    else { Piece::NONE }
}

pub open spec fn is_upper(c: u8) -> bool {
    65 <= c <= 90
}

pub open spec fn is_digit(c: u8) -> bool {
    48 <= c <= 57
}

pub open spec fn to_lower(c: u8) -> u8 {
    if is_upper(c) { (c + 32) as u8 } else { c }
}

/// The piece value a board character stands for: its type (from the lowercase letter) and the
/// color of its case.
pub open spec fn symbol_piece(c: u8) -> u8 {
    ptype_of(to_lower(c)) | (if is_upper(c) { Piece::WHITE } else { Piece::BLACK })
}

fn ptype_from_symbol(symbol: u8) -> (r: u8)
    ensures
        r == ptype_of(symbol),
{
    if symbol == 107 { Piece::KING }
    else if symbol == 112 { Piece::PAWN }
    else if symbol == 110 { Piece::KNIGHT }
    else if symbol == 98 { Piece::BISHOP }
    else if symbol == 114 { Piece::ROOK }
    else if symbol == 113 { Piece::QUEEN }
    else { Piece::NONE }
}

/// Where reading the board field stands: the next file and rank, and the squares so far.
pub struct PlaceState {
    pub file: int,
    pub rank: int,
    pub squares: Seq<u8>,
}

/// One character of the board field: `/` starts the next rank down, a digit skips that many
/// files, any other character places its piece (when the square is on the board) and moves on.
/// Files past the board are all the same (64), and so are ranks below it (-1).
pub open spec fn place_step(st: PlaceState, c: u8) -> PlaceState {
    if c == 47 {
        PlaceState { file: 0, rank: if st.rank > -1 { st.rank - 1 } else { -1 }, squares: st.squares }
    } else if is_digit(c) {
        PlaceState { file: if st.file + (c - 48) < 64 { st.file + (c - 48) } else { 64 }, rank: st.rank, squares: st.squares }
    } else {
        let squares = if 0 <= st.file < 8 && 0 <= st.rank < 8 {
            st.squares.update(st.rank * 8 + st.file, symbol_piece(c))
        } else {
            st.squares
        };
        PlaceState { file: if st.file + 1 < 64 { st.file + 1 } else { 64 }, rank: st.rank, squares }
    }
}

/// The board field read up to its `n`th character, from an empty board at a8.
pub open spec fn place_upto(b: Seq<u8>, n: nat) -> PlaceState
    decreases n,
{
    if n == 0 {
        PlaceState { file: 0, rank: 7, squares: Seq::new(64, |i: int| 0u8) }
    } else {
        place_step(place_upto(b, (n - 1) as nat), b[n - 1])
    }
}

/// The bounds of the space-separated fields of the first `n` characters.
pub open spec fn field_bounds(b: Seq<u8>, n: nat) -> Seq<(int, int)>
    decreases n,
{
    if n == 0 {
        seq![(0int, 0int)]
    } else {
        let s = field_bounds(b, (n - 1) as nat);
        if b[n - 1] == 32 {
            s.push((n as int, n as int))
        } else {
            s.update(s.len() - 1, (s[s.len() - 1].0, n as int))
        }
    }
}

pub open spec fn field(b: Seq<u8>, k: int) -> Seq<u8> {
    let fb = field_bounds(b, b.len());
    b.subrange(fb[k].0, fb[k].1)
}

pub open spec fn num_fields(b: Seq<u8>) -> int {
    field_bounds(b, b.len()).len() as int
}

pub open spec fn all_digits(s: Seq<u8>) -> bool {
    forall|i: int| 0 <= i < s.len() ==> is_digit(#[trigger] s[i])
}

pub open spec fn digits_value(s: Seq<u8>) -> nat
    decreases s.len(),
{
    if s.len() == 0 {
        0
    } else {
        digits_value(s.drop_last()) * 10 + (s.last() - 48) as nat
    }
}

/// The number a field writes in decimal digits, when it does and the number is at most `limit`.
pub open spec fn number_in(s: Seq<u8>, limit: nat) -> Option<nat> {
    if s.len() > 0 && all_digits(s) && digits_value(s) <= limit { Some(digits_value(s)) } else { None }
}

pub open spec fn castling_field(b: Seq<u8>) -> Seq<u8> {
    if num_fields(b) > 2 { field(b, 2) } else { seq![75u8, 81u8, 107u8, 113u8] }
}

/// The en passant file (1 to 8), or 0: the first character of the fourth field, if a file name.
pub open spec fn ep_file_of(b: Seq<u8>) -> i8 {
    if num_fields(b) > 3 && field(b, 3).len() > 0 && 97 <= field(b, 3)[0] <= 104 {
        (field(b, 3)[0] - 96) as i8
    } else {
        0
    }
}

/// What the position loader reads from a FEN string.
pub struct LoadedPositionInfo {
    pub squares: [u8; 64],
    pub white_castle_kingside: bool,
    pub white_castle_queenside: bool,
    pub black_castle_kingside: bool,
    pub black_castle_queenside: bool,
    pub ep_file: i8,
    pub white_to_move: bool,
    pub fifty_move_ply_count: u8,
    pub move_count: u32,
}

pub open spec fn fen_squares(b: Seq<u8>) -> Seq<u8> {
    place_upto(field(b, 0), field(b, 0).len()).squares
}

pub open spec fn fen_white(b: Seq<u8>) -> bool {
    num_fields(b) <= 1 || field(b, 1) == seq![119u8]
}

pub open spec fn fen_fifty(b: Seq<u8>) -> u8 {
    if num_fields(b) > 4 {
        match number_in(field(b, 4), 255) { Some(v) => v as u8, None => 0u8 }
    } else { 0u8 }
}

pub open spec fn fen_move_count(b: Seq<u8>) -> u32 {
    if num_fields(b) > 5 {
        match number_in(field(b, 5), 0xFFFF_FFFF) { Some(v) => v as u32, None => 0u32 }
    } else { 0u32 }
}

/// The castling rights bits a FEN string gives (white kingside first).
pub open spec fn fen_castling(b: Seq<u8>) -> u8 {
    let cf = castling_field(b);
    (if cf.contains(75u8) { 1u8 } else { 0u8 }) | (if cf.contains(81u8) { 2u8 } else { 0u8 })
        | (if cf.contains(107u8) { 4u8 } else { 0u8 }) | (if cf.contains(113u8) { 8u8 } else { 0u8 })
}

/// The position a FEN string describes. Fields that are missing or unreadable keep their default:
/// white to move, all castling rights, no en passant file, counters at 0.
pub open spec fn fen_info_ok(b: Seq<u8>, r: LoadedPositionInfo) -> bool {
    let cf = castling_field(b);
    &&& r.squares@ == fen_squares(b)
    &&& r.white_to_move == fen_white(b)
    &&& r.white_castle_kingside == cf.contains(75u8)
    &&& r.white_castle_queenside == cf.contains(81u8)
    &&& r.black_castle_kingside == cf.contains(107u8)
    &&& r.black_castle_queenside == cf.contains(113u8)
    &&& r.ep_file == ep_file_of(b)
    &&& r.fifty_move_ply_count == fen_fifty(b)
    &&& r.move_count == fen_move_count(b)
}

impl LoadedPositionInfo {
    pub fn default() -> (r: Self)
        ensures
            forall|i: int| 0 <= i < 64 ==> r.squares[i] == 0,
            r.white_castle_kingside,
            r.white_castle_queenside,
            r.black_castle_kingside,
            r.black_castle_queenside,
            r.ep_file == 0,
            r.white_to_move,
            r.fifty_move_ply_count == 0,
            r.move_count == 0,
    {
        Self {
            squares: [0; 64],
            white_castle_kingside: true,
            white_castle_queenside: true,
            black_castle_kingside: true,
            black_castle_queenside: true,
            ep_file: 0,
            white_to_move: true,
            fifty_move_ply_count: 0,
            move_count: 0,
        }
    }
}

fn split_fields(b: &[u8]) -> (r: Vec<(usize, usize)>)
    ensures
        r@.len() == field_bounds(b@, b@.len()).len(),
        forall|k: int| 0 <= k < r@.len() ==> r@[k].0 as int == field_bounds(b@, b@.len())[k].0
            && r@[k].1 as int == field_bounds(b@, b@.len())[k].1,
        forall|k: int| 0 <= k < r@.len() ==> (#[trigger] r@[k]).0 <= r@[k].1 <= b@.len(),
{
    let mut v: Vec<(usize, usize)> = Vec::new();
    v.push((0, 0));
    let mut i: usize = 0;
    while i < b.len()
        invariant
            i <= b@.len(),
            v@.len() == field_bounds(b@, i as nat).len(),
            v@.len() >= 1,
            forall|k: int| 0 <= k < v@.len() ==> v@[k].0 as int == field_bounds(b@, i as nat)[k].0
                && v@[k].1 as int == field_bounds(b@, i as nat)[k].1,
            forall|k: int| 0 <= k < v@.len() ==> (#[trigger] v@[k]).0 <= v@[k].1 <= i,
        decreases b@.len() - i,
    {
        if b[i] == 32 {
            v.push((i + 1, i + 1));
        } else {
            let last = v.len() - 1;
            let st = v[last].0;
            v.set(last, (st, i + 1));
        }
        i += 1;
    }
    v
}

fn bytes_contain(b: &[u8], lo: usize, hi: usize, c: u8) -> (r: bool)
    requires
        lo <= hi <= b@.len(),
    ensures
        r == b@.subrange(lo as int, hi as int).contains(c),
{
    let mut i = lo;
    while i < hi
        invariant
            lo <= i <= hi,
            hi <= b@.len(),
            forall|j: int| lo <= j < i ==> b@[j] != c,
        decreases hi - i,
    {
        if b[i] == c {
            assert(b@.subrange(lo as int, hi as int)[i - lo] == c);
            return true;
        }
        i += 1;
    }
    assert forall|j: int| 0 <= j < hi - lo implies b@.subrange(lo as int, hi as int)[j] != c by {
        assert(b@[lo + j] != c);
    }
    false
}

proof fn lemma_digits_grow(s: Seq<u8>, c: u8)
    requires
        is_digit(c),
    ensures
        digits_value(s.push(c)) == digits_value(s) * 10 + (c - 48) as nat,
{
    assert(s.push(c).drop_last() =~= s);
}

/// The decimal number in `b[lo..hi]`, when it is one and at most `limit`.
fn parse_number(b: &[u8], lo: usize, hi: usize, limit: u64) -> (r: Option<u64>)
    requires
        lo <= hi <= b@.len(),
        limit < 0x1_0000_0000,
    ensures
        match number_in(b@.subrange(lo as int, hi as int), limit as nat) {
            Some(v) => r == Some(v as u64),
            None => r.is_none(),
        },
{
    if lo == hi {
        return None;
    }
    let mut i = lo;
    let mut val: u64 = 0;
    let mut over = false;
    while i < hi
        invariant
            lo <= i <= hi,
            hi <= b@.len(),
            limit < 0x1_0000_0000,
            all_digits(b@.subrange(lo as int, i as int)),
            !over ==> val as nat == digits_value(b@.subrange(lo as int, i as int)) && val <= limit,
            over ==> digits_value(b@.subrange(lo as int, i as int)) > limit,
        decreases hi - i,
    {
        let c = b[i];
        if !(48 <= c && c <= 57) {
            assert(b@.subrange(lo as int, hi as int)[i - lo] == c);
            return None;
        }
        proof {
            lemma_digits_grow(b@.subrange(lo as int, i as int), c);
            assert(b@.subrange(lo as int, i as int).push(c) =~= b@.subrange(lo as int, i + 1));
            assert forall|j: int| 0 <= j < i + 1 - lo implies is_digit(#[trigger] b@.subrange(lo as int, i + 1)[j]) by {
                if j < i - lo {
                    assert(b@.subrange(lo as int, i + 1)[j] == b@.subrange(lo as int, i as int)[j]);
                }
            }
        }
        if !over {
            let nv = val * 10 + (c - 48) as u64;
            if nv > limit {
                over = true;
            } else {
                val = nv;
            }
        }
        i += 1;
    }
    if over {
        None
    } else {
        Some(val)
    }
}

/// Reads a FEN string. Fields that are missing or unreadable keep the defaults of
/// `LoadedPositionInfo::default`.
pub fn position_from_fen(fen: String) -> (r: LoadedPositionInfo)
    ensures
        fen_info_ok(vstd::utf8::encode_utf8(fen@), r),
{
    let fs = fen.as_str();
    let b = fs.as_bytes();
    assert(b@ == vstd::utf8::encode_utf8(fen@));
    let mut info = LoadedPositionInfo::default();
    let fields = split_fields(b);
    let ghost bb = b@;
    proof {
        assert(fields@.len() >= 1) by {
            lemma_field_bounds_nonempty(bb, bb.len());
        }
    }
    let (lo0, hi0) = fields[0];

    let mut file: i32 = 0;
    let mut rank: i32 = 7;
    let mut i = lo0;
    let ghost board = bb.subrange(lo0 as int, hi0 as int);
    proof {
        assert(info.squares@ =~= place_upto(board, 0).squares);
    }
    while i < hi0
        invariant
            lo0 <= i <= hi0,
            hi0 <= b@.len(),
            b@ == bb,
            board == bb.subrange(lo0 as int, hi0 as int),
            file == place_upto(board, (i - lo0) as nat).file,
            rank == place_upto(board, (i - lo0) as nat).rank,
            info.squares@ == place_upto(board, (i - lo0) as nat).squares,
            0 <= file <= 64,
            -1 <= rank <= 7,
            info.white_to_move,
            info.white_castle_kingside,
            info.white_castle_queenside,
            info.black_castle_kingside,
            info.black_castle_queenside,
            info.ep_file == 0,
            info.fifty_move_ply_count == 0,
            info.move_count == 0,
        decreases hi0 - i,
    {
        let c = b[i];
        proof {
            assert(board[i - lo0] == c);
            assert(board.subrange(0, (i + 1 - lo0) as int).len() == i + 1 - lo0);
        }
        if c == 47 {
            file = 0;
            rank = if rank > -1 { rank - 1 } else { -1 };
        } else if 48 <= c && c <= 57 {
            file = if file + ((c - 48) as i32) < 64 { file + (c - 48) as i32 } else { 64 };
        } else {
            let color = if 65 <= c && c <= 90 { Piece::WHITE } else { Piece::BLACK };
            let lower = if 65 <= c && c <= 90 { c + 32 } else { c };
            let ptype = ptype_from_symbol(lower);
            if 0 <= file && file < 8 && 0 <= rank && rank < 8 {
                info.squares[(rank * 8 + file) as usize] = ptype | color;
            }
            file = if file + 1 < 64 { file + 1 } else { 64 };
        }
        i += 1;
    }
    proof {
        assert((hi0 - lo0) as nat == board.len());
    }

    let nf = fields.len();
    assert(nf == num_fields(bb));
    if nf > 1 {
        let (lo1, hi1) = fields[1];
        info.white_to_move = lo1 < hi1 && hi1 - lo1 == 1 && b[lo1] == 119;
        proof {
            let f1 = bb.subrange(lo1 as int, hi1 as int);
            if lo1 < hi1 && hi1 - lo1 == 1 && b@[lo1 as int] == 119 {
                assert(f1 =~= seq![119u8]);
            } else if f1 == seq![119u8] {
                assert(f1.len() == 1);
                assert(f1[0] == 119u8);
            }
            assert(fields@[1].0 == lo1 && fields@[1].1 == hi1);
            assert(field(bb, 1) == f1);
            assert(info.white_to_move == (field(bb, 1) == seq![119u8]));
        }
    }
    if nf > 2 {
        let (lo2, hi2) = fields[2];
        info.white_castle_kingside = bytes_contain(b, lo2, hi2, 75);
        info.white_castle_queenside = bytes_contain(b, lo2, hi2, 81);
        info.black_castle_kingside = bytes_contain(b, lo2, hi2, 107);
        info.black_castle_queenside = bytes_contain(b, lo2, hi2, 113);
        assert(field(bb, 2) == bb.subrange(lo2 as int, hi2 as int));
    } else {
        proof {
            let d = seq![75u8, 81u8, 107u8, 113u8];
            assert(d[0] == 75u8);
            assert(d[1] == 81u8);
            assert(d[2] == 107u8);
            assert(d[3] == 113u8);
        }
    }
    if nf > 3 {
        let (lo3, hi3) = fields[3];
        if lo3 < hi3 {
            let c = b[lo3];
            if 97 <= c && c <= 104 {
                info.ep_file = (c - 96) as i8;
            }
            assert(field(bb, 3) == bb.subrange(lo3 as int, hi3 as int));
            assert(field(bb, 3)[0] == c);
        }
    }
    if nf > 4 {
        let (lo4, hi4) = fields[4];
        if let Some(v) = parse_number(b, lo4, hi4, 255) {
            info.fifty_move_ply_count = v as u8;
        }
    }
    if nf > 5 {
        let (lo5, hi5) = fields[5];
        if let Some(v) = parse_number(b, lo5, hi5, 0xFFFF_FFFF) {
            info.move_count = v as u32;
        }
    }
    proof {
        let board0 = field(bb, 0);
        assert(board0 == board);
        assert(info.squares@ == place_upto(board0, board0.len()).squares);
        assert(info.white_to_move == fen_white(bb));
        assert(info.white_castle_kingside == castling_field(bb).contains(75u8));
        assert(info.ep_file == ep_file_of(bb));
        assert(info.fifty_move_ply_count == fen_fifty(bb));
    }
    info
}

proof fn lemma_field_bounds_nonempty(b: Seq<u8>, n: nat)
    ensures
        field_bounds(b, n).len() >= 1,
    decreases n,
{
    if n > 0 {
        lemma_field_bounds_nonempty(b, (n - 1) as nat);
    }
}

/// The character of a piece: its type's letter (`!` for none of the six), in lowercase for a
/// black piece.
pub open spec fn piece_char(p: Piece) -> u8 {
    let t = p.ptype();
    let upper: u8 = if t == 1 { 80 } else if t == 2 { 78 } else if t == 3 { 66 } else if t == 4 { 82 }
        else if t == 5 { 81 } else if t == 6 { 75 } else { 33 };
    if p.pcolor() == Piece::BLACK && upper != 33 { (upper + 32) as u8 } else { upper }
}

/// The text of rank `rank` from file `file` on, after `empty` empty squares: pieces by their
/// characters, runs of empty squares by their count.
pub open spec fn rank_text(sq: Seq<Piece>, rank: int, file: int, empty: nat) -> Seq<u8>
    decreases 8 - file,
{
    if file >= 8 {
        if empty > 0 { seq![(48 + empty) as u8] } else { Seq::empty() }
    } else {
        let p = sq[rank * 8 + file];
        if p.0 != 0 {
            (if empty > 0 { seq![(48 + empty) as u8] } else { Seq::empty() }) + seq![piece_char(p)]
                + rank_text(sq, rank, file + 1, 0)
        } else {
            rank_text(sq, rank, file + 1, empty + 1)
        }
    }
}

/// The board field from rank `rank` down to the first, ranks separated by `/`.
pub open spec fn placement_text(sq: Seq<Piece>, rank: int) -> Seq<u8>
    decreases rank + 1,
{
    if rank < 0 {
        Seq::empty()
    } else {
        rank_text(sq, rank, 0, 0) + (if rank != 0 { seq![47u8] } else { Seq::empty() }) + placement_text(sq, rank - 1)
    }
}

/// The decimal digits of `n`.
pub open spec fn decimal(n: nat) -> Seq<u8>
    decreases n,
{
    if n < 10 { seq![(48 + n) as u8] } else { decimal(n / 10) + seq![(48 + n % 10) as u8] }
}

/// The castling field: `KQkq` for the rights held, `-` for none.
pub open spec fn castling_text(cr: u8) -> Seq<u8> {
    let s = (if cr & 1u8 != 0 { seq![75u8] } else { Seq::empty() })
        + (if cr & 2u8 != 0 { seq![81u8] } else { Seq::empty() })
        + (if cr & 4u8 != 0 { seq![107u8] } else { Seq::empty() })
        + (if cr & 8u8 != 0 { seq![113u8] } else { Seq::empty() });
    if s.len() == 0 { seq![45u8] } else { s }
}

/// The FEN of a position: board, side to move, castling rights, en passant square, fifty-move
/// count and move number.
pub open spec fn fen_text(b: crate::board::Board) -> Seq<u8> {
    placement_text(b.square@, 7) + state_text(b)
}

/// The fields after the board: side to move, castling, en passant, fifty-move count, move
/// number, each after a space. The en passant square is written with the code of its file
/// letter in decimal (`1006` for d6).
pub open spec fn state_text(b: crate::board::Board) -> Seq<u8> {
    let ep = b.current_state.en_passant_file as int;
    seq![32u8] + (if b.white_to_move { seq![119u8] } else { seq![98u8] })
        + seq![32u8] + castling_text(b.current_state.castling_rights)
        + seq![32u8] + (if ep == 0 { seq![45u8] } else { decimal((96 + ep) as nat) + seq![if b.white_to_move { 54u8 } else { 51u8 }] })
        + seq![32u8] + decimal(b.current_state.fifty_move_counter as nat)
        + seq![32u8] + decimal((b.plycount / 2 + 1) as nat)
}

/// The characters of ASCII bytes.
pub open spec fn ascii_chars(b: Seq<u8>) -> Seq<char> {
    b.map_values(|c: u8| c as char)
}

/// The string of ASCII bytes, by `String::from_utf8`: bytes below 128 are valid UTF-8, each
/// the character of its code.
#[verifier::external_body]
pub(crate) fn ascii_string(bytes: Vec<u8>) -> (r: String)
    requires
        forall|i: int| 0 <= i < bytes@.len() ==> bytes@[i] < 128,
    ensures
        r@ == ascii_chars(bytes@),
{
    match String::from_utf8(bytes) {
        Ok(s) => s,
        Err(_) => String::new(),
    }
}

/// Appends the decimal digits of `n`.
fn push_decimal(out: &mut Vec<u8>, n: u64)
    requires
        all_ascii(old(out)@),
    ensures
        final(out)@ == old(out)@ + decimal(n as nat),
        all_ascii(final(out)@),
    decreases n,
{
    if n >= 10 {
        push_decimal(out, n / 10);
    }
    let ghost mid = out@;
    out.push(48 + (n % 10) as u8);
    proof {
        if n >= 10 {
            assert(out@ =~= old(out)@ + decimal(n as nat));
        } else {
            assert(out@ =~= old(out)@ + decimal(n as nat));
        }
    }
}

/// All characters of a piece, board field and number are ASCII.
pub open spec fn all_ascii(s: Seq<u8>) -> bool {
    forall|i: int| 0 <= i < s.len() ==> s[i] < 128
}

/// Appends the text of rank `rank`.
fn push_rank(fen: &mut Vec<u8>, board: &crate::board::Board, rank: i8)
    requires
        0 <= rank <= 7,
        all_ascii(old(fen)@),
    ensures
        final(fen)@ == old(fen)@ + rank_text(board.square@, rank as int, 0, 0),
        all_ascii(final(fen)@),
{
    let ghost sq = board.square@;
    let ghost before = fen@;
    let mut n_empty_files: u8 = 0;
    let mut file: i8 = 0;
    while file < 8
        invariant
            0 <= rank <= 7,
            0 <= file <= 8,
            n_empty_files <= file,
            sq == board.square@,
            fen@ + rank_text(sq, rank as int, file as int, n_empty_files as nat)
                == before + rank_text(sq, rank as int, 0, 0),
            all_ascii(fen@),
        decreases 8 - file,
    {
        let i = (rank * 8 + file) as usize;
        let piece = board.square[i];
        let ghost f0 = fen@;
        let ghost e0 = n_empty_files;
        if piece.0 != 0 {
            if n_empty_files != 0 {
                fen.push(48 + n_empty_files);
                n_empty_files = 0;
            }
            let ptype = piece.piece_type();
            let upper: u8 = if ptype == Piece::PAWN { 80 } else if ptype == Piece::KNIGHT { 78 }
                else if ptype == Piece::BISHOP { 66 } else if ptype == Piece::ROOK { 82 }
                else if ptype == Piece::QUEEN { 81 } else if ptype == Piece::KING { 75 } else { 33 };
            let c = if piece.is_color(Piece::BLACK) && upper != 33 { upper + 32 } else { upper };
            fen.push(c);
            proof {
                assert(fen@ + rank_text(sq, rank as int, file + 1, 0)
                    =~= f0 + rank_text(sq, rank as int, file as int, e0 as nat));
            }
        } else {
            n_empty_files += 1;
        }
        file += 1;
    }
    let ghost f1 = fen@;
    if n_empty_files != 0 {
        fen.push(48 + n_empty_files);
    }
    proof {
        assert(fen@ =~= f1 + rank_text(sq, rank as int, 8, n_empty_files as nat));
    }
}

/// Appends the castling field.
fn push_castling(fen: &mut Vec<u8>, state: &crate::board::game_state::GameState)
    requires
        all_ascii(old(fen)@),
    ensures
        final(fen)@ == old(fen)@ + castling_text(state.castling_rights),
        all_ascii(final(fen)@),
{
    let ghost f0 = fen@;
    let white_kingside = state.has_kingside_castle_right(true);
    let white_queenside = state.has_queenside_castle_right(true);
    let black_kingside = state.has_kingside_castle_right(false);
    let black_queenside = state.has_queenside_castle_right(false);
    if white_kingside { fen.push(75); }
    if white_queenside { fen.push(81); }
    if black_kingside { fen.push(107); }
    if black_queenside { fen.push(113); }
    if !white_kingside && !white_queenside && !black_kingside && !black_queenside { fen.push(45); }
    proof {
        let cr = state.castling_rights;
        let t = (if cr & 1u8 != 0 { seq![75u8] } else { Seq::empty() })
            + (if cr & 2u8 != 0 { seq![81u8] } else { Seq::empty() })
            + (if cr & 4u8 != 0 { seq![107u8] } else { Seq::empty() })
            + (if cr & 8u8 != 0 { seq![113u8] } else { Seq::empty() });
        assert(t.len() == 0 <==> (!white_kingside && !white_queenside && !black_kingside && !black_queenside));
        assert(fen@ =~= f0 + castling_text(cr));
    }
}

/// Appends the fields after the board.
#[verifier::rlimit(100)]
#[verifier::spinoff_prover]
fn push_state(fen: &mut Vec<u8>, board: &crate::board::Board)
    requires
        0 <= board.current_state.en_passant_file <= 8,
        all_ascii(old(fen)@),
    ensures
        final(fen)@ == old(fen)@ + state_text(*board),
        all_ascii(final(fen)@),
{
    let ghost f0 = fen@;
    fen.push(32);
    fen.push(if board.white_to_move { 119 } else { 98 });
    fen.push(32);
    let ghost f1 = fen@;
    push_castling(fen, &board.current_state);
    let ghost f2 = fen@;
    fen.push(32);
    let ep_file = board.current_state.en_passant_file;
    if ep_file == 0 {
        fen.push(45);
    } else {
        push_decimal(fen, 96 + ep_file as u64);
        fen.push(if board.white_to_move { 54 } else { 51 });
    }
    fen.push(32);
    let ghost f3 = fen@;
    push_decimal(fen, board.current_state.fifty_move_counter as u64);
    let ghost f4 = fen@;
    fen.push(32);
    push_decimal(fen, ((board.plycount / 2) + 1) as u64);
    proof {
        let ep = ep_file as int;
        assert(f1 =~= f0 + seq![32u8] + (if board.white_to_move { seq![119u8] } else { seq![98u8] }) + seq![32u8]);
        assert(f3 =~= f2 + seq![32u8] + (if ep == 0 { seq![45u8] } else { decimal((96 + ep) as nat) + seq![if board.white_to_move { 54u8 } else { 51u8 }] }) + seq![32u8]);
        assert(fen@ =~= f0 + state_text(*board));
    }
}

/// The FEN of the position.
pub fn fen_from_position(board: &crate::board::Board) -> (r: String)
    requires
        board.wf(),
        0 <= board.current_state.en_passant_file <= 8,
    ensures
        r@ == ascii_chars(fen_text(*board)),
{
    let mut fen: Vec<u8> = Vec::new();
    let ghost sq = board.square@;
    let mut rank: i8 = 7;
    while rank >= 0
        invariant
            -1 <= rank <= 7,
            sq == board.square@,
            fen@ + placement_text(sq, rank as int) == placement_text(sq, 7),
            all_ascii(fen@),
        decreases rank + 1,
    {
        let ghost before = fen@;
        push_rank(&mut fen, board, rank);
        let ghost mid = fen@;
        if rank != 0 {
            fen.push(47);
        }
        proof {
            assert(fen@ =~= mid + (if rank != 0 { seq![47u8] } else { Seq::empty() }));
            assert(fen@ + placement_text(sq, rank - 1) =~= before + placement_text(sq, rank as int));
        }
        rank -= 1;
    }
    proof {
        assert(fen@ =~= placement_text(sq, 7));
    }

    push_state(&mut fen, board);
    proof {
        assert(fen@ =~= fen_text(*board));
    }
    ascii_string(fen)
}

/// A piece's board character reads back as the piece.
proof fn lemma_piece_char_reads_back(v: u8)
    requires
        valid_piece_value(v),
        v != 0,
    ensures
        symbol_piece(piece_char(Piece(v))) == v,
        piece_char(Piece(v)) != 47,
        !is_digit(piece_char(Piece(v))),
{
    crate::board::lemma_valid_piece(v);
    let t: u8 = if v <= 14 { (v - 8) as u8 } else { (v - 16) as u8 };
    assert((t | 8u8) == t + 8 && (t | 16u8) == t + 16) by (bit_vector)
        requires 1 <= t <= 6;
}

/// The board field `t` read from the state `st` on, character by character.
pub open spec fn place_from(st: PlaceState, t: Seq<u8>) -> PlaceState
    decreases t.len(),
{
    if t.len() == 0 { st } else { place_from(place_step(st, t[0]), t.drop_first()) }
}

proof fn lemma_place_from_one(st: PlaceState, c: u8)
    ensures
        place_from(st, seq![c]) == place_step(st, c),
{
    assert(seq![c].drop_first() =~= Seq::<u8>::empty());
    assert(place_from(place_step(st, c), Seq::<u8>::empty()) == place_step(st, c));
}

proof fn lemma_place_from_push(st: PlaceState, t: Seq<u8>, c: u8)
    ensures
        place_from(st, t.push(c)) == place_step(place_from(st, t), c),
    decreases t.len(),
{
    if t.len() == 0 {
        assert(t.push(c) =~= seq![c]);
        lemma_place_from_one(st, c);
    } else {
        assert(t.push(c)[0] == t[0]);
        assert(t.push(c).drop_first() =~= t.drop_first().push(c));
        lemma_place_from_push(place_step(st, t[0]), t.drop_first(), c);
    }
}

proof fn lemma_place_upto_from(b: Seq<u8>, n: nat)
    requires
        n <= b.len(),
    ensures
        place_upto(b, n) == place_from(place_upto(b, 0), b.take(n as int)),
    decreases n,
{
    if n == 0 {
        assert(b.take(0) =~= Seq::<u8>::empty());
    } else {
        lemma_place_upto_from(b, (n - 1) as nat);
        assert(b.take(n as int) =~= b.take(n - 1).push(b[n - 1]));
        lemma_place_from_push(place_upto(b, 0), b.take(n - 1), b[n - 1]);
    }
}

proof fn lemma_place_from_concat(st: PlaceState, a: Seq<u8>, b: Seq<u8>)
    ensures
        place_from(st, a + b) == place_from(place_from(st, a), b),
    decreases a.len(),
{
    if a.len() == 0 {
        assert(a + b =~= b);
    } else {
        assert((a + b).drop_first() =~= a.drop_first() + b);
        lemma_place_from_concat(place_step(st, a[0]), a.drop_first(), b);
    }
}

/// Reading the text of rank `r` from file `f` on, after `e` empty squares, from the state at
/// file `f - e` of that rank, places the rank's pieces from there and ends past its last file.
proof fn lemma_rank_text_reads_back(sq: Seq<Piece>, r: int, f: int, e: nat, st: PlaceState)
    requires
        sq.len() == 64,
        forall|s: int| 0 <= s < 64 ==> #[trigger] valid_piece_value(sq[s].0),
        0 <= r < 8,
        0 <= e <= f <= 8,
        forall|j: int| f - e <= j < f ==> #[trigger] sq[r * 8 + j].0 == 0,
        st.rank == r,
        st.file == f - e,
        st.squares.len() == 64,
        forall|j: int| f - e <= j < 8 ==> #[trigger] st.squares[r * 8 + j] == 0,
    ensures
        ({
            let out = place_from(st, rank_text(sq, r, f, e));
            &&& out.file == 8
            &&& out.rank == r
            &&& out.squares.len() == 64
            &&& forall|k: int| 0 <= k < 64 ==> #[trigger] out.squares[k] == (if r * 8 + f - e <= k < r * 8 + 8 {
                sq[k].0
            } else {
                st.squares[k]
            })
        }),
    decreases 8 - f,
{
    let digits: Seq<u8> = if e > 0 { seq![(48 + e) as u8] } else { Seq::empty() };
    let st1 = place_from(st, digits);
    assert(st1.file == f && st1.rank == r && st1.squares == st.squares) by {
        if e > 0 {
            lemma_place_from_one(st, (48 + e) as u8);
        }
    }
    if f >= 8 {
        assert forall|k: int| 0 <= k < 64 implies #[trigger] st1.squares[k] == (if r * 8 + f - e <= k < r * 8 + 8 {
            sq[k].0
        } else {
            st.squares[k]
        }) by {
            if r * 8 + f - e <= k < r * 8 + 8 {
                assert(sq[r * 8 + (k - r * 8)].0 == 0);
                assert(st.squares[r * 8 + (k - r * 8)] == 0);
            }
        }
    } else {
        let p = sq[r * 8 + f];
        if p.0 != 0 {
            lemma_piece_char_reads_back(p.0);
            let c = piece_char(p);
            let st2 = place_step(st1, c);
            lemma_place_from_one(st1, c);
            lemma_place_from_concat(st, digits, seq![c]);
            lemma_place_from_concat(st, digits + seq![c], rank_text(sq, r, f + 1, 0));
            assert(rank_text(sq, r, f, e) == digits + seq![c] + rank_text(sq, r, f + 1, 0));
            assert forall|j: int| f + 1 <= j < 8 implies #[trigger] st2.squares[r * 8 + j] == 0 by {
                assert(st.squares[r * 8 + j] == 0);
            }
            lemma_rank_text_reads_back(sq, r, f + 1, 0, st2);
            let out = place_from(st2, rank_text(sq, r, f + 1, 0));
            assert forall|k: int| 0 <= k < 64 implies #[trigger] out.squares[k] == (if r * 8 + f - e <= k < r * 8 + 8 {
                sq[k].0
            } else {
                st.squares[k]
            }) by {
                if r * 8 + f - e <= k < r * 8 + f {
                    assert(sq[r * 8 + (k - r * 8)].0 == 0);
                    assert(st.squares[r * 8 + (k - r * 8)] == 0);
                }
            }
        } else {
            assert(rank_text(sq, r, f, e) == rank_text(sq, r, f + 1, e + 1));
            lemma_rank_text_reads_back(sq, r, f + 1, e + 1, st);
        }
    }
}

/// Reading the board field from rank `r` down, from the start of that rank, places every piece
/// of those ranks.
proof fn lemma_placement_text_reads_back(sq: Seq<Piece>, r: int, st: PlaceState)
    requires
        sq.len() == 64,
        forall|s: int| 0 <= s < 64 ==> #[trigger] valid_piece_value(sq[s].0),
        -1 <= r < 8,
        st.rank == r,
        st.file == 0,
        st.squares.len() == 64,
        forall|k: int| 0 <= k < r * 8 + 8 ==> #[trigger] st.squares[k] == 0,
    ensures
        ({
            let out = place_from(st, placement_text(sq, r));
            &&& out.squares.len() == 64
            &&& forall|k: int| 0 <= k < 64 ==> #[trigger] out.squares[k] == (if k < r * 8 + 8 {
                sq[k].0
            } else {
                st.squares[k]
            })
        }),
    decreases r + 1,
{
    if r < 0 {
        assert(placement_text(sq, r) =~= Seq::<u8>::empty());
    } else {
        let rt = rank_text(sq, r, 0, 0);
        assert forall|j: int| 0 <= j < 8 implies #[trigger] st.squares[r * 8 + j] == 0 by {
            assert(0 <= r * 8 + j < r * 8 + 8);
        }
        lemma_rank_text_reads_back(sq, r, 0, 0, st);
        let st1 = place_from(st, rt);
        if r != 0 {
            let st2 = place_step(st1, 47);
            lemma_place_from_one(st1, 47);
            lemma_place_from_concat(st, rt, seq![47u8]);
            lemma_place_from_concat(st, rt + seq![47u8], placement_text(sq, r - 1));
            assert(placement_text(sq, r) == rt + seq![47u8] + placement_text(sq, r - 1));
            assert forall|k: int| 0 <= k < (r - 1) * 8 + 8 implies #[trigger] st2.squares[k] == 0 by {
                assert(st1.squares[k] == st.squares[k]);
            }
            lemma_placement_text_reads_back(sq, r - 1, st2);
        } else {
            assert(placement_text(sq, -1) =~= Seq::<u8>::empty());
            assert(placement_text(sq, 0) =~= rt);
        }
    }
}

/// What `fen_from_position` writes in the board field reads back as the board: each square
/// holds the piece that stood there.
pub proof fn lemma_board_field_round_trip(sq: Seq<Piece>)
    requires
        sq.len() == 64,
        forall|s: int| 0 <= s < 64 ==> #[trigger] valid_piece_value(sq[s].0),
    ensures
        ({
            let t = placement_text(sq, 7);
            place_upto(t, t.len()).squares == sq.map_values(|p: Piece| p.0)
        }),
{
    let t = placement_text(sq, 7);
    lemma_place_upto_from(t, t.len());
    assert(t.take(t.len() as int) =~= t);
    lemma_placement_text_reads_back(sq, 7, place_upto(t, 0));
    assert(place_upto(t, t.len()).squares =~= sq.map_values(|p: Piece| p.0));
}

/// The text of a rank holds no space.
proof fn lemma_rank_text_no_space(sq: Seq<Piece>, r: int, f: int, e: nat)
    requires
        0 <= e <= f <= 8,
    ensures
        forall|i: int| 0 <= i < rank_text(sq, r, f, e).len() ==> #[trigger] rank_text(sq, r, f, e)[i] != 32,
    decreases 8 - f,
{
    if f < 8 {
        let p = sq[r * 8 + f];
        if p.0 != 0 {
            lemma_rank_text_no_space(sq, r, f + 1, 0);
            let a: Seq<u8> = if e > 0 { seq![(48 + e) as u8] } else { Seq::empty() };
            let m = seq![piece_char(p)];
            let c = rank_text(sq, r, f + 1, 0);
            assert(rank_text(sq, r, f, e) == a + m + c);
            assert forall|i: int| 0 <= i < rank_text(sq, r, f, e).len() implies #[trigger] rank_text(sq, r, f, e)[i] != 32 by {
                if i < a.len() {
                    assert((a + m + c)[i] == a[i]);
                } else if i < a.len() + m.len() {
                    assert((a + m + c)[i] == m[i - a.len()]);
                } else {
                    assert((a + m + c)[i] == c[i - a.len() - m.len()]);
                }
            }
        } else {
            lemma_rank_text_no_space(sq, r, f + 1, e + 1);
            assert(rank_text(sq, r, f, e) == rank_text(sq, r, f + 1, e + 1));
        }
    } else if e > 0 {
        assert(rank_text(sq, r, f, e) == seq![(48 + e) as u8]);
    } else {
        assert(rank_text(sq, r, f, e) == Seq::<u8>::empty());
    }
}

/// The board field holds no space.
proof fn lemma_placement_text_no_space(sq: Seq<Piece>, r: int)
    ensures
        forall|i: int| 0 <= i < placement_text(sq, r).len() ==> #[trigger] placement_text(sq, r)[i] != 32,
    decreases r + 1,
{
    if r >= 0 {
        lemma_rank_text_no_space(sq, r, 0, 0);
        lemma_placement_text_no_space(sq, r - 1);
        let a = rank_text(sq, r, 0, 0);
        let m: Seq<u8> = if r != 0 { seq![47u8] } else { Seq::empty() };
        let c = placement_text(sq, r - 1);
        assert forall|i: int| 0 <= i < placement_text(sq, r).len() implies #[trigger] placement_text(sq, r)[i] != 32 by {
            assert(placement_text(sq, r) == a + m + c);
            if i < a.len() {
                assert((a + m + c)[i] == a[i]);
            } else if i < a.len() + m.len() {
                assert((a + m + c)[i] == m[i - a.len()]);
            } else {
                assert((a + m + c)[i] == c[i - a.len() - m.len()]);
            }
        }
    }
}

/// Up to the first space, the text is one field; after it, the first field ends at the space.
proof fn lemma_first_field(b: Seq<u8>, p: int, n: nat)
    requires
        0 <= p < b.len(),
        forall|i: int| 0 <= i < p ==> b[i] != 32,
        b[p] == 32,
        n <= b.len(),
    ensures
        n <= p ==> field_bounds(b, n) == seq![(0int, n as int)],
        n > p ==> field_bounds(b, n).len() >= 2 && field_bounds(b, n)[0] == (0int, p),
    decreases n,
{
    if n > 0 {
        lemma_first_field(b, p, (n - 1) as nat);
        if n <= p {
            assert(field_bounds(b, n) =~= seq![(0int, n as int)]);
        }
    }
}

/// A FEN that `fen_from_position` writes reads back, by `position_from_fen`, as the board's
/// squares.
pub proof fn lemma_fen_squares_round_trip(b: crate::board::Board)
    requires
        b.wf(),
    ensures
        fen_squares(fen_text(b)) == b.square@.map_values(|p: Piece| p.0),
{
    let sq = b.square@;
    let pt = placement_text(sq, 7);
    let t = fen_text(b);
    lemma_placement_text_no_space(sq, 7);
    assert(t == pt + state_text(b));
    assert(t[pt.len() as int] == 32);
    assert forall|i: int| 0 <= i < pt.len() implies t[i] != 32 by {
        assert(t[i] == pt[i]);
    }
    lemma_first_field(t, pt.len() as int, t.len());
    assert(field(t, 0) =~= pt);
    lemma_board_field_round_trip(sq);
}

/// Every field's bounds lie within the text read so far, in order, the last ending at its end.
proof fn lemma_field_bounds_range(b: Seq<u8>, n: nat)
    requires
        n <= b.len(),
    ensures
        field_bounds(b, n).len() >= 1,
        field_bounds(b, n)[field_bounds(b, n).len() - 1].1 == n,
        forall|k: int| 0 <= k < field_bounds(b, n).len() ==> 0 <= #[trigger] field_bounds(b, n)[k].0
            <= field_bounds(b, n)[k].1 <= n,
    decreases n,
{
    if n > 0 {
        lemma_field_bounds_range(b, (n - 1) as nat);
    }
}

/// The fields of a text with no space: the text itself.
proof fn lemma_one_field(b: Seq<u8>, n: nat)
    requires
        n <= b.len(),
        forall|i: int| 0 <= i < b.len() ==> b[i] != 32,
    ensures
        field_bounds(b, n) == seq![(0int, n as int)],
    decreases n,
{
    if n > 0 {
        lemma_one_field(b, (n - 1) as nat);
        assert(field_bounds(b, n) =~= seq![(0int, n as int)]);
    }
}

/// The bounds of the fields of `c`, moved `d` characters on.
pub open spec fn shifted(fb: Seq<(int, int)>, d: int) -> Seq<(int, int)> {
    Seq::new(fb.len(), |i: int| (fb[i].0 + d, fb[i].1 + d))
}

/// After a field `a` and a space, the fields are those of what follows, moved on.
proof fn lemma_fields_after_space(a: Seq<u8>, c: Seq<u8>, m: nat)
    requires
        forall|i: int| 0 <= i < a.len() ==> a[i] != 32,
        m <= c.len(),
    ensures
        field_bounds(a + seq![32u8] + c, a.len() + 1 + m) == seq![(0int, a.len() as int)]
            + shifted(field_bounds(c, m), a.len() + 1int),
    decreases m,
{
    let b = a + seq![32u8] + c;
    let d: int = a.len() + 1int;
    assert forall|i: int| 0 <= i < a.len() implies b[i] != 32 by {
        assert(b[i] == a[i]);
    }
    assert(b[a.len() as int] == 32);
    lemma_first_field(b, a.len() as int, a.len());
    if m == 0 {
        assert(field_bounds(b, a.len() + 1) =~= seq![(0int, a.len() as int)] + shifted(field_bounds(c, 0), d));
    } else {
        lemma_fields_after_space(a, c, (m - 1) as nat);
        lemma_field_bounds_range(c, (m - 1) as nat);
        assert(b[a.len() + m as int] == c[m - 1]);
        let prev = field_bounds(c, (m - 1) as nat);
        if c[m - 1] == 32 {
            assert(field_bounds(c, m) == prev.push((m as int, m as int)));
            assert(field_bounds(b, a.len() + 1 + m) =~= seq![(0int, a.len() as int)] + shifted(field_bounds(c, m), d));
        } else {
            assert(field_bounds(c, m) == prev.update(prev.len() - 1, (prev[prev.len() - 1].0, m as int)));
            assert(field_bounds(b, a.len() + 1 + m) =~= seq![(0int, a.len() as int)] + shifted(field_bounds(c, m), d));
        }
    }
}

/// The field after a first field and a space is the field of what follows.
proof fn lemma_field_after_space(a: Seq<u8>, c: Seq<u8>, k: int)
    requires
        forall|i: int| 0 <= i < a.len() ==> a[i] != 32,
        0 <= k < num_fields(c),
    ensures
        field(a + seq![32u8] + c, k + 1) == field(c, k),
        num_fields(a + seq![32u8] + c) == num_fields(c) + 1,
{
    let b = a + seq![32u8] + c;
    assert(b.len() == a.len() + 1 + c.len());
    lemma_fields_after_space(a, c, c.len());
    lemma_field_bounds_range(c, c.len());
    let fc = field_bounds(c, c.len());
    let x = fc[k].0;
    let y = fc[k].1;
    assert(field_bounds(b, b.len())[k + 1] == (x + a.len() + 1, y + a.len() + 1));
    assert(field(b, k + 1) =~= field(c, k));
}

/// The first field of a text whose first space follows `a`.
proof fn lemma_field_before_space(a: Seq<u8>, c: Seq<u8>)
    requires
        forall|i: int| 0 <= i < a.len() ==> a[i] != 32,
    ensures
        field(a + seq![32u8] + c, 0) == a,
{
    let b = a + seq![32u8] + c;
    assert forall|i: int| 0 <= i < a.len() implies b[i] != 32 by {
        assert(b[i] == a[i]);
    }
    assert(b[a.len() as int] == 32);
    lemma_first_field(b, a.len() as int, b.len());
    assert(field(b, 0) =~= a);
}

/// Decimal digits, all digits and no space, read back as their number.
proof fn lemma_decimal_reads_back(n: nat)
    ensures
        decimal(n).len() > 0,
        all_digits(decimal(n)),
        digits_value(decimal(n)) == n,
        forall|i: int| 0 <= i < decimal(n).len() ==> #[trigger] decimal(n)[i] != 32,
    decreases n,
{
    let d = decimal(n);
    if n < 10 {
        assert(d.drop_last() =~= Seq::<u8>::empty());
        assert(digits_value(d) == digits_value(d.drop_last()) * 10 + (d.last() - 48) as nat);
    } else {
        lemma_decimal_reads_back(n / 10);
        assert(d.drop_last() =~= decimal(n / 10));
        assert(d.last() == (48 + n % 10) as u8);
        assert(digits_value(d) == digits_value(d.drop_last()) * 10 + (d.last() - 48) as nat);
        assert((n / 10) * 10 + n % 10 == n) by (nonlinear_arith);
        assert forall|i: int| 0 <= i < d.len() implies is_digit(#[trigger] d[i]) && d[i] != 32 by {
            if i < d.len() - 1 {
                assert(d[i] == decimal(n / 10)[i]);
            }
        }
    }
}

/// A text with no space is one field.
proof fn lemma_single_field(m: Seq<u8>)
    requires
        forall|i: int| 0 <= i < m.len() ==> m[i] != 32,
    ensures
        num_fields(m) == 1,
        field(m, 0) == m,
{
    lemma_one_field(m, m.len());
    assert(field(m, 0) =~= m);
}

/// Six texts without spaces, joined by single spaces, are six fields.
proof fn lemma_six_fields(pt: Seq<u8>, w: Seq<u8>, c: Seq<u8>, e: Seq<u8>, f: Seq<u8>, m: Seq<u8>)
    requires
        forall|i: int| 0 <= i < pt.len() ==> pt[i] != 32,
        forall|i: int| 0 <= i < w.len() ==> w[i] != 32,
        forall|i: int| 0 <= i < c.len() ==> c[i] != 32,
        forall|i: int| 0 <= i < e.len() ==> e[i] != 32,
        forall|i: int| 0 <= i < f.len() ==> f[i] != 32,
        forall|i: int| 0 <= i < m.len() ==> m[i] != 32,
    ensures
        ({
            let sp = seq![32u8];
            let t = pt + sp + (w + sp + (c + sp + (e + sp + (f + sp + m))));
            &&& num_fields(t) == 6
            &&& field(t, 0) == pt
            &&& field(t, 1) == w
            &&& field(t, 2) == c
            &&& field(t, 3) == e
            &&& field(t, 4) == f
            &&& field(t, 5) == m
        }),
{
    let sp = seq![32u8];
    let r4 = f + sp + m;
    let r3 = e + sp + r4;
    let r2 = c + sp + r3;
    let r1 = w + sp + r2;
    lemma_single_field(m);
    lemma_field_after_space(f, m, 0);
    lemma_field_before_space(f, m);
    lemma_field_after_space(e, r4, 0);
    lemma_field_after_space(e, r4, 1);
    lemma_field_before_space(e, r4);
    lemma_field_after_space(c, r3, 0);
    lemma_field_after_space(c, r3, 1);
    lemma_field_after_space(c, r3, 2);
    lemma_field_before_space(c, r3);
    lemma_field_after_space(w, r2, 0);
    lemma_field_after_space(w, r2, 1);
    lemma_field_after_space(w, r2, 2);
    lemma_field_after_space(w, r2, 3);
    lemma_field_before_space(w, r2);
    lemma_field_after_space(pt, r1, 0);
    lemma_field_after_space(pt, r1, 1);
    lemma_field_after_space(pt, r1, 2);
    lemma_field_after_space(pt, r1, 3);
    lemma_field_after_space(pt, r1, 4);
    lemma_field_before_space(pt, r1);
}

/// What `position_from_fen` reads from the FEN that `fen_from_position` writes: the board's
/// squares, side to move, castling rights, fifty-move count and move number, and no en passant
/// file (the square is written with the code of its file letter, which does not read as a file).
#[verifier::rlimit(60)]
#[verifier::spinoff_prover]
pub proof fn lemma_fen_round_trip(b: crate::board::Board)
    requires
        b.wf(),
        0 <= b.current_state.en_passant_file <= 8,
        b.plycount / 2 + 1 <= 0xFFFF_FFFF,
    ensures
        fen_squares(fen_text(b)) == b.square@.map_values(|p: Piece| p.0),
        fen_white(fen_text(b)) == b.white_to_move,
        ep_file_of(fen_text(b)) == 0,
        fen_fifty(fen_text(b)) == b.current_state.fifty_move_counter,
        fen_move_count(fen_text(b)) == b.plycount / 2 + 1,
        castling_field(fen_text(b)) == castling_text(b.current_state.castling_rights),
        b.current_state.castling_rights < 16 ==> fen_castling(fen_text(b)) == b.current_state.castling_rights,
{
    let t = fen_text(b);
    if b.current_state.castling_rights < 16 {
        lemma_castling_reads_back(b.current_state.castling_rights);
    }
    let ep = b.current_state.en_passant_file as int;
    let pt = placement_text(b.square@, 7);
    let w: Seq<u8> = if b.white_to_move { seq![119u8] } else { seq![98u8] };
    let c = castling_text(b.current_state.castling_rights);
    let e: Seq<u8> = if ep == 0 { seq![45u8] } else { decimal((96 + ep) as nat) + seq![if b.white_to_move { 54u8 } else { 51u8 }] };
    let f = decimal(b.current_state.fifty_move_counter as nat);
    let m = decimal((b.plycount / 2 + 1) as nat);
    let sp = seq![32u8];
    assert(t =~= pt + sp + (w + sp + (c + sp + (e + sp + (f + sp + m)))));
    lemma_placement_text_no_space(b.square@, 7);
    lemma_fen_squares_round_trip(b);
    lemma_decimal_reads_back(b.current_state.fifty_move_counter as nat);
    lemma_decimal_reads_back((b.plycount / 2 + 1) as nat);
    assert forall|i: int| 0 <= i < w.len() implies w[i] != 32 by {}
    assert forall|i: int| 0 <= i < c.len() implies c[i] != 32 by {
        lemma_castling_text_letters(b.current_state.castling_rights);
    }
    assert forall|i: int| 0 <= i < e.len() implies e[i] != 32 by {
        if ep != 0 {
            lemma_decimal_reads_back((96 + ep) as nat);
            let d = decimal((96 + ep) as nat);
            if i < d.len() {
                assert(e[i] == d[i]);
            }
        }
    }
    lemma_six_fields(pt, w, c, e, f, m);
    if ep != 0 {
        lemma_decimal_reads_back((96 + ep) as nat);
        assert(e[0] == decimal((96 + ep) as nat)[0]);
        assert(is_digit(decimal((96 + ep) as nat)[0]));
    }
    if !b.white_to_move {
        assert(field(t, 1)[0] == 98);
    }
}

/// The castling field is made of the letters `K`, `Q`, `k`, `q` and `-`.
proof fn lemma_castling_text_letters(cr: u8)
    ensures
        forall|i: int| 0 <= i < castling_text(cr).len() ==> #[trigger] castling_text(cr)[i] != 32,
{
    let a: Seq<u8> = if cr & 1u8 != 0 { seq![75u8] } else { Seq::empty() };
    let q: Seq<u8> = if cr & 2u8 != 0 { seq![81u8] } else { Seq::empty() };
    let k: Seq<u8> = if cr & 4u8 != 0 { seq![107u8] } else { Seq::empty() };
    let l: Seq<u8> = if cr & 8u8 != 0 { seq![113u8] } else { Seq::empty() };
    let s = a + q + k + l;
    assert forall|i: int| 0 <= i < s.len() implies s[i] != 32 by {
        if i < a.len() {
            assert(s[i] == a[i]);
        } else if i < a.len() + q.len() {
            assert(s[i] == q[i - a.len()]);
        } else if i < a.len() + q.len() + k.len() {
            assert(s[i] == k[i - a.len() - q.len()]);
        } else {
            assert(s[i] == l[i - a.len() - q.len() - k.len()]);
        }
    }
}

/// The letter `x` if `on`, else nothing.
pub open spec fn optional_letter(x: u8, on: bool) -> Seq<u8> {
    if on { seq![x] } else { Seq::empty() }
}

/// A letter written or not holds exactly that letter.
proof fn lemma_optional_letter(x: u8, on: bool)
    ensures
        forall|v: u8| #[trigger] optional_letter(x, on).contains(v) == (on && v == x),
{
    let t = optional_letter(x, on);
    assert forall|v: u8| #[trigger] t.contains(v) == (on && v == x) by {
        if on {
            assert(t[0] == x);
        }
    }
}

/// The castling field written for rights below 16 reads back as those rights.
proof fn lemma_castling_reads_back(cr: u8)
    requires
        cr < 16,
    ensures
        ({
            let cf = castling_text(cr);
            ((if cf.contains(75u8) { 1u8 } else { 0u8 }) | (if cf.contains(81u8) { 2u8 } else { 0u8 })
                | (if cf.contains(107u8) { 4u8 } else { 0u8 }) | (if cf.contains(113u8) { 8u8 } else { 0u8 })) == cr
        }),
{
    let a = optional_letter(75u8, cr & 1u8 != 0);
    let q = optional_letter(81u8, cr & 2u8 != 0);
    let k = optional_letter(107u8, cr & 4u8 != 0);
    let l = optional_letter(113u8, cr & 8u8 != 0);
    let s = a + q + k + l;
    let cf = castling_text(cr);
    assert(a.len() + q.len() + k.len() + l.len() == s.len());
    // Each letter stands in the field exactly where its right is held.
    assert forall|v: u8| #![trigger s.contains(v)] s.contains(v) <==> a.contains(v) || q.contains(v) || k.contains(v) || l.contains(v) by {
        if s.contains(v) {
            let i = choose|i: int| 0 <= i < s.len() && s[i] == v;
            if i < a.len() {
                assert(a[i] == v);
            } else if i < a.len() + q.len() {
                assert(q[i - a.len()] == v);
            } else if i < a.len() + q.len() + k.len() {
                assert(k[i - a.len() - q.len()] == v);
            } else {
                assert(l[i - a.len() - q.len() - k.len()] == v);
            }
        }
        if a.contains(v) {
            assert(s[0] == a[0]);
        }
        if q.contains(v) {
            assert(s[a.len() as int] == q[0]);
        }
        if k.contains(v) {
            assert(s[(a.len() + q.len()) as int] == k[0]);
        }
        if l.contains(v) {
            assert(s[(a.len() + q.len() + k.len()) as int] == l[0]);
        }
    }
    lemma_optional_letter(75u8, cr & 1u8 != 0);
    lemma_optional_letter(81u8, cr & 2u8 != 0);
    lemma_optional_letter(107u8, cr & 4u8 != 0);
    lemma_optional_letter(113u8, cr & 8u8 != 0);
    assert(s.contains(75u8) == (cr & 1u8 != 0));
    assert(s.contains(81u8) == (cr & 2u8 != 0));
    assert(s.contains(107u8) == (cr & 4u8 != 0));
    assert(s.contains(113u8) == (cr & 8u8 != 0));
    assert(((if cr & 1u8 != 0 { 1u8 } else { 0u8 }) | (if cr & 2u8 != 0 { 2u8 } else { 0u8 })
        | (if cr & 4u8 != 0 { 4u8 } else { 0u8 }) | (if cr & 8u8 != 0 { 8u8 } else { 0u8 })) == cr
        && ((cr & 1u8 == 0 && cr & 2u8 == 0 && cr & 4u8 == 0 && cr & 8u8 == 0) ==> cr == 0)) by (bit_vector)
        requires
            cr < 16;
    if s.len() == 0 {
        assert(cf == seq![45u8]);
        assert(!cf.contains(75u8) && !cf.contains(81u8) && !cf.contains(107u8) && !cf.contains(113u8));
    } else {
        assert(cf == s);
    }
}

} // verus!
