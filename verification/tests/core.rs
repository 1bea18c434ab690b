use engine::board::Board;
use engine::board::moves::Move;
use engine::board::zobrist::Zobrist;
use engine::color::{Black, Color, RanksIterator, White};
use engine::coord::Coord;
use engine::piece::Piece;

#[test]
fn test_move_start_end() {
    let start = Coord::a8();
    let target = Coord::a1();
    let m = Move::from_start_end(start.square(), target.square());
    assert_eq!(start, m.start());
    assert_eq!(target, m.target());
}

#[test]
fn test_up_down() {
    let board = Board::load_position(None, &mut Zobrist::new());
    assert_eq!(board.square[Coord::new(2, 1).index()], Piece::new(Piece::WHITE_PAWN));
    assert_eq!(board.square[Coord::new(2, 1).add(White::down()).index()], Piece::new(Piece::WHITE_BISHOP));
    assert_eq!(board.square[Coord::new(4, 6).add(Black::down()).index()], Piece::new(Piece::BLACK_KING));
}

#[test]
fn test_at() {
    let board = Board::load_position(None, &mut Zobrist::new());
    assert_eq!(board.square[White::at(2, 1).index()], Piece::new(Piece::WHITE_PAWN));
    assert_eq!(board.square[Black::at(2, 1).index()], Piece::new(Piece::BLACK_PAWN));
}

#[test]
fn test_ranks_iter() {
    let mut it = RanksIterator::new(-1, 7);
    assert_eq!(it.next(), Some(7));
    assert_eq!(it.next(), Some(6));
    assert_eq!(it.next(), Some(5));
    assert_eq!(it.next(), Some(4));
    assert_eq!(it.next(), Some(3));
    assert_eq!(it.next(), Some(2));
    assert_eq!(it.next(), Some(1));
    assert_eq!(it.next(), Some(0));
    assert_eq!(it.next(), None);
}
