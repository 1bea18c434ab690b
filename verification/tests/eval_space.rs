use engine::board::Board;
use engine::board::zobrist::Zobrist;
use engine::color::{White, Black};
use engine::coord::Coord;
use engine::eval::Evaluation;

#[test]
fn test_space_area() {
    let board = Board::load_position(Some(String::from("nr1B3Q/1k2p2p/p2n2R1/p1p1bP1q/R1P1qB1r/1NP1P1nP/P5BR/6K1 w kq - 3 9")), &mut Zobrist::new());
    let mut eval = Evaluation::new(&board);
    eval.init::<White, Black>();
    assert_eq!(eval.space_area::<White, Black>().0.count(), (8, 2).0);
    assert_eq!(eval.space_area::<White, Black>().1.count(), (8, 2).1);
    eval.init::<Black, White>();
    assert_eq!(eval.space_area::<Black, White>().0.count(), (8, 0).0);
    assert_eq!(eval.space_area::<Black, White>().1.count(), (8, 0).1);
}

#[test]
fn test_space() {
    let board = Board::load_position(Some(String::from("nr1B3Q/1k2p2p/p2n2R1/p1p1bP1q/R1P1qB1r/1NP3nP/P4PBR/6K1 w kq - 3 9")), &mut Zobrist::new());
    let mut eval = Evaluation::new(&board);
    eval.init::<White, Black>();
    assert_eq!(eval.space::<White, Black>(), 110);
    eval.init::<Black, White>();
    assert_eq!(eval.space::<Black, White>(), 84);
}
