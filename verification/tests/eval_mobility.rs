use engine::board::Board;
use engine::board::zobrist::Zobrist;
use engine::color::{White, Black};
use engine::coord::Coord;
use engine::eval::Evaluation;

#[test]
fn test_mobility() {
    let board = Board::load_position(Some(String::from("1r3q1R/p1p1n2n/n2k1pR1/pQ3P1B/1bP2qpr/QP3n1P/P1P1P3/2B1N1RK w kq - 9 6")), &mut Zobrist::new());
    let mut eval = Evaluation::new(&board);
    eval.init::<White, Black>();
    assert_eq!(eval.mobility::<White, Black>().count() as i32, 41);
    eval.init::<Black, White>();
    assert_eq!(eval.mobility::<Black, White>().count() as i32, 48);
}

#[test]
fn test_mobility_area() {
    let board = Board::load_position(Some(String::from("1r3q1R/p1p1n2n/n2k1pR1/pQ3P1B/1bP2qpr/QP3n1P/P1P1P3/2B1N1RK w kq - 9 6")), &mut Zobrist::new());
    let mut eval = Evaluation::new(&board);
    eval.init::<White, Black>();
    assert_eq!(eval.mobility_area::<White, Black>().count() as i32, 49);
    eval.init::<Black, White>();
    assert_eq!(eval.mobility_area::<Black, White>().count() as i32, 47);
}

#[test]
fn test_mobility_bonus() {
    let board = Board::load_position(Some(String::from("1r3q1R/p1p1n2n/n2k1pR1/pQ3P1B/1bP2qpr/QP3n1P/P1P1P3/2B1N1RK w kq - 9 6")), &mut Zobrist::new());
    let mut eval = Evaluation::new(&board);
    eval.init::<White, Black>();
    assert_eq!(eval.mobility_bonus::<White, Black>(), (193, 467));
    eval.init::<Black, White>();
    assert_eq!(eval.mobility_bonus::<Black, White>(), (158, 293));
}
