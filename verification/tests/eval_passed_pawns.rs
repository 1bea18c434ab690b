use engine::board::Board;
use engine::board::zobrist::Zobrist;
use engine::color::{White, Black};
use engine::coord::Coord;
use engine::eval::Evaluation;

#[test]
fn test_candidate_passed() {
    let board = Board::load_position(Some(String::from("1r3q1R/p3n2n/np1k1pR1/pQ3P1B/1b1P1qpr/QP3n1P/P1P1P3/2B1N1RK w kq - 9 6")), &mut Zobrist::new());
    let mut eval = Evaluation::new(&board);
    eval.init::<White, Black>();
    assert_eq!(eval.candidate_passed::<White, Black>().count() as i32, 2);
    eval.init::<Black, White>();
    assert_eq!(eval.candidate_passed::<Black, White>().count() as i32, 1);
}

#[test]
fn test_king_proximity() {
    let board = Board::load_position(Some(String::from("1r3q1R/p3n2n/np1k1pR1/pQ3P1B/1b1P1qpr/QP3n1P/P1P1P3/2B1N1RK w kq - 9 6")), &mut Zobrist::new());
    let mut eval = Evaluation::new(&board);
    eval.init::<White, Black>();
    assert_eq!(eval.king_proximity::<White, Black>().count() as i32, -18);
    eval.init::<Black, White>();
    assert_eq!(eval.king_proximity::<Black, White>().count() as i32, -7);
}

#[test]
fn test_passed_block() {
    let board = Board::load_position(Some(String::from("1r3q1R/p3n2n/np1k1pR1/pQ3P1B/1b1P1qpr/QP3n1P/P1P1P3/2B1N1RK w kq - 9 6")), &mut Zobrist::new());
    let mut eval = Evaluation::new(&board);
    eval.init::<White, Black>();
    assert_eq!(eval.passed_block::<White, Black>().count() as i32, 10);
    eval.init::<Black, White>();
    assert_eq!(eval.passed_block::<Black, White>().count() as i32, 35);
}

#[test]
fn test_passed_file() {
    let board = Board::load_position(Some(String::from("1r3q1R/p3n2n/np1k1pR1/pQ3P1B/1b1P1qpr/QP3n1P/P1P1P3/2B1N1RK w kq - 9 6")), &mut Zobrist::new());
    let mut eval = Evaluation::new(&board);
    eval.init::<White, Black>();
    assert_eq!(eval.passed_file::<White, Black>().count() as i32, 3);
    eval.init::<Black, White>();
    assert_eq!(eval.passed_file::<Black, White>().count() as i32, 1);
}

#[test]
fn test_passed_rank() {
    let board = Board::load_position(Some(String::from("1r3q1R/p3n2n/np1k1pR1/pQ3P1B/1b1P1qpr/QP3n1P/P1P1P3/2B1N1RK w kq - 9 6")), &mut Zobrist::new());
    let mut eval = Evaluation::new(&board);
    eval.init::<White, Black>();
    assert_eq!(eval.passed_rank::<White, Black>().count() as i32, 5);
    eval.init::<Black, White>();
    assert_eq!(eval.passed_rank::<Black, White>().count() as i32, 4);
}

#[test]
fn test_passed_leverable() {
    let board = Board::load_position(Some(String::from("1r3q1R/p3n2n/np1k1pR1/pQ3P1B/1b1P1qpr/QP3n1P/P1P1P3/2B1N1RK w kq - 9 6")), &mut Zobrist::new());
    let mut eval = Evaluation::new(&board);
    eval.init::<White, Black>();
    assert_eq!(eval.passed_leverable::<White, Black>().count() as i32, 2);
    eval.init::<Black, White>();
    assert_eq!(eval.passed_leverable::<Black, White>().count() as i32, 1);
}

#[test]
fn test_passed() {
    let board = Board::load_position(Some(String::from("1r3q1R/p3n2n/np1k1pR1/pQ3P1B/1b1P1qpr/QP3n1P/P1P1P3/2B1N1RK w kq - 9 6")), &mut Zobrist::new());
    let mut eval = Evaluation::new(&board);
    eval.init::<White, Black>();
    assert_eq!(eval.passed::<White, Black>(), (9, 42));
    eval.init::<Black, White>();
    assert_eq!(eval.passed::<Black, White>(), (86, 92));
}
