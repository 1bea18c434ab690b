use engine::board::Board;
use engine::board::zobrist::Zobrist;
use engine::color::{White, Black};
use engine::coord::Coord;
use engine::eval::Evaluation;

#[test]
fn test_non_pawn_material() {
    let board = Board::load_position(Some(String::from("1r3q1R/p1p1n2n/n2k1pR1/pQ3P1B/1bP2qpr/QP3n1P/P1P1P3/2B1N1RK w kq - 9 6")), &mut Zobrist::new());
    let mut eval = Evaluation::new(&board);
    eval.init::<White, Black>();
    assert_eq!(eval.non_pawn_material::<White, Black>(), 11335);
    eval.init::<Black, White>();
    assert_eq!(eval.non_pawn_material::<Black, White>(), 11577);
}

#[test]
fn test_piece_value_bonus() {
    let board = Board::load_position(Some(String::from("1r3q1R/p1p1n2n/n2k1pR1/pQ3P1B/1bP2qpr/QP3n1P/P1P1P3/2B1N1RK w kq - 9 6")), &mut Zobrist::new());
    let mut eval = Evaluation::new(&board);
    eval.init::<White, Black>();
    assert_eq!(eval.piece_value_mg::<White, Black>(), 12203);
    eval.init::<Black, White>();
    assert_eq!(eval.piece_value_mg::<Black, White>(), 12197);
}

#[test]
fn test_psqt_bonus() {
    let board = Board::load_position(Some(String::from("1r3q1R/p1p1n2n/n2k1pR1/pQ3P1B/1bP2qpr/QP3n1P/P1P1P3/2B1N1RK w kq - 9 6")), &mut Zobrist::new());
    let mut eval = Evaluation::new(&board);
    eval.init::<White, Black>();
    assert_eq!(eval.psqt_mg::<White, Black>(), 146);
    eval.init::<Black, White>();
    assert_eq!(eval.psqt_mg::<Black, White>(), 32);
}
