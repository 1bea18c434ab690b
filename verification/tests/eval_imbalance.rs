use engine::board::Board;
use engine::board::zobrist::Zobrist;
use engine::color::{White, Black};
use engine::coord::Coord;
use engine::eval::Evaluation;

#[test]
fn test_imbalance() {
    let board = Board::load_position(Some(String::from("nb3b1R/p1pkn3/n3Rpn1/pQ5B/1bPP1qpP/QP2r3/P1P2P1P/2BN2RK b Qkq - 3 3")), &mut Zobrist::new());
    let mut eval = Evaluation::new(&board);
    eval.init::<White, Black>();
    assert_eq!(eval.imbalance::<White, Black>().count() as i32, 9878);
    eval.init::<Black, White>();
    assert_eq!(eval.imbalance::<Black, White>().count() as i32, 14273);
}

#[test]
fn test_bishop_pair() {
    let board = Board::load_position(Some(String::from("nr3q1R/p1pkn3/n3Rpn1/pQ5B/1bPP1qpP/QP2r3/P1P2P1P/2BN2RK b Qkq - 3 3")), &mut Zobrist::new());
    let mut eval = Evaluation::new(&board);
    eval.init::<White, Black>();
    assert_eq!(eval.bishop_pair::<White, Black>(), 1438);
    eval.init::<Black, White>();
    assert_eq!(eval.bishop_pair::<Black, White>(), 0);
}

#[test]
fn test_imbalance_total() {
    let board = Board::load_position(Some(String::from("nr3q1R/p1pkn3/n3Rpn1/pQ5B/1bPP1qpP/QP2r3/P1P2P1P/2BN2RK b Qkq - 3 3")), &mut Zobrist::new());
    let mut eval = Evaluation::new(&board);
    eval.init::<White, Black>();
    assert_eq!(eval.imbalance_total::<White, Black>(), -181);
    eval.init::<Black, White>();
    assert_eq!(eval.imbalance_total::<Black, White>(), 181);
}
