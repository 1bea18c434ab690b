use engine::board::Board;
use engine::board::zobrist::Zobrist;
use engine::color::{White, Black};
use engine::coord::Coord;
use engine::eval::Evaluation;

#[test]
fn test_winnable() {
    let board = Board::load_position(Some(String::from("n3r3/2p1p1QK/p2n4/2p1bP1r/PkPB3r/R2BN2P/Pq3P1R/1B2Rn2 b kq - 2 10")), &mut Zobrist::new());
    let mut eval = Evaluation::new(&board);
    eval.init::<White, Black>();
    assert_eq!(eval.winnable::<White, Black>(), 91);
    eval.init::<Black, White>();
    assert_eq!(eval.winnable::<Black, White>(), 91);
}
