use engine::board::Board;
use engine::board::zobrist::Zobrist;
use engine::color::{White, Black};
use engine::coord::Coord;
use engine::eval::Evaluation;

#[test]
fn test_bishop_count() {
    let board = Board::load_position(Some(String::from("nb3b1R/p1pkn2p/1p2Rpn1/n6B/1bPP1qpP/QP2r1P1/P1P2P2/2BN2RK b Qkq - 1 2")), &mut Zobrist::new());
    let mut eval = Evaluation::new(&board);
    eval.init::<White, Black>();
    assert_eq!(eval.bishop_count::<White, Black>(), 2);
    eval.init::<Black, White>();
    assert_eq!(eval.bishop_count::<Black, White>(), 3);
}

#[test]
fn test_queen_count() {
    let board = Board::load_position(Some(String::from("nb3b1R/p1pkn2p/1p2Rpn1/nQ5B/1bPP1qpP/QP2r1P1/P1P2P2/2BN2RK b Qkq - 1 2")), &mut Zobrist::new());
    let mut eval = Evaluation::new(&board);
    eval.init::<White, Black>();
    assert_eq!(eval.queen_count::<White, Black>(), 2);
    eval.init::<Black, White>();
    assert_eq!(eval.queen_count::<Black, White>(), 1);
}

#[test]
fn test_pawn_count() {
    let board = Board::load_position(Some(String::from("nb3b1R/p1pkn2p/1p2Rpn1/nQ5B/1bPP1qpP/QP2r1P1/P1P2P2/2BN2RK b Qkq - 1 2")), &mut Zobrist::new());
    let mut eval = Evaluation::new(&board);
    eval.init::<White, Black>();
    assert_eq!(eval.pawn_count::<White, Black>(), 8);
    eval.init::<Black, White>();
    assert_eq!(eval.pawn_count::<Black, White>(), 6);
}

#[test]
fn test_knight_count() {
    let board = Board::load_position(Some(String::from("nb3b1R/p1pkn2p/1p2Rpn1/nQ5B/1bPP1qpP/QP2r1P1/P1P2P2/2BN2RK b Qkq - 1 2")), &mut Zobrist::new());
    let mut eval = Evaluation::new(&board);
    eval.init::<White, Black>();
    assert_eq!(eval.knight_count::<White, Black>(), 1);
    eval.init::<Black, White>();
    assert_eq!(eval.knight_count::<Black, White>(), 4);
}

#[test]
fn test_rook_count() {
    let board = Board::load_position(Some(String::from("nb3b1R/p1pkn2p/1p2Rpn1/nQ5B/1bPP1qpP/QP2r1P1/P1P2P2/2BN2RK b Qkq - 1 2")), &mut Zobrist::new());
    let mut eval = Evaluation::new(&board);
    eval.init::<White, Black>();
    assert_eq!(eval.rook_count::<White, Black>(), 3);
    eval.init::<Black, White>();
    assert_eq!(eval.rook_count::<Black, White>(), 1);
}

#[test]
fn test_opposite_bishops() {
    let board = Board::load_position(Some(String::from("n1b1r3/4p1Q1/1q2pP2/kpp4r/P1P4r/R1B1N2P/P4P1R/4RnK1 b kq - 2 11")), &mut Zobrist::new());
    let mut eval = Evaluation::new(&board);
    eval.init::<White, Black>();
    assert_eq!(eval.opposite_bishops(), true);
    eval.init::<Black, White>();
    assert_eq!(eval.opposite_bishops(), true);
}

#[test]
fn test_king_distance() {
    let board = Board::load_position(Some(String::from("nb3b1R/p1pkn2p/1p2Rpn1/nQ5B/1bPP1qpP/QP2r1P1/P1P2P2/2BN2RK b Qkq - 1 2")), &mut Zobrist::new());
    let mut eval = Evaluation::new(&board);
    eval.init::<White, Black>();
    assert_eq!(eval.king_distance::<White, Black>().count() as i32, 308);
    eval.init::<Black, White>();
    assert_eq!(eval.king_distance::<Black, White>().count() as i32, 215);
}

#[test]
fn test_king_ring() {
    let board = Board::load_position(Some(String::from("nb3b1R/p1pkn3/1p2Rpn1/nQ5B/1bPP1qpP/QP2r3/P1P2P1P/2BN2RK w Qkq - 2 3")), &mut Zobrist::new());
    let mut eval = Evaluation::new(&board);
    eval.init::<White, Black>();
    assert_eq!(if eval.king_ring::<White, Black>(false).contains_square(Coord::new(6, 2).square()) { 1 } else { 0 }, 0);
    eval.init::<Black, White>();
    assert_eq!(if eval.king_ring::<Black, White>(false).contains_square(Coord::new(6, 2).square()) { 1 } else { 0 }, 0);
}

#[test]
fn test_piece_count() {
    let board = Board::load_position(Some(String::from("nb3b1R/p1pkn3/1p2Rpn1/nQ5B/1bPP1qpP/QP2r3/P1P2P1P/2BN2RK w Qkq - 2 3")), &mut Zobrist::new());
    let mut eval = Evaluation::new(&board);
    eval.init::<White, Black>();
    assert_eq!(eval.piece_count::<White, Black>(), 17);
    eval.init::<Black, White>();
    assert_eq!(eval.piece_count::<Black, White>(), 15);
}

#[test]
fn test_pawn_attacks_span() {
    let board = Board::load_position(Some(String::from("nb3b1R/p1pkn3/n3Rpn1/pQ5B/1bPP1qpP/QP2r3/P1P2P1P/2BN2RK b Qkq - 3 3")), &mut Zobrist::new());
    let mut eval = Evaluation::new(&board);
    eval.init::<White, Black>();
    assert_eq!(eval.pawn_attacks_span::<White, Black>().count() as i32, 28);
    eval.init::<Black, White>();
    assert_eq!(eval.pawn_attacks_span::<Black, White>().count() as i32, 32);
}
