use engine::board::Board;
use engine::board::zobrist::Zobrist;
use engine::color::{White, Black};
use engine::coord::Coord;
use engine::eval::Evaluation;

#[test]
fn test_safe_pawn() {
    let board = Board::load_position(Some(String::from("nr1B3Q/1k2p2p/p2n2R1/p1p1bP1q/R1P1qB1r/1NP3nP/P4PBR/6K1 w kq - 3 9")), &mut Zobrist::new());
    let mut eval = Evaluation::new(&board);
    eval.init::<White, Black>();
    assert_eq!(eval.safe_pawn::<White, Black>().count() as i32, 4);
    eval.init::<Black, White>();
    assert_eq!(eval.safe_pawn::<Black, White>().count() as i32, 2);
}

#[test]
fn test_threat_safe_pawn() {
    let board = Board::load_position(Some(String::from("nr1B3Q/1k2p2p/p2n2R1/1pp1bP1q/R1P1qB1r/1NP3nP/P4PBR/6K1 b kq - 0 9")), &mut Zobrist::new());
    let mut eval = Evaluation::new(&board);
    eval.init::<White, Black>();
    assert_eq!(eval.threat_safe_pawn::<White, Black>().count() as i32, 1);
    eval.init::<Black, White>();
    assert_eq!(eval.threat_safe_pawn::<Black, White>().count() as i32, 2);
}

#[test]
fn test_weak_enemies() {
    let board = Board::load_position(Some(String::from("nr1B3Q/1k2p2p/p2n2R1/1pp1bP1q/R1P1qB1r/1NP3nP/P4PBR/6K1 b kq - 0 9")), &mut Zobrist::new());
    let mut eval = Evaluation::new(&board);
    eval.init::<White, Black>();
    assert_eq!(eval.weak_enemies::<White, Black>().count() as i32, 5);
    eval.init::<Black, White>();
    assert_eq!(eval.weak_enemies::<Black, White>().count() as i32, 7);
}

#[test]
fn test_minor_threat() {
    let board = Board::load_position(Some(String::from("nr1B3Q/1k2p2p/p2n2R1/1pp1bP1q/R1P1qB1r/1NP3nP/P4PBR/6K1 b kq - 0 9")), &mut Zobrist::new());
    let mut eval = Evaluation::new(&board);
    eval.init::<White, Black>();
    assert_eq!(eval.minor_threat::<White, Black>().count() as i32, 18);
    eval.init::<Black, White>();
    assert_eq!(eval.minor_threat::<Black, White>().count() as i32, 11);
}

#[test]
fn test_rook_threat() {
    let board = Board::load_position(Some(String::from("nr1B3Q/1k2p2p/p2n2R1/1pp1bP1q/R1P1qB1r/1NP3nP/P4PBR/6K1 b kq - 0 9")), &mut Zobrist::new());
    let mut eval = Evaluation::new(&board);
    eval.init::<White, Black>();
    assert_eq!(eval.rook_threat::<White, Black>().count() as i32, 3);
    eval.init::<Black, White>();
    assert_eq!(eval.rook_threat::<Black, White>().count() as i32, 6);
}

#[test]
fn test_hanging() {
    let board = Board::load_position(Some(String::from("nr1B3Q/1k2p2p/p2n2R1/1pp1bP1q/R1P1qB1r/1NP3nP/P4PBR/6K1 b kq - 0 9")), &mut Zobrist::new());
    let mut eval = Evaluation::new(&board);
    eval.init::<White, Black>();
    assert_eq!(eval.hanging::<White, Black>().count() as i32, 4);
    eval.init::<Black, White>();
    assert_eq!(eval.hanging::<Black, White>().count() as i32, 5);
}

#[test]
fn test_king_threat() {
    let board = Board::load_position(Some(String::from("nr1B3Q/4p2p/p2n2R1/kPp1bP1q/R3qB1r/1NP4P/P4PBR/5nK1 b kq - 0 9")), &mut Zobrist::new());
    let mut eval = Evaluation::new(&board);
    eval.init::<White, Black>();
    assert_eq!(eval.king_threat::<White, Black>().count() as i32, 1);
    eval.init::<Black, White>();
    assert_eq!(eval.king_threat::<Black, White>().count() as i32, 2);
}

#[test]
fn test_pawn_push_threat() {
    let board = Board::load_position(Some(String::from("1r3q1R/p1p1n2n/n2k1pR1/pQ3P1B/1bP2qpr/QP3n1P/P1P1P3/2B1N1RK w kq - 9 6")), &mut Zobrist::new());
    let mut eval = Evaluation::new(&board);
    eval.init::<White, Black>();
    assert_eq!(eval.pawn_push_threat::<White, Black>().count() as i32, 3);
    eval.init::<Black, White>();
    assert_eq!(eval.pawn_push_threat::<Black, White>().count() as i32, 1);
}

#[test]
fn test_slider_on_queen() {
    let board = Board::load_position(Some(String::from("n3r3/2p1p1Q1/p2n4/k1p1bP1r/P1PB3r/R2BN2P/Pq3P1R/1B2RnK1 b kq - 0 9")), &mut Zobrist::new());
    let mut eval = Evaluation::new(&board);
    eval.init::<White, Black>();
    assert_eq!(eval.slider_on_queen::<White, Black>().count() as i32, 4);
    eval.init::<Black, White>();
    assert_eq!(eval.slider_on_queen::<Black, White>().count() as i32, 3);
}

#[test]
fn test_knight_on_queen() {
    let board = Board::load_position(Some(String::from("n2Br3/2p1p1Q1/p2n4/kRp1bP1r/P1P4r/3BN2P/Pq3P1R/1B2RnK1 b kq - 0 9")), &mut Zobrist::new());
    let mut eval = Evaluation::new(&board);
    eval.init::<White, Black>();
    assert_eq!(eval.knight_on_queen::<White, Black>().count() as i32, 1);
    eval.init::<Black, White>();
    assert_eq!(eval.knight_on_queen::<Black, White>().count() as i32, 2);
}

#[test]
fn test_restricted() {
    let board = Board::load_position(Some(String::from("n3r3/2p1p1Q1/p2n4/k1p1bP1r/P1PB3r/R2BN2P/Pq3P1R/1B2RnK1 b kq - 0 9")), &mut Zobrist::new());
    let mut eval = Evaluation::new(&board);
    eval.init::<White, Black>();
    assert_eq!(eval.restricted::<White, Black>().count() as i32, 20);
    eval.init::<Black, White>();
    assert_eq!(eval.restricted::<Black, White>().count() as i32, 16);
}

#[test]
fn test_weak_queen_protection() {
    let board = Board::load_position(Some(String::from("n1n1r3/4p1Q1/1q2pP2/kpp1bB1r/P1PB3r/R3N2P/P4P1R/1B2RnK1 b kq - 2 11")), &mut Zobrist::new());
    let mut eval = Evaluation::new(&board);
    eval.init::<White, Black>();
    assert_eq!(eval.weak_queen_protection::<White, Black>().count() as i32, 3);
    eval.init::<Black, White>();
    assert_eq!(eval.weak_queen_protection::<Black, White>().count() as i32, 1);
}

#[test]
fn test_threats_mg() {
    let board = Board::load_position(Some(String::from("1r3q1R/p1p1n2n/n2k1pR1/pQ3P1B/1bP2qpr/QP3n1P/P1P1P3/2B1N1RK w kq - 9 6")), &mut Zobrist::new());
    let mut eval = Evaluation::new(&board);
    eval.init::<White, Black>();
    assert_eq!(eval.threats_mg::<White, Black>(), 1004);
    eval.init::<Black, White>();
    assert_eq!(eval.threats_mg::<Black, White>(), 827);
}

#[test]
fn test_threats_eg() {
    let board = Board::load_position(Some(String::from("n3r3/2p1p1Q1/p2n4/k1p1bP1r/P1PB3r/R2BN2P/Pq3P1R/1B2RnK1 b kq - 0 9")), &mut Zobrist::new());
    let mut eval = Evaluation::new(&board);
    eval.init::<White, Black>();
    assert_eq!(eval.threats_eg::<White, Black>(), 814);
    eval.init::<Black, White>();
    assert_eq!(eval.threats_eg::<Black, White>(), 982);
}
