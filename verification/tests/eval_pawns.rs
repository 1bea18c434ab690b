use engine::board::Board;
use engine::board::zobrist::Zobrist;
use engine::color::{White, Black};
use engine::coord::Coord;
use engine::eval::Evaluation;

#[test]
fn test_isolated() {
    let board = Board::load_position(Some(String::from("1r3q1R/2n4n/p2knpRp/pQp2PPB/1bP2q1r/5n1P/P1P2P2/2B1N1RK b kq - 0 7")), &mut Zobrist::new());
    let mut eval = Evaluation::new(&board);
    eval.init::<White, Black>();
    assert_eq!(eval.isolated::<White, Black>().count() as i32, 3);
    eval.init::<Black, White>();
    assert_eq!(eval.isolated::<Black, White>().count() as i32, 5);
}

#[test]
fn test_opposed() {
    let board = Board::load_position(Some(String::from("1r3q1R/p3n2n/np1k1pR1/pQ3P1B/1b1P1qpr/QP3n1P/P4P2/1PB1N1RK w kq - 9 6")), &mut Zobrist::new());
    let mut eval = Evaluation::new(&board);
    eval.init::<White, Black>();
    assert_eq!(eval.opposed::<White, Black>().count() as i32, 5);
    eval.init::<Black, White>();
    assert_eq!(eval.opposed::<Black, White>().count() as i32, 4);
}

#[test]
fn test_phalanx() {
    let board = Board::load_position(Some(String::from("1r3q1R/p3n2n/np1k1pR1/pQ3P1B/1b1P1qpr/QPP2n1P/P4P2/2B1N1RK w kq - 9 6")), &mut Zobrist::new());
    let mut eval = Evaluation::new(&board);
    eval.init::<White, Black>();
    assert_eq!(eval.phalanx::<White, Black>().count() as i32, 2);
    eval.init::<Black, White>();
    assert_eq!(eval.phalanx::<Black, White>().count() as i32, 0);
}

#[test]
fn test_supported() {
    let board = Board::load_position(Some(String::from("1r3q1R/p3n2n/np1k1pR1/pQ2P1qB/1b1P1Ppr/QP3n1P/P4P2/2B1N1RK w kq - 9 6")), &mut Zobrist::new());
    let mut eval = Evaluation::new(&board);
    eval.init::<White, Black>();
    assert_eq!(eval.supported::<White, Black>().0.count(), (2, 1).0);
    assert_eq!(eval.supported::<White, Black>().1.count(), (2, 1).1);
    eval.init::<Black, White>();
    assert_eq!(eval.supported::<Black, White>().0.count(), (2, 0).0);
    assert_eq!(eval.supported::<Black, White>().1.count(), (2, 0).1);
}

#[test]
fn test_backward() {
    let board = Board::load_position(Some(String::from("1r3q1R/2n4n/p2knpRp/pQp2PPB/1bP2q1r/5n1P/P1P2P2/2B1N1RK b kq - 0 7")), &mut Zobrist::new());
    let mut eval = Evaluation::new(&board);
    eval.init::<White, Black>();
    assert_eq!(eval.backward::<White, Black>().count() as i32, 1);
    eval.init::<Black, White>();
    assert_eq!(eval.backward::<Black, White>().count() as i32, 2);
}

#[test]
fn test_doubled() {
    let board = Board::load_position(Some(String::from("1r3q1R/2n1n2n/pp1k1pR1/pQ3P1B/1b1P1qpr/QP1P1n1P/P4P2/2B1N1RK w kq - 1 7")), &mut Zobrist::new());
    let mut eval = Evaluation::new(&board);
    eval.init::<White, Black>();
    assert_eq!(eval.doubled::<White, Black>().count() as i32, 1);
    eval.init::<Black, White>();
    assert_eq!(eval.doubled::<Black, White>().count() as i32, 0);
}

#[test]
fn test_connected() {
    let board = Board::load_position(Some(String::from("1r3q1R/2n1n2n/pp1k1pR1/pQ3P1B/1b1P1qpr/QP1P1n1P/P4P2/2B1N1RK w kq - 1 7")), &mut Zobrist::new());
    let mut eval = Evaluation::new(&board);
    eval.init::<White, Black>();
    assert_eq!(eval.connected::<White, Black>().count() as i32, 1);
    eval.init::<Black, White>();
    assert_eq!(eval.connected::<Black, White>().count() as i32, 3);
}

#[test]
fn test_connected_bonus() {
    let board = Board::load_position(Some(String::from("1r3q1R/2n1n2n/pp1k1pR1/pQ3P1B/1b1P1qpr/QP1P1n1P/P4P2/2B1N1RK w kq - 1 7")), &mut Zobrist::new());
    let mut eval = Evaluation::new(&board);
    eval.init::<White, Black>();
    assert_eq!(eval.connected_bonus::<White, Black>().count() as i32, 29);
    eval.init::<Black, White>();
    assert_eq!(eval.connected_bonus::<Black, White>().count() as i32, 65);
}

#[test]
fn test_weak_unopposed_pawn() {
    let board = Board::load_position(Some(String::from("1r3q1R/2n1n2n/pp1k1pR1/pQ3P1B/1b1P1qpr/QP1P1n1P/P4P2/2B1N1RK w kq - 1 7")), &mut Zobrist::new());
    let mut eval = Evaluation::new(&board);
    eval.init::<White, Black>();
    assert_eq!(eval.weak_unopposed_pawn::<White, Black>().0.count(), (3, 0).0);
    assert_eq!(eval.weak_unopposed_pawn::<White, Black>().1.count(), (3, 0).1);
    eval.init::<Black, White>();
    assert_eq!(eval.weak_unopposed_pawn::<Black, White>().0.count(), (0, 0).0);
    assert_eq!(eval.weak_unopposed_pawn::<Black, White>().1.count(), (0, 0).1);
}

#[test]
fn test_weak_lever() {
    let board = Board::load_position(Some(String::from("1r3q1R/2n1n2n/pp1k1pRp/pQP3PB/1b2Pq1r/Q4n1P/P1P2P2/2B1N1RK w kq - 1 7")), &mut Zobrist::new());
    let mut eval = Evaluation::new(&board);
    eval.init::<White, Black>();
    assert_eq!(eval.weak_lever::<White, Black>().count() as i32, 1);
    eval.init::<Black, White>();
    assert_eq!(eval.weak_lever::<Black, White>().count() as i32, 0);
}

#[test]
fn test_blocked() {
    let board = Board::load_position(Some(String::from("1r3q1R/2n4n/p2knpRp/1Qp2PPB/1bP2q1r/p4n1P/P1P2P2/2B1N1RK b kq - 0 7")), &mut Zobrist::new());
    let mut eval = Evaluation::new(&board);
    eval.init::<White, Black>();
    assert_eq!(eval.blocked::<White, Black>().0.count(), (1, 0).0);
    assert_eq!(eval.blocked::<White, Black>().1.count(), (1, 0).1);
    eval.init::<Black, White>();
    assert_eq!(eval.blocked::<Black, White>().0.count(), (0, 1).0);
    assert_eq!(eval.blocked::<Black, White>().1.count(), (0, 1).1);
}

#[test]
fn test_doubled_isolated() {
    let board = Board::load_position(Some(String::from("1r3q1R/2n4n/p2knpRp/pQp2PPB/1bP2q1r/5n1P/P1P2P2/2B1N1RK b kq - 0 7")), &mut Zobrist::new());
    let mut eval = Evaluation::new(&board);
    eval.init::<White, Black>();
    assert_eq!(eval.doubled_isolated::<White, Black>().count() as i32, 1);
    eval.init::<Black, White>();
    assert_eq!(eval.doubled_isolated::<Black, White>().count() as i32, 1);
}

#[test]
fn test_pawns_mg() {
    let board = Board::load_position(Some(String::from("1r3q1R/2n4n/p2knpRp/pQp2PPB/1bP2q1r/5n1P/P1P2P2/2B1N1RK b kq - 0 7")), &mut Zobrist::new());
    let mut eval = Evaluation::new(&board);
    eval.init::<White, Black>();
    assert_eq!(eval.pawns_mg::<White, Black>(), 113);
    eval.init::<Black, White>();
    assert_eq!(eval.pawns_mg::<Black, White>(), -42);
}

#[test]
fn test_pawns_eg() {
    let board = Board::load_position(Some(String::from("1r3q1R/2n4n/p2knpRp/pQp2PPB/1bP2q1r/5n1P/P1P2P2/2B1N1RK b kq - 0 7")), &mut Zobrist::new());
    let mut eval = Evaluation::new(&board);
    eval.init::<White, Black>();
    assert_eq!(eval.pawns_eg::<White, Black>(), -74);
    eval.init::<Black, White>();
    assert_eq!(eval.pawns_eg::<Black, White>(), -172);
}
