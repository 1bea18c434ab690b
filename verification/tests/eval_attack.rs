use engine::board::Board;
use engine::board::zobrist::Zobrist;
use engine::color::{White, Black};
use engine::coord::Coord;
use engine::eval::Evaluation;

#[test]
fn test_knight_attack() {
    let board = Board::load_position(Some(String::from("nb2kb1R/pppppppp/6n1/4R2B/Qb2P3/4r3/PPPP1PPP/2BNK1Rq b KQkq e3 0 1")), &mut Zobrist::new());
    let mut eval = Evaluation::new(&board);
    eval.init::<White, Black>();
    let mut sum = 0i32;
    for i in 0..64 {
        sum += eval.knight_attack::<White, Black>(None, Coord::from_idx(i)).count() as i32;
    }
    assert_eq!(sum, 4);
    eval.init::<Black, White>();
    let mut sum = 0i32;
    for i in 0..64 {
        sum += eval.knight_attack::<Black, White>(None, Coord::from_idx(i)).count() as i32;
    }
    assert_eq!(sum, 8);
}

#[test]
fn test_bishop_xray_attack() {
    let board = Board::load_position(Some(String::from("rnb1k1nr/pppp1ppp/8/4p2B/1qb1PPQ1/8/PPPB1PPP/RN2K1NR b KQkq - 1 2")), &mut Zobrist::new());
    let mut eval = Evaluation::new(&board);
    eval.init::<White, Black>();
    let mut sum = 0i32;
    for i in 0..64 {
        sum += eval.bishop_xray_attack::<White, Black>(None, Coord::from_idx(i)).count() as i32;
    }
    assert_eq!(sum, 10);
    eval.init::<Black, White>();
    let mut sum = 0i32;
    for i in 0..64 {
        sum += eval.bishop_xray_attack::<Black, White>(None, Coord::from_idx(i)).count() as i32;
    }
    assert_eq!(sum, 12);
}

#[test]
fn test_rook_xray_attack() {
    let board = Board::load_position(Some(String::from("2p1kbn1/pp1bpppr/r7/3p1q1B/Q7/P2R4/PPP1PPPP/1N2KBNR w KQkq d6 0 2")), &mut Zobrist::new());
    let mut eval = Evaluation::new(&board);
    eval.init::<White, Black>();
    let mut sum = 0i32;
    for i in 0..64 {
        sum += eval.rook_xray_attack::<White, Black>(None, Coord::from_idx(i)).count() as i32;
    }
    assert_eq!(sum, 13);
    eval.init::<Black, White>();
    let mut sum = 0i32;
    for i in 0..64 {
        sum += eval.rook_xray_attack::<Black, White>(None, Coord::from_idx(i)).count() as i32;
    }
    assert_eq!(sum, 15);
}

#[test]
fn test_queen_attack() {
    let board = Board::load_position(Some(String::from("nb2kb1R/pppppppp/6n1/4R2B/1bPP1q2/Q3r3/PPP2PPP/2BNK1R1 b KQkq e3 0 1")), &mut Zobrist::new());
    let mut eval = Evaluation::new(&board);
    eval.init::<White, Black>();
    let mut sum = 0i32;
    for i in 0..64 {
        sum += eval.queen_attack::<White, Black>(None, Coord::from_idx(i)).count() as i32;
    }
    assert_eq!(sum, 11);
    eval.init::<Black, White>();
    let mut sum = 0i32;
    for i in 0..64 {
        sum += eval.queen_attack::<Black, White>(None, Coord::from_idx(i)).count() as i32;
    }
    assert_eq!(sum, 15);
}

#[test]
fn test_pawn_attack() {
    let board = Board::load_position(Some(String::from("nb2kb1R/p1p1n2p/1p3pn1/n3R2B/1bPP1qpP/QP2r1P1/P1P2P2/2BNK1R1 w KQkq - 0 2")), &mut Zobrist::new());
    let mut eval = Evaluation::new(&board);
    eval.init::<White, Black>();
    let mut sum = 0i32;
    for i in 0..64 {
        sum += eval.pawn_attack::<White, Black>(None, Coord::from_idx(i)).count() as i32;
    }
    assert_eq!(sum, 14);
    eval.init::<Black, White>();
    let mut sum = 0i32;
    for i in 0..64 {
        sum += eval.pawn_attack::<Black, White>(None, Coord::from_idx(i)).count() as i32;
    }
    assert_eq!(sum, 10);
}

#[test]
fn test_king_attack() {
    let board = Board::load_position(Some(String::from("nb3b1R/p1pkn2p/1p2Rpn1/n6B/1bPP1qpP/QP2r1P1/P1P2P2/2BN2RK b Qkq - 1 2")), &mut Zobrist::new());
    let mut eval = Evaluation::new(&board);
    eval.init::<White, Black>();
    let mut sum = 0i32;
    for i in 0..64 {
        sum += eval.king_attack::<White, Black>(None, Coord::from_idx(i)).count() as i32;
    }
    assert_eq!(sum, 3);
    eval.init::<Black, White>();
    let mut sum = 0i32;
    for i in 0..64 {
        sum += eval.king_attack::<Black, White>(None, Coord::from_idx(i)).count() as i32;
    }
    assert_eq!(sum, 8);
}

#[test]
fn test_attack() {
    let board = Board::load_position(Some(String::from("nb3b1R/p1pkn2p/1p2Rpn1/n6B/1bPP1qpP/QP2r1P1/P1P2P2/2BN2RK b Qkq - 1 2")), &mut Zobrist::new());
    let mut eval = Evaluation::new(&board);
    eval.init::<White, Black>();
    let mut sum = 0i32;
    for i in 0..64 {
        sum += eval.attack::<White, Black>(Coord::from_idx(i)).count() as i32;
    }
    assert_eq!(sum, 51);
    eval.init::<Black, White>();
    let mut sum = 0i32;
    for i in 0..64 {
        sum += eval.attack::<Black, White>(Coord::from_idx(i)).count() as i32;
    }
    assert_eq!(sum, 73);
}

#[test]
fn test_queen_attack_diagonal() {
    let board = Board::load_position(Some(String::from("nb3b1R/p1pkn2p/1p2Rpn1/n6B/1bPP1qpP/QP2r1P1/P1P2P2/2BN2RK b Qkq - 1 2")), &mut Zobrist::new());
    let mut eval = Evaluation::new(&board);
    eval.init::<White, Black>();
    let mut sum = 0i32;
    for i in 0..64 {
        sum += eval.queen_attack_diagonal::<White, Black>(None, Coord::from_idx(i)).count() as i32;
    }
    assert_eq!(sum, 3);
    eval.init::<Black, White>();
    let mut sum = 0i32;
    for i in 0..64 {
        sum += eval.queen_attack_diagonal::<Black, White>(None, Coord::from_idx(i)).count() as i32;
    }
    assert_eq!(sum, 7);
}
