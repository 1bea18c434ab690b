use engine::board::Board;
use engine::board::zobrist::Zobrist;
use engine::color::{White, Black};
use engine::coord::Coord;
use engine::eval::Evaluation;

#[test]
fn test_outpost() {
    let board = Board::load_position(Some(String::from("r2qk2r/6p1/1ppNp3/p1Pn1pNp/Pb1PnPbP/6P1/1P2P3/R1BQKB1R b KQkq - 1 2")), &mut Zobrist::new());
    let mut eval = Evaluation::new(&board);
    eval.init::<White, Black>();
    assert_eq!(eval.outpost::<White, Black>().count() as i32, 2);
    eval.init::<Black, White>();
    assert_eq!(eval.outpost::<Black, White>().count() as i32, 3);
}

#[test]
fn test_outpost_square() {
    let board = Board::load_position(Some(String::from("1r3q1R/p1p1n2n/n2k1pR1/pQ3P1B/1bP2qpr/QP3n1P/P1P1P3/2B1N1RK w kq - 9 6")), &mut Zobrist::new());
    let mut eval = Evaluation::new(&board);
    eval.init::<White, Black>();
    assert_eq!(eval.outpost_square::<White, Black>().count() as i32, 5);
    eval.init::<Black, White>();
    assert_eq!(eval.outpost_square::<Black, White>().count() as i32, 2);
}

#[test]
fn test_reachable_outpost() {
    let board = Board::load_position(Some(String::from("1r3q1R/p1p1n2n/n2k1pR1/pQ3P1B/1bP2qpr/QP3n1P/P1P1P3/2B1N1RK w kq - 9 6")), &mut Zobrist::new());
    let mut eval = Evaluation::new(&board);
    eval.init::<White, Black>();
    assert_eq!(eval.reachable_outpost::<White, Black>().0.count(), (0, 1).0);
    assert_eq!(eval.reachable_outpost::<White, Black>().1.count(), (0, 1).1);
    eval.init::<Black, White>();
    assert_eq!(eval.reachable_outpost::<Black, White>().0.count(), (0, 1).0);
    assert_eq!(eval.reachable_outpost::<Black, White>().1.count(), (0, 1).1);
}

#[test]
fn test_minor_behind_pawn() {
    let board = Board::load_position(Some(String::from("1r3q1R/2n5/p2knpRp/pQpn1PPB/1bP2q1r/5n1P/P1P2P2/2B1N1RK b kq - 0 7")), &mut Zobrist::new());
    let mut eval = Evaluation::new(&board);
    eval.init::<White, Black>();
    assert_eq!(eval.minor_behind_pawn::<White, Black>().count() as i32, 2);
    eval.init::<Black, White>();
    assert_eq!(eval.minor_behind_pawn::<Black, White>().count() as i32, 1);
}

#[test]
fn test_bishop_pawns() {
    let board = Board::load_position(Some(String::from("nr1B1q2/1k2p1Q1/p5Rp/p1pnbP2/R1P2B1r/2P2n1P/P3qPBR/4N1K1 w kq - 1 8")), &mut Zobrist::new());
    let mut eval = Evaluation::new(&board);
    eval.init::<White, Black>();
    assert_eq!(eval.bishop_pawns::<White, Black>().count() as i32, 32);
    eval.init::<Black, White>();
    assert_eq!(eval.bishop_pawns::<Black, White>().count() as i32, 8);
}

#[test]
fn test_rook_on_file() {
    let board = Board::load_position(Some(String::from("1r3q1R/3b4/pP1knpRp/pQpn1P1B/1b3q1r/5n1P/P1P2P1P/2B1N1RK w kq - 1 8")), &mut Zobrist::new());
    let mut eval = Evaluation::new(&board);
    eval.init::<White, Black>();
    assert_eq!(eval.rook_on_file::<White, Black>().0.count(), (2, 0).0);
    assert_eq!(eval.rook_on_file::<White, Black>().1.count(), (2, 0).1);
    eval.init::<Black, White>();
    assert_eq!(eval.rook_on_file::<Black, White>().0.count(), (0, 1).0);
    assert_eq!(eval.rook_on_file::<Black, White>().1.count(), (0, 1).1);
}

#[test]
fn test_trapped_rook() {
    let board = Board::load_position(Some(String::from("1r3q1R/1k1b4/p3npRp/pQpn1P1B/1bP2q1r/5n1P/P1P2P2/2B1N1KR w kq - 1 8")), &mut Zobrist::new());
    let mut eval = Evaluation::new(&board);
    eval.init::<White, Black>();
    assert_eq!(eval.trapped_rook::<White, Black>().count() as i32, 1);
    eval.init::<Black, White>();
    assert_eq!(eval.trapped_rook::<Black, White>().count() as i32, 0);
}

#[test]
fn test_weak_queen() {
    let board = Board::load_position(Some(String::from("nr1B1q2/1k2p1Q1/p5Rp/p1pnbP2/R1P2B1r/2P2n1P/P3qPBR/4N1K1 w kq - 1 8")), &mut Zobrist::new());
    let mut eval = Evaluation::new(&board);
    eval.init::<White, Black>();
    assert_eq!(eval.weak_queen::<White, Black>().count() as i32, 0);
    eval.init::<Black, White>();
    assert_eq!(eval.weak_queen::<Black, White>().count() as i32, 0);
}

#[test]
fn test_long_diagonal_bishop() {
    let board = Board::load_position(Some(String::from("nr1B1q2/1k2p1Q1/p5Rp/p1pnbP2/R1P2B1r/2P2n1P/P3qPBR/4N1K1 w kq - 1 8")), &mut Zobrist::new());
    let mut eval = Evaluation::new(&board);
    eval.init::<White, Black>();
    assert_eq!(eval.long_diagonal_bishop::<White, Black>().count() as i32, 1);
    eval.init::<Black, White>();
    assert_eq!(eval.long_diagonal_bishop::<Black, White>().count() as i32, 0);
}

#[test]
fn test_outpost_total() {
    let board = Board::load_position(Some(String::from("1r3q1R/p1p1n2n/n2k1pR1/pQ3P1B/1bP2qpr/QP3n1P/P1P1P3/2B1N1RK w kq - 9 6")), &mut Zobrist::new());
    let mut eval = Evaluation::new(&board);
    eval.init::<White, Black>();
    assert_eq!(eval.outpost_total::<White, Black>().count() as i32, 0);
    eval.init::<Black, White>();
    assert_eq!(eval.outpost_total::<Black, White>().count() as i32, 1);
}

#[test]
fn test_rook_on_queen_file() {
    let board = Board::load_position(Some(String::from("1r3q1R/1k2R3/p1b1np1p/pQpnRP2/1bP4r/2B2n1P/P1P1qPB1/4N1K1 w kq - 1 8")), &mut Zobrist::new());
    let mut eval = Evaluation::new(&board);
    eval.init::<White, Black>();
    assert_eq!(eval.rook_on_queen_file::<White, Black>().count() as i32, 2);
    eval.init::<Black, White>();
    assert_eq!(eval.rook_on_queen_file::<Black, White>().count() as i32, 1);
}

#[test]
fn test_bishop_xray_pawns() {
    let board = Board::load_position(Some(String::from("nr1B1q2/1k2p1Q1/p5Rp/p1pnbP2/R1P2B1r/2P2n1P/P3qPBR/4N1K1 w kq - 1 8")), &mut Zobrist::new());
    let mut eval = Evaluation::new(&board);
    eval.init::<White, Black>();
    assert_eq!(eval.bishop_xray_pawns::<White, Black>().count() as i32, 3);
    eval.init::<Black, White>();
    assert_eq!(eval.bishop_xray_pawns::<Black, White>().count() as i32, 1);
}

#[test]
fn test_rook_on_king_ring() {
    let board = Board::load_position(Some(String::from("k2q4/3r2p1/1pprp3/p1Pn1bNp/PbNPnP1P/6P1/1P2PR2/1RBQKB2 w KQkq - 2 3")), &mut Zobrist::new());
    let mut eval = Evaluation::new(&board);
    eval.init::<White, Black>();
    assert_eq!(eval.rook_on_king_ring::<White, Black>().count() as i32, 1);
    eval.init::<Black, White>();
    assert_eq!(eval.rook_on_king_ring::<Black, White>().count() as i32, 2);
}

#[test]
fn test_bishop_on_king_ring() {
    let board = Board::load_position(Some(String::from("1r1B1q1R/1k6/p2Rnp1p/pQpnbP2/2P2B1r/5n1P/P1P1qPBR/4N1K1 w kq - 1 8")), &mut Zobrist::new());
    let mut eval = Evaluation::new(&board);
    eval.init::<White, Black>();
    assert_eq!(eval.bishop_on_king_ring::<White, Black>().count() as i32, 2);
    eval.init::<Black, White>();
    assert_eq!(eval.bishop_on_king_ring::<Black, White>().count() as i32, 1);
}

#[test]
fn test_queen_infiltration() {
    let board = Board::load_position(Some(String::from("1r1B1q1R/1k1np1Q1/p5Rp/p1pnbP2/2P2B1r/5n1P/P1P1qPBR/4N1K1 w kq - 1 8")), &mut Zobrist::new());
    let mut eval = Evaluation::new(&board);
    eval.init::<White, Black>();
    assert_eq!(eval.queen_infiltration::<White, Black>().count() as i32, 1);
    eval.init::<Black, White>();
    assert_eq!(eval.queen_infiltration::<Black, White>().count() as i32, 1);
}

#[test]
fn test_pieces() {
    let board = Board::load_position(Some(String::from("1r3q1R/p1p1n2n/n2k1pR1/pQ3P1B/1bP2qpr/QP3n1P/P1P1P3/2B1N1RK w kq - 9 6")), &mut Zobrist::new());
    let mut eval = Evaluation::new(&board);
    eval.init::<White, Black>();
    assert_eq!(eval.pieces::<White, Black>(), (-50, -191));
    eval.init::<Black, White>();
    assert_eq!(eval.pieces::<Black, White>(), (-1, -92));
}
