use engine::board::Board;
use engine::board::zobrist::Zobrist;
use engine::color::{White, Black};
use engine::coord::Coord;
use engine::eval::Evaluation;
use engine::eval::king::CheckType;

#[test]
fn test_pawnless_flank() {
    let board = Board::load_position(Some(String::from("3q4/4p1p1/bn1rpPp1/kr3bNp/2NPnP1P/3P2P1/3PPR2/1RBQKB2 w KQkq - 2 3")), &mut Zobrist::new());
    let mut eval = Evaluation::new(&board);
    eval.init::<White, Black>();
    assert_eq!(eval.pawnless_flank::<White, Black>(), true);
    eval.init::<Black, White>();
    assert_eq!(eval.pawnless_flank::<Black, White>(), false);
}

#[test]
fn test_strength_square() {
    let board = Board::load_position(Some(String::from("2b1k3/1ppp1ppr/r1nb4/pB1Np1qp/3n1P2/4PQ1N/PPPP2PP/R1B2RK1 w Q - 8 8")), &mut Zobrist::new());
    let mut eval = Evaluation::new(&board);
    eval.init::<White, Black>();
    assert_eq!(eval.strength_square::<White, Black>().count() as i32, -660);
    eval.init::<Black, White>();
    assert_eq!(eval.strength_square::<Black, White>().count() as i32, -1578);
}

#[test]
fn test_storm_square() {
    let board = Board::load_position(Some(String::from("nr3q1R/p1p1nR2/n2k1pn1/pQ3P1B/1bP2qp1/QP2r1PP/P1P1P3/2BN2RK b Qkq - 4 3")), &mut Zobrist::new());
    let mut eval = Evaluation::new(&board);
    eval.init::<White, Black>();
    assert_eq!(eval.storm_square::<White, Black>(false).count() as i32, 672);
    eval.init::<Black, White>();
    assert_eq!(eval.storm_square::<Black, White>(false).count() as i32, 2579);
}

#[test]
fn test_shelter_strength_storm() {
    let board = Board::load_position(Some(String::from("nr3q1R/p1p1nR2/n2k1pn1/pQ3P1B/1bP2qp1/QP2r1PP/P1P1P3/2BN2RK b Qkq - 4 3")), &mut Zobrist::new());
    let mut eval = Evaluation::new(&board);
    eval.init::<White, Black>();
    assert_eq!(eval.shelter_strength_storm_eg::<White, Black>(), (-2, -27, 5));
    eval.init::<Black, White>();
    assert_eq!(eval.shelter_strength_storm_eg::<Black, White>(), (76, 17, 5));
}

#[test]
fn test_king_pawn_distance() {
    let board = Board::load_position(Some(String::from("nr3q1R/p1p1nR2/n2k1pn1/pQ3P1B/1bP2qp1/QP2r1PP/P1P1P3/2BN2RK b Qkq - 4 3")), &mut Zobrist::new());
    let mut eval = Evaluation::new(&board);
    eval.init::<White, Black>();
    assert_eq!(eval.king_pawn_distance::<White, Black>(), 2);
    eval.init::<Black, White>();
    assert_eq!(eval.king_pawn_distance::<Black, White>(), 1);
}

#[test]
fn test_check() {
    let board = Board::load_position(Some(String::from("nr3q1R/p1p1nR2/n2k1pn1/pQ3P1B/1bP2qp1/QP2r1PP/P1P1P3/2BN2RK b Qkq - 4 3")), &mut Zobrist::new());
    let mut eval = Evaluation::new(&board);
    eval.init::<White, Black>();
    assert_eq!(eval.check::<White, Black>(CheckType::All).count() as i32, 11);
    eval.init::<Black, White>();
    assert_eq!(eval.check::<Black, White>(CheckType::All).count() as i32, 2);
}

#[test]
fn test_safe_check() {
    let board = Board::load_position(Some(String::from("nr3q1R/p1p1nR2/n2k1pn1/pQ3P1B/1bP2qp1/QP2r1PP/P1P1P3/2BN2RK b Qkq - 4 3")), &mut Zobrist::new());
    let mut eval = Evaluation::new(&board);
    eval.init::<White, Black>();
    assert_eq!(eval.safe_check::<White, Black>(CheckType::All).count() as i32, 2);
    eval.init::<Black, White>();
    assert_eq!(eval.safe_check::<Black, White>(CheckType::All).count() as i32, 1);
}

#[test]
fn test_king_attackers_origin() {
    let board = Board::load_position(Some(String::from("1nb2rk1/p2rb3/p5P1/p1K1q1N1/pP1P1BQ1/p1Np4/p1P1P1PR/1R3B2 w q - 4 10")), &mut Zobrist::new());
    let mut eval = Evaluation::new(&board);
    eval.init::<White, Black>();
    assert_eq!(eval.king_attackers_origin::<White, Black>().0.count(), (3, 1).0);
    assert_eq!(eval.king_attackers_origin::<White, Black>().1.count(), (3, 1).1);
    eval.init::<Black, White>();
    assert_eq!(eval.king_attackers_origin::<Black, White>().0.count(), (7, 0).0);
    assert_eq!(eval.king_attackers_origin::<Black, White>().1.count(), (7, 0).1);
}

#[test]
fn test_king_attackers_weight() {
    let board = Board::load_position(Some(String::from("1r3q1R/p1p1nR2/n2k1pn1/pQ3PnB/1bP2qp1/QP2r1PP/P1P1P3/2BN2RK b Qkq - 4 3")), &mut Zobrist::new());
    let mut eval = Evaluation::new(&board);
    eval.init::<White, Black>();
    assert_eq!(eval.king_attackers_weight::<White, Black>(), 54);
    eval.init::<Black, White>();
    assert_eq!(eval.king_attackers_weight::<Black, White>(), 135);
}

#[test]
fn test_king_attacks() {
    let board = Board::load_position(Some(String::from("1r3q1R/p1p1nR2/n2k1pn1/pQ3P1B/1bP2qpn/QP2r1PP/P1P1P3/2BN2RK b Qkq - 4 3")), &mut Zobrist::new());
    let mut eval = Evaluation::new(&board);
    eval.init::<White, Black>();
    assert_eq!(eval.king_attacks::<White, Black>().count() as i32, 6);
    eval.init::<Black, White>();
    assert_eq!(eval.king_attacks::<Black, White>().count() as i32, 1);
}

#[test]
fn test_weak_bonus() {
    let board = Board::load_position(Some(String::from("1r3q1R/p1p1nR2/n2k1pn1/pQ3P1B/1bP2qpn/QP2r2P/P1P1P3/2BN2RK b Qkq - 4 3")), &mut Zobrist::new());
    let mut eval = Evaluation::new(&board);
    eval.init::<White, Black>();
    assert_eq!(eval.weak_bonus::<White, Black>().count() as i32, 1);
    eval.init::<Black, White>();
    assert_eq!(eval.weak_bonus::<Black, White>().count() as i32, 2);
}

#[test]
fn test_weak_squares() {
    let board = Board::load_position(Some(String::from("1r3q1R/p1p1nR2/n2k1pn1/pQ3P1B/1bP2qpn/QP2r2P/P1P1P3/2BN2RK b Qkq - 4 3")), &mut Zobrist::new());
    let mut eval = Evaluation::new(&board);
    eval.init::<White, Black>();
    assert_eq!(eval.weak_squares::<White, Black>().count() as i32, 22);
    eval.init::<Black, White>();
    assert_eq!(eval.weak_squares::<Black, White>().count() as i32, 20);
}

#[test]
fn test_unsafe_checks() {
    let board = Board::load_position(Some(String::from("3q4/4p1p1/bn1rpPp1/kr1n1bNp/P1N2P1P/3P2R1/3PP1P1/1RBQKB2 b KQkq - 3 3")), &mut Zobrist::new());
    let mut eval = Evaluation::new(&board);
    eval.init::<White, Black>();
    assert_eq!(eval.unsafe_checks::<White, Black>().count() as i32, 2);
    eval.init::<Black, White>();
    assert_eq!(eval.unsafe_checks::<Black, White>().count() as i32, 0);
}

#[test]
fn test_knight_defender() {
    let board = Board::load_position(Some(String::from("1r3q1R/p1p1nR2/n2k1pn1/pQ3P1B/1bP2qpn/QP2r2P/P1P1P3/2B1N1RK w Qkq - 5 4")), &mut Zobrist::new());
    let mut eval = Evaluation::new(&board);
    eval.init::<White, Black>();
    assert_eq!(eval.knight_defender::<White, Black>().count() as i32, 1);
    eval.init::<Black, White>();
    assert_eq!(eval.knight_defender::<Black, White>().count() as i32, 6);
}

#[test]
fn test_blockers_for_king() {
    let board = Board::load_position(Some(String::from("1r3q1R/p1p1n2n/n2k1pR1/pQ3P1B/1bP2qpr/QP3n1P/P1P1P3/2B1N1RK w kq - 9 6")), &mut Zobrist::new());
    let mut eval = Evaluation::new(&board);
    eval.init::<White, Black>();
    assert_eq!(eval.blockers_for_king::<White, Black>().count() as i32, 2);
    eval.init::<Black, White>();
    assert_eq!(eval.blockers_for_king::<Black, White>().count() as i32, 1);
}

#[test]
fn test_flank_attack() {
    let board = Board::load_position(Some(String::from("1nb2rk1/p2rb3/p5P1/2K3N1/pP1P1BQ1/2Npq3/2P1P1PR/1R3B2 w q - 4 10")), &mut Zobrist::new());
    let mut eval = Evaluation::new(&board);
    eval.init::<White, Black>();
    assert_eq!(eval.flank_attack::<White, Black>().0.count(), (4, 8).0);
    assert_eq!(eval.flank_attack::<White, Black>().1.count(), (4, 8).1);
    eval.init::<Black, White>();
    assert_eq!(eval.flank_attack::<Black, White>().0.count(), (8, 1).0);
    assert_eq!(eval.flank_attack::<Black, White>().1.count(), (8, 1).1);
}

#[test]
fn test_flank_defense() {
    let board = Board::load_position(Some(String::from("1r3q1R/p1p1n2n/n2k1pR1/pQ3P1B/1bP2qpr/QP3n1P/P1P1P3/2B1N1RK w kq - 9 6")), &mut Zobrist::new());
    let mut eval = Evaluation::new(&board);
    eval.init::<White, Black>();
    assert_eq!(eval.flank_defense::<White, Black>().count() as i32, 19);
    eval.init::<Black, White>();
    assert_eq!(eval.flank_defense::<Black, White>().count() as i32, 11);
}

#[test]
fn test_king_danger() {
    let board = Board::load_position(Some(String::from("1r3q1R/p1p1n2n/n2k1pR1/pQ3P1B/1bP2qpr/QP3n1P/P1P1P3/2B1N1RK w kq - 9 6")), &mut Zobrist::new());
    let mut eval = Evaluation::new(&board);
    eval.init::<White, Black>();
    assert_eq!(eval.king_danger::<White, Black>(), 2640);
    eval.init::<Black, White>();
    assert_eq!(eval.king_danger::<Black, White>(), 3448);
}

#[test]
fn test_king_mg() {
    let board = Board::load_position(Some(String::from("1r3q1R/p1p1n2n/n2k1pR1/pQ3P1B/1bP2qpr/QP3n1P/P1P1P3/2B1N1RK w kq - 9 6")), &mut Zobrist::new());
    let mut eval = Evaluation::new(&board);
    eval.init::<White, Black>();
    assert_eq!(eval.king_mg::<White, Black>(), 1812);
    eval.init::<Black, White>();
    assert_eq!(eval.king_mg::<Black, White>(), 3168);
}

#[test]
fn test_king_eg() {
    let board = Board::load_position(Some(String::from("1r3q1R/p1p1n2n/n2k1pR1/pQ3P1B/1bP2qpr/QP3n1P/P1P1P3/2B1N1RK w kq - 9 6")), &mut Zobrist::new());
    let mut eval = Evaluation::new(&board);
    eval.init::<White, Black>();
    assert_eq!(eval.king_eg::<White, Black>(), 138);
    eval.init::<Black, White>();
    assert_eq!(eval.king_eg::<Black, White>(), 210);
}
