use engine::board::Board;
use engine::board::zobrist::Zobrist;
use engine::color::{White, Black};
use engine::coord::Coord;
use engine::eval::Evaluation;

#[test]
fn test_eval_0() {
    let board = Board::load_position(Some(String::from("1r3q1R/p1p1n2n/n2k1pR1/pQ3P1B/1bP2qpr/QP3n1P/P1P1P3/2B1N1RK w kq - 9 6")), &mut Zobrist::new());
    let mut eval = Evaluation::new(&board);
    eval.init::<White, Black>();
    assert_eq!(eval.evaluate::<White, Black>(), -1081)
}

#[test]
fn test_eval_1() {
    let board = Board::load_position(Some(String::from("1r3q1R/4n3/3k1pR1/p7/3B2pr/Q6P/P7/4N1RK b kq - 9 6")), &mut Zobrist::new());
    let mut eval = Evaluation::new(&board);
    eval.init::<White, Black>();
    assert_eq!(eval.evaluate::<White, Black>(), 3439);
}

#[test]
fn test_eval_2() {
    let board = Board::load_position(Some(String::from("1K6/6R1/1P1kPp2/4q1P1/p1r2Np1/4P2r/1Qn5/8 w - - 0 1")), &mut Zobrist::new());
    let mut eval = Evaluation::new(&board);
    eval.init::<White, Black>();
    assert_eq!(eval.evaluate::<White, Black>(), -324);
}

#[test]
fn test_eval_3() {
    let board = Board::load_position(Some(String::from("5nBN/1bKP1P2/2Q3pp/1P1qR1P1/3p4/3P4/k4r2/N3b3 w - - 0 1")), &mut Zobrist::new());
    let mut eval = Evaluation::new(&board);
    eval.init::<White, Black>();
    assert_eq!(eval.evaluate::<White, Black>(), -724);
}

#[test]
fn test_eval_4() {
    let board = Board::load_position(Some(String::from("3bR3/1KNp1pPp/p4Q1P/4P1P1/3B1r1P/1n4rP/n1q1p1pN/2k5 w - - 0 1")), &mut Zobrist::new());
    let mut eval = Evaluation::new(&board);
    eval.init::<White, Black>();
    assert_eq!(eval.evaluate::<White, Black>(), -3012);
}

#[test]
fn test_eval_5() {
    let board = Board::load_position(Some(String::from("k7/1Rn1brB1/b2P1PPp/4nr2/N4p2/3PN3/2Q1p1K1/4q2R w - - 0 1")), &mut Zobrist::new());
    let mut eval = Evaluation::new(&board);
    eval.init::<White, Black>();
    assert_eq!(eval.evaluate::<White, Black>(), -2308)
}

#[test]
fn test_eval_6() {
    let board = Board::load_position(Some(String::from("8/2p5/1R5K/4b2p/3Q3p/7B/2k5/8 w - - 0 1")), &mut Zobrist::new());
    let mut eval = Evaluation::new(&board);
    eval.init::<White, Black>();
    assert_eq!(eval.evaluate::<White, Black>(), 3020);
}

#[test]
fn test_eval_7() {
    let board = Board::load_position(Some(String::from("2Q5/P2P1pP1/2qnRN2/bpPpKPpP/PBr4n/r1pRp2B/ppb5/k2N4 w - - 0 1")), &mut Zobrist::new());
    let mut eval = Evaluation::new(&board);
    eval.init::<White, Black>();
    assert_eq!(eval.evaluate::<White, Black>(), -2788);
}

#[test]
fn test_eval_8() {
    let board = Board::load_position(Some(String::from("N1B1QR2/2nP2Kb/3p1BpP/b1NpPpp1/1k1p2P1/1pp2q1P/1P4Pr/n3r2R w - - 0 1")), &mut Zobrist::new());
    let mut eval = Evaluation::new(&board);
    eval.init::<White, Black>();
    assert_eq!(eval.evaluate::<White, Black>(), -420);
}

#[test]
fn test_eval_9() {
    let board = Board::load_position(Some(String::from("1n1QB1N1/pppR2b1/1r3B2/pP1bp1np/1r4PN/pRPq2PP/1p1P1K1P/3k4 w - - 0 1")), &mut Zobrist::new());
    let mut eval = Evaluation::new(&board);
    eval.init::<White, Black>();
    assert_eq!(eval.evaluate::<White, Black>(), -5204);
}

#[test]
fn test_eval_10() {
    let board = Board::load_position(Some(String::from("nb3n2/QP3prp/r3bpN1/1q1N2Pp/pRP3Bp/P2RpP1P/1pk1K2P/B7 w - - 0 1")), &mut Zobrist::new());
    let mut eval = Evaluation::new(&board);
    eval.init::<White, Black>();
    assert_eq!(eval.evaluate::<White, Black>(), 6604);
}

#[test]
fn test_eval_11() {
    let board = Board::load_position(Some(String::from("1q1B1r2/1pp1b1pN/3k2P1/1B2N1Rr/P1P3bQ/p1KpPnpR/PPpn2Pp/8 w - - 0 1")), &mut Zobrist::new());
    let mut eval = Evaluation::new(&board);
    eval.init::<White, Black>();
    assert_eq!(eval.evaluate::<White, Black>(), -2420);
}

#[test]
fn test_mg_0() {
    let board = Board::load_position(Some(String::from("1r3q1R/p1p1n2n/n2k1pR1/pQ3P1B/1bP2qpr/QP3n1P/P1P1P3/2B1N1RK w kq - 9 6")), &mut Zobrist::new());
    let mut eval = Evaluation::new(&board);
    eval.init::<White, Black>();
    eval.init::<White, Black>();
    assert_eq!(eval.middle_game_eval::<White, Black>(), -1225);
}

#[test]
fn test_mg_1() {
    let board = Board::load_position(Some(String::from("1r3q1R/4n3/3k1pR1/p7/3B2pr/Q6P/P7/4N1RK w kq - 9 6")), &mut Zobrist::new());
    let mut eval = Evaluation::new(&board);
    eval.init::<White, Black>();
    eval.init::<White, Black>();
    assert_eq!(eval.middle_game_eval::<White, Black>(), 4132);
}

#[test]
fn test_mg_2() {
    let board = Board::load_position(Some(String::from("1K6/6R1/1P1kPp2/4q1P1/p1r2Np1/4P2r/1Qn5/8 w - - 0 1")), &mut Zobrist::new());
    let mut eval = Evaluation::new(&board);
    eval.init::<White, Black>();
    eval.init::<White, Black>();
    assert_eq!(eval.middle_game_eval::<White, Black>(), 113);
}

#[test]
fn test_eg_0() {
    let board = Board::load_position(Some(String::from("1r3q1R/p1p1n2n/n2k1pR1/pQ3P1B/1bP2qpr/QP3n1P/P1P1P3/2B1N1RK w kq - 9 6")), &mut Zobrist::new());
    let mut eval = Evaluation::new(&board);
    eval.init::<White, Black>();
    eval.init::<White, Black>();
    assert_eq!(eval.end_game_eval::<White, Black>(), -344);
}

#[test]
fn test_eg_1() {
    let board = Board::load_position(Some(String::from("1r3q1R/4n3/3k1pR1/p7/3B2pr/Q6P/P7/4N1RK w kq - 9 6")), &mut Zobrist::new());
    let mut eval = Evaluation::new(&board);
    eval.init::<White, Black>();
    eval.init::<White, Black>();
    assert_eq!(eval.end_game_eval::<White, Black>(), 2011);
}

#[test]
fn test_eg_2() {
    let board = Board::load_position(Some(String::from("1K6/6R1/1P1kPp2/4q1P1/p1r2Np1/4P2r/1Qn5/8 w - - 0 1")), &mut Zobrist::new());
    let mut eval = Evaluation::new(&board);
    eval.init::<White, Black>();
    eval.init::<White, Black>();
    assert_eq!(eval.end_game_eval::<White, Black>(), -1096);
}

#[test]
fn test_scale_factor() {
    let board = Board::load_position(Some(String::from("1r3q1R/4n3/3k1pR1/p7/3B2pr/Q6P/P7/4N1RK w kq - 9 6")), &mut Zobrist::new());
    let mut eval = Evaluation::new(&board);
    eval.init::<White, Black>();
    eval.init::<White, Black>();
    let eg = eval.end_game_eval::<White, Black>();
    assert_eq!(if eg > 0 { eval.scale_factor::<White, Black>() } else { eval.scale_factor::<Black, White>() }, 50);
}

#[test]
fn test_phase() {
    let board = Board::load_position(Some(String::from("1r3q1R/4n3/3k1pR1/p7/3B2pr/Q6P/P7/4N1RK w kq - 9 6")), &mut Zobrist::new());
    let mut eval = Evaluation::new(&board);
    eval.init::<White, Black>();
    eval.init::<White, Black>();
    assert_eq!(eval.phase::<White, Black>(), 112);
}

#[test]
fn test_tempo() {
    let board = Board::load_position(Some(String::from("1r3q1R/4n3/3k1pR1/p7/3B2pr/Q6P/P7/4N1RK b kq - 9 6")), &mut Zobrist::new());
    let mut eval = Evaluation::new(&board);
    eval.init::<White, Black>();
    eval.init::<White, Black>();
    assert_eq!(eval.tempo::<White>(), -28);
}
