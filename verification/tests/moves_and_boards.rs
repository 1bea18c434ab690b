use engine::board::Board;
use engine::board::moves::Move;
use engine::board::zobrist::Zobrist;
use engine::move_gen::{MoveGenerator, PromotionMode};
use engine::utils::fen::fen_from_position;

fn perft(board: &mut Board, zobrist: &Zobrist, depth: u32) -> u64 {
    let mut movegen = MoveGenerator::default();
    let moves = movegen.generate_moves(board, false);
    if depth == 1 {
        return moves.len() as u64;
    }
    let mut n = 0;
    for m in moves {
        board.make_move(m, true, zobrist);
        n += perft(board, zobrist, depth - 1);
        board.unmake_move(m, true);
    }
    n
}

fn load(fen: &str, zobrist: &mut Zobrist) -> Board {
    Board::load_position(Some(String::from(fen)), zobrist)
}

#[test]
fn test_start_position_moves() {
    let mut zobrist = Zobrist::new();
    let mut board = Board::load_position(None, &mut zobrist);
    assert_eq!(perft(&mut board, &zobrist, 1), 20);
    assert_eq!(perft(&mut board, &zobrist, 2), 400);
    assert_eq!(perft(&mut board, &zobrist, 3), 8902);
}

#[test]
fn test_kiwipete_moves() {
    let mut zobrist = Zobrist::new();
    let mut board = load("r3k2r/p1ppqpb1/bn2pnp1/3PN3/1p2P3/2N2Q1p/PPPBBPPP/R3K2R w KQkq - 0 1", &mut zobrist);
    assert_eq!(perft(&mut board, &zobrist, 1), 48);
    assert_eq!(perft(&mut board, &zobrist, 2), 2039);
}

#[test]
fn test_endgame_and_promotion_moves() {
    let mut zobrist = Zobrist::new();
    let mut board = load("8/2p5/3p4/KP5r/1R3p1k/8/4P1P1/8 w - - 0 1", &mut zobrist);
    assert_eq!(perft(&mut board, &zobrist, 1), 14);
    assert_eq!(perft(&mut board, &zobrist, 2), 191);
    let mut board = load("r3k2r/Pppp1ppp/1b3nbN/nP6/BBP1P3/q4N2/Pp1P2PP/R2Q1RK1 w kq - 0 1", &mut zobrist);
    assert_eq!(perft(&mut board, &zobrist, 1), 6);
    assert_eq!(perft(&mut board, &zobrist, 2), 264);
    let mut board = load("rnbq1k1r/pp1Pbppp/2p5/8/2B5/8/PPP1NnPP/RNBQK2R w KQ - 1 8", &mut zobrist);
    assert_eq!(perft(&mut board, &zobrist, 1), 44);
    let mut board = load("r4rk1/1pp1qppp/p1np1n2/2b1p1B1/2B1P1b1/P1NP1N2/1PP1QPPP/R4RK1 w - - 0 10", &mut zobrist);
    assert_eq!(perft(&mut board, &zobrist, 1), 46);
}

#[test]
fn test_captures_only_and_promotion_modes() {
    let mut zobrist = Zobrist::new();
    let board = load("4k3/1P6/8/8/8/8/8/4K3 w - - 0 1", &mut zobrist);
    let mut movegen = MoveGenerator::default();
    assert_eq!(movegen.generate_moves(&board, false).len(), 5 + 4);
    movegen.promotions_to_gen = PromotionMode::QueenAndKnight;
    assert_eq!(movegen.generate_moves(&board, false).len(), 5 + 2);
    movegen.promotions_to_gen = PromotionMode::QueenOnly;
    assert_eq!(movegen.generate_moves(&board, false).len(), 5 + 1);
    // Only the queen promotion is generated when looking for captures.
    movegen.promotions_to_gen = PromotionMode::All;
    assert_eq!(movegen.generate_moves(&board, true).len(), 1);
}

#[test]
fn test_check_and_pin() {
    let mut zobrist = Zobrist::new();
    let mut board = load("4k3/8/8/8/8/8/4r3/R3K3 w Q - 0 1", &mut zobrist);
    let mut movegen = MoveGenerator::default();
    let moves = movegen.generate_moves(&board, false);
    assert!(movegen.in_check());
    assert!(board.in_check());
    // No castling out of check; the rook cannot block a checking piece next to the king.
    assert!(moves.iter().all(|m| m.move_flag() != Move::CASTLING));
    let mut board2 = load("4k3/4r3/8/8/8/8/4R3/4K3 w - - 0 1", &mut zobrist);
    let moves = movegen.generate_moves(&board2, false);
    assert!(!board2.in_check());
    // The pinned rook only moves along the file.
    for m in moves.iter() {
        if m.start().square() == 12 {
            assert_eq!(m.target().file(), 4);
        }
    }
    let _ = board.in_check();
}

#[test]
fn test_make_unmake_restores_position() {
    let mut zobrist = Zobrist::new();
    let fen = "r3k2r/p1ppqpb1/bn2pnp1/3PN3/1p2P3/2N2Q1p/PPPBBPPP/R3K2R w KQkq - 0 1";
    let mut board = load(fen, &mut zobrist);
    let before = fen_from_position(&board);
    let key = board.current_state.zobrist_key;
    let mut movegen = MoveGenerator::default();
    let moves = movegen.generate_moves(&board, false);
    for m in moves {
        board.make_move(m, false, &zobrist);
        assert_eq!(board.current_state.zobrist_key, zobrist.calc_zobrist_key(&board));
        board.unmake_move(m, false);
        assert_eq!(fen_from_position(&board), before);
        assert_eq!(board.current_state.zobrist_key, key);
        assert_eq!(board.move_log.len(), 0);
    }
}

#[test]
fn test_castling_and_en_passant() {
    let mut zobrist = Zobrist::new();
    let mut board = load("r3k2r/8/8/8/8/8/8/R3K2R w KQkq - 0 1", &mut zobrist);
    let castle = Move::from_start_end_flagged(4, 6, Move::CASTLING);
    board.make_move(castle, false, &zobrist);
    assert_eq!(fen_from_position(&board), "r3k2r/8/8/8/8/8/8/R4RK1 b kq - 1 1");
    board.unmake_move(castle, false);
    assert_eq!(fen_from_position(&board), "r3k2r/8/8/8/8/8/8/R3K2R w KQkq - 0 1");

    let mut board = load("4k3/8/8/3pP3/8/8/8/4K3 w - d6 0 2", &mut zobrist);
    let ep = Move::from_start_end_flagged(36, 43, Move::EN_PASSANT_CAPTURE);
    board.make_move(ep, false, &zobrist);
    assert_eq!(fen_from_position(&board), "4k3/8/3P4/8/8/8/8/4K3 b - - 0 2");
    board.unmake_move(ep, false);
    // The en passant square is written with the code of its file letter.
    assert_eq!(fen_from_position(&board), "4k3/8/8/3pP3/8/8/8/4K3 w - 1006 0 2");
}

#[test]
fn test_double_push_sets_en_passant_file() {
    let mut zobrist = Zobrist::new();
    let mut board = Board::load_position(None, &mut zobrist);
    let m = Move::from_start_end_flagged(12, 28, Move::PAWN_TWO_FORWARD);
    board.make_move(m, false, &zobrist);
    assert_eq!(board.current_state.en_passant_file, 5);
    assert_eq!(fen_from_position(&board), "rnbqkbnr/pppppppp/8/8/4P3/8/PPPP1PPP/RNBQKBNR b KQkq 1013 0 1");
    assert_eq!(board.repeat_position_history.len(), 1);
}

#[test]
fn test_null_move() {
    let mut zobrist = Zobrist::new();
    let mut board = Board::load_position(None, &mut zobrist);
    let key = board.current_state.zobrist_key;
    board.make_null_move(&zobrist);
    assert!(!board.white_to_move);
    assert_eq!(board.current_state.zobrist_key, zobrist.calc_zobrist_key(&board));
    board.unmake_null_move();
    assert!(board.white_to_move);
    assert_eq!(board.current_state.zobrist_key, key);
}

#[test]
fn test_set_and_remove_piece() {
    let mut zobrist = Zobrist::new();
    let mut board = Board::load_position(None, &mut zobrist);
    board.remove_piece(engine::coord::Coord::new(4, 1));
    board.set_piece(engine::piece::Piece::new(engine::piece::Piece::WHITE_QUEEN), engine::coord::Coord::new(4, 3));
    assert_eq!(fen_from_position(&board), "rnbqkbnr/pppppppp/8/8/4Q3/8/PPPP1PPP/RNBQKBNR w KQkq - 0 1");
    assert_eq!(board.piece_bitboards[engine::piece::Piece::WHITE_QUEEN as usize].count(), 2);
    // Setting a piece leaves the occupancy bitboard as it was.
    assert_eq!(board.all_pieces_bitboard.0 & (1u64 << 28), 0);
    assert_ne!(board.color_bitboards[0].0 & (1u64 << 28), 0);
}

#[test]
fn test_fen_round_trip() {
    let mut zobrist = Zobrist::new();
    for fen in [
        "rnbqkbnr/pppppppp/8/8/8/8/PPPPPPPP/RNBQKBNR w KQkq - 0 1",
        "r3k2r/p1ppqpb1/bn2pnp1/3PN3/1p2P3/2N2Q1p/PPPBBPPP/R3K2R w KQkq - 0 1",
        "8/2p5/3p4/KP5r/1R3p1k/8/4P1P1/8 w - - 0 1",
        "r4rk1/1pp1qppp/p1np1n2/2b1p1B1/2B1P1b1/P1NP1N2/1PP1QPPP/R4RK1 w - - 0 10",
        "4k3/8/8/3pP3/8/8/8/4K3 w - - 12 42",
    ] {
        let board = load(fen, &mut zobrist);
        assert_eq!(fen_from_position(&board), fen);
    }
    let board = load("4k3/8/8/3pP3/8/8/8/4K3 w - d6 12 42", &mut zobrist);
    assert_eq!(fen_from_position(&board), "4k3/8/8/3pP3/8/8/8/4K3 w - 1006 12 42");
}

#[test]
fn test_written_fen_reads_back_the_squares() {
    let mut zobrist = Zobrist::new();
    let mut board = load("r3k2r/p1ppqpb1/bn2pnp1/3PN3/1p2P3/2N2Q1p/PPPBBPPP/R3K2R w KQkq - 0 1", &mut zobrist);
    let m = Move::from_start_end(21, 23);
    board.make_move(m, false, &zobrist);
    let info = engine::utils::fen::position_from_fen(fen_from_position(&board));
    for s in 0..64 {
        assert_eq!(info.squares[s], board.square[s].0);
    }
    assert!(!info.white_to_move);
    assert!(info.white_castle_kingside && info.white_castle_queenside);
    assert!(info.black_castle_kingside && info.black_castle_queenside);
    assert_eq!(info.fifty_move_ply_count, 0);
    assert_eq!(info.move_count, 1);
    assert_eq!(info.ep_file, 0);

    // An en passant square is written with its file's code, which reads as no file.
    let board = load("4k3/8/8/3pP3/8/8/8/4K3 w - d6 7 42", &mut zobrist);
    assert_eq!(board.current_state.en_passant_file, 4);
    let info = engine::utils::fen::position_from_fen(fen_from_position(&board));
    assert_eq!(info.ep_file, 0);
    assert_eq!(info.fifty_move_ply_count, 7);
    assert_eq!(info.move_count, 42);
    assert!(info.white_to_move);
    assert!(!info.white_castle_kingside && !info.black_castle_queenside);
}
