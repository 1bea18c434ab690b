use engine::board::Board;
use engine::board::moves::Move;
use engine::board::zobrist::Zobrist;
use engine::game::{game_result, insufficient_material, moves_from_square};
use engine::move_gen::MoveGenerator;
use engine::result::GameResult;
use engine::search::diagnostics::SearchDiagnostics;
use engine::search::options::SearchOptions;
use engine::search::ordering::{KillerMoves, MoveOrdering};
use engine::search::repetition::RepetitionTable;
use engine::search::transpositions::{TranspositionEntry, TranspositionNodeType, TranspositionTable};
use engine::uci::{move_from_name, name_from_move};
use engine::magics::Magics;
use engine::bitboard::BitBoard;

#[test]
fn test_move_names() {
    let board = Board::load_position(None, &mut Zobrist::new());
    let m = move_from_name(&board, "e2e4").unwrap();
    assert_eq!(m.start().square(), 12);
    assert_eq!(m.target().square(), 28);
    assert_eq!(m.move_flag(), Move::PAWN_TWO_FORWARD);
    assert_eq!(name_from_move(m).unwrap(), "e2e4");
    let n = move_from_name(&board, "g1f3").unwrap();
    assert_eq!(n.move_flag(), Move::NORMAL);
    assert_eq!(move_from_name(&board, "e2"), None);
    assert_eq!(move_from_name(&board, "z2e4"), None);

    let board = Board::load_position(Some(String::from("4k3/1P6/8/8/8/8/8/4K2R w K - 0 1")), &mut Zobrist::new());
    let p = move_from_name(&board, "b7b8n").unwrap();
    assert_eq!(p.move_flag(), Move::KNIGHT_PROMOTION);
    assert_eq!(name_from_move(p).unwrap(), "b7b8n");
    let c = move_from_name(&board, "e1g1").unwrap();
    assert_eq!(c.move_flag(), Move::CASTLING);
    assert_eq!(c.name(), "O-O");
    assert_eq!(p.name(), "b7b8n");
    assert_eq!(Move::from_start_end_flagged(4, 2, Move::CASTLING).name(), "O-O-O");

    let board = Board::load_position(Some(String::from("4k3/8/8/3pP3/8/8/8/4K3 w - d6 0 2")), &mut Zobrist::new());
    assert_eq!(move_from_name(&board, "e5d6").unwrap().move_flag(), Move::EN_PASSANT_CAPTURE);
}

#[test]
fn test_transposition_table() {
    let mut tt: TranspositionTable<1024> = TranspositionTable::new();
    let m = Move::from_start_end(12, 28);
    tt.store(5000, 4, 2, 35, TranspositionNodeType::Exact, m);
    assert_eq!(tt.lookup(5000, 3, 2, -100, 100), Some(35));
    assert_eq!(tt.lookup(5000, 5, 2, -100, 100), None);
    assert_eq!(tt.lookup(5001, 1, 2, -100, 100), None);
    assert_eq!(tt.get_stored_move(5000), m);
    assert_eq!(tt.index(5000), 5000 % 1024);
    // Mate scores are stored from the node and read back from the root.
    tt.store(7, 2, 3, 999_990, TranspositionNodeType::LowerBound, m);
    assert_eq!(tt.get(7).eval, 999_993);
    assert_eq!(tt.lookup(7, 1, 3, 0, 500), Some(999_990));
    assert_eq!(tt.lookup(7, 1, 1, 0, 500), Some(999_992));
    assert_eq!(TranspositionTable::<1024>::correct_store_mate_score(-999_990, 3), -999_993);
    assert_eq!(TranspositionTable::<1024>::correct_retrieved_mate_score(-999_993, 3), -999_990);
    assert_eq!(TranspositionTable::<1024>::correct_store_mate_score(250, 3), 250);
    tt.store(9, 2, 0, -40, TranspositionNodeType::UpperBound, m);
    assert_eq!(tt.lookup(9, 1, 0, -30, 10), Some(-40));
    assert_eq!(tt.lookup(9, 1, 0, -50, 10), None);
    tt.clear();
    assert_eq!(tt.lookup(5000, 0, 0, -100, 100), None);
    let e = TranspositionEntry::new(1, 2, m, 3, TranspositionNodeType::Exact);
    assert_eq!(e.depth, 3);
}

#[test]
fn test_repetition_table() {
    let mut zobrist = Zobrist::new();
    let board = Board::load_position(None, &mut zobrist);
    let key = board.current_state.zobrist_key;
    let mut table = RepetitionTable::new(&board);
    assert_eq!(table.count, 1);
    table.push(11, false);
    table.push(12, false);
    assert!(table.contains(11));
    assert!(!table.contains(12));
    assert!(table.contains(key));
    table.push(13, true);
    table.push(14, false);
    assert!(table.contains(13));
    assert!(!table.contains(11));
    table.pop();
    table.pop();
    assert!(table.contains(11));
}

#[test]
fn test_move_ordering() {
    let mut zobrist = Zobrist::new();
    let board = Board::load_position(Some(String::from("4k3/8/3p4/4p3/3P4/8/8/4K3 w - - 0 1")), &mut zobrist);
    let mut movegen = MoveGenerator::default();
    let moves = movegen.generate_moves(&board, false);
    let mut ordering = MoveOrdering::new();
    let ordered = ordering.order(Move::from_start_end(0, 0), &moves, &board, movegen.enemy_attack_map, movegen.enemy_pawn_attack_map, 0, false);
    assert_eq!(ordered.len(), moves.len());
    // The capture comes first.
    assert_eq!(ordered[0].start().square(), 27);
    assert_eq!(ordered[0].target().square(), 36);
    let first = moves[moves.len() - 1];
    let ordered = ordering.order(first, &moves, &board, movegen.enemy_attack_map, movegen.enemy_pawn_attack_map, 0, false);
    assert_eq!(ordered[0], first);
    assert_eq!(MoveOrdering::piece_value_score(5), 900);
    let mut killers = KillerMoves::default();
    killers.add(first);
    assert!(killers.matches(first));
    ordering.killers[0] = killers;
}

#[test]
fn test_game_results() {
    let mut zobrist = Zobrist::new();
    let mut movegen = MoveGenerator::default();
    let mate = Board::load_position(Some(String::from("R5k1/5ppp/8/8/8/8/8/6K1 b - - 0 1")), &mut zobrist);
    assert!(game_result(&mate, &mut movegen) == GameResult::BlackMated);
    let stalemate = Board::load_position(Some(String::from("7k/5Q2/6K1/8/8/8/8/8 b - - 0 1")), &mut zobrist);
    assert!(game_result(&stalemate, &mut movegen) == GameResult::Stalemate);
    let bare = Board::load_position(Some(String::from("7k/8/6K1/8/8/8/8/6N1 b - - 0 1")), &mut zobrist);
    assert!(insufficient_material(&bare));
    assert!(game_result(&bare, &mut movegen) == GameResult::InsufficientMaterial);
    let fifty = Board::load_position(Some(String::from("7k/8/6K1/8/8/8/8/R7 b - - 100 80")), &mut zobrist);
    assert!(game_result(&fifty, &mut movegen) == GameResult::FiftyMoveRule);
    let start = Board::load_position(None, &mut zobrist);
    assert!(game_result(&start, &mut movegen) == GameResult::InProgress);
    let same_bishops = Board::load_position(Some(String::from("7k/8/6K1/8/8/8/2b5/5B2 b - - 0 1")), &mut zobrist);
    assert!(insufficient_material(&same_bishops));
    let other_bishops = Board::load_position(Some(String::from("7k/8/6K1/8/8/8/1b6/5B2 b - - 0 1")), &mut zobrist);
    assert!(!insufficient_material(&other_bishops));
    assert!(GameResult::BlackMated.is_white_win());
    assert!(GameResult::WhiteTimeout.is_black_win());
    assert!(GameResult::Stalemate.is_draw());
    assert!(!GameResult::InProgress.is_terminal());
}

#[test]
fn test_search_reports() {
    let opts = SearchOptions::default();
    assert_eq!(opts.movetime, Some(1000));
    assert_eq!(opts.depth, None);
    let d = SearchDiagnostics { depth_searched: 3, evaluation: -999_995 };
    assert!(d.is_mate_score());
    assert_eq!(d.moves_till_mate(), 4);
    let d = SearchDiagnostics::default();
    assert!(!d.is_mate_score());
}

#[test]
fn test_blocker_bitboards() {
    let sets = Magics::create_blocker_bitboards(BitBoard((1u64 << 1) | (1u64 << 8)));
    let values: Vec<u64> = sets.iter().map(|b| b.0).collect();
    assert_eq!(values, vec![0, 2, 256, 258]);
    assert_eq!(Magics::create_blocker_bitboards(BitBoard(0)).len(), 1);
    let rook_a1 = Magics::create_blocker_bitboards(Magics::create_movement_mask(engine::coord::Coord::new(0, 0), true));
    assert_eq!(rook_a1.len(), 4096);
    assert_eq!(rook_a1[4095].0, 0x0001_0101_0101_017E);
}

#[test]
fn test_entry_size() {
    assert_eq!(TranspositionEntry::size(), 16);
}

#[test]
fn test_bitboard_diagram() {
    let d = BitBoard(1 | (1u64 << 63)).diagram();
    let mut expected = String::from("\n\r");
    expected.push_str("• • • • • • • 1 \n\r");
    for _ in 0..6 {
        expected.push_str("• • • • • • • • \n\r");
    }
    expected.push_str("1 • • • • • • • \n\r");
    assert_eq!(d, expected);
}

#[test]
fn test_moves_from_square() {
    let board = Board::load_position(None, &mut Zobrist::new());
    let mut movegen = MoveGenerator::default();
    let moves = movegen.generate_moves(&board, false);
    let knight = moves_from_square(&moves, engine::coord::Coord::new(6, 0));
    let mut names: Vec<String> = knight.iter().map(|m| name_from_move(*m).unwrap()).collect();
    names.sort();
    assert_eq!(names, vec![String::from("g1f3"), String::from("g1h3")]);
    assert_eq!(moves_from_square(&moves, engine::coord::Coord::new(4, 3)).len(), 0);
}

#[test]
fn test_move_names_with_other_characters() {
    let board = Board::load_position(None, &mut Zobrist::new());
    assert_eq!(move_from_name(&board, "é2e4"), None);
    assert_eq!(move_from_name(&board, "e2é4"), None);
    let m = move_from_name(&board, "e2e4é").unwrap();
    assert_eq!(m.start().square(), 12);
    assert_eq!(m.target().square(), 28);
    assert_eq!(m.move_flag(), Move::NORMAL);
}
