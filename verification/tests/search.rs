use engine::board::moves::Move;
use engine::board::zobrist::Zobrist;
use engine::board::Board;
use engine::move_gen::MoveGenerator;
use engine::search::options::SearchOptions;
use engine::search::searcher::Searcher;
use engine::search::transpositions::{TranspositionNodeType, TranspositionTable};
use engine::uci::name_from_move;
use engine::utils::fen::fen_from_position;

fn load(fen: &str, zobrist: &mut Zobrist) -> Board {
    Board::load_position(Some(String::from(fen)), zobrist)
}

fn search(fen: &str, movetime: u32) -> (Searcher, Board, Vec<Move>) {
    let mut zobrist = Zobrist::new();
    let mut board = load(fen, &mut zobrist);
    let mut movegen = MoveGenerator::default();
    let moves = movegen.generate_moves(&board, false);
    let before = fen_from_position(&board);
    let mut searcher = Searcher::new();
    let opts = SearchOptions { movetime: Some(movetime), depth: None };
    searcher.begin_search(opts, &mut board, &zobrist, &mut movegen);
    assert_eq!(fen_from_position(&board), before);
    (searcher, board, moves)
}

#[test]
fn test_search_finds_mate_in_one() {
    let (mut searcher, _, _) = search("6k1/5ppp/8/8/8/8/8/R5K1 w - - 0 1", 5000);
    assert!(!searcher.in_search);
    let m = searcher.best_move().unwrap();
    assert_eq!(name_from_move(m).unwrap(), "a1a8");
    assert!(searcher.diagnostics.is_mate_score());
    assert_eq!(searcher.diagnostics.evaluation, 999_999);
    assert_eq!(searcher.diagnostics.moves_till_mate(), 0);
}

#[test]
fn test_search_takes_the_hanging_queen() {
    let (mut searcher, _, _) = search("4k3/8/8/3q4/8/8/3R4/4K3 w - - 0 1", 1000);
    let m = searcher.best_move().unwrap();
    assert_eq!(name_from_move(m).unwrap(), "d2d5");
    assert!(searcher.diagnostics.evaluation > 300);
}

#[test]
fn test_search_leaves_board_and_returns_a_legal_move() {
    let (mut searcher, board, moves) = search("rnbqkbnr/pppppppp/8/8/8/8/PPPPPPPP/RNBQKBNR w KQkq - 0 1", 200);
    assert_eq!(board.plycount, 0);
    assert_eq!(board.move_log.len(), 0);
    let m = searcher.best_move().unwrap();
    assert!(moves.contains(&m));
    assert!(searcher.diagnostics.depth_searched >= 1);
    assert_eq!(searcher.force_best_move(), m);
}

#[test]
fn test_search_with_one_move() {
    // The king in the corner has one square to go to.
    let (mut searcher, _, moves) = search("7k/8/8/8/8/8/8/K5R1 b - - 0 1", 200);
    assert_eq!(moves.len(), 1);
    assert_eq!(searcher.best_move(), Some(moves[0]));
}

#[test]
fn test_new_searcher_has_no_move() {
    let mut searcher = Searcher::new();
    assert!(!searcher.in_search);
    assert_eq!(searcher.best_move(), None);
    assert_eq!(searcher.force_best_move(), Move::null());
}

#[test]
fn test_transposition_table_keeps_deeper_entry() {
    let mut tt: TranspositionTable<1024> = TranspositionTable::new();
    let m = Move::from_start_end(12, 28);
    let n = Move::from_start_end(6, 21);
    tt.store(100, 5, 0, 20, TranspositionNodeType::Exact, m);
    // A shallower result for a key of the same slot does not replace it.
    tt.store(1124, 2, 0, -7, TranspositionNodeType::Exact, n);
    assert_eq!(tt.get(100).key, 100);
    assert_eq!(tt.lookup(100, 5, 0, -100, 100), Some(20));
    assert_eq!(tt.lookup(1124, 1, 0, -100, 100), None);
    // An equally deep one does.
    tt.store(1124, 5, 0, -7, TranspositionNodeType::Exact, n);
    assert_eq!(tt.lookup(1124, 5, 0, -100, 100), Some(-7));
    assert_eq!(tt.get_stored_move(1124), n);
    assert_eq!(tt.lookup(100, 1, 0, -100, 100), None);
}

#[test]
fn test_search_without_table_finds_mate_in_one() {
    let mut zobrist = Zobrist::new();
    let mut board = load("6k1/5ppp/8/8/8/8/8/R5K1 w - - 0 1", &mut zobrist);
    let mut movegen = MoveGenerator::default();
    let mut searcher = Searcher::new();
    searcher.transposition_table.enabled = false;
    let opts = SearchOptions { movetime: Some(5000), depth: None };
    searcher.begin_search(opts, &mut board, &zobrist, &mut movegen);
    let m = searcher.best_move().unwrap();
    assert_eq!(name_from_move(m).unwrap(), "a1a8");
    assert_eq!(searcher.diagnostics.evaluation, 999_999);
}
