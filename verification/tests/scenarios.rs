use mystic_bot::base::defs::Board;
use mystic_bot::base::defs::GameState;
use mystic_bot::base::uci::uci_to_uint;
use mystic_bot::bot::evaluate::MATE_SCORE;
use mystic_bot::bot::history::RepetitionHistory;
use mystic_bot::bot::search::search;
use mystic_bot::bot::search::EngineState;
use mystic_bot::bot::table::TranspositionTable;
use std::collections::HashMap;
use std::time::Instant;

const START: &str = "rnbqkbnr/pppppppp/8/8/8/8/PPPPPPPP/RNBQKBNR w KQkq - 0 1";

fn load(fen: &str) -> Board {
    Board::from_fen(&String::from(fen)).unwrap()
}

fn fresh_state(board: Board) -> EngineState {
    EngineState {
        game_id: String::from("test"),
        current_board: board,
        history: RepetitionHistory::new(),
        statistics: HashMap::new(),
        transposition_table: TranspositionTable::new(100_000),
    }
}

fn play(board: &Board, uci: &str) -> Board {
    let tag = uci_to_uint(uci).unwrap();
    board.apply(tag as u32).unwrap()
}

fn has_move(board: &Board, uci: &str) -> bool {
    let tag = uci_to_uint(uci).unwrap();
    board.apply(tag as u32).is_some()
}

#[test]
fn initial_position_is_searched_three_plies_deep() {
    let board = load(START);
    let mut state = fresh_state(board);
    let book = HashMap::new();
    let result = search(200_000, Some(5_000), &board, &mut state, &book);
    let tag = result.best_move.expect("a move from the initial position");
    assert!(board.apply(tag).is_some());
    assert!(result.depth >= 3, "depth reached: {}", result.depth);
}

#[test]
fn forced_mate_in_one_is_found() {
    let board = load("6k1/5ppp/8/8/8/8/5PPP/R5K1 w - - 0 1");
    let mut state = fresh_state(board);
    let book = HashMap::new();
    let result = search(80_000, Some(1_500), &board, &mut state, &book);
    let tag = result.best_move.unwrap();
    let next = board.apply(tag).unwrap();
    assert_eq!(next.get_next_uci(), "a1a8");
    assert!(result.score >= MATE_SCORE, "score: {}", result.score);
    assert_eq!(next.game_state(), GameState::Checkmate);
}

#[test]
fn threefold_repetition_scores_nought() {
    let start = load(START);
    let mut state = fresh_state(start);
    state.history.increment(start.position_key());
    let mut board = start;
    for uci in ["g1f3", "g8f6", "f3g1", "f6g8", "g1f3", "g8f6", "f3g1", "f6g8"] {
        board = play(&board, uci);
        state.history.increment(board.position_key());
    }
    assert_eq!(board.position_key(), start.position_key());
    assert_eq!(state.history.get(start.position_key()), 3);
    let book = HashMap::new();
    let result = search(40_000, Some(300), &board, &mut state, &book);
    assert_eq!(result.score, 0);
    assert_eq!(state.history.get(start.position_key()), 3);
}

#[test]
fn en_passant_capture_is_generated_and_takes_the_pawn() {
    let board = load("rnbqkbnr/ppp1pppp/8/3pP3/8/8/PPPP1PPP/RNBQKBNR w KQkq d6 0 3");
    assert!(has_move(&board, "e5d6"));
    let next = play(&board, "e5d6");
    let d5: u8 = 3 + 8 * 4;
    let d6: u8 = 3 + 8 * 5;
    assert!(board.piece_at(d5).is_some());
    assert!(next.piece_at(d5).is_none());
    assert!(next.piece_at(d6).is_some());
    assert_eq!(next.get_number_pieces(), board.get_number_pieces() - 1);
}

#[test]
fn castling_through_check_is_rejected() {
    let free = load("r3k2r/8/8/8/8/8/8/R3K2R w KQkq - 0 1");
    assert!(has_move(&free, "e1g1"));
    assert!(has_move(&free, "e1c1"));
    let checked = load("r3k2r/8/8/8/8/8/4r3/R3K2R w KQkq - 0 1");
    assert!(!has_move(&checked, "e1g1"));
    assert!(!has_move(&checked, "e1c1"));
    let crossed = load("r3k2r/8/8/8/8/5r2/8/R3K2R w KQkq - 0 1");
    assert!(!has_move(&crossed, "e1g1"));
    assert!(has_move(&crossed, "e1c1"));
}

#[test]
fn deadline_is_honoured() {
    let board = load("r3k2r/p1ppqpb1/bn2pnp1/3PN3/1p2P3/2N2Q1p/PPPBBPPP/R3K2R w KQkq - 0 1");
    let mut state = fresh_state(board);
    let book = HashMap::new();
    let begun = Instant::now();
    let result = search(4_000, None, &board, &mut state, &book);
    let taken = begun.elapsed().as_millis();
    assert!(taken <= 150, "took {} ms", taken);
    if let Some(tag) = result.best_move {
        assert!(board.apply(tag).is_some());
    }
}
