use mystic_bot::base::defs::Board;
use mystic_bot::bot::clock::Deadline;
use mystic_bot::bot::history::RepetitionHistory;
use mystic_bot::bot::search::alpha_beta;
use mystic_bot::bot::search::get_prioritized_moves;
use mystic_bot::bot::search::negamax;
use mystic_bot::bot::search::quiescence_search;
use mystic_bot::bot::search::EngineState;
use mystic_bot::bot::search::SearchTrace;
use mystic_bot::bot::search::INFINITE;
use mystic_bot::bot::search::SCORE_LIMIT;
use mystic_bot::bot::table::TranspositionTable;
use mystic_bot::bot::terms::evaluate_connected_pawns;
use mystic_bot::bot::terms::evaluate_king_proximity;
use mystic_bot::bot::terms::evaluate_passed_pawns;
use std::collections::HashMap;

fn load(fen: &str) -> Board {
    Board::from_fen(&String::from(fen)).unwrap()
}

fn fresh_state(board: Board) -> EngineState {
    EngineState {
        game_id: String::from("value"),
        current_board: board,
        history: RepetitionHistory::new(),
        statistics: HashMap::new(),
        transposition_table: TranspositionTable::new(100_000),
    }
}

fn value_by_hand(board: &Board, depth: u8, color: i32, history: &mut RepetitionHistory) -> i32 {
    let moves = board.get_legal_moves();
    if moves.len() == 0 {
        return color * board.evaluate(true) * (depth as i32 + 1);
    }
    if board.is_drawn() || history.get(board.position_key()) >= 3 {
        return 0;
    }
    if depth == 0 {
        return color * board.evaluate(false);
    }
    let mut best = -SCORE_LIMIT;
    for next in moves.iter() {
        let key = next.position_key();
        history.increment(key);
        let reply = -value_by_hand(&next, depth - 1, -color, history);
        history.decrement(key);
        if reply > best {
            best = reply;
        }
    }
    best
}

fn searched(board: &Board, depth: u8, alpha: i32, beta: i32) -> (Option<u32>, i32, SearchTrace) {
    let mut state = fresh_state(*board);
    let mut nodes = 0;
    let mut deepest = 0;
    let mut trace = SearchTrace::new();
    let color = if board.read_bookkeeping().white_to_move { 1 } else { -1 };
    let deadline = Deadline::after(3_600_000);
    let (best, score) = negamax(
        board,
        alpha,
        beta,
        &mut nodes,
        &deadline,
        &mut state,
        depth,
        0,
        &mut deepest,
        color,
        &mut trace,
    );
    assert!(nodes > 0);
    assert_eq!(deepest, if board.get_legal_moves().len() == 0 { 0 } else { depth });
    (best, score, trace)
}

const POSITIONS: [&str; 5] = [
    "r3k2r/p1ppqpb1/bn2pnp1/3PN3/1p2P3/2N2Q1p/PPPBBPPP/R3K2R w KQkq - 0 1",
    "rnbqkbnr/ppp1pppp/8/3pP3/8/8/PPPP1PPP/RNBQKBNR w KQkq d6 0 3",
    "n1n5/PPPk4/8/8/8/8/4Kppp/5N1N b - - 0 1",
    "6k1/5ppp/8/8/8/8/5PPP/R5K1 w - - 0 1",
    "8/2p5/3p4/KP5r/1R3p1k/8/4P1P1/8 w - - 0 1",
];

#[test]
fn an_undisturbed_search_finds_the_value() {
    for fen in POSITIONS {
        let board = load(fen);
        let color = if board.read_bookkeeping().white_to_move { 1 } else { -1 };
        for depth in 0..3u8 {
            let mut history = RepetitionHistory::new();
            let expected = value_by_hand(&board, depth, color, &mut history);
            let (best, score, trace) = searched(&board, depth, -INFINITE, INFINITE);
            assert!(!trace.timed_out);
            if !trace.table_used {
                assert_eq!(score, expected, "depth {} of {}", depth, fen);
                if let Some(tag) = best {
                    let next = board.apply(tag).unwrap();
                    let key = next.position_key();
                    history.increment(key);
                    let reply = -value_by_hand(&next, depth - 1, -color, &mut history);
                    history.decrement(key);
                    assert_eq!(reply, expected);
                }
            }
        }
    }
}

#[test]
fn a_narrow_window_bounds_the_value() {
    let board = load(POSITIONS[0]);
    let mut history = RepetitionHistory::new();
    let value = value_by_hand(&board, 2, 1, &mut history);
    for (alpha, beta) in [(value - 50, value + 50), (value + 10, value + 60), (value - 60, value - 10)] {
        let (_, score, trace) = searched(&board, 2, alpha, beta);
        if !trace.timed_out && !trace.table_used {
            if score <= alpha {
                assert!(value <= score);
            } else if score >= beta {
                assert!(value >= score);
                assert!(trace.cutoffs > 0);
            } else {
                assert_eq!(score, value);
            }
        }
    }
}

#[test]
fn a_search_past_its_deadline_says_so() {
    let board = load(POSITIONS[0]);
    let mut state = fresh_state(board);
    let mut nodes = 0;
    let mut deepest = 0;
    let mut trace = SearchTrace::new();
    let deadline = Deadline::after(0);
    let (best, score) = negamax(
        &board,
        -INFINITE,
        INFINITE,
        &mut nodes,
        &deadline,
        &mut state,
        3,
        0,
        &mut deepest,
        1,
        &mut trace,
    );
    assert_eq!((best, score), (None, 0));
    assert!(trace.timed_out);
    assert_eq!(nodes, 0);
    assert_eq!(deepest, 0);
    assert!(state.history.inner.is_empty());
    assert_eq!(state.transposition_table.inner.len(), 0);
    let mut quiet_trace = SearchTrace::new();
    let quiet = quiescence_search(
        &board,
        -INFINITE,
        INFINITE,
        &mut nodes,
        &deadline,
        &mut state,
        0,
        &mut deepest,
        1,
        4,
        &mut quiet_trace,
    );
    assert_eq!(quiet, 0);
    assert!(quiet_trace.timed_out);
    assert_eq!(nodes, 0);
}

#[test]
fn a_finished_node_is_stored_with_its_value_and_bound() {
    let board = load("6k1/5ppp/8/8/8/8/5PPP/R5K1 w - - 0 1");
    let deadline = Deadline::after(3_600_000);
    let key = board.position_key();
    for (alpha, beta, flag) in [
        (-INFINITE, INFINITE, mystic_bot::bot::types::BoundType::Exact),
        (i32::MIN + 1, i32::MAX, mystic_bot::bot::types::BoundType::Exact),
        (SCORE_LIMIT, INFINITE, mystic_bot::bot::types::BoundType::UpperBound),
        (-INFINITE, -SCORE_LIMIT, mystic_bot::bot::types::BoundType::LowerBound),
    ] {
        let mut state = fresh_state(board);
        let mut nodes = 0;
        let mut deepest = 0;
        let mut trace = SearchTrace::new();
        let (best, score) = negamax(
            &board,
            alpha,
            beta,
            &mut nodes,
            &deadline,
            &mut state,
            1,
            0,
            &mut deepest,
            1,
            &mut trace,
        );
        assert!(!trace.timed_out && !trace.table_used);
        assert!(best.is_some());
        let stored = state.transposition_table.get(&(key, 1)).unwrap();
        assert_eq!(stored.value, score);
        assert_eq!(stored.depth, 1);
        assert_eq!(stored.flag, flag);
        assert_eq!(stored.best_move, best);
        assert!(state.history.inner.is_empty());
        assert!(nodes > 0);
    }
    let mut state = fresh_state(board);
    let mut nodes = 0;
    let mut deepest = 0;
    let mut trace = SearchTrace::new();
    let (best, score) = alpha_beta(
        &board,
        -INFINITE,
        INFINITE,
        true,
        &mut nodes,
        &deadline,
        &mut state,
        1,
        0,
        &mut deepest,
        &mut trace,
    );
    assert_eq!(best, Some(mystic_bot::base::uci::uci_to_uint("a1a8").unwrap() as u32));
    assert!(score > 900_000);
}

fn quiet_by_hand(board: &Board, budget: u8, color: i32, history: &mut RepetitionHistory) -> i32 {
    if board.get_legal_moves().len() == 0 {
        return color * board.evaluate(true);
    }
    if board.is_drawn() || history.get(board.position_key()) >= 3 {
        return 0;
    }
    let stand_pat = color * board.evaluate(false);
    if budget == 0 {
        return stand_pat;
    }
    let mut best = stand_pat;
    for (next, _) in get_prioritized_moves(board, true) {
        let key = next.position_key();
        history.increment(key);
        let reply = -quiet_by_hand(&next, budget - 1, -color, history);
        history.decrement(key);
        if reply > best {
            best = reply;
        }
    }
    best
}

#[test]
fn a_search_of_captures_finds_its_value() {
    for fen in POSITIONS {
        let board = load(fen);
        let color = if board.read_bookkeeping().white_to_move { 1 } else { -1 };
        for budget in 0..3u8 {
            let mut history = RepetitionHistory::new();
            let expected = quiet_by_hand(&board, budget, color, &mut history);
            let mut state = fresh_state(board);
            state.history.set(99, 2);
            let mut nodes = 0;
            let mut deepest = 0;
            let mut trace = SearchTrace::new();
            let deadline = Deadline::after(3_600_000);
            let score = quiescence_search(
                &board,
                -INFINITE,
                INFINITE,
                &mut nodes,
                &deadline,
                &mut state,
                0,
                &mut deepest,
                color,
                budget,
                &mut trace,
            );
            assert!(!trace.timed_out && !trace.table_used);
            assert_eq!(score, expected, "budget {} of {}", budget, fen);
            assert_eq!(state.history.get(99), 2);
            assert_eq!(state.history.inner.len(), 1);
        }
    }
}

#[test]
fn the_score_seen_from_white_is_the_value_seen_from_white() {
    for fen in POSITIONS {
        let board = load(fen);
        let white = board.read_bookkeeping().white_to_move;
        let color = if white { 1 } else { -1 };
        let mut history = RepetitionHistory::new();
        let expected = color * value_by_hand(&board, 2, color, &mut history);
        let mut state = fresh_state(board);
        let mut nodes = 0;
        let mut deepest = 0;
        let mut trace = SearchTrace::new();
        let deadline = Deadline::after(3_600_000);
        let (_, score) = alpha_beta(
            &board,
            -INFINITE,
            INFINITE,
            white,
            &mut nodes,
            &deadline,
            &mut state,
            2,
            0,
            &mut deepest,
            &mut trace,
        );
        if !trace.table_used {
            assert_eq!(score, expected, "in {}", fen);
        }
    }
}

#[test]
fn the_terms_of_the_evaluation_by_hand() {
    let pawns = load("4k3/8/8/8/8/8/PP6/4K3 w - - 0 1");
    assert_eq!(evaluate_connected_pawns(&pawns), 10);
    assert_eq!(evaluate_passed_pawns(&pawns), 20);
    assert_eq!(evaluate_king_proximity(&pawns), 7);
    assert!(pawns.is_endgame());
    assert!(pawns.is_connected(false, 8) && pawns.is_passed(false, 8));
    let blocked = load("4k3/p7/8/8/8/8/P6P/4K3 b - - 0 1");
    assert_eq!(evaluate_connected_pawns(&blocked), 0);
    assert_eq!(evaluate_passed_pawns(&blocked), 5 + 5 * 1);
    assert_eq!(evaluate_king_proximity(&blocked), 7);
    assert!(!blocked.is_passed(false, 8) && !blocked.is_passed(true, 48));
    let start = load("rnbqkbnr/pppppppp/8/8/8/8/PPPPPPPP/RNBQKBNR w KQkq - 0 1");
    assert_eq!(evaluate_connected_pawns(&start), 0);
    assert_eq!(evaluate_passed_pawns(&start), 0);
    assert_eq!(evaluate_king_proximity(&start), 0);
    assert!(!start.is_endgame());
}

#[test]
fn the_bonus_of_the_squares_by_hand() {
    let board = load("rnbqkbnr/pppppppp/8/8/8/8/PPPPPPPP/RNBQKBNR w KQkq - 0 1");
    let white_knights = board.piece_map(mystic_bot::base::defs::PieceType::Knight, false);
    let black_knights = board.piece_map(mystic_bot::base::defs::PieceType::Knight, true);
    let kind = mystic_bot::base::defs::PieceType::Knight;
    assert_eq!(board.get_positional_scores(kind, white_knights, 0, false), -80);
    assert_eq!(board.get_positional_scores(kind, black_knights, 1, false), 80);
    assert_eq!(board.get_positional_scores(kind, 0, 0, false), 0);
    let king = mystic_bot::base::defs::PieceType::King;
    let e1 = 1u64 << (63 - 4);
    assert_eq!(board.get_positional_scores(king, e1, 0, false), 0);
    assert_eq!(board.get_positional_scores(king, e1, 0, true), -20);
}

#[test]
fn a_node_that_the_table_settles_hands_back_the_entry() {
    let board = load(POSITIONS[0]);
    let deadline = Deadline::after(3_600_000);
    let mut state = fresh_state(board);
    let held = mystic_bot::bot::types::TTEntry {
        value: 77,
        depth: 2,
        flag: mystic_bot::bot::types::BoundType::LowerBound,
        best_move: Some(1234),
    };
    state.transposition_table.put((board.position_key(), 2), held);
    let mut nodes = 0;
    let mut deepest = 0;
    let mut trace = SearchTrace::new();
    let settled = negamax(
        &board,
        -100,
        50,
        &mut nodes,
        &deadline,
        &mut state,
        2,
        0,
        &mut deepest,
        1,
        &mut trace,
    );
    assert_eq!(settled, (Some(1234), 77));
    assert!(trace.table_used);
    assert_eq!(nodes, 1);
    let mut trace = SearchTrace::new();
    let open = negamax(
        &board,
        -100,
        100,
        &mut nodes,
        &deadline,
        &mut state,
        2,
        0,
        &mut deepest,
        1,
        &mut trace,
    );
    assert!(open.0.is_some());
    assert_ne!(open.0, Some(1234));
    let stored = state.transposition_table.get(&(board.position_key(), 2)).unwrap();
    assert_eq!(stored.value, open.1);
    assert_eq!(stored.best_move, open.0);
    let stalemate = load("7k/5Q2/6K1/8/8/8/8/8 b - - 0 1");
    let mut state = fresh_state(stalemate);
    let mut trace = SearchTrace::new();
    let over = negamax(
        &stalemate,
        -INFINITE,
        INFINITE,
        &mut nodes,
        &deadline,
        &mut state,
        3,
        0,
        &mut deepest,
        -1,
        &mut trace,
    );
    assert_eq!(over, (None, 0));
    let mut trace = SearchTrace::new();
    let leaf = negamax(
        &board,
        -INFINITE,
        INFINITE,
        &mut nodes,
        &deadline,
        &mut fresh_state(board),
        0,
        0,
        &mut deepest,
        -1,
        &mut trace,
    );
    assert_eq!(leaf, (None, -board.evaluate(false)));
}
