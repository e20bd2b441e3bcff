use mystic_bot::base::defs::Board;
use mystic_bot::base::defs::CastleSide;
use mystic_bot::base::defs::GameState;
use mystic_bot::base::defs::PieceColour;
use mystic_bot::base::defs::PieceType;
use mystic_bot::base::uci::uci_to_uint;
use mystic_bot::bot::board::is_noisy;
use mystic_bot::bot::clock::time_budget;
use mystic_bot::bot::clock::Deadline;
use mystic_bot::bot::evaluate::MATE_SCORE;
use mystic_bot::bot::history::RepetitionHistory;
use mystic_bot::bot::lookup::lookup_opening_db;
use mystic_bot::bot::lookup::pick_weighted;
use mystic_bot::bot::lookup::total_weight;
use mystic_bot::bot::search::bound_kind;
use mystic_bot::bot::search::get_prioritized_moves;
use mystic_bot::bot::search::probe_entry;
use mystic_bot::bot::search::search;
use mystic_bot::bot::search::EngineState;
use mystic_bot::bot::table::TranspositionTable;
use mystic_bot::bot::types::BoundType;
use mystic_bot::bot::types::OpeningEntry;
use mystic_bot::bot::types::TTEntry;
use std::collections::HashMap;

const START: &str = "rnbqkbnr/pppppppp/8/8/8/8/PPPPPPPP/RNBQKBNR w KQkq - 0 1";

fn load(fen: &str) -> Board {
    Board::from_fen(&String::from(fen)).unwrap()
}

fn entry(value: i32, flag: BoundType) -> TTEntry {
    TTEntry { value, depth: 1, flag, best_move: Some(7) }
}

#[test]
fn malformed_fen_is_rejected() {
    let bad = [
        "",
        "rnbqkbnr/pppppppp/8/8/8/8/PPPPPPPP/RNBQKBNR w KQkq - 0",
        "rnbqkbnr/pppppppp/8/8/8/8/PPPPPPPP/RNBQKBNR w KQkq - 0 1 ",
        "rnbqkbnr/pppppppp/8/8/8/8/PPPPPPPP/RNBQKBNR  w KQkq - 0 1",
        "rnbqkbnr/pppppppp/8/8/8/8/PPPPPPPP w KQkq - 0 1",
        "rnbqkbnr/ppppppppp/8/8/8/8/PPPPPPPP/RNBQKBNR w KQkq - 0 1",
        "rnbqkbnr/pppppppp/9/8/8/8/PPPPPPPP/RNBQKBNR w KQkq - 0 1",
        "rnbqkbnr/pppppppp/7/8/8/8/PPPPPPPP/RNBQKBNR w KQkq - 0 1",
        "rnbqkbnr/pppppppp/8/8/8/8/PPPPPPPP/RNBQKBNX w KQkq - 0 1",
        "rnbqkbnr/pppppppp/8/8/8/8/PPPPPPPP/RNBQKBNR x KQkq - 0 1",
        "rnbqkbnr/pppppppp/8/8/8/8/PPPPPPPP/RNBQKBNR w KQxq - 0 1",
        "rnbqkbnr/pppppppp/8/8/8/8/PPPPPPPP/RNBQKBNR w KQkq e9 0 1",
        "rnbqkbnr/pppppppp/8/8/8/8/PPPPPPPP/RNBQKBNR w KQkq i3 0 1",
        "rnbqkbnr/pppppppp/8/8/8/8/PPPPPPPP/RNBQKBNR w KQkq - x 1",
        "rnbqkbnr/pppppppp/8/8/8/8/PPPPPPPP/RNBQKBNR w KQkq - 0 99999999999999999999",
    ];
    for fen in bad {
        assert!(Board::from_fen(&String::from(fen)).is_none(), "accepted: {}", fen);
    }
}

#[test]
fn fen_fields_are_stored_in_the_bookkeeping_word() {
    let board = load("rnbqkbnr/pppp1ppp/8/4p3/4P3/8/PPPP1PPP/RNBQKBNR w Kq e6 5 17");
    assert_eq!(board.side_to_move(), PieceColour::White);
    assert_eq!(board.castling_rights(), 2 + 4);
    assert_eq!(board.en_passant_file(), Some(4));
    assert_eq!(board.get_enpassant(), Some(4));
    assert_eq!(board.half_move_clock(), 5);
    assert_eq!(board.full_move_number(), 17);
    assert_eq!(board.metadata, 2 + 4 + (4 << 4) + (1 << 7) + (1 << 8) + (5 << 9) + (17 << 16));
    assert_eq!(board.piece_at(0), Some((PieceType::Rook, false)));
    assert_eq!(board.piece_at(4), Some((PieceType::King, false)));
    assert_eq!(board.piece_at(63), Some((PieceType::Rook, true)));
    assert_eq!(board.piece_at(28), Some((PieceType::Pawn, false)));
    assert_eq!(board.piece_at(20), None);
    assert_eq!(board.rooks, (1u128 << 63) | (1u128 << 56) | (1u128 << 71) | (1u128 << 64));
    assert_eq!(board.get_number_pieces(), 32);
    let wrapped = load("8/8/8/8/8/8/8/K6k b - - 130 65537");
    assert_eq!(wrapped.half_move_clock(), 2);
    assert_eq!(wrapped.full_move_number(), 1);
}

#[test]
fn single_steps_of_a_move() {
    let mut board = load(START);
    assert!(board.remove_piece(0));
    assert!(!board.remove_piece(0));
    assert!(!board.remove_piece(20));
    assert_eq!(board.piece_at(0), None);
    board.put_piece(PieceType::Queen, true, 20);
    assert_eq!(board.piece_at(20), Some((PieceType::Queen, true)));
    assert_eq!(board.consolidated_piece_map(&PieceColour::White).count_ones(), 15);
    assert_eq!(board.consolidated_piece_map(&PieceColour::Black).count_ones(), 17);
    assert_eq!(board.consolidated_piece_map(&PieceColour::Any).count_ones(), 32);
    board.update_tickers(false, false);
    assert_eq!(board.half_move_clock(), 1);
    assert_eq!(board.full_move_number(), 1);
    assert_eq!(board.side_to_move(), PieceColour::Black);
    board.update_tickers(false, true);
    assert_eq!(board.half_move_clock(), 2);
    assert_eq!(board.full_move_number(), 2);
    board.update_tickers(true, false);
    assert_eq!(board.half_move_clock(), 0);
    board.set_enpassant(Some(3));
    assert_eq!(board.get_enpassant(), Some(3));
    board.set_enpassant(None);
    assert_eq!(board.get_enpassant(), None);
    assert_eq!(board.castling_rights(), 15);
    board.remove_castling_bits(CastleSide::King, &PieceColour::White);
    assert_eq!(board.castling_rights(), 13);
    board.remove_castling_bits(CastleSide::Queen, &PieceColour::Any);
    assert_eq!(board.castling_rights(), 13);
    board.remove_castling_for_rook(&PieceColour::Black, 56);
    assert_eq!(board.castling_rights(), 9);
    board.remove_castling_for_rook(&PieceColour::Black, 62);
    assert_eq!(board.castling_rights(), 9);
    board.remove_castling_for_rook(&PieceColour::White, 0);
    assert_eq!(board.castling_rights(), 9);
}

#[test]
fn clocks_stay_at_their_largest_value() {
    let mut board = load("8/8/8/8/8/8/8/K6k b - - 127 65535");
    board.update_tickers(false, true);
    assert_eq!(board.half_move_clock(), 127);
    assert_eq!(board.full_move_number(), 65535);
    assert_eq!(board.side_to_move(), PieceColour::White);
}

#[test]
fn attack_maps_of_the_pieces() {
    let board = load("8/8/8/3p4/4N3/8/8/R3K2k w - - 0 1");
    let e4 = 63 - 28;
    assert_eq!(board.get_knight_move_bit_map(e4, 0).count_ones(), 8);
    assert_eq!(board.get_knight_move_bit_map(e4, 1).count_ones(), 8);
    let c3 = 63 - 18;
    assert_eq!(board.get_knight_move_bit_map(c3, 0).count_ones(), 7);
    assert_eq!(board.get_knight_move_bit_map(c3, 1).count_ones(), 7);
    assert_eq!(board.get_knight_move_bit_map(c3, 2).count_ones(), 6);
    let a1 = 63;
    assert_eq!(board.get_rook_move_bit_map(a1, 0).count_ones(), 7 + 3);
    assert_eq!(board.get_bishop_move_bit_map(a1, 0).count_ones(), 7);
    assert_eq!(board.get_queen_move_bit_map(a1, 0).count_ones(), 17);
    let e1 = 63 - 4;
    assert_eq!(board.get_king_attack_bit_map(e1, 0).count_ones(), 5);
    let d5 = 63 - 35;
    assert_eq!(board.get_pawn_attack_bit_map(d5, 1), (1u64 << (63 - 26)) | (1u64 << (63 - 28)));
    assert_eq!(board.get_pawn_attack_bit_map(d5, 0), (1u64 << (63 - 42)) | (1u64 << (63 - 44)));
    assert!(board.can_attack(0, 1u64 << (63 - 34)));
    assert!(!board.can_attack(0, 1u64 << (63 - 35)));
    assert!(board.can_attack(1, 1u64 << (63 - 28)));
    assert!(!board.can_attack(1, 1u64 << (63 - 4)));
    assert!(!board.in_check());
    assert!(board.is_legal());
}

#[test]
fn mate_and_stalemate_are_told_apart() {
    let mate = load("6k1/5ppp/8/8/8/8/5PPP/R5K1 w - - 0 1").apply(uci_to_uint("a1a8").unwrap() as u32);
    let mate = mate.unwrap();
    assert_eq!(mate.game_state(), GameState::Checkmate);
    assert_eq!(mate.evaluate(true), MATE_SCORE);
    let stalemate = load("7k/5Q2/6K1/8/8/8/8/8 b - - 0 1");
    assert_eq!(stalemate.game_state(), GameState::Stalemate);
    assert_eq!(stalemate.evaluate(true), 0);
    assert_eq!(load(START).game_state(), GameState::Playable);
    let white_mated = load("8/8/8/8/8/5k2/6q1/7K w - - 0 1");
    assert_eq!(white_mated.game_state(), GameState::Checkmate);
    assert_eq!(white_mated.evaluate(true), -MATE_SCORE);
}

#[test]
fn evaluation_follows_the_rules_of_the_draw() {
    assert_eq!(load(START).evaluate(false), 0);
    assert_eq!(load("8/8/8/8/8/8/8/K6k w - - 0 1").evaluate(false), 0);
    assert_eq!(load("8/8/8/8/8/8/8/KB5k w - - 0 1").evaluate(false), 0);
    assert_eq!(load("8/8/8/8/8/8/8/KNN4k w - - 0 1").evaluate(false), 0);
    assert_eq!(load("8/8/8/8/8/8/8/Kn5k w - - 0 1").evaluate(false), 0);
    assert_ne!(load("8/8/8/8/8/8/8/KR5k w - - 0 1").evaluate(false), 0);
    assert_eq!(load("8/8/8/8/8/8/8/KR5k w - - 100 1").evaluate(false), 0);
    assert_eq!(load("7k/5Q2/6K1/8/8/8/8/8 b - - 100 1").evaluate(true), 0);
}

#[test]
fn evaluation_of_a_rook_ending_by_hand() {
    let board = load("4k3/8/8/8/8/8/8/R3K3 w - - 0 1");
    let rook = 500 + 0;
    let white_king = -20;
    let black_king = -20;
    let proximity = 14 - 7;
    assert_eq!(board.evaluate(false), rook + white_king - black_king + proximity);
    let pawns = load("4k3/8/8/8/8/8/PP6/4K3 w - - 0 1");
    let a2 = 100 + 5 + 5 + (5 + 5 * 1);
    let b2 = 100 + 10 + 5 + (5 + 5 * 1);
    assert_eq!(pawns.evaluate(false), a2 + b2 + white_king - black_king + proximity);
}

#[test]
fn moves_in_the_notation_of_the_interface() {
    assert_eq!(uci_to_uint("e2e4"), Some((12 << 6) | 28));
    assert_eq!(uci_to_uint("a7a8q"), Some((48 << 6) | 56 | (4 << 12)));
    assert_eq!(uci_to_uint("h2h1n"), Some((15 << 6) | 7 | (7 << 12)));
    assert_eq!(uci_to_uint("h2h1R"), Some((15 << 6) | 7 | (5 << 12)));
    assert_eq!(uci_to_uint("e2e"), None);
    assert_eq!(uci_to_uint("e2e9"), None);
    assert_eq!(uci_to_uint("i2e4"), None);
    assert_eq!(uci_to_uint("e7e8k"), None);
    assert_eq!(uci_to_uint("e2e4qq"), None);
    assert_eq!(Board::square_to_uci(0), "a1");
    assert_eq!(Board::square_to_uci(63), "h8");
    let board = load("n1n5/PPPk4/8/8/8/8/4Kppp/5N1N w - - 0 1");
    let next = board.apply(uci_to_uint("b7c8b").unwrap() as u32).unwrap();
    assert_eq!(next.get_next_uci(), "b7c8b");
    assert_eq!(next.piece_at(58), Some((PieceType::Bishop, false)));
    assert_eq!(next.piece_at(49), None);
    assert!(board.apply(uci_to_uint("a7a8q").unwrap() as u32).is_none());
    assert!(board.apply(uci_to_uint("b7b8").unwrap() as u32).is_none());
    assert!(board.apply(uci_to_uint("b7b8q").unwrap() as u32).is_some());
    let start = load(START);
    assert!(start.apply(uci_to_uint("e2e5").unwrap() as u32).is_none());
    let pushed = start.apply(uci_to_uint("e2e4").unwrap() as u32).unwrap();
    assert_eq!(pushed.get_next_uci(), "e2e4");
    assert_eq!(pushed.to_fen(), "rnbqkbnr/pppppppp/8/8/4P3/8/PPPP1PPP/RNBQKBNR b KQkq e3 0 1");
}

#[test]
fn legal_moves_come_best_first() {
    let board = load("r3k2r/p1ppqpb1/bn2pnp1/3PN3/1p2P3/2N2Q1p/PPPBBPPP/R3K2R w KQkq - 0 1");
    let moves = board.get_legal_moves();
    assert_eq!(moves.len(), 48);
    for i in 1..moves.len() {
        assert!(moves.pick(i - 1).unwrap().eval >= moves.pick(i).unwrap().eval);
    }
    assert!(moves.pick(48).is_none());
    let black = moves.pick(0).unwrap().get_legal_moves();
    for i in 1..black.len() {
        assert!(black.pick(i - 1).unwrap().eval <= black.pick(i).unwrap().eval);
    }
    let mut list = moves;
    let first = *list.pick(0).unwrap();
    assert_eq!(list.next(), Some(first));
    assert_eq!(list.len(), 47);
    list.clear();
    assert_eq!(list.len(), 0);
    assert_eq!(list.next(), None);
}

#[test]
fn static_hash_folds_the_planes() {
    let board = load(START);
    let expected = board.rooks
        ^ board.knights.rotate_left(7)
        ^ board.bishops.rotate_left(13)
        ^ board.queens.rotate_left(19)
        ^ board.kings.rotate_left(23)
        ^ board.pawns.rotate_left(29)
        ^ ((board.metadata & 0b1111111111) as u128).rotate_left(31);
    assert_eq!(board.static_hash(), expected);
    let other = load("rnbqkbnr/pppppppp/8/8/8/8/PPPPPPPP/RNBQKBNR b KQkq - 0 1");
    assert_ne!(board.hash(), other.hash());
    assert_ne!(board.position_key(), other.position_key());
    let later = load("rnbqkbnr/pppppppp/8/8/8/8/PPPPPPPP/RNBQKBNR w KQkq - 8 5");
    assert_ne!(board.hash(), later.hash());
    assert_eq!(board.position_key(), later.position_key());
}

#[test]
fn moves_are_ordered_by_promise() {
    let board = load("n1n5/PPPk4/8/8/8/8/4Kppp/5N1N w - - 0 1");
    let moves = get_prioritized_moves(&board, false);
    assert_eq!(moves.len(), 24);
    for i in 1..moves.len() {
        assert!(moves[i - 1].1 >= moves[i].1);
    }
    let (best, priority) = moves[0];
    assert_eq!(best.get_next_uci(), "b7c8q");
    assert_eq!(priority, 80 + 50 + 40 + 30 + 320 / 10);
    let quiet = board.apply(uci_to_uint("e2d3").unwrap() as u32).unwrap();
    assert_eq!(board.move_priority(&quiet), 0);
    assert!(!is_noisy(&board.classify_move(&quiet)));
    let noisy = get_prioritized_moves(&board, true);
    assert!(noisy.len() < moves.len());
    for (next, _) in noisy.iter() {
        let tags = board.classify_move(next);
        assert!(tags.capture || tags.promotion);
    }
    let passing = load("rnbqkbnr/ppp1pppp/8/3pP3/8/8/PPPP1PPP/RNBQKBNR w KQkq d6 0 3");
    let taken = passing.apply(uci_to_uint("e5d6").unwrap() as u32).unwrap();
    let tags = passing.classify_move(&taken);
    assert!(tags.capture && tags.en_passant && !tags.promotion && !tags.check);
    assert_eq!(passing.capture_pieces(&taken), Some((PieceType::Pawn, PieceType::Pawn)));
    assert_eq!(passing.move_priority(&taken), 40 + 30 + 10);
}

#[test]
fn table_entries_settle_a_node_as_their_bound_allows() {
    assert_eq!(probe_entry(None, -10, 10), None);
    assert_eq!(probe_entry(Some(entry(3, BoundType::Exact)), -10, 10), Some((Some(7), 3)));
    assert_eq!(probe_entry(Some(entry(10, BoundType::LowerBound)), -10, 10), Some((Some(7), 10)));
    assert_eq!(probe_entry(Some(entry(9, BoundType::LowerBound)), -10, 10), None);
    assert_eq!(probe_entry(Some(entry(-10, BoundType::UpperBound)), -10, 10), Some((Some(7), -10)));
    assert_eq!(probe_entry(Some(entry(-9, BoundType::UpperBound)), -10, 10), None);
    assert_eq!(
        probe_entry(Some(entry(i32::MIN, BoundType::Exact)), -10, 10),
        Some((Some(7), -256_000_000))
    );
    assert_eq!(bound_kind(-10, -10, 10), BoundType::UpperBound);
    assert_eq!(bound_kind(10, -10, 10), BoundType::LowerBound);
    assert_eq!(bound_kind(0, -10, 10), BoundType::Exact);
}

#[test]
fn the_table_drops_what_was_unused_for_longest() {
    let mut table = TranspositionTable::new(2);
    assert_eq!(table.get(&(1, 0)), None);
    table.put((1, 0), entry(1, BoundType::Exact));
    table.put((2, 0), entry(2, BoundType::Exact));
    assert_eq!(table.get(&(1, 0)), Some(entry(1, BoundType::Exact)));
    table.put((3, 0), entry(3, BoundType::Exact));
    assert_eq!(table.get(&(2, 0)), None);
    assert_eq!(table.get(&(1, 0)), Some(entry(1, BoundType::Exact)));
    assert_eq!(table.get(&(3, 0)), Some(entry(3, BoundType::Exact)));
    table.put((1, 0), entry(9, BoundType::LowerBound));
    assert_eq!(table.get(&(1, 0)), Some(entry(9, BoundType::LowerBound)));
    assert_eq!(table.get(&(3, 0)), Some(entry(3, BoundType::Exact)));
    assert_eq!(table.get(&(1, 1)), None);
}

#[test]
fn the_tracker_counts_up_and_down() {
    let mut history = RepetitionHistory::new();
    assert_eq!(history.get(5), 0);
    assert!(history.increment(5));
    assert!(history.increment(5));
    assert_eq!(history.get(5), 2);
    history.decrement(5);
    assert_eq!(history.get(5), 1);
    history.decrement(5);
    assert_eq!(history.get(5), 0);
    assert!(history.inner.is_empty());
    history.decrement(5);
    assert_eq!(history.get(5), 0);
    history.set(6, u32::MAX);
    assert!(!history.increment(6));
    assert_eq!(history.get(6), u32::MAX);
    history.clear();
    assert_eq!(history.get(6), 0);
}

#[test]
fn a_search_leaves_the_tracker_as_it_was() {
    let board = load("r3k2r/p1ppqpb1/bn2pnp1/3PN3/1p2P3/2N2Q1p/PPPBBPPP/R3K2R w KQkq - 0 1");
    let mut state = EngineState {
        game_id: String::from("tracker"),
        current_board: board,
        history: RepetitionHistory::new(),
        statistics: HashMap::new(),
        transposition_table: TranspositionTable::new(10_000),
    };
    state.history.increment(board.position_key());
    state.history.set(17, 2);
    let before = state.history.inner.clone();
    let book = HashMap::new();
    let result = search(4_000, Some(200), &board, &mut state, &book);
    assert!(result.nodes > 0);
    assert_eq!(state.history.inner, before);
}

#[test]
fn the_time_for_a_search_is_a_share_of_what_is_left() {
    assert_eq!(time_budget(200_000, None), 5_000);
    assert_eq!(time_budget(200_000, Some(300)), 300);
    assert_eq!(time_budget(200_000, Some(9_000)), 5_000);
    assert_eq!(time_budget(4_000_000, None), 40_000);
    assert_eq!(time_budget(4_000_000, Some(50_000)), 40_000);
    assert_eq!(time_budget(0, Some(50_000)), 0);
    let deadline = Deadline::after(0);
    assert!(deadline.reached());
    let far = Deadline::after(3_600_000);
    assert!(!far.reached());
    assert!(far.elapsed_ms() < 3_600_000);
}

#[test]
fn book_moves_are_drawn_by_weight() {
    let entries = vec![
        OpeningEntry(String::from("e2e4"), 3),
        OpeningEntry(String::from("d2d4"), 0),
        OpeningEntry(String::from("g1f3"), 2),
    ];
    assert_eq!(total_weight(&entries), Some(5));
    assert_eq!(pick_weighted(&entries, 0), 0);
    assert_eq!(pick_weighted(&entries, 2), 0);
    assert_eq!(pick_weighted(&entries, 3), 2);
    assert_eq!(pick_weighted(&entries, 4), 2);
    let board = load(START);
    let mut book = HashMap::new();
    book.insert(board.book_key().unwrap(), entries);
    let mut seen_e4 = false;
    let mut seen_nf3 = false;
    for _ in 0..200 {
        let next = lookup_opening_db(&book, &board).unwrap();
        let uci = next.get_next_uci();
        assert!(uci == "e2e4" || uci == "g1f3", "drew {}", uci);
        seen_e4 = seen_e4 || uci == "e2e4";
        seen_nf3 = seen_nf3 || uci == "g1f3";
    }
    assert!(seen_e4 && seen_nf3);
    let mut state = EngineState {
        game_id: String::from("book"),
        current_board: board,
        history: RepetitionHistory::new(),
        statistics: HashMap::new(),
        transposition_table: TranspositionTable::new(1_000),
    };
    let result = search(200_000, None, &board, &mut state, &book);
    assert_eq!(result.nodes, 0);
    assert_eq!(result.depth, 0);
    let next = board.apply(result.best_move.unwrap()).unwrap();
    assert_eq!(result.score, next.evaluate(false));
    let mut illegal = HashMap::new();
    illegal.insert(board.book_key().unwrap(), vec![OpeningEntry(String::from("e2e5"), 1)]);
    assert!(lookup_opening_db(&illegal, &board).is_none());
    let mut weightless = HashMap::new();
    weightless.insert(board.book_key().unwrap(), vec![OpeningEntry(String::from("e2e4"), 0)]);
    assert!(lookup_opening_db(&weightless, &board).is_none());
    assert!(lookup_opening_db(&HashMap::new(), &board).is_none());
}

#[test]
fn the_tables_hold_the_attack_sets() {
    let tables = mystic_bot::base::global_map::GlobalMap::init();
    for sq in 0..64u8 {
        assert_eq!(tables.king(sq), mystic_bot::base::attacks::king_attacks(sq));
        assert_eq!(tables.knight(sq), mystic_bot::base::attacks::knight_attacks(sq));
        assert_eq!(tables.pawn(false, sq), mystic_bot::base::attacks::pawn_attacks(false, sq));
        assert_eq!(tables.pawn(true, sq), mystic_bot::base::attacks::pawn_attacks(true, sq));
    }
    assert_eq!(tables.knight(0), (1u64 << (63 - 10)) | (1u64 << (63 - 17)));
    assert_eq!(tables.king(63).count_ones(), 3);
    assert_eq!(tables.pawn(false, 8), 1u64 << (63 - 17));
    assert_eq!(tables.pawn(true, 8), 1u64 << (63 - 1));
    assert_eq!(tables.pawn(false, 60), 0);
}

#[test]
fn sliding_pieces_stop_at_the_first_piece() {
    let occ = (1u64 << (63 - 3)) | (1u64 << (63 - 32)) | (1u64 << (63 - 18));
    let rook = mystic_bot::base::attacks::rook_attacks(occ, 0);
    assert_eq!(
        rook,
        (1u64 << (63 - 1))
            | (1u64 << (63 - 2))
            | (1u64 << (63 - 3))
            | (1u64 << (63 - 8))
            | (1u64 << (63 - 16))
            | (1u64 << (63 - 24))
            | (1u64 << (63 - 32))
    );
    let bishop = mystic_bot::base::attacks::bishop_attacks(occ, 0);
    assert_eq!(bishop, (1u64 << (63 - 9)) | (1u64 << (63 - 18)));
    let free = mystic_bot::base::attacks::bishop_attacks(0, 27);
    assert_eq!(free.count_ones(), 13);
    let ray = mystic_bot::base::attacks::ray_attacks(occ, 0, 0, 1);
    assert_eq!(ray.count_ones(), 4);
}

#[test]
fn marks_of_a_move_are_asked_for_by_name() {
    let board = load("rnbqkbnr/ppp1pppp/8/3pP3/8/8/PPPP1PPP/RNBQKBNR w KQkq d6 0 3");
    let taken = board.apply(uci_to_uint("e5d6").unwrap() as u32).unwrap();
    let tags = board.classify_move(&taken);
    assert!(tags.contains(&mystic_bot::bot::types::SpecialMove::Capture));
    assert!(tags.contains(&mystic_bot::bot::types::SpecialMove::EnPassant));
    assert!(tags.contains(&mystic_bot::bot::types::SpecialMove::Attack));
    assert!(!tags.contains(&mystic_bot::bot::types::SpecialMove::Check));
    assert!(!tags.contains(&mystic_bot::bot::types::SpecialMove::Promotion));
    assert_eq!(board.piece_moved(&taken), Some(PieceType::Pawn));
    assert_eq!(board.occupancy(PieceColour::White), board.consolidated_piece_map(&PieceColour::White));
    assert_eq!(board.occupancy(PieceColour::Any).count_ones(), 32);
    assert_eq!(
        board.get_piece_table(PieceType::Pawn, false)[6],
        [50, 50, 50, 50, 50, 50, 50, 50]
    );
    assert_eq!(board.get_piece_table(PieceType::King, true)[0][0], -25);
    assert_eq!(board.get_piece_table(PieceType::King, false)[0][1], 30);
}

#[test]
fn the_move_of_the_table_is_looked_at_first() {
    let board = load(START);
    let moves = get_prioritized_moves(&board, false);
    let tag = uci_to_uint("g1f3").unwrap() as u32;
    let at = moves.iter().position(|(next, _)| next.latest_move == tag).unwrap();
    let promoted = mystic_bot::bot::search::promote_move(moves.clone(), tag);
    assert_eq!(promoted.len(), moves.len());
    assert_eq!(promoted[0], moves[at]);
    for pair in moves.iter() {
        assert!(promoted.contains(pair));
    }
    let untouched = mystic_bot::bot::search::promote_move(moves.clone(), 4095);
    assert_eq!(untouched, moves);
    assert!(board.is_quiet_position());
    let sharp = load("rnbqkbnr/ppp1pppp/8/3pP3/8/8/PPPP1PPP/RNBQKBNR w KQkq d6 0 3");
    assert!(!sharp.is_quiet_position());
    let parsed = mystic_bot::bot::lookup::parse_uci_move("e5d6", &sharp).unwrap();
    assert_eq!(parsed.get_next_uci(), "e5d6");
    assert!(mystic_bot::bot::lookup::parse_uci_move("e5e7", &sharp).is_none());
    assert!(mystic_bot::bot::lookup::parse_uci_move("e5", &sharp).is_none());
}

fn fresh_state(board: Board, name: &str) -> EngineState {
    EngineState {
        game_id: String::from(name),
        current_board: board,
        history: RepetitionHistory::new(),
        statistics: HashMap::new(),
        transposition_table: TranspositionTable::new(1_000),
    }
}

#[test]
fn the_time_is_up_once_the_budget_is_spent() {
    assert!(mystic_bot::bot::clock::time_is_up(0, 0));
    assert!(!mystic_bot::bot::clock::time_is_up(5, 6));
    assert!(mystic_bot::bot::clock::time_is_up(6, 6));
    assert!(mystic_bot::bot::clock::time_is_up(7, 6));
    assert!(!mystic_bot::bot::clock::time_is_up(u64::MAX as u128 - 1, u64::MAX));
    assert!(mystic_bot::bot::clock::time_is_up(u128::MAX, u64::MAX));
}

#[test]
fn a_search_without_time_finds_nothing() {
    let board = load(START);
    let book = HashMap::new();
    for (left, limit) in [(0u128, None), (39, None), (1_000_000, Some(0u128))] {
        let mut state = fresh_state(board, "hurried");
        let result = search(left, limit, &board, &mut state, &book);
        assert_eq!(result.best_move, None);
        assert_eq!(result.iterations, 0);
        assert_eq!(result.nodes, 0);
        assert_eq!(result.depth, 0);
        assert_eq!(result.score, 0);
        assert!(!result.exact);
        assert!(result.timed_out);
        assert!(state.history.inner.is_empty());
        assert_eq!(state.transposition_table.inner.len(), 0);
    }
}

#[test]
fn a_search_without_time_still_takes_the_book_move() {
    let board = load(START);
    let mut book = HashMap::new();
    book.insert(board.book_key().unwrap(), vec![OpeningEntry(String::from("c2c4"), 7)]);
    let mut state = fresh_state(board, "booked");
    let result = search(0, None, &board, &mut state, &book);
    let tag = uci_to_uint("c2c4").unwrap() as u32;
    assert_eq!(result.best_move, Some(tag));
    assert_eq!(result.iterations, 0);
    assert_eq!(result.nodes, 0);
    assert_eq!(result.depth, 0);
    assert!(!result.exact);
    assert!(!result.timed_out);
    let next = board.apply(tag).unwrap();
    assert_eq!(result.score, next.evaluate(false));
    assert_eq!(lookup_opening_db(&book, &board), Some(next));
}

#[test]
fn a_search_with_time_keeps_what_it_finished() {
    let board = load("r3k2r/p1ppqpb1/bn2pnp1/3PN3/1p2P3/2N2Q1p/PPPBBPPP/R3K2R w KQkq - 0 1");
    let book = HashMap::new();
    let mut state = fresh_state(board, "steady");
    let result = search(40_000, Some(400), &board, &mut state, &book);
    assert!(result.iterations > 0);
    assert!(result.best_move.is_some());
    assert!(result.nodes > 0);
    assert!(result.depth <= result.iterations);
    assert!(board.apply(result.best_move.unwrap()).is_some());
    assert!(state.history.inner.is_empty());
    let mate = load("6k1/5ppp/8/8/8/8/5PPP/R5K1 w - - 0 1");
    let mut state = fresh_state(mate, "mate");
    let result = search(40_000, Some(300), &mate, &mut state, &book);
    assert_eq!(result.best_move, Some(uci_to_uint("a1a8").unwrap() as u32));
    assert!(result.score > 900_000);
    let stalemate = load("7k/5Q2/6K1/8/8/8/8/8 b - - 0 1");
    let mut state = fresh_state(stalemate, "over");
    let result = search(40_000, Some(300), &stalemate, &mut state, &book);
    assert_eq!(result.best_move, None);
    assert!(!result.timed_out);
    assert_eq!(result.iterations, 0);
}

#[test]
fn a_move_is_found_by_its_tag() {
    let board = load(START);
    let moves = board.generate_all_moves();
    for next in moves.data.iter() {
        assert_eq!(board.apply(next.latest_move), Some(*next));
    }
    let unknown = uci_to_uint("e2e5").unwrap() as u32;
    assert_eq!(board.apply(unknown), None);
    let promoting = load("8/1P5k/8/8/8/8/8/K7 w - - 0 1");
    let queen = uci_to_uint("b7b8q").unwrap() as u32;
    let knight = uci_to_uint("b7b8n").unwrap() as u32;
    assert_eq!(promoting.apply(queen).unwrap().get_next_uci(), "b7b8q");
    assert_eq!(promoting.apply(knight).unwrap().get_next_uci(), "b7b8n");
}

#[test]
fn an_iteration_is_kept_only_when_it_was_finished() {
    let board = load(START);
    let legal = board.generate_all_moves();
    let tag = uci_to_uint("e2e4").unwrap() as u32;
    let before = mystic_bot::bot::search::SearchResult {
        best_move: Some(uci_to_uint("d2d4").unwrap() as u32),
        nodes: 40,
        elapsed_ms: 0,
        score: 12,
        depth: 2,
        iterations: 2,
        exact: true,
        timed_out: false,
    };
    let keep = mystic_bot::bot::search::keep_iteration;
    let kept = keep(before, Some(tag), 35, 100, 3, 3, 1, false, false, &legal);
    assert!(kept.1);
    assert_eq!(kept.0.best_move, Some(tag));
    assert_eq!(kept.0.score, 35);
    assert_eq!(kept.0.nodes, 140);
    assert_eq!(kept.0.depth, 3);
    assert_eq!(kept.0.iterations, 3);
    assert!(kept.0.exact);
    let for_black = keep(before, Some(tag), 35, u64::MAX, 3, 3, -1, false, true, &legal);
    assert!(for_black.1);
    assert_eq!(for_black.0.score, -35);
    assert_eq!(for_black.0.nodes, u64::MAX);
    assert!(!for_black.0.exact);
    let cut_short = keep(before, Some(tag), 35, 100, 3, 3, 1, true, false, &legal);
    assert!(!cut_short.1);
    assert!(cut_short.0.timed_out);
    assert_eq!(cut_short.0.best_move, before.best_move);
    assert_eq!(cut_short.0.score, before.score);
    assert_eq!(cut_short.0.nodes, before.nodes);
    assert_eq!(cut_short.0.depth, before.depth);
    assert_eq!(cut_short.0.iterations, before.iterations);
    assert_eq!(cut_short.0.exact, before.exact);
    assert_eq!(keep(before, None, 35, 100, 3, 3, 1, false, false, &legal), (before, false));
    let unknown = uci_to_uint("e2e5").unwrap() as u32;
    assert_eq!(keep(before, Some(unknown), 35, 100, 3, 3, 1, false, false, &legal), (before, false));
}

#[test]
fn a_count_that_returns_to_nought_leaves_no_entry() {
    let mut history = RepetitionHistory::new();
    history.set(5, 2);
    let before = history.inner.clone();
    history.increment(9);
    assert_eq!(history.inner.get(&9), Some(&1));
    history.decrement(9);
    assert_eq!(history.inner, before);
    assert!(!history.inner.contains_key(&9));
    history.increment(5);
    history.decrement(5);
    assert_eq!(history.inner, before);
    history.decrement(77);
    assert_eq!(history.inner, before);
    history.decrement(5);
    history.decrement(5);
    assert!(history.inner.is_empty());
    history.decrement(5);
    assert!(history.inner.is_empty());
}

#[test]
fn a_table_is_made_for_a_capacity_within_the_limit() {
    assert!(TranspositionTable::try_new(0).is_none());
    assert!(TranspositionTable::try_new(mystic_bot::bot::table::LARGEST_TABLE + 1).is_none());
    assert!(TranspositionTable::try_new(usize::MAX).is_none());
    let mut table = TranspositionTable::try_new(2).unwrap();
    table.put((1, 1), entry(10, BoundType::Exact));
    table.put((2, 1), entry(20, BoundType::Exact));
    table.put((3, 1), entry(30, BoundType::Exact));
    assert_eq!(table.get(&(1, 1)), None);
    assert_eq!(table.get(&(3, 1)), Some(entry(30, BoundType::Exact)));
}

#[test]
fn the_book_is_found_under_the_key_of_the_position() {
    let board = load(START);
    let key = board.book_key().unwrap();
    assert_ne!(key, board.position_key());
    let mut book = HashMap::new();
    book.insert(key, vec![OpeningEntry(String::from("g1f3"), 1)]);
    let found = mystic_bot::bot::lookup::lookup_with_key(&book, &board, key).unwrap();
    assert_eq!(found.get_next_uci(), "g1f3");
    assert!(mystic_bot::bot::lookup::lookup_with_key(&book, &board, key + 1).is_none());
    assert_eq!(lookup_opening_db(&book, &board), Some(found));
    let mut elsewhere = HashMap::new();
    elsewhere.insert(board.position_key(), vec![OpeningEntry(String::from("g1f3"), 1)]);
    assert!(lookup_opening_db(&elsewhere, &board).is_none());
    let kingless = load("8/8/8/8/8/8/8/K7 w - - 0 1");
    assert_eq!(kingless.book_key(), None);
    let sound = load("4k3/8/8/8/8/8/8/4K2R b K - 0 1");
    assert!(sound.book_key().is_some());
    let king_left_in_check = load("4k3/8/8/8/8/8/8/4R2K w - - 0 1");
    assert_eq!(king_left_in_check.book_key(), None);
}
