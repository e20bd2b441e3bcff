use mystic_bot::base::defs::Board;
use mystic_bot::base::defs::GameState;
use mystic_bot::base::defs::PieceType;
use mystic_bot::helper::generate_game_tree;
use std::collections::BTreeSet;
use std::str::FromStr;

const POSITIONS: [&str; 12] = [
    "rnbqkbnr/pppppppp/8/8/8/8/PPPPPPPP/RNBQKBNR w KQkq - 0 1",
    "r3k2r/p1ppqpb1/bn2pnp1/3PN3/1p2P3/2N2Q1p/PPPBBPPP/R3K2R w KQkq - 0 1",
    "8/2p5/3p4/KP5r/1R3p1k/8/4P1P1/8 w - - 0 1",
    "r3k2r/Pppp1ppp/1b3nbN/nP6/BBP1P3/q4N2/Pp1P2PP/R2Q1RK1 w kq - 0 1",
    "rnbq1k1r/pp1Pbppp/2p5/8/2B5/8/PPP1NnPP/RNBQK2R w KQ - 1 8",
    "r4rk1/1pp1qppp/p1np1n2/2b1p1B1/2B1P1b1/P1NP1N2/1PP1QPPP/R4RK1 w - - 0 10",
    "rnbqkbnr/ppp1pppp/8/3pP3/8/8/PPPP1PPP/RNBQKBNR w KQkq d6 0 3",
    "n1n5/PPPk4/8/8/8/8/4Kppp/5N1N b - - 0 1",
    "r3k2r/8/8/8/8/8/4r3/R3K2R w KQkq - 0 1",
    "r3k2r/ppp2ppp/2n2n2/2bppbq1/2BPPBQ1/2N2N2/PPP1KPPP/R6R b kq - 7 8",
    "8/8/8/2k5/2pP4/8/B7/4K3 b - d3 0 3",
    "6k1/5ppp/8/8/8/8/5PPP/R5K1 w - - 0 1",
];

fn load(fen: &str) -> Board {
    Board::from_fen(&String::from(fen)).unwrap()
}

fn count_with_chess(board: &chess::Board, depth: u32) -> u64 {
    let mut nodes = 1;
    if depth == 0 {
        return nodes;
    }
    for m in chess::MoveGen::new_legal(board) {
        nodes += count_with_chess(&board.make_move_new(m), depth - 1);
    }
    nodes
}

#[test]
fn legal_moves_agree_with_the_chess_crate() {
    for fen in POSITIONS {
        let ours: BTreeSet<String> = load(fen)
            .get_legal_moves()
            .iter()
            .into_iter()
            .map(|next| next.get_next_uci())
            .collect();
        let theirs: BTreeSet<String> = chess::MoveGen::new_legal(&chess::Board::from_str(fen).unwrap())
            .map(|m| m.to_string())
            .collect();
        assert_eq!(ours, theirs, "in {}", fen);
    }
}

#[test]
fn game_trees_agree_with_the_chess_crate() {
    for fen in POSITIONS {
        let mut ours: u64 = 0;
        generate_game_tree(load(fen), 2, &mut ours);
        let theirs = count_with_chess(&chess::Board::from_str(fen).unwrap(), 2);
        assert_eq!(ours, theirs, "in {}", fen);
    }
}

#[test]
fn check_and_mate_agree_with_the_chess_crate() {
    for fen in POSITIONS {
        let board = load(fen);
        for next in board.get_legal_moves().iter() {
            let theirs = chess::Board::from_str(&next.to_fen()).unwrap();
            assert_eq!(next.in_check(), theirs.checkers().popcnt() > 0, "in {}", next.to_fen());
            let state = match theirs.status() {
                chess::BoardStatus::Ongoing => GameState::Playable,
                chess::BoardStatus::Checkmate => GameState::Checkmate,
                chess::BoardStatus::Stalemate => GameState::Stalemate,
            };
            assert_eq!(next.game_state(), state, "in {}", next.to_fen());
        }
    }
}

#[test]
fn reading_agrees_with_the_fen_crate() {
    for text in POSITIONS {
        let ours = load(text);
        let theirs = fen::BoardState::from_fen(text).unwrap();
        for sq in 0..64u8 {
            let here = ours.piece_at(sq);
            let there = theirs.pieces[sq as usize].as_ref().map(|p| {
                let kind = match p.kind {
                    fen::PieceKind::King => PieceType::King,
                    fen::PieceKind::Queen => PieceType::Queen,
                    fen::PieceKind::Rook => PieceType::Rook,
                    fen::PieceKind::Bishop => PieceType::Bishop,
                    fen::PieceKind::Knight => PieceType::Knight,
                    fen::PieceKind::Pawn => PieceType::Pawn,
                };
                (kind, p.color == fen::Color::Black)
            });
            assert_eq!(here, there, "square {} of {}", sq, text);
        }
        let f = ours.read_bookkeeping();
        assert_eq!(f.white_to_move, theirs.side_to_play == fen::Color::White);
        assert_eq!(f.white_king_side, theirs.white_can_oo);
        assert_eq!(f.white_queen_side, theirs.white_can_ooo);
        assert_eq!(f.black_king_side, theirs.black_can_oo);
        assert_eq!(f.black_queen_side, theirs.black_can_ooo);
        assert_eq!(ours.en_passant_file(), theirs.en_passant_square.map(|sq| sq & 7));
        assert_eq!(f.half_moves as u64, theirs.halfmove_clock);
        assert_eq!(f.full_moves as u64, theirs.fullmove_number);
        assert_eq!(ours.to_fen(), theirs.to_fen());
    }
}

#[test]
fn the_book_key_is_the_hash_of_the_chess_crate() {
    for fen in POSITIONS {
        let ours = load(fen);
        let theirs = chess::Board::from_str(fen).unwrap();
        assert_eq!(ours.book_key(), Some(theirs.get_hash()), "{}", fen);
    }
    let start = load(POSITIONS[0]);
    let after = start.apply(mystic_bot::base::uci::uci_to_uint("e2e4").unwrap() as u32).unwrap();
    let moved = chess::Board::from_str(POSITIONS[0])
        .unwrap()
        .make_move_new(chess::ChessMove::from_str("e2e4").unwrap());
    assert_eq!(after.book_key(), Some(moved.get_hash()));
    assert_ne!(after.book_key(), start.book_key());
}
