use mystic_bot::base::defs::Board;
use mystic_bot::base::defs::PieceType;
use mystic_bot::base::uci::uci_to_uint;

const POSITIONS: [&str; 6] = [
    "rnbqkbnr/pppppppp/8/8/8/8/PPPPPPPP/RNBQKBNR w KQkq - 0 1",
    "r3k2r/p1ppqpb1/bn2pnp1/3PN3/1p2P3/2N2Q1p/PPPBBPPP/R3K2R w KQkq - 0 1",
    "rnbqkbnr/ppp1pppp/8/3pP3/8/8/PPPP1PPP/RNBQKBNR w KQkq d6 0 3",
    "n1n5/PPPk4/8/8/8/8/4Kppp/5N1N b - - 0 1",
    "8/2p5/3p4/KP5r/1R3p1k/8/4P1P1/8 w - - 12 57",
    "r3k2r/8/8/8/8/8/8/R3K2R b Kq - 99 120",
];

fn load(fen: &str) -> Board {
    Board::from_fen(&String::from(fen)).unwrap()
}

fn pieces_on(board: &Board, sq: u8) -> u32 {
    let kinds = [
        PieceType::King,
        PieceType::Queen,
        PieceType::Rook,
        PieceType::Bishop,
        PieceType::Knight,
        PieceType::Pawn,
    ];
    let mut n = 0;
    for kind in kinds {
        for black in [false, true] {
            if board.piece_map(kind, black) & (1u64 << (63 - sq)) != 0 {
                n += 1;
            }
        }
    }
    n
}

#[test]
fn written_positions_are_read_back() {
    for fen in POSITIONS {
        let board = load(fen);
        assert_eq!(board.to_fen(), fen);
        let again = Board::from_fen(&board.to_fen()).unwrap();
        assert_eq!(again, board);
    }
}

#[test]
fn successors_are_read_back_but_for_the_move_tag() {
    let board = load(POSITIONS[1]);
    for next in board.get_legal_moves().iter() {
        let again = Board::from_fen(&next.to_fen()).unwrap();
        assert_eq!(again.rooks, next.rooks);
        assert_eq!(again.knights, next.knights);
        assert_eq!(again.bishops, next.bishops);
        assert_eq!(again.queens, next.queens);
        assert_eq!(again.kings, next.kings);
        assert_eq!(again.pawns, next.pawns);
        assert_eq!(again.metadata, next.metadata);
        assert_eq!(again.eval, next.eval);
        assert_eq!(again.latest_move, 0);
    }
}

#[test]
fn successors_keep_the_form_of_a_position() {
    for fen in POSITIONS {
        let board = load(fen);
        for next in board.get_legal_moves().iter() {
            for sq in 0..64u8 {
                assert!(pieces_on(&next, sq) <= 1);
            }
            assert_eq!(next.count_pieces(PieceType::King, false), 1);
            assert_eq!(next.count_pieces(PieceType::King, true), 1);
            assert!(next.is_legal());
            assert_eq!(next.castling_rights() & !board.castling_rights(), 0);
            assert_ne!(next.side_to_move(), board.side_to_move());
            if next.en_passant_file().is_none() {
                assert_eq!((next.metadata >> 4) & 7, 0);
            }
        }
    }
}

#[test]
fn no_successor_leaves_the_mover_in_check() {
    let pinned = load("4k3/8/8/8/8/4r3/4B3/4K3 w - - 0 1");
    let moves = pinned.get_legal_moves();
    assert_eq!(moves.len(), 4);
    for next in moves.iter() {
        assert!(next.is_legal());
        assert_eq!(next.piece_at(12), Some((PieceType::Bishop, false)));
    }
}

#[test]
fn castling_needs_safe_squares() {
    let board = load("r3k2r/8/8/8/8/8/8/R2rK2R w KQkq - 0 1");
    let kingside = uci_to_uint("e1g1").unwrap() as u32;
    let queenside = uci_to_uint("e1c1").unwrap() as u32;
    assert!(board.in_check());
    assert!(board.apply(kingside).is_none());
    assert!(board.apply(queenside).is_none());
    let landing = load("r3k2r/8/8/8/8/6r1/8/R3K2R w KQkq - 0 1");
    assert!(landing.apply(kingside).is_none());
    assert!(landing.apply(queenside).is_some());
    let castled = landing.apply(queenside).unwrap();
    assert_eq!(castled.piece_at(2), Some((PieceType::King, false)));
    assert_eq!(castled.piece_at(3), Some((PieceType::Rook, false)));
    assert_eq!(castled.castling_rights() & 3, 0);
    assert_eq!(castled.castling_rights() & 12, 12);
}

#[test]
fn mirror_images_score_as_negatives() {
    let pairs = [
        (
            "r3k2r/p1ppqpb1/bn2pnp1/3PN3/1p2P3/2N2Q1p/PPPBBPPP/R3K2R w KQkq - 0 1",
            "r3k2r/pppbbppp/2n2q1P/1P2p3/3pn3/BN2PNP1/P1PPQPB1/R3K2R b KQkq - 0 1",
        ),
        ("8/2p5/3p4/KP5r/1R3p1k/8/4P1P1/8 w - - 0 1", "8/4p1p1/8/1r3P1K/kp5R/3P4/2P5/8 b - - 0 1"),
        ("4k3/8/8/8/8/8/PPPP4/4K3 w - - 0 1", "4k3/pppp4/8/8/8/8/8/4K3 b - - 0 1"),
    ];
    for (fen, mirror) in pairs {
        let a = load(fen);
        let b = load(mirror);
        assert_eq!(a.evaluate(false), -b.evaluate(false));
        assert_ne!(a.evaluate(false), 0);
    }
}
