use mystic_bot::base::defs::Board;
use mystic_bot::base::defs::LegalMoveVec;
use std::collections::HashSet;

fn load(fen: &str) -> Board {
    match Board::from_fen(&String::from(fen)) {
        Some(board) => board,
        None => panic!("Error loading board: {}", fen),
    }
}

fn check_hashes(legal_boards: &LegalMoveVec, hashes: &[u64]) {
    let mut board_hashes: HashSet<u64> = HashSet::new();
    for &hash in hashes {
        board_hashes.insert(hash);
    }
    let mut actual_board_hashes: HashSet<u64> = HashSet::new();
    for board in legal_boards.iter() {
        let board_hash = board.hash();
        actual_board_hashes.insert(board_hash);
        assert!(
            board_hashes.contains(&board_hash),
            "Generated board hash {} not found in the predefined hashes.",
            board_hash
        );
    }
    for &hash in hashes {
        assert!(
            actual_board_hashes.contains(&hash),
            "Predefined board hash {} not found in the generated hashes.",
            hash
        );
    }
}

#[test]
fn test_generate_king_moves() {
    let board = load("r3k2r/ppp2ppp/2n2n2/2bppbq1/2BPPBQ1/2N2N2/PPP1KPPP/R6R b kq - 7 8");
    let legal_boards = board.generate_king_moves();
    let num_boards = 6;
    assert_eq!(
        legal_boards.len(),
        num_boards,
        "Expected {} legal moves, but got {}",
        num_boards,
        legal_boards.len()
    );
    let hashes = [
        518375765602632387,
        902887513263151204,
        11268089721562349499,
        11500744273320731964,
        6918353593318135188,
        7168607394553651974,
    ];
    check_hashes(&legal_boards, &hashes);
}

#[test]
fn test_generate_king_moves_2() {
    let board = load("r3k2r/4q2p/2Rp1ppn/1pbBp3/3nPBb1/3P1PPN/1PP1Q2P/4K2R b Kkq - 1 17");
    let legal_boards = board.generate_king_moves();
    let num_boards = 3;
    assert_eq!(
        legal_boards.len(),
        num_boards,
        "Expected {} legal moves, but got {}",
        num_boards,
        legal_boards.len()
    );
    let hashes = [15388847677281830013, 2479904804525528622, 3108398517801993946];
    check_hashes(&legal_boards, &hashes);
}

#[test]
fn test_generate_knight_moves() {
    let board = load("r1bqkb1r/pppp1ppp/8/2N1pN2/4P3/1n4nP/PPPP1PP1/R1BQKB1R b KQkq - 0 8");
    let legal_boards = board.generate_knight_moves();
    let num_boards = 12;
    assert_eq!(
        legal_boards.len(),
        num_boards,
        "Expected {} legal moves, but got {}",
        num_boards,
        legal_boards.len()
    );
    let hashes = [
        5820322162005059073,
        7248332367856294888,
        3343382540968063460,
        13734315367842045572,
        15671716411796014867,
        14442241140689718116,
        2629788050489721178,
        5902975122334121358,
        3148796746828343536,
        6017073384496795541,
        8083710378863667238,
        2302243076185838823,
    ];
    check_hashes(&legal_boards, &hashes);
}

#[test]
fn test_generate_pawn_moves() {
    let board = load("rn2k1nr/p2bbpP1/6q1/Pp1pp1Pp/2pNP3/7P/1PPP4/RNBQKB1R w KQkq b6 0 13");
    let legal_boards = board.generate_pawn_moves();
    let num_boards = 12;
    assert_eq!(
        legal_boards.len(),
        num_boards,
        "Expected {} legal moves, but got {}",
        num_boards,
        legal_boards.len()
    );
    let hashes = [
        10182643459555330204,
        13663192652653610187,
        400160999323510425,
        17836208204372180117,
        15042658352580646192,
        14264939703325350612,
        3672314799976141165,
        13327077293154044653,
        7923809918087169264,
        15917505594494679541,
        16548048423720039589,
        18040599868043189934,
    ];
    assert_eq!(hashes.len(), legal_boards.len());
    check_hashes(&legal_boards, &hashes);
}

#[test]
fn test_generate_rook_moves() {
    let board = load("rnbqkbnr/1p6/2p2p1p/pB1p4/P2pPB1p/2NQ1N2/1PP2PP1/R3K2R w KQkq - 0 10");
    let legal_boards = board.generate_rook_moves();
    let num_boards = 10;
    assert_eq!(
        legal_boards.len(),
        num_boards,
        "Expected {} legal moves, but got {}",
        num_boards,
        legal_boards.len()
    );
    let hashes = [
        7091049467665180278,
        647243355553057862,
        13314191749323641045,
        17145172113589615753,
        6321615291756588204,
        5841539080194952656,
        13567278288467709581,
        316115115972194632,
        10565316067822619270,
        15896617303301213466,
    ];
    check_hashes(&legal_boards, &hashes);
}
