use mystic_bot::base::defs::Board;
use mystic_bot::helper::generate_game_tree;

#[test]
fn test_perft() {
    let fen = String::from("rnbqkbnr/pppppppp/8/8/8/8/PPPPPPPP/RNBQKBNR w KQkq - 0 1");
    let board = match Board::from_fen(&fen) {
        Some(board) => board,
        None => panic!("Failed to load the board, exiting."),
    };
    let correct_num_nodes: [u64; 5] = [1, 20, 400, 8902, 197281];
    let mut curr_nodes: u64 = 0;
    for max_depth in 0..5 {
        let mut num_nodes: u64 = 0;
        generate_game_tree(board, max_depth, &mut num_nodes);
        println!("Depth: {}", max_depth);
        println!("Number of Nodes Traversed: {}", num_nodes);
        curr_nodes += correct_num_nodes[max_depth as usize];
        assert_eq!(
            num_nodes, curr_nodes,
            "Correct Number of Nodes: {}, But Found: {}, for Depth: {}",
            num_nodes, curr_nodes, max_depth
        );
    }
}

#[test]
fn perft_of_a_position_with_every_kind_of_move() {
    let fen = String::from("r3k2r/p1ppqpb1/bn2pnp1/3PN3/1p2P3/2N2Q1p/PPPBBPPP/R3K2R w KQkq - 0 1");
    let board = Board::from_fen(&fen).unwrap();
    let mut one: u64 = 0;
    generate_game_tree(board, 1, &mut one);
    assert_eq!(one, 1 + 48);
    let mut two: u64 = 0;
    generate_game_tree(board, 2, &mut two);
    assert_eq!(two, 1 + 48 + 2039);
}

#[test]
fn perft_with_promotions() {
    let fen = String::from("n1n5/PPPk4/8/8/8/8/4Kppp/5N1N b - - 0 1");
    let board = Board::from_fen(&fen).unwrap();
    let mut one: u64 = 0;
    generate_game_tree(board, 1, &mut one);
    assert_eq!(one, 1 + 24);
    let mut two: u64 = 0;
    generate_game_tree(board, 2, &mut two);
    assert_eq!(two, 1 + 24 + 496);
}

fn leaves(board: Board, depth: u32) -> u64 {
    let mut upto: u64 = 0;
    generate_game_tree(board, depth, &mut upto);
    let mut below: u64 = 0;
    if depth > 0 {
        generate_game_tree(board, depth - 1, &mut below);
    }
    upto - below
}

fn check_fifth_ply(expected: &[(&str, u64)]) {
    let start = Board::from_fen(&String::from(
        "rnbqkbnr/pppppppp/8/8/8/8/PPPPPPPP/RNBQKBNR w KQkq - 0 1",
    ))
    .unwrap();
    for (uci, count) in expected {
        let tag = mystic_bot::base::uci::uci_to_uint(uci).unwrap() as u32;
        let next = start.apply(tag).unwrap();
        assert_eq!(leaves(next, 4), *count, "after {}", uci);
    }
}

#[test]
fn fifth_ply_behind_the_moves_of_the_queen_side_pawns() {
    check_fifth_ply(&[
        ("a2a3", 181046),
        ("a2a4", 217832),
        ("b2b3", 215255),
        ("b2b4", 216145),
        ("c2c3", 222861),
    ]);
}

#[test]
fn fifth_ply_behind_the_moves_of_the_centre_pawns() {
    check_fifth_ply(&[
        ("c2c4", 240082),
        ("d2d3", 328511),
        ("d2d4", 361790),
        ("e2e3", 402988),
    ]);
}

#[test]
fn fifth_ply_behind_the_moves_of_the_king_side_pawns() {
    check_fifth_ply(&[
        ("e2e4", 405385),
        ("f2f3", 178889),
        ("f2f4", 198473),
        ("g2g3", 217210),
        ("g2g4", 214048),
    ]);
}

#[test]
fn fifth_ply_behind_the_moves_of_the_rook_pawn_and_the_knights() {
    check_fifth_ply(&[
        ("h2h3", 181044),
        ("h2h4", 218829),
        ("b1a3", 198572),
        ("b1c3", 234656),
        ("g1f3", 233491),
        ("g1h3", 198502),
    ]);
}
