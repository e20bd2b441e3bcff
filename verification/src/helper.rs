//! Counting the positions of the game tree.

use crate::base::defs::Board;
use vstd::prelude::*;

verus! {

/// The number of positions in the trees that hang below the first `n` of
/// `boards`, each `depth` plies deep.
pub open spec fn forest_size(boards: Seq<Board>, depth: nat, n: nat) -> nat
    decreases depth, n,
{
    if n == 0 {
        0
    } else {
        forest_size(boards, depth, (n - 1) as nat) + tree_size(boards[n - 1], depth)
    }
}

/// The number of positions that are reached from `board` in at most `depth`
/// legal moves, each counted as often as there are ways to it, `board`
/// itself being one of them.
pub open spec fn tree_size(board: Board, depth: nat) -> nat
    decreases depth, 0nat,
{
    if depth == 0 {
        1
    } else {
        1 + forest_size(board.successors(), (depth - 1) as nat, board.successors().len())
    }
}

/// A count that stops at the largest number that 64 bits hold.
pub open spec fn capped(n: int) -> u64 {
    if n > u64::MAX {
        u64::MAX
    } else {
        n as u64
    }
}

/// Adds to `num_nodes` the number of positions that are reached from
/// `curr_board` in at most `max_depth` moves.
pub fn generate_game_tree(curr_board: Board, max_depth: u32, num_nodes: &mut u64)
    ensures
        *final(num_nodes) == capped(*old(num_nodes) + tree_size(curr_board, max_depth as nat)),
    decreases max_depth,
{
    if *num_nodes < u64::MAX {
        *num_nodes = *num_nodes + 1;
    }
    if max_depth == 0 {
        return ;
    }
    let moves = curr_board.generate_all_moves();
    let mut i: usize = 0;
    while i < moves.len()
        invariant
            i <= moves@.len(),
            max_depth > 0,
            moves@ == curr_board.successors(),
            *num_nodes == capped(
                *old(num_nodes) + 1 + forest_size(moves@, (max_depth - 1) as nat, i as nat),
            ),
        decreases moves@.len() - i,
    {
        let next = moves.data[i];
        generate_game_tree(next, max_depth - 1, num_nodes);
        i = i + 1;
    }
}

} // verus!
