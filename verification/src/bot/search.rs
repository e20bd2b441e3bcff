//! The search: negamax with alpha-beta pruning under a deadline, deepened
//! step by step, with a transposition table, a repetition tracker and an
//! opening book.

use crate::base::arrange::arranged;
use crate::base::arrange::landing;
use crate::base::defs::Board;
use crate::base::defs::LegalMoveVec;
use crate::base::order::lemma_tag_found;
use crate::base::order::lemma_tag_place;
use crate::base::order::move_by_tag;
use crate::base::order::tag_place;
use crate::bot::board::priority_of;
use crate::bot::clock::allotted_time;
use crate::bot::clock::time_budget;
use crate::bot::clock::Deadline;
use crate::bot::evaluate::MATE_SCORE;
use crate::bot::history::RepetitionHistory;
use crate::bot::lookup::book_gives;
use crate::bot::lookup::book_silent;
use crate::bot::lookup::book_sure;
use crate::bot::lookup::find_move;
use crate::bot::lookup::lookup_opening_db;
use crate::bot::lookup::OpeningBook;
use crate::bot::table::stored;
use crate::bot::table::TranspositionTable;
use crate::bot::tables::piece_value;
use crate::bot::tables::piece_worth;
use crate::bot::types::BoundType;
use crate::bot::types::Statistics;
use crate::bot::types::TTEntry;
use crate::bot::value::best_of;
use crate::bot::value::best_quiet;
use crate::bot::value::lemma_best_quiet_grows;
use crate::bot::value::lemma_best_quiet_same_moves;
use crate::bot::value::quiet_reply;
use crate::bot::value::quiet_value;
use crate::bot::value::tactical_successors;
use crate::bot::value::bumped;
use crate::bot::value::game_value;
use crate::bot::value::lemma_best_of_grows;
use crate::bot::value::lemma_best_of_same_moves;
use crate::bot::value::reply_value;
use std::collections::HashMap;
use vstd::prelude::*;
use vstd::seq_lib::to_multiset_build;
use vstd::seq_lib::to_multiset_insert;

verus! {

/// No score of the search lies outside this limit.
pub const SCORE_LIMIT: i32 = 256_000_000;

/// The window of a search that is open on both sides.
pub const INFINITE: i32 = 2_147_483_646;

/// The deepest search.
pub const MAX_DEPTH: u8 = 64;

/// The draw by repetition.
pub const REPETITION_LIMIT: u32 = 3;

/// How deep the search of captures goes.
pub const QUIET_SEARCH_DEPTH: u8 = 4;

/// What belongs to one game.
pub struct EngineState {
    pub game_id: String,
    pub current_board: Board,
    pub history: RepetitionHistory,
    pub statistics: HashMap<u64, Statistics>,
    pub transposition_table: TranspositionTable,
}

/// What a search hands back: the tag of the best move, if one was found,
/// the nodes that were visited, the time that was taken, the score in
/// hundredths of a pawn for white, and the deepest ply that was reached;
/// then the depth of the last search that was finished in time, whether
/// that search has worked out every score itself, without the transposition
/// table, and whether the deadline has cut the search short.
#[derive(Debug, Clone, Copy, PartialEq, Eq, Structural)]
pub struct SearchResult {
    pub best_move: Option<u32>,
    pub nodes: u64,
    pub elapsed_ms: u128,
    pub score: i32,
    pub depth: u8,
    pub iterations: u8,
    pub exact: bool,
    pub timed_out: bool,
}

/// The number that stands for the side to move in `board`: 1 for white, -1
/// for black.
pub open spec fn color_of(board: Board) -> int {
    if board.white_to_move() {
        1
    } else {
        -1
    }
}

/// What a search has met on its way: how often it has cut a node short,
/// whether the deadline has passed, and whether an entry of the
/// transposition table has settled a node.
#[derive(Debug, Clone, Copy, PartialEq, Eq, Structural)]
pub struct SearchTrace {
    pub cutoffs: u64,
    pub timed_out: bool,
    pub table_used: bool,
}

impl SearchTrace {
    /// The search has gone its whole way and has worked out every score
    /// itself.
    pub open spec fn clean(&self) -> bool {
        !self.timed_out && !self.table_used
    }

    /// The trace of a search that has not begun.
    pub fn new() -> (r: SearchTrace)
        ensures
            r.clean(),
            r.cutoffs == 0,
    {
        SearchTrace { cutoffs: 0, timed_out: false, table_used: false }
    }
}

/// How often each position has occurred, as the tracker has it.
pub open spec fn counts_of(history: RepetitionHistory) -> spec_fn(u64) -> nat {
    |h: u64| history.count(h)
}

/// What a search within the window from `alpha` to `beta` may hand back for
/// a node of the given value: a score within the window is the value, a
/// score at or below `alpha` is no less than the value, and a score at or
/// above `beta` is no more than the value.
pub open spec fn within_bounds(value: int, alpha: int, beta: int, score: int) -> bool {
    (score <= alpha ==> value <= score) && (score >= beta ==> value >= score) && (alpha < score
        < beta ==> value == score)
}

/// Whether the move with the given tag is one of the best of `board`: it
/// leads to a successor that gives the side to move the value of the
/// position.
pub open spec fn is_best_move(
    board: Board,
    depth: nat,
    color: int,
    seen: spec_fn(u64) -> nat,
    tag: u32,
) -> bool {
    exists|j: int|
        0 <= j < board.successors().len() && (#[trigger] board.successors()[j]).latest_move
            == tag && depth > 0 && reply_value(
            board.successors()[j],
            (depth - 1) as nat,
            color,
            seen,
        ) == game_value(board, depth, color, seen)
}

/// The positions of a list of moves with their priorities.
pub open spec fn boards_of(moves: Seq<(Board, i32)>) -> Seq<Board> {
    Seq::new(moves.len(), |i: int| moves[i].0)
}

/// A score brought within the limit.
pub open spec fn clamped(v: i32) -> i32 {
    if v < -SCORE_LIMIT {
        (-SCORE_LIMIT) as i32
    } else if v > SCORE_LIMIT {
        SCORE_LIMIT
    } else {
        v
    }
}

/// What a table entry settles for a node with the window from `alpha` to
/// `beta`: an exact value settles it, a lower bound does where it is at
/// least `beta`, an upper bound where it is at most `alpha`.
pub open spec fn table_answer(entry: Option<TTEntry>, alpha: i32, beta: i32) -> Option<
    (Option<u32>, i32),
> {
    match entry {
        Some(e) => {
            let settled = match e.flag {
                BoundType::Exact => true,
                BoundType::LowerBound => e.value >= beta,
                BoundType::UpperBound => e.value <= alpha,
            };
            if settled {
                Some((e.best_move, clamped(e.value)))
            } else {
                None
            }
        },
        None => None,
    }
}

/// What the value of a finished node bounds: at most the `alpha` that the
/// node began with, it is an upper bound; at least `beta`, a lower bound;
/// otherwise it is exact.
pub open spec fn bound_of(best: i32, alpha: i32, beta: i32) -> BoundType {
    if best <= alpha {
        BoundType::UpperBound
    } else if best >= beta {
        BoundType::LowerBound
    } else {
        BoundType::Exact
    }
}

/// The score of a node at which the game is over or the search need not go
/// on, seen from the side to move, or nothing where the search goes on.
/// Without a move the side to move is mated or stalemated: a mate counts the
/// more the more depth is left. The game is drawn by the half-move clock,
/// for want of material, and when the position has occurred three times.
pub open spec fn terminal_outcome(
    board: Board,
    depth: u8,
    color: i32,
    repetition_count: u32,
    move_count: nat,
) -> Option<int> {
    if move_count == 0 {
        Some(color * board.terminal_eval() * (depth + 1))
    } else if board.drawn() || repetition_count >= REPETITION_LIMIT {
        Some(0)
    } else {
        None
    }
}

/// Whether the search of a node goes on to its moves: there is depth left,
/// and the game is neither over nor drawn there.
pub open spec fn goes_on(board: Board, depth: u8, color: i32, history: RepetitionHistory) -> bool {
    depth > 0 && terminal_outcome(
        board,
        depth,
        color,
        history.count(board.key_value()) as u32,
        board.successors().len(),
    ) is None
}

/// Whether the transposition table of `state` leaves the node of `board`
/// open when `depth` plies are left and the window is from `alpha` to
/// `beta`: it has no entry for the node that settles it.
pub open spec fn unsettled(
    board: Board,
    depth: u8,
    alpha: i32,
    beta: i32,
    state: EngineState,
) -> bool {
    table_answer(state.transposition_table.lookup((board.key_value(), depth)), alpha, beta) is None
}

/// What a node gives without looking at its moves, or nothing where it
/// goes on to them: what the transposition table settles; else the score
/// of a game that is over or drawn, with no move; else, with no depth left,
/// the static score for the side to move, with no move.
pub open spec fn at_once(
    board: Board,
    depth: u8,
    alpha: i32,
    beta: i32,
    color: i32,
    state: EngineState,
) -> Option<(Option<u32>, i32)> {
    let answer = table_answer(
        state.transposition_table.lookup((board.key_value(), depth)),
        alpha,
        beta,
    );
    let outcome = terminal_outcome(
        board,
        depth,
        color,
        state.history.count(board.key_value()) as u32,
        board.successors().len(),
    );
    if answer is Some {
        answer
    } else if outcome is Some {
        Some((None, outcome->0 as i32))
    } else if depth == 0 {
        Some((None, (color * board.static_eval()) as i32))
    } else {
        None
    }
}

/// Whether `found` is the tag of a legal move of `board`.
pub open spec fn is_move_of(board: Board, found: Option<u32>) -> bool {
    found matches Some(tag) && exists|j: int|
        0 <= j < board.successors().len() && (#[trigger] board.successors()[j]).latest_move == tag
}

/// Whether a list is sorted by falling priority.
pub open spec fn by_priority(s: Seq<(Board, i32)>) -> bool {
    forall|i: int, j: int| 0 <= i < j < s.len() ==> s[i].1 >= s[j].1
}

/// Whether the move that leads from `board` to `next` is looked at when
/// only captures and promotions are: it is one of them, and it does not
/// give a piece for one of lesser worth.
pub open spec fn is_tactical(board: Board, next: Board) -> bool {
    let tags = board.tags_of(&next);
    (tags.promotion || tags.capture) && !(board.captures(&next) && (board.cell_on(
        crate::bot::board::tag_from(next.latest_move as int),
    ) matches Some((kind, _)) && board.taken_value(&next) < piece_value(kind)))
}

/// What a table entry settles for a node.
pub fn probe_entry(entry: Option<TTEntry>, alpha: i32, beta: i32) -> (r: Option<
    (Option<u32>, i32),
>)
    ensures
        r == table_answer(entry, alpha, beta),
        r matches Some((_, v)) ==> -SCORE_LIMIT <= v <= SCORE_LIMIT,
{
    match entry {
        Some(e) => {
            let settled = match e.flag {
                BoundType::Exact => true,
                BoundType::LowerBound => e.value >= beta,
                BoundType::UpperBound => e.value <= alpha,
            };
            if settled {
                let v = if e.value < -SCORE_LIMIT {
                    -SCORE_LIMIT
                } else if e.value > SCORE_LIMIT {
                    SCORE_LIMIT
                } else {
                    e.value
                };
                Some((e.best_move, v))
            } else {
                None
            }
        },
        None => None,
    }
}

/// What the value of a finished node bounds.
pub fn bound_kind(best: i32, alpha: i32, beta: i32) -> (r: BoundType)
    ensures
        r == bound_of(best, alpha, beta),
{
    if best <= alpha {
        BoundType::UpperBound
    } else if best >= beta {
        BoundType::LowerBound
    } else {
        BoundType::Exact
    }
}

fn scaled(value: i32, color: i32, depth: u8) -> (r: i32)
    requires
        -MATE_SCORE <= value <= MATE_SCORE,
        color == 1 || color == -1,
    ensures
        r == color * value * (depth + 1),
        -SCORE_LIMIT <= r <= SCORE_LIMIT,
{
    let k: i32 = depth as i32 + 1;
    assert(-256_000_000 <= value * k <= 256_000_000) by (nonlinear_arith)
        requires
            -1_000_000 <= value <= 1_000_000,
            1 <= k <= 256,
    ;
    let seen = if color == 1 {
        value
    } else {
        -value
    };
    assert(seen * k == color * value * (depth + 1)) by (nonlinear_arith)
        requires
            seen == color * value,
            k == depth + 1,
    ;
    assert(-256_000_000 <= seen * k <= 256_000_000) by (nonlinear_arith)
        requires
            -1_000_000 <= seen <= 1_000_000,
            1 <= k <= 256,
    ;
    seen * k
}

/// The order in which moves are looked at: by falling priority.
pub open spec fn priority_order() -> spec_fn((Board, i32), (Board, i32)) -> bool {
    |a: (Board, i32), b: (Board, i32)| a.1 >= b.1
}

fn sort_by_priority(list: Vec<(Board, i32)>) -> (out: Vec<(Board, i32)>)
    ensures
        out@ == arranged(list@, priority_order(), list@.len()),
        by_priority(out@),
        out@.to_multiset() == list@.to_multiset(),
        out@.len() == list@.len(),
        forall|x: (Board, i32)| out@.contains(x) == list@.contains(x),
{
    let mut out: Vec<(Board, i32)> = Vec::new();
    let mut i: usize = 0;
    let n = list.len();
    assert(list@.take(0) =~= Seq::<(Board, i32)>::empty());
    while i < n
        invariant
            i <= n,
            n == list@.len(),
            out@.len() == i,
            out@ == arranged(list@, priority_order(), i as nat),
            by_priority(out@),
            out@.to_multiset() == list@.take(i as int).to_multiset(),
        decreases n - i,
    {
        let x = list[i];
        let mut p: usize = 0;
        let mut searching = true;
        while searching && p < out.len()
            invariant
                p <= out@.len(),
                forall|k: int| 0 <= k < p ==> (#[trigger] out@[k]).1 >= x.1,
                !searching ==> p < out@.len() && out@[p as int].1 < x.1,
                landing(out@, x, priority_order(), 0) == landing(
                    out@,
                    x,
                    priority_order(),
                    p as nat,
                ),
            decreases out@.len() - p + (if searching {
                1int
            } else {
                0int
            }),
        {
            if out[p].1 >= x.1 {
                p = p + 1;
            } else {
                searching = false;
            }
        }
        let ghost before = out@;
        out.insert(p, x);
        proof {
            to_multiset_insert(before, p as int, x);
            to_multiset_build(list@.take(i as int), x);
            assert(list@.take(i + 1) =~= list@.take(i as int).push(x));
            assert forall|a: int, b: int| 0 <= a < b < out@.len() implies out@[a].1
                >= out@[b].1 by {
                if a < p && b > p {
                    assert(out@[a] == before[a]);
                    assert(out@[b] == before[b - 1]);
                } else if a < p && b == p {
                    assert(out@[a] == before[a]);
                } else if a == p {
                    assert(out@[b] == before[b - 1]);
                    assert(before[p as int].1 >= before[b - 1].1 || b - 1 == p);
                } else if b < p {
                    assert(out@[a] == before[a]);
                    assert(out@[b] == before[b]);
                } else {
                    assert(out@[a] == before[a - 1]);
                    assert(out@[b] == before[b - 1]);
                }
            }
        }
        i = i + 1;
    }
    assert(list@.take(n as int) =~= list@);
    proof {
        out@.to_multiset_ensures();
        list@.to_multiset_ensures();
        assert forall|x: (Board, i32)| out@.contains(x) == list@.contains(x) by {
            assert(out@.to_multiset().count(x) == list@.to_multiset().count(x));
        }
    }
    out
}

fn tactical(board: &Board, next: &Board) -> (r: bool)
    ensures
        r == is_tactical(*board, *next),
{
    let tags = board.classify_move(next);
    if !tags.promotion && !tags.capture {
        return false;
    }
    match board.capture_pieces(next) {
        Some((attacker, victim)) => !(piece_worth(victim) < piece_worth(attacker)),
        None => true,
    }
}

/// The list with the first move that has the given tag brought to the front;
/// the list as it is where no move has that tag.
pub fn promote_move(list: Vec<(Board, i32)>, tag: u32) -> (out: Vec<(Board, i32)>)
    ensures
        out@.len() == list@.len(),
        forall|x: (Board, i32)| out@.contains(x) == list@.contains(x),
        (exists|k: int| 0 <= k < list@.len() && (#[trigger] list@[k]).0.latest_move == tag)
            ==> out@[0].0.latest_move == tag,
        (forall|k: int| 0 <= k < list@.len() ==> (#[trigger] list@[k]).0.latest_move != tag)
            ==> out@ == list@,
{
    let mut k: usize = 0;
    while k < list.len()
        invariant
            k <= list@.len(),
            forall|j: int| 0 <= j < k ==> (#[trigger] list@[j]).0.latest_move != tag,
        decreases list@.len() - k,
    {
        if list[k].0.latest_move == tag {
            let mut out = list;
            let ghost before = out@;
            let x = out.remove(k);
            let ghost middle = out@;
            out.insert(0, x);
            proof {
                assert forall|y: (Board, i32)| out@.contains(y) == before.contains(y) by {
                    if out@.contains(y) {
                        let i = choose|i: int| 0 <= i < out@.len() && out@[i] == y;
                        if i == 0 {
                            assert(before[k as int] == y);
                        } else {
                            assert(middle[i - 1] == y);
                            if i - 1 < k {
                                assert(before[i - 1] == y);
                            } else {
                                assert(before[i] == y);
                            }
                        }
                    }
                    if before.contains(y) {
                        let i = choose|i: int| 0 <= i < before.len() && before[i] == y;
                        if i == k {
                            assert(out@[0] == y);
                        } else if i < k {
                            assert(middle[i] == y);
                            assert(out@[i + 1] == y);
                        } else {
                            assert(middle[i - 1] == y);
                            assert(out@[i] == y);
                        }
                    }
                }
            }
            return out;
        }
        k = k + 1;
    }
    list
}

/// A successor of `board` with the priority of the move that leads to it.
#[verifier::opaque]
pub open spec fn scored_pair(board: Board, next: Board) -> (Board, i32) {
    (next, priority_of(board.tags_of(&next), board.taken_value(&next)) as i32)
}

/// Whether a successor of `board` is looked at: each is, unless only
/// captures and promotions are asked for.
#[verifier::opaque]
pub open spec fn admitted(board: Board, only_noise: bool, next: Board) -> bool {
    !only_noise || is_tactical(board, next)
}

/// The first `n` successors of `board` that are looked at, each with its
/// priority, in the order in which they are produced.
pub open spec fn candidates(board: Board, only_noise: bool, n: nat) -> Seq<(Board, i32)>
    decreases n,
{
    if n == 0 {
        Seq::empty()
    } else {
        let before = candidates(board, only_noise, (n - 1) as nat);
        if admitted(board, only_noise, board.successors()[n - 1]) {
            before.push(scored_pair(board, board.successors()[n - 1]))
        } else {
            before
        }
    }
}

/// Whether `pair` is one of the successors in `all` that are looked at,
/// with its priority.
pub open spec fn from_successor(
    board: Board,
    only_noise: bool,
    all: Seq<Board>,
    pair: (Board, i32),
) -> bool {
    exists|j: int|
        0 <= j < all.len() && admitted(board, only_noise, #[trigger] all[j]) && pair
            == scored_pair(board, all[j])
}

/// The legal successors of `board` with their priorities, the most
/// promising first; with `only_noise` only those by a capture or a promotion
/// that does not lose material.
pub fn get_prioritized_moves(board: &Board, only_noise: bool) -> (r: Vec<(Board, i32)>)
    ensures
        r@ == arranged(
            candidates(*board, only_noise, board.successors().len()),
            priority_order(),
            candidates(*board, only_noise, board.successors().len()).len(),
        ),
        by_priority(r@),
        forall|i: int|
            0 <= i < r@.len() ==> from_successor(
                *board,
                only_noise,
                board.successors(),
                #[trigger] r@[i],
            ),
        forall|j: int|
            0 <= j < board.successors().len() && admitted(
                *board,
                only_noise,
                #[trigger] board.successors()[j],
            ) ==> r@.contains(scored_pair(*board, board.successors()[j])),
        !only_noise ==> r@.len() == board.successors().len(),
{
    let moves = board.generate_all_moves();
    let ghost all = moves@;
    let mut pairs: Vec<(Board, i32)> = Vec::new();
    let mut k: usize = 0;
    while k < moves.data.len()
        invariant
            k <= moves@.len(),
            moves@ == all,
            all == board.successors(),
            pairs@ == candidates(*board, only_noise, k as nat),
            pairs@.len() <= k,
            !only_noise ==> pairs@.len() == k,
            forall|i: int|
                0 <= i < pairs@.len() ==> from_successor(
                    *board,
                    only_noise,
                    all,
                    #[trigger] pairs@[i],
                ),
            forall|j: int|
                0 <= j < k && admitted(*board, only_noise, #[trigger] all[j]) ==> pairs@.contains(
                    scored_pair(*board, all[j]),
                ),
        decreases moves@.len() - k,
    {
        let next = moves.data[k];
        let take = !only_noise || tactical(board, &next);
        assert(take == admitted(*board, only_noise, next)) by {
            reveal(admitted);
        }
        assert(next == all[k as int]);
        if take {
            let priority = board.move_priority(&next);
            assert((next, priority) == scored_pair(*board, next)) by {
                reveal(scored_pair);
            }
            let ghost before = pairs@;
            pairs.push((next, priority));
            assert(from_successor(*board, only_noise, all, pairs@[pairs@.len() - 1]));
            assert forall|i: int| 0 <= i < pairs@.len() implies from_successor(
                *board,
                only_noise,
                all,
                #[trigger] pairs@[i],
            ) by {
                if i < before.len() {
                    assert(pairs@[i] == before[i]);
                }
            }
            assert forall|j: int|
                0 <= j < k + 1 && admitted(
                    *board,
                    only_noise,
                    #[trigger] all[j],
                ) implies pairs@.contains(scored_pair(*board, all[j])) by {
                if j < k {
                    assert(before.contains(scored_pair(*board, all[j])));
                    let m = choose|m: int|
                        0 <= m < before.len() && before[m] == scored_pair(*board, all[j]);
                    assert(pairs@[m] == before[m]);
                } else {
                    assert(pairs@[pairs@.len() - 1] == scored_pair(*board, all[j]));
                }
            }
        }
        k = k + 1;
    }
    let sorted = sort_by_priority(pairs);
    proof {
        assert forall|i: int| 0 <= i < sorted@.len() implies from_successor(
            *board,
            only_noise,
            all,
            #[trigger] sorted@[i],
        ) by {
            assert(sorted@.contains(sorted@[i]));
            assert(pairs@.contains(sorted@[i]));
            let m = choose|m: int| 0 <= m < pairs@.len() && pairs@[m] == sorted@[i];
            assert(from_successor(*board, only_noise, all, pairs@[m]));
        }
    }
    sorted
}

/// The score of a node at which the game is over or drawn, with no move, or
/// nothing where the search goes on. A score that is found is stored in the
/// transposition table as exact; otherwise the table is left alone.
pub fn is_terminal(
    board: &Board,
    board_hash: u64,
    depth: u8,
    color: i32,
    repetition_count: u32,
    move_count: usize,
    engine_state: &mut EngineState,
) -> (r: Option<(Option<u32>, i32)>)
    requires
        color == 1 || color == -1,
    ensures
        match terminal_outcome(*board, depth, color, repetition_count, move_count as nat) {
            Some(v) => r == Some((None::<u32>, v as i32)) && -SCORE_LIMIT <= v <= SCORE_LIMIT
                && final(engine_state).transposition_table.entries() == stored(
                old(engine_state).transposition_table.entries(),
                old(engine_state).transposition_table.capacity(),
                (board_hash, depth),
                TTEntry { value: v as i32, depth, flag: BoundType::Exact, best_move: None },
            ),
            None => r is None && final(engine_state).transposition_table.entries() == old(
                engine_state,
            ).transposition_table.entries(),
        },
        final(engine_state).transposition_table.capacity() == old(
            engine_state,
        ).transposition_table.capacity(),
        old(engine_state).transposition_table.well_formed() ==> final(engine_state)
            .transposition_table.well_formed(),
        final(engine_state).history == old(engine_state).history,
        final(engine_state).current_board == old(engine_state).current_board,
{
    let score = if move_count == 0 {
        scaled(board.evaluate(true), color, depth)
    } else if board.is_drawn() || repetition_count >= REPETITION_LIMIT {
        0
    } else {
        return None;
    };
    engine_state.transposition_table.put(
        (board_hash, depth),
        TTEntry { value: score, depth, flag: BoundType::Exact, best_move: None },
    );
    Some((None, score))
}

/// The value of `board` for the side to move, searched `depth` plies deep
/// within the window from `alpha` to `beta`, and the tag of the best move
/// where one was found. `color` is 1 where white is to move and -1 where
/// black is. A node at which the deadline has passed gives no move and the
/// score 0, and the trace says so; it is not counted and changes nothing.
/// The moves are looked at by falling priority, behind the move that the
/// transposition table has for the node, and the first of them is the best
/// until a later one scores higher. Every position that the search steps
/// into is counted in the repetition tracker while the search is below it
/// and no longer: when the search returns, every count is what it was, and
/// no entry has come to the tracker.
///
/// Where the deadline has not passed and no table entry has settled a node,
/// the score bounds the value of the position as the window allows: within
/// the window it is the value. A node that has gone on to its moves hands
/// back a move, and the table then holds the score under the key of the
/// position and the depth, with the move and with what the score bounds.
pub fn negamax(
    board: &Board,
    alpha: i32,
    beta: i32,
    nodes: &mut u64,
    deadline: &Deadline,
    engine_state: &mut EngineState,
    depth: u8,
    current_depth: u8,
    max_depth_reached: &mut u8,
    color: i32,
    trace: &mut SearchTrace,
) -> (r: (Option<u32>, i32))
    requires
        color == 1 || color == -1,
        alpha > i32::MIN,
        beta > i32::MIN,
    ensures
        final(engine_state).history.same_counts(&old(engine_state).history),
        final(engine_state).transposition_table.capacity() == old(
            engine_state,
        ).transposition_table.capacity(),
        old(engine_state).transposition_table.well_formed() ==> final(engine_state)
            .transposition_table.well_formed(),
        final(engine_state).current_board == old(engine_state).current_board,
        final(engine_state).history.restored(&old(engine_state).history),
        -SCORE_LIMIT <= r.1 <= SCORE_LIMIT,
        *final(nodes) >= *old(nodes),
        !final(trace).timed_out ==> *final(nodes) > *old(nodes) || *old(nodes) == u64::MAX,
        *final(max_depth_reached) >= *old(max_depth_reached),
        !final(trace).timed_out ==> *final(max_depth_reached) >= current_depth,
        old(trace).timed_out ==> final(trace).timed_out,
        old(trace).table_used ==> final(trace).table_used,
        final(trace).cutoffs >= old(trace).cutoffs,
        alpha < beta && final(trace).clean() ==> within_bounds(
            game_value(
                *board,
                depth as nat,
                color as int,
                counts_of(old(engine_state).history),
            ),
            alpha as int,
            beta as int,
            r.1 as int,
        ),
        alpha < r.1 < beta && final(trace).clean() ==> (r.0 matches Some(tag) ==> is_best_move(
            *board,
            depth as nat,
            color as int,
            counts_of(old(engine_state).history),
            tag,
        )),
        deadline.budget_ms == 0 ==> r.0 is None && r.1 == 0 && final(trace).timed_out,
        deadline.budget_ms == 0 ==> *final(nodes) == *old(nodes),
        deadline.budget_ms == 0 ==> *final(max_depth_reached) == *old(max_depth_reached),
        deadline.budget_ms == 0 ==> *final(engine_state) == *old(engine_state),
        *final(nodes) == *old(nodes) < u64::MAX ==> r.0 is None && r.1 == 0,
        *final(nodes) == *old(nodes) < u64::MAX ==> final(trace).timed_out,
        *final(nodes) == *old(nodes) < u64::MAX ==> *final(engine_state) == *old(engine_state),
        *final(nodes) == *old(nodes) < u64::MAX ==> *final(max_depth_reached) == *old(
            max_depth_reached,
        ),
        *final(max_depth_reached) <= ply_bound(*old(max_depth_reached), current_depth, depth),
        !final(trace).timed_out ==> (at_once(*board, depth, alpha, beta, color, *old(engine_state))
            matches Some(outcome) ==> r == outcome),
        !final(trace).timed_out && unsettled(*board, depth, alpha, beta, *old(engine_state))
            && goes_on(*board, depth, color, old(engine_state).history) ==> is_move_of(*board, r.0)
            && final(engine_state).transposition_table.lookup((board.key_value(), depth)) == Some(
            TTEntry { value: r.1, depth, flag: bound_of(r.1, alpha, beta), best_move: r.0 },
        ),
    decreases depth,
{
    let ghost seen = counts_of(engine_state.history);
    if deadline.reached() {
        trace.timed_out = true;
        return (None, 0);
    }
    if *nodes < u64::MAX {
        *nodes = *nodes + 1;
    }
    if current_depth > *max_depth_reached {
        *max_depth_reached = current_depth;
    }
    let board_hash = board.position_key();
    let repetition_count = engine_state.history.get(board_hash);
    let entry = engine_state.transposition_table.get(&(board_hash, depth));
    match probe_entry(entry, alpha, beta) {
        Some(answer) => {
            trace.table_used = true;
            return answer;
        },
        None => {},
    }
    let ordered = get_prioritized_moves(board, false);
    let moves = match entry {
        Some(TTEntry { best_move: Some(tag), .. }) => promote_move(ordered, tag),
        _ => ordered,
    };
    let ghost list = boards_of(moves@);
    proof {
        assert forall|i: int| 0 <= i < moves@.len() implies from_successor(
            *board,
            false,
            board.successors(),
            #[trigger] moves@[i],
        ) by {
            assert(moves@.contains(moves@[i]));
            assert(ordered@.contains(moves@[i]));
            let k = choose|k: int| 0 <= k < ordered@.len() && ordered@[k] == moves@[i];
            assert(from_successor(*board, false, board.successors(), ordered@[k]));
        }
        lemma_moves_are_successors(*board, moves@);
    }
    match is_terminal(
        board,
        board_hash,
        depth,
        color,
        repetition_count,
        moves.len(),
        engine_state,
    ) {
        Some(result) => {
            return result;
        },
        None => {},
    }
    if depth == 0 {
        let value = board.evaluate(false);
        return (
            None,
            if color == 1 {
                value
            } else {
                -value
            },
        );
    }
    let ghost deeper = (depth - 1) as nat;
    let ghost mut leader: int = 0;
    let mut best_move: Option<u32> = None;
    let mut best: i32 = -SCORE_LIMIT;
    let mut low = alpha;
    let mut cut = false;
    let mut i: usize = 0;
    while i < moves.len() && !cut
        invariant
            i <= moves@.len(),
            depth > 0,
            deeper == depth - 1,
            list == boards_of(moves@),
            seen == counts_of(old(engine_state).history),
            color == 1 || color == -1,
            alpha > i32::MIN,
            low > i32::MIN,
            beta > i32::MIN,
            -SCORE_LIMIT <= best <= SCORE_LIMIT,
            engine_state.history.same_counts(&old(engine_state).history),
            engine_state.history.restored(&old(engine_state).history),
            engine_state.transposition_table.capacity() == old(
                engine_state,
            ).transposition_table.capacity(),
            old(engine_state).transposition_table.well_formed()
                ==> engine_state.transposition_table.well_formed(),
            engine_state.current_board == old(engine_state).current_board,
            *nodes >= *old(nodes),
            *nodes > *old(nodes) || *old(nodes) == u64::MAX,
            *max_depth_reached >= *old(max_depth_reached),
            *max_depth_reached >= current_depth,
            *max_depth_reached <= ply_bound(*old(max_depth_reached), current_depth, depth),
            deadline.budget_ms != 0,
            board_hash == board.key_value(),
            moves@.len() > 0,
            cut ==> i > 0,
            i > 0 ==> best_move is Some,
            old(trace).timed_out ==> trace.timed_out,
            old(trace).table_used ==> trace.table_used,
            trace.cutoffs >= old(trace).cutoffs,
            i == 0 ==> low == alpha && best == -SCORE_LIMIT,
            i > 0 ==> low == (if best > alpha {
                best
            } else {
                alpha
            }),
            cut ==> low >= beta,
            alpha < beta && !cut ==> low < beta,
            alpha < beta && trace.clean() ==> within_bounds(
                best_of(list, deeper, color as int, seen, i as nat),
                alpha as int,
                beta as int,
                best as int,
            ),
            best_move is Some ==> 0 <= leader < i && best_move == Some(list[leader].latest_move),
            alpha < best < beta && trace.clean() && best_move is Some ==> reply_value(
                list[leader],
                deeper,
                color as int,
                seen,
            ) == best,
        decreases moves@.len() - i + (if cut {
            0int
        } else {
            1int
        }),
    {
        let next = moves[i].0;
        let next_hash = next.position_key();
        let ghost before = engine_state.history;
        let counted = engine_state.history.increment(next_hash);
        proof {
            assert(counts_of(engine_state.history) =~= bumped(seen, next.key_value())) by {
                assert forall|h: u64| #[trigger]
                    counts_of(engine_state.history)(h) == bumped(seen, next.key_value())(h) by {
                    assert(before.count(h) == old(engine_state).history.count(h));
                }
            }
            assert(list[i as int] == next);
        }
        let (_, value) = negamax(
            &next,
            -beta,
            -low,
            nodes,
            deadline,
            engine_state,
            depth - 1,
            if current_depth < u8::MAX {
                current_depth + 1
            } else {
                current_depth
            },
            max_depth_reached,
            -color,
            trace,
        );
        let score = -value;
        if counted {
            engine_state.history.decrement(next_hash);
        }
        assert(engine_state.history.same_counts(&before));
        assert(engine_state.history.restored(&before));
        proof {
            if alpha < beta && trace.clean() {
                let reply = reply_value(next, deeper, color as int, seen);
                assert(within_bounds(-reply, -beta as int, -low as int, value as int));
            }
        }
        if i == 0 || score > best {
            best = score;
            best_move = Some(next.latest_move);
            proof {
                leader = i as int;
            }
        }
        if score > low {
            low = score;
        }
        if low >= beta {
            cut = true;
            if trace.cutoffs < u64::MAX {
                trace.cutoffs = trace.cutoffs + 1;
            }
        }
        i = i + 1;
    }
    proof {
        if alpha < beta && trace.clean() {
            lemma_best_of_grows(list, deeper, color as int, seen, i as nat, list.len());
        }
        if alpha < best < beta && trace.clean() && best_move is Some {
            assert(board.successors().contains(list[leader]));
            let j = choose|j: int|
                0 <= j < board.successors().len() && board.successors()[j] == list[leader];
            assert(board.successors()[j].latest_move == best_move->0);
        }
        assert(i > 0);
        assert(board.successors().contains(list[leader]));
        let j = choose|j: int|
            0 <= j < board.successors().len() && board.successors()[j] == list[leader];
        assert(board.successors()[j].latest_move == best_move->0);
    }
    engine_state.transposition_table.put(
        (board_hash, depth),
        TTEntry { value: best, depth, flag: bound_kind(best, alpha, beta), best_move },
    );
    (best_move, best)
}

/// The list of moves that a node looks at holds the successors of its
/// position and nothing else, so that the best of the list is the best of
/// the successors.
pub proof fn lemma_moves_are_successors(board: Board, moves: Seq<(Board, i32)>)
    requires
        forall|i: int|
            0 <= i < moves.len() ==> from_successor(
                board,
                false,
                board.successors(),
                #[trigger] moves[i],
            ),
        forall|j: int|
            0 <= j < board.successors().len() && admitted(
                board,
                false,
                #[trigger] board.successors()[j],
            ) ==> moves.contains(scored_pair(board, board.successors()[j])),
    ensures
        forall|depth: nat, color: int, seen: spec_fn(u64) -> nat|
            #[trigger] best_of(boards_of(moves), depth, color, seen, moves.len()) == best_of(
                board.successors(),
                depth,
                color,
                seen,
                board.successors().len(),
            ),
        forall|i: int|
            0 <= i < moves.len() ==> board.successors().contains(#[trigger] boards_of(moves)[i]),
{
    reveal(scored_pair);
    reveal(admitted);
    let list = boards_of(moves);
    let all = board.successors();
    assert forall|i: int| 0 <= i < list.len() implies all.contains(#[trigger] list[i]) by {
        assert(from_successor(board, false, all, moves[i]));
        let j = choose|j: int|
            0 <= j < all.len() && admitted(board, false, #[trigger] all[j]) && moves[i]
                == scored_pair(board, all[j]);
        assert(list[i] == all[j]);
    }
    assert forall|j: int| 0 <= j < all.len() implies list.contains(#[trigger] all[j]) by {
        assert(moves.contains(scored_pair(board, all[j])));
        let i = choose|i: int| 0 <= i < moves.len() && moves[i] == scored_pair(board, all[j]);
        assert(list[i] == all[j]);
    }
    assert forall|depth: nat, color: int, seen: spec_fn(u64) -> nat| #[trigger]
        best_of(list, depth, color, seen, moves.len()) == best_of(
            all,
            depth,
            color,
            seen,
            all.len(),
        ) by {
        lemma_best_of_same_moves(list, all, depth, color, seen);
    }
}

/// The value of a position seen from white: what white can secure where
/// white is to move, and the negative of what black can secure where black
/// is.
pub open spec fn white_value(
    board: Board,
    depth: nat,
    maximizing: bool,
    seen: spec_fn(u64) -> nat,
) -> int {
    if maximizing {
        game_value(board, depth, 1, seen)
    } else {
        -game_value(board, depth, -1, seen)
    }
}

/// The number that stands for the side that looks for the highest score
/// seen from white, or for the lowest: 1 for white, -1 for black.
pub open spec fn side_of(maximizing: bool) -> i32 {
    if maximizing {
        1i32
    } else {
        (-1i32) as i32
    }
}

/// A score seen from white as the side sees it that looks for the highest
/// score, or for the lowest.
pub open spec fn seen_by(maximizing: bool, score: i32) -> i32 {
    if maximizing {
        score
    } else {
        (-score) as i32
    }
}

/// The search with the score seen from white: for the side that is to move
/// it looks for the highest score where `maximizing` is set, which is where
/// white is to move, and for the lowest where it is not. The window from
/// `alpha` to `beta` is seen from white too. The search is the search of
/// `negamax`, turned round for black.
pub fn alpha_beta(
    board: &Board,
    alpha: i32,
    beta: i32,
    maximizing: bool,
    nodes: &mut u64,
    deadline: &Deadline,
    engine_state: &mut EngineState,
    depth: u8,
    current_depth: u8,
    max_depth_reached: &mut u8,
    trace: &mut SearchTrace,
) -> (r: (Option<u32>, i32))
    requires
        alpha > i32::MIN,
        beta > i32::MIN,
    ensures
        final(engine_state).history.same_counts(&old(engine_state).history),
        final(engine_state).transposition_table.capacity() == old(
            engine_state,
        ).transposition_table.capacity(),
        old(engine_state).transposition_table.well_formed() ==> final(engine_state)
            .transposition_table.well_formed(),
        final(engine_state).current_board == old(engine_state).current_board,
        final(engine_state).history.restored(&old(engine_state).history),
        -SCORE_LIMIT <= r.1 <= SCORE_LIMIT,
        *final(nodes) >= *old(nodes),
        *final(max_depth_reached) >= *old(max_depth_reached),
        old(trace).timed_out ==> final(trace).timed_out,
        old(trace).table_used ==> final(trace).table_used,
        alpha < beta && final(trace).clean() ==> within_bounds(
            white_value(
                *board,
                depth as nat,
                maximizing,
                counts_of(old(engine_state).history),
            ),
            alpha as int,
            beta as int,
            r.1 as int,
        ),
        alpha < r.1 < beta && final(trace).clean() ==> (r.0 matches Some(tag) ==> is_best_move(
            *board,
            depth as nat,
            side_of(maximizing) as int,
            counts_of(old(engine_state).history),
            tag,
        )),
        !final(trace).timed_out && unsettled(
            *board,
            depth,
            seen_by(maximizing, if maximizing { alpha } else { beta }),
            seen_by(maximizing, if maximizing { beta } else { alpha }),
            *old(engine_state),
        ) && goes_on(*board, depth, side_of(maximizing), old(engine_state).history) ==> is_move_of(
            *board,
            r.0,
        ) && final(engine_state).transposition_table.lookup((board.key_value(), depth)) == Some(
            TTEntry {
                value: seen_by(maximizing, r.1),
                depth,
                flag: bound_of(
                    seen_by(maximizing, r.1),
                    seen_by(maximizing, if maximizing { alpha } else { beta }),
                    seen_by(maximizing, if maximizing { beta } else { alpha }),
                ),
                best_move: r.0,
            },
        ),
        deadline.budget_ms == 0 ==> r.0 is None && r.1 == 0 && final(trace).timed_out,
        deadline.budget_ms == 0 ==> *final(nodes) == *old(nodes),
        deadline.budget_ms == 0 ==> *final(max_depth_reached) == *old(max_depth_reached),
        deadline.budget_ms == 0 ==> *final(engine_state) == *old(engine_state),
{
    if maximizing {
        negamax(
            board,
            alpha,
            beta,
            nodes,
            deadline,
            engine_state,
            depth,
            current_depth,
            max_depth_reached,
            1,
            trace,
        )
    } else {
        let (best, score) = negamax(
            board,
            -beta,
            -alpha,
            nodes,
            deadline,
            engine_state,
            depth,
            current_depth,
            max_depth_reached,
            -1,
            trace,
        );
        (best, -score)
    }
}

/// The successors that are looked at are those that are admitted, each with
/// its priority.
pub proof fn lemma_candidates(board: Board, only_noise: bool, n: nat)
    requires
        n <= board.successors().len(),
    ensures
        forall|k: int|
            0 <= k < candidates(board, only_noise, n).len() ==> from_successor(
                board,
                only_noise,
                board.successors(),
                #[trigger] candidates(board, only_noise, n)[k],
            ),
        forall|j: int|
            0 <= j < n && admitted(board, only_noise, #[trigger] board.successors()[j])
                ==> candidates(board, only_noise, n).contains(
                scored_pair(board, board.successors()[j]),
            ),
    decreases n,
{
    if n > 0 {
        lemma_candidates(board, only_noise, (n - 1) as nat);
        let before = candidates(board, only_noise, (n - 1) as nat);
        let all = candidates(board, only_noise, n);
        let last = board.successors()[n - 1];
        if admitted(board, only_noise, last) {
            assert(all == before.push(scored_pair(board, last)));
            assert forall|k: int| 0 <= k < all.len() implies from_successor(
                board,
                only_noise,
                board.successors(),
                #[trigger] all[k],
            ) by {
                if k < before.len() {
                    assert(all[k] == before[k]);
                } else {
                    assert(all[k] == scored_pair(board, board.successors()[n - 1]));
                }
            }
            assert forall|j: int|
                0 <= j < n && admitted(
                    board,
                    only_noise,
                    #[trigger] board.successors()[j],
                ) implies all.contains(scored_pair(board, board.successors()[j])) by {
                if j < n - 1 {
                    let k = choose|k: int|
                        0 <= k < before.len() && before[k] == scored_pair(
                            board,
                            board.successors()[j],
                        );
                    assert(all[k] == before[k]);
                } else {
                    assert(all[all.len() - 1] == scored_pair(board, board.successors()[j]));
                }
            }
        }
    }
}

/// The list of moves that a node looks at when only captures and promotions
/// are looked at holds the successors by such moves and nothing else.
pub proof fn lemma_moves_are_tactical(board: Board, moves: Seq<(Board, i32)>)
    requires
        forall|i: int|
            0 <= i < moves.len() ==> from_successor(
                board,
                true,
                board.successors(),
                #[trigger] moves[i],
            ),
        forall|j: int|
            0 <= j < board.successors().len() && admitted(
                board,
                true,
                #[trigger] board.successors()[j],
            ) ==> moves.contains(scored_pair(board, board.successors()[j])),
    ensures
        forall|base: int, budget: nat, color: int, seen: spec_fn(u64) -> nat|
            #[trigger] best_quiet(boards_of(moves), base, budget, color, seen, moves.len())
                == best_quiet(
                tactical_successors(board),
                base,
                budget,
                color,
                seen,
                tactical_successors(board).len(),
            ),
{
    let list = boards_of(moves);
    let all = board.successors();
    let picked = candidates(board, true, all.len());
    let tactical = tactical_successors(board);
    lemma_candidates(board, true, all.len());
    assert forall|i: int| 0 <= i < list.len() implies tactical.contains(#[trigger] list[i]) by {
        assert(from_successor(board, true, all, moves[i]));
        let j = choose|j: int|
            0 <= j < all.len() && admitted(board, true, #[trigger] all[j]) && moves[i]
                == scored_pair(board, all[j]);
        assert(picked.contains(scored_pair(board, all[j])));
        let k = choose|k: int| 0 <= k < picked.len() && picked[k] == scored_pair(board, all[j]);
        assert(tactical[k] == list[i]);
    }
    assert forall|k: int| 0 <= k < tactical.len() implies list.contains(
        #[trigger] tactical[k],
    ) by {
        assert(from_successor(board, true, all, picked[k]));
        let j = choose|j: int|
            0 <= j < all.len() && admitted(board, true, #[trigger] all[j]) && picked[k]
                == scored_pair(board, all[j]);
        assert(moves.contains(scored_pair(board, all[j])));
        let i = choose|i: int| 0 <= i < moves.len() && moves[i] == scored_pair(board, all[j]);
        assert(list[i] == tactical[k]);
    }
    assert forall|base: int, budget: nat, color: int, seen: spec_fn(u64) -> nat| #[trigger]
        best_quiet(list, base, budget, color, seen, moves.len()) == best_quiet(
            tactical,
            base,
            budget,
            color,
            seen,
            tactical.len(),
        ) by {
        lemma_best_quiet_same_moves(list, tactical, base, budget, color, seen);
    }
}

/// The value of `board` for the side to move when only captures and
/// promotions are looked at, at most `budget` plies deep, within the window
/// from `alpha` to `beta`. The side to move may stand pat on the static
/// evaluation. A node at which the deadline has passed gives the score 0,
/// and the trace says so; it is not counted and changes nothing. When the
/// search returns, every count of the repetition tracker is what it was,
/// and no entry has come to the tracker.
///
/// Where the deadline has not passed, the score bounds the value of the
/// position as the window allows: within the window it is the value.
pub fn quiescence_search(
    board: &Board,
    alpha: i32,
    beta: i32,
    nodes: &mut u64,
    deadline: &Deadline,
    engine_state: &mut EngineState,
    current_depth: u8,
    max_depth_reached: &mut u8,
    color: i32,
    budget: u8,
    trace: &mut SearchTrace,
) -> (r: i32)
    requires
        color == 1 || color == -1,
        alpha > i32::MIN,
        beta > i32::MIN,
    ensures
        final(engine_state).history.same_counts(&old(engine_state).history),
        final(engine_state).transposition_table.capacity() == old(
            engine_state,
        ).transposition_table.capacity(),
        old(engine_state).transposition_table.well_formed() ==> final(engine_state)
            .transposition_table.well_formed(),
        final(engine_state).current_board == old(engine_state).current_board,
        final(engine_state).history.restored(&old(engine_state).history),
        r > i32::MIN,
        *final(nodes) >= *old(nodes),
        !final(trace).timed_out ==> *final(nodes) > *old(nodes) || *old(nodes) == u64::MAX,
        *final(max_depth_reached) >= *old(max_depth_reached),
        !final(trace).timed_out ==> *final(max_depth_reached) >= current_depth,
        deadline.budget_ms == 0 ==> r == 0 && final(trace).timed_out,
        deadline.budget_ms == 0 ==> *final(nodes) == *old(nodes),
        deadline.budget_ms == 0 ==> *final(max_depth_reached) == *old(max_depth_reached),
        deadline.budget_ms == 0 ==> *final(engine_state) == *old(engine_state),
        old(trace).timed_out ==> final(trace).timed_out,
        final(trace).table_used == old(trace).table_used,
        final(trace).cutoffs >= old(trace).cutoffs,
        alpha < beta && !final(trace).timed_out ==> within_bounds(
            quiet_value(
                *board,
                budget as nat,
                color as int,
                counts_of(old(engine_state).history),
            ),
            alpha as int,
            beta as int,
            r as int,
        ),
    decreases budget,
{
    let ghost seen = counts_of(engine_state.history);
    if deadline.reached() {
        trace.timed_out = true;
        return 0;
    }
    if *nodes < u64::MAX {
        *nodes = *nodes + 1;
    }
    if current_depth > *max_depth_reached {
        *max_depth_reached = current_depth;
    }
    let board_hash = board.position_key();
    let repetition_count = engine_state.history.get(board_hash);
    let all = board.generate_all_moves();
    match is_terminal(board, board_hash, 0, color, repetition_count, all.len(), engine_state) {
        Some((_, score)) => {
            return score;
        },
        None => {},
    }
    let value = board.evaluate(false);
    let stand_pat = if color == 1 {
        value
    } else {
        -value
    };
    let moves = get_prioritized_moves(board, true);
    let ghost list = boards_of(moves@);
    let ghost base = stand_pat as int;
    let ghost whole = quiet_value(*board, budget as nat, color as int, seen);
    proof {
        assert(base == color * board.static_eval());
        assert(board.successors().len() > 0);
        assert(!board.drawn());
        assert(seen(board.key_value()) < REPETITION_LIMIT);
        if budget == 0 {
            assert(whole == base);
        } else {
            lemma_moves_are_tactical(*board, moves@);
            let tactical = tactical_successors(*board);
            assert(whole == best_quiet(
                tactical,
                base,
                (budget - 1) as nat,
                color as int,
                seen,
                tactical.len(),
            ));
            assert(whole == best_quiet(
                list,
                base,
                (budget - 1) as nat,
                color as int,
                seen,
                list.len(),
            ));
            crate::bot::value::lemma_best_quiet(
                list,
                base,
                (budget - 1) as nat,
                color as int,
                seen,
                list.len(),
            );
            assert(whole >= base);
        }
    }
    if stand_pat >= beta || budget == 0 {
        return stand_pat;
    }
    let ghost deeper = (budget - 1) as nat;
    let mut low = if stand_pat > alpha {
        stand_pat
    } else {
        alpha
    };
    let mut i: usize = 0;
    while i < moves.len()
        invariant
            i <= moves@.len(),
            budget > 0,
            deeper == budget - 1,
            base == stand_pat,
            list == boards_of(moves@),
            seen == counts_of(old(engine_state).history),
            color == 1 || color == -1,
            alpha > i32::MIN,
            low > i32::MIN,
            beta > i32::MIN,
            alpha <= low,
            alpha < beta ==> low < beta,
            whole == best_quiet(list, base, deeper, color as int, seen, list.len()),
            whole == quiet_value(*board, budget as nat, color as int, seen),
            engine_state.history.same_counts(&old(engine_state).history),
            engine_state.history.restored(&old(engine_state).history),
            deadline.budget_ms != 0,
            engine_state.transposition_table.capacity() == old(
                engine_state,
            ).transposition_table.capacity(),
            old(engine_state).transposition_table.well_formed()
                ==> engine_state.transposition_table.well_formed(),
            engine_state.current_board == old(engine_state).current_board,
            *nodes >= *old(nodes),
            *nodes > *old(nodes) || *old(nodes) == u64::MAX,
            *max_depth_reached >= *old(max_depth_reached),
            *max_depth_reached >= current_depth,
            old(trace).timed_out ==> trace.timed_out,
            trace.table_used == old(trace).table_used,
            trace.cutoffs >= old(trace).cutoffs,
            alpha < beta && !trace.timed_out ==> within_bounds(
                best_quiet(list, base, deeper, color as int, seen, i as nat),
                alpha as int,
                beta as int,
                low as int,
            ),
        decreases moves@.len() - i,
    {
        let next = moves[i].0;
        let next_hash = next.position_key();
        let ghost before = engine_state.history;
        let counted = engine_state.history.increment(next_hash);
        proof {
            assert(counts_of(engine_state.history) =~= bumped(seen, next.key_value())) by {
                assert forall|h: u64| #[trigger]
                    counts_of(engine_state.history)(h) == bumped(seen, next.key_value())(h) by {
                    assert(before.count(h) == old(engine_state).history.count(h));
                }
            }
            assert(list[i as int] == next);
        }
        let value = quiescence_search(
            &next,
            -beta,
            -low,
            nodes,
            deadline,
            engine_state,
            if current_depth < u8::MAX {
                current_depth + 1
            } else {
                current_depth
            },
            max_depth_reached,
            -color,
            budget - 1,
            trace,
        );
        let score = -value;
        if counted {
            engine_state.history.decrement(next_hash);
        }
        assert(engine_state.history.same_counts(&before));
        proof {
            if alpha < beta && !trace.timed_out {
                let reply = quiet_reply(next, deeper, color as int, seen);
                assert(within_bounds(-reply, -beta as int, -low as int, value as int));
                lemma_best_quiet_grows(
                    list,
                    base,
                    deeper,
                    color as int,
                    seen,
                    (i + 1) as nat,
                    list.len(),
                );
                assert(reply <= best_quiet(
                    list,
                    base,
                    deeper,
                    color as int,
                    seen,
                    (i + 1) as nat,
                ));
            }
        }
        if score >= beta {
            if trace.cutoffs < u64::MAX {
                trace.cutoffs = trace.cutoffs + 1;
            }
            return score;
        }
        if score > low {
            low = score;
        }
        i = i + 1;
    }
    low
}

/// The static score of a position in which there is still play, positive
/// where white stands better.
pub fn evaluate_board(board: &Board) -> (r: i32)
    ensures
        r == board.static_eval(),
{
    board.evaluate(false)
}

/// The best move for the side to move in `board` that is found in the time
/// allowed: a fortieth of `time_left_ms`, at most forty seconds and at most
/// `time_limit_ms`. A move from the opening book is taken where the book
/// has one, with no node visited and the evaluator's score of the position
/// after it. Otherwise the position is searched one ply deeper at a time,
/// and after each search `keep_iteration` says what is in hand: the result
/// of the deepest search that was finished in time, which is none where no
/// time is allowed. The move that is returned is legal. When the search
/// returns, every count of the repetition tracker is what it was and no
/// entry has come to it, so that a tracker without idle entries is left
/// exactly as it was.
///
/// Where the last search that was finished has worked out every score
/// itself, the score is the value of the position at that depth, seen from
/// white, and the move is one of the best.
pub fn search(
    time_left_ms: u128,
    time_limit_ms: Option<u128>,
    board: &Board,
    engine_state: &mut EngineState,
    book: &OpeningBook,
) -> (r: SearchResult)
    ensures
        final(engine_state).history.same_counts(&old(engine_state).history),
        final(engine_state).history.restored(&old(engine_state).history),
        old(engine_state).history.tidy() ==> final(engine_state).history.inner@ == old(
            engine_state,
        ).history.inner@,
        final(engine_state).transposition_table.capacity() == old(
            engine_state,
        ).transposition_table.capacity(),
        old(engine_state).transposition_table.well_formed() ==> final(engine_state)
            .transposition_table.well_formed(),
        final(engine_state).current_board == old(engine_state).current_board,
        r.best_move matches Some(tag) ==> exists|j: int|
            0 <= j < board.successors().len() && (#[trigger] board.successors()[j]).latest_move
                == tag,
        r.best_move is None ==> r.score == 0 && r.depth == 0 && r.nodes == 0 && r.iterations == 0,
        -SCORE_LIMIT <= r.score <= SCORE_LIMIT,
        r.iterations <= MAX_DEPTH,
        book_sure(book@, *board) ==> r.best_move is Some && r.iterations == 0,
        r.best_move is Some && r.iterations == 0 ==> exists|next: Board|
            book_gives(book@, *board, next) && #[trigger] taken_from_book(
                r,
                next,
            ),
        r.iterations > 0 ==> r.best_move is Some && r.nodes > 0 && r.depth <= r.iterations
            && !book_sure(book@, *board),
        allotted_time(time_left_ms, time_limit_ms) == 0
            && book_silent(book@, *board) ==> r.best_move is None && r.timed_out,
        !r.timed_out && unsettled(*board, 1, (-INFINITE) as i32, INFINITE, *old(engine_state))
            && goes_on(*board, 1, color_of(*board) as i32, old(engine_state).history)
            ==> r.best_move is Some,
        r.exact ==> r.best_move is Some && r.iterations > 0 && r.score == color_of(*board)
            * game_value(
            *board,
            r.iterations as nat,
            color_of(*board),
            counts_of(old(engine_state).history),
        ) && is_best_move(
            *board,
            r.iterations as nat,
            color_of(*board),
            counts_of(old(engine_state).history),
            r.best_move->0,
        ),
{
    let ghost seen = counts_of(engine_state.history);
    let deadline = Deadline::after(time_budget(time_left_ms, time_limit_ms));
    match lookup_opening_db(book, board) {
        Some(next) => {
            let r = SearchResult {
                best_move: Some(next.latest_move),
                nodes: 0,
                elapsed_ms: deadline.elapsed_ms(),
                score: next.evaluate(false),
                depth: 0,
                iterations: 0,
                exact: false,
                timed_out: false,
            };
            proof {
                let j = choose|j: int|
                    0 <= j < board.successors().len() && board.successors()[j] == next;
                assert(board.successors()[j].latest_move == next.latest_move);
                assert(book_gives(book@, *board, next));
                assert(taken_from_book(r, next));
            }
            return r;
        },
        None => {},
    }
    let legal = board.generate_all_moves();
    let color: i32 = if board.read_bookkeeping().white_to_move {
        1
    } else {
        -1
    };
    let mut result = SearchResult {
        best_move: None,
        nodes: 0,
        elapsed_ms: 0,
        score: 0,
        depth: 0,
        iterations: 0,
        exact: false,
        timed_out: false,
    };
    let mut depth: u8 = 1;
    let mut going = true;
    while going && depth <= MAX_DEPTH
        invariant
            1 <= depth <= MAX_DEPTH + 1,
            color == color_of(*board),
            seen == counts_of(old(engine_state).history),
            legal@ == board.successors(),
            result.iterations <= MAX_DEPTH,
            !book_sure(book@, *board),
            deadline.budget_ms == 0 ==> result.best_move is None,
            deadline.budget_ms == 0 && !going ==> result.timed_out,
            going ==> !result.timed_out,
            depth == 1 && going ==> *engine_state == *old(engine_state),
            depth > 1 ==> result.best_move is Some,
            !going && !result.timed_out && result.best_move is None ==> !(unsettled(
                *board,
                1,
                (-INFINITE) as i32,
                INFINITE,
                *old(engine_state),
            ) && goes_on(*board, 1, color, old(engine_state).history)),
            (result.iterations == 0) == (result.best_move is None),
            result.iterations > 0 ==> result.nodes > 0 && result.depth <= result.iterations,
            result.exact ==> result.best_move is Some && result.iterations > 0 && result.score
                == color * game_value(*board, result.iterations as nat, color as int, seen)
                && is_best_move(
                *board,
                result.iterations as nat,
                color as int,
                seen,
                result.best_move->0,
            ),
            engine_state.history.same_counts(&old(engine_state).history),
            engine_state.history.restored(&old(engine_state).history),
            engine_state.transposition_table.capacity() == old(
                engine_state,
            ).transposition_table.capacity(),
            old(engine_state).transposition_table.well_formed()
                ==> engine_state.transposition_table.well_formed(),
            engine_state.current_board == old(engine_state).current_board,
            result.best_move matches Some(tag) ==> exists|j: int|
                0 <= j < board.successors().len() && (
                #[trigger] board.successors()[j]).latest_move == tag,
            result.best_move is None ==> result.score == 0 && result.depth == 0 && result.nodes
                == 0,
            -SCORE_LIMIT <= result.score <= SCORE_LIMIT,
        decreases MAX_DEPTH + 1 - depth + (if going {
            1int
        } else {
            0int
        }),
    {
        let mut nodes: u64 = 0;
        let mut deepest: u8 = 0;
        let mut trace = SearchTrace::new();
        proof {
            assert(counts_of(engine_state.history) =~= seen) by {
                assert forall|h: u64| #[trigger]
                    counts_of(engine_state.history)(h) == seen(h) by {
                    assert(engine_state.history.count(h) == old(engine_state).history.count(h));
                }
            }
        }
        let (found, value) = negamax(
            board,
            -INFINITE,
            INFINITE,
            &mut nodes,
            &deadline,
            engine_state,
            depth,
            0,
            &mut deepest,
            color,
            &mut trace,
        );
        let timed_out = trace.timed_out || deadline.reached();
        let kept = keep_iteration(
            result,
            found,
            value,
            nodes,
            deepest,
            depth,
            color,
            timed_out,
            trace.table_used,
            &legal,
        );
        proof {
            if !timed_out && is_move_of(*board, found) {
                let j = choose|j: int|
                    0 <= j < board.successors().len() && (
                    #[trigger] board.successors()[j]).latest_move == found->0;
                lemma_tag_found(legal@, found->0, 0, j);
                assert(kept.1);
            }
            if kept.1 {
                lemma_tag_place(legal@, found->0, 0);
                let j = tag_place(legal@, found->0, 0) as int;
                assert(board.successors()[j].latest_move == found->0);
            }
        }
        result = kept.0;
        going = kept.1;
        if going {
            depth = depth + 1;
        }
    }
    proof {
        if old(engine_state).history.tidy() {
            engine_state.history.lemma_restored_is_same(&old(engine_state).history);
        }
    }
    result.elapsed_ms = deadline.elapsed_ms();
    result
}

/// What a search has in hand after one more search, `depth` plies deep,
/// and whether it goes on to the next depth. `before` is what it had in
/// hand; `found` and `value` are the move and the score for the side to
/// move that the search gave, `nodes` the nodes that it visited and
/// `deepest` the deepest ply that it reached. A search during which the
/// deadline passed counts for nothing: what was in hand stays, marked as
/// cut short, and the search ends. It ends too, with what was in hand,
/// where no move was found or the move is none of `legal`. Otherwise the
/// move is taken with its score seen from white, the nodes are added, and
/// the search goes on.
pub open spec fn iteration_kept(
    before: SearchResult,
    found: Option<u32>,
    value: i32,
    nodes: u64,
    deepest: u8,
    depth: u8,
    color: i32,
    timed_out: bool,
    table_used: bool,
    legal: Seq<Board>,
) -> (SearchResult, bool) {
    if !timed_out && found is Some && move_by_tag(legal, found->0) is Some {
        (
            SearchResult {
                best_move: found,
                nodes: if before.nodes + nodes <= u64::MAX {
                    (before.nodes + nodes) as u64
                } else {
                    u64::MAX
                },
                elapsed_ms: before.elapsed_ms,
                score: if color == 1 {
                    value
                } else {
                    (-value) as i32
                },
                depth: deepest,
                iterations: depth,
                exact: !table_used,
                timed_out: false,
            },
            true,
        )
    } else {
        (SearchResult { timed_out, ..before }, false)
    }
}

/// What a search has in hand after one more search, and whether it goes on.
pub fn keep_iteration(
    before: SearchResult,
    found: Option<u32>,
    value: i32,
    nodes: u64,
    deepest: u8,
    depth: u8,
    color: i32,
    timed_out: bool,
    table_used: bool,
    legal: &LegalMoveVec,
) -> (r: (SearchResult, bool))
    requires
        value > i32::MIN,
    ensures
        r == iteration_kept(
            before,
            found,
            value,
            nodes,
            deepest,
            depth,
            color,
            timed_out,
            table_used,
            legal@,
        ),
{
    let as_before = SearchResult {
        best_move: before.best_move,
        nodes: before.nodes,
        elapsed_ms: before.elapsed_ms,
        score: before.score,
        depth: before.depth,
        iterations: before.iterations,
        exact: before.exact,
        timed_out,
    };
    if timed_out {
        return (as_before, false);
    }
    match found {
        Some(tag) => {
            match find_move(legal, tag) {
                Some(_) => (
                    SearchResult {
                        best_move: Some(tag),
                        nodes: if before.nodes <= u64::MAX - nodes {
                            before.nodes + nodes
                        } else {
                            u64::MAX
                        },
                        elapsed_ms: before.elapsed_ms,
                        score: if color == 1 {
                            value
                        } else {
                            -value
                        },
                        depth: deepest,
                        iterations: depth,
                        exact: !table_used,
                        timed_out: false,
                    },
                    true,
                ),
                None => (as_before, false),
            }
        },
        None => (as_before, false),
    }
}

/// The deepest ply that a search of `depth` plies from ply `ply` can have reached, where
/// `reached` was the deepest before it.
pub open spec fn ply_bound(reached: u8, ply: u8, depth: u8) -> int {
    if reached > ply + depth {
        reached as int
    } else {
        ply + depth
    }
}

/// Whether `r` is what a search gives that takes the position `next` from
/// the opening book: the move that leads to it, scored as the evaluator
/// scores `next`, with no node visited.
pub open spec fn taken_from_book(r: SearchResult, next: Board) -> bool {
    r.best_move == Some(next.latest_move) && r.score == next.static_eval() && r.nodes == 0
        && r.depth == 0 && r.iterations == 0 && !r.exact && !r.timed_out
}

} // verus!
