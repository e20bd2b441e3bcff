//! The value of a position: what the side to move can secure when both
//! sides play the best moves, looking a given number of plies ahead.

use crate::base::defs::Board;
use crate::bot::search::REPETITION_LIMIT;
use crate::bot::search::SCORE_LIMIT;
use vstd::prelude::*;

verus! {

/// The counts of a tracker after one more occurrence of `key`; a count that
/// has reached the largest number stays as it is.
pub open spec fn bumped(seen: spec_fn(u64) -> nat, key: u64) -> spec_fn(u64) -> nat {
    |h: u64|
        if h == key && seen(h) < u32::MAX {
            seen(h) + 1
        } else {
            seen(h)
        }
}

/// What the side to move in `parent` gets by the move that leads to `next`,
/// when the game is looked at `depth` plies further: the negative of what
/// the other side gets from there.
pub open spec fn reply_value(next: Board, depth: nat, color: int, seen: spec_fn(u64) -> nat) -> int
    decreases depth, 1nat,
{
    -game_value(next, depth, -color, bumped(seen, next.key_value()))
}

/// The best of what the side to move gets by the first `n` moves of a list,
/// and the lowest score where there is none.
pub open spec fn best_of(
    list: Seq<Board>,
    depth: nat,
    color: int,
    seen: spec_fn(u64) -> nat,
    n: nat,
) -> int
    decreases depth, 2nat, n,
{
    if n == 0 {
        -SCORE_LIMIT
    } else {
        let rest = best_of(list, depth, color, seen, (n - 1) as nat);
        let last = reply_value(list[n - 1], depth, color, seen);
        if last > rest {
            last
        } else {
            rest
        }
    }
}

/// The value of `board` for the side to move, looked at `depth` plies deep.
/// `color` is 1 where white is to move and -1 where black is, and `seen`
/// says how often each position has occurred. Without a legal move the side
/// to move is mated or stalemated, and a mate counts the more the more depth
/// is left. The game is drawn by the half-move clock, for want of material
/// and by the third occurrence of the position. At depth nought the value is
/// the static score. Otherwise it is the best of what the moves give.
pub open spec fn game_value(board: Board, depth: nat, color: int, seen: spec_fn(u64) -> nat) -> int
    decreases depth, 0nat,
{
    let moves = board.successors();
    if moves.len() == 0 {
        color * board.terminal_eval() * (depth + 1)
    } else if board.drawn() || seen(board.key_value()) >= REPETITION_LIMIT {
        0
    } else if depth == 0 {
        color * board.static_eval()
    } else {
        best_of(moves, (depth - 1) as nat, color, seen, moves.len())
    }
}

/// The best of the moves is at least the lowest score and at least what
/// each of the moves gives, and it is the lowest score or what one of the
/// moves gives.
pub proof fn lemma_best_of(
    list: Seq<Board>,
    depth: nat,
    color: int,
    seen: spec_fn(u64) -> nat,
    n: nat,
)
    requires
        n <= list.len(),
    ensures
        best_of(list, depth, color, seen, n) >= -SCORE_LIMIT,
        forall|j: int|
            0 <= j < n ==> reply_value(#[trigger] list[j], depth, color, seen) <= best_of(
                list,
                depth,
                color,
                seen,
                n,
            ),
        best_of(list, depth, color, seen, n) == -SCORE_LIMIT || exists|j: int|
            0 <= j < n && reply_value(#[trigger] list[j], depth, color, seen) == best_of(
                list,
                depth,
                color,
                seen,
                n,
            ),
    decreases n,
{
    if n > 0 {
        lemma_best_of(list, depth, color, seen, (n - 1) as nat);
        let rest = best_of(list, depth, color, seen, (n - 1) as nat);
        let last = reply_value(list[n - 1], depth, color, seen);
        let all = best_of(list, depth, color, seen, n);
        if all != -SCORE_LIMIT {
            if last > rest {
                assert(reply_value(list[n - 1], depth, color, seen) == all);
            } else {
                let j = choose|j: int|
                    0 <= j < n - 1 && reply_value(#[trigger] list[j], depth, color, seen) == rest;
                assert(reply_value(list[j], depth, color, seen) == all);
            }
        }
    }
}

/// The best of the first moves of a list is no better than the best of
/// more of them.
pub proof fn lemma_best_of_grows(
    list: Seq<Board>,
    depth: nat,
    color: int,
    seen: spec_fn(u64) -> nat,
    a: nat,
    b: nat,
)
    requires
        a <= b,
    ensures
        best_of(list, depth, color, seen, a) <= best_of(list, depth, color, seen, b),
    decreases b,
{
    if a < b {
        lemma_best_of_grows(list, depth, color, seen, a, (b - 1) as nat);
    }
}

/// One direction of the lemma below.
pub proof fn lemma_best_of_within(
    one: Seq<Board>,
    other: Seq<Board>,
    depth: nat,
    color: int,
    seen: spec_fn(u64) -> nat,
)
    requires
        forall|i: int| 0 <= i < one.len() ==> other.contains(#[trigger] one[i]),
    ensures
        best_of(one, depth, color, seen, one.len()) <= best_of(
            other,
            depth,
            color,
            seen,
            other.len(),
        ),
{
    lemma_best_of(one, depth, color, seen, one.len());
    lemma_best_of(other, depth, color, seen, other.len());
    let best = best_of(one, depth, color, seen, one.len());
    if best != -SCORE_LIMIT {
        let j = choose|j: int|
            0 <= j < one.len() && reply_value(#[trigger] one[j], depth, color, seen) == best;
        assert(other.contains(one[j]));
        let k = choose|k: int| 0 <= k < other.len() && other[k] == one[j];
        assert(reply_value(other[k], depth, color, seen) <= best_of(
            other,
            depth,
            color,
            seen,
            other.len(),
        ));
    }
}

/// Two lists that hold the same moves give the same best, in whatever order
/// and however often they hold them.
pub proof fn lemma_best_of_same_moves(
    one: Seq<Board>,
    other: Seq<Board>,
    depth: nat,
    color: int,
    seen: spec_fn(u64) -> nat,
)
    requires
        forall|i: int| 0 <= i < one.len() ==> other.contains(#[trigger] one[i]),
        forall|i: int| 0 <= i < other.len() ==> one.contains(#[trigger] other[i]),
    ensures
        best_of(one, depth, color, seen, one.len()) == best_of(
            other,
            depth,
            color,
            seen,
            other.len(),
        ),
{
    lemma_best_of_within(one, other, depth, color, seen);
    lemma_best_of_within(other, one, depth, color, seen);
}

/// What the side to move gets by the move that leads to `next` when only
/// captures and promotions are looked at from there on, at most `budget`
/// plies deep.
pub open spec fn quiet_reply(next: Board, budget: nat, color: int, seen: spec_fn(u64) -> nat) -> int
    decreases budget, 1nat,
{
    -quiet_value(next, budget, -color, bumped(seen, next.key_value()))
}

/// The best of `base` and of what the side to move gets by the first `n`
/// moves of a list when only captures and promotions are looked at.
pub open spec fn best_quiet(
    list: Seq<Board>,
    base: int,
    budget: nat,
    color: int,
    seen: spec_fn(u64) -> nat,
    n: nat,
) -> int
    decreases budget, 2nat, n,
{
    if n == 0 {
        base
    } else {
        let rest = best_quiet(list, base, budget, color, seen, (n - 1) as nat);
        let last = quiet_reply(list[n - 1], budget, color, seen);
        if last > rest {
            last
        } else {
            rest
        }
    }
}

/// The successors of `board` by a capture or a promotion that does not lose
/// material, in the order in which they are produced.
pub open spec fn tactical_successors(board: Board) -> Seq<Board> {
    crate::bot::search::boards_of(
        crate::bot::search::candidates(board, true, board.successors().len()),
    )
}

/// The value of `board` for the side to move when only captures and
/// promotions are looked at, at most `budget` plies deep. A game that is
/// over or drawn has the value that it has in the full search with no depth
/// left. Otherwise the side to move may stand pat on the static score or
/// make one of the moves, whichever is best.
pub open spec fn quiet_value(board: Board, budget: nat, color: int, seen: spec_fn(u64) -> nat) -> int
    decreases budget, 0nat,
{
    let moves = board.successors();
    if moves.len() == 0 {
        color * board.terminal_eval() * 1
    } else if board.drawn() || seen(board.key_value()) >= REPETITION_LIMIT {
        0
    } else if budget == 0 {
        color * board.static_eval()
    } else {
        best_quiet(
            tactical_successors(board),
            color * board.static_eval(),
            (budget - 1) as nat,
            color,
            seen,
            tactical_successors(board).len(),
        )
    }
}

/// The best of a base and the moves is at least the base and at least what
/// each of the moves gives, and it is the base or what one of the moves
/// gives.
pub proof fn lemma_best_quiet(
    list: Seq<Board>,
    base: int,
    budget: nat,
    color: int,
    seen: spec_fn(u64) -> nat,
    n: nat,
)
    requires
        n <= list.len(),
    ensures
        best_quiet(list, base, budget, color, seen, n) >= base,
        forall|j: int|
            0 <= j < n ==> quiet_reply(#[trigger] list[j], budget, color, seen) <= best_quiet(
                list,
                base,
                budget,
                color,
                seen,
                n,
            ),
        best_quiet(list, base, budget, color, seen, n) == base || exists|j: int|
            0 <= j < n && quiet_reply(#[trigger] list[j], budget, color, seen) == best_quiet(
                list,
                base,
                budget,
                color,
                seen,
                n,
            ),
    decreases n,
{
    if n > 0 {
        lemma_best_quiet(list, base, budget, color, seen, (n - 1) as nat);
        let rest = best_quiet(list, base, budget, color, seen, (n - 1) as nat);
        let last = quiet_reply(list[n - 1], budget, color, seen);
        let all = best_quiet(list, base, budget, color, seen, n);
        if all != base {
            if last > rest {
                assert(quiet_reply(list[n - 1], budget, color, seen) == all);
            } else {
                let j = choose|j: int|
                    0 <= j < n - 1 && quiet_reply(#[trigger] list[j], budget, color, seen) == rest;
                assert(quiet_reply(list[j], budget, color, seen) == all);
            }
        }
    }
}

/// One direction of the lemma below.
pub proof fn lemma_best_quiet_within(
    one: Seq<Board>,
    other: Seq<Board>,
    base: int,
    budget: nat,
    color: int,
    seen: spec_fn(u64) -> nat,
)
    requires
        forall|i: int| 0 <= i < one.len() ==> other.contains(#[trigger] one[i]),
    ensures
        best_quiet(one, base, budget, color, seen, one.len()) <= best_quiet(
            other,
            base,
            budget,
            color,
            seen,
            other.len(),
        ),
{
    lemma_best_quiet(one, base, budget, color, seen, one.len());
    lemma_best_quiet(other, base, budget, color, seen, other.len());
    let best = best_quiet(one, base, budget, color, seen, one.len());
    if best != base {
        let j = choose|j: int|
            0 <= j < one.len() && quiet_reply(#[trigger] one[j], budget, color, seen) == best;
        assert(other.contains(one[j]));
        let k = choose|k: int| 0 <= k < other.len() && other[k] == one[j];
        assert(quiet_reply(other[k], budget, color, seen) <= best_quiet(
            other,
            base,
            budget,
            color,
            seen,
            other.len(),
        ));
    }
}

/// Two lists that hold the same moves give the same best over the same
/// base.
pub proof fn lemma_best_quiet_same_moves(
    one: Seq<Board>,
    other: Seq<Board>,
    base: int,
    budget: nat,
    color: int,
    seen: spec_fn(u64) -> nat,
)
    requires
        forall|i: int| 0 <= i < one.len() ==> other.contains(#[trigger] one[i]),
        forall|i: int| 0 <= i < other.len() ==> one.contains(#[trigger] other[i]),
    ensures
        best_quiet(one, base, budget, color, seen, one.len()) == best_quiet(
            other,
            base,
            budget,
            color,
            seen,
            other.len(),
        ),
{
    lemma_best_quiet_within(one, other, base, budget, color, seen);
    lemma_best_quiet_within(other, one, base, budget, color, seen);
}

/// The best of a base and the first moves of a list is no better than the
/// best of the base and more of them.
pub proof fn lemma_best_quiet_grows(
    list: Seq<Board>,
    base: int,
    budget: nat,
    color: int,
    seen: spec_fn(u64) -> nat,
    a: nat,
    b: nat,
)
    requires
        a <= b,
    ensures
        best_quiet(list, base, budget, color, seen, a) <= best_quiet(
            list,
            base,
            budget,
            color,
            seen,
            b,
        ),
    decreases b,
{
    if a < b {
        lemma_best_quiet_grows(list, base, budget, color, seen, a, (b - 1) as nat);
    }
}

} // verus!
