//! Reading what was written gives back what was there.

use crate::base::defs::PieceType;
use crate::base::fen::blanks;
use crate::base::fen::digit_char;
use crate::base::fen::digit_value;
use crate::base::fen::digits_value;
use crate::base::fen::is_numeral;
use crate::base::fen::letter_piece;
use crate::base::fen::number_of_text;
use crate::base::fen::numeral;
use crate::base::fen::piece_letter;
use crate::base::fen::scan_placement;
use crate::base::fen::Cell;
use crate::base::fen_write::placement_text;
use crate::base::fen_write::rank_text;
use vstd::prelude::*;

verus! {

/// Reading a placement from the place `i` on is reading what is left of it
/// from the start.
pub proof fn lemma_scan_shift(t: Seq<char>, i: int, done: Seq<Cell>, fresh: bool)
    requires
        0 <= i <= t.len(),
    ensures
        scan_placement(t, i, done, fresh) == scan_placement(
            t.subrange(i, t.len() as int),
            0,
            done,
            fresh,
        ),
    decreases t.len() - i,
{
    let s = t.subrange(i, t.len() as int);
    if i < t.len() {
        assert(s[0] == t[i]);
        assert(s.subrange(1, s.len() as int) =~= t.subrange(i + 1, t.len() as int));
        if done.len() % 8 == 0 && done.len() > 0 && !fresh {
            if t[i] == '/' && done.len() < 64 {
                lemma_scan_shift(t, i + 1, done, true);
                lemma_scan_shift(s, 1, done, true);
            }
        } else if 1 <= digit_value(t[i]) <= 8 && done.len() % 8 + digit_value(t[i]) <= 8 {
            let next = done + blanks(digit_value(t[i]));
            lemma_scan_shift(t, i + 1, next, false);
            lemma_scan_shift(s, 1, next, false);
        } else if letter_piece(t[i]) is Some {
            let next = done.push(letter_piece(t[i]));
            lemma_scan_shift(t, i + 1, next, false);
            lemma_scan_shift(s, 1, next, false);
        }
    }
}

/// Reading a text that starts with the digit for `k` empty cells.
pub proof fn lemma_scan_gap(k: int, rest: Seq<char>, done: Seq<Cell>, fresh: bool)
    requires
        1 <= k <= 8,
        done.len() % 8 + k <= 8,
        done.len() % 8 != 0 || done.len() == 0 || fresh,
    ensures
        scan_placement(seq![digit_char(k)] + rest, 0, done, fresh) == scan_placement(
            rest,
            0,
            done + blanks(k),
            false,
        ),
{
    let t = seq![digit_char(k)] + rest;
    assert(t[0] == digit_char(k));
    assert(digit_value(digit_char(k)) == k);
    lemma_scan_shift(t, 1, done + blanks(k), false);
    assert(t.subrange(1, t.len() as int) =~= rest);
}

/// Reading a text that starts with the letter of a piece.
pub proof fn lemma_scan_piece(
    kind: PieceType,
    black: bool,
    rest: Seq<char>,
    done: Seq<Cell>,
    fresh: bool,
)
    requires
        done.len() % 8 != 0 || done.len() == 0 || fresh,
    ensures
        scan_placement(seq![piece_letter(kind, black)] + rest, 0, done, fresh) == scan_placement(
            rest,
            0,
            done.push(Some((kind, black))),
            false,
        ),
{
    let c = piece_letter(kind, black);
    let t = seq![c] + rest;
    assert(t[0] == c);
    assert(digit_value(c) == 10);
    assert(letter_piece(c) == Some((kind, black)));
    lemma_scan_shift(t, 1, done.push(Some((kind, black))), false);
    assert(t.subrange(1, t.len() as int) =~= rest);
}

/// Reading a text that starts with the stroke between two ranks.
pub proof fn lemma_scan_stroke(rest: Seq<char>, done: Seq<Cell>)
    requires
        done.len() % 8 == 0,
        0 < done.len() < 64,
    ensures
        scan_placement(seq!['/'] + rest, 0, done, false) == scan_placement(rest, 0, done, true),
{
    let t = seq!['/'] + rest;
    assert(t[0] == '/');
    lemma_scan_shift(t, 1, done, true);
    assert(t.subrange(1, t.len() as int) =~= rest);
}

/// Reading the text of a rank, from its cell `j` on, gives the cells of the
/// rank.
pub proof fn lemma_scan_rank(
    cells: Seq<Cell>,
    start: int,
    j: int,
    pending: int,
    rest: Seq<char>,
)
    requires
        cells.len() == 64,
        start % 8 == 0,
        0 <= start <= 56,
        0 <= pending <= j <= 8,
        forall|i: int| start + j - pending <= i < start + j ==> cells[i] is None,
    ensures
        scan_placement(
            rank_text(cells, start, j, pending) + rest,
            0,
            cells.take(start + j - pending),
            j == pending,
        ) == scan_placement(rest, 0, cells.take(start + 8), false),
    decreases 8 - j,
{
    let done = cells.take(start + j - pending);
    if j >= 8 {
        if pending > 0 {
            assert(done.len() % 8 + pending <= 8) by {
                assert(done.len() == start + 8 - pending);
            }
            lemma_scan_gap(pending, rest, done, j == pending);
            assert(done + blanks(pending) =~= cells.take(start + 8));
        } else {
            assert(rank_text(cells, start, j, pending) + rest =~= rest);
        }
    } else {
        match cells[start + j] {
            None => {
                lemma_scan_rank(cells, start, j + 1, pending + 1, rest);
            },
            Some((kind, black)) => {
                let tail = rank_text(cells, start, j + 1, 0) + rest;
                let placed = cells.take(start + j);
                if pending > 0 {
                    assert(done.len() == start + j - pending);
                    lemma_scan_gap(
                        pending,
                        seq![piece_letter(kind, black)] + tail,
                        done,
                        j == pending,
                    );
                    assert(done + blanks(pending) =~= placed);
                    assert(rank_text(cells, start, j, pending) + rest =~= seq![
                        digit_char(pending),
                    ] + (seq![piece_letter(kind, black)] + tail));
                    assert(placed.len() == start + j);
                    lemma_scan_piece(kind, black, tail, placed, false);
                } else {
                    assert(rank_text(cells, start, j, pending) + rest =~= seq![
                        piece_letter(kind, black),
                    ] + tail);
                    assert(placed =~= done);
                    lemma_scan_piece(kind, black, tail, placed, j == pending);
                }
                assert(placed.push(Some((kind, black))) =~= cells.take(start + j + 1));
                lemma_scan_rank(cells, start, j + 1, 0, rest);
            },
        }
    }
}

/// Reading the text of the ranks from the `r`-th on gives the cells.
pub proof fn lemma_scan_ranks(cells: Seq<Cell>, r: int)
    requires
        cells.len() == 64,
        0 <= r <= 7,
    ensures
        scan_placement(placement_text(cells, r), 0, cells.take(8 * r), true) == Some(cells),
    decreases 8 - r,
{
    if r == 7 {
        lemma_scan_rank(cells, 56, 0, 0, Seq::empty());
        assert(rank_text(cells, 56, 0, 0) + Seq::<char>::empty() =~= placement_text(cells, 7));
        assert(cells.take(64) =~= cells);
    } else {
        let rest = seq!['/'] + placement_text(cells, r + 1);
        lemma_scan_rank(cells, 8 * r, 0, 0, rest);
        assert(rank_text(cells, 8 * r, 0, 0) + rest =~= placement_text(cells, r));
        lemma_scan_stroke(placement_text(cells, r + 1), cells.take(8 * r + 8));
        lemma_scan_ranks(cells, r + 1);
    }
}

/// The placement that is written is read as the cells that were written.
pub proof fn lemma_placement_round_trip(cells: Seq<Cell>)
    requires
        cells.len() == 64,
    ensures
        scan_placement(placement_text(cells, 0), 0, Seq::empty(), true) == Some(cells),
{
    lemma_scan_ranks(cells, 0);
    assert(cells.take(0) =~= Seq::<Cell>::empty());
}

/// A numeral is made of digits and spells its number.
pub proof fn lemma_numeral(n: nat)
    ensures
        is_numeral(numeral(n)),
        digits_value(numeral(n), numeral(n).len()) == n,
    decreases n,
{
    if n >= 10 {
        lemma_numeral(n / 10);
        let head = numeral(n / 10);
        let all = numeral(n);
        assert(all == head.push(digit_char((n % 10) as int)));
        lemma_digits_prefix(all, head, head.len());
        assert(digit_value(all[all.len() - 1]) == n % 10);
        assert forall|i: int| 0 <= i < all.len() implies digit_value(#[trigger] all[i]) < 10 by {
            if i < head.len() {
                assert(all[i] == head[i]);
            }
        }
    } else {
        assert(digit_value(digit_char(n as int)) == n);
        assert(digits_value(numeral(n), 0) == 0);
    }
}

/// The number that the first digits of a text spell does not depend on what
/// comes behind them.
pub proof fn lemma_digits_prefix(s: Seq<char>, t: Seq<char>, n: nat)
    requires
        n <= s.len(),
        n <= t.len(),
        forall|i: int| 0 <= i < n ==> s[i] == t[i],
    ensures
        digits_value(s, n) == digits_value(t, n),
    decreases n,
{
    if n > 0 {
        lemma_digits_prefix(s, t, (n - 1) as nat);
    }
}

/// A number that fits in 64 bits is read from its numeral.
pub proof fn lemma_number_round_trip(n: nat)
    requires
        n <= u64::MAX,
    ensures
        number_of_text(numeral(n)) == Some(n),
{
    lemma_numeral(n);
}

} // verus!
