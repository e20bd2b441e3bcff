//! The opening book: for the positions that it knows, the moves that were
//! played from them and how often.

use crate::base::defs::Board;
use crate::base::defs::LegalMoveVec;
use crate::base::defs::PieceType;
use crate::base::fen::parse_fen;
use crate::base::order::move_by_tag;
use crate::base::order::tag_place;
use crate::base::uci::text_tag;
use crate::base::uci::uci_to_uint;
use crate::bot::types::OpeningEntry;
use std::collections::HashMap;
use vstd::prelude::*;

verus! {

/// The moves of the book by the key of the position, which is the hash
/// that the crate `chess` has for it.
pub type OpeningBook = HashMap<u64, Vec<OpeningEntry>>;

/// The hash that the crate `chess` has for the position that a text in
/// Forsyth-Edwards notation describes, or nothing where the crate does not
/// take the text for a position of a game. The random numbers that the
/// crate hashes with are constants of the program.
pub uninterp spec fn chess_hash(fen: Seq<char>) -> Option<u64>;

/// Whether a text describes a position in which each side has a king.
pub open spec fn names_kings(fen: Seq<char>) -> bool {
    parse_fen(fen) matches Some(record) && Board::of_record(record).pieces(PieceType::King, false)
        != 0 && Board::of_record(record).pieces(PieceType::King, true) != 0
}

/// The hash of the crate `chess` for the position that a text describes.
/// This is `Board::from_str` of that crate, and `Board::get_hash` on what
/// it gives, taken on trust: the result depends on the text alone. The
/// crate looks up the king of the side to move in its tables before it has
/// made sure that there is one, so a text that does not name both kings in
/// a well-formed placement is left out.
#[verifier::external_body]
fn chess_key(fen: &str) -> (r: Option<u64>)
    requires
        names_kings(fen@),
    ensures
        r == chess_hash(fen@),
{
    let read: Result<chess::Board, chess::Error> = std::str::FromStr::from_str(fen);
    match read {
        Ok(position) => Some(position.get_hash()),
        Err(_) => None,
    }
}

impl Board {
    /// The key under which the opening book holds the position, where it
    /// can hold it: the hash of the crate `chess` for the position as it
    /// is written in Forsyth-Edwards notation.
    pub open spec fn book_key_value(&self) -> Option<u64> {
        if names_kings(self.fen_text()) {
            chess_hash(self.fen_text())
        } else {
            None
        }
    }

    /// The key under which the opening book holds the position, or nothing
    /// for a position that it cannot hold: one that is not read back from
    /// its notation with both kings, or that the crate `chess` does not
    /// take for a position of a game.
    pub fn book_key(&self) -> (r: Option<u64>)
        ensures
            r == self.book_key_value(),
    {
        let text = self.to_fen();
        match Board::from_fen(&text) {
            Some(read) => {
                if read.piece_map(PieceType::King, false) != 0 && read.piece_map(
                    PieceType::King,
                    true,
                ) != 0 {
                    chess_key(text.as_str())
                } else {
                    None
                }
            },
            None => None,
        }
    }
}

/// The weights of the first `n` entries together.
pub open spec fn weight_sum(entries: Seq<OpeningEntry>, n: nat) -> nat
    decreases n,
{
    if n == 0 {
        0
    } else {
        weight_sum(entries, (n - 1) as nat) + entries[n - 1].1 as nat
    }
}

/// Whether `ticket` falls to the entry at `index` when each entry owns as
/// many tickets as its weight says, handed out in the order of the list.
pub open spec fn wins(entries: Seq<OpeningEntry>, ticket: nat, index: int) -> bool {
    0 <= index < entries.len() && weight_sum(entries, index as nat) <= ticket < weight_sum(
        entries,
        (index + 1) as nat,
    )
}

/// A number below `bound`, drawn at random. This is `Rng::gen_range` on
/// `thread_rng()` of the crate `rand`, taken on trust: the number lies in
/// the range that was asked for.
#[verifier::external_body]
fn random_below(bound: u64) -> (r: u64)
    requires
        bound > 0,
    ensures
        r < bound,
{
    rand::Rng::gen_range(&mut rand::thread_rng(), 0..bound)
}

proof fn lemma_weights_grow(entries: Seq<OpeningEntry>, a: nat, b: nat)
    requires
        a <= b,
    ensures
        weight_sum(entries, a) <= weight_sum(entries, b),
    decreases b,
{
    if a < b {
        lemma_weights_grow(entries, a, (b - 1) as nat);
    }
}

/// The weights of all entries together, where that number fits in 64 bits.
pub fn total_weight(entries: &Vec<OpeningEntry>) -> (r: Option<u64>)
    ensures
        match r {
            Some(total) => total == weight_sum(entries@, entries@.len()),
            None => weight_sum(entries@, entries@.len()) > u64::MAX,
        },
{
    let mut total: u64 = 0;
    let mut i: usize = 0;
    while i < entries.len()
        invariant
            i <= entries@.len(),
            total == weight_sum(entries@, i as nat),
        decreases entries@.len() - i,
    {
        let w = entries[i].1 as u64;
        if total > u64::MAX - w {
            proof {
                lemma_weights_grow(entries@, (i + 1) as nat, entries@.len());
            }
            return None;
        }
        total = total + w;
        i = i + 1;
    }
    Some(total)
}

/// The entry to which `ticket` falls.
pub fn pick_weighted(entries: &Vec<OpeningEntry>, ticket: u64) -> (index: usize)
    requires
        ticket < weight_sum(entries@, entries@.len()),
    ensures
        wins(entries@, ticket as nat, index as int),
{
    let mut below: u64 = 0;
    let mut i: usize = 0;
    while i < entries.len()
        invariant
            i <= entries@.len(),
            below == weight_sum(entries@, i as nat),
            below <= ticket,
            ticket < weight_sum(entries@, entries@.len()),
        decreases entries@.len() - i,
    {
        let w = entries[i].1 as u64;
        if ticket - below < w {
            return i;
        }
        below = below + w;
        i = i + 1;
    }
    proof {
        assert(false);
    }
    0
}

/// The first successor in `moves` whose move has the given tag, if there is one.
pub fn find_move(moves: &LegalMoveVec, tag: u32) -> (r: Option<Board>)
    ensures
        r == move_by_tag(moves@, tag),
        r matches Some(b) ==> moves@.contains(b) && b.latest_move == tag,
        r is None ==> forall|i: int| 0 <= i < moves@.len() ==> moves@[i].latest_move != tag,
{
    let mut i: usize = 0;
    while i < moves.data.len()
        invariant
            i <= moves@.len(),
            forall|j: int| 0 <= j < i ==> moves@[j].latest_move != tag,
            tag_place(moves@, tag, 0) == tag_place(moves@, tag, i as nat),
        decreases moves@.len() - i,
    {
        if moves.data[i].latest_move == tag {
            return Some(moves.data[i]);
        }
        i = i + 1;
    }
    None
}

/// The successor that the move written in `uci` leads to from `board`, if
/// the move is written well and legal there.
pub fn parse_uci_move(uci: &str, board: &Board) -> (r: Option<Board>)
    ensures
        r == reply_to(*board, uci@),
        match r {
            Some(b) => board.successors().contains(b) && text_tag(uci@) == Some(
                b.latest_move as int,
            ),
            None => text_tag(uci@) matches Some(tag) ==> forall|i: int|
                0 <= i < board.successors().len() ==> (
                #[trigger] board.successors()[i]).latest_move != tag,
        },
{
    match uci_to_uint(uci) {
        Some(tag) => board.apply(tag as u32),
        None => None,
    }
}

/// The successor that the book move `entry` leads to from `board`, if the
/// move is written well and legal there.
pub fn book_move(board: &Board, entry: &OpeningEntry) -> (r: Option<Board>)
    ensures
        r == reply_to(*board, entry.0@),
        r matches Some(b) ==> board.successors().contains(b),
{
    parse_uci_move(entry.0.as_str(), board)
}

/// A move from the book for `board`, which the book holds under `key`.
/// Where the book has the key and the weights of its moves are not all
/// nought, one of the moves that have a weight is drawn, each as often as
/// its weight says, and the result is the successor by that move, or
/// nothing where the move is not written well or not legal. Where the book
/// has not got the key, or its moves have no weight or weights too large to
/// add up, there is no move.
pub fn lookup_with_key(book: &OpeningBook, board: &Board, key: u64) -> (r: Option<Board>)
    ensures
        key_open(book@, key) ==> exists|i: int| #[trigger]
            key_offers(book@, key, i) && r == reply_to(*board, book@[key]@[i].0@),
        !key_open(book@, key) ==> r is None,
        r matches Some(b) ==> board.successors().contains(b),
{
    match book.get(&key) {
        Some(entries) => {
            match total_weight(entries) {
                Some(total) => {
                    if total == 0 {
                        return None;
                    }
                    let ticket = random_below(total);
                    let r = book_reply(entries, board, ticket);
                    proof {
                        let index = choose|index: int| wins(entries@, ticket as nat, index);
                        lemma_weights_grow(entries@, index as nat, (index + 1) as nat);
                        assert(entries@[index].1 > 0);
                        assert(key_offers(book@, key, index));
                        assert(r == reply_to(*board, book@[key]@[index].0@));
                        if r is Some {
                            assert(board.successors().contains(r->0));
                        }
                    }
                    r
                },
                None => None,
            }
        },
        None => None,
    }
}

/// A move from the book for `board`: what the book gives under the key of
/// the position, and nothing for a position that has no key.
pub fn lookup_opening_db(book: &OpeningBook, board: &Board) -> (r: Option<Board>)
    ensures
        book_open(book@, *board) ==> exists|i: int| #[trigger]
            book_offers(book@, *board, i) && r == reply_to(
                *board,
                book_line(book@, *board, i),
            ),
        !book_open(book@, *board) ==> r is None,
        book_sure(book@, *board) ==> r is Some,
        book_silent(book@, *board) ==> r is None,
        r matches Some(b) ==> board.successors().contains(b),
{
    match board.book_key() {
        Some(key) => {
            let r = lookup_with_key(book, board, key);
            proof {
                if key_open(book@, key) {
                    let i = choose|i: int| #[trigger]
                        key_offers(book@, key, i) && r == reply_to(*board, book@[key]@[i].0@);
                    assert(book_offers(book@, *board, i));
                }
            }
            r
        },
        None => None,
    }
}

/// The successor that the move written in `text` leads to from `board`:
/// the legal successor by the move that the text names, and nothing where
/// the text names no move or the move is not legal.
pub open spec fn reply_to(board: Board, text: Seq<char>) -> Option<Board> {
    match text_tag(text) {
        Some(tag) => move_by_tag(board.successors(), tag as u32),
        None => None,
    }
}

/// A ticket falls to one entry only.
pub proof fn lemma_one_winner(entries: Seq<OpeningEntry>, ticket: nat, i: int, j: int)
    requires
        wins(entries, ticket, i),
        wins(entries, ticket, j),
    ensures
        i == j,
{
    if i < j {
        lemma_weights_grow(entries, (i + 1) as nat, j as nat);
    }
    if j < i {
        lemma_weights_grow(entries, (j + 1) as nat, i as nat);
    }
}

/// The successor that the book gives for `board` when the draw has given
/// `ticket`: the one that the move of the entry leads to to which the
/// ticket falls, where that move is written well and legal.
pub fn book_reply(entries: &Vec<OpeningEntry>, board: &Board, ticket: u64) -> (r: Option<Board>)
    requires
        ticket < weight_sum(entries@, entries@.len()),
    ensures
        exists|index: int| wins(entries@, ticket as nat, index),
        forall|index: int|
            wins(entries@, ticket as nat, index) ==> r == reply_to(
                *board,
                (#[trigger] entries@[index]).0@,
            ),
{
    let index = pick_weighted(entries, ticket);
    proof {
        assert forall|other: int| wins(entries@, ticket as nat, other) implies other
            == index by {
            lemma_one_winner(entries@, ticket as nat, other, index as int);
        }
    }
    book_move(board, &entries[index])
}

/// Whether the book has moves to draw from under `key`: it has the key,
/// and the weights of its moves there are not all nought and fit together
/// in 64 bits.
pub open spec fn key_open(book: Map<u64, Vec<OpeningEntry>>, key: u64) -> bool {
    book.contains_key(key) && 0 < weight_sum(book[key]@, book[key]@.len()) <= u64::MAX
}

/// Whether the book may give the move of its `i`-th entry under `key`: it
/// has moves to draw from there, and the entry has a weight.
pub open spec fn key_offers(book: Map<u64, Vec<OpeningEntry>>, key: u64, i: int) -> bool {
    key_open(book, key) && 0 <= i < book[key]@.len() && book[key]@[i].1 > 0
}

/// Whether the book has moves to draw from for `board`: the position has a
/// key, and the book has moves to draw from under it.
pub open spec fn book_open(book: Map<u64, Vec<OpeningEntry>>, board: Board) -> bool {
    board.book_key_value() matches Some(key) && key_open(book, key)
}

/// Whether the book may give the move of its `i`-th entry for `board`.
pub open spec fn book_offers(book: Map<u64, Vec<OpeningEntry>>, board: Board, i: int) -> bool {
    board.book_key_value() matches Some(key) && key_offers(book, key, i)
}

/// The move of the `i`-th entry that the book has for `board`, as it is
/// written.
pub open spec fn book_line(book: Map<u64, Vec<OpeningEntry>>, board: Board, i: int) -> Seq<char> {
    book[board.book_key_value()->0]@[i].0@
}

/// Whether the book has a move for `board` whatever is drawn: it may give a
/// move, and each move that it may give is written well and legal.
pub open spec fn book_sure(book: Map<u64, Vec<OpeningEntry>>, board: Board) -> bool {
    book_open(book, board) && forall|i: int| #[trigger]
        book_offers(book, board, i) ==> reply_to(board, book_line(book, board, i)) is Some
}

/// Whether the book may give the position `next` for `board`: an entry that
/// may be drawn leads to it.
pub open spec fn book_gives(book: Map<u64, Vec<OpeningEntry>>, board: Board, next: Board) -> bool {
    exists|i: int| #[trigger]
        book_offers(book, board, i) && reply_to(board, book_line(book, board, i)) == Some(next)
}

/// Whether the book has no move for `board` whatever is drawn: no move
/// that it may give is written well and legal.
pub open spec fn book_silent(book: Map<u64, Vec<OpeningEntry>>, board: Board) -> bool {
    forall|i: int| #[trigger]
        book_offers(book, board, i) ==> reply_to(board, book_line(book, board, i)) is None
}

} // verus!
