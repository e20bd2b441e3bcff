//! Forsyth-Edwards notation: six fields, parted by single spaces, that name
//! what stands where, the side to move, the castling rights, the en-passant
//! square and the two move counters.

use crate::base::bits::holds;
use crate::base::defs::Board;
use crate::base::defs::PieceType;
use crate::base::meta::Bookkeeping;
use vstd::prelude::*;

verus! {

/// What stands on a square: nothing, or a piece of some kind that is black
/// or not.
pub type Cell = Option<(PieceType, bool)>;

/// The letter of a piece: upper case for white, lower case for black.
pub open spec fn piece_letter(kind: PieceType, black: bool) -> char {
    match (kind, black) {
        (PieceType::King, false) => 'K',
        (PieceType::Queen, false) => 'Q',
        (PieceType::Rook, false) => 'R',
        (PieceType::Bishop, false) => 'B',
        (PieceType::Knight, false) => 'N',
        (PieceType::Pawn, false) => 'P',
        (PieceType::King, true) => 'k',
        (PieceType::Queen, true) => 'q',
        (PieceType::Rook, true) => 'r',
        (PieceType::Bishop, true) => 'b',
        (PieceType::Knight, true) => 'n',
        (PieceType::Pawn, true) => 'p',
    }
}

/// The piece that a letter stands for.
pub open spec fn letter_piece(c: char) -> Cell {
    if c == 'K' {
        Some((PieceType::King, false))
    } else if c == 'Q' {
        Some((PieceType::Queen, false))
    } else if c == 'R' {
        Some((PieceType::Rook, false))
    } else if c == 'B' {
        Some((PieceType::Bishop, false))
    } else if c == 'N' {
        Some((PieceType::Knight, false))
    } else if c == 'P' {
        Some((PieceType::Pawn, false))
    } else if c == 'k' {
        Some((PieceType::King, true))
    } else if c == 'q' {
        Some((PieceType::Queen, true))
    } else if c == 'r' {
        Some((PieceType::Rook, true))
    } else if c == 'b' {
        Some((PieceType::Bishop, true))
    } else if c == 'n' {
        Some((PieceType::Knight, true))
    } else if c == 'p' {
        Some((PieceType::Pawn, true))
    } else {
        None
    }
}

/// The value of a decimal digit, or 10 for any other character.
pub open spec fn digit_value(c: char) -> int {
    if c == '0' {
        0
    } else if c == '1' {
        1
    } else if c == '2' {
        2
    } else if c == '3' {
        3
    } else if c == '4' {
        4
    } else if c == '5' {
        5
    } else if c == '6' {
        6
    } else if c == '7' {
        7
    } else if c == '8' {
        8
    } else if c == '9' {
        9
    } else {
        10
    }
}

/// The digit for a value below ten.
pub open spec fn digit_char(v: int) -> char {
    if v == 0 {
        '0'
    } else if v == 1 {
        '1'
    } else if v == 2 {
        '2'
    } else if v == 3 {
        '3'
    } else if v == 4 {
        '4'
    } else if v == 5 {
        '5'
    } else if v == 6 {
        '6'
    } else if v == 7 {
        '7'
    } else if v == 8 {
        '8'
    } else {
        '9'
    }
}

/// The number of a file letter, or 8 for any other character.
pub open spec fn file_value(c: char) -> int {
    if c == 'a' {
        0
    } else if c == 'b' {
        1
    } else if c == 'c' {
        2
    } else if c == 'd' {
        3
    } else if c == 'e' {
        4
    } else if c == 'f' {
        5
    } else if c == 'g' {
        6
    } else if c == 'h' {
        7
    } else {
        8
    }
}

/// The letter of a file.
pub open spec fn file_char(v: int) -> char {
    if v == 0 {
        'a'
    } else if v == 1 {
        'b'
    } else if v == 2 {
        'c'
    } else if v == 3 {
        'd'
    } else if v == 4 {
        'e'
    } else if v == 5 {
        'f'
    } else if v == 6 {
        'g'
    } else {
        'h'
    }
}

/// The square that the `i`-th cell of a placement stands for: the text
/// starts on a8 and runs along each rank, the eighth rank first.
pub open spec fn placement_square(i: int) -> int {
    8 * (7 - i / 8) + i % 8
}

/// The decimal numeral of `n`.
pub open spec fn numeral(n: nat) -> Seq<char>
    decreases n,
{
    if n < 10 {
        seq![digit_char(n as int)]
    } else {
        numeral(n / 10).push(digit_char((n % 10) as int))
    }
}

/// The number that the digits `s[0..n]` spell, where all of them are digits.
pub open spec fn digits_value(s: Seq<char>, n: nat) -> nat
    decreases n,
{
    if n == 0 {
        0
    } else {
        (digits_value(s, (n - 1) as nat) * 10 + digit_value(s[n - 1])) as nat
    }
}

/// Whether `s` is a numeral: at least one character, all of them digits.
pub open spec fn is_numeral(s: Seq<char>) -> bool {
    s.len() > 0 && forall|i: int| 0 <= i < s.len() ==> digit_value(#[trigger] s[i]) < 10
}

/// The place of the first space of `s` at or behind `i`, or the length of
/// `s` where there is none.
pub open spec fn next_space(s: Seq<char>, i: int) -> int
    decreases s.len() - i,
{
    if i < 0 || i >= s.len() {
        s.len() as int
    } else if s[i] == ' ' {
        i
    } else {
        next_space(s, i + 1)
    }
}

/// `k` empty cells.
pub open spec fn blanks(k: int) -> Seq<Cell> {
    Seq::new(k as nat, |i: int| None::<(PieceType, bool)>)
}

/// The cells that a placement text spells from its place `i` on, behind
/// the cells `done`; `fresh` says that a rank has just begun. A rank holds
/// eight cells, given by piece letters and by digits that count empty
/// cells; ranks are parted by a stroke; there are eight ranks.
pub open spec fn scan_placement(t: Seq<char>, i: int, done: Seq<Cell>, fresh: bool) -> Option<
    Seq<Cell>,
>
    decreases t.len() - i,
{
    if i < 0 || i >= t.len() {
        if done.len() == 64 {
            Some(done)
        } else {
            None
        }
    } else if done.len() % 8 == 0 && done.len() > 0 && !fresh {
        if t[i] == '/' && done.len() < 64 {
            scan_placement(t, i + 1, done, true)
        } else {
            None
        }
    } else if 1 <= digit_value(t[i]) <= 8 && done.len() % 8 + digit_value(t[i]) <= 8 {
        scan_placement(t, i + 1, done + blanks(digit_value(t[i])), false)
    } else if letter_piece(t[i]) is Some {
        scan_placement(t, i + 1, done.push(letter_piece(t[i])), false)
    } else {
        None
    }
}

/// The castling rights that a text spells: a dash for none, or any of the
/// letters K, Q, k and q.
pub open spec fn castling_of_text(t: Seq<char>) -> Option<(bool, bool, bool, bool)> {
    if t == seq!['-'] {
        Some((false, false, false, false))
    } else if t.len() > 0 && forall|i: int|
        0 <= i < t.len() ==> (#[trigger] t[i]) == 'K' || t[i] == 'Q' || t[i] == 'k' || t[i] == 'q' {
        Some((t.contains('Q'), t.contains('K'), t.contains('q'), t.contains('k')))
    } else {
        None
    }
}

/// The en-passant file that a text spells: a dash for none, or a square
/// whose file is kept.
pub open spec fn passing_of_text(t: Seq<char>) -> Option<Option<u8>> {
    if t == seq!['-'] {
        Some(None)
    } else if t.len() == 2 && file_value(t[0]) < 8 && 1 <= digit_value(t[1]) <= 8 {
        Some(Some(file_value(t[0]) as u8))
    } else {
        None
    }
}

/// The number that a text spells, where it is a numeral of a number that
/// fits in 64 bits.
pub open spec fn number_of_text(t: Seq<char>) -> Option<nat> {
    if is_numeral(t) && digits_value(t, t.len()) <= u64::MAX {
        Some(digits_value(t, t.len()))
    } else {
        None
    }
}

/// What a text in Forsyth-Edwards notation says.
pub struct FenRecord {
    pub cells: Seq<Cell>,
    pub fields: Bookkeeping,
}

/// The six fields of a text, where it has exactly six.
pub open spec fn fen_fields(s: Seq<char>) -> Option<Seq<Seq<char>>> {
    let e0 = next_space(s, 0);
    let e1 = next_space(s, e0 + 1);
    let e2 = next_space(s, e1 + 1);
    let e3 = next_space(s, e2 + 1);
    let e4 = next_space(s, e3 + 1);
    let e5 = next_space(s, e4 + 1);
    if e4 < s.len() && e5 == s.len() {
        Some(
            seq![
                s.subrange(0, e0),
                s.subrange(e0 + 1, e1),
                s.subrange(e1 + 1, e2),
                s.subrange(e2 + 1, e3),
                s.subrange(e3 + 1, e4),
                s.subrange(e4 + 1, e5),
            ],
        )
    } else {
        None
    }
}

/// What six fields say, where each of them is well formed. The half-move
/// clock is kept modulo 128 and the full-move number modulo 65536.
pub open spec fn record_of_fields(f: Seq<Seq<char>>) -> Option<FenRecord> {
    let cells = scan_placement(f[0], 0, Seq::empty(), true);
    let side = if f[1] == seq!['w'] {
        Some(true)
    } else if f[1] == seq!['b'] {
        Some(false)
    } else {
        None
    };
    let rights = castling_of_text(f[2]);
    let passing = passing_of_text(f[3]);
    let half = number_of_text(f[4]);
    let full = number_of_text(f[5]);
    match (cells, side, rights, passing, half, full) {
        (Some(c), Some(white), Some((wq, wk, bq, bk)), Some(p), Some(h), Some(n)) => Some(
            FenRecord {
                cells: c,
                fields: Bookkeeping {
                    white_queen_side: wq,
                    white_king_side: wk,
                    black_queen_side: bq,
                    black_king_side: bk,
                    ep_file: match p {
                        Some(file) => file,
                        None => 0,
                    },
                    ep_valid: p is Some,
                    white_to_move: white,
                    half_moves: (h % 128) as u32,
                    full_moves: (n % 65536) as u32,
                },
            },
        ),
        _ => None,
    }
}

/// What a text says, where it is well formed: it has six fields, parted by
/// single spaces, and each of them is well formed.
pub open spec fn parse_fen(s: Seq<char>) -> Option<FenRecord> {
    match fen_fields(s) {
        None => None,
        Some(f) => record_of_fields(f),
    }
}

impl Board {
    /// The board without any piece, with the given bookkeeping.
    pub open spec fn empty_with(fields: Bookkeeping) -> Board {
        Board {
            rooks: 0,
            knights: 0,
            bishops: 0,
            queens: 0,
            kings: 0,
            pawns: 0,
            metadata: fields.word() as u32,
            latest_move: 0,
            eval: 0,
        }
    }

    /// This position with the first `n` cells of a placement put on their
    /// squares.
    pub open spec fn with_cells(&self, cells: Seq<Cell>, n: nat) -> Board
        decreases n,
    {
        if n == 0 {
            *self
        } else {
            let rest = self.with_cells(cells, (n - 1) as nat);
            match cells[n - 1] {
                Some((kind, black)) => rest.with_piece(kind, black, placement_square(n - 1)),
                None => rest,
            }
        }
    }

    /// The position that a record describes.
    pub open spec fn of_record(r: FenRecord) -> Board {
        Self::empty_with(r.fields).with_cells(r.cells, 64).scored()
    }

    /// What stands on `sq`: the first that is found of white king, queen,
    /// rook, bishop, knight, pawn, then the same of black.
    pub open spec fn cell_on(&self, sq: int) -> Cell {
        if self.stands(PieceType::King, false, sq) {
            Some((PieceType::King, false))
        } else if self.stands(PieceType::Queen, false, sq) {
            Some((PieceType::Queen, false))
        } else if self.stands(PieceType::Rook, false, sq) {
            Some((PieceType::Rook, false))
        } else if self.stands(PieceType::Bishop, false, sq) {
            Some((PieceType::Bishop, false))
        } else if self.stands(PieceType::Knight, false, sq) {
            Some((PieceType::Knight, false))
        } else if self.stands(PieceType::Pawn, false, sq) {
            Some((PieceType::Pawn, false))
        } else if self.stands(PieceType::King, true, sq) {
            Some((PieceType::King, true))
        } else if self.stands(PieceType::Queen, true, sq) {
            Some((PieceType::Queen, true))
        } else if self.stands(PieceType::Rook, true, sq) {
            Some((PieceType::Rook, true))
        } else if self.stands(PieceType::Bishop, true, sq) {
            Some((PieceType::Bishop, true))
        } else if self.stands(PieceType::Knight, true, sq) {
            Some((PieceType::Knight, true))
        } else if self.stands(PieceType::Pawn, true, sq) {
            Some((PieceType::Pawn, true))
        } else {
            None
        }
    }

    /// What stands on square `sq`.
    pub fn piece_at(&self, sq: u8) -> (r: Cell)
        requires
            sq < 64,
        ensures
            r == self.cell_on(sq as int),
    {
        if holds(self.piece_map(PieceType::King, false), sq) {
            Some((PieceType::King, false))
        } else if holds(self.piece_map(PieceType::Queen, false), sq) {
            Some((PieceType::Queen, false))
        } else if holds(self.piece_map(PieceType::Rook, false), sq) {
            Some((PieceType::Rook, false))
        } else if holds(self.piece_map(PieceType::Bishop, false), sq) {
            Some((PieceType::Bishop, false))
        } else if holds(self.piece_map(PieceType::Knight, false), sq) {
            Some((PieceType::Knight, false))
        } else if holds(self.piece_map(PieceType::Pawn, false), sq) {
            Some((PieceType::Pawn, false))
        } else if holds(self.piece_map(PieceType::King, true), sq) {
            Some((PieceType::King, true))
        } else if holds(self.piece_map(PieceType::Queen, true), sq) {
            Some((PieceType::Queen, true))
        } else if holds(self.piece_map(PieceType::Rook, true), sq) {
            Some((PieceType::Rook, true))
        } else if holds(self.piece_map(PieceType::Bishop, true), sq) {
            Some((PieceType::Bishop, true))
        } else if holds(self.piece_map(PieceType::Knight, true), sq) {
            Some((PieceType::Knight, true))
        } else if holds(self.piece_map(PieceType::Pawn, true), sq) {
            Some((PieceType::Pawn, true))
        } else {
            None
        }
    }
}

} // verus!
