//! Writing a position in Forsyth-Edwards notation.

use crate::base::defs::Board;
use crate::base::defs::PieceType;
use crate::base::fen::digit_char;
use crate::base::fen::file_char;
use crate::base::fen::numeral;
use crate::base::fen::piece_letter;
use crate::base::fen::placement_square;
use crate::base::fen::Cell;
use crate::base::meta::Bookkeeping;
use vstd::prelude::*;

verus! {

/// The digit for `pending` empty cells, or nothing where there are none.
pub open spec fn gap_text(pending: int) -> Seq<char> {
    if pending > 0 {
        seq![digit_char(pending)]
    } else {
        Seq::empty()
    }
}

/// The text of the cells `start + j` to `start + 7` of a placement, behind
/// `pending` empty cells that have not been written yet.
pub open spec fn rank_text(cells: Seq<Cell>, start: int, j: int, pending: int) -> Seq<char>
    decreases 8 - j,
{
    if j >= 8 {
        gap_text(pending)
    } else {
        match cells[start + j] {
            None => rank_text(cells, start, j + 1, pending + 1),
            Some((kind, black)) => gap_text(pending).push(piece_letter(kind, black)) + rank_text(
                cells,
                start,
                j + 1,
                0,
            ),
        }
    }
}

/// The text of the ranks of a placement from the `r`-th on, parted by
/// strokes.
pub open spec fn placement_text(cells: Seq<Cell>, r: int) -> Seq<char>
    decreases 8 - r,
{
    if r >= 8 {
        Seq::empty()
    } else if r == 7 {
        rank_text(cells, 56, 0, 0)
    } else {
        rank_text(cells, 8 * r, 0, 0).push('/') + placement_text(cells, r + 1)
    }
}

/// The text of the castling rights: the letters K, Q, k, q of the rights
/// that are left, in this order, or a dash.
pub open spec fn castling_text(f: Bookkeeping) -> Seq<char> {
    let text = (if f.white_king_side {
        seq!['K']
    } else {
        Seq::empty()
    }) + (if f.white_queen_side {
        seq!['Q']
    } else {
        Seq::empty()
    }) + (if f.black_king_side {
        seq!['k']
    } else {
        Seq::empty()
    }) + (if f.black_queen_side {
        seq!['q']
    } else {
        Seq::empty()
    });
    if text.len() == 0 {
        seq!['-']
    } else {
        text
    }
}

/// The text of the en-passant square: the square behind the pawn that has
/// just made a double step, or a dash.
pub open spec fn passing_text(f: Bookkeeping) -> Seq<char> {
    if f.ep_valid {
        seq![
            file_char(f.ep_file as int),
            if f.white_to_move {
                '6'
            } else {
                '3'
            },
        ]
    } else {
        seq!['-']
    }
}

/// The text of the side to move.
pub open spec fn side_text(f: Bookkeeping) -> Seq<char> {
    if f.white_to_move {
        seq!['w']
    } else {
        seq!['b']
    }
}

/// Six fields with a space between each two.
pub open spec fn fields_text(
    a: Seq<char>,
    b: Seq<char>,
    c: Seq<char>,
    d: Seq<char>,
    e: Seq<char>,
    f: Seq<char>,
) -> Seq<char> {
    a + seq![' '] + b + seq![' '] + c + seq![' '] + d + seq![' '] + e + seq![' '] + f
}

/// Appends one character to a string. This is `String::push` of the
/// standard library, taken on trust: the string afterwards is the string
/// before with the character behind it.
#[verifier::external_body]
fn push_char(s: &mut String, c: char)
    ensures
        final(s)@ == old(s)@.push(c),
{
    s.push(c);
}

/// The string made of the given characters.
pub fn string_of(chars: &Vec<char>) -> (r: String)
    ensures
        r@ == chars@,
{
    let mut out = String::new();
    let mut i: usize = 0;
    while i < chars.len()
        invariant
            i <= chars@.len(),
            out@ == chars@.take(i as int),
        decreases chars@.len() - i,
    {
        push_char(&mut out, chars[i]);
        assert(chars@.take(i + 1) =~= chars@.take(i as int).push(chars@[i as int]));
        i = i + 1;
    }
    assert(chars@.take(chars@.len() as int) =~= chars@);
    out
}

pub fn digit_for(v: u8) -> (c: char)
    requires
        v < 10,
    ensures
        c == digit_char(v as int),
{
    if v == 0 {
        '0'
    } else if v == 1 {
        '1'
    } else if v == 2 {
        '2'
    } else if v == 3 {
        '3'
    } else if v == 4 {
        '4'
    } else if v == 5 {
        '5'
    } else if v == 6 {
        '6'
    } else if v == 7 {
        '7'
    } else if v == 8 {
        '8'
    } else {
        '9'
    }
}

pub fn letter_for_file(v: u8) -> (c: char)
    requires
        v < 8,
    ensures
        c == file_char(v as int),
{
    if v == 0 {
        'a'
    } else if v == 1 {
        'b'
    } else if v == 2 {
        'c'
    } else if v == 3 {
        'd'
    } else if v == 4 {
        'e'
    } else if v == 5 {
        'f'
    } else if v == 6 {
        'g'
    } else {
        'h'
    }
}

fn letter_for(kind: PieceType, black: bool) -> (c: char)
    ensures
        c == piece_letter(kind, black),
{
    match kind {
        PieceType::King => if black {
            'k'
        } else {
            'K'
        },
        PieceType::Queen => if black {
            'q'
        } else {
            'Q'
        },
        PieceType::Rook => if black {
            'r'
        } else {
            'R'
        },
        PieceType::Bishop => if black {
            'b'
        } else {
            'B'
        },
        PieceType::Knight => if black {
            'n'
        } else {
            'N'
        },
        PieceType::Pawn => if black {
            'p'
        } else {
            'P'
        },
    }
}

/// Appends the decimal numeral of `n`.
fn write_number(out: &mut Vec<char>, n: u32)
    ensures
        final(out)@ == old(out)@ + numeral(n as nat),
    decreases n,
{
    if n < 10 {
        out.push(digit_for(n as u8));
        assert(out@ =~= old(out)@ + numeral(n as nat));
    } else {
        write_number(out, n / 10);
        out.push(digit_for((n % 10) as u8));
        assert(out@ =~= old(out)@ + numeral(n as nat));
    }
}

fn write_castling(out: &mut Vec<char>, f: &Bookkeeping)
    ensures
        final(out)@ == old(out)@ + castling_text(*f),
{
    if f.white_king_side {
        out.push('K');
    }
    if f.white_queen_side {
        out.push('Q');
    }
    if f.black_king_side {
        out.push('k');
    }
    if f.black_queen_side {
        out.push('q');
    }
    if !f.white_king_side && !f.white_queen_side && !f.black_king_side && !f.black_queen_side {
        out.push('-');
    }
    assert(out@ =~= old(out)@ + castling_text(*f));
}

fn write_passing(out: &mut Vec<char>, f: &Bookkeeping)
    requires
        f.ep_file < 8,
    ensures
        final(out)@ == old(out)@ + passing_text(*f),
{
    if f.ep_valid {
        out.push(letter_for_file(f.ep_file));
        out.push(
            if f.white_to_move {
                '6'
            } else {
                '3'
            },
        );
    } else {
        out.push('-');
    }
    assert(out@ =~= old(out)@ + passing_text(*f));
}

impl Board {
    /// What stands on the squares, in the order of a placement text.
    pub open spec fn cells(&self) -> Seq<Cell> {
        Seq::new(64, |i: int| self.cell_on(placement_square(i)))
    }

    /// The position in Forsyth-Edwards notation.
    pub open spec fn fen_text(&self) -> Seq<char> {
        let f = self.bookkeeping();
        fields_text(
            placement_text(self.cells(), 0),
            side_text(f),
            castling_text(f),
            passing_text(f),
            numeral(f.half_moves as nat),
            numeral(f.full_moves as nat),
        )
    }

    fn write_rank(&self, out: &mut Vec<char>, r: usize)
        requires
            r < 8,
        ensures
            final(out)@ == old(out)@ + rank_text(self.cells(), 8 * r, 0, 0),
    {
        let mut pending: u8 = 0;
        let mut j: usize = 0;
        while j < 8
            invariant
                j <= 8,
                r < 8,
                pending <= j,
                old(out)@ + rank_text(self.cells(), 8 * r, 0, 0) == out@ + rank_text(
                    self.cells(),
                    8 * r,
                    j as int,
                    pending as int,
                ),
            decreases 8 - j,
        {
            let i = 8 * r + j;
            let sq: u8 = (8 * (7 - i / 8) + i % 8) as u8;
            let ghost before = out@;
            let ghost rest = rank_text(self.cells(), 8 * r, j + 1, 0);
            match self.piece_at(sq) {
                None => {
                    pending = pending + 1;
                },
                Some((kind, black)) => {
                    if pending > 0 {
                        out.push(digit_for(pending));
                    }
                    out.push(letter_for(kind, black));
                    assert(out@ + rest =~= before + (gap_text(pending as int).push(
                        piece_letter(kind, black),
                    ) + rest));
                    pending = 0;
                },
            }
            j = j + 1;
        }
        let ghost before = out@;
        if pending > 0 {
            out.push(digit_for(pending));
        }
        assert(out@ =~= before + gap_text(pending as int));
    }

    fn write_placement(&self, out: &mut Vec<char>)
        ensures
            final(out)@ == old(out)@ + placement_text(self.cells(), 0),
    {
        let mut r: usize = 0;
        while r < 8
            invariant
                r <= 8,
                old(out)@ + placement_text(self.cells(), 0) == out@ + placement_text(
                    self.cells(),
                    r as int,
                ),
            decreases 8 - r,
        {
            let ghost before = out@;
            let ghost rest = placement_text(self.cells(), r + 1);
            self.write_rank(out, r);
            if r < 7 {
                out.push('/');
                assert(out@ + rest =~= before + (rank_text(self.cells(), 8 * r, 0, 0).push('/')
                    + rest));
            }
            r = r + 1;
        }
        assert(out@ =~= old(out)@ + placement_text(self.cells(), 0));
    }

    /// The position in Forsyth-Edwards notation: what stands where from the
    /// eighth rank down, the side to move, the castling rights, the
    /// en-passant square and the two move counters.
    pub fn to_fen(&self) -> (r: String)
        ensures
            r@ == self.fen_text(),
    {
        let f = self.read_bookkeeping();
        let mut out: Vec<char> = Vec::new();
        self.write_placement(&mut out);
        out.push(' ');
        out.push(
            if f.white_to_move {
                'w'
            } else {
                'b'
            },
        );
        out.push(' ');
        write_castling(&mut out, &f);
        out.push(' ');
        write_passing(&mut out, &f);
        out.push(' ');
        write_number(&mut out, f.half_moves);
        out.push(' ');
        write_number(&mut out, f.full_moves);
        assert(out@ =~= self.fen_text());
        string_of(&out)
    }
}

} // verus!
