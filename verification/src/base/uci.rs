//! Moves in the notation of the Universal Chess Interface: source square,
//! destination square, and for a promotion the letter of the new piece.

use crate::base::defs::Board;
use crate::base::fen::digit_char;
use crate::base::fen::digit_value;
use crate::base::fen::file_char;
use crate::base::fen::file_value;
use crate::base::fen_read::chars_of;
use crate::base::fen_read::digit_of;
use crate::base::fen_read::file_of_letter;
use crate::base::fen_write::digit_for;
use crate::base::fen_write::letter_for_file;
use crate::base::fen_write::string_of;
use vstd::prelude::*;

verus! {

/// The name of a square: the letter of its file and the digit of its rank.
pub open spec fn square_name(sq: int) -> Seq<char> {
    seq![file_char(sq % 8), digit_char(sq / 8 + 1)]
}

/// The letter of the piece that a promotion gives, by its number in a move
/// tag.
pub open spec fn promotion_letter(number: int) -> char {
    if number == 0 {
        'q'
    } else if number == 1 {
        'r'
    } else if number == 2 {
        'b'
    } else {
        'n'
    }
}

/// The number in a move tag of the piece that a letter names in a
/// promotion, in either case, or 4 for any other character.
pub open spec fn promotion_value(c: char) -> int {
    if c == 'q' || c == 'Q' {
        0
    } else if c == 'r' || c == 'R' {
        1
    } else if c == 'b' || c == 'B' {
        2
    } else if c == 'n' || c == 'N' {
        3
    } else {
        4
    }
}

/// The move that a tag names, in the notation of the interface.
pub open spec fn tag_text(tag: int) -> Seq<char> {
    let base = square_name((tag / 64) % 64) + square_name(tag % 64);
    if (tag / 16384) % 2 == 1 {
        base.push(promotion_letter((tag / 4096) % 4))
    } else {
        base
    }
}

/// The square that the two characters at `i` name, or nothing where they
/// name none.
pub open spec fn square_at(t: Seq<char>, i: int) -> Option<int> {
    if file_value(t[i]) < 8 && 1 <= digit_value(t[i + 1]) <= 8 {
        Some(file_value(t[i]) + 8 * (digit_value(t[i + 1]) - 1))
    } else {
        None
    }
}

/// The tag of the move that a text names: four characters for the two
/// squares, and a fifth for the piece of a promotion.
pub open spec fn text_tag(t: Seq<char>) -> Option<int> {
    if t.len() != 4 && t.len() != 5 {
        None
    } else {
        match (square_at(t, 0), square_at(t, 2)) {
            (Some(from), Some(to)) => if t.len() == 4 {
                Some(64 * from + to)
            } else if promotion_value(t[4]) < 4 {
                Some(64 * from + to + 4096 * (4 + promotion_value(t[4])))
            } else {
                None
            },
            _ => None,
        }
    }
}

fn read_square(t: &Vec<char>, i: usize) -> (r: Option<u16>)
    requires
        i + 1 < t@.len(),
        i < 8,
    ensures
        match square_at(t@, i as int) {
            Some(sq) => r == Some(sq as u16) && 0 <= sq < 64,
            None => r is None,
        },
{
    let file = file_of_letter(t[i]);
    let rank = digit_of(t[i + 1]);
    if file < 8 && 1 <= rank && rank <= 8 {
        Some((file + 8 * (rank - 1)) as u16)
    } else {
        None
    }
}

/// The tag of the move that a text names, or nothing where the text names
/// no move.
pub fn uci_to_uint(uci: &str) -> (r: Option<u16>)
    ensures
        match text_tag(uci@) {
            Some(tag) => r == Some(tag as u16) && 0 <= tag < 32768,
            None => r is None,
        },
{
    let t = chars_of(uci);
    if t.len() != 4 && t.len() != 5 {
        return None;
    }
    let from = match read_square(&t, 0) {
        Some(sq) => sq,
        None => {
            return None;
        },
    };
    let to = match read_square(&t, 2) {
        Some(sq) => sq,
        None => {
            return None;
        },
    };
    if t.len() == 4 {
        return Some(64 * from + to);
    }
    let c = t[4];
    let number: u16 = if c == 'q' || c == 'Q' {
        0
    } else if c == 'r' || c == 'R' {
        1
    } else if c == 'b' || c == 'B' {
        2
    } else if c == 'n' || c == 'N' {
        3
    } else {
        return None;
    };
    Some(64 * from + to + 4096 * (4 + number))
}

impl Board {
    /// The name of a square.
    pub fn square_to_uci(square: u16) -> (r: String)
        requires
            square < 64,
        ensures
            r@ == square_name(square as int),
    {
        let mut out: Vec<char> = Vec::new();
        out.push(letter_for_file((square % 8) as u8));
        out.push(digit_for((square / 8 + 1) as u8));
        assert(out@ =~= square_name(square as int));
        string_of(&out)
    }

    /// The move that led to this position, in the notation of the
    /// interface.
    pub fn get_next_uci(&self) -> (r: String)
        ensures
            r@ == tag_text(self.latest_move as int),
    {
        let tag = self.latest_move;
        let from = (tag / 64) % 64;
        let to = tag % 64;
        let mut out: Vec<char> = Vec::new();
        out.push(letter_for_file((from % 8) as u8));
        out.push(digit_for((from / 8 + 1) as u8));
        out.push(letter_for_file((to % 8) as u8));
        out.push(digit_for((to / 8 + 1) as u8));
        assert(out@ =~= square_name(from as int) + square_name(to as int));
        if (tag / 16384) % 2 == 1 {
            let number = (tag / 4096) % 4;
            out.push(
                if number == 0 {
                    'q'
                } else if number == 1 {
                    'r'
                } else if number == 2 {
                    'b'
                } else {
                    'n'
                },
            );
        }
        string_of(&out)
    }
}

} // verus!
