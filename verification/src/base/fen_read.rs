//! Reading a position from Forsyth-Edwards notation.

use crate::base::defs::Board;
use crate::base::defs::PieceType;
use crate::base::fen::blanks;
use crate::base::fen::castling_of_text;
use crate::base::fen::digit_value;
use crate::base::fen::digits_value;
use crate::base::fen::fen_fields;
use crate::base::fen::file_value;
use crate::base::fen::letter_piece;
use crate::base::fen::next_space;
use crate::base::fen::number_of_text;
use crate::base::fen::parse_fen;
use crate::base::fen::passing_of_text;
use crate::base::fen::scan_placement;
use crate::base::fen::Cell;
use crate::base::meta::Bookkeeping;
use vstd::prelude::*;
use vstd::string::StrSliceExecFns;

verus! {

/// The characters of a text.
pub fn chars_of(s: &str) -> (r: Vec<char>)
    ensures
        r@ == s@,
{
    let n = s.unicode_len();
    let mut out: Vec<char> = Vec::new();
    let mut i: usize = 0;
    while i < n
        invariant
            i <= n,
            n == s@.len(),
            out@ == s@.take(i as int),
        decreases n - i,
    {
        out.push(s.get_char(i));
        assert(s@.take(i + 1) =~= s@.take(i as int).push(s@[i as int]));
        i = i + 1;
    }
    assert(s@.take(n as int) =~= s@);
    out
}

pub fn digit_of(c: char) -> (r: u8)
    ensures
        r as int == digit_value(c),
        r <= 10,
{
    if c == '0' {
        0
    } else if c == '1' {
        1
    } else if c == '2' {
        2
    } else if c == '3' {
        3
    } else if c == '4' {
        4
    } else if c == '5' {
        5
    } else if c == '6' {
        6
    } else if c == '7' {
        7
    } else if c == '8' {
        8
    } else if c == '9' {
        9
    } else {
        10
    }
}

pub fn file_of_letter(c: char) -> (r: u8)
    ensures
        r as int == file_value(c),
        r <= 8,
{
    if c == 'a' {
        0
    } else if c == 'b' {
        1
    } else if c == 'c' {
        2
    } else if c == 'd' {
        3
    } else if c == 'e' {
        4
    } else if c == 'f' {
        5
    } else if c == 'g' {
        6
    } else if c == 'h' {
        7
    } else {
        8
    }
}

fn piece_of_letter(c: char) -> (r: Cell)
    ensures
        r == letter_piece(c),
{
    if c == 'K' {
        Some((PieceType::King, false))
    } else if c == 'Q' {
        Some((PieceType::Queen, false))
    } else if c == 'R' {
        Some((PieceType::Rook, false))
    } else if c == 'B' {
        Some((PieceType::Bishop, false))
    } else if c == 'N' {
        Some((PieceType::Knight, false))
    } else if c == 'P' {
        Some((PieceType::Pawn, false))
    } else if c == 'k' {
        Some((PieceType::King, true))
    } else if c == 'q' {
        Some((PieceType::Queen, true))
    } else if c == 'r' {
        Some((PieceType::Rook, true))
    } else if c == 'b' {
        Some((PieceType::Bishop, true))
    } else if c == 'n' {
        Some((PieceType::Knight, true))
    } else if c == 'p' {
        Some((PieceType::Pawn, true))
    } else {
        None
    }
}

fn find_space(t: &Vec<char>, from: usize) -> (e: usize)
    requires
        from <= t@.len(),
    ensures
        e == next_space(t@, from as int),
        from <= e <= t@.len(),
{
    let mut i = from;
    while i < t.len()
        invariant
            from <= i <= t@.len(),
            next_space(t@, from as int) == next_space(t@, i as int),
        decreases t@.len() - i,
    {
        if t[i] == ' ' {
            return i;
        }
        i = i + 1;
    }
    i
}

fn part(t: &Vec<char>, from: usize, to: usize) -> (r: Vec<char>)
    requires
        from <= to <= t@.len(),
    ensures
        r@ == t@.subrange(from as int, to as int),
{
    let mut out: Vec<char> = Vec::new();
    let mut i = from;
    while i < to
        invariant
            from <= i <= to <= t@.len(),
            out@ == t@.subrange(from as int, i as int),
        decreases to - i,
    {
        out.push(t[i]);
        assert(t@.subrange(from as int, i + 1) =~= t@.subrange(from as int, i as int).push(
            t@[i as int],
        ));
        i = i + 1;
    }
    out
}

fn read_placement(t: &Vec<char>) -> (r: Option<Vec<Cell>>)
    ensures
        match r {
            Some(v) => scan_placement(t@, 0, Seq::empty(), true) == Some(v@) && v@.len() == 64,
            None => scan_placement(t@, 0, Seq::empty(), true) is None,
        },
{
    let mut done: Vec<Cell> = Vec::new();
    let mut fresh = true;
    let mut i: usize = 0;
    while i < t.len()
        invariant
            i <= t@.len(),
            done@.len() <= 64,
            done@.len() == 64 ==> !fresh,
            scan_placement(t@, 0, Seq::empty(), true) == scan_placement(
                t@,
                i as int,
                done@,
                fresh,
            ),
        decreases t@.len() - i,
    {
        let c = t[i];
        let n = done.len();
        if n % 8 == 0 && n > 0 && !fresh {
            if c == '/' && n < 64 {
                fresh = true;
            } else {
                return None;
            }
        } else {
            let d = digit_of(c);
            if 1 <= d && d <= 8 && (n % 8) as u8 + d <= 8 {
                let ghost before = done@;
                assert(n < 64);
                assert(n + d <= 64) by {
                    assert(n == 8 * (n / 8) + n % 8);
                    assert(n / 8 <= 7);
                }
                let mut k: u8 = 0;
                while k < d
                    invariant
                        k <= d <= 8,
                        before.len() + d <= 64,
                        done@ == before + blanks(k as int),
                    decreases d - k,
                {
                    done.push(None);
                    assert(done@ =~= before + blanks(k + 1));
                    k = k + 1;
                }
                fresh = false;
            } else {
                let p = piece_of_letter(c);
                if p.is_some() {
                    done.push(p);
                    fresh = false;
                } else {
                    return None;
                }
            }
        }
        i = i + 1;
    }
    if done.len() == 64 {
        Some(done)
    } else {
        None
    }
}

fn read_castling(t: &Vec<char>) -> (r: Option<(bool, bool, bool, bool)>)
    ensures
        r == castling_of_text(t@),
{
    if t.len() == 1 && t[0] == '-' {
        assert(t@ =~= seq!['-']);
        return Some((false, false, false, false));
    }
    if t.len() == 0 {
        return None;
    }
    let mut wq = false;
    let mut wk = false;
    let mut bq = false;
    let mut bk = false;
    let mut i: usize = 0;
    while i < t.len()
        invariant
            i <= t@.len(),
            t@ != seq!['-'],
            forall|j: int|
                0 <= j < i ==> (#[trigger] t@[j]) == 'K' || t@[j] == 'Q' || t@[j] == 'k' || t@[j]
                    == 'q',
            wq == exists|j: int| 0 <= j < i && t@[j] == 'Q',
            wk == exists|j: int| 0 <= j < i && t@[j] == 'K',
            bq == exists|j: int| 0 <= j < i && t@[j] == 'q',
            bk == exists|j: int| 0 <= j < i && t@[j] == 'k',
        decreases t@.len() - i,
    {
        let c = t[i];
        if c == 'Q' {
            wq = true;
        } else if c == 'K' {
            wk = true;
        } else if c == 'q' {
            bq = true;
        } else if c == 'k' {
            bk = true;
        } else {
            return None;
        }
        i = i + 1;
    }
    Some((wq, wk, bq, bk))
}

fn read_passing(t: &Vec<char>) -> (r: Option<Option<u8>>)
    ensures
        r == passing_of_text(t@),
{
    if t.len() == 1 && t[0] == '-' {
        assert(t@ =~= seq!['-']);
        return Some(None);
    }
    if t.len() == 2 {
        let file = file_of_letter(t[0]);
        let rank = digit_of(t[1]);
        if file < 8 && 1 <= rank && rank <= 8 {
            return Some(Some(file));
        }
    }
    None
}

proof fn lemma_digits_grow(s: Seq<char>, a: nat, b: nat)
    requires
        a <= b,
    ensures
        digits_value(s, a) <= digits_value(s, b),
    decreases b,
{
    if a < b {
        lemma_digits_grow(s, a, (b - 1) as nat);
    }
}

fn read_number(t: &Vec<char>) -> (r: Option<u64>)
    ensures
        match number_of_text(t@) {
            Some(n) => r == Some(n as u64),
            None => r is None,
        },
{
    if t.len() == 0 {
        return None;
    }
    let mut v: u64 = 0;
    let mut i: usize = 0;
    while i < t.len()
        invariant
            i <= t@.len(),
            forall|j: int| 0 <= j < i ==> digit_value(#[trigger] t@[j]) < 10,
            v == digits_value(t@, i as nat),
        decreases t@.len() - i,
    {
        let d = digit_of(t[i]);
        if d >= 10 {
            return None;
        }
        if v > (u64::MAX - d as u64) / 10 {
            proof {
                lemma_digits_grow(t@, (i + 1) as nat, t@.len());
            }
            return None;
        }
        v = v * 10 + d as u64;
        i = i + 1;
    }
    Some(v)
}

impl Board {
    fn of_cells(cells: &Vec<Cell>, fields: &Bookkeeping) -> (r: Board)
        requires
            cells@.len() == 64,
            fields.fits(),
        ensures
            r == Board::empty_with(*fields).with_cells(cells@, 64),
    {
        let mut board = Board {
            rooks: 0,
            knights: 0,
            bishops: 0,
            queens: 0,
            kings: 0,
            pawns: 0,
            metadata: 0,
            latest_move: 0,
            eval: 0,
        };
        board.write_bookkeeping(fields);
        let mut i: usize = 0;
        while i < 64
            invariant
                i <= 64,
                cells@.len() == 64,
                board == Board::empty_with(*fields).with_cells(cells@, i as nat),
            decreases 64 - i,
        {
            match cells[i] {
                Some((kind, black)) => {
                    let sq: u8 = (8 * (7 - i / 8) + i % 8) as u8;
                    board.put_piece(kind, black, sq);
                },
                None => {},
            }
            i = i + 1;
        }
        board
    }

    /// The position that a text in Forsyth-Edwards notation describes, with
    /// its evaluation cache filled and no move recorded, or nothing where
    /// the text is not well formed.
    pub fn from_fen(fen_string: &String) -> (r: Option<Board>)
        ensures
            r == match parse_fen(fen_string@) {
                Some(record) => Some(Board::of_record(record)),
                None => None,
            },
    {
        let t = chars_of(fen_string.as_str());
        let e0 = find_space(&t, 0);
        if e0 >= t.len() {
            return None;
        }
        let e1 = find_space(&t, e0 + 1);
        if e1 >= t.len() {
            return None;
        }
        let e2 = find_space(&t, e1 + 1);
        if e2 >= t.len() {
            return None;
        }
        let e3 = find_space(&t, e2 + 1);
        if e3 >= t.len() {
            return None;
        }
        let e4 = find_space(&t, e3 + 1);
        if e4 >= t.len() {
            return None;
        }
        let e5 = find_space(&t, e4 + 1);
        if e5 != t.len() {
            return None;
        }
        let placement = part(&t, 0, e0);
        let side = part(&t, e0 + 1, e1);
        let castling = part(&t, e1 + 1, e2);
        let passing = part(&t, e2 + 1, e3);
        let half = part(&t, e3 + 1, e4);
        let full = part(&t, e4 + 1, e5);
        let ghost f = fen_fields(t@)->0;
        assert(fen_fields(t@) is Some);
        let white = if side.len() == 1 && side[0] == 'w' {
            assert(side@ =~= seq!['w']);
            true
        } else if side.len() == 1 && side[0] == 'b' {
            assert(side@ =~= seq!['b']);
            false
        } else {
            assert(f[1] != seq!['w'] && f[1] != seq!['b']);
            return None;
        };
        let cells = match read_placement(&placement) {
            Some(c) => c,
            None => {
                return None;
            },
        };
        let rights = match read_castling(&castling) {
            Some(x) => x,
            None => {
                return None;
            },
        };
        let ep = match read_passing(&passing) {
            Some(x) => x,
            None => {
                return None;
            },
        };
        let h = match read_number(&half) {
            Some(x) => x,
            None => {
                return None;
            },
        };
        let n = match read_number(&full) {
            Some(x) => x,
            None => {
                return None;
            },
        };
        let (wq, wk, bq, bk) = rights;
        let fields = Bookkeeping {
            white_queen_side: wq,
            white_king_side: wk,
            black_queen_side: bq,
            black_king_side: bk,
            ep_file: match ep {
                Some(file) => file,
                None => 0,
            },
            ep_valid: ep.is_some(),
            white_to_move: white,
            half_moves: (h % 128) as u32,
            full_moves: (n % 65536) as u32,
        };
        let mut board = Board::of_cells(&cells, &fields);
        board.eval = board.evaluate(false);
        Some(board)
    }
}

} // verus!
