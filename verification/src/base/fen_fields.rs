//! The fields of a text in Forsyth-Edwards notation are found again.

use crate::base::fen::castling_of_text;
use crate::base::fen::fen_fields;
use crate::base::fen::file_char;
use crate::base::fen::file_value;
use crate::base::fen::next_space;
use crate::base::fen::passing_of_text;
use crate::base::fen::piece_letter;
use crate::base::fen::Cell;
use crate::base::fen_write::castling_text;
use crate::base::fen_write::fields_text;
use crate::base::fen_write::gap_text;
use crate::base::fen_write::passing_text;
use crate::base::fen_write::placement_text;
use crate::base::fen_write::rank_text;
use crate::base::meta::Bookkeeping;
use vstd::prelude::*;

verus! {

/// Whether a text holds no space.
pub open spec fn spaceless(t: Seq<char>) -> bool {
    forall|i: int| 0 <= i < t.len() ==> (#[trigger] t[i]) != ' '
}

/// The first space behind a run of other characters.
pub proof fn lemma_next_space_skips(s: Seq<char>, i: int, e: int)
    requires
        0 <= i <= e <= s.len(),
        forall|k: int| i <= k < e ==> (#[trigger] s[k]) != ' ',
        e == s.len() || s[e] == ' ',
    ensures
        next_space(s, i) == e,
    decreases e - i,
{
    if i < e {
        lemma_next_space_skips(s, i + 1, e);
    }
}

/// Where a field without a space stands at the place `start` of a text,
/// in front of a space and more text, the field ends at that space.
pub proof fn lemma_field_at(s: Seq<char>, start: int, x: Seq<char>, rest: Seq<char>)
    requires
        0 <= start <= s.len(),
        s.subrange(start, s.len() as int) == x + seq![' '] + rest,
        spaceless(x),
    ensures
        next_space(s, start) == start + x.len(),
        start + x.len() < s.len(),
        s.subrange(start, start + x.len()) == x,
        s.subrange(start + x.len() + 1, s.len() as int) == rest,
{
    let tail = s.subrange(start, s.len() as int);
    assert(tail.len() == x.len() + 1 + rest.len());
    assert forall|k: int| start <= k < start + x.len() implies (#[trigger] s[k]) != ' ' by {
        assert(s[k] == tail[k - start]);
        assert(tail[k - start] == x[k - start]);
    }
    assert(s[start + x.len()] == tail[x.len() as int]);
    assert(tail[x.len() as int] == ' ');
    lemma_next_space_skips(s, start, start + x.len());
    assert(s.subrange(start, start + x.len()) =~= x) by {
        assert forall|k: int| 0 <= k < x.len() implies s.subrange(start, start + x.len())[k]
            == x[k] by {
            assert(s[start + k] == tail[k]);
        }
    }
    assert(s.subrange(start + x.len() + 1, s.len() as int) =~= rest) by {
        assert forall|k: int| 0 <= k < rest.len() implies s.subrange(
            start + x.len() + 1,
            s.len() as int,
        )[k] == rest[k] by {
            assert(s[start + x.len() + 1 + k] == tail[x.len() + 1 + k]);
        }
    }
}

/// Where a field without a space stands at the end of a text, no space
/// comes behind its start.
pub proof fn lemma_last_field(s: Seq<char>, start: int, x: Seq<char>)
    requires
        0 <= start <= s.len(),
        s.subrange(start, s.len() as int) == x,
        spaceless(x),
    ensures
        next_space(s, start) == s.len(),
{
    let tail = s.subrange(start, s.len() as int);
    assert forall|k: int| start <= k < s.len() implies (#[trigger] s[k]) != ' ' by {
        assert(s[k] == tail[k - start]);
    }
    lemma_next_space_skips(s, start, s.len() as int);
}

/// Six fields without a space, written with a space between each two, are
/// found again.
pub proof fn lemma_fields_round_trip(
    a: Seq<char>,
    b: Seq<char>,
    c: Seq<char>,
    d: Seq<char>,
    e: Seq<char>,
    f: Seq<char>,
)
    requires
        spaceless(a),
        spaceless(b),
        spaceless(c),
        spaceless(d),
        spaceless(e),
        spaceless(f),
    ensures
        fen_fields(fields_text(a, b, c, d, e, f)) == Some(seq![a, b, c, d, e, f]),
{
    let sp = seq![' '];
    let t4 = e + sp + f;
    let t3 = d + sp + t4;
    let t2 = c + sp + t3;
    let t1 = b + sp + t2;
    let s = fields_text(a, b, c, d, e, f);
    assert(s.subrange(0, s.len() as int) =~= a + sp + t1);
    lemma_field_at(s, 0, a, t1);
    let e0 = next_space(s, 0);
    lemma_field_at(s, e0 + 1, b, t2);
    let e1 = next_space(s, e0 + 1);
    lemma_field_at(s, e1 + 1, c, t3);
    let e2 = next_space(s, e1 + 1);
    lemma_field_at(s, e2 + 1, d, t4);
    let e3 = next_space(s, e2 + 1);
    lemma_field_at(s, e3 + 1, e, f);
    let e4 = next_space(s, e3 + 1);
    lemma_last_field(s, e4 + 1, f);
    let e5 = next_space(s, e4 + 1);
    assert(s.subrange(e4 + 1, e5) == f);
    assert(fen_fields(s)->0 =~= seq![a, b, c, d, e, f]);
}

/// The castling rights that are written are read again.
pub proof fn lemma_castling_round_trip(f: Bookkeeping)
    ensures
        castling_of_text(castling_text(f)) == Some(
            (f.white_queen_side, f.white_king_side, f.black_queen_side, f.black_king_side),
        ),
        spaceless(castling_text(f)),
{
    let k = if f.white_king_side {
        seq!['K']
    } else {
        Seq::<char>::empty()
    };
    let q = if f.white_queen_side {
        seq!['Q']
    } else {
        Seq::<char>::empty()
    };
    let dk = if f.black_king_side {
        seq!['k']
    } else {
        Seq::<char>::empty()
    };
    let dq = if f.black_queen_side {
        seq!['q']
    } else {
        Seq::<char>::empty()
    };
    let text = k + q + dk + dq;
    let t = castling_text(f);
    if text.len() == 0 {
        assert(t == seq!['-']);
        assert(t[0] == '-');
    } else {
        assert(t == text);
        assert(t != seq!['-']) by {
            if t == seq!['-'] {
                assert(t[0] == '-');
            }
        }
        assert forall|i: int| 0 <= i < t.len() implies (#[trigger] t[i]) == 'K' || t[i] == 'Q'
            || t[i] == 'k' || t[i] == 'q' by {}
        if f.white_king_side {
            assert(t[0] == 'K');
        }
        if f.white_queen_side {
            assert(t[k.len() as int] == 'Q');
        }
        if f.black_king_side {
            assert(t[(k.len() + q.len()) as int] == 'k');
        }
        if f.black_queen_side {
            assert(t[(k.len() + q.len() + dk.len()) as int] == 'q');
        }
        assert(t.contains('K') == f.white_king_side);
        assert(t.contains('Q') == f.white_queen_side);
        assert(t.contains('k') == f.black_king_side);
        assert(t.contains('q') == f.black_queen_side);
    }
}

/// The en-passant file that is written is read again.
pub proof fn lemma_passing_round_trip(f: Bookkeeping)
    requires
        f.ep_file < 8,
    ensures
        passing_of_text(passing_text(f)) == Some(
            if f.ep_valid {
                Some(f.ep_file)
            } else {
                None
            },
        ),
        spaceless(passing_text(f)),
{
    let t = passing_text(f);
    if f.ep_valid {
        assert(t[0] == file_char(f.ep_file as int));
        assert(file_value(file_char(f.ep_file as int)) == f.ep_file);
        assert(t != seq!['-']) by {
            if t == seq!['-'] {
                assert(t.len() == 1);
            }
        }
    } else {
        assert(t[0] == '-');
    }
}

/// The text of a rank holds no space, however many empty cells are waiting
/// to be written.
pub proof fn lemma_rank_spaceless_any(cells: Seq<Cell>, start: int, j: int, pending: int)
    ensures
        spaceless(rank_text(cells, start, j, pending)),
    decreases 8 - j,
{
    if j < 8 {
        match cells[start + j] {
            None => {
                lemma_rank_spaceless_any(cells, start, j + 1, pending + 1);
            },
            Some((kind, black)) => {
                lemma_rank_spaceless_any(cells, start, j + 1, 0);
                let head = gap_text(pending).push(piece_letter(kind, black));
                let tail = rank_text(cells, start, j + 1, 0);
                assert forall|i: int| 0 <= i < (head + tail).len() implies (#[trigger] (head
                    + tail)[i]) != ' ' by {
                    if i < head.len() {
                        assert((head + tail)[i] == head[i]);
                    } else {
                        assert((head + tail)[i] == tail[i - head.len()]);
                    }
                }
            },
        }
    }
}

/// The text of a placement holds no space.
pub proof fn lemma_placement_spaceless(cells: Seq<Cell>, r: int)
    requires
        0 <= r,
    ensures
        spaceless(placement_text(cells, r)),
    decreases 8 - r,
{
    if r < 7 {
        lemma_placement_spaceless(cells, r + 1);
        lemma_rank_spaceless_any(cells, 8 * r, 0, 0);
        let head = rank_text(cells, 8 * r, 0, 0).push('/');
        let tail = placement_text(cells, r + 1);
        assert forall|i: int| 0 <= i < (head + tail).len() implies (#[trigger] (head + tail)[i])
            != ' ' by {
            if i < head.len() {
                assert((head + tail)[i] == head[i]);
            } else {
                assert((head + tail)[i] == tail[i - head.len()]);
            }
        }
    } else if r == 7 {
        lemma_rank_spaceless_any(cells, 56, 0, 0);
    }
}

} // verus!
