//! A position that is written in Forsyth-Edwards notation and read again is
//! the position that was written.

use crate::base::bits::lemma_empty_plane;
use crate::base::bits::lemma_plane_extensional;
use crate::base::defs::Board;
use crate::base::defs::PieceType;
use crate::base::fen::digit_value;
use crate::base::fen::fen_fields;
use crate::base::fen::numeral;
use crate::base::fen::parse_fen;
use crate::base::fen::record_of_fields;
use crate::base::fen::placement_square;
use crate::base::fen::Cell;
use crate::base::fen::FenRecord;
use crate::base::fen_fields::lemma_castling_round_trip;
use crate::base::fen_fields::lemma_fields_round_trip;
use crate::base::fen_fields::lemma_passing_round_trip;
use crate::base::fen_fields::lemma_placement_spaceless;
use crate::base::fen_fields::spaceless;
use crate::base::fen_scan::lemma_number_round_trip;
use crate::base::fen_scan::lemma_numeral;
use crate::base::fen_scan::lemma_placement_round_trip;
use crate::base::fen_write::castling_text;
use crate::base::fen_write::passing_text;
use crate::base::fen_write::placement_text;
use crate::base::fen_write::side_text;
use vstd::prelude::*;

verus! {

/// A numeral holds no space.
pub proof fn lemma_numeral_spaceless(n: nat)
    ensures
        spaceless(numeral(n)),
{
    lemma_numeral(n);
    assert forall|i: int| 0 <= i < numeral(n).len() implies (#[trigger] numeral(n)[i]) != ' ' by {
        assert(digit_value(numeral(n)[i]) < 10);
    }
}

impl Board {
    /// Two positions in which the same pieces stand on the same squares have
    /// the same planes.
    pub proof fn lemma_planes_by_squares(&self, other: &Board)
        requires
            forall|k: PieceType, c: bool, sq: int|
                0 <= sq < 64 ==> self.stands(k, c, sq) == other.stands(k, c, sq),
        ensures
            self.same_pieces(other),
    {
        assert forall|c: bool, sq: int| 0 <= sq < 64 implies crate::base::bits::on(
            crate::base::bits::half_of(self.rooks, c),
            sq,
        ) == crate::base::bits::on(crate::base::bits::half_of(other.rooks, c), sq) by {
            assert(self.stands(PieceType::Rook, c, sq) == other.stands(PieceType::Rook, c, sq));
        }
        lemma_plane_extensional(self.rooks, other.rooks);
        assert forall|c: bool, sq: int| 0 <= sq < 64 implies crate::base::bits::on(
            crate::base::bits::half_of(self.knights, c),
            sq,
        ) == crate::base::bits::on(crate::base::bits::half_of(other.knights, c), sq) by {
            assert(self.stands(PieceType::Knight, c, sq) == other.stands(
                PieceType::Knight,
                c,
                sq,
            ));
        }
        lemma_plane_extensional(self.knights, other.knights);
        assert forall|c: bool, sq: int| 0 <= sq < 64 implies crate::base::bits::on(
            crate::base::bits::half_of(self.bishops, c),
            sq,
        ) == crate::base::bits::on(crate::base::bits::half_of(other.bishops, c), sq) by {
            assert(self.stands(PieceType::Bishop, c, sq) == other.stands(
                PieceType::Bishop,
                c,
                sq,
            ));
        }
        lemma_plane_extensional(self.bishops, other.bishops);
        assert forall|c: bool, sq: int| 0 <= sq < 64 implies crate::base::bits::on(
            crate::base::bits::half_of(self.queens, c),
            sq,
        ) == crate::base::bits::on(crate::base::bits::half_of(other.queens, c), sq) by {
            assert(self.stands(PieceType::Queen, c, sq) == other.stands(PieceType::Queen, c, sq));
        }
        lemma_plane_extensional(self.queens, other.queens);
        assert forall|c: bool, sq: int| 0 <= sq < 64 implies crate::base::bits::on(
            crate::base::bits::half_of(self.kings, c),
            sq,
        ) == crate::base::bits::on(crate::base::bits::half_of(other.kings, c), sq) by {
            assert(self.stands(PieceType::King, c, sq) == other.stands(PieceType::King, c, sq));
        }
        lemma_plane_extensional(self.kings, other.kings);
        assert forall|c: bool, sq: int| 0 <= sq < 64 implies crate::base::bits::on(
            crate::base::bits::half_of(self.pawns, c),
            sq,
        ) == crate::base::bits::on(crate::base::bits::half_of(other.pawns, c), sq) by {
            assert(self.stands(PieceType::Pawn, c, sq) == other.stands(PieceType::Pawn, c, sq));
        }
        lemma_plane_extensional(self.pawns, other.pawns);
    }

    /// Whether one of the first `n` cells puts a piece of the given kind and
    /// colour on `sq`.
    pub open spec fn placed(cells: Seq<Cell>, n: nat, kind: PieceType, black: bool, sq: int) -> bool {
        exists|i: int|
            0 <= i < n && placement_square(i) == sq && (#[trigger] cells[i]) == Some((kind, black))
    }

    /// What stands where after the first `n` cells of a placement have been
    /// put on the board: what stood there, and what the cells say.
    pub proof fn lemma_with_cells(&self, cells: Seq<Cell>, n: nat)
        requires
            n <= 64,
            cells.len() == 64,
        ensures
            forall|k: PieceType, c: bool, sq: int|
                0 <= sq < 64 ==> (#[trigger] self.with_cells(cells, n).stands(k, c, sq)) == (
                self.stands(k, c, sq) || Self::placed(cells, n, k, c, sq)),
            self.with_cells(cells, n).metadata == self.metadata,
            self.with_cells(cells, n).latest_move == self.latest_move,
            self.with_cells(cells, n).eval == self.eval,
        decreases n,
    {
        if n > 0 {
            let rest = self.with_cells(cells, (n - 1) as nat);
            self.lemma_with_cells(cells, (n - 1) as nat);
            let here = placement_square(n - 1);
            let after = self.with_cells(cells, n);
            match cells[n - 1] {
                Some((kind, black)) => {
                    rest.lemma_with_piece(kind, black, here);
                },
                None => {},
            }
            assert forall|k: PieceType, c: bool, sq: int| 0 <= sq < 64 implies (
            #[trigger] after.stands(k, c, sq)) == (self.stands(k, c, sq) || Self::placed(
                cells,
                n,
                k,
                c,
                sq,
            )) by {
                assert(rest.stands(k, c, sq) == (self.stands(k, c, sq) || Self::placed(
                    cells,
                    (n - 1) as nat,
                    k,
                    c,
                    sq,
                )));
                let last = here == sq && cells[n - 1] == Some((k, c));
                assert(after.stands(k, c, sq) == (rest.stands(k, c, sq) || last));
                if Self::placed(cells, n, k, c, sq) {
                    let i = choose|i: int|
                        0 <= i < n && placement_square(i) == sq && (#[trigger] cells[i]) == Some(
                            (k, c),
                        );
                    if i < n - 1 {
                        assert(Self::placed(cells, (n - 1) as nat, k, c, sq));
                    }
                }
                if Self::placed(cells, (n - 1) as nat, k, c, sq) {
                    let i = choose|i: int|
                        0 <= i < n - 1 && placement_square(i) == sq && (#[trigger] cells[i])
                            == Some((k, c));
                    assert(Self::placed(cells, n, k, c, sq));
                }
                if last {
                    assert(cells[n - 1] == Some((k, c)));
                    assert(Self::placed(cells, n, k, c, sq));
                }
            }
        }
    }

    /// A position in which no two pieces stand on one square, and whose
    /// en-passant file is nought while it means nothing, is read from its own
    /// text as itself: with the same pieces on the same squares and the same
    /// bookkeeping. Of the two fields that the text does not carry, the move
    /// tag comes back empty and the evaluation cache filled.
    pub proof fn lemma_fen_round_trip(&self)
        requires
            self.tidy(),
            self.plain_en_passant(),
        ensures
            parse_fen(self.fen_text()) == Some(
                FenRecord { cells: self.cells(), fields: self.bookkeeping() },
            ),
            Board::of_record(FenRecord { cells: self.cells(), fields: self.bookkeeping() })
                == self.tagged(0).scored(),
    {
        let f = self.bookkeeping();
        self.lemma_bookkeeping_fits();
        let cells = self.cells();
        let a = placement_text(cells, 0);
        let b = side_text(f);
        let c = castling_text(f);
        let d = passing_text(f);
        let e = numeral(f.half_moves as nat);
        let g = numeral(f.full_moves as nat);
        lemma_placement_spaceless(cells, 0);
        assert(spaceless(b)) by {
            assert(b[0] != ' ');
        }
        lemma_castling_round_trip(f);
        lemma_passing_round_trip(f);
        lemma_numeral_spaceless(f.half_moves as nat);
        lemma_numeral_spaceless(f.full_moves as nat);
        lemma_fields_round_trip(a, b, c, d, e, g);
        self.lemma_record_round_trip();
        let record = FenRecord { cells, fields: f };
        self.lemma_rebuilt(record);
        let bare = Board::empty_with(f).with_cells(cells, 64);
        assert(bare.same_position(&self.tagged(0)));
        assert(bare.latest_move == 0) by {
            Board::empty_with(f).lemma_with_cells(cells, 64);
        }
        assert(bare.eval == 0) by {
            Board::empty_with(f).lemma_with_cells(cells, 64);
        }
        bare.lemma_same_eval(&self.tagged(0));
        self.tagged(0).lemma_same_eval(self);
    }

    /// The six fields of the text of a position say what the position is.
    pub proof fn lemma_record_round_trip(&self)
        requires
            self.plain_en_passant(),
        ensures
            record_of_fields(
                seq![
                    placement_text(self.cells(), 0),
                    side_text(self.bookkeeping()),
                    castling_text(self.bookkeeping()),
                    passing_text(self.bookkeeping()),
                    numeral(self.bookkeeping().half_moves as nat),
                    numeral(self.bookkeeping().full_moves as nat),
                ],
            ) == Some(FenRecord { cells: self.cells(), fields: self.bookkeeping() }),
    {
        let f = self.bookkeeping();
        self.lemma_bookkeeping_fits();
        self.lemma_metadata_fields();
        let cells = self.cells();
        let b = side_text(f);
        lemma_castling_round_trip(f);
        lemma_passing_round_trip(f);
        lemma_placement_round_trip(cells);
        lemma_number_round_trip(f.half_moves as nat);
        lemma_number_round_trip(f.full_moves as nat);
        if f.white_to_move {
            assert(b == seq!['w']);
        } else {
            assert(b == seq!['b']);
            assert(b != seq!['w']) by {
                assert(b[0] == 'b');
                if b == seq!['w'] {
                    assert(seq!['w'][0] == 'w');
                }
            }
        }
    }

    /// The position that is built from the cells and the bookkeeping of this
    /// position has its pieces and its bookkeeping.
    pub proof fn lemma_rebuilt(&self, record: FenRecord)
        requires
            self.tidy(),
            record.cells == self.cells(),
            record.fields == self.bookkeeping(),
        ensures
            Board::of_record(record).same_position(self),
            Board::of_record(record).latest_move == 0,
    {
        let f = self.bookkeeping();
        self.lemma_bookkeeping_fits();
        self.lemma_bookkeeping(f);
        let cells = self.cells();
        let bare = Board::empty_with(f);
        let built = bare.with_cells(cells, 64);
        bare.lemma_with_cells(cells, 64);
        lemma_empty_plane();
        assert(built.metadata == self.metadata);
        assert forall|k: PieceType, c: bool, sq: int| 0 <= sq < 64 implies built.stands(k, c, sq)
            == self.stands(k, c, sq) by {
            assert(!bare.stands(k, c, sq));
            assert(self.single(sq));
            let i = placement_square(sq);
            assert(placement_square(i) == sq);
            assert(cells[i] == self.cell_on(sq));
            if self.stands(k, c, sq) {
                assert(self.cell_on(sq) == Some((k, c)));
                assert(Self::placed(cells, 64, k, c, sq));
            }
            if Self::placed(cells, 64, k, c, sq) {
                let j = choose|j: int|
                    0 <= j < 64 && placement_square(j) == sq && (#[trigger] cells[j]) == Some(
                        (k, c),
                    );
                assert(cells[j] == self.cell_on(placement_square(j)));
                assert(self.stands(k, c, sq));
            }
        }
        built.lemma_planes_by_squares(self);
    }
}

} // verus!
