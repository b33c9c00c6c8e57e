//! The board: 64 squares of optional occupants.

use vstd::prelude::*;

use crate::fen;
use crate::fen::FenError;
use crate::pieces::piece_char;
use crate::pieces::ChessPiece;
use crate::pieces::Color;
use crate::pieces::Piece;

verus! {

/// One rendered cell of the board grid: the square's letter between
/// spaces, all blank for an empty square.
pub open spec fn square_cell(sq: Option<ChessPiece>) -> Seq<char> {
    match sq {
        Some(cp) => seq![' ', piece_char(cp), ' '],
        None => seq![' ', ' ', ' '],
    }
}

/// The eight rendered cells of rank row `r` (row 0 is rank 8).
pub open spec fn rank_cells(b: Seq<Option<ChessPiece>>, r: int) -> Seq<Seq<char>> {
    Seq::new(8, |f: int| square_cell(b[8 * r + f]))
}

/// One rendered row: the rank's cells joined by `|`, then a newline.
pub open spec fn rank_row(b: Seq<Option<ChessPiece>>, r: int) -> Seq<char> {
    fen::join_with(rank_cells(b, r), '|') + seq!['\n']
}

/// The horizontal border line of the rendering.
pub open spec fn border_line() -> Seq<char> {
    Seq::new(
        31,
        |i: int|
            if i == 0 || i == 30 {
                ' '
            } else {
                '-'
            },
    ) + seq!['\n']
}

/// The rendered rows of rank rows `r` through 7.
pub open spec fn rows_from(b: Seq<Option<ChessPiece>>, r: int) -> Seq<char>
    decreases 8 - r,
{
    if r < 0 || r >= 8 {
        Seq::<char>::empty()
    } else {
        rank_row(b, r) + rows_from(b, r + 1)
    }
}

/// What a board renders as: an eight-row grid of cells between two border
/// lines, rank 8 on top.
pub open spec fn board_render(b: Seq<Option<ChessPiece>>) -> Seq<char> {
    border_line() + rows_from(b, 0) + border_line()
}

/// One board square and its occupant, if any.
pub struct Square {
    /// The piece standing on the square, or `None`.
    pub occupied: Option<ChessPiece>,
}

impl View for Square {
    type V = Option<ChessPiece>;

    open spec fn view(&self) -> Option<ChessPiece> {
        self.occupied
    }
}

impl Square {
    /// Makes a square holding `occupied`.
    pub fn new(occupied: Option<ChessPiece>) -> (r: Self)
        ensures
            r@ == occupied,
    {
        Self { occupied }
    }
}

/// The piece placement of a position: 64 squares, indexed from 0 at rank 8
/// file a, across each rank, down to 63 at rank 1 file h.
pub struct Board {
    squares: Vec<Square>,
}

impl View for Board {
    type V = Seq<Option<ChessPiece>>;

    closed spec fn view(&self) -> Seq<Option<ChessPiece>> {
        self.squares@.map_values(|sq: Square| sq.occupied)
    }
}

impl Board {
    /// A well-formed board has exactly 64 squares.
    pub open spec fn wf(&self) -> bool {
        self@.len() == 64
    }

    /// An entirely empty board.
    pub fn init() -> (b: Self)
        ensures
            b.wf(),
            b@ =~= fen::empty_run(64),
    {
        let mut squares: Vec<Square> = Vec::new();
        let mut i: usize = 0;
        while i < 64
            invariant
                i <= 64,
                squares@.len() == i,
                forall|j: int| 0 <= j < i ==> squares@[j].occupied is None,
            decreases 64 - i,
        {
            squares.push(Square { occupied: None });
            i = i + 1;
        }
        let b = Board { squares };
        proof {
            assert(b@ =~= fen::empty_run(64));
        }
        b
    }

    /// The occupant of a square, or `None`.
    ///
    /// An out-of-range index is a caller bug, not input data, so it is
    /// excluded by precondition rather than reported as an error.
    pub fn piece_at(&self, square: usize) -> (r: Option<ChessPiece>)
        requires
            self.wf(),
            square < 64,
        ensures
            r == self@[square as int],
    {
        self.squares[square].occupied
    }

    /// Places a piece on a square, replacing any prior occupant; every
    /// other square is untouched, so no square ever holds two pieces.
    pub fn set_piece(&mut self, square: usize, piece: Piece, color: Color)
        requires
            old(self).wf(),
            square < 64,
        ensures
            final(self).wf(),
            final(self)@ =~= old(self)@.update(
                square as int,
                Some(ChessPiece { piece, color }),
            ),
    {
        self.squares.set(square, Square { occupied: Some(ChessPiece { piece, color }) });
        proof {
            assert(self@ =~= old(self)@.update(square as int, Some(ChessPiece { piece, color })));
        }
    }

    /// Wraps a 64-square occupancy vector into a board.
    pub(crate) fn from_placement(v: &Vec<Option<ChessPiece>>) -> (b: Board)
        requires
            v@.len() == 64,
        ensures
            b.wf(),
            b@ == v@,
    {
        let mut squares: Vec<Square> = Vec::new();
        let mut i: usize = 0;
        while i < 64
            invariant
                i <= 64,
                v@.len() == 64,
                squares@.len() == i,
                forall|j: int| 0 <= j < i ==> squares@[j].occupied == v@[j],
            decreases 64 - i,
        {
            let occ = v[i];
            squares.push(Square { occupied: occ });
            i = i + 1;
        }
        let b = Board { squares };
        proof {
            assert(b@ =~= v@);
        }
        b
    }

    /// Reads the placement field of a FEN string into a board.
    ///
    /// The whole FEN string may be passed: only the first space-separated
    /// field is read. The king-count check belongs to full decoding
    /// ([`crate::game::GameState::from_fen_string`]) and is not made here.
    pub fn from_fen_string(fen_str: &str) -> (r: Result<Board, FenError>)
        ensures
            match r {
                Ok(b) => b.wf() && fen::parse_placement(fen::split_on(fen_str@, ' ')[0])
                    == Ok::<Seq<Option<ChessPiece>>, FenError>(b@),
                Err(e) => fen::parse_placement(fen::split_on(fen_str@, ' ')[0]) == Err::<
                    Seq<Option<ChessPiece>>,
                    FenError,
                >(e),
            },
    {
        let chars = crate::decode::chars_of(fen_str);
        let fields = crate::decode::split_chars(&chars, ' ');
        proof {
            fen::lemma_split_len(fen_str@, ' ');
            assert(fields@.len() == fen::split_on(fen_str@, ' ').len());
            assert(fields@[0]@ == fen::split_on(fen_str@, ' ')[0]);
        }
        match crate::decode::parse_placement_chars(&fields[0]) {
            Ok(v) => Ok(Board::from_placement(&v)),
            Err(e) => Err(e),
        }
    }

    /// Appends one rendered cell of the grid to `out`.
    fn push_cell(&self, out: &mut String, rank: usize, file: usize)
        requires
            self.wf(),
            rank < 8,
            file < 8,
        ensures
            final(out)@ == old(out)@ + square_cell(self@[8 * rank as int + file as int]),
    {
        proof {
            reveal_strlit(" ");
        }
        match self.piece_at(rank * 8 + file) {
            Some(cp) => {
                out.append(" ");
                crate::encode::push_piece(out, cp);
                out.append(" ");
            },
            None => {
                out.append(" ");
                out.append(" ");
                out.append(" ");
            },
        }
        proof {
            assert(out@ =~= old(out)@ + square_cell(self@[8 * rank as int + file as int]));
        }
    }

    /// Appends the border line of the grid to `out`.
    fn push_border(out: &mut String)
        ensures
            final(out)@ == old(out)@ + border_line(),
    {
        proof {
            reveal_strlit(" ----------------------------- ");
            reveal_strlit("\n");
        }
        out.append(" ----------------------------- ");
        out.append("\n");
        proof {
            assert(out@ =~= old(out)@ + border_line());
        }
    }

    /// Renders the board as the bordered grid that a presentation layer
    /// prints: one row per rank, rank 8 on top, each occupant's FEN letter
    /// between spaces and `|` between cells.
    pub fn render(&self) -> (r: String)
        requires
            self.wf(),
        ensures
            r@ == board_render(self@),
    {
        let mut out = String::new();
        Board::push_border(&mut out);
        let mut rk: usize = 0;
        while rk < 8
            invariant
                self.wf(),
                rk <= 8,
                out@ + rows_from(self@, rk as int) == border_line() + rows_from(self@, 0),
            decreases 8 - rk,
        {
            let ghost row0 = out@;
            let ghost cells = rank_cells(self@, rk as int);
            self.push_cell(&mut out, rk, 0);
            proof {
                assert(cells[0] == square_cell(self@[8 * rk as int]));
                assert(cells.subrange(0, 1) =~~= seq![cells[0]]);
                assert(fen::join_with(cells.subrange(0, 1), '|') == cells[0]);
            }
            let mut f: usize = 1;
            while f < 8
                invariant
                    self.wf(),
                    rk < 8,
                    1 <= f <= 8,
                    cells == rank_cells(self@, rk as int),
                    out@ == row0 + fen::join_with(cells.subrange(0, f as int), '|'),
                decreases 8 - f,
            {
                proof {
                    reveal_strlit("|");
                }
                out.append("|");
                self.push_cell(&mut out, rk, f);
                proof {
                    fen::lemma_join_push(cells.subrange(0, f as int), cells[f as int], '|');
                    assert(cells.subrange(0, f as int).push(cells[f as int]) =~~= cells.subrange(
                        0,
                        f as int + 1,
                    ));
                    assert(cells[f as int] == square_cell(self@[8 * rk as int + f as int]));
                    assert(out@ =~= row0 + fen::join_with(cells.subrange(0, f as int + 1), '|'));
                }
                f = f + 1;
            }
            proof {
                reveal_strlit("\n");
                assert(cells.subrange(0, 8) =~~= cells);
            }
            out.append("\n");
            proof {
                assert(out@ =~= row0 + rank_row(self@, rk as int));
                assert(rows_from(self@, rk as int) == rank_row(self@, rk as int) + rows_from(
                    self@,
                    rk as int + 1,
                ));
                assert(out@ + rows_from(self@, rk as int + 1) =~= border_line() + rows_from(
                    self@,
                    0,
                ));
            }
            rk = rk + 1;
        }
        Board::push_border(&mut out);
        proof {
            assert(rows_from(self@, 8) == Seq::<char>::empty());
            assert(out@ =~= board_render(self@));
        }
        out
    }

    /// Empties a square; every other square is untouched.
    pub fn clear_square(&mut self, square: usize)
        requires
            old(self).wf(),
            square < 64,
        ensures
            final(self).wf(),
            final(self)@ =~= old(self)@.update(square as int, None::<ChessPiece>),
    {
        self.squares.set(square, Square { occupied: None });
        proof {
            assert(self@ =~= old(self)@.update(square as int, None::<ChessPiece>));
        }
    }
}

} // verus!
