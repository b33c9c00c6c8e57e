//! Piece kinds, colors, and the FEN letters that denote them.

use vstd::prelude::*;

use crate::fen::FenError;

verus! {

/// The color of a piece, and of the side to move.
#[derive(Clone, Copy, Debug, PartialEq, Eq, Structural)]
pub enum Color {
    Black,
    White,
}

/// The six chess piece kinds.
#[derive(Clone, Copy, Debug, PartialEq, Eq, Structural)]
pub enum Piece {
    Pawn,
    Knight,
    Bishop,
    Rook,
    Queen,
    King,
}

/// A colored piece: the occupant of a board square.
#[derive(Clone, Copy, Debug, PartialEq, Eq, Structural)]
pub struct ChessPiece {
    pub piece: Piece,
    pub color: Color,
}

/// The lowercase FEN letter of a piece kind.
pub open spec fn piece_letter(p: Piece) -> char {
    match p {
        Piece::Pawn => 'p',
        Piece::Knight => 'n',
        Piece::Bishop => 'b',
        Piece::Rook => 'r',
        Piece::Queen => 'q',
        Piece::King => 'k',
    }
}

/// The FEN letter of a colored piece: uppercase for White, lowercase for
/// Black.
pub open spec fn piece_char(cp: ChessPiece) -> char {
    match cp.color {
        Color::White => match cp.piece {
            Piece::Pawn => 'P',
            Piece::Knight => 'N',
            Piece::Bishop => 'B',
            Piece::Rook => 'R',
            Piece::Queen => 'Q',
            Piece::King => 'K',
        },
        Color::Black => piece_letter(cp.piece),
    }
}

/// The colored piece a FEN placement letter denotes, or `None` for any
/// other character.
pub open spec fn piece_from_char(c: char) -> Option<ChessPiece> {
    if c == 'r' {
        Some(ChessPiece { piece: Piece::Rook, color: Color::Black })
    } else if c == 'n' {
        Some(ChessPiece { piece: Piece::Knight, color: Color::Black })
    } else if c == 'b' {
        Some(ChessPiece { piece: Piece::Bishop, color: Color::Black })
    } else if c == 'q' {
        Some(ChessPiece { piece: Piece::Queen, color: Color::Black })
    } else if c == 'k' {
        Some(ChessPiece { piece: Piece::King, color: Color::Black })
    } else if c == 'p' {
        Some(ChessPiece { piece: Piece::Pawn, color: Color::Black })
    } else if c == 'R' {
        Some(ChessPiece { piece: Piece::Rook, color: Color::White })
    } else if c == 'N' {
        Some(ChessPiece { piece: Piece::Knight, color: Color::White })
    } else if c == 'B' {
        Some(ChessPiece { piece: Piece::Bishop, color: Color::White })
    } else if c == 'Q' {
        Some(ChessPiece { piece: Piece::Queen, color: Color::White })
    } else if c == 'K' {
        Some(ChessPiece { piece: Piece::King, color: Color::White })
    } else if c == 'P' {
        Some(ChessPiece { piece: Piece::Pawn, color: Color::White })
    } else {
        None
    }
}

/// A placement letter decodes back to the piece it was printed from.
pub proof fn lemma_piece_char_from_char(cp: ChessPiece)
    ensures
        piece_from_char(piece_char(cp)) == Some(cp),
{
}

/// An ASCII letter, the only characters the placement field classifies as
/// piece letters (a letter outside `PNBRQKpnbrqk` is a distinct error from a
/// stray punctuation character).
pub open spec fn is_ascii_letter(c: char) -> bool {
    (97 <= c as u32 && c as u32 <= 122) || (65 <= c as u32 && c as u32 <= 90)
}

/// Whether the side-to-move field `s` reads as a color: a single `w` or `b`
/// letter, either case accepted.
pub open spec fn parse_color(s: Seq<char>) -> Result<Color, FenError> {
    if s.len() == 1 && (s[0] == 'w' || s[0] == 'W') {
        Ok(Color::White)
    } else if s.len() == 1 && (s[0] == 'b' || s[0] == 'B') {
        Ok(Color::Black)
    } else {
        Err(FenError::InvalidColor)
    }
}

impl ChessPiece {
    /// Pairs a piece kind with a color.
    pub fn new(piece: Piece, color: Color) -> (r: Self)
        ensures
            r == (ChessPiece { piece, color }),
    {
        Self { piece, color }
    }

    /// Reads one FEN placement letter: uppercase for White, lowercase for
    /// Black, `None` for anything else.
    pub fn from_str(p: char) -> (r: Option<ChessPiece>)
        ensures
            r == piece_from_char(p),
    {
        match p {
            'r' => Some(ChessPiece::new(Piece::Rook, Color::Black)),
            'n' => Some(ChessPiece::new(Piece::Knight, Color::Black)),
            'b' => Some(ChessPiece::new(Piece::Bishop, Color::Black)),
            'q' => Some(ChessPiece::new(Piece::Queen, Color::Black)),
            'k' => Some(ChessPiece::new(Piece::King, Color::Black)),
            'p' => Some(ChessPiece::new(Piece::Pawn, Color::Black)),
            'R' => Some(ChessPiece::new(Piece::Rook, Color::White)),
            'N' => Some(ChessPiece::new(Piece::Knight, Color::White)),
            'B' => Some(ChessPiece::new(Piece::Bishop, Color::White)),
            'Q' => Some(ChessPiece::new(Piece::Queen, Color::White)),
            'K' => Some(ChessPiece::new(Piece::King, Color::White)),
            'P' => Some(ChessPiece::new(Piece::Pawn, Color::White)),
            _ => None,
        }
    }

    /// The FEN letter of this piece.
    pub fn to_char(&self) -> (r: char)
        ensures
            r == piece_char(*self),
    {
        match self.color {
            Color::White => match self.piece {
                Piece::Pawn => 'P',
                Piece::Knight => 'N',
                Piece::Bishop => 'B',
                Piece::Rook => 'R',
                Piece::Queen => 'Q',
                Piece::King => 'K',
            },
            Color::Black => match self.piece {
                Piece::Pawn => 'p',
                Piece::Knight => 'n',
                Piece::Bishop => 'b',
                Piece::Rook => 'r',
                Piece::Queen => 'q',
                Piece::King => 'k',
            },
        }
    }
}

impl Piece {
    /// The lowercase FEN letter of this piece kind, as a one-character
    /// string.
    pub fn as_str(&self) -> (r: &str)
        ensures
            r@ == seq![piece_letter(*self)],
    {
        match self {
            Piece::Pawn => {
                proof {
                    reveal_strlit("p");
                }
                "p"
            },
            Piece::Knight => {
                proof {
                    reveal_strlit("n");
                }
                "n"
            },
            Piece::Bishop => {
                proof {
                    reveal_strlit("b");
                }
                "b"
            },
            Piece::Rook => {
                proof {
                    reveal_strlit("r");
                }
                "r"
            },
            Piece::Queen => {
                proof {
                    reveal_strlit("q");
                }
                "q"
            },
            Piece::King => {
                proof {
                    reveal_strlit("k");
                }
                "k"
            },
        }
    }
}

impl Color {
    /// Reads the side-to-move field: a single `w` or `b` letter, either
    /// case accepted; anything else is rejected.
    pub fn from_str(s: &str) -> (r: Result<Color, FenError>)
        ensures
            r == parse_color(s@),
    {
        if s.unicode_len() == 1 {
            let c = s.get_char(0);
            if c == 'w' || c == 'W' {
                Ok(Color::White)
            } else if c == 'b' || c == 'B' {
                Ok(Color::Black)
            } else {
                Err(FenError::InvalidColor)
            }
        } else {
            Err(FenError::InvalidColor)
        }
    }
}

} // verus!
