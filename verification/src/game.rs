//! The aggregate game state: a board plus the auxiliary FEN fields.

use vstd::prelude::*;

use crate::board::Board;
use crate::fen;
use crate::fen::FenError;
use crate::pieces::ChessPiece;
use crate::pieces::Color;
use crate::pieces::Piece;

verus! {

/// The four castling rights, one boolean each; the structured form of the
/// FEN castling field.
#[derive(Clone, Copy, Debug, PartialEq, Eq, Structural)]
pub struct CastlingRights {
    /// White may castle king-side (FEN letter `K`).
    pub white_king_side: bool,
    /// White may castle queen-side (FEN letter `Q`).
    pub white_queen_side: bool,
    /// Black may castle king-side (FEN letter `k`).
    pub black_king_side: bool,
    /// Black may castle queen-side (FEN letter `q`).
    pub black_queen_side: bool,
}

/// The mathematical view of a [`GameState`]: the board as a sequence of 64
/// optional occupants, square 0 being rank 8 file a, plus the auxiliary
/// fields as plain values.
pub ghost struct PosView {
    pub board: Seq<Option<ChessPiece>>,
    pub side_to_move: Color,
    pub castling_rights: CastlingRights,
    pub en_passant_target: Option<u8>,
    pub halfmove_clock: u64,
    pub fullmove_counter: u64,
}

/// A complete chess position: piece placement and the five auxiliary FEN
/// fields in structured form.
pub struct GameState {
    /// The piece placement.
    pub board: Board,
    /// Whose turn it is.
    pub side_to_move: Color,
    /// The castling rights of both sides.
    pub castling_rights: CastlingRights,
    /// The square index a pawn may be captured en passant on, if any.
    pub en_passant_target: Option<u8>,
    /// Moves since the last pawn advance or capture (fifty-move rule).
    pub halfmove_clock: u64,
    /// The move number, starting at 1.
    pub fullmove_counter: u64,
}

impl View for GameState {
    type V = PosView;

    open spec fn view(&self) -> PosView {
        PosView {
            board: self.board@,
            side_to_move: self.side_to_move,
            castling_rights: self.castling_rights,
            en_passant_target: self.en_passant_target,
            halfmove_clock: self.halfmove_clock,
            fullmove_counter: self.fullmove_counter,
        }
    }
}

/// The occupant each square holds in the standard starting position.
pub open spec fn start_square(i: int) -> Option<ChessPiece> {
    if i == 0 || i == 7 {
        Some(ChessPiece { piece: Piece::Rook, color: Color::Black })
    } else if i == 1 || i == 6 {
        Some(ChessPiece { piece: Piece::Knight, color: Color::Black })
    } else if i == 2 || i == 5 {
        Some(ChessPiece { piece: Piece::Bishop, color: Color::Black })
    } else if i == 3 {
        Some(ChessPiece { piece: Piece::Queen, color: Color::Black })
    } else if i == 4 {
        Some(ChessPiece { piece: Piece::King, color: Color::Black })
    } else if 8 <= i && i < 16 {
        Some(ChessPiece { piece: Piece::Pawn, color: Color::Black })
    } else if 48 <= i && i < 56 {
        Some(ChessPiece { piece: Piece::Pawn, color: Color::White })
    } else if i == 56 || i == 63 {
        Some(ChessPiece { piece: Piece::Rook, color: Color::White })
    } else if i == 57 || i == 62 {
        Some(ChessPiece { piece: Piece::Knight, color: Color::White })
    } else if i == 58 || i == 61 {
        Some(ChessPiece { piece: Piece::Bishop, color: Color::White })
    } else if i == 59 {
        Some(ChessPiece { piece: Piece::Queen, color: Color::White })
    } else if i == 60 {
        Some(ChessPiece { piece: Piece::King, color: Color::White })
    } else {
        None
    }
}

/// The standard starting position: all thirty-two pieces on their home
/// squares, White to move, full castling rights, no en-passant target,
/// clocks at 0 and 1.
pub open spec fn start_position() -> PosView {
    PosView {
        board: Seq::new(64, |i: int| start_square(i)),
        side_to_move: Color::White,
        castling_rights: CastlingRights {
            white_king_side: true,
            white_queen_side: true,
            black_king_side: true,
            black_queen_side: true,
        },
        en_passant_target: None,
        halfmove_clock: 0,
        fullmove_counter: 1,
    }
}

/// The occupant of square `i` in the starting position.
fn start_square_at(i: usize) -> (r: Option<ChessPiece>)
    requires
        i < 64,
    ensures
        r == start_square(i as int),
{
    if i == 0 || i == 7 {
        Some(ChessPiece { piece: Piece::Rook, color: Color::Black })
    } else if i == 1 || i == 6 {
        Some(ChessPiece { piece: Piece::Knight, color: Color::Black })
    } else if i == 2 || i == 5 {
        Some(ChessPiece { piece: Piece::Bishop, color: Color::Black })
    } else if i == 3 {
        Some(ChessPiece { piece: Piece::Queen, color: Color::Black })
    } else if i == 4 {
        Some(ChessPiece { piece: Piece::King, color: Color::Black })
    } else if 8 <= i && i < 16 {
        Some(ChessPiece { piece: Piece::Pawn, color: Color::Black })
    } else if 48 <= i && i < 56 {
        Some(ChessPiece { piece: Piece::Pawn, color: Color::White })
    } else if i == 56 || i == 63 {
        Some(ChessPiece { piece: Piece::Rook, color: Color::White })
    } else if i == 57 || i == 62 {
        Some(ChessPiece { piece: Piece::Knight, color: Color::White })
    } else if i == 58 || i == 61 {
        Some(ChessPiece { piece: Piece::Bishop, color: Color::White })
    } else if i == 59 {
        Some(ChessPiece { piece: Piece::Queen, color: Color::White })
    } else if i == 60 {
        Some(ChessPiece { piece: Piece::King, color: Color::White })
    } else {
        None
    }
}

impl GameState {
    /// A structurally well-formed state: a 64-square board and an
    /// en-passant target that is a square index.
    pub open spec fn wf(&self) -> bool {
        fen::view_wf(self@)
    }

    /// The starting position of a new game.
    pub fn new() -> (gs: Self)
        ensures
            gs@ == start_position(),
            gs.wf(),
    {
        let mut v: Vec<Option<ChessPiece>> = Vec::new();
        let mut i: usize = 0;
        while i < 64
            invariant
                i <= 64,
                v@.len() == i,
                forall|j: int| 0 <= j < i ==> v@[j] == start_square(j),
            decreases 64 - i,
        {
            v.push(start_square_at(i));
            i = i + 1;
        }
        let board = Board::from_placement(&v);
        let gs = GameState {
            board,
            side_to_move: Color::White,
            castling_rights: CastlingRights {
                white_king_side: true,
                white_queen_side: true,
                black_king_side: true,
                black_queen_side: true,
            },
            en_passant_target: None,
            halfmove_clock: 0,
            fullmove_counter: 1,
        };
        proof {
            assert(gs@.board =~= start_position().board);
        }
        gs
    }

    /// Decodes a FEN string into a complete position, or reports exactly
    /// why the string is rejected, as [`fen::fen_decode`] describes: six
    /// space-separated fields read in order, then the one-king-per-color
    /// check.
    pub fn from_fen_string(fen_str: &str) -> (r: Result<GameState, FenError>)
        ensures
            match r {
                Ok(gs) => fen::fen_decode(fen_str@) == Ok::<PosView, FenError>(gs@) && gs.wf(),
                Err(e) => fen::fen_decode(fen_str@) == Err::<PosView, FenError>(e),
            },
    {
        let chars = crate::decode::chars_of(fen_str);
        let fields = crate::decode::split_chars(&chars, ' ');
        let ghost fv = fen::split_on(fen_str@, ' ');
        proof {
            assert(fields@.len() == fv.len());
        }
        if fields.len() != 6 {
            return Err(FenError::MalformedFieldCount);
        }
        proof {
            assert(fields@[0]@ == fv[0]);
            assert(fields@[1]@ == fv[1]);
            assert(fields@[2]@ == fv[2]);
            assert(fields@[3]@ == fv[3]);
            assert(fields@[4]@ == fv[4]);
            assert(fields@[5]@ == fv[5]);
        }
        let placement = match crate::decode::parse_placement_chars(&fields[0]) {
            Ok(v) => v,
            Err(e) => {
                return Err(e);
            },
        };
        let side = match crate::decode::parse_color_chars(&fields[1]) {
            Ok(c) => c,
            Err(e) => {
                return Err(e);
            },
        };
        let castling = match crate::decode::parse_castling_chars(&fields[2]) {
            Ok(c) => c,
            Err(e) => {
                return Err(e);
            },
        };
        let ep = match crate::decode::parse_en_passant_chars(&fields[3]) {
            Ok(t) => t,
            Err(e) => {
                return Err(e);
            },
        };
        let half = match crate::decode::parse_counter_chars(&fields[4]) {
            Ok(n) => n,
            Err(e) => {
                return Err(e);
            },
        };
        let full = match crate::decode::parse_counter_chars(&fields[5]) {
            Ok(n) => n,
            Err(e) => {
                return Err(e);
            },
        };
        let wk = crate::decode::count_piece_vec(
            &placement,
            ChessPiece { piece: Piece::King, color: Color::White },
        );
        let bk = crate::decode::count_piece_vec(
            &placement,
            ChessPiece { piece: Piece::King, color: Color::Black },
        );
        if wk != 1 || bk != 1 {
            return Err(FenError::InvalidKingCount);
        }
        let board = Board::from_placement(&placement);
        let gs = GameState {
            board,
            side_to_move: side,
            castling_rights: castling,
            en_passant_target: ep,
            halfmove_clock: half,
            fullmove_counter: full,
        };
        proof {
            assert(fen::fen_decode(fen_str@) == Ok::<PosView, FenError>(gs@));
        }
        Ok(gs)
    }

    /// Encodes this position as a FEN string. Encoding is total: every
    /// well-formed position prints, exactly as [`fen::fen_encode`]
    /// describes, with empty squares coalesced into single run digits and
    /// the castling letters in canonical `KQkq` order.
    pub fn to_fen_string(&self) -> (r: String)
        requires
            self.wf(),
        ensures
            r@ == fen::fen_encode(self@),
    {
        let mut out = String::new();
        crate::encode::push_placement(&mut out, &self.board);
        crate::encode::push_space(&mut out);
        crate::encode::push_color(&mut out, self.side_to_move);
        crate::encode::push_space(&mut out);
        crate::encode::push_castling(&mut out, self.castling_rights);
        crate::encode::push_space(&mut out);
        crate::encode::push_en_passant(&mut out, self.en_passant_target);
        crate::encode::push_space(&mut out);
        crate::encode::push_counter(&mut out, self.halfmove_clock);
        crate::encode::push_space(&mut out);
        crate::encode::push_counter(&mut out, self.fullmove_counter);
        proof {
            assert(out@ =~= fen::fen_encode(self@));
        }
        out
    }
}

} // verus!
