use chess_fen::ChessPiece;
use chess_fen::Color;
use chess_fen::FenError;
use chess_fen::GameState;
use chess_fen::Piece;
use chess_fen::Square;

#[test]
fn build_game() {
    let gs = GameState::new();
    println!("{}", gs.to_fen_string());

    let fen_str = "rnbqkbnr/pp1ppppp/8/2p5/4P3/5N2/PPPP1PPP/RNBQKB1R b KQkq - 1 2";
    let gs = GameState::from_fen_string(fen_str).unwrap();
    println!("{}", gs.to_fen_string());
}

#[test]
fn new_game_is_the_start_position() {
    let gs = GameState::new();
    assert_eq!(
        gs.to_fen_string(),
        "rnbqkbnr/pppppppp/8/8/8/8/PPPPPPPP/RNBQKBNR w KQkq - 0 1"
    );
    assert_eq!(gs.side_to_move, Color::White);
    assert_eq!(
        gs.board.piece_at(4),
        Some(ChessPiece::new(Piece::King, Color::Black))
    );
    assert_eq!(
        gs.board.piece_at(55),
        Some(ChessPiece::new(Piece::Pawn, Color::White))
    );
}

#[test]
fn square_holds_its_occupant() {
    let sq = Square::new(Some(ChessPiece::new(Piece::Bishop, Color::Black)));
    assert_eq!(
        sq.occupied,
        Some(ChessPiece::new(Piece::Bishop, Color::Black))
    );
    let empty = Square::new(None);
    assert_eq!(empty.occupied, None);
}

#[test]
fn piece_letters_map_both_ways() {
    assert_eq!(
        ChessPiece::from_str('K'),
        Some(ChessPiece::new(Piece::King, Color::White))
    );
    assert_eq!(
        ChessPiece::from_str('q'),
        Some(ChessPiece::new(Piece::Queen, Color::Black))
    );
    assert_eq!(ChessPiece::from_str('z'), None);
    assert_eq!(ChessPiece::from_str('1'), None);
    assert_eq!(ChessPiece::new(Piece::Pawn, Color::White).to_char(), 'P');
    assert_eq!(ChessPiece::new(Piece::Pawn, Color::Black).to_char(), 'p');
}

#[test]
fn piece_kind_letters() {
    assert_eq!(Piece::Pawn.as_str(), "p");
    assert_eq!(Piece::Knight.as_str(), "n");
    assert_eq!(Piece::Bishop.as_str(), "b");
    assert_eq!(Piece::Rook.as_str(), "r");
    assert_eq!(Piece::Queen.as_str(), "q");
    assert_eq!(Piece::King.as_str(), "k");
}

#[test]
fn color_from_str_reads_both_cases() {
    assert_eq!(Color::from_str("w"), Ok(Color::White));
    assert_eq!(Color::from_str("W"), Ok(Color::White));
    assert_eq!(Color::from_str("b"), Ok(Color::Black));
    assert_eq!(Color::from_str("B"), Ok(Color::Black));
    assert_eq!(Color::from_str("x"), Err(FenError::InvalidColor));
    assert_eq!(Color::from_str("wb"), Err(FenError::InvalidColor));
    assert_eq!(Color::from_str(""), Err(FenError::InvalidColor));
}
