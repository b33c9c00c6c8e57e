use chess_fen::Board;
use chess_fen::ChessPiece;
use chess_fen::Color;
use chess_fen::Piece;

#[test]
fn test_display() {
    let fen_str = "rnbqkbnr/pppppppp/8/8/8/8/PPPPPPPP/RNBQKBNR w KQkq - 0 1";
    let board = Board::from_fen_string(fen_str).unwrap();
    println!("{}", board.render());

    let fen_str = "rnbqkbnr/pp1ppppp/8/2p5/4P3/5N2/PPPP1PPP/RNBQKB1R b KQkq - 1 2";
    let board = Board::from_fen_string(fen_str).unwrap();
    println!("{}", board.render());
}

#[test]
fn render_shows_the_grid() {
    let board = Board::from_fen_string("rnbqkbnr/pppppppp/8/8/8/8/PPPPPPPP/RNBQKBNR w KQkq - 0 1")
        .unwrap();
    let text = board.render();
    let lines: Vec<&str> = text.lines().collect();
    assert_eq!(lines.len(), 10);
    assert_eq!(lines[0], " ----------------------------- ");
    assert_eq!(lines[9], " ----------------------------- ");
    assert_eq!(lines[1], " r | n | b | q | k | b | n | r ");
    assert_eq!(lines[2], " p | p | p | p | p | p | p | p ");
    assert_eq!(lines[3], "   |   |   |   |   |   |   |   ");
    assert_eq!(lines[8], " R | N | B | Q | K | B | N | R ");
}

#[test]
fn placement_alone_parses() {
    let board = Board::from_fen_string("8/8/8/8/8/8/8/7N").unwrap();
    assert_eq!(
        board.piece_at(63),
        Some(ChessPiece::new(Piece::Knight, Color::White))
    );
    assert_eq!(board.piece_at(0), None);
}

#[test]
fn init_makes_an_empty_board() {
    let board = Board::init();
    for sq in 0..64 {
        assert_eq!(board.piece_at(sq), None);
    }
}

#[test]
fn set_piece_replaces_the_occupant() {
    let mut board = Board::init();
    board.set_piece(12, Piece::Queen, Color::Black);
    assert_eq!(
        board.piece_at(12),
        Some(ChessPiece::new(Piece::Queen, Color::Black))
    );
    board.set_piece(12, Piece::Knight, Color::White);
    assert_eq!(
        board.piece_at(12),
        Some(ChessPiece::new(Piece::Knight, Color::White))
    );
    assert_eq!(board.piece_at(11), None);
    assert_eq!(board.piece_at(13), None);
}

#[test]
fn clear_square_empties_only_that_square() {
    let mut board = Board::init();
    board.set_piece(30, Piece::Rook, Color::White);
    board.set_piece(31, Piece::Rook, Color::Black);
    board.clear_square(30);
    assert_eq!(board.piece_at(30), None);
    assert_eq!(
        board.piece_at(31),
        Some(ChessPiece::new(Piece::Rook, Color::Black))
    );
}
