use chess_fen::CastlingRights;
use chess_fen::Color;
use chess_fen::FenError;
use chess_fen::GameState;
use chess_fen::Piece;

const START_FEN: &str = "rnbqkbnr/pppppppp/8/8/8/8/PPPPPPPP/RNBQKBNR w KQkq - 0 1";

#[test]
fn round_trip_start_position() {
    let gs = GameState::from_fen_string(START_FEN).unwrap();
    assert_eq!(gs.to_fen_string(), START_FEN);
}

#[test]
fn round_trip_midgame_position() {
    let fen = "rnbqkbnr/pp1ppppp/8/2p5/4P3/5N2/PPPP1PPP/RNBQKB1R b KQkq - 1 2";
    let gs = GameState::from_fen_string(fen).unwrap();
    assert_eq!(gs.to_fen_string(), fen);
}

#[test]
fn round_trip_en_passant_position() {
    let fen = "rnbqkbnr/ppp1pppp/8/3p4/4P3/8/PPPP1PPP/RNBQKBNR w KQkq d6 0 2";
    let gs = GameState::from_fen_string(fen).unwrap();
    assert_eq!(gs.en_passant_target, Some(19));
    assert_eq!(gs.to_fen_string(), fen);
}

#[test]
fn decode_start_fields() {
    let gs = GameState::from_fen_string(START_FEN).unwrap();
    assert_eq!(gs.side_to_move, Color::White);
    assert!(gs.castling_rights.white_king_side);
    assert!(gs.castling_rights.white_queen_side);
    assert!(gs.castling_rights.black_king_side);
    assert!(gs.castling_rights.black_queen_side);
    assert_eq!(gs.en_passant_target, None);
    assert_eq!(gs.halfmove_clock, 0);
    assert_eq!(gs.fullmove_counter, 1);
    assert_eq!(
        gs.board.piece_at(0).map(|p| (p.piece, p.color)),
        Some((Piece::Rook, Color::Black))
    );
    assert_eq!(
        gs.board.piece_at(60).map(|p| (p.piece, p.color)),
        Some((Piece::King, Color::White))
    );
    assert_eq!(gs.board.piece_at(32), None);
}

#[test]
fn rank_overflow_rejected() {
    let r = GameState::from_fen_string("9/8/8/8/8/8/8/8 w - - 0 1");
    assert_eq!(r.err(), Some(FenError::RankOverflow));
}

#[test]
fn digit_run_past_rank_end_rejected() {
    let r = GameState::from_fen_string("pppp6/8/8/8/8/8/8/8 w - - 0 1");
    assert_eq!(r.err(), Some(FenError::RankOverflow));
}

#[test]
fn invalid_piece_letter_rejected() {
    let r = GameState::from_fen_string("xxxxxxxx/8/8/8/8/8/8/8 w - - 0 1");
    assert_eq!(r.err(), Some(FenError::InvalidPieceChar));
}

#[test]
fn invalid_placement_char_rejected() {
    let r = GameState::from_fen_string("rnbqkbnr/pppppppp/8/8/8/8/PPPPPPPP/RNBQKBN? w KQkq - 0 1");
    assert_eq!(r.err(), Some(FenError::InvalidPlacementChar));
}

#[test]
fn rank_length_mismatch_rejected() {
    let r = GameState::from_fen_string("rnbqkbnr/ppppppp/8/8/8/8/PPPPPPPP/RNBQKBNR w KQkq - 0 1");
    assert_eq!(r.err(), Some(FenError::RankLengthMismatch));
}

#[test]
fn malformed_rank_count_rejected() {
    let r = GameState::from_fen_string("8/8/8/8/8/8/8 w - - 0 1");
    assert_eq!(r.err(), Some(FenError::MalformedRankCount));
}

#[test]
fn malformed_field_count_rejected() {
    let r = GameState::from_fen_string("8/8/8/8/8/8/8/8 w - - 0");
    assert_eq!(r.err(), Some(FenError::MalformedFieldCount));
}

#[test]
fn invalid_color_rejected() {
    let r = GameState::from_fen_string("4k3/8/8/8/8/8/8/4K3 x - - 0 1");
    assert_eq!(r.err(), Some(FenError::InvalidColor));
}

#[test]
fn invalid_castling_char_rejected() {
    let r = GameState::from_fen_string("4k3/8/8/8/8/8/8/4K3 w KX - 0 1");
    assert_eq!(r.err(), Some(FenError::InvalidCastlingChar));
}

#[test]
fn repeated_castling_letter_rejected() {
    let r = GameState::from_fen_string("4k3/8/8/8/8/8/8/4K3 w KK - 0 1");
    assert_eq!(r.err(), Some(FenError::InvalidCastlingChar));
}

#[test]
fn invalid_en_passant_rejected() {
    let r = GameState::from_fen_string("4k3/8/8/8/8/8/8/4K3 w - e9 0 1");
    assert_eq!(r.err(), Some(FenError::InvalidEnPassantSquare));
}

#[test]
fn invalid_number_rejected() {
    let r = GameState::from_fen_string("4k3/8/8/8/8/8/8/4K3 w - - zero 1");
    assert_eq!(r.err(), Some(FenError::InvalidNumber));
}

#[test]
fn oversized_number_rejected() {
    let r = GameState::from_fen_string("4k3/8/8/8/8/8/8/4K3 w - - 99999999999999999999 1");
    assert_eq!(r.err(), Some(FenError::InvalidNumber));
}

#[test]
fn zero_white_kings_rejected() {
    let r = GameState::from_fen_string("4k3/8/8/8/8/8/8/8 w - - 0 1");
    assert_eq!(r.err(), Some(FenError::InvalidKingCount));
}

#[test]
fn two_white_kings_rejected() {
    let r = GameState::from_fen_string("4k3/8/8/8/8/8/8/K3K3 w - - 0 1");
    assert_eq!(r.err(), Some(FenError::InvalidKingCount));
}

#[test]
fn castling_field_qk_decodes_and_reencodes() {
    let fen = "4k3/8/8/8/8/8/8/4K3 w Qk - 0 1";
    let gs = GameState::from_fen_string(fen).unwrap();
    assert_eq!(
        gs.castling_rights,
        CastlingRights {
            white_king_side: false,
            white_queen_side: true,
            black_king_side: true,
            black_queen_side: false,
        }
    );
    let out = gs.to_fen_string();
    let castling_field = out.split(' ').nth(2).unwrap();
    assert_eq!(castling_field, "Qk");
}

#[test]
fn empty_ranks_encode_as_single_digit() {
    let fen = "4k3/8/8/8/8/8/8/4K3 w - - 0 1";
    let gs = GameState::from_fen_string(fen).unwrap();
    let out = gs.to_fen_string();
    let placement = out.split(' ').next().unwrap();
    assert_eq!(placement, "4k3/8/8/8/8/8/8/4K3");
}

#[test]
fn empty_squares_coalesce_around_pieces() {
    let fen = "rnbqkbnr/pppppppp/8/8/3PP3/8/PPP2PPP/RNBQKBNR b KQkq - 0 1";
    let gs = GameState::from_fen_string(fen).unwrap();
    assert_eq!(gs.to_fen_string(), fen);
}

#[test]
fn en_passant_square_maps_to_index() {
    let gs = GameState::from_fen_string("4k3/8/8/8/8/8/8/4K3 w - e3 0 1").unwrap();
    assert_eq!(gs.en_passant_target, Some(44));
}

#[test]
fn side_to_move_letter_accepts_either_case() {
    let gs = GameState::from_fen_string("4k3/8/8/8/8/8/8/4K3 W - - 0 1").unwrap();
    assert_eq!(gs.side_to_move, Color::White);
    let gs = GameState::from_fen_string("4k3/8/8/8/8/8/8/4K3 B - - 0 1").unwrap();
    assert_eq!(gs.side_to_move, Color::Black);
}

#[test]
fn clock_values_carry_through() {
    let fen = "4k3/8/8/8/8/8/8/4K3 w - - 99 450";
    let gs = GameState::from_fen_string(fen).unwrap();
    assert_eq!(gs.halfmove_clock, 99);
    assert_eq!(gs.fullmove_counter, 450);
    assert_eq!(gs.to_fen_string(), fen);
}
