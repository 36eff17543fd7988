//! Tests of the three notation parsers and the coordinate transform.

use boardreq::{Color, DecodeError, Move, Orientation, Piece, Role, Square, maybe_square};
use boardreq::Position;

const STARTING_FEN: &str = "rnbqkbnr/pppppppp/8/8/8/8/PPPPPPPP/RNBQKBNR w KQkq - 0 1";

#[test]
fn orientation_fold_picks_the_matching_value() {
    assert_eq!(Orientation::White.fold(1, 2), 1);
    assert_eq!(Orientation::Black.fold(1, 2), 2);
    assert_eq!(Orientation::White.fold("w", "b"), "w");
    assert_eq!(Orientation::Black.fold("w", "b"), "b");
}

#[test]
fn coordinates_stay_on_the_board_and_flip() {
    for file in 0..8u8 {
        for rank in 0..8u8 {
            let s = Square { file, rank };
            let xw = Orientation::White.x(s);
            let yw = Orientation::White.y(s);
            let xb = Orientation::Black.x(s);
            let yb = Orientation::Black.y(s);
            assert!(xw <= 7 && yw <= 7 && xb <= 7 && yb <= 7);
            assert_eq!(xw, 7 - xb);
            assert_eq!(yw, 7 - yb);
        }
    }
}

#[test]
fn coordinates_of_e4_under_both_views() {
    let e4 = Square { file: 4, rank: 3 };
    assert_eq!(Orientation::White.x(e4), 4);
    assert_eq!(Orientation::White.y(e4), 4);
    assert_eq!(Orientation::Black.x(e4), 3);
    assert_eq!(Orientation::Black.y(e4), 3);
}

#[test]
fn square_parsing_absent_is_none() {
    assert_eq!(maybe_square(None), Ok(None));
}

#[test]
fn square_parsing_e4() {
    assert_eq!(maybe_square(Some("e4")), Ok(Some(Square { file: 4, rank: 3 })));
    assert_eq!(maybe_square(Some("a1")), Ok(Some(Square { file: 0, rank: 0 })));
    assert_eq!(maybe_square(Some("h8")), Ok(Some(Square { file: 7, rank: 7 })));
}

#[test]
fn square_parsing_rejects_malformed_names() {
    assert_eq!(maybe_square(Some("i9")), Err(DecodeError::MalformedSquare));
    assert_eq!(maybe_square(Some("e")), Err(DecodeError::MalformedSquare));
    assert_eq!(maybe_square(Some("e44")), Err(DecodeError::MalformedSquare));
    assert_eq!(maybe_square(Some("")), Err(DecodeError::MalformedSquare));
    assert_eq!(maybe_square(Some("E4")), Err(DecodeError::MalformedSquare));
}

#[test]
fn move_parsing_e2e4() {
    assert_eq!(
        Move::parse("e2e4"),
        Ok(Move::Normal {
            from: Square { file: 4, rank: 1 },
            to: Square { file: 4, rank: 3 },
            promotion: None,
        })
    );
}

#[test]
fn move_parsing_null_move() {
    assert_eq!(Move::parse("0000"), Ok(Move::Null));
}

#[test]
fn move_parsing_promotion() {
    assert_eq!(
        Move::parse("e7e8q"),
        Ok(Move::Normal {
            from: Square { file: 4, rank: 6 },
            to: Square { file: 4, rank: 7 },
            promotion: Some(Role::Queen),
        })
    );
    assert_eq!(
        Move::parse("a2a1N"),
        Ok(Move::Normal {
            from: Square { file: 0, rank: 1 },
            to: Square { file: 0, rank: 0 },
            promotion: Some(Role::Knight),
        })
    );
}

#[test]
fn move_parsing_rejects_malformed_moves() {
    assert_eq!(Move::parse(""), Err(DecodeError::MalformedMove));
    assert_eq!(Move::parse("e2"), Err(DecodeError::MalformedMove));
    assert_eq!(Move::parse("e2e9"), Err(DecodeError::MalformedMove));
    assert_eq!(Move::parse("e2e4x"), Err(DecodeError::MalformedMove));
    assert_eq!(Move::parse("e2e4qq"), Err(DecodeError::MalformedMove));
}

#[test]
fn starting_fen_round_trips_identically() {
    let p = Position::parse(STARTING_FEN).expect("the starting position parses");
    assert_eq!(p.to_fen(), STARTING_FEN);
}

#[test]
fn parsed_starting_fen_fields() {
    let p = Position::parse(STARTING_FEN).unwrap();
    assert_eq!(p.board.len(), 64);
    assert_eq!(p.board[0], Some(Piece { color: Color::Black, role: Role::Rook }));
    assert_eq!(p.board[4], Some(Piece { color: Color::Black, role: Role::King }));
    assert_eq!(p.board[12], Some(Piece { color: Color::Black, role: Role::Pawn }));
    assert_eq!(p.board[27], None);
    assert_eq!(p.board[60], Some(Piece { color: Color::White, role: Role::King }));
    assert_eq!(p.turn, Color::White);
    assert!(p.castling.white_king && p.castling.white_queen);
    assert!(p.castling.black_king && p.castling.black_queen);
    assert_eq!(p.en_passant, None);
    assert_eq!(p.halfmoves, 0);
    assert_eq!(p.fullmoves, 1);
}

#[test]
fn initial_position_matches_the_starting_fen() {
    let built = Position::initial();
    assert_eq!(built.to_fen(), STARTING_FEN);
}

#[test]
fn fen_with_en_passant_and_clocks_round_trips() {
    let fen = "rnbqkbnr/pppppppp/8/8/4P3/8/PPPP1PPP/RNBQKBNR b KQkq e3 12 34";
    let p = Position::parse(fen).unwrap();
    assert_eq!(p.en_passant, Some(Square { file: 4, rank: 2 }));
    assert_eq!(p.halfmoves, 12);
    assert_eq!(p.fullmoves, 34);
    assert_eq!(p.to_fen(), fen);
}

#[test]
fn fen_with_partial_castling_round_trips() {
    let fen = "r3k2r/8/8/8/8/8/8/R3K2R w Kq - 3 20";
    let p = Position::parse(fen).unwrap();
    assert!(p.castling.white_king && !p.castling.white_queen);
    assert!(!p.castling.black_king && p.castling.black_queen);
    assert_eq!(p.to_fen(), fen);
}

#[test]
fn fen_rejects_wrong_field_count() {
    assert!(matches!(
        Position::parse("rnbqkbnr/pppppppp/8/8/8/8/PPPPPPPP/RNBQKBNR w KQkq -"),
        Err(DecodeError::MalformedPosition)
    ));
    assert!(matches!(
        Position::parse("rnbqkbnr/pppppppp/8/8/8/8/PPPPPPPP/RNBQKBNR w KQkq - 0 1 extra"),
        Err(DecodeError::MalformedPosition)
    ));
    assert!(matches!(
        Position::parse(""),
        Err(DecodeError::MalformedPosition)
    ));
}

#[test]
fn fen_rejects_bad_placement() {
    // An invalid piece letter.
    assert!(matches!(
        Position::parse("rnbqxbnr/pppppppp/8/8/8/8/PPPPPPPP/RNBQKBNR w KQkq - 0 1"),
        Err(DecodeError::MalformedPosition)
    ));
    // A rank a cell short.
    assert!(matches!(
        Position::parse("rnbqkbnr/ppppppp/8/8/8/8/PPPPPPPP/RNBQKBNR w KQkq - 0 1"),
        Err(DecodeError::MalformedPosition)
    ));
    // A rank a cell long.
    assert!(matches!(
        Position::parse("rnbqkbnr/ppppppppp/8/8/8/8/PPPPPPPP/RNBQKBNR w KQkq - 0 1"),
        Err(DecodeError::MalformedPosition)
    ));
    // Only seven ranks.
    assert!(matches!(
        Position::parse("rnbqkbnr/pppppppp/8/8/8/PPPPPPPP/RNBQKBNR w KQkq - 0 1"),
        Err(DecodeError::MalformedPosition)
    ));
}

#[test]
fn fen_rejects_bad_trailing_fields() {
    // Side to move.
    assert!(matches!(
        Position::parse("rnbqkbnr/pppppppp/8/8/8/8/PPPPPPPP/RNBQKBNR x KQkq - 0 1"),
        Err(DecodeError::MalformedPosition)
    ));
    // Castling letters out of order.
    assert!(matches!(
        Position::parse("rnbqkbnr/pppppppp/8/8/8/8/PPPPPPPP/RNBQKBNR w QK - 0 1"),
        Err(DecodeError::MalformedPosition)
    ));
    // En-passant square off the board.
    assert!(matches!(
        Position::parse("rnbqkbnr/pppppppp/8/8/8/8/PPPPPPPP/RNBQKBNR w KQkq z9 0 1"),
        Err(DecodeError::MalformedPosition)
    ));
    // Non-numeric clock.
    assert!(matches!(
        Position::parse("rnbqkbnr/pppppppp/8/8/8/8/PPPPPPPP/RNBQKBNR w KQkq - x 1"),
        Err(DecodeError::MalformedPosition)
    ));
    // Clock beyond 32 bits.
    assert!(matches!(
        Position::parse("rnbqkbnr/pppppppp/8/8/8/8/PPPPPPPP/RNBQKBNR w KQkq - 0 4294967296"),
        Err(DecodeError::MalformedPosition)
    ));
    // Clock at exactly the 32-bit bound still parses.
    let p = Position::parse(
        "rnbqkbnr/pppppppp/8/8/8/8/PPPPPPPP/RNBQKBNR w KQkq - 0 4294967295",
    )
    .unwrap();
    assert_eq!(p.fullmoves, 4294967295);
}

#[test]
fn non_canonical_spellings_normalize() {
    // Split cell counts and leading zeros are accepted and re-emitted
    // canonically.
    let p = Position::parse("44/8/8/8/8/8/8/8 w - - 007 1").unwrap();
    assert_eq!(p.to_fen(), "8/8/8/8/8/8/8/8 w - - 7 1");
}
