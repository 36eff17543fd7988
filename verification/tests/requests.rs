//! Tests of the request decoders, player names, and the example
//! generator.

use boardreq::{
    DecodeError, FrameParams, Move, Orientation, PlayerName, RequestBody, RequestParams, Square,
};

const STARTING_FEN: &str = "rnbqkbnr/pppppppp/8/8/8/8/PPPPPPPP/RNBQKBNR w KQkq - 0 1";
const AFTER_E2E4_FEN: &str = "rnbqkbnr/pppppppp/8/8/4P3/8/PPPP1PPP/RNBQKBNR b KQkq - 0 1";

fn frame(fen: Option<&str>, delay: Option<u16>, last_move: Option<&str>, check: Option<&str>) -> FrameParams {
    FrameParams {
        fen: fen.map(|s| s.to_string()),
        delay,
        last_move: last_move.map(|s| s.to_string()),
        check: check.map(|s| s.to_string()),
    }
}

#[test]
fn name_of_exactly_100_bytes_decodes() {
    let name = "a".repeat(100);
    let n = PlayerName::new(&name).expect("100 bytes fit");
    assert_eq!(n.text(), name);
}

#[test]
fn name_of_101_bytes_is_too_long() {
    let name = "a".repeat(101);
    assert!(matches!(PlayerName::new(&name), Err(DecodeError::NameTooLong)));
}

#[test]
fn name_capacity_counts_bytes_not_characters() {
    // Each of these characters is two bytes in UTF-8.
    let fits = "\u{e9}".repeat(50);
    assert!(PlayerName::new(&fits).is_ok());
    let too_long = "\u{e9}".repeat(51);
    assert!(matches!(PlayerName::new(&too_long), Err(DecodeError::NameTooLong)));
}

#[test]
fn flat_request_with_no_fields_takes_all_defaults() {
    let p = RequestParams::decode(None, None, None, None, None, None).unwrap();
    assert!(p.white.is_none());
    assert!(p.black.is_none());
    assert_eq!(p.fen.to_fen(), STARTING_FEN);
    assert_eq!(p.last_move, Move::Null);
    assert_eq!(p.check, None);
    assert_eq!(p.orientation, Orientation::White);
}

#[test]
fn flat_request_with_all_fields() {
    let p = RequestParams::decode(
        Some("Molinari"),
        Some("Bordais"),
        Some(AFTER_E2E4_FEN),
        Some("e2e4"),
        Some("e8"),
        Some("black"),
    )
    .unwrap();
    assert_eq!(p.white.as_ref().unwrap().text(), "Molinari");
    assert_eq!(p.black.as_ref().unwrap().text(), "Bordais");
    assert_eq!(p.fen.to_fen(), AFTER_E2E4_FEN);
    assert_eq!(
        p.last_move,
        Move::Normal {
            from: Square { file: 4, rank: 1 },
            to: Square { file: 4, rank: 3 },
            promotion: None,
        }
    );
    assert_eq!(p.check, Some(Square { file: 4, rank: 7 }));
    assert_eq!(p.orientation, Orientation::Black);
}

#[test]
fn flat_request_rejects_each_malformed_field() {
    let long = "x".repeat(101);
    assert_eq!(
        RequestParams::decode(Some(&long), None, None, None, None, None).unwrap_err(),
        DecodeError::NameTooLong
    );
    assert_eq!(
        RequestParams::decode(None, Some(&long), None, None, None, None).unwrap_err(),
        DecodeError::NameTooLong
    );
    assert_eq!(
        RequestParams::decode(None, None, Some("not a fen"), None, None, None).unwrap_err(),
        DecodeError::MalformedPosition
    );
    assert_eq!(
        RequestParams::decode(None, None, None, Some("e2"), None, None).unwrap_err(),
        DecodeError::MalformedMove
    );
    assert_eq!(
        RequestParams::decode(None, None, None, None, Some("i9"), None).unwrap_err(),
        DecodeError::MalformedSquare
    );
    assert_eq!(
        RequestParams::decode(None, None, None, None, None, Some("sideways")).unwrap_err(),
        DecodeError::MalformedOrientation
    );
}

#[test]
fn multi_frame_body_keeps_order_and_delays() {
    let frames = vec![
        frame(Some(STARTING_FEN), None, None, None),
        frame(Some(AFTER_E2E4_FEN), None, Some("e2e4"), None),
    ];
    let b = RequestBody::decode(None, None, None, Some(50), &frames).unwrap();
    assert_eq!(b.frames.len(), 2);
    assert_eq!(b.frames[0].fen.to_fen(), STARTING_FEN);
    assert_eq!(b.frames[1].fen.to_fen(), AFTER_E2E4_FEN);
    assert_eq!(b.frames[0].last_move, Move::Null);
    assert_eq!(
        b.frames[1].last_move,
        Move::Normal {
            from: Square { file: 4, rank: 1 },
            to: Square { file: 4, rank: 3 },
            promotion: None,
        }
    );
    assert_eq!(b.frames[0].delay, None);
    assert_eq!(b.frames[1].delay, None);
    assert_eq!(b.delay, 50);
    assert_eq!(b.orientation, Orientation::White);
}

#[test]
fn body_delay_defaults_to_zero() {
    let frames = vec![frame(Some(STARTING_FEN), None, None, None)];
    let b = RequestBody::decode(None, None, None, None, &frames).unwrap();
    assert_eq!(b.delay, 0);
}

#[test]
fn per_frame_delay_passes_through() {
    let frames = vec![frame(Some(STARTING_FEN), Some(75), None, Some("e1"))];
    let b = RequestBody::decode(Some("A"), Some("B"), Some("black"), Some(50), &frames).unwrap();
    assert_eq!(b.frames[0].delay, Some(75));
    assert_eq!(b.frames[0].check, Some(Square { file: 4, rank: 0 }));
    assert_eq!(b.orientation, Orientation::Black);
    assert_eq!(b.white.as_ref().unwrap().text(), "A");
    assert_eq!(b.black.as_ref().unwrap().text(), "B");
}

#[test]
fn one_malformed_frame_fails_the_whole_body() {
    let frames = vec![
        frame(Some(STARTING_FEN), None, None, None),
        frame(Some("broken"), None, None, None),
        frame(Some(AFTER_E2E4_FEN), None, None, None),
    ];
    assert_eq!(
        RequestBody::decode(None, None, None, Some(50), &frames).unwrap_err(),
        DecodeError::MalformedPosition
    );
}

#[test]
fn frame_without_its_position_is_missing_a_required_field() {
    let frames = vec![
        frame(Some(STARTING_FEN), None, None, None),
        frame(None, None, None, None),
    ];
    assert_eq!(
        RequestBody::decode(None, None, None, None, &frames).unwrap_err(),
        DecodeError::MissingRequiredField
    );
}

#[test]
fn frame_errors_cover_moves_squares_and_names() {
    let bad_move = vec![frame(Some(STARTING_FEN), None, Some("zz"), None)];
    assert_eq!(
        RequestBody::decode(None, None, None, None, &bad_move).unwrap_err(),
        DecodeError::MalformedMove
    );
    let bad_square = vec![frame(Some(STARTING_FEN), None, None, Some("x0"))];
    assert_eq!(
        RequestBody::decode(None, None, None, None, &bad_square).unwrap_err(),
        DecodeError::MalformedSquare
    );
    let long = "x".repeat(101);
    let ok_frames = vec![frame(Some(STARTING_FEN), None, None, None)];
    assert_eq!(
        RequestBody::decode(Some(&long), None, None, None, &ok_frames).unwrap_err(),
        DecodeError::NameTooLong
    );
    assert_eq!(
        RequestBody::decode(None, None, Some("upside"), None, &ok_frames).unwrap_err(),
        DecodeError::MalformedOrientation
    );
}

#[test]
fn empty_frame_list_is_accepted_as_caller_policy() {
    let frames: Vec<FrameParams> = Vec::new();
    let b = RequestBody::decode(None, None, None, None, &frames).unwrap();
    assert_eq!(b.frames.len(), 0);
}

#[test]
fn example_is_the_canonical_two_frame_request() {
    let e = RequestBody::example();
    assert_eq!(e.white.as_ref().unwrap().text(), "Molinari");
    assert_eq!(e.black.as_ref().unwrap().text(), "Bordais");
    assert_eq!(e.orientation, Orientation::White);
    assert_eq!(e.delay, 50);
    assert_eq!(e.frames.len(), 2);
    assert_eq!(e.frames[0].fen.to_fen(), STARTING_FEN);
    assert_eq!(e.frames[0].last_move, Move::Null);
    assert_eq!(e.frames[1].fen.to_fen(), AFTER_E2E4_FEN);
    assert_eq!(
        e.frames[1].last_move,
        Move::Normal {
            from: Square { file: 4, rank: 1 },
            to: Square { file: 4, rank: 3 },
            promotion: None,
        }
    );
}
