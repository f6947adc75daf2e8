use chess_engine::fen::{board_from_fen, ParseError, STARTING_FEN};
use chess_engine::perft::{perft, perft_rec};

#[test]
fn perft_depth_0_is_one() {
    assert_eq!(perft(STARTING_FEN, 0), Ok(1));
}

#[test]
fn perft_depth_1_is_20() {
    assert_eq!(perft(STARTING_FEN, 1), Ok(20));
}

#[test]
fn perft_depth_2_is_400() {
    assert_eq!(perft(STARTING_FEN, 2), Ok(400));
}

#[test]
fn perft_depth_3_is_8902() {
    assert_eq!(perft(STARTING_FEN, 3), Ok(8902));
}

#[test]
fn perft_leaves_the_board_as_it_was() {
    let mut board = board_from_fen(STARTING_FEN).unwrap();
    let before = board.clone();
    let count = perft_rec(&mut board, 2);
    assert_eq!(count, 400);
    assert_eq!(board, before);
}

#[test]
fn perft_refuses_a_bad_text() {
    assert_eq!(perft("8/8/8/8/8/8/8/8", 1), Err(ParseError::TruncatedField));
}

#[test]
fn perft_refuses_a_move_number_without_room() {
    assert_eq!(
        perft("8/8/8/8/8/8/8/8 w - - 0 4294967295", 1),
        Err(ParseError::NumberOutOfRange)
    );
    assert_eq!(perft("8/8/8/8/8/8/8/8 w - - 0 4294967295", 0), Ok(1));
}
