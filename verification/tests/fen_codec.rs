use chess_engine::board::Board;
use chess_engine::fen::{board_from_fen, ParseError, STARTING_FEN};
use chess_engine::fen_text::{f2i, i2f};
use chess_engine::piece::{Color, Piece, PieceKind};

fn piece(kind: PieceKind, color: Color) -> Piece {
    Piece::new(kind, color)
}

#[test]
fn starting_position_is_read_rank_by_rank_from_the_eighth() {
    let board = board_from_fen(STARTING_FEN).unwrap();
    // the first character of the text is the rook on a8
    assert_eq!(board.board[56], piece(PieceKind::Rook, Color::Black));
    assert_eq!(board.board[57], piece(PieceKind::Knight, Color::Black));
    assert_eq!(board.board[58], piece(PieceKind::Bishop, Color::Black));
    assert_eq!(board.board[59], piece(PieceKind::Queen, Color::Black));
    assert_eq!(board.board[60], piece(PieceKind::King, Color::Black));
    assert_eq!(board.board[63], piece(PieceKind::Rook, Color::Black));
    for sq in 48..56 {
        assert_eq!(board.board[sq], piece(PieceKind::Pawn, Color::Black));
    }
    for sq in 16..48 {
        assert_eq!(board.board[sq], Piece::empty());
    }
    for sq in 8..16 {
        assert_eq!(board.board[sq], piece(PieceKind::Pawn, Color::White));
    }
    assert_eq!(board.board[0], piece(PieceKind::Rook, Color::White));
    assert_eq!(board.board[1], piece(PieceKind::Knight, Color::White));
    assert_eq!(board.board[2], piece(PieceKind::Bishop, Color::White));
    assert_eq!(board.board[3], piece(PieceKind::Queen, Color::White));
    assert_eq!(board.board[4], piece(PieceKind::King, Color::White));
    assert_eq!(board.board[7], piece(PieceKind::Rook, Color::White));
    assert_eq!(board.color_to_move, Color::White);
    assert_eq!(board.castling_rights, [true, true, true, true]);
    assert_eq!(board.en_passant_target, None);
    assert_eq!(board.plies, 0);
    assert_eq!(board.move_nr, 1);
}

#[test]
fn a_middle_game_text_is_read() {
    let board = board_from_fen("6r1/6pp/7r/1B5K/1P3k2/N7/3R4/8 w - - 30 79").unwrap();
    assert_eq!(board.board[62], piece(PieceKind::Rook, Color::Black));
    assert_eq!(board.board[54], piece(PieceKind::Pawn, Color::Black));
    assert_eq!(board.board[55], piece(PieceKind::Pawn, Color::Black));
    assert_eq!(board.board[47], piece(PieceKind::Rook, Color::Black));
    assert_eq!(board.board[33], piece(PieceKind::Bishop, Color::White));
    assert_eq!(board.board[39], piece(PieceKind::King, Color::White));
    assert_eq!(board.board[25], piece(PieceKind::Pawn, Color::White));
    assert_eq!(board.board[29], piece(PieceKind::King, Color::Black));
    assert_eq!(board.board[16], piece(PieceKind::Knight, Color::White));
    assert_eq!(board.board[11], piece(PieceKind::Rook, Color::White));
    assert_eq!(board.board.iter().filter(|p| p.kind != PieceKind::Empty).count(), 10);
    assert_eq!(board.castling_rights, [false, false, false, false]);
    assert_eq!(board.plies, 30);
    assert_eq!(board.move_nr, 79);
}

#[test]
fn side_castling_and_target_are_read() {
    let board =
        board_from_fen("rnbqkbnr/pppppppp/8/8/4P3/8/PPPP1PPP/RNBQKBNR b Kq e3 0 1").unwrap();
    assert_eq!(board.color_to_move, Color::Black);
    assert_eq!(board.castling_rights, [true, false, false, true]);
    assert_eq!(board.en_passant_target, Some(20));
    assert_eq!(board.board[28], piece(PieceKind::Pawn, Color::White));
    assert_eq!(board.board[12], Piece::empty());
}

#[test]
fn castling_letters_are_taken_in_any_order() {
    let board = board_from_fen("8/8/8/8/8/8/8/8 w qK - 0 1").unwrap();
    assert_eq!(board.castling_rights, [true, false, false, true]);
}

#[test]
fn every_piece_is_read_as_unmoved() {
    let board = board_from_fen(STARTING_FEN).unwrap();
    for sq in 0..64 {
        assert!(!board.board[sq].has_moved);
        assert!(!board.board[sq].weak_to_en_passant);
    }
}

#[test]
fn an_unknown_character_leaves_its_square_empty() {
    let board = board_from_fen("rnbqkbnr/ppp?pxpp/8/8/8/8/PPPPPPPP/RNBQKBNR w KQkq - 0 1").unwrap();
    assert_eq!(board.board[50], piece(PieceKind::Pawn, Color::Black));
    assert_eq!(board.board[51], Piece::empty());
    assert_eq!(board.board[52], piece(PieceKind::Pawn, Color::Black));
    assert_eq!(board.board[53], Piece::empty());
    assert_eq!(board.board[54], piece(PieceKind::Pawn, Color::Black));
}

#[test]
fn a_rank_separator_goes_to_the_a_file_of_the_next_rank() {
    let board = board_from_fen("k/3/P w - - 0 1").unwrap();
    assert_eq!(board.board[56], piece(PieceKind::King, Color::Black));
    assert_eq!(board.board[40], piece(PieceKind::Pawn, Color::White));
    assert_eq!(board.board.iter().filter(|p| p.kind != PieceKind::Empty).count(), 2);
}

#[test]
fn a_text_that_ends_after_the_number_or_goes_on_is_read() {
    assert!(board_from_fen("8/8/8/8/8/8/8/8 w - - 0 1\n").is_ok());
    assert!(board_from_fen("8/8/8/8/8/8/8/8 w - - 0 1 and more").is_ok());
    assert!(board_from_fen("8/8/8/8/8/8/8/8\tw\t-\t-\t0\t1").is_ok());
}

#[test]
fn a_ninth_square_on_a_rank_is_off_the_board() {
    assert_eq!(
        board_from_fen("rnbqkbnrr/pppppppp/8/8/8/8/PPPPPPPP/RNBQKBNR w KQkq - 0 1"),
        Err(ParseError::IndexOutOfBoard)
    );
    assert_eq!(board_from_fen("8p/8/8/8/8/8/8/8 w - - 0 1"), Err(ParseError::IndexOutOfBoard));
}

#[test]
fn a_run_past_the_h_file_is_off_the_board() {
    assert_eq!(board_from_fen("9/8/8/8/8/8/8/8 w - - 0 1"), Err(ParseError::IndexOutOfBoard));
    assert_eq!(board_from_fen("p8/8/8/8/8/8/8/8 w - - 0 1"), Err(ParseError::IndexOutOfBoard));
}

#[test]
fn a_ninth_rank_is_off_the_board() {
    assert_eq!(board_from_fen("8/8/8/8/8/8/8/8/8 w - - 0 1"), Err(ParseError::IndexOutOfBoard));
}

#[test]
fn a_text_that_ends_early_is_truncated() {
    assert_eq!(board_from_fen(""), Err(ParseError::TruncatedField));
    assert_eq!(board_from_fen("8/8/8/8/8/8/8/8"), Err(ParseError::TruncatedField));
    assert_eq!(board_from_fen("8/8/8/8/8/8/8/8 "), Err(ParseError::TruncatedField));
    assert_eq!(board_from_fen("8/8/8/8/8/8/8/8 w"), Err(ParseError::TruncatedField));
    assert_eq!(board_from_fen("8/8/8/8/8/8/8/8 w "), Err(ParseError::TruncatedField));
    assert_eq!(board_from_fen("8/8/8/8/8/8/8/8 w KQ"), Err(ParseError::TruncatedField));
    assert_eq!(board_from_fen("8/8/8/8/8/8/8/8 w -"), Err(ParseError::TruncatedField));
    assert_eq!(board_from_fen("8/8/8/8/8/8/8/8 w - "), Err(ParseError::TruncatedField));
    assert_eq!(board_from_fen("8/8/8/8/8/8/8/8 w - e"), Err(ParseError::TruncatedField));
    assert_eq!(board_from_fen("8/8/8/8/8/8/8/8 w - -"), Err(ParseError::TruncatedField));
    assert_eq!(board_from_fen("8/8/8/8/8/8/8/8 w - - "), Err(ParseError::TruncatedField));
    assert_eq!(board_from_fen("8/8/8/8/8/8/8/8 w - - 0"), Err(ParseError::TruncatedField));
    assert_eq!(board_from_fen("8/8/8/8/8/8/8/8 w - - 0 "), Err(ParseError::TruncatedField));
    assert_eq!(board_from_fen("8/8/8/8/8/8/8/8 w - -  1"), Err(ParseError::TruncatedField));
}

#[test]
fn a_character_out_of_place_is_unexpected() {
    assert_eq!(board_from_fen("8/8/8/8/8/8/8/8 x - - 0 1"), Err(ParseError::UnexpectedCharacter));
    assert_eq!(board_from_fen("8/8/8/8/8/8/8/8 W - - 0 1"), Err(ParseError::UnexpectedCharacter));
    assert_eq!(board_from_fen("8/8/8/8/8/8/8/8 wb - - 0 1"), Err(ParseError::UnexpectedCharacter));
    assert_eq!(board_from_fen("8/8/8/8/8/8/8/8  w - - 0 1"), Err(ParseError::UnexpectedCharacter));
    assert_eq!(board_from_fen("8/8/8/8/8/8/8/8 w KX - 0 1"), Err(ParseError::UnexpectedCharacter));
    assert_eq!(board_from_fen("8/8/8/8/8/8/8/8 w -K - 0 1"), Err(ParseError::UnexpectedCharacter));
    assert_eq!(board_from_fen("8/8/8/8/8/8/8/8 w K- - 0 1"), Err(ParseError::UnexpectedCharacter));
    assert_eq!(board_from_fen("8/8/8/8/8/8/8/8 w - i3 0 1"), Err(ParseError::UnexpectedCharacter));
    assert_eq!(board_from_fen("8/8/8/8/8/8/8/8 w - e9 0 1"), Err(ParseError::UnexpectedCharacter));
    assert_eq!(board_from_fen("8/8/8/8/8/8/8/8 w - e0 0 1"), Err(ParseError::UnexpectedCharacter));
    assert_eq!(board_from_fen("8/8/8/8/8/8/8/8 w - e3x 0 1"), Err(ParseError::UnexpectedCharacter));
    assert_eq!(board_from_fen("8/8/8/8/8/8/8/8 w - - x 1"), Err(ParseError::UnexpectedCharacter));
    assert_eq!(board_from_fen("8/8/8/8/8/8/8/8 w - - 0 1x"), Err(ParseError::UnexpectedCharacter));
    assert_eq!(board_from_fen("8/8/8/8/8/8/8/8 w - - -1 1"), Err(ParseError::UnexpectedCharacter));
}

#[test]
fn a_counter_beyond_u32_is_out_of_range() {
    assert_eq!(
        board_from_fen("8/8/8/8/8/8/8/8 w - - 4294967296 1"),
        Err(ParseError::NumberOutOfRange)
    );
    assert_eq!(
        board_from_fen("8/8/8/8/8/8/8/8 w - - 0 99999999999"),
        Err(ParseError::NumberOutOfRange)
    );
    let board = board_from_fen("8/8/8/8/8/8/8/8 w - - 4294967295 4294967295").unwrap();
    assert_eq!(board.plies, u32::MAX);
    assert_eq!(board.move_nr, u32::MAX);
}

#[test]
fn the_first_field_that_fails_decides() {
    assert_eq!(board_from_fen("9/8 x"), Err(ParseError::IndexOutOfBoard));
    assert_eq!(board_from_fen("8/8 x KX"), Err(ParseError::UnexpectedCharacter));
    assert_eq!(board_from_fen("8/8 w - - 99999999999"), Err(ParseError::NumberOutOfRange));
}

#[test]
fn the_starting_position_is_written_as_it_was_read() {
    let board = board_from_fen(STARTING_FEN).unwrap();
    assert_eq!(board.to_fen(), STARTING_FEN);
}

#[test]
fn runs_of_empty_squares_are_written_as_digits() {
    let text = "r3k2r/8/1p4p1/8/3P4/8/P6P/R3K2R b Kq d3 17 42";
    let board = board_from_fen(text).unwrap();
    assert_eq!(board.to_fen(), text);
}

#[test]
fn an_empty_board_is_written() {
    assert_eq!(Board::empty().to_fen(), "8/8/8/8/8/8/8/8 w - - 0 0");
}

#[test]
fn a_target_off_the_board_is_written_as_none() {
    let mut board = Board::empty();
    board.en_passant_target = Some(64);
    assert_eq!(board.to_fen(), "8/8/8/8/8/8/8/8 w - - 0 0");
    board.en_passant_target = Some(63);
    assert_eq!(board.to_fen(), "8/8/8/8/8/8/8/8 w - h8 0 0");
}

#[test]
fn counters_are_written_in_decimal() {
    let mut board = Board::empty();
    board.plies = 4294967295;
    board.move_nr = 1000;
    assert_eq!(board.to_fen(), "8/8/8/8/8/8/8/8 w - - 4294967295 1000");
}

#[test]
fn reading_writing_and_reading_again_gives_the_same_board() {
    let texts = [
        STARTING_FEN,
        "6r1/6pp/7r/1B5K/1P3k2/N7/3R4/8 w - - 30 79",
        "rnbqkbnr/pppppppp/8/8/4P3/8/PPPP1PPP/RNBQKBNR b KQkq e3 0 1",
        "k/3/P w Qk a6 7 0",
        "rnbqkbnr/ppp?pxpp/8/8/8/8/PPPPPPPP/RNBQKBNR w KQkq - 0 1",
        "8/8/8/8/8/8/8/8 b - h8 4294967295 4294967295 trailing",
    ];
    for text in texts {
        let first = board_from_fen(text).unwrap();
        let written = first.to_fen();
        let second = board_from_fen(&written).unwrap();
        assert_eq!(first, second);
        assert_eq!(second.to_fen(), written);
    }
}

#[test]
fn square_names_are_read() {
    assert_eq!(f2i("a1"), Ok(0));
    assert_eq!(f2i("b1"), Ok(1));
    assert_eq!(f2i("a2"), Ok(8));
    assert_eq!(f2i("e4"), Ok(28));
    assert_eq!(f2i("h8"), Ok(63));
    assert_eq!(f2i("e4 and more"), Ok(28));
}

#[test]
fn bad_square_names_are_refused() {
    assert_eq!(f2i(""), Err(ParseError::TruncatedField));
    assert_eq!(f2i("e"), Err(ParseError::TruncatedField));
    assert_eq!(f2i("i1"), Err(ParseError::UnexpectedCharacter));
    assert_eq!(f2i("E4"), Err(ParseError::UnexpectedCharacter));
    assert_eq!(f2i("a0"), Err(ParseError::UnexpectedCharacter));
    assert_eq!(f2i("a9"), Err(ParseError::UnexpectedCharacter));
    assert_eq!(f2i("4e"), Err(ParseError::UnexpectedCharacter));
}

#[test]
fn square_names_are_written() {
    assert_eq!(i2f(0), "a1");
    assert_eq!(i2f(7), "h1");
    assert_eq!(i2f(8), "a2");
    assert_eq!(i2f(28), "e4");
    assert_eq!(i2f(63), "h8");
}

#[test]
fn every_square_name_is_read_back() {
    for sq in 0u8..64 {
        assert_eq!(f2i(&i2f(sq)), Ok(sq as usize));
    }
}

#[test]
fn pieces_are_written_as_letters() {
    assert_eq!(piece(PieceKind::Pawn, Color::White).print(), "P");
    assert_eq!(piece(PieceKind::Knight, Color::White).print(), "N");
    assert_eq!(piece(PieceKind::Bishop, Color::White).print(), "B");
    assert_eq!(piece(PieceKind::Rook, Color::White).print(), "R");
    assert_eq!(piece(PieceKind::Queen, Color::White).print(), "Q");
    assert_eq!(piece(PieceKind::King, Color::White).print(), "K");
    assert_eq!(piece(PieceKind::Pawn, Color::Black).print(), "p");
    assert_eq!(piece(PieceKind::Knight, Color::Black).print(), "n");
    assert_eq!(piece(PieceKind::Bishop, Color::Black).print(), "b");
    assert_eq!(piece(PieceKind::Rook, Color::Black).print(), "r");
    assert_eq!(piece(PieceKind::Queen, Color::Black).print(), "q");
    assert_eq!(piece(PieceKind::King, Color::Black).print(), "k");
    assert_eq!(piece(PieceKind::Empty, Color::White).print(), " ");
    assert_eq!(piece(PieceKind::Empty, Color::Black).print(), " ");
}
