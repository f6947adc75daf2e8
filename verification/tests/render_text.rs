use chess_engine::board::Move;
use chess_engine::canvas::{canvas_coord_to_canvas_square, canvas_square_to_board_square};
use chess_engine::fen::{board_from_fen, STARTING_FEN};
use chess_engine::render::move_text;

#[test]
fn the_starting_position_as_a_diagram() {
    let board = board_from_fen(STARTING_FEN).unwrap();
    let expected = "-----------------\n\
                    |r|n|b|q|k|b|n|r|\n\
                    -----------------\n\
                    |p|p|p|p|p|p|p|p|\n\
                    -----------------\n\
                    | | | | | | | | |\n\
                    -----------------\n\
                    | | | | | | | | |\n\
                    -----------------\n\
                    | | | | | | | | |\n\
                    -----------------\n\
                    | | | | | | | | |\n\
                    -----------------\n\
                    |P|P|P|P|P|P|P|P|\n\
                    -----------------\n\
                    |R|N|B|Q|K|B|N|R|\n\
                    -----------------\n\
                    Move #1\n\
                    White to move\n\
                    Castling rights [K,Q,k,q]: [true, true, true, true]\n\
                    Plies since last pawn move or capture: 0";
    assert_eq!(board.render(), expected);
}

#[test]
fn the_counters_below_the_diagram() {
    let board = board_from_fen("6r1/6pp/7r/1B5K/1P3k2/N7/3R4/8 b Kq - 30 79").unwrap();
    let text = board.render();
    assert!(text.starts_with("-----------------\n| | | | | | |r| |\n"));
    assert!(text.ends_with(
        "Move #79\nBlack to move\nCastling rights [K,Q,k,q]: [true, false, false, true]\n\
         Plies since last pawn move or capture: 30"
    ));
}

#[test]
fn a_move_as_a_line() {
    let board = board_from_fen(STARTING_FEN).unwrap();
    assert_eq!(move_text(&board, &Move { start: 12, target: 28 }), "P to e4");
    assert_eq!(move_text(&board, &Move { start: 1, target: 18 }), "N to c3");
    assert_eq!(move_text(&board, &Move { start: 62, target: 45 }), "n to f6");
    assert_eq!(move_text(&board, &Move { start: 30, target: 0 }), "  to a1");
}

#[test]
fn a_point_of_the_picture_lies_in_a_tile() {
    assert_eq!(canvas_coord_to_canvas_square(0, 0, 1), (0, 0));
    assert_eq!(canvas_coord_to_canvas_square(99, 100, 1), (0, 1));
    assert_eq!(canvas_coord_to_canvas_square(450, 799, 2), (4, 7));
    assert_eq!(canvas_coord_to_canvas_square(800, 250, 2), (8, 2));
    assert_eq!(canvas_coord_to_canvas_square(-1, -150, 1), (0, -1));
}

#[test]
fn a_tile_shows_a_square_from_either_side() {
    // from White's side a1 is at the bottom left
    assert_eq!(canvas_square_to_board_square((0, 7), 1), 0);
    assert_eq!(canvas_square_to_board_square((7, 0), 1), 63);
    assert_eq!(canvas_square_to_board_square((4, 6), 1), 12);
    // from Black's side a1 is at the top right
    assert_eq!(canvas_square_to_board_square((7, 0), 2), 0);
    assert_eq!(canvas_square_to_board_square((0, 7), 2), 63);
    assert_eq!(canvas_square_to_board_square((3, 1), 2), 12);
}
