use chess_engine::board::Board;
use chess_engine::eval::{count_pieces, evaluate, material};
use chess_engine::fen::{board_from_fen, STARTING_FEN};
use chess_engine::piece::{Color, Piece, PieceKind};

fn eval_of(text: &str) -> i32 {
    evaluate(&board_from_fen(text).unwrap())
}

fn material_of(text: &str, color: Color) -> i32 {
    material(&board_from_fen(text).unwrap(), color)
}

#[test]
fn the_starting_position_is_balanced() {
    assert_eq!(eval_of(STARTING_FEN), 0);
    // 8 pawns, a pair of knights, of bishops and of rooks, and a queen
    assert_eq!(material_of(STARTING_FEN, Color::White), 80 + 59 + 65 + 99 + 90);
    assert_eq!(material_of(STARTING_FEN, Color::Black), 393);
}

#[test]
fn pieces_are_counted() {
    let board = board_from_fen(STARTING_FEN).unwrap();
    assert_eq!(count_pieces(&board, PieceKind::Pawn, Color::White), 8);
    assert_eq!(count_pieces(&board, PieceKind::Pawn, Color::Black), 8);
    assert_eq!(count_pieces(&board, PieceKind::Knight, Color::White), 2);
    assert_eq!(count_pieces(&board, PieceKind::Queen, Color::Black), 1);
    assert_eq!(count_pieces(&board, PieceKind::King, Color::Black), 1);
    assert_eq!(count_pieces(&board, PieceKind::Empty, Color::White), 32);
}

#[test]
fn a_side_without_pawns_loses_five() {
    assert_eq!(material_of("8/8/8/8/8/8/8/8 w - - 0 1", Color::White), -5);
    assert_eq!(material_of("8/8/8/8/8/8/8/K7 w - - 0 1", Color::White), -5);
    assert_eq!(material_of("8/8/8/8/8/8/P7/8 w - - 0 1", Color::White), 10);
    assert_eq!(eval_of("8/8/8/8/8/8/P7/8 w - - 0 1"), 15);
    assert_eq!(eval_of("8/p7/8/8/8/8/8/8 w - - 0 1"), -15);
}

#[test]
fn the_weights_of_the_pieces() {
    assert_eq!(material_of("8/8/8/8/8/8/P7/N7 w - - 0 1", Color::White), 40);
    assert_eq!(material_of("8/8/8/8/8/8/P7/B7 w - - 0 1", Color::White), 40);
    assert_eq!(material_of("8/8/8/8/8/8/P7/R7 w - - 0 1", Color::White), 60);
    assert_eq!(material_of("8/8/8/8/8/8/P7/Q7 w - - 0 1", Color::White), 100);
    assert_eq!(material_of("8/8/8/8/8/8/P7/K7 w - - 0 1", Color::White), 10);
    assert_eq!(material_of("8/8/8/8/8/8/PPP5/QQ6 w - - 0 1", Color::White), 210);
}

#[test]
fn exactly_two_of_a_kind_change_the_score() {
    assert_eq!(material_of("8/8/8/8/8/8/P7/BB6 w - - 0 1", Color::White), 10 + 60 + 5);
    assert_eq!(material_of("8/8/8/8/8/8/P7/BBB5 w - - 0 1", Color::White), 10 + 90);
    assert_eq!(material_of("8/8/8/8/8/8/P7/NN6 w - - 0 1", Color::White), 10 + 60 - 1);
    assert_eq!(material_of("8/8/8/8/8/8/P7/NNN5 w - - 0 1", Color::White), 10 + 90);
    assert_eq!(material_of("8/8/8/8/8/8/P7/RR6 w - - 0 1", Color::White), 10 + 100 - 1);
    assert_eq!(material_of("8/8/8/8/8/8/P7/RRR5 w - - 0 1", Color::White), 10 + 150);
}

#[test]
fn the_evaluation_is_whites_material_minus_blacks() {
    let text = "6r1/6pp/7r/1B5K/1P3k2/N7/3R4/8 w - - 30 79";
    // White: a pawn, a knight, a bishop, a rook; Black: two pawns, two rooks
    assert_eq!(material_of(text, Color::White), 10 + 30 + 30 + 50);
    assert_eq!(material_of(text, Color::Black), 20 + 100 - 1);
    assert_eq!(eval_of(text), 1);
    // the side to move does not matter
    assert_eq!(eval_of("6r1/6pp/7r/1B5K/1P3k2/N7/3R4/8 b - - 30 79"), 1);
}

#[test]
fn the_mirrored_position_has_the_negated_evaluation() {
    for text in [
        STARTING_FEN,
        "6r1/6pp/7r/1B5K/1P3k2/N7/3R4/8 w - - 30 79",
        "8/8/8/8/8/8/P7/BB6 w - - 0 1",
        "r3k2r/8/1p4p1/8/3P4/8/P6P/R3K2R b Kq d3 17 42",
        "8/8/4p3/3p4/8/8/8/3Q4 w - - 0 1",
    ] {
        let board = board_from_fen(text).unwrap();
        let mirrored = board.mirror();
        assert_eq!(evaluate(&mirrored), -evaluate(&board));
        assert_eq!(mirrored.mirror(), board);
    }
}

#[test]
fn mirroring_swaps_ranks_and_sides() {
    let board = board_from_fen("r3k2r/8/1p4p1/8/3P4/8/P6P/R3K2R b Kq d3 17 42").unwrap();
    let mirrored = board.mirror();
    assert_eq!(mirrored.to_fen(), "r3k2r/p6p/8/3p4/8/1P4P1/8/R3K2R w Qk d6 17 42");
    let mut marked = Board::empty();
    marked.board[12] =
        Piece { kind: PieceKind::Pawn, color: Color::White, weak_to_en_passant: true, has_moved: true };
    let mirrored = marked.mirror();
    assert_eq!(
        mirrored.board[52],
        Piece { kind: PieceKind::Pawn, color: Color::Black, weak_to_en_passant: true, has_moved: true }
    );
    assert_eq!(mirrored.color_to_move, Color::Black);
}
