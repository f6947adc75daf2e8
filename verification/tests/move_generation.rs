use chess_engine::board::{Board, Move};
use chess_engine::fen::{board_from_fen, STARTING_FEN};
use chess_engine::geometry::get_num_squares_to_edge;
use chess_engine::movegen::{
    generate_knight_moves, generate_moves, generate_moves_with, generate_pawn_moves,
    generate_sliding_moves, movegen,
};
use chess_engine::piece::{is_ally, is_opponent, Color, Piece, PieceKind};

fn mv(start: u8, target: u8) -> Move {
    Move { start, target }
}

fn moves_of(text: &str) -> Vec<Move> {
    generate_moves(&board_from_fen(text).unwrap())
}

fn targets(moves: &[Move]) -> Vec<u8> {
    moves.iter().map(|m| m.target).collect()
}

#[test]
fn the_starting_position_has_twenty_moves_in_square_order() {
    let moves = moves_of(STARTING_FEN);
    let mut expected = vec![mv(1, 18), mv(1, 16), mv(6, 23), mv(6, 21)];
    for sq in 8u8..16 {
        expected.push(mv(sq, sq + 8));
        expected.push(mv(sq, sq + 16));
    }
    assert_eq!(moves, expected);
}

#[test]
fn the_central_pawns_have_both_pushes() {
    let moves = moves_of(STARTING_FEN);
    // the d-pawn and the e-pawn, one square and two squares
    assert!(moves.contains(&mv(11, 19)));
    assert!(moves.contains(&mv(11, 27)));
    assert!(moves.contains(&mv(12, 20)));
    assert!(moves.contains(&mv(12, 28)));
}

#[test]
fn black_moves_when_black_is_to_move() {
    let moves = moves_of("rnbqkbnr/pppppppp/8/8/8/8/PPPPPPPP/RNBQKBNR b KQkq - 0 1");
    assert_eq!(moves.len(), 20);
    assert!(moves.iter().all(|m| m.start >= 48));
    assert_eq!(moves[0], mv(48, 40));
    assert_eq!(moves[1], mv(48, 32));
}

#[test]
fn a_white_rook_slides_over_empty_squares() {
    let moves = moves_of("8/8/8/8/8/8/8/R7 w - - 0 1");
    assert_eq!(targets(&moves), vec![8, 16, 24, 32, 40, 48, 56, 1, 2, 3, 4, 5, 6, 7]);
    assert!(moves.iter().all(|m| m.start == 0));
}

#[test]
fn a_black_rook_slides_over_empty_squares() {
    let moves = moves_of("8/8/8/8/8/8/8/r7 b - - 0 1");
    assert_eq!(targets(&moves), vec![8, 16, 24, 32, 40, 48, 56, 1, 2, 3, 4, 5, 6, 7]);
}

#[test]
fn a_bishop_has_the_four_diagonals() {
    let moves = moves_of("8/8/8/8/3B4/8/8/8 w - - 0 1");
    assert_eq!(targets(&moves), vec![36, 45, 54, 63, 20, 13, 6, 18, 9, 0, 34, 41, 48]);
}

#[test]
fn a_queen_has_all_eight_directions() {
    let moves = moves_of("8/8/8/8/3Q4/8/8/8 w - - 0 1");
    assert_eq!(
        targets(&moves),
        vec![
            35, 43, 51, 59, 19, 11, 3, 26, 25, 24, 28, 29, 30, 31, 36, 45, 54, 63, 20, 13, 6, 18,
            9, 0, 34, 41, 48
        ]
    );
}

#[test]
fn a_king_steps_once_in_each_direction() {
    let moves = moves_of("8/8/8/8/8/8/8/4K3 w - - 0 1");
    assert_eq!(targets(&moves), vec![12, 3, 5, 13, 11]);
    let moves = moves_of("8/8/8/8/3k4/8/8/8 b - - 0 1");
    assert_eq!(targets(&moves), vec![35, 19, 26, 28, 36, 20, 18, 34]);
}

#[test]
fn a_ray_stops_before_a_friend_and_on_a_foe() {
    let moves = moves_of("8/8/8/8/8/P7/8/R2p4 w - - 0 1");
    assert_eq!(
        moves,
        vec![mv(0, 8), mv(0, 1), mv(0, 2), mv(0, 3), mv(16, 24), mv(16, 32)]
    );
}

#[test]
fn a_knight_jumps_where_the_board_has_room() {
    let moves = moves_of("8/8/8/8/8/8/8/N7 w - - 0 1");
    assert_eq!(targets(&moves), vec![17, 10]);
    let moves = moves_of("8/8/8/8/3N4/8/8/8 w - - 0 1");
    assert_eq!(targets(&moves), vec![44, 37, 42, 21, 10, 17, 12, 33]);
    let moves = moves_of("7n/8/8/8/8/8/8/8 b - - 0 1");
    assert_eq!(targets(&moves), vec![46, 53]);
}

#[test]
fn a_knight_takes_a_foe_and_not_a_friend() {
    let moves = moves_of("8/8/8/8/8/1p6/2P5/N7 w - - 0 1");
    // b3 holds a black pawn, c2 a white one
    assert_eq!(moves, vec![mv(0, 17), mv(10, 18), mv(10, 26), mv(10, 17)]);
}

#[test]
fn a_pawn_pushes_once_or_twice() {
    let moves = moves_of("8/8/8/8/8/8/4P3/8 w - - 0 1");
    assert_eq!(moves, vec![mv(12, 20), mv(12, 28)]);
    let moves = moves_of("8/4p3/8/8/8/8/8/8 b - - 0 1");
    assert_eq!(moves, vec![mv(52, 44), mv(52, 36)]);
}

#[test]
fn the_double_push_goes_by_the_flag_and_not_by_the_rank() {
    let mut board = board_from_fen("8/8/8/8/4P3/8/8/8 w - - 0 1").unwrap();
    assert_eq!(generate_moves(&board), vec![mv(28, 36), mv(28, 44)]);
    board.board[28].has_moved = true;
    assert_eq!(generate_moves(&board), vec![mv(28, 36)]);
    let mut board = board_from_fen("8/8/8/8/8/8/4P3/8 w - - 0 1").unwrap();
    board.board[12].has_moved = true;
    assert_eq!(generate_moves(&board), vec![mv(12, 20)]);
}

#[test]
fn a_blocked_pawn_does_not_push() {
    assert_eq!(moves_of("8/8/8/8/8/4p3/4P3/8 w - - 0 1"), vec![]);
    assert_eq!(moves_of("8/8/8/8/4p3/8/4P3/8 w - - 0 1"), vec![mv(12, 20)]);
    assert_eq!(moves_of("8/8/8/8/8/4N3/4P3/8 b - - 0 1"), vec![]);
}

#[test]
fn a_pawn_on_the_last_rank_has_no_push() {
    assert_eq!(moves_of("4P3/8/8/8/8/8/8/8 w - - 0 1"), vec![]);
    assert_eq!(moves_of("8/8/8/8/8/8/8/4p3 b - - 0 1"), vec![]);
    // from the seventh rank only one step is left
    assert_eq!(moves_of("8/4P3/8/8/8/8/8/8 w - - 0 1"), vec![mv(52, 60)]);
}

#[test]
fn a_pawn_captures_on_both_diagonals() {
    let moves = moves_of("8/8/8/3p1p2/4P3/8/8/8 w - - 0 1");
    assert_eq!(moves, vec![mv(28, 36), mv(28, 44), mv(28, 35), mv(28, 37)]);
    let moves = moves_of("8/8/8/4p3/3P1P2/8/8/8 b - - 0 1");
    assert_eq!(moves, vec![mv(36, 28), mv(36, 20), mv(36, 27), mv(36, 29)]);
}

#[test]
fn a_pawn_does_not_capture_its_own_side_or_an_empty_square() {
    let moves = moves_of("8/8/8/3P1P2/4P3/8/8/8 w - - 0 1");
    assert_eq!(
        moves,
        vec![mv(28, 36), mv(28, 44), mv(35, 43), mv(35, 51), mv(37, 45), mv(37, 53)]
    );
}

#[test]
fn a_capture_does_not_wrap_round_the_edge() {
    // the a-pawn and the black piece on h4, one index apart by +7
    let moves = moves_of("8/8/8/1p6/P6p/8/8/8 w - - 0 1");
    assert_eq!(moves, vec![mv(24, 32), mv(24, 40), mv(24, 33)]);
    // the h-pawn and the black piece on a6, one index apart by +9
    let moves = moves_of("8/8/p7/6p1/7P/8/8/8 w - - 0 1");
    assert_eq!(moves, vec![mv(31, 39), mv(31, 47), mv(31, 38)]);
    // the same for Black, downwards
    let moves = moves_of("8/8/8/8/p6P/1P6/8/8 b - - 0 1");
    assert_eq!(moves, vec![mv(24, 16), mv(24, 8), mv(24, 17)]);
    let moves = moves_of("8/8/8/8/P6p/6P1/8/8 b - - 0 1");
    assert_eq!(moves, vec![mv(31, 23), mv(31, 15), mv(31, 22)]);
}

#[test]
fn a_pawn_takes_en_passant_a_pawn_that_is_marked() {
    let mut board = board_from_fen("8/8/8/3pPp2/8/8/8/8 w - - 0 1").unwrap();
    assert_eq!(generate_moves(&board), vec![mv(36, 44), mv(36, 52)]);
    board.board[35].weak_to_en_passant = true;
    assert_eq!(generate_moves(&board), vec![mv(36, 44), mv(36, 52), mv(36, 43)]);
    board.board[37].weak_to_en_passant = true;
    assert_eq!(generate_moves(&board), vec![mv(36, 44), mv(36, 52), mv(36, 43), mv(36, 45)]);
    let mut board = board_from_fen("8/8/8/8/3PpP2/8/8/8 b - - 0 1").unwrap();
    board.board[27].weak_to_en_passant = true;
    board.board[29].weak_to_en_passant = true;
    assert_eq!(generate_moves(&board), vec![mv(28, 20), mv(28, 12), mv(28, 19), mv(28, 21)]);
}

#[test]
fn a_marked_piece_that_is_no_opposing_pawn_is_not_taken_en_passant() {
    let mut board = board_from_fen("8/8/8/3nPP2/8/8/8/8 w - - 0 1").unwrap();
    board.board[35].weak_to_en_passant = true;
    board.board[37].weak_to_en_passant = true;
    assert_eq!(
        generate_moves(&board),
        vec![mv(36, 44), mv(36, 52), mv(37, 45), mv(37, 53)]
    );
}

#[test]
fn en_passant_does_not_wrap_round_the_edge() {
    // a5 and h4 are neighbours by index, not on the board
    let mut board = board_from_fen("8/8/8/P7/7p/8/8/8 w - - 0 1").unwrap();
    board.board[31].weak_to_en_passant = true;
    assert_eq!(generate_moves(&board), vec![mv(32, 40), mv(32, 48)]);
    let mut board = board_from_fen("8/8/8/P7/7p/8/8/8 b - - 0 1").unwrap();
    board.board[32].weak_to_en_passant = true;
    assert_eq!(generate_moves(&board), vec![mv(31, 23), mv(31, 15)]);
}

#[test]
fn the_generators_for_one_piece_take_the_piece_as_given() {
    let board = board_from_fen("8/8/8/8/8/8/8/8 w - - 0 1").unwrap();
    let table = get_num_squares_to_edge();
    let rook = Piece::new(PieceKind::Rook, Color::Black);
    assert_eq!(
        targets(&generate_sliding_moves(&board, 63, &rook, &table)),
        vec![55, 47, 39, 31, 23, 15, 7, 62, 61, 60, 59, 58, 57, 56]
    );
    let knight = Piece::new(PieceKind::Knight, Color::White);
    assert_eq!(targets(&generate_knight_moves(&board, 63, &knight, &table)), vec![46, 53]);
    let pawn = Piece::new(PieceKind::Pawn, Color::Black);
    assert_eq!(targets(&generate_pawn_moves(&board, 63, &pawn, &table)), vec![55, 47]);
}

#[test]
fn no_sliding_move_goes_further_than_the_edge() {
    let table = get_num_squares_to_edge();
    let offsets = [8i32, -8, -1, 1, 9, -7, -9, 7];
    let board = board_from_fen("8/8/8/8/8/8/8/8 w - - 0 1").unwrap();
    for kind in [PieceKind::Bishop, PieceKind::Rook, PieceKind::Queen, PieceKind::King] {
        let piece = Piece::new(kind, Color::White);
        for sq in 0usize..64 {
            for m in generate_sliding_moves(&board, sq, &piece, &table) {
                assert_eq!(m.start as usize, sq);
                let df = (m.target % 8) as i32 - (sq % 8) as i32;
                let dr = (m.target / 8) as i32 - (sq / 8) as i32;
                let on_a_ray = (0..8).any(|dir| {
                    let reach = table[sq][dir] as i32;
                    (1..=reach).any(|n| {
                        sq as i32 + n * offsets[dir] == m.target as i32
                            && df.abs() <= reach
                            && dr.abs() <= reach
                    })
                });
                assert!(on_a_ray);
            }
        }
    }
}

#[test]
fn every_candidate_moves_a_piece_of_the_side_to_move_on_the_board() {
    for text in [
        STARTING_FEN,
        "6r1/6pp/7r/1B5K/1P3k2/N7/3R4/8 w - - 30 79",
        "6r1/6pp/7r/1B5K/1P3k2/N7/3R4/8 b - - 30 79",
        "r3k2r/8/1p4p1/8/3P4/8/P6P/R3K2R b Kq d3 17 42",
    ] {
        let board = board_from_fen(text).unwrap();
        for m in generate_moves(&board) {
            assert!(m.start < 64 && m.target < 64 && m.start != m.target);
            let piece = board.board[m.start as usize];
            assert!(piece.kind != PieceKind::Empty);
            assert_eq!(piece.color, board.color_to_move);
        }
    }
}

#[test]
fn the_moves_of_one_square_are_the_candidates_that_start_there() {
    let board = board_from_fen(STARTING_FEN).unwrap();
    assert_eq!(movegen(&board, 1), vec![mv(1, 18), mv(1, 16)]);
    assert_eq!(movegen(&board, 12), vec![mv(12, 20), mv(12, 28)]);
    assert_eq!(movegen(&board, 0), vec![]);
    assert_eq!(movegen(&board, 30), vec![]);
    assert_eq!(movegen(&board, 52), vec![]);
    assert_eq!(movegen(&board, 200), vec![]);
    let all = generate_moves(&board);
    for sq in 0u8..64 {
        let expected: Vec<Move> = all.iter().copied().filter(|m| m.start == sq).collect();
        assert_eq!(movegen(&board, sq), expected);
    }
}

#[test]
fn an_empty_square_is_nobodys_opponent() {
    let empty = Piece::empty();
    let white = Piece::new(PieceKind::Pawn, Color::White);
    let black = Piece::new(PieceKind::Queen, Color::Black);
    let black_empty = Piece::new(PieceKind::Empty, Color::Black);
    assert!(is_opponent(&white, &black));
    assert!(is_opponent(&black, &white));
    assert!(!is_opponent(&white, &white));
    assert!(!is_opponent(&empty, &empty));
    assert!(!is_opponent(&empty, &black_empty));
    assert!(!is_opponent(&white, &black_empty));
    assert!(!is_opponent(&black, &empty));
    assert!(is_ally(&white, &white));
    assert!(!is_ally(&white, &black));
    assert!(!is_ally(&white, &empty));
    assert!(!is_ally(&empty, &empty));
}

#[test]
fn a_shared_table_gives_the_same_moves() {
    let table = get_num_squares_to_edge();
    for text in [STARTING_FEN, "6r1/6pp/7r/1B5K/1P3k2/N7/3R4/8 b - - 30 79"] {
        let board = board_from_fen(text).unwrap();
        assert_eq!(generate_moves_with(&board, &table), generate_moves(&board));
    }
}

#[test]
fn a_board_without_pieces_has_no_moves() {
    assert_eq!(generate_moves(&Board::empty()), vec![]);
}
