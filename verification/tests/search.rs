use chess_engine::board::{Board, Move};
use chess_engine::eval::evaluate;
use chess_engine::fen::{board_from_fen, STARTING_FEN};
use chess_engine::movegen::generate_moves;
use chess_engine::piece::Color;
use chess_engine::search::{best_move, Bot};

fn board_of(text: &str) -> Board {
    board_from_fen(text).unwrap()
}

#[test]
fn one_ply_from_the_start_scores_zero_and_keeps_the_first_move() {
    let mut board = board_of(STARTING_FEN);
    let (score, best) = best_move(&mut board, 1);
    assert_eq!(score, 0);
    assert_eq!(best, Some(Move { start: 1, target: 18 }));
    assert_eq!(best, generate_moves(&board).first().copied());
}

#[test]
fn the_score_at_one_ply_is_the_best_evaluation_after_one_move() {
    for text in [
        STARTING_FEN,
        "k7/8/8/8/8/8/q7/R3K3 w - - 0 1",
        "8/8/4p3/3p4/8/8/8/3Q4 w - - 0 1",
        "6r1/6pp/7r/1B5K/1P3k2/N7/3R4/8 w - - 30 79",
    ] {
        let mut board = board_of(text);
        let mut expected = i32::MIN;
        for m in generate_moves(&board) {
            let undo = board.make_move(&m);
            expected = expected.max(evaluate(&board));
            board.unmake_move(&m, &undo);
        }
        let (score, best) = best_move(&mut board, 1);
        assert_eq!(score, expected);
        let chosen = best.unwrap();
        board.make_move(&chosen);
        assert_eq!(evaluate(&board), expected);
    }
}

#[test]
fn depth_zero_is_the_evaluation_and_no_move() {
    let mut board = board_of("8/8/4p3/3p4/8/8/8/3Q4 w - - 0 1");
    assert_eq!(best_move(&mut board, 0), (65, None));
    let mut board = board_of("8/8/4p3/3p4/8/8/8/3Q4 b - - 0 1");
    assert_eq!(best_move(&mut board, 0), (-65, None));
}

#[test]
fn a_side_without_a_move_gets_the_evaluation_and_no_move() {
    let mut board = board_of("q7/8/8/8/8/8/8/8 w - - 0 1");
    assert_eq!(best_move(&mut board, 3), (-90, None));
    let mut board = board_of("8/8/8/8/8/8/8/Q7 b - - 0 1");
    assert_eq!(best_move(&mut board, 3), (-90, None));
    let mut board = Board::empty();
    assert_eq!(best_move(&mut board, 2), (0, None));
}

#[test]
fn one_ply_takes_the_queen() {
    let mut board = board_of("k7/8/8/8/8/8/q7/R3K3 w - - 0 1");
    assert_eq!(best_move(&mut board, 1), (50, Some(Move { start: 0, target: 8 })));
}

#[test]
fn two_plies_see_the_recapture() {
    let mut board = board_of("8/8/4p3/3p4/8/8/8/3Q4 w - - 0 1");
    // one ply deep the queen takes the pawn
    assert_eq!(best_move(&mut board, 1), (75, Some(Move { start: 3, target: 35 })));
    // two plies deep the pawn takes back, so the queen stays away
    assert_eq!(best_move(&mut board, 2), (65, Some(Move { start: 3, target: 11 })));
}

#[test]
fn black_searches_for_black() {
    let mut board = board_of("3q4/8/8/8/3P4/4P3/8/8 b - - 0 1");
    assert_eq!(best_move(&mut board, 1), (75, Some(Move { start: 59, target: 27 })));
    assert_eq!(best_move(&mut board, 2), (65, Some(Move { start: 59, target: 51 })));
}

#[test]
fn the_search_gives_the_same_result_twice() {
    for text in [STARTING_FEN, "6r1/6pp/7r/1B5K/1P3k2/N7/3R4/8 w - - 30 79"] {
        for depth in 0..4 {
            let mut first = board_of(text);
            let mut second = board_of(text);
            let a = best_move(&mut first, depth);
            let b = best_move(&mut second, depth);
            let c = best_move(&mut first, depth);
            assert_eq!(a, b);
            assert_eq!(a, c);
        }
    }
}

#[test]
fn the_search_leaves_the_board_as_it_was() {
    let mut board = board_of("6r1/6pp/7r/1B5K/1P3k2/N7/3R4/8 w - - 30 79");
    let before = board.clone();
    best_move(&mut board, 3);
    assert_eq!(board, before);
}

#[test]
fn a_bot_has_the_objective_of_its_side() {
    let white = Bot::new(Color::White);
    let black = Bot::new(Color::Black);
    assert_eq!(white.color(), Color::White);
    assert_eq!(black.color(), Color::Black);
    assert_eq!(white.objective(), 1);
    assert_eq!(black.objective(), -1);
    let board = board_of("8/8/4p3/3p4/8/8/8/3Q4 w - - 0 1");
    assert_eq!(white.eval(&board), 65);
    assert_eq!(black.eval(&board), 65);
}

#[test]
fn a_bot_moves_three_plies_deep() {
    let bot = Bot::new(Color::White);
    let mut board = board_of(STARTING_FEN);
    let (_, expected) = best_move(&mut board, 3);
    assert_eq!(bot.get_move(&mut board), expected);
    assert!(expected.is_some());
    let mut board = board_of("q7/8/8/8/8/8/8/8 w - - 0 1");
    assert_eq!(bot.get_move(&mut board), None);
}

#[test]
fn pruning_with_open_bounds_changes_nothing() {
    let bot = Bot::new(Color::White);
    for text in [
        STARTING_FEN,
        "k7/8/8/8/8/8/q7/R3K3 w - - 0 1",
        "8/8/4p3/3p4/8/8/8/3Q4 w - - 0 1",
        "6r1/6pp/7r/1B5K/1P3k2/N7/3R4/8 w - - 30 79",
    ] {
        for depth in 0..4 {
            let mut board = board_of(text);
            let plain = bot.negamax(&mut board, depth, 1);
            let pruned = bot.negamax_ab(&mut board, depth, i32::MIN + 2, i32::MAX - 2, 1);
            assert_eq!(plain, pruned);
            let plain = bot.negamax(&mut board, depth, -1);
            let pruned = bot.negamax_ab(&mut board, depth, i32::MIN + 2, i32::MAX - 2, -1);
            assert_eq!(plain, pruned);
        }
    }
}

#[test]
fn narrow_bounds_end_the_scan_early() {
    let bot = Bot::new(Color::White);
    let mut board = board_of("k7/8/8/8/8/8/q7/R3K3 w - - 0 1");
    // the first move takes the queen and scores 50, above a beta of 10
    assert_eq!(
        bot.negamax_ab(&mut board, 1, -10, 10, 1),
        (50, Some(Move { start: 0, target: 8 }))
    );
    // with the bounds open the scan runs on and keeps the first best move
    assert_eq!(
        bot.negamax_ab(&mut board, 1, -1000, 1000, 1),
        (50, Some(Move { start: 0, target: 8 }))
    );
    // equal to beta is not above it: the scan runs on
    let mut board = board_of("8/8/8/8/8/8/8/QQ6 w - - 0 1");
    let (score, best) = bot.negamax_ab(&mut board, 1, -1000, 180, 1);
    assert_eq!(score, 180);
    assert_eq!(best, Some(Move { start: 0, target: 8 }));
}
