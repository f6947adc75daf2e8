use chess_engine::geometry::{direction_offset, get_num_squares_to_edge};

#[test]
fn corner_and_centre_rows_of_the_table() {
    let table = get_num_squares_to_edge();
    // top, bottom, left, right, top right, bottom right, bottom left, top left
    assert_eq!(table[0], [7, 0, 0, 7, 7, 0, 0, 0]);
    assert_eq!(table[7], [7, 0, 7, 0, 0, 0, 0, 7]);
    assert_eq!(table[56], [0, 7, 0, 7, 0, 7, 0, 0]);
    assert_eq!(table[63], [0, 7, 7, 0, 0, 0, 7, 0]);
    assert_eq!(table[27], [4, 3, 3, 4, 4, 3, 3, 3]);
    assert_eq!(table[12], [6, 1, 4, 3, 3, 1, 1, 4]);
}

#[test]
fn every_row_follows_the_formula() {
    let table = get_num_squares_to_edge();
    for sq in 0usize..64 {
        let file = (sq % 8) as u8;
        let rank = (sq / 8) as u8;
        let (top, bot, left, right) = (7 - rank, rank, file, 7 - file);
        assert_eq!(
            table[sq],
            [
                top,
                bot,
                left,
                right,
                top.min(right),
                bot.min(right),
                bot.min(left),
                top.min(left)
            ]
        );
    }
}

#[test]
fn the_eight_offsets() {
    let offsets: Vec<i32> = (0..8).map(direction_offset).collect();
    assert_eq!(offsets, vec![8, -8, -1, 1, 9, -7, -9, 7]);
}

#[test]
fn a_step_within_the_distance_stays_on_its_line() {
    let table = get_num_squares_to_edge();
    for sq in 0i32..64 {
        for dir in 0usize..8 {
            let reach = table[sq as usize][dir] as i32;
            for n in 1..=reach {
                let target = sq + n * direction_offset(dir);
                assert!((0..64).contains(&target));
                let df = (target % 8 - sq % 8).abs();
                let dr = (target / 8 - sq / 8).abs();
                assert!(df <= reach && dr <= reach);
                assert!(df == n || df == 0);
                assert!(dr == n || dr == 0);
            }
        }
    }
}
