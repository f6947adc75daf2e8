//! Square geometry: files, ranks, the eight directions and the distance
//! from every square to the edge of the board along each of them.
//!
//! A square is an index from 0 to 63: 0 is a1, and the index grows by file
//! first, then by rank, so that `index = rank * 8 + file`.

use vstd::prelude::*;

verus! {

pub const DIR_TOP: usize = 0;

pub const DIR_BOT: usize = 1;

pub const DIR_LEFT: usize = 2;

pub const DIR_RIGHT: usize = 3;

pub const DIR_TOP_RIGHT: usize = 4;

pub const DIR_BOT_RIGHT: usize = 5;

pub const DIR_BOT_LEFT: usize = 6;

pub const DIR_TOP_LEFT: usize = 7;

/// The file of a square, 0 for the a-file.
pub open spec fn file_of(sq: int) -> int {
    sq % 8
}

/// The rank of a square, 0 for the first rank.
pub open spec fn rank_of(sq: int) -> int {
    sq / 8
}

/// Whether an index names a square of the board.
pub open spec fn on_board(sq: int) -> bool {
    0 <= sq < 64
}

pub open spec fn min_of(a: int, b: int) -> int {
    if a <= b {
        a
    } else {
        b
    }
}

/// How many files one step in a direction moves to the east.
pub open spec fn file_step(dir: int) -> int {
    if dir == 3 || dir == 4 || dir == 5 {
        1
    } else if dir == 2 || dir == 6 || dir == 7 {
        -1
    } else {
        0
    }
}

/// How many ranks one step in a direction moves to the north.
pub open spec fn rank_step(dir: int) -> int {
    if dir == 0 || dir == 4 || dir == 7 {
        1
    } else if dir == 1 || dir == 5 || dir == 6 {
        -1
    } else {
        0
    }
}

/// The signed offset that one step in a direction adds to a square index:
/// top +8, bottom -8, left -1, right +1, then the diagonals +9, -7, -9, +7.
pub open spec fn offset_of(dir: int) -> int {
    8 * rank_step(dir) + file_step(dir)
}

/// The number of squares between a square and the edge of the board in a
/// direction.
pub open spec fn edge_distance(sq: int, dir: int) -> int {
    let top = 7 - rank_of(sq);
    let bot = rank_of(sq);
    let left = file_of(sq);
    let right = 7 - file_of(sq);
    if dir == 0 {
        top
    } else if dir == 1 {
        bot
    } else if dir == 2 {
        left
    } else if dir == 3 {
        right
    } else if dir == 4 {
        min_of(top, right)
    } else if dir == 5 {
        min_of(bot, right)
    } else if dir == 6 {
        min_of(bot, left)
    } else {
        min_of(top, left)
    }
}

/// The table holds, for every square and every direction, the distance to
/// the edge.
pub open spec fn is_edge_table(t: [[u8; 8]; 64]) -> bool {
    forall|sq: int, dir: int|
        0 <= sq < 64 && 0 <= dir < 8 ==> (#[trigger] t[sq][dir]) as int == edge_distance(sq, dir)
}

/// The offset of a direction, see [`offset_of`].
pub fn direction_offset(dir: usize) -> (off: i32)
    requires
        dir < 8,
    ensures
        off == offset_of(dir as int),
{
    if dir == 0 {
        8
    } else if dir == 1 {
        -8
    } else if dir == 2 {
        -1
    } else if dir == 3 {
        1
    } else if dir == 4 {
        9
    } else if dir == 5 {
        -7
    } else if dir == 6 {
        -9
    } else {
        7
    }
}

/// Builds the table of distances to the edge: one row of eight distances
/// for each of the 64 squares.
pub fn get_num_squares_to_edge() -> (table: [[u8; 8]; 64])
    ensures
        is_edge_table(table),
{
    let mut table = [[0u8; 8]; 64];
    let mut sq: usize = 0;
    while sq < 64
        invariant
            sq <= 64,
            forall|s: int, dir: int|
                0 <= s < sq && 0 <= dir < 8 ==> (#[trigger] table[s][dir]) as int == edge_distance(
                    s,
                    dir,
                ),
        decreases 64 - sq,
    {
        let file: u8 = (sq % 8) as u8;
        let rank: u8 = (sq / 8) as u8;
        let top: u8 = 7 - rank;
        let bot: u8 = rank;
        let left: u8 = file;
        let right: u8 = 7 - file;
        let top_right: u8 = if top <= right { top } else { right };
        let top_left: u8 = if top <= left { top } else { left };
        let bot_right: u8 = if bot <= right { bot } else { right };
        let bot_left: u8 = if bot <= left { bot } else { left };
        let row: [u8; 8] = [top, bot, left, right, top_right, bot_right, bot_left, top_left];
        table[sq] = row;
        sq = sq + 1;
    }
    table
}

/// A step that stays within the distance to the edge stays on the board,
/// and moves by as many files and ranks as the direction says.
pub proof fn lemma_step_stays_on_board(sq: int, dir: int, n: int)
    requires
        on_board(sq),
        0 <= dir < 8,
        0 <= n <= edge_distance(sq, dir),
    ensures
        on_board(sq + n * offset_of(dir)),
        file_of(sq + n * offset_of(dir)) == file_of(sq) + n * file_step(dir),
        rank_of(sq + n * offset_of(dir)) == rank_of(sq) + n * rank_step(dir),
        n > 0 ==> sq + n * offset_of(dir) != sq,
{
    let f = file_of(sq);
    let r = rank_of(sq);
    let df = n * file_step(dir);
    let dr = n * rank_step(dir);
    assert(n * offset_of(dir) == 8 * dr + df) by (nonlinear_arith)
        requires
            offset_of(dir) == 8 * rank_step(dir) + file_step(dir),
            df == n * file_step(dir),
            dr == n * rank_step(dir),
    ;
    assert(-n <= df <= n && -n <= dr <= n) by (nonlinear_arith)
        requires
            df == n * file_step(dir),
            dr == n * rank_step(dir),
            -1 <= file_step(dir) <= 1,
            -1 <= rank_step(dir) <= 1,
            n >= 0,
    ;
    assert(file_step(dir) == 1 ==> df == n);
    assert(file_step(dir) == -1 ==> df == -n);
    assert(file_step(dir) == 0 ==> df == 0);
    assert(rank_step(dir) == 1 ==> dr == n);
    assert(rank_step(dir) == -1 ==> dr == -n);
    assert(rank_step(dir) == 0 ==> dr == 0);
    assert(sq == 8 * r + f);
    assert(0 <= f + df < 8);
    assert(0 <= r + dr < 8);
    let t = sq + n * offset_of(dir);
    assert(t == 8 * (r + dr) + (f + df));
}

/// One step in a direction that has room for it stays on the board, moves by
/// one file and one rank as the direction says, and leaves one step less to
/// the edge.
pub proof fn lemma_one_step(sq: int, dir: int)
    requires
        on_board(sq),
        0 <= dir < 8,
        edge_distance(sq, dir) >= 1,
    ensures
        on_board(sq + offset_of(dir)),
        sq + offset_of(dir) != sq,
        file_of(sq + offset_of(dir)) == file_of(sq) + file_step(dir),
        rank_of(sq + offset_of(dir)) == rank_of(sq) + rank_step(dir),
        edge_distance(sq + offset_of(dir), dir) == edge_distance(sq, dir) - 1,
{
    lemma_step_stays_on_board(sq, dir, 1);
}

} // verus!
