//! From a point of the board's picture to a square of the board. The
//! picture is 800 units wide and high, eight tiles of 100 units each way,
//! and shows the board from White's side or from Black's.

use vstd::prelude::*;

verus! {

/// The width and the height of a tile of the picture.
pub const TILE_SIZE: i16 = 100;

/// The point of view that shows the board from White's side: the first
/// rank at the bottom, the a-file on the left.
pub const POV_WHITE: u8 = 1;

/// The quotient of a division that rounds towards zero.
pub open spec fn quotient(x: int, by: int) -> int {
    if x >= 0 {
        x / by
    } else {
        -((-x) / by)
    }
}

/// The square of the board that a tile of the picture shows. Seen from
/// White's side the rows are counted from the top; from Black's side the
/// columns are counted from the right.
pub open spec fn board_square_of(column: int, row: int, pov: u8) -> int {
    if pov == POV_WHITE {
        8 * (7 - row) + column
    } else {
        8 * row + (7 - column)
    }
}

/// The tile of the picture in which a point lies, as (column, row).
pub fn canvas_coord_to_canvas_square(x: i16, y: i16, pov: u8) -> (tile: (i16, i16))
    ensures
        tile.0 == quotient(x as int, 100),
        tile.1 == quotient(y as int, 100),
{
    let file = x / TILE_SIZE;
    let rank = y / TILE_SIZE;
    (file, rank)
}

/// The square of the board that a tile of the picture shows, see
/// [`board_square_of`].
pub fn canvas_square_to_board_square(square: (i16, i16), pov: u8) -> (index: u8)
    requires
        0 <= square.0 < 8,
        0 <= square.1 < 8,
    ensures
        index < 64,
        index == board_square_of(square.0 as int, square.1 as int, pov),
{
    let x = square.0 as u8;
    let y = square.1 as u8;
    if pov == POV_WHITE {
        (7 - y) * 8 + x
    } else {
        y * 8 + (7 - x)
    }
}

} // verus!
