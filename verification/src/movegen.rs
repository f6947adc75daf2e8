//! Pseudo-legal move generation: for every piece of the side to move, the
//! moves that its movement pattern and the occupancy of the board allow.
//! Whether a move leaves the mover's own king attacked is not looked at.

use vstd::prelude::*;
use crate::piece::{Color, Piece, PieceKind, allies, opponents, is_ally, is_opponent};
use crate::board::{Board, Move, Position};
use crate::geometry::{
    edge_distance, file_step, is_edge_table, lemma_one_step, min_of, offset_of,
    direction_offset, get_num_squares_to_edge, lemma_step_stays_on_board, DIR_TOP, DIR_BOT,
    DIR_LEFT, DIR_RIGHT, DIR_TOP_LEFT, DIR_TOP_RIGHT, DIR_BOT_LEFT, DIR_BOT_RIGHT,
};
use crate::movegen_laws::{
    lemma_candidates_by_start, lemma_candidates_sound, lemma_sliding_moves_within_table,
    within_table,
};

verus! {

/// The move from one square to another.
pub open spec fn move_to(start: int, target: int) -> Move {
    Move { start: start as u8, target: target as u8 }
}

/// How far a piece may slide in a direction: to the edge, but a king one
/// step at most.
pub open spec fn ray_reach(kind: PieceKind, sq: int, dir: int) -> int {
    if kind == PieceKind::King {
        min_of(1, edge_distance(sq, dir))
    } else {
        edge_distance(sq, dir)
    }
}

/// The moves of a piece that started on `start` and has slid to `cur`, with
/// `left` steps to go in direction `dir`. A step onto a piece of the same
/// side ends the ray and is no move; a step onto an opposing piece is a move
/// and ends the ray; a step onto an empty square is a move, and the ray goes
/// on.
pub open spec fn ray_moves(p: Position, start: int, piece: Piece, dir: int, cur: int, left: int) -> Seq<Move>
    decreases left,
{
    if left <= 0 {
        Seq::empty()
    } else {
        let target = cur + offset_of(dir);
        let there = p.squares[target];
        if allies(piece, there) {
            Seq::empty()
        } else if opponents(piece, there) {
            seq![move_to(start, target)]
        } else {
            seq![move_to(start, target)] + ray_moves(p, start, piece, dir, target, left - 1)
        }
    }
}

/// The first direction open to a sliding piece: a bishop has the last four.
pub open spec fn first_direction(kind: PieceKind) -> int {
    if kind == PieceKind::Bishop {
        4
    } else {
        0
    }
}

/// The end of the directions open to a sliding piece: a rook has the first
/// four.
pub open spec fn end_direction(kind: PieceKind) -> int {
    if kind == PieceKind::Rook {
        4
    } else {
        8
    }
}

/// The moves of a sliding piece or king in the directions from `dir` on.
pub open spec fn sliding_from(p: Position, sq: int, piece: Piece, dir: int) -> Seq<Move>
    decreases 8 - dir,
{
    if dir >= end_direction(piece.kind) {
        Seq::empty()
    } else {
        ray_moves(p, sq, piece, dir, sq, ray_reach(piece.kind, sq, dir)) + sliding_from(
            p,
            sq,
            piece,
            dir + 1,
        )
    }
}

/// The moves of a bishop, rook, queen or king on a square, direction by
/// direction in ascending order, each ray from the nearest square outwards.
pub open spec fn sliding_moves(p: Position, sq: int, piece: Piece) -> Seq<Move> {
    sliding_from(p, sq, piece, first_direction(piece.kind))
}

/// Generates the moves of a bishop, rook, queen or king that stands on
/// `start_square`.
pub fn generate_sliding_moves(
    board: &Board,
    start_square: usize,
    piece: &Piece,
    squares_to_edge: &[[u8; 8]; 64],
) -> (moves: Vec<Move>)
    requires
        start_square < 64,
        is_edge_table(*squares_to_edge),
    ensures
        moves@ == sliding_moves(board@, start_square as int, *piece),
        forall|i: int|
            0 <= i < moves.len() ==> within_table(
                #[trigger] moves[i],
                start_square as int,
                piece.kind,
                *squares_to_edge,
            ),
{
    let start_direction_index: usize = if piece.kind == PieceKind::Bishop { 4 } else { 0 };
    let end_direction_index: usize = if piece.kind == PieceKind::Rook { 4 } else { 8 };
    let ghost p = board@;
    let ghost sq = start_square as int;
    let mut moves: Vec<Move> = Vec::new();
    let mut direction_idx: usize = start_direction_index;
    while direction_idx < end_direction_index
        invariant
            start_square < 64,
            is_edge_table(*squares_to_edge),
            p == board@,
            sq == start_square as int,
            end_direction_index == end_direction(piece.kind),
            first_direction(piece.kind) <= direction_idx <= end_direction_index,
            moves@ + sliding_from(p, sq, *piece, direction_idx as int) == sliding_moves(
                p,
                sq,
                *piece,
            ),
        decreases end_direction_index - direction_idx,
    {
        let s_to_e: u8 = squares_to_edge[start_square][direction_idx];
        let range: u8 = if piece.kind == PieceKind::King {
            if s_to_e < 1 { s_to_e } else { 1 }
        } else {
            s_to_e
        };
        let offset: i32 = direction_offset(direction_idx);
        let ghost before = moves@;
        let ghost dir = direction_idx as int;
        let mut current: usize = start_square;
        let mut left: u8 = range;
        let mut blocked = false;
        while left > 0 && !blocked
            invariant
                p == board@,
                sq == start_square as int,
                start_square < 64,
                dir == direction_idx as int,
                0 <= dir < 8,
                offset == offset_of(dir),
                current < 64,
                left <= edge_distance(current as int, dir),
                moves@ + (if blocked {
                    Seq::empty()
                } else {
                    ray_moves(p, sq, *piece, dir, current as int, left as int)
                }) == before + ray_moves(
                    p,
                    sq,
                    *piece,
                    dir,
                    sq,
                    ray_reach(piece.kind, sq, dir),
                ),
            decreases left, if blocked { 0int } else { 1int },
        {
            proof {
                lemma_one_step(current as int, dir);
            }
            let target_square: usize = (current as i32 + offset) as usize;
            let piece_on_target_square = board.board[target_square];
            let ghost rest = ray_moves(p, sq, *piece, dir, target_square as int, left - 1);
            if is_ally(piece, &piece_on_target_square) {
                blocked = true;
            } else {
                let ghost old_moves = moves@;
                moves.push(Move { start: start_square as u8, target: target_square as u8 });
                if is_opponent(piece, &piece_on_target_square) {
                    blocked = true;
                } else {
                    assert(old_moves + (seq![move_to(sq, target_square as int)] + rest)
                        =~= old_moves.push(move_to(sq, target_square as int)) + rest);
                    current = target_square;
                    left = left - 1;
                }
            }
        }
        assert(before + ray_moves(p, sq, *piece, dir, sq, ray_reach(piece.kind, sq, dir))
            + sliding_from(p, sq, *piece, dir + 1) =~= before + sliding_from(p, sq, *piece, dir));
        direction_idx = direction_idx + 1;
    }
    assert forall|i: int| 0 <= i < moves.len() implies within_table(
        #[trigger] moves[i],
        sq,
        piece.kind,
        *squares_to_edge,
    ) by {
        lemma_sliding_moves_within_table(p, sq, *piece, *squares_to_edge, i);
    }
    moves
}

/// How many files the `i`-th knight jump moves to the east.
pub open spec fn knight_file_step(i: int) -> int {
    if i == 0 || i == 6 {
        1
    } else if i == 1 || i == 3 {
        2
    } else if i == 2 || i == 4 {
        -1
    } else {
        -2
    }
}

/// How many ranks the `i`-th knight jump moves to the north.
pub open spec fn knight_rank_step(i: int) -> int {
    if i == 0 || i == 2 {
        2
    } else if i == 1 || i == 7 {
        1
    } else if i == 3 || i == 5 {
        -1
    } else {
        -2
    }
}

/// The `i`-th knight jump from a square has room on the board in all four
/// straight directions that compose it.
pub open spec fn knight_fits(sq: int, i: int) -> bool {
    &&& edge_distance(sq, 3) >= knight_file_step(i)
    &&& edge_distance(sq, 2) >= -knight_file_step(i)
    &&& edge_distance(sq, 0) >= knight_rank_step(i)
    &&& edge_distance(sq, 1) >= -knight_rank_step(i)
}

/// The square on which the `i`-th knight jump lands.
pub open spec fn knight_target(sq: int, i: int) -> int {
    sq + knight_file_step(i) + 8 * knight_rank_step(i)
}

/// The moves of a knight by its jumps from the `i`-th on: a jump that fits
/// on the board is a move unless a piece of the same side stands where it
/// lands.
pub open spec fn knight_from(p: Position, sq: int, piece: Piece, i: int) -> Seq<Move>
    decreases 8 - i,
{
    if i >= 8 {
        Seq::empty()
    } else {
        let target = knight_target(sq, i);
        let this = if knight_fits(sq, i) && !allies(piece, p.squares[target]) {
            seq![move_to(sq, target)]
        } else {
            Seq::empty()
        };
        this + knight_from(p, sq, piece, i + 1)
    }
}

/// The moves of a knight on a square, in the order of its eight jumps:
/// (1, 2), (2, 1), (-1, 2), (2, -1), (-1, -2), (-2, -1), (1, -2), (-2, 1)
/// as (files, ranks).
pub open spec fn knight_moves(p: Position, sq: int, piece: Piece) -> Seq<Move> {
    knight_from(p, sq, piece, 0)
}

/// The `i`-th knight jump as (files, ranks).
pub fn knight_offset(i: usize) -> (co: (i32, i32))
    requires
        i < 8,
    ensures
        co.0 == knight_file_step(i as int),
        co.1 == knight_rank_step(i as int),
{
    if i == 0 {
        (1, 2)
    } else if i == 1 {
        (2, 1)
    } else if i == 2 {
        (-1, 2)
    } else if i == 3 {
        (2, -1)
    } else if i == 4 {
        (-1, -2)
    } else if i == 5 {
        (-2, -1)
    } else if i == 6 {
        (1, -2)
    } else {
        (-2, 1)
    }
}

/// Generates the moves of a knight that stands on `start_square`.
pub fn generate_knight_moves(
    board: &Board,
    start_square: usize,
    piece: &Piece,
    squares_to_edge: &[[u8; 8]; 64],
) -> (moves: Vec<Move>)
    requires
        start_square < 64,
        is_edge_table(*squares_to_edge),
    ensures
        moves@ == knight_moves(board@, start_square as int, *piece),
{
    let ghost p = board@;
    let ghost sq = start_square as int;
    let top: i32 = squares_to_edge[start_square][DIR_TOP] as i32;
    let bot: i32 = squares_to_edge[start_square][DIR_BOT] as i32;
    let left: i32 = squares_to_edge[start_square][DIR_LEFT] as i32;
    let right: i32 = squares_to_edge[start_square][DIR_RIGHT] as i32;
    let mut moves: Vec<Move> = Vec::new();
    let mut i: usize = 0;
    while i < 8
        invariant
            i <= 8,
            start_square < 64,
            p == board@,
            sq == start_square as int,
            top == edge_distance(sq, 0),
            bot == edge_distance(sq, 1),
            left == edge_distance(sq, 2),
            right == edge_distance(sq, 3),
            moves@ + knight_from(p, sq, *piece, i as int) == knight_moves(p, sq, *piece),
        decreases 8 - i,
    {
        let co = knight_offset(i);
        let ghost rest = knight_from(p, sq, *piece, i + 1);
        if right >= co.0 && left >= -co.0 && top >= co.1 && bot >= -co.1 {
            let target_square: usize = (start_square as i32 + co.0 + co.1 * 8) as usize;
            let target_piece = board.board[target_square];
            if !is_ally(piece, &target_piece) {
                let ghost old_moves = moves@;
                moves.push(Move { start: start_square as u8, target: target_square as u8 });
                assert(old_moves + (seq![move_to(sq, target_square as int)] + rest)
                    =~= old_moves.push(move_to(sq, target_square as int)) + rest);
            } else {
                assert(moves@ + (Seq::<Move>::empty() + rest) =~= moves@ + rest);
            }
        } else {
            assert(moves@ + (Seq::<Move>::empty() + rest) =~= moves@ + rest);
        }
        i = i + 1;
    }
    moves
}

/// The direction in which the pawns of a side advance.
pub open spec fn pawn_forward(c: Color) -> int {
    match c {
        Color::White => 0,
        Color::Black => 1,
    }
}

/// The diagonal on which the pawns of a side capture towards the a-file.
pub open spec fn pawn_attack_left(c: Color) -> int {
    match c {
        Color::White => 7,
        Color::Black => 6,
    }
}

/// The diagonal on which the pawns of a side capture towards the h-file.
pub open spec fn pawn_attack_right(c: Color) -> int {
    match c {
        Color::White => 4,
        Color::Black => 5,
    }
}

/// A sequence of one move, or of none.
pub open spec fn move_if(cond: bool, m: Move) -> Seq<Move> {
    if cond {
        seq![m]
    } else {
        Seq::empty()
    }
}

/// A pawn may advance one square: the board goes on, and the square ahead
/// is empty.
pub open spec fn pawn_can_push(p: Position, sq: int, piece: Piece) -> bool {
    let dir = pawn_forward(piece.color);
    edge_distance(sq, dir) >= 1 && p.squares[sq + offset_of(dir)].kind == PieceKind::Empty
}

/// A pawn may advance two squares: it has not moved yet, and both squares
/// ahead are on the board and empty.
pub open spec fn pawn_can_push_twice(p: Position, sq: int, piece: Piece) -> bool {
    let dir = pawn_forward(piece.color);
    &&& pawn_can_push(p, sq, piece)
    &&& !piece.has_moved
    &&& edge_distance(sq, dir) >= 2
    &&& p.squares[sq + 2 * offset_of(dir)].kind == PieceKind::Empty
}

/// A pawn may capture on a diagonal: the diagonal does not cross the edge,
/// and an opposing piece stands there.
pub open spec fn pawn_can_capture(p: Position, sq: int, piece: Piece, dir: int) -> bool {
    edge_distance(sq, dir) >= 1 && opponents(piece, p.squares[sq + offset_of(dir)])
}

/// A pawn may capture en passant on a diagonal: the diagonal does not cross
/// the edge, and on the square beside the pawn, on the side of the diagonal,
/// stands an opposing pawn that is marked as open to it.
pub open spec fn pawn_can_take_en_passant(
    p: Position,
    sq: int,
    piece: Piece,
    dir: int,
) -> bool {
    let beside = p.squares[sq + file_step(dir)];
    &&& edge_distance(sq, dir) >= 1
    &&& opponents(piece, beside)
    &&& beside.kind == PieceKind::Pawn
    &&& beside.weak_to_en_passant
}

/// The moves of a pawn on a square, in this order: the single advance, the
/// double advance, the capture towards the a-file, the capture towards the
/// h-file, and the en-passant captures towards the a-file and towards the
/// h-file.
pub open spec fn pawn_moves(p: Position, sq: int, piece: Piece) -> Seq<Move> {
    let ahead = offset_of(pawn_forward(piece.color));
    let left = pawn_attack_left(piece.color);
    let right = pawn_attack_right(piece.color);
    move_if(pawn_can_push(p, sq, piece), move_to(sq, sq + ahead)) + move_if(
        pawn_can_push_twice(p, sq, piece),
        move_to(sq, sq + 2 * ahead),
    ) + move_if(pawn_can_capture(p, sq, piece, left), move_to(sq, sq + offset_of(left)))
        + move_if(pawn_can_capture(p, sq, piece, right), move_to(sq, sq + offset_of(right)))
        + move_if(pawn_can_take_en_passant(p, sq, piece, left), move_to(sq, sq + offset_of(left)))
        + move_if(
        pawn_can_take_en_passant(p, sq, piece, right),
        move_to(sq, sq + offset_of(right)),
    )
}

/// Appends the single and the double advance of a pawn, where it has them.
fn push_pawn_advances(
    board: &Board,
    start_square: usize,
    piece: &Piece,
    squares_to_edge: &[[u8; 8]; 64],
    moves: &mut Vec<Move>,
)
    requires
        start_square < 64,
        is_edge_table(*squares_to_edge),
    ensures
        final(moves)@ == old(moves)@ + move_if(
            pawn_can_push(board@, start_square as int, *piece),
            move_to(start_square as int, start_square + offset_of(pawn_forward(piece.color))),
        ) + move_if(
            pawn_can_push_twice(board@, start_square as int, *piece),
            move_to(start_square as int, start_square + 2 * offset_of(pawn_forward(piece.color))),
        ),
{
    let ghost sq = start_square as int;
    let forward: usize = match piece.color {
        Color::White => DIR_TOP,
        Color::Black => DIR_BOT,
    };
    let move_offset: i32 = direction_offset(forward);
    let start: u8 = start_square as u8;
    let room_ahead: u8 = squares_to_edge[start_square][forward];
    proof {
        if edge_distance(sq, forward as int) >= 1 {
            lemma_step_stays_on_board(sq, forward as int, 1);
        }
        if edge_distance(sq, forward as int) >= 2 {
            lemma_step_stays_on_board(sq, forward as int, 2);
        }
    }
    if room_ahead >= 1 {
        let target_square: usize = (start_square as i32 + move_offset) as usize;
        if board.board[target_square].kind == PieceKind::Empty {
            moves.push(Move { start, target: target_square as u8 });
            if !piece.has_moved && room_ahead >= 2 {
                let target_square: usize = (target_square as i32 + move_offset) as usize;
                if board.board[target_square].kind == PieceKind::Empty {
                    moves.push(Move { start, target: target_square as u8 });
                }
            }
        }
    }
    assert(final(moves)@ =~= old(moves)@ + move_if(
        pawn_can_push(board@, sq, *piece),
        move_to(sq, sq + offset_of(forward as int)),
    ) + move_if(
        pawn_can_push_twice(board@, sq, *piece),
        move_to(sq, sq + 2 * offset_of(forward as int)),
    ));
}

/// Appends the capture of a pawn on one diagonal, where it has one.
fn push_pawn_capture(
    board: &Board,
    start_square: usize,
    piece: &Piece,
    squares_to_edge: &[[u8; 8]; 64],
    dir: usize,
    moves: &mut Vec<Move>,
)
    requires
        start_square < 64,
        dir < 8,
        is_edge_table(*squares_to_edge),
    ensures
        final(moves)@ == old(moves)@ + move_if(
            pawn_can_capture(board@, start_square as int, *piece, dir as int),
            move_to(start_square as int, start_square + offset_of(dir as int)),
        ),
{
    let ghost sq = start_square as int;
    if squares_to_edge[start_square][dir] >= 1 {
        proof {
            lemma_step_stays_on_board(sq, dir as int, 1);
        }
        let target_square: usize = (start_square as i32 + direction_offset(dir)) as usize;
        let target_piece = board.board[target_square];
        if is_opponent(piece, &target_piece) {
            moves.push(Move { start: start_square as u8, target: target_square as u8 });
        }
    }
    assert(final(moves)@ =~= old(moves)@ + move_if(
        pawn_can_capture(board@, sq, *piece, dir as int),
        move_to(sq, sq + offset_of(dir as int)),
    ));
}

/// Appends the en-passant capture of a pawn on one diagonal, where it has
/// one.
fn push_pawn_en_passant(
    board: &Board,
    start_square: usize,
    piece: &Piece,
    squares_to_edge: &[[u8; 8]; 64],
    dir: usize,
    moves: &mut Vec<Move>,
)
    requires
        start_square < 64,
        4 <= dir < 8,
        is_edge_table(*squares_to_edge),
    ensures
        final(moves)@ == old(moves)@ + move_if(
            pawn_can_take_en_passant(board@, start_square as int, *piece, dir as int),
            move_to(start_square as int, start_square + offset_of(dir as int)),
        ),
{
    let ghost sq = start_square as int;
    if squares_to_edge[start_square][dir] >= 1 {
        proof {
            lemma_step_stays_on_board(sq, dir as int, 1);
        }
        let beside_square: usize = if dir == DIR_TOP_RIGHT || dir == DIR_BOT_RIGHT {
            start_square + 1
        } else {
            start_square - 1
        };
        let beside = board.board[beside_square];
        if is_opponent(piece, &beside) && beside.kind == PieceKind::Pawn
            && beside.weak_to_en_passant {
            let target_square: usize = (start_square as i32 + direction_offset(dir)) as usize;
            moves.push(Move { start: start_square as u8, target: target_square as u8 });
        }
    }
    assert(final(moves)@ =~= old(moves)@ + move_if(
        pawn_can_take_en_passant(board@, sq, *piece, dir as int),
        move_to(sq, sq + offset_of(dir as int)),
    ));
}

/// Generates the moves of a pawn that stands on `start_square`.
pub fn generate_pawn_moves(
    board: &Board,
    start_square: usize,
    piece: &Piece,
    squares_to_edge: &[[u8; 8]; 64],
) -> (moves: Vec<Move>)
    requires
        start_square < 64,
        is_edge_table(*squares_to_edge),
    ensures
        moves@ == pawn_moves(board@, start_square as int, *piece),
{
    let attack_left: usize = match piece.color {
        Color::White => DIR_TOP_LEFT,
        Color::Black => DIR_BOT_LEFT,
    };
    let attack_right: usize = match piece.color {
        Color::White => DIR_TOP_RIGHT,
        Color::Black => DIR_BOT_RIGHT,
    };
    let mut moves: Vec<Move> = Vec::new();
    push_pawn_advances(board, start_square, piece, squares_to_edge, &mut moves);
    push_pawn_capture(board, start_square, piece, squares_to_edge, attack_left, &mut moves);
    push_pawn_capture(board, start_square, piece, squares_to_edge, attack_right, &mut moves);
    push_pawn_en_passant(board, start_square, piece, squares_to_edge, attack_left, &mut moves);
    push_pawn_en_passant(board, start_square, piece, squares_to_edge, attack_right, &mut moves);
    assert(moves@ =~= pawn_moves(board@, start_square as int, *piece));
    moves
}

/// The moves of the piece on a square, if it belongs to the side to move.
pub open spec fn square_moves(p: Position, sq: int) -> Seq<Move> {
    let piece = p.squares[sq];
    if piece.kind == PieceKind::Empty || piece.color != p.side {
        Seq::empty()
    } else if piece.kind == PieceKind::Pawn {
        pawn_moves(p, sq, piece)
    } else if piece.kind == PieceKind::Knight {
        knight_moves(p, sq, piece)
    } else {
        sliding_moves(p, sq, piece)
    }
}

/// The moves of the side to move from the squares from `sq` on.
pub open spec fn candidates_from(p: Position, sq: int) -> Seq<Move>
    decreases 64 - sq,
{
    if sq >= 64 {
        Seq::empty()
    } else {
        square_moves(p, sq) + candidates_from(p, sq + 1)
    }
}

/// The candidate moves of a position: the moves of every piece of the side
/// to move, square by square in ascending order.
pub open spec fn candidates(p: Position) -> Seq<Move> {
    candidates_from(p, 0)
}

/// Generates the candidate moves of the side to move. Each of them moves
/// a piece from one square of the board to another.
pub fn generate_moves(board: &Board) -> (moves: Vec<Move>)
    ensures
        moves@ == candidates(board@),
        forall|i: int|
            0 <= i < moves.len() ==> (#[trigger] moves[i]).on_board() && moves[i].start
                != moves[i].target,
{
    let squares_to_edge = get_num_squares_to_edge();
    generate_moves_with(board, &squares_to_edge)
}

/// Generates the candidate moves of the side to move with a table of
/// distances that the caller has built, so that many calls share one table.
pub fn generate_moves_with(board: &Board, squares_to_edge: &[[u8; 8]; 64]) -> (moves: Vec<Move>)
    requires
        is_edge_table(*squares_to_edge),
    ensures
        moves@ == candidates(board@),
        forall|i: int|
            0 <= i < moves.len() ==> (#[trigger] moves[i]).on_board() && moves[i].start
                != moves[i].target,
{
    let ghost p = board@;
    let mut moves: Vec<Move> = Vec::new();
    let mut start_square: usize = 0;
    while start_square < 64
        invariant
            start_square <= 64,
            p == board@,
            is_edge_table(*squares_to_edge),
            moves@ + candidates_from(p, start_square as int) == candidates(p),
        decreases 64 - start_square,
    {
        let piece = board.board[start_square];
        let ghost rest = candidates_from(p, start_square + 1);
        let ghost old_moves = moves@;
        if piece.kind != PieceKind::Empty && piece.color == board.color_to_move {
            let mut new_moves = if piece.kind == PieceKind::Pawn {
                generate_pawn_moves(board, start_square, &piece, squares_to_edge)
            } else if piece.kind == PieceKind::Knight {
                generate_knight_moves(board, start_square, &piece, squares_to_edge)
            } else {
                generate_sliding_moves(board, start_square, &piece, squares_to_edge)
            };
            let ghost added = new_moves@;
            moves.append(&mut new_moves);
            assert(old_moves + (added + rest) =~= (old_moves + added) + rest);
        } else {
            assert(old_moves + (Seq::<Move>::empty() + rest) =~= old_moves + rest);
        }
        start_square = start_square + 1;
    }
    assert forall|i: int| 0 <= i < moves.len() implies (#[trigger] moves[i]).on_board()
        && moves[i].start != moves[i].target by {
        lemma_candidates_sound(p, i);
    }
    moves
}

/// The moves that start on a given square.
pub open spec fn starts_on(square: u8) -> spec_fn(Move) -> bool {
    |m: Move| m.start == square
}

/// Generates the candidate moves that start on `start_square`: the
/// candidate moves of the side to move, filtered by their start square, in
/// their order.
pub fn movegen(board: &Board, start_square: u8) -> (moves: Vec<Move>)
    ensures
        moves@ == candidates(board@).filter(starts_on(start_square)),
        start_square < 64 ==> moves@ == square_moves(board@, start_square as int),
        start_square >= 64 ==> moves@.len() == 0,
{
    proof {
        lemma_candidates_by_start(board@, start_square);
    }
    let all = generate_moves(board);
    let mut moves: Vec<Move> = Vec::new();
    let mut i: usize = 0;
    assert(all@.take(0) =~= Seq::<Move>::empty());
    reveal_with_fuel(Seq::filter, 2);
    while i < all.len()
        invariant
            i <= all.len(),
            moves@ == all@.take(i as int).filter(starts_on(start_square)),
        decreases all.len() - i,
    {
        let m = all[i];
        proof {
            let next = all@.take(i + 1);
            assert(next.drop_last() =~= all@.take(i as int));
            assert(next.last() == m);
            reveal_with_fuel(Seq::filter, 2);
        }
        if m.start == start_square {
            moves.push(m);
        }
        i = i + 1;
    }
    assert(all@.take(all.len() as int) =~= all@);
    moves
}

} // verus!
