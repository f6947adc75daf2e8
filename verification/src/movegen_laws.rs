//! What holds of the generated moves: they stay on the board and on their
//! rays, and taking one back restores the position.

use vstd::prelude::*;
use crate::piece::{Piece, PieceKind, allies};
use crate::board::{
    Move, Position, apply_move, lemma_unmake_restores, undo_info, undo_move,
};
use crate::geometry::{
    edge_distance, file_of, file_step, is_edge_table, lemma_one_step, lemma_step_stays_on_board,
    offset_of, on_board, rank_of, rank_step,
};
use crate::movegen::{
    candidates, candidates_from, end_direction, first_direction, knight_fits, knight_from,
    knight_moves, knight_target, move_if, move_to, pawn_attack_left, pawn_attack_right,
    pawn_can_capture, pawn_can_push, pawn_can_push_twice, pawn_can_take_en_passant, pawn_forward,
    pawn_moves, ray_moves, ray_reach, sliding_from, sliding_moves, square_moves, starts_on,
};

verus! {

/// The target of a move lies `n` steps from `sq` in direction `dir`, on the
/// board.
pub open spec fn on_ray(sq: int, dir: int, n: int, target: int) -> bool {
    &&& on_board(target)
    &&& file_of(target) == file_of(sq) + n * file_step(dir)
    &&& rank_of(target) == rank_of(sq) + n * rank_step(dir)
}

/// A move leaves from `sq` and ends on another square of the board.
pub open spec fn leaves_from(m: Move, sq: int) -> bool {
    m.start as int == sq && m.on_board() && m.target != m.start
}

proof fn lemma_ray_moves_on_ray(
    p: Position,
    start: int,
    piece: Piece,
    dir: int,
    cur: int,
    left: int,
    done: int,
    i: int,
)
    requires
        on_board(start),
        0 <= dir < 8,
        done >= 0,
        on_ray(start, dir, done, cur),
        0 <= left <= edge_distance(cur, dir),
        0 <= i < ray_moves(p, start, piece, dir, cur, left).len(),
    ensures
        ray_moves(p, start, piece, dir, cur, left)[i].start as int == start,
        on_ray(start, dir, done + i + 1, ray_moves(p, start, piece, dir, cur, left)[i].target as int),
        i + 1 <= left,
    decreases left,
{
    lemma_one_step(cur, dir);
    let target = cur + offset_of(dir);
    assert((done + 1) * file_step(dir) == done * file_step(dir) + file_step(dir))
        by (nonlinear_arith);
    assert((done + 1) * rank_step(dir) == done * rank_step(dir) + rank_step(dir))
        by (nonlinear_arith);
    assert(on_ray(start, dir, done + 1, target));
    if i > 0 {
        lemma_ray_moves_on_ray(p, start, piece, dir, target, left - 1, done + 1, i - 1);
    }
}

/// A square reached by `n >= 1` steps in a direction is another square.
proof fn lemma_on_ray_elsewhere(sq: int, dir: int, n: int, target: int)
    requires
        0 <= dir < 8,
        n >= 1,
        on_ray(sq, dir, n, target),
    ensures
        target != sq,
{
    assert(file_step(dir) != 0 || rank_step(dir) != 0);
    assert(file_step(dir) != 0 ==> n * file_step(dir) != 0) by (nonlinear_arith)
        requires
            n >= 1,
    ;
    assert(rank_step(dir) != 0 ==> n * rank_step(dir) != 0) by (nonlinear_arith)
        requires
            n >= 1,
    ;
}

proof fn lemma_sliding_from_bounded(p: Position, sq: int, piece: Piece, from: int, i: int)
    requires
        on_board(sq),
        0 <= from,
        0 <= i < sliding_from(p, sq, piece, from).len(),
    ensures
        sliding_from(p, sq, piece, from)[i].start as int == sq,
        exists|dir: int, n: int|
            from <= dir < end_direction(piece.kind) && 1 <= n <= ray_reach(piece.kind, sq, dir)
                && #[trigger] on_ray(sq, dir, n, sliding_from(p, sq, piece, from)[i].target as int),
    decreases 8 - from,
{
    let reach = ray_reach(piece.kind, sq, from);
    let ray = ray_moves(p, sq, piece, from, sq, reach);
    assert(0 * file_step(from) == 0 && 0 * rank_step(from) == 0);
    let all = sliding_from(p, sq, piece, from);
    assert(from < end_direction(piece.kind));
    assert(all == ray + sliding_from(p, sq, piece, from + 1));
    if i < ray.len() {
        lemma_ray_moves_on_ray(p, sq, piece, from, sq, reach, 0, i);
        assert(all[i] == ray[i]);
        assert(1 <= i + 1 <= reach);
        assert(on_ray(sq, from, i + 1, all[i].target as int));
    } else {
        lemma_sliding_from_bounded(p, sq, piece, from + 1, i - ray.len());
        let m = sliding_from(p, sq, piece, from + 1)[i - ray.len()];
        assert(all[i] == m);
        let (dir, n) = choose|dir: int, n: int|
            from + 1 <= dir < end_direction(piece.kind) && 1 <= n <= ray_reach(piece.kind, sq, dir)
                && #[trigger] on_ray(sq, dir, n, m.target as int);
        assert(on_ray(sq, dir, n, all[i].target as int));
    }
}

/// The files and the ranks of two squares lie no further apart than
/// `reach`.
pub open spec fn within_distance(sq: int, target: int, reach: int) -> bool {
    &&& -reach <= file_of(target) - file_of(sq) <= reach
    &&& -reach <= rank_of(target) - rank_of(sq) <= reach
}

/// The move starts on `sq`, and in one of the directions of the piece its
/// target lies no further from `sq`, by files and by ranks, than the table
/// says the edge is.
pub open spec fn within_table(m: Move, sq: int, kind: PieceKind, table: [[u8; 8]; 64]) -> bool {
    &&& m.start as int == sq
    &&& exists|dir: int|
        first_direction(kind) <= dir < end_direction(kind) && #[trigger] within_distance(
            sq,
            m.target as int,
            table[sq][dir] as int,
        )
}

/// No sliding move leaves its ray: every move of a bishop, rook, queen or
/// king starts on the piece's square and ends `n` steps away in one of the
/// piece's directions, where `n` is at least one and at most the distance
/// from the start to the edge in that direction. So neither the files nor
/// the ranks of the two squares lie further apart than that distance.
pub proof fn lemma_sliding_moves_bounded(p: Position, sq: int, piece: Piece, i: int)
    requires
        on_board(sq),
        0 <= i < sliding_moves(p, sq, piece).len(),
    ensures
        sliding_moves(p, sq, piece)[i].start as int == sq,
        exists|dir: int, n: int|
            first_direction(piece.kind) <= dir < end_direction(piece.kind) && 1 <= n
                <= edge_distance(sq, dir) && within_distance(
                sq,
                sliding_moves(p, sq, piece)[i].target as int,
                edge_distance(sq, dir),
            ) && #[trigger] on_ray(sq, dir, n, sliding_moves(p, sq, piece)[i].target as int),
{
    let first = first_direction(piece.kind);
    lemma_sliding_from_bounded(p, sq, piece, first, i);
    let t = sliding_moves(p, sq, piece)[i].target as int;
    let (dir, n) = choose|dir: int, n: int|
        first <= dir < end_direction(piece.kind) && 1 <= n <= ray_reach(piece.kind, sq, dir)
            && #[trigger] on_ray(sq, dir, n, t);
    assert(-n <= n * file_step(dir) <= n) by (nonlinear_arith)
        requires
            n >= 1,
            -1 <= file_step(dir) <= 1,
    ;
    assert(-n <= n * rank_step(dir) <= n) by (nonlinear_arith)
        requires
            n >= 1,
            -1 <= rank_step(dir) <= 1,
    ;
    assert(on_ray(sq, dir, n, t));
}

/// What the distances of a table allow, every sliding move keeps to, if the
/// table holds the distances to the edge.
pub proof fn lemma_sliding_moves_within_table(
    p: Position,
    sq: int,
    piece: Piece,
    table: [[u8; 8]; 64],
    i: int,
)
    requires
        on_board(sq),
        is_edge_table(table),
        0 <= i < sliding_moves(p, sq, piece).len(),
    ensures
        within_table(sliding_moves(p, sq, piece)[i], sq, piece.kind, table),
{
    lemma_sliding_moves_bounded(p, sq, piece, i);
    let t = sliding_moves(p, sq, piece)[i].target as int;
    let (dir, n) = choose|dir: int, n: int|
        first_direction(piece.kind) <= dir < end_direction(piece.kind) && 1 <= n <= edge_distance(
            sq,
            dir,
        ) && within_distance(sq, t, edge_distance(sq, dir)) && #[trigger] on_ray(sq, dir, n, t);
    assert(table[sq][dir] as int == edge_distance(sq, dir));
    assert(within_distance(sq, t, table[sq][dir] as int));
}

/// Every sliding move leaves from the piece's square and ends on another
/// square of the board.
pub proof fn lemma_sliding_moves_sound(p: Position, sq: int, piece: Piece, i: int)
    requires
        on_board(sq),
        0 <= i < sliding_moves(p, sq, piece).len(),
    ensures
        leaves_from(sliding_moves(p, sq, piece)[i], sq),
{
    lemma_sliding_moves_bounded(p, sq, piece, i);
    let t = sliding_moves(p, sq, piece)[i].target as int;
    let (dir, n) = choose|dir: int, n: int|
        first_direction(piece.kind) <= dir < end_direction(piece.kind) && 1 <= n <= edge_distance(
            sq,
            dir,
        ) && #[trigger] on_ray(sq, dir, n, t);
    lemma_on_ray_elsewhere(sq, dir, n, t);
}

proof fn lemma_knight_from_sound(p: Position, sq: int, piece: Piece, from: int, i: int)
    requires
        on_board(sq),
        0 <= from,
        0 <= i < knight_from(p, sq, piece, from).len(),
    ensures
        leaves_from(knight_from(p, sq, piece, from)[i], sq),
    decreases 8 - from,
{
    let target = knight_target(sq, from);
    let fits = knight_fits(sq, from) && !allies(piece, p.squares[target]);
    if fits && i == 0 {
        assert(on_board(target));
        assert(target != sq);
    } else {
        lemma_knight_from_sound(p, sq, piece, from + 1, if fits { i - 1 } else { i });
    }
}

/// Every knight move leaves from the knight's square and ends on another
/// square of the board.
pub proof fn lemma_knight_moves_sound(p: Position, sq: int, piece: Piece, i: int)
    requires
        on_board(sq),
        0 <= i < knight_moves(p, sq, piece).len(),
    ensures
        leaves_from(knight_moves(p, sq, piece)[i], sq),
{
    lemma_knight_from_sound(p, sq, piece, 0, i);
}

/// Every move of a sequence leaves from `sq` and ends elsewhere on the
/// board.
pub open spec fn all_leave_from(moves: Seq<Move>, sq: int) -> bool {
    forall|i: int| 0 <= i < moves.len() ==> leaves_from(#[trigger] moves[i], sq)
}

proof fn lemma_all_leave_from_concat(a: Seq<Move>, b: Seq<Move>, sq: int)
    requires
        all_leave_from(a, sq),
        all_leave_from(b, sq),
    ensures
        all_leave_from(a + b, sq),
{
    assert forall|i: int| 0 <= i < (a + b).len() implies leaves_from(#[trigger] (a + b)[i], sq) by {
        if i < a.len() {
            assert((a + b)[i] == a[i]);
        } else {
            assert((a + b)[i] == b[i - a.len()]);
        }
    }
}

proof fn lemma_pawn_step_leaves(sq: int, dir: int, n: int)
    requires
        on_board(sq),
        0 <= dir < 8,
        1 <= n <= edge_distance(sq, dir),
    ensures
        leaves_from(move_to(sq, sq + n * offset_of(dir)), sq),
{
    lemma_step_stays_on_board(sq, dir, n);
}

/// Every pawn move leaves from the pawn's square and ends on another square
/// of the board.
pub proof fn lemma_pawn_moves_sound(p: Position, sq: int, piece: Piece, i: int)
    requires
        on_board(sq),
        0 <= i < pawn_moves(p, sq, piece).len(),
    ensures
        leaves_from(pawn_moves(p, sq, piece)[i], sq),
{
    let ahead = pawn_forward(piece.color);
    let left = pawn_attack_left(piece.color);
    let right = pawn_attack_right(piece.color);
    let one = move_if(pawn_can_push(p, sq, piece), move_to(sq, sq + offset_of(ahead)));
    let two = move_if(pawn_can_push_twice(p, sq, piece), move_to(sq, sq + 2 * offset_of(ahead)));
    let cap_l = move_if(pawn_can_capture(p, sq, piece, left), move_to(sq, sq + offset_of(left)));
    let cap_r = move_if(pawn_can_capture(p, sq, piece, right), move_to(sq, sq + offset_of(right)));
    let ep_l = move_if(
        pawn_can_take_en_passant(p, sq, piece, left),
        move_to(sq, sq + offset_of(left)),
    );
    let ep_r = move_if(
        pawn_can_take_en_passant(p, sq, piece, right),
        move_to(sq, sq + offset_of(right)),
    );
    assert(all_leave_from(one, sq)) by {
        if pawn_can_push(p, sq, piece) {
            lemma_pawn_step_leaves(sq, ahead, 1);
        }
    }
    assert(all_leave_from(two, sq)) by {
        if pawn_can_push_twice(p, sq, piece) {
            lemma_pawn_step_leaves(sq, ahead, 2);
        }
    }
    assert(all_leave_from(cap_l, sq) && all_leave_from(ep_l, sq)) by {
        if edge_distance(sq, left) >= 1 {
            lemma_pawn_step_leaves(sq, left, 1);
        }
    }
    assert(all_leave_from(cap_r, sq) && all_leave_from(ep_r, sq)) by {
        if edge_distance(sq, right) >= 1 {
            lemma_pawn_step_leaves(sq, right, 1);
        }
    }
    lemma_all_leave_from_concat(one, two, sq);
    lemma_all_leave_from_concat(one + two, cap_l, sq);
    lemma_all_leave_from_concat(one + two + cap_l, cap_r, sq);
    lemma_all_leave_from_concat(one + two + cap_l + cap_r, ep_l, sq);
    lemma_all_leave_from_concat(one + two + cap_l + cap_r + ep_l, ep_r, sq);
    assert(pawn_moves(p, sq, piece) == one + two + cap_l + cap_r + ep_l + ep_r);
}

/// Every move of a square leaves from that square, where a piece of the
/// side to move stands, and ends on another square of the board.
pub proof fn lemma_square_moves_sound(p: Position, sq: int, i: int)
    requires
        on_board(sq),
        0 <= i < square_moves(p, sq).len(),
    ensures
        leaves_from(square_moves(p, sq)[i], sq),
        p.squares[sq].kind != PieceKind::Empty,
        p.squares[sq].color == p.side,
{
    let piece = p.squares[sq];
    if piece.kind == PieceKind::Pawn {
        lemma_pawn_moves_sound(p, sq, piece, i);
    } else if piece.kind == PieceKind::Knight {
        lemma_knight_moves_sound(p, sq, piece, i);
    } else {
        lemma_sliding_moves_sound(p, sq, piece, i);
    }
}

proof fn lemma_candidates_from_sound(p: Position, from: int, i: int)
    requires
        0 <= from,
        0 <= i < candidates_from(p, from).len(),
    ensures
        candidates_from(p, from)[i].on_board(),
        candidates_from(p, from)[i].start != candidates_from(p, from)[i].target,
        p.squares[candidates_from(p, from)[i].start as int].kind != PieceKind::Empty,
        p.squares[candidates_from(p, from)[i].start as int].color == p.side,
    decreases 64 - from,
{
    let here = square_moves(p, from);
    if i < here.len() {
        lemma_square_moves_sound(p, from, i);
    } else {
        lemma_candidates_from_sound(p, from + 1, i - here.len());
    }
}

/// Every candidate move moves a piece of the side to move from one square
/// of the board to another.
pub proof fn lemma_candidates_sound(p: Position, i: int)
    requires
        0 <= i < candidates(p).len(),
    ensures
        candidates(p)[i].on_board(),
        candidates(p)[i].start != candidates(p)[i].target,
        p.squares[candidates(p)[i].start as int].kind != PieceKind::Empty,
        p.squares[candidates(p)[i].start as int].color == p.side,
{
    lemma_candidates_from_sound(p, 0, i);
}

proof fn lemma_filter_by_start(moves: Seq<Move>, from: int, square: u8)
    requires
        forall|i: int| 0 <= i < moves.len() ==> (#[trigger] moves[i]).start as int == from,
    ensures
        moves.filter(starts_on(square)) == if from == square as int {
            moves
        } else {
            Seq::<Move>::empty()
        },
    decreases moves.len(),
{
    reveal(Seq::filter);
    if moves.len() > 0 {
        let front = moves.drop_last();
        lemma_filter_by_start(front, from, square);
        assert(starts_on(square)(moves.last()) == (from == square as int));
        if from == square as int {
            assert(front.push(moves.last()) =~= moves);
        }
    }
}

proof fn lemma_candidates_from_by_start(p: Position, from: int, square: u8)
    requires
        0 <= from,
    ensures
        candidates_from(p, from).filter(starts_on(square)) == if from <= square < 64 {
            square_moves(p, square as int)
        } else {
            Seq::<Move>::empty()
        },
    decreases 64 - from,
{
    if from >= 64 {
        reveal(Seq::filter);
    } else {
        let here = square_moves(p, from);
        let rest = candidates_from(p, from + 1);
        assert forall|i: int| 0 <= i < here.len() implies (#[trigger] here[i]).start as int
            == from by {
            lemma_square_moves_sound(p, from, i);
        }
        lemma_filter_by_start(here, from, square);
        lemma_candidates_from_by_start(p, from + 1, square);
        Seq::filter_distributes_over_add(here, rest, starts_on(square));
        assert(here + Seq::<Move>::empty() =~= here);
        assert(Seq::<Move>::empty() + rest.filter(starts_on(square)) =~= rest.filter(
            starts_on(square),
        ));
    }
}

/// The candidate moves that start on a square are the moves of the piece
/// on that square, and off the board none starts.
pub proof fn lemma_candidates_by_start(p: Position, square: u8)
    ensures
        candidates(p).filter(starts_on(square)) == if square < 64 {
            square_moves(p, square as int)
        } else {
            Seq::<Move>::empty()
        },
{
    lemma_candidates_from_by_start(p, 0, square);
}

/// Taking back a candidate move restores the position exactly, every field
/// of it.
pub proof fn lemma_unmake_restores_candidate(p: Position, i: int)
    requires
        p.wf(),
        0 <= i < candidates(p).len(),
    ensures
        undo_move(apply_move(p, candidates(p)[i]), candidates(p)[i], undo_info(p, candidates(p)[i]))
            == p,
{
    lemma_candidates_sound(p, i);
    lemma_unmake_restores(p, candidates(p)[i]);
}

} // verus!
