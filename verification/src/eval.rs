//! Material evaluation: the weighted piece count of White minus that of
//! Black. Nothing but material is scored.

use vstd::prelude::*;
use crate::piece::{Color, Piece, PieceKind};
use crate::board::{Board, Position};
use crate::geometry::{file_of, rank_of};

verus! {

pub const PAWN_VALUE: i32 = 10;

pub const KNIGHT_VALUE: i32 = 30;

pub const BISHOP_VALUE: i32 = 30;

pub const ROOK_VALUE: i32 = 50;

pub const QUEEN_VALUE: i32 = 90;

/// Added to the material of a side that has no pawn.
pub const NO_PAWNS_PENALTY: i32 = -5;

/// Added to the material of a side that has exactly two bishops.
pub const BISHOP_PAIR: i32 = 5;

/// Added to the material of a side that has exactly two knights.
pub const KNIGHT_PAIR: i32 = -1;

/// Added to the material of a side that has exactly two rooks.
pub const ROOK_PAIR: i32 = -1;

/// No evaluation is further from zero than this.
pub const SCORE_BOUND: i32 = 13452;

/// One if the condition holds, else zero.
pub open spec fn one_if(cond: bool) -> nat {
    if cond {
        1
    } else {
        0
    }
}

/// The piece is of the given kind and side.
pub open spec fn is_piece(piece: Piece, kind: PieceKind, color: Color) -> bool {
    piece.kind == kind && piece.color == color
}

/// The number of pieces of a kind and side on the first `n` squares.
pub open spec fn count_upto(squares: Seq<Piece>, kind: PieceKind, color: Color, n: int) -> nat
    decreases n,
{
    if n <= 0 {
        0
    } else {
        count_upto(squares, kind, color, n - 1) + one_if(is_piece(squares[n - 1], kind, color))
    }
}

/// The number of pieces of a kind and side on the board.
pub open spec fn piece_count(p: Position, kind: PieceKind, color: Color) -> nat {
    count_upto(p.squares, kind, color, 64)
}

/// `bonus` if the count is exactly `n`, else nothing.
pub open spec fn when_exactly(count: nat, n: nat, bonus: int) -> int {
    if count == n {
        bonus
    } else {
        0
    }
}

/// The material of a side: ten for each pawn, thirty for each knight and
/// bishop, fifty for each rook, ninety for each queen; five less without a
/// pawn, five more with exactly two bishops, one less with exactly two
/// knights, one less with exactly two rooks.
pub open spec fn material_of(p: Position, color: Color) -> int {
    let pawns = piece_count(p, PieceKind::Pawn, color);
    let knights = piece_count(p, PieceKind::Knight, color);
    let bishops = piece_count(p, PieceKind::Bishop, color);
    let rooks = piece_count(p, PieceKind::Rook, color);
    let queens = piece_count(p, PieceKind::Queen, color);
    10 * pawns + when_exactly(pawns, 0, -5) + 30 * knights + when_exactly(knights, 2, -1) + 30
        * bishops + when_exactly(bishops, 2, 5) + 50 * rooks + when_exactly(rooks, 2, -1) + 90
        * queens
}

/// The evaluation of a position: the material of White minus the material
/// of Black.
pub open spec fn evaluation(p: Position) -> int {
    material_of(p, Color::White) - material_of(p, Color::Black)
}

/// No more pieces stand on `n` squares than there are squares.
pub proof fn lemma_count_bounded(squares: Seq<Piece>, kind: PieceKind, color: Color, n: int)
    requires
        0 <= n,
    ensures
        count_upto(squares, kind, color, n) <= n,
    decreases n,
{
    if n > 0 {
        lemma_count_bounded(squares, kind, color, n - 1);
    }
}

/// The material of a side lies between -7 and 13445.
pub proof fn lemma_material_bounded(p: Position, color: Color)
    ensures
        -7 <= material_of(p, color) <= 13445,
{
    lemma_count_bounded(p.squares, PieceKind::Pawn, color, 64);
    lemma_count_bounded(p.squares, PieceKind::Knight, color, 64);
    lemma_count_bounded(p.squares, PieceKind::Bishop, color, 64);
    lemma_count_bounded(p.squares, PieceKind::Rook, color, 64);
    lemma_count_bounded(p.squares, PieceKind::Queen, color, 64);
}

/// No evaluation is further from zero than `SCORE_BOUND`.
pub proof fn lemma_evaluation_bounded(p: Position)
    ensures
        -SCORE_BOUND <= evaluation(p) <= SCORE_BOUND,
{
    lemma_material_bounded(p, Color::White);
    lemma_material_bounded(p, Color::Black);
}

/// Counts the pieces of a kind and side on the board.
pub fn count_pieces(board: &Board, kind: PieceKind, color: Color) -> (count: u32)
    ensures
        count == piece_count(board@, kind, color),
        count <= 64,
{
    let mut count: u32 = 0;
    let mut i: usize = 0;
    while i < 64
        invariant
            i <= 64,
            count <= i,
            count == count_upto(board@.squares, kind, color, i as int),
        decreases 64 - i,
    {
        let piece = board.board[i];
        if piece.kind == kind && piece.color == color {
            count = count + 1;
        }
        i = i + 1;
    }
    count
}

/// The material of a side, see [`material_of`].
pub fn material(board: &Board, color: Color) -> (score: i32)
    ensures
        score == material_of(board@, color),
{
    let pawns = count_pieces(board, PieceKind::Pawn, color) as i32;
    let knights = count_pieces(board, PieceKind::Knight, color) as i32;
    let bishops = count_pieces(board, PieceKind::Bishop, color) as i32;
    let rooks = count_pieces(board, PieceKind::Rook, color) as i32;
    let queens = count_pieces(board, PieceKind::Queen, color) as i32;
    let mut score: i32 = 0;
    score = score + pawns * PAWN_VALUE + if pawns == 0 { NO_PAWNS_PENALTY } else { 0 };
    score = score + knights * KNIGHT_VALUE + if knights == 2 { KNIGHT_PAIR } else { 0 };
    score = score + bishops * BISHOP_VALUE + if bishops == 2 { BISHOP_PAIR } else { 0 };
    score = score + rooks * ROOK_VALUE + if rooks == 2 { ROOK_PAIR } else { 0 };
    score = score + queens * QUEEN_VALUE;
    score
}

/// Evaluates the position from White's side: positive where White has more
/// material.
pub fn evaluate(board: &Board) -> (score: i32)
    ensures
        score == evaluation(board@),
        -SCORE_BOUND <= score <= SCORE_BOUND,
{
    proof {
        lemma_material_bounded(board@, Color::White);
        lemma_material_bounded(board@, Color::Black);
    }
    let mat_white = material(board, Color::White);
    let mat_black = material(board, Color::Black);
    mat_white - mat_black
}

/// The square that mirrors a square across the middle of the board: the
/// same file, the ranks counted from the other side.
pub open spec fn mirror_square(sq: int) -> int {
    8 * (7 - rank_of(sq)) + file_of(sq)
}

/// The same piece of the other side.
pub open spec fn recolored(piece: Piece) -> Piece {
    Piece { color: piece.color.flipped(), ..piece }
}

/// The colour-mirrored counterpart of a position: the ranks are mirrored and
/// every piece changes sides, and so do the side to move, the castling
/// rights and the en-passant target.
pub open spec fn mirrored(p: Position) -> Position {
    Position {
        squares: Seq::new(64, |i: int| recolored(p.squares[mirror_square(i)])),
        side: p.side.flipped(),
        castling: seq![p.castling[2], p.castling[3], p.castling[0], p.castling[1]],
        en_passant: match p.en_passant {
            Some(sq) => if sq < 64 {
                Some(mirror_square(sq as int) as u8)
            } else {
                Some(sq)
            },
            None => None,
        },
        ..p
    }
}

/// The pieces of a kind and side on one rank.
pub open spec fn rank_count(squares: Seq<Piece>, kind: PieceKind, color: Color, rank: int) -> nat {
    one_if(is_piece(squares[8 * rank], kind, color)) + one_if(
        is_piece(squares[8 * rank + 1], kind, color),
    ) + one_if(is_piece(squares[8 * rank + 2], kind, color)) + one_if(
        is_piece(squares[8 * rank + 3], kind, color),
    ) + one_if(is_piece(squares[8 * rank + 4], kind, color)) + one_if(
        is_piece(squares[8 * rank + 5], kind, color),
    ) + one_if(is_piece(squares[8 * rank + 6], kind, color)) + one_if(
        is_piece(squares[8 * rank + 7], kind, color),
    )
}

proof fn lemma_count_rank(squares: Seq<Piece>, kind: PieceKind, color: Color, rank: int)
    requires
        0 <= rank < 8,
    ensures
        count_upto(squares, kind, color, 8 * rank + 8) == count_upto(squares, kind, color, 8 * rank)
            + rank_count(squares, kind, color, rank),
{
    reveal_with_fuel(count_upto, 9);
}

proof fn lemma_count_by_ranks(squares: Seq<Piece>, kind: PieceKind, color: Color)
    ensures
        count_upto(squares, kind, color, 64) == rank_count(squares, kind, color, 0) + rank_count(
            squares,
            kind,
            color,
            1,
        ) + rank_count(squares, kind, color, 2) + rank_count(squares, kind, color, 3) + rank_count(
            squares,
            kind,
            color,
            4,
        ) + rank_count(squares, kind, color, 5) + rank_count(squares, kind, color, 6) + rank_count(
            squares,
            kind,
            color,
            7,
        ),
{
    lemma_count_rank(squares, kind, color, 0);
    lemma_count_rank(squares, kind, color, 1);
    lemma_count_rank(squares, kind, color, 2);
    lemma_count_rank(squares, kind, color, 3);
    lemma_count_rank(squares, kind, color, 4);
    lemma_count_rank(squares, kind, color, 5);
    lemma_count_rank(squares, kind, color, 6);
    lemma_count_rank(squares, kind, color, 7);
}

proof fn lemma_rank_count_mirrored(p: Position, kind: PieceKind, color: Color, rank: int)
    requires
        p.wf(),
        0 <= rank < 8,
    ensures
        rank_count(mirrored(p).squares, kind, color, rank) == rank_count(
            p.squares,
            kind,
            color.flipped(),
            7 - rank,
        ),
{
    let ms = mirrored(p).squares;
    assert forall|file: int| 0 <= file < 8 implies is_piece(
        #[trigger] ms[8 * rank + file],
        kind,
        color,
    ) == is_piece(p.squares[8 * (7 - rank) + file], kind, color.flipped()) by {
        assert(mirror_square(8 * rank + file) == 8 * (7 - rank) + file);
    }
    assert(is_piece(ms[8 * rank], kind, color) == is_piece(ms[8 * rank + 0], kind, color));
    assert(is_piece(p.squares[8 * (7 - rank)], kind, color.flipped()) == is_piece(
        p.squares[8 * (7 - rank) + 0],
        kind,
        color.flipped(),
    ));
}

/// A position holds as many pieces of a kind and side as its mirrored
/// counterpart holds of that kind and the other side.
pub proof fn lemma_piece_count_mirrored(p: Position, kind: PieceKind, color: Color)
    requires
        p.wf(),
    ensures
        piece_count(mirrored(p), kind, color) == piece_count(p, kind, color.flipped()),
{
    lemma_count_by_ranks(mirrored(p).squares, kind, color);
    lemma_count_by_ranks(p.squares, kind, color.flipped());
    lemma_rank_count_mirrored(p, kind, color, 0);
    lemma_rank_count_mirrored(p, kind, color, 1);
    lemma_rank_count_mirrored(p, kind, color, 2);
    lemma_rank_count_mirrored(p, kind, color, 3);
    lemma_rank_count_mirrored(p, kind, color, 4);
    lemma_rank_count_mirrored(p, kind, color, 5);
    lemma_rank_count_mirrored(p, kind, color, 6);
    lemma_rank_count_mirrored(p, kind, color, 7);
}

/// The material of a side in the mirrored position is the material of the
/// other side in the position itself.
pub proof fn lemma_material_mirrored(p: Position, color: Color)
    requires
        p.wf(),
    ensures
        material_of(mirrored(p), color) == material_of(p, color.flipped()),
{
    lemma_piece_count_mirrored(p, PieceKind::Pawn, color);
    lemma_piece_count_mirrored(p, PieceKind::Knight, color);
    lemma_piece_count_mirrored(p, PieceKind::Bishop, color);
    lemma_piece_count_mirrored(p, PieceKind::Rook, color);
    lemma_piece_count_mirrored(p, PieceKind::Queen, color);
}

/// The evaluation is symmetric: a position and its colour-mirrored
/// counterpart have evaluations that are each other's negation.
pub proof fn lemma_evaluation_mirrored(p: Position)
    requires
        p.wf(),
    ensures
        evaluation(mirrored(p)) == -evaluation(p),
{
    lemma_material_mirrored(p, Color::White);
    lemma_material_mirrored(p, Color::Black);
}

impl Board {
    /// The colour-mirrored counterpart of the board, see [`mirrored`].
    pub fn mirror(&self) -> (other: Board)
        ensures
            other@ == mirrored(self@),
    {
        let mut squares = [Piece::empty();64];
        let mut i: usize = 0;
        while i < 64
            invariant
                i <= 64,
                forall|j: int|
                    0 <= j < i ==> #[trigger] squares[j] == recolored(
                        self.board[mirror_square(j)],
                    ),
            decreases 64 - i,
        {
            let from = 8 * (7 - i / 8) + i % 8;
            let piece = self.board[from];
            squares[i] = Piece {
                kind: piece.kind,
                color: piece.color.flip(),
                weak_to_en_passant: piece.weak_to_en_passant,
                has_moved: piece.has_moved,
            };
            i = i + 1;
        }
        let en_passant_target = match self.en_passant_target {
            Some(sq) => if sq < 64 {
                Some(8 * (7 - sq / 8) + sq % 8)
            } else {
                Some(sq)
            },
            None => None,
        };
        let other = Board {
            board: squares,
            color_to_move: self.color_to_move.flip(),
            castling_rights: [
                self.castling_rights[2],
                self.castling_rights[3],
                self.castling_rights[0],
                self.castling_rights[1],
            ],
            en_passant_target,
            plies: self.plies,
            move_nr: self.move_nr,
        };
        assert(other@.squares =~= mirrored(self@).squares);
        assert(other@.castling =~= mirrored(self@).castling);
        other
    }
}

} // verus!
