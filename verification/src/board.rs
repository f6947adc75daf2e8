//! The board, moves, and the make/unmake pair.

use vstd::prelude::*;
use crate::piece::{Color, Piece, PieceKind, empty_square};
use crate::geometry::{file_of, rank_of};

verus! {

/// A move from one square to another. It carries nothing else: what a move
/// captures is read off the board when the move is made.
#[derive(Clone, Copy, Debug, PartialEq, Eq, Structural)]
pub struct Move {
    pub start: u8,
    pub target: u8,
}

impl Move {
    /// Both squares of the move are squares of the board.
    pub open spec fn on_board(self) -> bool {
        self.start < 64 && self.target < 64
    }
}

/// What `make_move` hands back so that `unmake_move` can restore the board:
/// the piece that stood on the target square, whether the moved piece had
/// moved before, and the pawn that was taken en passant, if one was.
#[derive(Clone, Copy, Debug, PartialEq, Eq, Structural)]
pub struct UndoInfo {
    pub captured: Piece,
    pub has_moved_prev: bool,
    pub en_passant: Option<Piece>,
}

/// The position: 64 squares, the side to move, the four castling rights
/// (white king side, white queen side, black king side, black queen side),
/// the en-passant target square, the plies since the last pawn move or
/// capture, and the move number.
///
/// A board is changed in place and copied only where `clone` is called: a
/// search or a count works on the one board it is given and hands it back
/// as it was.
#[derive(Clone, Debug, PartialEq, Eq)]
pub struct Board {
    pub board: [Piece; 64],
    pub color_to_move: Color,
    pub castling_rights: [bool; 4],
    pub en_passant_target: Option<u8>,
    pub plies: u32,
    pub move_nr: u32,
}

/// The mathematical model of a [`Board`].
pub struct Position {
    pub squares: Seq<Piece>,
    pub side: Color,
    pub castling: Seq<bool>,
    pub en_passant: Option<u8>,
    pub plies: nat,
    pub move_nr: nat,
}

impl Position {
    /// The position has 64 squares and four castling rights.
    pub open spec fn wf(self) -> bool {
        self.squares.len() == 64 && self.castling.len() == 4
    }
}

impl View for Board {
    type V = Position;

    open spec fn view(&self) -> Position {
        Position {
            squares: self.board@,
            side: self.color_to_move,
            castling: self.castling_rights@,
            en_passant: self.en_passant_target,
            plies: self.plies as nat,
            move_nr: self.move_nr as nat,
        }
    }
}

/// The direction in which the pawns of a side advance, in ranks.
pub open spec fn forward_step(c: Color) -> int {
    match c {
        Color::White => 1,
        Color::Black => -1,
    }
}

/// The square of the pawn that an en-passant capture takes: on the rank of
/// the start square and the file of the target square.
pub open spec fn en_passant_victim_square(m: Move) -> int {
    8 * rank_of(m.start as int) + file_of(m.target as int)
}

/// The move is an en-passant capture: a pawn steps diagonally forward onto
/// an empty square, past an opposing pawn that is marked as open to it.
pub open spec fn is_en_passant_capture(p: Position, m: Move) -> bool {
    let mover = p.squares[m.start as int];
    let victim = p.squares[en_passant_victim_square(m)];
    &&& mover.kind == PieceKind::Pawn
    &&& p.squares[m.target as int].kind == PieceKind::Empty
    &&& rank_of(m.target as int) == rank_of(m.start as int) + forward_step(mover.color)
    &&& (file_of(m.target as int) == file_of(m.start as int) + 1 || file_of(m.target as int)
        == file_of(m.start as int) - 1)
    &&& victim.kind == PieceKind::Pawn
    &&& victim.color != mover.color
    &&& victim.weak_to_en_passant
}

/// What making a move records for its undoing.
pub open spec fn undo_info(p: Position, m: Move) -> UndoInfo {
    UndoInfo {
        captured: p.squares[m.target as int],
        has_moved_prev: p.squares[m.start as int].has_moved,
        en_passant: if is_en_passant_capture(p, m) {
            Some(p.squares[en_passant_victim_square(m)])
        } else {
            None
        },
    }
}

/// The squares after a move: the piece of the start square stands on the
/// target square, marked as moved; the start square is cleared; a pawn taken
/// en passant leaves its square.
pub open spec fn squares_after(p: Position, m: Move) -> Seq<Piece> {
    let mover = p.squares[m.start as int];
    let moved = Piece { has_moved: true, ..mover };
    let plain = p.squares.update(m.target as int, moved).update(m.start as int, empty_square());
    if is_en_passant_capture(p, m) {
        plain.update(en_passant_victim_square(m), empty_square())
    } else {
        plain
    }
}

/// The position after a move: the squares change as [`squares_after`] says,
/// the other side is to move, and the move number grows by one.
pub open spec fn apply_move(p: Position, m: Move) -> Position {
    Position {
        squares: squares_after(p, m),
        side: p.side.flipped(),
        move_nr: p.move_nr + 1,
        ..p
    }
}

/// The position before a move, from the position after it and what the
/// making recorded.
pub open spec fn undo_move(p: Position, m: Move, u: UndoInfo) -> Position {
    let moved = p.squares[m.target as int];
    let restored = Piece { has_moved: u.has_moved_prev, ..moved };
    let plain = p.squares.update(m.start as int, restored).update(m.target as int, u.captured);
    Position {
        squares: match u.en_passant {
            Some(victim) => plain.update(en_passant_victim_square(m), victim),
            None => plain,
        },
        side: p.side.flipped(),
        move_nr: (p.move_nr - 1) as nat,
        ..p
    }
}

/// Whether the game has ended in this position. No rule of the engine ends
/// a game, so it never has.
pub open spec fn game_is_over(p: Position) -> bool {
    false
}

impl Board {
    /// A board without pieces: White to move, no castling rights, no
    /// en-passant target, both counters at zero.
    pub fn empty() -> (b: Board)
        ensures
            b@.wf(),
            forall|i: int| 0 <= i < 64 ==> b@.squares[i] == empty_square(),
            b@.side == Color::White,
            forall|i: int| 0 <= i < 4 ==> !b@.castling[i],
            b@.en_passant.is_none(),
            b@.plies == 0,
            b@.move_nr == 0,
    {
        Board {
            board: [Piece::empty();64],
            color_to_move: Color::White,
            castling_rights: [false;4],
            en_passant_target: None,
            plies: 0,
            move_nr: 0,
        }
    }

    /// Whether the game has ended, see [`game_is_over`].
    pub fn game_over(&self) -> (over: bool)
        ensures
            over == game_is_over(self@),
    {
        false
    }

    /// Makes a move on the board and returns what is needed to take it back.
    pub fn make_move(&mut self, m: &Move) -> (undo: UndoInfo)
        requires
            m.on_board(),
            old(self).move_nr < u32::MAX,
        ensures
            final(self)@ == apply_move(old(self)@, *m),
            undo == undo_info(old(self)@, *m),
    {
        let start = m.start as usize;
        let target = m.target as usize;
        let captured = self.board[target];
        let mover = self.board[start];
        let victim_square = (start / 8) * 8 + target % 8;
        let victim = self.board[victim_square];
        let start_rank = start / 8;
        let target_rank = target / 8;
        let start_file = start % 8;
        let target_file = target % 8;
        let forward = match mover.color {
            Color::White => target_rank == start_rank + 1,
            Color::Black => target_rank + 1 == start_rank,
        };
        let beside = target_file == start_file + 1 || target_file + 1 == start_file;
        let takes_en_passant = mover.kind == PieceKind::Pawn && captured.kind == PieceKind::Empty
            && forward && beside && victim.kind == PieceKind::Pawn && victim.color != mover.color
            && victim.weak_to_en_passant;
        let moved = Piece {
            kind: mover.kind,
            color: mover.color,
            weak_to_en_passant: mover.weak_to_en_passant,
            has_moved: true,
        };
        self.board[target] = moved;
        self.board[start] = Piece::empty();
        if takes_en_passant {
            self.board[victim_square] = Piece::empty();
        }
        self.color_to_move = self.color_to_move.flip();
        self.move_nr = self.move_nr + 1;
        assert(final(self)@.squares =~= squares_after(old(self)@, *m));
        UndoInfo {
            captured,
            has_moved_prev: mover.has_moved,
            en_passant: if takes_en_passant {
                Some(victim)
            } else {
                None
            },
        }
    }

    /// Takes back a move that `make_move` made.
    pub fn unmake_move(&mut self, m: &Move, undo: &UndoInfo)
        requires
            m.on_board(),
            old(self).move_nr > 0,
        ensures
            final(self)@ == undo_move(old(self)@, *m, *undo),
    {
        let start = m.start as usize;
        let target = m.target as usize;
        let moved = self.board[target];
        let restored = Piece {
            kind: moved.kind,
            color: moved.color,
            weak_to_en_passant: moved.weak_to_en_passant,
            has_moved: undo.has_moved_prev,
        };
        self.board[start] = restored;
        self.board[target] = undo.captured;
        match undo.en_passant {
            Some(victim) => {
                let victim_square = (start / 8) * 8 + target % 8;
                self.board[victim_square] = victim;
            },
            None => {},
        }
        self.color_to_move = self.color_to_move.flip();
        self.move_nr = self.move_nr - 1;
        assert(final(self)@.squares =~= undo_move(old(self)@, *m, *undo).squares);
    }
}

/// Taking back a move restores the position exactly: every square with its
/// flags, the side to move, and the move number.
pub proof fn lemma_unmake_restores(p: Position, m: Move)
    requires
        p.wf(),
        m.on_board(),
        m.start != m.target,
    ensures
        undo_move(apply_move(p, m), m, undo_info(p, m)) == p,
{
    let q = apply_move(p, m);
    let r = undo_move(q, m, undo_info(p, m));
    let v = en_passant_victim_square(m);
    if is_en_passant_capture(p, m) {
        assert(v != m.start as int);
        assert(v != m.target as int);
        assert(0 <= v < 64);
    }
    assert(r.squares =~= p.squares);
}

/// Two boards with the same model are the same board.
pub proof fn lemma_view_injective(a: Board, b: Board)
    requires
        a@ == b@,
    ensures
        a == b,
{
    assert(a.board =~= b.board);
    assert(a.castling_rights =~= b.castling_rights);
}

} // verus!
