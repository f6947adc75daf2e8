//! The board and its moves as text for a reader: a diagram of the squares
//! with the counters below it, and a line for a move.

use vstd::prelude::*;
use vstd::string::StringExecFns;
use crate::piece::{Color, Piece, piece_letter};
use crate::board::{Board, Move, Position};
use crate::fen_text::{decimal_text, square_name, write_decimal, write_square_name};

verus! {

/// A rank of the diagram from column `col` on: a bar before every square,
/// the letter of its piece, and a bar and a line break at the end.
pub open spec fn row_text(squares: Seq<Piece>, rank: int, col: int) -> Seq<char>
    decreases 8 - col,
{
    if col >= 8 {
        "|\n"@
    } else {
        "|"@ + seq![piece_letter(squares[8 * rank + col])] + row_text(squares, rank, col + 1)
    }
}

/// The diagram from `rank` down to the first rank: a rule above every rank
/// and below the last.
pub open spec fn rows_text(squares: Seq<Piece>, rank: int) -> Seq<char>
    decreases rank + 1,
{
    if rank < 0 {
        "-----------------\n"@
    } else {
        "-----------------\n"@ + row_text(squares, rank, 0) + rows_text(squares, rank - 1)
    }
}

/// The name of a side.
pub open spec fn side_name(c: Color) -> Seq<char> {
    match c {
        Color::White => "White"@,
        Color::Black => "Black"@,
    }
}

/// A truth value as a word.
pub open spec fn flag_text(flag: bool) -> Seq<char> {
    if flag {
        "true"@
    } else {
        "false"@
    }
}

/// The four castling rights as a list in brackets.
pub open spec fn rights_text(rights: Seq<bool>) -> Seq<char> {
    "["@ + flag_text(rights[0]) + ", "@ + flag_text(rights[1]) + ", "@ + flag_text(rights[2])
        + ", "@ + flag_text(rights[3]) + "]"@
}

/// The board as text: the diagram from the eighth rank down, then the move
/// number, the side to move, the castling rights and the plies since the
/// last pawn move or capture.
pub open spec fn board_text(p: Position) -> Seq<char> {
    rows_text(p.squares, 7) + "Move #"@ + decimal_text(p.move_nr) + "\n"@ + side_name(p.side)
        + " to move\nCastling rights [K,Q,k,q]: "@ + rights_text(p.castling)
        + "\nPlies since last pawn move or capture: "@ + decimal_text(p.plies)
}

/// A move as text: the letter of the piece that moves, and the name of the
/// square it moves to.
pub open spec fn move_line(p: Position, m: Move) -> Seq<char> {
    seq![piece_letter(p.squares[m.start as int])] + " to "@ + square_name(m.target as int)
}

/// Appends one rank of the diagram.
fn write_row(board: &Board, rank: usize, out: &mut String)
    requires
        rank < 8,
    ensures
        final(out)@ == old(out)@ + row_text(board@.squares, rank as int, 0),
{
    let ghost squares = board@.squares;
    let mut col: usize = 0;
    while col < 8
        invariant
            col <= 8,
            rank < 8,
            squares == board@.squares,
            out@ + row_text(squares, rank as int, col as int) == old(out)@ + row_text(
                squares,
                rank as int,
                0,
            ),
        decreases 8 - col,
    {
        let ghost before = out@;
        let ghost rest = row_text(squares, rank as int, col + 1);
        let piece = board.board[8 * rank + col];
        out.append("|");
        out.push(piece.letter());
        assert(out@ + rest =~= before + ("|"@ + seq![piece_letter(piece)] + rest));
        col = col + 1;
    }
    let ghost before = out@;
    out.append("|\n");
    assert(before + row_text(squares, rank as int, 8) =~= out@);
}

/// Appends a truth value as a word.
fn write_flag(flag: bool, out: &mut String)
    ensures
        final(out)@ == old(out)@ + flag_text(flag),
{
    if flag {
        out.append("true");
    } else {
        out.append("false");
    }
}

/// Appends the four castling rights as a list in brackets.
fn write_rights(rights: &[bool; 4], out: &mut String)
    ensures
        final(out)@ == old(out)@ + rights_text(rights@),
{
    out.append("[");
    write_flag(rights[0], out);
    out.append(", ");
    write_flag(rights[1], out);
    out.append(", ");
    write_flag(rights[2], out);
    out.append(", ");
    write_flag(rights[3], out);
    out.append("]");
    assert(final(out)@ =~= old(out)@ + rights_text(rights@));
}

impl Board {
    /// The board as text for a reader, see [`board_text`].
    pub fn render(&self) -> (text: String)
        ensures
            text@ == board_text(self@),
    {
        let ghost squares = self@.squares;
        let mut out = String::new();
        let mut left: usize = 8;
        assert(out@ + rows_text(squares, 7) =~= rows_text(squares, 7));
        while left > 0
            invariant
                left <= 8,
                squares == self@.squares,
                out@ + rows_text(squares, left - 1) == rows_text(squares, 7),
            decreases left,
        {
            let ghost before = out@;
            let ghost rest = rows_text(squares, left - 2);
            left = left - 1;
            out.append("-----------------\n");
            write_row(self, left, &mut out);
            assert(out@ + rest =~= before + ("-----------------\n"@ + row_text(
                squares,
                left as int,
                0,
            ) + rest));
        }
        out.append("-----------------\n");
        assert(out@ =~= rows_text(squares, 7));
        out.append("Move #");
        write_decimal(self.move_nr, &mut out);
        out.append("\n");
        match self.color_to_move {
            Color::White => out.append("White"),
            Color::Black => out.append("Black"),
        }
        out.append(" to move\nCastling rights [K,Q,k,q]: ");
        write_rights(&self.castling_rights, &mut out);
        out.append("\nPlies since last pawn move or capture: ");
        write_decimal(self.plies, &mut out);
        assert(out@ =~= board_text(self@));
        out
    }
}

/// A move as text for a reader, see [`move_line`].
pub fn move_text(board: &Board, m: &Move) -> (text: String)
    requires
        m.on_board(),
    ensures
        text@ == move_line(board@, *m),
{
    let mut out = String::new();
    out.push(board.board[m.start as usize].letter());
    out.append(" to ");
    write_square_name(m.target, &mut out);
    assert(out@ =~= move_line(board@, *m));
    out
}

} // verus!
