//! Writing positions, squares and pieces as text.

use vstd::prelude::*;
use crate::piece::{Color, Piece, PieceKind, piece_letter};
use crate::board::{Board, Position};
use crate::geometry::{file_of, rank_of};
use crate::fen::{
    ParseError, digit_char, is_file_letter, is_rank_digit, square_of_name,
};

verus! {

/// `String::push` of the standard library appends the character to the end
/// of the string: the text afterwards is the text before, followed by the
/// character.
pub assume_specification[ String::push ](s: &mut String, ch: char)
    ensures
        final(s)@ == old(s)@.push(ch),
;

/// The digit of a run of empty squares, or nothing where the run is empty.
pub open spec fn run_text(run: int) -> Seq<char> {
    if run > 0 {
        seq![digit_char(run)]
    } else {
        Seq::empty()
    }
}

/// One rank of the placement from `file` on, after `run` empty squares that
/// are not yet written: a letter for each piece, and for each run of empty
/// squares its length as a digit.
pub open spec fn rank_text(squares: Seq<Piece>, rank: int, file: int, run: int) -> Seq<char>
    decreases 8 - file,
{
    if file >= 8 {
        run_text(run)
    } else if squares[8 * rank + file].kind == PieceKind::Empty {
        rank_text(squares, rank, file + 1, run + 1)
    } else {
        run_text(run) + seq![piece_letter(squares[8 * rank + file])] + rank_text(
            squares,
            rank,
            file + 1,
            0,
        )
    }
}

/// The placement of the ranks from `rank` down to the first, separated by
/// `/`.
pub open spec fn ranks_text(squares: Seq<Piece>, rank: int) -> Seq<char>
    decreases rank,
{
    if rank <= 0 {
        rank_text(squares, 0, 0, 0)
    } else {
        rank_text(squares, rank, 0, 0) + seq!['/'] + ranks_text(squares, rank - 1)
    }
}

/// The placement field: the eight ranks from the eighth down.
pub open spec fn placement_text(squares: Seq<Piece>) -> Seq<char> {
    ranks_text(squares, 7)
}

/// The letter of a side: `w` or `b`.
pub open spec fn side_char(c: Color) -> char {
    match c {
        Color::White => 'w',
        Color::Black => 'b',
    }
}

/// One letter if the right is held, else nothing.
pub open spec fn right_text(held: bool, letter: char) -> Seq<char> {
    if held {
        seq![letter]
    } else {
        Seq::empty()
    }
}

/// The castling field: the letters of the rights held, in the order `KQkq`,
/// or `-` where none is held.
pub open spec fn castling_text(rights: Seq<bool>) -> Seq<char> {
    if !rights[0] && !rights[1] && !rights[2] && !rights[3] {
        seq!['-']
    } else {
        right_text(rights[0], 'K') + right_text(rights[1], 'Q') + right_text(rights[2], 'k')
            + right_text(rights[3], 'q')
    }
}

/// The letter of a square's file, `a` to `h`.
pub open spec fn file_char(sq: int) -> char {
    (file_of(sq) + 'a' as int) as char
}

/// The digit of a square's rank, `1` to `8`.
pub open spec fn rank_char(sq: int) -> char {
    (rank_of(sq) + '1' as int) as char
}

/// The name of a square: the letter of its file and the digit of its rank,
/// `a1` for square 0 and `h8` for square 63.
pub open spec fn square_name(sq: int) -> Seq<char> {
    seq![file_char(sq), rank_char(sq)]
}

/// The en-passant field: the name of the target square, or `-` where there
/// is none on the board.
pub open spec fn en_passant_text(target: Option<u8>) -> Seq<char> {
    match target {
        Some(sq) => if sq < 64 {
            square_name(sq as int)
        } else {
            seq!['-']
        },
        None => seq!['-'],
    }
}

/// A number in decimal digits, without leading zeros.
pub open spec fn decimal_text(n: nat) -> Seq<char>
    decreases n,
{
    if n < 10 {
        seq![digit_char(n as int)]
    } else {
        decimal_text(n / 10).push(digit_char((n % 10) as int))
    }
}

/// The text of a position: its six fields, separated by single blanks.
pub open spec fn fen_text(p: Position) -> Seq<char> {
    placement_text(p.squares) + seq![' ', side_char(p.side), ' '] + castling_text(p.castling)
        + seq![' '] + en_passant_text(p.en_passant) + seq![' '] + decimal_text(p.plies) + seq![' ']
        + decimal_text(p.move_nr)
}

/// The square that a name stands for, read from the first two characters of
/// a text: a file letter from `a` to `h`, then a rank digit from `1` to
/// `8`.
pub open spec fn named_square(name: Seq<char>) -> Result<usize, ParseError> {
    if name.len() < 2 {
        Err(ParseError::TruncatedField)
    } else if !is_file_letter(name[0]) {
        Err(ParseError::UnexpectedCharacter)
    } else if !is_rank_digit(name[1]) {
        Err(ParseError::UnexpectedCharacter)
    } else {
        Ok(square_of_name(name[0], name[1]) as usize)
    }
}

/// The digit of a number below ten.
fn digit_of(d: u32) -> (c: char)
    requires
        d < 10,
    ensures
        c == digit_char(d as int),
{
    if d == 0 {
        '0'
    } else if d == 1 {
        '1'
    } else if d == 2 {
        '2'
    } else if d == 3 {
        '3'
    } else if d == 4 {
        '4'
    } else if d == 5 {
        '5'
    } else if d == 6 {
        '6'
    } else if d == 7 {
        '7'
    } else if d == 8 {
        '8'
    } else {
        '9'
    }
}

/// The letter of a file.
fn letter_of_file(file: u8) -> (c: char)
    requires
        file < 8,
    ensures
        c as int == file + 'a' as int,
{
    if file == 0 {
        'a'
    } else if file == 1 {
        'b'
    } else if file == 2 {
        'c'
    } else if file == 3 {
        'd'
    } else if file == 4 {
        'e'
    } else if file == 5 {
        'f'
    } else if file == 6 {
        'g'
    } else {
        'h'
    }
}

/// Appends a number in decimal digits.
pub(crate) fn write_decimal(n: u32, out: &mut String)
    ensures
        final(out)@ == old(out)@ + decimal_text(n as nat),
    decreases n,
{
    if n < 10 {
        out.push(digit_of(n));
        assert(final(out)@ =~= old(out)@ + decimal_text(n as nat));
    } else {
        write_decimal(n / 10, out);
        out.push(digit_of(n % 10));
        assert(final(out)@ =~= old(out)@ + decimal_text(n as nat));
    }
}

/// Appends the name of a square.
pub(crate) fn write_square_name(index: u8, out: &mut String)
    requires
        index < 64,
    ensures
        final(out)@ == old(out)@ + square_name(index as int),
{
    out.push(letter_of_file(index % 8));
    out.push(digit_of((index / 8) as u32 + 1));
    assert(final(out)@ =~= old(out)@ + square_name(index as int));
}

/// Appends one rank of the placement.
fn write_rank(board: &Board, rank: usize, out: &mut String)
    requires
        rank < 8,
    ensures
        final(out)@ == old(out)@ + rank_text(board@.squares, rank as int, 0, 0),
{
    let ghost squares = board@.squares;
    let ghost r = rank as int;
    let mut file: usize = 0;
    let mut run: u32 = 0;
    while file < 8
        invariant
            file <= 8,
            run <= file,
            rank < 8,
            squares == board@.squares,
            r == rank as int,
            out@ + rank_text(squares, r, file as int, run as int) == old(out)@ + rank_text(
                squares,
                r,
                0,
                0,
            ),
        decreases 8 - file,
    {
        let piece = board.board[8 * rank + file];
        let ghost rest = rank_text(squares, r, file + 1, 0);
        let ghost before = out@;
        if piece.kind == PieceKind::Empty {
            run = run + 1;
        } else {
            if run > 0 {
                out.push(digit_of(run));
            }
            out.push(piece.letter());
            assert(out@ + rest =~= before + (run_text(run as int) + seq![piece_letter(piece)] + rest));
            run = 0;
        }
        file = file + 1;
    }
    let ghost before = out@;
    if run > 0 {
        out.push(digit_of(run));
    }
    assert(out@ =~= before + run_text(run as int));
}

/// Appends the placement field.
fn write_placement(board: &Board, out: &mut String)
    ensures
        final(out)@ == old(out)@ + placement_text(board@.squares),
{
    let ghost squares = board@.squares;
    let mut rank: usize = 7;
    while rank > 0
        invariant
            rank < 8,
            squares == board@.squares,
            out@ + ranks_text(squares, rank as int) == old(out)@ + placement_text(squares),
        decreases rank,
    {
        let ghost before = out@;
        let ghost rest = ranks_text(squares, rank - 1);
        write_rank(board, rank, out);
        out.push('/');
        assert(out@ + rest =~= before + (rank_text(squares, rank as int, 0, 0) + seq!['/'] + rest));
        rank = rank - 1;
    }
    write_rank(board, 0, out);
}

/// Appends the castling field.
fn write_castling(rights: &[bool; 4], out: &mut String)
    ensures
        final(out)@ == old(out)@ + castling_text(rights@),
{
    if !rights[0] && !rights[1] && !rights[2] && !rights[3] {
        out.push('-');
        assert(final(out)@ =~= old(out)@ + castling_text(rights@));
    } else {
        if rights[0] {
            out.push('K');
        }
        if rights[1] {
            out.push('Q');
        }
        if rights[2] {
            out.push('k');
        }
        if rights[3] {
            out.push('q');
        }
        assert(final(out)@ =~= old(out)@ + castling_text(rights@));
    }
}

/// Appends the en-passant field.
fn write_en_passant(target: Option<u8>, out: &mut String)
    ensures
        final(out)@ == old(out)@ + en_passant_text(target),
{
    match target {
        Some(sq) => {
            if sq < 64 {
                write_square_name(sq, out);
            } else {
                out.push('-');
                assert(final(out)@ =~= old(out)@ + en_passant_text(target));
            }
        },
        None => {
            out.push('-');
            assert(final(out)@ =~= old(out)@ + en_passant_text(target));
        },
    }
}

impl Board {
    /// Writes the position as text, all six fields of it.
    pub fn to_fen(&self) -> (text: String)
        ensures
            text@ == fen_text(self@),
    {
        let mut out = String::new();
        write_placement(self, &mut out);
        out.push(' ');
        out.push(
            match self.color_to_move {
                Color::White => 'w',
                Color::Black => 'b',
            },
        );
        out.push(' ');
        write_castling(&self.castling_rights, &mut out);
        out.push(' ');
        write_en_passant(self.en_passant_target, &mut out);
        out.push(' ');
        write_decimal(self.plies, &mut out);
        out.push(' ');
        write_decimal(self.move_nr, &mut out);
        assert(out@ =~= fen_text(self@));
        out
    }
}

impl Piece {
    /// The piece as text: one letter, upper case for White and lower case
    /// for Black, or a blank for an empty square.
    pub fn print(&self) -> (text: String)
        ensures
            text@ == seq![piece_letter(*self)],
    {
        let mut out = String::new();
        out.push(self.letter());
        assert(out@ =~= seq![piece_letter(*self)]);
        out
    }
}

/// The index of the square that a name stands for, see [`named_square`].
pub fn f2i(field: &str) -> (r: Result<usize, ParseError>)
    ensures
        r == named_square(field@),
{
    let n = field.unicode_len();
    if n < 2 {
        return Err(ParseError::TruncatedField);
    }
    let file = field.get_char(0);
    let rank = field.get_char(1);
    if !(file >= 'a' && file <= 'h') {
        return Err(ParseError::UnexpectedCharacter);
    }
    if !(rank >= '1' && rank <= '8') {
        return Err(ParseError::UnexpectedCharacter);
    }
    let x: usize = (file as u32 - 'a' as u32) as usize;
    let y: usize = (rank as u32 - '1' as u32) as usize;
    Ok(x + y * 8)
}

/// The name of the square with the given index, see [`square_name`].
pub fn i2f(index: u8) -> (name: String)
    requires
        index < 64,
    ensures
        name@ == square_name(index as int),
{
    let mut out = String::new();
    write_square_name(index, &mut out);
    assert(out@ =~= square_name(index as int));
    out
}

} // verus!
