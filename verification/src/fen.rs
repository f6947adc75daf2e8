//! Reading a position from its text. The text has six fields with one
//! separator between each two: the piece placement from the eighth rank
//! down, the side to move, the castling rights, the en-passant target, the
//! half-move clock and the full-move number, as in
//! `rnbqkbnr/pppppppp/8/8/8/8/PPPPPPPP/RNBQKBNR w KQkq - 0 1`.
//!
//! The placement is read leniently: a character that stands for no piece
//! leaves its square empty, a rank may be short, and ranks may be missing.
//! Only a step off the board is refused. The other fields are read
//! strictly.

use vstd::prelude::*;
use crate::piece::{Color, Piece, PieceKind, empty_square};
use crate::board::{Board, Position};

verus! {

/// The text of the position from which a game starts.
pub const STARTING_FEN: &'static str = "rnbqkbnr/pppppppp/8/8/8/8/PPPPPPPP/RNBQKBNR w KQkq - 0 1";

/// Why a position text was refused.
#[derive(Clone, Copy, Debug, PartialEq, Eq, Structural)]
pub enum ParseError {
    /// A character stands where the field does not allow it.
    UnexpectedCharacter,
    /// The placement leaves the board: past the h-file or below the first
    /// rank.
    IndexOutOfBoard,
    /// The text ends before a field is complete, or a number is missing.
    TruncatedField,
    /// A counter is larger than a `u32` holds.
    NumberOutOfRange,
}

/// The characters that end a field: blank, tab, line feed and carriage
/// return.
pub open spec fn is_separator(c: char) -> bool {
    c == ' ' || c == '\t' || c == '\n' || c == '\r'
}

/// The decimal digits.
pub open spec fn is_digit(c: char) -> bool {
    '0' <= c <= '9'
}

/// The number that a digit stands for.
pub open spec fn digit_value(c: char) -> int {
    c as int - '0' as int
}

/// The digit that stands for a number below ten.
pub open spec fn digit_char(d: int) -> char {
    (d + '0' as int) as char
}

/// The piece that a placement character puts on its square: one of
/// `PNBRQK` a white piece, one of `pnbrqk` a black piece, any other
/// character leaves the square empty.
pub open spec fn letter_piece(c: char) -> Piece {
    let kind = if c == 'P' || c == 'p' {
        PieceKind::Pawn
    } else if c == 'N' || c == 'n' {
        PieceKind::Knight
    } else if c == 'B' || c == 'b' {
        PieceKind::Bishop
    } else if c == 'R' || c == 'r' {
        PieceKind::Rook
    } else if c == 'Q' || c == 'q' {
        PieceKind::Queen
    } else if c == 'K' || c == 'k' {
        PieceKind::King
    } else {
        PieceKind::Empty
    };
    let color = if c == 'p' || c == 'n' || c == 'b' || c == 'r' || c == 'q' || c == 'k' {
        Color::Black
    } else {
        Color::White
    };
    Piece { kind, color, weak_to_en_passant: false, has_moved: false }
}

/// Where the placement field has got to: the squares filled so far, and the
/// rank and file of the next square.
pub struct Placement {
    pub squares: Seq<Piece>,
    pub rank: int,
    pub file: int,
}

/// The placement before its first character: an empty board, the next
/// square a8.
pub open spec fn placement_start() -> Placement {
    Placement { squares: Seq::new(64, |i: int| empty_square()), rank: 7, file: 0 }
}

/// One character of the placement field. A digit moves on by that many
/// files and leaves the squares as they are; `/` goes to the a-file of the
/// next rank down; any other character fills the next square, with the piece
/// it stands for or with nothing, and moves on by one file. A step past the
/// h-file or below the first rank leaves the board.
pub open spec fn place_char(st: Placement, c: char) -> Result<Placement, ParseError> {
    if is_digit(c) {
        if st.file + digit_value(c) > 8 {
            Err(ParseError::IndexOutOfBoard)
        } else {
            Ok(Placement { file: st.file + digit_value(c), ..st })
        }
    } else if c == '/' {
        if st.rank <= 0 {
            Err(ParseError::IndexOutOfBoard)
        } else {
            Ok(Placement { rank: st.rank - 1, file: 0, ..st })
        }
    } else {
        if st.file >= 8 {
            Err(ParseError::IndexOutOfBoard)
        } else {
            Ok(
                Placement {
                    squares: st.squares.update(8 * st.rank + st.file, letter_piece(c)),
                    file: st.file + 1,
                    ..st
                },
            )
        }
    }
}

/// The placement field read from index `i` on: the squares, and the index
/// of the separator that ends the field, or the length of the text where
/// the text ends first.
pub open spec fn place_from(s: Seq<char>, i: int, st: Placement) -> Result<
    (Seq<Piece>, int),
    ParseError,
>
    decreases s.len() - i,
{
    if i < 0 || i >= s.len() || is_separator(s[i]) {
        Ok((st.squares, i))
    } else {
        match place_char(st, s[i]) {
            Ok(next) => place_from(s, i + 1, next),
            Err(e) => Err(e),
        }
    }
}

/// A separator stands at index `i`.
pub open spec fn separator_at(s: Seq<char>, i: int) -> Result<(), ParseError> {
    if i >= s.len() {
        Err(ParseError::TruncatedField)
    } else if is_separator(s[i]) {
        Ok(())
    } else {
        Err(ParseError::UnexpectedCharacter)
    }
}

/// The side to move, read at index `i`: `w` or `b`.
pub open spec fn side_at(s: Seq<char>, i: int) -> Result<Color, ParseError> {
    if i >= s.len() {
        Err(ParseError::TruncatedField)
    } else if s[i] == 'w' {
        Ok(Color::White)
    } else if s[i] == 'b' {
        Ok(Color::Black)
    } else {
        Err(ParseError::UnexpectedCharacter)
    }
}

/// No castling right.
pub open spec fn no_rights() -> Seq<bool> {
    seq![false, false, false, false]
}

/// The castling rights, read letter by letter from index `i` on up to the
/// separator that ends the field: each of `K`, `Q`, `k`, `q` grants its
/// right, in any order. Returns the rights and the index of the separator.
pub open spec fn castling_from(s: Seq<char>, i: int, rights: Seq<bool>) -> Result<
    (Seq<bool>, int),
    ParseError,
>
    decreases s.len() - i,
{
    if i < 0 || i >= s.len() {
        Err(ParseError::TruncatedField)
    } else if is_separator(s[i]) {
        Ok((rights, i))
    } else if s[i] == 'K' {
        castling_from(s, i + 1, rights.update(0, true))
    } else if s[i] == 'Q' {
        castling_from(s, i + 1, rights.update(1, true))
    } else if s[i] == 'k' {
        castling_from(s, i + 1, rights.update(2, true))
    } else if s[i] == 'q' {
        castling_from(s, i + 1, rights.update(3, true))
    } else {
        Err(ParseError::UnexpectedCharacter)
    }
}

/// The castling field at index `i`: a single `-` for no right, or letters
/// as in [`castling_from`]. Returns the rights and the index of the
/// separator that ends the field.
pub open spec fn castling_at(s: Seq<char>, i: int) -> Result<(Seq<bool>, int), ParseError> {
    if 0 <= i < s.len() && s[i] == '-' {
        match separator_at(s, i + 1) {
            Ok(_) => Ok((no_rights(), i + 1)),
            Err(e) => Err(e),
        }
    } else {
        castling_from(s, i, no_rights())
    }
}

/// The letters of the files, `a` to `h`.
pub open spec fn is_file_letter(c: char) -> bool {
    'a' <= c <= 'h'
}

/// The digits of the ranks, `1` to `8`.
pub open spec fn is_rank_digit(c: char) -> bool {
    '1' <= c <= '8'
}

/// The index of the square with the given file letter and rank digit.
pub open spec fn square_of_name(file: char, rank: char) -> int {
    (file as int - 'a' as int) + 8 * (rank as int - '1' as int)
}

/// The en-passant field at index `i`: `-` for no target, or the name of a
/// square. Returns the target and the index after the field.
pub open spec fn en_passant_at(s: Seq<char>, i: int) -> Result<(Option<u8>, int), ParseError> {
    if i < 0 || i >= s.len() {
        Err(ParseError::TruncatedField)
    } else if s[i] == '-' {
        Ok((None, i + 1))
    } else if !is_file_letter(s[i]) {
        Err(ParseError::UnexpectedCharacter)
    } else if i + 1 >= s.len() {
        Err(ParseError::TruncatedField)
    } else if !is_rank_digit(s[i + 1]) {
        Err(ParseError::UnexpectedCharacter)
    } else {
        Ok((Some(square_of_name(s[i], s[i + 1]) as u8), i + 2))
    }
}

/// The digits of a number read from index `i` on up to a separator or the
/// end of the text, after digits that gave `acc`. Returns the number and the
/// index at which it ends.
pub open spec fn number_from(s: Seq<char>, i: int, acc: nat) -> Result<(nat, int), ParseError>
    decreases s.len() - i,
{
    if i < 0 || i >= s.len() || is_separator(s[i]) {
        Ok((acc, i))
    } else if !is_digit(s[i]) {
        Err(ParseError::UnexpectedCharacter)
    } else if acc * 10 + digit_value(s[i]) > u32::MAX {
        Err(ParseError::NumberOutOfRange)
    } else {
        number_from(s, i + 1, (acc * 10 + digit_value(s[i])) as nat)
    }
}

/// A number field at index `i`: one digit at least.
pub open spec fn number_at(s: Seq<char>, i: int) -> Result<(nat, int), ParseError> {
    if i < 0 || i >= s.len() || is_separator(s[i]) {
        Err(ParseError::TruncatedField)
    } else {
        number_from(s, i, 0)
    }
}

/// The two counters that end the text, read from index `i` on: the
/// half-move clock, a separator, and the full-move number. What follows the
/// full-move number after a separator is not read.
pub open spec fn counters_at(s: Seq<char>, i: int) -> Result<(nat, nat), ParseError> {
    match number_at(s, i) {
        Err(e) => Err(e),
        Ok((plies, end)) => if end >= s.len() {
            Err(ParseError::TruncatedField)
        } else {
            match number_at(s, end + 1) {
                Err(e) => Err(e),
                Ok((move_nr, _)) => Ok((plies, move_nr)),
            }
        },
    }
}

/// The fields after the placement, read from index `i` on, the index of
/// the separator that ends the placement.
pub open spec fn fields_at(s: Seq<char>, squares: Seq<Piece>, i: int) -> Result<
    Position,
    ParseError,
> {
    if i >= s.len() {
        Err(ParseError::TruncatedField)
    } else {
        match side_at(s, i + 1) {
            Err(e) => Err(e),
            Ok(side) => match separator_at(s, i + 2) {
                Err(e) => Err(e),
                Ok(_) => match castling_at(s, i + 3) {
                    Err(e) => Err(e),
                    Ok((castling, after_castling)) => match en_passant_at(s, after_castling + 1) {
                        Err(e) => Err(e),
                        Ok((en_passant, after_target)) => match separator_at(s, after_target) {
                            Err(e) => Err(e),
                            Ok(_) => match counters_at(s, after_target + 1) {
                                Err(e) => Err(e),
                                Ok((plies, move_nr)) => Ok(
                                    Position { squares, side, castling, en_passant, plies, move_nr },
                                ),
                            },
                        },
                    },
                },
            },
        }
    }
}

/// The position that a text describes, or why the text describes none.
///
/// The fields are read from left to right, and the first that fails
/// decides the error. In the placement every character is taken: only a
/// step off the board fails. The other fields take what their grammar
/// allows and nothing else.
pub open spec fn parse_fen(s: Seq<char>) -> Result<Position, ParseError> {
    match place_from(s, 0, placement_start()) {
        Err(e) => Err(e),
        Ok((squares, end)) => fields_at(s, squares, end),
    }
}

/// What a parser returned is what the grammar says of the text.
pub open spec fn parsed_as(r: Result<Board, ParseError>, s: Seq<char>) -> bool {
    match r {
        Ok(board) => parse_fen(s) == Ok::<Position, ParseError>(board@),
        Err(e) => parse_fen(s) == Err::<Position, ParseError>(e),
    }
}

/// The characters of a text.
fn text_chars(text: &str) -> (chars: Vec<char>)
    ensures
        chars@ == text@,
{
    let mut chars: Vec<char> = Vec::new();
    for c in it: text.chars()
        invariant
            chars@ == it.seq().take(it.index() as int),
            it.seq() == text@,
    {
        chars.push(c);
    }
    chars
}

/// Whether a character ends a field.
fn ends_field(c: char) -> (r: bool)
    ensures
        r == is_separator(c),
{
    c == ' ' || c == '\t' || c == '\n' || c == '\r'
}

/// The piece that a placement character puts on its square.
fn piece_of_letter(c: char) -> (piece: Piece)
    ensures
        piece == letter_piece(c),
{
    let color = if c == 'p' || c == 'n' || c == 'b' || c == 'r' || c == 'q' || c == 'k' {
        Color::Black
    } else {
        Color::White
    };
    let kind = if c == 'P' || c == 'p' {
        PieceKind::Pawn
    } else if c == 'N' || c == 'n' {
        PieceKind::Knight
    } else if c == 'B' || c == 'b' {
        PieceKind::Bishop
    } else if c == 'R' || c == 'r' {
        PieceKind::Rook
    } else if c == 'Q' || c == 'q' {
        PieceKind::Queen
    } else if c == 'K' || c == 'k' {
        PieceKind::King
    } else {
        PieceKind::Empty
    };
    Piece::new(kind, color)
}

/// Reads the placement field from the start of the text.
fn read_placement(s: &Vec<char>) -> (r: Result<([Piece; 64], usize), ParseError>)
    ensures
        match r {
            Ok((squares, end)) => place_from(s@, 0, placement_start()) == Ok::<
                (Seq<Piece>, int),
                ParseError,
            >((squares@, end as int)) && end <= s.len(),
            Err(e) => place_from(s@, 0, placement_start()) == Err::<(Seq<Piece>, int), ParseError>(
                e,
            ),
        },
{
    let mut squares = [Piece::empty();64];
    let mut rank: usize = 7;
    let mut file: usize = 0;
    let mut i: usize = 0;
    assert(squares@ =~= placement_start().squares);
    while i < s.len() && !ends_field(s[i])
        invariant
            i <= s.len(),
            rank < 8,
            file <= 8,
            place_from(s@, i as int, Placement { squares: squares@, rank: rank as int, file: file as int })
                == place_from(s@, 0, placement_start()),
        decreases s.len() - i,
    {
        let c = s[i];
        if c >= '0' && c <= '9' {
            let d: usize = (c as u32 - '0' as u32) as usize;
            if file + d > 8 {
                return Err(ParseError::IndexOutOfBoard);
            }
            file = file + d;
        } else if c == '/' {
            if rank == 0 {
                return Err(ParseError::IndexOutOfBoard);
            }
            rank = rank - 1;
            file = 0;
        } else {
            if file >= 8 {
                return Err(ParseError::IndexOutOfBoard);
            }
            squares[8 * rank + file] = piece_of_letter(c);
            file = file + 1;
        }
        i = i + 1;
    }
    Ok((squares, i))
}

/// Checks that a separator stands at index `i`.
fn read_separator(s: &Vec<char>, i: usize) -> (r: Result<(), ParseError>)
    ensures
        r == separator_at(s@, i as int),
{
    if i >= s.len() {
        Err(ParseError::TruncatedField)
    } else if ends_field(s[i]) {
        Ok(())
    } else {
        Err(ParseError::UnexpectedCharacter)
    }
}

/// Reads the side to move at index `i`.
fn read_side(s: &Vec<char>, i: usize) -> (r: Result<Color, ParseError>)
    ensures
        r == side_at(s@, i as int),
{
    if i >= s.len() {
        Err(ParseError::TruncatedField)
    } else if s[i] == 'w' {
        Ok(Color::White)
    } else if s[i] == 'b' {
        Ok(Color::Black)
    } else {
        Err(ParseError::UnexpectedCharacter)
    }
}

/// Reads the castling field at index `i`.
fn read_castling(s: &Vec<char>, i: usize) -> (r: Result<([bool; 4], usize), ParseError>)
    ensures
        match r {
            Ok((rights, end)) => castling_at(s@, i as int) == Ok::<(Seq<bool>, int), ParseError>(
                (rights@, end as int),
            ) && end < s.len(),
            Err(e) => castling_at(s@, i as int) == Err::<(Seq<bool>, int), ParseError>(e),
        },
{
    let mut rights = [false;4];
    assert(rights@ =~= no_rights());
    if i >= s.len() {
        return Err(ParseError::TruncatedField);
    }
    if s[i] == '-' {
        return match read_separator(s, i + 1) {
            Ok(_) => Ok((rights, i + 1)),
            Err(e) => Err(e),
        };
    }
    let mut j: usize = i;
    while j < s.len() && !ends_field(s[j])
        invariant
            i <= j <= s.len(),
            castling_from(s@, j as int, rights@) == castling_at(s@, i as int),
        decreases s.len() - j,
    {
        let c = s[j];
        if c == 'K' {
            rights[0] = true;
        } else if c == 'Q' {
            rights[1] = true;
        } else if c == 'k' {
            rights[2] = true;
        } else if c == 'q' {
            rights[3] = true;
        } else {
            return Err(ParseError::UnexpectedCharacter);
        }
        j = j + 1;
    }
    if j >= s.len() {
        return Err(ParseError::TruncatedField);
    }
    Ok((rights, j))
}

/// Reads the en-passant field at index `i`.
fn read_en_passant(s: &Vec<char>, i: usize) -> (r: Result<(Option<u8>, usize), ParseError>)
    ensures
        match r {
            Ok((target, end)) => en_passant_at(s@, i as int) == Ok::<(Option<u8>, int), ParseError>(
                (target, end as int),
            ) && end <= s.len(),
            Err(e) => en_passant_at(s@, i as int) == Err::<(Option<u8>, int), ParseError>(e),
        },
{
    if i >= s.len() {
        return Err(ParseError::TruncatedField);
    }
    let file = s[i];
    if file == '-' {
        return Ok((None, i + 1));
    }
    if !(file >= 'a' && file <= 'h') {
        return Err(ParseError::UnexpectedCharacter);
    }
    if i + 1 >= s.len() {
        return Err(ParseError::TruncatedField);
    }
    let rank = s[i + 1];
    if !(rank >= '1' && rank <= '8') {
        return Err(ParseError::UnexpectedCharacter);
    }
    let x: u32 = file as u32 - 'a' as u32;
    let y: u32 = rank as u32 - '1' as u32;
    Ok((Some((x + y * 8) as u8), i + 2))
}

/// Reads a number field at index `i`.
fn read_number(s: &Vec<char>, i: usize) -> (r: Result<(u32, usize), ParseError>)
    ensures
        match r {
            Ok((n, end)) => number_at(s@, i as int) == Ok::<(nat, int), ParseError>(
                (n as nat, end as int),
            ) && end <= s.len(),
            Err(e) => number_at(s@, i as int) == Err::<(nat, int), ParseError>(e),
        },
{
    if i >= s.len() || ends_field(s[i]) {
        return Err(ParseError::TruncatedField);
    }
    let mut n: u32 = 0;
    let mut j: usize = i;
    while j < s.len() && !ends_field(s[j])
        invariant
            i <= j <= s.len(),
            number_from(s@, j as int, n as nat) == number_at(s@, i as int),
        decreases s.len() - j,
    {
        let c = s[j];
        if !(c >= '0' && c <= '9') {
            return Err(ParseError::UnexpectedCharacter);
        }
        let d: u32 = c as u32 - '0' as u32;
        if n > (u32::MAX - d) / 10 {
            return Err(ParseError::NumberOutOfRange);
        }
        n = n * 10 + d;
        j = j + 1;
    }
    Ok((n, j))
}

/// Reads the two counters that end the text, from index `i` on.
fn read_counters(s: &Vec<char>, i: usize) -> (r: Result<(u32, u32), ParseError>)
    ensures
        match r {
            Ok((plies, move_nr)) => counters_at(s@, i as int) == Ok::<(nat, nat), ParseError>(
                (plies as nat, move_nr as nat),
            ),
            Err(e) => counters_at(s@, i as int) == Err::<(nat, nat), ParseError>(e),
        },
{
    match read_number(s, i) {
        Err(e) => Err(e),
        Ok((plies, end)) => {
            if end >= s.len() {
                Err(ParseError::TruncatedField)
            } else {
                match read_number(s, end + 1) {
                    Err(e) => Err(e),
                    Ok((move_nr, _)) => Ok((plies, move_nr)),
                }
            }
        },
    }
}

/// Reads a position from its text.
///
/// Returns `Ok` with the board exactly where the text follows the grammar
/// of [`parse_fen`], and else the error of the first field that fails.
/// Every piece comes out as not yet moved and not open to en passant.
pub fn board_from_fen(fen: &str) -> (r: Result<Board, ParseError>)
    ensures
        parsed_as(r, fen@),
{
    let s = text_chars(fen);
    let (board, end) = match read_placement(&s) {
        Ok(found) => found,
        Err(e) => {
            return Err(e);
        },
    };
    if end >= s.len() {
        return Err(ParseError::TruncatedField);
    }
    let color_to_move = match read_side(&s, end + 1) {
        Ok(side) => side,
        Err(e) => {
            return Err(e);
        },
    };
    match read_separator(&s, end + 2) {
        Ok(_) => {},
        Err(e) => {
            return Err(e);
        },
    }
    let (castling_rights, after_castling) = match read_castling(&s, end + 3) {
        Ok(found) => found,
        Err(e) => {
            return Err(e);
        },
    };
    let (en_passant_target, after_target) = match read_en_passant(&s, after_castling + 1) {
        Ok(found) => found,
        Err(e) => {
            return Err(e);
        },
    };
    match read_separator(&s, after_target) {
        Ok(_) => {},
        Err(e) => {
            return Err(e);
        },
    }
    let (plies, move_nr) = match read_counters(&s, after_target + 1) {
        Ok(found) => found,
        Err(e) => {
            return Err(e);
        },
    };
    Ok(Board { board, color_to_move, castling_rights, en_passant_target, plies, move_nr })
}

} // verus!
