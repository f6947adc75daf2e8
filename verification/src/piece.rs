//! Pieces and colours.

use vstd::prelude::*;

verus! {

/// The two sides.
#[derive(Clone, Copy, Debug, PartialEq, Eq, Structural)]
pub enum Color {
    White,
    Black,
}

impl Color {
    /// The other side.
    pub open spec fn flipped(self) -> Color {
        match self {
            Color::White => Color::Black,
            Color::Black => Color::White,
        }
    }

    /// The other side.
    pub fn flip(self) -> (other: Color)
        ensures
            other == self.flipped(),
    {
        match self {
            Color::White => Color::Black,
            Color::Black => Color::White,
        }
    }
}

/// What stands on a square. `Empty` marks a square without a piece.
#[derive(Clone, Copy, Debug, PartialEq, Eq, Structural)]
pub enum PieceKind {
    Empty,
    Pawn,
    Knight,
    Bishop,
    Rook,
    Queen,
    King,
}

/// The content of one square, held by value in every board cell.
///
/// When `kind` is `Empty` the colour carries no meaning: an empty square
/// belongs to neither side, whatever its `color` field holds.
#[derive(Clone, Copy, Debug, PartialEq, Eq, Structural)]
pub struct Piece {
    pub kind: PieceKind,
    pub color: Color,
    pub weak_to_en_passant: bool,
    pub has_moved: bool,
}

/// The value that a cleared square holds.
pub open spec fn empty_square() -> Piece {
    Piece {
        kind: PieceKind::Empty,
        color: Color::White,
        weak_to_en_passant: false,
        has_moved: false,
    }
}

/// Both squares hold a piece, and the two pieces belong to different sides.
pub open spec fn opponents(a: Piece, b: Piece) -> bool {
    a.kind != PieceKind::Empty && b.kind != PieceKind::Empty && a.color != b.color
}

/// Both squares hold a piece, and the two pieces belong to the same side.
pub open spec fn allies(a: Piece, b: Piece) -> bool {
    a.kind != PieceKind::Empty && b.kind != PieceKind::Empty && a.color == b.color
}

/// The letter that stands for a piece: upper case for White, lower case for
/// Black, a blank for an empty square.
pub open spec fn piece_letter(p: Piece) -> char {
    match (p.kind, p.color) {
        (PieceKind::Empty, _) => ' ',
        (PieceKind::Pawn, Color::White) => 'P',
        (PieceKind::Knight, Color::White) => 'N',
        (PieceKind::Bishop, Color::White) => 'B',
        (PieceKind::Rook, Color::White) => 'R',
        (PieceKind::Queen, Color::White) => 'Q',
        (PieceKind::King, Color::White) => 'K',
        (PieceKind::Pawn, Color::Black) => 'p',
        (PieceKind::Knight, Color::Black) => 'n',
        (PieceKind::Bishop, Color::Black) => 'b',
        (PieceKind::Rook, Color::Black) => 'r',
        (PieceKind::Queen, Color::Black) => 'q',
        (PieceKind::King, Color::Black) => 'k',
    }
}

impl Piece {
    /// A piece that has not moved and cannot be taken en passant.
    pub fn new(kind: PieceKind, color: Color) -> (p: Piece)
        ensures
            p == (Piece { kind, color, weak_to_en_passant: false, has_moved: false }),
    {
        Piece { kind, color, weak_to_en_passant: false, has_moved: false }
    }

    /// The value that a cleared square holds.
    pub fn empty() -> (p: Piece)
        ensures
            p == empty_square(),
    {
        Piece::new(PieceKind::Empty, Color::White)
    }

    /// Whether the square holds no piece.
    pub fn is_empty(&self) -> (r: bool)
        ensures
            r == (self.kind == PieceKind::Empty),
    {
        self.kind == PieceKind::Empty
    }

    /// The letter of this piece, see [`piece_letter`].
    pub fn letter(&self) -> (c: char)
        ensures
            c == piece_letter(*self),
    {
        match self.color {
            Color::White => match self.kind {
                PieceKind::Empty => ' ',
                PieceKind::Pawn => 'P',
                PieceKind::Knight => 'N',
                PieceKind::Bishop => 'B',
                PieceKind::Rook => 'R',
                PieceKind::Queen => 'Q',
                PieceKind::King => 'K',
            },
            Color::Black => match self.kind {
                PieceKind::Empty => ' ',
                PieceKind::Pawn => 'p',
                PieceKind::Knight => 'n',
                PieceKind::Bishop => 'b',
                PieceKind::Rook => 'r',
                PieceKind::Queen => 'q',
                PieceKind::King => 'k',
            },
        }
    }
}

/// Whether two squares hold pieces of different sides. An empty square is
/// nobody's opponent.
pub fn is_opponent(piece1: &Piece, piece2: &Piece) -> (r: bool)
    ensures
        r == opponents(*piece1, *piece2),
{
    piece1.kind != PieceKind::Empty && piece2.kind != PieceKind::Empty && piece1.color
        != piece2.color
}

/// Whether two squares hold pieces of the same side. An empty square is
/// nobody's ally.
pub fn is_ally(piece1: &Piece, piece2: &Piece) -> (r: bool)
    ensures
        r == allies(*piece1, *piece2),
{
    piece1.kind != PieceKind::Empty && piece2.kind != PieceKind::Empty && piece1.color
        == piece2.color
}

} // verus!
