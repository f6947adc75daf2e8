//! What holds of reading and writing together: a position that was read
//! from a text is written and read back unchanged.

use vstd::prelude::*;
use crate::piece::{Color, Piece, PieceKind, empty_square, piece_letter};
use crate::board::Position;
use crate::fen::{
    ParseError, Placement, castling_at, castling_from, counters_at, digit_char, digit_value,
    en_passant_at, fields_at, is_digit, is_separator, letter_piece, no_rights, number_at,
    number_from, parse_fen, place_char, place_from, placement_start, separator_at, side_at,
    square_of_name,
};
use crate::fen_text::{
    castling_text, decimal_text, en_passant_text, fen_text, placement_text, rank_text, ranks_text,
    right_text, run_text, side_char, square_name,
};

verus! {

/// The piece is one that a text can hold: it has not moved, it is not open
/// to en passant, and if it is an empty square, it is the cleared square.
pub open spec fn is_fresh(piece: Piece) -> bool {
    &&& !piece.has_moved
    &&& !piece.weak_to_en_passant
    &&& piece.kind == PieceKind::Empty ==> piece.color == Color::White
}

/// The position is one that a text can hold: every square of it is fresh,
/// its en-passant target is on the board, and its counters fit a `u32`.
pub open spec fn is_textual(p: Position) -> bool {
    &&& p.wf()
    &&& forall|i: int| 0 <= i < 64 ==> is_fresh(#[trigger] p.squares[i])
    &&& p.en_passant matches Some(sq) ==> sq < 64
    &&& p.plies <= u32::MAX
    &&& p.move_nr <= u32::MAX
}

/// The text `s` holds the characters of `w` from index `i` on.
pub open spec fn holds_at(s: Seq<char>, i: int, w: Seq<char>) -> bool {
    &&& 0 <= i
    &&& i + w.len() <= s.len()
    &&& forall|k: int| 0 <= k < w.len() ==> s[i + k] == #[trigger] w[k]
}

proof fn lemma_holds_split(s: Seq<char>, i: int, a: Seq<char>, b: Seq<char>)
    requires
        holds_at(s, i, a + b),
    ensures
        holds_at(s, i, a),
        holds_at(s, i + a.len(), b),
{
    assert forall|k: int| 0 <= k < a.len() implies s[i + k] == #[trigger] a[k] by {
        assert((a + b)[k] == a[k]);
    }
    assert forall|k: int| 0 <= k < b.len() implies s[i + a.len() + k] == #[trigger] b[k] by {
        assert((a + b)[a.len() + k] == b[k]);
    }
}

/// The squares of `squares` that the placement has reached when it stands
/// on `rank` before `file`: the ranks above and the files before, the rest
/// still cleared.
pub open spec fn filled(squares: Seq<Piece>, rank: int, file: int) -> Seq<Piece> {
    Seq::new(
        64,
        |j: int|
            if j >= 8 * (rank + 1) || (8 * rank <= j < 8 * rank + file) {
                squares[j]
            } else {
                empty_square()
            },
    )
}

proof fn lemma_letter_round_trip(piece: Piece)
    requires
        is_fresh(piece),
    ensures
        letter_piece(piece_letter(piece)) == piece,
        piece.kind != PieceKind::Empty ==> !is_digit(piece_letter(piece)) && piece_letter(piece)
            != '/' && !is_separator(piece_letter(piece)),
{
}

proof fn lemma_run_digit(run: int)
    requires
        1 <= run <= 9,
    ensures
        is_digit(digit_char(run)),
        digit_value(digit_char(run)) == run,
        !is_separator(digit_char(run)),
        digit_char(run) != '/',
{
}

proof fn lemma_read_rank(
    s: Seq<char>,
    i: int,
    squares: Seq<Piece>,
    rank: int,
    file: int,
    run: int,
)
    requires
        squares.len() == 64,
        forall|j: int| 0 <= j < 64 ==> is_fresh(#[trigger] squares[j]),
        0 <= rank < 8,
        0 <= run <= file <= 8,
        forall|f: int| file - run <= f < file ==> (#[trigger] squares[8 * rank + f]).kind
            == PieceKind::Empty,
        holds_at(s, i, rank_text(squares, rank, file, run)),
    ensures
        place_from(
            s,
            i,
            Placement { squares: filled(squares, rank, file - run), rank, file: file - run },
        ) == place_from(
            s,
            i + rank_text(squares, rank, file, run).len(),
            Placement { squares: filled(squares, rank, 8), rank, file: 8 },
        ),
    decreases 8 - file,
{
    let w = rank_text(squares, rank, file, run);
    let st = Placement { squares: filled(squares, rank, file - run), rank, file: file - run };
    let done = Placement { squares: filled(squares, rank, 8), rank, file: 8 };
    if file >= 8 {
        if run > 0 {
            lemma_run_digit(run);
            assert(w[0] == digit_char(run));
            assert(s[i] == digit_char(run));
            assert(filled(squares, rank, file - run) =~= filled(squares, rank, 8)) by {
                assert forall|j: int| 0 <= j < 64 implies filled(squares, rank, file - run)[j]
                    == filled(squares, rank, 8)[j] by {
                    if 8 * rank + file - run <= j < 8 * rank + 8 {
                        assert(squares[8 * rank + (j - 8 * rank)].kind == PieceKind::Empty);
                    }
                }
            }
            assert(place_char(st, s[i]) == Ok::<Placement, ParseError>(done));
        } else {
            assert(w.len() == 0);
        }
    } else {
        let piece = squares[8 * rank + file];
        if piece.kind == PieceKind::Empty {
            assert forall|f: int| file + 1 - (run + 1) <= f < file + 1 implies (
            #[trigger] squares[8 * rank + f]).kind == PieceKind::Empty by {}
            lemma_read_rank(s, i, squares, rank, file + 1, run + 1);
        } else {
            let rest = rank_text(squares, rank, file + 1, 0);
            let head = run_text(run) + seq![piece_letter(piece)];
            assert(w =~= head + rest);
            lemma_holds_split(s, i, head, rest);
            lemma_letter_round_trip(piece);
            let at_piece = Placement { squares: filled(squares, rank, file - run), rank, file };
            let after = Placement { squares: filled(squares, rank, file + 1), rank, file: file + 1 };
            assert(filled(squares, rank, file - run) =~= filled(squares, rank, file)) by {
                assert forall|j: int| 0 <= j < 64 implies filled(squares, rank, file - run)[j]
                    == filled(squares, rank, file)[j] by {
                    if 8 * rank + file - run <= j < 8 * rank + file {
                        assert(squares[8 * rank + (j - 8 * rank)].kind == PieceKind::Empty);
                    }
                }
            }
            assert(filled(squares, rank, file).update(8 * rank + file, piece) =~= filled(
                squares,
                rank,
                file + 1,
            ));
            if run > 0 {
                lemma_run_digit(run);
                assert(head[0] == digit_char(run));
                assert(head[1] == piece_letter(piece));
                assert(s[i] == digit_char(run));
                assert(s[i + 1] == piece_letter(piece));
                assert(place_char(st, s[i]) == Ok::<Placement, ParseError>(at_piece));
                assert(place_char(at_piece, s[i + 1]) == Ok::<Placement, ParseError>(after));
                assert(place_from(s, i, st) == place_from(s, i + 1, at_piece));
                assert(place_from(s, i + 1, at_piece) == place_from(s, i + 2, after));
            } else {
                assert(head[0] == piece_letter(piece));
                assert(s[i] == piece_letter(piece));
                assert(st == at_piece);
                assert(place_char(at_piece, s[i]) == Ok::<Placement, ParseError>(after));
                assert(place_from(s, i, st) == place_from(s, i + 1, after));
            }
            lemma_read_rank(s, i + head.len(), squares, rank, file + 1, 0);
        }
    }
}

proof fn lemma_read_ranks(s: Seq<char>, i: int, squares: Seq<Piece>, rank: int)
    requires
        squares.len() == 64,
        forall|j: int| 0 <= j < 64 ==> is_fresh(#[trigger] squares[j]),
        0 <= rank < 8,
        holds_at(s, i, ranks_text(squares, rank)),
    ensures
        place_from(s, i, Placement { squares: filled(squares, rank, 0), rank, file: 0 })
            == place_from(
            s,
            i + ranks_text(squares, rank).len(),
            Placement { squares, rank: 0, file: 8 },
        ),
    decreases rank,
{
    let this = rank_text(squares, rank, 0, 0);
    if rank <= 0 {
        lemma_read_rank(s, i, squares, 0, 0, 0);
        assert(filled(squares, 0, 8) =~= squares);
    } else {
        let rest = ranks_text(squares, rank - 1);
        assert(ranks_text(squares, rank) =~= this + (seq!['/'] + rest));
        lemma_holds_split(s, i, this, seq!['/'] + rest);
        lemma_holds_split(s, i + this.len(), seq!['/'], rest);
        lemma_read_rank(s, i, squares, rank, 0, 0);
        let after_rank = Placement { squares: filled(squares, rank, 8), rank, file: 8 };
        let next = Placement { squares: filled(squares, rank - 1, 0), rank: rank - 1, file: 0 };
        assert(seq!['/'][0] == '/');
        assert(s[i + this.len()] == '/');
        assert(filled(squares, rank, 8) =~= filled(squares, rank - 1, 0));
        assert(place_char(after_rank, '/') == Ok::<Placement, ParseError>(next));
        assert(place_from(s, i + this.len(), after_rank) == place_from(
            s,
            i + this.len() + 1,
            next,
        ));
        lemma_read_ranks(s, i + this.len() + 1, squares, rank - 1);
    }
}

/// A placement that was written is read back: where the text holds the
/// placement of `squares` at its start and a separator behind it, reading
/// gives `squares` and the index of the separator.
proof fn lemma_read_placement(s: Seq<char>, squares: Seq<Piece>)
    requires
        squares.len() == 64,
        forall|j: int| 0 <= j < 64 ==> is_fresh(#[trigger] squares[j]),
        holds_at(s, 0, placement_text(squares)),
        placement_text(squares).len() < s.len(),
        is_separator(s[placement_text(squares).len() as int]),
    ensures
        place_from(s, 0, placement_start()) == Ok::<(Seq<Piece>, int), ParseError>(
            (squares, placement_text(squares).len() as int),
        ),
{
    lemma_read_ranks(s, 0, squares, 7);
    assert(filled(squares, 7, 0) =~= placement_start().squares);
}

proof fn lemma_decimal_digit(d: int)
    requires
        0 <= d <= 9,
    ensures
        is_digit(digit_char(d)),
        digit_value(digit_char(d)) == d,
        !is_separator(digit_char(d)),
{
}

/// A number that was written is read back.
proof fn lemma_read_number(s: Seq<char>, i: int, n: nat)
    requires
        n <= u32::MAX,
        holds_at(s, i, decimal_text(n)),
    ensures
        decimal_text(n).len() >= 1,
        number_from(s, i, 0) == number_from(s, i + decimal_text(n).len(), n),
        !is_separator(s[i]),
    decreases n,
{
    if n < 10 {
        lemma_decimal_digit(n as int);
        assert(decimal_text(n)[0] == digit_char(n as int));
        assert(s[i] == digit_char(n as int));
    } else {
        let front = decimal_text(n / 10);
        let last = digit_char((n % 10) as int);
        assert(decimal_text(n) =~= front + seq![last]);
        lemma_holds_split(s, i, front, seq![last]);
        lemma_read_number(s, i, n / 10);
        lemma_decimal_digit((n % 10) as int);
        assert(seq![last][0] == last);
        assert(s[i + front.len()] == last);
        assert((n / 10) * 10 + n % 10 == n);
    }
}

proof fn lemma_read_number_field(s: Seq<char>, i: int, n: nat)
    requires
        n <= u32::MAX,
        holds_at(s, i, decimal_text(n)),
        i + decimal_text(n).len() >= s.len() || is_separator(s[i + decimal_text(n).len()]),
    ensures
        number_at(s, i) == Ok::<(nat, int), ParseError>((n, i + decimal_text(n).len())),
{
    lemma_read_number(s, i, n);
}

/// The castling rights that were written are read back.
proof fn lemma_read_castling(s: Seq<char>, i: int, rights: Seq<bool>)
    requires
        rights.len() == 4,
        holds_at(s, i, castling_text(rights)),
        i + castling_text(rights).len() < s.len(),
        is_separator(s[i + castling_text(rights).len()]),
    ensures
        castling_at(s, i) == Ok::<(Seq<bool>, int), ParseError>(
            (rights, i + castling_text(rights).len()),
        ),
{
    let w = castling_text(rights);
    if !rights[0] && !rights[1] && !rights[2] && !rights[3] {
        assert(w[0] == '-');
        assert(s[i] == '-');
        assert(rights =~= no_rights());
    } else {
        let a = right_text(rights[0], 'K');
        let b = right_text(rights[1], 'Q');
        let c = right_text(rights[2], 'k');
        let d = right_text(rights[3], 'q');
        assert(w =~= a + (b + (c + d)));
        lemma_holds_split(s, i, a, b + (c + d));
        lemma_holds_split(s, i + a.len(), b, c + d);
        lemma_holds_split(s, i + a.len() + b.len(), c, d);
        let r0 = no_rights();
        let r1 = if rights[0] { r0.update(0, true) } else { r0 };
        let r2 = if rights[1] { r1.update(1, true) } else { r1 };
        let r3 = if rights[2] { r2.update(2, true) } else { r2 };
        let r4 = if rights[3] { r3.update(3, true) } else { r3 };
        let i1 = i + a.len();
        let i2 = i1 + b.len();
        let i3 = i2 + c.len();
        let i4 = i3 + d.len();
        assert(w.len() >= 1);
        assert(s[i] == w[0]);
        assert(w[0] != '-');
        assert(castling_at(s, i) == castling_from(s, i, r0));
        assert(castling_from(s, i, r0) == castling_from(s, i1, r1)) by {
            if rights[0] {
                assert(a[0] == 'K');
                assert(s[i] == 'K');
            }
        }
        assert(castling_from(s, i1, r1) == castling_from(s, i2, r2)) by {
            if rights[1] {
                assert(b[0] == 'Q');
                assert(s[i1] == 'Q');
            }
        }
        assert(castling_from(s, i2, r2) == castling_from(s, i3, r3)) by {
            if rights[2] {
                assert(c[0] == 'k');
                assert(s[i2] == 'k');
            }
        }
        assert(castling_from(s, i3, r3) == castling_from(s, i4, r4)) by {
            if rights[3] {
                assert(d[0] == 'q');
                assert(s[i3] == 'q');
            }
        }
        assert(r4 =~= rights);
    }
}

/// The en-passant target that was written is read back.
proof fn lemma_read_en_passant(s: Seq<char>, i: int, target: Option<u8>)
    requires
        target matches Some(sq) ==> sq < 64,
        holds_at(s, i, en_passant_text(target)),
    ensures
        en_passant_at(s, i) == Ok::<(Option<u8>, int), ParseError>(
            (target, i + en_passant_text(target).len()),
        ),
{
    let w = en_passant_text(target);
    match target {
        Some(sq) => {
            assert(w[0] == square_name(sq as int)[0]);
            assert(w[1] == square_name(sq as int)[1]);
            assert(s[i] == w[0]);
            assert(s[i + 1] == w[1]);
            assert(square_of_name(s[i], s[i + 1]) == sq as int);
        },
        None => {
            assert(w[0] == '-');
            assert(s[i] == '-');
        },
    }
}

/// Whatever a text is read as is a position that a text can hold.
pub proof fn lemma_parsed_is_textual(s: Seq<char>)
    ensures
        parse_fen(s) matches Ok(p) ==> is_textual(p),
{
    match parse_fen(s) {
        Ok(p) => {
            lemma_placed_is_fresh(s, 0, placement_start());
            let end = place_from(s, 0, placement_start())->Ok_0.1;
            let (castling, after_castling) = castling_at(s, end + 3)->Ok_0;
            if !(0 <= end + 3 < s.len() && s[end + 3] == '-') {
                lemma_castling_has_four(s, end + 3, no_rights());
            }
            let (en_passant, after_target) = en_passant_at(s, after_castling + 1)->Ok_0;
            let (plies, after_plies) = number_at(s, after_target + 1)->Ok_0;
            lemma_number_fits(s, after_target + 1, 0);
            lemma_number_fits(s, after_plies + 1, 0);
        },
        Err(_) => {},
    }
}

proof fn lemma_placed_is_fresh(s: Seq<char>, i: int, st: Placement)
    requires
        st.squares.len() == 64,
        forall|j: int| 0 <= j < 64 ==> is_fresh(#[trigger] st.squares[j]),
        0 <= st.rank < 8,
        0 <= st.file <= 8,
    ensures
        place_from(s, i, st) matches Ok((squares, end)) ==> squares.len() == 64 && (forall|j: int|
            0 <= j < 64 ==> is_fresh(#[trigger] squares[j])),
    decreases s.len() - i,
{
    if i < 0 || i >= s.len() || is_separator(s[i]) {
    } else {
        match place_char(st, s[i]) {
            Ok(next) => {
                lemma_placed_is_fresh(s, i + 1, next);
            },
            Err(_) => {},
        }
    }
}

proof fn lemma_castling_has_four(s: Seq<char>, i: int, rights: Seq<bool>)
    requires
        rights.len() == 4,
    ensures
        castling_from(s, i, rights) matches Ok((found, end)) ==> found.len() == 4,
    decreases s.len() - i,
{
    if i < 0 || i >= s.len() || is_separator(s[i]) {
    } else if s[i] == 'K' {
        lemma_castling_has_four(s, i + 1, rights.update(0, true));
    } else if s[i] == 'Q' {
        lemma_castling_has_four(s, i + 1, rights.update(1, true));
    } else if s[i] == 'k' {
        lemma_castling_has_four(s, i + 1, rights.update(2, true));
    } else if s[i] == 'q' {
        lemma_castling_has_four(s, i + 1, rights.update(3, true));
    }
}

proof fn lemma_number_fits(s: Seq<char>, i: int, acc: nat)
    requires
        acc <= u32::MAX,
    ensures
        number_from(s, i, acc) matches Ok((n, end)) ==> n <= u32::MAX,
    decreases s.len() - i,
{
    if i < 0 || i >= s.len() || is_separator(s[i]) {
    } else if !is_digit(s[i]) {
    } else if acc * 10 + digit_value(s[i]) > u32::MAX {
    } else {
        lemma_number_fits(s, i + 1, (acc * 10 + digit_value(s[i])) as nat);
    }
}

proof fn lemma_holds_append(s: Seq<char>, i: int, w: Seq<char>, x: Seq<char>)
    requires
        holds_at(s, i, w),
    ensures
        holds_at(s + x, i, w),
{
    assert forall|k: int| 0 <= k < w.len() implies (s + x)[i + k] == #[trigger] w[k] by {
        assert((s + x)[i + k] == s[i + k]);
    }
}

proof fn lemma_holds_tail(s: Seq<char>, w: Seq<char>)
    ensures
        holds_at(s + w, s.len() as int, w),
{
    assert forall|k: int| 0 <= k < w.len() implies (s + w)[s.len() + k] == #[trigger] w[k] by {}
}

/// Where the fields of a position stand in its text.
pub open spec fn laid_out(p: Position, s: Seq<char>) -> bool {
    let a = placement_text(p.squares).len() as int;
    let b = a + 3 + castling_text(p.castling).len();
    let c = b + 1 + en_passant_text(p.en_passant).len();
    let d = c + 1 + decimal_text(p.plies).len();
    &&& holds_at(s, 0, placement_text(p.squares))
    &&& holds_at(s, a, seq![' ', side_char(p.side), ' '])
    &&& holds_at(s, a + 3, castling_text(p.castling))
    &&& holds_at(s, b, seq![' '])
    &&& holds_at(s, b + 1, en_passant_text(p.en_passant))
    &&& holds_at(s, c, seq![' '])
    &&& holds_at(s, c + 1, decimal_text(p.plies))
    &&& holds_at(s, d, seq![' '])
    &&& holds_at(s, d + 1, decimal_text(p.move_nr))
    &&& s.len() == d + 1 + decimal_text(p.move_nr).len()
}

proof fn lemma_text_laid_out(p: Position)
    ensures
        laid_out(p, fen_text(p)),
{
    let placement = placement_text(p.squares);
    let side = seq![' ', side_char(p.side), ' '];
    let castling = castling_text(p.castling);
    let target = en_passant_text(p.en_passant);
    let plies = decimal_text(p.plies);
    let move_nr = decimal_text(p.move_nr);
    let blank = seq![' '];
    let t0 = Seq::<char>::empty();
    let t1 = placement;
    let t2 = t1 + side;
    let t3 = t2 + castling;
    let t4 = t3 + blank;
    let t5 = t4 + target;
    let t6 = t5 + blank;
    let t7 = t6 + plies;
    let t8 = t7 + blank;
    let t9 = t8 + move_nr;
    assert(t9 == fen_text(p));
    lemma_holds_tail(t0, placement);
    assert(t0 + placement =~= t1);
    lemma_holds_tail(t1, side);
    lemma_holds_tail(t2, castling);
    lemma_holds_tail(t3, blank);
    lemma_holds_tail(t4, target);
    lemma_holds_tail(t5, blank);
    lemma_holds_tail(t6, plies);
    lemma_holds_tail(t7, blank);
    lemma_holds_tail(t8, move_nr);
    // the placement
    lemma_holds_append(t1, 0, placement, side);
    lemma_holds_append(t2, 0, placement, castling);
    lemma_holds_append(t3, 0, placement, blank);
    lemma_holds_append(t4, 0, placement, target);
    lemma_holds_append(t5, 0, placement, blank);
    lemma_holds_append(t6, 0, placement, plies);
    lemma_holds_append(t7, 0, placement, blank);
    lemma_holds_append(t8, 0, placement, move_nr);
    // the side
    lemma_holds_append(t2, t1.len() as int, side, castling);
    lemma_holds_append(t3, t1.len() as int, side, blank);
    lemma_holds_append(t4, t1.len() as int, side, target);
    lemma_holds_append(t5, t1.len() as int, side, blank);
    lemma_holds_append(t6, t1.len() as int, side, plies);
    lemma_holds_append(t7, t1.len() as int, side, blank);
    lemma_holds_append(t8, t1.len() as int, side, move_nr);
    // the castling rights
    lemma_holds_append(t3, t2.len() as int, castling, blank);
    lemma_holds_append(t4, t2.len() as int, castling, target);
    lemma_holds_append(t5, t2.len() as int, castling, blank);
    lemma_holds_append(t6, t2.len() as int, castling, plies);
    lemma_holds_append(t7, t2.len() as int, castling, blank);
    lemma_holds_append(t8, t2.len() as int, castling, move_nr);
    // the blank behind them
    lemma_holds_append(t4, t3.len() as int, blank, target);
    lemma_holds_append(t5, t3.len() as int, blank, blank);
    lemma_holds_append(t6, t3.len() as int, blank, plies);
    lemma_holds_append(t7, t3.len() as int, blank, blank);
    lemma_holds_append(t8, t3.len() as int, blank, move_nr);
    // the en-passant target
    lemma_holds_append(t5, t4.len() as int, target, blank);
    lemma_holds_append(t6, t4.len() as int, target, plies);
    lemma_holds_append(t7, t4.len() as int, target, blank);
    lemma_holds_append(t8, t4.len() as int, target, move_nr);
    // the blank behind it
    lemma_holds_append(t6, t5.len() as int, blank, plies);
    lemma_holds_append(t7, t5.len() as int, blank, blank);
    lemma_holds_append(t8, t5.len() as int, blank, move_nr);
    // the half-move clock
    lemma_holds_append(t7, t6.len() as int, plies, blank);
    lemma_holds_append(t8, t6.len() as int, plies, move_nr);
    // the blank behind it
    lemma_holds_append(t8, t7.len() as int, blank, move_nr);
}

/// Reading the text of a position gives the position back, every field of
/// it, if the position is one that a text can hold.
pub proof fn lemma_write_then_read(p: Position)
    requires
        is_textual(p),
    ensures
        parse_fen(fen_text(p)) == Ok::<Position, ParseError>(p),
{
    let s = fen_text(p);
    let a = placement_text(p.squares).len() as int;
    let b = a + 3 + castling_text(p.castling).len();
    let c = b + 1 + en_passant_text(p.en_passant).len();
    let d = c + 1 + decimal_text(p.plies).len();
    lemma_text_laid_out(p);
    let side = seq![' ', side_char(p.side), ' '];
    let blank = seq![' '];
    assert(s[a] == ' ' && s[a + 1] == side_char(p.side) && s[a + 2] == ' ') by {
        assert(side[0] == ' ' && side[1] == side_char(p.side) && side[2] == ' ');
        assert(s[a + 0] == side[0] && s[a + 1] == side[1] && s[a + 2] == side[2]);
    }
    assert(s[b] == ' ' && s[c] == ' ' && s[d] == ' ') by {
        assert(blank[0] == ' ');
        assert(s[b + 0] == blank[0] && s[c + 0] == blank[0] && s[d + 0] == blank[0]);
    }
    lemma_read_placement(s, p.squares);
    lemma_read_castling(s, a + 3, p.castling);
    lemma_read_en_passant(s, b + 1, p.en_passant);
    lemma_read_number_field(s, c + 1, p.plies);
    lemma_read_number_field(s, d + 1, p.move_nr);
    lemma_fields_read(s, p, a, b, c, d);
}

proof fn lemma_fields_read(s: Seq<char>, p: Position, a: int, b: int, c: int, d: int)
    requires
        0 <= a,
        a + 3 <= b,
        b + 1 <= c,
        c + 1 <= d,
        d + 1 <= s.len(),
        s[a] == ' ',
        s[a + 1] == side_char(p.side),
        s[a + 2] == ' ',
        s[c] == ' ',
        s[d] == ' ',
        place_from(s, 0, placement_start()) == Ok::<(Seq<Piece>, int), ParseError>((p.squares, a)),
        castling_at(s, a + 3) == Ok::<(Seq<bool>, int), ParseError>((p.castling, b)),
        en_passant_at(s, b + 1) == Ok::<(Option<u8>, int), ParseError>((p.en_passant, c)),
        number_at(s, c + 1) == Ok::<(nat, int), ParseError>((p.plies, d)),
        number_at(s, d + 1) matches Ok((n, _)) && n == p.move_nr,
    ensures
        parse_fen(s) == Ok::<Position, ParseError>(p),
{
    assert(side_at(s, a + 1) == Ok::<Color, ParseError>(p.side));
    assert(separator_at(s, a + 2) == Ok::<(), ParseError>(()));
    assert(separator_at(s, c) == Ok::<(), ParseError>(()));
    assert(counters_at(s, c + 1) == Ok::<(nat, nat), ParseError>((p.plies, p.move_nr)));
    assert(fields_at(s, p.squares, a) == Ok::<Position, ParseError>(p));
}

/// The round trip: a position that was read from a text is read again
/// unchanged from the text that is written of it.
pub proof fn lemma_read_write_read(s: Seq<char>)
    ensures
        parse_fen(s) matches Ok(p) ==> parse_fen(fen_text(p)) == Ok::<Position, ParseError>(p),
{
    lemma_parsed_is_textual(s);
    match parse_fen(s) {
        Ok(p) => {
            lemma_write_then_read(p);
        },
        Err(_) => {},
    }
}

} // verus!
