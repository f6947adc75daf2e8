//! Perft: the number of leaf positions that the candidate moves reach at a
//! given depth, counted by making and unmaking every move on one board.

use vstd::prelude::*;
use crate::board::{Board, Position, apply_move, lemma_view_injective};
use crate::fen::{ParseError, board_from_fen, parse_fen};
use crate::geometry::{get_num_squares_to_edge, is_edge_table};
use crate::movegen::{candidates, generate_moves_with};
use crate::movegen_laws::{lemma_candidates_sound, lemma_unmake_restores_candidate};

verus! {

/// The number of leaf positions at `depth` plies below a position: one at
/// depth zero, else the sum over the candidate moves of the leaves below the
/// position that each of them leads to.
pub open spec fn perft_count(p: Position, depth: nat) -> nat
    decreases depth, 1nat, 0nat,
{
    if depth == 0 {
        1
    } else {
        perft_tail(p, depth, 0)
    }
}

/// The leaves at `depth >= 1` plies below a position that are reached
/// through its candidate moves from the `i`-th on.
pub open spec fn perft_tail(p: Position, depth: nat, i: nat) -> nat
    decreases depth, 0nat, candidates(p).len() - i,
{
    if depth == 0 || i >= candidates(p).len() {
        0
    } else {
        perft_count(apply_move(p, candidates(p)[i as int]), (depth - 1) as nat) + perft_tail(
            p,
            depth,
            i + 1,
        )
    }
}

/// A count as a `u32` holds it: itself, or the largest `u32` if it is
/// larger.
pub open spec fn saturated(n: nat) -> u32 {
    if n <= u32::MAX {
        n as u32
    } else {
        u32::MAX
    }
}

/// Counts the leaf positions at `depth` plies below the board's position.
/// The board is changed while the count runs and is the same again when it
/// ends. A count that a `u32` cannot hold comes back as `u32::MAX`.
pub fn perft_rec(board: &mut Board, depth: u32) -> (count: u32)
    requires
        old(board).move_nr + depth <= u32::MAX,
    ensures
        *final(board) == *old(board),
        count == saturated(perft_count(old(board)@, depth as nat)),
{
    let squares_to_edge = get_num_squares_to_edge();
    count_leaves(board, depth, &squares_to_edge)
}

/// Counts the leaf positions as [`perft_rec`] does, with the one table of
/// distances that the whole count shares.
fn count_leaves(board: &mut Board, depth: u32, squares_to_edge: &[[u8; 8]; 64]) -> (count: u32)
    requires
        old(board).move_nr + depth <= u32::MAX,
        is_edge_table(*squares_to_edge),
    ensures
        *final(board) == *old(board),
        count == saturated(perft_count(old(board)@, depth as nat)),
    decreases depth,
{
    if depth == 0 {
        return 1;
    }
    let ghost p = board@;
    let moves = generate_moves_with(board, squares_to_edge);
    let mut s: u32 = 0;
    let mut i: usize = 0;
    while i < moves.len()
        invariant
            i <= moves.len(),
            depth > 0,
            *board == *old(board),
            p == board@,
            board.move_nr + depth <= u32::MAX,
            is_edge_table(*squares_to_edge),
            moves@ == candidates(p),
            saturated(s as nat + perft_tail(p, depth as nat, i as nat)) == saturated(
                perft_tail(p, depth as nat, 0),
            ),
        decreases moves.len() - i,
    {
        let m = moves[i];
        proof {
            lemma_candidates_sound(p, i as int);
            lemma_unmake_restores_candidate(p, i as int);
        }
        let undo = board.make_move(&m);
        let below = count_leaves(board, depth - 1, squares_to_edge);
        board.unmake_move(&m, &undo);
        proof {
            lemma_view_injective(*board, *old(board));
        }
        s = s.saturating_add(below);
        i = i + 1;
    }
    s
}

/// What [`perft`] returns for a text and a depth: the error of the text
/// where it describes no position; `NumberOutOfRange` where the move number
/// of the position leaves no room for `depth` more moves; else the count.
pub open spec fn perft_of_text(s: Seq<char>, depth: nat) -> Result<u32, ParseError> {
    match parse_fen(s) {
        Err(e) => Err(e),
        Ok(p) => if p.move_nr + depth > u32::MAX {
            Err(ParseError::NumberOutOfRange)
        } else {
            Ok(saturated(perft_count(p, depth)))
        },
    }
}

/// Counts the leaf positions at `depth` plies below the position that a
/// text describes.
pub fn perft(fen: &str, depth: u32) -> (r: Result<u32, ParseError>)
    ensures
        r == perft_of_text(fen@, depth as nat),
{
    match board_from_fen(fen) {
        Err(e) => Err(e),
        Ok(mut board) => {
            if board.move_nr > u32::MAX - depth {
                Err(ParseError::NumberOutOfRange)
            } else {
                Ok(perft_rec(&mut board, depth))
            }
        },
    }
}

} // verus!
