//! Fixed-depth negamax search, with and without alpha-beta pruning, over
//! the candidate moves of the board and the material evaluation.

use vstd::prelude::*;
use crate::piece::Color;
use crate::board::{Board, Move, Position, apply_move, game_is_over, lemma_view_injective};
use crate::eval::{SCORE_BOUND, evaluate, evaluation, lemma_evaluation_bounded};
use crate::geometry::{get_num_squares_to_edge, is_edge_table};
use crate::movegen::{candidates, generate_moves_with};
use crate::movegen_laws::{lemma_candidates_sound, lemma_unmake_restores_candidate};

verus! {

/// The sign that turns the evaluation, which is White's, into the score of
/// a side: one for White, minus one for Black.
pub open spec fn objective_of(c: Color) -> int {
    match c {
        Color::White => 1,
        Color::Black => -1,
    }
}

/// The value is one or minus one.
pub open spec fn is_objective(obj: int) -> bool {
    obj == 1 || obj == -1
}

/// The larger of two numbers.
pub open spec fn max_of(a: int, b: int) -> int {
    if a >= b {
        a
    } else {
        b
    }
}

/// The best move so far and its score, after a move with score `child` was
/// looked at: the new move only where its score is strictly greater, so
/// that of equal moves the first stays.
pub open spec fn improved(best: Option<(int, Move)>, child: int, m: Move) -> (int, Move) {
    match best {
        Some((score, kept)) => if child > score {
            (child, m)
        } else {
            (score, kept)
        },
        None => (child, m),
    }
}

/// What a search returns for the best move that its scan found: the score
/// and the move, or the evaluation and no move where there was none.
pub open spec fn outcome(p: Position, obj: int, best: Option<(int, Move)>) -> (int, Option<Move>) {
    match best {
        Some((score, m)) => (score, Some(m)),
        None => (obj * evaluation(p), None),
    }
}

/// The result of the alpha-beta search of a position to a depth.
///
/// At depth zero, when the game is over, or when there is no candidate
/// move, it is the evaluation times the objective, and no move. Otherwise
/// it is the result of the scan over the candidate moves.
pub open spec fn alpha_beta(p: Position, depth: nat, alpha: int, beta: int, obj: int) -> (
    int,
    Option<Move>,
)
    decreases depth, 1nat, 0nat,
{
    if depth == 0 || game_is_over(p) || candidates(p).len() == 0 {
        (obj * evaluation(p), None)
    } else {
        outcome(p, obj, alpha_beta_scan(p, depth, alpha, beta, obj, 0, None))
    }
}

/// The scan of the alpha-beta search over the candidate moves from the
/// `i`-th on, in their order, with the best move found before them.
///
/// The score of a move is the negated score of the search one ply less
/// deep in the position after it, with the negated bounds exchanged and the
/// objective negated. The best move is replaced where the score is strictly
/// greater. Then alpha is raised to the best score, and the scan ends where
/// alpha exceeds beta.
pub open spec fn alpha_beta_scan(
    p: Position,
    depth: nat,
    alpha: int,
    beta: int,
    obj: int,
    i: nat,
    best: Option<(int, Move)>,
) -> Option<(int, Move)>
    decreases depth, 0nat, candidates(p).len() - i,
{
    if depth == 0 || i >= candidates(p).len() {
        best
    } else {
        let m = candidates(p)[i as int];
        let child = -alpha_beta(apply_move(p, m), (depth - 1) as nat, -beta, -alpha, -obj).0;
        let better = improved(best, child, m);
        let raised = max_of(alpha, better.0);
        if raised > beta {
            Some(better)
        } else {
            alpha_beta_scan(p, depth, raised, beta, obj, i + 1, Some(better))
        }
    }
}

/// The result of the plain negamax search of a position to a depth: as
/// [`alpha_beta`], without bounds and without pruning.
pub open spec fn negamax_plain(p: Position, depth: nat, obj: int) -> (int, Option<Move>)
    decreases depth, 1nat, 0nat,
{
    if depth == 0 || game_is_over(p) || candidates(p).len() == 0 {
        (obj * evaluation(p), None)
    } else {
        outcome(p, obj, negamax_scan(p, depth, obj, 0, None))
    }
}

/// The scan of the plain negamax search over the candidate moves from the
/// `i`-th on, with the best move found before them.
pub open spec fn negamax_scan(
    p: Position,
    depth: nat,
    obj: int,
    i: nat,
    best: Option<(int, Move)>,
) -> Option<(int, Move)>
    decreases depth, 0nat, candidates(p).len() - i,
{
    if depth == 0 || i >= candidates(p).len() {
        best
    } else {
        let m = candidates(p)[i as int];
        let child = -negamax_plain(apply_move(p, m), (depth - 1) as nat, -obj).0;
        negamax_scan(p, depth, obj, i + 1, Some(improved(best, child, m)))
    }
}

/// The lower bound with which a search starts.
pub open spec fn initial_alpha() -> int {
    i32::MIN + 2
}

/// The upper bound with which a search starts.
pub open spec fn initial_beta() -> int {
    i32::MAX - 2
}

/// The score and the best move of a position at a depth, for the side to
/// move.
pub open spec fn best_move_of(p: Position, depth: nat) -> (int, Option<Move>) {
    alpha_beta(p, depth, initial_alpha(), initial_beta(), objective_of(p.side))
}

/// The search has no hidden input: two boards with the same position give
/// the same score and the same best move at the same depth.
pub proof fn lemma_search_deterministic(first: Board, second: Board, depth: nat)
    requires
        first@ == second@,
    ensures
        best_move_of(first@, depth) == best_move_of(second@, depth),
{
}

/// The score is a score that a search can return.
pub open spec fn in_score_range(score: int) -> bool {
    -SCORE_BOUND <= score <= SCORE_BOUND
}

/// The score of a best move so far, if there is one, is in range.
pub open spec fn best_in_range(best: Option<(int, Move)>) -> bool {
    match best {
        Some((score, _)) => in_score_range(score),
        None => true,
    }
}

/// The score of an alpha-beta search is never further from zero than
/// `SCORE_BOUND`, and a search returns a move exactly where it is deeper
/// than zero, the game is not over and there is a candidate move.
pub proof fn lemma_alpha_beta_bounded(p: Position, depth: nat, alpha: int, beta: int, obj: int)
    requires
        is_objective(obj),
    ensures
        in_score_range(alpha_beta(p, depth, alpha, beta, obj).0),
        alpha_beta(p, depth, alpha, beta, obj).1.is_some() <==> depth > 0 && !game_is_over(p)
            && candidates(p).len() > 0,
    decreases depth, 1nat, 0nat,
{
    lemma_evaluation_bounded(p);
    if depth == 0 || game_is_over(p) || candidates(p).len() == 0 {
    } else {
        lemma_alpha_beta_scan_bounded(p, depth, alpha, beta, obj, 0, None);
    }
}

proof fn lemma_alpha_beta_scan_bounded(
    p: Position,
    depth: nat,
    alpha: int,
    beta: int,
    obj: int,
    i: nat,
    best: Option<(int, Move)>,
)
    requires
        is_objective(obj),
        best_in_range(best),
        depth > 0,
    ensures
        best_in_range(alpha_beta_scan(p, depth, alpha, beta, obj, i, best)),
        best.is_some() || i < candidates(p).len() ==> alpha_beta_scan(
            p,
            depth,
            alpha,
            beta,
            obj,
            i,
            best,
        ).is_some(),
    decreases depth, 0nat, candidates(p).len() - i,
{
    if i < candidates(p).len() {
        let m = candidates(p)[i as int];
        lemma_alpha_beta_bounded(apply_move(p, m), (depth - 1) as nat, -beta, -alpha, -obj);
        let child = -alpha_beta(apply_move(p, m), (depth - 1) as nat, -beta, -alpha, -obj).0;
        let better = improved(best, child, m);
        let raised = max_of(alpha, better.0);
        if raised > beta {
        } else {
            lemma_alpha_beta_scan_bounded(p, depth, raised, beta, obj, i + 1, Some(better));
        }
    }
}

/// The score of a plain negamax search is never further from zero than
/// `SCORE_BOUND`, and a search returns a move exactly where it is deeper
/// than zero, the game is not over and there is a candidate move.
pub proof fn lemma_negamax_bounded(p: Position, depth: nat, obj: int)
    requires
        is_objective(obj),
    ensures
        in_score_range(negamax_plain(p, depth, obj).0),
        negamax_plain(p, depth, obj).1.is_some() <==> depth > 0 && !game_is_over(p) && candidates(
            p,
        ).len() > 0,
    decreases depth, 1nat, 0nat,
{
    lemma_evaluation_bounded(p);
    if depth == 0 || game_is_over(p) || candidates(p).len() == 0 {
    } else {
        lemma_negamax_scan_bounded(p, depth, obj, 0, None);
    }
}

proof fn lemma_negamax_scan_bounded(
    p: Position,
    depth: nat,
    obj: int,
    i: nat,
    best: Option<(int, Move)>,
)
    requires
        is_objective(obj),
        best_in_range(best),
        depth > 0,
    ensures
        best_in_range(negamax_scan(p, depth, obj, i, best)),
        best.is_some() || i < candidates(p).len() ==> negamax_scan(p, depth, obj, i, best).is_some(),
    decreases depth, 0nat, candidates(p).len() - i,
{
    if i < candidates(p).len() {
        let m = candidates(p)[i as int];
        lemma_negamax_bounded(apply_move(p, m), (depth - 1) as nat, -obj);
        let child = -negamax_plain(apply_move(p, m), (depth - 1) as nat, -obj).0;
        lemma_negamax_scan_bounded(p, depth, obj, i + 1, Some(improved(best, child, m)));
    }
}

/// The best move so far as the search holds it: no move and the lowest
/// score before the first move was looked at, then a move and its score.
pub open spec fn held(score: i32, best_move: Option<Move>) -> Option<(int, Move)> {
    match best_move {
        Some(m) => Some((score as int, m)),
        None => None,
    }
}

/// The engine's player: a side, the objective that belongs to it, and the
/// table of distances to the edge that its searches share.
#[derive(Debug)]
pub struct Bot {
    color: Color,
    objective: i32,
    squares_to_edge: [[u8; 8]; 64],
}

impl Bot {
    #[verifier::type_invariant]
    spec fn well_formed(self) -> bool {
        self.objective as int == objective_of(self.color) && is_edge_table(self.squares_to_edge)
    }

    /// The side that the bot plays.
    pub closed spec fn side(self) -> Color {
        self.color
    }

    /// A bot that plays the given side.
    pub fn new(color: Color) -> (bot: Bot)
        ensures
            bot.side() == color,
    {
        Bot {
            color,
            objective: match color {
                Color::White => 1,
                Color::Black => -1,
            },
            squares_to_edge: get_num_squares_to_edge(),
        }
    }

    /// The side that the bot plays.
    pub fn color(&self) -> (c: Color)
        ensures
            c == self.side(),
    {
        self.color
    }

    /// The bot's objective: one if it plays White, minus one if it plays
    /// Black.
    pub fn objective(&self) -> (obj: i32)
        ensures
            obj == objective_of(self.side()),
    {
        proof {
            use_type_invariant(self);
        }
        self.objective
    }

    /// The evaluation of a board, from White's side.
    pub fn eval(&self, board: &Board) -> (score: i32)
        ensures
            score == evaluation(board@),
            in_score_range(score as int),
    {
        evaluate(board)
    }

    /// Searches the position to `depth` plies without pruning and returns
    /// the score and the best move. The board is changed while the search
    /// runs and is the same again when it ends.
    pub fn negamax(&self, board: &mut Board, depth: u8, player_obj: i32) -> (r: (i32, Option<Move>))
        requires
            old(board).move_nr + depth <= u32::MAX,
            is_objective(player_obj as int),
        ensures
            *final(board) == *old(board),
            r.0 == negamax_plain(old(board)@, depth as nat, player_obj as int).0,
            r.1 == negamax_plain(old(board)@, depth as nat, player_obj as int).1,
        decreases depth,
    {
        let ghost p = board@;
        let ghost obj = player_obj as int;
        if depth == 0 || board.game_over() {
            return (player_obj * self.eval(board), None);
        }
        proof {
            use_type_invariant(self);
        }
        let moves = generate_moves_with(board, &self.squares_to_edge);
        if moves.len() == 0 {
            return (player_obj * self.eval(board), None);
        }
        let mut score: i32 = i32::MIN;
        let mut best_move: Option<Move> = None;
        let mut i: usize = 0;
        while i < moves.len()
            invariant
                i <= moves.len(),
                depth > 0,
                *board == *old(board),
                p == board@,
                obj == player_obj as int,
                is_objective(obj),
                board.move_nr + depth <= u32::MAX,
                moves@ == candidates(p),
                best_move.is_none() ==> score == i32::MIN,
                best_in_range(held(score, best_move)),
                negamax_scan(p, depth as nat, obj, i as nat, held(score, best_move)) == negamax_scan(
                    p,
                    depth as nat,
                    obj,
                    0,
                    None,
                ),
            decreases moves.len() - i,
        {
            let m = moves[i];
            proof {
                lemma_candidates_sound(p, i as int);
                lemma_unmake_restores_candidate(p, i as int);
                lemma_negamax_bounded(apply_move(p, m), (depth - 1) as nat, -obj);
            }
            let undo = board.make_move(&m);
            let child = self.negamax(board, depth - 1, -player_obj);
            board.unmake_move(&m, &undo);
            proof {
                lemma_view_injective(*board, *old(board));
            }
            let child_score: i32 = -child.0;
            if child_score > score {
                score = child_score;
                best_move = Some(m);
            }
            i = i + 1;
        }
        proof {
            lemma_negamax_scan_bounded(p, depth as nat, obj, 0, None);
        }
        (score, best_move)
    }

    /// Searches the position to `depth` plies with alpha-beta pruning and
    /// returns the score and the best move, or the evaluation and no move
    /// where the search has no move to make. The board is changed while the
    /// search runs and is the same again when it ends.
    pub fn negamax_ab(
        &self,
        board: &mut Board,
        depth: u8,
        alpha: i32,
        beta: i32,
        player_obj: i32,
    ) -> (r: (i32, Option<Move>))
        requires
            old(board).move_nr + depth <= u32::MAX,
            is_objective(player_obj as int),
            alpha > i32::MIN,
            beta > i32::MIN,
        ensures
            *final(board) == *old(board),
            r.0 == alpha_beta(old(board)@, depth as nat, alpha as int, beta as int, player_obj as int).0,
            r.1 == alpha_beta(old(board)@, depth as nat, alpha as int, beta as int, player_obj as int).1,
        decreases depth,
    {
        let ghost p = board@;
        let ghost obj = player_obj as int;
        if depth == 0 || board.game_over() {
            return (player_obj * self.eval(board), None);
        }
        proof {
            use_type_invariant(self);
        }
        let moves = generate_moves_with(board, &self.squares_to_edge);
        if moves.len() == 0 {
            return (player_obj * self.eval(board), None);
        }
        let mut score: i32 = i32::MIN;
        let mut best_move: Option<Move> = None;
        let mut raised: i32 = alpha;
        let mut pruned = false;
        let mut i: usize = 0;
        while i < moves.len() && !pruned
            invariant
                i <= moves.len(),
                depth > 0,
                *board == *old(board),
                p == board@,
                obj == player_obj as int,
                is_objective(obj),
                board.move_nr + depth <= u32::MAX,
                moves@ == candidates(p),
                raised > i32::MIN,
                beta > i32::MIN,
                best_move.is_none() ==> score == i32::MIN,
                best_in_range(held(score, best_move)),
                pruned ==> best_move.is_some(),
                (if pruned {
                    held(score, best_move)
                } else {
                    alpha_beta_scan(
                        p,
                        depth as nat,
                        raised as int,
                        beta as int,
                        obj,
                        i as nat,
                        held(score, best_move),
                    )
                }) == alpha_beta_scan(p, depth as nat, alpha as int, beta as int, obj, 0, None),
            decreases moves.len() - i, if pruned { 0int } else { 1int },
        {
            let m = moves[i];
            proof {
                lemma_candidates_sound(p, i as int);
                lemma_unmake_restores_candidate(p, i as int);
                lemma_alpha_beta_bounded(
                    apply_move(p, m),
                    (depth - 1) as nat,
                    -beta,
                    -raised,
                    -obj,
                );
            }
            let undo = board.make_move(&m);
            let child = self.negamax_ab(board, depth - 1, -beta, -raised, -player_obj);
            board.unmake_move(&m, &undo);
            proof {
                lemma_view_injective(*board, *old(board));
            }
            let child_score: i32 = -child.0;
            if child_score > score {
                score = child_score;
                best_move = Some(m);
            }
            if score > raised {
                raised = score;
            }
            if raised > beta {
                pruned = true;
            } else {
                i = i + 1;
            }
        }
        proof {
            lemma_alpha_beta_scan_bounded(p, depth as nat, alpha as int, beta as int, obj, 0, None);
        }
        (score, best_move)
    }

    /// Searches three plies deep for the bot's objective and returns the
    /// move it found, or none where the position has no candidate move.
    pub fn get_move(&self, board: &mut Board) -> (best: Option<Move>)
        requires
            old(board).move_nr + 3 <= u32::MAX,
        ensures
            *final(board) == *old(board),
            best == alpha_beta(
                old(board)@,
                3,
                initial_alpha(),
                initial_beta(),
                objective_of(self.side()),
            ).1,
    {
        let objective = self.objective();
        let found = self.negamax_ab(board, 3, i32::MIN + 2, i32::MAX - 2, objective);
        found.1
    }
}

/// Searches the position to `depth` plies for the side to move and returns
/// the score and the best move, or the evaluation and no move where the
/// search has no move to make: at depth zero, and where the position has no
/// candidate move. The board is the same again when the search ends.
pub fn best_move(board: &mut Board, depth: u8) -> (r: (i32, Option<Move>))
    requires
        old(board).move_nr + depth <= u32::MAX,
    ensures
        *final(board) == *old(board),
        r.0 == best_move_of(old(board)@, depth as nat).0,
        r.1 == best_move_of(old(board)@, depth as nat).1,
        in_score_range(r.0 as int),
        r.1.is_some() <==> depth > 0 && candidates(old(board)@).len() > 0,
{
    let bot = Bot::new(board.color_to_move);
    let objective = bot.objective();
    proof {
        lemma_alpha_beta_bounded(
            board@,
            depth as nat,
            initial_alpha(),
            initial_beta(),
            objective as int,
        );
    }
    bot.negamax_ab(board, depth, i32::MIN + 2, i32::MAX - 2, objective)
}

} // verus!
