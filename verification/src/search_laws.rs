//! What holds of the two searches together: pruning does not change what
//! the search finds.

use vstd::prelude::*;
use crate::board::{Move, Position, apply_move, game_is_over};
use crate::movegen::candidates;
use crate::search::{
    alpha_beta, alpha_beta_scan, best_move_of, improved, initial_alpha, initial_beta,
    is_objective, lemma_alpha_beta_bounded, max_of, negamax_plain, negamax_scan, objective_of,
};

verus! {

/// How the result of a pruned search stands to the result of the plain
/// search of the same position: below the bounds its score is no less than
/// the plain score, above them it is no more, and within them the two
/// searches have the same score and the same move.
pub open spec fn agrees(
    pruned: (int, Option<Move>),
    plain: (int, Option<Move>),
    alpha: int,
    beta: int,
) -> bool {
    &&& pruned.0 < alpha ==> plain.0 <= pruned.0
    &&& pruned.0 > beta ==> plain.0 >= pruned.0
    &&& alpha <= pruned.0 <= beta ==> plain == pruned
}

/// How the best move of a pruned scan stands to the best move of the plain
/// scan over the same moves, see [`agrees`].
pub open spec fn scans_agree(
    pruned: Option<(int, Move)>,
    plain: Option<(int, Move)>,
    alpha: int,
    beta: int,
) -> bool {
    match (pruned, plain) {
        (Some((s, m)), Some((t, n))) => {
            &&& s < alpha ==> t <= s
            &&& s > beta ==> t >= s
            &&& alpha <= s <= beta ==> t == s && n == m
        },
        (None, None) => true,
        _ => false,
    }
}

/// While a pruned scan and the plain scan run side by side: as long as the
/// pruned scan has found no score of at least alpha, the plain scan has
/// found none above the pruned one's; from then on the two have found the
/// same.
pub open spec fn scans_in_step(
    pruned: Option<(int, Move)>,
    plain: Option<(int, Move)>,
    alpha: int,
) -> bool {
    match (pruned, plain) {
        (Some((s, m)), Some((t, n))) => if s >= alpha {
            t == s && n == m
        } else {
            t <= s
        },
        (None, None) => true,
        _ => false,
    }
}

/// The bound to which a scan has raised alpha when it holds a best move.
pub open spec fn raised_to(alpha: int, kept: Option<(int, Move)>) -> int {
    match kept {
        Some((s, _)) => max_of(alpha, s),
        None => alpha,
    }
}

/// A plain scan never ends below the score that it started with, and it
/// ends with a move if it started with one or has one to look at.
proof fn lemma_plain_scan_grows(
    p: Position,
    depth: nat,
    obj: int,
    i: nat,
    kept: Option<(int, Move)>,
)
    requires
        depth > 0,
    ensures
        kept.is_some() || i < candidates(p).len() ==> negamax_scan(p, depth, obj, i, kept).is_some(),
        kept matches Some((s, _)) ==> negamax_scan(p, depth, obj, i, kept)->Some_0.0 >= s,
    decreases candidates(p).len() - i,
{
    if i < candidates(p).len() {
        let m = candidates(p)[i as int];
        let child = -negamax_plain(apply_move(p, m), (depth - 1) as nat, -obj).0;
        lemma_plain_scan_grows(p, depth, obj, i + 1, Some(improved(kept, child, m)));
    }
}

/// Pruning is sound: for bounds that are in order, the result of the
/// alpha-beta search agrees with the result of the plain negamax search of
/// the same position to the same depth, as [`agrees`] says.
pub proof fn lemma_pruning_sound(p: Position, depth: nat, alpha: int, beta: int, obj: int)
    requires
        alpha <= beta,
    ensures
        agrees(alpha_beta(p, depth, alpha, beta, obj), negamax_plain(p, depth, obj), alpha, beta),
    decreases depth, 1nat, 0nat,
{
    if depth == 0 || game_is_over(p) || candidates(p).len() == 0 {
    } else {
        lemma_scan_pruning_sound(p, depth, alpha, alpha, beta, obj, 0, None, None);
    }
}

proof fn lemma_scan_pruning_sound(
    p: Position,
    depth: nat,
    alpha: int,
    raised: int,
    beta: int,
    obj: int,
    i: nat,
    kept: Option<(int, Move)>,
    plain_kept: Option<(int, Move)>,
)
    requires
        depth > 0,
        raised == raised_to(alpha, kept),
        raised <= beta,
        scans_in_step(kept, plain_kept, alpha),
    ensures
        scans_agree(
            alpha_beta_scan(p, depth, raised, beta, obj, i, kept),
            negamax_scan(p, depth, obj, i, plain_kept),
            alpha,
            beta,
        ),
        kept.is_some() || i < candidates(p).len() ==> alpha_beta_scan(
            p,
            depth,
            raised,
            beta,
            obj,
            i,
            kept,
        ).is_some(),
    decreases depth, 0nat, candidates(p).len() - i,
{
    if i < candidates(p).len() {
        let m = candidates(p)[i as int];
        let next = apply_move(p, m);
        lemma_pruning_sound(next, (depth - 1) as nat, -beta, -raised, -obj);
        let pruned_child = -alpha_beta(next, (depth - 1) as nat, -beta, -raised, -obj).0;
        let plain_child = -negamax_plain(next, (depth - 1) as nat, -obj).0;
        assert(pruned_child > beta ==> plain_child >= pruned_child);
        assert(pruned_child < raised ==> plain_child <= pruned_child);
        assert(raised <= pruned_child <= beta ==> plain_child == pruned_child);
        let better = improved(kept, pruned_child, m);
        let plain_better = improved(plain_kept, plain_child, m);
        let higher = max_of(raised, better.0);
        if higher > beta {
            lemma_plain_scan_grows(p, depth, obj, i + 1, Some(plain_better));
        } else {
            assert(scans_in_step(Some(better), Some(plain_better), alpha));
            lemma_scan_pruning_sound(
                p,
                depth,
                alpha,
                higher,
                beta,
                obj,
                i + 1,
                Some(better),
                Some(plain_better),
            );
        }
    }
}

/// The score of the `k`-th candidate move in a search to `depth` plies: the
/// negated score of the plain search one ply less deep in the position
/// after the move, for the other side.
pub open spec fn child_score(p: Position, depth: nat, obj: int, k: int) -> int {
    -negamax_plain(apply_move(p, candidates(p)[k]), (depth - 1) as nat, -obj).0
}

/// The `j`-th candidate move is the first with the greatest score among the
/// first `upto` candidate moves, and `best` holds that score and that move.
pub open spec fn is_first_maximum(
    p: Position,
    depth: nat,
    obj: int,
    upto: int,
    best: (int, Move),
    j: int,
) -> bool {
    &&& 0 <= j < upto
    &&& candidates(p)[j] == best.1
    &&& child_score(p, depth, obj, j) == best.0
    &&& forall|k: int| 0 <= k < upto ==> #[trigger] child_score(p, depth, obj, k) <= best.0
    &&& forall|k: int| 0 <= k < j ==> #[trigger] child_score(p, depth, obj, k) < best.0
}

proof fn lemma_plain_scan_first_maximum(
    p: Position,
    depth: nat,
    obj: int,
    i: nat,
    kept: Option<(int, Move)>,
    j: int,
) -> (found: int)
    requires
        depth > 0,
        i <= candidates(p).len(),
        kept matches Some(best) ==> is_first_maximum(p, depth, obj, i as int, best, j),
        kept.is_none() ==> i == 0 && candidates(p).len() > 0,
    ensures
        negamax_scan(p, depth, obj, i, kept) matches Some(best) && is_first_maximum(
            p,
            depth,
            obj,
            candidates(p).len() as int,
            best,
            found,
        ),
    decreases candidates(p).len() - i,
{
    if i < candidates(p).len() {
        let m = candidates(p)[i as int];
        let child = child_score(p, depth, obj, i as int);
        let better = improved(kept, child, m);
        let at = if kept.is_none() || child > kept->Some_0.0 {
            i as int
        } else {
            j
        };
        assert(is_first_maximum(p, depth, obj, (i + 1) as int, better, at));
        lemma_plain_scan_first_maximum(p, depth, obj, i + 1, Some(better), at)
    } else {
        j
    }
}

/// What the plain search finds is the maximum: where it has a move to make,
/// its score is the greatest of the scores of the candidate moves, and its
/// move is the first candidate move with that score.
pub proof fn lemma_negamax_is_first_maximum(p: Position, depth: nat, obj: int) -> (found: int)
    requires
        depth > 0,
        !game_is_over(p),
        candidates(p).len() > 0,
    ensures
        negamax_plain(p, depth, obj).1 matches Some(m) && is_first_maximum(
            p,
            depth,
            obj,
            candidates(p).len() as int,
            (negamax_plain(p, depth, obj).0, m),
            found,
        ),
{
    lemma_plain_scan_first_maximum(p, depth, obj, 0, None, 0)
}

/// With the bounds that a search starts with, pruning changes nothing: the
/// alpha-beta search finds the score and the move that the plain negamax
/// search finds.
pub proof fn lemma_best_move_is_negamax(p: Position, depth: nat)
    ensures
        best_move_of(p, depth) == negamax_plain(p, depth, objective_of(p.side)),
{
    let obj = objective_of(p.side);
    lemma_alpha_beta_bounded(p, depth, initial_alpha(), initial_beta(), obj);
    lemma_pruning_sound(p, depth, initial_alpha(), initial_beta(), obj);
}

} // verus!
