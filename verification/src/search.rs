//! The decisions of the tactical search: how a score moves the search window,
//! and what a refuted move means for the squares involved.
//!
//! Generating and playing moves is left to the caller, who hands each score
//! to these functions and does what they say.

use vstd::prelude::*;

verus! {

/// The score below which nothing is worse: where a search starts.
pub const WORST_SCORE: i32 = -30_000;

/// The score of a position in which the side to move has no move and has not
/// drawn: that side has lost.
pub const LOST_SCORE: i32 = -20_000;

/// A move is unsafe when the best reply gains at least this much.
pub const SAFETY_MARGIN: i32 = 50;

/// The weight of the danger on the square that the refuting reply goes to.
pub const DANGER_TO_WEIGHT: i32 = 1000;

/// The weight of the danger on the square that a capturing reply comes from.
pub const DANGER_FROM_WEIGHT: i32 = 500;

/// The window of an alpha-beta search at one node, and the best move found so
/// far, as its number in the list of moves.
#[derive(Clone, Copy, Debug, PartialEq, Eq)]
pub struct SearchWindow {
    pub alpha: i32,
    pub beta: i32,
    pub best_score: i32,
    pub best_move: Option<usize>,
}

/// What a tactical probe of a move says: whether the move is safe, and the
/// squares that the refutation makes dangerous, each with a weight.
#[derive(Debug, PartialEq, Eq)]
pub struct TacticalFeedback {
    pub is_safe: bool,
    pub danger_squares: Vec<(usize, i32)>,
}

/// The score of a node without moves: a draw counts 0, otherwise the side to
/// move has lost.
pub fn no_moves_score(drawn: bool) -> (score: i32)
    ensures
        score == if drawn { 0 } else { LOST_SCORE as int },
{
    if drawn {
        0
    } else {
        LOST_SCORE
    }
}

impl SearchWindow {
    /// The window at the start of a node.
    pub fn open(alpha: i32, beta: i32) -> (w: SearchWindow)
        ensures
            w == (SearchWindow { alpha, beta, best_score: WORST_SCORE, best_move: None }),
    {
        SearchWindow { alpha, beta, best_score: WORST_SCORE, best_move: None }
    }

    /// The window with which a child of this node is searched: the negated
    /// bounds in the opposite order.
    pub fn child_bounds(&self) -> (bounds: (i32, i32))
        requires
            self.alpha > i32::MIN,
            self.beta > i32::MIN,
        ensures
            bounds.0 == -self.beta,
            bounds.1 == -self.alpha,
    {
        (-self.beta, -self.alpha)
    }

    /// Takes in the score that the search of the child behind move number
    /// `move_index` gave, seen from the child. The result says whether the
    /// node is cut off: the negated score reaches beta. Otherwise a score
    /// above alpha raises alpha and makes the move the best one.
    pub fn absorb(&mut self, move_index: usize, child_score: i32) -> (cutoff: bool)
        requires
            child_score > i32::MIN,
        ensures
            cutoff == (-child_score >= old(self).beta),
            final(self).beta == old(self).beta,
            cutoff ==> *final(self) == *old(self),
            !cutoff && -child_score > old(self).alpha ==> final(self).alpha == -child_score
                && final(self).best_score == -child_score && final(self).best_move == Some(
                move_index,
            ),
            !cutoff && -child_score <= old(self).alpha ==> *final(self) == *old(self),
    {
        let score = -child_score;
        if score >= self.beta {
            return true;
        }
        if score > self.alpha {
            self.alpha = score;
            self.best_score = score;
            self.best_move = Some(move_index);
        }
        false
    }

    /// What the node returns once it is cut off at move number `move_index`:
    /// beta, and that move.
    pub fn cutoff_result(&self, move_index: usize) -> (r: (i32, Option<usize>))
        ensures
            r == (self.beta, Some(move_index)),
    {
        (self.beta, Some(move_index))
    }

    /// What the node returns after its last move: the best score and move.
    pub fn result(&self) -> (r: (i32, Option<usize>))
        ensures
            r == (self.best_score, self.best_move),
    {
        (self.best_score, self.best_move)
    }
}

/// The first step of the quiescence search at a node with the static
/// evaluation `stand_pat`: `Err(beta)` where that already reaches beta, else
/// `Ok` with alpha raised to it where it is higher.
pub fn stand_pat_bound(stand_pat: i32, alpha: i32, beta: i32) -> (r: Result<i32, i32>)
    ensures
        stand_pat >= beta ==> r == Err::<i32, i32>(beta),
        stand_pat < beta ==> r == Ok::<i32, i32>(if stand_pat > alpha { stand_pat } else { alpha }),
{
    if stand_pat >= beta {
        Err(beta)
    } else if stand_pat > alpha {
        Ok(stand_pat)
    } else {
        Ok(alpha)
    }
}

/// One step of the quiescence search: takes in the score of a capture, seen
/// from the child. `Err(beta)` where the negated score reaches beta, else `Ok`
/// with alpha raised to it where it is higher.
pub fn quiescence_step(child_score: i32, alpha: i32, beta: i32) -> (r: Result<i32, i32>)
    requires
        child_score > i32::MIN,
    ensures
        -child_score >= beta ==> r == Err::<i32, i32>(beta),
        -child_score < beta ==> r == Ok::<i32, i32>(
            if -child_score > alpha { (-child_score) as i32 } else { alpha },
        ),
{
    let score = -child_score;
    if score >= beta {
        Err(beta)
    } else if score > alpha {
        Ok(score)
    } else {
        Ok(alpha)
    }
}

/// The danger squares of a probe with the given verdict.
pub open spec fn danger_squares_of(
    is_safe: bool,
    best_response: Option<(usize, usize)>,
    target_occupied: bool,
) -> Seq<(usize, i32)> {
    match best_response {
        Some(reply) if !is_safe => if target_occupied {
            seq![(reply.1, DANGER_TO_WEIGHT), (reply.0, DANGER_FROM_WEIGHT)]
        } else {
            seq![(reply.1, DANGER_TO_WEIGHT)]
        },
        _ => Seq::empty(),
    }
}

/// The verdict on a move whose best reply scores `reply_score` for the
/// opponent. The move is safe where that is below the safety margin. Where it
/// is not and the reply is known, as the pair of the square it comes from and
/// the square it goes to, the square it goes to is dangerous, and so is, with
/// less weight, the square it comes from where the reply captures.
pub fn probe_verdict(
    reply_score: i32,
    best_response: Option<(usize, usize)>,
    target_occupied: bool,
) -> (feedback: TacticalFeedback)
    ensures
        feedback.is_safe == (reply_score < SAFETY_MARGIN),
        feedback.danger_squares@ == danger_squares_of(
            feedback.is_safe,
            best_response,
            target_occupied,
        ),
{
    let is_safe = reply_score < SAFETY_MARGIN;
    let mut danger_squares: Vec<(usize, i32)> = Vec::new();
    if !is_safe {
        match best_response {
            Some(reply) => {
                danger_squares.push((reply.1, DANGER_TO_WEIGHT));
                if target_occupied {
                    danger_squares.push((reply.0, DANGER_FROM_WEIGHT));
                }
            },
            None => {},
        }
    }
    proof {
        assert(danger_squares@ =~= danger_squares_of(is_safe, best_response, target_occupied));
    }
    TacticalFeedback { is_safe, danger_squares }
}

/// The verdict on a move that ends the game in a win: safe, with no danger.
pub fn winning_verdict() -> (feedback: TacticalFeedback)
    ensures
        feedback.is_safe,
        feedback.danger_squares@.len() == 0,
{
    TacticalFeedback { is_safe: true, danger_squares: Vec::new() }
}

} // verus!
