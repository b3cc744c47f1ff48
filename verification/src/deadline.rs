//! How far a search bounded by time gets: what it returns for each number of times that
//! the clock lets it go on.

use crate::frontier::lemma_best_index_in_range;
use crate::model::MazeModel;
use crate::search::{
    after_plies, deepest, lemma_finished_stays, plies_before_poll, plies_from, polls_of_ply,
    search_answer, start,
};
use crate::theorems::{lemma_search_invariant, lemma_search_without_actions, theorem_answer_is_legal};
use vstd::prelude::*;

verus! {

/// The number of times that the first `plies` plies of a search read the clock when the
/// time is not over.
pub open spec fn polls_through(root: MazeModel, width: nat, plies: nat) -> nat
    decreases plies,
{
    if plies == 0 {
        0
    } else {
        polls_through(root, width, (plies - 1) as nat) + polls_of_ply(
            after_plies(root, width, (plies - 1) as nat).frontier.len(),
            width,
        )
    }
}

/// A search that stops does so between the plies that it had completed and its limit.
pub proof fn lemma_plies_from_bounds(root: MazeModel, width: nat, polls: int, done: nat, limit: nat)
    ensures
        done <= plies_from(root, width, polls, done, limit),
        done <= limit ==> plies_from(root, width, polls, done, limit) <= limit,
    decreases limit - done,
{
    let beam = after_plies(root, width, done);
    if !(done >= limit || beam.finished || polls < polls_of_ply(beam.frontier.len(), width)) {
        lemma_plies_from_bounds(
            root,
            width,
            polls - polls_of_ply(beam.frontier.len(), width),
            done + 1,
            limit,
        );
    }
}

/// A search from a root that has a legal action has not finished before it has played all
/// the turns that the root has left.
pub proof fn lemma_not_finished_before_turn_limit(root: MazeModel, width: nat, done: nat)
    requires
        root.wf(),
        width >= 1,
        root.legal_actions().len() > 0,
    ensures
        after_plies(root, width, done).finished <==> done >= 1 && root.turns < root.end_turn
            && root.end_turn - root.turns <= done,
{
    if done == 0 {
        assert(after_plies(root, width, 0) == start(root));
    } else {
        lemma_search_invariant(root, width, done);
        lemma_best_index_in_range(after_plies(root, width, done).frontier);
    }
}

/// A search deeper than the turns that the root has left returns what the search to the
/// turn limit returns.
pub proof fn theorem_search_stops_at_turn_limit(root: MazeModel, width: nat, depth: nat)
    requires
        root.wf(),
        width >= 1,
        root.turns < root.end_turn,
        depth >= root.end_turn - root.turns,
    ensures
        search_answer(root, width, depth) == search_answer(
            root,
            width,
            (root.end_turn - root.turns) as nat,
        ),
{
    let rest = (root.end_turn - root.turns) as nat;
    if root.legal_actions().len() == 0 {
        lemma_search_without_actions(root, width, depth);
        lemma_search_without_actions(root, width, rest);
    } else {
        lemma_not_finished_before_turn_limit(root, width, rest);
        lemma_finished_stays(root, width, rest, depth);
    }
}

/// With enough polls a search plays all the turns that the root has left: as many polls
/// as the beam is wide, for each of these turns, are enough.
pub proof fn lemma_plies_to_turn_limit(
    root: MazeModel,
    width: nat,
    polls: int,
    done: nat,
    limit: nat,
)
    requires
        root.wf(),
        width >= 1,
        root.legal_actions().len() > 0,
        root.turns < root.end_turn,
        done <= root.end_turn - root.turns <= limit,
        polls >= width * (root.end_turn - root.turns - done),
    ensures
        plies_from(root, width, polls, done, limit) == root.end_turn - root.turns,
    decreases root.end_turn - root.turns - done,
{
    let rest = root.end_turn - root.turns;
    lemma_not_finished_before_turn_limit(root, width, done);
    if done < rest {
        let needed = polls_of_ply(after_plies(root, width, done).frontier.len(), width);
        assert(width * (rest - done) == width * (rest - done - 1) + width) by (nonlinear_arith);
        assert(width * (rest - done - 1) >= 0) by (nonlinear_arith)
            requires
                rest - done - 1 >= 0,
        ;
        lemma_plies_to_turn_limit(root, width, polls - needed, done + 1, limit);
    }
}

/// A search bounded by time whose time is never over plays all the turns that the root
/// has left, and returns what the search bounded by depth returns for that depth.
pub proof fn theorem_enough_polls_reach_turn_limit(root: MazeModel, width: nat, polls: nat)
    requires
        root.wf(),
        width >= 1,
        root.turns < root.end_turn <= u32::MAX,
        polls >= width * (root.end_turn - root.turns),
    ensures
        root.legal_actions().len() > 0 ==> plies_before_poll(root, width, polls) == root.end_turn
            - root.turns,
        search_answer(root, width, plies_before_poll(root, width, polls)) == search_answer(
            root,
            width,
            (root.end_turn - root.turns) as nat,
        ),
{
    if root.legal_actions().len() > 0 {
        lemma_plies_to_turn_limit(root, width, polls as int, 0, deepest(root));
    } else {
        lemma_search_without_actions(root, width, plies_before_poll(root, width, polls));
        lemma_search_without_actions(root, width, (root.end_turn - root.turns) as nat);
    }
}

/// A search bounded by time finds no action exactly when the time is over before the first
/// ply is complete: a ply from the root alone reads the clock once if the beam has width
/// one, and twice if it is wider. Otherwise the search returns an action that is legal at
/// the root.
pub proof fn theorem_action_after_first_ply(root: MazeModel, width: nat, polls: nat)
    requires
        root.wf(),
        width >= 1,
        root.legal_actions().len() > 0,
        root.turns < u32::MAX,
    ensures
        plies_before_poll(root, width, polls) == 0 <==> polls < polls_of_ply(1, width),
        search_answer(root, width, plies_before_poll(root, width, polls)) is Err <==> polls
            < polls_of_ply(1, width),
        search_answer(root, width, plies_before_poll(root, width, polls)) matches Ok(action)
            ==> root.is_legal(action),
{
    assert(after_plies(root, width, 0) == start(root));
    if polls >= polls_of_ply(1, width) {
        lemma_plies_from_bounds(
            root,
            width,
            polls - polls_of_ply(1, width),
            1,
            deepest(root),
        );
    }
    theorem_answer_is_legal(root, width, plies_before_poll(root, width, polls));
}

/// The plies of a search read the clock more often, the more of them there are.
pub proof fn lemma_polls_through_grows(root: MazeModel, width: nat, fewer: nat, more: nat)
    requires
        fewer <= more,
    ensures
        polls_through(root, width, fewer) <= polls_through(root, width, more),
    decreases more,
{
    if fewer < more {
        lemma_polls_through_grows(root, width, fewer, (more - 1) as nat);
    }
}

/// A search that has completed `done` plies and is stopped by the clock inside a later
/// ply comes to stand after the ply before that one.
pub proof fn lemma_plies_to_expiry(
    root: MazeModel,
    width: nat,
    polls: int,
    done: nat,
    last: nat,
    limit: nat,
)
    requires
        done <= last < limit,
        !after_plies(root, width, last).finished,
        polls_through(root, width, last) - polls_through(root, width, done) <= polls
            < polls_through(root, width, last + 1) - polls_through(root, width, done),
    ensures
        plies_from(root, width, polls, done, limit) == last,
    decreases last - done,
{
    if done < last {
        if after_plies(root, width, done).finished {
            lemma_finished_stays(root, width, done, last);
        }
        lemma_polls_through_grows(root, width, done + 1, last);
        lemma_plies_to_expiry(
            root,
            width,
            polls - polls_of_ply(after_plies(root, width, done).frontier.len(), width),
            done + 1,
            last,
            limit,
        );
    }
}

/// When the time is over inside a ply, the search returns what the last completed ply
/// found: if the clock says that the time is over while ply number `last` (counted from
/// zero) is being played, the result is that of the search bounded by depth `last`, and
/// what the ply had built so far is left aside.
pub proof fn theorem_expiry_keeps_last_ply(root: MazeModel, width: nat, polls: nat, last: nat)
    requires
        last < deepest(root),
        !after_plies(root, width, last).finished,
        polls_through(root, width, last) <= polls < polls_through(root, width, last + 1),
    ensures
        plies_before_poll(root, width, polls) == last,
        search_answer(root, width, plies_before_poll(root, width, polls)) == search_answer(
            root,
            width,
            last,
        ),
{
    lemma_plies_to_expiry(root, width, polls as int, 0, last, deepest(root));
}

} // verus!
