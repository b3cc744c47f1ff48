//! A beam that is wide enough drops no state: its search tries every sequence of legal
//! actions, and no narrower beam finds a better state.

use crate::frontier::{
    best_index, expand, keys, lemma_best_index_in_range, successor, successors,
};
use crate::model::{no_action, MazeModel};
use crate::ranking::lemma_first_max;
use crate::search::{after_plies, plies_played};
use crate::theorems::{lemma_search_invariant, lemma_search_without_actions, play, playable};
use vstd::prelude::*;

verus! {

/// The greatest number of states that a frontier can hold after `depth` plies: four times
/// as many with every ply.
pub open spec fn most_states(depth: nat) -> nat
    decreases depth,
{
    if depth == 0 {
        1
    } else {
        4 * most_states((depth - 1) as nat)
    }
}

/// The least width of a beam that drops no state in `depth` plies: the frontier must fit
/// the beam before each ply, the last one too, and need not fit it after the last.
pub open spec fn full_width(depth: nat) -> nat {
    if depth == 0 {
        1
    } else {
        most_states((depth - 1) as nat)
    }
}

/// The state that a search holds for a sequence of actions taken from the root: the state
/// that the actions lead to, with its score as its key and the first of the actions
/// recorded in it.
pub open spec fn reached(root: MazeModel, actions: Seq<(i32, i32)>) -> MazeModel {
    if actions.len() == 0 {
        root.with_first_action(no_action())
    } else {
        let state = play(root, actions);
        MazeModel { evaluated_score: state.game_score, first_action: actions[0], ..state }
    }
}

/// The bound on the size of a frontier grows with the depth and is never zero.
pub proof fn lemma_most_states_grows(less: nat, more: nat)
    requires
        less <= more,
    ensures
        1 <= most_states(less) <= most_states(more),
    decreases more,
{
    if less < more {
        lemma_most_states_grows(less, (more - 1) as nat);
    } else if more > 0 {
        lemma_most_states_grows((less - 1) as nat, (more - 1) as nat);
    }
}

/// A beam that drops no state in some plies is at least one state wide, and drops no state
/// in fewer plies.
pub proof fn lemma_full_width_grows(less: nat, more: nat)
    requires
        less <= more,
    ensures
        1 <= full_width(less) <= full_width(more),
{
    if less > 0 {
        lemma_most_states_grows((less - 1) as nat, (more - 1) as nat);
    } else if more > 0 {
        lemma_most_states_grows(0, (more - 1) as nat);
    }
}

/// Taking one more action from a reached state leads to the state that is reached by
/// the longer sequence.
pub proof fn lemma_reached_next(root: MazeModel, actions: Seq<(i32, i32)>, action: (i32, i32))
    ensures
        reached(root, actions).is_legal(action) <==> play(root, actions).is_legal(action),
        successor(reached(root, actions), action, actions.len() == 0) == reached(
            root,
            actions.push(action),
        ),
{
    assert(actions.push(action).drop_last() =~= actions);
}

/// One ply makes at most four states of each state of the frontier.
pub proof fn lemma_expand_len(frontier: Seq<MazeModel>, width: nat, first_ply: bool)
    ensures
        expand(frontier, width, first_ply).len() <= 4 * frontier.len(),
    decreases width,
{
    if width > 0 && frontier.len() > 0 {
        let best = best_index(frontier);
        lemma_best_index_in_range(frontier);
        frontier[best].lemma_legal_actions_are_legal();
        lemma_expand_len(frontier.remove(best), (width - 1) as nat, first_ply);
    }
}

/// Every state that a ply produces is the successor of a state of the frontier by one of
/// its legal actions. The lemma returns the index of that state, and of the action among
/// its legal actions.
pub proof fn lemma_expand_sound(
    frontier: Seq<MazeModel>,
    width: nat,
    first_ply: bool,
    index: int,
) -> (origin: (int, int))
    requires
        0 <= index < expand(frontier, width, first_ply).len(),
    ensures
        0 <= origin.0 < frontier.len(),
        0 <= origin.1 < frontier[origin.0].legal_actions().len(),
        expand(frontier, width, first_ply)[index] == successor(
            frontier[origin.0],
            frontier[origin.0].legal_actions()[origin.1],
            first_ply,
        ),
    decreases width,
{
    let best = best_index(frontier);
    lemma_best_index_in_range(frontier);
    let first = successors(frontier[best], first_ply);
    let others = frontier.remove(best);
    if index < first.len() {
        (best, index)
    } else {
        let origin = lemma_expand_sound(others, (width - 1) as nat, first_ply, index - first.len());
        if origin.0 < best {
            origin
        } else {
            (origin.0 + 1, origin.1)
        }
    }
}

/// A ply that takes every state out of the frontier produces every successor. The lemma
/// returns the index at which the successor stands in the next frontier.
pub proof fn lemma_expand_complete(
    frontier: Seq<MazeModel>,
    width: nat,
    first_ply: bool,
    origin: int,
    choice: int,
) -> (index: int)
    requires
        width >= frontier.len(),
        0 <= origin < frontier.len(),
        0 <= choice < frontier[origin].legal_actions().len(),
    ensures
        0 <= index < expand(frontier, width, first_ply).len(),
        expand(frontier, width, first_ply)[index] == successor(
            frontier[origin],
            frontier[origin].legal_actions()[choice],
            first_ply,
        ),
    decreases width,
{
    let best = best_index(frontier);
    lemma_best_index_in_range(frontier);
    let first = successors(frontier[best], first_ply);
    let others = frontier.remove(best);
    if origin == best {
        choice
    } else {
        let moved = if origin < best {
            origin
        } else {
            origin - 1
        };
        let index = lemma_expand_complete(others, (width - 1) as nat, first_ply, moved, choice);
        first.len() + index
    }
}

/// After `depth` plies a frontier holds at most `most_states(depth)` states.
pub proof fn lemma_frontier_len(root: MazeModel, width: nat, depth: nat)
    ensures
        after_plies(root, width, depth).frontier.len() <= most_states(depth),
    decreases depth,
{
    if depth > 0 {
        lemma_frontier_len(root, width, (depth - 1) as nat);
        let before = after_plies(root, width, (depth - 1) as nat);
        lemma_expand_len(before.frontier, width, depth == 1);
        lemma_most_states_grows((depth - 1) as nat, depth);
    }
}

/// Every state of a frontier is reached from the root by a sequence of legal actions, one
/// action for each ply that was played. The lemma returns the sequence.
pub proof fn lemma_frontier_sound(root: MazeModel, width: nat, depth: nat, index: int) -> (actions:
    Seq<(i32, i32)>)
    requires
        root.wf(),
        width >= 1,
        root.legal_actions().len() > 0,
        0 <= index < after_plies(root, width, depth).frontier.len(),
    ensures
        playable(root, actions),
        actions.len() == plies_played(root, depth),
        after_plies(root, width, depth).frontier[index] == reached(root, actions),
    decreases depth,
{
    if depth == 0 {
        Seq::<(i32, i32)>::empty()
    } else {
        let before = after_plies(root, width, (depth - 1) as nat);
        let first_ply = depth == 1;
        lemma_search_invariant(root, width, depth);
        if depth > 1 {
            lemma_search_invariant(root, width, (depth - 1) as nat);
        }
        if before.finished {
            lemma_frontier_sound(root, width, (depth - 1) as nat, index)
        } else {
            let origin = lemma_expand_sound(before.frontier, width, first_ply, index);
            let shorter = lemma_frontier_sound(root, width, (depth - 1) as nat, origin.0);
            let action = before.frontier[origin.0].legal_actions()[origin.1];
            let actions = shorter.push(action);
            before.frontier[origin.0].lemma_legal_actions_are_legal();
            lemma_reached_next(root, shorter, action);
            assert(actions.take(shorter.len() as int) =~= shorter);
            assert forall|i: int| 0 <= i < actions.len() implies (#[trigger] play(
                root,
                actions.take(i),
            )).is_legal(actions[i]) by {
                if i < shorter.len() {
                    assert(actions.take(i) =~= shorter.take(i));
                }
            }
            actions
        }
    }
}

/// A beam that is wide enough holds, after its plies, the state that any sequence of legal
/// actions reaches, if the sequence has one action for each ply that was played. The lemma
/// returns the index of that state in the frontier.
pub proof fn lemma_frontier_complete(
    root: MazeModel,
    width: nat,
    depth: nat,
    actions: Seq<(i32, i32)>,
) -> (index: int)
    requires
        root.wf(),
        root.legal_actions().len() > 0,
        width >= full_width(depth),
        playable(root, actions),
        actions.len() == plies_played(root, depth),
    ensures
        0 <= index < after_plies(root, width, depth).frontier.len(),
        after_plies(root, width, depth).frontier[index] == reached(root, actions),
    decreases depth,
{
    lemma_full_width_grows(0, depth);
    if depth == 0 {
        0
    } else {
        let before = after_plies(root, width, (depth - 1) as nat);
        let first_ply = depth == 1;
        lemma_full_width_grows((depth - 1) as nat, depth);
        lemma_search_invariant(root, width, depth);
        if depth > 1 {
            lemma_search_invariant(root, width, (depth - 1) as nat);
        }
        if before.finished {
            lemma_frontier_complete(root, width, (depth - 1) as nat, actions)
        } else {
            if depth > 1 {
                lemma_best_index_in_range(before.frontier);
            }
            let shorter = actions.drop_last();
            let action = actions.last();
            assert forall|i: int| 0 <= i < shorter.len() implies (#[trigger] play(
                root,
                shorter.take(i),
            )).is_legal(shorter[i]) by {
                assert(shorter.take(i) =~= actions.take(i));
            }
            let origin = lemma_frontier_complete(root, width, (depth - 1) as nat, shorter);
            let state = before.frontier[origin];
            lemma_reached_next(root, shorter, action);
            state.lemma_legal_actions(action);
            let choice = choose|k: int|
                0 <= k < state.legal_actions().len() && state.legal_actions()[k] == action;
            lemma_frontier_len(root, width, (depth - 1) as nat);
            lemma_expand_complete(before.frontier, width, first_ply, origin, choice)
        }
    }
}

/// A beam that is wide enough finds the best score that any sequence of legal actions
/// reaches in as many turns as the search plays plies.
pub proof fn theorem_full_beam_is_optimal(
    root: MazeModel,
    width: nat,
    depth: nat,
    actions: Seq<(i32, i32)>,
)
    requires
        root.wf(),
        width >= full_width(depth),
        playable(root, actions),
        actions.len() == plies_played(root, depth),
    ensures
        play(root, actions).game_score <= after_plies(root, width, depth).best.game_score,
{
    if actions.len() > 0 {
        assert(play(root, actions.take(0)).is_legal(actions[0]));
        lemma_full_width_grows(0, depth);
        let index = lemma_frontier_complete(root, width, depth, actions);
        lemma_search_invariant(root, width, depth);
        let frontier = after_plies(root, width, depth).frontier;
        lemma_first_max(keys(frontier));
        assert(keys(frontier)[index] <= keys(frontier)[best_index(frontier)]);
    }
}

/// A beam that is wide enough is never worse than a narrower one: after the same number
/// of plies its best state has at least the score of the best state of any other beam.
pub proof fn theorem_full_beam_is_never_worse(root: MazeModel, width: nat, full: nat, depth: nat)
    requires
        root.wf(),
        width >= 1,
        full >= full_width(depth),
    ensures
        after_plies(root, width, depth).best.game_score <= after_plies(
            root,
            full,
            depth,
        ).best.game_score,
{
    if depth == 0 {
        assert(after_plies(root, width, 0) == after_plies(root, full, 0));
    } else if root.legal_actions().len() == 0 {
        lemma_search_without_actions(root, width, depth);
        lemma_search_without_actions(root, full, depth);
    } else {
        lemma_search_invariant(root, width, depth);
        let frontier = after_plies(root, width, depth).frontier;
        lemma_best_index_in_range(frontier);
        let actions = lemma_frontier_sound(root, width, depth, best_index(frontier));
        theorem_full_beam_is_optimal(root, full, depth, actions);
    }
}

} // verus!
