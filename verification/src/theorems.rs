//! What holds of every episode and of every search.

use crate::frontier::{
    best_index, expand, keys, lemma_best_index_in_range, lemma_expand_uniform,
    lemma_successors_uniform, scored, successor, successors, uniform,
};
use crate::grid::{grid_within, row_within};
use crate::model::{no_action, MazeModel};
use crate::policy::{greedy_choice, lookaheads};
use crate::ranking::{lemma_first_max, lemma_first_max_of_longer};
use crate::search::{
    after_plies, lemma_finished_stays, plies_played, search_answer, start, SearchError,
};
use vstd::prelude::*;

verus! {

/// The state after the actions have been taken one after the other.
pub open spec fn play(state: MazeModel, actions: Seq<(i32, i32)>) -> MazeModel
    decreases actions.len(),
{
    if actions.len() == 0 {
        state
    } else {
        play(state, actions.drop_last()).advanced(actions.last())
    }
}

/// Each action is legal in the state in which it is taken.
pub open spec fn playable(state: MazeModel, actions: Seq<(i32, i32)>) -> bool {
    forall|i: int|
        0 <= i < actions.len() ==> (#[trigger] play(state, actions.take(i))).is_legal(actions[i])
}

/// Taking one more action of the sequence advances the state reached so far.
pub proof fn lemma_play_next(state: MazeModel, actions: Seq<(i32, i32)>, count: int)
    requires
        0 <= count < actions.len(),
    ensures
        play(state, actions.take(count + 1)) == play(state, actions.take(count)).advanced(
            actions[count],
        ),
{
    assert(actions.take(count + 1).drop_last() =~= actions.take(count));
}

/// In every state that legal actions lead to, the invariant holds: the agent stands on a
/// cell of the grid.
pub proof fn theorem_agent_stays_on_grid(state: MazeModel, actions: Seq<(i32, i32)>, count: int)
    requires
        state.wf(),
        playable(state, actions),
        0 <= count <= actions.len(),
    ensures
        play(state, actions.take(count)).wf(),
        0 <= play(state, actions.take(count)).h < state.height(),
        0 <= play(state, actions.take(count)).w < state.width(),
        play(state, actions.take(count)).height() == state.height(),
        play(state, actions.take(count)).width() == state.width(),
    decreases count,
{
    if count > 0 {
        theorem_agent_stays_on_grid(state, actions, count - 1);
        lemma_play_next(state, actions, count - 1);
        play(state, actions.take(count - 1)).lemma_advanced(actions[count - 1]);
    }
}

/// One legal action never lowers the score, and raises it exactly when the cell that the
/// agent enters still holds a reward.
pub proof fn theorem_score_rises_with_reward(state: MazeModel, action: (i32, i32))
    requires
        state.wf(),
        state.is_legal(action),
    ensures
        state.advanced(action).game_score >= state.game_score,
        state.advanced(action).game_score > state.game_score <==> state.reward_at(action) > 0,
{
}

/// Over an episode the score never falls.
pub proof fn theorem_score_never_falls(
    state: MazeModel,
    actions: Seq<(i32, i32)>,
    earlier: int,
    later: int,
)
    requires
        state.wf(),
        playable(state, actions),
        0 <= earlier <= later <= actions.len(),
    ensures
        play(state, actions.take(earlier)).game_score <= play(
            state,
            actions.take(later),
        ).game_score,
    decreases later - earlier,
{
    if earlier < later {
        theorem_score_never_falls(state, actions, earlier, later - 1);
        theorem_agent_stays_on_grid(state, actions, later - 1);
        lemma_play_next(state, actions, later - 1);
    }
}

/// Each action adds at most the greatest reward of the grid to the score: after the
/// actions the score has grown by at most that reward for each turn, and no reward of the
/// grid has grown.
pub proof fn theorem_score_grows_with_turns(state: MazeModel, actions: Seq<(i32, i32)>, most: int)
    requires
        state.wf(),
        playable(state, actions),
        grid_within(state.points, 0, most),
    ensures
        play(state, actions).turns == state.turns + actions.len(),
        play(state, actions).end_turn == state.end_turn,
        play(state, actions).game_score <= state.game_score + most * actions.len(),
        grid_within(play(state, actions).points, 0, most),
    decreases actions.len(),
{
    if actions.len() == 0 {
        assert(most * actions.len() == 0) by (nonlinear_arith)
            requires
                actions.len() == 0,
        ;
    } else {
        let shorter = actions.drop_last();
        let before = play(state, shorter);
        assert(actions.take(shorter.len() as int) =~= shorter);
        assert(playable(state, shorter)) by {
            assert forall|i: int| 0 <= i < shorter.len() implies (#[trigger] play(
                state,
                shorter.take(i),
            )).is_legal(shorter[i]) by {
                assert(shorter.take(i) =~= actions.take(i));
            }
        }
        theorem_score_grows_with_turns(state, shorter, most);
        theorem_agent_stays_on_grid(state, actions, shorter.len() as int);
        assert(before.is_legal(actions.last()));
        before.lemma_advanced(actions.last());
        let h = before.h + actions.last().1;
        let w = before.w + actions.last().0;
        assert(row_within(before.points[h], 0, most));
        assert(before.points[h][w] <= most);
        let after = before.advanced(actions.last());
        assert(grid_within(after.points, 0, most)) by {
            assert forall|i: int| 0 <= i < after.points.len() implies row_within(
                #[trigger] after.points[i],
                0,
                most,
            ) by {
                assert(row_within(before.points[i], 0, most));
            }
        }
        assert(most * actions.len() == most * shorter.len() + most) by (nonlinear_arith)
            requires
                actions.len() == shorter.len() + 1,
        ;
    }
}

/// A cell that the agent has entered holds no reward for the rest of the episode.
pub proof fn lemma_entered_cell_stays_empty(
    state: MazeModel,
    actions: Seq<(i32, i32)>,
    entered: int,
    later: int,
)
    requires
        state.wf(),
        playable(state, actions),
        1 <= entered <= later <= actions.len(),
    ensures
        play(state, actions.take(later)).points[play(state, actions.take(entered)).h][play(
            state,
            actions.take(entered),
        ).w] == 0,
    decreases later - entered,
{
    theorem_agent_stays_on_grid(state, actions, later - 1);
    lemma_play_next(state, actions, later - 1);
    if entered < later {
        lemma_entered_cell_stays_empty(state, actions, entered, later - 1);
        theorem_agent_stays_on_grid(state, actions, entered);
    }
}

/// Entering a cell for the second time adds nothing to the score: if the agent stands on
/// the same cell after `entered` actions and after `again` actions, the last of these
/// actions left the score as it was.
pub proof fn theorem_revisit_adds_nothing(
    state: MazeModel,
    actions: Seq<(i32, i32)>,
    entered: int,
    again: int,
)
    requires
        state.wf(),
        playable(state, actions),
        1 <= entered < again <= actions.len(),
        play(state, actions.take(entered)).h == play(state, actions.take(again)).h,
        play(state, actions.take(entered)).w == play(state, actions.take(again)).w,
    ensures
        play(state, actions.take(again)).game_score == play(
            state,
            actions.take(again - 1),
        ).game_score,
{
    lemma_entered_cell_stays_empty(state, actions, entered, again - 1);
    lemma_play_next(state, actions, again - 1);
}

/// Every state of the frontier records an action that is legal at the root.
pub open spec fn led_by_legal_actions(frontier: Seq<MazeModel>, root: MazeModel) -> bool {
    forall|i: int| 0 <= i < frontier.len() ==> root.is_legal((#[trigger] frontier[i]).first_action)
}

/// After the first ply the states of a frontier inherit their first actions.
pub proof fn lemma_expand_inherits(frontier: Seq<MazeModel>, width: nat, root: MazeModel)
    requires
        led_by_legal_actions(frontier, root),
    ensures
        led_by_legal_actions(expand(frontier, width, false), root),
    decreases width,
{
    if width > 0 && frontier.len() > 0 {
        lemma_best_index_in_range(frontier);
        let others = frontier.remove(best_index(frontier));
        assert(led_by_legal_actions(others, root));
        lemma_expand_inherits(others, (width - 1) as nat, root);
    }
}

/// The first ply of a search with a beam width of at least one produces the successors of
/// the root, whatever the beam width.
pub proof fn lemma_first_ply(root: MazeModel, width: nat)
    requires
        width >= 1,
    ensures
        expand(seq![root], width, true) == successors(root, true),
{
    assert(expand(seq![root].remove(0), (width - 1) as nat, true) =~= Seq::empty());
}

/// The keys of the successors of a state are the scores that its legal actions lead to.
pub proof fn lemma_successor_keys(state: MazeModel, first_ply: bool)
    ensures
        keys(successors(state, first_ply)) == lookaheads(state),
{
}

/// Where a search stands after one ply or more, if the root has a legal action: the
/// frontier holds states, all of them as many turns from the root as plies were played; the
/// best state is the one that the frontier hands out first, it records an action that is
/// legal at the root, and its score is at least the best score that a single action
/// reaches from the root. The search has finished exactly if these states are at their
/// turn limit.
pub proof fn lemma_search_invariant(root: MazeModel, width: nat, depth: nat)
    requires
        root.wf(),
        width >= 1,
        depth >= 1,
        root.legal_actions().len() > 0,
    ensures
        ({
            let beam = after_plies(root, width, depth);
            &&& beam.frontier.len() > 0
            &&& beam.best == beam.frontier[best_index(beam.frontier)]
            &&& led_by_legal_actions(beam.frontier, root)
            &&& uniform(beam.frontier, beam.best.turns, root)
            &&& scored(beam.frontier)
            &&& beam.best.game_score >= root.lookahead(greedy_choice(root))
            &&& beam.best.turns == root.turns + plies_played(root, depth)
            &&& beam.finished <==> beam.best.is_done()
        }),
    decreases depth,
{
    let unmarked = root.with_first_action(no_action());
    if depth == 1 {
        let next = successors(unmarked, true);
        lemma_first_ply(unmarked, width);
        lemma_successors_uniform(unmarked, true, root.turns, root);
        lemma_successor_keys(unmarked, true);
        assert(lookaheads(unmarked) =~= lookaheads(root));
        lemma_first_max(keys(next));
        assert(led_by_legal_actions(next, root));
    } else {
        lemma_search_invariant(root, width, (depth - 1) as nat);
        let beam = after_plies(root, width, (depth - 1) as nat);
        lemma_best_index_in_range(beam.frontier);
        if !beam.finished {
            let frontier = beam.frontier;
            let next = expand(frontier, width, false);
            lemma_expand_inherits(frontier, width, root);
            lemma_expand_uniform(frontier, width, false, beam.best.turns, root);
            lemma_first_max(keys(next));
            assert(keys(next)[0] <= keys(next)[best_index(next)]);
        }
    }
}

/// A search of at least one ply, with a beam width of at least one, from a root that has a
/// legal action returns an action, and the action is legal at the root.
pub proof fn theorem_search_returns_legal_action(root: MazeModel, width: nat, depth: nat)
    requires
        root.wf(),
        width >= 1,
        depth >= 1,
        root.legal_actions().len() > 0,
    ensures
        search_answer(root, width, depth) is Ok,
        root.is_legal(search_answer(root, width, depth)->Ok_0),
        root.legal_actions().contains(search_answer(root, width, depth)->Ok_0),
{
    lemma_search_invariant(root, width, depth);
    let beam = after_plies(root, width, depth);
    lemma_best_index_in_range(beam.frontier);
    root.lemma_legal_actions(beam.best.first_action);
}

/// From a root without a legal action a search never leaves the root.
pub proof fn lemma_search_without_actions(root: MazeModel, width: nat, depth: nat)
    requires
        root.legal_actions().len() == 0,
    ensures
        after_plies(root, width, depth).best == root.with_first_action(no_action()),
        depth >= 1 ==> after_plies(root, width, depth).finished,
    decreases depth,
{
    if depth == 1 {
        assert(after_plies(root, width, 0) == start(root));
        if width >= 1 {
            lemma_first_ply(root.with_first_action(no_action()), width);
        }
    } else if depth > 1 {
        lemma_search_without_actions(root, width, (depth - 1) as nat);
    }
}

/// Whatever a search returns as an action is legal at the root.
pub proof fn theorem_answer_is_legal(root: MazeModel, width: nat, depth: nat)
    requires
        root.wf(),
    ensures
        search_answer(root, width, depth) matches Ok(action) ==> root.is_legal(action)
            && root.legal_actions().contains(action),
        search_answer(root, width, depth) is Ok <==> width >= 1 && depth >= 1
            && root.legal_actions().len() > 0,
{
    if width >= 1 && depth >= 1 {
        if root.legal_actions().len() == 0 {
            lemma_search_without_actions(root, width, depth);
        } else {
            theorem_search_returns_legal_action(root, width, depth);
        }
    }
}

/// A search of one ply chooses as the greedy policy does, whatever the beam width.
pub proof fn theorem_one_ply_search_is_greedy(root: MazeModel, width: nat)
    requires
        root.wf(),
        width >= 1,
        root.legal_actions().len() > 0,
    ensures
        search_answer(root, width, 1) == Ok::<(i32, i32), SearchError>(greedy_choice(root)),
{
    let unmarked = root.with_first_action(no_action());
    let next = successors(unmarked, true);
    lemma_first_ply(unmarked, width);
    assert(after_plies(root, width, 0) == start(root));
    lemma_successor_keys(unmarked, true);
    assert(lookaheads(unmarked) =~= lookaheads(root));
    lemma_first_max(keys(next));
}

/// In the last turn of an episode a search of any depth chooses as the greedy policy does:
/// it stops after its first ply.
pub proof fn theorem_last_turn_search_is_greedy(root: MazeModel, width: nat, depth: nat)
    requires
        root.wf(),
        width >= 1,
        depth >= 1,
        root.legal_actions().len() > 0,
        root.turns + 1 == root.end_turn,
    ensures
        search_answer(root, width, depth) == Ok::<(i32, i32), SearchError>(greedy_choice(root)),
{
    theorem_one_ply_search_is_greedy(root, width);
    lemma_search_invariant(root, width, 1);
    lemma_best_index_in_range(after_plies(root, width, 1).frontier);
    lemma_finished_stays(root, width, 1, depth);
}

/// Beam search is at least as good as the greedy policy: the best state of a search of one
/// ply or more has at least the score that the greedy action reaches.
pub proof fn theorem_search_dominates_greedy(root: MazeModel, width: nat, depth: nat)
    requires
        root.wf(),
        width >= 1,
        depth >= 1,
        root.legal_actions().len() > 0,
    ensures
        after_plies(root, width, depth).best.game_score >= root.lookahead(greedy_choice(root)),
        after_plies(root, width, depth).best.game_score >= root.advanced(
            greedy_choice(root),
        ).game_score,
{
    lemma_search_invariant(root, width, depth);
}

/// Within two plies a wider beam is never worse than a beam of width one: its best state
/// has at least the score of the best state that the beam of width one finds.
pub proof fn theorem_wider_beam_not_worse_within_two_plies(root: MazeModel, width: nat, depth: nat)
    requires
        root.wf(),
        width >= 1,
        depth <= 2,
    ensures
        after_plies(root, 1, depth).best.game_score <= after_plies(
            root,
            width,
            depth,
        ).best.game_score,
{
    let unmarked = root.with_first_action(no_action());
    assert(after_plies(root, 1, 0) == start(root));
    assert(after_plies(root, width, 0) == start(root));
    if depth >= 1 {
        lemma_first_ply(unmarked, 1);
        lemma_first_ply(unmarked, width);
        assert(after_plies(root, 1, 1) == after_plies(root, width, 1));
        if depth == 2 && root.legal_actions().len() > 0 {
            lemma_search_invariant(root, 1, 1);
            let beam = after_plies(root, 1, 1);
            if !beam.finished {
                let frontier = beam.frontier;
                lemma_best_index_in_range(frontier);
                let first = successors(beam.best, false);
                let others = frontier.remove(best_index(frontier));
                let wide = expand(frontier, width, false);
                let rest = expand(others, (width - 1) as nat, false);
                assert(expand(others, 0, false) =~= Seq::empty());
                assert(keys(wide) =~= keys(first) + keys(rest));
                lemma_first_max_of_longer(keys(first), keys(rest));
                lemma_first_max(keys(first));
                lemma_first_max(keys(wide));
                lemma_expand_uniform(frontier, width, false, beam.best.turns, root);
            }
        }
    }
}

/// One more ply never lowers the score of the best state.
pub proof fn theorem_deeper_search_scores_no_less(root: MazeModel, width: nat, depth: nat)
    requires
        root.wf(),
        width >= 1,
        depth >= 1,
        root.legal_actions().len() > 0,
    ensures
        after_plies(root, width, depth + 1).best.game_score >= after_plies(
            root,
            width,
            depth,
        ).best.game_score,
{
    lemma_search_invariant(root, width, depth);
    let beam = after_plies(root, width, depth);
    if !beam.finished {
        let frontier = beam.frontier;
        let next = expand(frontier, width, false);
        lemma_best_index_in_range(frontier);
        lemma_expand_uniform(frontier, width, false, beam.best.turns, root);
        lemma_first_max(keys(next));
        assert(keys(next)[0] <= keys(next)[best_index(next)]);
    }
}

/// A beam of width one climbs as the greedy policy does: as long as the search has not
/// finished, each ply takes the best state to the successor that the greedy policy chooses
/// for it.
pub proof fn theorem_beam_of_one_climbs_greedily(root: MazeModel, depth: nat)
    requires
        root.wf(),
        root.legal_actions().len() > 0,
        !after_plies(root, 1, depth).finished,
    ensures
        ({
            let before = after_plies(root, 1, depth).best;
            let after = after_plies(root, 1, depth + 1).best;
            &&& before.legal_actions().len() > 0
            &&& after.game_score == before.lookahead(greedy_choice(before))
            &&& after == successor(before, greedy_choice(before), depth == 0)
        }),
{
    let beam = after_plies(root, 1, depth);
    let before = beam.best;
    if depth == 0 {
        lemma_first_ply(before, 1);
    } else {
        lemma_search_invariant(root, 1, depth);
        lemma_best_index_in_range(beam.frontier);
        assert(expand(beam.frontier.remove(best_index(beam.frontier)), 0, false) =~= Seq::empty());
    }
    lemma_successor_keys(before, depth == 0);
    lemma_first_max(keys(successors(before, depth == 0)));
}

} // verus!
