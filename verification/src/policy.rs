//! The baseline policies: a random legal action, and the action with the best reward one
//! step ahead.

use crate::maze::MazeState;
use crate::model::MazeModel;
use crate::random::random_index;
use crate::ranking::{first_max, lemma_first_max_take_next};
use vstd::prelude::*;

verus! {

/// What the greedy policy returns for a state without a legal action.
pub open spec fn no_action_found() -> (i32, i32) {
    (-1i32, -1i32)
}

/// The scores that the legal actions lead to, in the order of the actions.
pub open spec fn lookaheads(state: MazeModel) -> Seq<int> {
    Seq::new(state.legal_actions().len(), |i: int| state.lookahead(state.legal_actions()[i]))
}

/// The legal action that leads to the greatest score, the first of them if there are
/// several; `(-1, -1)` if no action is legal.
pub open spec fn greedy_choice(state: MazeModel) -> (i32, i32) {
    if state.legal_actions().len() == 0 {
        no_action_found()
    } else {
        state.legal_actions()[first_max(lookaheads(state))]
    }
}

/// The legal action at the given place of the fixed order.
pub fn legal_action_at(state: &MazeState, index: usize) -> (action: (i32, i32))
    requires
        state@.wf(),
        index < state@.legal_actions().len(),
    ensures
        action == state@.legal_actions()[index as int],
        state@.is_legal(action),
{
    let actions = state.generate_legal_actions();
    actions[index]
}

/// A legal action picked at random. The state must have one.
pub fn random_action(state: &MazeState) -> (action: (i32, i32))
    requires
        state@.wf(),
        state@.legal_actions().len() > 0,
    ensures
        state@.legal_actions().contains(action),
        state@.is_legal(action),
{
    let actions = state.generate_legal_actions();
    let index = random_index(actions.len());
    legal_action_at(state, index)
}

/// The greedy policy: tries every legal action on a copy of the state and returns the one
/// that leads to the greatest score. Of several such actions it returns the first; without
/// a legal action it returns `(-1, -1)`.
pub fn greedy_action(state: &MazeState) -> (action: (i32, i32))
    requires
        state@.wf(),
        state@.turns < u32::MAX,
    ensures
        action == greedy_choice(state@),
        state@.legal_actions().len() > 0 ==> state@.is_legal(action),
{
    let ghost scores = lookaheads(state@);
    let actions = state.generate_legal_actions();
    let mut best_score: i32 = -1;
    let mut best_action: (i32, i32) = (-1, -1);
    let ghost mut best: int = 0;
    let mut i: usize = 0;
    while i < actions.len()
        invariant
            i <= actions.len(),
            state@.wf(),
            state@.turns < u32::MAX,
            actions@ == state@.legal_actions(),
            scores == lookaheads(state@),
            forall|k: int| 0 <= k < actions@.len() ==> state@.is_legal(#[trigger] actions@[k]),
            i == 0 ==> best_score == -1 && best_action == no_action_found(),
            i > 0 ==> {
                &&& best == first_max(scores.take(i as int))
                &&& 0 <= best < i
                &&& best_score == scores[best]
                &&& best_action == actions@[best]
            },
        decreases actions.len() - i,
    {
        let action = actions[i];
        let mut now_state = state.clone();
        proof {
            if i > 0 {
                lemma_first_max_take_next(scores, i as int);
            }
        }
        now_state.advance(action);
        now_state.evaluate_score();
        let score: i32 = now_state.evaluated_score();
        if score > best_score {
            best_score = score;
            best_action = action;
            proof {
                best = i as int;
            }
        }
        i += 1;
    }
    assert(scores.take(i as int) =~= scores);
    best_action
}

} // verus!
