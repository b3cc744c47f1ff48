//! The search frontier as a sequence of states, and how one ply of the search turns a
//! frontier into the next.

use crate::maze::MazeState;
use crate::model::MazeModel;
use crate::ranking::{first_max, lemma_first_max, lemma_first_max_take_next};
use vstd::prelude::*;

verus! {

/// The ordering keys of the states of a frontier.
pub open spec fn keys(frontier: Seq<MazeModel>) -> Seq<int> {
    Seq::new(frontier.len(), |i: int| frontier[i].evaluated_score)
}

/// The index of the state that the frontier hands out first: the one with the greatest key,
/// and among several of them the one that was inserted first.
pub open spec fn best_index(frontier: Seq<MazeModel>) -> int {
    first_max(keys(frontier))
}

/// The state that the action leads to, with its key brought up to date. At the first ply
/// of a search the action is recorded in it; later the recorded action is inherited.
pub open spec fn successor(state: MazeModel, action: (i32, i32), first_ply: bool) -> MazeModel {
    let next = state.advanced(action).evaluated();
    if first_ply {
        next.with_first_action(action)
    } else {
        next
    }
}

/// The successors of a state, one for each legal action, in the order of the actions.
pub open spec fn successors(state: MazeModel, first_ply: bool) -> Seq<MazeModel> {
    Seq::new(
        state.legal_actions().len(),
        |i: int| successor(state, state.legal_actions()[i], first_ply),
    )
}

/// The next frontier: the successors of the `width` best states of the frontier, or of all
/// its states if there are fewer, in the order in which the frontier hands the states out.
pub open spec fn expand(frontier: Seq<MazeModel>, width: nat, first_ply: bool) -> Seq<MazeModel>
    decreases width,
{
    if width == 0 || frontier.len() == 0 {
        Seq::empty()
    } else {
        let best = best_index(frontier);
        successors(frontier[best], first_ply) + expand(
            frontier.remove(best),
            (width - 1) as nat,
            first_ply,
        )
    }
}

/// The state keeps the invariant, is at the given turn, and has the turn limit and the
/// grid size of `root`.
pub open spec fn descends(state: MazeModel, turns: int, root: MazeModel) -> bool {
    &&& state.wf()
    &&& state.turns == turns
    &&& state.end_turn == root.end_turn
    &&& state.height() == root.height()
    &&& state.width() == root.width()
}

/// Every state of the frontier keeps the invariant, and all are at the same turn of
/// episodes of the same length on grids of the same size.
pub open spec fn uniform(frontier: Seq<MazeModel>, turns: int, root: MazeModel) -> bool {
    forall|i: int| 0 <= i < frontier.len() ==> descends(#[trigger] frontier[i], turns, root)
}

/// The key of every state of the frontier is its score.
pub open spec fn scored(frontier: Seq<MazeModel>) -> bool {
    forall|i: int|
        0 <= i < frontier.len() ==> (#[trigger] frontier[i]).evaluated_score
            == frontier[i].game_score
}

/// The successors of a state that keeps the invariant keep it, are one turn further, and
/// have their scores as keys; none has a lower score than the state.
pub proof fn lemma_successors_uniform(state: MazeModel, first_ply: bool, turns: int, root: MazeModel)
    requires
        descends(state, turns, root),
    ensures
        uniform(successors(state, first_ply), turns + 1, root),
        scored(successors(state, first_ply)),
        forall|i: int|
            0 <= i < successors(state, first_ply).len() ==> (#[trigger] successors(
                state,
                first_ply,
            )[i]).game_score >= state.game_score,
{
    let next = successors(state, first_ply);
    assert forall|i: int| 0 <= i < next.len() implies {
        &&& descends(#[trigger] next[i], turns + 1, root)
        &&& next[i].evaluated_score == next[i].game_score
        &&& next[i].game_score >= state.game_score
    } by {
        state.lemma_advanced(state.legal_actions()[i]);
    }
}

/// The index of the best state of a frontier that is not empty lies within it.
pub proof fn lemma_best_index_in_range(frontier: Seq<MazeModel>)
    requires
        frontier.len() > 0,
    ensures
        0 <= best_index(frontier) < frontier.len(),
{
    lemma_first_max(keys(frontier));
}

/// One ply turns a uniform frontier into a uniform frontier that is one turn further, and
/// in which every key is a score.
pub proof fn lemma_expand_uniform(
    frontier: Seq<MazeModel>,
    width: nat,
    first_ply: bool,
    turns: int,
    root: MazeModel,
)
    requires
        uniform(frontier, turns, root),
    ensures
        uniform(expand(frontier, width, first_ply), turns + 1, root),
        scored(expand(frontier, width, first_ply)),
    decreases width,
{
    if width > 0 && frontier.len() > 0 {
        let best = best_index(frontier);
        lemma_best_index_in_range(frontier);
        lemma_successors_uniform(frontier[best], first_ply, turns, root);
        lemma_expand_uniform(frontier.remove(best), (width - 1) as nat, first_ply, turns, root);
    }
}

/// The mathematical values of a vector of states.
spec fn models(states: Seq<MazeState>) -> Seq<MazeModel> {
    Seq::new(states.len(), |i: int| states[i]@)
}

/// A collection of states that hands out the state with the greatest ordering key first
/// and, among states with equal keys, the one that was inserted first.
pub struct Frontier {
    states: Vec<MazeState>,
}

impl View for Frontier {
    type V = Seq<MazeModel>;

    closed spec fn view(&self) -> Seq<MazeModel> {
        models(self.states@)
    }
}

impl Frontier {
    /// A frontier without states.
    pub fn new() -> (frontier: Frontier)
        ensures
            frontier@ == Seq::<MazeModel>::empty(),
    {
        let frontier = Frontier { states: Vec::new() };
        frontier
    }

    /// The number of states in the frontier.
    pub fn len(&self) -> (len: usize)
        ensures
            len == self@.len(),
    {
        self.states.len()
    }

    /// Inserts a state behind the states that the frontier holds.
    pub fn push(&mut self, state: MazeState)
        ensures
            final(self)@ == old(self)@.push(state@),
    {
        self.states.push(state);
    }

    /// The place of the state that the frontier hands out first.
    fn best_position(&self) -> (index: usize)
        requires
            self@.len() > 0,
        ensures
            index == best_index(self@),
            index < self@.len(),
    {
        let ghost all = keys(self@);
        let mut index: usize = 0;
        let mut best_score: i32 = self.states[0].evaluated_score();
        let mut i: usize = 1;
        while i < self.states.len()
            invariant
                1 <= i <= self.states.len(),
                all == keys(self@),
                index == first_max(all.take(i as int)),
                index < i,
                best_score == all[index as int],
            decreases self.states.len() - i,
        {
            proof {
                lemma_first_max_take_next(all, i as int);
            }
            let score: i32 = self.states[i].evaluated_score();
            if score > best_score {
                best_score = score;
                index = i;
            }
            i += 1;
        }
        assert(all.take(i as int) =~= all);
        index
    }

    /// The state that the frontier would hand out next, if it holds any.
    pub fn peek(&self) -> (best: Option<&MazeState>)
        ensures
            match best {
                Some(state) => self@.len() > 0 && state@ == self@[best_index(self@)],
                None => self@.len() == 0,
            },
    {
        if self.states.len() == 0 {
            return None;
        }
        let index = self.best_position();
        Some(&self.states[index])
    }

    /// Takes the best state out of the frontier, if it holds any.
    pub fn pop(&mut self) -> (best: Option<MazeState>)
        ensures
            match best {
                Some(state) => {
                    &&& old(self)@.len() > 0
                    &&& state@ == old(self)@[best_index(old(self)@)]
                    &&& final(self)@ == old(self)@.remove(best_index(old(self)@))
                },
                None => old(self)@.len() == 0 && final(self)@ == old(self)@,
            },
    {
        if self.states.len() == 0 {
            return None;
        }
        let index = self.best_position();
        let state = self.states.remove(index);
        Some(state)
    }
}

} // verus!
