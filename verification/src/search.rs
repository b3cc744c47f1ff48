//! Beam search for the next action: bounded by depth, or by time on the clock.

use crate::frontier::{
    best_index, expand, lemma_best_index_in_range, lemma_expand_uniform, successors, uniform,
    Frontier,
};
use crate::maze::MazeState;
use crate::model::{no_action, MazeModel};
use crate::deadline::{theorem_action_after_first_ply, theorem_search_stops_at_turn_limit};
use crate::theorems::theorem_answer_is_legal;
use crate::timing::{TimeKeeper, MOST_MILLISECONDS};
use vstd::prelude::*;

verus! {

/// Why a search gave no action.
#[derive(Clone, Copy, Debug, PartialEq, Eq, Structural)]
pub enum SearchError {
    /// The beam width is zero.
    InvalidBeamWidth,
    /// The search ended before it had completed its first ply, so that no first action
    /// was recorded.
    NoActionFound,
}

/// Where a search stands after some plies.
pub struct BeamModel {
    /// The states among which the next ply chooses.
    pub frontier: Seq<MazeModel>,
    /// The best state of the frontier, the root before the first ply.
    pub best: MazeModel,
    /// No further ply changes anything: the best state is at its turn limit, or the last
    /// ply produced no state.
    pub finished: bool,
}

/// A search before its first ply: the root alone, with no first action recorded.
pub open spec fn start(root: MazeModel) -> BeamModel {
    let root = root.with_first_action(no_action());
    BeamModel { frontier: seq![root], best: root, finished: false }
}

/// One ply: the frontier is replaced by the successors of its `width` best states, and the
/// best of them becomes the best state. A ply that produces no state finishes the search
/// and leaves the rest as it was; a best state at its turn limit finishes it too.
pub open spec fn step(beam: BeamModel, width: nat, first_ply: bool) -> BeamModel {
    if beam.finished {
        beam
    } else {
        let next = expand(beam.frontier, width, first_ply);
        if next.len() == 0 {
            BeamModel { finished: true, ..beam }
        } else {
            let best = next[best_index(next)];
            BeamModel { frontier: next, best, finished: best.is_done() }
        }
    }
}

/// Where a search from `root` with the given beam width stands after `depth` plies.
pub open spec fn after_plies(root: MazeModel, width: nat, depth: nat) -> BeamModel
    decreases depth,
{
    if depth == 0 {
        start(root)
    } else {
        step(after_plies(root, width, (depth - 1) as nat), width, depth == 1)
    }
}

/// The number of plies after which a search of `depth` plies stops at the latest: `depth`,
/// or the number of turns that the root has left, if that is less.
pub open spec fn plies_played(root: MazeModel, depth: nat) -> nat {
    if root.turns < root.end_turn && root.end_turn - root.turns < depth {
        (root.end_turn - root.turns) as nat
    } else {
        depth
    }
}

/// The number of times that one ply reads the clock when the time is not over: once for
/// each state that it takes out of the frontier, and once more if the frontier is empty
/// before the beam is full.
pub open spec fn polls_of_ply(states: nat, width: nat) -> nat {
    if states < width {
        states + 1
    } else {
        width
    }
}

/// The depth at which a search bounded by time stops at the latest: as many plies as the
/// turn counter of the root has room for.
pub open spec fn deepest(root: MazeModel) -> nat {
    if root.turns <= u32::MAX {
        (u32::MAX - root.turns) as nat
    } else {
        0
    }
}

/// The number of plies that a search has completed when it stops, if it has completed
/// `done` plies and the clock is then read `polls` times before the time is over. The
/// search stops at the limit of its depth, when it has finished, or in the ply in which
/// the time is over; that ply does not count.
pub open spec fn plies_from(root: MazeModel, width: nat, polls: int, done: nat, limit: nat) -> nat
    decreases limit - done,
{
    let beam = after_plies(root, width, done);
    if done >= limit || beam.finished || polls < polls_of_ply(beam.frontier.len(), width) {
        done
    } else {
        plies_from(
            root,
            width,
            polls - polls_of_ply(beam.frontier.len(), width),
            done + 1,
            limit,
        )
    }
}

/// The number of plies that a search bounded by time completes if the clock says `polls`
/// times that the time is not over, and then that it is over.
pub open spec fn plies_before_poll(root: MazeModel, width: nat, polls: nat) -> nat {
    plies_from(root, width, polls as int, 0, deepest(root))
}

/// The action that a search hands out when it ends with the given best state.
pub open spec fn answer(best: MazeModel) -> Result<(i32, i32), SearchError> {
    if best.first_action == no_action() {
        Err(SearchError::NoActionFound)
    } else {
        Ok(best.first_action)
    }
}

/// What a search of `depth` plies from `root` returns.
pub open spec fn search_answer(root: MazeModel, width: nat, depth: nat) -> Result<
    (i32, i32),
    SearchError,
> {
    if width == 0 {
        Err(SearchError::InvalidBeamWidth)
    } else {
        answer(after_plies(root, width, depth).best)
    }
}

/// Once a search has finished, further plies change nothing.
pub proof fn lemma_finished_stays(root: MazeModel, width: nat, done: nat, depth: nat)
    requires
        after_plies(root, width, done).finished,
        done <= depth,
    ensures
        after_plies(root, width, depth) == after_plies(root, width, done),
    decreases depth,
{
    if done < depth {
        lemma_finished_stays(root, width, done, (depth - 1) as nat);
    }
}

/// Inserts the successors of a state into the frontier, one for each legal action.
fn push_successors(next_beam: &mut Frontier, state: &MazeState, first_ply: bool)
    requires
        state@.wf(),
        state@.turns < u32::MAX,
    ensures
        final(next_beam)@ == old(next_beam)@ + successors(state@, first_ply),
{
    let ghost before = next_beam@;
    let ghost added = successors(state@, first_ply);
    let legal_actions = state.generate_legal_actions();
    let mut i: usize = 0;
    while i < legal_actions.len()
        invariant
            i <= legal_actions.len(),
            legal_actions@ == state@.legal_actions(),
            state@.wf(),
            state@.turns < u32::MAX,
            added == successors(state@, first_ply),
            forall|k: int|
                0 <= k < legal_actions@.len() ==> state@.is_legal(#[trigger] legal_actions@[k]),
            next_beam@ == before + added.take(i as int),
        decreases legal_actions.len() - i,
    {
        let action = legal_actions[i];
        let mut next_state = state.clone();
        next_state.advance(action);
        next_state.evaluate_score();
        if first_ply {
            next_state.set_first_action(action);
        }
        next_beam.push(next_state);
        i += 1;
    }
}

/// Every state of the frontier keeps the invariant and has room for one more turn.
spec fn expandable(frontier: Seq<MazeModel>) -> bool {
    forall|i: int|
        0 <= i < frontier.len() ==> (#[trigger] frontier[i]).wf() && frontier[i].turns < u32::MAX
}

/// What a search asks whether its time is over: a clock, a number of times that the answer
/// is still "no", or neither, and then the time is never over.
struct Watch<'a> {
    time_keeper: Option<&'a TimeKeeper>,
    polls_left: Option<usize>,
}

impl<'a> Watch<'a> {
    /// The time is over at the first reading.
    spec fn at_once(self) -> bool {
        match self.polls_left {
            Some(left) => left == 0,
            None => match self.time_keeper {
                Some(keeper) => keeper.threshold() == 0,
                None => false,
            },
        }
    }

    /// The time is over at no reading.
    spec fn never(self) -> bool {
        self.polls_left is None && match self.time_keeper {
            Some(keeper) => keeper.threshold() > MOST_MILLISECONDS,
            None => true,
        }
    }

    /// Whether the time is over. A number of polls is counted down to zero, and at zero
    /// the time is over; otherwise the clock decides, if there is one.
    fn is_over(&mut self) -> (over: bool)
        ensures
            final(self).time_keeper == old(self).time_keeper,
            match old(self).polls_left {
                Some(left) => over == (left == 0) && final(self).polls_left == Some(
                    if left == 0 {
                        0usize
                    } else {
                        (left - 1) as usize
                    },
                ),
                None => final(self).polls_left is None,
            },
            old(self).at_once() ==> over,
            old(self).never() ==> !over,
    {
        match self.polls_left {
            Some(left) => {
                if left == 0 {
                    true
                } else {
                    self.polls_left = Some(left - 1);
                    false
                }
            },
            None => match self.time_keeper {
                Some(keeper) => keeper.is_time_over(),
                None => false,
            },
        }
    }
}

/// One ply of the search: takes up to `beam_width` states out of the frontier, best first,
/// and collects their successors. The watch is asked before each state is taken; once the
/// time is over the ply is given up and nothing is returned. Beside the next frontier the
/// ply returns how often the watch said that the time was not over.
fn expand_beam(beam: Frontier, beam_width: usize, first_ply: bool, watch: &mut Watch) -> (result:
    (Option<Frontier>, Ghost<int>))
    requires
        expandable(beam@),
    ensures
        final(watch).time_keeper == old(watch).time_keeper,
        match result.0 {
            Some(next_beam) => {
                &&& next_beam@ == expand(beam@, beam_width as nat, first_ply)
                &&& result.1@ == polls_of_ply(beam@.len(), beam_width as nat)
            },
            None => 0 <= result.1@ < polls_of_ply(beam@.len(), beam_width as nat),
        },
        match old(watch).polls_left {
            Some(left) => {
                &&& result.1@ <= left
                &&& final(watch).polls_left == Some((left - result.1@) as usize)
                &&& result.0 is None ==> result.1@ == left
            },
            None => final(watch).polls_left is None,
        },
        old(watch).never() ==> result.0 is Some,
        beam_width > 0 && old(watch).at_once() ==> result.0 is None && result.1@ == 0,
{
    let ghost whole = expand(beam@, beam_width as nat, first_ply);
    let mut now_beam = beam;
    let mut next_beam = Frontier::new();
    let mut taken: usize = 0;
    while taken < beam_width
        invariant
            taken <= beam_width,
            whole == expand(beam@, beam_width as nat, first_ply),
            expandable(now_beam@),
            now_beam@.len() + taken == beam@.len(),
            next_beam@ + expand(now_beam@, (beam_width - taken) as nat, first_ply) == whole,
            watch.time_keeper == old(watch).time_keeper,
            match old(watch).polls_left {
                Some(left) => taken <= left && watch.polls_left == Some((left - taken) as usize),
                None => watch.polls_left is None,
            },
            old(watch).never() ==> watch.never(),
            old(watch).at_once() ==> taken == 0,
        decreases beam_width - taken,
    {
        if watch.is_over() {
            return (None, Ghost(taken as int));
        }
        let ghost frontier = now_beam@;
        match now_beam.pop() {
            Some(now_state) => {
                proof {
                    lemma_best_index_in_range(frontier);
                }
                push_successors(&mut next_beam, &now_state, first_ply);
            },
            None => {
                return (Some(next_beam), Ghost(taken + 1));
            },
        }
        taken += 1;
    }
    (Some(next_beam), Ghost(taken as int))
}

/// Runs a search from `state` for at most `depth_limit` plies and returns its best state
/// with the number of plies that it has completed. The search also ends when the watch says
/// that the time is over, and keeps the best state of the last ply that it has completed.
/// The third result is how often the watch said that the time was not over.
fn search(state: &MazeState, beam_width: usize, depth_limit: usize, watch: &mut Watch) -> (result:
    (MazeState, usize, Ghost<int>))
    requires
        state@.wf(),
        state@.turns < state@.end_turn || state@.turns + depth_limit <= u32::MAX,
    ensures
        result.1 <= depth_limit,
        result.0@ == after_plies(state@, beam_width as nat, result.1 as nat).best,
        0 <= result.2@,
        result.1 == plies_from(state@, beam_width as nat, result.2@, 0, depth_limit as nat),
        old(watch).polls_left matches Some(left) ==> result.1 == plies_from(
            state@,
            beam_width as nat,
            left as int,
            0,
            depth_limit as nat,
        ),
        old(watch).never() ==> result.1 == depth_limit || after_plies(
            state@,
            beam_width as nat,
            result.1 as nat,
        ).finished,
        beam_width > 0 && old(watch).at_once() ==> result.1 == 0,
{
    let ghost width = beam_width as nat;
    let ghost limit = depth_limit as nat;
    let ghost mut polled: int = 0;
    let mut root = state.clone();
    root.set_first_action((0, 0));
    let mut best_state = root.clone();
    let mut now_beam = Frontier::new();
    now_beam.push(root);
    let mut t: usize = 0;
    proof {
        state.lemma_fits();
    }
    while t < depth_limit
        invariant
            t <= depth_limit,
            width == beam_width as nat,
            limit == depth_limit as nat,
            state@.end_turn <= u32::MAX,
            state@.turns < state@.end_turn || state@.turns + depth_limit <= u32::MAX,
            state@.turns < state@.end_turn ==> state@.turns + t < state@.end_turn,
            after_plies(state@, width, t as nat) == (BeamModel {
                frontier: now_beam@,
                best: best_state@,
                finished: false,
            }),
            uniform(now_beam@, state@.turns + t, state@),
            0 <= polled,
            forall|polls: int|
                polls >= polled ==> #[trigger] plies_from(state@, width, polls, 0, limit)
                    == plies_from(state@, width, polls - polled, t as nat, limit),
            watch.time_keeper == old(watch).time_keeper,
            match old(watch).polls_left {
                Some(left) => polled <= left && watch.polls_left == Some((left - polled) as usize),
                None => watch.polls_left is None,
            },
            old(watch).never() ==> watch.never(),
            beam_width > 0 && old(watch).at_once() ==> t == 0 && watch.at_once(),
        decreases depth_limit - t,
    {
        let first_ply = t == 0;
        let ghost frontier = now_beam@;
        let ghost needed = polls_of_ply(frontier.len(), width) as int;
        proof {
            lemma_expand_uniform(frontier, width, first_ply, state@.turns + t, state@);
        }
        let (next, Ghost(answered)) = expand_beam(now_beam, beam_width, first_ply, watch);
        match next {
            None => {
                proof {
                    assert(plies_from(state@, width, polled + answered, 0, limit) == plies_from(
                        state@,
                        width,
                        answered,
                        t as nat,
                        limit,
                    ));
                }
                return (best_state, t, Ghost(polled + answered));
            },
            Some(next_beam) => {
                proof {
                    assert forall|polls: int| polls >= polled + needed implies #[trigger] plies_from(
                        state@,
                        width,
                        polls,
                        0,
                        limit,
                    ) == plies_from(state@, width, polls - polled - needed, (t + 1) as nat, limit) by {
                        assert(plies_from(state@, width, polls - polled, t as nat, limit)
                            == plies_from(
                            state@,
                            width,
                            polls - polled - needed,
                            (t + 1) as nat,
                            limit,
                        ));
                    }
                    polled = polled + needed;
                }
                now_beam = next_beam;
                match now_beam.peek() {
                    None => {
                        return (best_state, t + 1, Ghost(polled));
                    },
                    Some(best) => {
                        proof {
                            lemma_best_index_in_range(now_beam@);
                        }
                        best_state = best.clone();
                    },
                }
                t += 1;
                if best_state.is_done() {
                    return (best_state, t, Ghost(polled));
                }
            },
        }
    }
    (best_state, t, Ghost(polled))
}

/// The first action of the best state, if one is recorded in it.
fn answer_of(best: &MazeState) -> (result: Result<(i32, i32), SearchError>)
    ensures
        result == answer(best@),
{
    let action = best.first_action();
    if action.0 == 0 && action.1 == 0 {
        Err(SearchError::NoActionFound)
    } else {
        Ok(action)
    }
}

/// Beam search bounded by depth: the first action on the way to the best state that a
/// search of at most `beam_depth` plies finds when it keeps `beam_width` states per ply.
///
/// The search stops early when the best state of a ply is at its turn limit, or when a ply
/// produces no state. A beam width of zero is refused; a search that completes no ply
/// has no action to give. A first action that the root carries from an earlier search is
/// not handed on: the search starts with none recorded.
pub fn beam_search_action(state: &MazeState, beam_width: usize, beam_depth: usize) -> (result:
    Result<(i32, i32), SearchError>)
    requires
        state@.wf(),
        state@.turns < state@.end_turn || state@.turns + beam_depth <= u32::MAX,
    ensures
        result == search_answer(state@, beam_width as nat, beam_depth as nat),
        result is Ok <==> beam_width >= 1 && beam_depth >= 1 && state@.legal_actions().len() > 0,
        result matches Ok(action) ==> state@.is_legal(action),
{
    proof {
        theorem_answer_is_legal(state@, beam_width as nat, beam_depth as nat);
    }
    if beam_width == 0 {
        return Err(SearchError::InvalidBeamWidth);
    }
    let mut watch = Watch { time_keeper: None, polls_left: None };
    let (best_state, depth, _) = search(state, beam_width, beam_depth, &mut watch);
    proof {
        if depth < beam_depth {
            lemma_finished_stays(state@, beam_width as nat, depth as nat, beam_depth as nat);
        }
    }
    answer_of(&best_state)
}

/// Beam search bounded by a number of polls: the search bounded by time, with the clock
/// replaced by a count. The search asks before it takes a state out of the frontier
/// whether its time is over; the first `polls` times the answer is no, then it is yes.
///
/// The search returns what the last ply found that it completed before the answer was
/// yes. With so few polls that the first ply is not completed it has no action to give;
/// with so many that the answer is never yes it searches to the turn limit.
pub fn beam_search_with_poll_limit(state: &MazeState, beam_width: usize, polls: usize) -> (result:
    Result<(i32, i32), SearchError>)
    requires
        state@.wf(),
    ensures
        result == search_answer(
            state@,
            beam_width as nat,
            plies_before_poll(state@, beam_width as nat, polls as nat),
        ),
        result is Ok <==> beam_width >= 1 && state@.legal_actions().len() > 0 && state@.turns
            < u32::MAX && polls >= polls_of_ply(1, beam_width as nat),
        result matches Ok(action) ==> state@.is_legal(action),
{
    proof {
        state.lemma_fits();
        theorem_answer_is_legal(
            state@,
            beam_width as nat,
            plies_before_poll(state@, beam_width as nat, polls as nat),
        );
        if beam_width >= 1 && state@.legal_actions().len() > 0 && state@.turns < u32::MAX {
            theorem_action_after_first_ply(state@, beam_width as nat, polls as nat);
        }
    }
    if beam_width == 0 {
        return Err(SearchError::InvalidBeamWidth);
    }
    let depth_limit: usize = (u32::MAX - state.turns()) as usize;
    let mut watch = Watch { time_keeper: None, polls_left: Some(polls) };
    let (best_state, _, _) = search(state, beam_width, depth_limit, &mut watch);
    answer_of(&best_state)
}

/// Beam search bounded by time: like the search bounded by depth, but it goes on ply
/// after ply until the best state is at its turn limit, and reads the clock before it takes
/// a state out of the frontier. Once `time_threshold_milseconds` have passed it returns at
/// once what the last completed ply found.
///
/// Whatever the clock says, the result is that of `beam_search_with_poll_limit` for the
/// number of times that the clock said that the time was not over. If the time is over
/// before the first ply is complete, no action was found: with a threshold of zero this is
/// always so. With a threshold beyond what the clock can measure the time is never over,
/// and the search goes on to the turn limit.
pub fn beam_search_with_time_threshold(
    state: &MazeState,
    beam_width: usize,
    time_threshold_milseconds: u128,
) -> (result: Result<(i32, i32), SearchError>)
    requires
        state@.wf(),
    ensures
        exists|polls: nat|
            result == search_answer(
                state@,
                beam_width as nat,
                #[trigger] plies_before_poll(state@, beam_width as nat, polls),
            ),
        time_threshold_milseconds == 0 ==> result == search_answer(state@, beam_width as nat, 0),
        time_threshold_milseconds > MOST_MILLISECONDS ==> result == search_answer(
            state@,
            beam_width as nat,
            deepest(state@),
        ),
        time_threshold_milseconds > MOST_MILLISECONDS && state@.turns < state@.end_turn
            ==> result == search_answer(
            state@,
            beam_width as nat,
            (state@.end_turn - state@.turns) as nat,
        ),
        beam_width == 0 <==> result == Err::<(i32, i32), SearchError>(
            SearchError::InvalidBeamWidth,
        ),
        result matches Ok(action) ==> state@.is_legal(action),
{
    proof {
        state.lemma_fits();
    }
    if beam_width == 0 {
        assert(search_answer(state@, 0, plies_before_poll(state@, 0, 0)) == Err::<
            (i32, i32),
            SearchError,
        >(SearchError::InvalidBeamWidth));
        return Err(SearchError::InvalidBeamWidth);
    }
    let time_keeper = TimeKeeper::new(time_threshold_milseconds);
    let depth_limit: usize = (u32::MAX - state.turns()) as usize;
    let mut watch = Watch { time_keeper: Some(&time_keeper), polls_left: None };
    let (best_state, depth, Ghost(polls)) = search(state, beam_width, depth_limit, &mut watch);
    let result = answer_of(&best_state);
    proof {
        theorem_answer_is_legal(state@, beam_width as nat, depth as nat);
        assert(depth == plies_before_poll(state@, beam_width as nat, polls as nat));
        if time_threshold_milseconds > MOST_MILLISECONDS && depth < depth_limit {
            lemma_finished_stays(state@, beam_width as nat, depth as nat, depth_limit as nat);
        }
        if state@.turns < state@.end_turn {
            theorem_search_stops_at_turn_limit(state@, beam_width as nat, deepest(state@));
        }
    }
    result
}

} // verus!
