//! Whole episodes: playing a state to its turn limit with the search, and adding up the
//! scores of many games.

use crate::deadline::theorem_enough_polls_reach_turn_limit;
use crate::grid::grid_total;
use crate::maze::{MazeState, END_TURN, REWARD_LIMIT};
use crate::model::MazeModel;
use crate::policy::{greedy_action, greedy_choice};
use crate::random::{next_seed, seeded_rng};
use crate::search::{
    beam_search_with_poll_limit, beam_search_with_time_threshold, plies_before_poll, polls_of_ply,
    search_answer, SearchError,
};
use crate::theorems::{
    play, playable, theorem_answer_is_legal, theorem_score_grows_with_turns,
};
use crate::timing::MOST_MILLISECONDS;
use vstd::prelude::*;

verus! {

/// One turn of the greedy policy: the state advances by the action that the policy chooses.
/// Where no action is legal, or the turn counter is full, nothing happens.
pub fn advance_greedy(state: &mut MazeState) -> (moved: bool)
    requires
        old(state)@.wf(),
    ensures
        moved <==> old(state)@.legal_actions().len() > 0 && old(state)@.turns < u32::MAX,
        moved ==> final(state)@ == old(state)@.advanced(greedy_choice(old(state)@)),
        !moved ==> final(state)@ == old(state)@,
        final(state)@.wf(),
{
    if state.turns() == u32::MAX {
        return false;
    }
    let actions = state.generate_legal_actions();
    if actions.len() == 0 {
        return false;
    }
    let action = greedy_action(state);
    state.advance(action);
    true
}

/// The state in which a play ends if each of its searches reads the clock `polls` times
/// before the time is over: as long as the episode is not over, the search chooses an
/// action and the state advances by it; the play ends where a search finds no action.
pub open spec fn played_out(state: MazeModel, width: nat, polls: nat) -> MazeModel
    decreases state.end_turn - state.turns,
{
    if state.turns >= state.end_turn {
        state
    } else {
        match search_answer(state, width, plies_before_poll(state, width, polls)) {
            Ok(action) => played_out(state.advanced(action), width, polls),
            Err(_) => state,
        }
    }
}

/// A number of polls with which every search of a play goes on to the turn limit: as many
/// as the beam is wide, for each turn that is left.
pub open spec fn enough_polls(state: MazeModel, width: nat) -> nat {
    if state.turns < state.end_turn {
        width * (state.end_turn - state.turns) as nat
    } else {
        0
    }
}

/// What bounds each search of a play: the clock, or a number of polls.
enum Limit {
    Time(u128),
    Polls(usize),
}

impl Limit {
    /// The number of polls after which the time of each search is over, where that is
    /// known before the play: it is given, or the clock allows no time, or the clock
    /// allows more time than it can measure.
    spec fn polls(self, state: MazeModel, width: nat) -> Option<nat> {
        match self {
            Limit::Polls(polls) => Some(polls as nat),
            Limit::Time(threshold) => if threshold == 0 {
                Some(0nat)
            } else if threshold > MOST_MILLISECONDS {
                Some(enough_polls(state, width))
            } else {
                None
            },
        }
    }

    /// Each search of the play completes its first ply.
    spec fn completes_first_ply(self, width: nat) -> bool {
        match self {
            Limit::Polls(polls) => polls >= polls_of_ply(1, width),
            Limit::Time(threshold) => threshold > MOST_MILLISECONDS,
        }
    }
}

/// Plays the state to its turn limit with searches bounded as `limit` says.
fn play_out(state: &mut MazeState, beam_width: usize, limit: Limit) -> (result: Result<
    (),
    SearchError,
>)
    requires
        old(state)@.wf(),
        old(state)@.turns <= old(state)@.end_turn,
    ensures
        exists|actions: Seq<(i32, i32)>|
            playable(old(state)@, actions) && final(state)@ == #[trigger] play(
                old(state)@,
                actions,
            ),
        final(state)@.wf(),
        final(state)@.turns <= final(state)@.end_turn,
        final(state)@.end_turn == old(state)@.end_turn,
        final(state)@.game_score >= old(state)@.game_score,
        final(state)@.game_score + grid_total(final(state)@.points) == old(state)@.game_score
            + grid_total(old(state)@.points),
        result is Ok <==> final(state)@.is_done(),
        old(state)@.is_done() ==> final(state)@ == old(state)@,
        beam_width == 0 ==> final(state)@ == old(state)@,
        result matches Err(error) ==> (error == SearchError::InvalidBeamWidth <==> beam_width
            == 0),
        limit.polls(old(state)@, beam_width as nat) matches Some(polls) ==> {
            &&& final(state)@ == played_out(old(state)@, beam_width as nat, polls)
            &&& result matches Err(error) ==> search_answer(
                final(state)@,
                beam_width as nat,
                plies_before_poll(final(state)@, beam_width as nat, polls),
            ) == Err::<(i32, i32), SearchError>(error)
        },
        beam_width >= 1 && old(state)@.legal_actions().len() > 0 && limit.completes_first_ply(
            beam_width as nat,
        ) ==> result is Ok,
{
    let ghost mut actions: Seq<(i32, i32)> = Seq::empty();
    let ghost width = beam_width as nat;
    proof {
        state.lemma_fits();
    }
    while !state.is_done()
        invariant
            width == beam_width as nat,
            state@.wf(),
            state@.turns <= state@.end_turn <= u32::MAX,
            state@.end_turn == old(state)@.end_turn,
            state@.turns >= old(state)@.turns,
            state@.height() == old(state)@.height(),
            state@.width() == old(state)@.width(),
            old(state)@.wf(),
            playable(old(state)@, actions),
            state@ == play(old(state)@, actions),
            state@.game_score >= old(state)@.game_score,
            state@.game_score + grid_total(state@.points) == old(state)@.game_score + grid_total(
                old(state)@.points,
            ),
            old(state)@.is_done() ==> state@ == old(state)@,
            beam_width == 0 ==> state@ == old(state)@,
            limit.polls(old(state)@, width) matches Some(polls) ==> played_out(
                old(state)@,
                width,
                polls,
            ) == played_out(state@, width, polls),
        decreases state@.end_turn - state@.turns,
    {
        let found = match limit {
            Limit::Time(threshold) => beam_search_with_time_threshold(state, beam_width, threshold),
            Limit::Polls(polls) => beam_search_with_poll_limit(state, beam_width, polls),
        };
        proof {
            old(state)@.lemma_legal_action_exists();
            state@.lemma_legal_action_exists();
            let rest = (state@.end_turn - state@.turns) as nat;
            theorem_answer_is_legal(state@, width, rest);
            if let Limit::Time(threshold) = limit {
                if threshold > MOST_MILLISECONDS && beam_width >= 1 {
                    let polls = enough_polls(old(state)@, width);
                    let whole = old(state)@.end_turn - old(state)@.turns;
                    assert(polls >= width * rest) by (nonlinear_arith)
                        requires
                            polls == width * whole,
                            rest <= whole,
                    ;
                    theorem_enough_polls_reach_turn_limit(state@, width, polls);
                }
            }
            if let Some(polls) = limit.polls(old(state)@, width) {
                assert(found == search_answer(state@, width, plies_before_poll(state@, width, polls)));
            }
        }
        match found {
            Ok(action) => {
                proof {
                    state@.lemma_advanced(action);
                    let longer = actions.push(action);
                    assert(longer.take(actions.len() as int) =~= actions);
                    assert forall|i: int| 0 <= i < longer.len() implies (#[trigger] play(
                        old(state)@,
                        longer.take(i),
                    )).is_legal(longer[i]) by {
                        if i < actions.len() {
                            assert(longer.take(i) =~= actions.take(i));
                        }
                    }
                    actions = longer;
                }
                state.advance(action);
            },
            Err(error) => {
                return Err(error);
            },
        }
    }
    Ok(())
}

/// Plays the state to its turn limit: as long as the episode is not over, the time-bounded
/// beam search chooses an action and the state advances by it. The first failure of the
/// search ends the play and is returned; the state then stays where the play had got.
///
/// Whatever the clock says, the state is reached from the old one by legal actions. With a
/// threshold of zero no search finds an action. With a threshold beyond what the clock can
/// measure every search goes on to the turn limit, and the play ends as
/// `play_out_with_poll_limit` ends with enough polls.
pub fn play_out_with_time_threshold(
    state: &mut MazeState,
    beam_width: usize,
    time_threshold_milseconds: u128,
) -> (result: Result<(), SearchError>)
    requires
        old(state)@.wf(),
        old(state)@.turns <= old(state)@.end_turn,
    ensures
        exists|actions: Seq<(i32, i32)>|
            playable(old(state)@, actions) && final(state)@ == #[trigger] play(
                old(state)@,
                actions,
            ),
        final(state)@.wf(),
        final(state)@.turns <= final(state)@.end_turn,
        final(state)@.game_score >= old(state)@.game_score,
        final(state)@.game_score + grid_total(final(state)@.points) == old(state)@.game_score
            + grid_total(old(state)@.points),
        result is Ok <==> final(state)@.is_done(),
        old(state)@.is_done() ==> final(state)@ == old(state)@,
        beam_width == 0 ==> final(state)@ == old(state)@,
        result matches Err(error) ==> (error == SearchError::InvalidBeamWidth <==> beam_width
            == 0),
        time_threshold_milseconds == 0 ==> final(state)@ == played_out(
            old(state)@,
            beam_width as nat,
            0,
        ),
        time_threshold_milseconds > MOST_MILLISECONDS ==> final(state)@ == played_out(
            old(state)@,
            beam_width as nat,
            enough_polls(old(state)@, beam_width as nat),
        ),
        time_threshold_milseconds > MOST_MILLISECONDS && beam_width >= 1
            && old(state)@.legal_actions().len() > 0 ==> result is Ok,
{
    play_out(state, beam_width, Limit::Time(time_threshold_milseconds))
}

/// Plays the state to its turn limit with searches bounded by a number of polls: as long
/// as the episode is not over, `beam_search_with_poll_limit` chooses an action and the
/// state advances by it. The first failure of the search ends the play and is returned;
/// the state then stays where the play had got.
pub fn play_out_with_poll_limit(state: &mut MazeState, beam_width: usize, polls: usize) -> (result:
    Result<(), SearchError>)
    requires
        old(state)@.wf(),
        old(state)@.turns <= old(state)@.end_turn,
    ensures
        final(state)@ == played_out(old(state)@, beam_width as nat, polls as nat),
        final(state)@.wf(),
        result is Ok <==> final(state)@.is_done(),
        result matches Err(error) ==> search_answer(
            final(state)@,
            beam_width as nat,
            plies_before_poll(final(state)@, beam_width as nat, polls as nat),
        ) == Err::<(i32, i32), SearchError>(error),
        beam_width >= 1 && old(state)@.legal_actions().len() > 0 && polls >= polls_of_ply(
            1,
            beam_width as nat,
        ) ==> result is Ok,
{
    play_out(state, beam_width, Limit::Polls(polls))
}

/// The greatest score of a game in the standard configuration: the greatest reward in
/// each of its turns.
pub open spec fn greatest_score() -> int {
    (REWARD_LIMIT - 1) * END_TURN
}

/// Plays `game_number` games in the standard configuration, each to its turn limit with
/// the time-bounded beam search, and returns the sum of their scores. The seeds of the
/// games come from a generator seeded with zero. The first failure of a search ends the
/// run and is returned.
///
/// Which grids are drawn is not known in advance, and so neither is the sum. A beam width
/// of zero and a threshold of zero fail at the first search; with a threshold beyond what
/// the clock can measure every game is played to its end.
pub fn total_ai_score(game_number: usize, beam_width: usize, time_threshold_milseconds: u128) -> (result:
    Result<i128, SearchError>)
    ensures
        result matches Ok(score_sum) ==> 0 <= score_sum <= game_number * greatest_score(),
        game_number == 0 ==> result == Ok::<i128, SearchError>(0),
        game_number > 0 && beam_width == 0 ==> result == Err::<i128, SearchError>(
            SearchError::InvalidBeamWidth,
        ),
        game_number > 0 && beam_width >= 1 && time_threshold_milseconds == 0 ==> result == Err::<
            i128,
            SearchError,
        >(SearchError::NoActionFound),
        beam_width >= 1 && time_threshold_milseconds > MOST_MILLISECONDS ==> result is Ok,
        result matches Err(error) ==> game_number > 0 && (error == SearchError::InvalidBeamWidth
            <==> beam_width == 0),
{
    let mut rng = seeded_rng(0);
    let mut score_sum: i128 = 0;
    let mut i: usize = 0;
    while i < game_number
        invariant
            i <= game_number,
            greatest_score() == 900,
            0 <= score_sum <= i * greatest_score(),
            beam_width == 0 || time_threshold_milseconds == 0 ==> i == 0,
        decreases game_number - i,
    {
        let mut state = MazeState::new(next_seed(&mut rng));
        let ghost begun = state@;
        proof {
            begun.lemma_legal_action_exists();
        }
        match play_out_with_time_threshold(&mut state, beam_width, time_threshold_milseconds) {
            Ok(_) => {},
            Err(error) => {
                return Err(error);
            },
        }
        proof {
            let actions = choose|actions: Seq<(i32, i32)>|
                playable(begun, actions) && state@ == #[trigger] play(begun, actions);
            theorem_score_grows_with_turns(begun, actions, REWARD_LIMIT - 1);
            assert((REWARD_LIMIT - 1) * actions.len() == greatest_score()) by (nonlinear_arith)
                requires
                    actions.len() == END_TURN,
                    greatest_score() == (REWARD_LIMIT - 1) * END_TURN,
            ;
        }
        score_sum = score_sum + state.game_score() as i128;
        i += 1;
    }
    Ok(score_sum)
}

} // verus!
