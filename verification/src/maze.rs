//! The grid state: rewards, agent position, score and turn counter, with the moves that
//! change it.

use crate::grid::{
    checked_grid_total, grid_is_nonnegative, grid_nonnegative, grid_total, grid_view, grid_within,
    lemma_grid_total_bounds, row_view, row_within, rows_have_length, rows_have_width,
};
use crate::model::{no_action, MazeModel};
use crate::random::{next_index, next_reward, seeded_rng};
use vstd::prelude::*;

verus! {

/// The height of the standard grid.
pub const H: usize = 30;

/// The width of the standard grid.
pub const W: usize = 30;

/// The turn limit of the standard configuration.
pub const END_TURN: u32 = 100;

/// In the standard configuration every reward is below this bound.
pub const REWARD_LIMIT: i32 = 10;

/// A cell of the grid: `h` is the row, `w` the column.
#[derive(Clone, Copy, Debug, Default, PartialEq, Eq, Structural)]
pub struct Coord {
    pub h: i32,
    pub w: i32,
}

/// Why a grid state could not be built.
#[derive(Clone, Copy, Debug, PartialEq, Eq, Structural)]
pub enum ConfigError {
    /// The grid has no rows or no columns, a side longer than `i32::MAX`, or rows of
    /// different lengths.
    InvalidDimensions,
    /// The bound on the rewards is not positive.
    InvalidRewardRange,
    /// A reward is negative.
    NegativeReward,
    /// The rewards of the grid may add up to more than `i32::MAX`.
    ScoreOverflow,
    /// The agent is not on the grid.
    InvalidPosition,
}

/// The first fault of a configuration for a random grid, if it has one.
pub open spec fn config_error(height: int, width: int, reward_limit: int) -> Option<ConfigError> {
    if height < 1 || width < 1 || height > i32::MAX || width > i32::MAX {
        Some(ConfigError::InvalidDimensions)
    } else if reward_limit < 1 {
        Some(ConfigError::InvalidRewardRange)
    } else if height * width * (reward_limit - 1) > i32::MAX {
        Some(ConfigError::ScoreOverflow)
    } else {
        None
    }
}

/// The first fault of a grid and a position given in full, if they have one.
pub open spec fn grid_error(points: Seq<Seq<int>>, h: int, w: int) -> Option<ConfigError> {
    if points.len() < 1 || points.len() > i32::MAX || points[0].len() < 1 || points[0].len()
        > i32::MAX || !rows_have_width(points, points[0].len() as int) {
        Some(ConfigError::InvalidDimensions)
    } else if !grid_nonnegative(points) {
        Some(ConfigError::NegativeReward)
    } else if grid_total(points) > i32::MAX {
        Some(ConfigError::ScoreOverflow)
    } else if !(0 <= h < points.len() && 0 <= w < points[0].len()) {
        Some(ConfigError::InvalidPosition)
    } else {
        None
    }
}

/// The state at the start of an episode on the given grid.
pub open spec fn initial_model(points: Seq<Seq<int>>, h: int, w: int, end_turn: int) -> MazeModel {
    MazeModel {
        points,
        turns: 0,
        end_turn,
        game_score: 0,
        evaluated_score: 0,
        h,
        w,
        first_action: no_action(),
    }
}

/// A snapshot of the world: the rewards still on the grid, where the agent stands, what it
/// has collected and how many turns have passed.
#[derive(Debug)]
pub struct MazeState {
    points: Vec<Vec<i32>>,
    turns: u32,
    end_turn: u32,
    game_score: i32,
    evaluated_score: i32,
    character: Coord,
    first_action: (i32, i32),
}

impl View for MazeState {
    type V = MazeModel;

    closed spec fn view(&self) -> MazeModel {
        MazeModel {
            points: grid_view(self.points@),
            turns: self.turns as int,
            end_turn: self.end_turn as int,
            game_score: self.game_score as int,
            evaluated_score: self.evaluated_score as int,
            h: self.character.h as int,
            w: self.character.w as int,
            first_action: self.first_action,
        }
    }
}

impl Clone for MazeState {
    fn clone(&self) -> (copy: Self)
        ensures
            copy@ == self@,
    {
        let mut points: Vec<Vec<i32>> = Vec::new();
        let mut i: usize = 0;
        while i < self.points.len()
            invariant
                i <= self.points.len(),
                points@.len() == i,
                forall|k: int| 0 <= k < i ==> points@[k]@ == self.points@[k]@,
            decreases self.points.len() - i,
        {
            let row = self.points[i].clone();
            points.push(row);
            i += 1;
        }
        let copy = MazeState {
            points,
            turns: self.turns,
            end_turn: self.end_turn,
            game_score: self.game_score,
            evaluated_score: self.evaluated_score,
            character: self.character,
            first_action: self.first_action,
        };
        assert(copy@.points =~~= self@.points);
        copy
    }
}

impl MazeState {
    /// The start of an episode in the standard configuration: a grid of `H` rows and `W`
    /// columns, `END_TURN` turns, every reward below `REWARD_LIMIT`. The agent's cell and the
    /// rewards are drawn from a generator seeded with `seed`.
    pub fn new(seed: u64) -> (state: MazeState)
        ensures
            state@.wf(),
            state@.height() == H,
            state@.width() == W,
            state@.turns == 0,
            state@.end_turn == END_TURN,
            state@.game_score == 0,
            state@.evaluated_score == 0,
            state@.first_action == no_action(),
            grid_within(state@.points, 0, REWARD_LIMIT - 1),
    {
        match MazeState::with_config(seed, H, W, END_TURN, REWARD_LIMIT) {
            Ok(state) => state,
            Err(_) => vstd::pervasive::unreached(),
        }
    }

    /// The start of an episode on a random grid of the given size, with rewards drawn from
    /// `0..reward_limit`. The agent's cell and the rewards come from a generator seeded with
    /// `seed`: first the agent's column, then its row, then the rewards row by row.
    pub fn with_config(
        seed: u64,
        height: usize,
        width: usize,
        end_turn: u32,
        reward_limit: i32,
    ) -> (result: Result<MazeState, ConfigError>)
        ensures
            match result {
                Ok(state) => {
                    &&& config_error(height as int, width as int, reward_limit as int) is None
                    &&& state@.wf()
                    &&& state@.height() == height
                    &&& state@.width() == width
                    &&& state@.turns == 0
                    &&& state@.end_turn == end_turn
                    &&& state@.game_score == 0
                    &&& state@.evaluated_score == 0
                    &&& state@.first_action == no_action()
                    &&& grid_within(state@.points, 0, reward_limit - 1)
                },
                Err(error) => config_error(height as int, width as int, reward_limit as int)
                    == Some(error),
            },
    {
        if height == 0 || width == 0 || height > 0x7fff_ffff || width > 0x7fff_ffff {
            return Err(ConfigError::InvalidDimensions);
        }
        if reward_limit < 1 {
            return Err(ConfigError::InvalidRewardRange);
        }
        assert(height * width <= 0x7fff_ffff * 0x7fff_ffff) by (nonlinear_arith)
            requires
                height <= 0x7fff_ffff,
                width <= 0x7fff_ffff,
        ;
        let cells: u64 = (height as u64) * (width as u64);
        assert(cells * (reward_limit - 1) <= 0x3fff_ffff_0000_0001 * 0x7fff_ffff)
            by (nonlinear_arith)
            requires
                cells <= 0x3fff_ffff_0000_0001,
                0 <= reward_limit - 1 <= 0x7fff_ffff,
        ;
        let most: u128 = (cells as u128) * ((reward_limit - 1) as u128);
        if most > 0x7fff_ffff {
            return Err(ConfigError::ScoreOverflow);
        }
        let mut rng = seeded_rng(seed);
        let w: usize = next_index(&mut rng, width);
        let h: usize = next_index(&mut rng, height);
        let character = Coord { h: h as i32, w: w as i32 };
        let mut points: Vec<Vec<i32>> = Vec::new();
        let mut i: usize = 0;
        while i < height
            invariant
                i <= height,
                0 < reward_limit,
                points@.len() == i,
                forall|k: int| 0 <= k < i ==> (#[trigger] points@[k])@.len() == width,
                forall|k: int|
                    0 <= k < i ==> row_within(row_view(#[trigger] points@[k]@), 0, reward_limit - 1),
            decreases height - i,
        {
            let mut row: Vec<i32> = Vec::new();
            let mut j: usize = 0;
            while j < width
                invariant
                    j <= width,
                    0 < reward_limit,
                    row@.len() == j,
                    forall|k: int| 0 <= k < j ==> 0 <= #[trigger] row@[k] < reward_limit,
                decreases width - j,
            {
                let reward: i32 = next_reward(&mut rng, reward_limit);
                row.push(reward);
                j += 1;
            }
            points.push(row);
            i += 1;
        }
        let state = MazeState {
            points,
            turns: 0,
            end_turn,
            game_score: 0,
            evaluated_score: 0,
            character,
            first_action: (0, 0),
        };
        proof {
            let rewards = state@.points;
            lemma_grid_total_bounds(rewards, width as int, reward_limit - 1);
        }
        Ok(state)
    }

    /// The start of an episode on the given grid, with the agent on the given cell.
    pub fn from_grid(points: Vec<Vec<i32>>, character: Coord, end_turn: u32) -> (result: Result<
        MazeState,
        ConfigError,
    >)
        ensures
            match result {
                Ok(state) => {
                    &&& grid_error(grid_view(points@), character.h as int, character.w as int)
                        is None
                    &&& state@ == initial_model(
                        grid_view(points@),
                        character.h as int,
                        character.w as int,
                        end_turn as int,
                    )
                    &&& state@.wf()
                },
                Err(error) => grid_error(
                    grid_view(points@),
                    character.h as int,
                    character.w as int,
                ) == Some(error),
            },
    {
        if points.len() == 0 || points.len() > 0x7fff_ffff {
            return Err(ConfigError::InvalidDimensions);
        }
        let width: usize = points[0].len();
        if width == 0 || width > 0x7fff_ffff || !rows_have_length(&points, width) {
            return Err(ConfigError::InvalidDimensions);
        }
        if !grid_is_nonnegative(&points) {
            return Err(ConfigError::NegativeReward);
        }
        if checked_grid_total(&points).is_none() {
            return Err(ConfigError::ScoreOverflow);
        }
        if character.h < 0 || character.h as usize >= points.len() || character.w < 0
            || character.w as usize >= width {
            return Err(ConfigError::InvalidPosition);
        }
        Ok(
            MazeState {
                points,
                turns: 0,
                end_turn,
                game_score: 0,
                evaluated_score: 0,
                character,
                first_action: (0, 0),
            },
        )
    }

    /// The counters, scores and coordinates of a state fit their machine types.
    pub proof fn lemma_fits(&self)
        ensures
            0 <= self@.turns <= u32::MAX,
            0 <= self@.end_turn <= u32::MAX,
            i32::MIN <= self@.game_score <= i32::MAX,
            i32::MIN <= self@.evaluated_score <= i32::MAX,
            i32::MIN <= self@.h <= i32::MAX,
            i32::MIN <= self@.w <= i32::MAX,
    {
    }

    /// True iff the turn counter has reached the turn limit.
    pub fn is_done(&self) -> (done: bool)
        ensures
            done == self@.is_done(),
    {
        self.turns == self.end_turn
    }

    /// Brings the ordering key up to date: it becomes the score.
    pub fn evaluate_score(&mut self)
        ensures
            final(self)@ == old(self)@.evaluated(),
    {
        self.evaluated_score = self.game_score;
    }

    /// Moves the agent by a legal action, adds the reward of the cell it enters to the
    /// score, takes that reward off the grid and counts the turn.
    ///
    /// The agent stays on the grid; the score never falls, and it rises exactly when the
    /// entered cell still held a reward.
    pub fn advance(&mut self, action: (i32, i32))
        requires
            old(self)@.wf(),
            old(self)@.is_legal(action),
            old(self)@.turns < u32::MAX,
        ensures
            final(self)@ == old(self)@.advanced(action),
            final(self)@.wf(),
            0 <= final(self)@.h < final(self)@.height(),
            0 <= final(self)@.w < final(self)@.width(),
            final(self)@.game_score == old(self)@.game_score + old(self)@.reward_at(action),
            final(self)@.game_score >= old(self)@.game_score,
            final(self)@.game_score > old(self)@.game_score <==> old(self)@.reward_at(action) > 0,
            final(self)@.game_score + grid_total(final(self)@.points) == old(self)@.game_score
                + grid_total(old(self)@.points),
    {
        proof {
            old(self)@.lemma_advanced(action);
        }
        self.character.w += action.0;
        self.character.h += action.1;
        let h: usize = self.character.h as usize;
        let w: usize = self.character.w as usize;
        self.game_score += self.points[h][w];
        self.points[h][w] = 0;
        self.turns += 1;
        assert(self@.points =~~= old(self)@.advanced(action).points);
    }

    /// Whether the action is legal: one of the four unit moves, and leaving the agent on the
    /// grid.
    pub fn is_legal(&self, action: (i32, i32)) -> (legal: bool)
        requires
            self@.wf(),
        ensures
            legal == self@.is_legal(action),
    {
        let unit = (action.0 == 0 && (action.1 == 1 || action.1 == -1)) || (action.1 == 0 && (
        action.0 == 1 || action.0 == -1));
        if !unit {
            return false;
        }
        let nw: i32 = self.character.w + action.0;
        let nh: i32 = self.character.h + action.1;
        let width: usize = self.points[0].len();
        let height: usize = self.points.len();
        0 <= nw && nw < width as i32 && 0 <= nh && nh < height as i32
    }

    /// Advances by the action if it is legal and the turn counter has room for one more
    /// turn; otherwise the state stays as it is. Whatever the action, the agent is on the
    /// grid afterwards and the score has not fallen; it has risen exactly if the agent moved
    /// onto a cell that held a reward.
    pub fn try_advance(&mut self, action: (i32, i32)) -> (moved: bool)
        requires
            old(self)@.wf(),
        ensures
            moved <==> old(self)@.is_legal(action) && old(self)@.turns < u32::MAX,
            moved ==> final(self)@ == old(self)@.advanced(action),
            !moved ==> final(self)@ == old(self)@,
            final(self)@.wf(),
            0 <= final(self)@.h < final(self)@.height(),
            0 <= final(self)@.w < final(self)@.width(),
            final(self)@.game_score >= old(self)@.game_score,
            final(self)@.game_score > old(self)@.game_score <==> moved && old(self)@.reward_at(
                action,
            ) > 0,
            moved ==> final(self)@.points[final(self)@.h][final(self)@.w] == 0,
    {
        if self.turns == u32::MAX || !self.is_legal(action) {
            return false;
        }
        proof {
            self@.lemma_advanced(action);
        }
        self.advance(action);
        true
    }

    /// Appends the action to the list if it leaves the agent on the grid.
    fn push_if_legal(&self, actions: &mut Vec<(i32, i32)>, action: (i32, i32))
        requires
            self@.wf(),
            -1 <= action.0 <= 1,
            -1 <= action.1 <= 1,
        ensures
            final(actions)@ == old(actions)@ + self@.keep(action),
    {
        let nw: i32 = self.character.w + action.0;
        let nh: i32 = self.character.h + action.1;
        let width: usize = self.points[0].len();
        let height: usize = self.points.len();
        if 0 <= nw && nw < width as i32 && 0 <= nh && nh < height as i32 {
            actions.push(action);
        }
    }

    /// The legal actions: the four unit moves in the order down, up, right, left, without
    /// those that would take the agent off the grid.
    pub fn generate_legal_actions(&self) -> (actions: Vec<(i32, i32)>)
        requires
            self@.wf(),
        ensures
            actions@ == self@.legal_actions(),
    {
        let mut actions: Vec<(i32, i32)> = Vec::new();
        self.push_if_legal(&mut actions, (0, 1));
        self.push_if_legal(&mut actions, (0, -1));
        self.push_if_legal(&mut actions, (1, 0));
        self.push_if_legal(&mut actions, (-1, 0));
        actions
    }

    /// Records the action with which a search left its root on the way to this state.
    pub(crate) fn set_first_action(&mut self, action: (i32, i32))
        ensures
            final(self)@ == old(self)@.with_first_action(action),
    {
        self.first_action = action;
    }

    /// The number of moves made so far.
    pub fn turns(&self) -> (turns: u32)
        ensures
            turns == self@.turns,
    {
        self.turns
    }

    /// The number of moves after which the episode is over.
    pub fn end_turn(&self) -> (end_turn: u32)
        ensures
            end_turn == self@.end_turn,
    {
        self.end_turn
    }

    /// The sum of the rewards collected so far.
    pub fn game_score(&self) -> (score: i32)
        ensures
            score == self@.game_score,
    {
        self.game_score
    }

    /// The key by which a search frontier orders this state.
    pub fn evaluated_score(&self) -> (score: i32)
        ensures
            score == self@.evaluated_score,
    {
        self.evaluated_score
    }

    /// The cell on which the agent stands.
    pub fn character(&self) -> (cell: Coord)
        ensures
            cell.h == self@.h,
            cell.w == self@.w,
    {
        self.character
    }

    /// The action taken at the first ply of the search that produced this state, `(0, 0)`
    /// if there is none.
    pub fn first_action(&self) -> (action: (i32, i32))
        ensures
            action == self@.first_action,
    {
        self.first_action
    }

    /// The number of rows of the grid.
    pub fn height(&self) -> (height: usize)
        ensures
            height == self@.height(),
    {
        self.points.len()
    }

    /// The number of columns of the grid.
    pub fn width(&self) -> (width: usize)
        ensures
            width == self@.width(),
    {
        if self.points.len() == 0 {
            0
        } else {
            self.points[0].len()
        }
    }

    /// The reward that lies on the cell in row `h` and column `w`.
    pub fn point(&self, h: usize, w: usize) -> (reward: i32)
        requires
            h < self@.points.len(),
            w < self@.points[h as int].len(),
        ensures
            reward == self@.points[h as int][w as int],
    {
        self.points[h][w]
    }
}

} // verus!
