//! The mathematical model of a grid state, and what a move does to it.

use crate::grid::{
    grid_nonnegative, grid_total, lemma_grid_entry_le_total, lemma_grid_total_update,
    lemma_row_total_update, rows_have_width,
};
use vstd::prelude::*;

verus! {

/// The first action of a state that no search has expanded yet.
pub open spec fn no_action() -> (i32, i32) {
    (0, 0)
}

/// The mathematical value of a grid state.
///
/// An action is a pair `(dw, dh)`: the change of the column, then the change of the row.
pub struct MazeModel {
    /// The reward of each cell, row by row.
    pub points: Seq<Seq<int>>,
    /// The number of moves made so far.
    pub turns: int,
    /// The number of moves after which the episode is over.
    pub end_turn: int,
    /// The sum of the rewards collected so far.
    pub game_score: int,
    /// The key by which a search frontier orders this state.
    pub evaluated_score: int,
    /// The agent's row.
    pub h: int,
    /// The agent's column.
    pub w: int,
    /// The action taken at the first ply of the search that produced this state.
    pub first_action: (i32, i32),
}

impl MazeModel {
    /// The number of rows.
    pub open spec fn height(self) -> int {
        self.points.len() as int
    }

    /// The number of columns.
    pub open spec fn width(self) -> int {
        if self.points.len() == 0 {
            0
        } else {
            self.points[0].len() as int
        }
    }

    /// The invariant of a grid state: a rectangular, non-empty grid of non-negative rewards,
    /// the agent inside it, and a score to which everything still on the grid can be added.
    pub open spec fn wf(self) -> bool {
        &&& 1 <= self.height() <= i32::MAX
        &&& 1 <= self.width() <= i32::MAX
        &&& rows_have_width(self.points, self.width())
        &&& grid_nonnegative(self.points)
        &&& 0 <= self.h < self.height()
        &&& 0 <= self.w < self.width()
        &&& 0 <= self.turns
        &&& 0 <= self.game_score
        &&& self.game_score + grid_total(self.points) <= i32::MAX
    }

    /// The episode is over: the turn counter has reached the limit.
    pub open spec fn is_done(self) -> bool {
        self.turns == self.end_turn
    }

    /// The action leaves the agent on the grid.
    pub open spec fn in_bounds(self, action: (i32, i32)) -> bool {
        &&& 0 <= self.w + action.0 < self.width()
        &&& 0 <= self.h + action.1 < self.height()
    }

    /// The action alone if it leaves the agent on the grid, nothing otherwise.
    pub open spec fn keep(self, action: (i32, i32)) -> Seq<(i32, i32)> {
        if self.in_bounds(action) {
            seq![action]
        } else {
            Seq::empty()
        }
    }

    /// The legal actions, in the fixed order down, up, right, left.
    pub open spec fn legal_actions(self) -> Seq<(i32, i32)> {
        self.keep((0i32, 1i32)) + self.keep((0i32, -1i32)) + self.keep((1i32, 0i32)) + self.keep(
            (-1i32, 0i32),
        )
    }

    /// The action is one of the four unit moves and leaves the agent on the grid.
    pub open spec fn is_legal(self, action: (i32, i32)) -> bool {
        &&& action == (0i32, 1i32) || action == (0i32, -1i32) || action == (1i32, 0i32) || action
            == (-1i32, 0i32)
        &&& self.in_bounds(action)
    }

    /// The reward of the cell that the action leads to.
    pub open spec fn reward_at(self, action: (i32, i32)) -> int {
        self.points[self.h + action.1][self.w + action.0]
    }

    /// The state after the action: the agent has moved, the reward of the new cell has gone
    /// from the grid to the score, and one more turn has passed.
    pub open spec fn advanced(self, action: (i32, i32)) -> MazeModel {
        let h = self.h + action.1;
        let w = self.w + action.0;
        MazeModel {
            points: self.points.update(h, self.points[h].update(w, 0)),
            turns: self.turns + 1,
            game_score: self.game_score + self.points[h][w],
            h,
            w,
            ..self
        }
    }

    /// The state with its ordering key brought up to date: the key is the score.
    pub open spec fn evaluated(self) -> MazeModel {
        MazeModel { evaluated_score: self.game_score, ..self }
    }

    /// The state with the given first action recorded.
    pub open spec fn with_first_action(self, action: (i32, i32)) -> MazeModel {
        MazeModel { first_action: action, ..self }
    }

    /// The score that the action leads to.
    pub open spec fn lookahead(self, action: (i32, i32)) -> int {
        self.game_score + self.reward_at(action)
    }

    /// Membership in `legal_actions` is legality.
    pub proof fn lemma_legal_actions(self, action: (i32, i32))
        ensures
            self.legal_actions().contains(action) <==> self.is_legal(action),
    {
        let actions = self.legal_actions();
        let down = self.keep((0i32, 1i32));
        let up = self.keep((0i32, -1i32));
        let right = self.keep((1i32, 0i32));
        if self.is_legal(action) {
            let i: int = if action == (0i32, 1i32) {
                0
            } else if action == (0i32, -1i32) {
                down.len() as int
            } else if action == (1i32, 0i32) {
                (down.len() + up.len()) as int
            } else {
                (down.len() + up.len() + right.len()) as int
            };
            assert(actions[i] == action);
        }
    }

    /// Every entry of `legal_actions` is legal.
    pub proof fn lemma_legal_actions_are_legal(self)
        ensures
            forall|i: int|
                0 <= i < self.legal_actions().len() ==> self.is_legal(
                    #[trigger] self.legal_actions()[i],
                ),
            self.legal_actions().len() <= 4,
    {
        let actions = self.legal_actions();
        assert forall|i: int| 0 <= i < actions.len() implies self.is_legal(
            #[trigger] actions[i],
        ) by {
        }
    }

    /// A state has a legal action exactly when its grid has more than one cell.
    pub proof fn lemma_legal_action_exists(self)
        requires
            self.wf(),
        ensures
            self.legal_actions().len() > 0 <==> self.height() > 1 || self.width() > 1,
    {
    }

    /// A legal action keeps the invariant, puts the agent on a cell of the grid, never
    /// lowers the score, and moves the reward of the entered cell from the grid to the score.
    pub proof fn lemma_advanced(self, action: (i32, i32))
        requires
            self.wf(),
            self.is_legal(action),
        ensures
            self.advanced(action).wf(),
            self.advanced(action).height() == self.height(),
            self.advanced(action).width() == self.width(),
            self.advanced(action).turns == self.turns + 1,
            self.advanced(action).end_turn == self.end_turn,
            self.advanced(action).first_action == self.first_action,
            0 <= self.reward_at(action),
            self.lookahead(action) <= i32::MAX,
            self.advanced(action).game_score == self.lookahead(action),
            self.advanced(action).game_score + grid_total(self.advanced(action).points)
                == self.game_score + grid_total(self.points),
            self.advanced(action).points[self.advanced(action).h][self.advanced(action).w] == 0,
    {
        let h = self.h + action.1;
        let w = self.w + action.0;
        let row = self.points[h];
        lemma_grid_entry_le_total(self.points, h, w);
        lemma_row_total_update(row, w, 0);
        lemma_grid_total_update(self.points, h, row.update(w, 0));
    }
}

} // verus!
