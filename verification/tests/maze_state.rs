use maze_search::maze::{ConfigError, Coord, MazeState, END_TURN, H, REWARD_LIMIT, W};

fn sample_grid() -> Vec<Vec<i32>> {
    vec![vec![0, 1, 2], vec![3, 0, 1], vec![2, 1, 0]]
}

fn sample_state(h: i32, w: i32, end_turn: u32) -> MazeState {
    MazeState::from_grid(sample_grid(), Coord { h, w }, end_turn).unwrap()
}

fn rewards(state: &MazeState) -> Vec<Vec<i32>> {
    let mut rows = Vec::new();
    for h in 0..state.height() {
        let mut row = Vec::new();
        for w in 0..state.width() {
            row.push(state.point(h, w));
        }
        rows.push(row);
    }
    rows
}

#[test]
fn from_grid_starts_an_episode() {
    let state = sample_state(0, 0, 2);
    assert_eq!(state.height(), 3);
    assert_eq!(state.width(), 3);
    assert_eq!(state.turns(), 0);
    assert_eq!(state.end_turn(), 2);
    assert_eq!(state.game_score(), 0);
    assert_eq!(state.evaluated_score(), 0);
    assert_eq!(state.character(), Coord { h: 0, w: 0 });
    assert_eq!(state.first_action(), (0, 0));
    assert_eq!(rewards(&state), sample_grid());
    assert!(!state.is_done());
}

#[test]
fn from_grid_refuses_a_grid_without_rows() {
    let result = MazeState::from_grid(Vec::new(), Coord { h: 0, w: 0 }, 2);
    assert_eq!(result.unwrap_err(), ConfigError::InvalidDimensions);
}

#[test]
fn from_grid_refuses_rows_without_cells() {
    let result = MazeState::from_grid(vec![Vec::new(), Vec::new()], Coord { h: 0, w: 0 }, 2);
    assert_eq!(result.unwrap_err(), ConfigError::InvalidDimensions);
}

#[test]
fn from_grid_refuses_rows_of_different_lengths() {
    let result = MazeState::from_grid(vec![vec![1, 2], vec![3]], Coord { h: 0, w: 0 }, 2);
    assert_eq!(result.unwrap_err(), ConfigError::InvalidDimensions);
}

#[test]
fn from_grid_refuses_a_negative_reward() {
    let result = MazeState::from_grid(vec![vec![1, 2], vec![3, -1]], Coord { h: 0, w: 0 }, 2);
    assert_eq!(result.unwrap_err(), ConfigError::NegativeReward);
}

#[test]
fn from_grid_refuses_rewards_beyond_the_score() {
    let result = MazeState::from_grid(vec![vec![i32::MAX, 1]], Coord { h: 0, w: 0 }, 2);
    assert_eq!(result.unwrap_err(), ConfigError::ScoreOverflow);
    let fits = MazeState::from_grid(vec![vec![i32::MAX - 1, 1]], Coord { h: 0, w: 0 }, 2);
    assert!(fits.is_ok());
}

#[test]
fn from_grid_refuses_an_agent_off_the_grid() {
    for (h, w) in [(-1, 0), (0, -1), (3, 0), (0, 3)] {
        let result = MazeState::from_grid(sample_grid(), Coord { h, w }, 2);
        assert_eq!(result.unwrap_err(), ConfigError::InvalidPosition);
    }
}

#[test]
fn from_grid_reports_the_first_fault() {
    let ragged = MazeState::from_grid(vec![vec![1, -2], vec![3]], Coord { h: 9, w: 9 }, 2);
    assert_eq!(ragged.unwrap_err(), ConfigError::InvalidDimensions);
    let negative = MazeState::from_grid(vec![vec![i32::MAX, -2, 5]], Coord { h: 9, w: 9 }, 2);
    assert_eq!(negative.unwrap_err(), ConfigError::NegativeReward);
    let too_much = MazeState::from_grid(vec![vec![i32::MAX, 2, 5]], Coord { h: 9, w: 9 }, 2);
    assert_eq!(too_much.unwrap_err(), ConfigError::ScoreOverflow);
}

#[test]
fn with_config_refuses_an_empty_grid() {
    assert_eq!(
        MazeState::with_config(1, 0, 3, 5, 10).unwrap_err(),
        ConfigError::InvalidDimensions
    );
    assert_eq!(
        MazeState::with_config(1, 3, 0, 5, 10).unwrap_err(),
        ConfigError::InvalidDimensions
    );
}

#[test]
fn with_config_refuses_an_empty_reward_range() {
    assert_eq!(
        MazeState::with_config(1, 3, 3, 5, 0).unwrap_err(),
        ConfigError::InvalidRewardRange
    );
    assert_eq!(
        MazeState::with_config(1, 3, 3, 5, -4).unwrap_err(),
        ConfigError::InvalidRewardRange
    );
}

#[test]
fn with_config_refuses_more_reward_than_a_score_holds() {
    assert_eq!(
        MazeState::with_config(1, 65536, 65536, 5, 2).unwrap_err(),
        ConfigError::ScoreOverflow
    );
    assert_eq!(
        MazeState::with_config(1, 2, 1, 5, i32::MAX).unwrap_err(),
        ConfigError::ScoreOverflow
    );
}

#[test]
fn with_config_reports_the_first_fault() {
    assert_eq!(
        MazeState::with_config(1, 0, 65536, 5, 0).unwrap_err(),
        ConfigError::InvalidDimensions
    );
    assert_eq!(
        MazeState::with_config(1, 65536, 65536, 5, 0).unwrap_err(),
        ConfigError::InvalidRewardRange
    );
}

#[test]
fn with_config_fills_the_grid_within_the_range() {
    for seed in 0..20 {
        let state = MazeState::with_config(seed, 4, 7, 9, 3).unwrap();
        assert_eq!(state.height(), 4);
        assert_eq!(state.width(), 7);
        assert_eq!(state.end_turn(), 9);
        assert_eq!(state.turns(), 0);
        assert_eq!(state.game_score(), 0);
        assert_eq!(state.evaluated_score(), 0);
        assert_eq!(state.first_action(), (0, 0));
        let cell = state.character();
        assert!(0 <= cell.h && cell.h < 4);
        assert!(0 <= cell.w && cell.w < 7);
        for row in rewards(&state) {
            for reward in row {
                assert!(0 <= reward && reward < 3);
            }
        }
    }
}

#[test]
fn with_config_accepts_a_single_reward_value() {
    let state = MazeState::with_config(5, 2, 2, 1, 1).unwrap();
    assert_eq!(rewards(&state), vec![vec![0, 0], vec![0, 0]]);
}

#[test]
fn a_seed_gives_the_same_state_again() {
    let first = MazeState::new(121321);
    let second = MazeState::new(121321);
    assert_eq!(first.character(), second.character());
    assert_eq!(rewards(&first), rewards(&second));
}

#[test]
fn new_uses_the_standard_configuration() {
    assert_eq!(H, 30);
    assert_eq!(W, 30);
    assert_eq!(END_TURN, 100);
    assert_eq!(REWARD_LIMIT, 10);
    for seed in [0, 1, 42, u64::MAX] {
        let state = MazeState::new(seed);
        assert_eq!(state.height(), 30);
        assert_eq!(state.width(), 30);
        assert_eq!(state.end_turn(), 100);
        assert_eq!(state.turns(), 0);
        assert_eq!(state.game_score(), 0);
        assert_eq!(state.first_action(), (0, 0));
        let cell = state.character();
        assert!(0 <= cell.h && cell.h < 30);
        assert!(0 <= cell.w && cell.w < 30);
        let grid = rewards(&state);
        assert!(grid.iter().all(|row| row.iter().all(|&reward| 0 <= reward && reward < 10)));
        assert!(grid.iter().any(|row| row.iter().any(|&reward| reward > 0)));
    }
}

#[test]
fn legal_actions_keep_their_order() {
    assert_eq!(sample_state(1, 1, 2).generate_legal_actions(), vec![(0, 1), (0, -1), (1, 0), (-1, 0)]);
    assert_eq!(sample_state(0, 0, 2).generate_legal_actions(), vec![(0, 1), (1, 0)]);
    assert_eq!(sample_state(2, 2, 2).generate_legal_actions(), vec![(0, -1), (-1, 0)]);
    assert_eq!(sample_state(0, 1, 2).generate_legal_actions(), vec![(0, 1), (1, 0), (-1, 0)]);
    assert_eq!(sample_state(1, 2, 2).generate_legal_actions(), vec![(0, 1), (0, -1), (-1, 0)]);
}

#[test]
fn a_single_cell_has_no_legal_action() {
    let state = MazeState::from_grid(vec![vec![4]], Coord { h: 0, w: 0 }, 3).unwrap();
    assert_eq!(state.generate_legal_actions(), Vec::new());
}

#[test]
fn a_single_row_allows_only_sideways_moves() {
    let state = MazeState::from_grid(vec![vec![4, 0, 2]], Coord { h: 0, w: 1 }, 3).unwrap();
    assert_eq!(state.generate_legal_actions(), vec![(1, 0), (-1, 0)]);
}

#[test]
fn advance_collects_the_reward_of_the_new_cell() {
    let mut state = sample_state(0, 0, 2);
    state.advance((0, 1));
    assert_eq!(state.character(), Coord { h: 1, w: 0 });
    assert_eq!(state.game_score(), 3);
    assert_eq!(state.turns(), 1);
    assert_eq!(rewards(&state), vec![vec![0, 1, 2], vec![0, 0, 1], vec![2, 1, 0]]);
    assert_eq!(state.evaluated_score(), 0);
    assert_eq!(state.first_action(), (0, 0));
    assert_eq!(state.end_turn(), 2);
}

#[test]
fn advance_keeps_the_agent_on_the_grid() {
    let mut state = MazeState::new(7);
    for _ in 0..100 {
        let actions = state.generate_legal_actions();
        let action = actions[actions.len() - 1];
        state.advance(action);
        let cell = state.character();
        assert!(0 <= cell.h && (cell.h as usize) < state.height());
        assert!(0 <= cell.w && (cell.w as usize) < state.width());
    }
    assert!(state.is_done());
}

#[test]
fn the_score_rises_only_with_a_reward() {
    let mut state = sample_state(0, 0, 9);
    state.advance((1, 0));
    assert_eq!(state.game_score(), 1);
    state.advance((0, 1));
    assert_eq!(state.game_score(), 1);
    state.advance((1, 0));
    assert_eq!(state.game_score(), 2);
    state.advance((0, 1));
    assert_eq!(state.game_score(), 2);
}

#[test]
fn a_cell_pays_only_once() {
    let mut state = sample_state(0, 0, 9);
    state.advance((0, 1));
    assert_eq!(state.game_score(), 3);
    state.advance((0, -1));
    assert_eq!(state.game_score(), 3);
    state.advance((0, 1));
    assert_eq!(state.game_score(), 3);
    assert_eq!(state.point(1, 0), 0);
    assert_eq!(state.turns(), 3);
}

#[test]
fn the_start_cell_pays_when_it_is_entered() {
    let mut state = sample_state(1, 0, 9);
    assert_eq!(state.point(1, 0), 3);
    state.advance((0, -1));
    assert_eq!(state.game_score(), 0);
    state.advance((0, 1));
    assert_eq!(state.game_score(), 3);
}

#[test]
fn an_episode_ends_at_the_turn_limit() {
    let mut state = sample_state(0, 0, 2);
    assert!(!state.is_done());
    state.advance((1, 0));
    assert!(!state.is_done());
    state.advance((1, 0));
    assert!(state.is_done());
    state.advance((-1, 0));
    assert!(!state.is_done());
    assert_eq!(state.turns(), 3);
}

#[test]
fn a_turn_limit_of_zero_is_over_at_once() {
    assert!(sample_state(0, 0, 0).is_done());
}

#[test]
fn evaluate_score_copies_the_score_to_the_key() {
    let mut state = sample_state(0, 0, 2);
    state.advance((0, 1));
    assert_eq!(state.evaluated_score(), 0);
    state.evaluate_score();
    assert_eq!(state.evaluated_score(), 3);
    assert_eq!(state.game_score(), 3);
}

#[test]
fn a_copy_shares_nothing_with_the_state() {
    let state = sample_state(0, 0, 2);
    let mut copy = state.clone();
    copy.advance((0, 1));
    copy.evaluate_score();
    assert_eq!(state.game_score(), 0);
    assert_eq!(state.point(1, 0), 3);
    assert_eq!(state.character(), Coord { h: 0, w: 0 });
    assert_eq!(copy.game_score(), 3);
    assert_eq!(copy.point(1, 0), 0);
}

#[test]
fn only_unit_moves_onto_the_grid_are_legal() {
    let state = sample_state(0, 0, 2);
    assert!(state.is_legal((0, 1)));
    assert!(state.is_legal((1, 0)));
    assert!(!state.is_legal((0, -1)));
    assert!(!state.is_legal((-1, 0)));
    assert!(!state.is_legal((0, 0)));
    assert!(!state.is_legal((1, 1)));
    assert!(!state.is_legal((0, 2)));
    assert!(!state.is_legal((-1, -1)));
    assert!(!state.is_legal((i32::MAX, 0)));
    assert!(!state.is_legal((0, i32::MIN)));
    let middle = sample_state(1, 1, 2);
    for action in [(0, 1), (0, -1), (1, 0), (-1, 0)] {
        assert!(middle.is_legal(action));
    }
}

#[test]
fn try_advance_moves_by_a_legal_action() {
    let mut state = sample_state(0, 0, 2);
    assert!(state.try_advance((0, 1)));
    assert_eq!(state.character(), Coord { h: 1, w: 0 });
    assert_eq!(state.game_score(), 3);
    assert_eq!(state.turns(), 1);
    assert_eq!(state.point(1, 0), 0);
}

#[test]
fn try_advance_refuses_what_is_not_legal() {
    let mut state = sample_state(0, 0, 2);
    for action in [(0, -1), (-1, 0), (0, 0), (2, 0), (1, 1), (i32::MIN, i32::MAX)] {
        assert!(!state.try_advance(action));
        assert_eq!(state.character(), Coord { h: 0, w: 0 });
        assert_eq!(state.game_score(), 0);
        assert_eq!(state.turns(), 0);
    }
    assert_eq!(rewards(&state), sample_grid());
}
