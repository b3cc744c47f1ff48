use maze_search::maze::{Coord, MazeState};
use maze_search::policy::greedy_action;
use maze_search::search::{
    beam_search_action, beam_search_with_poll_limit, beam_search_with_time_threshold, SearchError,
};

fn state_on(points: Vec<Vec<i32>>, h: i32, w: i32, end_turn: u32) -> MazeState {
    MazeState::from_grid(points, Coord { h, w }, end_turn).unwrap()
}

fn sample_state(end_turn: u32) -> MazeState {
    state_on(vec![vec![0, 1, 2], vec![3, 0, 1], vec![2, 1, 0]], 0, 0, end_turn)
}

fn detour_state() -> MazeState {
    state_on(vec![vec![0, 0, 9], vec![0, 0, 1], vec![0, 2, 0]], 1, 1, 5)
}

fn crowded_state() -> MazeState {
    state_on(vec![vec![5, 5, 3, 1], vec![5, 9, 3, 9]], 1, 2, 10)
}

fn play(state: &MazeState, beam_width: usize, beam_depth: usize) -> i32 {
    let mut state = state.clone();
    while !state.is_done() {
        let action = beam_search_action(&state, beam_width, beam_depth).unwrap();
        state.advance(action);
    }
    state.game_score()
}

#[test]
fn search_to_the_turn_limit_returns_a_legal_action() {
    let state = sample_state(2);
    let action = beam_search_action(&state, 2, 2).unwrap();
    assert!(state.generate_legal_actions().contains(&action));
    assert_eq!(action, (0, 1));
    for seed in 0..5 {
        let state = MazeState::new(seed);
        let action = beam_search_action(&state, 3, 100).unwrap();
        assert!(state.generate_legal_actions().contains(&action));
    }
}

#[test]
fn search_leaves_the_root_as_it_was() {
    let state = sample_state(2);
    beam_search_action(&state, 2, 2).unwrap();
    assert_eq!(state.turns(), 0);
    assert_eq!(state.game_score(), 0);
    assert_eq!(state.first_action(), (0, 0));
    assert_eq!(state.point(1, 0), 3);
}

#[test]
fn search_refuses_a_beam_width_of_zero() {
    assert_eq!(beam_search_action(&sample_state(2), 0, 2), Err(SearchError::InvalidBeamWidth));
    assert_eq!(beam_search_action(&sample_state(2), 0, 0), Err(SearchError::InvalidBeamWidth));
    assert_eq!(
        beam_search_with_time_threshold(&sample_state(2), 0, 1000),
        Err(SearchError::InvalidBeamWidth)
    );
    assert_eq!(
        beam_search_with_time_threshold(&sample_state(2), 0, 0),
        Err(SearchError::InvalidBeamWidth)
    );
}

#[test]
fn search_of_no_ply_finds_no_action() {
    assert_eq!(beam_search_action(&sample_state(2), 3, 0), Err(SearchError::NoActionFound));
}

#[test]
fn search_on_a_single_cell_finds_no_action() {
    let state = state_on(vec![vec![5]], 0, 0, 3);
    assert_eq!(beam_search_action(&state, 3, 3), Err(SearchError::NoActionFound));
    assert_eq!(
        beam_search_with_time_threshold(&state, 3, u128::MAX),
        Err(SearchError::NoActionFound)
    );
}

#[test]
fn search_of_one_ply_chooses_as_greedy_does() {
    let states = [sample_state(2), detour_state(), crowded_state(), MazeState::new(3)];
    for state in states.iter() {
        for beam_width in [1, 2, 4, 100] {
            assert_eq!(beam_search_action(state, beam_width, 1), Ok(greedy_action(state)));
        }
    }
}

#[test]
fn search_in_the_last_turn_chooses_as_greedy_does() {
    let state = sample_state(1);
    assert_eq!(beam_search_action(&state, 3, 5), Ok((0, 1)));
    assert_eq!(greedy_action(&state), (0, 1));
}

#[test]
fn deeper_search_may_give_up_the_richest_neighbour() {
    let state = detour_state();
    assert_eq!(greedy_action(&state), (0, 1));
    assert_eq!(beam_search_action(&state, 4, 1), Ok((0, 1)));
    assert_eq!(beam_search_action(&state, 4, 2), Ok((1, 0)));
    assert_eq!(beam_search_action(&state, 4, 3), Ok((1, 0)));
    assert_eq!(beam_search_action(&state, 1, 2), Ok((0, 1)));
}

#[test]
fn search_keeps_the_first_of_equal_states() {
    let tie = state_on(vec![vec![0, 7, 0], vec![7, 0, 7], vec![0, 7, 0]], 1, 1, 3);
    assert_eq!(beam_search_action(&tie, 2, 1), Ok((0, 1)));
    assert_eq!(beam_search_action(&tie, 2, 3), Ok((0, 1)));
}

#[test]
fn search_follows_the_beam() {
    let state = crowded_state();
    assert_eq!(beam_search_action(&state, 1, 1), Ok((1, 0)));
    assert_eq!(beam_search_action(&state, 1, 2), Ok((1, 0)));
    assert_eq!(beam_search_action(&state, 1, 3), Ok((1, 0)));
    assert_eq!(beam_search_action(&state, 2, 1), Ok((1, 0)));
    assert_eq!(beam_search_action(&state, 2, 2), Ok((-1, 0)));
    assert_eq!(beam_search_action(&state, 2, 3), Ok((-1, 0)));
    assert_eq!(beam_search_action(&state, 3, 2), Ok((-1, 0)));
    assert_eq!(beam_search_action(&state, 3, 3), Ok((1, 0)));
}

#[test]
fn search_goes_on_past_a_root_at_its_turn_limit() {
    let state = sample_state(0);
    assert!(state.is_done());
    assert_eq!(beam_search_action(&state, 2, 2), Ok((0, 1)));
}

#[test]
fn a_wider_beam_collects_no_less_on_this_grid() {
    let grid = vec![vec![1, 0, 3, 2], vec![0, 5, 0, 1], vec![4, 0, 2, 0], vec![0, 1, 0, 6]];
    let state = state_on(grid, 0, 0, 6);
    assert_eq!(play(&state, 1, 1), 10);
    assert_eq!(play(&state, 1, 2), 10);
    assert_eq!(play(&state, 3, 2), 11);
    assert_eq!(play(&state, 1, 3), 10);
    assert_eq!(play(&state, 2, 3), 11);
    assert_eq!(play(&state, 8, 4), 11);
    for beam_depth in 1..5 {
        for beam_width in 2..9 {
            assert!(play(&state, 1, beam_depth) <= play(&state, beam_width, beam_depth));
        }
    }
}

#[test]
fn a_beam_of_two_can_collect_less_than_a_beam_of_one() {
    let grid = vec![vec![5, 5, 3, 1], vec![5, 9, 3, 9]];
    let state = state_on(grid, 1, 2, 3);
    assert_eq!(play(&state, 1, 3), 21);
    assert_eq!(play(&state, 2, 3), 19);
}

#[test]
fn a_beam_that_drops_no_state_collects_the_most() {
    let grid = vec![vec![5, 5, 3, 1], vec![5, 9, 3, 9]];
    let state = state_on(grid, 1, 2, 3);
    let full = play(&state, 16, 3);
    assert_eq!(full, 21);
    for beam_width in 1..10 {
        assert!(play(&state, beam_width, 3) <= full);
    }
}

#[test]
fn within_two_plies_a_wider_beam_collects_no_less() {
    let grid = vec![vec![5, 5, 3, 1], vec![5, 9, 3, 9]];
    let state = state_on(grid, 1, 2, 2);
    assert_eq!(play(&state, 1, 2), 12);
    assert_eq!(play(&state, 2, 2), 14);
    assert_eq!(play(&state, 3, 2), 14);
}

#[test]
fn timed_search_without_time_finds_no_action() {
    assert_eq!(
        beam_search_with_time_threshold(&sample_state(2), 3, 0),
        Err(SearchError::NoActionFound)
    );
    assert_eq!(
        beam_search_with_time_threshold(&MazeState::new(1), 10, 0),
        Err(SearchError::NoActionFound)
    );
}

#[test]
fn timed_search_with_time_to_spare_searches_to_the_turn_limit() {
    let state = sample_state(2);
    let action = beam_search_with_time_threshold(&state, 2, u128::MAX).unwrap();
    assert!(state.generate_legal_actions().contains(&action));
    assert_eq!(Ok(action), beam_search_action(&state, 2, 2));
    let state = detour_state();
    assert_eq!(beam_search_with_time_threshold(&state, 4, u128::MAX), Ok((1, 0)));
    let state = crowded_state();
    assert_eq!(
        beam_search_with_time_threshold(&state, 2, u128::MAX),
        beam_search_action(&state, 2, 10)
    );
}

#[test]
fn timed_search_returns_within_its_time() {
    let state = MazeState::new(11);
    match beam_search_with_time_threshold(&state, 10, 10) {
        Ok(action) => assert!(state.generate_legal_actions().contains(&action)),
        Err(error) => assert_eq!(error, SearchError::NoActionFound),
    }
}

fn two_turns_left() -> MazeState {
    let mut grid = vec![vec![0; 30]; 30];
    grid[0][1] = 1;
    grid[1][1] = 9;
    state_on(grid, 0, 0, 2)
}

#[test]
fn search_returns_the_first_move_of_the_best_path() {
    let state = two_turns_left();
    assert_eq!(beam_search_action(&state, 2, 2), Ok((1, 0)));
    assert_eq!(beam_search_with_poll_limit(&state, 2, 1000), Ok((1, 0)));
    assert_eq!(beam_search_with_time_threshold(&state, 2, u128::MAX), Ok((1, 0)));
}

#[test]
fn timed_search_that_is_never_over_searches_to_the_turn_limit() {
    let state = crowded_state();
    for beam_width in 1..5 {
        assert_eq!(
            beam_search_with_time_threshold(&state, beam_width, u128::MAX),
            beam_search_action(&state, beam_width, 10)
        );
    }
    let state = detour_state();
    assert_eq!(beam_search_with_time_threshold(&state, 4, u128::MAX), Ok((1, 0)));
    assert_eq!(beam_search_with_time_threshold(&state, 1, u128::MAX), Ok((0, 1)));
    assert_eq!(
        beam_search_with_time_threshold(&state, 4, 18_446_744_073_709_551_616_000),
        beam_search_action(&state, 4, 5)
    );
}

#[test]
fn polled_search_finds_no_action_before_the_first_ply_is_complete() {
    let state = crowded_state();
    assert_eq!(beam_search_with_poll_limit(&state, 1, 0), Err(SearchError::NoActionFound));
    assert_eq!(beam_search_with_poll_limit(&state, 2, 0), Err(SearchError::NoActionFound));
    assert_eq!(beam_search_with_poll_limit(&state, 2, 1), Err(SearchError::NoActionFound));
    assert_eq!(beam_search_with_poll_limit(&state, 3, 1), Err(SearchError::NoActionFound));
    assert_eq!(beam_search_with_poll_limit(&state, 100, 1), Err(SearchError::NoActionFound));
}

#[test]
fn polled_search_returns_a_legal_action_after_the_first_ply() {
    let state = crowded_state();
    assert_eq!(beam_search_with_poll_limit(&state, 1, 1), Ok((1, 0)));
    assert_eq!(beam_search_with_poll_limit(&state, 2, 2), Ok((1, 0)));
    assert_eq!(beam_search_with_poll_limit(&state, 3, 2), Ok((1, 0)));
    for seed in 0..5 {
        let state = MazeState::new(seed);
        let action = beam_search_with_poll_limit(&state, 10, 2).unwrap();
        assert!(state.generate_legal_actions().contains(&action));
        assert_eq!(Ok(action), beam_search_action(&state, 10, 1));
    }
}

#[test]
fn polled_search_returns_what_the_last_complete_ply_found() {
    let state = crowded_state();
    let of_width_two = [(2, (1, 0)), (3, (1, 0)), (4, (-1, 0)), (5, (-1, 0)), (6, (-1, 0))];
    for (polls, action) in of_width_two {
        assert_eq!(beam_search_with_poll_limit(&state, 2, polls), Ok(action));
    }
    assert_eq!(beam_search_with_poll_limit(&state, 2, 3), beam_search_action(&state, 2, 1));
    assert_eq!(beam_search_with_poll_limit(&state, 2, 4), beam_search_action(&state, 2, 2));
    assert_eq!(beam_search_with_poll_limit(&state, 2, 5), beam_search_action(&state, 2, 2));
    assert_eq!(beam_search_with_poll_limit(&state, 2, 6), beam_search_action(&state, 2, 3));
    let of_width_three =
        [(2, (1, 0)), (4, (1, 0)), (5, (-1, 0)), (7, (-1, 0)), (8, (1, 0)), (11, (1, 0))];
    for (polls, action) in of_width_three {
        assert_eq!(beam_search_with_poll_limit(&state, 3, polls), Ok(action));
    }
    let state = detour_state();
    assert_eq!(beam_search_with_poll_limit(&state, 4, 5), Ok((0, 1)));
    assert_eq!(beam_search_with_poll_limit(&state, 4, 6), Ok((1, 0)));
}

#[test]
fn polled_search_with_polls_to_spare_searches_to_the_turn_limit() {
    let state = crowded_state();
    for beam_width in 1..5 {
        assert_eq!(
            beam_search_with_poll_limit(&state, beam_width, beam_width * 10),
            beam_search_action(&state, beam_width, 10)
        );
        assert_eq!(
            beam_search_with_poll_limit(&state, beam_width, usize::MAX),
            beam_search_action(&state, beam_width, 10)
        );
    }
}

#[test]
fn polled_search_refuses_a_beam_width_of_zero() {
    assert_eq!(
        beam_search_with_poll_limit(&sample_state(2), 0, 10),
        Err(SearchError::InvalidBeamWidth)
    );
    assert_eq!(
        beam_search_with_poll_limit(&sample_state(2), 0, 0),
        Err(SearchError::InvalidBeamWidth)
    );
}

#[test]
fn polled_search_on_a_single_cell_finds_no_action() {
    let state = state_on(vec![vec![5]], 0, 0, 3);
    assert_eq!(beam_search_with_poll_limit(&state, 3, 100), Err(SearchError::NoActionFound));
}
