use maze_search::maze::{Coord, MazeState};
use maze_search::policy::{greedy_action, legal_action_at, random_action};

fn state_on(points: Vec<Vec<i32>>, h: i32, w: i32, end_turn: u32) -> MazeState {
    MazeState::from_grid(points, Coord { h, w }, end_turn).unwrap()
}

#[test]
fn greedy_takes_the_richest_neighbour() {
    let grid = vec![vec![0, 1, 2], vec![3, 0, 1], vec![2, 1, 0]];
    let mut state = state_on(grid, 0, 0, 2);
    let action = greedy_action(&state);
    assert_eq!(action, (0, 1));
    state.advance(action);
    assert_eq!(state.game_score(), 3);
    assert_eq!(state.character(), Coord { h: 1, w: 0 });
}

#[test]
fn greedy_leaves_the_state_as_it_was() {
    let grid = vec![vec![0, 1, 2], vec![3, 0, 1], vec![2, 1, 0]];
    let state = state_on(grid, 0, 0, 2);
    greedy_action(&state);
    assert_eq!(state.game_score(), 0);
    assert_eq!(state.turns(), 0);
    assert_eq!(state.point(1, 0), 3);
}

#[test]
fn greedy_keeps_the_first_of_equal_actions() {
    let tie = vec![vec![0, 7, 0], vec![7, 0, 7], vec![0, 7, 0]];
    assert_eq!(greedy_action(&state_on(tie, 1, 1, 3)), (0, 1));
    let later = vec![vec![0, 7, 0], vec![7, 0, 7], vec![0, 6, 0]];
    assert_eq!(greedy_action(&state_on(later, 1, 1, 3)), (0, -1));
    let empty = vec![vec![0, 0, 0], vec![0, 0, 0], vec![0, 0, 0]];
    assert_eq!(greedy_action(&state_on(empty, 2, 2, 3)), (0, -1));
}

#[test]
fn greedy_prefers_a_later_action_that_pays_more() {
    let grid = vec![vec![0, 1, 0], vec![2, 0, 8], vec![0, 3, 0]];
    assert_eq!(greedy_action(&state_on(grid, 1, 1, 3)), (1, 0));
    let left = vec![vec![0, 1, 0], vec![9, 0, 8], vec![0, 3, 0]];
    assert_eq!(greedy_action(&state_on(left, 1, 1, 3)), (-1, 0));
}

#[test]
fn greedy_counts_what_was_collected_before() {
    let grid = vec![vec![0, 5, 1], vec![0, 0, 4]];
    let mut state = state_on(grid, 0, 0, 5);
    state.advance((1, 0));
    assert_eq!(state.game_score(), 5);
    assert_eq!(greedy_action(&state), (1, 0));
    state.advance((1, 0));
    assert_eq!(state.game_score(), 6);
    assert_eq!(greedy_action(&state), (0, 1));
}

#[test]
fn greedy_finds_no_action_on_a_single_cell() {
    let state = state_on(vec![vec![5]], 0, 0, 3);
    assert_eq!(greedy_action(&state), (-1, -1));
}

#[test]
fn random_action_is_a_legal_action() {
    let grid = vec![vec![0, 1, 2], vec![3, 0, 1], vec![2, 1, 0]];
    let corner = state_on(grid.clone(), 0, 0, 2);
    let middle = state_on(grid, 1, 1, 2);
    for _ in 0..200 {
        let action = random_action(&corner);
        assert!(action == (0, 1) || action == (1, 0));
        let action = random_action(&middle);
        assert!(middle.generate_legal_actions().contains(&action));
    }
}

#[test]
fn random_action_takes_the_only_action() {
    let state = state_on(vec![vec![1, 2]], 0, 1, 2);
    for _ in 0..20 {
        assert_eq!(random_action(&state), (-1, 0));
    }
}

#[test]
fn legal_action_at_follows_the_fixed_order() {
    let grid = vec![vec![0, 1, 2], vec![3, 0, 1], vec![2, 1, 0]];
    let state = state_on(grid, 2, 0, 2);
    assert_eq!(legal_action_at(&state, 0), (0, -1));
    assert_eq!(legal_action_at(&state, 1), (1, 0));
}
