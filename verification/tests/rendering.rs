use maze_search::maze::{Coord, MazeState};

#[test]
fn render_shows_turn_score_and_grid() {
    let grid = vec![vec![0, 1, 2], vec![3, 0, 1], vec![2, 1, 0]];
    let mut state = MazeState::from_grid(grid, Coord { h: 0, w: 0 }, 2).unwrap();
    assert_eq!(state.render(), "turns:\t0\nscore:\t0\n@12\n3.1\n21.\n");
    state.advance((0, 1));
    assert_eq!(state.render(), "turns:\t1\nscore:\t3\n.12\n@.1\n21.\n");
}

#[test]
fn render_hides_the_reward_under_the_agent() {
    let state = MazeState::from_grid(vec![vec![7, 0], vec![0, 8]], Coord { h: 1, w: 1 }, 2)
        .unwrap();
    assert_eq!(state.render(), "turns:\t0\nscore:\t0\n7.\n.@\n");
}

#[test]
fn render_writes_numbers_in_full() {
    let grid = vec![vec![0, 120, 1005], vec![10, 0, 987654321]];
    let mut state = MazeState::from_grid(grid, Coord { h: 0, w: 0 }, 4_000_000_000).unwrap();
    assert_eq!(state.render(), "turns:\t0\nscore:\t0\n@1201005\n10.987654321\n");
    for action in [(1, 0), (1, 0), (0, 1), (-1, 0), (-1, 0), (0, -1), (1, 0), (1, 0), (0, 1), (0, -1), (0, 1), (0, -1)] {
        state.advance(action);
    }
    assert_eq!(state.render(), "turns:\t12\nscore:\t987655456\n..@\n...\n");
}

#[test]
fn render_of_the_standard_grid_has_a_line_for_each_row() {
    let text = MazeState::new(0).render();
    let lines: Vec<&str> = text.lines().collect();
    assert_eq!(lines.len(), 32);
    assert_eq!(lines[0], "turns:\t0");
    assert_eq!(lines[1], "score:\t0");
    for line in &lines[2..] {
        assert_eq!(line.chars().count(), 30);
    }
    assert_eq!(text.matches('@').count(), 1);
    assert!(text.ends_with('\n'));
}
