use maze_chase::game_logic::{
    attempt_move, calculate_next_position, check_game_complete, check_ghost_collision,
    distance_squared, find_best_move, find_ghost_move, get_valid_ghost_moves, is_aggressive,
    move_ghosts, move_ghosts_with_rolls, needs_roll, update_score,
};
use maze_chase::controls::{get_direction_from_key, same_text};
use maze_chase::models::{Adversary, Direction, Position};

fn create_test_maze() -> Vec<Vec<u8>> {
    vec![
        vec![1, 1, 1, 1, 1],
        vec![1, 0, 2, 0, 1],
        vec![1, 2, 3, 2, 1],
        vec![1, 0, 2, 0, 1],
        vec![1, 1, 1, 1, 1],
    ]
}

#[test]
fn test_valid_ghost_moves() {
    let maze = create_test_maze();
    let pos = Position { x: 1, y: 1 };

    let valid_moves = get_valid_ghost_moves(&pos, &maze);
    assert_eq!(valid_moves.len(), 2);

    assert!(valid_moves.contains(&Position { x: 2, y: 1 }));
    assert!(valid_moves.contains(&Position { x: 1, y: 2 }));
}

#[test]
fn test_ghost_movement() {
    let maze = create_test_maze();
    let pacman_pos = Position { x: 3, y: 1 };
    let ghost = Adversary { position: Position { x: 1, y: 1 }, color: "#FF0000", aggression: 100 };

    let next_move = find_ghost_move(&ghost, &pacman_pos, &maze, true);
    assert!(next_move.is_some());
    if let Some(new_pos) = next_move {
        assert!(new_pos.x > ghost.position.x);
    }
}

#[test]
fn test_score_update() {
    let mut maze = create_test_maze();
    let mut score = 0;
    let pos = Position { x: 2, y: 1 };

    let power_pellet = update_score(&pos, &mut maze, &mut score);
    assert_eq!(score, 10);
    assert_eq!(maze[pos.y][pos.x], 0);
    assert!(!power_pellet);

    let power_pos = Position { x: 2, y: 2 };
    let power_pellet = update_score(&power_pos, &mut maze, &mut score);
    assert_eq!(score, 60);
    assert_eq!(maze[power_pos.y][power_pos.x], 0);
    assert!(power_pellet);
}

#[test]
fn test_ghost_collision() {
    let pacman_pos = Position { x: 2, y: 2 };
    let ghosts = vec![Adversary { position: Position { x: 2, y: 2 }, color: "#FF0000", aggression: 100 }];

    let mut is_dying = false;
    let mut lives = 3;
    let collision = check_ghost_collision(&pacman_pos, &ghosts, &mut is_dying, &mut lives, 0);
    assert!(collision);
    assert!(is_dying);
    assert_eq!(lives, 2);

    let mut is_dying = false;
    let mut lives = 3;
    let collision = check_ghost_collision(&pacman_pos, &ghosts, &mut is_dying, &mut lives, 1);
    assert!(!collision);
    assert!(!is_dying);
    assert_eq!(lives, 3);
}

#[test]
fn test_movement() {
    let mut maze = create_test_maze();
    let mut score = 0;
    let current_pos = Position { x: 1, y: 1 };

    let next_pos = calculate_next_position(&Direction::Right, &current_pos, &mut maze, &mut score);

    assert!(next_pos.is_some());
    if let Some((new_pos, power_pellet)) = next_pos {
        assert_eq!(new_pos.x, 2);
        assert_eq!(new_pos.y, 1);
        assert!(!power_pellet);
    }
}

#[test]
fn test_game_completion() {
    let mut maze = create_test_maze();
    assert!(!check_game_complete(&maze));

    for row in maze.iter_mut() {
        for cell in row.iter_mut() {
            if *cell == 2 || *cell == 3 {
                *cell = 0;
            }
        }
    }

    assert!(check_game_complete(&maze));
}

#[test]
fn blocked_move_changes_nothing() {
    let mut maze = create_test_maze();
    let mut score = 5;
    let pos = Position { x: 1, y: 1 };
    assert_eq!(calculate_next_position(&Direction::Up, &pos, &mut maze, &mut score), None);
    assert_eq!(calculate_next_position(&Direction::Left, &pos, &mut maze, &mut score), None);
    assert_eq!(calculate_next_position(&Direction::Idle, &pos, &mut maze, &mut score), None);
    assert_eq!(score, 5);
    assert_eq!(maze, create_test_maze());
}

#[test]
fn every_move_is_one_step_or_none() {
    let maze = create_test_maze();
    for y in 0..5 {
        for x in 0..5 {
            let p = Position { x, y };
            for d in [Direction::Up, Direction::Down, Direction::Left, Direction::Right, Direction::Idle] {
                if let Some(q) = attempt_move(&p, d, &maze) {
                    let dist = (q.x as i64 - x as i64).abs() + (q.y as i64 - y as i64).abs();
                    assert_eq!(dist, 1);
                    assert_ne!(maze[q.y][q.x], 1);
                }
            }
        }
    }
}

#[test]
fn move_to_edge_of_open_maze() {
    let maze = vec![vec![0, 0], vec![0, 0]];
    assert_eq!(attempt_move(&Position { x: 1, y: 1 }, Direction::Right, &maze), None);
    assert_eq!(attempt_move(&Position { x: 1, y: 1 }, Direction::Down, &maze), None);
    assert_eq!(attempt_move(&Position { x: 1, y: 1 }, Direction::Up, &maze), Some(Position { x: 1, y: 0 }));
    assert_eq!(attempt_move(&Position { x: 0, y: 0 }, Direction::Right, &maze), Some(Position { x: 1, y: 0 }));
}

#[test]
fn valid_moves_come_up_down_left_right() {
    let maze = vec![vec![0, 0, 0], vec![0, 0, 0], vec![0, 0, 0]];
    let moves = get_valid_ghost_moves(&Position { x: 1, y: 1 }, &maze);
    assert_eq!(
        moves,
        vec![
            Position { x: 1, y: 0 },
            Position { x: 1, y: 2 },
            Position { x: 0, y: 1 },
            Position { x: 2, y: 1 },
        ]
    );
}

#[test]
fn walled_in_ghost_stays() {
    let maze = vec![vec![1, 1, 1], vec![1, 0, 1], vec![1, 1, 1]];
    let ghost = Adversary { position: Position { x: 1, y: 1 }, color: "#FF0000", aggression: 100 };
    assert_eq!(find_ghost_move(&ghost, &Position { x: 1, y: 1 }, &maze, true), None);
    let mut ghosts = vec![ghost];
    move_ghosts(&mut ghosts, &Position { x: 1, y: 1 }, &maze);
    assert_eq!(ghosts[0].position, Position { x: 1, y: 1 });
}

#[test]
fn fully_aggressive_picks_nearest() {
    // Candidates at squared distances 1 and 4 from the target.
    let candidates = [Position { x: 2, y: 1 }, Position { x: 3, y: 1 }];
    let target = Position { x: 1, y: 1 };
    assert_eq!(distance_squared(&candidates[0], &target), 1);
    assert_eq!(distance_squared(&candidates[1], &target), 4);
    for roll in 0..100u8 {
        assert!(is_aggressive(100, roll));
        assert_eq!(find_best_move(&candidates, &target, is_aggressive(100, roll)), Some(Position { x: 2, y: 1 }));
    }
    assert!(!needs_roll(100));
}

#[test]
fn never_aggressive_picks_farthest() {
    let candidates = [Position { x: 2, y: 1 }, Position { x: 3, y: 1 }];
    let target = Position { x: 1, y: 1 };
    for roll in 0..100u8 {
        assert!(!is_aggressive(0, roll));
    }
    assert!(!needs_roll(0));
    assert_eq!(find_best_move(&candidates, &target, false), Some(Position { x: 3, y: 1 }));
}

#[test]
fn partial_aggression_follows_roll() {
    assert!(needs_roll(60));
    assert!(is_aggressive(60, 0));
    assert!(is_aggressive(60, 59));
    assert!(!is_aggressive(60, 60));
    assert!(!is_aggressive(60, 99));
}

#[test]
fn ties_go_to_first_candidate() {
    let candidates = [Position { x: 0, y: 1 }, Position { x: 2, y: 1 }, Position { x: 1, y: 0 }];
    let target = Position { x: 1, y: 1 };
    assert_eq!(find_best_move(&candidates, &target, true), Some(Position { x: 0, y: 1 }));
    assert_eq!(find_best_move(&candidates, &target, false), Some(Position { x: 0, y: 1 }));
    assert_eq!(find_best_move(&[], &target, true), None);
}

#[test]
fn ghosts_move_by_their_rolls() {
    let maze = vec![vec![0, 0, 0, 0, 0]];
    let mut ghosts = vec![
        Adversary { position: Position { x: 2, y: 0 }, color: "#00FFFF", aggression: 60 },
        Adversary { position: Position { x: 2, y: 0 }, color: "#00FFFF", aggression: 60 },
    ];
    move_ghosts_with_rolls(&mut ghosts, &Position { x: 0, y: 0 }, &maze, &[10, 90]);
    assert_eq!(ghosts[0].position, Position { x: 1, y: 0 });
    assert_eq!(ghosts[1].position, Position { x: 3, y: 0 });
    assert_eq!(ghosts[0].aggression, 60);
}

#[test]
fn collision_takes_no_life_below_zero() {
    let pos = Position { x: 0, y: 0 };
    let ghosts = vec![Adversary { position: pos, color: "#FFB852", aggression: 0 }];
    let mut is_dying = false;
    let mut lives = 0;
    assert!(check_ghost_collision(&pos, &ghosts, &mut is_dying, &mut lives, 0));
    assert!(is_dying);
    assert_eq!(lives, 0);
    let mut lives = 3;
    let mut is_dying = false;
    assert!(!check_ghost_collision(&Position { x: 1, y: 0 }, &ghosts, &mut is_dying, &mut lives, 0));
    assert_eq!(lives, 3);
}

#[test]
fn test_direction_from_key() {
    assert_eq!(get_direction_from_key("ArrowUp"), Some(Direction::Up));
    assert_eq!(get_direction_from_key("ArrowDown"), Some(Direction::Down));
    assert_eq!(get_direction_from_key("ArrowLeft"), Some(Direction::Left));
    assert_eq!(get_direction_from_key("ArrowRight"), Some(Direction::Right));
    assert_eq!(get_direction_from_key("Invalid"), None);
}

#[test]
fn key_names_must_match_exactly() {
    assert_eq!(get_direction_from_key("arrowup"), None);
    assert_eq!(get_direction_from_key("ArrowUpX"), None);
    assert_eq!(get_direction_from_key(""), None);
    assert!(same_text("ArrowUp", "ArrowUp"));
    assert!(!same_text("ArrowUp", "ArrowUq"));
}
