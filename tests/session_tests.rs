use maze_chase::maze::{initial_maze, player_start, MAZE_HEIGHT, MAZE_WIDTH};
use maze_chase::models::{Adversary, Direction, Position};
use maze_chase::session::{Phase, Session, Timer, TimerKind, INVINCIBILITY_MS, START_LIVES};
use maze_chase::spawn::{palette_entry, place_ghosts, spawn_candidates, spawn_ghosts, GHOST_COUNT};

fn chaser(x: usize, y: usize) -> Adversary {
    Adversary { position: Position { x, y }, color: "#FF0000", aggression: 100 }
}

#[test]
fn large_pellet_scores_and_wears_off() {
    let mut s = Session::with_layout(vec![vec![1, 2, 3]], Position { x: 1, y: 0 }, vec![]);
    s.start();
    s.set_direction(Direction::Right);
    let timer = s.tick_with_rolls(&[]).expect("a large pellet asks for a timer");
    assert_eq!(s.score, 50);
    assert_eq!(s.invincibility, 1);
    assert!(s.is_invincible());
    assert_eq!(s.maze[0][2], 0);
    assert_eq!(s.pacman_pos, Position { x: 2, y: 0 });
    assert_eq!(timer.kind, TimerKind::InvincibilityEnd);
    assert_eq!(timer.delay_ms(), INVINCIBILITY_MS);
    assert_eq!(s.fire(timer), None);
    assert_eq!(s.invincibility, 0);
    assert!(!s.is_invincible());
}

#[test]
fn small_pellet_scores_ten() {
    let mut s = Session::with_layout(vec![vec![0, 2, 2]], Position { x: 0, y: 0 }, vec![]);
    s.start();
    s.set_direction(Direction::Right);
    assert_eq!(s.tick_with_rolls(&[]), None);
    assert_eq!(s.score, 10);
    assert_eq!(s.invincibility, 0);
    assert_eq!(s.phase, Phase::Active);
}

#[test]
fn stacked_pickups_need_two_timers() {
    let mut s = Session::with_layout(vec![vec![0, 3, 3, 2]], Position { x: 0, y: 0 }, vec![]);
    s.start();
    s.set_direction(Direction::Right);
    let t1 = s.tick_with_rolls(&[]).unwrap();
    let t2 = s.tick_with_rolls(&[]).unwrap();
    assert_eq!(s.invincibility, 2);
    s.fire(t1);
    assert_eq!(s.invincibility, 1);
    s.fire(t2);
    assert_eq!(s.invincibility, 0);
}

#[test]
fn last_pellet_wins_on_same_tick() {
    let mut s = Session::with_layout(vec![vec![0, 2, 0]], Position { x: 0, y: 0 }, vec![]);
    s.start();
    s.set_direction(Direction::Right);
    s.tick_with_rolls(&[]);
    assert_eq!(s.phase, Phase::Won);
    assert_eq!(s.pacman_pos, Position { x: 1, y: 0 });
    s.tick_with_rolls(&[]);
    assert_eq!(s.pacman_pos, Position { x: 1, y: 0 });
}

#[test]
fn cleared_maze_wins_before_moving() {
    let mut s = Session::with_layout(vec![vec![0, 0]], Position { x: 0, y: 0 }, vec![]);
    s.start();
    s.set_direction(Direction::Right);
    s.tick_with_rolls(&[]);
    assert_eq!(s.phase, Phase::Won);
    assert_eq!(s.pacman_pos, Position { x: 0, y: 0 });
}

#[test]
fn nothing_happens_before_start() {
    let mut s = Session::with_layout(vec![vec![0, 2, 2]], Position { x: 0, y: 0 }, vec![]);
    s.set_direction(Direction::Right);
    assert_eq!(s.tick_with_rolls(&[]), None);
    assert_eq!(s.phase, Phase::NotStarted);
    assert_eq!(s.pacman_pos, Position { x: 0, y: 0 });
    s.start();
    s.start();
    assert_eq!(s.phase, Phase::Active);
}

#[test]
fn death_then_respawn_at_starts() {
    let maze = vec![vec![0, 0, 0, 2, 2]];
    let mut s = Session::with_layout(maze, Position { x: 0, y: 0 }, vec![chaser(2, 0)]);
    s.start();
    s.set_direction(Direction::Right);
    // First tick: adversaries wait, the player steps next to the chaser.
    assert_eq!(s.tick_with_rolls(&[0]), None);
    assert_eq!(s.pacman_pos, Position { x: 1, y: 0 });
    // Second tick: the chaser steps onto the player, who then moves past it.
    s.tick_with_rolls(&[0]);
    assert_eq!(s.ghosts[0].position, Position { x: 1, y: 0 });
    assert_eq!(s.pacman_pos, Position { x: 2, y: 0 });
    s.set_direction(Direction::Left);
    s.tick_with_rolls(&[0]);
    assert_eq!(s.pacman_pos, Position { x: 1, y: 0 });
    let pause = s.tick_with_rolls(&[0]).expect("a collision starts the death pause");
    assert_eq!(pause.kind, TimerKind::DeathPause);
    assert!(s.is_dying());
    assert_eq!(s.lives, START_LIVES - 1);
    // Nothing moves while dying.
    assert_eq!(s.tick_with_rolls(&[0]), None);
    let respawn = s.fire(pause).expect("lives remain");
    assert_eq!(respawn.kind, TimerKind::RespawnDelay);
    assert_eq!(s.phase, Phase::RespawnPending);
    assert_eq!(s.pacman_pos, Position { x: 0, y: 0 });
    assert_eq!(s.ghosts[0].position, Position { x: 2, y: 0 });
    assert_eq!(s.direction, Direction::Idle);
    assert_eq!(s.fire(respawn), None);
    assert_eq!(s.phase, Phase::Active);
}

#[test]
fn last_life_ends_in_game_over() {
    let mut s = Session::with_layout(vec![vec![0, 2]], Position { x: 0, y: 0 }, vec![chaser(0, 0)]);
    s.start();
    for lives_left in (0..START_LIVES).rev() {
        let pause = s.tick_with_rolls(&[0]).unwrap();
        assert_eq!(s.lives, lives_left);
        match s.fire(pause) {
            Some(respawn) => {
                assert!(lives_left > 0);
                s.fire(respawn);
                assert_eq!(s.phase, Phase::Active);
            }
            None => {
                assert_eq!(lives_left, 0);
                assert_eq!(s.phase, Phase::GameOver);
            }
        }
    }
    assert_eq!(s.phase, Phase::GameOver);
    assert_eq!(s.tick_with_rolls(&[0]), None);
    assert_eq!(s.fire(Timer { kind: TimerKind::RespawnDelay, generation: s.generation }), None);
    assert_eq!(s.phase, Phase::GameOver);
}

#[test]
fn invincible_player_survives_contact() {
    let mut s = Session::with_layout(vec![vec![0, 3, 2, 2]], Position { x: 0, y: 0 }, vec![chaser(2, 0)]);
    s.start();
    s.set_direction(Direction::Right);
    s.tick_with_rolls(&[0]);
    assert_eq!(s.invincibility, 1);
    s.set_direction(Direction::Idle);
    s.tick_with_rolls(&[0]);
    assert_eq!(s.ghosts[0].position, s.pacman_pos);
    assert_eq!(s.tick_with_rolls(&[0]), None);
    assert_eq!(s.lives, START_LIVES);
    assert!(!s.is_dying());
}

#[test]
fn restart_while_dying_cancels_pause() {
    let mut s = Session::with_layout(vec![vec![0, 2]], Position { x: 0, y: 0 }, vec![chaser(0, 0)]);
    s.start();
    let pause = s.tick_with_rolls(&[0]).unwrap();
    assert!(s.is_dying());
    s.restart_with_ghosts(vec![chaser(1, 0)]);
    assert_eq!(s.phase, Phase::NotStarted);
    assert_eq!(s.lives, START_LIVES);
    assert_ne!(s.generation, pause.generation);
    assert_eq!(s.fire(pause), None);
    assert_eq!(s.phase, Phase::NotStarted);
    assert_eq!(s.pacman_pos, Position { x: 0, y: 0 });
    assert_eq!(s.ghosts[0].position, Position { x: 1, y: 0 });
    assert_eq!(s.lives, START_LIVES);
}

#[test]
fn restart_restores_maze_and_score() {
    let mut s = Session::with_layout(vec![vec![0, 2, 2]], Position { x: 0, y: 0 }, vec![]);
    s.start();
    s.set_direction(Direction::Right);
    s.tick_with_rolls(&[]);
    assert_eq!(s.maze[0][1], 0);
    s.restart();
    assert_eq!(s.maze, vec![vec![0, 2, 2]]);
    assert_eq!(s.score, 0);
    assert_eq!(s.direction, Direction::Idle);
    assert_eq!(s.generation, 1);
    assert_eq!(s.ghosts.len(), 2);
    for g in &s.ghosts {
        assert_ne!(g.position, Position { x: 0, y: 0 });
    }
}

#[test]
fn standard_session_starts_fresh() {
    let s = Session::new();
    assert_eq!(s.maze.len(), MAZE_HEIGHT);
    assert_eq!(s.maze[0].len(), MAZE_WIDTH);
    assert_eq!(s.maze, initial_maze());
    assert_eq!(s.pacman_pos, player_start());
    assert_eq!(s.lives, 3);
    assert_eq!(s.score, 0);
    assert_eq!(s.phase, Phase::NotStarted);
    assert_eq!(s.ghosts.len(), GHOST_COUNT);
    for (k, g) in s.ghosts.iter().enumerate() {
        assert_ne!(g.position, player_start());
        assert_ne!(s.maze[g.position.y][g.position.x], 1);
        assert_eq!((g.color, g.aggression), palette_entry(k));
    }
}

#[test]
fn standard_session_runs() {
    let mut s = Session::new();
    s.start();
    s.set_direction(Direction::Left);
    for _ in 0..20 {
        if let Some(t) = s.tick() {
            s.fire(t);
        }
    }
    assert!(s.score >= 0);
    assert!(s.score % 10 == 0);
}

#[test]
fn spawn_candidates_skip_walls_and_start() {
    let maze = vec![vec![1, 0, 2], vec![3, 1, 0]];
    let c = spawn_candidates(&maze, &Position { x: 2, y: 0 });
    assert_eq!(c, vec![Position { x: 1, y: 0 }, Position { x: 0, y: 1 }, Position { x: 2, y: 1 }]);
}

#[test]
fn placement_follows_picks() {
    let c = vec![Position { x: 0, y: 0 }, Position { x: 1, y: 0 }, Position { x: 2, y: 0 }];
    let g = place_ghosts(c, &[1, 1, 0, 0]);
    assert_eq!(g.len(), 3);
    assert_eq!(g[0].position, Position { x: 1, y: 0 });
    assert_eq!(g[1].position, Position { x: 2, y: 0 });
    assert_eq!(g[2].position, Position { x: 0, y: 0 });
    assert_eq!((g[0].color, g[0].aggression), ("#FF0000", 100));
    assert_eq!((g[2].color, g[2].aggression), ("#FFB8FF", 70));
}

#[test]
fn spawn_on_tiny_maze_gives_what_fits() {
    let maze = vec![vec![0, 0]];
    let g = spawn_ghosts(&maze, &Position { x: 0, y: 0 });
    assert_eq!(g.len(), 1);
    assert_eq!(g[0].position, Position { x: 1, y: 0 });
}
