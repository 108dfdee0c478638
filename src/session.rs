use vstd::prelude::*;
use crate::game_logic::{
    all_in, all_moved, calculate_next_position, check_game_complete, check_ghost_collision,
    draw_rolls, move_ghosts_with_rolls, occupied, ROLL_RANGE,
};
use crate::maze::{initial_maze, player_start, start_position, MAZE_HEIGHT, MAZE_WIDTH};
use crate::spawn::{distinct_positions, is_placement, spawn_ghosts};
use crate::grid::{
    cell_at, cells, cleared, collect, lemma_collect_count, lemma_collect_keeps_shape, lemma_pellets_le, lemma_uncleared_has_pellet,
    pellets, points, pos_in, step, wf_maze, LARGE_PELLET,
};
use crate::models::{Adversary, Direction, Position};

verus! {

/// Where a session stands in its life.
#[derive(Clone, Copy, Debug, PartialEq, Eq, Structural)]
pub enum Phase {
    NotStarted,
    Active,
    Dying,
    RespawnPending,
    GameOver,
    Won,
}

/// What a timer does when it fires.
#[derive(Clone, Copy, Debug, PartialEq, Eq, Structural)]
pub enum TimerKind {
    /// Ends the pause after a death.
    DeathPause,
    /// Ends the wait after a respawn.
    RespawnDelay,
    /// Ends one pickup's invincibility.
    InvincibilityEnd,
}

/// A timer that a session asks to have fired after `delay_ms`, tagged with
/// the session's generation so that one left over from before a restart does
/// nothing.
#[derive(Clone, Copy, Debug, PartialEq, Eq, Structural)]
pub struct Timer {
    pub kind: TimerKind,
    pub generation: u64,
}

pub const TICK_MS: u32 = 150;
pub const DEATH_PAUSE_MS: u32 = 1000;
pub const RESPAWN_DELAY_MS: u32 = 3000;
pub const INVINCIBILITY_MS: u32 = 5000;
pub const START_LIVES: i32 = 3;

/// The most cells a session's maze may have: at 50 points a pellet, any
/// score it allows fits in an `i32`.
pub const MAX_CELLS: usize = 42_949_672;

pub open spec fn delay_of(kind: TimerKind) -> u32 {
    match kind {
        TimerKind::DeathPause => DEATH_PAUSE_MS,
        TimerKind::RespawnDelay => RESPAWN_DELAY_MS,
        TimerKind::InvincibilityEnd => INVINCIBILITY_MS,
    }
}

impl Timer {
    /// Milliseconds after its scheduling at which the timer fires.
    pub fn delay_ms(&self) -> (r: u32)
        ensures
            r == delay_of(self.kind),
    {
        match self.kind {
            TimerKind::DeathPause => DEATH_PAUSE_MS,
            TimerKind::RespawnDelay => RESPAWN_DELAY_MS,
            TimerKind::InvincibilityEnd => INVINCIBILITY_MS,
        }
    }
}

/// The whole state of one game.
pub struct Session {
    /// The maze as it is now.
    pub maze: Vec<Vec<u8>>,
    /// The maze as a session starts with it.
    pub initial_maze: Vec<Vec<u8>>,
    pub pacman_pos: Position,
    /// Where the player starts and respawns.
    pub start: Position,
    /// The player's last accepted intent.
    pub direction: Direction,
    pub ghosts: Vec<Adversary>,
    /// Where the adversaries stood when the session began.
    pub ghost_starts: Vec<Adversary>,
    pub score: i32,
    pub lives: i32,
    /// Pickups whose invincibility has not yet run out.
    pub invincibility: i32,
    pub phase: Phase,
    /// Whether the adversaries move on the next active tick.
    pub ghost_turn: bool,
    /// Tells timers of this session from those of earlier ones.
    pub generation: u64,
}

/// A session seen as values.
pub struct SessionView {
    pub maze: Seq<Seq<u8>>,
    pub initial_maze: Seq<Seq<u8>>,
    pub pacman_pos: Position,
    pub start: Position,
    pub direction: Direction,
    pub ghosts: Seq<Adversary>,
    pub ghost_starts: Seq<Adversary>,
    pub score: int,
    pub lives: int,
    pub invincibility: int,
    pub phase: Phase,
    pub ghost_turn: bool,
    pub generation: u64,
}

impl View for Session {
    type V = SessionView;

    open spec fn view(&self) -> SessionView {
        SessionView {
            maze: cells(self.maze@),
            initial_maze: cells(self.initial_maze@),
            pacman_pos: self.pacman_pos,
            start: self.start,
            direction: self.direction,
            ghosts: self.ghosts@,
            ghost_starts: self.ghost_starts@,
            score: self.score as int,
            lives: self.lives as int,
            invincibility: self.invincibility as int,
            phase: self.phase,
            ghost_turn: self.ghost_turn,
            generation: self.generation,
        }
    }
}

/// Both mazes are well formed and of one shape, and every actor stands inside.
pub open spec fn wf_view(s: SessionView) -> bool {
    &&& wf_maze(s.maze)
    &&& wf_maze(s.initial_maze)
    &&& s.maze.len() == s.initial_maze.len()
    &&& s.maze[0].len() == s.initial_maze[0].len()
    &&& pos_in(s.maze, s.pacman_pos)
    &&& pos_in(s.maze, s.start)
    &&& all_in(s.maze, s.ghosts)
    &&& all_in(s.maze, s.ghost_starts)
    &&& s.lives >= 0
    &&& s.score >= 0
    &&& s.invincibility >= 0
    &&& 50 * pellets(s.initial_maze) <= i32::MAX
    &&& s.score + 50 * pellets(s.maze) <= i32::MAX
    &&& s.invincibility + pellets(s.maze) <= i32::MAX
}

/// A fresh session on a maze: nothing collected, full lives, not started.
pub open spec fn fresh_view(
    maze: Seq<Seq<u8>>,
    start: Position,
    ghosts: Seq<Adversary>,
    generation: u64,
) -> SessionView {
    SessionView {
        maze,
        initial_maze: maze,
        pacman_pos: start,
        start,
        direction: Direction::Idle,
        ghosts,
        ghost_starts: ghosts,
        score: 0,
        lives: START_LIVES as int,
        invincibility: 0,
        phase: Phase::NotStarted,
        ghost_turn: false,
        generation,
    }
}

/// The generation after `g`.
pub open spec fn next_generation(g: u64) -> u64 {
    if g == u64::MAX {
        0
    } else {
        (g + 1) as u64
    }
}

/// One tick with the adversaries' rolls: the new state and the timer to
/// schedule, if any. Only an active session changes: a collision with no
/// invincibility running costs a life and starts the death pause; otherwise
/// the adversaries move (every second tick), a cleared maze wins, and the
/// player takes a step, eating what is there.
pub open spec fn tick_view(s: SessionView, rolls: Seq<u8>) -> (SessionView, Option<Timer>) {
    if s.phase != Phase::Active {
        (s, None)
    } else {
        let s1 = SessionView { ghost_turn: !s.ghost_turn, ..s };
        if s.invincibility <= 0 && occupied(s.ghosts, s.pacman_pos) {
            (
                SessionView {
                    phase: Phase::Dying,
                    lives: if s.lives > 0 {
                        s.lives - 1
                    } else {
                        s.lives
                    },
                    ..s1
                },
                Some(Timer { kind: TimerKind::DeathPause, generation: s.generation }),
            )
        } else {
            let s2 = SessionView {
                ghosts: if s.ghost_turn {
                    all_moved(s.ghosts, s.maze, s.pacman_pos, rolls)
                } else {
                    s.ghosts
                },
                ..s1
            };
            if cleared(s.maze) {
                (SessionView { phase: Phase::Won, ..s2 }, None)
            } else {
                match step(s.maze, s.pacman_pos, s.direction) {
                    None => (s2, None),
                    Some(q) => {
                        let large = cell_at(s.maze, q) == LARGE_PELLET;
                        let m2 = collect(s.maze, q);
                        (
                            SessionView {
                                maze: m2,
                                pacman_pos: q,
                                score: s.score + points(cell_at(s.maze, q)),
                                invincibility: if large {
                                    s.invincibility + 1
                                } else {
                                    s.invincibility
                                },
                                phase: if cleared(m2) {
                                    Phase::Won
                                } else {
                                    Phase::Active
                                },
                                ..s2
                            },
                            if large {
                                Some(Timer { kind: TimerKind::InvincibilityEnd, generation: s.generation })
                            } else {
                                None
                            },
                        )
                    },
                }
            }
        }
    }
}

/// A timer firing: the new state and the timer to schedule, if any. A timer
/// of another generation does nothing. The death pause ends in a respawn
/// (everyone back at their start) while lives remain, else in game over; the
/// respawn delay makes the session active again; an invincibility end takes
/// one pickup off the counter.
pub open spec fn fire_view(s: SessionView, t: Timer) -> (SessionView, Option<Timer>) {
    if t.generation != s.generation {
        (s, None)
    } else {
        match t.kind {
            TimerKind::DeathPause => {
                if s.phase != Phase::Dying {
                    (s, None)
                } else if s.lives > 0 {
                    (
                        SessionView {
                            phase: Phase::RespawnPending,
                            pacman_pos: s.start,
                            ghosts: s.ghost_starts,
                            direction: Direction::Idle,
                            ..s
                        },
                        Some(Timer { kind: TimerKind::RespawnDelay, generation: s.generation }),
                    )
                } else {
                    (SessionView { phase: Phase::GameOver, ..s }, None)
                }
            },
            TimerKind::RespawnDelay => {
                if s.phase == Phase::RespawnPending {
                    (SessionView { phase: Phase::Active, ..s }, None)
                } else {
                    (s, None)
                }
            },
            TimerKind::InvincibilityEnd => {
                (
                    SessionView {
                        invincibility: if s.invincibility > 0 {
                            s.invincibility - 1
                        } else {
                            0
                        },
                        ..s
                    },
                    None,
                )
            },
        }
    }
}

/// A copy of a maze.
fn copy_maze(maze: &Vec<Vec<u8>>) -> (r: Vec<Vec<u8>>)
    ensures
        cells(r@) == cells(maze@),
{
    let mut out: Vec<Vec<u8>> = Vec::new();
    let mut y: usize = 0;
    while y < maze.len()
        invariant
            y <= maze@.len(),
            out@.len() == y,
            forall|i: int| 0 <= i < y ==> (#[trigger] out@[i])@ == maze@[i]@,
        decreases maze@.len() - y,
    {
        out.push(vstd::slice::slice_to_vec(maze[y].as_slice()));
        y += 1;
    }
    assert(cells(out@) =~= cells(maze@));
    out
}

impl Session {
    pub open spec fn wf(&self) -> bool {
        wf_view(self@)
    }

    /// A fresh session on `maze`, with the player at `start` and the
    /// adversaries as given.
    pub fn with_layout(maze: Vec<Vec<u8>>, start: Position, ghosts: Vec<Adversary>) -> (r: Session)
        requires
            wf_maze(cells(maze@)),
            pos_in(cells(maze@), start),
            all_in(cells(maze@), ghosts@),
            cells(maze@).len() * cells(maze@)[0].len() <= MAX_CELLS,
        ensures
            r.wf(),
            r@ == fresh_view(cells(maze@), start, ghosts@, 0),
    {
        let initial = copy_maze(&maze);
        let starts = ghosts.clone();
        proof {
            assert(starts@ =~= ghosts@);
            let m = cells(maze@);
            lemma_pellets_le(m, m[0].len());
            let n = m.len() * m[0].len();
            assert(50 * pellets(m) <= 50 * n) by (nonlinear_arith)
                requires
                    pellets(m) <= n,
            ;
        }
        Session {
            maze,
            initial_maze: initial,
            pacman_pos: start,
            start,
            direction: Direction::Idle,
            ghosts,
            ghost_starts: starts,
            score: 0,
            lives: START_LIVES,
            invincibility: 0,
            phase: Phase::NotStarted,
            ghost_turn: false,
            generation: 0,
        }
    }

    /// A fresh session on the standard maze, with the adversaries placed at
    /// random (see `Adversary::initialize_ghosts`).
    pub fn new() -> (r: Session)
        ensures
            r.wf(),
            r@ == fresh_view(r@.maze, start_position(), r@.ghosts, 0),
            r@.maze.len() == MAZE_HEIGHT,
            r@.maze[0].len() == MAZE_WIDTH,
            is_placement(r@.ghosts, r@.maze, start_position()),
            distinct_positions(r@.ghosts),
    {
        let maze = initial_maze();
        let ghosts = Adversary::initialize_ghosts(maze.as_slice());
        Session::with_layout(maze, player_start(), ghosts)
    }

    /// Leaves `NotStarted` for `Active`; does nothing in any other phase.
    pub fn start(&mut self)
        ensures
            final(self)@ == if old(self)@.phase == Phase::NotStarted {
                SessionView { phase: Phase::Active, ..old(self)@ }
            } else {
                old(self)@
            },
    {
        if self.phase == Phase::NotStarted {
            self.phase = Phase::Active;
        }
    }

    /// Records the player's intent; it stays until changed or reset.
    pub fn set_direction(&mut self, direction: Direction)
        ensures
            final(self)@ == (SessionView { direction, ..old(self)@ }),
    {
        self.direction = direction;
    }

    /// Whether the player is in the pause after a death.
    pub fn is_dying(&self) -> (r: bool)
        ensures
            r == (self.phase == Phase::Dying),
    {
        self.phase == Phase::Dying
    }

    /// Whether some pickup's invincibility is still running.
    pub fn is_invincible(&self) -> (r: bool)
        ensures
            r == (self.invincibility > 0),
    {
        self.invincibility > 0
    }

    /// One tick, with `rolls[i]` deciding the `i`-th adversary's move (see
    /// `tick_view`). Returns the timer to schedule, if any.
    pub fn tick_with_rolls(&mut self, rolls: &[u8]) -> (r: Option<Timer>)
        requires
            old(self).wf(),
            rolls@.len() == old(self)@.ghosts.len(),
        ensures
            final(self).wf(),
            (final(self)@, r) == tick_view(old(self)@, rolls@),
    {
        let ghost s = self@;
        if self.phase != Phase::Active {
            return None;
        }
        let moving = self.ghost_turn;
        self.ghost_turn = !moving;
        let mut dying = false;
        if check_ghost_collision(
            &self.pacman_pos,
            self.ghosts.as_slice(),
            &mut dying,
            &mut self.lives,
            self.invincibility,
        ) {
            self.phase = Phase::Dying;
            return Some(Timer { kind: TimerKind::DeathPause, generation: self.generation });
        }
        if moving {
            move_ghosts_with_rolls(&mut self.ghosts, &self.pacman_pos, self.maze.as_slice(), rolls);
        }
        if check_game_complete(self.maze.as_slice()) {
            self.phase = Phase::Won;
            return None;
        }
        proof {
            lemma_uncleared_has_pellet(s.maze);
        }
        match calculate_next_position(&self.direction, &self.pacman_pos, &mut self.maze, &mut self.score) {
            Some((q, large)) => {
                proof {
                    lemma_collect_keeps_shape(s.maze, q);
                    lemma_collect_count(s.maze, q);
                }
                self.pacman_pos = q;
                let timer = if large {
                    self.invincibility = self.invincibility + 1;
                    Some(Timer { kind: TimerKind::InvincibilityEnd, generation: self.generation })
                } else {
                    None
                };
                if check_game_complete(self.maze.as_slice()) {
                    self.phase = Phase::Won;
                }
                timer
            },
            None => None,
        }
    }

    /// One tick, drawing a roll from `0..ROLL_RANGE` for each adversary whose
    /// decision needs one. Returns the timer to schedule, if any.
    pub fn tick(&mut self) -> (r: Option<Timer>)
        requires
            old(self).wf(),
        ensures
            final(self).wf(),
            exists|rolls: Seq<u8>|
                rolls.len() == old(self)@.ghosts.len() && (forall|i: int|
                    0 <= i < rolls.len() ==> #[trigger] rolls[i] < ROLL_RANGE) && (final(self)@, r)
                    == tick_view(old(self)@, rolls),
    {
        let rolls = draw_rolls(&self.ghosts);
        self.tick_with_rolls(rolls.as_slice())
    }

    /// A timer firing (see `fire_view`). Returns the timer to schedule next,
    /// if any.
    pub fn fire(&mut self, timer: Timer) -> (r: Option<Timer>)
        requires
            old(self).wf(),
        ensures
            final(self).wf(),
            (final(self)@, r) == fire_view(old(self)@, timer),
    {
        if timer.generation != self.generation {
            return None;
        }
        match timer.kind {
            TimerKind::DeathPause => {
                if self.phase != Phase::Dying {
                    None
                } else if self.lives > 0 {
                    self.phase = Phase::RespawnPending;
                    self.pacman_pos = self.start;
                    self.ghosts = self.ghost_starts.clone();
                    proof {
                        assert(self.ghosts@ =~= self.ghost_starts@);
                    }
                    self.direction = Direction::Idle;
                    Some(Timer { kind: TimerKind::RespawnDelay, generation: self.generation })
                } else {
                    self.phase = Phase::GameOver;
                    None
                }
            },
            TimerKind::RespawnDelay => {
                if self.phase == Phase::RespawnPending {
                    self.phase = Phase::Active;
                }
                None
            },
            TimerKind::InvincibilityEnd => {
                if self.invincibility > 0 {
                    self.invincibility = self.invincibility - 1;
                }
                None
            },
        }
    }

    /// Starts over with the adversaries as given: the maze as the session
    /// began, everything else fresh, and a new generation so that timers
    /// still pending do nothing.
    pub fn restart_with_ghosts(&mut self, ghosts: Vec<Adversary>)
        requires
            old(self).wf(),
            all_in(old(self)@.initial_maze, ghosts@),
        ensures
            final(self).wf(),
            final(self)@ == fresh_view(
                old(self)@.initial_maze,
                old(self)@.start,
                ghosts@,
                next_generation(old(self).generation),
            ),
    {
        self.maze = copy_maze(&self.initial_maze);
        self.pacman_pos = self.start;
        self.direction = Direction::Idle;
        self.ghost_starts = ghosts.clone();
        proof {
            assert(self.ghost_starts@ =~= ghosts@);
        }
        self.ghosts = ghosts;
        self.score = 0;
        self.lives = START_LIVES;
        self.invincibility = 0;
        self.phase = Phase::NotStarted;
        self.ghost_turn = false;
        self.generation = if self.generation == u64::MAX {
            0
        } else {
            self.generation + 1
        };
    }

    /// Starts over with freshly placed adversaries (see `restart_with_ghosts`
    /// and `spawn_ghosts`).
    pub fn restart(&mut self)
        requires
            old(self).wf(),
        ensures
            final(self).wf(),
            final(self)@ == fresh_view(
                old(self)@.initial_maze,
                old(self)@.start,
                final(self)@.ghosts,
                next_generation(old(self).generation),
            ),
            is_placement(final(self)@.ghosts, old(self)@.initial_maze, old(self)@.start),
            distinct_positions(final(self)@.ghosts),
    {
        let ghosts = spawn_ghosts(self.initial_maze.as_slice(), &self.start);
        self.restart_with_ghosts(ghosts);
    }
}

} // verus!
