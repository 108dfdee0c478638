use vstd::prelude::*;
use crate::game_logic::occupied;
use crate::grid::{
    cell_at, cleared, collect, is_pellet, pos_in, step, walkable, wf_maze, LARGE_PELLET, SMALL_PELLET,
};
use crate::models::{Direction, Position};
use crate::session::{
    fire_view, fresh_view, next_generation, tick_view, wf_view, Phase, SessionView, Timer, TimerKind,
};

verus! {

/// Whether `q` is one orthogonal step from `p`.
pub open spec fn adjacent(p: Position, q: Position) -> bool {
    (p.x == q.x && (q.y == p.y + 1 || p.y == q.y + 1)) || (p.y == q.y && (q.x == p.x + 1 || p.x
        == q.x + 1))
}

/// A move attempt either fails, and the actor stays where it is, or leads
/// exactly one orthogonal step to a cell that can be entered.
pub proof fn lemma_move_is_one_step(m: Seq<Seq<u8>>, p: Position, d: Direction)
    requires
        wf_maze(m),
        pos_in(m, p),
    ensures
        step(m, p, d) matches Some(q) ==> adjacent(p, q) && walkable(m, q.x as int, q.y as int),
{
}

/// Over a whole tick the player either stays put or takes one orthogonal
/// step onto an enterable cell.
pub proof fn lemma_tick_moves_player_one_step_at_most(s: SessionView, rolls: Seq<u8>)
    requires
        wf_view(s),
    ensures
        ({
            let q = tick_view(s, rolls).0.pacman_pos;
            q == s.pacman_pos || (adjacent(s.pacman_pos, q) && walkable(s.maze, q.x as int, q.y as int))
        }),
{
}

/// The tick of an active session in which the player steps onto `q`: no
/// adversary caught it first and pellets were left.
pub open spec fn steps_onto(s: SessionView, q: Position) -> bool {
    &&& s.phase == Phase::Active
    &&& !(s.invincibility <= 0 && occupied(s.ghosts, s.pacman_pos))
    &&& !cleared(s.maze)
    &&& step(s.maze, s.pacman_pos, s.direction) == Some(q)
}

/// Eating a small pellet earns exactly 10 and leaves the invincibility
/// counter alone; eating a large one earns exactly 50, adds exactly one to
/// the counter and asks for the timer that takes it off again.
pub proof fn lemma_pellet_scoring(s: SessionView, rolls: Seq<u8>, q: Position)
    requires
        steps_onto(s, q),
    ensures
        cell_at(s.maze, q) == SMALL_PELLET ==> {
            &&& tick_view(s, rolls).0.score == s.score + 10
            &&& tick_view(s, rolls).0.invincibility == s.invincibility
            &&& tick_view(s, rolls).1.is_none()
        },
        cell_at(s.maze, q) == LARGE_PELLET ==> {
            &&& tick_view(s, rolls).0.score == s.score + 50
            &&& tick_view(s, rolls).0.invincibility == s.invincibility + 1
            &&& tick_view(s, rolls).1 == Some(
                Timer { kind: TimerKind::InvincibilityEnd, generation: s.generation },
            )
        },
{
}

/// A maze is cleared exactly when no cell holds a pellet.
pub proof fn lemma_cleared_iff_no_pellet(m: Seq<Seq<u8>>)
    ensures
        cleared(m) <==> !exists|y: int, x: int|
            0 <= y < m.len() && 0 <= x < m[y].len() && is_pellet(#[trigger] m[y][x]),
{
}

/// The tick that eats the last pellet wins the game on that very tick.
pub proof fn lemma_last_pellet_wins(s: SessionView, rolls: Seq<u8>, q: Position)
    requires
        steps_onto(s, q),
        cleared(collect(s.maze, q)),
    ensures
        tick_view(s, rolls).0.phase == Phase::Won,
        tick_view(s, rolls).0.maze == collect(s.maze, q),
{
}

/// Meeting an adversary kills only while no invincibility runs: with the
/// counter at zero the player dies and loses a life; above zero, lives and
/// phase are as if nobody were there.
pub proof fn lemma_collision_needs_no_invincibility(s: SessionView, rolls: Seq<u8>)
    requires
        wf_view(s),
        s.phase == Phase::Active,
        occupied(s.ghosts, s.pacman_pos),
    ensures
        s.invincibility == 0 ==> {
            &&& tick_view(s, rolls).0.phase == Phase::Dying
            &&& tick_view(s, rolls).0.lives == if s.lives > 0 {
                s.lives - 1
            } else {
                s.lives
            }
        },
        s.invincibility > 0 ==> {
            &&& tick_view(s, rolls).0.lives == s.lives
            &&& tick_view(s, rolls).0.phase != Phase::Dying
        },
{
}

/// After a death with lives left, the death pause puts the player and every
/// adversary back exactly where the session recorded their starts.
pub proof fn lemma_respawn_restores_starts(s: SessionView, rolls: Seq<u8>)
    requires
        wf_view(s),
        s.phase == Phase::Active,
        s.invincibility == 0,
        occupied(s.ghosts, s.pacman_pos),
        s.lives > 1,
    ensures
        ({
            let (s1, t1) = tick_view(s, rolls);
            &&& s1.phase == Phase::Dying
            &&& t1 matches Some(t) && {
                let (s2, t2) = fire_view(s1, t);
                &&& s2.phase == Phase::RespawnPending
                &&& s2.pacman_pos == s.start
                &&& s2.ghosts == s.ghost_starts
                &&& t2 matches Some(u) && fire_view(s2, u).0.phase == Phase::Active
            }
        }),
{
}

/// A game that is over stays over until a restart: no tick and no timer
/// moves it to another phase.
pub proof fn lemma_game_over_is_final(s: SessionView, rolls: Seq<u8>, t: Timer)
    requires
        s.phase == Phase::GameOver,
    ensures
        tick_view(s, rolls).0.phase == Phase::GameOver,
        fire_view(s, t).0.phase == Phase::GameOver,
{
}

/// The death that takes the last life ends in game over, never in a respawn.
pub proof fn lemma_last_life_ends_game(s: SessionView, rolls: Seq<u8>)
    requires
        wf_view(s),
        s.phase == Phase::Active,
        s.invincibility == 0,
        occupied(s.ghosts, s.pacman_pos),
        s.lives == 1,
    ensures
        ({
            let (s1, t1) = tick_view(s, rolls);
            &&& s1.lives == 0
            &&& t1 matches Some(t) && {
                let (s2, t2) = fire_view(s1, t);
                &&& s2.phase == Phase::GameOver
                &&& t2.is_none()
            }
        }),
{
}

/// A restart cancels every timer of the session before it: fired
/// afterwards, such a timer changes nothing.
pub proof fn lemma_restart_cancels_timers(
    s: SessionView,
    ghosts: Seq<crate::models::Adversary>,
    t: Timer,
)
    requires
        t.generation == s.generation,
    ensures
        ({
            let r = fresh_view(s.initial_maze, s.start, ghosts, next_generation(s.generation));
            fire_view(r, t) == (r, None::<Timer>)
        }),
{
}

} // verus!
