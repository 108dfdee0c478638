use vstd::prelude::*;
use crate::grid::{
    cell_at, cells, cleared, collect, coords_fit, dist2, is_first_best, is_pellet, lemma_first_best_unique,
    lemma_valid_moves_walkable, pick, points, pos_in, pursuit_step, rank, step, valid_moves, walkable,
    wf_maze, EMPTY, LARGE_PELLET, SMALL_PELLET, WALL,
};
use crate::models::{Adversary, Direction, Position};
use crate::random::draw_below;

verus! {

/// One step from `position` in `direction`, or `None` where the step would
/// leave the maze, enter a wall, or `direction` asks for no movement.
pub fn attempt_move(position: &Position, direction: Direction, maze: &[Vec<u8>]) -> (r: Option<
    Position,
>)
    requires
        wf_maze(cells(maze@)),
        pos_in(cells(maze@), *position),
    ensures
        r == step(cells(maze@), *position, direction),
{
    let ghost m = cells(maze@);
    let x = position.x;
    let y = position.y;
    assert(m[y as int].len() == m[0].len());
    match direction {
        Direction::Up => {
            if y > 0 && maze[y - 1][x] != WALL {
                Some(Position { x, y: y - 1 })
            } else {
                None
            }
        },
        Direction::Down => {
            if y + 1 < maze.len() && maze[y + 1][x] != WALL {
                Some(Position { x, y: y + 1 })
            } else {
                None
            }
        },
        Direction::Left => {
            if x > 0 && maze[y][x - 1] != WALL {
                Some(Position { x: x - 1, y })
            } else {
                None
            }
        },
        Direction::Right => {
            if x + 1 < maze[y].len() && maze[y][x + 1] != WALL {
                Some(Position { x: x + 1, y })
            } else {
                None
            }
        },
        Direction::Idle => None,
    }
}

/// The neighbours of `position` that can be entered, in the order up, down,
/// left, right.
pub fn get_valid_ghost_moves(position: &Position, maze: &[Vec<u8>]) -> (r: Vec<Position>)
    requires
        wf_maze(cells(maze@)),
        pos_in(cells(maze@), *position),
    ensures
        r@ == valid_moves(cells(maze@), *position),
{
    let mut moves: Vec<Position> = Vec::new();
    if let Some(q) = attempt_move(position, Direction::Up, maze) {
        moves.push(q);
    }
    if let Some(q) = attempt_move(position, Direction::Down, maze) {
        moves.push(q);
    }
    if let Some(q) = attempt_move(position, Direction::Left, maze) {
        moves.push(q);
    }
    if let Some(q) = attempt_move(position, Direction::Right, maze) {
        moves.push(q);
    }
    assert(moves@ =~= valid_moves(cells(maze@), *position));
    moves
}

/// Eats the pellet at `pos`, if any: a small one is worth 10 points, a large
/// one 50. Returns whether a large one was eaten.
pub fn update_score(pos: &Position, maze: &mut Vec<Vec<u8>>, score: &mut i32) -> (r: bool)
    requires
        wf_maze(cells(old(maze)@)),
        pos_in(cells(old(maze)@), *pos),
        *old(score) <= i32::MAX - 50,
    ensures
        cells(final(maze)@) == collect(cells(old(maze)@), *pos),
        *final(score) == *old(score) + points(cell_at(cells(old(maze)@), *pos)),
        r == (cell_at(cells(old(maze)@), *pos) == LARGE_PELLET),
{
    let ghost m = cells(maze@);
    assert(m[pos.y as int].len() == m[0].len());
    let c = maze[pos.y][pos.x];
    if c == SMALL_PELLET || c == LARGE_PELLET {
        let mut row: Vec<u8> = Vec::new();
        maze.set_and_swap(pos.y, &mut row);
        row.set(pos.x, EMPTY);
        maze.set_and_swap(pos.y, &mut row);
        assert(cells(maze@) =~= collect(m, *pos));
        if c == SMALL_PELLET {
            *score = *score + 10;
        } else {
            *score = *score + 50;
        }
        c == LARGE_PELLET
    } else {
        false
    }
}

/// Moves the player one step in `current_direction` where that is possible,
/// eating what lies on the new cell. Returns the new position and whether a
/// large pellet was eaten, or `None` (nothing changed) for a blocked step.
pub fn calculate_next_position(
    current_direction: &Direction,
    current_pos: &Position,
    maze: &mut Vec<Vec<u8>>,
    score: &mut i32,
) -> (r: Option<(Position, bool)>)
    requires
        wf_maze(cells(old(maze)@)),
        pos_in(cells(old(maze)@), *current_pos),
        *old(score) <= i32::MAX - 50,
    ensures
        ({
            let m = cells(old(maze)@);
            match step(m, *current_pos, *current_direction) {
                Some(q) => {
                    &&& r == Some((q, cell_at(m, q) == LARGE_PELLET))
                    &&& cells(final(maze)@) == collect(m, q)
                    &&& *final(score) == *old(score) + points(cell_at(m, q))
                },
                None => {
                    &&& r.is_none()
                    &&& final(maze)@ == old(maze)@
                    &&& *final(score) == *old(score)
                },
            }
        }),
{
    match attempt_move(current_pos, *current_direction, maze.as_slice()) {
        Some(q) => {
            let large = update_score(&q, maze, score);
            Some((q, large))
        },
        None => None,
    }
}

/// Whether no pellet of either size is left.
pub fn check_game_complete(maze: &[Vec<u8>]) -> (r: bool)
    ensures
        r == cleared(cells(maze@)),
{
    let ghost m = cells(maze@);
    let mut y: usize = 0;
    while y < maze.len()
        invariant
            m == cells(maze@),
            y <= maze@.len(),
            forall|yy: int, xx: int|
                0 <= yy < y && 0 <= xx < m[yy].len() ==> !is_pellet(#[trigger] m[yy][xx]),
        decreases maze@.len() - y,
    {
        let row = &maze[y];
        let mut x: usize = 0;
        while x < row.len()
            invariant
                m == cells(maze@),
                y < maze@.len(),
                row@ == m[y as int],
                x <= row@.len(),
                forall|yy: int, xx: int|
                    0 <= yy < y && 0 <= xx < m[yy].len() ==> !is_pellet(#[trigger] m[yy][xx]),
                forall|xx: int| 0 <= xx < x ==> !is_pellet(#[trigger] m[y as int][xx]),
            decreases row@.len() - x,
        {
            let c = row[x];
            if c == SMALL_PELLET || c == LARGE_PELLET {
                return false;
            }
            x += 1;
        }
        y += 1;
    }
    true
}

/// Squared Euclidean distance between two cells.
pub fn distance_squared(a: &Position, b: &Position) -> (r: i128)
    requires
        coords_fit(*a),
        coords_fit(*b),
    ensures
        r == dist2(*a, *b),
        0 <= r <= 0x2_0000_0000_0000_0000,
{
    let dx: i128 = a.x as i128 - b.x as i128;
    let dy: i128 = a.y as i128 - b.y as i128;
    assert(dx * dx <= 0x1_0000_0000_0000_0000) by (nonlinear_arith)
        requires
            -0x1_0000_0000 <= dx <= 0x1_0000_0000,
    ;
    assert(dy * dy <= 0x1_0000_0000_0000_0000) by (nonlinear_arith)
        requires
            -0x1_0000_0000 <= dy <= 0x1_0000_0000,
    ;
    assert(0 <= dx * dx && 0 <= dy * dy) by (nonlinear_arith);
    dx * dx + dy * dy
}

/// The first of the candidates nearest to `pacman_pos` (`make_best_move`) or
/// farthest from it (otherwise), by squared Euclidean distance.
pub fn find_best_move(possible_moves: &[Position], pacman_pos: &Position, make_best_move: bool) -> (r:
    Option<Position>)
    requires
        coords_fit(*pacman_pos),
        forall|i: int| 0 <= i < possible_moves@.len() ==> coords_fit(#[trigger] possible_moves@[i]),
    ensures
        r == pick(possible_moves@, *pacman_pos, make_best_move),
        possible_moves@.len() > 0 ==> exists|i: int|
            is_first_best(possible_moves@, i, *pacman_pos, make_best_move) && r == Some(
                #[trigger] possible_moves@[i],
            ),
{
    let ghost s = possible_moves@;
    let ghost t = *pacman_pos;
    if possible_moves.len() == 0 {
        return None;
    }
    let d0 = distance_squared(&possible_moves[0], pacman_pos);
    let mut best: usize = 0;
    let mut best_key: i128 = if make_best_move { d0 } else { -d0 };
    let mut i: usize = 1;
    while i < possible_moves.len()
        invariant
            s == possible_moves@,
            t == *pacman_pos,
            coords_fit(t),
            forall|j: int| 0 <= j < s.len() ==> coords_fit(#[trigger] s[j]),
            0 <= best < i <= s.len(),
            best_key == rank(s[best as int], t, make_best_move),
            forall|j: int| 0 <= j < i ==> best_key <= rank(#[trigger] s[j], t, make_best_move),
            forall|j: int| 0 <= j < best ==> rank(#[trigger] s[j], t, make_best_move) > best_key,
        decreases s.len() - i,
    {
        let d = distance_squared(&possible_moves[i], pacman_pos);
        let key: i128 = if make_best_move { d } else { -d };
        if key < best_key {
            best = i;
            best_key = key;
        }
        i += 1;
    }
    proof {
        assert(is_first_best(s, best as int, t, make_best_move));
        let c = choose|k: int| is_first_best(s, k, t, make_best_move);
        lemma_first_best_unique(s, best as int, c, t, make_best_move);
    }
    Some(possible_moves[best])
}

/// Where `ghost` moves next: toward `pacman_pos` when `aggressive`, away from
/// it otherwise; `None` where it has no cell to enter.
pub fn find_ghost_move(ghost: &Adversary, pacman_pos: &Position, maze: &[Vec<u8>], aggressive: bool) -> (r:
    Option<Position>)
    requires
        wf_maze(cells(maze@)),
        pos_in(cells(maze@), ghost.position),
        coords_fit(*pacman_pos),
    ensures
        r == pursuit_step(cells(maze@), ghost.position, *pacman_pos, aggressive),
        r matches Some(q) ==> walkable(cells(maze@), q.x as int, q.y as int),
{
    let moves = get_valid_ghost_moves(&ghost.position, maze);
    proof {
        lemma_valid_moves_walkable(cells(maze@), ghost.position);
        assert forall|i: int| 0 <= i < moves@.len() implies coords_fit(#[trigger] moves@[i]) by {
            assert(walkable(cells(maze@), moves@[i].x as int, moves@[i].y as int));
        }
    }
    if moves.len() == 0 {
        return None;
    }
    find_best_move(moves.as_slice(), pacman_pos, aggressive)
}

/// Rolls are drawn from `0..ROLL_RANGE`.
pub const ROLL_RANGE: u8 = 100;

/// Whether an adversary with this aggression (in percent) heads for the
/// player, given a roll from `0..ROLL_RANGE`. Full aggression and none decide
/// without the roll.
pub open spec fn aggressive_for(aggression: u8, roll: u8) -> bool {
    aggression >= ROLL_RANGE || (aggression > 0 && roll < aggression)
}

/// Whether any adversary stands on `p`.
pub open spec fn occupied(ghosts: Seq<Adversary>, p: Position) -> bool {
    exists|i: int| 0 <= i < ghosts.len() && (#[trigger] ghosts[i]).position == p
}

/// An adversary after its move for a roll.
pub open spec fn moved(g: Adversary, m: Seq<Seq<u8>>, t: Position, roll: u8) -> Adversary {
    match pursuit_step(m, g.position, t, aggressive_for(g.aggression, roll)) {
        Some(q) => Adversary { position: q, ..g },
        None => g,
    }
}

/// All adversaries after their moves, the `i`-th with the `i`-th roll.
pub open spec fn all_moved(gs: Seq<Adversary>, m: Seq<Seq<u8>>, t: Position, rolls: Seq<u8>) -> Seq<
    Adversary,
> {
    Seq::new(gs.len(), |i: int| moved(gs[i], m, t, rolls[i]))
}

/// Every adversary stands inside the maze.
pub open spec fn all_in(m: Seq<Seq<u8>>, gs: Seq<Adversary>) -> bool {
    forall|i: int| 0 <= i < gs.len() ==> pos_in(m, (#[trigger] gs[i]).position)
}

/// Whether an adversary with this aggression heads for the player this turn.
pub fn is_aggressive(aggression: u8, roll: u8) -> (r: bool)
    ensures
        r == aggressive_for(aggression, roll),
{
    aggression >= ROLL_RANGE || (aggression > 0 && roll < aggression)
}

/// Whether this turn's decision needs a roll at all.
pub fn needs_roll(aggression: u8) -> (r: bool)
    ensures
        r == (0 < aggression < ROLL_RANGE),
        !r ==> forall|a: u8, b: u8| aggressive_for(aggression, a) == aggressive_for(aggression, b),
{
    0 < aggression && aggression < ROLL_RANGE
}

/// Ends the player's life when an adversary stands on its cell and no
/// invincibility is running: sets `is_dying` and takes one life (never below
/// zero). Returns whether that happened; otherwise nothing changes.
pub fn check_ghost_collision(
    pacman_pos: &Position,
    ghosts: &[Adversary],
    is_dying: &mut bool,
    lives: &mut i32,
    invincibility: i32,
) -> (r: bool)
    ensures
        r == (invincibility <= 0 && occupied(ghosts@, *pacman_pos)),
        r ==> (*final(is_dying) && *final(lives) == if *old(lives) > 0 {
            *old(lives) - 1
        } else {
            *old(lives) as int
        }),
        !r ==> (*final(is_dying) == *old(is_dying) && *final(lives) == *old(lives)),
{
    if invincibility <= 0 {
        let mut i: usize = 0;
        while i < ghosts.len()
            invariant
                i <= ghosts@.len(),
                invincibility <= 0,
                *is_dying == *old(is_dying),
                *lives == *old(lives),
                forall|j: int| 0 <= j < i ==> (#[trigger] ghosts@[j]).position != *pacman_pos,
            decreases ghosts@.len() - i,
        {
            if ghosts[i].position == *pacman_pos {
                assert(ghosts@[i as int].position == *pacman_pos);
                *is_dying = true;
                if *lives > 0 {
                    *lives = *lives - 1;
                }
                return true;
            }
            i += 1;
        }
    }
    false
}

/// Moves every adversary one turn, the `i`-th deciding with `rolls[i]` (see
/// `aggressive_for`) and staying put where it has no cell to enter.
pub fn move_ghosts_with_rolls(
    ghosts: &mut Vec<Adversary>,
    pacman_pos: &Position,
    maze: &[Vec<u8>],
    rolls: &[u8],
)
    requires
        wf_maze(cells(maze@)),
        all_in(cells(maze@), old(ghosts)@),
        coords_fit(*pacman_pos),
        rolls@.len() == old(ghosts)@.len(),
    ensures
        final(ghosts)@ == all_moved(old(ghosts)@, cells(maze@), *pacman_pos, rolls@),
        all_in(cells(maze@), final(ghosts)@),
{
    let ghost m = cells(maze@);
    let ghost start = ghosts@;
    let mut i: usize = 0;
    while i < ghosts.len()
        invariant
            m == cells(maze@),
            wf_maze(m),
            coords_fit(*pacman_pos),
            rolls@.len() == start.len(),
            ghosts@.len() == start.len(),
            i <= start.len(),
            all_in(m, start),
            all_in(m, ghosts@),
            forall|j: int| 0 <= j < i ==> #[trigger] ghosts@[j] == moved(start[j], m, *pacman_pos, rolls@[j]),
            forall|j: int| i <= j < start.len() ==> #[trigger] ghosts@[j] == start[j],
        decreases start.len() - i,
    {
        let g = ghosts[i];
        let aggressive = is_aggressive(g.aggression, rolls[i]);
        if let Some(q) = find_ghost_move(&g, pacman_pos, maze, aggressive) {
            ghosts.set(i, Adversary { position: q, ..g });
        }
        i += 1;
    }
    assert(ghosts@ =~= all_moved(start, m, *pacman_pos, rolls@));
}

/// Moves every adversary one turn, drawing for each one that needs it a roll
/// from `0..ROLL_RANGE`.
pub fn move_ghosts(ghosts: &mut Vec<Adversary>, pacman_pos: &Position, maze: &[Vec<u8>])
    requires
        wf_maze(cells(maze@)),
        all_in(cells(maze@), old(ghosts)@),
        coords_fit(*pacman_pos),
    ensures
        exists|rolls: Seq<u8>|
            rolls.len() == old(ghosts)@.len() && (forall|i: int|
                0 <= i < rolls.len() ==> #[trigger] rolls[i] < ROLL_RANGE) && final(ghosts)@
                == all_moved(old(ghosts)@, cells(maze@), *pacman_pos, rolls),
        all_in(cells(maze@), final(ghosts)@),
{
    let rolls = draw_rolls(ghosts);
    move_ghosts_with_rolls(ghosts, pacman_pos, maze, rolls.as_slice());
}

/// One roll per adversary, drawn only for those whose decision needs it.
pub(crate) fn draw_rolls(ghosts: &Vec<Adversary>) -> (r: Vec<u8>)
    ensures
        r@.len() == ghosts@.len(),
        forall|i: int| 0 <= i < r@.len() ==> #[trigger] r@[i] < ROLL_RANGE,
{
    let mut rolls: Vec<u8> = Vec::new();
    let mut i: usize = 0;
    while i < ghosts.len()
        invariant
            i <= ghosts@.len(),
            rolls@.len() == i,
            forall|j: int| 0 <= j < i ==> #[trigger] rolls@[j] < ROLL_RANGE,
        decreases ghosts@.len() - i,
    {
        if needs_roll(ghosts[i].aggression) {
            rolls.push(draw_below(ROLL_RANGE as usize) as u8);
        } else {
            rolls.push(0);
        }
        i += 1;
    }
    rolls
}

} // verus!
