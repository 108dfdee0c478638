use vstd::prelude::*;
use crate::grid::{cells, wf_maze, walkable, WALL};
use crate::maze::{player_start, start_position};
use crate::models::{Adversary, Position};
use crate::random::draw_below;

verus! {

/// Number of adversaries in a session.
pub const GHOST_COUNT: usize = 4;

/// Row-major order of cells.
pub open spec fn before(a: Position, b: Position) -> bool {
    a.y < b.y || (a.y == b.y && a.x < b.x)
}

/// A cell where an adversary may be placed: enterable and not `avoid`.
pub open spec fn spawnable(m: Seq<Seq<u8>>, p: Position, avoid: Position) -> bool {
    walkable(m, p.x as int, p.y as int) && p != avoid
}

/// `s` lists every spawnable cell of `m` exactly once, in row-major order.
pub open spec fn lists_spawnable(s: Seq<Position>, m: Seq<Seq<u8>>, avoid: Position) -> bool {
    &&& forall|i: int| 0 <= i < s.len() ==> spawnable(m, #[trigger] s[i], avoid)
    &&& forall|i: int, j: int| 0 <= i < j < s.len() ==> before(#[trigger] s[i], #[trigger] s[j])
    &&& forall|p: Position| spawnable(m, p, avoid) ==> #[trigger] s.contains(p)
}

/// The cells left to choose from after the first `k` picks, each pick
/// removing the cell at its index.
pub open spec fn after_picks(c: Seq<Position>, picks: Seq<usize>, k: nat) -> Seq<Position>
    decreases k,
{
    if k == 0 {
        c
    } else {
        after_picks(c, picks, (k - 1) as nat).remove(picks[k - 1] as int)
    }
}

/// The look and the aggression (in percent) of the `k`-th adversary.
pub open spec fn palette(k: int) -> (&'static str, u8) {
    if k == 0 {
        ("#FF0000", 100)
    } else if k == 1 {
        ("#00FFFF", 60)
    } else if k == 2 {
        ("#FFB8FF", 70)
    } else {
        ("#FFB852", 0)
    }
}

/// `r` is a placement of the adversaries for some picks among the spawnable
/// cells (see `place_ghosts`).
pub open spec fn is_placement(r: Seq<Adversary>, m: Seq<Seq<u8>>, avoid: Position) -> bool {
    exists|c: Seq<Position>, picks: Seq<usize>|
        {
            &&& lists_spawnable(c, m, avoid)
            &&& picks.len() == GHOST_COUNT
            &&& picks_fit(c.len(), picks)
            &&& r.len() == min(GHOST_COUNT as int, c.len() as int)
            &&& forall|k: int|
                0 <= k < r.len() ==> {
                    &&& (#[trigger] r[k]).position == after_picks(c, picks, k as nat)[picks[k] as int]
                    &&& (r[k].color, r[k].aggression) == palette(k)
                }
        }
}

/// No two adversaries share a cell.
pub open spec fn distinct_positions(r: Seq<Adversary>) -> bool {
    forall|i: int, j: int| 0 <= i < j < r.len() ==> (#[trigger] r[i]).position != (#[trigger] r[j]).position
}

/// Picks that index the candidates left at their turn.
pub open spec fn picks_fit(n: nat, picks: Seq<usize>) -> bool {
    forall|k: int| 0 <= k < picks.len() && k < n ==> #[trigger] picks[k] < n - k
}

pub open spec fn min(a: int, b: int) -> int {
    if a < b {
        a
    } else {
        b
    }
}

/// The `k`-th adversary of a placement.
pub fn palette_entry(k: usize) -> (r: (&'static str, u8))
    ensures
        r == palette(k as int),
{
    if k == 0 {
        ("#FF0000", 100)
    } else if k == 1 {
        ("#00FFFF", 60)
    } else if k == 2 {
        ("#FFB8FF", 70)
    } else {
        ("#FFB852", 0)
    }
}

/// Every enterable cell of the maze but `avoid`, in row-major order.
pub fn spawn_candidates(maze: &[Vec<u8>], avoid: &Position) -> (r: Vec<Position>)
    requires
        wf_maze(cells(maze@)),
    ensures
        lists_spawnable(r@, cells(maze@), *avoid),
{
    let ghost m = cells(maze@);
    let mut out: Vec<Position> = Vec::new();
    let mut y: usize = 0;
    while y < maze.len()
        invariant
            m == cells(maze@),
            wf_maze(m),
            y <= m.len(),
            forall|i: int| 0 <= i < out@.len() ==> spawnable(m, #[trigger] out@[i], *avoid),
            forall|i: int| 0 <= i < out@.len() ==> (#[trigger] out@[i]).y < y,
            forall|i: int, j: int| 0 <= i < j < out@.len() ==> before(#[trigger] out@[i], #[trigger] out@[j]),
            forall|p: Position| spawnable(m, p, *avoid) && p.y < y ==> #[trigger] out@.contains(p),
        decreases m.len() - y,
    {
        let row = &maze[y];
        assert(m[y as int].len() == m[0].len());
        let mut x: usize = 0;
        while x < row.len()
            invariant
                m == cells(maze@),
                wf_maze(m),
                y < m.len(),
                row@ == m[y as int],
                x <= row@.len(),
                forall|i: int| 0 <= i < out@.len() ==> spawnable(m, #[trigger] out@[i], *avoid),
                forall|i: int| 0 <= i < out@.len() ==> before(#[trigger] out@[i], Position { x, y }),
                forall|i: int, j: int| 0 <= i < j < out@.len() ==> before(#[trigger] out@[i], #[trigger] out@[j]),
                forall|p: Position|
                    spawnable(m, p, *avoid) && (p.y < y || (p.y == y && p.x < x)) ==> #[trigger] out@.contains(p),
            decreases row@.len() - x,
        {
            let p = Position { x, y };
            if row[x] != WALL && p != *avoid {
                let ghost before_push = out@;
                out.push(p);
                proof {
                    assert(out@[before_push.len() as int] == p);
                    assert forall|q: Position|
                        spawnable(m, q, *avoid) && (q.y < y || (q.y == y && q.x < x + 1)) implies #[trigger] out@.contains(q) by {
                        if q == p {
                            assert(out@[before_push.len() as int] == q);
                        } else {
                            assert(before_push.contains(q));
                            let k = choose|k: int| 0 <= k < before_push.len() && before_push[k] == q;
                            assert(out@[k] == q);
                        }
                    }
                }
            } else {
                proof {
                    assert forall|q: Position|
                        spawnable(m, q, *avoid) && (q.y < y || (q.y == y && q.x < x + 1)) implies #[trigger] out@.contains(q) by {
                        if q.y == y && q.x == x {
                            assert(q == p);
                        }
                    }
                }
            }
            x += 1;
        }
        proof {
            assert forall|q: Position| spawnable(m, q, *avoid) && q.y < y + 1 implies #[trigger] out@.contains(q) by {
                if q.y == y {
                    assert(q.x < m[0].len());
                }
            }
        }
        y += 1;
    }
    out
}

/// Where the adversaries start for given picks: the `k`-th takes the cell at
/// index `picks[k]` of the candidates still left, and has the `k`-th look and
/// aggression of `palette`. Fewer than `GHOST_COUNT` are placed only where
/// fewer candidates exist.
pub fn place_ghosts(candidates: Vec<Position>, picks: &[usize]) -> (r: Vec<Adversary>)
    requires
        picks@.len() == GHOST_COUNT,
        picks_fit(candidates@.len(), picks@),
        candidates@.no_duplicates(),
    ensures
        distinct_positions(r@),
        r@.len() == min(GHOST_COUNT as int, candidates@.len() as int),
        forall|k: int|
            0 <= k < r@.len() ==> {
                &&& (#[trigger] r@[k]).position == after_picks(candidates@, picks@, k as nat)[picks@[k] as int]
                &&& (r@[k].color, r@[k].aggression) == palette(k)
                &&& candidates@.contains(r@[k].position)
            },
{
    let ghost c = candidates@;
    let mut pool = candidates;
    let mut out: Vec<Adversary> = Vec::new();
    let mut k: usize = 0;
    while k < GHOST_COUNT && pool.len() > 0
        invariant
            picks@.len() == GHOST_COUNT,
            picks_fit(c.len(), picks@),
            k <= GHOST_COUNT,
            k <= c.len(),
            pool@ == after_picks(c, picks@, k as nat),
            pool@.len() == c.len() - k,
            out@.len() == k,
            forall|i: int| 0 <= i < pool@.len() ==> c.contains(#[trigger] pool@[i]),
            pool@.no_duplicates(),
            distinct_positions(out@),
            forall|j: int| 0 <= j < k ==> !pool@.contains((#[trigger] out@[j]).position),
            forall|j: int|
                0 <= j < k ==> {
                    &&& (#[trigger] out@[j]).position == after_picks(c, picks@, j as nat)[picks@[j] as int]
                    &&& (out@[j].color, out@[j].aggression) == palette(j)
                    &&& c.contains(out@[j].position)
                },
        decreases GHOST_COUNT - k,
    {
        let idx = picks[k];
        let ghost before_remove = pool@;
        assert(idx < c.len() - k);
        let p = pool.remove(idx);
        proof {
            assert(c.contains(before_remove[idx as int]));
            assert forall|i: int| 0 <= i < pool@.len() implies c.contains(#[trigger] pool@[i]) by {
                if i < idx {
                    assert(pool@[i] == before_remove[i]);
                } else {
                    assert(pool@[i] == before_remove[i + 1]);
                }
            }
            assert forall|i: int, j: int| 0 <= i < j < pool@.len() implies pool@[i] != pool@[j] by {
                let bi = if i < idx { i } else { i + 1 };
                let bj = if j < idx { j } else { j + 1 };
                assert(pool@[i] == before_remove[bi]);
                assert(pool@[j] == before_remove[bj]);
            }
            assert forall|i: int| 0 <= i < pool@.len() implies pool@[i] != p by {
                let bi = if i < idx { i } else { i + 1 };
                assert(pool@[i] == before_remove[bi]);
            }
            assert forall|j: int| 0 <= j < k implies !pool@.contains((#[trigger] out@[j]).position) by {
                if pool@.contains(out@[j].position) {
                    let i = choose|i: int| 0 <= i < pool@.len() && pool@[i] == out@[j].position;
                    let bi = if i < idx { i } else { i + 1 };
                    assert(pool@[i] == before_remove[bi]);
                }
            }
        }
        let entry = palette_entry(k);
        out.push(Adversary { position: p, color: entry.0, aggression: entry.1 });
        k += 1;
    }
    out
}

/// The starting adversaries of a session: `GHOST_COUNT` of them (fewer only
/// where the maze has fewer cells to offer), on distinct random enterable
/// cells other than `avoid`, with the looks and aggressions of `palette`.
pub fn spawn_ghosts(maze: &[Vec<u8>], avoid: &Position) -> (r: Vec<Adversary>)
    requires
        wf_maze(cells(maze@)),
    ensures
        is_placement(r@, cells(maze@), *avoid),
        distinct_positions(r@),
        forall|k: int| 0 <= k < r@.len() ==> spawnable(cells(maze@), (#[trigger] r@[k]).position, *avoid),
{
    let candidates = spawn_candidates(maze, avoid);
    let n = candidates.len();
    let mut picks: Vec<usize> = Vec::new();
    let mut k: usize = 0;
    while k < GHOST_COUNT
        invariant
            k <= GHOST_COUNT,
            picks@.len() == k,
            forall|j: int| 0 <= j < k && j < n ==> #[trigger] picks@[j] < n - j,
        decreases GHOST_COUNT - k,
    {
        if k < n {
            picks.push(draw_below(n - k));
        } else {
            picks.push(0);
        }
        k += 1;
    }
    let ghost c = candidates@;
    assert(c.no_duplicates()) by {
        assert forall|i: int, j: int| 0 <= i < c.len() && 0 <= j < c.len() && i != j implies c[i] != c[j] by {
            if i < j {
                assert(before(c[i], c[j]));
            } else {
                assert(before(c[j], c[i]));
            }
        }
    }
    let r = place_ghosts(candidates, picks.as_slice());
    proof {
        assert(is_placement(r@, cells(maze@), *avoid)) by {
            assert(lists_spawnable(c, cells(maze@), *avoid));
        }
        assert forall|k: int| 0 <= k < r@.len() implies spawnable(cells(maze@), (#[trigger] r@[k]).position, *avoid) by {
            let i = choose|i: int| 0 <= i < c.len() && c[i] == r@[k].position;
            assert(spawnable(cells(maze@), c[i], *avoid));
        }
    }
    r
}

impl Adversary {
    /// The starting adversaries of a session, placed at random as
    /// `spawn_ghosts` does, never on the player's start cell.
    pub fn initialize_ghosts(maze: &[Vec<u8>]) -> (r: Vec<Adversary>)
        requires
            wf_maze(cells(maze@)),
        ensures
            is_placement(r@, cells(maze@), start_position()),
            distinct_positions(r@),
            forall|k: int|
                0 <= k < r@.len() ==> spawnable(cells(maze@), (#[trigger] r@[k]).position, start_position()),
    {
        spawn_ghosts(maze, &player_start())
    }
}

} // verus!
