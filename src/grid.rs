use vstd::prelude::*;
use crate::models::{Direction, Position};

verus! {

pub const EMPTY: u8 = 0;
pub const WALL: u8 = 1;
pub const SMALL_PELLET: u8 = 2;
pub const LARGE_PELLET: u8 = 3;

/// The cells of a maze as rows of cell codes.
pub open spec fn cells(m: Seq<Vec<u8>>) -> Seq<Seq<u8>> {
    m.map_values(|r: Vec<u8>| r@)
}

/// A maze is a non-empty rectangle whose coordinates fit in 32 bits.
pub open spec fn wf_maze(m: Seq<Seq<u8>>) -> bool {
    &&& 0 < m.len() <= u32::MAX
    &&& 0 < m[0].len() <= u32::MAX
    &&& forall|i: int| 0 <= i < m.len() ==> #[trigger] m[i].len() == m[0].len()
}

pub open spec fn in_bounds(m: Seq<Seq<u8>>, x: int, y: int) -> bool {
    0 <= y < m.len() && 0 <= x < m[0].len()
}

pub open spec fn pos_in(m: Seq<Seq<u8>>, p: Position) -> bool {
    in_bounds(m, p.x as int, p.y as int)
}

pub open spec fn cell_at(m: Seq<Seq<u8>>, p: Position) -> u8 {
    m[p.y as int][p.x as int]
}

/// Inside the maze and not a wall.
pub open spec fn walkable(m: Seq<Seq<u8>>, x: int, y: int) -> bool {
    in_bounds(m, x, y) && m[y][x] != WALL
}

pub open spec fn is_pellet(c: u8) -> bool {
    c == SMALL_PELLET || c == LARGE_PELLET
}

/// No cell holds a pellet of either size.
pub open spec fn cleared(m: Seq<Seq<u8>>) -> bool {
    forall|y: int, x: int| 0 <= y < m.len() && 0 <= x < m[y].len() ==> !is_pellet(#[trigger] m[y][x])
}

/// Points that collecting the content of a cell earns.
pub open spec fn points(c: u8) -> int {
    if c == SMALL_PELLET {
        10
    } else if c == LARGE_PELLET {
        50
    } else {
        0
    }
}

/// The maze after the pellet at `p`, if any, is eaten.
pub open spec fn collect(m: Seq<Seq<u8>>, p: Position) -> Seq<Seq<u8>> {
    if is_pellet(cell_at(m, p)) {
        m.update(p.y as int, m[p.y as int].update(p.x as int, EMPTY))
    } else {
        m
    }
}

/// Column and row offsets of one step in a direction.
pub open spec fn offset(d: Direction) -> (int, int) {
    match d {
        Direction::Up => (0, -1),
        Direction::Down => (0, 1),
        Direction::Left => (-1, 0),
        Direction::Right => (1, 0),
        Direction::Idle => (0, 0),
    }
}

/// Where one step from `p` in `d` leads, if that cell can be entered.
pub open spec fn step(m: Seq<Seq<u8>>, p: Position, d: Direction) -> Option<Position> {
    let nx = p.x + offset(d).0;
    let ny = p.y + offset(d).1;
    if d != Direction::Idle && walkable(m, nx, ny) {
        Some(Position { x: nx as usize, y: ny as usize })
    } else {
        None
    }
}

pub open spec fn as_seq(o: Option<Position>) -> Seq<Position> {
    match o {
        Some(q) => seq![q],
        None => Seq::empty(),
    }
}

/// The enterable neighbours of `p`, in the order up, down, left, right.
pub open spec fn valid_moves(m: Seq<Seq<u8>>, p: Position) -> Seq<Position> {
    as_seq(step(m, p, Direction::Up)) + as_seq(step(m, p, Direction::Down)) + as_seq(
        step(m, p, Direction::Left),
    ) + as_seq(step(m, p, Direction::Right))
}

/// Squared Euclidean distance between two cells.
pub open spec fn dist2(a: Position, b: Position) -> int {
    (a.x - b.x) * (a.x - b.x) + (a.y - b.y) * (a.y - b.y)
}

pub open spec fn coords_fit(p: Position) -> bool {
    p.x <= u32::MAX && p.y <= u32::MAX
}


/// How good a candidate cell is for an adversary: smaller is better. An
/// aggressive one wants to be near `t`, any other one far from it.
pub open spec fn rank(p: Position, t: Position, aggressive: bool) -> int {
    if aggressive {
        dist2(p, t)
    } else {
        -dist2(p, t)
    }
}

/// `i` is the first of the best-ranked candidates.
pub open spec fn is_first_best(s: Seq<Position>, i: int, t: Position, aggressive: bool) -> bool {
    &&& 0 <= i < s.len()
    &&& forall|j: int| 0 <= j < s.len() ==> rank(s[i], t, aggressive) <= rank(#[trigger] s[j], t, aggressive)
    &&& forall|j: int| 0 <= j < i ==> rank(#[trigger] s[j], t, aggressive) > rank(s[i], t, aggressive)
}

/// The candidate an adversary picks, if it has any.
pub open spec fn pick(s: Seq<Position>, t: Position, aggressive: bool) -> Option<Position> {
    if s.len() == 0 {
        None
    } else {
        Some(s[choose|i: int| is_first_best(s, i, t, aggressive)])
    }
}

/// Where an adversary at `p` heads, if anywhere.
pub open spec fn pursuit_step(m: Seq<Seq<u8>>, p: Position, t: Position, aggressive: bool) -> Option<
    Position,
> {
    pick(valid_moves(m, p), t, aggressive)
}

/// At most one first-best candidate exists.
pub proof fn lemma_first_best_unique(s: Seq<Position>, i: int, j: int, t: Position, aggressive: bool)
    requires
        is_first_best(s, i, t, aggressive),
        is_first_best(s, j, t, aggressive),
    ensures
        i == j,
{
    if i < j {
        assert(rank(s[i], t, aggressive) > rank(s[j], t, aggressive));
    } else if j < i {
        assert(rank(s[j], t, aggressive) > rank(s[i], t, aggressive));
    }
}

/// Every candidate move is one step away and can be entered.
pub proof fn lemma_valid_moves_walkable(m: Seq<Seq<u8>>, p: Position)
    requires
        wf_maze(m),
    ensures
        forall|i: int|
            0 <= i < valid_moves(m, p).len() ==> {
                let q = #[trigger] valid_moves(m, p)[i];
                walkable(m, q.x as int, q.y as int) && exists|d: Direction| step(m, p, d) == Some(q)
            },
{
    let up = as_seq(step(m, p, Direction::Up));
    let down = as_seq(step(m, p, Direction::Down));
    let left = as_seq(step(m, p, Direction::Left));
    let right = as_seq(step(m, p, Direction::Right));
    assert forall|i: int| 0 <= i < valid_moves(m, p).len() implies {
        let q = #[trigger] valid_moves(m, p)[i];
        walkable(m, q.x as int, q.y as int) && exists|d: Direction| step(m, p, d) == Some(q)
    } by {
        let s = valid_moves(m, p);
        let q = s[i];
        let a = up.len();
        let b = a + down.len();
        let c = b + left.len();
        if i < a {
            assert(q == up[i]);
            assert(step(m, p, Direction::Up) == Some(q));
            assert(walkable(m, q.x as int, q.y as int));
        } else if i < b {
            assert(q == down[i - a]);
            assert(step(m, p, Direction::Down) == Some(q));
            assert(walkable(m, q.x as int, q.y as int));
        } else if i < c {
            assert(q == left[i - b]);
            assert(step(m, p, Direction::Left) == Some(q));
            assert(walkable(m, q.x as int, q.y as int));
        } else {
            assert(q == right[i - c]);
            assert(step(m, p, Direction::Right) == Some(q));
            assert(walkable(m, q.x as int, q.y as int));
        }
    }
}


/// Eating a pellet leaves the maze's shape as it was.
pub proof fn lemma_collect_keeps_shape(m: Seq<Seq<u8>>, q: Position)
    requires
        wf_maze(m),
        pos_in(m, q),
    ensures
        wf_maze(collect(m, q)),
        collect(m, q).len() == m.len(),
        collect(m, q)[0].len() == m[0].len(),
{
    let m2 = collect(m, q);
    assert forall|i: int| 0 <= i < m2.len() implies #[trigger] m2[i].len() == m2[0].len() by {
        assert(m[i].len() == m[0].len());
    }
}

/// Pellets of either size in a row.
pub open spec fn row_pellets(r: Seq<u8>) -> nat
    decreases r.len(),
{
    if r.len() == 0 {
        0
    } else {
        row_pellets(r.drop_last()) + if is_pellet(r.last()) {
            1nat
        } else {
            0nat
        }
    }
}

/// Pellets of either size in a maze.
pub open spec fn pellets(m: Seq<Seq<u8>>) -> nat
    decreases m.len(),
{
    if m.len() == 0 {
        0
    } else {
        pellets(m.drop_last()) + row_pellets(m.last())
    }
}

pub open spec fn pellet_bit(c: u8) -> nat {
    if is_pellet(c) {
        1
    } else {
        0
    }
}

/// Overwriting one cell of a row changes its count by the difference of the
/// two cells.
pub proof fn lemma_row_pellets_update(r: Seq<u8>, x: int, v: u8)
    requires
        0 <= x < r.len(),
    ensures
        row_pellets(r.update(x, v)) + pellet_bit(r[x]) == row_pellets(r) + pellet_bit(v),
    decreases r.len(),
{
    let r2 = r.update(x, v);
    if x == r.len() - 1 {
        assert(r2.drop_last() =~= r.drop_last());
    } else {
        lemma_row_pellets_update(r.drop_last(), x, v);
        assert(r2.drop_last() =~= r.drop_last().update(x, v));
    }
}

/// Replacing one row of a maze changes its count by the difference of the
/// two rows.
pub proof fn lemma_pellets_update(m: Seq<Seq<u8>>, y: int, row: Seq<u8>)
    requires
        0 <= y < m.len(),
    ensures
        pellets(m.update(y, row)) + row_pellets(m[y]) == pellets(m) + row_pellets(row),
    decreases m.len(),
{
    let m2 = m.update(y, row);
    if y == m.len() - 1 {
        assert(m2.drop_last() =~= m.drop_last());
    } else {
        lemma_pellets_update(m.drop_last(), y, row);
        assert(m2.drop_last() =~= m.drop_last().update(y, row));
    }
}

/// Eating a pellet takes exactly one off the count; elsewhere nothing changes.
pub proof fn lemma_collect_count(m: Seq<Seq<u8>>, q: Position)
    requires
        wf_maze(m),
        pos_in(m, q),
    ensures
        is_pellet(cell_at(m, q)) ==> pellets(collect(m, q)) + 1 == pellets(m),
        !is_pellet(cell_at(m, q)) ==> pellets(collect(m, q)) == pellets(m),
{
    if is_pellet(cell_at(m, q)) {
        let y = q.y as int;
        let x = q.x as int;
        assert(m[y].len() == m[0].len());
        lemma_row_pellets_update(m[y], x, EMPTY);
        lemma_pellets_update(m, y, m[y].update(x, EMPTY));
    }
}

/// A maze that is not cleared holds at least one pellet.
pub proof fn lemma_uncleared_has_pellet(m: Seq<Seq<u8>>)
    requires
        wf_maze(m),
        !cleared(m),
    ensures
        pellets(m) >= 1,
{
    let (y, x) = choose|y: int, x: int| 0 <= y < m.len() && 0 <= x < m[y].len() && is_pellet(m[y][x]);
    assert(m[y].len() == m[0].len());
    lemma_collect_count(m, Position { x: x as usize, y: y as usize });
}

/// A row holds no more pellets than cells.
pub proof fn lemma_row_pellets_le(r: Seq<u8>)
    ensures
        row_pellets(r) <= r.len(),
    decreases r.len(),
{
    if r.len() > 0 {
        lemma_row_pellets_le(r.drop_last());
    }
}

/// A maze of rows of width `w` holds no more pellets than cells.
pub proof fn lemma_pellets_le(m: Seq<Seq<u8>>, w: nat)
    requires
        forall|i: int| 0 <= i < m.len() ==> #[trigger] m[i].len() == w,
    ensures
        pellets(m) <= m.len() * w,
    decreases m.len(),
{
    if m.len() > 0 {
        let n = m.len() as int;
        assert forall|i: int| 0 <= i < m.drop_last().len() implies #[trigger] m.drop_last()[i].len() == w by {
            assert(m[i].len() == w);
        }
        lemma_pellets_le(m.drop_last(), w);
        lemma_row_pellets_le(m.last());
        assert(m.last().len() == w);
        assert((n - 1) * w + w == n * w) by (nonlinear_arith);
    }
}

} // verus!
