//! Construction of a puzzle state from a rectangular board layout: a
//! row-major sequence of tiles, of which exactly one must be the astronaut
//! and exactly one the goal.  Cells are examined column by column (increasing
//! x, then increasing y), which fixes how robots are numbered.

use vstd::prelude::*;

use crate::state::{Invariants, Pos, State, StateError, Tile};
use vstd::arithmetic::div_mod::{
    lemma_fundamental_div_mod, lemma_fundamental_div_mod_converse, lemma_mod_pos_bound,
};

verus! {

/// The cell at row-major storage index `i` of a board with `cols` columns.
pub open spec fn pos_at(cols: int, i: int) -> Pos {
    Pos { x: (i % cols) as usize, y: (i / cols) as usize }
}

/// The row-major storage index of a cell on a board with `cols` columns.
pub open spec fn cell_index(cols: int, p: Pos) -> int {
    p.y * cols + p.x
}

/// The cell visited at step `k` of the column-major scan: columns left to
/// right, each column top to bottom.
pub open spec fn scan_cell(rows: int, k: int) -> Pos {
    Pos { x: (k / rows) as usize, y: (k % rows) as usize }
}

/// The scan step at which a cell is visited.
pub open spec fn scan_step(rows: int, p: Pos) -> int {
    p.x * rows + p.y
}

/// The storage index of the cell visited at scan step `k`.
pub open spec fn scan_index(rows: int, cols: int, k: int) -> int {
    cell_index(cols, scan_cell(rows, k))
}

/// How many of the first `k` stored tiles equal `t`.
pub open spec fn count_in_prefix(tiles: Seq<Tile>, t: Tile, k: int) -> nat
    decreases k,
{
    if k <= 0 {
        0
    } else {
        count_in_prefix(tiles, t, k - 1) + (if tiles[k - 1] == t {
            1nat
        } else {
            0nat
        })
    }
}

/// How many tiles of the layout equal `t`.
pub open spec fn count_tile(tiles: Seq<Tile>, t: Tile) -> nat {
    count_in_prefix(tiles, t, tiles.len() as int)
}

/// The positions of the Robot tiles among the first `k` scanned cells, in
/// scanning order: increasing x, then increasing y.
pub open spec fn robots_in_prefix(tiles: Seq<Tile>, rows: int, cols: int, k: int) -> Seq<Pos>
    decreases k,
{
    if k <= 0 {
        Seq::empty()
    } else if tiles[scan_index(rows, cols, k - 1)] == Tile::Robot {
        robots_in_prefix(tiles, rows, cols, k - 1).push(scan_cell(rows, k - 1))
    } else {
        robots_in_prefix(tiles, rows, cols, k - 1)
    }
}

/// The positions of all Robot tiles of the layout, in scanning order.
pub open spec fn robot_cells(tiles: Seq<Tile>, rows: int, cols: int) -> Seq<Pos> {
    robots_in_prefix(tiles, rows, cols, rows * cols)
}

proof fn lemma_pos_at_props(rows: int, cols: int, i: int)
    requires
        0 < cols <= usize::MAX,
        rows <= usize::MAX,
        0 <= i < rows * cols,
    ensures
        pos_at(cols, i).x < cols,
        pos_at(cols, i).y < rows,
        cell_index(cols, pos_at(cols, i)) == i,
{
    lemma_fundamental_div_mod(i, cols);
    lemma_mod_pos_bound(i, cols);
    let q: int = i / cols;
    let r: int = i % cols;
    assert(0 <= q && q < rows) by (nonlinear_arith)
        requires
            i == cols * q + r,
            0 <= r < cols,
            0 < cols,
            0 <= i,
            i < rows * cols,
    ;
    assert(q * cols + r == i) by (nonlinear_arith)
        requires
            i == cols * q + r,
    ;
}

proof fn lemma_cell_index_props(rows: int, cols: int, p: Pos)
    requires
        0 < cols,
        p.x < cols,
        p.y < rows,
    ensures
        0 <= cell_index(cols, p) < rows * cols,
        pos_at(cols, cell_index(cols, p)) == p,
{
    let i: int = p.y * cols + p.x;
    assert(0 <= i < rows * cols) by (nonlinear_arith)
        requires
            0 < cols,
            0 <= p.x < cols,
            0 <= p.y < rows,
            i == p.y * cols + p.x,
    ;
    lemma_fundamental_div_mod_converse(i, cols, p.y as int, p.x as int);
}

proof fn lemma_scan_cell_props(rows: int, cols: int, k: int)
    requires
        0 < rows <= usize::MAX,
        cols <= usize::MAX,
        0 <= k < rows * cols,
    ensures
        scan_cell(rows, k).x < cols,
        scan_cell(rows, k).y < rows,
        scan_step(rows, scan_cell(rows, k)) == k,
{
    lemma_fundamental_div_mod(k, rows);
    lemma_mod_pos_bound(k, rows);
    let q: int = k / rows;
    let r: int = k % rows;
    assert(0 <= q && q < cols) by (nonlinear_arith)
        requires
            k == rows * q + r,
            0 <= r < rows,
            0 < rows,
            0 <= k,
            k < rows * cols,
    ;
    assert(q * rows + r == k) by (nonlinear_arith)
        requires
            k == rows * q + r,
    ;
}

proof fn lemma_scan_step_props(rows: int, cols: int, p: Pos)
    requires
        0 < rows,
        p.x < cols,
        p.y < rows,
    ensures
        0 <= scan_step(rows, p) < rows * cols,
        scan_cell(rows, scan_step(rows, p)) == p,
{
    let k: int = p.x * rows + p.y;
    assert(0 <= k < rows * cols) by (nonlinear_arith)
        requires
            0 < rows,
            0 <= p.y < rows,
            0 <= p.x < cols,
            k == p.x * rows + p.y,
    ;
    lemma_fundamental_div_mod_converse(k, rows, p.x as int, p.y as int);
}

proof fn lemma_count_mono(tiles: Seq<Tile>, t: Tile, k1: int, k2: int)
    requires
        0 <= k1 <= k2,
    ensures
        count_in_prefix(tiles, t, k1) <= count_in_prefix(tiles, t, k2),
    decreases k2,
{
    if k1 < k2 {
        lemma_count_mono(tiles, t, k1, k2 - 1);
    }
}

proof fn lemma_two_occurrences(tiles: Seq<Tile>, t: Tile, i: int, j: int)
    requires
        0 <= i < j < tiles.len(),
        tiles[i] == t,
        tiles[j] == t,
    ensures
        count_tile(tiles, t) >= 2,
{
    assert(count_in_prefix(tiles, t, i + 1) >= 1);
    lemma_count_mono(tiles, t, i + 1, j);
    assert(count_in_prefix(tiles, t, j + 1) >= 2);
    lemma_count_mono(tiles, t, j + 1, tiles.len() as int);
}

proof fn lemma_count_none(tiles: Seq<Tile>, t: Tile, k: int)
    requires
        0 <= k <= tiles.len(),
        forall|j: int| 0 <= j < k ==> tiles[j] != t,
    ensures
        count_in_prefix(tiles, t, k) == 0,
    decreases k,
{
    if k > 0 {
        lemma_count_none(tiles, t, k - 1);
    }
}

proof fn lemma_count_single(tiles: Seq<Tile>, t: Tile, i0: int, k: int)
    requires
        0 <= i0 < k <= tiles.len(),
        tiles[i0] == t,
        forall|j: int| 0 <= j < k && j != i0 ==> tiles[j] != t,
    ensures
        count_in_prefix(tiles, t, k) == 1,
    decreases k,
{
    if i0 == k - 1 {
        lemma_count_none(tiles, t, k - 1);
    } else {
        lemma_count_single(tiles, t, i0, k - 1);
    }
}

/// No scanned cell holds `t`, so no stored tile is `t` at all.
proof fn lemma_scan_covers_none(rows: int, cols: int, tiles: Seq<Tile>, t: Tile)
    requires
        0 < rows <= usize::MAX,
        0 < cols <= usize::MAX,
        tiles.len() == rows * cols,
        forall|k1: int|
            0 <= k1 < rows * cols ==> tiles[#[trigger] scan_index(rows, cols, k1)] != t,
    ensures
        count_tile(tiles, t) == 0,
{
    assert forall|j: int| 0 <= j < tiles.len() implies tiles[j] != t by {
        lemma_pos_at_props(rows, cols, j);
        let p0 = pos_at(cols, j);
        lemma_scan_step_props(rows, cols, p0);
        let k1: int = scan_step(rows, p0);
        assert(scan_index(rows, cols, k1) == j);
        assert(tiles[scan_index(rows, cols, k1)] != t);
    }
    lemma_count_none(tiles, t, tiles.len() as int);
}

/// The scan met `t` exactly once, at the cell `a`: then `a` is the one cell
/// of the whole layout holding `t`.
proof fn lemma_scan_covers_unique(rows: int, cols: int, tiles: Seq<Tile>, t: Tile, a: Pos)
    requires
        0 < rows <= usize::MAX,
        0 < cols <= usize::MAX,
        tiles.len() == rows * cols,
        exists|k0: int|
            0 <= k0 < rows * cols && tiles[#[trigger] scan_index(rows, cols, k0)] == t && a
                == scan_cell(rows, k0),
        forall|k1: int|
            0 <= k1 < rows * cols && tiles[#[trigger] scan_index(rows, cols, k1)] == t ==> a
                == scan_cell(rows, k1),
    ensures
        count_tile(tiles, t) == 1,
        a.x < cols && a.y < rows,
        tiles[cell_index(cols, a)] == t,
        forall|p: Pos|
            p.x < cols && p.y < rows && tiles[#[trigger] cell_index(cols, p)] == t ==> p == a,
{
    let k0: int = choose|k0: int|
        0 <= k0 < rows * cols && tiles[#[trigger] scan_index(rows, cols, k0)] == t && a
            == scan_cell(rows, k0);
    lemma_scan_cell_props(rows, cols, k0);
    lemma_cell_index_props(rows, cols, a);
    let i0: int = cell_index(cols, a);
    assert(tiles[i0] == t);
    assert forall|p: Pos|
        p.x < cols && p.y < rows && tiles[#[trigger] cell_index(cols, p)] == t implies p == a by {
        lemma_scan_step_props(rows, cols, p);
        let k1: int = scan_step(rows, p);
        assert(scan_index(rows, cols, k1) == cell_index(cols, p));
        assert(a == scan_cell(rows, k1));
    }
    assert forall|j: int| 0 <= j < tiles.len() && j != i0 implies tiles[j] != t by {
        lemma_pos_at_props(rows, cols, j);
        let p0 = pos_at(cols, j);
        if tiles[j] == t {
            assert(p0 == a);
            assert(cell_index(cols, p0) == j);
        }
    }
    lemma_count_single(tiles, t, i0, tiles.len() as int);
}

proof fn lemma_robots_prefix_member(tiles: Seq<Tile>, rows: int, cols: int, k: int, p: Pos)
    requires
        0 <= k,
    ensures
        robots_in_prefix(tiles, rows, cols, k).contains(p) <==> exists|k0: int|
            0 <= k0 < k && tiles[#[trigger] scan_index(rows, cols, k0)] == Tile::Robot && p
                == scan_cell(rows, k0),
    decreases k,
{
    if k <= 0 {
    } else {
        lemma_robots_prefix_member(tiles, rows, cols, k - 1, p);
        let prev = robots_in_prefix(tiles, rows, cols, k - 1);
        if tiles[scan_index(rows, cols, k - 1)] == Tile::Robot {
            let cur = prev.push(scan_cell(rows, k - 1));
            if cur.contains(p) {
                let idx: int = choose|idx: int| 0 <= idx < cur.len() && cur[idx] == p;
                if idx < prev.len() {
                    assert(prev[idx] == p);
                } else {
                    assert(p == scan_cell(rows, k - 1));
                    assert(tiles[scan_index(rows, cols, k - 1)] == Tile::Robot && p == scan_cell(
                        rows,
                        k - 1,
                    ));
                }
            }
            if exists|k0: int|
                0 <= k0 < k && tiles[#[trigger] scan_index(rows, cols, k0)] == Tile::Robot && p
                    == scan_cell(rows, k0) {
                let k0: int = choose|k0: int|
                    0 <= k0 < k && tiles[#[trigger] scan_index(rows, cols, k0)] == Tile::Robot && p
                        == scan_cell(rows, k0);
                if k0 < k - 1 {
                    let idx: int = choose|idx: int| 0 <= idx < prev.len() && prev[idx] == p;
                    assert(cur[idx] == p);
                } else {
                    assert(cur[prev.len() as int] == p);
                }
            }
        } else {
            if exists|k0: int|
                0 <= k0 < k && tiles[#[trigger] scan_index(rows, cols, k0)] == Tile::Robot && p
                    == scan_cell(rows, k0) {
                let k0: int = choose|k0: int|
                    0 <= k0 < k && tiles[#[trigger] scan_index(rows, cols, k0)] == Tile::Robot && p
                        == scan_cell(rows, k0);
                assert(0 <= k0 < k - 1 && tiles[scan_index(rows, cols, k0)] == Tile::Robot && p
                    == scan_cell(rows, k0));
            }
        }
    }
}

impl State {
    /// Build the initial state of a puzzle from a row-major layout of
    /// `rows * cols` tiles.  The layout must show exactly one astronaut and
    /// exactly one goal; robots may appear anywhere and are numbered in
    /// scanning order: increasing x, then increasing y.
    pub fn from_grid(rows: usize, cols: usize, tiles: &Vec<Tile>) -> (r: Result<
        State,
        StateError,
    >)
        requires
            tiles@.len() == rows * cols,
        ensures
            r is Ok <==> (count_tile(tiles@, Tile::Astro) == 1 && count_tile(tiles@, Tile::Goal)
                == 1),
            match r {
                Ok(s) => {
                    &&& s@.invariants.rows == rows
                    &&& s@.invariants.cols == cols
                    &&& s@.wf()
                    &&& s@.robots == robot_cells(tiles@, rows as int, cols as int)
                    &&& forall|p: Pos|
                        s@.in_bounds(p) ==> s@.tile_at(p) == tiles@[cell_index(cols as int, p)]
                },
                Err(e) => {
                    &&& (e == StateError::NoPlayer <==> (count_tile(tiles@, Tile::Astro) == 0
                        && count_tile(tiles@, Tile::Goal) <= 1))
                    &&& (e == StateError::NoGoal <==> (count_tile(tiles@, Tile::Astro) == 1
                        && count_tile(tiles@, Tile::Goal) == 0))
                    &&& (e == StateError::MoreThanOnePlayer ==> count_tile(tiles@, Tile::Astro)
                        >= 2)
                    &&& (e == StateError::MoreThanOneGoal ==> count_tile(tiles@, Tile::Goal) >= 2)
                    &&& (e == StateError::MoreThanOnePlayer || e == StateError::MoreThanOneGoal
                        || e == StateError::NoPlayer || e == StateError::NoGoal)
                },
            },
    {
        let ghost ri: int = rows as int;
        let ghost ci: int = cols as int;
        let total: usize = tiles.len();
        let mut astro_opt: Option<Pos> = None;
        let mut goal_opt: Option<Pos> = None;
        let mut robots: Vec<Pos> = Vec::new();
        let mut k: usize = 0;
        while k < total
            invariant
                ri == rows as int,
                ci == cols as int,
                total == tiles@.len(),
                tiles@.len() == rows * cols,
                k <= total,
                robots@ == robots_in_prefix(tiles@, ri, ci, k as int),
                forall|j: int|
                    0 <= j < robots@.len() ==> (#[trigger] robots@[j]).x < cols && robots@[j].y
                        < rows,
                match astro_opt {
                    Some(a) => a.x < cols && a.y < rows && (exists|k0: int|
                        0 <= k0 < k && tiles@[#[trigger] scan_index(ri, ci, k0)] == Tile::Astro
                            && a == scan_cell(ri, k0)) && (forall|k1: int|
                        0 <= k1 < k && tiles@[#[trigger] scan_index(ri, ci, k1)] == Tile::Astro
                            ==> a == scan_cell(ri, k1)),
                    None => forall|k1: int|
                        0 <= k1 < k ==> tiles@[#[trigger] scan_index(ri, ci, k1)] != Tile::Astro,
                },
                match goal_opt {
                    Some(g) => g.x < cols && g.y < rows && (exists|k0: int|
                        0 <= k0 < k && tiles@[#[trigger] scan_index(ri, ci, k0)] == Tile::Goal && g
                            == scan_cell(ri, k0)) && (forall|k1: int|
                        0 <= k1 < k && tiles@[#[trigger] scan_index(ri, ci, k1)] == Tile::Goal
                            ==> g == scan_cell(ri, k1)),
                    None => forall|k1: int|
                        0 <= k1 < k ==> tiles@[#[trigger] scan_index(ri, ci, k1)] != Tile::Goal,
                },
            decreases total - k,
        {
            proof {
                assert(rows > 0 && cols > 0) by (nonlinear_arith)
                    requires
                        0 <= k < total,
                        total == rows * cols,
                ;
                lemma_scan_cell_props(ri, ci, k as int);
                lemma_cell_index_props(ri, ci, scan_cell(ri, k as int));
            }
            let x: usize = k / rows;
            let y: usize = k % rows;
            let p = Pos { x, y };
            assert(p == scan_cell(ri, k as int));
            let si: usize = y * cols + x;
            assert(si as int == scan_index(ri, ci, k as int));
            match tiles[si] {
                Tile::Empty => {},
                Tile::Astro => {
                    if astro_opt.is_some() {
                        proof {
                            let a = astro_opt->0;
                            let k0: int = choose|k0: int|
                                0 <= k0 < k && tiles@[#[trigger] scan_index(ri, ci, k0)]
                                    == Tile::Astro && a == scan_cell(ri, k0);
                            lemma_scan_cell_props(ri, ci, k0);
                            lemma_cell_index_props(ri, ci, scan_cell(ri, k0));
                            let i0: int = scan_index(ri, ci, k0);
                            let i1: int = scan_index(ri, ci, k as int);
                            assert(i0 != i1) by {
                                if i0 == i1 {
                                    assert(pos_at(ci, i0) == scan_cell(ri, k0));
                                    assert(pos_at(ci, i1) == scan_cell(ri, k as int));
                                    assert(scan_step(ri, scan_cell(ri, k0)) == k0);
                                    assert(scan_step(ri, scan_cell(ri, k as int)) == k as int);
                                }
                            }
                            if i0 < i1 {
                                lemma_two_occurrences(tiles@, Tile::Astro, i0, i1);
                            } else {
                                lemma_two_occurrences(tiles@, Tile::Astro, i1, i0);
                            }
                        }
                        return Err(StateError::MoreThanOnePlayer);
                    }
                    astro_opt = Some(p);
                },
                Tile::Robot => {
                    robots.push(p);
                },
                Tile::Goal => {
                    if goal_opt.is_some() {
                        proof {
                            let g = goal_opt->0;
                            let k0: int = choose|k0: int|
                                0 <= k0 < k && tiles@[#[trigger] scan_index(ri, ci, k0)]
                                    == Tile::Goal && g == scan_cell(ri, k0);
                            lemma_scan_cell_props(ri, ci, k0);
                            lemma_cell_index_props(ri, ci, scan_cell(ri, k0));
                            let i0: int = scan_index(ri, ci, k0);
                            let i1: int = scan_index(ri, ci, k as int);
                            assert(i0 != i1) by {
                                if i0 == i1 {
                                    assert(pos_at(ci, i0) == scan_cell(ri, k0));
                                    assert(pos_at(ci, i1) == scan_cell(ri, k as int));
                                    assert(scan_step(ri, scan_cell(ri, k0)) == k0);
                                    assert(scan_step(ri, scan_cell(ri, k as int)) == k as int);
                                }
                            }
                            if i0 < i1 {
                                lemma_two_occurrences(tiles@, Tile::Goal, i0, i1);
                            } else {
                                lemma_two_occurrences(tiles@, Tile::Goal, i1, i0);
                            }
                        }
                        return Err(StateError::MoreThanOneGoal);
                    }
                    goal_opt = Some(p);
                },
            }
            k = k + 1;
        }
        proof {
            if tiles@.len() > 0 {
                assert(rows > 0 && cols > 0) by (nonlinear_arith)
                    requires
                        tiles@.len() == rows * cols,
                        tiles@.len() > 0,
                ;
            }
            match astro_opt {
                Some(a) => {
                    lemma_scan_covers_unique(ri, ci, tiles@, Tile::Astro, a);
                },
                None => {
                    if tiles@.len() > 0 {
                        lemma_scan_covers_none(ri, ci, tiles@, Tile::Astro);
                    }
                },
            }
            match goal_opt {
                Some(g) => {
                    lemma_scan_covers_unique(ri, ci, tiles@, Tile::Goal, g);
                },
                None => {
                    if tiles@.len() > 0 {
                        lemma_scan_covers_none(ri, ci, tiles@, Tile::Goal);
                    }
                },
            }
        }
        let astro = match astro_opt {
            Some(a) => a,
            None => {
                return Err(StateError::NoPlayer);
            },
        };
        let goal = match goal_opt {
            Some(g) => g,
            None => {
                return Err(StateError::NoGoal);
            },
        };
        let s = State { astro, robots, invariants: Invariants { goal, rows, cols } };
        proof {
            let t = tiles@;
            assert forall|p: Pos| s@.in_bounds(p) implies s@.tile_at(p) == t[cell_index(ci, p)] by {
                lemma_cell_index_props(ri, ci, p);
                let li: int = cell_index(ci, p);
                lemma_scan_step_props(ri, ci, p);
                let kp: int = scan_step(ri, p);
                assert(scan_index(ri, ci, kp) == li);
                lemma_robots_prefix_member(t, ri, ci, k as int, p);
                if t[li] == Tile::Astro {
                    assert(p == astro);
                } else {
                    if p == astro {
                        assert(t[cell_index(ci, astro)] == Tile::Astro);
                        assert(false);
                    }
                }
                if t[li] == Tile::Robot {
                    assert(t[scan_index(ri, ci, kp)] == Tile::Robot && p == scan_cell(ri, kp));
                    assert(s@.robots.contains(p));
                } else {
                    if s@.robots.contains(p) {
                        let k0: int = choose|k0: int|
                            0 <= k0 < k && t[#[trigger] scan_index(ri, ci, k0)] == Tile::Robot && p
                                == scan_cell(ri, k0);
                        lemma_scan_cell_props(ri, ci, k0);
                        assert(scan_step(ri, scan_cell(ri, k0)) == k0);
                        assert(k0 == kp);
                        assert(false);
                    }
                }
                if t[li] == Tile::Goal {
                    assert(p == goal);
                } else {
                    if p == goal {
                        assert(t[cell_index(ci, goal)] == Tile::Goal);
                        assert(false);
                    }
                }
            }
        }
        Ok(s)
    }
}

} // verus!
