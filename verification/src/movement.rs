//! The movement resolver: an actor slides in a straight line, one cell at a
//! time, until the next cell would be off the board or occupied by another
//! actor, and lands on the last free cell before that obstruction.  The goal
//! cell neither stops nor redirects motion.

use vstd::prelude::*;

use crate::state::{Direction, MovementAttempt, Pos, State, StateV};

verus! {

/// How many cells lie strictly between `from` and the board edge in
/// direction `d`: the length of the scanned path.
pub open spec fn path_len(v: StateV, from: Pos, d: Direction) -> nat {
    match d {
        Direction::Up => from.y as nat,
        Direction::Down => if from.y < v.invariants.rows {
            (v.invariants.rows - from.y - 1) as nat
        } else {
            0
        },
        Direction::Left => from.x as nat,
        Direction::Right => if from.x < v.invariants.cols {
            (v.invariants.cols - from.x - 1) as nat
        } else {
            0
        },
    }
}

/// The `i`th cell scanned when sliding from `from` in direction `d`,
/// starting one step ahead of `from`.
pub open spec fn path_cell(from: Pos, d: Direction, i: int) -> Pos {
    match d {
        Direction::Up => Pos { x: from.x, y: (from.y - 1 - i) as usize },
        Direction::Down => Pos { x: from.x, y: (from.y + 1 + i) as usize },
        Direction::Left => Pos { x: (from.x - 1 - i) as usize, y: from.y },
        Direction::Right => Pos { x: (from.x + 1 + i) as usize, y: from.y },
    }
}

/// The whole scanned path, in scanning order.
pub open spec fn path_seq(v: StateV, from: Pos, d: Direction) -> Seq<Pos> {
    Seq::new(path_len(v, from, d), |i: int| path_cell(from, d, i))
}

/// The index of the landing cell within a path whose cell `j` is free: the
/// first `j` such that the next cell is past the edge or occupied.
pub open spec fn stop_from(v: StateV, path: Seq<Pos>, j: int) -> int
    decreases path.len() - j,
{
    if j + 1 >= path.len() {
        j
    } else if v.occupied(path[j + 1]) {
        j
    } else {
        stop_from(v, path, j + 1)
    }
}

/// What a slide yields: `Failure` exactly when the path is empty (the actor
/// already stands at the edge) or its first cell is occupied; otherwise the
/// landing cell at the stop index.
pub open spec fn move_spec(v: StateV, from: Pos, d: Direction) -> MovementAttempt {
    let path = path_seq(v, from, d);
    if path.len() == 0 || v.occupied(path[0]) {
        MovementAttempt::Failure
    } else {
        MovementAttempt::Success(path[stop_from(v, path, 0)])
    }
}

/// The stop index lies within the path, its cell is followed by the edge or
/// an occupied cell, and no cell after `j` up to it is occupied.
pub proof fn lemma_stop_from_props(v: StateV, path: Seq<Pos>, j: int)
    requires
        0 <= j < path.len(),
    ensures
        j <= stop_from(v, path, j) < path.len(),
        stop_from(v, path, j) + 1 == path.len() || v.occupied(path[stop_from(v, path, j) + 1]),
        forall|k: int| j < k <= stop_from(v, path, j) ==> !v.occupied(#[trigger] path[k]),
    decreases path.len() - j,
{
    if j + 1 >= path.len() {
    } else if v.occupied(path[j + 1]) {
    } else {
        lemma_stop_from_props(v, path, j + 1);
    }
}

/// Any index with the stop property is the stop index: uniqueness.
pub proof fn lemma_stop_from_unique(v: StateV, path: Seq<Pos>, m: int, j: int)
    requires
        0 <= m <= j < path.len(),
        j + 1 == path.len() || v.occupied(path[j + 1]),
        forall|k: int| m < k <= j ==> !v.occupied(#[trigger] path[k]),
    ensures
        stop_from(v, path, m) == j,
    decreases j - m,
{
    if m == j {
    } else {
        assert(!v.occupied(path[m + 1]));
        lemma_stop_from_unique(v, path, m + 1, j);
    }
}

impl State {
    /// The cells scanned when sliding from `path_start` toward the edge in
    /// `movement_direction`, nearest first.
    pub fn positions_in_path(&self, path_start: Pos, movement_direction: Direction) -> (r: Vec<
        Pos,
    >)
        requires
            self@.in_bounds(path_start),
        ensures
            r@ == path_seq(self@, path_start, movement_direction),
    {
        let mut out: Vec<Pos> = Vec::new();
        match movement_direction {
            Direction::Up => {
                let mut i: usize = 0;
                while i < path_start.y
                    invariant
                        i <= path_start.y,
                        out@.len() == i,
                        forall|k: int|
                            0 <= k < i ==> out@[k] == path_cell(path_start, Direction::Up, k),
                    decreases path_start.y - i,
                {
                    out.push(Pos { x: path_start.x, y: path_start.y - 1 - i });
                    i = i + 1;
                }
            },
            Direction::Down => {
                let rows = self.invariants.rows;
                let mut i: usize = 0;
                while i < rows - path_start.y - 1
                    invariant
                        path_start.y < rows,
                        i <= rows - path_start.y - 1,
                        out@.len() == i,
                        forall|k: int|
                            0 <= k < i ==> out@[k] == path_cell(path_start, Direction::Down, k),
                    decreases rows - path_start.y - 1 - i,
                {
                    out.push(Pos { x: path_start.x, y: path_start.y + 1 + i });
                    i = i + 1;
                }
            },
            Direction::Left => {
                let mut i: usize = 0;
                while i < path_start.x
                    invariant
                        i <= path_start.x,
                        out@.len() == i,
                        forall|k: int|
                            0 <= k < i ==> out@[k] == path_cell(path_start, Direction::Left, k),
                    decreases path_start.x - i,
                {
                    out.push(Pos { x: path_start.x - 1 - i, y: path_start.y });
                    i = i + 1;
                }
            },
            Direction::Right => {
                let cols = self.invariants.cols;
                let mut i: usize = 0;
                while i < cols - path_start.x - 1
                    invariant
                        path_start.x < cols,
                        i <= cols - path_start.x - 1,
                        out@.len() == i,
                        forall|k: int|
                            0 <= k < i ==> out@[k] == path_cell(path_start, Direction::Right, k),
                    decreases cols - path_start.x - 1 - i,
                {
                    out.push(Pos { x: path_start.x + 1 + i, y: path_start.y });
                    i = i + 1;
                }
            },
        }
        proof {
            assert(out@ =~= path_seq(self@, path_start, movement_direction));
        }
        out
    }

    /// Resolve one slide of the actor standing at `current_pos`.
    pub fn move_toward(&self, current_pos: Pos, direction: Direction) -> (r: MovementAttempt)
        requires
            self@.in_bounds(current_pos),
        ensures
            r == move_spec(self@, current_pos, direction),
    {
        let path = self.positions_in_path(current_pos, direction);
        if path.len() == 0 {
            return MovementAttempt::Failure;
        }
        if self.is_occupied(path[0]) {
            return MovementAttempt::Failure;
        }
        let ghost pathv = path@;
        let mut j: usize = 0;
        loop
            invariant
                path@ == pathv,
                pathv == path_seq(self@, current_pos, direction),
                0 <= j < pathv.len(),
                forall|k: int| 0 < k <= j ==> !self@.occupied(#[trigger] pathv[k]),
            ensures
                0 <= j < pathv.len(),
                j + 1 == pathv.len() || self@.occupied(pathv[j + 1]),
                forall|k: int| 0 < k <= j ==> !self@.occupied(#[trigger] pathv[k]),
            decreases pathv.len() - j,
        {
            if j + 1 >= path.len() {
                break;
            }
            if self.is_occupied(path[j + 1]) {
                break;
            }
            j = j + 1;
        }
        proof {
            lemma_stop_from_unique(self@, pathv, 0, j as int);
        }
        MovementAttempt::Success(path[j])
    }
}

/// Law: an actor standing at the board edge in the direction of movement,
/// with nothing further to traverse, cannot move.
pub proof fn lemma_move_at_edge_fails(v: StateV, from: Pos, d: Direction)
    requires
        v.in_bounds(from),
        match d {
            Direction::Up => from.y == 0,
            Direction::Down => from.y + 1 == v.invariants.rows,
            Direction::Left => from.x == 0,
            Direction::Right => from.x + 1 == v.invariants.cols,
        },
    ensures
        move_spec(v, from, d) == MovementAttempt::Failure,
{
    assert(path_len(v, from, d) == 0);
}

/// Law: an actor immediately adjacent, in the direction of movement, to
/// another actor cannot move.
pub proof fn lemma_move_blocked_adjacent_fails(v: StateV, from: Pos, d: Direction)
    requires
        v.in_bounds(from),
        path_len(v, from, d) > 0,
        v.occupied(path_cell(from, d, 0)),
    ensures
        move_spec(v, from, d) == MovementAttempt::Failure,
{
    assert(path_seq(v, from, d)[0] == path_cell(from, d, 0));
}

/// Law: a successful slide stays on the actor's row or column, strictly
/// advances toward the board edge, and the cell immediately beyond the
/// landing position is off the board or occupied by an actor.
pub proof fn lemma_move_success_blocked_beyond(v: StateV, from: Pos, d: Direction, p: Pos)
    requires
        v.in_bounds(from),
        move_spec(v, from, d) == MovementAttempt::Success(p),
    ensures
        match d {
            Direction::Up => p.x == from.x && p.y < from.y,
            Direction::Down => p.x == from.x && p.y > from.y,
            Direction::Left => p.y == from.y && p.x < from.x,
            Direction::Right => p.y == from.y && p.x > from.x,
        },
        match d {
            Direction::Up => p.y == 0 || v.occupied(Pos { x: p.x, y: (p.y - 1) as usize }),
            Direction::Down => p.y + 1 == v.invariants.rows || v.occupied(
                Pos { x: p.x, y: (p.y + 1) as usize },
            ),
            Direction::Left => p.x == 0 || v.occupied(Pos { x: (p.x - 1) as usize, y: p.y }),
            Direction::Right => p.x + 1 == v.invariants.cols || v.occupied(
                Pos { x: (p.x + 1) as usize, y: p.y },
            ),
        },
{
    let path = path_seq(v, from, d);
    lemma_stop_from_props(v, path, 0);
    let si: int = stop_from(v, path, 0);
    assert(p == path_cell(from, d, si));
    if si + 1 < path.len() {
        assert(path[si + 1] == path_cell(from, d, si + 1));
    }
}

/// A successful slide lands on the board.
pub proof fn lemma_move_success_in_bounds(v: StateV, from: Pos, d: Direction, p: Pos)
    requires
        v.in_bounds(from),
        move_spec(v, from, d) == MovementAttempt::Success(p),
    ensures
        v.in_bounds(p),
{
    let path = path_seq(v, from, d);
    lemma_stop_from_props(v, path, 0);
    let si: int = stop_from(v, path, 0);
    assert(p == path_cell(from, d, si));
}

} // verus!
