//! Per-step diffs of a solution path: for two consecutive states of one
//! puzzle, the single actor whose position differs, with its before and
//! after positions.

use vstd::prelude::*;

use crate::movement::{lemma_stop_from_props, move_spec, path_cell, path_len, path_seq, stop_from};
use crate::solver::{is_move, is_solution, move_result_state};
use crate::state::{Direction, MovementAttempt, Pos, Selection, State, StateError, StateV};

verus! {

/// The before and after positions of the one actor that moved between two
/// consecutive states.
#[derive(Debug, Clone, Copy, PartialEq, Eq, Structural)]
pub struct PosChange(pub Pos, pub Pos);

/// The first index at or after `i` where the two robot lists differ, or
/// `a.len()` when they agree everywhere from `i` on.
pub open spec fn first_diff_from(a: Seq<Pos>, b: Seq<Pos>, i: int) -> int
    decreases a.len() - i,
{
    if i >= a.len() {
        a.len() as int
    } else if a[i] != b[i] {
        i
    } else {
        first_diff_from(a, b, i + 1)
    }
}

/// What diffing two states yields: the states must share invariants and
/// robot count and must differ somewhere; the astronaut's change is reported
/// before any robot's, and of the robots the first differing index wins.
pub open spec fn pos_change_spec(s: StateV, t: StateV) -> Result<PosChange, StateError> {
    if s.invariants != t.invariants {
        Err(StateError::InvariantsDiffer)
    } else if s.robots.len() != t.robots.len() {
        Err(StateError::RobotCountDiffers)
    } else if s.astro != t.astro {
        Ok(PosChange(s.astro, t.astro))
    } else if first_diff_from(s.robots, t.robots, 0) < s.robots.len() {
        let i: int = first_diff_from(s.robots, t.robots, 0);
        Ok(PosChange(s.robots[i], t.robots[i]))
    } else {
        Err(StateError::StatesEqual)
    }
}

proof fn lemma_first_diff_finds(a: Seq<Pos>, b: Seq<Pos>, m: int, k: int)
    requires
        0 <= m <= k < a.len(),
        a[k] != b[k],
    ensures
        first_diff_from(a, b, m) <= k,
    decreases k - m,
{
    if m < k && a[m] == b[m] {
        lemma_first_diff_finds(a, b, m + 1, k);
    }
}

proof fn lemma_first_diff_unique(a: Seq<Pos>, b: Seq<Pos>, m: int, j: int)
    requires
        0 <= m <= j <= a.len(),
        forall|k: int| m <= k < j ==> a[k] == b[k],
        j == a.len() || a[j] != b[j],
    ensures
        first_diff_from(a, b, m) == j,
    decreases j - m,
{
    if m < j {
        lemma_first_diff_unique(a, b, m + 1, j);
    }
}

/// Law: consecutive states of a solution path always diff cleanly: the one
/// slide between them keeps the invariants and the robot count and moves an
/// actor strictly away from its cell, so diffing them yields a change and
/// never an error.
pub proof fn lemma_solution_steps_diff_cleanly(v: StateV, p: Seq<StateV>, i: int)
    requires
        is_solution(v, p),
        0 <= i < p.len() - 1,
    ensures
        pos_change_spec(p[i], p[i + 1]) is Ok,
{
    let s = p[i];
    let t = p[i + 1];
    assert(is_move(s, t));
    let (sel, d) = choose|sel: Selection, d: Direction|
        s.valid_sel(sel) && #[trigger] move_result_state(s, sel, d) == Some(t);
    let from = s.sel_pos(sel);
    let att = move_spec(s, from, d);
    match att {
        MovementAttempt::Success(np) => {
            assert(t == s.with_sel_pos(sel, np));
            let path = path_seq(s, from, d);
            lemma_stop_from_props(s, path, 0);
            let si: int = stop_from(s, path, 0);
            assert(np == path_cell(from, d, si));
            assert(np != from) by {
                match d {
                    Direction::Up => {
                        assert(0 <= si < from.y);
                        assert(np.y < from.y);
                    },
                    Direction::Down => {
                        assert(from.y < s.invariants.rows);
                        assert(si < s.invariants.rows - from.y - 1);
                        assert(np.y > from.y);
                    },
                    Direction::Left => {
                        assert(0 <= si < from.x);
                        assert(np.x < from.x);
                    },
                    Direction::Right => {
                        assert(from.x < s.invariants.cols);
                        assert(si < s.invariants.cols - from.x - 1);
                        assert(np.x > from.x);
                    },
                }
            }
            match sel {
                Selection::Astro => {
                    assert(t.astro != s.astro);
                },
                Selection::Robot(n) => {
                    assert(t.astro == s.astro);
                    assert(t.robots[n as int] == np);
                    assert(s.robots[n as int] == from);
                    lemma_first_diff_finds(s.robots, t.robots, 0, n as int);
                },
            }
        },
        MovementAttempt::Failure => {
            assert(false);
        },
    }
}

impl PosChange {
    /// Diff two consecutive states of one puzzle: report the single changed
    /// actor's before and after positions.
    pub fn try_from(s: &State, t: &State) -> (r: Result<PosChange, StateError>)
        ensures
            r == pos_change_spec(s@, t@),
    {
        if !(s.invariants == t.invariants) {
            return Err(StateError::InvariantsDiffer);
        }
        if s.robots.len() != t.robots.len() {
            return Err(StateError::RobotCountDiffers);
        }
        if !(s.astro == t.astro) {
            return Ok(PosChange(s.astro, t.astro));
        }
        let n: usize = s.robots.len();
        let mut i: usize = 0;
        while i < n
            invariant
                s@.invariants == t@.invariants,
                s@.astro == t@.astro,
                n == s@.robots.len(),
                n == t@.robots.len(),
                i <= n,
                forall|k: int| 0 <= k < i ==> s@.robots[k] == t@.robots[k],
            decreases n - i,
        {
            if !(s.robots[i] == t.robots[i]) {
                proof {
                    lemma_first_diff_unique(s@.robots, t@.robots, 0, i as int);
                }
                return Ok(PosChange(s.robots[i], t.robots[i]));
            }
            i = i + 1;
        }
        proof {
            lemma_first_diff_unique(s@.robots, t@.robots, 0, n as int);
        }
        Err(StateError::StatesEqual)
    }
}

impl State {
    /// The full sequence of per-step diffs of a path, or the first failure:
    /// consecutive states that belong to different puzzles, differ in robot
    /// count, or are identical.
    pub fn pos_changes(states: &Vec<State>) -> (r: Result<Vec<PosChange>, StateError>)
        ensures
            match r {
                Ok(v) => {
                    &&& v@.len() == (if states@.len() == 0 {
                        0int
                    } else {
                        states@.len() - 1
                    })
                    &&& forall|i: int|
                        0 <= i < v@.len() ==> #[trigger] pos_change_spec(
                            states@[i]@,
                            states@[i + 1]@,
                        ) == Ok::<PosChange, StateError>(v@[i])
                },
                Err(e) => exists|i: int|
                    0 <= i < states@.len() - 1 && #[trigger] pos_change_spec(
                        states@[i]@,
                        states@[i + 1]@,
                    ) == Err::<PosChange, StateError>(e) && (forall|j: int|
                        0 <= j < i ==> #[trigger] pos_change_spec(states@[j]@, states@[j + 1]@)
                            is Ok),
            },
    {
        let mut out: Vec<PosChange> = Vec::new();
        if states.len() == 0 {
            return Ok(out);
        }
        let mut i: usize = 0;
        while i < states.len() - 1
            invariant
                states@.len() >= 1,
                i <= states@.len() - 1,
                out@.len() == i,
                forall|j: int|
                    0 <= j < i ==> #[trigger] pos_change_spec(states@[j]@, states@[j + 1]@)
                        == Ok::<PosChange, StateError>(out@[j]),
            decreases states@.len() - 1 - i,
        {
            match PosChange::try_from(&states[i], &states[i + 1]) {
                Ok(change) => {
                    out.push(change);
                },
                Err(e) => {
                    return Err(e);
                },
            }
            i = i + 1;
        }
        Ok(out)
    }
}

} // verus!
