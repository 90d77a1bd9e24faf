//! The puzzle generator: sample random states and keep the first one that
//! the solver proves solvable and non-trivial (shortest solution of at least
//! five states).

use vstd::prelude::*;

use nanorand::Rng;

use crate::solver::{is_solution, views_of};
use crate::state::{Invariants, Pos, State, StateError, StateV};

verus! {

#[verifier::external_type_specification]
#[verifier::external_body]
pub struct ExWyRand(nanorand::WyRand);

/// Relies on nanorand's `WyRand::new`: a fresh generator seeded from system
/// entropy.  Nothing is assumed of the values it will yield.
#[verifier::external_body]
fn rng_new() -> nanorand::WyRand {
    nanorand::WyRand::new()
}

/// Relies on nanorand's `Rng::generate_range`: for the non-empty range
/// `0..upper` it yields a value below `upper`.  Nothing more is assumed of a
/// random draw.
#[verifier::external_body]
fn rng_below(rng: &mut nanorand::WyRand, upper: usize) -> (r: usize)
    requires
        upper >= 1,
    ensures
        r < upper,
{
    rng.generate_range(0..upper)
}

/// Relies on nanorand's `Rng::shuffle`: it reorders the slice in place only
/// by swapping elements, so the multiset of items is unchanged.  Nothing is
/// assumed of the resulting order.
#[verifier::external_body]
fn rng_shuffle(rng: &mut nanorand::WyRand, items: &mut Vec<Pos>)
    ensures
        final(items)@.to_multiset() == old(items)@.to_multiset(),
{
    rng.shuffle(items.as_mut_slice());
}

/// The retry budget of the generator: how many random candidates are tried
/// before giving up.
pub const GENERATION_ATTEMPTS: usize = 5000;

/// The least number of states a solution must hold for the generated puzzle
/// to count as non-trivial: at least four moves.
pub const MIN_SOLUTION_STATES: usize = 5;

/// A shortest solution from `v` holds at least [`MIN_SOLUTION_STATES`]
/// states: the puzzle is solvable and non-trivial.
pub open spec fn nontrivially_solvable(v: StateV) -> bool {
    exists|p: Seq<StateV>|
        #[trigger] is_solution(v, p) && p.len() >= MIN_SOLUTION_STATES && (forall|q: Seq<StateV>|
            is_solution(v, q) ==> p.len() <= q.len())
}

impl State {
    /// Generate the initial state of a solvable, non-trivial puzzle with the
    /// given dimensions, by sampling random layouts and validating each with
    /// the solver; fail once the attempt budget is exhausted.
    pub fn new_randomized(rows: usize, cols: usize) -> (r: Result<State, StateError>)
        requires
            4 <= rows <= 10,
            4 <= cols <= 10,
        ensures
            match r {
                Ok(s) => {
                    &&& s@.invariants.rows == rows
                    &&& s@.invariants.cols == cols
                    &&& s@.wf()
                    &&& s@.robots.len() < (if rows > cols {
                        rows as int
                    } else {
                        cols as int
                    })
                    &&& s@.astro != s@.invariants.goal
                    &&& forall|i: int, j: int|
                        0 <= i < j < s@.robots.len() ==> s@.robots[i] != s@.robots[j]
                    &&& forall|i: int|
                        0 <= i < s@.robots.len() ==> #[trigger] s@.robots[i] != s@.astro
                            && s@.robots[i] != s@.invariants.goal
                    &&& nontrivially_solvable(s@)
                },
                Err(e) => e == StateError::GenerationFailed,
            },
    {
        let mut all_positions: Vec<Pos> = Vec::new();
        let mut y: usize = 0;
        while y < rows
            invariant
                y <= rows,
                cols <= 10,
                all_positions@.len() == y * cols,
                forall|j: int|
                    0 <= j < all_positions@.len() ==> (#[trigger] all_positions@[j]).y * cols
                        + all_positions@[j].x == j,
                forall|j: int|
                    0 <= j < all_positions@.len() ==> (#[trigger] all_positions@[j]).x < cols
                        && all_positions@[j].y < rows,
            decreases rows - y,
        {
            let mut x: usize = 0;
            while x < cols
                invariant
                    x <= cols,
                    y < rows,
                    cols <= 10,
                    all_positions@.len() == y * cols + x,
                    forall|j: int|
                        0 <= j < all_positions@.len() ==> (#[trigger] all_positions@[j]).y * cols
                            + all_positions@[j].x == j,
                    forall|j: int|
                        0 <= j < all_positions@.len() ==> (#[trigger] all_positions@[j]).x < cols
                            && all_positions@[j].y < rows,
                decreases cols - x,
            {
                all_positions.push(Pos { x, y });
                x = x + 1;
            }
            proof {
                assert((y as int + 1) * cols == y as int * cols + cols) by (nonlinear_arith);
            }
            y = y + 1;
        }
        proof {
            assert(all_positions@.len() == rows * cols);
            assert(rows * cols >= 16) by (nonlinear_arith)
                requires
                    rows >= 4,
                    cols >= 4,
            ;
            assert forall|j1: int, j2: int|
                0 <= j1 < all_positions@.len() && 0 <= j2 < all_positions@.len() && j1
                    != j2 implies all_positions@[j1] != all_positions@[j2] by {
                assert(all_positions@[j1].y * cols + all_positions@[j1].x == j1);
                assert(all_positions@[j2].y * cols + all_positions@[j2].x == j2);
            }
            assert(all_positions@.no_duplicates());
        }
        let max_robots: usize = if rows > cols {
            rows
        } else {
            cols
        };
        let mut rng = rng_new();
        let mut attempt: usize = 0;
        while attempt < GENERATION_ATTEMPTS
            invariant
                4 <= rows <= 10,
                4 <= cols <= 10,
                max_robots <= 10,
                max_robots >= 1,
                max_robots == (if rows > cols {
                    rows as int
                } else {
                    cols as int
                }),
                all_positions@.len() == rows * cols,
                all_positions@.len() >= 16,
                all_positions@.no_duplicates(),
                forall|j: int|
                    0 <= j < all_positions@.len() ==> (#[trigger] all_positions@[j]).x < cols
                        && all_positions@[j].y < rows,
            decreases GENERATION_ATTEMPTS - attempt,
        {
            let num_robots: usize = rng_below(&mut rng, max_robots);
            let ghost before = all_positions@;
            rng_shuffle(&mut rng, &mut all_positions);
            proof {
                before.to_multiset_ensures();
                all_positions@.to_multiset_ensures();
                assert(all_positions@.len() == before.len());
                assert forall|j: int|
                    0 <= j < all_positions@.len() implies (#[trigger] all_positions@[j]).x < cols
                    && all_positions@[j].y < rows by {
                    assert(all_positions@.contains(all_positions@[j]));
                    assert(all_positions@.to_multiset().count(all_positions@[j]) > 0);
                    assert(before.to_multiset().count(all_positions@[j]) > 0);
                    assert(before.contains(all_positions@[j]));
                }
                before.lemma_multiset_has_no_duplicates();
                assert forall|q: Pos| all_positions@.to_multiset().contains(q) implies
                    all_positions@.to_multiset().count(q) == 1 by {
                    assert(before.to_multiset().count(q) > 0);
                    assert(before.contains(q));
                }
                all_positions@.lemma_multiset_has_no_duplicates_conv();
            }
            let astro = all_positions[0];
            let goal = all_positions[1];
            let mut robots: Vec<Pos> = Vec::new();
            let mut i: usize = 0;
            while i < num_robots
                invariant
                    num_robots < max_robots,
                    max_robots <= 10,
                    i <= num_robots,
                    all_positions@.len() >= 16,
                    robots@.len() == i,
                    forall|j: int| 0 <= j < robots@.len() ==> robots@[j] == all_positions@[2 + j],
                    forall|j: int|
                        0 <= j < all_positions@.len() ==> (#[trigger] all_positions@[j]).x < cols
                            && all_positions@[j].y < rows,
                    forall|j: int|
                        0 <= j < robots@.len() ==> (#[trigger] robots@[j]).x < cols
                            && robots@[j].y < rows,
                decreases num_robots - i,
            {
                robots.push(all_positions[2 + i]);
                i = i + 1;
            }
            let candidate = State {
                astro,
                robots,
                invariants: Invariants { goal, rows, cols },
            };
            assert(candidate@.wf());
            proof {
                assert(candidate@.astro == all_positions@[0]);
                assert(candidate@.invariants.goal == all_positions@[1]);
                assert(all_positions@[0] != all_positions@[1]);
                assert forall|i1: int, j1: int|
                    0 <= i1 < j1 < candidate@.robots.len() implies candidate@.robots[i1]
                    != candidate@.robots[j1] by {
                    assert(candidate@.robots[i1] == all_positions@[2 + i1]);
                    assert(candidate@.robots[j1] == all_positions@[2 + j1]);
                }
                assert forall|i1: int|
                    0 <= i1 < candidate@.robots.len() implies #[trigger] candidate@.robots[i1]
                    != candidate@.astro && candidate@.robots[i1]
                    != candidate@.invariants.goal by {
                    assert(candidate@.robots[i1] == all_positions@[2 + i1]);
                }
            }
            match candidate.solve_from_here() {
                Some(solution) => {
                    if solution.len() >= MIN_SOLUTION_STATES {
                        proof {
                            assert(views_of(solution@).len() >= MIN_SOLUTION_STATES);
                            assert(is_solution(candidate@, views_of(solution@)));
                        }
                        return Ok(candidate);
                    }
                },
                None => {},
            }
            attempt = attempt + 1;
        }
        Err(StateError::GenerationFailed)
    }
}

} // verus!
