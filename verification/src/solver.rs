//! The exhaustive solver: breadth-first search over the state graph whose
//! edges are all single-actor slides, yielding a shortest path from a state
//! to any goal-satisfying state.

use vstd::prelude::*;

use crate::movement::{lemma_move_success_in_bounds, move_spec};
use crate::state::{Direction, MovementAttempt, Pos, Selection, State, StateV};

verus! {

/// The state reached by sliding the selected actor in direction `d`, if the
/// slide succeeds.
pub open spec fn move_result_state(v: StateV, sel: Selection, d: Direction) -> Option<StateV> {
    match move_spec(v, v.sel_pos(sel), d) {
        MovementAttempt::Success(p) => Some(v.with_sel_pos(sel, p)),
        MovementAttempt::Failure => None,
    }
}

/// `w` follows `v` by one successful slide of one existing actor.
pub open spec fn is_move(v: StateV, w: StateV) -> bool {
    exists|sel: Selection, d: Direction|
        v.valid_sel(sel) && #[trigger] move_result_state(v, sel, d) == Some(w)
}

/// A singleton sequence for a successful outcome, empty otherwise.
pub open spec fn opt_to_seq(o: Option<StateV>) -> Seq<StateV> {
    match o {
        Some(w) => seq![w],
        None => Seq::empty(),
    }
}

/// The successors produced by one actor, in the fixed direction order
/// Up, Down, Left, Right.
pub open spec fn successors_of_sel(v: StateV, sel: Selection) -> Seq<StateV> {
    opt_to_seq(move_result_state(v, sel, Direction::Up)) + opt_to_seq(
        move_result_state(v, sel, Direction::Down),
    ) + opt_to_seq(move_result_state(v, sel, Direction::Left)) + opt_to_seq(
        move_result_state(v, sel, Direction::Right),
    )
}

/// The successors of the astronaut followed by those of the first `k` robots,
/// in index order.
pub open spec fn successors_upto(v: StateV, k: int) -> Seq<StateV>
    decreases k,
{
    if k <= 0 {
        successors_of_sel(v, Selection::Astro)
    } else {
        successors_upto(v, k - 1) + successors_of_sel(v, Selection::Robot((k - 1) as usize))
    }
}

/// Every successor of `v`: astronaut first, then each robot in index order.
pub open spec fn all_moves(v: StateV) -> Seq<StateV> {
    successors_upto(v, v.robots.len() as int)
}

/// The models of a sequence of states.
pub open spec fn views_of(states: Seq<State>) -> Seq<StateV> {
    states.map_values(|s: State| s@)
}

/// A path witnessing that `v` can reach the goal: it starts at `v`, ends at
/// a goal-satisfying state, and every step is a single-actor slide.
pub open spec fn is_solution(v: StateV, p: Seq<StateV>) -> bool {
    &&& p.len() >= 1
    &&& p[0] == v
    &&& p.last().at_goal()
    &&& forall|i: int| 0 <= i < p.len() - 1 ==> #[trigger] is_move(p[i], p[i + 1])
}

/// Some sequence of slides reaches a goal-satisfying state.
pub open spec fn solvable(v: StateV) -> bool {
    exists|p: Seq<StateV>| is_solution(v, p)
}

proof fn lemma_add_contains<A>(a: Seq<A>, b: Seq<A>, x: A)
    ensures
        (a + b).contains(x) <==> a.contains(x) || b.contains(x),
{
    if (a + b).contains(x) {
        let i: int = choose|i: int| 0 <= i < (a + b).len() && (a + b)[i] == x;
        if i < a.len() {
            assert(a[i] == x);
        } else {
            assert(b[i - a.len()] == x);
        }
    }
    if a.contains(x) {
        let i: int = choose|i: int| 0 <= i < a.len() && a[i] == x;
        assert((a + b)[i] == x);
    }
    if b.contains(x) {
        let i: int = choose|i: int| 0 <= i < b.len() && b[i] == x;
        assert((a + b)[a.len() + i] == x);
    }
}

proof fn lemma_opt_contains(o: Option<StateV>, w: StateV)
    ensures
        opt_to_seq(o).contains(w) <==> o == Some(w),
{
    match o {
        Some(x) => {
            assert(opt_to_seq(o)[0] == x);
            if opt_to_seq(o).contains(w) {
                let i: int = choose|i: int| 0 <= i < opt_to_seq(o).len() && opt_to_seq(o)[i] == w;
                assert(i == 0);
            }
        },
        None => {},
    }
}

proof fn lemma_succ_of_sel_member(v: StateV, sel: Selection, w: StateV)
    ensures
        successors_of_sel(v, sel).contains(w) <==> (exists|d: Direction|
            #[trigger] move_result_state(v, sel, d) == Some(w)),
{
    let su = opt_to_seq(move_result_state(v, sel, Direction::Up));
    let sd = opt_to_seq(move_result_state(v, sel, Direction::Down));
    let sl = opt_to_seq(move_result_state(v, sel, Direction::Left));
    let sr = opt_to_seq(move_result_state(v, sel, Direction::Right));
    lemma_add_contains(su, sd, w);
    lemma_add_contains(su + sd, sl, w);
    lemma_add_contains(su + sd + sl, sr, w);
    lemma_opt_contains(move_result_state(v, sel, Direction::Up), w);
    lemma_opt_contains(move_result_state(v, sel, Direction::Down), w);
    lemma_opt_contains(move_result_state(v, sel, Direction::Left), w);
    lemma_opt_contains(move_result_state(v, sel, Direction::Right), w);
}

proof fn lemma_succ_upto_member(v: StateV, k: int, w: StateV)
    requires
        0 <= k <= v.robots.len(),
    ensures
        successors_upto(v, k).contains(w) <==> ((exists|d: Direction|
            #[trigger] move_result_state(v, Selection::Astro, d) == Some(w)) || (exists|
            j: int,
            d: Direction,
        |
            0 <= j < k && #[trigger] move_result_state(v, Selection::Robot(j as usize), d)
                == Some(w))),
    decreases k,
{
    if k <= 0 {
        lemma_succ_of_sel_member(v, Selection::Astro, w);
    } else {
        lemma_succ_upto_member(v, k - 1, w);
        lemma_add_contains(
            successors_upto(v, k - 1),
            successors_of_sel(v, Selection::Robot((k - 1) as usize)),
            w,
        );
        lemma_succ_of_sel_member(v, Selection::Robot((k - 1) as usize), w);
        if successors_of_sel(v, Selection::Robot((k - 1) as usize)).contains(w) {
            let d = choose|d: Direction|
                #[trigger] move_result_state(v, Selection::Robot((k - 1) as usize), d) == Some(w);
            assert(move_result_state(v, Selection::Robot((k - 1) as usize), d) == Some(w));
        }
        if exists|j: int, d: Direction|
            0 <= j < k && #[trigger] move_result_state(v, Selection::Robot(j as usize), d) == Some(
                w,
            ) {
            let (j, d) = choose|j: int, d: Direction|
                0 <= j < k && #[trigger] move_result_state(v, Selection::Robot(j as usize), d)
                    == Some(w);
            if j < k - 1 {
            } else {
                assert(move_result_state(v, Selection::Robot((k - 1) as usize), d) == Some(w));
            }
        }
    }
}

/// The enumerated successors are exactly the states one slide away.
pub proof fn lemma_all_moves_member(v: StateV, w: StateV)
    ensures
        all_moves(v).contains(w) <==> is_move(v, w),
{
    lemma_succ_upto_member(v, v.robots.len() as int, w);
    if is_move(v, w) {
        let (sel, d) = choose|sel: Selection, d: Direction|
            v.valid_sel(sel) && #[trigger] move_result_state(v, sel, d) == Some(w);
        match sel {
            Selection::Astro => {
                assert(move_result_state(v, Selection::Astro, d) == Some(w));
            },
            Selection::Robot(n) => {
                assert(0 <= n < v.robots.len());
                assert(move_result_state(v, Selection::Robot(n as int as usize), d) == Some(w));
            },
        }
    }
    if all_moves(v).contains(w) {
        if exists|d: Direction| #[trigger] move_result_state(v, Selection::Astro, d) == Some(w) {
            let d = choose|d: Direction|
                #[trigger] move_result_state(v, Selection::Astro, d) == Some(w);
            assert(v.valid_sel(Selection::Astro) && move_result_state(v, Selection::Astro, d)
                == Some(w));
        } else {
            let (j, d) = choose|j: int, d: Direction|
                0 <= j < v.robots.len() && #[trigger] move_result_state(
                    v,
                    Selection::Robot(j as usize),
                    d,
                ) == Some(w);
            assert(v.valid_sel(Selection::Robot(j as usize)) && move_result_state(
                v,
                Selection::Robot(j as usize),
                d,
            ) == Some(w));
        }
    }
}

/// A single-actor slide keeps the state well-formed.
pub proof fn lemma_is_move_preserves_wf(v: StateV, w: StateV)
    requires
        v.wf(),
        is_move(v, w),
    ensures
        w.wf(),
{
    let (sel, d) = choose|sel: Selection, d: Direction|
        v.valid_sel(sel) && #[trigger] move_result_state(v, sel, d) == Some(w);
    let from = v.sel_pos(sel);
    assert(v.in_bounds(from)) by {
        match sel {
            Selection::Astro => {},
            Selection::Robot(n) => {
                assert(v.in_bounds(v.robots[n as int]));
            },
        }
    }
    let att = move_spec(v, from, d);
    match att {
        MovementAttempt::Success(p) => {
            lemma_move_success_in_bounds(v, from, d, p);
            assert(w == v.with_sel_pos(sel, p));
            match sel {
                Selection::Astro => {},
                Selection::Robot(n) => {
                    assert(forall|i: int|
                        0 <= i < w.robots.len() ==> w.in_bounds(#[trigger] w.robots[i])) by {
                        assert(forall|i: int|
                            0 <= i < w.robots.len() && i != n ==> w.robots[i] == v.robots[i]);
                    }
                },
            }
        },
        MovementAttempt::Failure => {
            assert(false);
        },
    }
}

/// Law: from a state already standing at the goal, the shortest solution is
/// the one-element path holding that state alone.
pub proof fn lemma_solution_at_goal(v: StateV, p: Seq<StateV>)
    requires
        v.at_goal(),
        is_solution(v, p),
        forall|q: Seq<StateV>| is_solution(v, q) ==> p.len() <= q.len(),
    ensures
        p =~= seq![v],
{
    let single = seq![v];
    assert(single[0] == v);
    assert(single.last() == v);
    assert(is_solution(v, single));
    assert(p.len() <= 1);
}

impl State {
    /// Every state reachable by sliding the selected actor once, in the
    /// direction order Up, Down, Left, Right.
    pub fn successor_of(&self, selection: Selection) -> (r: Vec<State>)
        requires
            self@.wf(),
            self@.valid_sel(selection),
        ensures
            views_of(r@) == successors_of_sel(self@, selection),
    {
        let current_pos = self.pos_of(selection);
        proof {
            match selection {
                Selection::Astro => {},
                Selection::Robot(n) => {
                    assert(self@.in_bounds(self@.robots[n as int]));
                },
            }
        }
        let mut out: Vec<State> = Vec::new();
        self.push_move(&mut out, selection, current_pos, Direction::Up);
        self.push_move(&mut out, selection, current_pos, Direction::Down);
        self.push_move(&mut out, selection, current_pos, Direction::Left);
        self.push_move(&mut out, selection, current_pos, Direction::Right);
        proof {
            assert(views_of(out@) =~= successors_of_sel(self@, selection));
        }
        out
    }

    /// Append the state reached by one slide of the selected actor, if any.
    fn push_move(
        &self,
        out: &mut Vec<State>,
        selection: Selection,
        current_pos: Pos,
        direction: Direction,
    )
        requires
            self@.valid_sel(selection),
            current_pos == self@.sel_pos(selection),
            self@.in_bounds(current_pos),
        ensures
            views_of(final(out)@) == views_of(old(out)@) + opt_to_seq(
                move_result_state(self@, selection, direction),
            ),
    {
        match self.move_toward(current_pos, direction) {
            MovementAttempt::Success(new_pos) => {
                let mut new_state = self.duplicate();
                let slot = new_state.pos_of_mut(selection);
                *slot = new_pos;
                assert(new_state@ == self@.with_sel_pos(selection, new_pos));
                out.push(new_state);
                proof {
                    assert(views_of(out@) =~= views_of(old(out)@) + opt_to_seq(
                        move_result_state(self@, selection, direction),
                    ));
                }
            },
            MovementAttempt::Failure => {
                proof {
                    assert(views_of(out@) =~= views_of(old(out)@) + opt_to_seq(
                        move_result_state(self@, selection, direction),
                    ));
                }
            },
        }
    }

    /// Every state one slide away: the astronaut's moves first, then each
    /// robot's in index order.
    pub fn all_successors(&self) -> (r: Vec<State>)
        requires
            self@.wf(),
        ensures
            views_of(r@) == all_moves(self@),
    {
        let mut out: Vec<State> = self.successor_of(Selection::Astro);
        let mut i: usize = 0;
        while i < self.robots.len()
            invariant
                self@.wf(),
                i <= self@.robots.len(),
                views_of(out@) == successors_upto(self@, i as int),
            decreases self@.robots.len() - i,
        {
            let mut next = self.successor_of(Selection::Robot(i));
            proof {
                assert(views_of(out@ + next@) =~= views_of(out@) + views_of(next@));
            }
            out.append(&mut next);
            i = i + 1;
        }
        out
    }

    /// Shortest solution path from this state, inclusive of this state and
    /// the goal-satisfying end state, or `None` when the goal is unreachable.
    pub fn solve_from_here(&self) -> (r: Option<Vec<State>>)
        requires
            self@.wf(),
        ensures
            match r {
                Some(path) => is_solution(self@, views_of(path@)) && (forall|q: Seq<StateV>|
                    is_solution(self@, q) ==> path@.len() <= q.len()) && (self@.at_goal()
                    ==> views_of(path@) == seq![self@]),
                None => !solvable(self@),
            },
    {
        let r = bfs_shortest_path(self);
        proof {
            if r is Some && self@.at_goal() {
                lemma_solution_at_goal(self@, views_of(r->Some_0@));
            }
        }
        r
    }
}

/// Relies on pathfinding's `bfs`: a breadth-first search that returns a
/// shortest path from the start, along the edges the successors closure
/// yields, to a node satisfying the success closure, inclusive of both ends,
/// or `None` when no such path exists.  The closures here are the verified
/// `all_successors`, which by its contract and [`lemma_all_moves_member`]
/// yields exactly the states satisfying [`is_move`], and the verified
/// `is_at_goal`.  Every node the search hands them is the start or a
/// generated successor, hence well-formed by [`lemma_is_move_preserves_wf`],
/// and the states reachable on a fixed board are finitely many, so the
/// search terminates and `None` means the goal is unreachable.
#[verifier::external_body]
fn bfs_shortest_path(start: &State) -> (r: Option<Vec<State>>)
    requires
        start@.wf(),
    ensures
        match r {
            Some(path) => is_solution(start@, views_of(path@)) && (forall|q: Seq<StateV>|
                is_solution(start@, q) ==> path@.len() <= q.len()),
            None => !solvable(start@),
        },
{
    pathfinding::prelude::bfs(start, |s: &State| s.all_successors(), |s: &State| s.is_at_goal())
}

} // verus!
