//! The gameplay state machine around one puzzle: the move history, the
//! selected actor, the play/walkthrough/game-over mode, and a navigator over
//! the precomputed solution path.

use vstd::prelude::*;

use crate::movement::move_spec;
use crate::solver::{is_solution, solvable, views_of};
use crate::state::{Direction, MovementAttempt, Pos, Selection, State, StateError, StateV};

verus! {

/// What the game is currently doing.
#[derive(Debug, Clone, Copy, PartialEq, Eq, Structural)]
pub enum Mode {
    Playable,
    Walkthrough,
    GameOver,
}

/// What a key press asks of the game loop.
#[derive(Debug, Clone, Copy, PartialEq, Eq, Structural)]
pub enum Action {
    Movement(MovementAttempt),
    NextCharacter,
    PrevCharacter,
    Undo,
    Restart,
    Exit,
    PrevWalkthroughStep,
    NextWalkthroughStep,
    ToggleMode,
}

/// A saturating cursor over a precomputed solution path of length at least
/// one.
#[derive(Debug, Clone)]
pub struct SolutionWalkthrough {
    pub solution: Vec<State>,
    pub current_step: usize,
}

impl SolutionWalkthrough {
    /// The cursor points at a state of the non-empty solution.
    pub open spec fn wf(self) -> bool {
        self.solution@.len() >= 1 && self.current_step < self.solution@.len()
    }

    /// Wrap a non-empty solution path, with the cursor at its start.
    pub fn new(solution: Vec<State>) -> (r: Self)
        requires
            solution@.len() >= 1,
        ensures
            r.wf(),
            r.solution@ == solution@,
            r.current_step == 0,
    {
        Self { solution, current_step: 0 }
    }

    /// The state under the cursor.
    pub fn state(&self) -> (r: &State)
        requires
            self.wf(),
        ensures
            r == self.solution@[self.current_step as int],
    {
        &self.solution[self.current_step]
    }

    /// How many states the solution holds.
    pub fn len(&self) -> (r: usize)
        ensures
            r == self.solution@.len(),
    {
        self.solution.len()
    }

    /// Step the cursor back one state, saturating at the start.
    pub fn decrement(&mut self)
        requires
            old(self).wf(),
        ensures
            final(self).wf(),
            final(self).solution@ == old(self).solution@,
            final(self).current_step == (if old(self).current_step > 0 {
                old(self).current_step - 1
            } else {
                0int
            }),
    {
        if self.current_step > 0 {
            self.current_step = self.current_step - 1;
        }
    }

    /// Step the cursor forward one state, saturating at the end.
    pub fn increment(&mut self)
        requires
            old(self).wf(),
        ensures
            final(self).wf(),
            final(self).solution@ == old(self).solution@,
            final(self).current_step == (if old(self).current_step + 1
                < old(self).solution@.len() {
                old(self).current_step + 1
            } else {
                old(self).current_step as int
            }),
    {
        if self.current_step < self.len() - 1 {
            self.current_step = self.current_step + 1;
        }
    }
}

/// The selection after the current one, cycling astronaut, robot 0, ...,
/// last robot, astronaut.
pub open spec fn next_sel(v: StateV, sel: Selection) -> Selection {
    match sel {
        Selection::Astro => if v.robots.len() == 0 {
            Selection::Astro
        } else {
            Selection::Robot(0)
        },
        Selection::Robot(n) => if n + 1 == v.robots.len() {
            Selection::Astro
        } else {
            Selection::Robot((n + 1) as usize)
        },
    }
}

/// The selection before the current one: the cycle of [`next_sel`] walked
/// backwards.
pub open spec fn prev_sel(v: StateV, sel: Selection) -> Selection {
    match sel {
        Selection::Astro => if v.robots.len() == 0 {
            Selection::Astro
        } else {
            Selection::Robot((v.robots.len() - 1) as usize)
        },
        Selection::Robot(n) => if n == 0 {
            Selection::Astro
        } else {
            Selection::Robot((n - 1) as usize)
        },
    }
}

/// One running game: the history of committed states (never empty), the
/// selected actor, the mode, and the navigator over the puzzle's solution.
#[derive(Debug)]
pub struct Game {
    pub moves: Vec<State>,
    pub selected: Selection,
    pub mode: Mode,
    pub walkthrough: SolutionWalkthrough,
}

impl Game {
    /// The model of the current state: the last committed one.
    pub open spec fn cur(self) -> StateV {
        self.moves@[self.moves@.len() - 1]@
    }

    /// The history is non-empty and well-formed, every state of it belongs
    /// to the same puzzle (in particular the robot count never changes), the
    /// selection refers to an existing actor, and the walkthrough cursor is
    /// in range.
    pub open spec fn wf(self) -> bool {
        &&& self.moves@.len() >= 1
        &&& forall|i: int|
            0 <= i < self.moves@.len() ==> (#[trigger] self.moves@[i])@.wf()
                && self.moves@[i]@.robots.len() == self.cur().robots.len()
                && self.moves@[i]@.invariants == self.cur().invariants
        &&& self.cur().valid_sel(self.selected)
        &&& self.walkthrough.wf()
    }

    /// Start a game from an initial state, first proving it winnable: an
    /// unsolvable puzzle is rejected rather than presented as playable.
    pub fn new(initial_state: State) -> (r: Result<Game, StateError>)
        requires
            initial_state@.wf(),
        ensures
            r is Ok <==> solvable(initial_state@),
            match r {
                Ok(g) => {
                    &&& g.wf()
                    &&& g.moves@.len() == 1
                    &&& g.moves@[0]@ == initial_state@
                    &&& g.selected == Selection::Astro
                    &&& g.mode == Mode::Playable
                    &&& g.walkthrough.current_step == 0
                    &&& is_solution(initial_state@, views_of(g.walkthrough.solution@))
                },
                Err(e) => e == StateError::Unsolvable,
            },
    {
        match initial_state.solve_from_here() {
            Some(solution) => {
                assert(views_of(solution@).len() == solution@.len());
                let walkthrough = SolutionWalkthrough::new(solution);
                let mut moves: Vec<State> = Vec::new();
                moves.push(initial_state);
                let game = Game { moves, selected: Selection::Astro, mode: Mode::Playable, walkthrough };
                Ok(game)
            },
            None => Err(StateError::Unsolvable),
        }
    }

    /// What the game is currently doing.
    pub fn mode(&self) -> (r: Mode)
        ensures
            r == self.mode,
    {
        self.mode
    }

    /// The current state: the last committed one.
    pub fn state(&self) -> (r: &State)
        requires
            self.wf(),
        ensures
            r@ == self.cur(),
    {
        &self.moves[self.moves.len() - 1]
    }

    /// The position of the selected actor in the current state.
    pub fn selected_pos(&self) -> (r: Pos)
        requires
            self.wf(),
        ensures
            r == self.cur().sel_pos(self.selected),
    {
        self.state().pos_of(self.selected)
    }

    /// Select the next actor in the cycle astronaut, robot 0, ..., last
    /// robot.
    pub fn select_next_character(&mut self)
        requires
            old(self).wf(),
        ensures
            final(self).wf(),
            final(self).selected == next_sel(old(self).cur(), old(self).selected),
            final(self).moves@ == old(self).moves@,
            final(self).mode == old(self).mode,
            final(self).walkthrough == old(self).walkthrough,
    {
        let num_robots: usize = self.state().num_robots();
        let next = match self.selected {
            Selection::Astro => if num_robots == 0 {
                Selection::Astro
            } else {
                Selection::Robot(0)
            },
            Selection::Robot(n) => if n + 1 == num_robots {
                Selection::Astro
            } else {
                Selection::Robot(n + 1)
            },
        };
        self.selected = next;
    }

    /// Select the previous actor: the cycle walked backwards.
    pub fn select_prev_character(&mut self)
        requires
            old(self).wf(),
        ensures
            final(self).wf(),
            final(self).selected == prev_sel(old(self).cur(), old(self).selected),
            final(self).moves@ == old(self).moves@,
            final(self).mode == old(self).mode,
            final(self).walkthrough == old(self).walkthrough,
    {
        let num_robots: usize = self.state().num_robots();
        let prev = match self.selected {
            Selection::Astro => if num_robots == 0 {
                Selection::Astro
            } else {
                Selection::Robot(num_robots - 1)
            },
            Selection::Robot(n) => if n == 0 {
                Selection::Astro
            } else {
                Selection::Robot(n - 1)
            },
        };
        self.selected = prev;
    }

    /// Switch between play and walkthrough; a finished game stays finished.
    pub fn toggle_mode(&mut self)
        requires
            old(self).wf(),
        ensures
            final(self).wf(),
            final(self).mode == (match old(self).mode {
                Mode::Playable => Mode::Walkthrough,
                Mode::Walkthrough => Mode::Playable,
                Mode::GameOver => Mode::GameOver,
            }),
            final(self).moves@ == old(self).moves@,
            final(self).selected == old(self).selected,
            final(self).walkthrough == old(self).walkthrough,
    {
        self.mode = match self.mode {
            Mode::Playable => Mode::Walkthrough,
            Mode::Walkthrough => Mode::Playable,
            Mode::GameOver => Mode::GameOver,
        };
    }

    /// Resolve a slide of the selected actor; the caller decides whether to
    /// commit it.
    pub fn move_toward(&self, direction: Direction) -> (r: Action)
        requires
            self.wf(),
        ensures
            r == Action::Movement(
                move_spec(self.cur(), self.cur().sel_pos(self.selected), direction),
            ),
    {
        proof {
            match self.selected {
                Selection::Astro => {},
                Selection::Robot(n) => {
                    assert(self.cur().in_bounds(self.cur().robots[n as int]));
                },
            }
        }
        let attempt = self.state().move_toward(self.selected_pos(), direction);
        Action::Movement(attempt)
    }

    /// Commit a move: push a clone of the current state with the selected
    /// actor at `new_pos`; a state that reaches the goal ends the game.
    pub fn move_selection_to(&mut self, new_pos: Pos)
        requires
            old(self).wf(),
            old(self).cur().in_bounds(new_pos),
        ensures
            final(self).wf(),
            final(self).moves@.len() == old(self).moves@.len() + 1,
            final(self).moves@.subrange(0, old(self).moves@.len() as int) == old(self).moves@,
            final(self).cur() == old(self).cur().with_sel_pos(old(self).selected, new_pos),
            final(self).selected == old(self).selected,
            final(self).walkthrough == old(self).walkthrough,
            final(self).mode == (if old(self).cur().with_sel_pos(
                old(self).selected,
                new_pos,
            ).at_goal() {
                Mode::GameOver
            } else {
                old(self).mode
            }),
    {
        let mut new_state = self.state().duplicate();
        let slot = new_state.pos_of_mut(self.selected);
        *slot = new_pos;
        proof {
            let w = old(self).cur().with_sel_pos(old(self).selected, new_pos);
            assert(w.wf()) by {
                match old(self).selected {
                    Selection::Astro => {},
                    Selection::Robot(n) => {
                        assert(forall|i: int|
                            0 <= i < w.robots.len() && i != n ==> w.robots[i] == old(
                                self,
                            ).cur().robots[i]);
                    },
                }
            }
        }
        self.moves.push(new_state);
        if self.moves[self.moves.len() - 1].is_at_goal() {
            self.mode = Mode::GameOver;
        }
    }

    /// Throw away every committed move but the first, rewind the
    /// walkthrough, and make the game playable again.
    pub fn restart(&mut self)
        requires
            old(self).wf(),
        ensures
            final(self).wf(),
            final(self).moves@ == old(self).moves@.subrange(0, 1),
            final(self).mode == Mode::Playable,
            final(self).selected == old(self).selected,
            final(self).walkthrough.solution@ == old(self).walkthrough.solution@,
            final(self).walkthrough.current_step == 0,
    {
        self.moves.truncate(1);
        self.walkthrough.current_step = 0;
        self.mode = Mode::Playable;
    }

    /// Take back the last committed move; the initial state always stays.
    pub fn undo(&mut self)
        requires
            old(self).wf(),
        ensures
            final(self).wf(),
            final(self).moves@ == (if old(self).moves@.len() > 1 {
                old(self).moves@.drop_last()
            } else {
                old(self).moves@
            }),
            final(self).mode == old(self).mode,
            final(self).selected == old(self).selected,
            final(self).walkthrough == old(self).walkthrough,
    {
        if self.moves.len() > 1 {
            let _ = self.moves.pop();
        }
    }

    /// Step the walkthrough cursor back one state.
    pub fn walkthrough_prev(&mut self)
        requires
            old(self).wf(),
        ensures
            final(self).wf(),
            final(self).moves@ == old(self).moves@,
            final(self).mode == old(self).mode,
            final(self).selected == old(self).selected,
            final(self).walkthrough.solution@ == old(self).walkthrough.solution@,
            final(self).walkthrough.current_step == (if old(self).walkthrough.current_step > 0 {
                old(self).walkthrough.current_step - 1
            } else {
                0int
            }),
    {
        self.walkthrough.decrement();
    }

    /// Step the walkthrough cursor forward one state.
    pub fn walkthrough_next(&mut self)
        requires
            old(self).wf(),
        ensures
            final(self).wf(),
            final(self).moves@ == old(self).moves@,
            final(self).mode == old(self).mode,
            final(self).selected == old(self).selected,
            final(self).walkthrough.solution@ == old(self).walkthrough.solution@,
            final(self).walkthrough.current_step == (if old(self).walkthrough.current_step + 1
                < old(self).walkthrough.solution@.len() {
                old(self).walkthrough.current_step + 1
            } else {
                old(self).walkthrough.current_step as int
            }),
    {
        self.walkthrough.increment();
    }

    /// Runtime check of the game invariant, for callers that cannot
    /// establish it statically.
    pub fn is_well_formed(&self) -> (r: bool)
        ensures
            r == self.wf(),
    {
        if self.moves.len() < 1 {
            return false;
        }
        let last = &self.moves[self.moves.len() - 1];
        let mut i: usize = 0;
        let mut all_ok = true;
        while i < self.moves.len()
            invariant
                self.moves@.len() >= 1,
                i <= self.moves@.len(),
                last == self.moves@[self.moves@.len() - 1],
                all_ok == (forall|j: int|
                    0 <= j < i ==> (#[trigger] self.moves@[j])@.wf() && self.moves@[j]@.robots.len()
                        == self.cur().robots.len() && self.moves@[j]@.invariants
                        == self.cur().invariants),
            decreases self.moves@.len() - i,
        {
            let s = &self.moves[i];
            let ok = s.is_well_formed() && s.num_robots() == last.num_robots() && s.invariants
                == last.invariants;
            all_ok = all_ok && ok;
            i = i + 1;
        }
        if !all_ok {
            return false;
        }
        let sel_ok = match self.selected {
            Selection::Astro => true,
            Selection::Robot(n) => n < last.num_robots(),
        };
        let walk_ok = self.walkthrough.solution.len() >= 1 && self.walkthrough.current_step
            < self.walkthrough.solution.len();
        sel_ok && walk_ok
    }
}

} // verus!
