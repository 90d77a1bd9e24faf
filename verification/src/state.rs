//! The puzzle state model: positions, directions, tiles, actor selection,
//! per-puzzle invariants, and the snapshot of one astronaut and its robots.

use vstd::prelude::*;

verus! {

/// A coordinate on the board: `x` counts columns, `y` counts rows.
#[derive(Clone, Copy, PartialEq, Eq, Debug, Hash, PartialOrd, Ord, Structural)]
pub struct Pos {
    pub x: usize,
    pub y: usize,
}

/// A tagged reference to an actor: the astronaut, or the robot at an index.
#[derive(Debug, Copy, Clone, PartialEq, Eq, Structural)]
pub enum Selection {
    Astro,
    Robot(usize),
}

/// The derived, read-only view of one board cell.
#[derive(Debug, PartialEq, Eq, Clone, Copy, Structural)]
pub enum Tile {
    Empty,
    Astro,
    Robot,
    Goal,
}

/// One of the four sliding directions.
#[derive(Debug, Clone, Copy, PartialEq, Eq, Structural)]
pub enum Direction {
    Up,
    Down,
    Left,
    Right,
}

/// The outcome of attempting a slide: the landing cell, or no legal move.
#[derive(Debug, Clone, Copy, PartialEq, Eq, Structural)]
pub enum MovementAttempt {
    Success(Pos),
    Failure,
}

/// The fixed per-puzzle parameters, shared by every state of one puzzle.
#[derive(Clone, Copy, Hash, Debug, Eq, PartialEq, Structural)]
pub struct Invariants {
    pub goal: Pos,
    pub rows: usize,
    pub cols: usize,
}

/// One snapshot of the puzzle: the astronaut, the robots in index order, and
/// the board invariants.  `PartialEq` and `Hash` are derived for the benefit
/// of the unverified search routine; verified code compares states field by
/// field.
#[derive(Clone, Hash, Debug, Eq, PartialEq)]
pub struct State {
    pub astro: Pos,
    pub robots: Vec<Pos>,
    pub invariants: Invariants,
}

/// Everything that can go wrong in the core: board construction, puzzle
/// generation, and solution-path diffing.
#[derive(Debug, Clone, Copy, PartialEq, Eq, Structural)]
pub enum StateError {
    /// A layout holds no Astro tile.
    NoPlayer,
    /// A layout holds more than one Astro tile.
    MoreThanOnePlayer,
    /// A layout holds no Goal tile.
    NoGoal,
    /// A layout holds more than one Goal tile.
    MoreThanOneGoal,
    /// The solver proved the initial state unreachable to the goal.
    Unsolvable,
    /// The generator's attempt budget ran out without an acceptable puzzle.
    GenerationFailed,
    /// Two states to be diffed belong to different puzzles.
    InvariantsDiffer,
    /// Two states to be diffed hold different numbers of robots.
    RobotCountDiffers,
    /// Two states to be diffed are identical.
    StatesEqual,
}

impl Tile {
    /// The character a cell is drawn with.
    pub fn symbol(&self) -> (r: char)
        ensures
            r == (match self {
                Tile::Empty => '.',
                Tile::Astro => 'A',
                Tile::Robot => 'R',
                Tile::Goal => 'X',
            }),
    {
        match self {
            Tile::Empty => '.',
            Tile::Astro => 'A',
            Tile::Robot => 'R',
            Tile::Goal => 'X',
        }
    }
}

impl StateError {
    /// A short description of the failure.
    pub fn message(&self) -> (r: &'static str)
        ensures
            r@ == (match self {
                StateError::NoPlayer => "no player"@,
                StateError::MoreThanOnePlayer => "more than one player"@,
                StateError::NoGoal => "no goal"@,
                StateError::MoreThanOneGoal => "more than one goal"@,
                StateError::Unsolvable => "game cannot be solved from this state"@,
                StateError::GenerationFailed => "all generated positions failed validation"@,
                StateError::InvariantsDiffer => "state invariants differ"@,
                StateError::RobotCountDiffers => "number of robots differs"@,
                StateError::StatesEqual => "start and end states are equal"@,
            }),
    {
        match self {
            StateError::NoPlayer => "no player",
            StateError::MoreThanOnePlayer => "more than one player",
            StateError::NoGoal => "no goal",
            StateError::MoreThanOneGoal => "more than one goal",
            StateError::Unsolvable => "game cannot be solved from this state",
            StateError::GenerationFailed => "all generated positions failed validation",
            StateError::InvariantsDiffer => "state invariants differ",
            StateError::RobotCountDiffers => "number of robots differs",
            StateError::StatesEqual => "start and end states are equal",
        }
    }
}

/// The mathematical model of a [`State`].
#[verifier::ext_equal]
pub ghost struct StateV {
    pub astro: Pos,
    pub robots: Seq<Pos>,
    pub invariants: Invariants,
}

impl View for State {
    type V = StateV;

    open spec fn view(&self) -> StateV {
        StateV { astro: self.astro, robots: self.robots@, invariants: self.invariants }
    }
}

impl StateV {
    /// The position lies on the board.
    pub open spec fn in_bounds(self, p: Pos) -> bool {
        p.x < self.invariants.cols && p.y < self.invariants.rows
    }

    /// Some actor stands on the position.
    pub open spec fn occupied(self, p: Pos) -> bool {
        p == self.astro || self.robots.contains(p)
    }

    /// What a cell shows: actors draw over the goal.
    pub open spec fn tile_at(self, p: Pos) -> Tile {
        if p == self.astro {
            Tile::Astro
        } else if self.robots.contains(p) {
            Tile::Robot
        } else if p == self.invariants.goal {
            Tile::Goal
        } else {
            Tile::Empty
        }
    }

    /// The astronaut stands on the goal cell; robots do not matter.
    pub open spec fn at_goal(self) -> bool {
        self.astro == self.invariants.goal
    }

    /// The selection refers to an actor that exists in this state.
    pub open spec fn valid_sel(self, sel: Selection) -> bool {
        match sel {
            Selection::Astro => true,
            Selection::Robot(n) => n < self.robots.len(),
        }
    }

    /// The position of the selected actor.
    pub open spec fn sel_pos(self, sel: Selection) -> Pos {
        match sel {
            Selection::Astro => self.astro,
            Selection::Robot(n) => self.robots[n as int],
        }
    }

    /// This state with the selected actor placed at `p`.
    pub open spec fn with_sel_pos(self, sel: Selection, p: Pos) -> StateV {
        match sel {
            Selection::Astro => StateV { astro: p, ..self },
            Selection::Robot(n) => StateV { robots: self.robots.update(n as int, p), ..self },
        }
    }

    /// Every actor and the goal lie on the board.
    pub open spec fn wf(self) -> bool {
        &&& self.in_bounds(self.astro)
        &&& self.in_bounds(self.invariants.goal)
        &&& forall|i: int| 0 <= i < self.robots.len() ==> self.in_bounds(#[trigger] self.robots[i])
    }
}

/// Whether the vector holds the given position.
pub(crate) fn contains_pos(v: &Vec<Pos>, p: Pos) -> (r: bool)
    ensures
        r == v@.contains(p),
{
    let mut i: usize = 0;
    while i < v.len()
        invariant
            i <= v@.len(),
            forall|j: int| 0 <= j < i ==> v@[j] != p,
        decreases v@.len() - i,
    {
        if v[i] == p {
            assert(v@[i as int] == p);
            return true;
        }
        i = i + 1;
    }
    assert(!v@.contains(p));
    false
}

impl State {
    /// The astronaut stands on the goal cell.
    pub fn is_at_goal(&self) -> (r: bool)
        ensures
            r == self@.at_goal(),
    {
        self.astro == self.invariants.goal
    }

    /// The board dimensions, as (rows, columns).
    pub fn dims(&self) -> (r: (usize, usize))
        ensures
            r.0 == self@.invariants.rows,
            r.1 == self@.invariants.cols,
    {
        (self.invariants.rows, self.invariants.cols)
    }

    /// The tile shown at a position; actors draw over the goal.
    pub fn tile_at(&self, pos: Pos) -> (r: Tile)
        ensures
            r == self@.tile_at(pos),
    {
        if self.astro == pos {
            Tile::Astro
        } else if contains_pos(&self.robots, pos) {
            Tile::Robot
        } else if self.invariants.goal == pos {
            Tile::Goal
        } else {
            Tile::Empty
        }
    }

    /// The position of the selected actor.
    pub fn pos_of(&self, selection: Selection) -> (r: Pos)
        requires
            self@.valid_sel(selection),
        ensures
            r == self@.sel_pos(selection),
    {
        match selection {
            Selection::Astro => self.astro,
            Selection::Robot(n) => self.robots[n],
        }
    }

    /// A mutable borrow of the selected actor's position.
    pub fn pos_of_mut(&mut self, selection: Selection) -> (r: &mut Pos)
        requires
            old(self)@.valid_sel(selection),
        ensures
            *r == old(self)@.sel_pos(selection),
            final(self)@ == old(self)@.with_sel_pos(selection, *final(r)),
    {
        match selection {
            Selection::Astro => &mut self.astro,
            Selection::Robot(n) => &mut self.robots[n],
        }
    }

    /// How many robots the state holds.
    pub fn num_robots(&self) -> (r: usize)
        ensures
            r == self@.robots.len(),
    {
        self.robots.len()
    }

    /// Whether some actor stands on the position.
    pub fn is_occupied(&self, p: Pos) -> (r: bool)
        ensures
            r == self@.occupied(p),
    {
        self.astro == p || contains_pos(&self.robots, p)
    }

    /// A fresh copy of this state with equal contents.
    pub fn duplicate(&self) -> (r: State)
        ensures
            r@ == self@,
    {
        let mut robots: Vec<Pos> = Vec::new();
        let mut i: usize = 0;
        while i < self.robots.len()
            invariant
                i <= self@.robots.len(),
                robots@.len() == i,
                forall|j: int| 0 <= j < i ==> robots@[j] == self@.robots[j],
            decreases self@.robots.len() - i,
        {
            robots.push(self.robots[i]);
            i = i + 1;
        }
        proof {
            assert(robots@ =~= self@.robots);
        }
        State { astro: self.astro, robots, invariants: self.invariants }
    }

    /// Runtime check of the well-formedness invariant, for callers that
    /// cannot establish it statically.
    pub fn is_well_formed(&self) -> (r: bool)
        ensures
            r == self@.wf(),
    {
        if !(self.astro.x < self.invariants.cols && self.astro.y < self.invariants.rows) {
            return false;
        }
        if !(self.invariants.goal.x < self.invariants.cols
            && self.invariants.goal.y < self.invariants.rows) {
            return false;
        }
        let mut i: usize = 0;
        while i < self.robots.len()
            invariant
                i <= self@.robots.len(),
                forall|j: int| 0 <= j < i ==> self@.in_bounds(#[trigger] self@.robots[j]),
            decreases self@.robots.len() - i,
        {
            let p = self.robots[i];
            if !(p.x < self.invariants.cols && p.y < self.invariants.rows) {
                return false;
            }
            i = i + 1;
        }
        true
    }
}

} // verus!
