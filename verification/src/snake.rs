//! The snake itself: its body, heading and liveness, and the movement /
//! collision state machine that advances it one cell per tick.

use vstd::prelude::*;

verus! {

/// A compass direction; the snake moves one cell per tick along its heading.
/// The grid origin is the top-left corner, so `North` decreases `y` and
/// `South` increases it, matching terminal row order.
#[derive(Clone, Copy, Debug, PartialEq, Eq, Structural)]
pub enum Direction {
    North,
    South,
    East,
    West,
}

impl Direction {
    /// The geometric opposite of a direction.
    pub open spec fn opposite_spec(self) -> Direction {
        match self {
            Direction::North => Direction::South,
            Direction::South => Direction::North,
            Direction::East => Direction::West,
            Direction::West => Direction::East,
        }
    }

    pub fn opposite(self) -> (r: Direction)
        ensures
            r == self.opposite_spec(),
    {
        match self {
            Direction::North => Direction::South,
            Direction::South => Direction::North,
            Direction::East => Direction::West,
            Direction::West => Direction::East,
        }
    }
}

/// One grid cell. A cell held by a well-formed game satisfies
/// `x < width && y < height`.
#[derive(Clone, Copy, Debug, PartialEq, Eq, Structural)]
pub struct Cell {
    pub x: usize,
    pub y: usize,
}

/// How a call to `Snake::advance` ended: the head moved, or the snake died
/// against the boundary or its own body.
#[derive(Clone, Copy, Debug, PartialEq, Eq, Structural)]
pub enum CollisionOutcome {
    Moved,
    BoundaryCollision,
    SelfCollision,
}

/// A configuration fault found while building the snake or the game.
#[derive(Clone, Copy, Debug, PartialEq, Eq, Structural)]
pub enum ConfigError {
    /// A snake of length zero was requested.
    EmptyBody,
    /// The straight initial body would leave the representable coordinate
    /// range (a cell below zero or above `usize::MAX`).
    BodyMisplaced,
    /// The snake handed to the game does not lie on the grid, is empty, or
    /// overlaps itself.
    SnakeOutsideGrid,
    /// The grid has no free cell left for the food.
    GridFull,
}

/// Where a head at `c` would land after one step along `d`, as unbounded
/// integers so that a step off the top or left edge is representable.
pub open spec fn step_target(c: Cell, d: Direction) -> (int, int) {
    match d {
        Direction::North => (c.x as int, c.y - 1),
        Direction::South => (c.x as int, c.y + 1),
        Direction::East => (c.x + 1, c.y as int),
        Direction::West => (c.x - 1, c.y as int),
    }
}

/// Whether an integer coordinate pair lies on a `width` by `height` grid.
pub open spec fn on_grid(p: (int, int), width: int, height: int) -> bool {
    0 <= p.0 < width && 0 <= p.1 < height
}

/// No two cells of the sequence coincide: the snake does not overlap itself.
pub open spec fn cells_distinct(s: Seq<Cell>) -> bool {
    forall|i: int, j: int| 0 <= i < j < s.len() ==> s[i] != s[j]
}

/// Every cell of the sequence lies on a `width` by `height` grid.
pub open spec fn cells_on_grid(s: Seq<Cell>, width: int, height: int) -> bool {
    forall|i: int| 0 <= i < s.len() ==> (#[trigger] s[i]).x < width && s[i].y < height
}

/// The `i`-th cell of a freshly built snake whose head sits at
/// `(start_x, start_y)`: the body extends opposite to the heading.
pub open spec fn initial_cell(start_x: int, start_y: int, heading: Direction, i: int) -> (
    int,
    int,
) {
    match heading {
        Direction::North => (start_x, start_y + i),
        Direction::South => (start_x, start_y - i),
        Direction::East => (start_x - i, start_y),
        Direction::West => (start_x + i, start_y),
    }
}

/// Whether a straight body of `length` cells headed `heading` with its head at
/// `(start_x, start_y)` stays inside the representable coordinate range.
pub open spec fn initial_body_fits(
    length: int,
    start_x: int,
    start_y: int,
    heading: Direction,
) -> bool {
    match heading {
        Direction::North => start_y + length - 1 <= usize::MAX,
        Direction::South => length - 1 <= start_y,
        Direction::East => length - 1 <= start_x,
        Direction::West => start_x + length - 1 <= usize::MAX,
    }
}

/// The snake: an ordered body of cells (head first, tail last), the heading it
/// moves along, a buffered heading applied at the next tick, and whether it is
/// still alive. On a collision the body is left as it was (frozen) so the
/// final state can still be rendered.
#[derive(Debug)]
pub struct Snake {
    pub body: Vec<Cell>,
    pub heading: Direction,
    pub pending_heading: Direction,
    pub alive: bool,
}

impl Snake {
    /// Where the head would land after one step along the current heading.
    pub open spec fn next_head_spec(self) -> (int, int) {
        step_target(self.body@[0], self.heading)
    }

    /// How many leading body cells the next step may not land on: all of them
    /// when the tail stays (food eaten), all but the tail otherwise, since the
    /// tail cell is vacated in the same step.
    pub open spec fn blocked_len(self, ate_food: bool) -> int {
        if ate_food {
            self.body@.len() as int
        } else {
            self.body@.len() - 1
        }
    }

    /// Whether the next step lands on a blocked body cell.
    pub open spec fn hits_self(self, ate_food: bool) -> bool {
        exists|i: int|
            0 <= i < self.blocked_len(ate_food) && (#[trigger] self.body@[i]).x
                == self.next_head_spec().0 && self.body@[i].y == self.next_head_spec().1
    }

    /// The outcome `advance` reports for the given grid and food state.
    pub open spec fn advance_outcome(self, width: int, height: int, ate_food: bool)
        -> CollisionOutcome {
        if !on_grid(self.next_head_spec(), width, height) {
            CollisionOutcome::BoundaryCollision
        } else if self.hits_self(ate_food) {
            CollisionOutcome::SelfCollision
        } else {
            CollisionOutcome::Moved
        }
    }

    /// The body after a successful move: the new head in front, and the tail
    /// kept exactly when food was eaten.
    pub open spec fn moved_body(self, ate_food: bool) -> Seq<Cell> {
        let head = Cell {
            x: self.next_head_spec().0 as usize,
            y: self.next_head_spec().1 as usize,
        };
        if ate_food {
            seq![head] + self.body@
        } else {
            seq![head] + self.body@.drop_last()
        }
    }

    /// What `set_pending_heading(d)` leaves behind: the exact reverse of the
    /// current heading is rejected while the body is longer than one cell.
    pub open spec fn with_pending_spec(self, d: Direction) -> Snake {
        if d == self.heading.opposite_spec() && self.body@.len() > 1 {
            self
        } else {
            Snake { pending_heading: d, ..self }
        }
    }

    /// Builds a straight snake of `length` cells whose head sits at
    /// `(start_x, start_y)` and whose body extends opposite to `heading`.
    /// Fails when the length is zero or the body would leave the
    /// representable coordinate range; whether it fits the actual grid is
    /// checked by the game constructor, which knows the grid.
    pub fn new(length: usize, start_x: usize, start_y: usize, heading: Direction) -> (r: Result<
        Snake,
        ConfigError,
    >)
        ensures
            r is Ok <==> length >= 1 && initial_body_fits(
                length as int,
                start_x as int,
                start_y as int,
                heading,
            ),
            r == Err::<Snake, ConfigError>(ConfigError::EmptyBody) <==> length == 0,
            r matches Ok(s) ==> {
                &&& s.body@.len() == length
                &&& forall|i: int|
                    0 <= i < length ==> ((#[trigger] s.body@[i]).x as int, s.body@[i].y as int)
                        == initial_cell(start_x as int, start_y as int, heading, i)
                &&& s.heading == heading
                &&& s.pending_heading == heading
                &&& s.alive
                &&& cells_distinct(s.body@)
            },
            r is Err ==> (r == Err::<Snake, ConfigError>(ConfigError::EmptyBody) || r == Err::<
                Snake,
                ConfigError,
            >(ConfigError::BodyMisplaced)),
    {
        if length == 0 {
            return Err(ConfigError::EmptyBody);
        }
        let fits = match heading {
            Direction::North => length - 1 <= usize::MAX - start_y,
            Direction::South => length - 1 <= start_y,
            Direction::East => length - 1 <= start_x,
            Direction::West => length - 1 <= usize::MAX - start_x,
        };
        if !fits {
            return Err(ConfigError::BodyMisplaced);
        }
        let mut body: Vec<Cell> = Vec::new();
        let mut i: usize = 0;
        while i < length
            invariant
                i <= length,
                1 <= length,
                body@.len() == i,
                initial_body_fits(length as int, start_x as int, start_y as int, heading),
                forall|k: int|
                    0 <= k < i ==> ((#[trigger] body@[k]).x as int, body@[k].y as int)
                        == initial_cell(start_x as int, start_y as int, heading, k),
            decreases length - i,
        {
            let c = match heading {
                Direction::North => Cell { x: start_x, y: start_y + i },
                Direction::South => Cell { x: start_x, y: start_y - i },
                Direction::East => Cell { x: start_x - i, y: start_y },
                Direction::West => Cell { x: start_x + i, y: start_y },
            };
            body.push(c);
            i += 1;
        }
        let s = Snake { body, heading, pending_heading: heading, alive: true };
        proof {
            assert(cells_distinct(s.body@)) by {
                assert forall|i: int, j: int| 0 <= i < j < s.body@.len() implies s.body@[i]
                    != s.body@[j] by {
                    assert(((s.body@[i]).x as int, (s.body@[i]).y as int) == initial_cell(
                        start_x as int,
                        start_y as int,
                        heading,
                        i,
                    ));
                    assert(((s.body@[j]).x as int, (s.body@[j]).y as int) == initial_cell(
                        start_x as int,
                        start_y as int,
                        heading,
                        j,
                    ));
                }
            }
        }
        Ok(s)
    }

    /// Computes the cell the head would enter next, or `None` when that step
    /// leaves the grid.
    pub fn next_head(&self, width: usize, height: usize) -> (r: Option<Cell>)
        requires
            self.body@.len() >= 1,
            cells_on_grid(self.body@, width as int, height as int),
        ensures
            r is Some <==> on_grid(self.next_head_spec(), width as int, height as int),
            r matches Some(c) ==> (c.x as int, c.y as int) == self.next_head_spec(),
    {
        let hx = self.body[0].x;
        let hy = self.body[0].y;
        match self.heading {
            Direction::North => {
                if hy == 0 {
                    None
                } else {
                    Some(Cell { x: hx, y: hy - 1 })
                }
            },
            Direction::South => {
                if hy + 1 >= height {
                    None
                } else {
                    Some(Cell { x: hx, y: hy + 1 })
                }
            },
            Direction::East => {
                if hx + 1 >= width {
                    None
                } else {
                    Some(Cell { x: hx + 1, y: hy })
                }
            },
            Direction::West => {
                if hx == 0 {
                    None
                } else {
                    Some(Cell { x: hx - 1, y: hy })
                }
            },
        }
    }

    /// Moves the head one step along the heading. Off the grid the snake dies
    /// with `BoundaryCollision`; onto a blocked body cell it dies with
    /// `SelfCollision`; either way the body is left untouched. Otherwise the
    /// new head is pushed in front and, unless food was eaten, the tail cell
    /// is vacated. Stepping onto the vacating tail cell is not a collision.
    /// A body without self-overlap stays without self-overlap.
    pub fn advance(&mut self, width: usize, height: usize, ate_food: bool) -> (r:
        CollisionOutcome)
        requires
            old(self).alive,
            old(self).body@.len() >= 1,
            cells_on_grid(old(self).body@, width as int, height as int),
        ensures
            r == old(self).advance_outcome(width as int, height as int, ate_food),
            r != CollisionOutcome::Moved ==> *final(self) == (Snake {
                alive: false,
                ..*old(self)
            }),
            r == CollisionOutcome::Moved ==> {
                &&& final(self).body@ == old(self).moved_body(ate_food)
                &&& final(self).body@.len() == old(self).body@.len() + (if ate_food {
                    1int
                } else {
                    0int
                })
                &&& final(self).heading == old(self).heading
                &&& final(self).pending_heading == old(self).pending_heading
                &&& final(self).alive
                &&& cells_on_grid(final(self).body@, width as int, height as int)
                &&& cells_distinct(old(self).body@) ==> cells_distinct(final(self).body@)
            },
    {
        let target = self.next_head(width, height);
        match target {
            None => {
                self.alive = false;
                CollisionOutcome::BoundaryCollision
            },
            Some(c) => {
                let limit = if ate_food {
                    self.body.len()
                } else {
                    self.body.len() - 1
                };
                let mut hit = false;
                let mut i: usize = 0;
                while i < limit
                    invariant
                        i <= limit,
                        limit <= self.body@.len(),
                        hit <==> exists|k: int|
                            0 <= k < i && (#[trigger] self.body@[k]).x == c.x && self.body@[k].y
                                == c.y,
                    decreases limit - i,
                {
                    if self.body[i].x == c.x && self.body[i].y == c.y {
                        hit = true;
                    }
                    i += 1;
                }
                if hit {
                    self.alive = false;
                    CollisionOutcome::SelfCollision
                } else {
                    let ghost prev = self.body@;
                    self.body.insert(0, c);
                    proof {
                        assert(self.body@ =~= seq![c] + prev);
                    }
                    if !ate_food {
                        self.body.pop();
                        proof {
                            assert(self.body@ =~= seq![c] + prev.drop_last());
                        }
                    }
                    proof {
                        let moved = old(self).moved_body(ate_food);
                        assert(self.body@ =~= moved);
                        let kept = if ate_food {
                            prev
                        } else {
                            prev.drop_last()
                        };
                        assert forall|k: int| 0 <= k < kept.len() implies kept[k] != c by {
                            assert(prev[k].x != c.x || prev[k].y != c.y);
                        }
                        if cells_distinct(prev) {
                            assert(cells_distinct(self.body@)) by {
                                assert forall|a: int, b: int|
                                    0 <= a < b < self.body@.len() implies self.body@[a]
                                    != self.body@[b] by {
                                    if a == 0 {
                                        assert(self.body@[b] == kept[b - 1]);
                                    } else {
                                        assert(self.body@[a] == kept[a - 1]);
                                        assert(self.body@[b] == kept[b - 1]);
                                        assert(prev[a - 1] != prev[b - 1]);
                                    }
                                }
                            }
                        }
                    }
                    CollisionOutcome::Moved
                }
            },
        }
    }

    /// Buffers `d` as the heading to apply on the next tick. The exact
    /// reverse of the current heading is ignored while the body is longer
    /// than one cell, since reversing in place would mean instant
    /// self-collision; a one-cell snake may reverse freely.
    pub fn set_pending_heading(&mut self, d: Direction)
        ensures
            *final(self) == old(self).with_pending_spec(d),
    {
        if self.body.len() > 1 && d == self.heading.opposite() {
        } else {
            self.pending_heading = d;
        }
    }
}

} // verus!
