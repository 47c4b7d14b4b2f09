//! The game state: grid, snake, food, running flag and score, with the
//! per-tick update step, the key-to-command mapping, and the frame snapshot
//! handed to a renderer.

use vstd::prelude::*;
use crate::snake::{
    Cell, CollisionOutcome, ConfigError, Direction, Snake, cells_distinct, cells_on_grid,
};

verus! {

broadcast use vstd::seq_lib::lemma_seq_contains_after_push;

/// One step of the xorshift pseudo-random generator that drives food
/// placement. Deterministic in its argument; the caller seeds it.
pub open spec fn rng_next_spec(s: u64) -> u64 {
    let a = s ^ (s << 13);
    let b = a ^ (a >> 7);
    b ^ (b << 17)
}

fn rng_next(s: u64) -> (r: u64)
    ensures
        r == rng_next_spec(s),
{
    let a = s ^ (s << 13);
    let b = a ^ (a >> 7);
    b ^ (b << 17)
}

/// The direction a key stands for, if any.
pub open spec fn key_direction(c: char) -> Option<Direction> {
    if c == 'w' {
        Some(Direction::North)
    } else if c == 's' {
        Some(Direction::South)
    } else if c == 'a' {
        Some(Direction::West)
    } else if c == 'd' {
        Some(Direction::East)
    } else {
        None
    }
}

/// Whether a key asks the game to stop.
pub open spec fn is_quit_key(c: char) -> bool {
    c == 'q'
}

/// Some cell of the `width` by `height` grid is not covered by `body`.
pub open spec fn grid_has_free_cell(width: int, height: int, body: Seq<Cell>) -> bool {
    exists|c: Cell| c.x < width && c.y < height && !(#[trigger] body.contains(c))
}

/// A snake the grid can host: non-empty, on the grid, and without
/// self-overlap.
pub open spec fn snake_fits_grid(width: int, height: int, s: Snake) -> bool {
    s.body@.len() >= 1 && cells_on_grid(s.body@, width, height) && cells_distinct(s.body@)
}

/// The cells of row `y` left of column `x` that `body` does not cover, in
/// order of growing `x`.
pub open spec fn free_row(y: int, body: Seq<Cell>, x: int) -> Seq<Cell>
    decreases x,
{
    if x <= 0 {
        Seq::empty()
    } else {
        let c = Cell { x: (x - 1) as usize, y: y as usize };
        free_row(y, body, x - 1) + (if body.contains(c) {
            Seq::<Cell>::empty()
        } else {
            seq![c]
        })
    }
}

/// The free cells of the rows above `y`, in row-major order.
pub open spec fn free_cells_upto(width: int, body: Seq<Cell>, y: int) -> Seq<Cell>
    decreases y,
{
    if y <= 0 {
        Seq::empty()
    } else {
        free_cells_upto(width, body, y - 1) + free_row(y - 1, body, width)
    }
}

/// All cells of the `width` by `height` grid that `body` does not cover, in
/// row-major order. The food is always drawn from this sequence, at the
/// index the pseudo-random generator picks.
pub open spec fn free_cells_spec(width: int, height: int, body: Seq<Cell>) -> Seq<Cell> {
    free_cells_upto(width, body, height)
}

/// The index of the food drawn from the free cells by generator value `rng`.
pub open spec fn food_index(rng: u64, count: int) -> int {
    rng as int % count
}

/// Whether `body` covers the cell `(x, y)`.
fn body_contains(body: &Vec<Cell>, x: usize, y: usize) -> (r: bool)
    ensures
        r <==> body@.contains(Cell { x, y }),
{
    let mut i: usize = 0;
    while i < body.len()
        invariant
            i <= body@.len(),
            forall|k: int| 0 <= k < i ==> (#[trigger] body@[k]) != (Cell { x, y }),
        decreases body@.len() - i,
    {
        if body[i].x == x && body[i].y == y {
            return true;
        }
        i += 1;
    }
    false
}

/// All cells of the grid not covered by `body`, in row-major order: exactly
/// the sequence `free_cells_spec` describes.
fn free_cells(width: usize, height: usize, body: &Vec<Cell>) -> (r: Vec<Cell>)
    ensures
        r@ == free_cells_spec(width as int, height as int, body@),
        forall|i: int|
            0 <= i < r@.len() ==> (#[trigger] r@[i]).x < width && r@[i].y < height
                && !body@.contains(r@[i]),
        forall|c: Cell|
            c.x < width && c.y < height && !(#[trigger] body@.contains(c)) ==> r@.contains(c),
        r@.len() >= 1 <==> grid_has_free_cell(width as int, height as int, body@),
{
    let mut r: Vec<Cell> = Vec::new();
    let mut y: usize = 0;
    while y < height
        invariant
            y <= height,
            r@ == free_cells_upto(width as int, body@, y as int),
            forall|i: int|
                0 <= i < r@.len() ==> (#[trigger] r@[i]).x < width && r@[i].y < height
                    && !body@.contains(r@[i]),
            forall|c: Cell|
                c.y < y && c.x < width && !(#[trigger] body@.contains(c)) ==> r@.contains(c),
        decreases height - y,
    {
        let mut x: usize = 0;
        proof {
            assert(r@ + free_row(y as int, body@, 0) =~= r@);
        }
        while x < width
            invariant
                x <= width,
                y < height,
                r@ == free_cells_upto(width as int, body@, y as int) + free_row(
                    y as int,
                    body@,
                    x as int,
                ),
                forall|i: int|
                    0 <= i < r@.len() ==> (#[trigger] r@[i]).x < width && r@[i].y < height
                        && !body@.contains(r@[i]),
                forall|c: Cell|
                    (c.y < y || (c.y == y && c.x < x)) && c.x < width && !(
                    #[trigger] body@.contains(c)) ==> r@.contains(c),
            decreases width - x,
        {
            let ghost upto = free_cells_upto(width as int, body@, y as int);
            let ghost row = free_row(y as int, body@, x as int);
            if !body_contains(body, x, y) {
                r.push(Cell { x, y });
                proof {
                    assert(r@ =~= upto + (row + seq![Cell { x, y }]));
                }
            } else {
                proof {
                    assert(r@ =~= upto + (row + Seq::<Cell>::empty()));
                }
            }
            proof {
                assert(free_row(y as int, body@, x + 1) == row + (if body@.contains(
                    Cell { x, y },
                ) {
                    Seq::<Cell>::empty()
                } else {
                    seq![Cell { x, y }]
                }));
            }
            x += 1;
        }
        y += 1;
    }
    proof {
        if r@.len() >= 1 {
            assert(!body@.contains(r@[0]));
        }
        if grid_has_free_cell(width as int, height as int, body@) {
            let c = choose|c: Cell|
                c.x < width && c.y < height && !(#[trigger] body@.contains(c));
            assert(r@.contains(c));
        }
    }
    r
}

/// Membership in a sequence with one cell put in front.
proof fn lemma_cons_contains(h: Cell, rest: Seq<Cell>, c: Cell)
    ensures
        (seq![h] + rest).contains(c) <==> (c == h || rest.contains(c)),
{
    let s = seq![h] + rest;
    assert(s[0] == h);
    assert(forall|i: int| 0 <= i < rest.len() ==> s[i + 1] == (#[trigger] rest[i]));
    if c == h {
        assert(s.contains(c)) by {
            assert(s[0] == c);
        }
    }
    if rest.contains(c) {
        let i = choose|i: int| 0 <= i < rest.len() && rest[i] == c;
        assert(s[i + 1] == c);
    }
    if s.contains(c) {
        let i = choose|i: int| 0 <= i < s.len() && s[i] == c;
        if i > 0 {
            assert(rest[i - 1] == c);
        }
    }
}

/// Membership in a sequence with its last cell dropped.
proof fn lemma_drop_last_contains(s: Seq<Cell>, c: Cell)
    requires
        s.len() >= 1,
    ensures
        s.contains(c) <==> (s.drop_last().contains(c) || c == s.last()),
{
    if s.drop_last().contains(c) {
        let i = choose|i: int| 0 <= i < s.drop_last().len() && s.drop_last()[i] == c;
        assert(s[i] == c);
    }
    if c == s.last() {
        assert(s[s.len() - 1] == c);
    }
    if s.contains(c) {
        let i = choose|i: int| 0 <= i < s.len() && s[i] == c;
        if i < s.len() - 1 {
            assert(s.drop_last()[i] == c);
        }
    }
}

/// A renderer-facing view of the game: grid size, the snake's cells from
/// head to tail, the food cell, and the liveness and running flags.
#[derive(Debug)]
pub struct FrameSnapshot {
    pub width: usize,
    pub height: usize,
    pub body: Vec<Cell>,
    pub food: Cell,
    pub alive: bool,
    pub running: bool,
    pub score: u64,
}

/// The whole game: grid, snake, food, the process-level `running` flag
/// (cleared only by a quit key, never by the snake's death) and the score.
#[derive(Debug)]
pub struct Game {
    pub width: usize,
    pub height: usize,
    pub snake: Snake,
    pub food: Cell,
    pub running: bool,
    pub score: u64,
    pub rng_state: u64,
}

impl Game {
    /// Well-formedness, kept by every operation: the snake lies on the grid
    /// without self-overlap, the food is on the grid and — as long as any
    /// free cell exists at all — off the snake, and the score stays below the
    /// body length (each food eaten grew the body by one cell).
    pub open spec fn wf(self) -> bool {
        &&& self.width >= 1
        &&& self.height >= 1
        &&& snake_fits_grid(self.width as int, self.height as int, self.snake)
        &&& self.food.x < self.width
        &&& self.food.y < self.height
        &&& grid_has_free_cell(self.width as int, self.height as int, self.snake.body@)
            ==> !self.snake.body@.contains(self.food)
        &&& self.score < self.snake.body@.len()
    }

    /// The snake with its buffered heading committed, as the tick's update
    /// step commits it before moving.
    pub open spec fn committed_snake(self) -> Snake {
        Snake { heading: self.snake.pending_heading, ..self.snake }
    }

    /// Whether this tick's step lands the head on the food.
    pub open spec fn eats_food(self) -> bool {
        self.committed_snake().next_head_spec() == (self.food.x as int, self.food.y as int)
    }

    /// The collision outcome this tick's update step reports.
    pub open spec fn tick_outcome(self) -> CollisionOutcome {
        self.committed_snake().advance_outcome(
            self.width as int,
            self.height as int,
            self.eats_food(),
        )
    }

    /// What one input event leaves behind: a quit key clears `running`, a
    /// direction key buffers a heading (reversals rejected by the snake), and
    /// any other key is ignored.
    pub open spec fn input_step(self, c: char) -> Game {
        if is_quit_key(c) {
            Game { running: false, ..self }
        } else {
            match key_direction(c) {
                Some(d) => Game { snake: self.snake.with_pending_spec(d), ..self },
                None => self,
            }
        }
    }

    /// A batch of input events applied in arrival order.
    pub open spec fn input_fold(self, evs: Seq<char>) -> Game
        decreases evs.len(),
    {
        if evs.len() == 0 {
            self
        } else {
            self.input_step(evs[0]).input_fold(evs.drop_first())
        }
    }

    /// Builds a game around `snake` on a `width` by `height` grid and places
    /// the first food on a cell the snake does not cover, picked by the
    /// generator seeded with `seed`. Fails when the snake does not fit the
    /// grid, or when no cell is left for the food.
    pub fn new(width: usize, height: usize, snake: Snake, seed: u64) -> (r: Result<
        Game,
        ConfigError,
    >)
        ensures
            r is Ok <==> snake_fits_grid(width as int, height as int, snake)
                && grid_has_free_cell(width as int, height as int, snake.body@),
            r == Err::<Game, ConfigError>(ConfigError::SnakeOutsideGrid) <==> !snake_fits_grid(
                width as int,
                height as int,
                snake,
            ),
            r == Err::<Game, ConfigError>(ConfigError::GridFull) <==> (snake_fits_grid(
                width as int,
                height as int,
                snake,
            ) && !grid_has_free_cell(width as int, height as int, snake.body@)),
            r matches Ok(g) ==> {
                &&& g.wf()
                &&& g.width == width
                &&& g.height == height
                &&& g.snake == snake
                &&& g.running
                &&& g.score == 0
                &&& g.rng_state == rng_next_spec(seed)
                &&& !g.snake.body@.contains(g.food)
                &&& g.food.x < width
                &&& g.food.y < height
                &&& ({
                    let free = free_cells_spec(width as int, height as int, snake.body@);
                    g.food == free[food_index(rng_next_spec(seed), free.len() as int)]
                })
            },
    {
        let n = snake.body.len();
        if n == 0 {
            return Err(ConfigError::SnakeOutsideGrid);
        }
        let mut i: usize = 0;
        while i < n
            invariant
                i <= n,
                n == snake.body@.len(),
                forall|k: int|
                    0 <= k < i ==> (#[trigger] snake.body@[k]).x < width && snake.body@[k].y
                        < height,
            decreases n - i,
        {
            if snake.body[i].x >= width || snake.body[i].y >= height {
                return Err(ConfigError::SnakeOutsideGrid);
            }
            i += 1;
        }
        let mut a: usize = 0;
        while a < n
            invariant
                a <= n,
                n == snake.body@.len(),
                forall|p: int, q: int|
                    0 <= p < q < n && p < a ==> (#[trigger] snake.body@[p]) != (
                    #[trigger] snake.body@[q]),
            decreases n - a,
        {
            let mut b: usize = a + 1;
            while b < n
                invariant
                    a < b <= n,
                    n == snake.body@.len(),
                    forall|p: int, q: int|
                        0 <= p < q < n && p < a ==> (#[trigger] snake.body@[p]) != (
                        #[trigger] snake.body@[q]),
                    forall|q: int|
                        a < q < b ==> (snake.body@[a as int]) != (#[trigger] snake.body@[q]),
                decreases n - b,
            {
                if snake.body[a].x == snake.body[b].x && snake.body[a].y == snake.body[b].y {
                    proof {
                        assert(snake.body@[a as int] == snake.body@[b as int]);
                        assert(!cells_distinct(snake.body@));
                    }
                    return Err(ConfigError::SnakeOutsideGrid);
                }
                b += 1;
            }
            a += 1;
        }
        let free = free_cells(width, height, &snake.body);
        if free.len() == 0 {
            return Err(ConfigError::GridFull);
        }
        let rng = rng_next(seed);
        let idx = (rng % (free.len() as u64)) as usize;
        proof {
            assert(idx == food_index(rng, free@.len() as int));
        }
        let food = free[idx];
        Ok(Game { width, height, snake, food, running: true, score: 0, rng_state: rng })
    }

    /// Applies one input event: 'q' stops the game; 'w', 'a', 's', 'd'
    /// buffer a heading change for the next tick (a reversal is rejected by
    /// the snake while it is longer than one cell); anything else is ignored.
    pub fn handle_input(&mut self, c: char)
        ensures
            *final(self) == old(self).input_step(c),
            old(self).wf() ==> final(self).wf(),
    {
        if c == 'q' {
            self.running = false;
        } else if c == 'w' {
            self.snake.set_pending_heading(Direction::North);
        } else if c == 's' {
            self.snake.set_pending_heading(Direction::South);
        } else if c == 'a' {
            self.snake.set_pending_heading(Direction::West);
        } else if c == 'd' {
            self.snake.set_pending_heading(Direction::East);
        }
    }

    /// Applies a drained batch of input events in arrival order. Where
    /// several direction keys arrive in one batch, each overwrites the
    /// buffered heading, so the last accepted one wins.
    pub fn apply_events(&mut self, events: &Vec<char>)
        ensures
            *final(self) == old(self).input_fold(events@),
            old(self).wf() ==> final(self).wf(),
    {
        let mut i: usize = 0;
        while i < events.len()
            invariant
                i <= events@.len(),
                *self == old(self).input_fold(events@.take(i as int)),
            decreases events@.len() - i,
        {
            let c = events[i];
            proof {
                assert(events@.take(i + 1) =~= events@.take(i as int).push(events@[i as int]));
                lemma_input_fold_snoc(*old(self), events@.take(i as int), events@[i as int]);
            }
            self.handle_input(c);
            i += 1;
        }
        proof {
            assert(events@.take(events@.len() as int) =~= events@);
            if old(self).wf() {
                lemma_input_fold_wf(*old(self), events@);
            }
        }
    }

    /// One simulation tick. On a dead snake this is a no-op. Otherwise the
    /// buffered heading is committed, the snake advances one cell, and:
    /// on a collision the snake is frozen dead with everything else as it
    /// was; on a plain move nothing but the body changes; on a move onto the
    /// food the body keeps its tail, the score goes up by one, and the food
    /// is re-placed on a cell the grown body does not cover (left where it
    /// was in the boundary case of a grid with no free cell). The body
    /// length never changes except by that one food-driven growth.
    pub fn update_snake(&mut self)
        requires
            old(self).wf(),
        ensures
            final(self).wf(),
            final(self).width == old(self).width,
            final(self).height == old(self).height,
            final(self).running == old(self).running,
            !old(self).snake.alive ==> *final(self) == *old(self),
            old(self).snake.alive ==> ({
                let o = *old(self);
                let f = *final(self);
                let out = o.tick_outcome();
                let ate = o.eats_food();
                let grew = out == CollisionOutcome::Moved && ate;
                &&& f.snake.heading == o.snake.pending_heading
                &&& f.snake.pending_heading == o.snake.pending_heading
                &&& f.snake.alive == (out == CollisionOutcome::Moved)
                &&& out != CollisionOutcome::Moved ==> f.snake.body@ == o.snake.body@
                &&& out == CollisionOutcome::Moved ==> f.snake.body@
                    == o.committed_snake().moved_body(ate)
                &&& f.snake.body@.len() == o.snake.body@.len() + (if grew {
                    1int
                } else {
                    0int
                })
                &&& !grew ==> f.food == o.food && f.score == o.score && f.rng_state == o.rng_state
                &&& grew ==> {
                    &&& f.score == o.score + 1
                    &&& f.rng_state == rng_next_spec(o.rng_state)
                    &&& grid_has_free_cell(o.width as int, o.height as int, f.snake.body@)
                        ==> !f.snake.body@.contains(f.food) && f.food.x < o.width && f.food.y
                        < o.height && ({
                        let free = free_cells_spec(
                            o.width as int,
                            o.height as int,
                            f.snake.body@,
                        );
                        f.food == free[food_index(rng_next_spec(o.rng_state), free.len() as int)]
                    })
                    &&& !grid_has_free_cell(o.width as int, o.height as int, f.snake.body@)
                        ==> f.food == o.food
                }
            }),
    {
        if !self.snake.alive {
            return ;
        }
        let old_len = self.snake.body.len();
        self.snake.heading = self.snake.pending_heading;
        let target = self.snake.next_head(self.width, self.height);
        let ate = match target {
            Some(c) => c.x == self.food.x && c.y == self.food.y,
            None => false,
        };
        proof {
            assert(ate == old(self).eats_food());
        }
        let outcome = self.snake.advance(self.width, self.height, ate);
        if ate && outcome == CollisionOutcome::Moved {
            self.score = self.score + 1;
            self.rng_state = rng_next(self.rng_state);
            let free = free_cells(self.width, self.height, &self.snake.body);
            if free.len() > 0 {
                let idx = (self.rng_state % (free.len() as u64)) as usize;
                proof {
                    assert(idx == food_index(self.rng_state, free@.len() as int));
                }
                self.food = free[idx];
            }
        }
        proof {
            let o = *old(self);
            let committed = o.committed_snake();
            let out = o.tick_outcome();
            if out == CollisionOutcome::Moved && !o.eats_food() {
                let head = Cell {
                    x: committed.next_head_spec().0 as usize,
                    y: committed.next_head_spec().1 as usize,
                };
                let prev = o.snake.body@;
                lemma_cons_contains(head, prev.drop_last(), o.food);
                // The food cell differs from the new head: this tick did not eat.
                assert(o.food != head);
                if grid_has_free_cell(o.width as int, o.height as int, self.snake.body@) {
                    if prev.contains(head) {
                        // The head stepped onto the vacating tail: the set of
                        // covered cells is unchanged, so a cell free now was
                        // free before.
                        assert forall|k: int| 0 <= k < prev.len() && prev[k] == head implies k
                            == prev.len() - 1 by {
                            if k < prev.len() - 1 {
                                assert(o.snake.hits_self(false));
                            }
                        }
                        assert(head == prev.last());
                        let c = choose|c: Cell|
                            c.x < o.width && c.y < o.height && !(
                            #[trigger] self.snake.body@.contains(c));
                        lemma_cons_contains(head, prev.drop_last(), c);
                        lemma_drop_last_contains(prev, c);
                        assert(!prev.contains(c));
                        assert(grid_has_free_cell(o.width as int, o.height as int, prev));
                        lemma_drop_last_contains(prev, o.food);
                        assert(!self.snake.body@.contains(o.food));
                    } else {
                        // The head entered a previously free cell, so the old
                        // state had a free cell and the food was off the body.
                        assert(grid_has_free_cell(o.width as int, o.height as int, prev)) by {
                            assert(!prev.contains(head));
                            assert(head.x < o.width && head.y < o.height);
                        }
                        lemma_drop_last_contains(prev, o.food);
                        assert(!self.snake.body@.contains(o.food));
                    }
                }
            }
            if out != CollisionOutcome::Moved {
                assert(self.snake.body@ == o.snake.body@);
            }
            assert(final(self).wf());
        }
    }

    /// An immutable view of the current state, sufficient for a renderer:
    /// grid size, the body cells from head to tail, the food, and the flags.
    pub fn render_map(&self) -> (r: FrameSnapshot)
        ensures
            r.width == self.width,
            r.height == self.height,
            r.body@ == self.snake.body@,
            r.food == self.food,
            r.alive == self.snake.alive,
            r.running == self.running,
            r.score == self.score,
    {
        let mut body: Vec<Cell> = Vec::new();
        let mut i: usize = 0;
        while i < self.snake.body.len()
            invariant
                i <= self.snake.body@.len(),
                body@ == self.snake.body@.take(i as int),
            decreases self.snake.body@.len() - i,
        {
            proof {
                assert(self.snake.body@.take(i + 1) =~= self.snake.body@.take(i as int).push(
                    self.snake.body@[i as int],
                ));
            }
            body.push(self.snake.body[i]);
            i += 1;
        }
        proof {
            assert(self.snake.body@.take(self.snake.body@.len() as int) =~= self.snake.body@);
        }
        FrameSnapshot {
            width: self.width,
            height: self.height,
            body,
            food: self.food,
            alive: self.snake.alive,
            running: self.running,
            score: self.score,
        }
    }
}

/// Folding one more event onto a batch is the same as applying it after the
/// batch.
proof fn lemma_input_fold_snoc(g: Game, evs: Seq<char>, c: char)
    ensures
        g.input_fold(evs.push(c)) == g.input_fold(evs).input_step(c),
    decreases evs.len(),
{
    if evs.len() == 0 {
        assert(evs.push(c)[0] == c);
        assert(evs.push(c).drop_first() =~= Seq::<char>::empty());
        assert(g.input_fold(evs.push(c)) == g.input_step(c).input_fold(
            evs.push(c).drop_first(),
        ));
        assert(g.input_step(c).input_fold(evs.push(c).drop_first()) == g.input_step(c));
        assert(g.input_fold(evs) == g);
    } else {
        let rest = evs.drop_first();
        assert(evs.push(c)[0] == evs[0]);
        assert(evs.push(c).drop_first() =~= rest.push(c));
        lemma_input_fold_snoc(g.input_step(evs[0]), rest, c);
        assert(g.input_fold(evs.push(c)) == g.input_step(evs[0]).input_fold(rest.push(c)));
        assert(g.input_fold(evs) == g.input_step(evs[0]).input_fold(rest));
    }
}

/// Input events touch only the buffered heading and the `running` flag: the
/// body, liveness, food, score and grid come through a drained batch
/// unchanged, and `running`, once cleared, is never set again.
pub proof fn lemma_input_fold_fields(g: Game, evs: Seq<char>)
    ensures
        g.input_fold(evs).width == g.width,
        g.input_fold(evs).height == g.height,
        g.input_fold(evs).snake.body == g.snake.body,
        g.input_fold(evs).snake.alive == g.snake.alive,
        g.input_fold(evs).snake.heading == g.snake.heading,
        g.input_fold(evs).food == g.food,
        g.input_fold(evs).score == g.score,
        g.input_fold(evs).rng_state == g.rng_state,
        g.input_fold(evs).running ==> g.running,
    decreases evs.len(),
{
    if evs.len() > 0 {
        lemma_input_fold_fields(g.input_step(evs[0]), evs.drop_first());
    }
}

/// Well-formedness survives any drained batch of input events.
proof fn lemma_input_fold_wf(g: Game, evs: Seq<char>)
    requires
        g.wf(),
    ensures
        g.input_fold(evs).wf(),
{
    lemma_input_fold_fields(g, evs);
}

/// A quit key anywhere in a drained batch leaves the game stopped: no later
/// event of the batch sets `running` again.
pub proof fn lemma_quit_stops(g: Game, evs: Seq<char>)
    requires
        evs.contains('q'),
    ensures
        !g.input_fold(evs).running,
    decreases evs.len(),
{
    let i = choose|i: int| 0 <= i < evs.len() && evs[i] == 'q';
    if i == 0 {
        assert(!g.input_step('q').running);
        lemma_input_fold_fields(g.input_step('q'), evs.drop_first());
    } else {
        assert(evs.drop_first()[i - 1] == 'q');
        assert(evs.drop_first().contains('q'));
        lemma_quit_stops(g.input_step(evs[0]), evs.drop_first());
    }
}

} // verus!
