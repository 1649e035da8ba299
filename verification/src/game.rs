//! The game state and its tick-based simulation.

use vstd::arithmetic::div_mod::lemma_fundamental_div_mod;
use vstd::arithmetic::div_mod::lemma_fundamental_div_mod_converse;
use vstd::prelude::*;
use vstd::set_lib::lemma_int_range;
use vstd::set_lib::lemma_len_subset;
use vstd::set_lib::set_int_range;

use crate::rng::random_cell;

verus! {

/// Side length of one grid cell, in pixels of the rendered frame.
pub const SQUARE_SIZE: usize = 25;

/// Side length of the default grid, in cells.
pub const GRID_DIMENSIONS: usize = 25;

/// Largest grid side accepted by a well-formed state; keeps every index
/// and pixel computation inside `usize` on any supported machine.
pub const MAX_GRID_DIMENSIONS: usize = 1000;

/// Pixel color of a cell occupied by the snake.
pub const SNAKE_COLOR: u32 = 0;

/// Pixel color of the food cell.
pub const FOOD_COLOR: u32 = 0x00FF0000;

/// Pixel color of an empty cell, also the color of a freshly built frame.
pub const EMPTY_COLOR: u32 = 0x00FFFFFF;

/// A movement intent. `Still` is the pre-movement state: the snake stands
/// still until the player issues the first directional intent.
#[derive(Clone, Copy, PartialEq, Eq, Structural, Debug)]
pub enum Direction {
    Up,
    Down,
    Left,
    Right,
    Still,
}

/// The whole game state. The grid is implicit: `grid_dimensions * grid_dimensions`
/// cells addressed by a flat index, row by row.
pub struct SnakeGame {
    /// Side length of the grid, in cells.
    pub grid_dimensions: usize,
    /// The snake body, head first, as flat grid indices.
    pub snake_position: Vec<usize>,
    /// Where the snake moves on the next tick.
    pub snake_direction: Direction,
    /// Flat grid index of the food.
    pub food: usize,
    /// Whether the snake has died; terminal until `reset`.
    pub dead: bool,
    /// The last rendered frame, one `u32` pixel per entry.
    pub windows_buffer: Vec<u32>,
}

/// All entries of the sequence differ pairwise.
pub open spec fn distinct(s: Seq<usize>) -> bool {
    forall|i: int, j: int| 0 <= i < j < s.len() ==> s[i] != s[j]
}

/// Whether `b` is the exact reverse of `a` (the forbidden neck turn).
pub open spec fn reverse_of(a: Direction, b: Direction) -> bool {
    ||| (a is Up && b is Down)
    ||| (a is Down && b is Up)
    ||| (a is Left && b is Right)
    ||| (a is Right && b is Left)
}

/// Whether a move from `head` towards `d` runs into the wall, judged on
/// the pre-move head as the boundary rules demand.
pub open spec fn blocked(head: int, d: Direction, n: int) -> bool {
    match d {
        Direction::Up => head < n,
        Direction::Down => head >= n * n - n,
        Direction::Left => head % n == 0,
        Direction::Right => (head + 1) % n == 0,
        Direction::Still => true,
    }
}

/// The grid index the head moves to under direction `d` on a grid of side `n`.
pub open spec fn next_head(head: int, d: Direction, n: int) -> int {
    match d {
        Direction::Up => head - n,
        Direction::Down => head + n,
        Direction::Left => head - 1,
        Direction::Right => head + 1,
        Direction::Still => head,
    }
}

/// The two states hold the same values, field by field.
pub open spec fn same_state(a: SnakeGame, b: SnakeGame) -> bool {
    &&& a.grid_dimensions == b.grid_dimensions
    &&& a.snake_position@ == b.snake_position@
    &&& a.snake_direction == b.snake_direction
    &&& a.food == b.food
    &&& a.dead == b.dead
    &&& a.windows_buffer@ == b.windows_buffer@
}

impl SnakeGame {
    /// The grid side, as a mathematical integer.
    pub open spec fn n(self) -> int {
        self.grid_dimensions as int
    }

    /// Number of cells of the grid.
    pub open spec fn cells(self) -> int {
        self.n() * self.n()
    }

    /// The snake body as a sequence of grid indices, head first.
    pub open spec fn snake(self) -> Seq<usize> {
        self.snake_position@
    }

    /// The current head index.
    pub open spec fn head(self) -> int {
        self.snake()[0] as int
    }

    /// Side length of the rendered frame, in pixels.
    pub open spec fn frame_side(self) -> int {
        self.n() * SQUARE_SIZE
    }

    /// Well-formedness: the grid side is positive and bounded, the snake is
    /// non-empty and on the grid, the food is on the grid and never on the
    /// snake, and the body is free of overlaps while the snake is alive.
    pub open spec fn wf(self) -> bool {
        &&& 1 <= self.n() <= MAX_GRID_DIMENSIONS
        &&& self.snake().len() >= 1
        &&& forall|i: int| 0 <= i < self.snake().len() ==> (#[trigger] self.snake()[i]) < self.cells()
        &&& (self.food as int) < self.cells()
        &&& !self.snake().contains(self.food)
        &&& (!self.dead ==> distinct(self.snake()))
    }

    /// Color of grid cell `cell` under the current state: the snake hides
    /// the food, the food hides the background.
    pub open spec fn cell_color(self, cell: usize) -> u32 {
        if self.snake().contains(cell) {
            SNAKE_COLOR
        } else if self.food == cell {
            FOOD_COLOR
        } else {
            EMPTY_COLOR
        }
    }

    /// Color of the frame pixel at column `px`, row `py`: the color of the
    /// grid cell that the pixel's square block belongs to.
    pub open spec fn pixel_color(self, px: int, py: int) -> u32 {
        self.cell_color(((py / (SQUARE_SIZE as int)) * self.n() + px / (SQUARE_SIZE as int)) as usize)
    }

    /// The whole rendered frame, one pixel per entry, row by row.
    pub open spec fn frame(self) -> Seq<u32> {
        Seq::new(
            (self.frame_side() * self.frame_side()) as nat,
            |p: int| self.pixel_color(p % self.frame_side(), p / self.frame_side()),
        )
    }
}

/// How one tick relates the state before (`pre`) to the state after
/// (`post`): a dead or still snake does not move; a wall hit on the
/// pre-move head kills without moving; otherwise the candidate head is
/// pushed in front, and the snake either grows onto the food (which is
/// then relocated off the snake), dies on a body cell (the tail not yet
/// removed), or advances by dropping its tail.
pub open spec fn tick_transition(pre: SnakeGame, post: SnakeGame) -> bool {
    let n = pre.n();
    let s = pre.snake();
    let d = pre.snake_direction;
    let h = pre.head();
    let nh = next_head(h, d, n);
    if pre.dead || d is Still {
        same_state(post, pre)
    } else {
        &&& post.grid_dimensions == pre.grid_dimensions
        &&& post.snake_direction == pre.snake_direction
        &&& post.windows_buffer@ == pre.windows_buffer@
        &&& if blocked(h, d, n) {
            &&& post.dead
            &&& post.snake() == s
            &&& post.food == pre.food
        } else if nh == pre.food as int {
            &&& !post.dead
            &&& post.snake() == s.insert(0, nh as usize)
            &&& (post.food as int) < n * n
            &&& !post.snake().contains(post.food)
        } else if s.contains(nh as usize) {
            &&& post.dead
            &&& post.snake() == s.insert(0, nh as usize)
            &&& post.food == pre.food
        } else {
            &&& !post.dead
            &&& post.snake() == s.insert(0, nh as usize).drop_last()
            &&& post.food == pre.food
        }
    }
}

/// A move that is not blocked lands on the grid.
pub proof fn lemma_next_head_in_range(h: int, d: Direction, n: int)
    requires
        1 <= n <= MAX_GRID_DIMENSIONS,
        0 <= h < n * n,
        !(d is Still),
        !blocked(h, d, n),
    ensures
        0 <= next_head(h, d, n) < n * n,
        n * n <= 1_000_000,
{
    assert((n * n) % n == 0 && (0int) % n == 0 && n * n >= n && n * n <= 1_000_000)
        by (nonlinear_arith)
        requires
            1 <= n <= 1_000,
    ;
}

/// Number of grid cells below `m` that `s` does not occupy.
spec fn free_below(s: Seq<usize>, m: int) -> int
    decreases m,
{
    if m <= 0 {
        0
    } else {
        free_below(s, m - 1) + if s.contains((m - 1) as usize) {
            0int
        } else {
            1int
        }
    }
}

proof fn lemma_free_below_nonneg(s: Seq<usize>, m: int)
    ensures
        free_below(s, m) >= 0,
    decreases m,
{
    if m > 0 {
        lemma_free_below_nonneg(s, m - 1);
    }
}

/// A free cell below `m` makes the count of free cells below `m` positive.
proof fn lemma_free_below_witness(s: Seq<usize>, w: usize, m: int)
    requires
        (w as int) < m,
        !s.contains(w),
    ensures
        free_below(s, m) >= 1,
    decreases m,
{
    if (w as int) < m - 1 {
        lemma_free_below_witness(s, w, m - 1);
        lemma_free_below_nonneg(s, m - 1);
    } else {
        lemma_free_below_nonneg(s, m - 1);
    }
}

/// Pigeonhole: a snake of fewer than `m` pairwise distinct cells, all on a
/// grid of `m` cells, leaves at least one cell free.
proof fn lemma_free_cell_exists(s: Seq<usize>, m: int)
    requires
        distinct(s),
        forall|i: int| 0 <= i < s.len() ==> (#[trigger] s[i]) < m,
        s.len() < m,
        m <= usize::MAX,
    ensures
        exists|c: usize| (c as int) < m && !s.contains(c),
{
    broadcast use vstd::seq_lib::seq_to_set_is_finite;

    let t = s.map_values(|x: usize| x as int);
    assert(t.no_duplicates());
    t.unique_seq_to_set();
    let r = set_int_range(0, m);
    lemma_int_range(0, m);
    if forall|c: usize| (c as int) < m ==> #[trigger] s.contains(c) {
        assert forall|x: int| r.contains(x) implies t.to_set().contains(x) by {
            let c = x as usize;
            assert(c as int == x);
            assert(s.contains(c));
            let i = choose|i: int| 0 <= i < s.len() && s[i] == c;
            assert(t[i] == x);
        }
        lemma_len_subset(r, t.to_set());
        assert(false);
    }
}

/// Facts about pushing a new head in front of the body.
proof fn lemma_insert_front(s: Seq<usize>, x: usize)
    ensures
        s.insert(0, x).len() == s.len() + 1,
        s.insert(0, x)[0] == x,
        forall|i: int| 0 <= i < s.len() ==> #[trigger] s.insert(0, x)[i + 1] == s[i],
        forall|y: usize| #[trigger] s.insert(0, x).contains(y) <==> (y == x || s.contains(y)),
        s.insert(0, x).drop_first() == s,
        (distinct(s) && !s.contains(x)) ==> distinct(s.insert(0, x)),
{
    let t = s.insert(0, x);
    s.insert_ensures(0, x);
    assert forall|y: usize| #[trigger] t.contains(y) <==> (y == x || s.contains(y)) by {
        if t.contains(y) {
            let i = choose|i: int| 0 <= i < t.len() && t[i] == y;
            if i != 0 {
                assert(t[(i - 1) + 1] == s[i - 1]);
                assert(s.contains(y));
            }
        }
        if y == x {
            assert(t[0] == y);
            assert(t.contains(y));
        }
        if s.contains(y) {
            let i = choose|i: int| 0 <= i < s.len() && s[i] == y;
            assert(t[i + 1] == s[i]);
            assert(t.contains(y));
        }
    }
    assert(t.drop_first() =~= s) by {
        assert forall|i: int| 0 <= i < s.len() implies t.drop_first()[i] == s[i] by {
            assert(t[i + 1] == s[i]);
        }
    }
    if distinct(s) && !s.contains(x) {
        assert forall|i: int, j: int| 0 <= i < j < t.len() implies t[i] != t[j] by {
            assert(t[(j - 1) + 1] == s[j - 1]);
            if i == 0 {
                assert(!s.contains(x));
                if t[i] == t[j] {
                    assert(s.contains(x));
                }
            } else {
                assert(t[(i - 1) + 1] == s[i - 1]);
            }
        }
    }
}

/// Facts about dropping the tail cell.
proof fn lemma_drop_last_facts(s: Seq<usize>)
    requires
        s.len() >= 1,
    ensures
        s.drop_last().len() == s.len() - 1,
        forall|i: int| 0 <= i < s.len() - 1 ==> #[trigger] s.drop_last()[i] == s[i],
        forall|y: usize| #[trigger] s.drop_last().contains(y) ==> s.contains(y),
        distinct(s) ==> distinct(s.drop_last()),
{
    assert forall|y: usize| #[trigger] s.drop_last().contains(y) implies s.contains(y) by {
        let i = choose|i: int| 0 <= i < s.drop_last().len() && s.drop_last()[i] == y;
        assert(s[i] == y);
    }
}

/// Whether `snake` occupies `cell`.
fn snake_contains(snake: &Vec<usize>, cell: usize) -> (r: bool)
    ensures
        r == snake@.contains(cell),
{
    let mut k: usize = 0;
    while k < snake.len()
        invariant
            k <= snake@.len(),
            forall|i: int| 0 <= i < k ==> snake@[i] != cell,
        decreases snake@.len() - k,
    {
        if snake[k] == cell {
            assert(snake@[k as int] == cell);
            return true;
        }
        k = k + 1;
    }
    assert(!snake@.contains(cell));
    false
}

/// A frame of uniform background color for a grid of side `grid`.
fn blank_frame(grid: usize) -> (buf: Vec<u32>)
    requires
        1 <= grid <= MAX_GRID_DIMENSIONS,
    ensures
        buf@.len() == grid * SQUARE_SIZE * (grid * SQUARE_SIZE),
        forall|p: int| 0 <= p < buf@.len() ==> buf@[p] == EMPTY_COLOR,
{
    let side = grid * SQUARE_SIZE;
    assert(side * side <= 625_000_000) by (nonlinear_arith)
        requires
            side <= 25_000,
    ;
    let total = side * side;
    let mut buf: Vec<u32> = Vec::new();
    let mut p: usize = 0;
    while p < total
        invariant
            buf@.len() == p,
            p <= total,
            forall|q: int| 0 <= q < p ==> buf@[q] == EMPTY_COLOR,
        decreases total - p,
    {
        buf.push(EMPTY_COLOR);
        p = p + 1;
    }
    buf
}

impl SnakeGame {
    /// A fresh game on the default grid: a single random snake cell, food
    /// on a random free cell, no direction yet, alive, a blank frame.
    pub fn new() -> (game: SnakeGame)
        ensures
            game.wf(),
            game.grid_dimensions == GRID_DIMENSIONS,
            game.snake().len() == 1,
            game.snake_direction is Still,
            !game.dead,
            !game.snake().contains(game.food),
            game.windows_buffer@.len() == game.frame_side() * game.frame_side(),
            forall|p: int|
                0 <= p < game.windows_buffer@.len() ==> game.windows_buffer@[p] == EMPTY_COLOR,
    {
        let start = random_cell(GRID_DIMENSIONS * GRID_DIMENSIONS);
        let mut body: Vec<usize> = Vec::new();
        body.push(start);
        let mut game = SnakeGame {
            grid_dimensions: GRID_DIMENSIONS,
            snake_position: body,
            snake_direction: Direction::Still,
            food: 0,
            dead: false,
            windows_buffer: blank_frame(GRID_DIMENSIONS),
        };
        proof {
            let w: usize = if start == 0 {
                1
            } else {
                0
            };
            assert(!game.snake_position@.contains(w));
        }
        game.create_food();
        game
    }

    /// Discards the state and reinitializes as at construction, on the same
    /// grid: a single random snake cell, food on a random free cell, no
    /// direction, alive, a blank frame. A one-cell grid is excluded: it has
    /// no room for snake and food apart.
    pub fn reset(&mut self)
        requires
            2 <= old(self).grid_dimensions <= MAX_GRID_DIMENSIONS,
        ensures
            final(self).wf(),
            final(self).grid_dimensions == old(self).grid_dimensions,
            final(self).snake().len() == 1,
            final(self).snake_direction is Still,
            !final(self).dead,
            !final(self).snake().contains(final(self).food),
            final(self).windows_buffer@.len() == final(self).frame_side() * final(self).frame_side(),
            forall|p: int|
                0 <= p < final(self).windows_buffer@.len() ==> final(self).windows_buffer@[p]
                    == EMPTY_COLOR,
    {
        let n = self.grid_dimensions;
        assert(n * n <= 1_000_000 && n * n >= 4) by (nonlinear_arith)
            requires
                2 <= n <= 1_000,
        ;
        let start = random_cell(n * n);
        let mut body: Vec<usize> = Vec::new();
        body.push(start);
        self.snake_position = body;
        self.snake_direction = Direction::Still;
        self.dead = false;
        self.windows_buffer = blank_frame(n);
        proof {
            let w: usize = if start == 0 {
                1
            } else {
                0
            };
            assert(!self.snake_position@.contains(w));
        }
        self.create_food();
    }

    /// Relocates the food to a cell the snake does not occupy, chosen
    /// uniformly at random among the free cells: one sample picks the rank,
    /// one pass takes the cell of that rank. The grid must keep at least
    /// one free cell; a full grid has no cell the food could go to.
    pub fn create_food(&mut self)
        requires
            1 <= old(self).n() <= MAX_GRID_DIMENSIONS,
            exists|c: usize|
                (c as int) < old(self).cells() && !old(self).snake_position@.contains(c),
        ensures
            final(self).grid_dimensions == old(self).grid_dimensions,
            final(self).snake_position@ == old(self).snake_position@,
            final(self).snake_direction == old(self).snake_direction,
            final(self).dead == old(self).dead,
            final(self).windows_buffer@ == old(self).windows_buffer@,
            (final(self).food as int) < old(self).cells(),
            !final(self).snake_position@.contains(final(self).food),
    {
        assert(self.grid_dimensions * self.grid_dimensions <= 1_000_000) by (nonlinear_arith)
            requires
                self.grid_dimensions <= 1_000,
        ;
        let cells = self.grid_dimensions * self.grid_dimensions;
        let ghost s = self.snake_position@;

        // Count the free cells.
        let mut count: usize = 0;
        let mut c: usize = 0;
        while c < cells
            invariant
                c <= cells,
                count == free_below(s, c as int),
                count <= c,
                s == self.snake_position@,
                same_state(*self, *old(self)),
            decreases cells - c,
        {
            if !snake_contains(&self.snake_position, c) {
                count = count + 1;
            }
            c = c + 1;
        }
        proof {
            let w = choose|w: usize|
                (w as int) < old(self).cells() && !old(self).snake_position@.contains(w);
            lemma_free_below_witness(s, w, cells as int);
        }

        // Take the free cell of a uniformly random rank.
        let rank = random_cell(count);
        let mut seen: usize = 0;
        let mut c2: usize = 0;
        while c2 < cells
            invariant
                c2 <= cells,
                seen == free_below(s, c2 as int),
                seen <= rank,
                (rank as int) < free_below(s, cells as int),
                cells == old(self).cells(),
                s == self.snake_position@,
                same_state(*self, *old(self)),
            decreases cells - c2,
        {
            if !snake_contains(&self.snake_position, c2) {
                if seen == rank {
                    self.food = c2;
                    return ;
                }
                seen = seen + 1;
            }
            c2 = c2 + 1;
        }
        proof {
            assert(false);
        }
    }

    /// Whether the head sits on the food.
    pub fn ate_food(&self) -> (r: bool)
        requires
            self.snake().len() >= 1,
        ensures
            r == (self.snake()[0] == self.food),
    {
        self.snake_position[0] == self.food
    }

    /// Whether the head sits on any other cell of the body.
    pub fn ate_himself(&self) -> (r: bool)
        requires
            self.snake().len() >= 1,
        ensures
            r == self.snake().drop_first().contains(self.snake()[0]),
    {
        let head = self.snake_position[0];
        let mut k: usize = 1;
        while k < self.snake_position.len()
            invariant
                1 <= k <= self.snake_position@.len(),
                self.snake_position@.len() >= 1,
                head == self.snake_position@[0],
                forall|i: int| 1 <= i < k ==> self.snake_position@[i] != head,
            decreases self.snake_position@.len() - k,
        {
            if self.snake_position[k] == head {
                assert(self.snake_position@.drop_first()[k - 1] == head);
                return true;
            }
            k = k + 1;
        }
        proof {
            let d = self.snake_position@.drop_first();
            assert forall|i: int| 0 <= i < d.len() implies d[i] != head by {
                assert(d[i] == self.snake_position@[i + 1]);
            }
        }
        false
    }

    /// Steers the snake. A reversal into the own neck is ignored, as is any
    /// intent on a dead snake; everything else is accepted.
    pub fn set_direction(&mut self, intent: Direction)
        requires
            !(intent is Still),
        ensures
            final(self).grid_dimensions == old(self).grid_dimensions,
            final(self).snake_position@ == old(self).snake_position@,
            final(self).food == old(self).food,
            final(self).dead == old(self).dead,
            final(self).windows_buffer@ == old(self).windows_buffer@,
            final(self).snake_direction == (if old(self).dead || reverse_of(
                old(self).snake_direction,
                intent,
            ) {
                old(self).snake_direction
            } else {
                intent
            }),
    {
        if self.dead {
            return ;
        }
        let allowed = match intent {
            Direction::Up => self.snake_direction != Direction::Down,
            Direction::Down => self.snake_direction != Direction::Up,
            Direction::Left => self.snake_direction != Direction::Right,
            Direction::Right => self.snake_direction != Direction::Left,
            Direction::Still => false,
        };
        if allowed {
            self.snake_direction = intent;
        }
    }

    /// One tick of the simulation, as `tick_transition` describes. The
    /// snake must have room left to grow onto the food: the grid is
    /// assumed larger than the snake can get.
    pub fn move_snake(&mut self)
        requires
            old(self).wf(),
            (!old(self).dead && !(old(self).snake_direction is Still)) ==> old(self).snake().len()
                + 1 < old(self).cells(),
        ensures
            final(self).wf(),
            tick_transition(*old(self), *final(self)),
    {
        if self.dead {
            return ;
        }
        let n = self.grid_dimensions;
        proof {
            assert(n * n <= 1_000_000 && n * n >= n) by (nonlinear_arith)
                requires
                    1 <= n <= 1_000,
            ;
            assert((n * n) % (n as int) == 0 && (0int) % (n as int) == 0) by (nonlinear_arith)
                requires
                    n >= 1,
            ;
        }
        let head = self.snake_position[0];
        let ghost s = self.snake_position@;
        let ghost d = self.snake_direction;
        let candidate: usize;
        match self.snake_direction {
            Direction::Still => {
                return ;
            },
            Direction::Up => {
                if head < n {
                    self.dead = true;
                    return ;
                }
                candidate = head - n;
            },
            Direction::Down => {
                if head >= n * n - n {
                    self.dead = true;
                    return ;
                }
                candidate = head + n;
            },
            Direction::Left => {
                if head % n == 0 {
                    self.dead = true;
                    return ;
                }
                candidate = head - 1;
            },
            Direction::Right => {
                if (head + 1) % n == 0 {
                    self.dead = true;
                    return ;
                }
                candidate = head + 1;
            },
        }
        proof {
            assert(!blocked(head as int, d, n as int));
            assert(candidate as int == next_head(head as int, d, n as int));
            lemma_insert_front(s, candidate);
        }
        self.snake_position.insert(0, candidate);
        let ghost t = self.snake_position@;
        proof {
            assert forall|i: int| 0 <= i < t.len() implies (#[trigger] t[i]) < old(self).cells() by {
                if i != 0 {
                    assert(t[(i - 1) + 1] == s[i - 1]);
                }
            }
        }
        if self.ate_food() {
            proof {
                lemma_free_cell_exists(t, n * n as int);
            }
            self.create_food();
        } else if self.ate_himself() {
            self.dead = true;
        } else {
            proof {
                lemma_drop_last_facts(t);
            }
            let _ = self.snake_position.pop();
        }
    }

    /// Renders the state into the pixel buffer: each grid cell becomes a
    /// square block of `SQUARE_SIZE` pixels of that cell's color.
    pub fn update_buffer(&mut self)
        requires
            old(self).wf(),
        ensures
            final(self).grid_dimensions == old(self).grid_dimensions,
            final(self).snake_position@ == old(self).snake_position@,
            final(self).snake_direction == old(self).snake_direction,
            final(self).food == old(self).food,
            final(self).dead == old(self).dead,
            final(self).windows_buffer@ == old(self).frame(),
    {
        let n = self.grid_dimensions;
        let side = n * SQUARE_SIZE;
        proof {
            assert(side * side <= 625_000_000 && n * n <= 1_000_000) by (nonlinear_arith)
                requires
                    n <= 1_000,
                    side == n * 25,
            ;
        }
        let mut buffer: Vec<u32> = Vec::new();
        let mut py: usize = 0;
        while py < side
            invariant
                py <= side,
                n == self.grid_dimensions,
                side == n * SQUARE_SIZE,
                side * side <= 625_000_000,
                n * n <= 1_000_000,
                self.wf(),
                buffer@.len() == py * side,
                forall|q: int| 0 <= q < buffer@.len() ==> buffer@[q] == self.frame()[q],
            decreases side - py,
        {
            proof {
                assert(py * side + side <= side * side) by (nonlinear_arith)
                    requires
                        py < side,
                        0 <= side,
                ;
            }
            let mut px: usize = 0;
            while px < side
                invariant
                    px <= side,
                    py < side,
                    n == self.grid_dimensions,
                    side == n * SQUARE_SIZE,
                    side * side <= 625_000_000,
                    n * n <= 1_000_000,
                    py * side + side <= side * side,
                    self.wf(),
                    buffer@.len() == py * side + px,
                    forall|q: int| 0 <= q < buffer@.len() ==> buffer@[q] == self.frame()[q],
                decreases side - px,
            {
                proof {
                    lemma_fundamental_div_mod(py as int, SQUARE_SIZE as int);
                    lemma_fundamental_div_mod(px as int, SQUARE_SIZE as int);
                    let qy = (py as int) / (SQUARE_SIZE as int);
                    let qx = (px as int) / (SQUARE_SIZE as int);
                    assert(0 <= qy < n && 0 <= qx < n);
                    assert(qy * n + qx < n * n) by (nonlinear_arith)
                        requires
                            0 <= qy < n,
                            0 <= qx < n,
                    ;
                }
                let cell = (py / SQUARE_SIZE) * n + px / SQUARE_SIZE;
                let color = if snake_contains(&self.snake_position, cell) {
                    SNAKE_COLOR
                } else if self.food == cell {
                    FOOD_COLOR
                } else {
                    EMPTY_COLOR
                };
                proof {
                    let p = (py as int) * (side as int) + (px as int);
                    lemma_fundamental_div_mod_converse(p, side as int, py as int, px as int);
                    assert(0 <= p < self.frame_side() * self.frame_side());
                    assert(self.frame()[p] == self.pixel_color(px as int, py as int));
                    assert(color == self.pixel_color(px as int, py as int));
                }
                buffer.push(color);
                px = px + 1;
            }
            py = py + 1;
            proof {
                assert((py - 1) * side + side == py * side) by (nonlinear_arith);
            }
        }
        proof {
            assert(buffer@ =~= self.frame());
        }
        self.windows_buffer = buffer;
    }
}

} // verus!
