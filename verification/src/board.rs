//! The board: the occupancy matrix, the snake, the food cell, and the
//! per-tick fate resolution (die / eat / move), together with the dirty-cell
//! bookkeeping for incremental redraw. The host drives it through three
//! entry points: a fixed-rate tick, a key press, and a repaint request.

use vstd::prelude::*;
use crate::coord::Coordinate;
use crate::coord::Direction;
use crate::coord::KeyCode;
use crate::snake::Snake;
use crate::snake::body_contains;
use crate::snake::lemma_body_contains_cons;
use crate::snake::lemma_body_contains_drop_last;

verus! {

/// What a grid cell holds. The renderer maps this to a color.
#[derive(Copy, Clone, Debug, PartialEq, Eq, Structural)]
pub enum Occupancy {
    Empty,
    Snake,
    Food,
}

/// The per-tick classification of the snake's proposed move.
#[derive(Copy, Clone, Debug, PartialEq, Eq, Structural)]
pub enum Fate {
    Die,
    Eat,
    Move,
}

/// The two states of the game. GameOver is terminal: once entered, ticks
/// and steering become no-ops and only repaint requests remain active.
#[derive(Copy, Clone, Debug, PartialEq, Eq, Structural)]
pub enum State {
    Playing,
    GameOver,
}

/// Some entry of the repaint listing `r` paints the cell (x, y).
pub open spec fn covered(r: Seq<(Coordinate, Occupancy)>, x: int, y: int) -> bool {
    exists|k: int| 0 <= k < r.len() && (#[trigger] r[k]).0.x == x && r[k].0.y == y
}

proof fn lemma_covered_push(r: Seq<(Coordinate, Occupancy)>, e: (Coordinate, Occupancy), x: int, y: int)
    requires
        covered(r, x, y) || (e.0.x == x && e.0.y == y),
    ensures
        covered(r.push(e), x, y),
{
    if covered(r, x, y) {
        let k = choose|k: int| 0 <= k < r.len() && (#[trigger] r[k]).0.x == x && r[k].0.y == y;
        assert(r.push(e)[k] == r[k]);
    } else {
        assert(r.push(e)[r.len() as int] == e);
    }
}

/// The height-by-width matrix of cell occupancies, with the list of cells
/// changed since the last paint.
pub struct Grid {
    pub width: usize,
    pub height: usize,
    pub cells: Vec<Vec<Occupancy>>,
    pub pending: Vec<Coordinate>,
}

impl Grid {
    /// The grid matrix has exactly `height` rows of `width` cells each, the
    /// dimensions are positive and small enough that every coordinate
    /// arithmetic step in the game fits in `isize`, and every dirty cell on
    /// record is in bounds.
    pub open spec fn wf(self) -> bool {
        &&& 1 <= self.width <= 0x4000
        &&& 1 <= self.height <= 0x4000
        &&& self.cells@.len() == self.height
        &&& forall|y: int| 0 <= y < self.height ==> (#[trigger] self.cells@[y])@.len() == self.width
        &&& forall|i: int|
            0 <= i < self.pending@.len() ==> self.in_bounds(#[trigger] self.pending@[i])
    }

    /// The coordinate lies on the grid.
    pub open spec fn in_bounds(self, c: Coordinate) -> bool {
        0 <= c.x < self.width && 0 <= c.y < self.height
    }

    /// The occupancy of cell (x, y).
    pub open spec fn at(self, x: int, y: int) -> Occupancy {
        self.cells@[y]@[x]
    }

    /// Construct a grid with every cell empty and nothing dirty.
    pub fn new(width: usize, height: usize) -> (g: Grid)
        requires
            1 <= width <= 0x4000,
            1 <= height <= 0x4000,
        ensures
            g.wf(),
            g.width == width,
            g.height == height,
            g.pending@.len() == 0,
            forall|x: int, y: int| 0 <= x < width && 0 <= y < height ==> g.at(x, y) == Occupancy::Empty,
    {
        let mut cells: Vec<Vec<Occupancy>> = Vec::new();
        let mut y: usize = 0;
        while y < height
            invariant
                y <= height,
                cells@.len() == y,
                forall|r: int| 0 <= r < y ==> (#[trigger] cells@[r])@.len() == width,
                forall|r: int, c: int|
                    0 <= r < y && 0 <= c < width ==> #[trigger] cells@[r]@[c] == Occupancy::Empty,
            decreases height - y,
        {
            let mut row: Vec<Occupancy> = Vec::new();
            let mut x: usize = 0;
            while x < width
                invariant
                    x <= width,
                    row@.len() == x,
                    forall|c: int| 0 <= c < x ==> #[trigger] row@[c] == Occupancy::Empty,
                decreases width - x,
            {
                row.push(Occupancy::Empty);
                x = x + 1;
            }
            cells.push(row);
            y = y + 1;
        }
        Grid { width, height, cells, pending: Vec::new() }
    }

    /// Write one cell's occupancy and record the cell as dirty. Every
    /// occupancy-changing write goes through here, so no change can escape
    /// the incremental redraw.
    pub fn update(&mut self, coordinate: Coordinate, occupancy: Occupancy)
        requires
            old(self).wf(),
            old(self).in_bounds(coordinate),
        ensures
            final(self).wf(),
            final(self).width == old(self).width,
            final(self).height == old(self).height,
            final(self).pending@ == old(self).pending@.push(coordinate),
            final(self).at(coordinate.x as int, coordinate.y as int) == occupancy,
            forall|x: int, y: int|
                0 <= x < old(self).width && 0 <= y < old(self).height && !(x == coordinate.x
                    && y == coordinate.y) ==> #[trigger] final(self).at(x, y) == old(self).at(x, y),
    {
        let y = coordinate.y as usize;
        let x = coordinate.x as usize;
        self.cells[y][x] = occupancy;
        self.pending.push(coordinate);
    }

    /// Produce the cells the host must repaint, each with its current
    /// occupancy: every cell when `full`, else exactly the dirty cells in
    /// the order they were changed. Either way the dirty list is drained.
    pub fn render(&mut self, full: bool) -> (r: Vec<(Coordinate, Occupancy)>)
        requires
            old(self).wf(),
        ensures
            final(self).wf(),
            final(self).width == old(self).width,
            final(self).height == old(self).height,
            final(self).cells == old(self).cells,
            final(self).pending@.len() == 0,
            forall|k: int|
                0 <= k < r@.len() ==> old(self).in_bounds((#[trigger] r@[k]).0) && r@[k].1
                    == old(self).at(r@[k].0.x as int, r@[k].0.y as int),
            full ==> r@.len() == old(self).width * old(self).height,
            full ==> forall|x: int, y: int|
                0 <= x < old(self).width && 0 <= y < old(self).height ==> covered(r@, x, y),
            !full ==> r@.len() == old(self).pending@.len(),
            !full ==> forall|k: int|
                0 <= k < r@.len() ==> (#[trigger] r@[k]).0 == old(self).pending@[k],
    {
        let mut r: Vec<(Coordinate, Occupancy)> = Vec::new();
        if full {
            let mut y: usize = 0;
            while y < self.height
                invariant
                    *self == *old(self),
                    old(self).wf(),
                    y <= self.height,
                    r@.len() == y * self.width,
                    forall|k: int|
                        0 <= k < r@.len() ==> self.in_bounds((#[trigger] r@[k]).0) && r@[k].1
                            == self.at(r@[k].0.x as int, r@[k].0.y as int),
                    forall|cx: int, cy: int|
                        0 <= cx < self.width && 0 <= cy < y ==> covered(r@, cx, cy),
                decreases self.height - y,
            {
                let mut x: usize = 0;
                while x < self.width
                    invariant
                        *self == *old(self),
                        old(self).wf(),
                        y < self.height,
                        x <= self.width,
                        r@.len() == y * self.width + x,
                        forall|k: int|
                            0 <= k < r@.len() ==> self.in_bounds((#[trigger] r@[k]).0) && r@[k].1
                                == self.at(r@[k].0.x as int, r@[k].0.y as int),
                        forall|cx: int, cy: int|
                            0 <= cx < self.width && 0 <= cy < y ==> covered(r@, cx, cy),
                        forall|cx: int| 0 <= cx < x ==> covered(r@, cx, y as int),
                    decreases self.width - x,
                {
                    let ghost r0 = r@;
                    let c = Coordinate { x: x as isize, y: y as isize };
                    let occupancy = self.cells[y][x];
                    r.push((c, occupancy));
                    proof {
                        let e = (c, occupancy);
                        assert forall|cx: int, cy: int|
                            0 <= cx < self.width && 0 <= cy < y implies covered(r@, cx, cy) by {
                            lemma_covered_push(r0, e, cx, cy);
                        }
                        assert forall|cx: int| 0 <= cx < x + 1 implies covered(r@, cx, y as int) by {
                            if cx < x {
                                lemma_covered_push(r0, e, cx, y as int);
                            } else {
                                lemma_covered_push(r0, e, x as int, y as int);
                            }
                        }
                    }
                    x = x + 1;
                }
                proof {
                    assert((y + 1) * self.width == y * self.width + self.width) by (nonlinear_arith);
                }
                y = y + 1;
            }
            proof {
                assert(y * self.width == self.width * self.height) by (nonlinear_arith)
                    requires y == self.height,
                {
                }
            }
        } else {
            let mut i: usize = 0;
            while i < self.pending.len()
                invariant
                    *self == *old(self),
                    old(self).wf(),
                    i <= self.pending@.len(),
                    r@.len() == i,
                    forall|k: int|
                        0 <= k < r@.len() ==> self.in_bounds((#[trigger] r@[k]).0) && r@[k].1
                            == self.at(r@[k].0.x as int, r@[k].0.y as int),
                    forall|k: int| 0 <= k < r@.len() ==> (#[trigger] r@[k]).0 == self.pending@[k],
                decreases self.pending@.len() - i,
            {
                let c = self.pending[i];
                let occupancy = self.cells[c.y as usize][c.x as usize];
                r.push((c, occupancy));
                i = i + 1;
            }
        }
        self.pending.clear();
        r
    }
}

/// Contract for `rand::random`: it draws a value of the type from the
/// standard distribution of the `rand` crate. Any value of the type can
/// come back, so nothing is promised of the result.
pub assume_specification<T>[ rand::random::<T> ]() -> (r: T)
    where
        rand::distributions::Standard: rand::distributions::Distribution<T>,
;

/// How many rejected random samples food placement tolerates before it
/// settles for the first free cell in row-major order. The fallback keeps
/// the sampling loop provably finite; with at least one free cell on the
/// board the chance of ever reaching it is negligible.
const FOOD_SAMPLE_TRIES: usize = 16384;

/// Draw uniformly random in-bounds coordinates until one names an empty
/// cell (rejection sampling). The board is required to have an empty cell;
/// without one no placement exists at all.
fn sample_free_cell(grid: &Grid) -> (c: Coordinate)
    requires
        grid.wf(),
        exists|x: int, y: int|
            0 <= x < grid.width && 0 <= y < grid.height && #[trigger] grid.at(x, y)
                == Occupancy::Empty,
    ensures
        grid.in_bounds(c),
        grid.at(c.x as int, c.y as int) == Occupancy::Empty,
{
    let mut tries: usize = 0;
    while tries < FOOD_SAMPLE_TRIES
        invariant
            grid.wf(),
        decreases FOOD_SAMPLE_TRIES - tries,
    {
        let x = rand::random::<usize>() % grid.width;
        let y = rand::random::<usize>() % grid.height;
        if grid.cells[y][x] == Occupancy::Empty {
            return Coordinate { x: x as isize, y: y as isize };
        }
        tries = tries + 1;
    }
    let mut y: usize = 0;
    while y < grid.height
        invariant
            grid.wf(),
            y <= grid.height,
            forall|cx: int, cy: int|
                0 <= cx < grid.width && 0 <= cy < y ==> #[trigger] grid.at(cx, cy)
                    != Occupancy::Empty,
        decreases grid.height - y,
    {
        let mut x: usize = 0;
        while x < grid.width
            invariant
                grid.wf(),
                y < grid.height,
                x <= grid.width,
                forall|cx: int, cy: int|
                    0 <= cx < grid.width && 0 <= cy < y ==> #[trigger] grid.at(cx, cy)
                        != Occupancy::Empty,
                forall|cx: int|
                    0 <= cx < x ==> #[trigger] grid.at(cx, y as int) != Occupancy::Empty,
            decreases grid.width - x,
        {
            if grid.cells[y][x] == Occupancy::Empty {
                return Coordinate { x: x as isize, y: y as isize };
            }
            x = x + 1;
        }
        y = y + 1;
    }
    proof {
        let (wx, wy) = choose|wx: int, wy: int|
            0 <= wx < grid.width && 0 <= wy < grid.height && #[trigger] grid.at(wx, wy)
                == Occupancy::Empty;
        assert(grid.at(wx, wy) != Occupancy::Empty);
        assert(false);
    }
    Coordinate { x: 0, y: 0 }
}

/// The whole game state: grid, snake, food, the Playing/GameOver state, and the
/// flag that forces the first paint after construction to be a full one.
pub struct App {
    pub grid: Grid,
    pub repaint_all: bool,
    pub snake: Snake,
    pub food: Coordinate,
    pub state: State,
}

impl App {
    /// The body occupies cell (x, y).
    pub open spec fn body_at(self, x: int, y: int) -> bool {
        body_contains(self.snake.body@, x, y)
    }

    /// The occupancy the game state assigns to a cell: snake cells first,
    /// then the food cell, everything else empty.
    pub open spec fn cell_of(self, x: int, y: int) -> Occupancy {
        if self.body_at(x, y) {
            Occupancy::Snake
        } else if self.food.x == x && self.food.y == y {
            Occupancy::Food
        } else {
            Occupancy::Empty
        }
    }

    /// The grid marks the snake cells and nothing else; the food cell is
    /// not marked yet. This is the state in which food is (re)placed.
    pub open spec fn snake_only_grid(self) -> bool {
        forall|x: int, y: int|
            0 <= x < self.grid.width && 0 <= y < self.grid.height ==> #[trigger] self.grid.at(x, y)
                == (if self.body_at(x, y) {
                    Occupancy::Snake
                } else {
                    Occupancy::Empty
                })
    }

    /// Some in-bounds cell is free of the snake body, so food placement
    /// can succeed.
    pub open spec fn has_free_cell(self) -> bool {
        exists|x: int, y: int|
            0 <= x < self.grid.width && 0 <= y < self.grid.height && !(#[trigger] self.body_at(
                x,
                y,
            ))
    }

    /// Some in-bounds cell would remain free of the snake even after it ate
    /// the food this tick. On a board the snake has otherwise filled, the
    /// rejection-sampling food placement has nowhere to put the food, so a
    /// tick that eats is only specified under this condition.
    pub open spec fn room_after_eating(self) -> bool {
        exists|x: int, y: int|
            0 <= x < self.grid.width && 0 <= y < self.grid.height && !(#[trigger] self.body_at(
                x,
                y,
            )) && !(x == self.food.x && y == self.food.y)
    }

    /// Invariant of every reachable board: a well-formed grid, a well-formed
    /// snake of length at least two lying on the grid, an in-bounds food
    /// cell never on the snake body, and a grid whose every cell shows
    /// exactly the occupancy the game state assigns to it.
    pub open spec fn wf(self) -> bool {
        &&& self.grid.wf()
        &&& self.snake.wf()
        &&& self.snake.body@.len() >= 2
        &&& forall|i: int|
            0 <= i < self.snake.body@.len() ==> self.grid.in_bounds(#[trigger] self.snake.body@[i])
        &&& self.grid.in_bounds(self.food)
        &&& !self.body_at(self.food.x as int, self.food.y as int)
        &&& forall|x: int, y: int|
            0 <= x < self.grid.width && 0 <= y < self.grid.height ==> #[trigger] self.grid.at(x, y)
                == self.cell_of(x, y)
    }

    /// Build the starting board: an empty grid of the given dimensions, a
    /// horizontal snake of `init_len` cells heading Right with its head at
    /// (init_len - 1, height / 2), and a freshly placed food cell.
    pub fn new(width: usize, height: usize, init_len: usize) -> (app: App)
        requires
            2 <= init_len <= width,
            1 <= height,
            width <= 0x4000,
            height <= 0x4000,
            init_len < width * height,
        ensures
            app.wf(),
            app.grid.width == width,
            app.grid.height == height,
            app.state == State::Playing,
            app.repaint_all == true,
            app.snake.direction == Direction::Right,
            app.snake.body@.len() == init_len,
            forall|i: int|
                0 <= i < init_len ==> (#[trigger] app.snake.body@[i]).x == init_len - 1 - i
                    && app.snake.body@[i].y == height as int / 2,
    {
        let head = Coordinate { x: (init_len - 1) as isize, y: (height / 2) as isize };
        let snake = Snake::new(head, init_len);
        let mut grid = Grid::new(width, height);
        let mut i: usize = 0;
        while i < init_len
            invariant
                i <= init_len,
                grid.wf(),
                grid.width == width,
                grid.height == height,
                snake.wf(),
                snake.body@.len() == init_len,
                2 <= init_len <= width <= 0x4000,
                1 <= height <= 0x4000,
                forall|j: int|
                    0 <= j < init_len ==> (#[trigger] snake.body@[j]).x == init_len - 1 - j
                        && snake.body@[j].y == height as int / 2,
                forall|x: int, y: int|
                    0 <= x < width && 0 <= y < height ==> #[trigger] grid.at(x, y) == (
                    if exists|j: int|
                        0 <= j < i && (#[trigger] snake.body@[j]).x == x && snake.body@[j].y == y {
                        Occupancy::Snake
                    } else {
                        Occupancy::Empty
                    }),
            decreases init_len - i,
        {
            let ghost g0 = grid;
            let c = snake.body[i];
            grid.update(c, Occupancy::Snake);
            proof {
                assert forall|x: int, y: int| 0 <= x < width && 0 <= y < height implies #[trigger] grid.at(
                    x,
                    y,
                ) == (if exists|j: int|
                    0 <= j < i + 1 && (#[trigger] snake.body@[j]).x == x && snake.body@[j].y == y {
                    Occupancy::Snake
                } else {
                    Occupancy::Empty
                }) by {
                    if x == c.x && y == c.y {
                        assert(snake.body@[i as int].x == x && snake.body@[i as int].y == y);
                    } else {
                        assert(grid.at(x, y) == g0.at(x, y));
                    }
                }
            }
            i = i + 1;
        }
        let mut app = App {
            grid,
            repaint_all: true,
            snake,
            food: Coordinate { x: 0, y: 0 },
            state: State::Playing,
        };
        proof {
            assert(app.snake_only_grid());
            if height >= 2 {
                assert(height as int / 2 >= 1);
                assert(!app.body_at(0, 0));
            } else {
                assert(init_len < width);
                assert(!app.body_at(width - 1, 0));
            }
            assert(app.has_free_cell());
        }
        app.renew_food();
        app
    }

    /// Pick a uniformly random free cell, make it the food cell, and mark
    /// it on the grid. Food is never placed on a cell occupied by the snake
    /// body at the moment of placement. The previous food cell is not
    /// touched: by the time this runs it has already been overwritten.
    pub fn renew_food(&mut self)
        requires
            old(self).grid.wf(),
            old(self).snake.wf(),
            old(self).snake.body@.len() >= 2,
            forall|i: int|
                0 <= i < old(self).snake.body@.len() ==> old(self).grid.in_bounds(
                    #[trigger] old(self).snake.body@[i],
                ),
            old(self).snake_only_grid(),
            old(self).has_free_cell(),
        ensures
            final(self).wf(),
            final(self).grid.width == old(self).grid.width,
            final(self).grid.height == old(self).grid.height,
            final(self).snake == old(self).snake,
            final(self).state == old(self).state,
            final(self).repaint_all == old(self).repaint_all,
            !final(self).body_at(final(self).food.x as int, final(self).food.y as int),
            final(self).grid.in_bounds(final(self).food),
            final(self).grid.pending@ == old(self).grid.pending@.push(final(self).food),
            final(self).grid.at(final(self).food.x as int, final(self).food.y as int)
                == Occupancy::Food,
            forall|x: int, y: int|
                0 <= x < old(self).grid.width && 0 <= y < old(self).grid.height
                    && !(x == final(self).food.x && y == final(self).food.y)
                    ==> #[trigger] final(self).grid.at(x, y) == old(self).grid.at(x, y),
    {
        proof {
            let (wx, wy) = choose|wx: int, wy: int|
                0 <= wx < self.grid.width && 0 <= wy < self.grid.height && !(
                #[trigger] self.body_at(wx, wy));
            assert(self.grid.at(wx, wy) == Occupancy::Empty);
        }
        let c = sample_free_cell(&self.grid);
        proof {
            assert(!old(self).body_at(c.x as int, c.y as int));
        }
        self.food = c;
        self.grid.update(c, Occupancy::Food);
        proof {
            assert forall|x: int, y: int|
                0 <= x < self.grid.width && 0 <= y < self.grid.height implies #[trigger] self.grid.at(
                x,
                y,
            ) == self.cell_of(x, y) by {
                if !(x == c.x && y == c.y) {
                    assert(self.grid.at(x, y) == old(self).grid.at(x, y));
                    assert(old(self).grid.at(x, y) == (if old(self).body_at(x, y) {
                        Occupancy::Snake
                    } else {
                        Occupancy::Empty
                    }));
                }
            }
        }
    }

    /// Let the host place the food at a chosen free cell; the previous food
    /// cell is vacated. Intended for hosts that want a scripted game rather
    /// than a random one.
    pub fn set_food(&mut self, c: Coordinate)
        requires
            old(self).wf(),
            old(self).grid.in_bounds(c),
            !old(self).body_at(c.x as int, c.y as int),
        ensures
            final(self).wf(),
            final(self).food == c,
            final(self).snake == old(self).snake,
            final(self).state == old(self).state,
            final(self).repaint_all == old(self).repaint_all,
            final(self).grid.width == old(self).grid.width,
            final(self).grid.height == old(self).grid.height,
            final(self).grid.pending@ == old(self).grid.pending@.push(old(self).food).push(c),
            forall|x: int, y: int|
                0 <= x < old(self).grid.width && 0 <= y < old(self).grid.height && !(x == c.x && y
                    == c.y) && !(x == old(self).food.x && y == old(self).food.y)
                    ==> #[trigger] final(self).grid.at(x, y) == old(self).grid.at(x, y),
    {
        let prev = self.food;
        self.grid.update(prev, Occupancy::Empty);
        self.food = c;
        self.grid.update(c, Occupancy::Food);
        proof {
            assert forall|x: int, y: int|
                0 <= x < self.grid.width && 0 <= y < self.grid.height implies #[trigger] self.grid.at(
                x,
                y,
            ) == self.cell_of(x, y) by {
                if x == c.x && y == c.y {
                } else if x == prev.x && y == prev.y {
                    assert(old(self).grid.at(x, y) == old(self).cell_of(x, y));
                } else {
                    assert(self.grid.at(x, y) == old(self).grid.at(x, y));
                    assert(old(self).grid.at(x, y) == old(self).cell_of(x, y));
                }
            }
        }
    }

    /// The fate of the snake's proposed move this tick: out of bounds or
    /// onto its own body is fatal, onto the food cell eats, onto an empty
    /// cell moves.
    pub open spec fn spec_fate(self) -> Fate {
        let nx = self.snake.next_x();
        let ny = self.snake.next_y();
        if !(0 <= nx < self.grid.width && 0 <= ny < self.grid.height) {
            Fate::Die
        } else {
            match self.grid.at(nx, ny) {
                Occupancy::Empty => Fate::Move,
                Occupancy::Food => Fate::Eat,
                Occupancy::Snake => Fate::Die,
            }
        }
    }

    /// Classify the snake's proposed move. The bounds check here is the
    /// sole gate in front of the grid lookup.
    pub fn determine_fate(&self) -> (f: Fate)
        requires
            self.wf(),
        ensures
            f == self.spec_fate(),
    {
        let c = self.snake.next_head();
        if c.x >= 0 && (c.x as usize) < self.grid.width && c.y >= 0 && (c.y as usize)
            < self.grid.height {
            match self.grid.cells[c.y as usize][c.x as usize] {
                Occupancy::Empty => Fate::Move,
                Occupancy::Food => Fate::Eat,
                Occupancy::Snake => Fate::Die,
            }
        } else {
            Fate::Die
        }
    }

    /// One tick of the game. After game-over this is a no-op. Otherwise the
    /// proposed move is classified and applied: a fatal move freezes the
    /// board in the GameOver state; a move shifts the snake and vacates
    /// exactly its old tail cell; an eating move grows the snake by one at
    /// the head, vacates nothing, and places new food.
    pub fn update(&mut self)
        requires
            old(self).wf(),
            old(self).spec_fate() == Fate::Eat ==> old(self).room_after_eating(),
        ensures
            final(self).wf(),
            final(self).grid.width == old(self).grid.width,
            final(self).grid.height == old(self).grid.height,
            final(self).repaint_all == old(self).repaint_all,
            old(self).state == State::GameOver ==> *final(self) == *old(self),
            old(self).state == State::Playing && old(self).spec_fate() == Fate::Die ==> {
                &&& final(self).state == State::GameOver
                &&& final(self).snake == old(self).snake
                &&& final(self).grid == old(self).grid
                &&& final(self).food == old(self).food
            },
            old(self).state == State::Playing && old(self).spec_fate() == Fate::Move ==> {
                &&& final(self).state == State::Playing
                &&& final(self).food == old(self).food
                &&& final(self).snake.direction == old(self).snake.direction
                &&& final(self).snake.body@.len() == old(self).snake.body@.len()
                &&& final(self).snake.body@ == seq![final(self).snake.body@[0]] + old(
                    self,
                ).snake.body@.drop_last()
                &&& final(self).snake.body@[0].x == old(self).snake.next_x()
                &&& final(self).snake.body@[0].y == old(self).snake.next_y()
                &&& final(self).grid.pending@ == old(self).grid.pending@.push(
                    final(self).snake.body@[0],
                ).push(old(self).snake.body@.last())
            },
            old(self).state == State::Playing && old(self).spec_fate() == Fate::Eat ==> {
                &&& final(self).state == State::Playing
                &&& final(self).snake.direction == old(self).snake.direction
                &&& final(self).snake.body@ == seq![final(self).snake.body@[0]] + old(
                    self,
                ).snake.body@
                &&& final(self).snake.body@.len() == old(self).snake.body@.len() + 1
                &&& final(self).snake.body@[0].x == old(self).snake.next_x()
                &&& final(self).snake.body@[0].y == old(self).snake.next_y()
                &&& final(self).grid.pending@ == old(self).grid.pending@.push(
                    final(self).snake.body@[0],
                ).push(final(self).food)
            },
    {
        if self.state == State::Playing {
            let fate = self.determine_fate();
            match fate {
                Fate::Die => {
                    self.state = State::GameOver;
                },
                Fate::Eat => {
                    proof {
                        assert(!old(self).snake.hits_body());
                        assert(old(self).food.x == old(self).snake.next_x() && old(
                            self,
                        ).food.y == old(self).snake.next_y());
                    }
                    let (new_head, _old_tail) = self.snake.update(true);
                    let ghost mid = *self;
                    self.grid.update(new_head, Occupancy::Snake);
                    proof {
                        let oldb = old(self).snake.body@;
                        let newb = self.snake.body@;
                        assert(newb == seq![new_head] + oldb);
                        assert forall|x: int, y: int|
                            0 <= x < self.grid.width && 0 <= y < self.grid.height implies #[trigger] self.grid.at(
                            x,
                            y,
                        ) == (if self.body_at(x, y) {
                            Occupancy::Snake
                        } else {
                            Occupancy::Empty
                        }) by {
                            lemma_body_contains_cons(oldb, new_head, x, y);
                            if x == new_head.x && y == new_head.y {
                            } else {
                                assert(self.grid.at(x, y) == old(self).grid.at(x, y));
                                assert(old(self).grid.at(x, y) == old(self).cell_of(x, y));
                            }
                        }
                        assert(self.snake_only_grid());
                        let (wx, wy) = choose|wx: int, wy: int|
                            0 <= wx < old(self).grid.width && 0 <= wy < old(self).grid.height && !(
                            #[trigger] old(self).body_at(wx, wy)) && !(wx == old(self).food.x && wy
                                == old(self).food.y);
                        lemma_body_contains_cons(oldb, new_head, wx, wy);
                        assert(!self.body_at(wx, wy));
                        assert(self.has_free_cell());
                    }
                    self.renew_food();
                },
                Fate::Move => {
                    proof {
                        assert(old(self).cell_of(
                            old(self).snake.next_x(),
                            old(self).snake.next_y(),
                        ) == Occupancy::Empty);
                        assert(!old(self).snake.hits_body());
                    }
                    let (new_head, old_tail) = self.snake.update(false);
                    self.grid.update(new_head, Occupancy::Snake);
                    match old_tail {
                        Some(tail) => {
                            proof {
                                let oldb = old(self).snake.body@;
                                assert(tail == oldb.last());
                                lemma_body_contains_drop_last(oldb, new_head.x as int, new_head.y as int);
                                assert(!(new_head.x == tail.x && new_head.y == tail.y));
                            }
                            self.grid.update(tail, Occupancy::Empty);
                            proof {
                                let oldb = old(self).snake.body@;
                                let newb = self.snake.body@;
                                assert(newb == seq![new_head] + oldb.drop_last());
                                assert forall|x: int, y: int|
                                    0 <= x < self.grid.width && 0 <= y
                                        < self.grid.height implies #[trigger] self.grid.at(x, y)
                                    == self.cell_of(x, y) by {
                                    lemma_body_contains_cons(oldb.drop_last(), new_head, x, y);
                                    lemma_body_contains_drop_last(oldb, x, y);
                                    if x == new_head.x && y == new_head.y {
                                    } else if x == tail.x && y == tail.y {
                                        assert(old(self).grid.at(x, y) == old(self).cell_of(x, y));
                                        if body_contains(oldb.drop_last(), x, y) {
                                            let i = choose|i: int|
                                                0 <= i < oldb.drop_last().len() && (
                                                #[trigger] oldb.drop_last()[i]).x == x
                                                    && oldb.drop_last()[i].y == y;
                                            assert(oldb[i] == oldb.drop_last()[i]);
                                            assert(oldb[i] != oldb.last());
                                            assert(false);
                                        }
                                    } else {
                                        assert(self.grid.at(x, y) == old(self).grid.at(x, y));
                                        assert(old(self).grid.at(x, y) == old(self).cell_of(x, y));
                                    }
                                }
                                assert(!self.body_at(self.food.x as int, self.food.y as int)) by {
                                    lemma_body_contains_cons(
                                        oldb.drop_last(),
                                        new_head,
                                        self.food.x as int,
                                        self.food.y as int,
                                    );
                                    lemma_body_contains_drop_last(
                                        oldb,
                                        self.food.x as int,
                                        self.food.y as int,
                                    );
                                }
                            }
                        },
                        None => {
                            proof {
                                assert(false);
                            }
                        },
                    }
                },
            }
        }
    }

    /// Pigeonhole law behind food placement: as long as the snake body and
    /// the food together occupy fewer cells than the grid has, some
    /// in-bounds cell is free of both, so a tick that eats has room for new
    /// food. A caller can discharge the eating precondition of `update`
    /// from a simple length count with this.
    pub proof fn lemma_room_from_count(self)
        requires
            self.wf(),
            self.snake.body@.len() + 1 < self.grid.width * self.grid.height,
        ensures
            self.room_after_eating(),
    {
        broadcast use vstd::seq_lib::seq_to_set_is_finite;

        let w = self.grid.width as int;
        let h = self.grid.height as int;
        let b = self.snake.body@;
        let codes = b.map_values(|c: Coordinate| c.y * w + c.x).push(
            self.food.y * w + self.food.x,
        );
        let occupied = codes.to_set();
        codes.lemma_cardinality_of_set();
        vstd::set_lib::lemma_int_range(0, w * h);
        let all = vstd::set_lib::set_int_range(0, w * h);
        if forall|k: int| 0 <= k < w * h ==> #[trigger] occupied.contains(k) {
            assert(all.subset_of(occupied));
            vstd::set_lib::lemma_len_subset(all, occupied);
            assert(false);
        }
        let k = choose|k: int| 0 <= k < w * h && !(#[trigger] occupied.contains(k));
        vstd::arithmetic::div_mod::lemma_mod_bound(k, w);
        vstd::arithmetic::div_mod::lemma_fundamental_div_mod(k, w);
        vstd::arithmetic::div_mod::lemma_multiply_divide_lt(k, w, h);
        let cx = k % w;
        let cy = k / w;
        assert(0 <= cx < w && 0 <= cy < h);
        assert(cy * w == w * cy) by (nonlinear_arith);
        assert(k == cy * w + cx);
        if self.body_at(cx, cy) {
            let i = choose|i: int| 0 <= i < b.len() && (#[trigger] b[i]).x == cx && b[i].y == cy;
            assert(codes[i] == b[i].y * w + b[i].x);
            assert(codes[i] == k);
            assert(codes.contains(k));
            assert(false);
        }
        if self.food.x == cx && self.food.y == cy {
            assert(codes.last() == k);
            assert(codes.contains(k));
            assert(false);
        }
        assert(!self.body_at(cx, cy) && !(cx == self.food.x && cy == self.food.y));
    }

    /// The heading a key press leaves the snake with: after game-over or on
    /// an unrecognized key nothing changes; otherwise the anti-reversal
    /// rule of `Snake::try_redirect` decides.
    pub open spec fn spec_steer(self, key: KeyCode) -> Direction {
        if self.state == State::GameOver {
            self.snake.direction
        } else {
            match key {
                KeyCode::Up => self.snake.redirect_result(Direction::Up),
                KeyCode::Down => self.snake.redirect_result(Direction::Down),
                KeyCode::Left => self.snake.redirect_result(Direction::Left),
                KeyCode::Right => self.snake.redirect_result(Direction::Right),
                KeyCode::Other => self.snake.direction,
            }
        }
    }

    /// Steer the snake from a key press. Ignored entirely once the game is
    /// over; unrecognized keys have no effect; a recognized direction is
    /// subject to the anti-reversal rule.
    pub fn button_pressed(&mut self, key: KeyCode)
        requires
            old(self).wf(),
        ensures
            final(self).wf(),
            final(self).grid == old(self).grid,
            final(self).food == old(self).food,
            final(self).state == old(self).state,
            final(self).repaint_all == old(self).repaint_all,
            final(self).snake.body == old(self).snake.body,
            final(self).snake.direction == old(self).spec_steer(key),
    {
        if self.state == State::Playing {
            match Direction::from_key(key) {
                Some(d) => {
                    self.snake.try_redirect(d);
                },
                None => {},
            }
        }
    }

    /// Hand the host the cells it must repaint, each with its current
    /// occupancy: every cell on the first paint after construction or when
    /// the host asks for a full repaint, else exactly the cells dirtied
    /// since the previous paint. Either way the dirty list is drained, so a
    /// second repaint with no intervening tick or key event paints nothing.
    pub fn render(&mut self, full: bool) -> (r: Vec<(Coordinate, Occupancy)>)
        requires
            old(self).wf(),
        ensures
            final(self).wf(),
            final(self).snake == old(self).snake,
            final(self).food == old(self).food,
            final(self).state == old(self).state,
            final(self).grid.cells == old(self).grid.cells,
            final(self).grid.width == old(self).grid.width,
            final(self).grid.height == old(self).grid.height,
            final(self).repaint_all == false,
            final(self).grid.pending@.len() == 0,
            forall|k: int|
                0 <= k < r@.len() ==> old(self).grid.in_bounds((#[trigger] r@[k]).0) && r@[k].1
                    == old(self).grid.at(r@[k].0.x as int, r@[k].0.y as int),
            (full || old(self).repaint_all) ==> r@.len() == old(self).grid.width * old(
                self,
            ).grid.height,
            (full || old(self).repaint_all) ==> forall|x: int, y: int|
                0 <= x < old(self).grid.width && 0 <= y < old(self).grid.height ==> covered(
                    r@,
                    x,
                    y,
                ),
            !(full || old(self).repaint_all) ==> r@.len() == old(self).grid.pending@.len(),
            !(full || old(self).repaint_all) ==> forall|k: int|
                0 <= k < r@.len() ==> (#[trigger] r@[k]).0 == old(self).grid.pending@[k],
            !full && !old(self).repaint_all && old(self).grid.pending@.len() == 0 ==> r@.len()
                == 0,
    {
        let effective = full || self.repaint_all;
        let r = self.grid.render(effective);
        self.repaint_all = false;
        proof {
            assert forall|x: int, y: int|
                0 <= x < self.grid.width && 0 <= y < self.grid.height implies #[trigger] self.grid.at(
                x,
                y,
            ) == self.cell_of(x, y) by {
                assert(self.grid.cells@[y] == old(self).grid.cells@[y]);
                assert(self.grid.at(x, y) == old(self).grid.at(x, y));
                assert(old(self).grid.at(x, y) == old(self).cell_of(x, y));
            }
        }
        r
    }
}

} // verus!
