//! One partition's grid of cells and the Life transition rule, with
//! generation bookkeeping: a cell may only be advanced while the time
//! relationship to each of its neighbours is unambiguous.

use vstd::prelude::*;

verus! {

/// Immutable snapshot of one grid position: its life state, the generation
/// that state belongs to, and the life state one generation earlier.
#[derive(Copy, Clone, Debug, PartialEq, Eq, Structural)]
pub struct Cell {
    pub alive: bool,
    pub iteration: usize,
    pub previous_alive: bool,
}

impl Cell {
    pub fn new(alive: bool, iteration: usize, previous_alive: bool) -> (c: Cell)
        ensures
            c == (Cell { alive, iteration, previous_alive }),
    {
        Cell { alive, iteration, previous_alive }
    }

    pub fn get_iteration(&self) -> (r: usize)
        ensures
            r == self.iteration,
    {
        self.iteration
    }

    pub fn get_previous_alive(&self) -> (r: bool)
        ensures
            r == self.previous_alive,
    {
        self.previous_alive
    }
}

/// A grid is modelled as a sequence of columns: `m[x][y]` is the cell at
/// column `x`, row `y`.
pub open spec fn in_grid(m: Seq<Seq<Cell>>, x: int, y: int) -> bool {
    0 <= x < m.len() && 0 <= y < m[x].len()
}

/// A neighbour's snapshot can serve a cell computing generation `it + 1`
/// when it is at `it` itself, or exactly one generation ahead (its
/// `previous_alive` then records its state at `it`).
pub open spec fn usable_at(c: Cell, it: nat) -> bool {
    c.iteration == it || c.iteration == it + 1
}

/// The life state a usable snapshot reports for generation `it`.
pub open spec fn live_at(c: Cell, it: nat) -> bool {
    if c.iteration == it {
        c.alive
    } else {
        c.previous_alive
    }
}

/// An out-of-grid neighbour is skipped, so it never blocks readiness.
pub open spec fn neighbour_ready(m: Seq<Seq<Cell>>, x: int, y: int, it: nat) -> bool {
    in_grid(m, x, y) ==> usable_at(m[x][y], it)
}

pub open spec fn neighbour_live(m: Seq<Seq<Cell>>, x: int, y: int, it: nat) -> bool {
    in_grid(m, x, y) && usable_at(m[x][y], it) && live_at(m[x][y], it)
}

pub open spec fn live_contrib(m: Seq<Seq<Cell>>, x: int, y: int, it: nat) -> nat {
    if neighbour_live(m, x, y, it) {
        1
    } else {
        0
    }
}

/// All eight Moore neighbours of `(x, y)` have an unambiguous time
/// relationship to generation `it`.
pub open spec fn neighbours_ready(m: Seq<Seq<Cell>>, x: int, y: int, it: nat) -> bool {
    &&& neighbour_ready(m, x - 1, y - 1, it)
    &&& neighbour_ready(m, x - 1, y, it)
    &&& neighbour_ready(m, x - 1, y + 1, it)
    &&& neighbour_ready(m, x, y - 1, it)
    &&& neighbour_ready(m, x, y + 1, it)
    &&& neighbour_ready(m, x + 1, y - 1, it)
    &&& neighbour_ready(m, x + 1, y, it)
    &&& neighbour_ready(m, x + 1, y + 1, it)
}

/// How many of the eight Moore neighbours are alive at generation `it`.
pub open spec fn live_neighbour_count(m: Seq<Seq<Cell>>, x: int, y: int, it: nat) -> nat {
    live_contrib(m, x - 1, y - 1, it) + live_contrib(m, x - 1, y, it) + live_contrib(
        m,
        x - 1,
        y + 1,
        it,
    ) + live_contrib(m, x, y - 1, it) + live_contrib(m, x, y + 1, it) + live_contrib(
        m,
        x + 1,
        y - 1,
        it,
    ) + live_contrib(m, x + 1, y, it) + live_contrib(m, x + 1, y + 1, it)
}

/// Conway's rule: a live cell survives with two or three live neighbours; a
/// dead cell becomes alive with exactly three.
pub open spec fn life_rule(alive: bool, n: nat) -> bool {
    if alive {
        2 <= n <= 3
    } else {
        n == 3
    }
}

/// The successor snapshot of a cell with `n` live neighbours.
pub open spec fn next_of(c: Cell, n: nat) -> Cell {
    Cell {
        alive: life_rule(c.alive, n),
        iteration: (c.iteration + 1) as usize,
        previous_alive: c.alive,
    }
}

/// The cell a freshly built board holds at `(x, y)` for a given seed of
/// initially alive coordinates.
pub open spec fn init_cell(seed: Seq<(u32, u32)>, x: u32, y: u32) -> Cell {
    Cell { alive: seed.contains((x, y)), iteration: 0, previous_alive: false }
}

/// A dense `width x height` grid of cells, stored as columns.
pub struct Board {
    pub width: u32,
    pub height: u32,
    pub cells: Vec<Vec<Cell>>,
}

impl View for Board {
    type V = Seq<Seq<Cell>>;

    open spec fn view(&self) -> Seq<Seq<Cell>> {
        Seq::new(self.cells@.len(), |i: int| self.cells@[i]@)
    }
}

impl Board {
    /// Every in-bounds coordinate has exactly one cell.
    pub open spec fn wf(&self) -> bool {
        &&& self.cells@.len() == self.width as int
        &&& forall|i: int|
            0 <= i < self.cells@.len() ==> (#[trigger] self.cells@[i])@.len() == self.height as int
    }

    pub open spec fn spec_within(&self, x: u32, y: u32) -> bool {
        x < self.width && y < self.height
    }

    pub open spec fn spec_cell(&self, x: int, y: int) -> Cell {
        self@[x][y]
    }

    /// All cells start at generation zero; a cell is alive exactly when the
    /// seed names its coordinate.
    pub fn new(width: u32, height: u32, alive_cells: &Vec<(u32, u32)>) -> (b: Board)
        ensures
            b.wf(),
            b.width == width,
            b.height == height,
            forall|x: u32, y: u32|
                x < width && y < height ==> #[trigger] b.spec_cell(x as int, y as int) == init_cell(
                    alive_cells@,
                    x,
                    y,
                ),
    {
        let mut cells: Vec<Vec<Cell>> = Vec::new();
        let mut x: u32 = 0;
        while x < width
            invariant
                x <= width,
                cells@.len() == x as int,
                forall|i: int| 0 <= i < x as int ==> (#[trigger] cells@[i])@.len() == height as int,
                forall|i: int, j: int|
                    0 <= i < x as int && 0 <= j < height as int ==> #[trigger] cells@[i]@[j]
                        == init_cell(alive_cells@, i as u32, j as u32),
            decreases width - x,
        {
            let mut col: Vec<Cell> = Vec::new();
            let mut y: u32 = 0;
            while y < height
                invariant
                    y <= height,
                    col@.len() == y as int,
                    forall|j: int|
                        0 <= j < y as int ==> #[trigger] col@[j] == init_cell(
                            alive_cells@,
                            x,
                            j as u32,
                        ),
                decreases height - y,
            {
                let alive = contains_coord(alive_cells, x, y);
                col.push(Cell { alive, iteration: 0, previous_alive: false });
                y = y + 1;
            }
            cells.push(col);
            x = x + 1;
        }
        Board { width, height, cells }
    }

    pub fn get_cell(&self, x: u32, y: u32) -> (c: Cell)
        requires
            self.wf(),
            self.spec_within(x, y),
        ensures
            c == self.spec_cell(x as int, y as int),
    {
        self.cells[x as usize][y as usize]
    }

    /// Overwrites one cell in place; no check relates the new snapshot's
    /// generation to the old one (that is the caller's responsibility).
    pub fn set_cell(&mut self, x: u32, y: u32, cell: Cell)
        requires
            old(self).wf(),
            old(self).spec_within(x, y),
        ensures
            final(self).wf(),
            final(self).width == old(self).width,
            final(self).height == old(self).height,
            final(self)@ == old(self)@.update(
                x as int,
                old(self)@[x as int].update(y as int, cell),
            ),
    {
        let ghost m0 = self@;
        self.cells[x as usize][y as usize] = cell;
        proof {
            assert(self@ =~~= m0.update(x as int, m0[x as int].update(y as int, cell)));
        }
    }

    pub fn get_height(&self) -> (r: u32)
        ensures
            r == self.height,
    {
        self.height
    }

    pub fn get_width(&self) -> (r: u32)
        ensures
            r == self.width,
    {
        self.width
    }

    pub fn within_bounds(&self, x: u32, y: u32) -> (r: bool)
        ensures
            r == self.spec_within(x, y),
    {
        x < self.width && y < self.height
    }

    /// The checked access used at partition edges: out-of-bounds coordinates
    /// give `None`, never a fault.
    pub fn get_cell_option(&self, x: u32, y: u32) -> (r: Option<Cell>)
        requires
            self.wf(),
        ensures
            r == if self.spec_within(x, y) {
                Some(self.spec_cell(x as int, y as int))
            } else {
                None::<Cell>
            },
    {
        if self.within_bounds(x, y) {
            Some(self.get_cell(x, y))
        } else {
            None
        }
    }

    /// One neighbour probe: `None` when the snapshot there cannot serve
    /// generation `it`; out-of-grid positions report a dead neighbour.
    fn probe(&self, x: i64, y: i64, it: usize) -> (r: Option<bool>)
        requires
            self.wf(),
            -2 <= x <= u32::MAX as i64 + 1,
            -2 <= y <= u32::MAX as i64 + 1,
        ensures
            (r is Some) <==> neighbour_ready(self@, x as int, y as int, it as nat),
            r matches Some(b) ==> b == neighbour_live(self@, x as int, y as int, it as nat),
    {
        if x < 0 || y < 0 || x >= self.width as i64 || y >= self.height as i64 {
            return Some(false);
        }
        let c = self.get_cell(x as u32, y as u32);
        if c.iteration == it {
            Some(c.alive)
        } else if c.iteration > 0 && c.iteration - 1 == it {
            Some(c.previous_alive)
        } else {
            None
        }
    }

    /// Counts the live Moore neighbours of `(x, y)` as of generation
    /// `iteration`; `None` ("not ready") as soon as any neighbour's
    /// generation is ahead by more than one or behind at all.
    pub fn neighbour_alive_count(&self, x: u32, y: u32, iteration: usize) -> (r: Option<u8>)
        requires
            self.wf(),
        ensures
            (r is Some) <==> neighbours_ready(self@, x as int, y as int, iteration as nat),
            r matches Some(n) ==> n as nat == live_neighbour_count(
                self@,
                x as int,
                y as int,
                iteration as nat,
            ),
    {
        let xi = x as i64;
        let yi = y as i64;
        let mut count: u8 = 0;
        match self.probe(xi - 1, yi - 1, iteration) {
            None => { return None; },
            Some(b) => if b { count = count + 1 },
        }
        match self.probe(xi - 1, yi, iteration) {
            None => { return None; },
            Some(b) => if b { count = count + 1 },
        }
        match self.probe(xi - 1, yi + 1, iteration) {
            None => { return None; },
            Some(b) => if b { count = count + 1 },
        }
        match self.probe(xi, yi - 1, iteration) {
            None => { return None; },
            Some(b) => if b { count = count + 1 },
        }
        match self.probe(xi, yi + 1, iteration) {
            None => { return None; },
            Some(b) => if b { count = count + 1 },
        }
        match self.probe(xi + 1, yi - 1, iteration) {
            None => { return None; },
            Some(b) => if b { count = count + 1 },
        }
        match self.probe(xi + 1, yi, iteration) {
            None => { return None; },
            Some(b) => if b { count = count + 1 },
        }
        match self.probe(xi + 1, yi + 1, iteration) {
            None => { return None; },
            Some(b) => if b { count = count + 1 },
        }
        Some(count)
    }

    /// The bare transition rule on a life state and a neighbour count.
    pub fn should_be_alive(alive: bool, alive_neighbours: u8) -> (r: bool)
        ensures
            r == life_rule(alive, alive_neighbours as nat),
    {
        if alive {
            if alive_neighbours < 2 {
                false
            } else if alive_neighbours > 3 {
                false
            } else {
                true
            }
        } else {
            alive_neighbours == 3
        }
    }

    /// The successor of `current` as seen from `(x, y)`: `None` exactly when
    /// some neighbour's generation makes the count ambiguous.
    pub fn next_cell(&self, x: u32, y: u32, current: &Cell) -> (r: Option<Cell>)
        requires
            self.wf(),
            current.iteration < usize::MAX,
        ensures
            (r is Some) <==> neighbours_ready(self@, x as int, y as int, current.iteration as nat),
            r matches Some(c) ==> c == next_of(
                *current,
                live_neighbour_count(self@, x as int, y as int, current.iteration as nat),
            ),
    {
        match self.neighbour_alive_count(x, y, current.iteration) {
            None => None,
            Some(alive_count) => {
                let alive = Board::should_be_alive(current.alive, alive_count);
                Some(
                    Cell {
                        alive,
                        iteration: current.iteration + 1,
                        previous_alive: current.alive,
                    },
                )
            },
        }
    }
}

/// Scans the seed list for one coordinate.
fn contains_coord(coords: &Vec<(u32, u32)>, x: u32, y: u32) -> (r: bool)
    ensures
        r == coords@.contains((x, y)),
{
    let mut i: usize = 0;
    while i < coords.len()
        invariant
            i <= coords@.len(),
            forall|j: int| 0 <= j < i as int ==> coords@[j] != (x, y),
        decreases coords@.len() - i as int,
    {
        if coords[i].0 == x && coords[i].1 == y {
            assert(coords@[i as int] == (x, y));
            return true;
        }
        i = i + 1;
    }
    false
}

/// Law: a cell with no live Moore neighbours at its own generation is dead
/// in the next generation, whatever its current state.
pub proof fn lemma_isolated_cell_dies(m: Seq<Seq<Cell>>, x: int, y: int)
    requires
        in_grid(m, x, y),
        live_neighbour_count(m, x, y, m[x][y].iteration as nat) == 0,
    ensures
        !next_of(m[x][y], live_neighbour_count(m, x, y, m[x][y].iteration as nat)).alive,
{
}

/// Law: a dead cell becomes alive in the next generation exactly when it has
/// three live neighbours at its own generation; with any other count it
/// stays dead.
pub proof fn lemma_dead_cell_reproduction(m: Seq<Seq<Cell>>, x: int, y: int)
    requires
        in_grid(m, x, y),
        !m[x][y].alive,
    ensures
        next_of(m[x][y], live_neighbour_count(m, x, y, m[x][y].iteration as nat)).alive
            <==> live_neighbour_count(m, x, y, m[x][y].iteration as nat) == 3,
{
}

/// Law (generation skew, usable side): a neighbour exactly one generation
/// ahead is read through its `previous_alive` flag, which records its state
/// at the subject's generation, not through its current `alive` flag.
pub proof fn lemma_skew_uses_previous_state(c: Cell, it: nat)
    requires
        c.iteration == it + 1,
    ensures
        usable_at(c, it),
        live_at(c, it) == c.previous_alive,
{
}

/// Law (advance compatibility): a successor snapshot still reports, for the
/// generation it was computed from, exactly the life state its predecessor
/// reported — so advancing one cell of a grid in place never changes what a
/// later cell of the same sweep reads from it for that generation. This is
/// what lets a partitioned run agree with a monolithic one.
pub proof fn lemma_advance_keeps_observation(c: Cell, n: nat)
    requires
        c.iteration < usize::MAX,
    ensures
        usable_at(next_of(c, n), c.iteration as nat),
        live_at(next_of(c, n), c.iteration as nat) == live_at(c, c.iteration as nat),
{
}

/// Law (generation skew, rejecting side): one Moore neighbour whose
/// generation is behind the subject's, or ahead of it by more than one,
/// makes the whole neighbourhood not ready.
pub proof fn lemma_bad_skew_not_ready(m: Seq<Seq<Cell>>, x: int, y: int, xi: int, yi: int, it: nat)
    requires
        in_grid(m, xi, yi),
        x - 1 <= xi <= x + 1,
        y - 1 <= yi <= y + 1,
        (xi, yi) != (x, y),
        m[xi][yi].iteration < it || m[xi][yi].iteration > it + 1,
    ensures
        !neighbours_ready(m, x, y, it),
{
    assert(!usable_at(m[xi][yi], it));
}

} // verus!
