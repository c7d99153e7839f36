//! One partition's driver: it owns a board, drains inbound edge channels
//! into the board's halo ring, advances interior cells up to a target
//! generation, and publishes its own edges to subscribers — all without
//! blocking, so neighbouring partitions never wait on each other.

use vstd::prelude::*;
use std::sync::Arc;
use std::sync::mpsc::Receiver;
use std::sync::mpsc::Sender;
use std::sync::mpsc::SyncSender;
use crate::board::Board;
use crate::board::Cell;
use crate::board::in_grid;
use crate::board::live_at;
use crate::board::live_contrib;
use crate::board::live_neighbour_count;
use crate::board::neighbour_ready;
use crate::board::usable_at;
use crate::board::neighbours_ready;
use crate::board::next_of;
use crate::channel::RecvAttempt;
use crate::channel::SendAttempt;
use crate::channel::channel_send;
use crate::channel::channel_try_recv;
use crate::channel::new_channel;
use crate::channel::sync_try_send;

verus! {

/// How many queued messages one call is willing to poll from a channel
/// before leaving the rest for the next call.
pub const DRAIN_BOUND: usize = 64;

#[derive(PartialEq, Eq, Hash, Copy, Clone, Debug, Structural)]
pub enum BoardSectionSide {
    Top,
    Bottom,
    Left,
    Right,
}

/// An outbound edge channel, keyed by the subscribing neighbour's identity
/// so that it can later be removed.
pub struct CellStateCallback {
    id: (usize, usize),
    sender: SyncSender<Arc<Vec<Cell>>>,
}

impl CellStateCallback {
    pub closed spec fn spec_id(&self) -> (usize, usize) {
        self.id
    }

    pub fn new(id: (usize, usize), sender: SyncSender<Arc<Vec<Cell>>>) -> (c: CellStateCallback)
        ensures
            c.spec_id() == id,
    {
        CellStateCallback { id, sender }
    }

    pub fn get_id(&self) -> (r: (usize, usize))
        ensures
            r == self.spec_id(),
    {
        self.id
    }

    /// A best-effort send: a full buffer or a gone subscriber only drops the
    /// value.
    pub fn try_send(&self, cells: Arc<Vec<Cell>>) -> SendAttempt {
        sync_try_send(&self.sender, cells)
    }
}

/// Both grids have the same column count and the same column lengths.
pub open spec fn same_dims(m0: Seq<Seq<Cell>>, m1: Seq<Seq<Cell>>) -> bool {
    &&& m1.len() == m0.len()
    &&& forall|i: int| 0 <= i < m0.len() ==> (#[trigger] m1[i]).len() == m0[i].len()
}

/// `m1` differs from `m0` at most on the boundary ring: every strictly
/// interior cell is unchanged.
pub open spec fn boundary_variant(m0: Seq<Seq<Cell>>, m1: Seq<Seq<Cell>>) -> bool {
    &&& same_dims(m0, m1)
    &&& forall|x: int, y: int|
        #![trigger m1[x][y]]
        0 < x < m0.len() - 1 && 0 < y < m0[x].len() - 1 ==> m1[x][y] == m0[x][y]
}

/// How many cells one edge of a `w x h` grid holds.
pub open spec fn edge_span(side: BoardSectionSide, w: int, h: int) -> int {
    match side {
        BoardSectionSide::Top => w,
        BoardSectionSide::Bottom => w,
        BoardSectionSide::Left => h,
        BoardSectionSide::Right => h,
    }
}

/// The coordinate the `i`-th cell of an inbound edge value lands on.
pub open spec fn edge_coord(side: BoardSectionSide, w: int, h: int, i: int) -> (int, int) {
    match side {
        BoardSectionSide::Top => (i, 0),
        BoardSectionSide::Bottom => (i, h - 1),
        BoardSectionSide::Left => (0, i),
        BoardSectionSide::Right => (w - 1, i),
    }
}

/// Whether `(x, y)` is overwritten when the first `n` cells of an inbound
/// edge value are written to `side`.
pub open spec fn written_at(side: BoardSectionSide, w: int, h: int, n: int, x: int, y: int) -> bool {
    match side {
        BoardSectionSide::Top => y == 0 && 0 <= x < n,
        BoardSectionSide::Bottom => y == h - 1 && 0 <= x < n,
        BoardSectionSide::Left => x == 0 && 0 <= y < n,
        BoardSectionSide::Right => x == w - 1 && 0 <= y < n,
    }
}

/// The row or column a section publishes for `side`: the innermost line its
/// own rule computes, i.e. the line just inside the halo ring.
pub open spec fn published_edge(m: Seq<Seq<Cell>>, side: BoardSectionSide) -> Seq<Cell> {
    let w = m.len() as int;
    let h = m[0].len() as int;
    match side {
        BoardSectionSide::Top => Seq::new(w as nat, |x: int| m[x][1]),
        BoardSectionSide::Bottom => Seq::new(w as nat, |x: int| m[x][h - 2]),
        BoardSectionSide::Left => Seq::new(h as nat, |y: int| m[1][y]),
        BoardSectionSide::Right => Seq::new(h as nat, |y: int| m[w - 2][y]),
    }
}

/// One visit of the advance sweep: if the cell at `(x, y)` is below the
/// target generation and its neighbourhood is ready, it is replaced by its
/// successor; otherwise the grid is left as it is.
pub open spec fn step_at(m: Seq<Seq<Cell>>, x: int, y: int, upto: nat) -> Seq<Seq<Cell>> {
    let c = m[x][y];
    if c.iteration < upto && neighbours_ready(m, x, y, c.iteration as nat) {
        m.update(x, m[x].update(y, next_of(c, live_neighbour_count(m, x, y, c.iteration as nat))))
    } else {
        m
    }
}

/// The advance sweep over the rest of column `x`, visiting rows `y` up to
/// `h - 2` in order, each visit seeing the writes of the previous ones.
pub open spec fn pass_col_from(m: Seq<Seq<Cell>>, x: int, y: int, h: int, upto: nat) -> Seq<
    Seq<Cell>,
>
    decreases h - y,
{
    if 1 <= y && y < h - 1 {
        pass_col_from(step_at(m, x, y, upto), x, y + 1, h, upto)
    } else {
        m
    }
}

/// The advance sweep over columns `x` up to `w - 2`, each column fully
/// processed before the next.
pub open spec fn pass_from(m: Seq<Seq<Cell>>, x: int, w: int, h: int, upto: nat) -> Seq<Seq<Cell>>
    decreases w - x,
{
    if 1 <= x && x < w - 1 {
        pass_from(pass_col_from(m, x, 1, h, upto), x + 1, w, h, upto)
    } else {
        m
    }
}

/// One whole in-place advance sweep over the interior of a `w x h` grid.
pub open spec fn advance_pass(m: Seq<Seq<Cell>>, w: int, h: int, upto: nat) -> Seq<Seq<Cell>> {
    pass_from(m, 1, w, h, upto)
}

/// The board-local index that feeds coordinate `(x, y)` of a halo line.
pub open spec fn edge_pos(side: BoardSectionSide, x: int, y: int) -> int {
    match side {
        BoardSectionSide::Top => x,
        BoardSectionSide::Bottom => x,
        BoardSectionSide::Left => y,
        BoardSectionSide::Right => y,
    }
}

/// The grid after one inbound edge value lands on the halo line of `side`:
/// a prefix of the line takes the value's cells, position for position, and
/// every other cell is untouched.
pub open spec fn edge_overwrite(m: Seq<Seq<Cell>>, side: BoardSectionSide, cells: Seq<Cell>) -> Seq<
    Seq<Cell>,
> {
    let w = m.len() as int;
    let h = if m.len() > 0 {
        m[0].len() as int
    } else {
        0
    };
    let n = if cells.len() as int <= edge_span(side, w, h) {
        cells.len() as int
    } else {
        edge_span(side, w, h)
    };
    Seq::new(
        m.len(),
        |x: int|
            Seq::new(
                m[x].len(),
                |y: int|
                    if written_at(side, w, h, n, x, y) {
                        cells[edge_pos(side, x, y)]
                    } else {
                        m[x][y]
                    },
            ),
    )
}

/// The grid after one side's drain: unchanged when that side's channel had
/// nothing to give.
pub open spec fn maybe_drained(
    m: Seq<Seq<Cell>>,
    side: BoardSectionSide,
    received: Option<Seq<Cell>>,
) -> Seq<Seq<Cell>> {
    match received {
        None => m,
        Some(cells) => edge_overwrite(m, side, cells),
    }
}

/// The grid after the whole drain phase, given what each side's channel
/// yielded, in the order the sides are polled.
pub open spec fn drained_grid(
    m: Seq<Seq<Cell>>,
    top: Option<Seq<Cell>>,
    bottom: Option<Seq<Cell>>,
    left: Option<Seq<Cell>>,
    right: Option<Seq<Cell>>,
) -> Seq<Seq<Cell>> {
    maybe_drained(
        maybe_drained(
            maybe_drained(
                maybe_drained(m, BoardSectionSide::Top, top),
                BoardSectionSide::Bottom,
                bottom,
            ),
            BoardSectionSide::Left,
            left,
        ),
        BoardSectionSide::Right,
        right,
    )
}

/// How `try_iteration` relates the board after one call to the board before
/// it: each side's inbound channel yields at most one edge value, each lands
/// on its own side's halo line, and the result is exactly one advance sweep
/// over the grid so drained.
pub open spec fn section_stepped(pre: Board, post: Board, upto: nat) -> bool {
    exists|top: Option<Seq<Cell>>, bottom: Option<Seq<Cell>>, left: Option<Seq<Cell>>, right: Option<
        Seq<Cell>,
    >|
        post@ == advance_pass(
            #[trigger] drained_grid(pre@, top, bottom, left, right),
            pre.width as int,
            pre.height as int,
            upto,
        )
}

proof fn lemma_pass_identity_when_flat(m: Seq<Seq<Cell>>, x: int, w: int, h: int, upto: nat)
    requires
        w <= 2 || h <= 2,
    ensures
        pass_from(m, x, w, h, upto) == m,
    decreases w - x,
{
    if 1 <= x && x < w - 1 {
        assert(pass_col_from(m, x, 1, h, upto) == m);
        lemma_pass_identity_when_flat(m, x + 1, w, h, upto);
    }
}

/// A snapshot and a possible successor of it: either unchanged, or advanced
/// by exactly one generation with the prior life state recorded.
pub open spec fn one_step_of(c0: Cell, c1: Cell) -> bool {
    c1 == c0 || (c1.iteration == c0.iteration + 1 && c1.previous_alive == c0.alive)
}

/// Law (generations never jump): one visit of the advance sweep moves every
/// cell by at most one generation, and a cell that does move records the
/// life state it is leaving behind.
pub proof fn lemma_step_never_skips(m: Seq<Seq<Cell>>, x: int, y: int, upto: nat)
    requires
        in_grid(m, x, y),
        upto <= usize::MAX,
    ensures
        forall|a: int, b: int|
            in_grid(m, a, b) ==> one_step_of(m[a][b], #[trigger] step_at(m, x, y, upto)[a][b]),
{
    let stepped = step_at(m, x, y, upto);
    assert forall|a: int, b: int|
        in_grid(m, a, b) implies one_step_of(m[a][b], #[trigger] stepped[a][b]) by {
        if !(a == x && b == y) {
            if a == x {
                assert(stepped[a][b] == m[a][b]);
            } else {
                assert(stepped[a] == m[a]);
            }
        }
    }
}

/// Law (generation skew, unchanged side): a visit of the advance sweep
/// leaves a cell bit-for-bit unchanged while its neighbourhood is not ready,
/// and likewise once it has reached the target generation.
pub proof fn lemma_not_ready_leaves_cell_unchanged(
    m: Seq<Seq<Cell>>,
    x: int,
    y: int,
    upto: nat,
)
    requires
        !(m[x][y].iteration < upto && neighbours_ready(m, x, y, m[x][y].iteration as nat)),
    ensures
        step_at(m, x, y, upto) == m,
{
}

/// Every in-grid cell carries the same generation.
pub open spec fn all_at_generation(m: Seq<Seq<Cell>>, g: nat) -> bool {
    forall|x: int, y: int|
        #![trigger m[x][y]]
        in_grid(m, x, y) ==> m[x][y].iteration == g
}

pub open spec fn grid_dims(m: Seq<Seq<Cell>>, w: int, h: int) -> bool {
    &&& m.len() == w
    &&& forall|i: int| 0 <= i < w ==> (#[trigger] m[i]).len() == h
}

/// Which cells a column-major sweep has already visited when it stands at
/// column `x`, row `y`.
pub open spec fn sweep_processed(w: int, h: int, x: int, y: int, a: int, b: int) -> bool {
    &&& 0 < a < w - 1
    &&& 0 < b < h - 1
    &&& (a < x || (a == x && b < y))
}

/// `m1` is `m0` with exactly the cells before sweep position `(x, y)`
/// replaced by their synchronous successors — successors computed from the
/// untouched grid `m0`, not from intermediate states.
pub open spec fn swept_to(
    m0: Seq<Seq<Cell>>,
    m1: Seq<Seq<Cell>>,
    w: int,
    h: int,
    g: nat,
    x: int,
    y: int,
) -> bool {
    &&& m1.len() == m0.len()
    &&& forall|a: int| 0 <= a < m0.len() ==> (#[trigger] m1[a]).len() == m0[a].len()
    &&& forall|a: int, b: int|
        #![trigger m1[a][b]]
        0 <= a < w && 0 <= b < h ==> m1[a][b] == if sweep_processed(w, h, x, y, a, b) {
            next_of(m0[a][b], live_neighbour_count(m0, a, b, g))
        } else {
            m0[a][b]
        }
}

proof fn lemma_sweep_step(
    m0: Seq<Seq<Cell>>,
    m1: Seq<Seq<Cell>>,
    w: int,
    h: int,
    g: nat,
    x: int,
    y: int,
)
    requires
        grid_dims(m0, w, h),
        all_at_generation(m0, g),
        g < usize::MAX,
        swept_to(m0, m1, w, h, g, x, y),
        1 <= x < w - 1,
        1 <= y < h - 1,
    ensures
        swept_to(m0, step_at(m1, x, y, (g + 1) as nat), w, h, g, x, y + 1),
{
    assert(m1[x][y] == m0[x][y]);
    assert forall|xi: int, yi: int|
        x - 1 <= xi <= x + 1 && y - 1 <= yi <= y + 1 implies {
        &&& #[trigger] live_contrib(m1, xi, yi, g) == live_contrib(m0, xi, yi, g)
        &&& neighbour_ready(m1, xi, yi, g)
    } by {
        if in_grid(m0, xi, yi) {
            assert(in_grid(m1, xi, yi));
            if sweep_processed(w, h, x, y, xi, yi) {
                let c0 = m0[xi][yi];
                let c1 = m1[xi][yi];
                assert(c1 == next_of(c0, live_neighbour_count(m0, xi, yi, g)));
                assert(c1.iteration == g + 1);
                assert(usable_at(c1, g));
                assert(live_at(c1, g) == c1.previous_alive);
                assert(c1.previous_alive == c0.alive);
                assert(live_at(c0, g) == c0.alive);
            } else {
                assert(m1[xi][yi] == m0[xi][yi]);
            }
        } else {
            assert(!in_grid(m1, xi, yi));
        }
    }
    assert(live_neighbour_count(m1, x, y, g) == live_neighbour_count(m0, x, y, g));
    assert(neighbours_ready(m1, x, y, g));
    let stepped = step_at(m1, x, y, (g + 1) as nat);
    assert(m1[x][y].iteration == g < g + 1);
    assert(stepped == m1.update(
        x,
        m1[x].update(y, next_of(m1[x][y], live_neighbour_count(m1, x, y, g))),
    ));
    assert forall|a: int, b: int|
        #![trigger stepped[a][b]]
        0 <= a < w && 0 <= b < h implies stepped[a][b] == if sweep_processed(w, h, x, y + 1, a, b) {
        next_of(m0[a][b], live_neighbour_count(m0, a, b, g))
    } else {
        m0[a][b]
    } by {
        if a == x && b == y {
        } else if a == x {
            assert(stepped[a][b] == m1[a][b]);
        } else {
            assert(stepped[a] == m1[a]);
        }
    }
}

proof fn lemma_sweep_col(
    m0: Seq<Seq<Cell>>,
    m1: Seq<Seq<Cell>>,
    w: int,
    h: int,
    g: nat,
    x: int,
    y: int,
)
    requires
        grid_dims(m0, w, h),
        all_at_generation(m0, g),
        g < usize::MAX,
        swept_to(m0, m1, w, h, g, x, y),
        1 <= x < w - 1,
        1 <= y <= h - 1,
        h >= 2,
    ensures
        swept_to(m0, pass_col_from(m1, x, y, h, (g + 1) as nat), w, h, g, x + 1, 1),
    decreases h - y,
{
    if y < h - 1 {
        lemma_sweep_step(m0, m1, w, h, g, x, y);
        lemma_sweep_col(m0, step_at(m1, x, y, (g + 1) as nat), w, h, g, x, y + 1);
    } else {
        assert(pass_col_from(m1, x, y, h, (g + 1) as nat) == m1);
        assert forall|a: int, b: int|
            0 <= a < w && 0 <= b < h implies #[trigger] sweep_processed(w, h, x + 1, 1, a, b)
            == sweep_processed(w, h, x, h - 1, a, b) by {}
        assert(swept_to(m0, m1, w, h, g, x + 1, 1));
    }
}

proof fn lemma_sweep_pass(
    m0: Seq<Seq<Cell>>,
    m1: Seq<Seq<Cell>>,
    w: int,
    h: int,
    g: nat,
    x: int,
)
    requires
        grid_dims(m0, w, h),
        all_at_generation(m0, g),
        g < usize::MAX,
        swept_to(m0, m1, w, h, g, x, 1),
        1 <= x <= w - 1,
        w >= 2,
        h >= 2,
    ensures
        swept_to(m0, pass_from(m1, x, w, h, (g + 1) as nat), w, h, g, w - 1, 1),
    decreases w - x,
{
    if x < w - 1 {
        lemma_sweep_col(m0, m1, w, h, g, x, 1);
        lemma_sweep_pass(m0, pass_col_from(m1, x, 1, h, (g + 1) as nat), w, h, g, x + 1);
    } else {
        assert(pass_from(m1, x, w, h, (g + 1) as nat) == m1);
    }
}

/// Law (the sweep computes the synchronous step): on a grid whose cells all
/// carry one generation, one in-place advance sweep to the next generation
/// replaces every strictly interior cell by the standard synchronous
/// successor — computed as if all cells stepped at once — and leaves the
/// halo ring untouched. Later visits of the sweep read already-advanced
/// neighbours through `previous_alive`, which is why the in-place order does
/// not show. A partitioned run therefore agrees with a monolithic one as far
/// as its halo data does.
pub proof fn lemma_sweep_is_synchronous_step(m: Seq<Seq<Cell>>, w: int, h: int, g: nat)
    requires
        grid_dims(m, w, h),
        all_at_generation(m, g),
        g < usize::MAX,
    ensures
        forall|x: int, y: int|
            #![trigger advance_pass(m, w, h, (g + 1) as nat)[x][y]]
            0 <= x < w && 0 <= y < h ==> advance_pass(m, w, h, (g + 1) as nat)[x][y] == if 0 < x < w
                - 1 && 0 < y < h - 1 {
                next_of(m[x][y], live_neighbour_count(m, x, y, g))
            } else {
                m[x][y]
            },
{
    if w >= 2 && h >= 2 {
        assert(swept_to(m, m, w, h, g, 1, 1));
        lemma_sweep_pass(m, m, w, h, g, 1);
        assert(swept_to(m, advance_pass(m, w, h, (g + 1) as nat), w, h, g, w - 1, 1));
    } else {
        lemma_pass_identity_when_flat(m, 1, w, h, (g + 1) as nat);
    }
}

/// Copies a row or column of cells.
fn copy_cells(src: &Vec<Cell>) -> (r: Vec<Cell>)
    ensures
        r@ == src@,
{
    let mut r: Vec<Cell> = Vec::new();
    let mut i: usize = 0;
    while i < src.len()
        invariant
            i <= src@.len(),
            r@ == src@.subrange(0, i as int),
        decreases src@.len() - i as int,
    {
        r.push(src[i]);
        assert(r@ =~= src@.subrange(0, i as int + 1));
        i = i + 1;
    }
    assert(r@ =~= src@);
    r
}

/// Copies a board's whole grid, for a full-snapshot observer.
fn copy_grid(board: &Board) -> (r: Vec<Vec<Cell>>)
    requires
        board.wf(),
    ensures
        r@.len() == board@.len(),
        forall|i: int| 0 <= i < r@.len() ==> #[trigger] r@[i]@ == board@[i],
{
    let mut r: Vec<Vec<Cell>> = Vec::new();
    let mut x: u32 = 0;
    while x < board.get_width()
        invariant
            board.wf(),
            x <= board.width,
            r@.len() == x as int,
            forall|i: int| 0 <= i < x as int ==> #[trigger] r@[i]@ == board@[i],
        decreases board.width - x,
    {
        let mut col: Vec<Cell> = Vec::new();
        let mut y: u32 = 0;
        while y < board.get_height()
            invariant
                board.wf(),
                x < board.width,
                y <= board.height,
                col@.len() == y as int,
                forall|j: int| 0 <= j < y as int ==> #[trigger] col@[j] == board@[x as int][j],
            decreases board.height - y,
        {
            col.push(board.get_cell(x, y));
            y = y + 1;
        }
        proof {
            assert(col@ =~= board@[x as int]);
        }
        r.push(col);
        x = x + 1;
    }
    r
}

/// Reads the row or column a section publishes for `side`.
fn collect_edge(board: &Board, side: BoardSectionSide) -> (r: Vec<Cell>)
    requires
        board.wf(),
        board.width >= 2,
        board.height >= 2,
    ensures
        r@ == published_edge(board@, side),
{
    let w = board.get_width();
    let h = board.get_height();
    let mut r: Vec<Cell> = Vec::new();
    match side {
        BoardSectionSide::Top => {
            let mut x: u32 = 0;
            while x < w
                invariant
                    board.wf(),
                    board.width == w,
                    board.height == h,
                    h >= 2,
                    x <= w,
                    r@.len() == x as int,
                    forall|k: int| 0 <= k < x as int ==> #[trigger] r@[k] == board@[k][1],
                decreases w - x,
            {
                r.push(board.get_cell(x, 1));
                x = x + 1;
            }
        },
        BoardSectionSide::Bottom => {
            let mut x: u32 = 0;
            while x < w
                invariant
                    board.wf(),
                    board.width == w,
                    board.height == h,
                    h >= 2,
                    x <= w,
                    r@.len() == x as int,
                    forall|k: int|
                        0 <= k < x as int ==> #[trigger] r@[k] == board@[k][h as int - 2],
                decreases w - x,
            {
                r.push(board.get_cell(x, h - 2));
                x = x + 1;
            }
        },
        BoardSectionSide::Left => {
            let mut y: u32 = 0;
            while y < h
                invariant
                    board.wf(),
                    board.width == w,
                    board.height == h,
                    w >= 2,
                    y <= h,
                    r@.len() == y as int,
                    forall|k: int| 0 <= k < y as int ==> #[trigger] r@[k] == board@[1][k],
                decreases h - y,
            {
                r.push(board.get_cell(1, y));
                y = y + 1;
            }
        },
        BoardSectionSide::Right => {
            let mut y: u32 = 0;
            while y < h
                invariant
                    board.wf(),
                    board.width == w,
                    board.height == h,
                    w >= 2,
                    y <= h,
                    r@.len() == y as int,
                    forall|k: int|
                        0 <= k < y as int ==> #[trigger] r@[k] == board@[w as int - 2][k],
                decreases h - y,
            {
                r.push(board.get_cell(w - 2, y));
                y = y + 1;
            }
        },
    }
    proof {
        assert(r@ =~= published_edge(board@, side));
    }
    r
}

/// One in-place advance sweep: every interior cell below the target
/// generation whose neighbourhood is ready is replaced by its successor;
/// every other cell, the halo ring included, is left as it is. Later visits
/// of the sweep see earlier writes, which the generation-skew rule makes
/// harmless: an already-advanced neighbour is read through `previous_alive`.
fn advance_cells(board: &mut Board, upto: usize)
    requires
        old(board).wf(),
    ensures
        final(board).wf(),
        final(board).width == old(board).width,
        final(board).height == old(board).height,
        final(board)@ == advance_pass(
            old(board)@,
            old(board).width as int,
            old(board).height as int,
            upto as nat,
        ),
{
    let w = board.get_width();
    let h = board.get_height();
    let ghost m0 = board@;
    if w < 2 || h < 2 {
        proof {
            lemma_pass_identity_when_flat(m0, 1, w as int, h as int, upto as nat);
        }
        return ;
    }
    let mut x: u32 = 1;
    while x < w - 1
        invariant
            board.wf(),
            board.width == w,
            board.height == h,
            w >= 2,
            h >= 2,
            1 <= x <= w - 1,
            same_dims(m0, board@),
            pass_from(board@, x as int, w as int, h as int, upto as nat) == pass_from(
                m0,
                1,
                w as int,
                h as int,
                upto as nat,
            ),
        decreases w - x,
    {
        let ghost mcol = board@;
        let mut y: u32 = 1;
        while y < h - 1
            invariant
                board.wf(),
                board.width == w,
                board.height == h,
                w >= 2,
                h >= 2,
                1 <= x < w - 1,
                1 <= y <= h - 1,
                same_dims(m0, board@),
                pass_col_from(board@, x as int, y as int, h as int, upto as nat) == pass_col_from(
                    mcol,
                    x as int,
                    1,
                    h as int,
                    upto as nat,
                ),
            decreases h - y,
        {
            let ghost mcur = board@;
            let current = board.get_cell(x, y);
            if current.get_iteration() < upto {
                match board.next_cell(x, y, &current) {
                    Some(next) => {
                        board.set_cell(x, y, next);
                        proof {
                            assert(board@ == step_at(mcur, x as int, y as int, upto as nat));
                        }
                    },
                    None => {
                        proof {
                            assert(step_at(mcur, x as int, y as int, upto as nat) == mcur);
                        }
                    },
                }
            } else {
                proof {
                    assert(step_at(mcur, x as int, y as int, upto as nat) == mcur);
                }
            }
            y = y + 1;
        }
        x = x + 1;
    }
    proof {
        assert(board@ == advance_pass(m0, w as int, h as int, upto as nat));
    }
}

/// Whether some registered callback carries this identity.
pub open spec fn has_subscriber(subs: Seq<CellStateCallback>, id: (usize, usize)) -> bool {
    exists|i: int| 0 <= i < subs.len() && (#[trigger] subs[i]).spec_id() == id
}

/// The registration list with every callback of this identity removed,
/// keeping the order of the rest.
pub open spec fn without_id(subs: Seq<CellStateCallback>, id: (usize, usize)) -> Seq<
    CellStateCallback,
>
    decreases subs.len(),
{
    if subs.len() == 0 {
        Seq::empty()
    } else if subs.last().spec_id() == id {
        without_id(subs.drop_last(), id)
    } else {
        without_id(subs.drop_last(), id).push(subs.last())
    }
}

/// The capability contract of one partition driver: boundary channel wiring
/// at construction time, then repeated non-blocking advancement.
pub trait BoardSection: Sized {
    spec fn inv(&self) -> bool;

    spec fn spec_board(&self) -> Board;

    spec fn has_receiver(&self, side: BoardSectionSide) -> bool;

    spec fn subscribers(&self, side: BoardSectionSide) -> Seq<CellStateCallback>;

    proof fn lemma_inv_board(&self)
        requires
            self.inv(),
        ensures
            self.spec_board().wf(),
            self.spec_board().width >= 2,
            self.spec_board().height >= 2,
    ;

    /// Registers an outbound edge channel on a side; a callback whose
    /// identity is already registered there leaves the side as it was.
    fn subscribe(&mut self, side: BoardSectionSide, callback: CellStateCallback)
        requires
            old(self).inv(),
        ensures
            final(self).inv(),
            final(self).spec_board() == old(self).spec_board(),
            forall|s: BoardSectionSide| #[trigger]
                final(self).has_receiver(s) == old(self).has_receiver(s),
            final(self).subscribers(side) == if has_subscriber(
                old(self).subscribers(side),
                callback.spec_id(),
            ) {
                old(self).subscribers(side)
            } else {
                old(self).subscribers(side).push(callback)
            },
            forall|s: BoardSectionSide|
                s != side ==> #[trigger] final(self).subscribers(s) == old(self).subscribers(s),
    ;

    /// Removes a previously registered outbound channel; a no-op when the
    /// identity is absent.
    fn unsubscribe(&mut self, side: BoardSectionSide, callback: &CellStateCallback)
        requires
            old(self).inv(),
        ensures
            final(self).inv(),
            final(self).spec_board() == old(self).spec_board(),
            forall|s: BoardSectionSide| #[trigger]
                final(self).has_receiver(s) == old(self).has_receiver(s),
            final(self).subscribers(side) == without_id(
                old(self).subscribers(side),
                callback.spec_id(),
            ),
            forall|s: BoardSectionSide|
                s != side ==> #[trigger] final(self).subscribers(s) == old(self).subscribers(s),
    ;

    /// Binds the single inbound channel of a side. Wiring happens once, at
    /// construction: a side that already has a channel must never be bound
    /// again, so that case is excluded rather than handled.
    fn add_receiver(&mut self, side: BoardSectionSide, rx: Receiver<Arc<Vec<Cell>>>)
        requires
            old(self).inv(),
            !old(self).has_receiver(side),
        ensures
            final(self).inv(),
            final(self).spec_board() == old(self).spec_board(),
            final(self).has_receiver(side),
            forall|s: BoardSectionSide|
                s != side ==> #[trigger] final(self).has_receiver(s) == old(self).has_receiver(s),
            forall|s: BoardSectionSide| #[trigger]
                final(self).subscribers(s) == old(self).subscribers(s),
    ;

    /// One tick: drain inbound edges into the halo ring, advance every ready
    /// interior cell below the target generation, publish the new edges and
    /// any requested full snapshots. Nothing blocks and nothing fails: a cell
    /// that is not ready is simply retried on a later call.
    fn try_iteration(&mut self, upto_iteration: usize)
        requires
            old(self).inv(),
        ensures
            final(self).inv(),
            final(self).spec_board().width == old(self).spec_board().width,
            final(self).spec_board().height == old(self).spec_board().height,
            forall|s: BoardSectionSide| #[trigger]
                final(self).has_receiver(s) == old(self).has_receiver(s),
            forall|s: BoardSectionSide| #[trigger]
                final(self).subscribers(s) == old(self).subscribers(s),
            section_stepped(old(self).spec_board(), final(self).spec_board(), upto_iteration as nat),
    ;

    fn get_board(&self) -> (r: &Board)
        requires
            self.inv(),
        ensures
            *r == self.spec_board(),
    ;
}

/// The one concrete partition driver: a board advanced in this process,
/// wired to its neighbours by mpsc channels.
pub struct LocalBoardSection {
    board: Board,
    subs_top: Vec<CellStateCallback>,
    subs_bottom: Vec<CellStateCallback>,
    subs_left: Vec<CellStateCallback>,
    subs_right: Vec<CellStateCallback>,
    recv_top: Option<Receiver<Arc<Vec<Cell>>>>,
    recv_bottom: Option<Receiver<Arc<Vec<Cell>>>>,
    recv_left: Option<Receiver<Arc<Vec<Cell>>>>,
    recv_right: Option<Receiver<Arc<Vec<Cell>>>>,
    state_sender_registerer: Receiver<Sender<Vec<Vec<Cell>>>>,
    state_senders: Vec<Sender<Vec<Vec<Cell>>>>,
}

impl LocalBoardSection {
    /// Builds an unwired section around a board, returning with it the
    /// registration endpoint through which observers may later request full
    /// board snapshots. The halo protocol needs at least one interior line,
    /// so degenerate boards are excluded.
    pub fn create(board: Board) -> (r: (LocalBoardSection, Sender<Sender<Vec<Vec<Cell>>>>))
        requires
            board.wf(),
            board.width >= 2,
            board.height >= 2,
        ensures
            r.0.inv(),
            r.0.spec_board() == board,
            forall|s: BoardSectionSide| !(#[trigger] r.0.has_receiver(s)),
            forall|s: BoardSectionSide| #[trigger] r.0.subscribers(s) == Seq::<
                CellStateCallback,
            >::empty(),
    {
        let (tx, rx) = new_channel();
        let section = LocalBoardSection {
            board,
            subs_top: Vec::new(),
            subs_bottom: Vec::new(),
            subs_left: Vec::new(),
            subs_right: Vec::new(),
            recv_top: None,
            recv_bottom: None,
            recv_left: None,
            recv_right: None,
            state_sender_registerer: rx,
            state_senders: Vec::new(),
        };
        (section, tx)
    }

    /// Adds a callback unless its identity is already present.
    fn add_subscriber(subs: &mut Vec<CellStateCallback>, callback: CellStateCallback)
        ensures
            final(subs)@ == if has_subscriber(old(subs)@, callback.spec_id()) {
                old(subs)@
            } else {
                old(subs)@.push(callback)
            },
    {
        let id = callback.get_id();
        let mut i: usize = 0;
        while i < subs.len()
            invariant
                id == callback.spec_id(),
                i <= subs@.len(),
                subs@ == old(subs)@,
                forall|j: int| 0 <= j < i as int ==> (#[trigger] subs@[j]).spec_id() != id,
            decreases subs@.len() - i as int,
        {
            let existing = subs[i].get_id();
            if existing.0 == id.0 && existing.1 == id.1 {
                proof {
                    assert(existing == id) by {
                        assert(existing.0 == id.0 && existing.1 == id.1);
                    }
                    assert(subs@[i as int].spec_id() == callback.spec_id());
                    assert(has_subscriber(subs@, callback.spec_id()));
                }
                return ;
            }
            i = i + 1;
        }
        subs.push(callback);
    }

    /// Removes every callback of this identity, keeping the order of the
    /// rest.
    fn remove_subscriber(subs: &mut Vec<CellStateCallback>, id: (usize, usize))
        ensures
            final(subs)@ == without_id(old(subs)@, id),
    {
        let ghost orig = subs@;
        let ghost len0 = subs@.len() as int;
        let mut stack: Vec<CellStateCallback> = Vec::new();
        proof {
            assert(orig.subrange(0, len0) =~= orig);
        }
        while subs.len() > 0
            invariant
                len0 == orig.len(),
                stack@.len() + subs@.len() == len0,
                subs@ == orig.subrange(0, subs@.len() as int),
                forall|j: int|
                    0 <= j < stack@.len() ==> #[trigger] stack@[j] == orig[len0 - 1 - j],
            decreases subs@.len(),
        {
            proof {
                assert(subs@.last() == orig[subs@.len() - 1]);
            }
            let cb = subs.pop().unwrap();
            stack.push(cb);
            proof {
                assert(subs@ =~= orig.subrange(0, subs@.len() as int));
            }
        }
        proof {
            assert(orig.subrange(0, 0) =~= Seq::<CellStateCallback>::empty());
        }
        while stack.len() > 0
            invariant
                len0 == orig.len(),
                stack@.len() <= len0,
                subs@ == without_id(orig.subrange(0, len0 - stack@.len() as int), id),
                forall|j: int|
                    0 <= j < stack@.len() ==> #[trigger] stack@[j] == orig[len0 - 1 - j],
            decreases stack@.len(),
        {
            let ghost processed = len0 - stack@.len() as int;
            proof {
                assert(stack@.last() == orig[processed]);
            }
            let cb = stack.pop().unwrap();
            proof {
                let pre = orig.subrange(0, processed + 1);
                assert(pre.drop_last() =~= orig.subrange(0, processed));
                assert(pre.last() == orig[processed]);
            }
            let cb_id = cb.get_id();
            if !(cb_id.0 == id.0 && cb_id.1 == id.1) {
                subs.push(cb);
            }
        }
        proof {
            assert(orig.subrange(0, len0) =~= orig);
        }
    }

    /// Writes an inbound edge value onto the halo line of `side`. A value longer
    /// than the line is truncated to it; a shorter one overwrites a prefix only.
    fn update(board: &mut Board, side: BoardSectionSide, cells: &Vec<Cell>)
        requires
            old(board).wf(),
            old(board).width >= 1,
            old(board).height >= 1,
        ensures
            final(board).wf(),
            final(board).width == old(board).width,
            final(board).height == old(board).height,
            boundary_variant(old(board)@, final(board)@),
            final(board)@ == edge_overwrite(old(board)@, side, cells@),
            ({
                let m0 = old(board)@;
                let m1 = final(board)@;
                let w = old(board).width as int;
                let h = old(board).height as int;
                let n = if cells@.len() as int <= edge_span(side, w, h) {
                    cells@.len() as int
                } else {
                    edge_span(side, w, h)
                };
                &&& forall|i: int|
                    #![trigger cells@[i]]
                    0 <= i < n ==> m1[edge_coord(side, w, h, i).0][edge_coord(side, w, h, i).1]
                        == cells@[i]
                &&& forall|x: int, y: int|
                    #![trigger m1[x][y]]
                    0 <= x < w && 0 <= y < h && !written_at(side, w, h, n, x, y) ==> m1[x][y]
                        == m0[x][y]
            }),
    {
        let w = board.get_width();
        let h = board.get_height();
        match side {
            BoardSectionSide::Top => {
                let n: usize = if cells.len() <= w as usize {
                    cells.len()
                } else {
                    w as usize
                };
                let mut i: usize = 0;
                while i < n
                    invariant
                        board.wf(),
                        board.width == w,
                        board.height == h,
                        w >= 1,
                        h >= 1,
                        n <= w as usize,
                        n <= cells@.len(),
                        i <= n,
                        forall|k: int| 0 <= k < i as int ==> board@[k][0] == #[trigger] cells@[k],
                        forall|x: int, y: int|
                            #![trigger board@[x][y]]
                            0 <= x < w as int && 0 <= y < h as int && !(y == 0 && 0 <= x < i as int)
                                ==> board@[x][y] == old(board)@[x][y],
                    decreases n - i,
                {
                    board.set_cell(i as u32, 0, cells[i]);
                    i = i + 1;
                }
            },
            BoardSectionSide::Bottom => {
                let n: usize = if cells.len() <= w as usize {
                    cells.len()
                } else {
                    w as usize
                };
                let mut i: usize = 0;
                while i < n
                    invariant
                        board.wf(),
                        board.width == w,
                        board.height == h,
                        w >= 1,
                        h >= 1,
                        n <= w as usize,
                        n <= cells@.len(),
                        i <= n,
                        forall|k: int|
                            0 <= k < i as int ==> board@[k][h as int - 1] == #[trigger] cells@[k],
                        forall|x: int, y: int|
                            #![trigger board@[x][y]]
                            0 <= x < w as int && 0 <= y < h as int && !(y == h as int - 1 && 0 <= x
                                < i as int) ==> board@[x][y] == old(board)@[x][y],
                    decreases n - i,
                {
                    board.set_cell(i as u32, h - 1, cells[i]);
                    i = i + 1;
                }
            },
            BoardSectionSide::Left => {
                let n: usize = if cells.len() <= h as usize {
                    cells.len()
                } else {
                    h as usize
                };
                let mut i: usize = 0;
                while i < n
                    invariant
                        board.wf(),
                        board.width == w,
                        board.height == h,
                        w >= 1,
                        h >= 1,
                        n <= h as usize,
                        n <= cells@.len(),
                        i <= n,
                        forall|k: int| 0 <= k < i as int ==> board@[0][k] == #[trigger] cells@[k],
                        forall|x: int, y: int|
                            #![trigger board@[x][y]]
                            0 <= x < w as int && 0 <= y < h as int && !(x == 0 && 0 <= y < i as int)
                                ==> board@[x][y] == old(board)@[x][y],
                    decreases n - i,
                {
                    board.set_cell(0, i as u32, cells[i]);
                    i = i + 1;
                }
            },
            BoardSectionSide::Right => {
                let n: usize = if cells.len() <= h as usize {
                    cells.len()
                } else {
                    h as usize
                };
                let mut i: usize = 0;
                while i < n
                    invariant
                        board.wf(),
                        board.width == w,
                        board.height == h,
                        w >= 1,
                        h >= 1,
                        n <= h as usize,
                        n <= cells@.len(),
                        i <= n,
                        forall|k: int|
                            0 <= k < i as int ==> board@[w as int - 1][k] == #[trigger] cells@[k],
                        forall|x: int, y: int|
                            #![trigger board@[x][y]]
                            0 <= x < w as int && 0 <= y < h as int && !(x == w as int - 1 && 0 <= y
                                < i as int) ==> board@[x][y] == old(board)@[x][y],
                    decreases n - i,
                {
                    board.set_cell(w - 1, i as u32, cells[i]);
                    i = i + 1;
                }
            },
        }
        proof {
            let m0 = old(board)@;
            let ov = edge_overwrite(m0, side, cells@);
            assert forall|x: int, y: int|
                #![trigger board@[x][y]]
                0 <= x < m0.len() && 0 <= y < m0[x].len() implies board@[x][y] == ov[x][y] by {}
            assert(board@ =~~= ov);
        }
    }

    /// Sends the published edge of `side` to each of its subscribers,
    /// best-effort: a full or disconnected channel just drops the value.
    fn publish_side(board: &Board, subs: &Vec<CellStateCallback>, side: BoardSectionSide)
        requires
            board.wf(),
            board.width >= 2,
            board.height >= 2,
    {
        if subs.len() > 0 {
            let edge = collect_edge(board, side);
            let mut i: usize = 0;
            while i < subs.len()
                decreases subs@.len() - i as int,
            {
                let value = Arc::new(copy_cells(&edge));
                match subs[i].try_send(value) {
                    SendAttempt::Accepted => {},
                    SendAttempt::Full => {},
                    SendAttempt::Disconnected => {},
                }
                i = i + 1;
            }
        }
    }
}

impl BoardSection for LocalBoardSection {
    closed spec fn inv(&self) -> bool {
        &&& self.board.wf()
        &&& self.board.width >= 2
        &&& self.board.height >= 2
    }

    closed spec fn spec_board(&self) -> Board {
        self.board
    }

    closed spec fn has_receiver(&self, side: BoardSectionSide) -> bool {
        match side {
            BoardSectionSide::Top => self.recv_top is Some,
            BoardSectionSide::Bottom => self.recv_bottom is Some,
            BoardSectionSide::Left => self.recv_left is Some,
            BoardSectionSide::Right => self.recv_right is Some,
        }
    }

    closed spec fn subscribers(&self, side: BoardSectionSide) -> Seq<CellStateCallback> {
        match side {
            BoardSectionSide::Top => self.subs_top@,
            BoardSectionSide::Bottom => self.subs_bottom@,
            BoardSectionSide::Left => self.subs_left@,
            BoardSectionSide::Right => self.subs_right@,
        }
    }

    proof fn lemma_inv_board(&self) {
    }

    fn subscribe(&mut self, side: BoardSectionSide, callback: CellStateCallback) {
        match side {
            BoardSectionSide::Top => Self::add_subscriber(&mut self.subs_top, callback),
            BoardSectionSide::Bottom => Self::add_subscriber(&mut self.subs_bottom, callback),
            BoardSectionSide::Left => Self::add_subscriber(&mut self.subs_left, callback),
            BoardSectionSide::Right => Self::add_subscriber(&mut self.subs_right, callback),
        }
    }

    fn unsubscribe(&mut self, side: BoardSectionSide, callback: &CellStateCallback) {
        let id = callback.get_id();
        match side {
            BoardSectionSide::Top => Self::remove_subscriber(&mut self.subs_top, id),
            BoardSectionSide::Bottom => Self::remove_subscriber(&mut self.subs_bottom, id),
            BoardSectionSide::Left => Self::remove_subscriber(&mut self.subs_left, id),
            BoardSectionSide::Right => Self::remove_subscriber(&mut self.subs_right, id),
        }
    }

    fn add_receiver(&mut self, side: BoardSectionSide, rx: Receiver<Arc<Vec<Cell>>>) {
        match side {
            BoardSectionSide::Top => {
                self.recv_top = Some(rx);
            },
            BoardSectionSide::Bottom => {
                self.recv_bottom = Some(rx);
            },
            BoardSectionSide::Left => {
                self.recv_left = Some(rx);
            },
            BoardSectionSide::Right => {
                self.recv_right = Some(rx);
            },
        }
    }

    fn try_iteration(&mut self, upto_iteration: usize) {
        let ghost pre = self.board;
        let ghost mut got_top: Option<Seq<Cell>> = None;
        let ghost mut got_bottom: Option<Seq<Cell>> = None;
        let ghost mut got_left: Option<Seq<Cell>> = None;
        let ghost mut got_right: Option<Seq<Cell>> = None;
        // Drain phase: a present inbound value overwrites the halo line of
        // its side; an empty or disconnected channel is simply skipped.
        match &self.recv_top {
            Some(rx) => match channel_try_recv(rx) {
                RecvAttempt::Received(cells) => {
                    proof {
                        got_top = Some(cells@);
                    }
                    LocalBoardSection::update(&mut self.board, BoardSectionSide::Top, &*cells);
                },
                RecvAttempt::Empty => {},
                RecvAttempt::Disconnected => {},
            },
            None => {},
        }
        proof {
            assert(self.board@ == maybe_drained(pre@, BoardSectionSide::Top, got_top));
        }
        let ghost m_top = self.board@;
        match &self.recv_bottom {
            Some(rx) => match channel_try_recv(rx) {
                RecvAttempt::Received(cells) => {
                    proof {
                        got_bottom = Some(cells@);
                    }
                    LocalBoardSection::update(&mut self.board, BoardSectionSide::Bottom, &*cells);
                },
                RecvAttempt::Empty => {},
                RecvAttempt::Disconnected => {},
            },
            None => {},
        }
        proof {
            assert(self.board@ == maybe_drained(m_top, BoardSectionSide::Bottom, got_bottom));
        }
        let ghost m_bottom = self.board@;
        match &self.recv_left {
            Some(rx) => match channel_try_recv(rx) {
                RecvAttempt::Received(cells) => {
                    proof {
                        got_left = Some(cells@);
                    }
                    LocalBoardSection::update(&mut self.board, BoardSectionSide::Left, &*cells);
                },
                RecvAttempt::Empty => {},
                RecvAttempt::Disconnected => {},
            },
            None => {},
        }
        proof {
            assert(self.board@ == maybe_drained(m_bottom, BoardSectionSide::Left, got_left));
        }
        let ghost m_left = self.board@;
        match &self.recv_right {
            Some(rx) => match channel_try_recv(rx) {
                RecvAttempt::Received(cells) => {
                    proof {
                        got_right = Some(cells@);
                    }
                    LocalBoardSection::update(&mut self.board, BoardSectionSide::Right, &*cells);
                },
                RecvAttempt::Empty => {},
                RecvAttempt::Disconnected => {},
            },
            None => {},
        }
        let ghost drained = self.board@;
        proof {
            assert(drained == maybe_drained(m_left, BoardSectionSide::Right, got_right));
            assert(drained == drained_grid(pre@, got_top, got_bottom, got_left, got_right));
        }
        // Advance phase: one in-place sweep over the interior.
        advance_cells(&mut self.board, upto_iteration);
        proof {
            assert(self.board@ == advance_pass(
                drained,
                pre.width as int,
                pre.height as int,
                upto_iteration as nat,
            ));
        }
        // Publish phase: the new edges go to every subscriber, best-effort.
        LocalBoardSection::publish_side(&self.board, &self.subs_top, BoardSectionSide::Top);
        LocalBoardSection::publish_side(&self.board, &self.subs_bottom, BoardSectionSide::Bottom);
        LocalBoardSection::publish_side(&self.board, &self.subs_left, BoardSectionSide::Left);
        LocalBoardSection::publish_side(&self.board, &self.subs_right, BoardSectionSide::Right);
        // Observer phase: accept a bounded number of new snapshot observers,
        // then send each observer a copy of the whole board; an observer
        // whose channel is gone is dropped for good.
        let ghost mid = *self;
        let mut polls: usize = 0;
        while polls < DRAIN_BOUND
            invariant
                self.board == mid.board,
                self.subs_top == mid.subs_top,
                self.subs_bottom == mid.subs_bottom,
                self.subs_left == mid.subs_left,
                self.subs_right == mid.subs_right,
                self.recv_top == mid.recv_top,
                self.recv_bottom == mid.recv_bottom,
                self.recv_left == mid.recv_left,
                self.recv_right == mid.recv_right,
            decreases DRAIN_BOUND as int - polls as int,
        {
            match channel_try_recv(&self.state_sender_registerer) {
                RecvAttempt::Received(sender) => {
                    self.state_senders.push(sender);
                },
                RecvAttempt::Empty => {
                    break ;
                },
                RecvAttempt::Disconnected => {
                    break ;
                },
            }
            polls = polls + 1;
        }
        let mut i: usize = 0;
        while i < self.state_senders.len()
            invariant
                self.board == mid.board,
                self.subs_top == mid.subs_top,
                self.subs_bottom == mid.subs_bottom,
                self.subs_left == mid.subs_left,
                self.subs_right == mid.subs_right,
                self.recv_top == mid.recv_top,
                self.recv_bottom == mid.recv_bottom,
                self.recv_left == mid.recv_left,
                self.recv_right == mid.recv_right,
                mid.board.wf(),
            decreases self.state_senders@.len() - i as int,
        {
            let snapshot = copy_grid(&self.board);
            let delivered = channel_send(&self.state_senders[i], snapshot);
            if delivered {
                i = i + 1;
            } else {
                self.state_senders.remove(i);
            }
        }
    }

    fn get_board(&self) -> (r: &Board) {
        &self.board
    }
}

} // verus!
