//! The topology builder: a two-dimensional grid of sections wired into a
//! halo-exchange mesh at construction time, plus a unified view of the global
//! coordinate space that the independently advancing sections reconstruct.
//!
//! Adjacent sections overlap by two cells: each stores, in its halo ring, a
//! mirror of the line its neighbour computes, so the global grid drops two
//! duplicated lines per inner seam.

use vstd::prelude::*;
use std::sync::Arc;
use std::sync::mpsc::Sender;
use std::sync::mpsc::SyncSender;
use crate::board::Board;
use crate::board::Cell;
use crate::board::init_cell;
use crate::channel::new_sync_channel;
use crate::section::BoardSection;
use crate::section::BoardSectionSide;
use crate::section::CellStateCallback;
use crate::section::LocalBoardSection;
use crate::section::section_stepped;
use crate::view::Rectangle;

verus! {

/// The grid shape every `Whole` keeps: rectangular, every section valid,
/// every board of one size, and a global coordinate space that fits `u32`.
pub open spec fn grid_ok<S: BoardSection>(g: Seq<Vec<S>>) -> bool {
    &&& forall|x: int| 0 <= x < g.len() ==> (#[trigger] g[x])@.len() == grid_rows(g)
    &&& forall|x: int, y: int|
        #![trigger g[x]@[y]]
        0 <= x < g.len() && 0 <= y < grid_rows(g) ==> g[x]@[y].inv() && g[x]@[y].spec_board().width
            == grid_board_w(g) && g[x]@[y].spec_board().height == grid_board_h(g)
    &&& g.len() * (grid_board_w(g) as int - 2) + 2 <= u32::MAX as int
    &&& grid_rows(g) * (grid_board_h(g) as int - 2) + 2 <= u32::MAX as int
}

pub open spec fn grid_rows<S: BoardSection>(g: Seq<Vec<S>>) -> int {
    if g.len() == 0 {
        0
    } else {
        g[0]@.len() as int
    }
}

pub open spec fn grid_board_w<S: BoardSection>(g: Seq<Vec<S>>) -> u32 {
    if g.len() == 0 || g[0]@.len() == 0 {
        0
    } else {
        g[0]@[0].spec_board().width
    }
}

pub open spec fn grid_board_h<S: BoardSection>(g: Seq<Vec<S>>) -> u32 {
    if g.len() == 0 || g[0]@.len() == 0 {
        0
    } else {
        g[0]@[0].spec_board().height
    }
}

/// A grid of sections addressed by index; sections never hold references to
/// each other, all their coupling runs through the channels wired here.
pub struct Whole<S: BoardSection> {
    sections: Vec<Vec<S>>,
}

impl<S: BoardSection> Whole<S> {
    pub closed spec fn inv(&self) -> bool {
        grid_ok(self.sections@)
    }

    pub closed spec fn sec(&self, x: int, y: int) -> S {
        self.sections@[x]@[y]
    }

    pub closed spec fn spec_sections_width(&self) -> int {
        self.sections@.len() as int
    }

    pub closed spec fn spec_sections_height(&self) -> int {
        grid_rows(self.sections@)
    }

    pub closed spec fn board_w(&self) -> u32 {
        grid_board_w(self.sections@)
    }

    pub closed spec fn board_h(&self) -> u32 {
        grid_board_h(self.sections@)
    }

    /// How many columns of distinct global cells the grid exposes: the
    /// sections' interiors plus the two outermost halo lines.
    pub open spec fn spec_columns_count(&self) -> int {
        let raw = self.spec_sections_width() * (self.board_w() as int - 2);
        if raw > 0 {
            raw + 2
        } else {
            0
        }
    }

    pub open spec fn spec_rows_count(&self) -> int {
        let raw = self.spec_sections_height() * (self.board_h() as int - 2);
        if raw > 0 {
            raw + 2
        } else {
            0
        }
    }

    pub fn new(sections: Vec<Vec<S>>) -> (w: Whole<S>)
        requires
            grid_ok(sections@),
        ensures
            w.inv(),
            w.spec_sections_width() == sections@.len(),
            w.spec_sections_height() == grid_rows(sections@),
            w.board_w() == grid_board_w(sections@),
            w.board_h() == grid_board_h(sections@),
            forall|x: int, y: int|
                0 <= x < sections@.len() && 0 <= y < grid_rows(sections@) ==> #[trigger] w.sec(
                    x,
                    y,
                ) == sections@[x]@[y],
    {
        Whole { sections }
    }

    pub fn sections_width(&self) -> (r: usize)
        ensures
            r as int == self.spec_sections_width(),
    {
        self.sections.len()
    }

    pub fn sections_height(&self) -> (r: usize)
        ensures
            r as int == self.spec_sections_height(),
    {
        if self.sections.len() == 0 {
            0
        } else {
            self.sections[0].len()
        }
    }

    pub fn columns_count(&self) -> (r: usize)
        requires
            self.inv(),
        ensures
            r as int == self.spec_columns_count(),
    {
        if self.sections.len() == 0 {
            return 0;
        }
        if self.sections[0].len() == 0 {
            proof {
                assert(self.spec_sections_width() * (self.board_w() as int - 2) <= 0)
                    by (nonlinear_arith)
                    requires
                        self.spec_sections_width() >= 0,
                        self.board_w() == 0,
                ;
            }
            return 0;
        }
        let bw = self.sections[0][0].get_board().get_width();
        proof {
            self.sections@[0]@[0].lemma_inv_board();
        }
        let per = (bw - 2) as usize;
        let raw = self.sections.len() * per;
        if raw > 0 {
            raw + 2
        } else {
            0
        }
    }

    pub fn rows_count(&self) -> (r: usize)
        requires
            self.inv(),
        ensures
            r as int == self.spec_rows_count(),
    {
        if self.sections.len() == 0 {
            return 0;
        }
        let rows = self.sections[0].len();
        if rows == 0 {
            proof {
                assert(self.spec_sections_height() * (self.board_h() as int - 2) <= 0)
                    by (nonlinear_arith)
                    requires
                        self.spec_sections_height() >= 0,
                        self.board_h() == 0,
                ;
            }
            return 0;
        }
        let bh = self.sections[0][0].get_board().get_height();
        proof {
            self.sections@[0]@[0].lemma_inv_board();
        }
        let per = (bh - 2) as usize;
        let raw = rows * per;
        if raw > 0 {
            raw + 2
        } else {
            0
        }
    }

    /// Read access to one section, for inspection of its board.
    pub fn get_section(&self, x: usize, y: usize) -> (r: &S)
        requires
            self.inv(),
            x < self.spec_sections_width(),
            y < self.spec_sections_height(),
        ensures
            *r == self.sec(x as int, y as int),
    {
        &self.sections[x][y]
    }

    /// One tick over the whole mesh: every section drains, advances up to
    /// the target generation as far as its neighbours' data allows, and
    /// publishes. Sections are independent; this order is one of many.
    pub fn advance_all(&mut self, upto_iteration: usize)
        requires
            old(self).inv(),
        ensures
            final(self).inv(),
            final(self).spec_sections_width() == old(self).spec_sections_width(),
            final(self).spec_sections_height() == old(self).spec_sections_height(),
            final(self).board_w() == old(self).board_w(),
            final(self).board_h() == old(self).board_h(),
            forall|x: int, y: int|
                #![trigger final(self).sec(x, y)]
                0 <= x < old(self).spec_sections_width() && 0 <= y < old(self).spec_sections_height() ==> section_stepped(
                    old(self).sec(x, y).spec_board(),
                    final(self).sec(x, y).spec_board(),
                    upto_iteration as nat,
                ),
    {
        let ghost orig = *self;
        let sw = self.sections.len();
        let mut x: usize = 0;
        while x < sw
            invariant
                sw as int == orig.spec_sections_width(),
                x <= sw,
                self.inv(),
                orig.inv(),
                self.spec_sections_width() == orig.spec_sections_width(),
                self.spec_sections_height() == orig.spec_sections_height(),
                self.board_w() == orig.board_w(),
                self.board_h() == orig.board_h(),
                forall|a: int, b: int|
                    #![trigger self.sec(a, b)]
                    0 <= a < orig.spec_sections_width() && 0 <= b < orig.spec_sections_height()
                        ==> if a < x as int {
                        section_stepped(
                            orig.sec(a, b).spec_board(),
                            self.sec(a, b).spec_board(),
                            upto_iteration as nat,
                        )
                    } else {
                        self.sec(a, b) == orig.sec(a, b)
                    },
            decreases sw - x,
        {
            let sh = self.sections[x].len();
            let mut y: usize = 0;
            while y < sh
                invariant
                    sw as int == orig.spec_sections_width(),
                    sh as int == orig.spec_sections_height(),
                    x < sw,
                    y <= sh,
                    self.inv(),
                    orig.inv(),
                    self.spec_sections_width() == orig.spec_sections_width(),
                    self.spec_sections_height() == orig.spec_sections_height(),
                    self.board_w() == orig.board_w(),
                    self.board_h() == orig.board_h(),
                    forall|a: int, b: int|
                        #![trigger self.sec(a, b)]
                        0 <= a < orig.spec_sections_width() && 0 <= b < orig.spec_sections_height()
                            ==> if a < x as int || (a == x as int && b < y as int) {
                            section_stepped(
                                orig.sec(a, b).spec_board(),
                                self.sec(a, b).spec_board(),
                                upto_iteration as nat,
                            )
                        } else {
                            self.sec(a, b) == orig.sec(a, b)
                        },
                decreases sh - y,
            {
                let ghost snap = *self;
                let col: &mut Vec<S> = &mut self.sections[x];
                let s: &mut S = &mut col[y];
                s.try_iteration(upto_iteration);
                proof {
                    assert(self.sections@ == snap.sections@.update(
                        x as int,
                        self.sections@[x as int],
                    ));
                    assert(self.sections@[x as int]@ == snap.sections@[x as int]@.update(
                        y as int,
                        self.sections@[x as int]@[y as int],
                    ));
                    assert(snap.sec(x as int, y as int) == orig.sec(x as int, y as int));
                    assert(section_stepped(
                        orig.sec(x as int, y as int).spec_board(),
                        self.sec(x as int, y as int).spec_board(),
                        upto_iteration as nat,
                    ));
                    assert forall|a: int, b: int|
                        0 <= a < orig.spec_sections_width() && 0 <= b
                            < orig.spec_sections_height() && !(a == x as int && b == y as int)
                        implies #[trigger] self.sec(a, b) == snap.sec(a, b) by {
                        if a == x as int {
                            assert(self.sections@[a]@[b] == snap.sections@[a]@[b]);
                        } else {
                            assert(self.sections@[a] == snap.sections@[a]);
                        }
                    }
                }
                y = y + 1;
            }
            x = x + 1;
        }
    }

    /// The authoritative cell for one global coordinate: the first section
    /// of an axis owns its board's full span, every later section only what
    /// lies past the two-cell overlap with its predecessor.
    pub closed spec fn global_cell(&self, gx: int, gy: int) -> Cell {
        let bw = self.board_w() as int;
        let bh = self.board_h() as int;
        self.sec(owner_of(gx, bw), owner_of(gy, bh)).spec_board()@[local_of(gx, bw)][local_of(
            gy,
            bh,
        )]
    }

    /// A snapshot of every global cell, in row-major order of the global
    /// coordinates; entry `gx * rows + gy` carries the cell at `(gx, gy)`.
    pub fn foreach_cell(&self) -> (r: Vec<(Cell, u32, u32)>)
        requires
            self.inv(),
        ensures
            r@.len() == self.spec_columns_count() * self.spec_rows_count(),
            forall|k: int|
                0 <= k < r@.len() ==> #[trigger] r@[k] == ({
                    let gx = k / self.spec_rows_count();
                    let gy = k % self.spec_rows_count();
                    (self.global_cell(gx, gy), gx as u32, gy as u32)
                }),
    {
        let cols = self.columns_count();
        let rows = self.rows_count();
        let mut out: Vec<(Cell, u32, u32)> = Vec::new();
        if cols == 0 || rows == 0 {
            proof {
                assert(self.spec_columns_count() * self.spec_rows_count() == 0)
                    by (nonlinear_arith)
                    requires
                        self.spec_columns_count() == 0 || self.spec_rows_count() == 0,
                ;
            }
            return out;
        }
        proof {
            assert(self.spec_sections_width() >= 1 && self.board_w() as int >= 3)
                by (nonlinear_arith)
                requires
                    self.spec_sections_width() * (self.board_w() as int - 2) > 0,
                    self.spec_sections_width() >= 0,
            ;
            assert(self.spec_sections_height() >= 1 && self.board_h() as int >= 3)
                by (nonlinear_arith)
                requires
                    self.spec_sections_height() * (self.board_h() as int - 2) > 0,
                    self.spec_sections_height() >= 0,
            ;
        }
        let sw = self.sections.len();
        let sh = self.sections[0].len();
        let bw = self.sections[0][0].get_board().get_width();
        let bh = self.sections[0][0].get_board().get_height();
        let mut gx: usize = 0;
        while gx < cols
            invariant
                self.inv(),
                cols as int == self.spec_columns_count(),
                rows as int == self.spec_rows_count(),
                bw == self.board_w(),
                bh == self.board_h(),
                sw as int == self.spec_sections_width(),
                sh as int == self.spec_sections_height(),
                bw >= 3,
                bh >= 3,
                sw >= 1,
                sh >= 1,
                cols as int == sw as int * (bw as int - 2) + 2,
                rows as int == sh as int * (bh as int - 2) + 2,
                cols as int <= u32::MAX as int,
                rows as int <= u32::MAX as int,
                gx <= cols,
                out@.len() == gx as int * rows as int,
                forall|k: int|
                    0 <= k < out@.len() ==> #[trigger] out@[k] == ({
                        let a = k / self.spec_rows_count();
                        let b = k % self.spec_rows_count();
                        (self.global_cell(a, b), a as u32, b as u32)
                    }),
            decreases cols - gx,
        {
            let (sx, lx) = split_coord(gx, bw, sw, cols);
            let mut gy: usize = 0;
            while gy < rows
                invariant
                    self.inv(),
                    cols as int == self.spec_columns_count(),
                    rows as int == self.spec_rows_count(),
                    bw == self.board_w(),
                    bh == self.board_h(),
                    sw as int == self.spec_sections_width(),
                    sh as int == self.spec_sections_height(),
                    bw >= 3,
                    bh >= 3,
                    sw >= 1,
                    sh >= 1,
                    cols as int == sw as int * (bw as int - 2) + 2,
                    rows as int == sh as int * (bh as int - 2) + 2,
                    cols as int <= u32::MAX as int,
                    rows as int <= u32::MAX as int,
                    gx < cols,
                    sx as int == owner_of(gx as int, bw as int),
                    lx as int == local_of(gx as int, bw as int),
                    sx < sw,
                    lx < bw,
                    gy <= rows,
                    out@.len() == gx as int * rows as int + gy as int,
                    forall|k: int|
                        0 <= k < out@.len() ==> #[trigger] out@[k] == ({
                            let a = k / self.spec_rows_count();
                            let b = k % self.spec_rows_count();
                            (self.global_cell(a, b), a as u32, b as u32)
                        }),
                decreases rows - gy,
            {
                let (sy, ly) = split_coord(gy, bh, sh, rows);
                proof {
                    assert(self.sections@[sx as int]@[sy as int].inv());
                    self.sections@[sx as int]@[sy as int].lemma_inv_board();
                }
                let section = &self.sections[sx][sy];
                let board = section.get_board();
                let cell = board.get_cell(lx as u32, ly as u32);
                let ghost k0 = out@.len() as int;
                out.push((cell, gx as u32, gy as u32));
                proof {
                    vstd::arithmetic::div_mod::lemma_fundamental_div_mod_converse(
                        k0,
                        rows as int,
                        gx as int,
                        gy as int,
                    );
                    assert(out@[k0] == (
                        self.global_cell(gx as int, gy as int),
                        gx as u32,
                        gy as u32,
                    ));
                }
                gy = gy + 1;
            }
            proof {
                assert((gx as int + 1) * rows as int == gx as int * rows as int + rows as int)
                    by (nonlinear_arith);
            }
            gx = gx + 1;
        }
        out
    }
}

/// The section index that owns global index `g`, on an axis whose boards
/// span `b` cells each.
pub open spec fn owner_of(g: int, b: int) -> int {
    if g < b {
        0
    } else {
        (g - b) / (b - 2) + 1
    }
}

/// The board-local index that global index `g` maps to on its owner.
pub open spec fn local_of(g: int, b: int) -> int {
    if g < b {
        g
    } else {
        (g - b) % (b - 2) + 2
    }
}

/// Splits one global index into its owning section and the board-local
/// index there.
fn split_coord(g: usize, b: u32, n: usize, total: usize) -> (r: (usize, usize))
    requires
        b >= 3,
        n >= 1,
        total as int == n as int * (b as int - 2) + 2,
        g < total,
    ensures
        r.0 as int == owner_of(g as int, b as int),
        r.1 as int == local_of(g as int, b as int),
        r.0 < n,
        r.1 < b,
{
    if g < b as usize {
        (0, g)
    } else {
        let per = (b - 2) as usize;
        let d = g - b as usize;
        let q = d / per;
        let rm = d % per;
        proof {
            vstd::arithmetic::div_mod::lemma_fundamental_div_mod(d as int, per as int);
            vstd::arithmetic::div_mod::lemma_mod_bound(d as int, per as int);
            assert(d as int <= (n as int - 1) * (per as int) - 1) by (nonlinear_arith)
                requires
                    per as int == b as int - 2,
                    total as int == n as int * (b as int - 2) + 2,
                    g as int <= total as int - 1,
                    d as int == g as int - b as int,
                    b as int >= 3,
            ;
            assert((q as int) < n as int - 1) by (nonlinear_arith)
                requires
                    d as int == (per as int) * (q as int) + (rm as int),
                    0 <= rm as int,
                    per as int >= 1,
                    d as int <= (n as int - 1) * (per as int) - 1,
                    q as int >= 0,
            ;
        }
        (q + 1, rm + 2)
    }
}


/// No section of the grid has any inbound channel bound yet.
pub open spec fn no_receivers<S: BoardSection>(g: Seq<Vec<S>>) -> bool {
    forall|x: int, y: int, s: BoardSectionSide|
        0 <= x < g.len() && 0 <= y < grid_rows(g) ==> !(#[trigger] g[x]@[y].has_receiver(s))
}

/// No section of the grid has any outbound subscriber registered yet.
pub open spec fn no_subscribers<S: BoardSection>(g: Seq<Vec<S>>) -> bool {
    forall|x: int, y: int, s: BoardSectionSide|
        0 <= x < g.len() && 0 <= y < grid_rows(g) ==> (#[trigger] g[x]@[y].subscribers(s)).len()
            == 0
}

/// When the seam exists, `side`'s subscriber list holds exactly one
/// callback, carrying the neighbour's grid identity; otherwise it is empty.
pub open spec fn seam_feed<S: BoardSection>(
    sec: S,
    side: BoardSectionSide,
    seam: bool,
    nx: int,
    ny: int,
) -> bool {
    if seam {
        sec.subscribers(side).len() == 1 && sec.subscribers(side)[0].spec_id() == (
            nx as usize,
            ny as usize,
        )
    } else {
        sec.subscribers(side).len() == 0
    }
}

/// Every 4-adjacent pair of sections is mutually subscribed: each seam side
/// publishes to exactly the neighbour across that seam; sides facing the
/// grid's outer boundary publish to nobody.
pub open spec fn seam_subscribed<S: BoardSection>(g: Seq<Vec<S>>) -> bool {
    forall|x: int, y: int|
        #![trigger g[x]@[y]]
        0 <= x < g.len() && 0 <= y < grid_rows(g) ==> {
            &&& seam_feed(g[x]@[y], BoardSectionSide::Top, y > 0, x, y - 1)
            &&& seam_feed(g[x]@[y], BoardSectionSide::Bottom, y < grid_rows(g) - 1, x, y + 1)
            &&& seam_feed(g[x]@[y], BoardSectionSide::Left, x > 0, x - 1, y)
            &&& seam_feed(g[x]@[y], BoardSectionSide::Right, x < g.len() - 1, x + 1, y)
        }
}

/// Every side facing a neighbour has its inbound channel bound; the grid's
/// outer boundary sides have none.
pub open spec fn interior_wired<S: BoardSection>(g: Seq<Vec<S>>) -> bool {
    forall|x: int, y: int|
        #![trigger g[x]@[y]]
        0 <= x < g.len() && 0 <= y < grid_rows(g) ==> {
            &&& (g[x]@[y].has_receiver(BoardSectionSide::Top) <==> y > 0)
            &&& (g[x]@[y].has_receiver(BoardSectionSide::Bottom) <==> y < grid_rows(g) - 1)
            &&& (g[x]@[y].has_receiver(BoardSectionSide::Left) <==> x > 0)
            &&& (g[x]@[y].has_receiver(BoardSectionSide::Right) <==> x < g.len() - 1)
        }
}

/// Every side of every section has its inbound channel bound — the interior
/// ones to neighbours, the boundary ones to the grid's edge feeders.
pub open spec fn fully_wired<S: BoardSection>(g: Seq<Vec<S>>) -> bool {
    forall|x: int, y: int, s: BoardSectionSide|
        0 <= x < g.len() && 0 <= y < grid_rows(g) ==> #[trigger] g[x]@[y].has_receiver(s)
}

/// Same shape and, position for position, the same board.
pub open spec fn same_boards<S: BoardSection>(g0: Seq<Vec<S>>, g1: Seq<Vec<S>>) -> bool {
    &&& g1.len() == g0.len()
    &&& grid_rows(g1) == grid_rows(g0)
    &&& forall|x: int, y: int|
        #![trigger g1[x]@[y]]
        0 <= x < g0.len() && 0 <= y < grid_rows(g0) ==> g1[x]@[y].spec_board()
            == g0[x]@[y].spec_board()
}

/// The channels that feed the global boundary of the mesh: one sender per
/// boundary section and side, in section order along each edge.
pub struct EdgeSenders {
    pub top: Vec<SyncSender<Arc<Vec<Cell>>>>,
    pub bottom: Vec<SyncSender<Arc<Vec<Cell>>>>,
    pub left: Vec<SyncSender<Arc<Vec<Cell>>>>,
    pub right: Vec<SyncSender<Arc<Vec<Cell>>>>,
}

/// Wires one vertically adjacent pair within a column: each section gets an
/// inbound channel on the shared seam, and the neighbour subscribes to the
/// matching published edge.
fn wire_vertical_pair<S: BoardSection>(col: &mut Vec<S>, x: usize, y: usize)
    requires
        y + 1 < old(col)@.len(),
        old(col)@[y as int].inv(),
        old(col)@[y as int + 1].inv(),
        !old(col)@[y as int].has_receiver(BoardSectionSide::Bottom),
        !old(col)@[y as int + 1].has_receiver(BoardSectionSide::Top),
        old(col)@[y as int].subscribers(BoardSectionSide::Bottom).len() == 0,
        old(col)@[y as int + 1].subscribers(BoardSectionSide::Top).len() == 0,
    ensures
        final(col)@.len() == old(col)@.len(),
        forall|i: int|
            0 <= i < old(col)@.len() && i != y as int && i != y as int + 1 ==> #[trigger] final(col)@[i] == old(col)@[i],
        final(col)@[y as int].inv(),
        final(col)@[y as int].spec_board() == old(col)@[y as int].spec_board(),
        final(col)@[y as int].has_receiver(BoardSectionSide::Bottom),
        forall|s: BoardSectionSide|
            s != BoardSectionSide::Bottom ==> #[trigger] final(col)@[y as int].has_receiver(s)
                == old(col)@[y as int].has_receiver(s),
        final(col)@[y as int + 1].inv(),
        final(col)@[y as int + 1].spec_board() == old(col)@[y as int + 1].spec_board(),
        final(col)@[y as int + 1].has_receiver(BoardSectionSide::Top),
        forall|s: BoardSectionSide|
            s != BoardSectionSide::Top ==> #[trigger] final(col)@[y as int + 1].has_receiver(s)
                == old(col)@[y as int + 1].has_receiver(s),
        final(col)@[y as int].subscribers(BoardSectionSide::Bottom).len() == 1,
        final(col)@[y as int].subscribers(BoardSectionSide::Bottom)[0].spec_id() == (
            x,
            (y + 1) as usize,
        ),
        forall|s: BoardSectionSide|
            s != BoardSectionSide::Bottom ==> #[trigger] final(col)@[y as int].subscribers(s)
                == old(col)@[y as int].subscribers(s),
        final(col)@[y as int + 1].subscribers(BoardSectionSide::Top).len() == 1,
        final(col)@[y as int + 1].subscribers(BoardSectionSide::Top)[0].spec_id() == (x, y),
        forall|s: BoardSectionSide|
            s != BoardSectionSide::Top ==> #[trigger] final(col)@[y as int + 1].subscribers(s)
                == old(col)@[y as int + 1].subscribers(s),
{
    let n = col.len();
    assert(y + 1 < n);
    let upper_tx = {
        let s: &mut S = &mut col[y];
        Whole::<S>::create_sender(BoardSectionSide::Bottom, s)
    };
    {
        let s: &mut S = &mut col[y + 1];
        s.subscribe(BoardSectionSide::Top, CellStateCallback::new((x, y), upper_tx));
    }
    let lower_tx = {
        let s: &mut S = &mut col[y + 1];
        Whole::<S>::create_sender(BoardSectionSide::Top, s)
    };
    {
        let s: &mut S = &mut col[y];
        s.subscribe(BoardSectionSide::Bottom, CellStateCallback::new((x, y + 1), lower_tx));
    }
}

/// Wires every vertically adjacent pair of one column.
fn wire_column_vertical<S: BoardSection>(col: &mut Vec<S>, x: usize)
    requires
        forall|i: int| 0 <= i < old(col)@.len() ==> (#[trigger] old(col)@[i]).inv(),
        forall|i: int, s: BoardSectionSide|
            0 <= i < old(col)@.len() ==> !(#[trigger] old(col)@[i].has_receiver(s)),
        forall|i: int, s: BoardSectionSide|
            0 <= i < old(col)@.len() ==> (#[trigger] old(col)@[i].subscribers(s)).len() == 0,
    ensures
        final(col)@.len() == old(col)@.len(),
        forall|i: int| 0 <= i < old(col)@.len() ==> (#[trigger] final(col)@[i]).inv(),
        forall|i: int|
            0 <= i < old(col)@.len() ==> (#[trigger] final(col)@[i]).spec_board() == old(col)@[i].spec_board(),
        forall|i: int|
            #![trigger final(col)@[i]]
            0 <= i < old(col)@.len() ==> {
                &&& (final(col)@[i].has_receiver(BoardSectionSide::Top) <==> i > 0)
                &&& (final(col)@[i].has_receiver(BoardSectionSide::Bottom) <==> i < old(col)@.len() - 1)
                &&& !final(col)@[i].has_receiver(BoardSectionSide::Left)
                &&& !final(col)@[i].has_receiver(BoardSectionSide::Right)
                &&& seam_feed(final(col)@[i], BoardSectionSide::Top, i > 0, x as int, i - 1)
                &&& seam_feed(
                    final(col)@[i],
                    BoardSectionSide::Bottom,
                    i < old(col)@.len() - 1,
                    x as int,
                    i + 1,
                )
                &&& final(col)@[i].subscribers(BoardSectionSide::Left).len() == 0
                &&& final(col)@[i].subscribers(BoardSectionSide::Right).len() == 0
            },
{
    let n = col.len();
    if n == 0 {
        return ;
    }
    let mut y: usize = 0;
    while y < n - 1
        invariant
            n == col@.len(),
            n == old(col)@.len(),
            n >= 1,
            y <= n - 1,
            forall|i: int| 0 <= i < n as int ==> (#[trigger] col@[i]).inv(),
            forall|i: int|
                0 <= i < n as int ==> (#[trigger] col@[i]).spec_board() == old(col)@[i].spec_board(),
            forall|i: int|
                #![trigger col@[i]]
                0 <= i < n as int ==> {
                    &&& (col@[i].has_receiver(BoardSectionSide::Top) <==> 1 <= i <= y as int)
                    &&& (col@[i].has_receiver(BoardSectionSide::Bottom) <==> i < y as int)
                    &&& !col@[i].has_receiver(BoardSectionSide::Left)
                    &&& !col@[i].has_receiver(BoardSectionSide::Right)
                    &&& seam_feed(
                        col@[i],
                        BoardSectionSide::Top,
                        1 <= i <= y as int,
                        x as int,
                        i - 1,
                    )
                    &&& seam_feed(col@[i], BoardSectionSide::Bottom, i < y as int, x as int, i + 1)
                    &&& col@[i].subscribers(BoardSectionSide::Left).len() == 0
                    &&& col@[i].subscribers(BoardSectionSide::Right).len() == 0
                },
        decreases n - 1 - y,
    {
        wire_vertical_pair(col, x, y);
        y = y + 1;
    }
}

/// Wires one horizontally adjacent pair across two columns, as the vertical
/// counterpart does along one.
fn wire_horizontal_pair<S: BoardSection>(sections: &mut Vec<Vec<S>>, x: usize, y: usize)
    requires
        x + 1 < old(sections)@.len(),
        y < old(sections)@[x as int]@.len(),
        y < old(sections)@[x as int + 1]@.len(),
        old(sections)@[x as int]@[y as int].inv(),
        old(sections)@[x as int + 1]@[y as int].inv(),
        !old(sections)@[x as int]@[y as int].has_receiver(BoardSectionSide::Right),
        !old(sections)@[x as int + 1]@[y as int].has_receiver(BoardSectionSide::Left),
        old(sections)@[x as int]@[y as int].subscribers(BoardSectionSide::Right).len() == 0,
        old(sections)@[x as int + 1]@[y as int].subscribers(BoardSectionSide::Left).len() == 0,
    ensures
        final(sections)@.len() == old(sections)@.len(),
        forall|c: int|
            0 <= c < old(sections)@.len() ==> (#[trigger] final(sections)@[c])@.len() == old(sections)@[c]@.len(),
        forall|c: int, i: int|
            #![trigger final(sections)@[c]@[i]]
            0 <= c < old(sections)@.len() && 0 <= i < old(sections)@[c]@.len() && !(c == x as int
                && i == y as int) && !(c == x as int + 1 && i == y as int) ==> final(sections)@[c]@[i] == old(sections)@[c]@[i],
        final(sections)@[x as int]@[y as int].inv(),
        final(sections)@[x as int]@[y as int].spec_board() == old(sections)@[x as int]@[y as int].spec_board(),
        final(sections)@[x as int]@[y as int].has_receiver(BoardSectionSide::Right),
        forall|s: BoardSectionSide|
            s != BoardSectionSide::Right ==> #[trigger] final(sections)@[x as int]@[y as int].has_receiver(s) == old(sections)@[x as int]@[y as int].has_receiver(s),
        final(sections)@[x as int + 1]@[y as int].inv(),
        final(sections)@[x as int + 1]@[y as int].spec_board() == old(sections)@[x as int + 1]@[y as int].spec_board(),
        final(sections)@[x as int + 1]@[y as int].has_receiver(BoardSectionSide::Left),
        forall|s: BoardSectionSide|
            s != BoardSectionSide::Left ==> #[trigger] final(sections)@[x as int + 1]@[y as int].has_receiver(s) == old(sections)@[x as int + 1]@[y as int].has_receiver(s),
        final(sections)@[x as int]@[y as int].subscribers(BoardSectionSide::Right).len() == 1,
        final(sections)@[x as int]@[y as int].subscribers(BoardSectionSide::Right)[0].spec_id()
            == ((x + 1) as usize, y),
        forall|s: BoardSectionSide|
            s != BoardSectionSide::Right ==> #[trigger] final(sections)@[x as int]@[y as int].subscribers(s) == old(sections)@[x as int]@[y as int].subscribers(s),
        final(sections)@[x as int + 1]@[y as int].subscribers(BoardSectionSide::Left).len() == 1,
        final(sections)@[x as int + 1]@[y as int].subscribers(BoardSectionSide::Left)[0].spec_id()
            == (x, y),
        forall|s: BoardSectionSide|
            s != BoardSectionSide::Left ==> #[trigger] final(sections)@[x as int + 1]@[y as int].subscribers(s) == old(sections)@[x as int + 1]@[y as int].subscribers(s),
{
    let n = sections.len();
    assert(x + 1 < n);
    let left_tx = {
        let col: &mut Vec<S> = &mut sections[x];
        let s: &mut S = &mut col[y];
        Whole::<S>::create_sender(BoardSectionSide::Right, s)
    };
    {
        let col: &mut Vec<S> = &mut sections[x + 1];
        let s: &mut S = &mut col[y];
        s.subscribe(BoardSectionSide::Left, CellStateCallback::new((x, y), left_tx));
    }
    let right_tx = {
        let col: &mut Vec<S> = &mut sections[x + 1];
        let s: &mut S = &mut col[y];
        Whole::<S>::create_sender(BoardSectionSide::Left, s)
    };
    {
        let col: &mut Vec<S> = &mut sections[x];
        let s: &mut S = &mut col[y];
        s.subscribe(BoardSectionSide::Right, CellStateCallback::new((x + 1, y), right_tx));
    }
}

/// Opens one inbound edge channel on a single section of the grid and hands
/// back its sending end.
fn bind_edge<S: BoardSection>(
    sections: &mut Vec<Vec<S>>,
    x: usize,
    y: usize,
    side: BoardSectionSide,
) -> (tx: SyncSender<Arc<Vec<Cell>>>)
    requires
        x < old(sections)@.len(),
        y < old(sections)@[x as int]@.len(),
        old(sections)@[x as int]@[y as int].inv(),
        !old(sections)@[x as int]@[y as int].has_receiver(side),
    ensures
        final(sections)@.len() == old(sections)@.len(),
        forall|c: int|
            0 <= c < old(sections)@.len() ==> (#[trigger] final(sections)@[c])@.len() == old(
                sections,
            )@[c]@.len(),
        forall|c: int, i: int|
            #![trigger final(sections)@[c]@[i]]
            0 <= c < old(sections)@.len() && 0 <= i < old(sections)@[c]@.len() && !(c == x as int
                && i == y as int) ==> final(sections)@[c]@[i] == old(sections)@[c]@[i],
        final(sections)@[x as int]@[y as int].inv(),
        final(sections)@[x as int]@[y as int].spec_board() == old(
            sections,
        )@[x as int]@[y as int].spec_board(),
        final(sections)@[x as int]@[y as int].has_receiver(side),
        forall|s: BoardSectionSide|
            s != side ==> #[trigger] final(sections)@[x as int]@[y as int].has_receiver(s) == old(
                sections,
            )@[x as int]@[y as int].has_receiver(s),
        forall|s: BoardSectionSide| #[trigger]
            final(sections)@[x as int]@[y as int].subscribers(s) == old(
                sections,
            )@[x as int]@[y as int].subscribers(s),
{
    let col: &mut Vec<S> = &mut sections[x];
    let s: &mut S = &mut col[y];
    Whole::<S>::create_sender(side, s)
}

impl<S: BoardSection> Whole<S> {
    /// Opens a bounded channel, binds its receiving end as the section's inbound
    /// channel for `side`, and hands back the sending end.
    fn create_sender(side: BoardSectionSide, section: &mut S) -> (tx: SyncSender<
        Arc<Vec<Cell>>,
    >)
        requires
            old(section).inv(),
            !old(section).has_receiver(side),
        ensures
            final(section).inv(),
            final(section).spec_board() == old(section).spec_board(),
            final(section).has_receiver(side),
            forall|s: BoardSectionSide|
                s != side ==> #[trigger] final(section).has_receiver(s) == old(section).has_receiver(
                    s,
                ),
            forall|s: BoardSectionSide| #[trigger]
                final(section).subscribers(s) == old(section).subscribers(s),
    {
        let (tx, rx) = new_sync_channel(1);
        section.add_receiver(side, rx);
        tx
    }

    /// Wires the whole mesh: for every pair of 4-adjacent sections, one bounded
    /// channel per direction, each bound as the receiver's inbound channel for
    /// the shared seam and subscribed on the sender's matching side.
    fn connect_sections(sections: &mut Vec<Vec<S>>)
        requires
            grid_ok(old(sections)@),
            no_receivers(old(sections)@),
            no_subscribers(old(sections)@),
        ensures
            grid_ok(final(sections)@),
            same_boards(old(sections)@, final(sections)@),
            interior_wired(final(sections)@),
            seam_subscribed(final(sections)@),
    {
        let w = sections.len();
        let ghost rows0 = grid_rows(old(sections)@);
        // Vertical seams, one column at a time.
        let mut x: usize = 0;
        while x < w
            invariant
                w == sections@.len(),
                w == old(sections)@.len(),
                rows0 == grid_rows(old(sections)@),
                x <= w,
                grid_ok(old(sections)@),
                no_receivers(old(sections)@),
                forall|c: int| 0 <= c < w as int ==> (#[trigger] sections@[c])@.len() == rows0,
                same_boards(old(sections)@, sections@),
                forall|a: int, b: int|
                    #![trigger sections@[a]@[b]]
                    0 <= a < w as int && 0 <= b < rows0 ==> {
                        &&& sections@[a]@[b].inv()
                        &&& (sections@[a]@[b].has_receiver(BoardSectionSide::Top) <==> (a < x as int
                            && b > 0))
                        &&& (sections@[a]@[b].has_receiver(BoardSectionSide::Bottom) <==> (a
                            < x as int && b < rows0 - 1))
                        &&& !sections@[a]@[b].has_receiver(BoardSectionSide::Left)
                        &&& !sections@[a]@[b].has_receiver(BoardSectionSide::Right)
                        &&& seam_feed(
                            sections@[a]@[b],
                            BoardSectionSide::Top,
                            a < x as int && b > 0,
                            a,
                            b - 1,
                        )
                        &&& seam_feed(
                            sections@[a]@[b],
                            BoardSectionSide::Bottom,
                            a < x as int && b < rows0 - 1,
                            a,
                            b + 1,
                        )
                        &&& sections@[a]@[b].subscribers(BoardSectionSide::Left).len() == 0
                        &&& sections@[a]@[b].subscribers(BoardSectionSide::Right).len() == 0
                    },
            decreases w - x,
        {
            let ghost snap = sections@;
            let col: &mut Vec<S> = &mut sections[x];
            wire_column_vertical(col, x);
            proof {
                assert(sections@ == snap.update(x as int, sections@[x as int]));
                assert forall|a: int, b: int|
                    #![trigger sections@[a]@[b]]
                    0 <= a < w as int && 0 <= b < rows0 implies {
                    &&& sections@[a]@[b].inv()
                    &&& sections@[a]@[b].spec_board() == old(sections)@[a]@[b].spec_board()
                    &&& (sections@[a]@[b].has_receiver(BoardSectionSide::Top) <==> (a < x as int + 1
                        && b > 0))
                    &&& (sections@[a]@[b].has_receiver(BoardSectionSide::Bottom) <==> (a < x as int
                        + 1 && b < rows0 - 1))
                    &&& !sections@[a]@[b].has_receiver(BoardSectionSide::Left)
                    &&& !sections@[a]@[b].has_receiver(BoardSectionSide::Right)
                    &&& seam_feed(
                        sections@[a]@[b],
                        BoardSectionSide::Top,
                        a < x as int + 1 && b > 0,
                        a,
                        b - 1,
                    )
                    &&& seam_feed(
                        sections@[a]@[b],
                        BoardSectionSide::Bottom,
                        a < x as int + 1 && b < rows0 - 1,
                        a,
                        b + 1,
                    )
                    &&& sections@[a]@[b].subscribers(BoardSectionSide::Left).len() == 0
                    &&& sections@[a]@[b].subscribers(BoardSectionSide::Right).len() == 0
                } by {
                    if a == x as int {
                        assert(snap[a]@[b].inv());
                        assert(snap[a]@[b].spec_board() == old(sections)@[a]@[b].spec_board());
                    } else {
                        assert(sections@[a] == snap[a]);
                        assert(snap[a]@[b].inv());
                    }
                }
            }
            x = x + 1;
        }
        // Horizontal seams, column pair by column pair.
        let mut hx: usize = 0;
        while hx < w && hx + 1 < w
            invariant
                w == sections@.len(),
                w == old(sections)@.len(),
                rows0 == grid_rows(old(sections)@),
                w == 0 || hx as int <= w as int - 1,
                grid_ok(old(sections)@),
                forall|c: int| 0 <= c < w as int ==> (#[trigger] sections@[c])@.len() == rows0,
                same_boards(old(sections)@, sections@),
                forall|a: int, b: int|
                    #![trigger sections@[a]@[b]]
                    0 <= a < w as int && 0 <= b < rows0 ==> {
                        &&& sections@[a]@[b].inv()
                        &&& (sections@[a]@[b].has_receiver(BoardSectionSide::Top) <==> b > 0)
                        &&& (sections@[a]@[b].has_receiver(BoardSectionSide::Bottom) <==> b < rows0
                            - 1)
                        &&& (sections@[a]@[b].has_receiver(BoardSectionSide::Left) <==> (1 <= a
                            <= hx as int))
                        &&& (sections@[a]@[b].has_receiver(BoardSectionSide::Right) <==> (a
                            < hx as int))
                        &&& seam_feed(sections@[a]@[b], BoardSectionSide::Top, b > 0, a, b - 1)
                        &&& seam_feed(
                            sections@[a]@[b],
                            BoardSectionSide::Bottom,
                            b < rows0 - 1,
                            a,
                            b + 1,
                        )
                        &&& seam_feed(
                            sections@[a]@[b],
                            BoardSectionSide::Left,
                            1 <= a <= hx as int,
                            a - 1,
                            b,
                        )
                        &&& seam_feed(
                            sections@[a]@[b],
                            BoardSectionSide::Right,
                            a < hx as int,
                            a + 1,
                            b,
                        )
                    },
            decreases w - hx,
        {
            let rows = sections[hx].len();
            let mut hy: usize = 0;
            while hy < rows
                invariant
                    w == sections@.len(),
                    w == old(sections)@.len(),
                    rows0 == grid_rows(old(sections)@),
                    hx as int + 1 < w as int,
                    rows as int == rows0,
                    hy <= rows,
                    grid_ok(old(sections)@),
                    forall|c: int| 0 <= c < w as int ==> (#[trigger] sections@[c])@.len() == rows0,
                    same_boards(old(sections)@, sections@),
                    forall|a: int, b: int|
                        #![trigger sections@[a]@[b]]
                        0 <= a < w as int && 0 <= b < rows0 ==> {
                            &&& sections@[a]@[b].inv()
                            &&& (sections@[a]@[b].has_receiver(BoardSectionSide::Top) <==> b > 0)
                            &&& (sections@[a]@[b].has_receiver(BoardSectionSide::Bottom) <==> b
                                < rows0 - 1)
                            &&& (sections@[a]@[b].has_receiver(BoardSectionSide::Left) <==> (1 <= a
                                <= hx as int) || (a == hx as int + 1 && b < hy as int))
                            &&& (sections@[a]@[b].has_receiver(BoardSectionSide::Right) <==> (a
                                < hx as int) || (a == hx as int && b < hy as int))
                            &&& seam_feed(sections@[a]@[b], BoardSectionSide::Top, b > 0, a, b - 1)
                            &&& seam_feed(
                                sections@[a]@[b],
                                BoardSectionSide::Bottom,
                                b < rows0 - 1,
                                a,
                                b + 1,
                            )
                            &&& seam_feed(
                                sections@[a]@[b],
                                BoardSectionSide::Left,
                                (1 <= a <= hx as int) || (a == hx as int + 1 && b < hy as int),
                                a - 1,
                                b,
                            )
                            &&& seam_feed(
                                sections@[a]@[b],
                                BoardSectionSide::Right,
                                (a < hx as int) || (a == hx as int && b < hy as int),
                                a + 1,
                                b,
                            )
                        },
                decreases rows - hy,
            {
                let ghost snap = sections@;
                wire_horizontal_pair(sections, hx, hy);
                proof {
                    assert forall|a: int, b: int|
                        #![trigger sections@[a]@[b]]
                        0 <= a < w as int && 0 <= b < rows0 implies {
                        &&& sections@[a]@[b].inv()
                        &&& sections@[a]@[b].spec_board() == old(sections)@[a]@[b].spec_board()
                        &&& (sections@[a]@[b].has_receiver(BoardSectionSide::Top) <==> b > 0)
                        &&& (sections@[a]@[b].has_receiver(BoardSectionSide::Bottom) <==> b < rows0
                            - 1)
                        &&& (sections@[a]@[b].has_receiver(BoardSectionSide::Left) <==> (1 <= a
                            <= hx as int) || (a == hx as int + 1 && b < hy as int + 1))
                        &&& (sections@[a]@[b].has_receiver(BoardSectionSide::Right) <==> (a
                            < hx as int) || (a == hx as int && b < hy as int + 1))
                        &&& seam_feed(sections@[a]@[b], BoardSectionSide::Top, b > 0, a, b - 1)
                        &&& seam_feed(
                            sections@[a]@[b],
                            BoardSectionSide::Bottom,
                            b < rows0 - 1,
                            a,
                            b + 1,
                        )
                        &&& seam_feed(
                            sections@[a]@[b],
                            BoardSectionSide::Left,
                            (1 <= a <= hx as int) || (a == hx as int + 1 && b < hy as int + 1),
                            a - 1,
                            b,
                        )
                        &&& seam_feed(
                            sections@[a]@[b],
                            BoardSectionSide::Right,
                            (a < hx as int) || (a == hx as int && b < hy as int + 1),
                            a + 1,
                            b,
                        )
                    } by {
                        if (a == hx as int || a == hx as int + 1) && b == hy as int {
                            assert(snap[a]@[b].inv());
                            assert(snap[a]@[b].spec_board() == old(sections)@[a]@[b].spec_board());
                        } else {
                            assert(sections@[a]@[b] == snap[a]@[b]);
                            assert(snap[a]@[b].inv());
                        }
                    }
                }
                hy = hy + 1;
            }
            hx = hx + 1;
        }
        proof {
            if w as int > 0 && rows0 > 0 {
                assert(sections@[0]@[0].spec_board() == old(sections)@[0]@[0].spec_board());
                assert(old(sections)@[0]@[0].spec_board().width == grid_board_w(old(sections)@));
            }
            assert(grid_rows(sections@) == rows0);
            assert(grid_board_w(sections@) == grid_board_w(old(sections)@));
            assert(grid_board_h(sections@) == grid_board_h(old(sections)@));
            assert forall|a: int, b: int|
                #![trigger sections@[a]@[b]]
                0 <= a < sections@.len() && 0 <= b < grid_rows(sections@) implies {
                &&& sections@[a]@[b].inv()
                &&& sections@[a]@[b].spec_board().width == grid_board_w(sections@)
                &&& sections@[a]@[b].spec_board().height == grid_board_h(sections@)
            } by {
                assert(sections@[a]@[b].spec_board() == old(sections)@[a]@[b].spec_board());
                assert(old(sections)@[a]@[b].spec_board().width == grid_board_w(old(sections)@));
            }
            assert(grid_ok(sections@));
            assert forall|a: int, b: int|
                #![trigger sections@[a]@[b]]
                0 <= a < sections@.len() && 0 <= b < grid_rows(sections@) implies {
                &&& seam_feed(sections@[a]@[b], BoardSectionSide::Top, b > 0, a, b - 1)
                &&& seam_feed(
                    sections@[a]@[b],
                    BoardSectionSide::Bottom,
                    b < grid_rows(sections@) - 1,
                    a,
                    b + 1,
                )
                &&& seam_feed(sections@[a]@[b], BoardSectionSide::Left, a > 0, a - 1, b)
                &&& seam_feed(
                    sections@[a]@[b],
                    BoardSectionSide::Right,
                    a < sections@.len() - 1,
                    a + 1,
                    b,
                )
            } by {}
            assert(seam_subscribed(sections@));
        }
    }

    /// Binds the inbound channels of the grid's outer boundary — one per
    /// boundary section and side — and returns their senders, so that a driver
    /// can feed the global edge with cells of the current generation.
    fn create_edge_senders(whole_size: usize, sections: &mut Vec<Vec<S>>) -> (senders:
        EdgeSenders)
        requires
            old(sections)@.len() == whole_size,
            grid_rows(old(sections)@) == whole_size,
            grid_ok(old(sections)@),
            interior_wired(old(sections)@),
        ensures
            grid_ok(final(sections)@),
            same_boards(old(sections)@, final(sections)@),
            fully_wired(final(sections)@),
            forall|a: int, b: int, s: BoardSectionSide|
                0 <= a < old(sections)@.len() && 0 <= b < grid_rows(old(sections)@) ==> (
                #[trigger] final(sections)@[a]@[b].subscribers(s)) == old(
                    sections,
                )@[a]@[b].subscribers(s),
            senders.top@.len() == whole_size,
            senders.bottom@.len() == whole_size,
            senders.left@.len() == whole_size,
            senders.right@.len() == whole_size,
    {
        let ghost ws = whole_size as int;
        let mut top: Vec<SyncSender<Arc<Vec<Cell>>>> = Vec::new();
        let mut bottom: Vec<SyncSender<Arc<Vec<Cell>>>> = Vec::new();
        let mut left: Vec<SyncSender<Arc<Vec<Cell>>>> = Vec::new();
        let mut right: Vec<SyncSender<Arc<Vec<Cell>>>> = Vec::new();
        let mut x: usize = 0;
        while x < whole_size
            invariant
                ws == whole_size as int,
                sections@.len() == ws,
                old(sections)@.len() == ws,
                grid_rows(old(sections)@) == ws,
                x <= whole_size,
                grid_ok(old(sections)@),
                top@.len() == x as int,
                bottom@.len() == x as int,
                left@.len() == 0,
                right@.len() == 0,
                forall|c: int| 0 <= c < ws ==> (#[trigger] sections@[c])@.len() == ws,
                same_boards(old(sections)@, sections@),
                forall|a: int, b: int, s: BoardSectionSide|
                    0 <= a < ws && 0 <= b < ws ==> (#[trigger] sections@[a]@[b].subscribers(s))
                        == old(sections)@[a]@[b].subscribers(s),
                forall|a: int, b: int|
                    #![trigger sections@[a]@[b]]
                    0 <= a < ws && 0 <= b < ws ==> {
                        &&& sections@[a]@[b].inv()
                        &&& (sections@[a]@[b].has_receiver(BoardSectionSide::Top) <==> (b > 0 || a
                            < x as int))
                        &&& (sections@[a]@[b].has_receiver(BoardSectionSide::Bottom) <==> (b < ws - 1
                            || a < x as int))
                        &&& (sections@[a]@[b].has_receiver(BoardSectionSide::Left) <==> a > 0)
                        &&& (sections@[a]@[b].has_receiver(BoardSectionSide::Right) <==> a < ws - 1)
                    },
            decreases whole_size - x,
        {
            let ghost snap = sections@;
            let t = bind_edge(sections, x, 0, BoardSectionSide::Top);
            top.push(t);
            proof {
                assert forall|a: int, b: int|
                    #![trigger sections@[a]@[b]]
                    0 <= a < ws && 0 <= b < ws && !(a == x as int && b == 0) implies sections@[a]@[b]
                    == snap[a]@[b] by {}
            }
            let ghost snap2 = sections@;
            let bt = bind_edge(sections, x, whole_size - 1, BoardSectionSide::Bottom);
            bottom.push(bt);
            proof {
                assert forall|a: int, b: int|
                    #![trigger sections@[a]@[b]]
                    0 <= a < ws && 0 <= b < ws && !(a == x as int && b == ws - 1) implies
                    sections@[a]@[b] == snap2[a]@[b] by {}
                assert forall|a: int, b: int|
                    #![trigger sections@[a]@[b]]
                    0 <= a < ws && 0 <= b < ws implies {
                    &&& sections@[a]@[b].inv()
                    &&& sections@[a]@[b].spec_board() == old(sections)@[a]@[b].spec_board()
                    &&& (sections@[a]@[b].has_receiver(BoardSectionSide::Top) <==> (b > 0 || a
                        < x as int + 1))
                    &&& (sections@[a]@[b].has_receiver(BoardSectionSide::Bottom) <==> (b < ws - 1
                        || a < x as int + 1))
                    &&& (sections@[a]@[b].has_receiver(BoardSectionSide::Left) <==> a > 0)
                    &&& (sections@[a]@[b].has_receiver(BoardSectionSide::Right) <==> a < ws - 1)
                } by {
                    if a == x as int && b == 0 && b != ws - 1 {
                        assert(sections@[a]@[b] == snap2[a]@[b]);
                    } else if a == x as int && b == ws - 1 {
                    } else if a == x as int && b == 0 {
                    } else {
                        assert(sections@[a]@[b] == snap2[a]@[b]);
                        assert(snap2[a]@[b] == snap[a]@[b]);
                    }
                }
                assert forall|a: int, b: int, s: BoardSectionSide|
                    0 <= a < ws && 0 <= b < ws implies (
                #[trigger] sections@[a]@[b].subscribers(s)) == old(
                    sections,
                )@[a]@[b].subscribers(s) by {
                    if a == x as int && b == 0 && b != ws - 1 {
                        assert(sections@[a]@[b] == snap2[a]@[b]);
                        assert(snap2[a]@[b].subscribers(s) == snap[a]@[b].subscribers(s));
                    } else if a == x as int && b == ws - 1 && b != 0 {
                        assert(sections@[a]@[b].subscribers(s) == snap2[a]@[b].subscribers(s));
                        assert(snap2[a]@[b] == snap[a]@[b]);
                    } else if a == x as int && b == 0 {
                        assert(sections@[a]@[b].subscribers(s) == snap2[a]@[b].subscribers(s));
                        assert(snap2[a]@[b].subscribers(s) == snap[a]@[b].subscribers(s));
                    } else {
                        assert(sections@[a]@[b] == snap2[a]@[b]);
                        assert(snap2[a]@[b] == snap[a]@[b]);
                    }
                }
            }
            x = x + 1;
        }
        let mut y: usize = 0;
        while y < whole_size
            invariant
                ws == whole_size as int,
                sections@.len() == ws,
                old(sections)@.len() == ws,
                grid_rows(old(sections)@) == ws,
                y <= whole_size,
                grid_ok(old(sections)@),
                top@.len() == ws,
                bottom@.len() == ws,
                left@.len() == y as int,
                right@.len() == y as int,
                forall|c: int| 0 <= c < ws ==> (#[trigger] sections@[c])@.len() == ws,
                same_boards(old(sections)@, sections@),
                forall|a: int, b: int, s: BoardSectionSide|
                    0 <= a < ws && 0 <= b < ws ==> (#[trigger] sections@[a]@[b].subscribers(s))
                        == old(sections)@[a]@[b].subscribers(s),
                forall|a: int, b: int|
                    #![trigger sections@[a]@[b]]
                    0 <= a < ws && 0 <= b < ws ==> {
                        &&& sections@[a]@[b].inv()
                        &&& sections@[a]@[b].has_receiver(BoardSectionSide::Top)
                        &&& sections@[a]@[b].has_receiver(BoardSectionSide::Bottom)
                        &&& (sections@[a]@[b].has_receiver(BoardSectionSide::Left) <==> (a > 0 || b
                            < y as int))
                        &&& (sections@[a]@[b].has_receiver(BoardSectionSide::Right) <==> (a < ws - 1
                            || b < y as int))
                    },
            decreases whole_size - y,
        {
            let ghost snap = sections@;
            let lt = bind_edge(sections, 0, y, BoardSectionSide::Left);
            left.push(lt);
            proof {
                assert forall|a: int, b: int|
                    #![trigger sections@[a]@[b]]
                    0 <= a < ws && 0 <= b < ws && !(a == 0 && b == y as int) implies sections@[a]@[b]
                    == snap[a]@[b] by {}
            }
            let ghost snap2 = sections@;
            let rt = bind_edge(sections, whole_size - 1, y, BoardSectionSide::Right);
            right.push(rt);
            proof {
                assert forall|a: int, b: int|
                    #![trigger sections@[a]@[b]]
                    0 <= a < ws && 0 <= b < ws && !(a == ws - 1 && b == y as int) implies
                    sections@[a]@[b] == snap2[a]@[b] by {}
                assert forall|a: int, b: int|
                    #![trigger sections@[a]@[b]]
                    0 <= a < ws && 0 <= b < ws implies {
                    &&& sections@[a]@[b].inv()
                    &&& sections@[a]@[b].spec_board() == old(sections)@[a]@[b].spec_board()
                    &&& sections@[a]@[b].has_receiver(BoardSectionSide::Top)
                    &&& sections@[a]@[b].has_receiver(BoardSectionSide::Bottom)
                    &&& (sections@[a]@[b].has_receiver(BoardSectionSide::Left) <==> (a > 0 || b
                        < y as int + 1))
                    &&& (sections@[a]@[b].has_receiver(BoardSectionSide::Right) <==> (a < ws - 1
                        || b < y as int + 1))
                } by {
                    if a == 0 && b == y as int && a != ws - 1 {
                        assert(sections@[a]@[b] == snap2[a]@[b]);
                    } else if a == ws - 1 && b == y as int {
                    } else if a == 0 && b == y as int {
                    } else {
                        assert(sections@[a]@[b] == snap2[a]@[b]);
                        assert(snap2[a]@[b] == snap[a]@[b]);
                    }
                }
                assert forall|a: int, b: int, s: BoardSectionSide|
                    0 <= a < ws && 0 <= b < ws implies (
                #[trigger] sections@[a]@[b].subscribers(s)) == old(
                    sections,
                )@[a]@[b].subscribers(s) by {
                    if a == 0 && b == y as int && a != ws - 1 {
                        assert(sections@[a]@[b] == snap2[a]@[b]);
                        assert(snap2[a]@[b].subscribers(s) == snap[a]@[b].subscribers(s));
                    } else if a == ws - 1 && b == y as int && a != 0 {
                        assert(sections@[a]@[b].subscribers(s) == snap2[a]@[b].subscribers(s));
                        assert(snap2[a]@[b] == snap[a]@[b]);
                    } else if a == 0 && b == y as int {
                        assert(sections@[a]@[b].subscribers(s) == snap2[a]@[b].subscribers(s));
                        assert(snap2[a]@[b].subscribers(s) == snap[a]@[b].subscribers(s));
                    } else {
                        assert(sections@[a]@[b] == snap2[a]@[b]);
                        assert(snap2[a]@[b] == snap[a]@[b]);
                    }
                }
            }
            y = y + 1;
        }
        proof {
            if ws > 0 {
                assert(sections@[0]@[0].spec_board() == old(sections)@[0]@[0].spec_board());
            }
            assert(grid_rows(sections@) == grid_rows(old(sections)@));
            assert(grid_board_w(sections@) == grid_board_w(old(sections)@));
            assert(grid_board_h(sections@) == grid_board_h(old(sections)@));
            assert forall|a: int, b: int|
                #![trigger sections@[a]@[b]]
                0 <= a < sections@.len() && 0 <= b < grid_rows(sections@) implies {
                &&& sections@[a]@[b].inv()
                &&& sections@[a]@[b].spec_board().width == grid_board_w(sections@)
                &&& sections@[a]@[b].spec_board().height == grid_board_h(sections@)
            } by {
                assert(sections@[a]@[b].spec_board() == old(sections)@[a]@[b].spec_board());
                assert(old(sections)@[a]@[b].spec_board().width == grid_board_w(old(sections)@));
            }
            assert(grid_ok(sections@));
        }
        EdgeSenders { top, bottom, left, right }
    }
}

/// The boards a fresh mesh starts from: uniform dimensions, everything at
/// generation zero, and only the first section carrying the seed pattern.
pub open spec fn seeded_boards(
    g: Seq<Vec<LocalBoardSection>>,
    sw: u32,
    sh: u32,
    seed: Seq<(u32, u32)>,
) -> bool {
    forall|x: int, y: int|
        #![trigger g[x]@[y]]
        0 <= x < g.len() && 0 <= y < grid_rows(g) ==> {
            let b = g[x]@[y].spec_board();
            &&& b.wf()
            &&& b.width == sw
            &&& b.height == sh
            &&& forall|u: u32, v: u32|
                u < sw && v < sh ==> #[trigger] b@[u as int][v as int] == init_cell(
                    if x == 0 && y == 0 {
                        seed
                    } else {
                        Seq::<(u32, u32)>::empty()
                    },
                    u,
                    v,
                )
        }
}

impl Whole<LocalBoardSection> {
    /// Builds the unwired `whole_size x whole_size` grid of sections, the
    /// seed applied to the first section's board, and collects each
    /// section's snapshot-registration endpoint with the global region its
    /// board covers.
    fn create_sections_sub(
        section_width: u32,
        section_height: u32,
        whole_size: usize,
        seed: &Vec<(u32, u32)>,
    ) -> (r: (Vec<Vec<LocalBoardSection>>, Vec<(Rectangle, Sender<Sender<Vec<Vec<Cell>>>>)>))
        requires
            section_width >= 2,
            section_height >= 2,
            whole_size as int * (section_width as int - 2) + 2 <= u32::MAX as int,
            whole_size as int * (section_height as int - 2) + 2 <= u32::MAX as int,
            whole_size as int * section_width as int <= u32::MAX as int,
            whole_size as int * section_height as int <= u32::MAX as int,
        ensures
            r.0@.len() == whole_size,
            grid_rows(r.0@) == whole_size || whole_size == 0,
            forall|x: int| 0 <= x < whole_size as int ==> (#[trigger] r.0@[x])@.len() == whole_size,
            grid_ok(r.0@),
            no_receivers(r.0@),
            no_subscribers(r.0@),
            seeded_boards(r.0@, section_width, section_height, seed@),
            r.1@.len() == whole_size as int * whole_size as int,
            forall|k: int|
                0 <= k < r.1@.len() ==> (#[trigger] r.1@[k]).0 == (Rectangle {
                    start_x: ((k / whole_size as int) * section_width as int) as u32,
                    start_y: ((k % whole_size as int) * section_height as int) as u32,
                    width: section_width,
                    height: section_height,
                }),
    {
        let empty_seed: Vec<(u32, u32)> = Vec::new();
        let mut registerers: Vec<(Rectangle, Sender<Sender<Vec<Vec<Cell>>>>)> = Vec::new();
        let mut grid: Vec<Vec<LocalBoardSection>> = Vec::new();
        let ghost ws = whole_size as int;
        let ghost sw = section_width as int;
        let ghost sh = section_height as int;
        let mut x: usize = 0;
        while x < whole_size
            invariant
                ws == whole_size as int,
                sw == section_width as int,
                sh == section_height as int,
                section_width >= 2,
                section_height >= 2,
                ws * (sw - 2) + 2 <= u32::MAX as int,
                ws * (sh - 2) + 2 <= u32::MAX as int,
                ws * sw <= u32::MAX as int,
                ws * sh <= u32::MAX as int,
                empty_seed@ == Seq::<(u32, u32)>::empty(),
                x <= whole_size,
                grid@.len() == x as int,
                registerers@.len() == x as int * ws,
                forall|a: int| 0 <= a < x as int ==> (#[trigger] grid@[a])@.len() == ws,
                forall|a: int, b: int|
                    #![trigger grid@[a]@[b]]
                    0 <= a < x as int && 0 <= b < ws ==> {
                        let bd = grid@[a]@[b].spec_board();
                        &&& grid@[a]@[b].inv()
                        &&& forall|s: BoardSectionSide| !grid@[a]@[b].has_receiver(s)
                        &&& forall|s: BoardSectionSide| grid@[a]@[b].subscribers(s).len() == 0
                        &&& bd.wf()
                        &&& bd.width == section_width
                        &&& bd.height == section_height
                        &&& forall|u: u32, v: u32|
                            u < section_width && v < section_height ==> #[trigger] bd@[u as int][v as int]
                                == init_cell(
                                if a == 0 && b == 0 {
                                    seed@
                                } else {
                                    Seq::<(u32, u32)>::empty()
                                },
                                u,
                                v,
                            )
                    },
                forall|k: int|
                    0 <= k < registerers@.len() ==> (#[trigger] registerers@[k]).0 == (Rectangle {
                        start_x: ((k / ws) * sw) as u32,
                        start_y: ((k % ws) * sh) as u32,
                        width: section_width,
                        height: section_height,
                    }),
            decreases whole_size - x,
        {
            let mut col: Vec<LocalBoardSection> = Vec::new();
            let mut y: usize = 0;
            while y < whole_size
                invariant
                    ws == whole_size as int,
                    sw == section_width as int,
                    sh == section_height as int,
                    section_width >= 2,
                    section_height >= 2,
                    ws * sw <= u32::MAX as int,
                    ws * sh <= u32::MAX as int,
                    empty_seed@ == Seq::<(u32, u32)>::empty(),
                    x < whole_size,
                    y <= whole_size,
                    col@.len() == y as int,
                    registerers@.len() == x as int * ws + y as int,
                    forall|b: int|
                        #![trigger col@[b]]
                        0 <= b < y as int ==> {
                            let bd = col@[b].spec_board();
                            &&& col@[b].inv()
                            &&& forall|s: BoardSectionSide| !col@[b].has_receiver(s)
                            &&& forall|s: BoardSectionSide| col@[b].subscribers(s).len() == 0
                            &&& bd.wf()
                            &&& bd.width == section_width
                            &&& bd.height == section_height
                            &&& forall|u: u32, v: u32|
                                u < section_width && v < section_height ==> #[trigger] bd@[u as int][v as int]
                                    == init_cell(
                                    if x as int == 0 && b == 0 {
                                        seed@
                                    } else {
                                        Seq::<(u32, u32)>::empty()
                                    },
                                    u,
                                    v,
                                )
                        },
                    forall|k: int|
                        0 <= k < registerers@.len() ==> (#[trigger] registerers@[k]).0 == (
                        Rectangle {
                            start_x: ((k / ws) * sw) as u32,
                            start_y: ((k % ws) * sh) as u32,
                            width: section_width,
                            height: section_height,
                        }),
                decreases whole_size - y,
            {
                let board = if x == 0 && y == 0 {
                    Board::new(section_width, section_height, seed)
                } else {
                    Board::new(section_width, section_height, &empty_seed)
                };
                let (section, registerer) = LocalBoardSection::create(board);
                proof {
                    assert(x as int * sw + sw <= u32::MAX as int && x as int
                        <= u32::MAX as int) by (nonlinear_arith)
                        requires
                            x as int + 1 <= ws,
                            x as int >= 0,
                            sw >= 2,
                            ws >= 0,
                            ws * sw <= u32::MAX as int,
                    ;
                    assert(y as int * sh + sh <= u32::MAX as int && y as int
                        <= u32::MAX as int) by (nonlinear_arith)
                        requires
                            y as int + 1 <= ws,
                            y as int >= 0,
                            sh >= 2,
                            ws >= 0,
                            ws * sh <= u32::MAX as int,
                    ;
                }
                let start_x = (x as u32) * section_width;
                let start_y = (y as u32) * section_height;
                let area = Rectangle::new(start_x, start_y, section_width, section_height);
                let ghost k0 = registerers@.len() as int;
                registerers.push((area, registerer));
                col.push(section);
                proof {
                    vstd::arithmetic::div_mod::lemma_fundamental_div_mod_converse(
                        k0,
                        ws,
                        x as int,
                        y as int,
                    );
                    assert(registerers@[k0].0 == (Rectangle {
                        start_x: ((k0 / ws) * sw) as u32,
                        start_y: ((k0 % ws) * sh) as u32,
                        width: section_width,
                        height: section_height,
                    }));
                    let bd = col@[y as int].spec_board();
                    let sd = if x as int == 0 && y as int == 0 {
                        seed@
                    } else {
                        Seq::<(u32, u32)>::empty()
                    };
                    assert forall|u: u32, v: u32|
                        u < section_width && v < section_height implies #[trigger] bd@[u as int][v as int]
                        == init_cell(sd, u, v) by {
                        assert(bd.spec_cell(u as int, v as int) == init_cell(sd, u, v));
                    }
                }
                y = y + 1;
            }
            grid.push(col);
            proof {
                assert((x as int + 1) * ws == x as int * ws + ws) by (nonlinear_arith);
            }
            x = x + 1;
        }
        proof {
            if ws > 0 {
                assert(grid@[0]@.len() == ws);
            }
            assert(grid_ok(grid@));
        }
        (grid, registerers)
    }

    /// Builds the whole mesh in one pass: the seeded, unwired grid first,
    /// then the halo-exchange wiring between every adjacent pair, then the
    /// boundary feeders — all before anything is ever advanced. Returns the
    /// wired sections, the boundary senders, and the per-section snapshot
    /// registerers with the regions they cover.
    pub fn create_sections(
        section_width: u32,
        section_height: u32,
        whole_size: usize,
        seed: &Vec<(u32, u32)>,
    ) -> (r: (Vec<Vec<LocalBoardSection>>, EdgeSenders, Vec<(
        Rectangle,
        Sender<Sender<Vec<Vec<Cell>>>>,
    )>))
        requires
            section_width >= 2,
            section_height >= 2,
            whole_size as int * (section_width as int - 2) + 2 <= u32::MAX as int,
            whole_size as int * (section_height as int - 2) + 2 <= u32::MAX as int,
            whole_size as int * section_width as int <= u32::MAX as int,
            whole_size as int * section_height as int <= u32::MAX as int,
        ensures
            r.0@.len() == whole_size,
            grid_rows(r.0@) == whole_size || whole_size == 0,
            grid_ok(r.0@),
            fully_wired(r.0@),
            seam_subscribed(r.0@),
            seeded_boards(r.0@, section_width, section_height, seed@),
            r.1.top@.len() == whole_size,
            r.1.bottom@.len() == whole_size,
            r.1.left@.len() == whole_size,
            r.1.right@.len() == whole_size,
            r.2@.len() == whole_size as int * whole_size as int,
            forall|k: int|
                0 <= k < r.2@.len() ==> (#[trigger] r.2@[k]).0 == (Rectangle {
                    start_x: ((k / whole_size as int) * section_width as int) as u32,
                    start_y: ((k % whole_size as int) * section_height as int) as u32,
                    width: section_width,
                    height: section_height,
                }),
    {
        let (mut sections, registerers) = Self::create_sections_sub(
            section_width,
            section_height,
            whole_size,
            seed,
        );
        let ghost unwired = sections@;
        Self::connect_sections(&mut sections);
        let ghost connected = sections@;
        let edge_senders = Self::create_edge_senders(whole_size, &mut sections);
        proof {
            assert forall|x: int, y: int|
                #![trigger sections@[x]@[y]]
                0 <= x < sections@.len() && 0 <= y < grid_rows(sections@) implies
                sections@[x]@[y].spec_board() == unwired[x]@[y].spec_board() by {
                assert(connected[x]@[y].spec_board() == unwired[x]@[y].spec_board());
            }
            assert(grid_rows(sections@) == grid_rows(connected));
            assert forall|x: int, y: int|
                #![trigger sections@[x]@[y]]
                0 <= x < sections@.len() && 0 <= y < grid_rows(sections@) implies {
                &&& seam_feed(sections@[x]@[y], BoardSectionSide::Top, y > 0, x, y - 1)
                &&& seam_feed(
                    sections@[x]@[y],
                    BoardSectionSide::Bottom,
                    y < grid_rows(sections@) - 1,
                    x,
                    y + 1,
                )
                &&& seam_feed(sections@[x]@[y], BoardSectionSide::Left, x > 0, x - 1, y)
                &&& seam_feed(
                    sections@[x]@[y],
                    BoardSectionSide::Right,
                    x < sections@.len() - 1,
                    x + 1,
                    y,
                )
            } by {
                assert(sections@[x]@[y].subscribers(BoardSectionSide::Top) == connected[x]@[y].subscribers(BoardSectionSide::Top));
                assert(sections@[x]@[y].subscribers(BoardSectionSide::Bottom) == connected[x]@[y].subscribers(BoardSectionSide::Bottom));
                assert(sections@[x]@[y].subscribers(BoardSectionSide::Left) == connected[x]@[y].subscribers(BoardSectionSide::Left));
                assert(sections@[x]@[y].subscribers(BoardSectionSide::Right) == connected[x]@[y].subscribers(BoardSectionSide::Right));
            }
            assert(seam_subscribed(sections@));
        }
        (sections, edge_senders, registerers)
    }
}

} // verus!
