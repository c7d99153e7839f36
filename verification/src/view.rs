//! A read-only window over the global grid, fed by full-board snapshots that
//! sections publish over channels. The view polls for the latest snapshot of
//! each part and reports, for every coordinate of the window that a part
//! covers, the cell it last saw there — or nothing before the first snapshot.

use vstd::prelude::*;
use std::sync::mpsc::Receiver;
use std::sync::mpsc::Sender;
use crate::board::Cell;
use crate::channel::RecvAttempt;
use crate::channel::channel_send;
use crate::channel::channel_try_recv;
use crate::channel::new_channel;
use crate::section::DRAIN_BOUND;

verus! {

/// An axis-aligned region of the global coordinate space.
#[derive(Copy, Clone)]
pub struct Rectangle {
    pub start_x: u32,
    pub start_y: u32,
    pub width: u32,
    pub height: u32,
}

impl Rectangle {
    /// Both far edges stay within the coordinate type.
    pub open spec fn wf(&self) -> bool {
        &&& self.start_x + self.width <= u32::MAX
        &&& self.start_y + self.height <= u32::MAX
    }

    pub fn new(start_x: u32, start_y: u32, width: u32, height: u32) -> (r: Rectangle)
        requires
            start_x + width <= u32::MAX,
            start_y + height <= u32::MAX,
        ensures
            r == (Rectangle { start_x, start_y, width, height }),
            r.wf(),
    {
        Rectangle { start_x, start_y, width, height }
    }

    pub fn get_start_x(&self) -> (r: u32)
        ensures
            r == self.start_x,
    {
        self.start_x
    }

    pub fn get_end_x(&self) -> (r: u32)
        requires
            self.wf(),
        ensures
            r as int == self.start_x + self.width,
    {
        self.start_x + self.width
    }

    pub fn get_start_y(&self) -> (r: u32)
        ensures
            r == self.start_y,
    {
        self.start_y
    }

    pub fn get_end_y(&self) -> (r: u32)
        requires
            self.wf(),
        ensures
            r as int == self.start_y + self.height,
    {
        self.start_y + self.height
    }
}

/// One part of the window: the region a section covers, the channel its
/// snapshots arrive on, and the latest snapshot seen so far.
struct ViewReceiver {
    covered: Rectangle,
    receiver: Receiver<Vec<Vec<Cell>>>,
    last_known: Option<Vec<Vec<Cell>>>,
}

/// Where the window's span and a covered region overlap, measured from the
/// region's start: the first index of the overlap on one axis.
pub open spec fn clip_start(cov_start: int, view_start: int) -> int {
    if view_start >= cov_start {
        view_start - cov_start
    } else {
        0
    }
}

/// The end index of the overlap on one axis. A region that lies entirely
/// past the window keeps its full span here; the window test happens on the
/// other side, so such a part contributes its whole extent unclipped.
pub open spec fn clip_end(cov_start: int, cov_span: int, view_end: int) -> int {
    if cov_start + cov_span < view_end {
        cov_span
    } else if cov_start > view_end {
        cov_span
    } else {
        view_end - cov_start
    }
}

pub open spec fn span_of(s: int, e: int) -> int {
    if e > s {
        e - s
    } else {
        0
    }
}

/// What a snapshot reports for one board-local coordinate: nothing if no
/// snapshot arrived yet, or if the snapshot is too small to hold it.
pub open spec fn snapshot_cell(snap: Option<Vec<Vec<Cell>>>, i: int, j: int) -> Option<Cell> {
    match snap {
        None => None,
        Some(cells) => {
            if 0 <= i < cells@.len() && 0 <= j < cells@[i]@.len() {
                Some(cells@[i]@[j])
            } else {
                None
            }
        },
    }
}

/// Everything one part contributes to a read of the window, in row-major
/// order of its board-local coordinates, tagged with global coordinates.
pub open spec fn part_cells(
    view: Rectangle,
    covered: Rectangle,
    snap: Option<Vec<Vec<Cell>>>,
) -> Seq<(Option<Cell>, u32, u32)> {
    let si = clip_start(covered.start_x as int, view.start_x as int);
    let ei = clip_end(
        covered.start_x as int,
        covered.width as int,
        view.start_x as int + view.width as int,
    );
    let sj = clip_start(covered.start_y as int, view.start_y as int);
    let ej = clip_end(
        covered.start_y as int,
        covered.height as int,
        view.start_y as int + view.height as int,
    );
    let spj = span_of(sj, ej);
    Seq::new((span_of(si, ei) * spj) as nat, |k: int| ({
        let i = si + k / spj;
        let j = sj + k % spj;
        (snapshot_cell(snap, i, j), (i + covered.start_x) as u32, (j + covered.start_y) as u32)
    }))
}

/// A window over the global grid, assembled from per-section snapshots.
pub struct BoardView {
    view: Rectangle,
    part_receivers: Vec<ViewReceiver>,
}

impl BoardView {
    pub closed spec fn spec_view(&self) -> Rectangle {
        self.view
    }

    pub closed spec fn parts_len(&self) -> int {
        self.part_receivers@.len() as int
    }

    pub closed spec fn part_covered(&self, i: int) -> Rectangle {
        self.part_receivers@[i].covered
    }

    pub closed spec fn part_snapshot(&self, i: int) -> Option<Vec<Vec<Cell>>> {
        self.part_receivers@[i].last_known
    }

    pub closed spec fn wf(&self) -> bool {
        &&& self.view.wf()
        &&& forall|i: int| 0 <= i < self.parts_len() ==> (#[trigger] self.part_covered(i)).wf()
    }

    /// Everything the first `n` parts report, one part after the other.
    pub closed spec fn rendered_prefix(&self, n: int) -> Seq<(Option<Cell>, u32, u32)>
        decreases n,
    {
        if n <= 0 {
            Seq::empty()
        } else {
            self.rendered_prefix(n - 1) + part_cells(
                self.view,
                self.part_receivers@[n - 1].covered,
                self.part_receivers@[n - 1].last_known,
            )
        }
    }

    /// Builds the window and asks each registerer, over its registration
    /// channel, to start sending board snapshots here.
    pub fn new(view: Rectangle, registerers: Vec<(Rectangle, Sender<Sender<Vec<Vec<Cell>>>>)>) -> (r:
        BoardView)
        requires
            view.wf(),
            forall|i: int| 0 <= i < registerers@.len() ==> (#[trigger] registerers@[i].0).wf(),
        ensures
            r.wf(),
            r.spec_view() == view,
            r.parts_len() == registerers@.len(),
            forall|i: int|
                0 <= i < registerers@.len() ==> #[trigger] r.part_covered(i) == registerers@[i].0
                    && r.part_snapshot(i) is None,
    {
        let part_receivers = BoardView::create_links(registerers);
        BoardView { view, part_receivers }
    }

    /// Opens one snapshot channel per registerer and hands its sending end
    /// over the registration channel; a registerer that is gone is skipped,
    /// its part then simply never receives a snapshot.
    fn create_links(registerers: Vec<(Rectangle, Sender<Sender<Vec<Vec<Cell>>>>)>) -> (parts: Vec<
        ViewReceiver,
    >)
        ensures
            parts@.len() == registerers@.len(),
            forall|i: int|
                0 <= i < registerers@.len() ==> (#[trigger] parts@[i]).covered == registerers@[i].0
                    && parts@[i].last_known is None,
    {
        let mut parts: Vec<ViewReceiver> = Vec::new();
        let mut i: usize = 0;
        while i < registerers.len()
            invariant
                i <= registerers@.len(),
                parts@.len() == i as int,
                forall|k: int|
                    0 <= k < i as int ==> (#[trigger] parts@[k]).covered == registerers@[k].0
                        && parts@[k].last_known is None,
            decreases registerers@.len() - i as int,
        {
            let (tx, rx) = new_channel();
            let vr = ViewReceiver {
                covered: registerers[i].0,
                receiver: rx,
                last_known: None,
            };
            let _sent = channel_send(&registerers[i].1, tx);
            parts.push(vr);
            i = i + 1;
        }
        parts
    }

    /// Polls each part for newer snapshots (keeping only the latest), then
    /// reports every covered window coordinate with the cell last seen
    /// there. The result is exactly what the parts' current snapshots say.
    pub fn foreach_cell(&mut self) -> (r: Vec<(Option<Cell>, u32, u32)>)
        requires
            old(self).wf(),
        ensures
            final(self).wf(),
            final(self).spec_view() == old(self).spec_view(),
            final(self).parts_len() == old(self).parts_len(),
            forall|i: int|
                0 <= i < old(self).parts_len() ==> #[trigger] final(self).part_covered(i) == old(
                    self,
                ).part_covered(i),
            forall|i: int|
                0 <= i < old(self).parts_len() && old(self).part_snapshot(i) is Some ==> (
                #[trigger] final(self).part_snapshot(i)) is Some,
            r@ == final(self).rendered_prefix(final(self).parts_len()),
    {
        let ghost orig = *self;
        // Poll phase: take in whatever snapshots have arrived, latest wins.
        let mut idx: usize = 0;
        while idx < self.part_receivers.len()
            invariant
                self.view == orig.view,
                self.part_receivers@.len() == orig.part_receivers@.len(),
                forall|i: int|
                    0 <= i < orig.part_receivers@.len() ==> (
                    #[trigger] self.part_receivers@[i]).covered == orig.part_receivers@[i].covered,
                forall|i: int|
                    0 <= i < orig.part_receivers@.len() && orig.part_receivers@[i].last_known
                        is Some ==> (#[trigger] self.part_receivers@[i]).last_known is Some,
            decreases self.part_receivers@.len() - idx as int,
        {
            let mut polls: usize = 0;
            while polls < DRAIN_BOUND
                invariant
                    idx < self.part_receivers@.len(),
                    self.view == orig.view,
                    self.part_receivers@.len() == orig.part_receivers@.len(),
                    forall|i: int|
                        0 <= i < orig.part_receivers@.len() ==> (
                        #[trigger] self.part_receivers@[i]).covered
                            == orig.part_receivers@[i].covered,
                    forall|i: int|
                        0 <= i < orig.part_receivers@.len() && orig.part_receivers@[i].last_known
                            is Some ==> (#[trigger] self.part_receivers@[i]).last_known is Some,
                decreases DRAIN_BOUND as int - polls as int,
            {
                let ghost snap = self.part_receivers@;
                let part: &mut ViewReceiver = &mut self.part_receivers[idx];
                let got = channel_try_recv(&part.receiver);
                match got {
                    RecvAttempt::Received(cells) => {
                        part.last_known = Some(cells);
                        proof {
                            assert forall|i: int|
                                0 <= i < snap.len() implies (
                            #[trigger] self.part_receivers@[i]).covered == snap[i].covered && (
                            snap[i].last_known is Some
                                ==> self.part_receivers@[i].last_known is Some) by {
                                if i != idx as int {
                                    assert(self.part_receivers@[i] == snap[i]);
                                }
                            }
                        }
                    },
                    RecvAttempt::Empty => {
                        proof {
                            assert(self.part_receivers@ == snap);
                        }
                        break ;
                    },
                    RecvAttempt::Disconnected => {
                        // The section is gone; its last snapshot stays on
                        // display, per the frozen-at-last-known policy.
                        proof {
                            assert(self.part_receivers@ == snap);
                        }
                        break ;
                    },
                }
                polls = polls + 1;
            }
            idx = idx + 1;
        }
        // Render phase: concatenate what every part reports.
        proof {
            assert forall|i: int| 0 <= i < self.parts_len() implies (
            #[trigger] self.part_covered(i)).wf() by {
                assert(self.part_receivers@[i].covered == orig.part_receivers@[i].covered);
                assert(orig.part_covered(i).wf());
            }
            assert(self.wf());
        }
        let mut out: Vec<(Option<Cell>, u32, u32)> = Vec::new();
        let mut i: usize = 0;
        while i < self.part_receivers.len()
            invariant
                self.wf(),
                i <= self.part_receivers@.len(),
                out@ == self.rendered_prefix(i as int),
            decreases self.part_receivers@.len() - i as int,
        {
            proof {
                assert(self.part_covered(i as int).wf());
            }
            let part = &self.part_receivers[i];
            let mut chunk = self.foreach_cell_in_view(part);
            out.append(&mut chunk);
            proof {
                assert(out@ == self.rendered_prefix(i as int + 1));
            }
            i = i + 1;
        }
        out
    }

    /// Lists what one part contributes to a read of the window.
    fn foreach_cell_in_view(&self, part: &ViewReceiver) -> (r: Vec<(Option<Cell>, u32, u32)>)
        requires
            self.spec_view().wf(),
            part.covered.wf(),
        ensures
            r@ == part_cells(self.spec_view(), part.covered, part.last_known),
    {
        let view = &self.view;
        let cov = part.covered;
        let view_end_x = view.get_end_x();
        let view_end_y = view.get_end_y();
        let si: u32 = if view.start_x >= cov.start_x {
            view.start_x - cov.start_x
        } else {
            0
        };
        let ei: u32 = if (cov.start_x as u64 + cov.width as u64) < (view_end_x as u64) {
            cov.width
        } else if cov.start_x > view_end_x {
            cov.width
        } else {
            view_end_x - cov.start_x
        };
        let sj: u32 = if view.start_y >= cov.start_y {
            view.start_y - cov.start_y
        } else {
            0
        };
        let ej: u32 = if (cov.start_y as u64 + cov.height as u64) < (view_end_y as u64) {
            cov.height
        } else if cov.start_y > view_end_y {
            cov.height
        } else {
            view_end_y - cov.start_y
        };
        let ghost spi = span_of(si as int, ei as int);
        let ghost spj = span_of(sj as int, ej as int);
        let mut out: Vec<(Option<Cell>, u32, u32)> = Vec::new();
        let mut i: u32 = si;
        while i < ei
            invariant
                *view == self.spec_view(),
                part.covered == cov,
                cov.wf(),
                si as int == clip_start(cov.start_x as int, view.start_x as int),
                ei as int == clip_end(
                    cov.start_x as int,
                    cov.width as int,
                    view.start_x as int + view.width as int,
                ),
                sj as int == clip_start(cov.start_y as int, view.start_y as int),
                ej as int == clip_end(
                    cov.start_y as int,
                    cov.height as int,
                    view.start_y as int + view.height as int,
                ),
                ei <= cov.width,
                ej <= cov.height,
                spi == span_of(si as int, ei as int),
                spj == span_of(sj as int, ej as int),
                si <= i <= ei || (i == si && ei <= si),
                out@.len() == (i as int - si as int) * spj,
                forall|k: int|
                    0 <= k < out@.len() ==> #[trigger] out@[k] == part_cells(
                        *view,
                        cov,
                        part.last_known,
                    )[k],
            decreases ei as int - i as int,
        {
            let mut j: u32 = sj;
            while j < ej
                invariant
                    *view == self.spec_view(),
                    part.covered == cov,
                    cov.wf(),
                    si as int == clip_start(cov.start_x as int, view.start_x as int),
                    ei as int == clip_end(
                        cov.start_x as int,
                        cov.width as int,
                        view.start_x as int + view.width as int,
                    ),
                    sj as int == clip_start(cov.start_y as int, view.start_y as int),
                    ej as int == clip_end(
                        cov.start_y as int,
                        cov.height as int,
                        view.start_y as int + view.height as int,
                    ),
                    ei <= cov.width,
                    ej <= cov.height,
                    spi == span_of(si as int, ei as int),
                    spj == span_of(sj as int, ej as int),
                    si <= i < ei,
                    sj <= j,
                    j <= ej || (j == sj && ej <= sj),
                    out@.len() == (i as int - si as int) * spj + (j as int - sj as int),
                    forall|k: int|
                        0 <= k < out@.len() ==> #[trigger] out@[k] == part_cells(
                            *view,
                            cov,
                            part.last_known,
                        )[k],
                decreases ej as int - j as int,
            {
                let cell: Option<Cell> = match &part.last_known {
                    None => None,
                    Some(cells) => {
                        if (i as usize) < cells.len() {
                            let col = &cells[i as usize];
                            if (j as usize) < col.len() {
                                Some(col[j as usize])
                            } else {
                                None
                            }
                        } else {
                            None
                        }
                    },
                };
                let ghost k0 = out@.len() as int;
                out.push((cell, i + cov.start_x, j + cov.start_y));
                proof {
                    vstd::arithmetic::div_mod::lemma_fundamental_div_mod_converse(
                        k0,
                        spj,
                        i as int - si as int,
                        j as int - sj as int,
                    );
                    assert(k0 < spi * spj) by (nonlinear_arith)
                        requires
                            k0 == (i as int - si as int) * spj + (j as int - sj as int),
                            (i as int - si as int) < spi,
                            (j as int - sj as int) < spj,
                            0 <= i as int - si as int,
                            0 <= j as int - sj as int,
                    ;
                    assert(out@[k0] == part_cells(self.spec_view(), cov, part.last_known)[k0]);
                }
                j = j + 1;
            }
            proof {
                assert((i as int - si as int + 1) * spj == (i as int - si as int) * spj + spj)
                    by (nonlinear_arith);
            }
            i = i + 1;
        }
        proof {
            if ei <= si || ej <= sj {
                assert(spi * spj == 0) by (nonlinear_arith)
                    requires
                        spi == 0 || spj == 0,
                ;
            }
            assert(out@.len() == spi * spj) by (nonlinear_arith)
                requires
                    out@.len() == (if si as int <= ei as int {
                        (ei as int - si as int) * spj
                    } else {
                        0
                    }),
                    spi == span_of(si as int, ei as int),
                    spj >= 0,
            ;
            assert(out@ =~= part_cells(self.spec_view(), cov, part.last_known));
        }
        out
    }
}

} // verus!
