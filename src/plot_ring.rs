use vstd::prelude::*;

use crate::geometry::{Pixel, CANVAS_SIZE};

verus! {

/// Number of slots of the plotted-point ring.
pub const PLOT_CAPACITY: usize = 256;

/// One slot of the plotted-point ring: a position in canvas pixels and an
/// intensity (1 for a committed point, 0 for an empty slot).
#[derive(Clone, Copy, Debug, PartialEq, Eq, Structural)]
pub struct PlottedPoint {
    pub x: i32,
    pub y: i32,
    pub intensity: u8,
}

/// What an unused slot holds: the normalised position (-1, -1), intensity 0.
pub open spec fn unplotted() -> PlottedPoint {
    PlottedPoint { x: (-CANVAS_SIZE) as i32, y: (-CANVAS_SIZE) as i32, intensity: 0 }
}

/// What committing the pointer position `p` writes into a slot.
pub open spec fn plotted_at(p: Pixel) -> PlottedPoint {
    PlottedPoint { x: p.x, y: p.y, intensity: 1 }
}

impl PlottedPoint {
    pub fn unplotted() -> (r: PlottedPoint)
        ensures
            r == unplotted(),
    {
        PlottedPoint { x: -CANVAS_SIZE, y: -CANVAS_SIZE, intensity: 0 }
    }

    pub fn plotted_at(p: Pixel) -> (r: PlottedPoint)
        ensures
            r == plotted_at(p),
    {
        PlottedPoint { x: p.x, y: p.y, intensity: 1 }
    }
}

/// A fixed number of slots written in turn: a commit overwrites the slot
/// under the write cursor and moves the cursor on, wrapping to slot 0.
pub struct PlotRing {
    slots: Vec<PlottedPoint>,
    index: usize,
}

/// The ring as its slots and its write cursor.
pub type RingModel = (Seq<PlottedPoint>, nat);

/// The model of a ring whose slots are all unused and whose cursor is 0.
pub open spec fn cleared_model() -> RingModel {
    (Seq::new(PLOT_CAPACITY as nat, |i: int| unplotted()), 0)
}

/// The model after one commit of `q`.
pub open spec fn committed_model(m: RingModel, q: PlottedPoint) -> RingModel {
    (m.0.update(m.1 as int, q), ((m.1 as int + 1) % (PLOT_CAPACITY as int)) as nat)
}

/// The model after committing each of `qs` in order.
pub open spec fn committed_all(m: RingModel, qs: Seq<PlottedPoint>) -> RingModel
    decreases qs.len(),
{
    if qs.len() == 0 {
        m
    } else {
        committed_model(committed_all(m, qs.drop_last()), qs.last())
    }
}

pub open spec fn model_wf(m: RingModel) -> bool {
    m.0.len() == PLOT_CAPACITY && m.1 < PLOT_CAPACITY
}

impl View for PlotRing {
    type V = RingModel;

    closed spec fn view(&self) -> RingModel {
        (self.slots@, self.index as nat)
    }
}

impl PlotRing {
    pub open spec fn wf(&self) -> bool {
        model_wf(self@)
    }

    /// A ring with every slot unused.
    pub fn new() -> (r: PlotRing)
        ensures
            r.wf(),
            r@ == cleared_model(),
    {
        let mut slots: Vec<PlottedPoint> = Vec::new();
        while slots.len() < PLOT_CAPACITY
            invariant
                slots.len() <= PLOT_CAPACITY,
                forall|j: int| 0 <= j < slots.len() ==> slots@[j] == unplotted(),
            decreases PLOT_CAPACITY - slots.len(),
        {
            slots.push(PlottedPoint::unplotted());
        }
        let r = PlotRing { slots, index: 0 };
        assert(r@.0 =~= cleared_model().0);
        r
    }

    /// The slot that the next commit writes.
    pub fn index(&self) -> (r: usize)
        ensures
            r == self@.1,
    {
        self.index
    }

    /// All slots, in slot order.
    pub fn slots(&self) -> (r: &[PlottedPoint])
        ensures
            r@ == self@.0,
    {
        self.slots.as_slice()
    }

    /// Writes `q` under the cursor and advances the cursor, wrapping.
    pub fn commit(&mut self, q: PlottedPoint)
        requires
            old(self).wf(),
        ensures
            final(self).wf(),
            final(self)@ == committed_model(old(self)@, q),
    {
        let i = self.index;
        self.slots.set(i, q);
        if i + 1 == PLOT_CAPACITY {
            self.index = 0;
        } else {
            self.index = i + 1;
        }
    }

    /// Marks every slot unused and moves the cursor back to slot 0.
    pub fn clear(&mut self)
        requires
            old(self).wf(),
        ensures
            final(self).wf(),
            final(self)@ == cleared_model(),
    {
        let mut j: usize = 0;
        while j < PLOT_CAPACITY
            invariant
                self.slots.len() == PLOT_CAPACITY,
                j <= PLOT_CAPACITY,
                forall|k: int| 0 <= k < j ==> self.slots@[k] == unplotted(),
            decreases PLOT_CAPACITY - j,
        {
            self.slots.set(j, PlottedPoint::unplotted());
            j = j + 1;
        }
        self.index = 0;
        assert(self@.0 =~= cleared_model().0);
    }
}

/// Committing `qs` one after another leaves the cursor `qs.len()` slots further
/// on, modulo the capacity, and each commit writes the slot that follows the
/// one before: no slot is skipped or written twice in one turn of the ring.
pub proof fn lemma_commits_advance_cursor(m: RingModel, qs: Seq<PlottedPoint>)
    requires
        model_wf(m),
    ensures
        model_wf(committed_all(m, qs)),
        committed_all(m, qs).1 == (m.1 as int + qs.len() as int) % (PLOT_CAPACITY as int),
        forall|k: int|
            0 <= k < qs.len() ==> #[trigger] committed_all(m, qs.take(k)).1 == (m.1 as int + k) % (
            PLOT_CAPACITY as int),
    decreases qs.len(),
{
    if qs.len() > 0 {
        lemma_commits_advance_cursor(m, qs.drop_last());
        let c = committed_all(m, qs.drop_last()).1;
        assert((c as int + 1) % (PLOT_CAPACITY as int) == (m.1 as int + qs.len() as int) % (PLOT_CAPACITY as int))
            by (nonlinear_arith)
            requires
                c == (m.1 as int + qs.len() as int - 1) % (PLOT_CAPACITY as int),
                qs.len() > 0,
        ;
        assert forall|k: int| 0 <= k < qs.len() implies #[trigger] committed_all(
            m,
            qs.take(k),
        ).1 == (m.1 as int + k) % (PLOT_CAPACITY as int) by {
            if k < qs.len() - 1 {
                assert(qs.take(k) =~= qs.drop_last().take(k));
            } else {
                assert(qs.take(k) =~= qs.drop_last());
            }
        }
    }
}

/// From an empty ring, after `qs.len()` commits the cursor stands at
/// `qs.len()` modulo the capacity.
pub proof fn lemma_cursor_counts_commits(qs: Seq<PlottedPoint>)
    ensures
        committed_all(cleared_model(), qs).1 == qs.len() as int % (PLOT_CAPACITY as int),
{
    lemma_commits_advance_cursor(cleared_model(), qs);
}

/// After a clear, the next commit lands in slot 0 and every other slot is unused.
pub proof fn lemma_commit_after_clear(q: PlottedPoint)
    ensures
        committed_model(cleared_model(), q).0[0] == q,
        committed_model(cleared_model(), q).1 == 1,
        forall|k: int|
            1 <= k < PLOT_CAPACITY ==> #[trigger] committed_model(cleared_model(), q).0[k]
                == unplotted(),
        committed_model(cleared_model(), q).0.len() == PLOT_CAPACITY,
{
}

} // verus!
