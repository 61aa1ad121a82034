use vstd::prelude::*;

use crate::component::{ComponentId, EntityId, UNATTACHED};
use crate::geometry::{cos_below, cos_below_exec, displacement, dot, is_zero, norm2, Delta, Pixel};
use crate::plot_ring::{
    cleared_model, committed_model, plotted_at, PlotRing, PlottedPoint, RingModel,
};

verus! {

/// Number of pointer samples kept: enough for two consecutive velocities.
pub const HISTORY_LEN: usize = 3;

/// A stroke turns a corner when the cosine between the two latest velocities
/// falls below `TURN_NUM / TURN_DEN`.
pub const TURN_NUM: i128 = 4;
pub const TURN_DEN: i128 = 5;

/// A stroke drifts when the cosine between its anchored direction and the
/// latest velocity falls below `DRIFT_NUM / DRIFT_DEN`.
pub const DRIFT_NUM: i128 = 3;
pub const DRIFT_DEN: i128 = 5;

/// The tracker's state, as mathematics: the recent pointer samples (oldest
/// first), the plotted-point ring, whether a press is under way, and the
/// direction that the current stroke segment is anchored to.
pub struct StrokeModel {
    pub history: Seq<Pixel>,
    pub ring: RingModel,
    pub pressing: bool,
    pub anchor: (int, int),
}

/// Whether a held, moving pointer commits a point: at the start of a press,
/// at a corner, or when the stroke has drifted from its anchored direction.
///
/// Both velocities are displacements over the same frame time, so their
/// directions are those of the displacements `v1` and `v2`.
pub open spec fn should_commit(pressing: bool, v1: (int, int), v2: (int, int), anchor: (
    int,
    int,
)) -> bool {
    !pressing || cos_below(v1, v2, TURN_NUM as int, TURN_DEN as int) || cos_below(
        anchor,
        v2,
        DRIFT_NUM as int,
        DRIFT_DEN as int,
    )
}

/// The samples after `pos` was taken: the oldest one is dropped.
pub open spec fn pushed_history(h: Seq<Pixel>, pos: Pixel) -> Seq<Pixel> {
    h.drop_first().push(pos)
}

/// The state after one frame whose pointer stands at `pos`, whose primary
/// button is down or not, which lasted `elapsed_ms`, and in which the clear
/// key was pressed or not.
pub open spec fn stroke_step(
    m: StrokeModel,
    pos: Pixel,
    left_down: bool,
    elapsed_ms: u64,
    clear: bool,
) -> StrokeModel {
    let h = pushed_history(m.history, pos);
    let v1 = displacement(h[0], h[1]);
    let v2 = displacement(h[1], h[2]);
    let moved = if elapsed_ms == 0 {
        StrokeModel { history: h, ring: m.ring, pressing: m.pressing, anchor: m.anchor }
    } else if left_down && !is_zero(v2) {
        if should_commit(m.pressing, v1, v2, m.anchor) {
            StrokeModel {
                history: h,
                ring: committed_model(m.ring, plotted_at(pos)),
                pressing: true,
                anchor: v2,
            }
        } else {
            StrokeModel { history: h, ring: m.ring, pressing: true, anchor: m.anchor }
        }
    } else if !left_down {
        StrokeModel {
            history: h,
            ring: if m.pressing {
                committed_model(m.ring, plotted_at(pos))
            } else {
                m.ring
            },
            pressing: false,
            anchor: m.anchor,
        }
    } else {
        StrokeModel { history: h, ring: m.ring, pressing: m.pressing, anchor: m.anchor }
    };
    if clear {
        StrokeModel {
            history: moved.history,
            ring: cleared_model(),
            pressing: moved.pressing,
            anchor: moved.anchor,
        }
    } else {
        moved
    }
}

/// Smooths the pointer's path into a few plotted points per stroke.
pub struct CanvasComponent {
    parent: EntityId,
    id: ComponentId,
    history: Vec<Pixel>,
    ring: PlotRing,
    pressing: bool,
    anchor: Delta,
}

impl View for CanvasComponent {
    type V = StrokeModel;

    closed spec fn view(&self) -> StrokeModel {
        StrokeModel {
            history: self.history@,
            ring: self.ring@,
            pressing: self.pressing,
            anchor: self.anchor@,
        }
    }
}

impl CanvasComponent {
    pub closed spec fn wf(&self) -> bool {
        &&& self.history.len() == HISTORY_LEN
        &&& forall|i: int| 0 <= i < HISTORY_LEN ==> #[trigger] self.history@[i].in_range()
        &&& self.ring.wf()
        &&& self.anchor.bounded()
    }

    pub closed spec fn parent_spec(&self) -> EntityId {
        self.parent
    }

    pub closed spec fn id_spec(&self) -> ComponentId {
        self.id
    }

    /// Feeds one frame: records the pointer sample, commits points as the
    /// stroke starts, turns, drifts or ends, and clears the ring on request.
    /// A frame that took no time changes nothing but the samples (and the
    /// ring, if cleared): no velocity can be formed from it.
    pub fn update(&mut self, pos: Pixel, left_down: bool, elapsed_ms: u64, clear: bool)
        requires
            old(self).wf(),
            pos.in_range(),
        ensures
            final(self).wf(),
            final(self)@ == stroke_step(old(self)@, pos, left_down, elapsed_ms, clear),
            final(self).parent_spec() == old(self).parent_spec(),
            final(self).id_spec() == old(self).id_spec(),
    {
        let h0 = self.history[1];
        let h1 = self.history[2];
        let ghost before = self@;
        self.history = vec![h0, h1, pos];
        assert(self.history@ =~= pushed_history(before.history, pos));
        let v1 = Delta::between(h0, h1);
        let v2 = Delta::between(h1, pos);
        if elapsed_ms != 0 {
            if left_down && !v2.is_zero() {
                if !self.pressing || cos_below_exec(v1, v2, TURN_NUM, TURN_DEN) || cos_below_exec(
                    self.anchor,
                    v2,
                    DRIFT_NUM,
                    DRIFT_DEN,
                ) {
                    self.ring.commit(PlottedPoint::plotted_at(pos));
                    self.anchor = v2;
                }
                self.pressing = true;
            } else if !left_down {
                if self.pressing {
                    self.ring.commit(PlottedPoint::plotted_at(pos));
                }
                self.pressing = false;
            }
        }
        if clear {
            self.ring.clear();
        }
    }

    /// Every slot of the plotted-point ring, in slot order.
    pub fn plotted_points(&self) -> (r: &[PlottedPoint])
        requires
            self.wf(),
        ensures
            r@ == self@.ring.0,
    {
        self.ring.slots()
    }

    /// The slot that the next commit writes.
    pub fn write_index(&self) -> (r: usize)
        requires
            self.wf(),
        ensures
            r == self@.ring.1,
    {
        self.ring.index()
    }

    /// Whether a press is under way.
    pub fn is_pressing(&self) -> (r: bool)
        ensures
            r == self@.pressing,
    {
        self.pressing
    }

    /// The recent pointer samples, oldest first.
    pub fn history(&self) -> (r: &[Pixel])
        ensures
            r@ == self@.history,
    {
        self.history.as_slice()
    }

    pub fn get_parent_entity(&self) -> (r: EntityId)
        ensures
            r == self.parent_spec(),
    {
        self.parent
    }

    pub fn get_id(&self) -> (r: ComponentId)
        ensures
            r == self.id_spec(),
    {
        self.id
    }

    /// Records that `parent` owns this component, after `same_component_count`
    /// components of its kind.
    pub fn update_metadata(&mut self, parent: EntityId, same_component_count: u32)
        requires
            old(self).wf(),
        ensures
            final(self).wf(),
            final(self)@ == old(self)@,
            final(self).parent_spec() == parent,
            final(self).id_spec() == ComponentId::attached_spec(parent, same_component_count),
    {
        self.parent = parent;
        self.id = ComponentId { entity: parent, ordinal: same_component_count };
    }
}

/// The state of a tracker that has seen no frame: the samples at the origin,
/// every slot unused, no press, no anchored direction.
pub open spec fn initial_stroke_model() -> StrokeModel {
    StrokeModel {
        history: Seq::new(HISTORY_LEN as nat, |i: int| Pixel { x: 0, y: 0 }),
        ring: cleared_model(),
        pressing: false,
        anchor: (0, 0),
    }
}

impl Default for CanvasComponent {
    fn default() -> (r: CanvasComponent)
        ensures
            r.wf(),
            r@ == initial_stroke_model(),
            r.parent_spec() == UNATTACHED,
            r.id_spec() == ComponentId::unattached_spec(),
    {
        let origin = Pixel { x: 0, y: 0 };
        let r = CanvasComponent {
            parent: UNATTACHED,
            id: ComponentId::unattached(),
            history: vec![origin, origin, origin],
            ring: PlotRing::new(),
            pressing: false,
            anchor: Delta::zero(),
        };
        assert(r.history@ =~= initial_stroke_model().history);
        r
    }
}

/// The same direction scaled by a positive factor.
pub open spec fn scaled(d: (int, int), k: int) -> (int, int) {
    (k * d.0, k * d.1)
}

proof fn lemma_mul_regroup(a: int, b: int, x: int)
    ensures
        (a * x) * (b * x) == (a * b) * (x * x),
{
    assert((a * x) * (b * x) == (a * b) * (x * x)) by (nonlinear_arith);
}

proof fn lemma_scaled_products(d: (int, int), a: int, b: int)
    ensures
        dot(scaled(d, a), scaled(d, b)) == (a * b) * norm2(d),
        norm2(scaled(d, a)) == (a * a) * norm2(d),
{
    let (x, y) = d;
    lemma_mul_regroup(a, b, x);
    lemma_mul_regroup(a, b, y);
    lemma_mul_regroup(a, a, x);
    lemma_mul_regroup(a, a, y);
    assert((a * b) * (x * x) + (a * b) * (y * y) == (a * b) * (x * x + y * y))
        by (nonlinear_arith);
    assert((a * a) * (x * x) + (a * a) * (y * y) == (a * a) * (x * x + y * y))
        by (nonlinear_arith);
}

proof fn lemma_parallel_not_below(d: (int, int), a: int, b: int, num: int, den: int)
    requires
        a > 0,
        b > 0,
        0 <= num <= den,
    ensures
        !cos_below(scaled(d, a), scaled(d, b), num, den),
{
    lemma_scaled_products(d, a, b);
    lemma_scaled_products(d, b, a);
    let n = norm2(d);
    assert(n >= 0) by (nonlinear_arith)
        requires
            n == d.0 * d.0 + d.1 * d.1,
    ;
    let x = (a * b) * n;
    assert(x >= 0) by (nonlinear_arith)
        requires
            a > 0,
            b > 0,
            n >= 0,
            x == (a * b) * n,
    ;
    assert(x * x * (den * den) >= (num * num) * (((a * a) * n) * ((b * b) * n))) by (
    nonlinear_arith)
        requires
            x == (a * b) * n,
            0 <= num <= den,
            n >= 0,
    ;
}

/// During a press, a frame whose two latest displacements and anchored
/// direction all point the same way (positive multiples of one direction)
/// commits no point: a straight drag is not cut into segments.
pub proof fn lemma_straight_drag_commits_nothing(d: (int, int), a: int, b: int, c: int)
    requires
        a > 0,
        b > 0,
        c > 0,
    ensures
        !should_commit(true, scaled(d, a), scaled(d, b), scaled(d, c)),
{
    lemma_parallel_not_below(d, a, b, TURN_NUM as int, TURN_DEN as int);
    lemma_parallel_not_below(d, c, b, DRIFT_NUM as int, DRIFT_DEN as int);
}

/// During a press, a moving frame whose direction is at a right angle to the
/// previous one commits the pointer position.
pub proof fn lemma_right_angle_turn_commits(
    m: StrokeModel,
    pos: Pixel,
    elapsed_ms: u64,
)
    requires
        m.pressing,
        m.history.len() == HISTORY_LEN,
        elapsed_ms > 0,
        !is_zero(displacement(pushed_history(m.history, pos)[0], pushed_history(m.history, pos)[1])),
        !is_zero(displacement(pushed_history(m.history, pos)[1], pos)),
        dot(
            displacement(pushed_history(m.history, pos)[0], pushed_history(m.history, pos)[1]),
            displacement(pushed_history(m.history, pos)[1], pos),
        ) == 0,
    ensures
        stroke_step(m, pos, true, elapsed_ms, false).ring == committed_model(m.ring, plotted_at(pos)),
        stroke_step(m, pos, true, elapsed_ms, false).pressing,
{
    let h = pushed_history(m.history, pos);
    let v1 = displacement(h[0], h[1]);
    let v2 = displacement(h[1], h[2]);
    assert(h[2] == pos);
    assert(norm2(v1) > 0 && norm2(v2) > 0) by (nonlinear_arith)
        requires
            !is_zero(v1),
            !is_zero(v2),
            norm2(v1) == v1.0 * v1.0 + v1.1 * v1.1,
            norm2(v2) == v2.0 * v2.0 + v2.1 * v2.1,
    ;
    assert(0int * 0 * (TURN_DEN * TURN_DEN) < (TURN_NUM * TURN_NUM) * (norm2(v1) * norm2(v2)))
        by (nonlinear_arith)
        requires
            norm2(v1) > 0,
            norm2(v2) > 0,
    ;
    assert(cos_below(v1, v2, TURN_NUM as int, TURN_DEN as int));
}

/// A frame that took no time, without the clear key, only records the
/// sample: the press state, the anchored direction and the ring stay.
pub proof fn lemma_timeless_frame_only_records(m: StrokeModel, pos: Pixel, left_down: bool)
    ensures
        stroke_step(m, pos, left_down, 0, false).history == pushed_history(m.history, pos),
        stroke_step(m, pos, left_down, 0, false).pressing == m.pressing,
        stroke_step(m, pos, left_down, 0, false).anchor == m.anchor,
        stroke_step(m, pos, left_down, 0, false).ring == m.ring,
{
}

/// Where frame `k` of a drag from `start` along the step `d` puts the pointer.
pub open spec fn drag_pos(start: Pixel, d: (int, int), k: int) -> Pixel {
    Pixel { x: (start.x + k * d.0) as i32, y: (start.y + k * d.1) as i32 }
}

/// Frame `k` of the drag lies inside `i32`, so `drag_pos` is exact there.
pub open spec fn drag_pos_exact(start: Pixel, d: (int, int), k: int) -> bool {
    i32::MIN <= start.x + k * d.0 <= i32::MAX && i32::MIN <= start.y + k * d.1 <= i32::MAX
}

/// The state after `n` frames of a held drag from `start` along `d`, each
/// lasting `elapsed_ms`.
pub open spec fn held_drag(
    m: StrokeModel,
    start: Pixel,
    d: (int, int),
    elapsed_ms: u64,
    n: nat,
) -> StrokeModel
    decreases n,
{
    if n == 0 {
        m
    } else {
        stroke_step(
            held_drag(m, start, d, elapsed_ms, (n - 1) as nat),
            drag_pos(start, d, n as int),
            true,
            elapsed_ms,
            false,
        )
    }
}

proof fn lemma_held_drag_state(
    m: StrokeModel,
    start: Pixel,
    d: (int, int),
    elapsed_ms: u64,
    n: nat,
)
    requires
        m.history.len() == HISTORY_LEN,
        m.history[2] == start,
        !m.pressing,
        !is_zero(d),
        elapsed_ms > 0,
        n >= 1,
        forall|k: int| 0 <= k <= n ==> #[trigger] drag_pos_exact(start, d, k),
    ensures
        held_drag(m, start, d, elapsed_ms, n).history.len() == HISTORY_LEN,
        held_drag(m, start, d, elapsed_ms, n).history[1] == drag_pos(start, d, n - 1),
        held_drag(m, start, d, elapsed_ms, n).history[2] == drag_pos(start, d, n as int),
        held_drag(m, start, d, elapsed_ms, n).pressing,
        held_drag(m, start, d, elapsed_ms, n).anchor == d,
        held_drag(m, start, d, elapsed_ms, n).ring == committed_model(
            m.ring,
            plotted_at(drag_pos(start, d, 1)),
        ),
    decreases n,
{
    let p = drag_pos(start, d, n as int);
    assert(drag_pos_exact(start, d, n as int));
    assert(drag_pos_exact(start, d, n - 1));
    let q = drag_pos(start, d, n - 1);
    assert(start.x + n * d.0 - (start.x + (n - 1) * d.0) == d.0) by (nonlinear_arith);
    assert(start.y + n * d.1 - (start.y + (n - 1) * d.1) == d.1) by (nonlinear_arith);
    assert(p.x == start.x + n * d.0);
    assert(p.y == start.y + n * d.1);
    assert(q.x == start.x + (n - 1) * d.0);
    assert(q.y == start.y + (n - 1) * d.1);
    assert(displacement(q, p) == d);
    if n == 1 {
        assert((n - 1) * d.0 == 0 && (n - 1) * d.1 == 0) by (nonlinear_arith)
            requires
                n == 1,
        ;
        assert(q == start);
        assert(held_drag(m, start, d, elapsed_ms, 0) == m);
        let h = pushed_history(m.history, p);
        assert(h[1] == q && h[2] == p);
    } else {
        lemma_held_drag_state(m, start, d, elapsed_ms, (n - 1) as nat);
        let prev = held_drag(m, start, d, elapsed_ms, (n - 1) as nat);
        assert(drag_pos_exact(start, d, n - 2));
        let o = drag_pos(start, d, n - 2);
        assert(start.x + (n - 1) * d.0 - (start.x + (n - 2) * d.0) == d.0) by (nonlinear_arith);
        assert(start.y + (n - 1) * d.1 - (start.y + (n - 2) * d.1) == d.1) by (nonlinear_arith);
        assert(displacement(o, q) == d);
        let h = pushed_history(prev.history, p);
        assert(h[0] == o);
        assert(h[1] == q);
        assert(scaled(d, 1) == d);
        lemma_straight_drag_commits_nothing(d, 1, 1, 1);
    }
}

/// From rest at `start`, a drag held for `n` frames along a fixed step `d`
/// and then released where it ended commits exactly two points: the first
/// position of the drag and the release position.
pub proof fn lemma_straight_drag_commits_ends(
    m: StrokeModel,
    start: Pixel,
    d: (int, int),
    elapsed_ms: u64,
    n: nat,
)
    requires
        m.history.len() == HISTORY_LEN,
        m.history[2] == start,
        !m.pressing,
        !is_zero(d),
        elapsed_ms > 0,
        n >= 1,
        forall|k: int| 0 <= k <= n ==> #[trigger] drag_pos_exact(start, d, k),
    ensures
        ({
            let released = stroke_step(
                held_drag(m, start, d, elapsed_ms, n),
                drag_pos(start, d, n as int),
                false,
                elapsed_ms,
                false,
            );
            &&& !released.pressing
            &&& released.ring == committed_model(
                committed_model(m.ring, plotted_at(drag_pos(start, d, 1))),
                plotted_at(drag_pos(start, d, n as int)),
            )
        }),
{
    lemma_held_drag_state(m, start, d, elapsed_ms, n);
}

} // verus!
