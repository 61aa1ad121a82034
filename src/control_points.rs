use vstd::prelude::*;

use crate::component::{ComponentId, EntityId, UNATTACHED};
use crate::geometry::{Pixel, CANVAS_SIZE};

verus! {

/// Number of control points of the curve.
pub const POINT_COUNT: usize = 4;

/// A press picks a control point only closer than this, in pixels
/// (0.022 of the canvas side).
pub const PICK_RADIUS: i64 = 22;

/// Largest magnitude of a control-point coordinate.
pub const POINT_LIMIT: i64 = 4611686018427387904;

/// A control point, in canvas pixels.
#[derive(Clone, Copy, Debug, PartialEq, Eq, Structural)]
pub struct CurvePoint {
    pub x: i64,
    pub y: i64,
}

impl CurvePoint {
    pub open spec fn in_range(self) -> bool {
        -POINT_LIMIT <= self.x <= POINT_LIMIT && -POINT_LIMIT <= self.y <= POINT_LIMIT
    }
}

/// Squared distance from a control point to the pointer.
pub open spec fn dist2(p: CurvePoint, pos: Pixel) -> int {
    (p.x - pos.x) * (p.x - pos.x) + (p.y - pos.y) * (p.y - pos.y)
}

/// The pointer lies on the canvas: `[0, CANVAS_SIZE)` on both axes.
pub open spec fn in_canvas(pos: Pixel) -> bool {
    0 <= pos.x < CANVAS_SIZE && 0 <= pos.y < CANVAS_SIZE
}

/// Point `i` is the one a press at `pos` picks: it is within the pick
/// radius, no point is nearer, and every earlier point is farther (the first
/// of equally near points wins).
pub open spec fn is_pick(pts: Seq<CurvePoint>, pos: Pixel, i: int) -> bool {
    &&& 0 <= i < pts.len()
    &&& dist2(pts[i], pos) < PICK_RADIUS * PICK_RADIUS
    &&& forall|j: int| 0 <= j < i ==> dist2(pts[j], pos) > dist2(pts[i], pos)
    &&& forall|j: int| 0 <= j < pts.len() ==> dist2(pts[j], pos) >= dist2(pts[i], pos)
}

/// The point that a press at `pos` picks, if any.
pub open spec fn nearest_pick(pts: Seq<CurvePoint>, pos: Pixel) -> Option<usize> {
    if exists|i: usize| is_pick(pts, pos, i as int) {
        Some(choose|i: usize| is_pick(pts, pos, i as int))
    } else {
        None
    }
}

/// At most one point is picked.
pub proof fn lemma_pick_unique(pts: Seq<CurvePoint>, pos: Pixel, i: int, k: int)
    requires
        is_pick(pts, pos, i),
        is_pick(pts, pos, k),
    ensures
        i == k,
{
    if i < k {
        assert(dist2(pts[i], pos) > dist2(pts[k], pos));
    } else if k < i {
        assert(dist2(pts[k], pos) > dist2(pts[i], pos));
    }
}

proof fn lemma_nearest_pick_is(pts: Seq<CurvePoint>, pos: Pixel, i: usize)
    requires
        is_pick(pts, pos, i as int),
    ensures
        nearest_pick(pts, pos) == Some(i),
{
    let c = choose|c: usize| is_pick(pts, pos, c as int);
    lemma_pick_unique(pts, pos, c as int, i as int);
}

/// `p` moved by the pointer's relative motion.
pub open spec fn dragged(p: CurvePoint, dx: i32, dy: i32) -> CurvePoint {
    CurvePoint { x: (p.x + dx) as i64, y: (p.y + dy) as i64 }
}

/// Every point moved by `(dx, dy)` would stay in range.
pub open spec fn drag_fits(pts: Seq<CurvePoint>, dx: i32, dy: i32) -> bool {
    forall|i: int|
        0 <= i < pts.len() ==> -POINT_LIMIT <= #[trigger] pts[i].x + dx <= POINT_LIMIT && -POINT_LIMIT
            <= pts[i].y + dy <= POINT_LIMIT
}

/// The editor's state, as mathematics: the control points and the point
/// being dragged, if any.
pub struct EditorModel {
    pub points: Seq<CurvePoint>,
    pub selected: Option<usize>,
}

/// The selection after a frame: a press on the canvas keeps the point being
/// dragged, or else picks one; anything else drops the selection.
pub open spec fn next_selection(m: EditorModel, pos: Pixel, left_down: bool) -> Option<usize> {
    if left_down && in_canvas(pos) {
        if m.selected is None {
            nearest_pick(m.points, pos)
        } else {
            m.selected
        }
    } else {
        None
    }
}

/// The state after one frame with the pointer at `pos`, moved by `(dx, dy)`
/// since the previous frame, the primary button down or not.
pub open spec fn editor_step(
    m: EditorModel,
    pos: Pixel,
    dx: i32,
    dy: i32,
    left_down: bool,
) -> EditorModel {
    let sel = next_selection(m, pos, left_down);
    EditorModel {
        points: match sel {
            Some(i) => m.points.update(i as int, dragged(m.points[i as int], dx, dy)),
            None => m.points,
        },
        selected: sel,
    }
}

/// A press on the canvas, with nothing selected, exactly on control point `i`
/// (and on no earlier point) selects `i`.
pub proof fn lemma_press_on_point_selects_it(m: EditorModel, pos: Pixel, i: usize)
    requires
        editor_model_wf(m),
        m.selected is None,
        in_canvas(pos),
        i < POINT_COUNT,
        m.points[i as int].x == pos.x,
        m.points[i as int].y == pos.y,
        forall|j: int| 0 <= j < i ==> m.points[j].x != pos.x || m.points[j].y != pos.y,
    ensures
        editor_step(m, pos, 0, 0, true).selected == Some(i),
        next_selection(m, pos, true) == Some(i),
{
    assert forall|j: int| 0 <= j < m.points.len() implies dist2(m.points[j], pos) >= 0 by {
        let ex = m.points[j].x - pos.x;
        let ey = m.points[j].y - pos.y;
        assert(ex * ex + ey * ey >= 0) by (nonlinear_arith);
    }
    assert forall|j: int| 0 <= j < i implies dist2(m.points[j], pos) > 0 by {
        let ex = m.points[j].x - pos.x;
        let ey = m.points[j].y - pos.y;
        assert(ex != 0 || ey != 0);
        assert(ex * ex + ey * ey > 0) by (nonlinear_arith)
            requires
                ex != 0 || ey != 0,
        ;
    }
    assert(dist2(m.points[i as int], pos) == 0);
    lemma_nearest_pick_is(m.points, pos, i);
}

/// While point `i` stays selected through two presses on the canvas, it ends
/// moved by the sum of the two relative motions, whatever the absolute
/// positions were, and the other points stay where they were.
pub proof fn lemma_drag_adds_motions(
    m: EditorModel,
    i: usize,
    pos1: Pixel,
    dx1: i32,
    dy1: i32,
    pos2: Pixel,
    dx2: i32,
    dy2: i32,
)
    requires
        editor_model_wf(m),
        m.selected == Some(i),
        in_canvas(pos1),
        in_canvas(pos2),
        drag_fits(m.points, dx1, dy1),
        drag_fits(editor_step(m, pos1, dx1, dy1, true).points, dx2, dy2),
    ensures
        ({
            let m2 = editor_step(editor_step(m, pos1, dx1, dy1, true), pos2, dx2, dy2, true);
            &&& m2.selected == Some(i)
            &&& m2.points[i as int].x == m.points[i as int].x + dx1 + dx2
            &&& m2.points[i as int].y == m.points[i as int].y + dy1 + dy2
            &&& forall|j: int| 0 <= j < POINT_COUNT && j != i ==> m2.points[j] == m.points[j]
        }),
{
    let m1 = editor_step(m, pos1, dx1, dy1, true);
    assert(m1.points[i as int].x == m.points[i as int].x + dx1);
    assert(m1.points[i as int].y == m.points[i as int].y + dy1);
}

/// Lets the user drag the four control points of a cubic curve.
pub struct HermiteModifyComponent {
    parent: EntityId,
    id: ComponentId,
    points: Vec<CurvePoint>,
    selected_point: Option<usize>,
}

impl View for HermiteModifyComponent {
    type V = EditorModel;

    closed spec fn view(&self) -> EditorModel {
        EditorModel { points: self.points@, selected: self.selected_point }
    }
}

pub open spec fn editor_model_wf(m: EditorModel) -> bool {
    &&& m.points.len() == POINT_COUNT
    &&& forall|i: int| 0 <= i < POINT_COUNT ==> #[trigger] m.points[i].in_range()
    &&& match m.selected {
        Some(i) => i < POINT_COUNT,
        None => true,
    }
}

fn distance_squared(p: CurvePoint, pos: Pixel) -> (r: i128)
    requires
        p.in_range(),
    ensures
        r == dist2(p, pos),
{
    let ex: i128 = p.x as i128 - pos.x as i128;
    let ey: i128 = p.y as i128 - pos.y as i128;
    assert(0 <= ex * ex <= 21267647952365694599638683381298888704) by (nonlinear_arith)
        requires
            -4611686020574871552 <= ex <= 4611686020574871552,
    ;
    assert(0 <= ey * ey <= 21267647952365694599638683381298888704) by (nonlinear_arith)
        requires
            -4611686020574871552 <= ey <= 4611686020574871552,
    ;
    ex * ex + ey * ey
}

impl HermiteModifyComponent {
    pub open spec fn wf(&self) -> bool {
        editor_model_wf(self@)
    }

    pub closed spec fn parent_spec(&self) -> EntityId {
        self.parent
    }

    pub closed spec fn id_spec(&self) -> ComponentId {
        self.id
    }

    /// The control point that a press at `mouse_pos` picks, if any.
    pub fn closest_point(&self, mouse_pos: Pixel) -> (r: Option<usize>)
        requires
            self.wf(),
        ensures
            r == nearest_pick(self@.points, mouse_pos),
    {
        let ghost pts = self@.points;
        let mut min_distance: i128 = PICK_RADIUS as i128 * PICK_RADIUS as i128;
        let mut min_index: Option<usize> = None;
        let mut i: usize = 0;
        while i < POINT_COUNT
            invariant
                self.wf(),
                pts == self@.points,
                i <= POINT_COUNT,
                match min_index {
                    Some(k) => {
                        &&& k < i
                        &&& min_distance == dist2(pts[k as int], mouse_pos)
                        &&& min_distance < PICK_RADIUS * PICK_RADIUS
                        &&& forall|j: int| 0 <= j < k ==> dist2(pts[j], mouse_pos) > min_distance
                        &&& forall|j: int| 0 <= j < i ==> dist2(pts[j], mouse_pos) >= min_distance
                    },
                    None => {
                        &&& min_distance == PICK_RADIUS * PICK_RADIUS
                        &&& forall|j: int| 0 <= j < i ==> dist2(pts[j], mouse_pos) >= min_distance
                    },
                },
            decreases POINT_COUNT - i,
        {
            let distance = distance_squared(self.points[i], mouse_pos);
            if distance < min_distance {
                min_distance = distance;
                min_index = Some(i);
            }
            i = i + 1;
        }
        proof {
            match min_index {
                Some(k) => {
                    lemma_nearest_pick_is(pts, mouse_pos, k);
                },
                None => {
                    assert forall|c: usize| !is_pick(pts, mouse_pos, c as int) by {
                        if 0 <= c < pts.len() {
                            assert(dist2(pts[c as int], mouse_pos) >= min_distance);
                        }
                    }
                },
            }
        }
        min_index
    }

    /// Whether every control point moved by `(dx, dy)` stays in range, as
    /// [`Self::update`] asks.
    pub fn drag_fits(&self, dx: i32, dy: i32) -> (r: bool)
        requires
            self.wf(),
        ensures
            r == drag_fits(self@.points, dx, dy),
    {
        let mut i: usize = 0;
        while i < POINT_COUNT
            invariant
                self.wf(),
                i <= POINT_COUNT,
                forall|j: int|
                    0 <= j < i ==> -POINT_LIMIT <= #[trigger] self@.points[j].x + dx <= POINT_LIMIT
                        && -POINT_LIMIT <= self@.points[j].y + dy <= POINT_LIMIT,
            decreases POINT_COUNT - i,
        {
            let p = self.points[i];
            let x: i128 = p.x as i128 + dx as i128;
            let y: i128 = p.y as i128 + dy as i128;
            if x < -(POINT_LIMIT as i128) || x > POINT_LIMIT as i128 || y < -(POINT_LIMIT as i128)
                || y > POINT_LIMIT as i128 {
                return false;
            }
            i = i + 1;
        }
        true
    }

    /// Feeds one frame: picks or keeps or drops the selected point, then
    /// moves the selected point by the pointer's relative motion.
    pub fn update(&mut self, mouse_pos: Pixel, dx: i32, dy: i32, left_down: bool)
        requires
            old(self).wf(),
            drag_fits(old(self)@.points, dx, dy),
        ensures
            final(self).wf(),
            final(self)@ == editor_step(old(self)@, mouse_pos, dx, dy, left_down),
            final(self).parent_spec() == old(self).parent_spec(),
            final(self).id_spec() == old(self).id_spec(),
    {
        if left_down && 0 <= mouse_pos.x && mouse_pos.x < CANVAS_SIZE && 0 <= mouse_pos.y
            && mouse_pos.y < CANVAS_SIZE {
            if self.selected_point.is_none() {
                self.selected_point = self.closest_point(mouse_pos);
            }
        } else {
            self.selected_point = None;
        }
        if let Some(i) = self.selected_point {
            let p = self.points[i];
            assert(-POINT_LIMIT <= self.points@[i as int].x + dx <= POINT_LIMIT);
            let moved = CurvePoint { x: p.x + dx as i64, y: p.y + dy as i64 };
            self.points.set(i, moved);
        }
    }

    /// The control points, in order.
    pub fn control_points(&self) -> (r: &[CurvePoint])
        ensures
            r@ == self@.points,
    {
        self.points.as_slice()
    }

    /// The point being dragged, if any.
    pub fn selected_point(&self) -> (r: Option<usize>)
        ensures
            r == self@.selected,
    {
        self.selected_point
    }

    pub fn get_parent_entity(&self) -> (r: EntityId)
        ensures
            r == self.parent_spec(),
    {
        self.parent
    }

    pub fn get_id(&self) -> (r: ComponentId)
        ensures
            r == self.id_spec(),
    {
        self.id
    }

    /// Records that `parent` owns this component, after `same_component_count`
    /// components of its kind.
    pub fn update_metadata(&mut self, parent: EntityId, same_component_count: u32)
        requires
            old(self).wf(),
        ensures
            final(self).wf(),
            final(self)@ == old(self)@,
            final(self).parent_spec() == parent,
            final(self).id_spec() == ComponentId::attached_spec(parent, same_component_count),
    {
        self.parent = parent;
        self.id = ComponentId { entity: parent, ordinal: same_component_count };
    }
}

/// The starting layout: four points on the diagonal, a tenth of the canvas
/// apart, none selected.
pub open spec fn initial_editor_model() -> EditorModel {
    EditorModel {
        points: seq![
            CurvePoint { x: 0, y: 0 },
            CurvePoint { x: 100, y: 100 },
            CurvePoint { x: 200, y: 200 },
            CurvePoint { x: 300, y: 300 },
        ],
        selected: None,
    }
}

impl Default for HermiteModifyComponent {
    fn default() -> (r: HermiteModifyComponent)
        ensures
            r.wf(),
            r@ == initial_editor_model(),
            r.parent_spec() == UNATTACHED,
            r.id_spec() == ComponentId::unattached_spec(),
    {
        let r = HermiteModifyComponent {
            parent: UNATTACHED,
            id: ComponentId::unattached(),
            points: vec![
                CurvePoint { x: 0, y: 0 },
                CurvePoint { x: 100, y: 100 },
                CurvePoint { x: 200, y: 200 },
                CurvePoint { x: 300, y: 300 },
            ],
            selected_point: None,
        };
        assert(r@.points =~= initial_editor_model().points);
        r
    }
}

} // verus!
