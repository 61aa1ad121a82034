//! Per-frame pointer logic of a small drawing canvas: a stroke tracker that
//! down-samples a drag into a few representative points, and an editor that
//! lets the user drag the four control points of a cubic curve.
//!
//! Positions are integer pixels of a square canvas; the host divides by
//! [`CANVAS_SIZE`] when it turns them into normalised coordinates.

pub mod component;
pub mod control_points;
pub mod geometry;
pub mod plot_ring;
pub mod stroke;

pub use component::{ComponentId, EntityId, UNATTACHED};
pub use control_points::{CurvePoint, HermiteModifyComponent, PICK_RADIUS, POINT_COUNT, POINT_LIMIT};
pub use geometry::{Delta, Pixel, CANVAS_SIZE, COORD_LIMIT};
pub use plot_ring::{PlotRing, PlottedPoint, PLOT_CAPACITY};
pub use stroke::{CanvasComponent, HISTORY_LEN};
