use jotit::{ComponentId, CurvePoint, HermiteModifyComponent, Pixel, UNATTACHED};

fn px(x: i32, y: i32) -> Pixel {
    Pixel { x, y }
}

fn cp(x: i64, y: i64) -> CurvePoint {
    CurvePoint { x, y }
}

#[test]
fn default_layout_is_diagonal() {
    let e = HermiteModifyComponent::default();
    assert_eq!(e.control_points(), &[cp(0, 0), cp(100, 100), cp(200, 200), cp(300, 300)]);
    assert_eq!(e.selected_point(), None);
    assert_eq!(e.get_parent_entity(), UNATTACHED);
    assert_eq!(e.get_id(), ComponentId { entity: UNATTACHED, ordinal: 0 });
}

#[test]
fn press_exactly_on_point_two_selects_it() {
    let mut e = HermiteModifyComponent::default();
    assert_eq!(e.closest_point(px(200, 200)), Some(2));
    e.update(px(200, 200), 0, 0, true);
    assert_eq!(e.selected_point(), Some(2));
}

#[test]
fn pick_radius_is_strict() {
    let e = HermiteModifyComponent::default();
    assert_eq!(e.closest_point(px(221, 200)), Some(2));
    assert_eq!(e.closest_point(px(222, 200)), None);
    assert_eq!(e.closest_point(px(115, 115)), Some(1));
    assert_eq!(e.closest_point(px(116, 116)), None);
    assert_eq!(e.closest_point(px(150, 150)), None);
}

#[test]
fn first_of_equally_near_points_wins() {
    let mut e = HermiteModifyComponent::default();
    // press on point 1 and move it next to point 0 in the same frame
    e.update(px(100, 100), -90, -100, true);
    e.update(px(10, 0), 0, 0, false);
    assert_eq!(e.control_points()[1], cp(10, 0));
    assert_eq!(e.closest_point(px(5, 0)), Some(0));
    assert_eq!(e.closest_point(px(6, 0)), Some(1));
}

#[test]
fn drag_adds_the_relative_motions() {
    let mut e = HermiteModifyComponent::default();
    e.update(px(200, 200), 0, 0, true);
    e.update(px(700, 10), 10, 20, true);
    e.update(px(3, 900), -5, 0, true);
    assert_eq!(e.selected_point(), Some(2));
    assert_eq!(e.control_points(), &[cp(0, 0), cp(100, 100), cp(205, 220), cp(300, 300)]);
}

#[test]
fn selection_sticks_while_pressed_away_from_points() {
    let mut e = HermiteModifyComponent::default();
    e.update(px(300, 300), 0, 0, true);
    assert_eq!(e.selected_point(), Some(3));
    // now nearer point 0, but the drag keeps point 3
    e.update(px(1, 1), 4, 4, true);
    assert_eq!(e.selected_point(), Some(3));
    assert_eq!(e.control_points()[3], cp(304, 304));
}

#[test]
fn release_or_leaving_the_canvas_drops_the_selection() {
    let mut e = HermiteModifyComponent::default();
    e.update(px(100, 100), 0, 0, true);
    assert_eq!(e.selected_point(), Some(1));
    e.update(px(100, 100), 5, 5, false);
    assert_eq!(e.selected_point(), None);
    assert_eq!(e.control_points()[1], cp(100, 100));

    e.update(px(100, 100), 0, 0, true);
    assert_eq!(e.selected_point(), Some(1));
    e.update(px(1000, 100), 5, 5, true);
    assert_eq!(e.selected_point(), None);
    e.update(px(100, -1), 5, 5, true);
    assert_eq!(e.selected_point(), None);
    assert_eq!(e.control_points()[1], cp(100, 100));
}

#[test]
fn press_away_from_points_selects_nothing() {
    let mut e = HermiteModifyComponent::default();
    e.update(px(500, 500), 3, 3, true);
    assert_eq!(e.selected_point(), None);
    assert_eq!(e.control_points(), &[cp(0, 0), cp(100, 100), cp(200, 200), cp(300, 300)]);
}

#[test]
fn canvas_edge_at_zero_is_inside() {
    let mut e = HermiteModifyComponent::default();
    e.update(px(0, 0), 0, 0, true);
    assert_eq!(e.selected_point(), Some(0));
}

#[test]
fn drag_fits_checks_the_range() {
    let e = HermiteModifyComponent::default();
    assert!(e.drag_fits(i32::MAX, i32::MIN));
}

#[test]
fn editor_metadata_records_the_parent() {
    let mut e = HermiteModifyComponent::default();
    e.update_metadata(3, 1);
    assert_eq!(e.get_parent_entity(), 3);
    assert_eq!(e.get_id(), ComponentId { entity: 3, ordinal: 1 });
}
