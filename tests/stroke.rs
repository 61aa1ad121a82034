use jotit::{CanvasComponent, ComponentId, Pixel, PlottedPoint, UNATTACHED};

fn px(x: i32, y: i32) -> Pixel {
    Pixel { x, y }
}

fn committed(c: &CanvasComponent) -> Vec<(i32, i32)> {
    c.plotted_points()[..c.write_index()]
        .iter()
        .map(|p| {
            assert_eq!(p.intensity, 1);
            (p.x, p.y)
        })
        .collect()
}

/// Hover at `start`, then press and drag through `path`, then release at the last point.
fn drag(c: &mut CanvasComponent, start: Pixel, path: &[Pixel]) {
    c.update(start, false, 16, false);
    for p in path {
        c.update(*p, true, 16, false);
    }
    c.update(*path.last().unwrap(), false, 16, false);
}

#[test]
fn default_tracker_is_idle() {
    let c = CanvasComponent::default();
    assert_eq!(c.write_index(), 0);
    assert!(!c.is_pressing());
    assert_eq!(c.history(), &[px(0, 0), px(0, 0), px(0, 0)]);
    assert!(c
        .plotted_points()
        .iter()
        .all(|p| *p == PlottedPoint { x: -1000, y: -1000, intensity: 0 }));
    assert_eq!(c.get_parent_entity(), UNATTACHED);
    assert_eq!(c.get_id(), ComponentId { entity: UNATTACHED, ordinal: 0 });
}

#[test]
fn straight_drag_commits_start_and_end_only() {
    let mut c = CanvasComponent::default();
    let path: Vec<Pixel> = (1..=5).map(|k| px(100 + 10 * k, 100)).collect();
    drag(&mut c, px(100, 100), &path);
    assert_eq!(committed(&c), vec![(110, 100), (150, 100)]);
    assert!(!c.is_pressing());
}

#[test]
fn straight_drag_at_changing_speed_commits_start_and_end_only() {
    let mut c = CanvasComponent::default();
    let path = [px(101, 101), px(104, 104), px(110, 110), px(130, 130), px(131, 131)];
    drag(&mut c, px(100, 100), &path);
    assert_eq!(committed(&c), vec![(101, 101), (131, 131)]);
}

#[test]
fn right_angle_turn_commits_a_corner() {
    let mut c = CanvasComponent::default();
    let path = [
        px(110, 100),
        px(120, 100),
        px(130, 100),
        px(130, 110),
        px(130, 120),
    ];
    drag(&mut c, px(100, 100), &path);
    assert_eq!(committed(&c), vec![(110, 100), (130, 110), (130, 120)]);
}

#[test]
fn gradual_turn_commits_once_it_drifts() {
    let mut c = CanvasComponent::default();
    // each step turns a little; the anchored direction (10, 0) is left behind
    let path = [
        px(110, 100),
        px(120, 103),
        px(130, 109),
        px(140, 119),
        px(143, 129),
    ];
    drag(&mut c, px(100, 100), &path);
    assert_eq!(committed(&c), vec![(110, 100), (143, 129), (143, 129)]);
}

#[test]
fn held_still_button_commits_nothing() {
    let mut c = CanvasComponent::default();
    c.update(px(50, 50), false, 16, false);
    c.update(px(50, 50), true, 16, false);
    c.update(px(50, 50), true, 16, false);
    assert_eq!(c.write_index(), 0);
    assert!(!c.is_pressing());
    c.update(px(50, 50), false, 16, false);
    assert_eq!(c.write_index(), 0);
}

#[test]
fn zero_time_frame_only_records_the_sample() {
    let mut c = CanvasComponent::default();
    c.update(px(100, 100), false, 16, false);
    c.update(px(110, 100), true, 16, false);
    c.update(px(120, 100), true, 16, false);
    assert_eq!(c.write_index(), 1);
    assert!(c.is_pressing());
    // a sharp turn in a frame that took no time
    c.update(px(120, 140), true, 0, false);
    assert_eq!(c.write_index(), 1);
    assert!(c.is_pressing());
    assert_eq!(c.history(), &[px(110, 100), px(120, 100), px(120, 140)]);
    // a release in a frame that took no time
    c.update(px(120, 140), false, 0, false);
    assert_eq!(c.write_index(), 1);
    assert!(c.is_pressing());
    // the next timed release closes the stroke
    c.update(px(120, 140), false, 16, false);
    assert_eq!(committed(&c), vec![(110, 100), (120, 140)]);
    assert!(!c.is_pressing());
}

#[test]
fn clear_resets_every_slot_and_the_cursor() {
    let mut c = CanvasComponent::default();
    let path = [px(110, 100), px(120, 100), px(120, 110), px(120, 120)];
    drag(&mut c, px(100, 100), &path);
    assert_eq!(c.write_index(), 3);
    c.update(px(300, 300), false, 16, true);
    assert_eq!(c.write_index(), 0);
    assert!(c
        .plotted_points()
        .iter()
        .all(|p| *p == PlottedPoint { x: -1000, y: -1000, intensity: 0 }));
    c.update(px(310, 300), true, 16, false);
    assert_eq!(c.plotted_points()[0], PlottedPoint { x: 310, y: 300, intensity: 1 });
    assert_eq!(c.write_index(), 1);
}

#[test]
fn strokes_wrap_around_the_ring() {
    let mut c = CanvasComponent::default();
    // each tap-and-release commits two points
    for k in 0..130 {
        let y = 10 + (k % 50);
        c.update(px(10, y), false, 16, false);
        c.update(px(20, y), true, 16, false);
        c.update(px(20, y), false, 16, false);
    }
    assert_eq!(c.write_index(), 260 % 256);
    assert_eq!(c.plotted_points()[3], PlottedPoint { x: 20, y: 10 + (129 % 50), intensity: 1 });
}

#[test]
fn metadata_records_the_parent() {
    let mut c = CanvasComponent::default();
    c.update_metadata(7, 2);
    assert_eq!(c.get_parent_entity(), 7);
    assert_eq!(c.get_id(), ComponentId { entity: 7, ordinal: 2 });
}
