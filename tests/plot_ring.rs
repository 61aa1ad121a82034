use jotit::{PlotRing, PlottedPoint, PLOT_CAPACITY};

fn unused() -> PlottedPoint {
    PlottedPoint { x: -1000, y: -1000, intensity: 0 }
}

#[test]
fn new_ring_is_unused_at_slot_zero() {
    let ring = PlotRing::new();
    assert_eq!(ring.index(), 0);
    assert_eq!(ring.slots().len(), PLOT_CAPACITY);
    assert!(ring.slots().iter().all(|p| *p == unused()));
}

#[test]
fn cursor_counts_commits_modulo_capacity() {
    let mut ring = PlotRing::new();
    for k in 0..300 {
        assert_eq!(ring.index(), k % PLOT_CAPACITY);
        ring.commit(PlottedPoint { x: k as i32, y: 0, intensity: 1 });
    }
    assert_eq!(ring.index(), 300 % PLOT_CAPACITY);
    assert_eq!(ring.index(), 44);
    // slots 0..44 hold the second turn, the rest the first
    assert_eq!(ring.slots()[0].x, 256);
    assert_eq!(ring.slots()[43].x, 299);
    assert_eq!(ring.slots()[44].x, 44);
    assert_eq!(ring.slots()[255].x, 255);
}

#[test]
fn commit_after_clear_lands_in_slot_zero() {
    let mut ring = PlotRing::new();
    for k in 0..7 {
        ring.commit(PlottedPoint { x: k, y: k, intensity: 1 });
    }
    ring.clear();
    assert_eq!(ring.index(), 0);
    assert!(ring.slots().iter().all(|p| *p == unused()));
    let q = PlottedPoint { x: 3, y: 4, intensity: 1 };
    ring.commit(q);
    assert_eq!(ring.slots()[0], q);
    assert_eq!(ring.index(), 1);
    assert!(ring.slots()[1..].iter().all(|p| *p == unused()));
}
