use donut::projection::Projection;

#[test]
fn the_standard_scene() {
    let p = Projection::standard();
    assert_eq!(p.tube_radius(), 1);
    assert_eq!(p.ring_radius(), 2);
    assert_eq!(p.viewer_offset(), 5);
}

#[test]
fn a_viewer_outside_the_reach_of_the_torus_makes_a_scene() {
    for (tube, ring, viewer) in [(1, 2, 5), (1, 2, 4), (0, 1, 2), (1, 0, 2), (200, 54, 255), (127, 127, 255)] {
        let p = Projection::new(tube, ring, viewer).unwrap();
        assert_eq!(p.tube_radius(), tube);
        assert_eq!(p.ring_radius(), ring);
        assert_eq!(p.viewer_offset(), viewer);
    }
}

#[test]
fn a_viewer_within_the_reach_of_the_torus_makes_none() {
    for (tube, ring, viewer) in [(1, 2, 3), (1, 2, 2), (1, 2, 0), (255, 255, 255), (200, 55, 255), (128, 127, 255)] {
        assert!(Projection::new(tube, ring, viewer).is_none());
    }
}

#[test]
fn no_torus_makes_no_scene() {
    assert!(Projection::new(0, 0, 1).is_none());
    assert!(Projection::new(0, 0, 255).is_none());
}
