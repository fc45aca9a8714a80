use moonshine_wsi::geometry::WindowGeometry;
use moonshine_wsi::obscuring::{
    clipped_extent, is_obscuring_candidate, largest_obscuring_child, largest_obscuring_extent,
    ChildWindow, WindowAttributes, XCB_MAP_STATE_VIEWABLE,
};

fn geom(x: i16, y: i16, width: u16, height: u16) -> WindowGeometry {
    WindowGeometry { x, y, width, height }
}

fn viewable(g: WindowGeometry) -> ChildWindow {
    ChildWindow {
        attributes: Some(WindowAttributes { map_state: XCB_MAP_STATE_VIEWABLE, override_redirect: false }),
        geometry: Some(g),
    }
}

#[test]
fn attributes_from_reply() {
    assert_eq!(
        WindowAttributes::from_reply(2, 5),
        WindowAttributes { map_state: 2, override_redirect: true }
    );
    assert_eq!(
        WindowAttributes::from_reply(1, 0),
        WindowAttributes { map_state: 1, override_redirect: false }
    );
}

#[test]
fn obscuring_candidate_needs_viewable_and_managed() {
    assert_eq!(XCB_MAP_STATE_VIEWABLE, 2);
    assert!(is_obscuring_candidate(&WindowAttributes { map_state: 2, override_redirect: false }));
    assert!(!is_obscuring_candidate(&WindowAttributes { map_state: 2, override_redirect: true }));
    assert!(!is_obscuring_candidate(&WindowAttributes { map_state: 1, override_redirect: false }));
    assert!(!is_obscuring_candidate(&WindowAttributes { map_state: 0, override_redirect: false }));
}

#[test]
fn clipped_extent_cuts_at_parent_edges() {
    let parent = geom(0, 0, 100, 50);
    assert_eq!(clipped_extent(&parent, &geom(90, 10, 30, 60)), (10, 40));
    assert_eq!(clipped_extent(&parent, &geom(10, 10, 20, 20)), (20, 20));
}

#[test]
fn clipped_extent_child_left_of_parent() {
    let parent = geom(100, 100, 50, 50);
    assert_eq!(clipped_extent(&parent, &geom(50, 80, 200, 30)), (100, 30));
}

#[test]
fn clipped_extent_child_outside_parent() {
    let parent = geom(0, 0, 100, 50);
    assert_eq!(clipped_extent(&parent, &geom(200, 60, 30, 30)), (0, 0));
    assert_eq!(clipped_extent(&parent, &geom(100, 0, 30, 30)), (0, 30));
}

#[test]
fn largest_extent_takes_each_dimension_separately() {
    let parent = geom(0, 0, 1920, 1080);
    let children = vec![viewable(geom(0, 0, 800, 10)), viewable(geom(0, 0, 10, 600))];
    assert_eq!(largest_obscuring_extent(&parent, &children), (800, 600));
    assert_eq!(largest_obscuring_child(&parent, &children), Some((800, 600)));
}

#[test]
fn largest_child_ignores_children_that_do_not_count() {
    let parent = geom(0, 0, 1920, 1080);
    let hidden = ChildWindow {
        attributes: Some(WindowAttributes { map_state: 0, override_redirect: false }),
        geometry: Some(geom(0, 0, 500, 500)),
    };
    let popup = ChildWindow {
        attributes: Some(WindowAttributes { map_state: 2, override_redirect: true }),
        geometry: Some(geom(0, 0, 500, 500)),
    };
    let unknown = ChildWindow { attributes: None, geometry: Some(geom(0, 0, 500, 500)) };
    let no_geometry = ChildWindow {
        attributes: Some(WindowAttributes { map_state: 2, override_redirect: false }),
        geometry: None,
    };
    let children = vec![hidden, popup, unknown, no_geometry];
    assert_eq!(largest_obscuring_extent(&parent, &children), (0, 0));
    assert_eq!(largest_obscuring_child(&parent, &children), None);
}

#[test]
fn largest_child_none_for_tiny_children() {
    let parent = geom(0, 0, 1920, 1080);
    let children = vec![viewable(geom(5, 5, 1, 1)), viewable(geom(1919, 1079, 40, 40))];
    assert_eq!(largest_obscuring_child(&parent, &children), None);
    assert_eq!(largest_obscuring_child(&parent, &vec![]), None);
}

#[test]
fn largest_child_found_when_one_dimension_exceeds_one() {
    let parent = geom(0, 0, 1920, 1080);
    let children = vec![viewable(geom(5, 5, 2, 1))];
    assert_eq!(largest_obscuring_child(&parent, &children), Some((2, 1)));
}

#[test]
fn largest_child_relative_to_parent_position() {
    let parent = geom(100, 100, 200, 100);
    let children = vec![viewable(geom(250, 150, 100, 100))];
    assert_eq!(largest_obscuring_child(&parent, &children), Some((50, 50)));
}

#[test]
fn largest_child_ignores_order_and_extra_non_counting_children() {
    let parent = geom(0, 0, 1920, 1080);
    let a = viewable(geom(0, 0, 300, 20));
    let b = viewable(geom(1800, 1000, 400, 400));
    let c = viewable(geom(10, 10, 30, 700));
    let popup = ChildWindow {
        attributes: Some(WindowAttributes { map_state: 2, override_redirect: true }),
        geometry: Some(geom(0, 0, 1920, 1080)),
    };
    let first = largest_obscuring_child(&parent, &vec![a, b, c]);
    let second = largest_obscuring_child(&parent, &vec![c, popup, a, b, a]);
    assert_eq!(first, Some((300, 700)));
    assert_eq!(first, second);
}
