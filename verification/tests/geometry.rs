use moonshine_wsi::geometry::{covers_root, window_extent, WindowGeometry, FULLSCREEN_TOLERANCE};

fn geom(x: i16, y: i16, width: u16, height: u16) -> WindowGeometry {
    WindowGeometry { x, y, width, height }
}

#[test]
fn window_extent_of_sized_window() {
    assert_eq!(window_extent(&geom(5, -3, 640, 480)), Some((640, 480)));
}

#[test]
fn window_extent_rejects_zero_dimension() {
    assert_eq!(window_extent(&geom(0, 0, 0, 480)), None);
    assert_eq!(window_extent(&geom(0, 0, 640, 0)), None);
    assert_eq!(window_extent(&geom(0, 0, 0, 0)), None);
}

#[test]
fn covers_root_within_tolerance() {
    assert_eq!(FULLSCREEN_TOLERANCE, 2);
    let root = geom(0, 0, 1920, 1080);
    assert!(covers_root(&geom(0, 0, 1920, 1080), &root));
    assert!(covers_root(&geom(0, 0, 1918, 1082), &root));
    assert!(covers_root(&geom(0, 0, 1922, 1078), &root));
}

#[test]
fn covers_root_outside_tolerance() {
    let root = geom(0, 0, 1920, 1080);
    assert!(!covers_root(&geom(0, 0, 1917, 1080), &root));
    assert!(!covers_root(&geom(0, 0, 1920, 1083), &root));
    assert!(!covers_root(&geom(0, 0, 800, 600), &root));
}

#[test]
fn covers_root_needs_position_within_tolerance() {
    let root = geom(0, 0, 1920, 1080);
    // Full size, but moved: covers only part of the screen.
    assert!(!covers_root(&geom(500, 300, 1920, 1080), &root));
    assert!(!covers_root(&geom(3, 0, 1920, 1080), &root));
    assert!(!covers_root(&geom(0, -3, 1920, 1080), &root));
    // Within the tolerance in position and size.
    assert!(covers_root(&geom(2, -2, 1921, 1079), &root));
    assert!(covers_root(&geom(-1, 1, 1920, 1080), &root));
}
