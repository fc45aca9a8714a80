use moonshine_wsi::fullscreen::is_fullscreen;
use moonshine_wsi::geometry::WindowGeometry;

fn geom(x: i16, y: i16, width: u16, height: u16) -> WindowGeometry {
    WindowGeometry { x, y, width, height }
}

#[test]
fn is_fullscreen_when_toplevel_covers_root() {
    assert!(is_fullscreen(Some(geom(0, 0, 2560, 1440)), Some(geom(0, 0, 2560, 1440))));
    assert!(is_fullscreen(Some(geom(1, 1, 2558, 1441)), Some(geom(0, 0, 2560, 1440))));
}

#[test]
fn is_fullscreen_false_for_windowed_toplevel() {
    assert!(!is_fullscreen(Some(geom(100, 100, 800, 600)), Some(geom(0, 0, 2560, 1440))));
    assert!(!is_fullscreen(Some(geom(500, 300, 2560, 1440)), Some(geom(0, 0, 2560, 1440))));
}

#[test]
fn is_fullscreen_false_when_a_query_failed() {
    assert!(!is_fullscreen(None, Some(geom(0, 0, 2560, 1440))));
    assert!(!is_fullscreen(Some(geom(0, 0, 2560, 1440)), None));
    assert!(!is_fullscreen(None, None));
}
