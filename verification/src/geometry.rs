//! Window geometry as `xcb_get_geometry` reports it, and the judgements made on it.

use vstd::prelude::*;

verus! {

/// Position (relative to the parent) and size of a window, in pixels.
#[derive(Clone, Copy, Debug, PartialEq, Eq, Structural)]
pub struct WindowGeometry {
    pub x: i16,
    pub y: i16,
    pub width: u16,
    pub height: u16,
}

/// How many pixels a toplevel may differ from the screen, in each dimension,
/// and still count as fullscreen.
pub const FULLSCREEN_TOLERANCE: i32 = 2;

/// `a` and `b` differ by at most the fullscreen tolerance.
pub open spec fn within_tolerance(a: int, b: int) -> bool {
    -FULLSCREEN_TOLERANCE <= a - b <= FULLSCREEN_TOLERANCE
}

/// The size of a window, or `None` when either dimension is zero.
pub fn window_extent(geometry: &WindowGeometry) -> (extent: Option<(u32, u32)>)
    ensures
        extent == if geometry.width == 0 || geometry.height == 0 {
            None
        } else {
            Some((geometry.width as u32, geometry.height as u32))
        },
{
    let w: u32 = geometry.width as u32;
    let h: u32 = geometry.height as u32;
    if w == 0 || h == 0 {
        None
    } else {
        Some((w, h))
    }
}

/// A toplevel of geometry `toplevel` covers the root window `root` within the
/// fullscreen tolerance: its position and its size each differ from the
/// root's by at most `FULLSCREEN_TOLERANCE` pixels in each dimension.
pub open spec fn covers(toplevel: WindowGeometry, root: WindowGeometry) -> bool {
    &&& within_tolerance(toplevel.x as int, root.x as int)
    &&& within_tolerance(toplevel.y as int, root.y as int)
    &&& within_tolerance(toplevel.width as int, root.width as int)
    &&& within_tolerance(toplevel.height as int, root.height as int)
}

/// Whether a toplevel of this geometry covers the root (screen) window within
/// `FULLSCREEN_TOLERANCE` pixels: position and size both count.
pub fn covers_root(toplevel: &WindowGeometry, root: &WindowGeometry) -> (fullscreen: bool)
    ensures
        fullscreen == covers(*toplevel, *root),
{
    let dx: i32 = toplevel.x as i32 - root.x as i32;
    let dy: i32 = toplevel.y as i32 - root.y as i32;
    let dw: i32 = toplevel.width as i32 - root.width as i32;
    let dh: i32 = toplevel.height as i32 - root.height as i32;
    -FULLSCREEN_TOLERANCE <= dx && dx <= FULLSCREEN_TOLERANCE && -FULLSCREEN_TOLERANCE <= dy
        && dy <= FULLSCREEN_TOLERANCE && -FULLSCREEN_TOLERANCE <= dw && dw <= FULLSCREEN_TOLERANCE
        && -FULLSCREEN_TOLERANCE <= dh && dh <= FULLSCREEN_TOLERANCE
}

/// A toplevel covers the root exactly when its x, its y, its width and its
/// height each differ from the root's by at most 2 pixels, in either
/// direction: a toplevel more than 2 px smaller or larger in any dimension, or
/// moved by more than 2 px, does not cover it.
pub proof fn lemma_covers_within_two_pixels(toplevel: WindowGeometry, root: WindowGeometry)
    ensures
        covers(toplevel, root) <==> (-2 <= toplevel.x - root.x <= 2 && -2 <= toplevel.y - root.y
            <= 2 && -2 <= toplevel.width - root.width <= 2 && -2 <= toplevel.height - root.height
            <= 2),
{
}

/// Covering is symmetric: a toplevel covers the root exactly when a toplevel
/// with the root's geometry would cover a root with the toplevel's geometry.
pub proof fn lemma_covers_symmetric(a: WindowGeometry, b: WindowGeometry)
    ensures
        covers(a, b) == covers(b, a),
{
}

} // verus!
