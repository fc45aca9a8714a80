//! Whether a window is fullscreen: its toplevel covers the root window.

use vstd::prelude::*;
use crate::geometry::{covers, covers_root, WindowGeometry};
use crate::tree::{walk, lemma_walk_from_toplevel, TreeInfo};

verus! {

/// The answer from the geometries of the toplevel and of the root, each
/// `None` where it could not be had: a failed query means "not fullscreen".
pub open spec fn fullscreen_from(
    toplevel: Option<WindowGeometry>,
    root: Option<WindowGeometry>,
) -> bool {
    match (toplevel, root) {
        (Some(t), Some(r)) => covers(t, r),
        _ => false,
    }
}

/// Whether the toplevel covers the root within the tolerance; `false` where
/// the geometry of either could not be had.
pub fn is_fullscreen(toplevel: Option<WindowGeometry>, root: Option<WindowGeometry>) -> (fullscreen:
    bool)
    ensures
        fullscreen == fullscreen_from(toplevel, root),
{
    match (toplevel, root) {
        (Some(t), Some(r)) => covers_root(&t, &r),
        _ => false,
    }
}

/// The answer for `window` when the server answers `tree(w)` and
/// `geometry(w)` for each window `w` and the walk to the toplevel makes at
/// most `steps` queries: the toplevel's geometry against that of the root
/// that the toplevel's tree names; `false` when the walk fails or has not
/// finished.
pub open spec fn fullscreen_of(
    tree: spec_fn(u32) -> Option<TreeInfo>,
    geometry: spec_fn(u32) -> Option<WindowGeometry>,
    window: u32,
    steps: nat,
) -> bool {
    match walk(tree, window, steps) {
        Some(Some(t)) => fullscreen_from(
            geometry(t),
            match tree(t) {
                Some(info) => geometry(info.root),
                None => None,
            },
        ),
        _ => false,
    }
}

/// Only the toplevel matters: when the walk from `window` reaches the
/// toplevel `t`, the answer for `window` is the answer for `t`.
pub proof fn lemma_fullscreen_of_toplevel(
    tree: spec_fn(u32) -> Option<TreeInfo>,
    geometry: spec_fn(u32) -> Option<WindowGeometry>,
    window: u32,
    steps: nat,
    t: u32,
)
    requires
        walk(tree, window, steps) == Some(Some(t)),
    ensures
        fullscreen_of(tree, geometry, window, steps) == fullscreen_of(tree, geometry, t, 1),
{
    lemma_walk_from_toplevel(tree, window, steps);
}

/// The answer is `true` exactly when both geometries are known and the
/// toplevel's position and size each differ from the root's by at most 2
/// pixels in each dimension; a failed query (either geometry unknown) gives
/// `false`, and so does any size difference above 2 px.
pub proof fn lemma_fullscreen_from_within_two_pixels(
    toplevel: Option<WindowGeometry>,
    root: Option<WindowGeometry>,
)
    ensures
        fullscreen_from(toplevel, root) <==> (toplevel is Some && root is Some && {
            let t = toplevel.unwrap();
            let r = root.unwrap();
            &&& -2 <= t.x - r.x <= 2
            &&& -2 <= t.y - r.y <= 2
            &&& -2 <= t.width - r.width <= 2
            &&& -2 <= t.height - r.height <= 2
        }),
{
}

} // verus!
