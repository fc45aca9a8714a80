//! The children that obscure a window: viewable, not override-redirect, and
//! clipped to the parent's area.

use vstd::prelude::*;
use crate::geometry::WindowGeometry;

verus! {

/// `map_state` of a window that is mapped and all of whose ancestors are mapped.
pub const XCB_MAP_STATE_VIEWABLE: u8 = 2;

/// What `xcb_get_window_attributes` reports that the layer reads.
#[derive(Clone, Copy, Debug, PartialEq, Eq, Structural)]
pub struct WindowAttributes {
    pub map_state: u8,
    pub override_redirect: bool,
}

impl WindowAttributes {
    /// From the reply's fields: `override_redirect` is set when its byte is not zero.
    pub fn from_reply(map_state: u8, override_redirect: u8) -> (attributes: WindowAttributes)
        ensures
            attributes == (WindowAttributes { map_state, override_redirect: override_redirect != 0 }),
    {
        WindowAttributes { map_state, override_redirect: override_redirect != 0 }
    }
}

/// A child of this kind can obscure its parent: viewable, and managed by the
/// window manager (not override-redirect).
pub open spec fn may_obscure(attributes: WindowAttributes) -> bool {
    attributes.map_state == XCB_MAP_STATE_VIEWABLE && !attributes.override_redirect
}

/// Whether a child with these attributes can obscure its parent, so that its
/// geometry is worth asking for.
pub fn is_obscuring_candidate(attributes: &WindowAttributes) -> (candidate: bool)
    ensures
        candidate == may_obscure(*attributes),
{
    attributes.map_state == XCB_MAP_STATE_VIEWABLE && !attributes.override_redirect
}

/// What was learned of one child window: its attributes and its geometry, each
/// `None` where the query failed (or, for the geometry, was not made).
#[derive(Clone, Copy, Debug, PartialEq, Eq, Structural)]
pub struct ChildWindow {
    pub attributes: Option<WindowAttributes>,
    pub geometry: Option<WindowGeometry>,
}

/// The child counts: its attributes are known and say it may obscure, and its
/// geometry is known.
pub open spec fn counts(child: ChildWindow) -> bool {
    &&& child.attributes matches Some(a) && may_obscure(a)
    &&& child.geometry is Some
}

/// `a` or 0, whichever is larger.
pub open spec fn at_least_zero(a: int) -> int {
    if a > 0 { a } else { 0 }
}

/// The larger of `a` and `b`.
pub open spec fn larger(a: int, b: int) -> int {
    if a >= b { a } else { b }
}

/// The smaller of `a` and `b`.
pub open spec fn smaller(a: int, b: int) -> int {
    if a <= b { a } else { b }
}

/// Width of `child` cut at the parent's right edge, the child's offset being
/// the difference of the two `x` positions (0 where the child starts at or
/// past that edge).
pub open spec fn clipped_width(parent: WindowGeometry, child: WindowGeometry) -> int {
    smaller(child.width as int, at_least_zero(parent.width - (child.x - parent.x)))
}

/// Height of `child` cut at the parent's bottom edge, the child's offset being
/// the difference of the two `y` positions.
pub open spec fn clipped_height(parent: WindowGeometry, child: WindowGeometry) -> int {
    smaller(child.height as int, at_least_zero(parent.height - (child.y - parent.y)))
}

/// The largest value of `measure` over the geometries of the children that
/// count; 0 where none does (or none measures above 0).
pub open spec fn largest_measure(
    children: Seq<ChildWindow>,
    measure: spec_fn(WindowGeometry) -> int,
) -> int
    decreases children.len(),
{
    if children.len() == 0 {
        0
    } else {
        let before = largest_measure(children.drop_last(), measure);
        let last = children.last();
        if counts(last) {
            larger(before, measure(last.geometry.unwrap()))
        } else {
            before
        }
    }
}

/// The largest clipped width among the children that count; 0 where none does.
pub open spec fn largest_width(parent: WindowGeometry, children: Seq<ChildWindow>) -> int {
    largest_measure(children, |g: WindowGeometry| clipped_width(parent, g))
}

/// The largest clipped height among the children that count; 0 where none does.
/// It need not be the height of the child with the largest width.
pub open spec fn largest_height(parent: WindowGeometry, children: Seq<ChildWindow>) -> int {
    largest_measure(children, |g: WindowGeometry| clipped_height(parent, g))
}

/// `largest_measure` is the maximum: no child that counts measures more, and
/// it is 0 or the measure of some child that counts.
pub proof fn lemma_largest_measure_is_maximum(
    children: Seq<ChildWindow>,
    measure: spec_fn(WindowGeometry) -> int,
)
    ensures
        largest_measure(children, measure) >= 0,
        forall|i: int|
            0 <= i < children.len() && counts(#[trigger] children[i]) ==> measure(
                children[i].geometry.unwrap(),
            ) <= largest_measure(children, measure),
        largest_measure(children, measure) == 0 || exists|i: int|
            0 <= i < children.len() && counts(#[trigger] children[i]) && measure(
                children[i].geometry.unwrap(),
            ) == largest_measure(children, measure),
    decreases children.len(),
{
    if children.len() > 0 {
        let init = children.drop_last();
        lemma_largest_measure_is_maximum(init, measure);
        let n = children.len() - 1;
        assert forall|i: int|
            0 <= i < children.len() && counts(#[trigger] children[i]) implies measure(
            children[i].geometry.unwrap(),
        ) <= largest_measure(children, measure) by {
            if i < n {
                assert(children[i] == init[i]);
            }
        }
        let result = largest_measure(children, measure);
        if result != 0 {
            if counts(children[n]) && measure(children[n].geometry.unwrap()) == result {
            } else {
                let j = choose|j: int|
                    0 <= j < init.len() && counts(#[trigger] init[j]) && measure(
                        init[j].geometry.unwrap(),
                    ) == largest_measure(init, measure);
                assert(children[j] == init[j]);
            }
        }
    }
}

/// The largest measure of `a` is at most that of `b` when every child of `a`
/// that counts is also among `b`.
proof fn lemma_largest_measure_at_most(
    a: Seq<ChildWindow>,
    b: Seq<ChildWindow>,
    measure: spec_fn(WindowGeometry) -> int,
)
    requires
        forall|i: int| 0 <= i < a.len() && counts(#[trigger] a[i]) ==> b.contains(a[i]),
    ensures
        largest_measure(a, measure) <= largest_measure(b, measure),
{
    lemma_largest_measure_is_maximum(a, measure);
    lemma_largest_measure_is_maximum(b, measure);
    let ra = largest_measure(a, measure);
    if ra != 0 {
        let i = choose|i: int|
            0 <= i < a.len() && counts(#[trigger] a[i]) && measure(a[i].geometry.unwrap()) == ra;
        assert(b.contains(a[i]));
        let j = choose|j: int| 0 <= j < b.len() && b[j] == a[i];
        assert(counts(b[j]));
    }
}

/// Only the children that count matter, as a set: their order, their
/// repetitions and the children that do not count leave the largest clipped
/// width and height unchanged. Two lists in which the same children count give
/// the same result.
pub proof fn lemma_largest_depends_only_on_counted_children(
    parent: WindowGeometry,
    a: Seq<ChildWindow>,
    b: Seq<ChildWindow>,
)
    requires
        forall|i: int| 0 <= i < a.len() && counts(#[trigger] a[i]) ==> b.contains(a[i]),
        forall|j: int| 0 <= j < b.len() && counts(#[trigger] b[j]) ==> a.contains(b[j]),
    ensures
        largest_width(parent, a) == largest_width(parent, b),
        largest_height(parent, a) == largest_height(parent, b),
{
    let fw = |g: WindowGeometry| clipped_width(parent, g);
    let fh = |g: WindowGeometry| clipped_height(parent, g);
    lemma_largest_measure_at_most(a, b, fw);
    lemma_largest_measure_at_most(b, a, fw);
    lemma_largest_measure_at_most(a, b, fh);
    lemma_largest_measure_at_most(b, a, fh);
}

/// The largest clipped width and the largest clipped height over the children
/// that count (each 0 where no child counts). The two may come from different
/// children.
pub fn largest_obscuring_extent(parent: &WindowGeometry, children: &Vec<ChildWindow>) -> (extent: (
    u32,
    u32,
))
    ensures
        extent.0 == largest_width(*parent, children@),
        extent.1 == largest_height(*parent, children@),
{
    let ghost fw = |g: WindowGeometry| clipped_width(*parent, g);
    let ghost fh = |g: WindowGeometry| clipped_height(*parent, g);
    let mut max_w: u32 = 0;
    let mut max_h: u32 = 0;
    let mut i: usize = 0;
    while i < children.len()
        invariant
            i <= children@.len(),
            forall|g: WindowGeometry| #[trigger] fw(g) == clipped_width(*parent, g),
            forall|g: WindowGeometry| #[trigger] fh(g) == clipped_height(*parent, g),
            max_w == largest_measure(children@.take(i as int), fw),
            max_h == largest_measure(children@.take(i as int), fh),
        decreases children@.len() - i,
    {
        let child = children[i];
        assert(children@.take(i + 1).drop_last() =~= children@.take(i as int));
        assert(children@.take(i + 1).last() == child);
        match (child.attributes, child.geometry) {
            (Some(attributes), Some(geometry)) => {
                if is_obscuring_candidate(&attributes) {
                    let (w, h) = clipped_extent(parent, &geometry);
                    if w > max_w {
                        max_w = w;
                    }
                    if h > max_h {
                        max_h = h;
                    }
                }
            },
            _ => {},
        }
        i = i + 1;
    }
    assert(children@.take(children@.len() as int) =~= children@);
    (max_w, max_h)
}

/// Looks for children of `parent` that obscure it: viewable, not
/// override-redirect, and larger than 1x1 once clipped to the parent. Returns
/// the largest clipped width and the largest clipped height over the children
/// that count, or `None` when both are at most 1.
pub fn largest_obscuring_child(parent: &WindowGeometry, children: &Vec<ChildWindow>) -> (found:
    Option<(u32, u32)>)
    ensures
        found is None <==> (largest_width(*parent, children@) <= 1 && largest_height(
            *parent,
            children@,
        ) <= 1),
        found matches Some(e) ==> e.0 == largest_width(*parent, children@) && e.1
            == largest_height(*parent, children@),
        found is Some <==> exists|i: int|
            0 <= i < children@.len() && counts(#[trigger] children@[i]) && (clipped_width(
                *parent,
                children@[i].geometry.unwrap(),
            ) > 1 || clipped_height(*parent, children@[i].geometry.unwrap()) > 1),
{
    let (max_w, max_h) = largest_obscuring_extent(parent, children);
    proof {
        let fw = |g: WindowGeometry| clipped_width(*parent, g);
        let fh = |g: WindowGeometry| clipped_height(*parent, g);
        lemma_largest_measure_is_maximum(children@, fw);
        lemma_largest_measure_is_maximum(children@, fh);
    }
    if max_w <= 1 && max_h <= 1 {
        None
    } else {
        Some((max_w, max_h))
    }
}

/// Size of `child` cut to `parent`'s width and height, the child's offset
/// being the difference of the two positions: the child's width, but no more
/// than what is left of the parent's width past that offset (and no less
/// than 0); likewise for the height.
pub fn clipped_extent(parent: &WindowGeometry, child: &WindowGeometry) -> (extent: (u32, u32))
    ensures
        extent.0 == clipped_width(*parent, *child),
        extent.1 == clipped_height(*parent, *child),
        extent.0 <= child.width,
        extent.1 <= child.height,
{
    let rel_x: i32 = child.x as i32 - parent.x as i32;
    let rel_y: i32 = child.y as i32 - parent.y as i32;
    let room_w: i32 = parent.width as i32 - rel_x;
    let room_h: i32 = parent.height as i32 - rel_y;
    let clip_w: u32 = if room_w > 0 { room_w as u32 } else { 0 };
    let clip_h: u32 = if room_h > 0 { room_h as u32 } else { 0 };
    let cw: u32 = child.width as u32;
    let ch: u32 = child.height as u32;
    let w: u32 = if cw <= clip_w { cw } else { clip_w };
    let h: u32 = if ch <= clip_h { ch } else { clip_h };
    (w, h)
}

/// A child may obscure exactly when its `map_state` is 2 (viewable) and it is
/// not override-redirect.
pub proof fn lemma_may_obscure_viewable_managed(attributes: WindowAttributes)
    ensures
        may_obscure(attributes) <==> (attributes.map_state == 2u8 && !attributes.override_redirect),
{
}

/// The clipped width is at least 0, at most the child's width, at most what
/// is left of the parent's width past the child's offset (0 when nothing is
/// left), whatever the sign of the offset, and equal to one of these two.
pub proof fn lemma_clipped_width_bounds(parent: WindowGeometry, child: WindowGeometry)
    ensures
        0 <= clipped_width(parent, child) <= child.width,
        parent.width - (child.x - parent.x) <= 0 ==> clipped_width(parent, child) == 0,
        parent.width - (child.x - parent.x) > 0 ==> clipped_width(parent, child) <= parent.width
            - (child.x - parent.x),
        clipped_width(parent, child) == child.width || clipped_width(parent, child) == 0
            || clipped_width(parent, child) == parent.width - (child.x - parent.x),
{
}

/// The clipped height is at least 0, at most the child's height, at most what
/// is left of the parent's height past the child's offset (0 when nothing is
/// left), whatever the sign of the offset, and equal to one of these two.
pub proof fn lemma_clipped_height_bounds(parent: WindowGeometry, child: WindowGeometry)
    ensures
        0 <= clipped_height(parent, child) <= child.height,
        parent.height - (child.y - parent.y) <= 0 ==> clipped_height(parent, child) == 0,
        parent.height - (child.y - parent.y) > 0 ==> clipped_height(parent, child)
            <= parent.height - (child.y - parent.y),
        clipped_height(parent, child) == child.height || clipped_height(parent, child) == 0
            || clipped_height(parent, child) == parent.height - (child.y - parent.y),
{
}

/// With no children, the largest clipped width and height are 0.
pub proof fn lemma_largest_of_no_children(parent: WindowGeometry)
    ensures
        largest_width(parent, Seq::<ChildWindow>::empty()) == 0,
        largest_height(parent, Seq::<ChildWindow>::empty()) == 0,
{
}

/// One more child: a child whose attributes or geometry are unknown, whose
/// `map_state` is not 2 (viewable), or that is override-redirect leaves the
/// largest width and height unchanged; a viewable, managed child with known
/// geometry raises each to its clipped width (height) where that is larger.
pub proof fn lemma_largest_with_one_more_child(
    parent: WindowGeometry,
    children: Seq<ChildWindow>,
    child: ChildWindow,
)
    ensures
        (child.attributes is None || child.geometry is None || child.attributes.unwrap().map_state
            != 2u8 || child.attributes.unwrap().override_redirect) ==> {
            &&& largest_width(parent, children.push(child)) == largest_width(parent, children)
            &&& largest_height(parent, children.push(child)) == largest_height(parent, children)
        },
        (child.attributes is Some && child.geometry is Some && child.attributes.unwrap().map_state
            == 2u8 && !child.attributes.unwrap().override_redirect) ==> {
            let g = child.geometry.unwrap();
            let w = clipped_width(parent, g);
            let h = clipped_height(parent, g);
            let before_w = largest_width(parent, children);
            let before_h = largest_height(parent, children);
            &&& largest_width(parent, children.push(child)) == (if w > before_w {
                w
            } else {
                before_w
            })
            &&& largest_height(parent, children.push(child)) == (if h > before_h {
                h
            } else {
                before_h
            })
        },
{
    assert(children.push(child).drop_last() =~= children);
    assert(children.push(child).last() == child);
}

} // verus!
