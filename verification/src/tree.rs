//! Walking up the window tree (`xcb_query_tree`) to the toplevel window.

use vstd::prelude::*;

verus! {

/// What `xcb_query_tree` reports of a window.
#[derive(Clone, Copy, Debug, PartialEq, Eq, Structural)]
pub struct TreeInfo {
    pub root: u32,
    pub parent: u32,
    pub children_len: u32,
}

/// The next move of the walk from a window up to its toplevel.
#[derive(Clone, Copy, Debug, PartialEq, Eq, Structural)]
pub enum ToplevelStep {
    /// The current window is the toplevel.
    Found(u32),
    /// Query this window (the current one's parent) next.
    Ascend(u32),
    /// The tree query failed: there is no answer.
    Failed,
}

/// The next move of the walk from `current`, given what the tree query
/// answered for it: the current window is the toplevel when its parent is the
/// root or it has none; otherwise the walk goes on with the parent; a failed
/// query ends the walk without an answer.
pub open spec fn next_step(current: u32, tree: Option<TreeInfo>) -> ToplevelStep {
    match tree {
        None => ToplevelStep::Failed,
        Some(t) => if t.parent == t.root || t.parent == 0 {
            ToplevelStep::Found(current)
        } else {
            ToplevelStep::Ascend(t.parent)
        },
    }
}

/// One step of the walk from a window up to its toplevel (see `next_step`).
pub fn toplevel_step(current: u32, tree: Option<TreeInfo>) -> (step: ToplevelStep)
    ensures
        step == next_step(current, tree),
        step matches ToplevelStep::Ascend(p) ==> p != 0,
{
    match tree {
        None => ToplevelStep::Failed,
        Some(t) => {
            if t.parent == t.root || t.parent == 0 {
                ToplevelStep::Found(current)
            } else {
                ToplevelStep::Ascend(t.parent)
            }
        },
    }
}

/// The outcome of the walk from `start` when the server answers `tree(w)` for
/// each window `w` and at most `steps` queries are made: `Some(Some(t))` when
/// it found the toplevel `t`, `Some(None)` when a query failed, `None` when it
/// had not finished.
pub open spec fn walk(tree: spec_fn(u32) -> Option<TreeInfo>, start: u32, steps: nat) -> Option<
    Option<u32>,
>
    decreases steps,
{
    if steps == 0 {
        None
    } else {
        match next_step(start, tree(start)) {
            ToplevelStep::Found(t) => Some(Some(t)),
            ToplevelStep::Failed => Some(None),
            ToplevelStep::Ascend(p) => walk(tree, p, (steps - 1) as nat),
        }
    }
}

/// A walk that finds a toplevel would find it again, at the first query, when
/// started from that toplevel: the toplevel of a toplevel is itself.
pub proof fn lemma_walk_from_toplevel(tree: spec_fn(u32) -> Option<TreeInfo>, start: u32, steps: nat)
    ensures
        walk(tree, start, steps) matches Some(Some(t)) ==> walk(tree, t, 1) == Some(Some(t)),
    decreases steps,
{
    if steps > 0 {
        match next_step(start, tree(start)) {
            ToplevelStep::Ascend(p) => lemma_walk_from_toplevel(tree, p, (steps - 1) as nat),
            _ => {
                reveal_with_fuel(walk, 2);
            },
        }
    }
}

/// How a step goes, in terms of the reply: no reply ends the walk without an
/// answer; the walk stops at the current window exactly when its parent is
/// the root or 0, and otherwise moves to the parent; how many children the
/// window has plays no part.
pub proof fn lemma_next_step_follows_parent(current: u32, t: TreeInfo, other_children_len: u32)
    ensures
        next_step(current, None) == ToplevelStep::Failed,
        next_step(current, Some(t)) is Found <==> (t.parent == t.root || t.parent == 0),
        next_step(current, Some(t)) matches ToplevelStep::Found(w) ==> w == current,
        !(t.parent == t.root || t.parent == 0) ==> next_step(current, Some(t))
            == ToplevelStep::Ascend(t.parent),
        next_step(current, Some(t)) == next_step(
            current,
            Some(TreeInfo { root: t.root, parent: t.parent, children_len: other_children_len }),
        ),
{
}

} // verus!
