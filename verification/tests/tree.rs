use moonshine_wsi::tree::{toplevel_step, ToplevelStep, TreeInfo};

#[test]
fn toplevel_step_found_when_parent_is_root() {
    let t = TreeInfo { root: 1, parent: 1, children_len: 3 };
    assert_eq!(toplevel_step(42, Some(t)), ToplevelStep::Found(42));
}

#[test]
fn toplevel_step_found_when_no_parent() {
    let t = TreeInfo { root: 1, parent: 0, children_len: 0 };
    assert_eq!(toplevel_step(42, Some(t)), ToplevelStep::Found(42));
}

#[test]
fn toplevel_step_ascends_to_parent() {
    let t = TreeInfo { root: 1, parent: 7, children_len: 1 };
    assert_eq!(toplevel_step(42, Some(t)), ToplevelStep::Ascend(7));
}

#[test]
fn toplevel_step_fails_without_reply() {
    assert_eq!(toplevel_step(42, None), ToplevelStep::Failed);
}

#[test]
fn toplevel_walk_over_a_chain() {
    // 30 -> 20 -> 10 -> root 1
    let parent_of = |w: u32| match w {
        30 => 20,
        20 => 10,
        10 => 1,
        _ => 0,
    };
    let mut current = 30;
    let found = loop {
        let info = TreeInfo { root: 1, parent: parent_of(current), children_len: 0 };
        match toplevel_step(current, Some(info)) {
            ToplevelStep::Found(w) => break Some(w),
            ToplevelStep::Ascend(p) => current = p,
            ToplevelStep::Failed => break None,
        }
    };
    assert_eq!(found, Some(10));
}
