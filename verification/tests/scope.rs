use actuate_core::{use_child, use_drop, use_mut, use_provider, use_ref, ScopeData, Slot};
use std::cell::Cell;
use std::rc::Rc;

#[test]
fn new_node_is_blank() {
    let cx: ScopeData<i32> = ScopeData::new();
    assert_eq!(cx.len(), 0);
    assert_eq!(cx.cursor(), 0);
    assert_eq!(cx.generation(), 0);
    assert_eq!(cx.depth(), 0);
    assert_eq!(cx.path(), Vec::<usize>::new());
    assert!(!cx.is_changed());
    assert!(!cx.is_parent_changed());
    assert!(!cx.is_empty());
    assert!(!cx.is_container());
    assert_eq!(cx.value(0), None);
    assert_eq!(cx.stamp(0), None);
    assert!(cx.child(0).is_none());
}

#[test]
fn default_node_is_a_new_node() {
    let cx: ScopeData<i32> = ScopeData::default();
    assert_eq!(cx.len(), 0);
    assert!(!cx.is_changed());
}

#[test]
fn set_changed_is_sticky_until_taken() {
    let mut cx: ScopeData<i32> = ScopeData::new();
    cx.set_changed();
    cx.set_changed();
    assert!(cx.is_changed());
    cx.begin_pass();
    assert!(cx.is_changed());
    assert!(cx.take_changed());
    assert!(!cx.is_changed());
    assert!(!cx.take_changed());
}

#[test]
fn flags_are_independent() {
    let mut cx: ScopeData<i32> = ScopeData::new();
    cx.set_parent_changed(true);
    assert!(cx.is_parent_changed());
    assert!(!cx.is_changed());
    cx.set_empty(true);
    assert!(cx.is_empty());
    cx.set_parent_changed(false);
    assert!(!cx.is_parent_changed());
    assert!(cx.is_empty());
    cx.set_empty(false);
    assert!(!cx.is_empty());
    assert_eq!(cx.generation(), 0);
}

#[test]
fn should_compose_on_first_pass_on_change_and_on_parent_change() {
    let mut cx: ScopeData<i32> = ScopeData::new();
    assert!(cx.should_compose());
    use_ref(&mut cx, || 1);
    cx.begin_pass();
    assert!(!cx.should_compose());
    cx.set_changed();
    assert!(cx.should_compose());
    assert!(!cx.is_changed());
    assert!(!cx.should_compose());
    cx.set_parent_changed(true);
    assert!(cx.should_compose());
    assert!(cx.should_compose());
    assert!(cx.is_parent_changed());
}

#[test]
fn value_and_stamp_by_slot() {
    let mut cx: ScopeData<i32> = ScopeData::new();
    use_ref(&mut cx, || 1);
    use_mut(&mut cx, || 2);
    use_drop(&mut cx, 3);
    use_child(&mut cx, false);
    use_provider(&mut cx, 9, || 4);
    assert_eq!(cx.value(0), Some(&1));
    assert_eq!(cx.value(1), Some(&2));
    assert_eq!(cx.value(2), None);
    assert_eq!(cx.value(3), None);
    assert_eq!(cx.value(4), Some(&4));
    assert_eq!(cx.value(5), None);
    assert_eq!(cx.stamp(0), Some(0));
    assert_eq!(cx.stamp(1), Some(0));
    assert_eq!(cx.stamp(2), None);
    assert_eq!(cx.stamp(3), None);
    assert_eq!(cx.stamp(4), Some(0));
    assert_eq!(cx.generation_of(0), None);
    assert_eq!(cx.generation_of(1), Some(0));
    assert_eq!(cx.generation_of(5), None);
    assert!(cx.child(3).is_some());
    assert!(cx.child(0).is_none());
    assert!(cx.child(7).is_none());
}

#[test]
fn teardown_of_a_node_without_hooks_is_empty() {
    let cx: ScopeData<i32> = ScopeData::new();
    assert_eq!(cx.teardown(), Vec::<i32>::new());
}

#[test]
fn teardown_hands_out_own_teardowns_then_nested_ones_in_slot_order() {
    let mut root: ScopeData<i32> = ScopeData::new();
    use_drop(&mut root, 1);
    let a = use_child(&mut root, false);
    use_drop(&mut root, 2);
    let b = use_child(&mut root, false);
    use_drop(&mut root, 3);
    {
        let first = root.child_mut(a);
        use_drop(first, 10);
        let inner = use_child(first, false);
        use_drop(first, 11);
        use_drop(first.child_mut(inner), 100);
    }
    {
        let second = root.child_mut(b);
        use_ref(second, || 0);
        use_drop(second, 20);
    }
    assert_eq!(root.teardown(), vec![1, 2, 3, 10, 11, 100, 20]);
}

#[test]
fn teardown_runs_each_callback_once() {
    let runs = Rc::new(Cell::new(0));
    let mut cx: ScopeData<Box<dyn FnOnce()>> = ScopeData::new();
    for _ in 0..3 {
        cx.begin_pass();
        let seen = runs.clone();
        use_drop(&mut cx, Box::new(move || seen.set(seen.get() + 1)));
        assert_eq!(runs.get(), 0);
    }
    for callback in cx.teardown() {
        callback();
    }
    assert_eq!(runs.get(), 1);
}

#[test]
fn nested_nodes_know_their_place() {
    let mut root: ScopeData<i32> = ScopeData::new();
    use_ref(&mut root, || 0);
    let a = use_child(&mut root, false);
    let child = root.child_mut(a);
    use_ref(child, || 0);
    use_ref(child, || 0);
    let b = use_child(child, false);
    let leaf = child.child_mut(b);
    assert_eq!(leaf.path(), vec![1, 2]);
    assert_eq!(leaf.depth(), 2);
    assert_eq!(root.depth(), 0);
}

#[test]
fn next_slot_names_the_hook_that_made_the_slot() {
    let mut cx: ScopeData<i32> = ScopeData::new();
    assert_eq!(cx.next_slot(), None);
    use_ref(&mut cx, || 1);
    use_mut(&mut cx, || 2);
    use_drop(&mut cx, 3);
    use_child(&mut cx, false);
    use_provider(&mut cx, 9, || 4);
    actuate_core::use_callback(&mut cx, 5);
    actuate_core::use_memo(&mut cx, 6, || 7);
    actuate_core::use_dependency(&mut cx, 8);
    assert_eq!(cx.next_slot(), None);
    cx.begin_pass();
    let mut found = Vec::new();
    while let Some(slot) = cx.next_slot() {
        found.push(slot);
        use_child_or_skip(&mut cx, slot);
    }
    assert_eq!(
        found,
        vec![
            Slot::Value,
            Slot::State,
            Slot::Teardown,
            Slot::Scope,
            Slot::Shared,
            Slot::Callback,
            Slot::Memo,
            Slot::Dependency
        ]
    );
}

fn use_child_or_skip(cx: &mut ScopeData<i32>, slot: Slot) {
    match slot {
        Slot::Value => {
            use_ref(cx, || 0);
        }
        Slot::State => {
            use_mut(cx, || 0);
        }
        Slot::Teardown => use_drop(cx, 0),
        Slot::Scope => {
            use_child(cx, false);
        }
        Slot::Shared => {
            use_provider(cx, 9, || 0);
        }
        Slot::Callback => {
            actuate_core::use_callback(cx, 0);
        }
        Slot::Memo => {
            actuate_core::use_memo(cx, 6, || 0);
        }
        Slot::Dependency => {
            actuate_core::use_dependency(cx, 8);
        }
    }
}
