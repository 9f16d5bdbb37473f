use actuate_core::{use_child, use_mut, use_ref, Mut, Runtime, ScopeData, Update, Updater};

type Change = Box<dyn FnOnce(&i32) -> i32>;

fn change(f: impl FnOnce(&i32) -> i32 + 'static) -> Change {
    Box::new(f)
}

#[test]
fn new_runtime_is_idle_and_keeps_nothing() {
    let rt: Runtime<Change> = Runtime::new(Updater::Queued);
    assert!(!rt.is_active());
    assert_eq!(rt.pending(), 0);
    assert!(matches!(rt.updater(), Updater::Queued));
    let rt: Runtime<Change> = Runtime::new(Updater::Immediate);
    assert!(matches!(rt.updater(), Updater::Immediate));
}

#[test]
fn enter_and_leave_switch_the_phase() {
    let mut rt: Runtime<Change> = Runtime::new(Updater::Queued);
    rt.enter();
    assert!(rt.is_active());
    rt.enter();
    assert!(rt.is_active());
    rt.leave();
    assert!(!rt.is_active());
    assert!(matches!(rt.updater(), Updater::Queued));
}

#[test]
fn immediate_update_is_seen_in_the_same_pass() {
    let mut cx: ScopeData<i32> = ScopeData::new();
    let mut rt: Runtime<Change> = Runtime::new(Updater::Immediate);
    rt.enter();
    let m = use_mut(&mut cx, || 1);
    assert!(m.update(&mut cx, &mut rt, change(|v| v + 1)));
    assert_eq!(m.get(&cx), Some(&2));
    assert_eq!(rt.pending(), 0);
}

#[test]
fn queued_update_waits_for_the_flush() {
    let mut cx: ScopeData<i32> = ScopeData::new();
    let mut rt: Runtime<Change> = Runtime::new(Updater::Queued);
    rt.enter();
    let m = use_mut(&mut cx, || 1);
    assert!(!m.update(&mut cx, &mut rt, change(|v| v + 1)));
    assert_eq!(m.get(&cx), Some(&1));
    assert!(!cx.is_changed());
    assert_eq!(rt.pending(), 1);
    assert_eq!(rt.flush(&mut cx), 0);
    assert_eq!(rt.pending(), 1);
    assert_eq!(m.get(&cx), Some(&1));
    rt.leave();
    assert_eq!(rt.flush(&mut cx), 1);
    assert_eq!(rt.pending(), 0);
    assert_eq!(m.get(&cx), Some(&2));
    assert!(cx.is_changed());
    assert_eq!(cx.generation_of(m.slot), Some(1));
}

#[test]
fn flush_applies_in_the_order_of_the_requests() {
    let mut cx: ScopeData<i32> = ScopeData::new();
    let mut rt: Runtime<Change> = Runtime::new(Updater::Queued);
    let m = use_mut(&mut cx, || 1);
    m.update(&mut cx, &mut rt, change(|v| v + 10));
    m.update(&mut cx, &mut rt, change(|v| v * 2));
    m.with(&mut cx, &mut rt, change(|v| v - 1));
    assert_eq!(rt.pending(), 3);
    assert_eq!(rt.flush(&mut cx), 3);
    assert_eq!(m.get(&cx), Some(&21));
    assert_eq!(cx.generation_of(m.slot), Some(2));
    assert_eq!(cx.generation(), 2);
    assert_eq!(rt.flush(&mut cx), 0);
}

#[test]
fn flush_drops_updates_that_are_not_accepted() {
    let mut cx: ScopeData<i32> = ScopeData::new();
    let mut rt: Runtime<Change> = Runtime::new(Updater::Queued);
    let r = use_ref(&mut cx, || 5);
    let m = use_mut(&mut cx, || 1);
    Mut { slot: r.slot, generation: 0 }.update(&mut cx, &mut rt, change(|v| v + 1));
    m.update(&mut cx, &mut rt, change(|v| v + 1));
    Mut { slot: 9, generation: 0 }.update(&mut cx, &mut rt, change(|v| v + 1));
    assert_eq!(rt.flush(&mut cx), 1);
    assert_eq!(rt.pending(), 0);
    assert_eq!(r.get(&cx), Some(&5));
    assert_eq!(m.get(&cx), Some(&2));
}

#[test]
fn queued_update_of_a_nested_node_is_applied_from_the_root() {
    let mut root: ScopeData<i32> = ScopeData::new();
    let mut rt: Runtime<Change> = Runtime::new(Updater::Queued);
    let top = use_mut(&mut root, || 1);
    let a = use_child(&mut root, false);
    let (inner, b) = {
        let child = root.child_mut(a);
        let b = use_child(child, false);
        let leaf = child.child_mut(b);
        use_ref(leaf, || 0);
        let inner = use_mut(leaf, || 100);
        inner.update(leaf, &mut rt, change(|v| v + 5));
        (inner, b)
    };
    top.update(&mut root, &mut rt, change(|v| v + 1));
    assert_eq!(rt.pending(), 2);
    assert_eq!(rt.flush(&mut root), 2);
    assert_eq!(top.get(&root), Some(&2));
    assert!(root.is_changed());
    assert_eq!(root.generation(), 1);
    let child = root.child(a).unwrap();
    assert!(!child.is_changed());
    let leaf = child.child(b).unwrap();
    assert_eq!(inner.get(leaf), Some(&105));
    assert!(leaf.is_changed());
    assert_eq!(leaf.generation(), 1);
    assert_eq!(leaf.generation_of(inner.slot), Some(1));
}

#[test]
fn immediate_update_in_a_nested_node_stays_in_that_node() {
    let mut root: ScopeData<i32> = ScopeData::new();
    let mut rt: Runtime<Change> = Runtime::new(Updater::Immediate);
    use_mut(&mut root, || 1);
    let a = use_child(&mut root, false);
    let child = root.child_mut(a);
    let m = use_mut(child, || 7);
    assert!(m.update(child, &mut rt, change(|v| v * 6)));
    assert_eq!(m.get(child), Some(&42));
    assert!(child.is_changed());
    assert!(!root.is_changed());
    assert_eq!(root.value(0), Some(&1));
}

#[test]
fn update_applies_only_below_the_node_on_its_path() {
    let mut root: ScopeData<i32> = ScopeData::new();
    let a = use_child(&mut root, false);
    let b = use_child(&mut root, false);
    let path = {
        let first = root.child_mut(a);
        use_mut(first, || 1);
        first.path()
    };
    use_mut(root.child_mut(b), || 2);
    let update = Update { path: path.clone(), slot: 0, marks: true, f: change(|v| v + 1) };
    assert!(!update.apply(root.child_mut(b)));
    assert_eq!(root.child(b).unwrap().value(0), Some(&2));
    let update = Update { path, slot: 0, marks: true, f: change(|v| v + 1) };
    assert!(update.apply(&mut root));
    assert_eq!(root.child(a).unwrap().value(0), Some(&2));
    assert_eq!(root.child(b).unwrap().value(0), Some(&2));
}

#[test]
fn update_with_a_path_that_leads_nowhere_is_not_accepted() {
    let mut root: ScopeData<i32> = ScopeData::new();
    use_mut(&mut root, || 1);
    for path in [vec![0], vec![3], vec![0, 0]] {
        let update = Update { path, slot: 0, marks: true, f: change(|v| v + 1) };
        assert!(!update.apply(&mut root));
    }
    assert_eq!(root.value(0), Some(&1));
    assert!(!root.is_changed());
}

#[test]
fn runtime_update_takes_an_update_as_data() {
    let mut cx: ScopeData<i32> = ScopeData::new();
    use_mut(&mut cx, || 3);
    let mut rt: Runtime<Change> = Runtime::new(Updater::Immediate);
    let update = Update { path: Vec::new(), slot: 0, marks: false, f: change(|v| v * v) };
    assert!(rt.update(&mut cx, update));
    assert_eq!(cx.value(0), Some(&9));
    assert!(!cx.is_changed());
    let mut rt: Runtime<Change> = Runtime::new(Updater::Queued);
    let update = Update { path: Vec::new(), slot: 0, marks: true, f: change(|v| v + 1) };
    assert!(!rt.update(&mut cx, update));
    assert_eq!(cx.value(0), Some(&9));
    assert_eq!(rt.pending(), 1);
}

#[test]
fn update_at_the_last_generation_is_not_accepted() {
    let mut cx: ScopeData<i32> = ScopeData::new();
    use_mut(&mut cx, || 0);
    let mut rt: Runtime<Change> = Runtime::new(Updater::Immediate);
    let m = Mut { slot: 0, generation: 0 };
    assert!(m.update(&mut cx, &mut rt, change(|v| v + 1)));
    assert_eq!(cx.generation(), 1);
    assert_eq!(cx.generation_of(0), Some(1));
}

#[test]
fn discard_drops_the_kept_updates() {
    let mut cx: ScopeData<i32> = ScopeData::new();
    let mut rt: Runtime<Change> = Runtime::new(Updater::Queued);
    let m = use_mut(&mut cx, || 1);
    m.update(&mut cx, &mut rt, change(|v| v + 1));
    m.update(&mut cx, &mut rt, change(|v| v + 1));
    assert_eq!(rt.discard(), 2);
    assert_eq!(rt.pending(), 0);
    assert_eq!(rt.flush(&mut cx), 0);
    assert_eq!(m.get(&cx), Some(&1));
    assert_eq!(rt.discard(), 0);
    assert!(matches!(rt.updater(), Updater::Queued));
}

#[test]
fn default_updater_applies_at_once() {
    assert!(matches!(Updater::default(), Updater::Immediate));
    let rt: Runtime<Change> = Runtime::new(Updater::default());
    assert!(matches!(rt.phase(), actuate_core::Phase::Idle));
}

#[test]
fn update_of_a_destroyed_subtree_is_dropped_by_the_flush() {
    let mut rt: Runtime<Change> = Runtime::new(Updater::Queued);
    let mut old_tree: ScopeData<i32> = ScopeData::new();
    let slot = use_child(&mut old_tree, false);
    let child = old_tree.child_mut(slot);
    let m = use_mut(child, || 1);
    m.update(child, &mut rt, change(|v| v + 1));
    assert_eq!(old_tree.teardown(), Vec::<i32>::new());
    let mut new_tree: ScopeData<i32> = ScopeData::new();
    use_mut(&mut new_tree, || 10);
    assert_eq!(rt.flush(&mut new_tree), 0);
    assert_eq!(rt.pending(), 0);
    assert_eq!(new_tree.value(0), Some(&10));
}
