use actuate_core::{
    use_callback, use_child, use_context, use_dependency, use_drop, use_memo, use_mut,
    use_provider, use_ref, use_scope, MemoKey, Memoize, Mut, Ref, Runtime, ScopeData, Updater,
};
use std::cell::Cell;
use std::rc::Rc;

type Change = Box<dyn FnOnce(&i32) -> i32>;

fn change(f: impl FnOnce(&i32) -> i32 + 'static) -> Change {
    Box::new(f)
}

#[test]
fn use_ref_makes_the_value_once() {
    let calls = Rc::new(Cell::new(0));
    let mut cx: ScopeData<i32> = ScopeData::new();
    let mut handles = Vec::new();
    for pass in 0..4 {
        cx.begin_pass();
        let seen = calls.clone();
        let r = use_ref(&mut cx, move || {
            seen.set(seen.get() + 1);
            40 + pass
        });
        assert_eq!(r.get(&cx), Some(&40));
        assert!(r.is_current(&cx));
        handles.push((r.slot, r.generation));
    }
    assert_eq!(calls.get(), 1);
    assert_eq!(handles, vec![(0, 0); 4]);
    assert_eq!(cx.len(), 1);
}

#[test]
fn use_ref_value_is_the_same_allocation_on_every_pass() {
    let mut cx: ScopeData<Rc<i32>> = ScopeData::new();
    let first = use_ref(&mut cx, || Rc::new(7)).get(&cx).unwrap().clone();
    cx.begin_pass();
    let second = use_ref(&mut cx, || Rc::new(7)).get(&cx).unwrap().clone();
    assert!(Rc::ptr_eq(&first, &second));
}

#[test]
fn hooks_use_slots_in_call_order() {
    let mut cx: ScopeData<i32> = ScopeData::new();
    let a = use_ref(&mut cx, || 1);
    let b = use_mut(&mut cx, || 2);
    let c = use_memo(&mut cx, 3, || 4);
    let d = use_callback(&mut cx, 5);
    assert_eq!((a.slot, b.slot, c.slot, d.slot), (0, 1, 2, 3));
    assert_eq!(cx.cursor(), 4);
    cx.begin_pass();
    assert_eq!(cx.cursor(), 0);
    let a = use_ref(&mut cx, || 10);
    let b = use_mut(&mut cx, || 20);
    let c = use_memo(&mut cx, 3, || 40);
    let d = use_callback(&mut cx, 50);
    assert_eq!((a.slot, b.slot, c.slot, d.slot), (0, 1, 2, 3));
    assert_eq!(cx.len(), 4);
    assert_eq!(a.get(&cx), Some(&1));
    assert_eq!(b.get(&cx), Some(&2));
    assert_eq!(c.get(&cx), Some(&4));
    assert_eq!(d.get(&cx), Some(&50));
}

#[test]
fn use_mut_starts_at_generation_zero() {
    let mut cx: ScopeData<i32> = ScopeData::new();
    let m = use_mut(&mut cx, || 9);
    assert_eq!(m.slot, 0);
    assert_eq!(m.generation, 0);
    assert_eq!(m.get(&cx), Some(&9));
    assert_eq!(cx.generation_of(0), Some(0));
    assert!(!cx.is_changed());
}

#[test]
fn update_counts_one_generation_and_marks_the_node() {
    let mut cx: ScopeData<i32> = ScopeData::new();
    let mut rt: Runtime<Change> = Runtime::new(Updater::Immediate);
    let m = use_mut(&mut cx, || 0);
    for n in 1..=5u64 {
        assert!(m.update(&mut cx, &mut rt, change(|v| v + 10)));
        assert_eq!(cx.generation_of(m.slot), Some(n));
        assert_eq!(cx.generation(), n);
        assert!(cx.is_changed());
    }
    assert_eq!(m.get(&cx), Some(&50));
    cx.begin_pass();
    let again = use_mut(&mut cx, || 0);
    assert_eq!(again.generation, 5);
    assert_eq!(again.get(&cx), Some(&50));
}

#[test]
fn with_counts_nothing_and_marks_nothing() {
    let mut cx: ScopeData<i32> = ScopeData::new();
    let mut rt: Runtime<Change> = Runtime::new(Updater::Immediate);
    let m = use_mut(&mut cx, || 1);
    assert!(m.with(&mut cx, &mut rt, change(|v| v * 3)));
    assert!(m.with(&mut cx, &mut rt, change(|v| v * 3)));
    assert_eq!(m.get(&cx), Some(&9));
    assert_eq!(cx.generation_of(m.slot), Some(0));
    assert_eq!(cx.generation(), 0);
    assert!(!cx.is_changed());
    assert!(m.as_ref().is_current(&cx));
}

#[test]
fn with_leaves_an_earlier_mark() {
    let mut cx: ScopeData<i32> = ScopeData::new();
    let mut rt: Runtime<Change> = Runtime::new(Updater::Immediate);
    let m = use_mut(&mut cx, || 1);
    m.update(&mut cx, &mut rt, change(|v| v + 1));
    m.with(&mut cx, &mut rt, change(|v| v + 1));
    assert!(cx.is_changed());
    assert_eq!(cx.generation_of(m.slot), Some(1));
    assert_eq!(m.get(&cx), Some(&3));
}

#[test]
fn update_of_a_slot_that_is_no_mutable_value_is_not_accepted() {
    let mut cx: ScopeData<i32> = ScopeData::new();
    let mut rt: Runtime<Change> = Runtime::new(Updater::Immediate);
    let r = use_ref(&mut cx, || 1);
    let m = use_mut(&mut cx, || 2);
    let forged = actuate_core::Mut { slot: r.slot, generation: 0 };
    assert!(!forged.update(&mut cx, &mut rt, change(|v| v + 1)));
    let missing = actuate_core::Mut { slot: 17, generation: 0 };
    assert!(!missing.update(&mut cx, &mut rt, change(|v| v + 1)));
    assert_eq!(r.get(&cx), Some(&1));
    assert_eq!(m.get(&cx), Some(&2));
    assert!(!cx.is_changed());
    assert_eq!(cx.generation(), 0);
}

#[test]
fn use_callback_keeps_the_handle_and_takes_the_latest_body() {
    let mut cx: ScopeData<i32> = ScopeData::new();
    let first = use_callback(&mut cx, 1);
    assert_eq!(first.get(&cx), Some(&1));
    cx.begin_pass();
    let second = use_callback(&mut cx, 2);
    assert_eq!((first.slot, first.generation), (second.slot, second.generation));
    assert_eq!(first.get(&cx), Some(&2));
    assert!(!cx.is_changed());
    assert_eq!(cx.generation(), 0);
    assert!(matches!(first.memoized(&cx), MemoKey::<i32>::Generation(0)));
}

#[test]
fn use_memo_keeps_the_value_while_the_key_is_the_same() {
    let calls = Rc::new(Cell::new(0));
    let mut cx: ScopeData<i32> = ScopeData::new();
    for pass in 0..3 {
        cx.begin_pass();
        let seen = calls.clone();
        let r = use_memo(&mut cx, 5, move || {
            seen.set(seen.get() + 1);
            100 + pass
        });
        assert_eq!(r.get(&cx), Some(&100));
        assert_eq!(r.generation, 0);
    }
    assert_eq!(calls.get(), 1);
    assert!(!cx.is_changed());
}

#[test]
fn use_memo_makes_the_value_again_when_the_key_changes() {
    let calls = Rc::new(Cell::new(0));
    let mut cx: ScopeData<i32> = ScopeData::new();
    let mut seen_values = Vec::new();
    for dependency in [1, 1, 2, 2, 1] {
        cx.begin_pass();
        let seen = calls.clone();
        let r = use_memo(&mut cx, dependency, move || {
            seen.set(seen.get() + 1);
            dependency * 10 + seen.get()
        });
        seen_values.push(*r.get(&cx).unwrap());
    }
    assert_eq!(seen_values, vec![11, 11, 22, 22, 13]);
    assert_eq!(calls.get(), 3);
    assert!(!cx.is_changed());
    assert_eq!(cx.generation(), 0);
    assert_eq!(cx.len(), 1);
}

#[test]
fn use_memo_follows_the_generation_of_a_handle() {
    let calls = Rc::new(Cell::new(0));
    let mut cx: ScopeData<i32> = ScopeData::new();
    let mut rt: Runtime<Change> = Runtime::new(Updater::Immediate);
    let mut values = Vec::new();
    for pass in 0..4 {
        cx.begin_pass();
        let m = use_mut(&mut cx, || 0);
        let now = *m.get(&cx).unwrap();
        let seen = calls.clone();
        let r = use_memo(&mut cx, m, move || {
            seen.set(seen.get() + 1);
            now * 2
        });
        values.push(*r.get(&cx).unwrap());
        if pass == 1 {
            m.update(&mut cx, &mut rt, change(|v| v + 21));
        }
        if pass == 2 {
            m.with(&mut cx, &mut rt, change(|v| v + 1000));
        }
    }
    assert_eq!(values, vec![0, 0, 42, 42]);
    assert_eq!(calls.get(), 2);
}

#[test]
fn memo_key_of_a_value_is_the_value() {
    let cx: ScopeData<i32> = ScopeData::new();
    assert!(matches!(7i32.memoized(&cx), MemoKey::Value(7)));
    assert!(MemoKey::Value(7) == 7i32.memoized(&cx));
    assert!(MemoKey::Value(7) != MemoKey::Value(8));
    assert!(MemoKey::<i32>::Generation(7) != MemoKey::Value(7));
    assert!(MemoKey::<i32>::Generation(3) == MemoKey::Generation(3));
    assert!(MemoKey::<i32>::Generation(3) != MemoKey::Generation(4));
    assert!(MemoKey::Value(7).is_same(&MemoKey::Value(7)));
    assert!(!MemoKey::Value(7).is_same(&MemoKey::Generation(7)));
    assert!(MemoKey::<i32>::Generation(7).is_same(&MemoKey::Generation(7)));
    assert!(!MemoKey::<i32>::Generation(7).is_same(&MemoKey::Generation(8)));
}

#[test]
fn memo_key_of_a_handle_is_the_generation_of_the_value_now() {
    let mut cx: ScopeData<i32> = ScopeData::new();
    let mut rt: Runtime<Change> = Runtime::new(Updater::Immediate);
    let m = use_mut(&mut cx, || 1);
    assert!(matches!(m.memoized(&cx), MemoKey::Generation(0)));
    assert!(m.update(&mut cx, &mut rt, change(|v| v + 41)));
    assert_eq!(m.get(&cx), Some(&42));
    assert_eq!(m.generation, 0);
    assert!(matches!(m.memoized(&cx), MemoKey::Generation(1)));
    assert!(matches!(m.as_ref().memoized(&cx), MemoKey::Generation(1)));
    m.with(&mut cx, &mut rt, change(|v| v + 1));
    assert!(matches!(m.memoized(&cx), MemoKey::Generation(1)));
    m.update(&mut cx, &mut rt, change(|v| v + 1));
    assert!(matches!(m.memoized(&cx), MemoKey::Generation(2)));
}

#[test]
fn memo_key_of_a_handle_to_no_value_is_its_stamp() {
    let mut cx: ScopeData<i32> = ScopeData::new();
    use_drop(&mut cx, 0);
    let m = Mut { slot: 0, generation: 12 };
    assert!(matches!(m.memoized(&cx), MemoKey::Generation(12)));
    let r = Ref { slot: 9, generation: 5 };
    assert!(matches!(r.memoized(&cx), MemoKey::Generation(5)));
    let v = use_ref(&mut cx, || 3);
    assert!(matches!(Ref { slot: v.slot, generation: 8 }.memoized(&cx), MemoKey::Generation(0)));
}

#[test]
fn memo_on_a_handle_updated_in_the_same_pass_is_not_made_again_on_the_next() {
    let calls = Rc::new(Cell::new(0));
    let mut cx: ScopeData<i32> = ScopeData::new();
    let mut rt: Runtime<Change> = Runtime::new(Updater::Immediate);
    let mut values = Vec::new();
    for pass in 0..3 {
        cx.begin_pass();
        let m = use_mut(&mut cx, || 1);
        if pass == 0 {
            m.update(&mut cx, &mut rt, change(|v| v + 41));
        }
        let now = *m.get(&cx).unwrap();
        let seen = calls.clone();
        let r = use_memo(&mut cx, m, move || {
            seen.set(seen.get() + 1);
            now
        });
        values.push(*r.get(&cx).unwrap());
    }
    assert_eq!(values, vec![42, 42, 42]);
    assert_eq!(calls.get(), 1);
}

#[test]
fn use_dependency_says_when_the_key_changes() {
    let mut cx: ScopeData<i32> = ScopeData::new();
    let mut said = Vec::new();
    for dependency in [4, 4, 5, 5, 4] {
        cx.begin_pass();
        said.push(use_dependency(&mut cx, dependency));
    }
    assert_eq!(said, vec![true, false, true, false, true]);
    assert_eq!(cx.len(), 1);
    assert_eq!(cx.value(0), None);
    assert_eq!(cx.stamp(0), None);
    assert!(!cx.is_changed());
}

#[test]
fn use_dependency_follows_a_handle() {
    let mut cx: ScopeData<i32> = ScopeData::new();
    let mut rt: Runtime<Change> = Runtime::new(Updater::Immediate);
    let mut said = Vec::new();
    for pass in 0..4 {
        cx.begin_pass();
        let m = use_mut(&mut cx, || 0);
        said.push(use_dependency(&mut cx, m));
        if pass == 1 {
            m.update(&mut cx, &mut rt, change(|v| v + 1));
        }
        if pass == 2 {
            m.with(&mut cx, &mut rt, change(|v| v + 1));
        }
    }
    assert_eq!(said, vec![true, false, true, false]);
}

#[test]
fn use_context_fails_without_a_provider() {
    let cx: ScopeData<i32> = ScopeData::new();
    let err = use_context(&cx, 42).unwrap_err();
    assert_eq!(err.key(), 42);
}

#[test]
fn use_provider_provides_to_the_node_itself() {
    let mut cx: ScopeData<i32> = ScopeData::new();
    let provided = use_provider(&mut cx, 1, || 11);
    assert_eq!(*provided, 11);
    let found = use_context(&cx, 1).unwrap();
    assert!(Rc::ptr_eq(&provided, &found));
    assert_eq!(use_context(&cx, 2).unwrap_err().key(), 2);
}

#[test]
fn use_provider_makes_the_value_once() {
    let calls = Rc::new(Cell::new(0));
    let mut cx: ScopeData<i32> = ScopeData::new();
    let mut handles = Vec::new();
    for pass in 0..3 {
        cx.begin_pass();
        let seen = calls.clone();
        handles.push(use_provider(&mut cx, 1, move || {
            seen.set(seen.get() + 1);
            pass
        }));
    }
    assert_eq!(calls.get(), 1);
    assert!(Rc::ptr_eq(&handles[0], &handles[1]));
    assert!(Rc::ptr_eq(&handles[0], &handles[2]));
    assert_eq!(*handles[2], 0);
}

#[test]
fn use_context_finds_the_nearest_provider() {
    let mut root: ScopeData<i32> = ScopeData::new();
    use_provider(&mut root, 1, || 100);
    use_provider(&mut root, 2, || 200);
    let slot = use_child(&mut root, true);
    let middle = root.child_mut(slot);
    assert_eq!(*use_context(middle, 1).unwrap(), 100);
    use_provider(middle, 1, || 111);
    let slot = use_scope(middle);
    let leaf = middle.child_mut(slot);
    assert_eq!(*use_context(leaf, 1).unwrap(), 111);
    assert_eq!(*use_context(leaf, 2).unwrap(), 200);
    assert_eq!(use_context(leaf, 3).unwrap_err().key(), 3);
    assert_eq!(*use_context(&root, 1).unwrap(), 100);
}

#[test]
fn nested_node_does_not_see_what_is_provided_after_it_was_made() {
    let mut root: ScopeData<i32> = ScopeData::new();
    let slot = use_child(&mut root, true);
    use_provider(&mut root, 1, || 100);
    assert!(use_context(root.child(slot).unwrap(), 1).is_err());
    assert!(use_context(&root, 1).is_ok());
}

#[test]
fn later_provider_of_the_same_key_wins_in_one_node() {
    let mut cx: ScopeData<i32> = ScopeData::new();
    let first = use_provider(&mut cx, 1, || 1);
    let second = use_provider(&mut cx, 1, || 2);
    assert_eq!(*use_context(&cx, 1).unwrap(), 2);
    cx.begin_pass();
    assert!(Rc::ptr_eq(&first, &use_provider(&mut cx, 1, || 3)));
    assert!(Rc::ptr_eq(&second, &use_provider(&mut cx, 1, || 4)));
    assert_eq!(*use_context(&cx, 1).unwrap(), 2);
}

#[test]
fn use_drop_registers_once_and_hands_out_at_teardown() {
    let mut cx: ScopeData<i32> = ScopeData::new();
    for pass in 0..3 {
        cx.begin_pass();
        use_drop(&mut cx, 10 + pass);
        use_ref(&mut cx, || 0);
        use_drop(&mut cx, 20 + pass);
    }
    assert_eq!(cx.len(), 3);
    assert_eq!(cx.teardown(), vec![10, 20]);
}

#[test]
fn use_child_tells_the_nested_node_and_resets_its_cursor() {
    let mut cx: ScopeData<i32> = ScopeData::new();
    let slot = use_child(&mut cx, true);
    assert!(!cx.is_container());
    {
        let child = cx.child_mut(slot);
        assert!(child.is_parent_changed());
        assert_eq!(child.path(), vec![0]);
        use_ref(child, || 5);
        assert_eq!(child.cursor(), 1);
    }
    cx.begin_pass();
    let again = use_child(&mut cx, false);
    assert_eq!(again, slot);
    let child = cx.child(slot).unwrap();
    assert!(!child.is_parent_changed());
    assert_eq!(child.cursor(), 0);
    assert_eq!(child.value(0), Some(&5));
}

#[test]
fn use_scope_makes_a_container_that_hands_the_flag_on() {
    let mut cx: ScopeData<i32> = ScopeData::new();
    cx.set_parent_changed(true);
    let slot = use_scope(&mut cx);
    assert!(cx.is_container());
    assert!(cx.child(slot).unwrap().is_parent_changed());
    cx.begin_pass();
    cx.set_parent_changed(false);
    use_scope(&mut cx);
    assert!(!cx.child(slot).unwrap().is_parent_changed());
    assert_eq!(cx.len(), 1);
}
