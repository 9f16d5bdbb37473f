//! What holds of the library whatever a composable does with it.
//!
//! Each law is stated over the models and spec functions that the contracts
//! of the hooks, the handles and the runtime speak of, so it applies to
//! whatever those contracts say of a call.

use crate::handle::Mut;
use crate::composer::memo_container;
use crate::hooks::{current, dependency_step, memo_made, memo_step, nested_before};
use crate::memo::{MemoKey, Memoize};
use crate::runtime::{applied_at, target, UpdateModel};
use crate::scope::{own_teardowns, teardown_slots, Hook, ScopeData, ScopeModel};
use vstd::prelude::*;
use vstd::std_specs::cmp::PartialEqSpec;

verus! {

/// A node can become what it is.
pub proof fn law_evolves_reflexive<T>(cx: ScopeModel<T>)
    ensures
        cx.evolves(cx),
{
}

/// What `use_ref` keeps is kept for good: after any number of passes and
/// updates the slot holds the value that was made when the slot was made,
/// and a handle to it is still current.
pub proof fn law_ref_is_kept<T>(pre: ScopeModel<T>, post: ScopeModel<T>, slot: int)
    requires
        pre.evolves(post),
        0 <= slot < pre.hooks.len(),
        pre.hooks[slot] is Value,
    ensures
        post.hooks[slot] == pre.hooks[slot],
        post.value_at(slot) == pre.value_at(slot),
        post.stamp_at(slot) == Some(0u64),
{
    assert(pre.hooks[slot].kept_by(post.hooks[slot]));
}

/// On a pass that finds the slot, `use_ref` makes no value: the slots stay
/// as they are, whatever `make_value` would return.
pub proof fn law_ref_is_made_once<T>(cx: ScopeModel<T>)
    requires
        !cx.at_end(),
    ensures
        cx.advanced().hooks == cx.hooks,
        cx.advanced().value_at(cx.cursor as int) == cx.value_at(cx.cursor as int),
{
}

/// An accepted update that marks a change puts the new value in the slot,
/// counts exactly one more generation of the value and of the node, and
/// marks the node as changed. It leaves every other slot as it is.
pub proof fn law_update_counts<T>(cx: ScopeModel<T>, slot: int, value: T)
    requires
        cx.accepts_update(slot, true),
    ensures
        ({
            let after = cx.after_update(slot, true, value);
            &&& after.hooks[slot] == (Hook::State {
                value,
                generation: (cx.hooks[slot]->State_generation + 1) as u64,
            })
            &&& after.stamp_at(slot) == Some((cx.hooks[slot]->State_generation + 1) as u64)
            &&& cx.hooks[slot]->State_generation + 1 <= u64::MAX
            &&& after.generation == cx.generation + 1
            &&& after.is_changed
            &&& after.hooks.len() == cx.hooks.len()
            &&& forall|other: int|
                0 <= other < cx.hooks.len() && other != slot ==> after.hooks[other]
                    == cx.hooks[other]
        }),
{
}

/// An accepted update that marks no change puts the new value in the slot
/// and counts nothing: the generation of the value, the generation of the
/// node and the mark of the node are what they were.
pub proof fn law_with_counts_nothing<T>(cx: ScopeModel<T>, slot: int, value: T)
    requires
        cx.accepts_update(slot, false),
    ensures
        ({
            let after = cx.after_update(slot, false, value);
            &&& after.hooks[slot] == (Hook::State {
                value,
                generation: cx.hooks[slot]->State_generation,
            })
            &&& after.stamp_at(slot) == cx.stamp_at(slot)
            &&& after.generation == cx.generation
            &&& after.is_changed == cx.is_changed
            &&& after.hooks.len() == cx.hooks.len()
            &&& forall|other: int|
                0 <= other < cx.hooks.len() && other != slot ==> after.hooks[other]
                    == cx.hooks[other]
        }),
{
}

/// What a handle asks for happens in the node that the handle was used
/// with: if that node accepts an update of the slot, the node is the node
/// after that update, for a value that `f` returned for the old value; if
/// not, the node is as it was.
pub proof fn law_update_is_local<T, F: FnOnce(&T) -> T>(
    m: Mut,
    marks: bool,
    f: F,
    pre: ScopeData<T>,
    post: ScopeData<T>,
)
    requires
        m.request(pre, marks, f).steps(pre, post),
    ensures
        m.request(pre, marks, f).accepted_by(pre) == pre@.accepts_update(m.slot as int, marks),
        pre@.accepts_update(m.slot as int, marks) ==> exists|value: T|
            {
                &&& #[trigger] call_ensures(f, (&pre@.hooks[m.slot as int]->State_value,), value)
                &&& post@ == pre@.after_update(m.slot as int, marks, value)
            },
        !pre@.accepts_update(m.slot as int, marks) ==> post == pre,
{
    let update = m.request(pre, marks, f);
    assert(pre@.path.is_prefix_of(update.path));
    assert(target(pre, update.path, pre@.path.len()) == Some(pre));
    if update.accepted_by(pre) {
        let value = choose|value: T|
            {
                &&& #[trigger] call_ensures(update.f, (&update.old_value(pre),), value)
                &&& applied_at(
                    pre,
                    post,
                    update.path,
                    pre@.path.len(),
                    update.slot as int,
                    update.marks,
                    value,
                )
            };
        assert(call_ensures(f, (&pre@.hooks[m.slot as int]->State_value,), value));
    }
}

/// Two calls of `use_memo` on one memo cell, with nothing in between that
/// touches the cell, where equality on `T` is an equivalence that `==`
/// computes. If the key of the second call equals the key of the first, the
/// second call keeps the cell as the first left it: the value is the same
/// value. If it does not, the second call makes the cell again: the cell
/// holds the key of the second call and a value that its `make_value`
/// returned.
pub proof fn law_memo_consecutive<T: PartialEq, M1: FnOnce() -> T, M2: FnOnce() -> T>(
    first: ScopeModel<T>,
    key1: MemoKey<T>,
    make1: M1,
    between: ScopeModel<T>,
    second: ScopeModel<T>,
    key2: MemoKey<T>,
    make2: M2,
    last: ScopeModel<T>,
)
    requires
        vstd::laws_eq::obeys_eq::<T>(),
        key1 matches MemoKey::Value(v) ==> v.eq_spec(&v),
        first.cursor <= first.hooks.len(),
        !first.at_end() ==> current(first) is Memo,
        memo_step(first, key1, make1, between),
        second.cursor == first.cursor,
        second.cursor < second.hooks.len(),
        current(second) == between.hooks[first.cursor as int],
        memo_step(second, key2, make2, last),
    ensures
        key2.same_as(key1) ==> last == second.advanced() && last.hooks[second.cursor as int]
            == between.hooks[first.cursor as int],
        !key2.same_as(key1) ==> memo_made(second, key2, make2, last),
{
    reveal(vstd::laws_eq::obeys_eq_spec_properties);
    let seen = between.hooks[first.cursor as int]->Memo_key;
    assert(key1.same_as(seen)) by {
        if memo_made(first, key1, make1, between) {
            assert(seen == key1);
        }
    }
    lemma_same_as_equivalence(key1, seen, key2);
}

/// Two calls of `use_memo` on one memo cell for handles, with nothing in
/// between that touches the cell, whatever `==` on `T` computes. If the
/// value behind the handle is at the same generation at both calls, the
/// second call keeps the cell as the first left it; if not, it makes the
/// cell again.
pub proof fn law_memo_follows_generation<T: PartialEq, M1: FnOnce() -> T, M2: FnOnce() -> T>(
    first: ScopeModel<T>,
    generation1: u64,
    make1: M1,
    between: ScopeModel<T>,
    second: ScopeModel<T>,
    generation2: u64,
    make2: M2,
    last: ScopeModel<T>,
)
    requires
        first.cursor <= first.hooks.len(),
        !first.at_end() ==> current(first) is Memo,
        memo_step(first, MemoKey::Generation(generation1), make1, between),
        second.cursor == first.cursor,
        second.cursor < second.hooks.len(),
        current(second) == between.hooks[first.cursor as int],
        memo_step(second, MemoKey::Generation(generation2), make2, last),
    ensures
        between.hooks[first.cursor as int]->Memo_key == MemoKey::<T>::Generation(generation1),
        generation2 == generation1 ==> last == second.advanced() && last.hooks[second.cursor as int]
            == between.hooks[first.cursor as int],
        generation2 != generation1 ==> memo_made(
            second,
            MemoKey::Generation(generation2),
            make2,
            last,
        ),
{
    let key1 = MemoKey::<T>::Generation(generation1);
    if !first.at_end() {
        assert(key1.decided(current(first)->Memo_key));
    }
    let seen = between.hooks[first.cursor as int]->Memo_key;
    assert(seen == key1);
    assert(MemoKey::<T>::Generation(generation2).decided(seen));
}

/// The memo key of a handle to a mutable value follows the value: after an
/// accepted update that marks a change it is one generation on, and after
/// one that marks none it is what it was, whatever stamp the handle has.
pub proof fn law_memo_key_is_live<T>(m: Mut, cx: ScopeModel<T>, value: T)
    requires
        cx.accepts_update(m.slot as int, false),
    ensures
        Memoize::<T>::memo_key(m, cx) == MemoKey::<T>::Generation(
            cx.hooks[m.slot as int]->State_generation,
        ),
        Memoize::<T>::memo_key(m, cx.after_update(m.slot as int, false, value))
            == Memoize::<T>::memo_key(m, cx),
        cx.accepts_update(m.slot as int, true) ==> Memoize::<T>::memo_key(
            m,
            cx.after_update(m.slot as int, true, value),
        ) == MemoKey::<T>::Generation((cx.hooks[m.slot as int]->State_generation + 1) as u64),
        Memoize::<T>::memo_key(m.as_ref_spec(), cx) == Memoize::<T>::memo_key(m, cx),
{
}

/// Equality of keys is symmetric and transitive where that of values is.
proof fn lemma_same_as_equivalence<T: PartialEq>(a: MemoKey<T>, b: MemoKey<T>, c: MemoKey<T>)
    requires
        vstd::laws_eq::obeys_eq::<T>(),
    ensures
        a.same_as(b) <==> b.same_as(a),
        a.same_as(b) && b.same_as(c) ==> a.same_as(c),
        c.same_as(a) && a.same_as(b) ==> c.same_as(b),
        a.same_as(b) && c.same_as(b) ==> c.same_as(a),
{
    reveal(vstd::laws_eq::obeys_eq_spec_properties);
    match (a, b, c) {
        (MemoKey::Value(x), MemoKey::Value(y), MemoKey::Value(z)) => {
            assert(x.eq_spec(&y) <==> y.eq_spec(&x));
            assert(y.eq_spec(&z) <==> z.eq_spec(&y));
            assert(x.eq_spec(&z) <==> z.eq_spec(&x));
            assert(x.eq_spec(&y) && y.eq_spec(&z) ==> x.eq_spec(&z));
            assert(z.eq_spec(&x) && x.eq_spec(&y) ==> z.eq_spec(&y));
            assert(z.eq_spec(&y) && y.eq_spec(&x) ==> z.eq_spec(&x));
        },
        _ => {},
    }
}

/// A nested node that was marked as changed is composed again on the next
/// pass, whatever it is told of its parent: a node that marks itself on
/// every compose step is composed on every pass.
pub proof fn law_marked_child_is_composed_again<T>(cx: ScopeModel<T>, parent_changed: bool)
    requires
        !cx.at_end(),
        current(cx) is Scope,
        current(cx)->Scope_0@.is_changed,
    ensures
        nested_before(cx, parent_changed).composes_again(),
{
}

/// A node that has slots and is not marked as changed stays so through any
/// number of passes in which nothing marks it.
pub proof fn law_node_at_rest_stays_at_rest<T>(pre: ScopeModel<T>, post: ScopeModel<T>)
    requires
        pre.hooks.len() > 0,
        !pre.is_changed,
        pre.rests(post),
    ensures
        post.hooks.len() > 0,
        !post.is_changed,
{
}

/// Whether the container `cx` of a memoized node, with its cursor at the
/// cell of the dependency, finds the dependency at the key `key` that the
/// cell holds, is not itself told that its parent is composed again, and
/// holds the nested node `child` behind the cell.
pub open spec fn finds_unchanged<T: PartialEq>(
    cx: ScopeModel<T>,
    key: MemoKey<T>,
    child: ScopeModel<T>,
) -> bool {
    &&& !cx.at_end()
    &&& current(cx) is Dependency
    &&& key.decided(current(cx)->Dependency_0)
    &&& key.same_as(current(cx)->Dependency_0)
    &&& !cx.is_parent_changed
    &&& cx.cursor + 1 < cx.hooks.len()
    &&& cx.hooks[cx.cursor as int + 1] is Scope
    &&& cx.hooks[cx.cursor as int + 1]->Scope_0@ == child
}

/// What a pass of `compose_memo` over the container `cx` hands to the
/// nested node where the dependency has not changed.
pub open spec fn handed_unchanged<T>(cx: ScopeModel<T>, key: MemoKey<T>) -> ScopeModel<T> {
    nested_before(memo_container(cx, key, false), cx.is_parent_changed)
}

/// On a pass that finds the dependency of a memoized node unchanged, the
/// key is reported as unchanged and kept as it is, and the nested node is
/// handed on as the last pass left it, told that its parent is not composed
/// again. If it has been composed before and nothing has marked it since,
/// it is not composed again.
pub proof fn law_memoized_child_is_skipped<T: PartialEq>(
    cx: ScopeModel<T>,
    key: MemoKey<T>,
    child: ScopeModel<T>,
    after: ScopeModel<T>,
    changed: bool,
)
    requires
        finds_unchanged(cx, key, child),
        dependency_step(cx, key, after, changed),
    ensures
        !changed,
        after == cx.advanced(),
        handed_unchanged(cx, key) == (ScopeModel { is_parent_changed: false, cursor: 0, ..child }),
        child.hooks.len() > 0 && !child.is_changed ==> !handed_unchanged(cx, key).composes_again(),
{
}

/// A memoized node is composed once, however many passes follow. Let the
/// nested node be `children[0]` after its first pass, in which it was
/// composed: it has slots, and nothing has marked it as changed. Let
/// `containers[k]` be its container at the start of the pass `k` after
/// that, and `children[k + 1]` the nested node after that pass. If every
/// pass finds the dependency unchanged and the nested node as the pass
/// before left it, and no pass marks the nested node as changed, then on no
/// pass is the nested node composed again.
pub proof fn law_memoized_child_composes_once<T: PartialEq>(
    containers: Seq<ScopeModel<T>>,
    keys: Seq<MemoKey<T>>,
    children: Seq<ScopeModel<T>>,
    pass: int,
)
    requires
        keys.len() == containers.len(),
        children.len() == containers.len() + 1,
        children[0].hooks.len() > 0,
        !children[0].is_changed,
        forall|k: int|
            0 <= k < containers.len() ==> #[trigger] finds_unchanged(
                containers[k],
                keys[k],
                children[k],
            ),
        forall|k: int|
            0 <= k < containers.len() ==> (#[trigger] handed_unchanged(
                containers[k],
                keys[k],
            )).rests(children[k + 1]),
        0 <= pass < containers.len(),
    ensures
        children[pass].hooks.len() > 0,
        !children[pass].is_changed,
        !handed_unchanged(containers[pass], keys[pass]).composes_again(),
        children[pass + 1].hooks.len() > 0,
        !children[pass + 1].is_changed,
    decreases pass,
{
    if pass > 0 {
        law_memoized_child_composes_once(containers, keys, children, pass - 1);
    }
    assert(finds_unchanged(containers[pass], keys[pass], children[pass]));
    assert(handed_unchanged(containers[pass], keys[pass]).rests(children[pass + 1]));
}

/// The context values that a node sees after it has provided `entries`, in
/// this order, on top of the values `inherited` that it saw when it was made.
pub open spec fn provide_all<T>(inherited: Map<u64, T>, entries: Seq<(u64, T)>) -> Map<u64, T>
    decreases entries.len(),
{
    if entries.len() == 0 {
        inherited
    } else {
        provide_all(inherited, entries.drop_last()).insert(entries.last().0, entries.last().1)
    }
}

/// The place of the last of `entries` that provides `key`, if one does.
pub open spec fn last_provider<T>(entries: Seq<(u64, T)>, key: u64) -> Option<int>
    decreases entries.len(),
{
    if entries.len() == 0 {
        None
    } else if entries.last().0 == key {
        Some(entries.len() - 1)
    } else {
        last_provider(entries.drop_last(), key)
    }
}

/// What `last_provider` finds is the last entry with the key; it finds
/// nothing only where no entry has the key.
pub proof fn law_last_provider<T>(entries: Seq<(u64, T)>, key: u64)
    ensures
        match last_provider(entries, key) {
            Some(i) => {
                &&& 0 <= i < entries.len()
                &&& entries[i].0 == key
                &&& forall|j: int| i < j < entries.len() ==> (#[trigger] entries[j]).0 != key
            },
            None => forall|j: int| 0 <= j < entries.len() ==> (#[trigger] entries[j]).0 != key,
        },
    decreases entries.len(),
{
    if entries.len() > 0 && entries.last().0 != key {
        law_last_provider(entries.drop_last(), key);
        assert forall|j: int| 0 <= j < entries.len() - 1 implies entries[j]
            == entries.drop_last()[j] by {}
    }
}

/// A lookup finds the value of the nearest provider: the last value that
/// the node itself has provided under the key; if it has provided none, the
/// value that it inherited from the nodes around it; and nothing only where
/// neither the node nor a node around it has provided one.
pub proof fn law_context_is_nearest<T>(inherited: Map<u64, T>, entries: Seq<(u64, T)>, key: u64)
    ensures
        ({
            let seen = provide_all(inherited, entries);
            match last_provider(entries, key) {
                Some(i) => seen.contains_key(key) && seen[key] == entries[i].1,
                None => {
                    &&& seen.contains_key(key) == inherited.contains_key(key)
                    &&& inherited.contains_key(key) ==> seen[key] == inherited[key]
                },
            }
        }),
    decreases entries.len(),
{
    if entries.len() > 0 {
        law_context_is_nearest(inherited, entries.drop_last(), key);
        law_last_provider(entries.drop_last(), key);
        if entries.last().0 != key {
            match last_provider(entries.drop_last(), key) {
                Some(i) => {
                    assert(entries.drop_last()[i] == entries[i]);
                },
                None => {},
            }
        }
    }
}

/// Every teardown slot is registered exactly once, in slot order, with
/// what it holds; nothing else is registered.
pub proof fn law_teardowns_once<T>(hooks: Seq<Hook<T>>)
    requires
        hooks.len() <= usize::MAX,
    ensures
        teardown_slots(hooks).len() == own_teardowns(hooks).len(),
        forall|k: int|
            0 <= k < teardown_slots(hooks).len() ==> {
                &&& (#[trigger] teardown_slots(hooks)[k]) < hooks.len()
                &&& hooks[teardown_slots(hooks)[k] as int] == Hook::Teardown(own_teardowns(hooks)[k])
            },
        forall|k1: int, k2: int|
            0 <= k1 < k2 < teardown_slots(hooks).len() ==> (#[trigger] teardown_slots(hooks)[k1])
                < (#[trigger] teardown_slots(hooks)[k2]),
        forall|i: int|
            0 <= i < hooks.len() && (#[trigger] hooks[i]) is Teardown ==> teardown_slots(
                hooks,
            ).contains(i as usize),
    decreases hooks.len(),
{
    if hooks.len() > 0 {
        let rest = hooks.drop_last();
        law_teardowns_once(rest);
        let slots = teardown_slots(hooks);
        let before = teardown_slots(rest);
        assert forall|i: int| 0 <= i < hooks.len() && (#[trigger] hooks[i]) is Teardown implies slots.contains(
            i as usize,
        ) by {
            if i < rest.len() {
                assert(rest[i] is Teardown);
                let k = choose|k: int| 0 <= k < before.len() && before[k] == i as usize;
                assert(slots[k] == i as usize);
            } else {
                assert(slots[slots.len() - 1] == i as usize);
            }
        }
    }
}

/// Passes and updates hand out no teardown and lose none: what a node has
/// registered stays registered, in the same order, before whatever is
/// registered later.
pub proof fn law_teardowns_survive<T>(pre: ScopeModel<T>, post: ScopeModel<T>)
    requires
        pre.evolves(post),
    ensures
        own_teardowns(pre.hooks).is_prefix_of(own_teardowns(post.hooks)),
{
    lemma_teardowns_of_kept(pre.hooks, post.hooks.take(pre.hooks.len() as int));
    lemma_teardowns_of_prefix(post.hooks, pre.hooks.len() as int);
}

/// Slots that are kept register the same teardowns.
proof fn lemma_teardowns_of_kept<T>(before: Seq<Hook<T>>, after: Seq<Hook<T>>)
    requires
        before.len() == after.len(),
        forall|i: int| 0 <= i < before.len() ==> #[trigger] before[i].kept_by(after[i]),
    ensures
        own_teardowns(before) == own_teardowns(after),
    decreases before.len(),
{
    if before.len() > 0 {
        assert(before.last().kept_by(after.last()));
        assert forall|i: int| 0 <= i < before.len() - 1 implies #[trigger] before.drop_last()[i].kept_by(
            after.drop_last()[i],
        ) by {
            assert(before[i].kept_by(after[i]));
        }
        lemma_teardowns_of_kept(before.drop_last(), after.drop_last());
    }
}

/// The teardowns of the first slots come first among the teardowns of all.
proof fn lemma_teardowns_of_prefix<T>(hooks: Seq<Hook<T>>, n: int)
    requires
        0 <= n <= hooks.len(),
    ensures
        own_teardowns(hooks.take(n)).is_prefix_of(own_teardowns(hooks)),
    decreases hooks.len() - n,
{
    if n == hooks.len() {
        assert(hooks.take(n) =~= hooks);
    } else {
        lemma_teardowns_of_prefix(hooks.drop_last(), n);
        assert(hooks.drop_last().take(n) =~= hooks.take(n));
    }
}

} // verus!
