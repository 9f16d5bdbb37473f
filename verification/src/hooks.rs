//! The hooks: what a composable calls, in the same order on every pass, to
//! keep state in the slots of its node.
//!
//! Each call uses the slot at the cursor and moves the cursor on. The first
//! pass makes the slots; a later pass finds them. A call requires that the
//! slot it finds, if it finds one, was made by the same hook: a composable
//! that skips a hook call on some passes breaks that, and nothing checks it
//! at run time.

use crate::context::{share, ContextError};
use crate::handle::{Mut, Ref};
use crate::memo::{MemoKey, Memoize};
use crate::scope::{lemma_evolves_transitive, lemma_rests_transitive, Hook, ScopeData, ScopeModel};
use std::rc::Rc;
use vstd::prelude::*;
use vstd::std_specs::cmp::PartialEqSpec;

verus! {

/// The slot at the cursor of `cx`.
pub open spec fn current<T>(cx: ScopeModel<T>) -> Hook<T> {
    cx.hooks[cx.cursor as int]
}

/// Keeps an immutable value. `make_value` is called to make the value when
/// the slot is made, and never again for this slot.
pub fn use_ref<T, M: FnOnce() -> T>(cx: &mut ScopeData<T>, make_value: M) -> (r: Ref)
    requires
        old(cx).wf(),
        old(cx)@.at_end() ==> call_requires(make_value, ()),
        !old(cx)@.at_end() ==> current(old(cx)@) is Value,
    ensures
        final(cx).wf(),
        old(cx)@.evolves(final(cx)@),
        old(cx)@.rests(final(cx)@),
        r.slot == old(cx)@.cursor,
        r.generation == 0,
        old(cx)@.at_end() ==> {
            &&& final(cx)@.hooks[old(cx)@.cursor as int] matches Hook::Value(value)
            &&& call_ensures(make_value, (), value)
            &&& final(cx)@ == old(cx)@.pushed(Hook::Value(value))
        },
        !old(cx)@.at_end() ==> final(cx)@ == old(cx)@.advanced(),
{
    let slot = if cx.at_end() {
        let value = make_value();
        cx.push_hook(Hook::Value(value))
    } else {
        cx.advance()
    };
    Ref { slot, generation: 0 }
}

/// Keeps a mutable value. `make_value` is called to make the value when the
/// slot is made, and never again for this slot. The handle is stamped with
/// the generation that the value has now.
pub fn use_mut<T, M: FnOnce() -> T>(cx: &mut ScopeData<T>, make_value: M) -> (m: Mut)
    requires
        old(cx).wf(),
        old(cx)@.at_end() ==> call_requires(make_value, ()),
        !old(cx)@.at_end() ==> current(old(cx)@) is State,
    ensures
        final(cx).wf(),
        old(cx)@.evolves(final(cx)@),
        old(cx)@.rests(final(cx)@),
        m.slot == old(cx)@.cursor,
        old(cx)@.at_end() ==> {
            &&& m.generation == 0
            &&& final(cx)@.hooks[old(cx)@.cursor as int] matches Hook::State { value, generation: 0 }
            &&& call_ensures(make_value, (), value)
            &&& final(cx)@ == old(cx)@.pushed(Hook::State { value, generation: 0 })
        },
        !old(cx)@.at_end() ==> {
            &&& m.generation == current(old(cx)@)->State_generation
            &&& final(cx)@ == old(cx)@.advanced()
        },
{
    if cx.at_end() {
        let value = make_value();
        let slot = cx.push_hook(Hook::State { value, generation: 0 });
        Mut { slot, generation: 0 }
    } else {
        let slot = cx.advance();
        let generation = match cx.hook(slot) {
            Hook::State { generation, .. } => *generation,
            _ => vstd::pervasive::unreached(),
        };
        Mut { slot, generation }
    }
}

/// Keeps a callback. The handle is the same on every pass, and what it
/// reads is the callback that was handed in on the latest pass.
pub fn use_callback<T>(cx: &mut ScopeData<T>, f: T) -> (r: Ref)
    requires
        old(cx).wf(),
        !old(cx)@.at_end() ==> current(old(cx)@) is Callback,
    ensures
        final(cx).wf(),
        old(cx)@.evolves(final(cx)@),
        old(cx)@.rests(final(cx)@),
        r.slot == old(cx)@.cursor,
        r.generation == 0,
        old(cx)@.at_end() ==> final(cx)@ == old(cx)@.pushed(Hook::Callback(f)),
        !old(cx)@.at_end() ==> final(cx)@ == old(cx)@.with_hook(
            old(cx)@.cursor as int,
            Hook::Callback(f),
        ).advanced(),
{
    let slot = if cx.at_end() {
        cx.push_hook(Hook::Callback(f))
    } else {
        let slot = cx.advance();
        cx.replace_hook(slot, Hook::Callback(f));
        slot
    };
    Ref { slot, generation: 0 }
}

/// The context value that this node sees under `key`: the one that the
/// nearest node on the way up to the root provides. An error that names the
/// key if no node on the way provides one.
pub fn use_context<T>(cx: &ScopeData<T>, key: u64) -> (r: Result<Rc<T>, ContextError>)
    requires
        cx.wf(),
    ensures
        match r {
            Ok(value) => cx@.contexts.contains_key(key) && *value == cx@.contexts[key],
            Err(e) => !cx@.contexts.contains_key(key) && e.missing() == key,
        },
{
    match cx.context(key) {
        Some(value) => Ok(value),
        None => Err(ContextError::new(key)),
    }
}

/// Provides a context value under `key` to this node and to the nodes that
/// are nested in it from now on. `make_value` is called to make the value
/// when the slot is made, and never again for this slot. A pass that finds
/// the slot gets a handle to the value that the slot holds, whatever `key`
/// it names.
pub fn use_provider<T, M: FnOnce() -> T>(cx: &mut ScopeData<T>, key: u64, make_value: M) -> (r:
    Rc<T>)
    requires
        old(cx).wf(),
        old(cx)@.at_end() ==> call_requires(make_value, ()),
        !old(cx)@.at_end() ==> current(old(cx)@) is Shared,
    ensures
        final(cx).wf(),
        old(cx)@.evolves(final(cx)@),
        old(cx)@.rests(final(cx)@),
        old(cx)@.at_end() ==> {
            &&& call_ensures(make_value, (), *r)
            &&& final(cx)@ == (ScopeModel {
                contexts: old(cx)@.contexts.insert(key, *r),
                ..old(cx)@.pushed(Hook::Shared(r))
            })
        },
        !old(cx)@.at_end() ==> {
            &&& current(old(cx)@) == Hook::Shared(r)
            &&& final(cx)@ == old(cx)@.advanced()
        },
{
    if cx.at_end() {
        let value = Rc::new(make_value());
        cx.provide(key, share(&value));
        cx.push_hook(Hook::Shared(share(&value)));
        value
    } else {
        let slot = cx.advance();
        match cx.hook(slot) {
            Hook::Shared(value) => share(value),
            _ => vstd::pervasive::unreached(),
        }
    }
}

/// Whether `post` is `pre` after the memo cell at the cursor was made, or
/// made again, for the key `key`: the cell holds the key and a value that
/// `make_value` returned, and the cursor is past it.
pub open spec fn memo_made<T, M: FnOnce() -> T>(
    pre: ScopeModel<T>,
    key: MemoKey<T>,
    make_value: M,
    post: ScopeModel<T>,
) -> bool {
    &&& post.hooks[pre.cursor as int] matches Hook::Memo { value, key: seen }
    &&& seen == key
    &&& call_ensures(make_value, (), value)
    &&& post == if pre.at_end() {
        pre.pushed(Hook::Memo { value, key })
    } else {
        pre.with_hook(pre.cursor as int, Hook::Memo { value, key }).advanced()
    }
}

/// Whether `post` is what `use_memo` makes of `pre` for a dependency with
/// the memo key `key`. Where there is no cell yet it is made. Where there is
/// one, it is kept as it is if `key` equals the key it holds, and made again
/// if not. Keys of which one at least is a generation are compared
/// exactly; two values are compared by `==` on `T`, and the outcome is
/// stated where that computes what its model says.
pub open spec fn memo_step<T: PartialEq, M: FnOnce() -> T>(
    pre: ScopeModel<T>,
    key: MemoKey<T>,
    make_value: M,
    post: ScopeModel<T>,
) -> bool {
    if pre.at_end() {
        memo_made(pre, key, make_value, post)
    } else {
        ||| {
            &&& post == pre.advanced()
            &&& key.decided(current(pre)->Memo_key) ==> key.same_as(current(pre)->Memo_key)
        }
        ||| {
            &&& memo_made(pre, key, make_value, post)
            &&& key.decided(current(pre)->Memo_key) ==> !key.same_as(current(pre)->Memo_key)
        }
    }
}

/// Keeps a value that depends on `dependency`. `make_value` is called when
/// the slot is made, and again on a pass on which the memo key of the
/// dependency differs from the key that the slot holds; the slot then holds
/// the new value and the new key. On a pass on which the keys are equal the
/// value stays. The node is never marked as changed.
pub fn use_memo<T: PartialEq, D: Memoize<T>, M: FnOnce() -> T>(
    cx: &mut ScopeData<T>,
    dependency: D,
    make_value: M,
) -> (r: Ref)
    requires
        old(cx).wf(),
        call_requires(make_value, ()),
        !old(cx)@.at_end() ==> current(old(cx)@) is Memo,
    ensures
        final(cx).wf(),
        old(cx)@.evolves(final(cx)@),
        old(cx)@.rests(final(cx)@),
        r.slot == old(cx)@.cursor,
        r.generation == 0,
        memo_step(old(cx)@, dependency.memo_key(old(cx)@), make_value, final(cx)@),
{
    let key = dependency.memoized(&*cx);
    if cx.at_end() {
        let value = make_value();
        let slot = cx.push_hook(Hook::Memo { value, key });
        Ref { slot, generation: 0 }
    } else {
        let slot = cx.advance();
        let same = match cx.hook(slot) {
            Hook::Memo { key: seen, .. } => key.is_same(seen),
            _ => vstd::pervasive::unreached(),
        };
        if !same {
            let value = make_value();
            cx.replace_hook(slot, Hook::Memo { value, key });
        }
        Ref { slot, generation: 0 }
    }
}

/// The model of `pre` after a call of `use_dependency` for the key `key`
/// that says `changed`: the cell at the cursor holds `key` where it was made
/// or the key has changed, and is as it was otherwise; the cursor is past it.
pub open spec fn with_dependency<T>(pre: ScopeModel<T>, key: MemoKey<T>, changed: bool) -> ScopeModel<
    T,
> {
    if pre.at_end() {
        pre.pushed(Hook::Dependency(key))
    } else if changed {
        pre.with_hook(pre.cursor as int, Hook::Dependency(key)).advanced()
    } else {
        pre.advanced()
    }
}

/// Whether `post` and `changed` are what `use_dependency` makes of `pre`
/// for a dependency with the memo key `key`. The dependency has changed
/// where there is no cell yet, and where there is one, if and only if `key`
/// does not equal the key that the cell holds.
pub open spec fn dependency_step<T: PartialEq>(
    pre: ScopeModel<T>,
    key: MemoKey<T>,
    post: ScopeModel<T>,
    changed: bool,
) -> bool {
    &&& pre.at_end() ==> changed
    &&& !pre.at_end() && key.decided(current(pre)->Dependency_0) ==> changed == !key.same_as(
        current(pre)->Dependency_0,
    )
    &&& post == with_dependency(pre, key, changed)
}

/// Keeps the memo key of `dependency` and says whether it has changed
/// since the last pass: whether the cell was made now, or held another key.
/// The node is never marked as changed.
pub fn use_dependency<T: PartialEq, D: Memoize<T>>(cx: &mut ScopeData<T>, dependency: D) -> (changed:
    bool)
    requires
        old(cx).wf(),
        !old(cx)@.at_end() ==> current(old(cx)@) is Dependency,
    ensures
        final(cx).wf(),
        old(cx)@.evolves(final(cx)@),
        old(cx)@.rests(final(cx)@),
        dependency_step(old(cx)@, dependency.memo_key(old(cx)@), final(cx)@, changed),
{
    let key = dependency.memoized(&*cx);
    if cx.at_end() {
        cx.push_hook(Hook::Dependency(key));
        true
    } else {
        let slot = cx.advance();
        let same = match cx.hook(slot) {
            Hook::Dependency(seen) => key.is_same(seen),
            _ => vstd::pervasive::unreached(),
        };
        if !same {
            cx.replace_hook(slot, Hook::Dependency(key));
        }
        proof {
            lemma_evolves_transitive(old(cx)@, old(cx)@.advanced(), cx@);
            lemma_rests_transitive(old(cx)@, old(cx)@.advanced(), cx@);
        }
        !same
    }
}

/// Registers `f` to be handed out, once, when the node is destroyed. Only
/// the call that makes the slot registers; on later passes `f` is dropped.
pub fn use_drop<T>(cx: &mut ScopeData<T>, f: T)
    requires
        old(cx).wf(),
        !old(cx)@.at_end() ==> current(old(cx)@) is Teardown,
    ensures
        final(cx).wf(),
        old(cx)@.evolves(final(cx)@),
        old(cx)@.rests(final(cx)@),
        old(cx)@.at_end() ==> final(cx)@ == old(cx)@.pushed(Hook::Teardown(f)),
        !old(cx)@.at_end() ==> final(cx)@ == old(cx)@.advanced(),
{
    if cx.at_end() {
        cx.push_hook(Hook::Teardown(f));
    } else {
        cx.advance();
    }
}

/// The model of the node nested at the cursor of `cx` as a pass finds it:
/// made with the context values that `cx` sees, where the slot is yet to be
/// made, and as the last pass left it otherwise; told whether its parent is
/// composed again, and with its cursor at its first slot.
pub open spec fn nested_before<T>(cx: ScopeModel<T>, parent_changed: bool) -> ScopeModel<T> {
    ScopeModel {
        is_parent_changed: parent_changed,
        cursor: 0,
        ..if cx.at_end() {
            ScopeModel::<T>::fresh(cx.contexts, cx.path.push(cx.cursor as usize))
        } else {
            current(cx)->Scope_0@
        }
    }
}

/// The model of `cx` with the node `child` nested at its cursor and the
/// cursor past it.
pub open spec fn with_nested<T>(cx: ScopeModel<T>, child: ScopeData<T>) -> ScopeModel<T> {
    if cx.at_end() {
        cx.pushed(Hook::Scope(Box::new(child)))
    } else {
        cx.with_hook(cx.cursor as int, Hook::Scope(Box::new(child))).advanced()
    }
}

/// Gets the node nested at the cursor ready for its pass. It is made, with
/// the context values that this node sees now, when the slot is made. On
/// every pass it is told whether its parent is composed again, and its
/// cursor goes back to its first slot. Returns the slot of the nested node.
pub fn use_child<T>(cx: &mut ScopeData<T>, parent_changed: bool) -> (slot: usize)
    requires
        old(cx).wf(),
        !old(cx)@.at_end() ==> current(old(cx)@) is Scope,
    ensures
        final(cx).wf(),
        old(cx)@.evolves(final(cx)@),
        old(cx)@.rests(final(cx)@),
        slot == old(cx)@.cursor,
        slot < final(cx)@.hooks.len(),
        final(cx)@.hooks[slot as int] matches Hook::Scope(child) && {
            &&& child.wf()
            &&& child@ == nested_before(old(cx)@, parent_changed)
            &&& final(cx)@ == with_nested(old(cx)@, *child)
        },
{
    let slot = if cx.at_end() {
        cx.push_child()
    } else {
        cx.advance()
    };
    let ghost pre = *cx;
    let child = cx.child_mut(slot);
    child.set_parent_changed(parent_changed);
    child.begin_pass();
    proof {
        cx.lemma_follows(&pre, slot as int, child);
    }
    slot
}

/// Makes this node a container of the node nested at the cursor: a node
/// that has no state of its own and hands on to the nested node whether its
/// own parent is composed again. The nested node is got ready as by
/// `use_child`. Returns the slot of the nested node.
pub fn use_scope<T>(cx: &mut ScopeData<T>) -> (slot: usize)
    requires
        old(cx).wf(),
        !old(cx)@.at_end() ==> current(old(cx)@) is Scope,
    ensures
        final(cx).wf(),
        old(cx)@.evolves(final(cx)@),
        old(cx)@.rests(final(cx)@),
        slot == old(cx)@.cursor,
        slot < final(cx)@.hooks.len(),
        final(cx)@.hooks[slot as int] matches Hook::Scope(child) && {
            &&& child.wf()
            &&& child@ == nested_before(old(cx)@, old(cx)@.is_parent_changed)
            &&& final(cx)@ == (ScopeModel { is_container: true, ..with_nested(old(cx)@, *child) })
        },
{
    cx.mark_container();
    let parent_changed = cx.is_parent_changed();
    let ghost marked = cx@;
    let slot = use_child(cx, parent_changed);
    proof {
        lemma_evolves_transitive(old(cx)@, marked, cx@);
        lemma_rests_transitive(old(cx)@, marked, cx@);
    }
    slot
}

} // verus!
