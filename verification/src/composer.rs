//! Composables and the composer that drives their passes.

use crate::hooks::{
    current, dependency_step, nested_before, use_child, use_dependency, use_scope, with_dependency,
    with_nested,
};
use crate::memo::Memoize;
use crate::runtime::{lemma_replayed_keeps_shape, replayed, Runtime, Update, UpdateModel, Updater};
use crate::scope::{Hook, ScopeData, ScopeModel, Shape};
use vstd::prelude::*;

verus! {

/// A unit of the tree: on every pass it is handed the state of its node and
/// the runtime, makes its hook calls, and composes what is nested in it.
pub trait Compose<T, F: FnOnce(&T) -> T> {
    /// Whether a node of the shape `shape` lines up with the hook calls
    /// that this composable makes: each call finds a slot that the same
    /// hook made, or no slot. A composable that makes hook calls says here
    /// which slots it expects; one that says nothing accepts every shape
    /// and so knows nothing of the slots it finds.
    open spec fn accepts(&self, shape: Seq<Shape>) -> bool {
        true
    }

    /// Whether one pass of this composable can lead from the node `pre` and
    /// the kept updates `kept` to the node `post` and the kept updates
    /// `keeps`, under the policy `policy`. A composable that says nothing
    /// here promises nothing of its pass.
    open spec fn pass(
        &self,
        pre: ScopeModel<T>,
        policy: Updater,
        kept: Seq<UpdateModel<F>>,
        post: ScopeModel<T>,
        keeps: Seq<UpdateModel<F>>,
    ) -> bool {
        true
    }

    /// One pass over this composable, with the cursor of its node at the
    /// first slot.
    fn compose(&self, cx: &mut ScopeData<T>, rt: &mut Runtime<F>)
        requires
            old(cx).wf(),
            old(cx)@.cursor == 0,
            self.accepts(old(cx).shape()),
            old(rt).wf::<T>(),
            old(rt).active(),
        ensures
            final(cx).wf(),
            final(cx)@.path == old(cx)@.path,
            self.accepts(final(cx).shape()),
            final(rt).wf::<T>(),
            final(rt).active(),
            final(rt).policy() == old(rt).policy(),
            self.pass(old(cx)@, old(rt).policy(), old(rt).queue(), final(cx)@, final(rt).queue()),
    ;
}

/// The composable without content: it makes no hook call and marks its node
/// as empty.
impl<T, F: FnOnce(&T) -> T> Compose<T, F> for () {
    open spec fn accepts(&self, shape: Seq<Shape>) -> bool {
        true
    }

    open spec fn pass(
        &self,
        pre: ScopeModel<T>,
        policy: Updater,
        kept: Seq<UpdateModel<F>>,
        post: ScopeModel<T>,
        keeps: Seq<UpdateModel<F>>,
    ) -> bool {
        post == (ScopeModel { is_empty: true, ..pre }) && keeps == kept
    }

    fn compose(&self, cx: &mut ScopeData<T>, rt: &mut Runtime<F>) {
        cx.set_empty(true);
    }
}

/// Composes `content` in the node nested at the cursor of `cx`, which is
/// made or found by `use_child` and told `parent_changed`.
pub fn compose_child<T, F: FnOnce(&T) -> T, C: Compose<T, F>>(
    content: &C,
    cx: &mut ScopeData<T>,
    rt: &mut Runtime<F>,
    parent_changed: bool,
)
    requires
        old(cx).wf(),
        old(rt).wf::<T>(),
        old(rt).active(),
        old(cx)@.at_end() ==> content.accepts(Seq::empty()),
        !old(cx)@.at_end() ==> (current(old(cx)@) matches Hook::Scope(child) && content.accepts(
            child.shape(),
        )),
    ensures
        final(cx).wf(),
        old(cx)@.path == final(cx)@.path,
        final(rt).wf::<T>(),
        final(rt).active(),
        final(rt).policy() == old(rt).policy(),
        final(cx)@.hooks[old(cx)@.cursor as int] matches Hook::Scope(child) && {
            &&& child.wf()
            &&& content.accepts(child.shape())
            &&& content.pass(
                nested_before(old(cx)@, parent_changed),
                old(rt).policy(),
                old(rt).queue(),
                child@,
                final(rt).queue(),
            )
            &&& final(cx)@ == with_nested(old(cx)@, *child)
        },
{
    let slot = use_child(cx, parent_changed);
    let ghost pre = *cx;
    let child = cx.child_mut(slot);
    proof {
        child.lemma_shape();
        if old(cx)@.at_end() {
            assert(child.shape() =~= Seq::empty());
        } else {
            child.lemma_shape_of_model(&*current(old(cx)@)->Scope_0);
        }
    }
    content.compose(child, rt);
    proof {
        cx.lemma_follows(&pre, slot as int, child);
    }
}

/// Composes `content` in the node nested at the cursor of `cx` and makes
/// `cx` a container: the nested node is made or found by `use_scope`.
pub fn compose_nested<T, F: FnOnce(&T) -> T, C: Compose<T, F>>(
    content: &C,
    cx: &mut ScopeData<T>,
    rt: &mut Runtime<F>,
)
    requires
        old(cx).wf(),
        old(rt).wf::<T>(),
        old(rt).active(),
        old(cx)@.at_end() ==> content.accepts(Seq::empty()),
        !old(cx)@.at_end() ==> (current(old(cx)@) matches Hook::Scope(child) && content.accepts(
            child.shape(),
        )),
    ensures
        final(cx).wf(),
        old(cx)@.path == final(cx)@.path,
        final(rt).wf::<T>(),
        final(rt).active(),
        final(rt).policy() == old(rt).policy(),
        final(cx)@.hooks[old(cx)@.cursor as int] matches Hook::Scope(child) && {
            &&& child.wf()
            &&& content.accepts(child.shape())
            &&& content.pass(
                nested_before(old(cx)@, old(cx)@.is_parent_changed),
                old(rt).policy(),
                old(rt).queue(),
                child@,
                final(rt).queue(),
            )
            &&& final(cx)@ == (ScopeModel { is_container: true, ..with_nested(old(cx)@, *child) })
        },
{
    let slot = use_scope(cx);
    let ghost pre = *cx;
    let child = cx.child_mut(slot);
    proof {
        child.lemma_shape();
        if old(cx)@.at_end() {
            assert(child.shape() =~= Seq::empty());
        } else {
            child.lemma_shape_of_model(&*current(old(cx)@)->Scope_0);
        }
    }
    content.compose(child, rt);
    proof {
        cx.lemma_follows(&pre, slot as int, child);
    }
}

/// The model of the container `cx` of a memoized node once the key `key` of
/// its dependency is kept, `changed` saying whether the key has changed.
pub open spec fn memo_container<T>(cx: ScopeModel<T>, key: crate::memo::MemoKey<T>, changed: bool) -> ScopeModel<
    T,
> {
    ScopeModel { is_container: true, ..with_dependency(cx, key, changed) }
}

/// Composes `content` in a node that is memoized on `dependency`: `cx`
/// becomes a container that keeps the memo key of the dependency and, behind
/// it, the nested node. The nested node is told that its parent is composed
/// again if the key has changed since the last pass or the parent of `cx`
/// is composed again, and `content` makes its pass over it. Returns whether
/// the key has changed.
pub fn compose_memo<T: PartialEq, F: FnOnce(&T) -> T, D: Memoize<T>, C: Compose<T, F>>(
    content: &C,
    dependency: D,
    cx: &mut ScopeData<T>,
    rt: &mut Runtime<F>,
) -> (changed: bool)
    requires
        old(cx).wf(),
        old(rt).wf::<T>(),
        old(rt).active(),
        !old(cx)@.at_end() ==> current(old(cx)@) is Dependency,
        old(cx)@.hooks.len() <= old(cx)@.cursor + 1 ==> content.accepts(Seq::empty()),
        old(cx)@.hooks.len() > old(cx)@.cursor + 1 ==> (old(cx)@.hooks[old(cx)@.cursor as int + 1] matches Hook::Scope(
            child,
        ) && content.accepts(child.shape())),
    ensures
        final(cx).wf(),
        old(cx)@.path == final(cx)@.path,
        final(rt).wf::<T>(),
        final(rt).active(),
        final(rt).policy() == old(rt).policy(),
        dependency_step(
            old(cx)@,
            dependency.memo_key(old(cx)@),
            with_dependency(old(cx)@, dependency.memo_key(old(cx)@), changed),
            changed,
        ),
        final(cx)@.hooks[old(cx)@.cursor as int + 1] matches Hook::Scope(child) && {
            let kept = memo_container(old(cx)@, dependency.memo_key(old(cx)@), changed);
            &&& child.wf()
            &&& content.accepts(child.shape())
            &&& content.pass(
                nested_before(kept, changed || old(cx)@.is_parent_changed),
                old(rt).policy(),
                old(rt).queue(),
                child@,
                final(rt).queue(),
            )
            &&& final(cx)@ == with_nested(kept, *child)
        },
{
    proof {
        cx.lemma_wf();
    }
    let changed = use_dependency(cx, dependency);
    cx.mark_container();
    let again = changed || cx.is_parent_changed();
    compose_child(content, cx, rt, again);
    changed
}

/// Owns the root composable, the state of its node and the runtime, and
/// drives the passes.
pub struct Composer<C, T, F> {
    compose: C,
    scope_state: ScopeData<T>,
    rt: Runtime<F>,
}

impl<T, F: FnOnce(&T) -> T, C: Compose<T, F>> Composer<C, T, F> {
    /// The root composable.
    pub closed spec fn content(&self) -> C {
        self.compose
    }

    /// The state of the root node.
    pub closed spec fn root(&self) -> ScopeData<T> {
        self.scope_state
    }

    /// The runtime.
    pub closed spec fn runtime(&self) -> Runtime<F> {
        self.rt
    }

    /// The invariant of a composer: the root node is well formed, is the
    /// root, and lines up with the root composable; the runtime is well
    /// formed.
    pub open spec fn wf(&self) -> bool {
        &&& self.root().wf()
        &&& self.root()@.path == Seq::<usize>::empty()
        &&& self.content().accepts(self.root().shape())
        &&& self.runtime().wf::<T>()
    }

    /// A composer for `content` whose runtime applies every update at once.
    pub fn new(content: C) -> (composer: Self)
        requires
            content.accepts(Seq::empty()),
        ensures
            composer.wf(),
            composer.content() == content,
            composer.root()@ == ScopeModel::<T>::fresh(Map::empty(), Seq::empty()),
            composer.runtime().policy() == Updater::Immediate,
            !composer.runtime().active(),
            composer.runtime().queue() == Seq::<UpdateModel<F>>::empty(),
    {
        Composer::with_updater(content, Updater::default())
    }

    /// A composer for `content` whose runtime does with an update what
    /// `updater` says.
    pub fn with_updater(content: C, updater: Updater) -> (composer: Self)
        requires
            content.accepts(Seq::empty()),
        ensures
            composer.wf(),
            composer.content() == content,
            composer.root()@ == ScopeModel::<T>::fresh(Map::empty(), Seq::empty()),
            composer.runtime().policy() == updater,
            !composer.runtime().active(),
            composer.runtime().queue() == Seq::<UpdateModel<F>>::empty(),
    {
        let composer = Composer {
            compose: content,
            scope_state: ScopeData::new(),
            rt: Runtime::new(updater),
        };
        proof {
            composer.scope_state.lemma_shape();
            assert(composer.scope_state.shape() =~= Seq::empty());
        }
        composer
    }

    /// One pass: enters the runtime, puts the cursor of the root node at its
    /// first slot, lets the root composable make its pass, and leaves the
    /// runtime.
    pub fn compose(&mut self)
        requires
            old(self).wf(),
        ensures
            final(self).wf(),
            final(self).content() == old(self).content(),
            final(self).runtime().policy() == old(self).runtime().policy(),
            !final(self).runtime().active(),
            old(self).content().pass(
                ScopeModel { cursor: 0, ..old(self).root()@ },
                old(self).runtime().policy(),
                old(self).runtime().queue(),
                final(self).root()@,
                final(self).runtime().queue(),
            ),
    {
        self.rt.enter();
        self.scope_state.begin_pass();
        proof {
            self.scope_state.lemma_shape_of_model(&old(self).scope_state);
        }
        self.compose.compose(&mut self.scope_state, &mut self.rt);
        self.rt.leave();
    }

    /// Hands the runtime an update of the tree, as an event handler does
    /// between passes. An immediate runtime applies it at once and says
    /// whether the tree accepted it; a queued one keeps it.
    pub fn update(&mut self, update: Update<F>) -> (applied: bool)
        requires
            old(self).wf(),
            update@.total::<T>(),
        ensures
            final(self).wf(),
            final(self).content() == old(self).content(),
            old(self).runtime().takes(
                &final(self).runtime(),
                old(self).root(),
                final(self).root(),
                update@,
                applied,
            ),
    {
        self.rt.update(&mut self.scope_state, update)
    }

    /// Applies the updates that the runtime has kept to the tree, oldest
    /// first, and returns how many of them were accepted.
    pub fn flush(&mut self) -> (accepted: usize)
        requires
            old(self).wf(),
        ensures
            final(self).wf(),
            final(self).content() == old(self).content(),
            final(self).runtime().policy() == old(self).runtime().policy(),
            final(self).runtime().active() == old(self).runtime().active(),
            old(self).runtime().active() ==> {
                &&& accepted == 0
                &&& final(self).runtime().queue() == old(self).runtime().queue()
                &&& final(self).root() == old(self).root()
            },
            !old(self).runtime().active() ==> {
                &&& final(self).runtime().queue().len() == 0
                &&& replayed(
                    old(self).runtime().queue(),
                    old(self).root(),
                    final(self).root(),
                    accepted as nat,
                )
            },
    {
        let accepted = self.rt.flush(&mut self.scope_state);
        proof {
            if !old(self).rt.active() {
                lemma_replayed_keeps_shape(
                    old(self).rt.queue(),
                    old(self).scope_state,
                    self.scope_state,
                    accepted as nat,
                );
            }
        }
        accepted
    }

    /// Ends the session: destroys the tree and hands out what its teardown
    /// hooks hold, each once, for the caller to run in this order. The
    /// updates that the runtime has kept are dropped with it.
    pub fn teardown(self) -> (out: Vec<T>)
        requires
            self.wf(),
        ensures
            out@ == self.root().teardown_order(),
    {
        self.scope_state.teardown()
    }

    /// The state of the root node.
    pub fn scope(&self) -> (cx: &ScopeData<T>)
        ensures
            *cx == self.root(),
    {
        &self.scope_state
    }

    /// The number of updates that the runtime has kept.
    pub fn pending(&self) -> (n: usize)
        ensures
            n == self.runtime().queue().len(),
    {
        self.rt.pending()
    }
}

} // verus!
