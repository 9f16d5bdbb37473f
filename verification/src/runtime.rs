//! Deferred mutations and the runtime that schedules them.

use crate::scope::{lemma_evolves_transitive, Hook, ScopeData, ScopeModel};
use std::collections::VecDeque;
use vstd::prelude::*;

verus! {

/// What a runtime does with an update that it is handed.
#[derive(Clone, Copy, Debug)]
pub enum Updater {
    /// Apply it at once. A hook that reads the value later in the same pass
    /// sees the new value.
    Immediate,
    /// Keep it, and apply the kept updates in the order in which they came
    /// once the pass is over.
    Queued,
}

impl Default for Updater {
    /// Updates are applied at once unless a composer is told otherwise.
    fn default() -> (updater: Self)
        ensures
            updater == Updater::Immediate,
    {
        Updater::Immediate
    }
}

/// Whether a pass is under way.
#[derive(Clone, Copy, Debug)]
pub enum Phase {
    Idle,
    Active,
}

/// A mutation of one mutable value of the tree, as data: where the value is,
/// whether the mutation marks a change, and the function from the old value
/// to the new one.
pub struct Update<F> {
    /// The slots that lead from the root of the tree to the node of the value.
    pub path: Vec<usize>,
    /// The slot of the value in that node.
    pub slot: usize,
    /// Whether the mutation marks the node and the value as changed.
    pub marks: bool,
    /// Makes the new value from the old one.
    pub f: F,
}

/// The mathematical model of an [`Update`].
pub struct UpdateModel<F> {
    pub path: Seq<usize>,
    pub slot: usize,
    pub marks: bool,
    pub f: F,
}

impl<F> View for Update<F> {
    type V = UpdateModel<F>;

    open spec fn view(&self) -> UpdateModel<F> {
        UpdateModel { path: self.path@, slot: self.slot, marks: self.marks, f: self.f }
    }
}

/// The node that the slots `path[depth..]` lead to from `cx`, if each of
/// them holds a nested node.
pub open spec fn target<T>(cx: ScopeData<T>, path: Seq<usize>, depth: nat) -> Option<ScopeData<T>>
    decreases path.len() - depth,
{
    if depth >= path.len() {
        Some(cx)
    } else if path[depth as int] < cx@.hooks.len() && cx@.hooks[path[depth as int] as int] is Scope {
        target(*cx@.hooks[path[depth as int] as int]->Scope_0, path, depth + 1)
    } else {
        None
    }
}

/// Whether `post` is `pre` after the mutable value in `slot` of the node
/// that `path[depth..]` leads to has become `value`, and nothing else has
/// changed on the way or elsewhere.
pub open spec fn applied_at<T>(
    pre: ScopeData<T>,
    post: ScopeData<T>,
    path: Seq<usize>,
    depth: nat,
    slot: int,
    marks: bool,
    value: T,
) -> bool
    decreases path.len() - depth,
{
    if depth >= path.len() {
        post@ == pre@.after_update(slot, marks, value)
    } else {
        let s = path[depth as int] as int;
        &&& 0 <= s < pre@.hooks.len()
        &&& pre@.hooks[s] is Scope
        &&& post@.hooks.len() == pre@.hooks.len()
        &&& post@.hooks[s] is Scope
        &&& applied_at(
            *pre@.hooks[s]->Scope_0,
            *post@.hooks[s]->Scope_0,
            path,
            depth + 1,
            slot,
            marks,
            value,
        )
        &&& post@ == pre@.with_hook(s, post@.hooks[s])
    }
}

impl<F> UpdateModel<F> {
    /// Whether the function of this update can be called on every value.
    pub open spec fn total<T>(&self) -> bool where F: FnOnce(&T) -> T {
        forall|v: &T| #[trigger] call_requires(self.f, (v,))
    }

    /// Whether `cx` accepts this update: the path of the update goes
    /// through `cx`, leads on to a node that is there, and that node accepts
    /// an update of the slot.
    pub open spec fn accepted_by<T>(&self, cx: ScopeData<T>) -> bool {
        &&& cx@.path.is_prefix_of(self.path)
        &&& target(cx, self.path, cx@.path.len()) matches Some(node)
        &&& node@.accepts_update(self.slot as int, self.marks)
    }

    /// The value that this update changes, where `cx` accepts it.
    pub open spec fn old_value<T>(&self, cx: ScopeData<T>) -> T {
        target(cx, self.path, cx@.path.len())->Some_0@.hooks[self.slot as int]->State_value
    }

    /// Whether `post` is what this update makes of `pre`: where `pre`
    /// accepts it, the tree with the one value exchanged for a result of the
    /// update's function; where it does not, the same tree.
    pub open spec fn steps<T>(&self, pre: ScopeData<T>, post: ScopeData<T>) -> bool where
        F: FnOnce(&T) -> T,
     {
        if self.accepted_by(pre) {
            exists|value: T|
                {
                    &&& #[trigger] call_ensures(self.f, (&self.old_value(pre),), value)
                    &&& applied_at(
                        pre,
                        post,
                        self.path,
                        pre@.path.len(),
                        self.slot as int,
                        self.marks,
                        value,
                    )
                }
        } else {
            post == pre
        }
    }
}

impl<F> UpdateModel<F> {
    /// An update, accepted or not, changes neither the shape of the tree nor
    /// the place of the node it is applied to.
    pub proof fn lemma_steps_keeps_shape<T>(&self, pre: ScopeData<T>, post: ScopeData<T>) where
        F: FnOnce(&T) -> T,

        requires
            self.steps(pre, post),
        ensures
            post.shape() == pre.shape(),
            post@.path == pre@.path,
            pre@.evolves(post@),
    {
        if self.accepted_by(pre) {
            let value = choose|value: T|
                {
                    &&& #[trigger] call_ensures(self.f, (&self.old_value(pre),), value)
                    &&& applied_at(
                        pre,
                        post,
                        self.path,
                        pre@.path.len(),
                        self.slot as int,
                        self.marks,
                        value,
                    )
                };
            lemma_applied_keeps_shape(
                pre,
                post,
                self.path,
                pre@.path.len(),
                self.slot as int,
                self.marks,
                value,
            );
        }
    }
}

impl<F> Update<F> {
    /// Whether the node that `path[depth..]` leads to from `cx` is there and
    /// accepts an update of the slot.
    fn accepted_from<T>(&self, cx: &ScopeData<T>, depth: usize) -> (accepted: bool)
        requires
            cx.wf(),
            depth <= self.path@.len(),
        ensures
            accepted == (target(*cx, self.path@, depth as nat) matches Some(node)
                && node@.accepts_update(self.slot as int, self.marks)),
        decreases self.path@.len() - depth,
    {
        if depth >= self.path.len() {
            match cx.generation_of(self.slot) {
                Some(generation) => !self.marks || (generation < u64::MAX && cx.generation()
                    < u64::MAX),
                None => false,
            }
        } else {
            match cx.child(self.path[depth]) {
                Some(child) => self.accepted_from(child, depth + 1),
                None => false,
            }
        }
    }

    /// Applies the update to the mutable value in `slot` of `cx` itself.
    fn apply_here<T>(self, cx: &mut ScopeData<T>) where F: FnOnce(&T) -> T
        requires
            old(cx).wf(),
            forall|v: &T| #[trigger] call_requires(self.f, (v,)),
            old(cx)@.accepts_update(self.slot as int, self.marks),
        ensures
            final(cx).wf(),
            exists|value: T|
                {
                    &&& #[trigger] call_ensures(
                        self.f,
                        (&old(cx)@.hooks[self.slot as int]->State_value,),
                        value,
                    )
                    &&& final(cx)@ == old(cx)@.after_update(self.slot as int, self.marks, value)
                },
    {
        let slot = self.slot;
        let hook = match cx.hook(slot) {
            Hook::State { value, generation } => {
                let generation = if self.marks {
                    *generation + 1
                } else {
                    *generation
                };
                Hook::State { value: (self.f)(value), generation }
            },
            _ => vstd::pervasive::unreached(),
        };
        let ghost value = hook->State_value;
        cx.replace_hook(slot, hook);
        if self.marks {
            cx.mark_updated();
        }
        assert(cx@ == old(cx)@.after_update(self.slot as int, self.marks, value));
    }

    /// Applies the update below `cx`, `depth` slots into its path.
    fn apply_from<T>(self, cx: &mut ScopeData<T>, depth: usize) where F: FnOnce(&T) -> T
        requires
            old(cx).wf(),
            forall|v: &T| #[trigger] call_requires(self.f, (v,)),
            depth <= self.path@.len(),
            target(*old(cx), self.path@, depth as nat) matches Some(node) && node@.accepts_update(
                self.slot as int,
                self.marks,
            ),
        ensures
            final(cx).wf(),
            final(cx)@.path == old(cx)@.path,
            exists|value: T|
                {
                    &&& #[trigger] call_ensures(
                        self.f,
                        (&target(*old(cx), self.path@, depth as nat)->Some_0@.hooks[self.slot as int]->State_value,),
                        value,
                    )
                    &&& applied_at(
                        *old(cx),
                        *final(cx),
                        self.path@,
                        depth as nat,
                        self.slot as int,
                        self.marks,
                        value,
                    )
                },
        decreases self.path@.len() - depth,
    {
        if depth >= self.path.len() {
            self.apply_here(cx);
            return ;
        }
        let s = self.path[depth];
        let ghost update = self;
        let ghost pre = *cx;
        let child = cx.child_mut(s);
        let ghost before = *child;
        self.apply_from(child, depth + 1);
        proof {
            cx.lemma_follows(&pre, s as int, child);
            let value = choose|value: T|
                {
                    &&& #[trigger] call_ensures(
                        update.f,
                        (&target(before, update.path@, (depth + 1) as nat)->Some_0@.hooks[update.slot as int]->State_value,),
                        value,
                    )
                    &&& applied_at(
                        before,
                        *child,
                        update.path@,
                        (depth + 1) as nat,
                        update.slot as int,
                        update.marks,
                        value,
                    )
                };
            assert(applied_at(
                pre,
                *cx,
                update.path@,
                depth as nat,
                update.slot as int,
                update.marks,
                value,
            ));
        }
    }

    /// Whether the path of `cx` is the beginning of the path of this update.
    fn goes_through<T>(&self, cx: &ScopeData<T>) -> (b: bool)
        ensures
            b == cx@.path.is_prefix_of(self.path@),
    {
        let path = cx.path();
        if path.len() > self.path.len() {
            return false;
        }
        let mut i: usize = 0;
        while i < path.len()
            invariant
                i <= path@.len() <= self.path@.len(),
                path@ == cx@.path,
                forall|j: int| 0 <= j < i ==> path@[j] == self.path@[j],
            decreases path@.len() - i,
        {
            if path[i] != self.path[i] {
                return false;
            }
            i += 1;
        }
        assert(path@ =~= self.path@.subrange(0, path@.len() as int));
        true
    }

    /// Applies this update to the tree below `cx`, if `cx` accepts it, and
    /// says whether it did. An update that is not accepted changes nothing.
    pub fn apply<T>(self, cx: &mut ScopeData<T>) -> (accepted: bool) where F: FnOnce(&T) -> T
        requires
            old(cx).wf(),
            self@.total::<T>(),
        ensures
            final(cx).wf(),
            old(cx)@.evolves(final(cx)@),
            final(cx).shape() == old(cx).shape(),
            accepted == self@.accepted_by(*old(cx)),
            self@.steps(*old(cx), *final(cx)),
    {
        assert forall|v: &T| #[trigger] call_requires(self.f, (v,)) by {
            assert(call_requires(self@.f, (v,)));
        }
        if !self.goes_through(cx) {
            return false;
        }
        let depth = cx.depth();
        if !self.accepted_from(cx, depth) {
            return false;
        }
        let ghost update = self;
        self.apply_from(cx, depth);
        proof {
            let pre = *old(cx);
            let value = choose|value: T|
                {
                    &&& #[trigger] call_ensures(
                        update.f,
                        (&target(pre, update.path@, depth as nat)->Some_0@.hooks[update.slot as int]->State_value,),
                        value,
                    )
                    &&& applied_at(
                        pre,
                        *cx,
                        update.path@,
                        depth as nat,
                        update.slot as int,
                        update.marks,
                        value,
                    )
                };
            assert(call_ensures(update@.f, (&update@.old_value(pre),), value));
            assert(applied_at(
                pre,
                *cx,
                update@.path,
                pre@.path.len(),
                update@.slot as int,
                update@.marks,
                value,
            ));
            update@.lemma_steps_keeps_shape(pre, *cx);
        }
        true
    }
}

/// Whether `post` is what the updates `updates`, applied one after the other
/// to `pre`, can make of it, `accepted` of them being accepted.
pub open spec fn replayed<T, F: FnOnce(&T) -> T>(
    updates: Seq<UpdateModel<F>>,
    pre: ScopeData<T>,
    post: ScopeData<T>,
    accepted: nat,
) -> bool
    decreases updates.len(),
{
    if updates.len() == 0 {
        post == pre && accepted == 0
    } else {
        exists|mid: ScopeData<T>|
            {
                &&& #[trigger] updates.last().steps(mid, post)
                &&& updates.last().accepted_by(mid) ==> accepted > 0
                &&& replayed(
                    updates.drop_last(),
                    pre,
                    mid,
                    if updates.last().accepted_by(mid) {
                        (accepted - 1) as nat
                    } else {
                        accepted
                    },
                )
            }
    }
}

/// An update changes the value of one slot and no shape.
pub proof fn lemma_applied_keeps_shape<T>(
    pre: ScopeData<T>,
    post: ScopeData<T>,
    path: Seq<usize>,
    depth: nat,
    slot: int,
    marks: bool,
    value: T,
)
    requires
        target(pre, path, depth) matches Some(node) && node@.accepts_update(slot, marks),
        applied_at(pre, post, path, depth, slot, marks, value),
    ensures
        post.shape() == pre.shape(),
        pre@.evolves(post@),
    decreases path.len() - depth,
{
    pre.lemma_shape();
    post.lemma_shape();
    if depth >= path.len() {
        assert(post.shape() =~= pre.shape());
    } else {
        let s = path[depth as int] as int;
        lemma_applied_keeps_shape(
            *pre@.hooks[s]->Scope_0,
            *post@.hooks[s]->Scope_0,
            path,
            depth + 1,
            slot,
            marks,
            value,
        );
        assert(post.shape() =~= pre.shape());
    }
}

/// A replay of updates changes values and no shape.
pub proof fn lemma_replayed_keeps_shape<T, F: FnOnce(&T) -> T>(
    updates: Seq<UpdateModel<F>>,
    pre: ScopeData<T>,
    post: ScopeData<T>,
    accepted: nat,
)
    requires
        replayed(updates, pre, post, accepted),
    ensures
        post.shape() == pre.shape(),
        post@.path == pre@.path,
        pre@.evolves(post@),
    decreases updates.len(),
{
    if updates.len() > 0 {
        let mid = choose|mid: ScopeData<T>|
            {
                &&& #[trigger] updates.last().steps(mid, post)
                &&& updates.last().accepted_by(mid) ==> accepted > 0
                &&& replayed(
                    updates.drop_last(),
                    pre,
                    mid,
                    if updates.last().accepted_by(mid) {
                        (accepted - 1) as nat
                    } else {
                        accepted
                    },
                )
            };
        lemma_replayed_keeps_shape(
            updates.drop_last(),
            pre,
            mid,
            if updates.last().accepted_by(mid) {
                (accepted - 1) as nat
            } else {
                accepted
            },
        );
        updates.last().lemma_steps_keeps_shape(mid, post);
        lemma_evolves_transitive(pre@, mid@, post@);
    }
}

/// One more update after a replay is a replay of one more update.
pub proof fn lemma_replayed_push<T, F: FnOnce(&T) -> T>(
    updates: Seq<UpdateModel<F>>,
    update: UpdateModel<F>,
    pre: ScopeData<T>,
    mid: ScopeData<T>,
    post: ScopeData<T>,
    before: nat,
)
    requires
        replayed(updates, pre, mid, before),
        update.steps(mid, post),
    ensures
        replayed(
            updates.push(update),
            pre,
            post,
            before + if update.accepted_by(mid) {
                1nat
            } else {
                0nat
            },
        ),
{
    let all = updates.push(update);
    assert(all.drop_last() =~= updates);
    assert(all.last() == update);
    assert(all.last().steps(mid, post));
}

/// Schedules the updates of one tree.
///
/// It is handed to every pass and to every call that makes an update, so an
/// update can never find that there is no runtime.
pub struct Runtime<F> {
    updater: Updater,
    phase: Phase,
    pending: VecDeque<Update<F>>,
}

impl<F> Runtime<F> {
    /// What this runtime does with an update.
    pub closed spec fn policy(&self) -> Updater {
        self.updater
    }

    /// Whether a pass is under way.
    pub closed spec fn active(&self) -> bool {
        self.phase is Active
    }

    /// The updates that were kept and not applied yet, oldest first.
    pub closed spec fn queue(&self) -> Seq<UpdateModel<F>> {
        self.pending@.map_values(|u: Update<F>| u@)
    }

    /// The invariant of a runtime: every update that it keeps can be applied
    /// to whatever value it finds.
    pub open spec fn wf<T>(&self) -> bool where F: FnOnce(&T) -> T {
        forall|i: int| 0 <= i < self.queue().len() ==> (#[trigger] self.queue()[i]).total::<T>()
    }

    /// Whether `post` and `post_cx` are this runtime and `pre_cx` after the
    /// runtime has taken `update`, `applied` saying whether the update was
    /// applied at once and accepted.
    pub open spec fn takes<T>(
        &self,
        post: &Self,
        pre_cx: ScopeData<T>,
        post_cx: ScopeData<T>,
        update: UpdateModel<F>,
        applied: bool,
    ) -> bool where F: FnOnce(&T) -> T {
        &&& post.policy() == self.policy()
        &&& post.active() == self.active()
        &&& match self.policy() {
            Updater::Immediate => {
                &&& post.queue() == self.queue()
                &&& applied == update.accepted_by(pre_cx)
                &&& update.steps(pre_cx, post_cx)
            },
            Updater::Queued => {
                &&& post.queue() == self.queue().push(update)
                &&& !applied
                &&& post_cx == pre_cx
            },
        }
    }

    /// A runtime that keeps nothing yet, with no pass under way.
    pub fn new(updater: Updater) -> (rt: Self)
        ensures
            rt.policy() == updater,
            !rt.active(),
            rt.queue() == Seq::<UpdateModel<F>>::empty(),
    {
        let rt = Runtime { updater, phase: Phase::Idle, pending: VecDeque::new() };
        assert(rt.queue() =~= Seq::<UpdateModel<F>>::empty());
        rt
    }

    /// What this runtime does with an update.
    pub fn updater(&self) -> (updater: Updater)
        ensures
            updater == self.policy(),
    {
        self.updater
    }

    /// Whether a pass is under way.
    pub fn is_active(&self) -> (active: bool)
        ensures
            active == self.active(),
    {
        match self.phase {
            Phase::Active => true,
            Phase::Idle => false,
        }
    }

    /// The phase that this runtime is in.
    pub fn phase(&self) -> (phase: Phase)
        ensures
            (phase is Active) == self.active(),
    {
        self.phase
    }

    /// The number of updates that were kept and not applied yet.
    pub fn pending(&self) -> (n: usize)
        ensures
            n == self.queue().len(),
    {
        self.pending.len()
    }

    /// Enters this runtime: a pass is under way from now on.
    pub fn enter(&mut self)
        ensures
            final(self).active(),
            final(self).policy() == old(self).policy(),
            final(self).queue() == old(self).queue(),
    {
        self.phase = Phase::Active;
    }

    /// Leaves this runtime: the pass is over.
    pub fn leave(&mut self)
        ensures
            !final(self).active(),
            final(self).policy() == old(self).policy(),
            final(self).queue() == old(self).queue(),
    {
        self.phase = Phase::Idle;
    }

    /// Takes an update for the tree below `cx`. An immediate runtime
    /// applies it at once and says whether `cx` accepted it; a queued one
    /// keeps it behind the updates it has and leaves `cx` alone.
    pub fn update<T>(&mut self, cx: &mut ScopeData<T>, update: Update<F>) -> (applied: bool) where
        F: FnOnce(&T) -> T,

        requires
            old(self).wf::<T>(),
            old(cx).wf(),
            update@.total::<T>(),
        ensures
            final(self).wf::<T>(),
            final(cx).wf(),
            old(cx)@.evolves(final(cx)@),
            final(cx).shape() == old(cx).shape(),
            old(self).takes(final(self), *old(cx), *final(cx), update@, applied),
    {
        match self.updater {
            Updater::Immediate => {
                let applied = update.apply(cx);
                assert(self.queue() == old(self).queue());
                applied
            },
            Updater::Queued => {
                let ghost model = update@;
                self.pending.push_back(update);
                assert(self.queue() =~= old(self).queue().push(model));
                assert forall|i: int| 0 <= i < self.queue().len() implies (#[trigger] self.queue()[i]).total::<
                    T,
                >() by {
                    if i < old(self).queue().len() {
                        assert(self.queue()[i] == old(self).queue()[i]);
                    }
                }
                false
            },
        }
    }

    /// Drops the kept updates without applying them, and returns how many
    /// there were.
    pub fn discard(&mut self) -> (dropped: usize)
        ensures
            dropped == old(self).queue().len(),
            final(self).queue() == Seq::<UpdateModel<F>>::empty(),
            final(self).policy() == old(self).policy(),
            final(self).active() == old(self).active(),
    {
        let dropped = self.pending.len();
        self.pending.clear();
        assert(self.queue() =~= Seq::<UpdateModel<F>>::empty());
        dropped
    }

    /// Applies the kept updates to the tree below `cx`, oldest first, and
    /// returns how many of them `cx` accepted. While a pass is under way
    /// nothing is applied and the updates stay kept.
    pub fn flush<T>(&mut self, cx: &mut ScopeData<T>) -> (accepted: usize) where F: FnOnce(&T) -> T
        requires
            old(self).wf::<T>(),
            old(cx).wf(),
        ensures
            final(self).wf::<T>(),
            final(cx).wf(),
            old(cx)@.evolves(final(cx)@),
            final(cx).shape() == old(cx).shape(),
            final(self).policy() == old(self).policy(),
            final(self).active() == old(self).active(),
            old(self).active() ==> {
                &&& accepted == 0
                &&& final(self).queue() == old(self).queue()
                &&& *final(cx) == *old(cx)
            },
            !old(self).active() ==> {
                &&& final(self).queue().len() == 0
                &&& replayed(old(self).queue(), *old(cx), *final(cx), accepted as nat)
            },
    {
        if self.is_active() {
            return 0;
        }
        let ghost all = self.queue();
        let ghost done: int = 0;
        let mut accepted: usize = 0;
        let total = self.pending.len();
        assert(all.take(0) =~= Seq::<UpdateModel<F>>::empty());
        while self.pending.len() > 0
            invariant
                total == all.len(),
                0 <= done <= all.len(),
                self.queue() == all.skip(done),
                forall|i: int| 0 <= i < all.len() ==> (#[trigger] all[i]).total::<T>(),
                self.updater == old(self).updater,
                self.phase == old(self).phase,
                cx.wf(),
                accepted <= done,
                replayed(all.take(done), *old(cx), *cx, accepted as nat),
            decreases all.len() - done,
        {
            let ghost mid = *cx;
            let ghost before = accepted as nat;
            assert(self.queue().len() == self.pending@.len());
            let ghost kept = self.pending@;
            let update = self.pending.pop_front().unwrap();
            assert(update@ == all.skip(done)[0]);
            assert(self.queue() =~= all.skip(done + 1)) by {
                assert forall|i: int| 0 <= i < self.pending@.len() implies self.queue()[i]
                    == all.skip(done + 1)[i] by {
                    assert(self.pending@[i] == kept[i + 1]);
                    assert(all.skip(done)[i + 1] == kept[i + 1]@);
                }
            }
            let applied = update.apply(cx);
            if applied {
                accepted += 1;
            }
            proof {
                assert(all.take(done + 1) =~= all.take(done).push(all[done]));
                lemma_replayed_push(all.take(done), all[done], *old(cx), mid, *cx, before);
                done = done + 1;
            }
        }
        assert(all.take(done) =~= all);
        assert(self.queue().len() == 0);
        proof {
            lemma_replayed_keeps_shape(all, *old(cx), *cx, accepted as nat);
        }
        accepted
    }
}

} // verus!
