//! The state of one node of the tree: its hook slots and its flags.

use crate::context::Contexts;
use crate::memo::MemoKey;
use std::rc::Rc;
use vstd::prelude::*;

verus! {

/// One hook slot: a value that persists across passes, owned by the node.
pub enum Hook<T> {
    /// A value that is set when the slot is made and stays as it is.
    Value(T),
    /// A callback: every pass puts its latest body here.
    Callback(T),
    /// A value that updates can change, with the count of the updates that
    /// marked it as changed.
    State { value: T, generation: u64 },
    /// A memoized value, with the key of the dependency it was made for.
    Memo { value: T, key: MemoKey<T> },
    /// The key of the dependency that a memoized node was last composed for.
    Dependency(MemoKey<T>),
    /// A value that this node provides to its descendants.
    Shared(Rc<T>),
    /// What to hand out when the node is destroyed.
    Teardown(T),
    /// The state of a nested node.
    Scope(Box<ScopeData<T>>),
}

impl<T> Hook<T> {
    /// The value that a handle to this slot reads, if the slot holds one.
    pub open spec fn payload(self) -> Option<T> {
        match self {
            Hook::Value(v) => Some(v),
            Hook::Callback(v) => Some(v),
            Hook::State { value, .. } => Some(value),
            Hook::Memo { value, .. } => Some(value),
            Hook::Shared(rc) => Some(*rc),
            Hook::Dependency(_) => None,
            Hook::Teardown(_) => None,
            Hook::Scope(_) => None,
        }
    }

    /// Whether a slot that holds `self` can hold `later` after any number
    /// of passes and updates: what `use_ref`, `use_provider` and `use_drop`
    /// keep stays as it is, a generation never goes down, and no slot changes
    /// the hook that made it.
    pub open spec fn kept_by(self, later: Hook<T>) -> bool {
        match self {
            Hook::Value(_) => later == self,
            Hook::Shared(_) => later == self,
            Hook::Teardown(_) => later == self,
            Hook::State { generation, .. } => later is State && generation
                <= later->State_generation,
            Hook::Memo { .. } => later is Memo,
            Hook::Dependency(_) => later is Dependency,
            Hook::Callback(_) => later is Callback,
            Hook::Scope(_) => later is Scope,
        }
    }

    /// Whether the slot can be overwritten in place: it neither registers a
    /// teardown nor holds a nested node.
    pub open spec fn is_plain(self) -> bool {
        !(self is Teardown) && !(self is Scope)
    }
}

/// Which hook made a slot.
#[derive(Clone, Copy, Debug, PartialEq, Eq, Structural)]
pub enum Slot {
    Value,
    Callback,
    State,
    Memo,
    Dependency,
    Shared,
    Teardown,
    Scope,
}

/// Which hook made the slot `hook`.
pub open spec fn slot_of<T>(hook: Hook<T>) -> Slot {
    match hook {
        Hook::Value(_) => Slot::Value,
        Hook::Callback(_) => Slot::Callback,
        Hook::State { .. } => Slot::State,
        Hook::Memo { .. } => Slot::Memo,
        Hook::Dependency(_) => Slot::Dependency,
        Hook::Shared(_) => Slot::Shared,
        Hook::Teardown(_) => Slot::Teardown,
        Hook::Scope(_) => Slot::Scope,
    }
}

/// Which hook made a slot, and for a nested node, which hooks made its slots.
/// Passes and updates change what the slots of a node hold, never their shape.
pub enum Shape {
    Value,
    Callback,
    State,
    Memo,
    Dependency,
    Shared,
    Teardown,
    Scope(Seq<Shape>),
}

/// The shape of one slot.
pub open spec fn shape_of<T>(hook: Hook<T>) -> Shape {
    match hook {
        Hook::Value(_) => Shape::Value,
        Hook::Callback(_) => Shape::Callback,
        Hook::State { .. } => Shape::State,
        Hook::Memo { .. } => Shape::Memo,
        Hook::Dependency(_) => Shape::Dependency,
        Hook::Shared(_) => Shape::Shared,
        Hook::Teardown(_) => Shape::Teardown,
        Hook::Scope(child) => Shape::Scope(child.shape()),
    }
}

/// The mathematical model of a [`ScopeData`].
#[verifier::ext_equal]
pub struct ScopeModel<T> {
    /// The hook slots, in the order in which they were made.
    pub hooks: Seq<Hook<T>>,
    /// The slot that the next hook call of the current pass uses.
    pub cursor: nat,
    pub is_changed: bool,
    pub is_parent_changed: bool,
    pub is_empty: bool,
    pub is_container: bool,
    /// The context values visible at this node, by key.
    pub contexts: Map<u64, T>,
    /// The count of the updates that marked this node as changed.
    pub generation: nat,
    /// The slots that lead from the root of the tree to this node.
    pub path: Seq<usize>,
}

impl<T> ScopeModel<T> {
    /// The model of a node that no hook has touched.
    pub open spec fn fresh(contexts: Map<u64, T>, path: Seq<usize>) -> Self {
        ScopeModel {
            hooks: Seq::empty(),
            cursor: 0,
            is_changed: false,
            is_parent_changed: false,
            is_empty: false,
            is_container: false,
            contexts,
            generation: 0,
            path,
        }
    }

    /// Whether a node that is `self` now can be `later` after any number of
    /// passes and updates: slots are appended and never removed, each slot
    /// is kept as `Hook::kept_by` says, the generation never goes down, the
    /// node stays in its place, and a key that is provided stays provided.
    pub open spec fn evolves(self, later: Self) -> bool {
        &&& self.hooks.len() <= later.hooks.len()
        &&& forall|i: int|
            0 <= i < self.hooks.len() ==> #[trigger] self.hooks[i].kept_by(later.hooks[i])
        &&& self.generation <= later.generation
        &&& self.path == later.path
        &&& forall|key: u64| #[trigger]
            self.contexts.contains_key(key) ==> later.contexts.contains_key(key)
    }

    /// Whether the next hook call makes a new slot.
    pub open spec fn at_end(self) -> bool {
        self.cursor >= self.hooks.len()
    }

    /// The model after a hook call has made the slot `hook`.
    pub open spec fn pushed(self, hook: Hook<T>) -> Self {
        ScopeModel { hooks: self.hooks.push(hook), cursor: self.cursor + 1, ..self }
    }

    /// The model after a hook call has gone past an existing slot.
    pub open spec fn advanced(self) -> Self {
        ScopeModel { cursor: self.cursor + 1, ..self }
    }

    /// The model with the slot `slot` overwritten.
    pub open spec fn with_hook(self, slot: int, hook: Hook<T>) -> Self {
        ScopeModel { hooks: self.hooks.update(slot, hook), ..self }
    }

    /// The value that a handle to `slot` reads, if the slot exists and holds one.
    pub open spec fn value_at(self, slot: int) -> Option<T> {
        if 0 <= slot < self.hooks.len() {
            self.hooks[slot].payload()
        } else {
            None
        }
    }

    /// The generation that a handle to `slot` is stamped with, if the slot
    /// exists and holds a value: that of a mutable value, and 0 for a value
    /// that no update can mark as changed.
    pub open spec fn stamp_at(self, slot: int) -> Option<u64> {
        if 0 <= slot < self.hooks.len() {
            match self.hooks[slot] {
                Hook::State { generation, .. } => Some(generation),
                Hook::Value(_) => Some(0),
                Hook::Callback(_) => Some(0),
                Hook::Memo { .. } => Some(0),
                Hook::Shared(_) => Some(0),
                Hook::Dependency(_) => None,
                Hook::Teardown(_) => None,
                Hook::Scope(_) => None,
            }
        } else {
            None
        }
    }

    /// Whether a pass composes the node again: it does on the pass that
    /// finds it without a slot, when the node was marked as changed, and
    /// when its parent is composed again.
    pub open spec fn composes_again(self) -> bool {
        self.hooks.len() == 0 || self.is_changed || self.is_parent_changed
    }

    /// Whether a node that is `self` now can be `later` after any number of
    /// passes in which nothing marks it as changed.
    pub open spec fn rests(self, later: Self) -> bool {
        self.evolves(later) && (later.is_changed ==> self.is_changed)
    }

    /// Whether an update of `slot` is accepted: the slot holds a mutable
    /// value, and where the update marks a change, both counters can still
    /// count it.
    pub open spec fn accepts_update(self, slot: int, marks: bool) -> bool {
        &&& 0 <= slot < self.hooks.len()
        &&& self.hooks[slot] matches Hook::State { generation, .. }
        &&& marks ==> generation < u64::MAX && self.generation < u64::MAX
    }

    /// The model after an accepted update has put `value` in `slot`.
    pub open spec fn after_update(self, slot: int, marks: bool, value: T) -> Self {
        let generation = self.hooks[slot]->State_generation;
        if marks {
            ScopeModel {
                hooks: self.hooks.update(
                    slot,
                    Hook::State { value, generation: (generation + 1) as u64 },
                ),
                is_changed: true,
                generation: self.generation + 1,
                ..self
            }
        } else {
            ScopeModel { hooks: self.hooks.update(slot, Hook::State { value, generation }), ..self }
        }
    }
}

/// What a node can become from what it can become, it can become.
pub proof fn lemma_evolves_transitive<T>(a: ScopeModel<T>, b: ScopeModel<T>, c: ScopeModel<T>)
    requires
        a.evolves(b),
        b.evolves(c),
    ensures
        a.evolves(c),
{
    assert forall|i: int| 0 <= i < a.hooks.len() implies #[trigger] a.hooks[i].kept_by(
        c.hooks[i],
    ) by {
        assert(a.hooks[i].kept_by(b.hooks[i]));
        assert(b.hooks[i].kept_by(c.hooks[i]));
    }
    assert forall|key: u64| #[trigger] a.contexts.contains_key(key) implies c.contexts.contains_key(
        key,
    ) by {
        assert(b.contexts.contains_key(key));
    }
}

/// What a node can become at rest from what it can become at rest, it can
/// become at rest.
pub proof fn lemma_rests_transitive<T>(a: ScopeModel<T>, b: ScopeModel<T>, c: ScopeModel<T>)
    requires
        a.rests(b),
        b.rests(c),
    ensures
        a.rests(c),
{
    lemma_evolves_transitive(a, b, c);
}

/// The slots of `hooks` that register a teardown, in slot order.
pub open spec fn teardown_slots<T>(hooks: Seq<Hook<T>>) -> Seq<usize>
    decreases hooks.len(),
{
    if hooks.len() == 0 {
        Seq::empty()
    } else if hooks.last() is Teardown {
        teardown_slots(hooks.drop_last()).push((hooks.len() - 1) as usize)
    } else {
        teardown_slots(hooks.drop_last())
    }
}

/// What the teardown slots of `hooks` hold, in slot order.
pub open spec fn own_teardowns<T>(hooks: Seq<Hook<T>>) -> Seq<T>
    decreases hooks.len(),
{
    if hooks.len() == 0 {
        Seq::empty()
    } else if hooks.last() is Teardown {
        own_teardowns(hooks.drop_last()).push(hooks.last()->Teardown_0)
    } else {
        own_teardowns(hooks.drop_last())
    }
}

/// Pushing a slot registers it if and only if it is a teardown.
pub proof fn lemma_teardown_slots_push<T>(hooks: Seq<Hook<T>>, hook: Hook<T>)
    ensures
        teardown_slots(hooks.push(hook)) == if hook is Teardown {
            teardown_slots(hooks).push(hooks.len() as usize)
        } else {
            teardown_slots(hooks)
        },
        own_teardowns(hooks.push(hook)) == if hook is Teardown {
            own_teardowns(hooks).push(hook->Teardown_0)
        } else {
            own_teardowns(hooks)
        },
{
    assert(hooks.push(hook).drop_last() =~= hooks);
}

/// The state of one node of the tree.
///
/// It persists across passes for as long as the node stays in the tree. Hook
/// calls fill its slots in call order; a pass that makes the same calls in
/// the same order finds each value in the slot where an earlier pass left it.
pub struct ScopeData<T> {
    hooks: Vec<Hook<T>>,
    hook_idx: usize,
    is_changed: bool,
    is_parent_changed: bool,
    is_empty: bool,
    is_container: bool,
    contexts: Contexts<T>,
    generation: u64,
    path: Vec<usize>,
}

impl<T> View for ScopeData<T> {
    type V = ScopeModel<T>;

    closed spec fn view(&self) -> ScopeModel<T> {
        ScopeModel {
            hooks: self.hooks@,
            cursor: self.hook_idx as nat,
            is_changed: self.is_changed,
            is_parent_changed: self.is_parent_changed,
            is_empty: self.is_empty,
            is_container: self.is_container,
            contexts: self.contexts@,
            generation: self.generation as nat,
            path: self.path@,
        }
    }
}

impl<T> ScopeData<T> {
    /// The invariant of a node: the cursor is within the slots or just past
    /// them, and every nested node is well formed and knows its place in the
    /// tree.
    pub closed spec fn wf(&self) -> bool
        decreases self,
    {
        &&& self.hook_idx <= self.hooks@.len()
        &&& forall|i: int|
            0 <= i < self.hooks@.len() ==> (#[trigger] self.hooks@[i] matches Hook::Scope(c) ==> c.wf()
                && c.path@ == self.path@.push(i as usize))
    }

    /// What `wf` says of the model.
    pub proof fn lemma_wf(&self)
        requires
            self.wf(),
        ensures
            self@.cursor <= self@.hooks.len(),
            self@.cursor <= usize::MAX,
            self@.hooks.len() <= usize::MAX,
            self@.generation <= u64::MAX,
            forall|i: int|
                0 <= i < self@.hooks.len() ==> (#[trigger] self@.hooks[i] matches Hook::Scope(c)
                    ==> c.wf() && c@.path == self@.path.push(i as usize)),
    {
        assert(self.hooks.len() == self.hooks@.len());
    }

    /// A node that no hook has touched, at the root of a tree.
    pub fn new() -> (cx: Self)
        ensures
            cx.wf(),
            cx@ == ScopeModel::<T>::fresh(Map::empty(), Seq::empty()),
    {
        ScopeData {
            hooks: Vec::new(),
            hook_idx: 0,
            is_changed: false,
            is_parent_changed: false,
            is_empty: false,
            is_container: false,
            contexts: Contexts::new(),
            generation: 0,
            path: Vec::new(),
        }
    }

    /// Marks this node as changed, so that the next pass composes it again.
    pub fn set_changed(&mut self)
        requires
            old(self).wf(),
        ensures
            final(self).wf(),
            old(self)@.evolves(final(self)@),
            final(self)@ == (ScopeModel { is_changed: true, ..old(self)@ }),
    {
        self.is_changed = true;
    }

    /// Whether this node was marked as changed and the mark was not taken yet.
    pub fn is_changed(&self) -> (b: bool)
        ensures
            b == self@.is_changed,
    {
        self.is_changed
    }

    /// Takes the mark that this node has changed: returns it and clears it.
    pub fn take_changed(&mut self) -> (b: bool)
        requires
            old(self).wf(),
        ensures
            final(self).wf(),
            old(self)@.evolves(final(self)@),
            old(self)@.rests(final(self)@),
            b == old(self)@.is_changed,
            final(self)@ == (ScopeModel { is_changed: false, ..old(self)@ }),
    {
        let b = self.is_changed;
        self.is_changed = false;
        b
    }

    /// Whether this pass composes the node again, and takes the mark that
    /// the node has changed. A node is composed again on the pass that finds
    /// it without a slot, when it was marked as changed, and when its parent
    /// is composed again.
    pub fn should_compose(&mut self) -> (again: bool)
        requires
            old(self).wf(),
        ensures
            final(self).wf(),
            old(self)@.evolves(final(self)@),
            old(self)@.rests(final(self)@),
            again == old(self)@.composes_again(),
            final(self)@ == (ScopeModel { is_changed: false, ..old(self)@ }),
    {
        let again = self.hooks.len() == 0 || self.is_changed || self.is_parent_changed;
        self.is_changed = false;
        again
    }

    /// Whether the parent of this node was composed again in this pass.
    pub fn is_parent_changed(&self) -> (b: bool)
        ensures
            b == self@.is_parent_changed,
    {
        self.is_parent_changed
    }

    /// Records whether the parent of this node was composed again in this pass.
    pub fn set_parent_changed(&mut self, changed: bool)
        requires
            old(self).wf(),
        ensures
            final(self).wf(),
            old(self)@.evolves(final(self)@),
            old(self)@.rests(final(self)@),
            final(self)@ == (ScopeModel { is_parent_changed: changed, ..old(self)@ }),
    {
        self.is_parent_changed = changed;
    }

    /// Whether the composable of this node has no content.
    pub fn is_empty(&self) -> (b: bool)
        ensures
            b == self@.is_empty,
    {
        self.is_empty
    }

    /// Records whether the composable of this node has no content.
    pub fn set_empty(&mut self, empty: bool)
        requires
            old(self).wf(),
        ensures
            final(self).wf(),
            old(self)@.evolves(final(self)@),
            old(self)@.rests(final(self)@),
            final(self)@ == (ScopeModel { is_empty: empty, ..old(self)@ }),
    {
        self.is_empty = empty;
    }

    /// Whether this node only wraps a nested node.
    pub fn is_container(&self) -> (b: bool)
        ensures
            b == self@.is_container,
    {
        self.is_container
    }

    /// The count of the updates that marked this node as changed.
    pub fn generation(&self) -> (g: u64)
        ensures
            g == self@.generation,
    {
        self.generation
    }

    /// The slots that lead from the root of the tree to this node.
    pub fn path(&self) -> (path: Vec<usize>)
        ensures
            path@ == self@.path,
    {
        let mut path: Vec<usize> = Vec::new();
        let mut i: usize = 0;
        while i < self.path.len()
            invariant
                i <= self.path@.len(),
                path@ == self.path@.take(i as int),
            decreases self.path@.len() - i,
        {
            path.push(self.path[i]);
            i += 1;
            assert(path@ =~= self.path@.take(i as int));
        }
        assert(path@ =~= self.path@);
        path
    }

    /// The number of slots that lead from the root of the tree to this node.
    pub fn depth(&self) -> (n: usize)
        ensures
            n == self@.path.len(),
    {
        self.path.len()
    }

    /// The number of hook slots.
    pub fn len(&self) -> (n: usize)
        ensures
            n == self@.hooks.len(),
    {
        self.hooks.len()
    }

    /// The slot that the next hook call uses.
    pub fn cursor(&self) -> (n: usize)
        ensures
            n == self@.cursor,
    {
        self.hook_idx
    }

    /// Which hook made the slot that the next hook call finds, if it finds
    /// one. A caller that cannot prove that its hook calls line up with the
    /// slots can ask before each call.
    pub fn next_slot(&self) -> (r: Option<Slot>)
        ensures
            r == if self@.cursor < self@.hooks.len() {
                Some(slot_of(self@.hooks[self@.cursor as int]))
            } else {
                None
            },
    {
        if self.hook_idx < self.hooks.len() {
            Some(
                match &self.hooks[self.hook_idx] {
                    Hook::Value(_) => Slot::Value,
                    Hook::Callback(_) => Slot::Callback,
                    Hook::State { .. } => Slot::State,
                    Hook::Memo { .. } => Slot::Memo,
                    Hook::Dependency(_) => Slot::Dependency,
                    Hook::Shared(_) => Slot::Shared,
                    Hook::Teardown(_) => Slot::Teardown,
                    Hook::Scope(_) => Slot::Scope,
                },
            )
        } else {
            None
        }
    }

    /// Starts a pass over this node: the next hook call uses the first slot.
    pub fn begin_pass(&mut self)
        requires
            old(self).wf(),
        ensures
            final(self).wf(),
            old(self)@.evolves(final(self)@),
            old(self)@.rests(final(self)@),
            final(self)@ == (ScopeModel { cursor: 0, ..old(self)@ }),
    {
        self.hook_idx = 0;
    }

    /// The value in `slot`, if the slot exists and holds one.
    pub fn value(&self, slot: usize) -> (r: Option<&T>)
        ensures
            match r {
                Some(v) => self@.value_at(slot as int) == Some(*v),
                None => self@.value_at(slot as int) is None,
            },
    {
        if slot < self.hooks.len() {
            match &self.hooks[slot] {
                Hook::Value(v) => Some(v),
                Hook::Callback(v) => Some(v),
                Hook::State { value, .. } => Some(value),
                Hook::Memo { value, .. } => Some(value),
                Hook::Shared(rc) => Some(&**rc),
                Hook::Dependency(_) => None,
                Hook::Teardown(_) => None,
                Hook::Scope(_) => None,
            }
        } else {
            None
        }
    }

    /// The generation that a handle to `slot` is stamped with now, if the
    /// slot exists and holds a value.
    pub fn stamp(&self, slot: usize) -> (r: Option<u64>)
        ensures
            r == self@.stamp_at(slot as int),
    {
        if slot < self.hooks.len() {
            match &self.hooks[slot] {
                Hook::State { generation, .. } => Some(*generation),
                Hook::Value(_) => Some(0),
                Hook::Callback(_) => Some(0),
                Hook::Memo { .. } => Some(0),
                Hook::Shared(_) => Some(0),
                Hook::Dependency(_) => None,
                Hook::Teardown(_) => None,
                Hook::Scope(_) => None,
            }
        } else {
            None
        }
    }

    /// The generation of the mutable value in `slot`, if the slot holds one.
    pub fn generation_of(&self, slot: usize) -> (r: Option<u64>)
        ensures
            match r {
                Some(g) => slot < self@.hooks.len() && self@.hooks[slot as int] is State
                    && g == self@.hooks[slot as int]->State_generation,
                None => !(slot < self@.hooks.len() && self@.hooks[slot as int] is State),
            },
    {
        if slot < self.hooks.len() {
            match &self.hooks[slot] {
                Hook::State { generation, .. } => Some(*generation),
                _ => None,
            }
        } else {
            None
        }
    }
}

impl<T> ScopeData<T> {
    /// Whether `self` is `pre` with the nested node in `slot` exchanged for
    /// `child`, and nothing else changed.
    pub closed spec fn follows(&self, pre: &Self, slot: int, child: &Self) -> bool {
        &&& 0 <= slot < pre.hooks@.len()
        &&& pre.hooks@[slot] is Scope
        &&& self.hooks@ == pre.hooks@.update(slot, Hook::Scope(Box::new(*child)))
        &&& self.hook_idx == pre.hook_idx
        &&& self.is_changed == pre.is_changed
        &&& self.is_parent_changed == pre.is_parent_changed
        &&& self.is_empty == pre.is_empty
        &&& self.is_container == pre.is_container
        &&& self.contexts == pre.contexts
        &&& self.generation == pre.generation
        &&& self.path == pre.path
    }

    /// A node whose nested node was exchanged for a well-formed one at the
    /// same place is well formed, and its model differs in that slot only.
    pub proof fn lemma_follows(&self, pre: &Self, slot: int, child: &Self)
        requires
            pre.wf(),
            self.follows(pre, slot, child),
            child.wf(),
            child@.path == pre@.path.push(slot as usize),
        ensures
            self.wf(),
            self@ == pre@.with_hook(slot, Hook::Scope(Box::new(*child))),
    {
        assert forall|i: int| 0 <= i < self.hooks@.len() implies (#[trigger] self.hooks@[i] matches Hook::Scope(c)
            ==> c.wf() && c.path@ == self.path@.push(i as usize)) by {
            if i != slot {
                assert(self.hooks@[i] == pre.hooks@[i]);
            }
        }
    }

    /// The nested node in `slot`, to compose it or to apply an update to it.
    pub fn child_mut(&mut self, slot: usize) -> (child: &mut ScopeData<T>)
        requires
            old(self).wf(),
            slot < old(self)@.hooks.len(),
            old(self)@.hooks[slot as int] is Scope,
        ensures
            *child == *old(self)@.hooks[slot as int]->Scope_0,
            child.wf(),
            child@.path == old(self)@.path.push(slot),
            final(self).follows(old(self), slot as int, final(child)),
    {
        match &mut self.hooks[slot] {
            Hook::Scope(child) => &mut **child,
            _ => vstd::pervasive::unreached(),
        }
    }

    /// The nested node in `slot`, if the slot exists and holds one.
    pub fn child(&self, slot: usize) -> (r: Option<&ScopeData<T>>)
        requires
            self.wf(),
        ensures
            match r {
                Some(child) => slot < self@.hooks.len() && self@.hooks[slot as int] == Hook::Scope(
                    Box::new(*child),
                ) && child.wf(),
                None => !(slot < self@.hooks.len() && self@.hooks[slot as int] is Scope),
            },
    {
        if slot < self.hooks.len() {
            match &self.hooks[slot] {
                Hook::Scope(child) => Some(&**child),
                _ => None,
            }
        } else {
            None
        }
    }

    /// Whether the next hook call makes a new slot.
    pub(crate) fn at_end(&self) -> (b: bool)
        requires
            self.wf(),
        ensures
            b == self@.at_end(),
            b ==> self@.cursor == self@.hooks.len(),
    {
        self.hook_idx >= self.hooks.len()
    }

    /// Makes the slot `hook` and goes past it.
    pub(crate) fn push_hook(&mut self, hook: Hook<T>) -> (slot: usize)
        requires
            old(self).wf(),
            old(self)@.at_end(),
            !(hook is Scope),
        ensures
            final(self).wf(),
            old(self)@.evolves(final(self)@),
            old(self)@.rests(final(self)@),
            slot == old(self)@.cursor,
            final(self)@ == old(self)@.pushed(hook),
    {
        let slot = self.hook_idx;
        self.hooks.push(hook);
        self.hook_idx = self.hooks.len();
        slot
    }

    /// Goes past the slot at the cursor.
    pub(crate) fn advance(&mut self) -> (slot: usize)
        requires
            old(self).wf(),
            !old(self)@.at_end(),
        ensures
            final(self).wf(),
            old(self)@.evolves(final(self)@),
            old(self)@.rests(final(self)@),
            slot == old(self)@.cursor,
            final(self)@ == old(self)@.advanced(),
    {
        proof {
            self.lemma_wf();
        }
        let slot = self.hook_idx;
        self.hook_idx = slot + 1;
        slot
    }

    /// The slot `slot`.
    pub(crate) fn hook(&self, slot: usize) -> (hook: &Hook<T>)
        requires
            slot < self@.hooks.len(),
        ensures
            *hook == self@.hooks[slot as int],
    {
        &self.hooks[slot]
    }

    /// Overwrites a plain slot with a plain slot.
    pub(crate) fn replace_hook(&mut self, slot: usize, hook: Hook<T>)
        requires
            old(self).wf(),
            slot < old(self)@.hooks.len(),
            old(self)@.hooks[slot as int].is_plain(),
            hook.is_plain(),
            old(self)@.hooks[slot as int].kept_by(hook),
        ensures
            final(self).wf(),
            old(self)@.evolves(final(self)@),
            old(self)@.rests(final(self)@),
            final(self)@ == old(self)@.with_hook(slot as int, hook),
    {
        self.hooks[slot] = hook;
    }

    /// Makes `value` the context value that this node and the nodes nested
    /// in it later see under `key`.
    pub(crate) fn provide(&mut self, key: u64, value: Rc<T>)
        requires
            old(self).wf(),
        ensures
            final(self).wf(),
            old(self)@.evolves(final(self)@),
            old(self)@.rests(final(self)@),
            final(self)@ == (ScopeModel {
                contexts: old(self)@.contexts.insert(key, *value),
                ..old(self)@
            }),
    {
        self.contexts.insert(key, value);
    }

    /// The context value visible at this node under `key`.
    pub(crate) fn context(&self, key: u64) -> (r: Option<Rc<T>>)
        requires
            self.wf(),
        ensures
            match r {
                Some(rc) => self@.contexts.contains_key(key) && *rc == self@.contexts[key],
                None => !self@.contexts.contains_key(key),
            },
    {
        self.contexts.get(key)
    }

    /// Counts an update that marks this node as changed.
    pub(crate) fn mark_updated(&mut self)
        requires
            old(self).wf(),
            old(self)@.generation < u64::MAX,
        ensures
            final(self).wf(),
            old(self)@.evolves(final(self)@),
            final(self)@ == (ScopeModel {
                is_changed: true,
                generation: old(self)@.generation + 1,
                ..old(self)@
            }),
    {
        self.is_changed = true;
        self.generation = self.generation + 1;
    }

    /// Makes a nested node in a new slot and goes past it. The nested node
    /// sees the context values that this node sees now.
    pub(crate) fn push_child(&mut self) -> (slot: usize)
        requires
            old(self).wf(),
            old(self)@.at_end(),
        ensures
            final(self).wf(),
            old(self)@.evolves(final(self)@),
            old(self)@.rests(final(self)@),
            slot == old(self)@.cursor,
            final(self)@.hooks.len() == old(self)@.hooks.len() + 1,
            final(self)@.hooks[slot as int] matches Hook::Scope(child) && child@ == ScopeModel::<
                T,
            >::fresh(old(self)@.contexts, old(self)@.path.push(slot)),
            final(self)@ == old(self)@.pushed(final(self)@.hooks[slot as int]),
    {
        let slot = self.hook_idx;
        let mut path = self.path();
        path.push(slot);
        let child = ScopeData {
            hooks: Vec::new(),
            hook_idx: 0,
            is_changed: false,
            is_parent_changed: false,
            is_empty: false,
            is_container: false,
            contexts: self.contexts.inherit(),
            generation: 0,
            path,
        };
        assert(child.wf());
        self.hooks.push(Hook::Scope(Box::new(child)));
        self.hook_idx = self.hooks.len();
        slot
    }

    /// Marks this node as one that only wraps a nested node.
    pub(crate) fn mark_container(&mut self)
        requires
            old(self).wf(),
        ensures
            final(self).wf(),
            old(self)@.evolves(final(self)@),
            old(self)@.rests(final(self)@),
            final(self)@ == (ScopeModel { is_container: true, ..old(self)@ }),
    {
        self.is_container = true;
    }
}

impl<T> ScopeData<T> {
    /// What the nodes nested in the first `n` slots hand out when this node
    /// is destroyed: slot by slot, each nested node's own teardowns and then
    /// those of the nodes nested in it.
    pub closed spec fn nested_teardowns(&self, n: nat) -> Seq<T>
        decreases self, n,
    {
        if n == 0 || n > self.hooks@.len() {
            Seq::empty()
        } else {
            self.nested_teardowns((n - 1) as nat) + (match self.hooks@[n - 1] {
                Hook::Scope(c) => own_teardowns(c.hooks@) + c.nested_teardowns(c.hooks@.len()),
                _ => Seq::empty(),
            })
        }
    }

    /// What this node hands out when it is destroyed: its own teardowns in
    /// the order in which they were registered, then those of its nested
    /// nodes in slot order.
    pub closed spec fn teardown_order(&self) -> Seq<T> {
        own_teardowns(self.hooks@) + self.nested_teardowns(self.hooks@.len())
    }

    /// How `teardown_order` is made up, over the model.
    pub proof fn lemma_teardown_order(&self)
        ensures
            self.teardown_order() == own_teardowns(self@.hooks) + self.nested_teardowns(
                self@.hooks.len(),
            ),
            self.nested_teardowns(0) == Seq::<T>::empty(),
            forall|n: nat|
                0 < n <= self@.hooks.len() ==> #[trigger] self.nested_teardowns(n)
                    == self.nested_teardowns((n - 1) as nat) + (match self@.hooks[n - 1] {
                    Hook::Scope(c) => c.teardown_order(),
                    _ => Seq::empty(),
                }),
    {
    }

    /// Destroys this node and the nodes nested in it, and hands out what
    /// their teardown hooks hold, each once, for the caller to run in this order.
    pub fn teardown(self) -> (out: Vec<T>)
        requires
            self.wf(),
        ensures
            out@ == self.teardown_order(),
        decreases self,
    {
        let ghost me = self;
        let ScopeData { hooks, .. } = self;
        let mut out: Vec<T> = Vec::new();
        let mut nested: Vec<Option<Box<ScopeData<T>>>> = Vec::new();
        for hook in it: hooks
            invariant
                it.seq() == me.hooks@,
                out@ == own_teardowns(me.hooks@.take(it.index() as int)),
                nested@.len() == it.index(),
                forall|j: int|
                    0 <= j < it.index() ==> #[trigger] nested@[j] == match me.hooks@[j] {
                        Hook::Scope(c) => Some(c),
                        _ => None,
                    },
        {
            proof {
                let i = it.index() as int;
                assert(me.hooks@.take(i + 1) =~= me.hooks@.take(i).push(me.hooks@[i]));
                lemma_teardown_slots_push(me.hooks@.take(i), me.hooks@[i]);
            }
            match hook {
                Hook::Teardown(v) => {
                    out.push(v);
                    nested.push(None);
                },
                Hook::Scope(c) => {
                    nested.push(Some(c));
                },
                _ => {
                    nested.push(None);
                },
            }
        }
        assert(me.hooks@.take(me.hooks@.len() as int) =~= me.hooks@);
        let ghost nested_seq = nested@;
        for child in it: nested
            invariant
                me == self,
                me.wf(),
                it.seq() == nested_seq,
                nested_seq.len() == me.hooks@.len(),
                forall|j: int|
                    0 <= j < nested_seq.len() ==> #[trigger] nested_seq[j] == match me.hooks@[j] {
                        Hook::Scope(c) => Some(c),
                        _ => None,
                    },
                out@ == own_teardowns(me.hooks@) + me.nested_teardowns(it.index() as nat),
        {
            let ghost i = it.index() as int;
            assert(nested_seq[i] == child);
            match child {
                Some(c) => {
                    assert(me.hooks@[i] == Hook::Scope(c));
                    assert(c.wf());
                    assert(decreases_to!(me => *c)) by {
                        assert(decreases_to!(me => me.hooks));
                        assert(decreases_to!(me.hooks => me.hooks@));
                        assert(decreases_to!(me.hooks@ => me.hooks@[i]));
                        assert(decreases_to!(me.hooks@[i] => *c));
                    }
                    let mut sub = c.teardown();
                    out.append(&mut sub);
                },
                None => {},
            }
            assert(out@ =~= own_teardowns(me.hooks@) + me.nested_teardowns((i + 1) as nat));
        }
        out
    }
}

impl<T> ScopeData<T> {
    /// The shapes of the first `n` slots.
    pub closed spec fn shape_upto(&self, n: nat) -> Seq<Shape>
        decreases self, n,
    {
        if n == 0 || n > self.hooks@.len() {
            Seq::empty()
        } else {
            self.shape_upto((n - 1) as nat).push(
                match self.hooks@[n - 1] {
                    Hook::Value(_) => Shape::Value,
                    Hook::Callback(_) => Shape::Callback,
                    Hook::State { .. } => Shape::State,
                    Hook::Memo { .. } => Shape::Memo,
                    Hook::Dependency(_) => Shape::Dependency,
                    Hook::Shared(_) => Shape::Shared,
                    Hook::Teardown(_) => Shape::Teardown,
                    Hook::Scope(child) => Shape::Scope(child.shape_upto(child.hooks@.len())),
                },
            )
        }
    }

    /// The shapes of the slots of this node.
    pub closed spec fn shape(&self) -> Seq<Shape> {
        self.shape_upto(self.hooks@.len())
    }

    proof fn lemma_shape_upto(&self, n: nat)
        requires
            n <= self.hooks@.len(),
        ensures
            self.shape_upto(n).len() == n,
            forall|i: int| 0 <= i < n ==> #[trigger] self.shape_upto(n)[i] == shape_of(self.hooks@[i]),
        decreases n,
    {
        if n > 0 {
            self.lemma_shape_upto((n - 1) as nat);
        }
    }

    /// The shape of a node is the shape of each of its slots.
    pub proof fn lemma_shape(&self)
        ensures
            self.shape().len() == self@.hooks.len(),
            forall|i: int|
                0 <= i < self@.hooks.len() ==> #[trigger] self.shape()[i] == shape_of(
                    self@.hooks[i],
                ),
    {
        self.lemma_shape_upto(self.hooks@.len());
    }

    /// Two nodes with the same slots have the same shape.
    pub proof fn lemma_shape_of_model(&self, other: &Self)
        requires
            self@.hooks == other@.hooks,
        ensures
            self.shape() == other.shape(),
    {
        self.lemma_shape();
        other.lemma_shape();
        assert(self.shape() =~= other.shape());
    }
}

impl<T> Default for ScopeData<T> {
    fn default() -> (cx: Self)
        ensures
            cx.wf(),
            cx@ == ScopeModel::<T>::fresh(Map::empty(), Seq::empty()),
    {
        ScopeData::new()
    }
}

} // verus!
