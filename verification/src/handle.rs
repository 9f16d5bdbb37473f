//! Handles to the values of a node.
//!
//! A handle is the index of a hook slot together with the generation that
//! the value had when the handle was made. It never owns the value: it reads
//! it, or asks for its mutation, through the node that holds the slot.

use crate::memo::{MemoKey, Memoize};
use crate::runtime::{Runtime, Update, UpdateModel};
use crate::scope::{ScopeData, ScopeModel};
use vstd::prelude::*;
use vstd::std_specs::convert::FromSpecImpl;

verus! {

/// An immutable handle to a value, stamped with the generation at which the
/// value was seen when the handle was made.
#[derive(Clone, Copy, Debug)]
pub struct Ref {
    pub slot: usize,
    pub generation: u64,
}

impl Ref {
    /// A handle to the part of the value that `f` picks, of whatever type
    /// the part is. The part is picked anew whenever the handle is read.
    pub fn map<T, U: ?Sized, P: Fn(&T) -> &U>(me: Ref, f: P) -> (map: Mapped<P>)
        ensures
            map.base == me,
            map.project == f,
    {
        Mapped { base: me, project: f }
    }

    /// The value as it is now, if the slot exists and holds one.
    pub fn get<'a, T>(&self, cx: &'a ScopeData<T>) -> (r: Option<&'a T>)
        ensures
            match r {
                Some(v) => cx@.value_at(self.slot as int) == Some(*v),
                None => cx@.value_at(self.slot as int) is None,
            },
    {
        cx.value(self.slot)
    }

    /// Whether the value is still at the generation that this handle was
    /// stamped with.
    pub fn is_current<T>(&self, cx: &ScopeData<T>) -> (b: bool)
        ensures
            b == (cx@.stamp_at(self.slot as int) == Some(self.generation)),
    {
        match cx.stamp(self.slot) {
            Some(generation) => generation == self.generation,
            None => false,
        }
    }
}

/// The generation that stands for a handle to `slot` as a memo key: the
/// one that the value in the slot has now, and the stamp of the handle only
/// where the slot holds no value.
pub open spec fn live_generation<T>(cx: ScopeModel<T>, slot: usize, stamp: u64) -> u64 {
    match cx.stamp_at(slot as int) {
        Some(generation) => generation,
        None => stamp,
    }
}

/// The memo key of a handle is the generation that the value has when the
/// key is taken, not the one that the handle was stamped with.
impl<T> Memoize<T> for Ref {
    open spec fn memo_key(self, cx: ScopeModel<T>) -> MemoKey<T> {
        MemoKey::Generation(live_generation(cx, self.slot, self.generation))
    }

    fn memoized(self, cx: &ScopeData<T>) -> (key: MemoKey<T>) {
        match cx.stamp(self.slot) {
            Some(generation) => MemoKey::Generation(generation),
            None => MemoKey::Generation(self.generation),
        }
    }
}

/// A handle to a mutable value. It can ask a runtime to mutate the value.
#[derive(Clone, Copy, Debug)]
pub struct Mut {
    pub slot: usize,
    pub generation: u64,
}

impl Mut {
    /// The update that this handle asks for in the node `cx`.
    pub open spec fn request<T, F>(self, cx: ScopeData<T>, marks: bool, f: F) -> UpdateModel<F> {
        UpdateModel { path: cx@.path, slot: self.slot, marks, f }
    }

    /// Hands the runtime an update that makes the value what `f` makes of
    /// it, marks the node `cx` that holds the value as changed and counts
    /// one more generation of the value and of the node.
    pub fn update<T, F>(self, cx: &mut ScopeData<T>, rt: &mut Runtime<F>, f: F) -> (applied:
        bool) where F: FnOnce(&T) -> T
        requires
            old(cx).wf(),
            old(rt).wf::<T>(),
            forall|v: &T| #[trigger] call_requires(f, (v,)),
        ensures
            final(cx).wf(),
            final(rt).wf::<T>(),
            old(cx)@.evolves(final(cx)@),
            final(cx).shape() == old(cx).shape(),
            old(rt).takes(
                final(rt),
                *old(cx),
                *final(cx),
                self.request(*old(cx), true, f),
                applied,
            ),
    {
        let update = Update { path: cx.path(), slot: self.slot, marks: true, f };
        rt.update(cx, update)
    }

    /// Hands the runtime an update that makes the value what `f` makes of
    /// it and marks nothing as changed.
    pub fn with<T, F>(self, cx: &mut ScopeData<T>, rt: &mut Runtime<F>, f: F) -> (applied:
        bool) where F: FnOnce(&T) -> T
        requires
            old(cx).wf(),
            old(rt).wf::<T>(),
            forall|v: &T| #[trigger] call_requires(f, (v,)),
        ensures
            final(cx).wf(),
            final(rt).wf::<T>(),
            old(cx)@.evolves(final(cx)@),
            final(cx).shape() == old(cx).shape(),
            old(rt).takes(
                final(rt),
                *old(cx),
                *final(cx),
                self.request(*old(cx), false, f),
                applied,
            ),
    {
        let update = Update { path: cx.path(), slot: self.slot, marks: false, f };
        rt.update(cx, update)
    }

    /// The immutable handle to the same value, with the same stamp.
    pub open spec fn as_ref_spec(self) -> Ref {
        Ref { slot: self.slot, generation: self.generation }
    }

    /// The immutable handle to the same value, with the same stamp.
    pub fn as_ref(self) -> (r: Ref)
        ensures
            r == self.as_ref_spec(),
    {
        Ref { slot: self.slot, generation: self.generation }
    }

    /// The value as it is now, if the slot exists and holds one.
    pub fn get<'a, T>(&self, cx: &'a ScopeData<T>) -> (r: Option<&'a T>)
        ensures
            match r {
                Some(v) => cx@.value_at(self.slot as int) == Some(*v),
                None => cx@.value_at(self.slot as int) is None,
            },
    {
        cx.value(self.slot)
    }
}

/// The memo key of a handle is the generation that the value has when the
/// key is taken, not the one that the handle was stamped with.
impl<T> Memoize<T> for Mut {
    open spec fn memo_key(self, cx: ScopeModel<T>) -> MemoKey<T> {
        MemoKey::Generation(live_generation(cx, self.slot, self.generation))
    }

    fn memoized(self, cx: &ScopeData<T>) -> (key: MemoKey<T>) {
        match cx.stamp(self.slot) {
            Some(generation) => MemoKey::Generation(generation),
            None => MemoKey::Generation(self.generation),
        }
    }
}

/// A handle to a part of a value: a handle to the value and the function
/// that picks the part.
#[derive(Clone, Copy)]
pub struct Mapped<P> {
    pub base: Ref,
    pub project: P,
}

impl<P> Mapped<P> {
    /// Whether `part` is what this handle can read in a node whose slots are
    /// those of `cx`.
    pub open spec fn reads<T, U: ?Sized>(&self, cx: ScopeData<T>, part: Option<&U>) -> bool where
        P: Fn(&T) -> &U,
     {
        match cx@.value_at(self.base.slot as int) {
            Some(v) => part matches Some(p) && call_ensures(self.project, (&v,), p),
            None => part is None,
        }
    }

    /// The part as it is now, if the slot of the value exists and holds one.
    pub fn get<'a, T, U: ?Sized>(&self, cx: &'a ScopeData<T>) -> (r: Option<&'a U>) where
        P: Fn(&T) -> &U,

        requires
            cx@.value_at(self.base.slot as int) matches Some(v) ==> call_requires(
                self.project,
                (&v,),
            ),
        ensures
            self.reads(*cx, r),
    {
        match cx.value(self.base.slot) {
            Some(v) => Some((self.project)(v)),
            None => None,
        }
    }
}

/// A handle to a value or to a part of one.
#[derive(Clone, Copy)]
pub enum RefMap<P> {
    Ref(Ref),
    Mapped(Mapped<P>),
}

impl<P> RefMap<P> {
    /// Whether this handle can be read in `cx`: where it is a handle to a
    /// part, the function that picks the part accepts the value.
    pub open spec fn readable<T>(&self, cx: ScopeData<T>) -> bool where P: Fn(&T) -> &T {
        match *self {
            RefMap::Ref(_) => true,
            RefMap::Mapped(map) => cx@.value_at(map.base.slot as int) matches Some(v)
                ==> call_requires(map.project, (&v,)),
        }
    }

    /// Whether `r` is what this handle can read in `cx`.
    pub open spec fn reads<T>(&self, cx: ScopeData<T>, r: Option<&T>) -> bool where
        P: Fn(&T) -> &T,
     {
        match *self {
            RefMap::Ref(me) => match r {
                Some(v) => cx@.value_at(me.slot as int) == Some(*v),
                None => cx@.value_at(me.slot as int) is None,
            },
            RefMap::Mapped(map) => map.reads(cx, r),
        }
    }

    /// The value or part as it is now, if the slot exists and holds a value.
    pub fn get<'a, T>(&self, cx: &'a ScopeData<T>) -> (r: Option<&'a T>) where P: Fn(&T) -> &T
        requires
            self.readable(*cx),
        ensures
            self.reads(*cx, r),
    {
        match self {
            RefMap::Ref(me) => me.get(cx),
            RefMap::Mapped(map) => map.get(cx),
        }
    }
}

impl<P> From<Ref> for RefMap<P> {
    fn from(value: Ref) -> (r: Self) {
        RefMap::Ref(value)
    }
}

impl<P> FromSpecImpl<Ref> for RefMap<P> {
    open spec fn obeys_from_spec() -> bool {
        true
    }

    open spec fn from_spec(value: Ref) -> Self {
        RefMap::Ref(value)
    }
}

impl<P> From<Mapped<P>> for RefMap<P> {
    fn from(value: Mapped<P>) -> (r: Self) {
        RefMap::Mapped(value)
    }
}

impl<P> FromSpecImpl<Mapped<P>> for RefMap<P> {
    open spec fn obeys_from_spec() -> bool {
        true
    }

    open spec fn from_spec(value: Mapped<P>) -> Self {
        RefMap::Mapped(value)
    }
}

/// A value that is owned, or borrowed through a handle.
pub enum Cow<T, P> {
    Borrowed(RefMap<P>),
    Owned(T),
}

impl<T, P> Cow<T, P> {
    /// The value as it is now: the owned value, or what the handle reads.
    pub fn get<'a>(&'a self, cx: &'a ScopeData<T>) -> (r: Option<&'a T>) where P: Fn(&T) -> &T
        requires
            self matches Cow::Borrowed(handle) ==> handle.readable(*cx),
        ensures
            match *self {
                Cow::Borrowed(handle) => handle.reads(*cx, r),
                Cow::Owned(value) => r == Some(&value),
            },
    {
        match self {
            Cow::Borrowed(handle) => handle.get(cx),
            Cow::Owned(value) => Some(value),
        }
    }

    /// The value, owned: the owned value itself, or a clone of what the
    /// handle reads. `None` if the handle reads nothing.
    pub fn into_owned(self, cx: &ScopeData<T>) -> (r: Option<T>) where T: Clone, P: Fn(&T) -> &T
        requires
            self matches Cow::Borrowed(handle) ==> handle.readable(*cx),
        ensures
            match self {
                Cow::Borrowed(handle) => exists|read: Option<&T>|
                    {
                        &&& #[trigger] handle.reads(*cx, read)
                        &&& match read {
                            Some(v) => r matches Some(owned) && cloned::<T>(*v, owned),
                            None => r is None,
                        }
                    },
                Cow::Owned(value) => r == Some(value),
            },
    {
        match self {
            Cow::Borrowed(handle) => {
                let read = handle.get(cx);
                match read {
                    Some(v) => Some(v.clone()),
                    None => None,
                }
            },
            Cow::Owned(value) => Some(value),
        }
    }
}

impl<T, P> From<RefMap<P>> for Cow<T, P> {
    fn from(value: RefMap<P>) -> (r: Self) {
        Cow::Borrowed(value)
    }
}

impl<T, P> FromSpecImpl<RefMap<P>> for Cow<T, P> {
    open spec fn obeys_from_spec() -> bool {
        true
    }

    open spec fn from_spec(value: RefMap<P>) -> Self {
        Cow::Borrowed(value)
    }
}

impl<T, P> From<Ref> for Cow<T, P> {
    fn from(value: Ref) -> (r: Self) {
        Cow::Borrowed(RefMap::Ref(value))
    }
}

impl<T, P> FromSpecImpl<Ref> for Cow<T, P> {
    open spec fn obeys_from_spec() -> bool {
        true
    }

    open spec fn from_spec(value: Ref) -> Self {
        Cow::Borrowed(RefMap::Ref(value))
    }
}

impl<T, P> From<Mapped<P>> for Cow<T, P> {
    fn from(value: Mapped<P>) -> (r: Self) {
        Cow::Borrowed(RefMap::Mapped(value))
    }
}

impl<T, P> FromSpecImpl<Mapped<P>> for Cow<T, P> {
    open spec fn obeys_from_spec() -> bool {
        true
    }

    open spec fn from_spec(value: Mapped<P>) -> Self {
        Cow::Borrowed(RefMap::Mapped(value))
    }
}

} // verus!
