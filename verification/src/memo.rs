//! Memo keys: the comparable snapshot of a dependency.

use crate::scope::{ScopeData, ScopeModel};
use vstd::prelude::*;
use vstd::std_specs::cmp::{PartialEqSpec, PartialEqSpecImpl};

verus! {

/// What a dependency looked like when a memo cell last saw it.
///
/// A plain value stands for itself. A handle stands for the generation that
/// the value it refers to has when the key is taken, which is cheaper to
/// compare than the value and changes exactly when the value is changed
/// through `update`.
pub enum MemoKey<T> {
    Value(T),
    Generation(u64),
}

impl<T: PartialEq> MemoKey<T> {
    /// Whether two keys are equal: both are values that are equal, or both
    /// are the same generation.
    pub open spec fn same_as(self, other: Self) -> bool {
        match self {
            MemoKey::Value(a) => match other {
                MemoKey::Value(b) => a.eq_spec(&b),
                MemoKey::Generation(_) => false,
            },
            MemoKey::Generation(a) => match other {
                MemoKey::Value(_) => false,
                MemoKey::Generation(b) => a == b,
            },
        }
    }
}

impl<T: PartialEq> MemoKey<T> {
    /// Whether the comparison of the two keys is decided whatever `==` on
    /// `T` computes: it is unless both are values, and then it is where
    /// `==` on `T` computes what its model says.
    pub open spec fn decided(self, other: Self) -> bool {
        !(self is Value && other is Value) || T::obeys_eq_spec()
    }

    /// Whether two keys are equal.
    pub fn is_same(&self, other: &Self) -> (r: bool)
        ensures
            self.decided(*other) ==> r == self.same_as(*other),
    {
        match self {
            MemoKey::Value(a) => match other {
                MemoKey::Value(b) => *a == *b,
                MemoKey::Generation(_) => false,
            },
            MemoKey::Generation(a) => match other {
                MemoKey::Value(_) => false,
                MemoKey::Generation(b) => *a == *b,
            },
        }
    }
}

impl<T: PartialEq> PartialEq for MemoKey<T> {
    fn eq(&self, other: &Self) -> (r: bool) {
        match self {
            MemoKey::Value(a) => match other {
                MemoKey::Value(b) => *a == *b,
                MemoKey::Generation(_) => false,
            },
            MemoKey::Generation(a) => match other {
                MemoKey::Value(_) => false,
                MemoKey::Generation(b) => *a == *b,
            },
        }
    }
}

impl<T: PartialEq> PartialEqSpecImpl for MemoKey<T> {
    open spec fn obeys_eq_spec() -> bool {
        T::obeys_eq_spec()
    }

    open spec fn eq_spec(&self, other: &Self) -> bool {
        self.same_as(*other)
    }
}

/// A dependency of a memoized value.
pub trait Memoize<T>: Sized {
    /// The memo key of this dependency in a node whose model is `cx`.
    spec fn memo_key(self, cx: ScopeModel<T>) -> MemoKey<T>;

    /// Takes the memo key of this dependency in the node `cx`.
    fn memoized(self, cx: &ScopeData<T>) -> (key: MemoKey<T>)
        ensures
            key == self.memo_key(cx@),
    ;
}

/// A value that can be compared is its own memo key.
impl<T: PartialEq> Memoize<T> for T {
    open spec fn memo_key(self, cx: ScopeModel<T>) -> MemoKey<T> {
        MemoKey::Value(self)
    }

    fn memoized(self, cx: &ScopeData<T>) -> (key: MemoKey<T>) {
        MemoKey::Value(self)
    }
}

} // verus!
