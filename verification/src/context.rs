//! Context values: what a node provides to itself and its descendants.

use std::collections::HashMap;
use std::rc::Rc;
use vstd::prelude::*;

verus! {

/// A second handle to the value behind `rc`.
///
/// Calls `Rc::clone`, which returns another pointer to the same allocation:
/// the value behind the result is the value behind `rc`.
#[verifier::external_body]
pub(crate) fn share<T>(rc: &Rc<T>) -> (res: Rc<T>)
    ensures
        res == *rc,
{
    Rc::clone(rc)
}

/// The lookup of a context value found no provider for the requested key.
#[derive(Debug)]
pub struct ContextError {
    key: u64,
}

impl ContextError {
    /// The key that no enclosing node provides a value for.
    pub closed spec fn missing(&self) -> u64 {
        self.key
    }

    /// The error of a lookup under `key`.
    pub fn new(key: u64) -> (e: Self)
        ensures
            e.missing() == key,
    {
        ContextError { key }
    }

    /// The key that no enclosing node provides a value for.
    pub fn key(&self) -> (k: u64)
        ensures
            k == self.missing(),
    {
        self.key
    }
}

/// The context values visible at one node, by key.
pub(crate) struct Contexts<T> {
    values: HashMap<u64, Rc<T>>,
}

impl<T> Contexts<T> {
    pub(crate) closed spec fn view(&self) -> Map<u64, T> {
        Map::new(|k: u64| self.values@.contains_key(k), |k: u64| *self.values@[k])
    }

    pub(crate) fn new() -> (c: Self)
        ensures
            c@ == Map::<u64, T>::empty(),
    {
        let c = Contexts { values: HashMap::new() };
        assert(c@ =~= Map::<u64, T>::empty());
        c
    }

    /// The value visible under `key`, if any node on the way up provides one.
    pub(crate) fn get(&self, key: u64) -> (r: Option<Rc<T>>)
        ensures
            match r {
                Some(rc) => self@.contains_key(key) && *rc == self@[key],
                None => !self@.contains_key(key),
            },
    {
        match self.values.get(&key) {
            Some(value) => Some(share(value)),
            None => None,
        }
    }

    /// Makes `value` the value visible under `key`.
    pub(crate) fn insert(&mut self, key: u64, value: Rc<T>)
        ensures
            final(self)@ == old(self)@.insert(key, *value),
    {
        self.values.insert(key, value);
        assert(self@ =~= old(self)@.insert(key, *value));
    }

    /// A copy for a child node: the same values under the same keys.
    pub(crate) fn inherit(&self) -> (c: Self)
        ensures
            c@ == self@,
    {
        let c = Contexts { values: self.values.clone() };
        assert(c@ =~= self@);
        c
    }
}

} // verus!
