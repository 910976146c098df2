//! `State<'_, T>`: a shared handle on a registered state value.

use vstd::prelude::*;
use std::marker::PhantomData;
use std::sync::Arc;

verus! {

/// Calls `Arc::clone`: another pointer to the same value.
#[verifier::external_body]
fn arc_clone<T>(a: &Arc<T>) -> (r: Arc<T>)
    ensures
        *r == **a,
{
    Arc::clone(a)
}

/// A state value shared by the commands that ask for it.
pub struct State<'a, T: Send + Sync + 'static> {
    inner: Arc<T>,
    _marker: PhantomData<&'a T>,
}

impl<'a, T: Send + Sync + 'static> State<'a, T> {
    /// The value held.
    pub closed spec fn view(&self) -> T {
        *self.inner
    }

    /// Wraps a shared value.
    pub fn new(inner: Arc<T>) -> (r: Self)
        ensures
            r@ == *inner,
    {
        State { inner, _marker: PhantomData }
    }

    /// The value held.
    pub fn inner(&self) -> (r: &T)
        ensures
            *r == self@,
    {
        &*self.inner
    }

    /// Another shared pointer to the value, to move into a task.
    pub fn to_arc(&self) -> (r: Arc<T>)
        ensures
            *r == self@,
    {
        arc_clone(&self.inner)
    }
}

impl<'a, T: Send + Sync + 'static> std::ops::Deref for State<'a, T> {
    type Target = T;

    fn deref(&self) -> (r: &T)
        ensures
            *r == self@,
    {
        &*self.inner
    }
}

impl<'a, T: Send + Sync + 'static> Clone for State<'a, T> {
    /// A second handle on the same value.
    fn clone(&self) -> (r: Self)
        ensures
            r@ == self@,
    {
        State { inner: arc_clone(&self.inner), _marker: PhantomData }
    }
}

} // verus!
