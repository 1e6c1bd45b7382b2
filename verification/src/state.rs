use std::sync::Arc;
use vstd::prelude::*;

verus! {

/// Shared state handed to tools, held behind an `Arc`.
#[derive(Debug)]
pub struct State<T>(pub Arc<T>);

/// `Arc::clone`: documented to return another pointer to the same allocation,
/// so the value seen through it is the same.
#[verifier::external_body]
fn arc_clone<T>(a: &Arc<T>) -> (r: Arc<T>)
    ensures
        r == *a,
{
    Arc::clone(a)
}

impl<T> State<T> {
    /// Wraps `value` in a fresh `Arc`.
    pub fn new(value: T) -> (s: Self)
        ensures
            *s.0 == value,
    {
        State(Arc::new(value))
    }

    /// The shared value.
    pub fn get(&self) -> (r: &T)
        ensures
            *r == *self.0,
    {
        &*self.0
    }
}

impl<T> Clone for State<T> {
    fn clone(&self) -> (r: Self)
        ensures
            r.0 == self.0,
    {
        State(arc_clone(&self.0))
    }
}

impl<T> std::ops::Deref for State<T> {
    type Target = T;

    fn deref(&self) -> (r: &T)
        ensures
            *r == *self.0,
    {
        &*self.0
    }
}

impl<T> From<T> for State<T> {
    fn from(value: T) -> (s: Self) {
        State::new(value)
    }
}

impl<T> vstd::std_specs::convert::FromSpecImpl<T> for State<T> {
    open spec fn obeys_from_spec() -> bool {
        true
    }

    open spec fn from_spec(v: T) -> Self {
        choose|s: State<T>| *s.0 == v
    }
}

impl<T> From<Arc<T>> for State<T> {
    fn from(arc: Arc<T>) -> (s: Self) {
        State(arc)
    }
}

impl<T> vstd::std_specs::convert::FromSpecImpl<Arc<T>> for State<T> {
    open spec fn obeys_from_spec() -> bool {
        true
    }

    open spec fn from_spec(v: Arc<T>) -> Self {
        State(v)
    }
}

} // verus!
