use vstd::prelude::*;
use std::sync::Arc;

verus! {

/// A shared-ownership handle to the one application-state value of the
/// process.  The composer never reads or changes the value; it only hands a
/// further handle to every group that asks for one.  The ghost `instance`
/// field names the allocation the handle refers to, so that contracts can
/// state that two handles refer to the identical instance, not merely to
/// equal values.
pub struct StateHandle<S> {
    inner: Arc<S>,
    instance: Ghost<int>,
}

/// Relies on `Arc::clone`: the result is a new handle to the very allocation
/// the argument refers to, equal to it.
#[verifier::external_body]
fn arc_clone<S>(a: &Arc<S>) -> (r: Arc<S>)
    ensures
        r == *a,
{
    Arc::clone(a)
}

/// Relies on `Arc::as_ref`: a shared reference to the value the handle owns.
#[verifier::external_body]
fn arc_get<S>(a: &Arc<S>) -> (r: &S)
    ensures
        *r == **a,
{
    a.as_ref()
}

impl<S> StateHandle<S> {
    /// The value all handles to this instance share.
    pub closed spec fn value(&self) -> S {
        *self.inner
    }

    /// The identity of the instance the handle refers to.  Handles obtained
    /// from one another by `clone_handle` agree on it.
    pub closed spec fn instance(&self) -> int {
        self.instance@
    }

    /// Wraps the one application-state value for shared distribution.
    pub fn new(value: S) -> (h: Self)
        ensures
            h.value() == value,
    {
        StateHandle { inner: Arc::new(value), instance: Ghost(arbitrary()) }
    }

    /// A further handle to the identical instance.
    pub fn clone_handle(&self) -> (h: Self)
        ensures
            h.instance() == self.instance(),
            h.value() == self.value(),
    {
        StateHandle { inner: arc_clone(&self.inner), instance: Ghost(self.instance@) }
    }

    /// Read access to the shared value.
    pub fn get(&self) -> (r: &S)
        ensures
            *r == self.value(),
    {
        arc_get(&self.inner)
    }
}

} // verus!
