use vstd::prelude::*;

verus! {

/// A guard that runs an action when it goes out of scope, unless it was
/// cancelled first.
pub struct OnDrop<F: FnOnce()> {
    f: Option<F>,
}

impl<F: FnOnce()> OnDrop<F> {
    /// The action that will run when the guard is dropped, if any.
    pub closed spec fn action(&self) -> Option<F> {
        self.f
    }

    /// Whether dropping the guard will still run its action.
    pub open spec fn armed(&self) -> bool {
        self.action() is Some
    }

    /// Arms a guard with `f`, an action that can be run at any time.
    pub fn new(f: F) -> (guard: Self)
        requires
            call_requires(f, ()),
        ensures
            guard.action() == Some(f),
    {
        Self { f: Some(f) }
    }

    /// Disarms the guard: dropping it afterwards does nothing.
    pub fn cancel(&mut self)
        ensures
            final(self).action() is None,
    {
        self.f = None;
    }
}

impl<F: FnOnce()> Drop for OnDrop<F> {
    /// Takes the action out of the guard with `Option::take` and calls it.
    /// Destructor bodies are outside of what the verifier reads, so nothing
    /// is claimed of this body; the action itself must not panic.
    #[verifier::external_body]
    fn drop(&mut self)
        opens_invariants none
        no_unwind
    {
        if let Some(f) = self.f.take() {
            f()
        }
    }
}

} // verus!
