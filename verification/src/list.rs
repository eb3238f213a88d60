//! A list that the grammar requires to be non-empty.

use vstd::prelude::*;

verus! {

/// A sequence of at least one element, as required wherever the grammar
/// writes `1*...`.
#[derive(Debug)]
pub struct NonEmptyVec<T> {
    inner: Vec<T>,
}

impl<T> View for NonEmptyVec<T> {
    type V = Seq<T>;

    closed spec fn view(&self) -> Seq<T> {
        self.inner@
    }
}

impl<T> NonEmptyVec<T> {
    #[verifier::type_invariant]
    spec fn wf(self) -> bool {
        self.inner@.len() >= 1
    }

    /// Wraps a vector without re-checking it; the caller must already have
    /// established that it is non-empty.
    pub fn new_unchecked(inner: Vec<T>) -> (r: Self)
        requires
            inner@.len() >= 1,
        ensures
            r@ == inner@,
    {
        NonEmptyVec { inner }
    }

    /// Checked constructor: accepts exactly the non-empty vectors.
    pub fn try_from(inner: Vec<T>) -> (r: Result<Self, ()>)
        ensures
            r.is_ok() == (inner@.len() >= 1),
            r matches Ok(v) ==> v@ == inner@,
    {
        if inner.len() >= 1 {
            Ok(NonEmptyVec { inner })
        } else {
            Err(())
        }
    }

    /// The elements; there is always at least one.
    pub fn as_slice(&self) -> (r: &[T])
        ensures
            r@ == self@,
            self@.len() >= 1,
    {
        proof {
            use_type_invariant(self);
        }
        self.inner.as_slice()
    }

    /// The number of elements, never zero.
    pub fn len(&self) -> (n: usize)
        ensures
            n == self@.len(),
            n >= 1,
    {
        proof {
            use_type_invariant(self);
        }
        self.inner.len()
    }
}

}
