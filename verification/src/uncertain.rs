//! A scalar paired with its one-sigma uncertainty.

use vstd::prelude::*;

verus! {

/// A value together with its associated standard deviation.
///
/// The first component is the value, the second its one-sigma
/// uncertainty.  Arithmetic on uncertain scalars propagates the
/// standard deviation by first-order Gaussian propagation; that
/// arithmetic is carried out by the consumer on the exact operands
/// this type holds.
#[derive(Debug, Clone, Copy)]
pub struct Uncertain<T>(pub T, pub T);

impl<T: Copy> Uncertain<T> {
    /// Create a new uncertain value from a value and its standard deviation.
    pub fn new(value: T, uncertainty: T) -> (r: Self)
        ensures
            r.0 == value,
            r.1 == uncertainty,
    {
        Uncertain(value, uncertainty)
    }

    /// The value of the uncertain value.
    pub fn value(&self) -> (r: T)
        ensures
            r == self.0,
    {
        self.0
    }

    /// The standard deviation of the uncertain value.
    pub fn error(&self) -> (r: T)
        ensures
            r == self.1,
    {
        self.1
    }
}

} // verus!
