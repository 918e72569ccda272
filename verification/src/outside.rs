//! The contracts this library assumes of the outside crates it calls.

use vstd::prelude::*;

verus! {

/// Relies on rand's `random`: a fresh sample of the standard distribution.
/// Nothing can be promised of a random value.
pub assume_specification<T>[ rand::random::<T> ]() -> (r: T)
    where
        rand::distr::StandardUniform: rand::distr::Distribution<T>,
;

} // verus!
