//! Hardware identity.
//!
//! The engine only ever asks two things of a compute backend: that every
//! operand of a step lives on the same backend instance, and that results
//! are produced on that same instance. Backend instances are therefore
//! represented by an identity token; two instances are interchangeable only
//! when their identities are equal, never merely because they behave alike.
//! The element kernels themselves are exact rational arithmetic, performed
//! on the values held by [`crate::array::Array`].

use vstd::prelude::*;

verus! {

/// One compute backend instance, known to the engine by identity alone.
///
/// Callers give each instance they create a distinct identity; every array
/// records the identity of the instance it lives on, and mixing identities
/// inside one step is a `HardwareMismatch`.
#[derive(Debug)]
pub struct Hardware {
    id: u64,
}

impl View for Hardware {
    type V = u64;

    closed spec fn view(&self) -> u64 {
        self.id
    }
}

impl Hardware {
    /// A backend instance with the given identity.
    pub fn new(id: u64) -> (r: Hardware)
        ensures
            r@ == id,
    {
        Hardware { id }
    }

    /// The identity of this instance.
    pub fn id(&self) -> (r: u64)
        ensures
            r == self@,
    {
        self.id
    }
}

} // verus!
