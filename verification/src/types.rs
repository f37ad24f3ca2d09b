//! Fundamental library-wide types.

use vstd::prelude::*;

verus! {

/// A library invariant was violated.
#[derive(Debug, Clone, PartialEq, Eq)]
pub struct InvariantViolation {
    pub detail: &'static str,
}

impl InvariantViolation {
    /// Creates a new invariant violation.
    pub fn new(detail: &'static str) -> (r: Self)
        ensures
            r.detail == detail,
    {
        Self { detail }
    }
}

/// Monotonic worker generation identifier; never zero.
#[derive(Debug, Clone, Copy, PartialEq, Eq, PartialOrd, Ord, Hash)]
pub struct Generation {
    value: u64,
}

impl Generation {
    #[verifier::type_invariant]
    spec fn non_zero(self) -> bool {
        self.value != 0
    }

    /// The generation number.
    pub closed spec fn spec_value(self) -> u64 {
        self.value
    }

    /// Returns the first generation.
    pub fn genesis() -> (g: Self)
        ensures
            g.spec_value() == 1,
    {
        Self { value: 1 }
    }

    /// Returns the inner integer value.
    pub fn get(self) -> (v: u64)
        ensures
            v == self.spec_value(),
            v != 0,
    {
        proof {
            use_type_invariant(&self);
        }
        self.value
    }

    /// Constructs a generation from its non-zero wire value.
    pub fn try_new(generation: u64) -> (r: Result<Self, InvariantViolation>)
        ensures
            generation == 0 <==> r is Err,
            r matches Ok(g) ==> g.spec_value() == generation,
    {
        if generation == 0 {
            Err(InvariantViolation::new("worker generation must be non-zero"))
        } else {
            Ok(Self { value: generation })
        }
    }

    /// Advances to the next generation; exhausting u64 is an invariant failure.
    pub fn next(self) -> (r: Result<Self, InvariantViolation>)
        ensures
            self.spec_value() == u64::MAX <==> r is Err,
            r matches Ok(g) ==> g.spec_value() == self.spec_value() + 1,
    {
        proof {
            use_type_invariant(&self);
        }
        if self.value == u64::MAX {
            Err(InvariantViolation::new("worker generation exhausted u64"))
        } else {
            Ok(Self { value: self.value + 1 })
        }
    }
}

} // verus!
