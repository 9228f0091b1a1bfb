//! 128-bit identifiers of plugins and handlers, carried as two 64-bit halves.
use vstd::prelude::*;

verus! {

/// A 128-bit unique identifier: a plugin id, a handler id, or the core's id.
#[derive(Debug, Clone, Copy, PartialEq, Eq, Structural)]
pub struct CUuid {
    pub higher: u64,
    pub lower: u64,
}

impl CUuid {
    /// Builds an identifier from its high and low 64 bits.
    pub fn from_u64_pair(higher: u64, lower: u64) -> (r: CUuid)
        ensures
            r.higher == higher,
            r.lower == lower,
    {
        CUuid { higher, lower }
    }

    /// The high and low 64 bits of this identifier.
    pub fn as_u64_pair(&self) -> (r: (u64, u64))
        ensures
            r == (self.higher, self.lower),
    {
        (self.higher, self.lower)
    }

    /// A fresh random (version 4) identifier. Nothing is promised of its
    /// value: two calls may in principle return the same one, which is why
    /// every registration still checks for duplicates.
    pub fn new_v4() -> (r: CUuid) {
        let (higher, lower) = random_u64_pair();
        CUuid { higher, lower }
    }
}

/// Relies on uuid::Uuid::new_v4 and Uuid::as_u64_pair: a random identifier,
/// split into its two halves. The value depends on chance alone.
#[verifier::external_body]
fn random_u64_pair() -> (r: (u64, u64)) {
    uuid::Uuid::new_v4().as_u64_pair()
}

/// Identifiers rebuilt from their two halves are the ones split.
pub proof fn lemma_uuid_round_trip(id: CUuid, higher: u64, lower: u64)
    ensures
        (CUuid { higher: id.higher, lower: id.lower }) == id,
        (CUuid { higher, lower }).higher == higher && (CUuid { higher, lower }).lower == lower,
{
}

} // verus!
