use vstd::prelude::*;

verus! {

/// The error kinds that component-level operations surface.
///
/// `Storage` wraps an I/O or constraint failure of the durable layer,
/// `Serialization` marks malformed revision bytes, `Transport` a failed
/// remote fetch, and `InvariantViolation` a logic defect such as more than
/// one active configuration for a single `(field_id, field_type)` key.
#[derive(Clone, Copy, Debug, PartialEq, Eq, Structural)]
pub enum SyncError {
    Storage,
    Serialization,
    Transport,
    InvariantViolation,
}

} // verus!
