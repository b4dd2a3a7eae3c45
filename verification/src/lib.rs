//! Federation core for a social-networking server: a content graph of posts
//! with referential-integrity and cascade rules, and a canonical codec that
//! turns federation objects into deterministically ordered JSON text.

use vstd::prelude::*;

pub mod json;
pub mod model;
pub mod objects;
pub mod order;
pub mod parse;
pub mod store;
pub mod strutil;
pub mod time;

verus! {

/// The distinct failure kinds this core reports; they are never coerced into
/// a generic catch-all because callers remediate each kind differently.
#[derive(Clone, Copy, Debug, PartialEq, Eq, Structural)]
pub enum FedError {
    /// A unique or foreign-key constraint was breached on a write.
    ConstraintViolation,
    /// The operation targeted an entity that does not exist.
    NotFound,
    /// Wire text is malformed and cannot be parsed at all.
    DecodeError,
    /// Wire text parsed, but required semantic fields are missing or mistyped.
    SchemaViolation,
    /// An outbound delivery failed; surfaced, never silently dropped.
    DeliveryError,
}

} // verus!
