//! Opaque Runtime-local identities. Each names one exact occurrence, carries no
//! authority, and supports equality only.

use vstd::prelude::*;

verus! {

/// Opaque, Runtime-local correlation identity for one Fiber.
#[derive(Clone, Copy, PartialEq, Eq, Structural, Debug, Hash)]
pub struct FiberId(pub usize);

/// Opaque identity of one exact listener registration occurrence.
#[derive(Clone, Copy, PartialEq, Eq, Structural, Debug, Hash)]
pub struct ListenerRegistrationId(pub u64);

/// Opaque identity of one successful Service publication occurrence. Every
/// replacement receives a fresh value, so stale cleanup never names a later
/// publication.
#[derive(Clone, Copy, PartialEq, Eq, Structural, Debug, Hash)]
pub struct ServiceOccurrenceId(pub u64);

/// Opaque Runtime-local correlation identity for one Service publication.
#[derive(Clone, Copy, PartialEq, Eq, Structural, Debug, Hash)]
pub struct ServicePublicationId(pub ServiceOccurrenceId);

/// The placement part of one exact Service slot.
#[derive(Clone, Copy, PartialEq, Eq, Structural, Debug, Hash)]
pub struct RealmKey(pub u64);

impl RealmKey {
    /// The realm that every Service has before any derivation places it
    /// elsewhere.
    pub open spec fn spec_default() -> RealmKey {
        RealmKey(0)
    }

    /// The default realm.
    pub fn default_realm() -> (r: RealmKey)
        ensures
            r == RealmKey::spec_default(),
    {
        RealmKey(0)
    }
}

/// Identity of one typed contract: a Service type, a Plugin type, an Event's
/// argument or output type.
#[derive(Clone, Copy, PartialEq, Eq, Structural, Debug, Hash)]
pub struct ContractId(pub u64);

/// Correlation identity for one Event Scope position in one Runtime.
#[derive(Clone, Copy, PartialEq, Eq, Structural, Debug, Hash)]
pub struct ScopeId {
    /// The Runtime the position belongs to.
    pub membership: u64,
    /// The position's own node; `None` is the root position.
    pub layer: Option<u64>,
}

/// Exact key of one installed log exporter.
#[derive(Clone, Copy, PartialEq, Eq, Structural, Debug, Hash)]
pub struct ExporterKey(pub u64);

} // verus!
