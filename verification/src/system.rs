//! What a system asks of the world, and what the world answers before the
//! system runs.

use crate::component::bit_mask;
use crate::entity::{has_bit, lemma_bit_added, BitmaskType, Entity, BITMASK_WIDTH};
use crate::type_map::ComponentId;
use std::sync::Arc;
use vstd::prelude::*;

verus! {

/// The four kinds of access handle.
#[derive(Clone, Copy, Debug, PartialEq, Eq, Structural)]
pub enum AccessKind {
    /// Reads the components of one type.
    Read,
    /// Writes the components of one type.
    Write,
    /// Reads one unique component.
    UniqueRead,
    /// Writes one unique component.
    UniqueWrite,
}

impl AccessKind {
    /// Whether the handle is for a unique component, and so takes no part
    /// in the filter.
    pub open spec fn unique(&self) -> bool {
        *self is UniqueRead || *self is UniqueWrite
    }

    /// Says whether the handle is for a unique component.
    pub fn is_unique(&self) -> (r: bool)
        ensures
            r == self.unique(),
    {
        match self {
            AccessKind::Read => false,
            AccessKind::Write => false,
            AccessKind::UniqueRead => true,
            AccessKind::UniqueWrite => true,
        }
    }
}

/// One parameter of a system: a kind of handle and a component type.
#[derive(Clone, Copy, Debug, PartialEq, Eq, Structural)]
pub struct AccessRequest {
    /// The kind of the handle.
    pub kind: AccessKind,
    /// The component type of the handle.
    pub type_id: ComponentId,
}

impl AccessRequest {
    /// Creates the request of a handle of the kind `kind` for the component
    /// type `type_id`.
    pub fn new(kind: AccessKind, type_id: ComponentId) -> (r: Self)
        ensures
            r.kind == kind,
            r.type_id == type_id,
    {
        Self { kind, type_id }
    }
}

/// Whether some handle of `requests` that is not for a unique component
/// names a type without a bit under `bits`.
pub open spec fn asks_unregistered(
    bits: spec_fn(ComponentId) -> Option<u8>,
    requests: Seq<AccessRequest>,
) -> bool {
    exists|k: int|
        0 <= k < requests.len() && !(#[trigger] requests[k]).kind.unique() && bits(
            requests[k].type_id,
        ) is None
}

/// Whether some handle of `requests` for a unique component names a type
/// that `installed` does not hold.
pub open spec fn asks_missing_unique(
    installed: spec_fn(ComponentId) -> bool,
    requests: Seq<AccessRequest>,
) -> bool {
    exists|k: int|
        0 <= k < requests.len() && (#[trigger] requests[k]).kind.unique() && !installed(
            requests[k].type_id,
        )
}

/// The filter of a system: the bits of the types of its handles that are
/// not for unique components.
pub open spec fn filter_of(
    bits: spec_fn(ComponentId) -> Option<u8>,
    requests: Seq<AccessRequest>,
) -> BitmaskType
    decreases requests.len(),
{
    if requests.len() == 0 {
        0
    } else {
        let last = requests.last();
        filter_of(bits, requests.drop_last()) | if last.kind.unique() {
            0
        } else {
            match bits(last.type_id) {
                Some(bit) => bit_mask(bit),
                None => 0,
            }
        }
    }
}

/// The filter of a system holds the bit of every type that one of its
/// handles on a column names.
pub proof fn lemma_filter_holds(
    bits: spec_fn(ComponentId) -> Option<u8>,
    requests: Seq<AccessRequest>,
    k: int,
)
    requires
        forall|t: ComponentId| (#[trigger] bits(t)) matches Some(b) ==> b < BITMASK_WIDTH,
        0 <= k < requests.len(),
        !requests[k].kind.unique(),
        bits(requests[k].type_id) is Some,
    ensures
        has_bit(filter_of(bits, requests), bits(requests[k].type_id)->0 as int),
    decreases requests.len(),
{
    let bit = bits(requests[k].type_id)->0 as int;
    let rest = filter_of(bits, requests.drop_last());
    let last = requests.last();
    if k < requests.len() - 1 {
        assert(requests.drop_last()[k] == requests[k]);
        lemma_filter_holds(bits, requests.drop_last(), k);
    }
    if !last.kind.unique() && bits(last.type_id) is Some {
        lemma_bit_added(rest, bits(last.type_id)->0 as int, bit);
    } else {
        assert(rest | 0 == rest) by (bit_vector);
    }
}

/// What the world hands to a system before it runs: the filter of the
/// system and the entities that pass it.
pub struct Plan {
    /// The filter of the system.
    pub filter: BitmaskType,
    /// The entities that pass the filter, by ascending identifier.
    pub entities: Arc<Vec<Entity>>,
}

} // verus!
