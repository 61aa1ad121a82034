use vstd::prelude::*;

verus! {

/// Identifier of an entity of the host's scene.
pub type EntityId = u32;

/// The entity id that a component carries before the host attaches it.
pub const UNATTACHED: EntityId = 4294967295;

/// How the host tells a component apart from the others: the entity that owns
/// it, and how many components of the same kind that entity held before it.
#[derive(Clone, Copy, Debug, PartialEq, Eq, Structural)]
pub struct ComponentId {
    pub entity: EntityId,
    pub ordinal: u32,
}

impl ComponentId {
    pub open spec fn unattached_spec() -> ComponentId {
        ComponentId { entity: UNATTACHED, ordinal: 0 }
    }

    /// The id of a component that no entity owns yet.
    pub fn unattached() -> (r: ComponentId)
        ensures
            r == Self::unattached_spec(),
    {
        ComponentId { entity: UNATTACHED, ordinal: 0 }
    }

    /// The id of a component once `parent` owns it, after `same_component_count`
    /// components of its kind.
    pub open spec fn attached_spec(parent: EntityId, same_component_count: u32) -> ComponentId {
        ComponentId { entity: parent, ordinal: same_component_count }
    }
}

} // verus!
