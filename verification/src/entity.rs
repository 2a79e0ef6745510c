//! Entity ids as plain 64-bit values.
//!
//! Everything the library says about a unit or a building it says by id. The
//! low half of an id is the slot the ECS keeps the entity in, and "the first
//! unit of a selection" always means the one in the lowest slot.

use vstd::prelude::*;

verus! {

/// The bits that name an entity: a non-zero generation above the slot, with
/// the topmost bit clear (a set one marks ids that are not entities).
pub open spec fn names_entity(bits: u64) -> bool {
    0x1_0000_0000 <= bits < 0x8000_0000_0000_0000
}

/// The slot an id names.
pub open spec fn slot_of(bits: u64) -> u32 {
    (bits % 0x1_0000_0000) as u32
}

/// Calls `bevy::ecs::entity::Entity::try_from_bits` and, on the entity it
/// gives, `Entity::index`. `try_from_bits` refuses bits whose upper half is
/// zero or has its topmost bit set, and takes all others; `index` is the lower
/// half of the bits the entity was made from.
#[verifier::external_body]
pub(crate) fn entity_index(bits: u64) -> (index: Option<u32>)
    ensures
        index == (if names_entity(bits) {
            Some(slot_of(bits))
        } else {
            None
        }),
{
    match bevy::ecs::entity::Entity::try_from_bits(bits) {
        Ok(entity) => Some(entity.index()),
        Err(_) => None,
    }
}

} // verus!
