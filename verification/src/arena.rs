//! The node arena: a `slotmap::SlotMap` and the few of its operations the graph
//! needs. Nothing here is proved; every contract restates what the slot map's
//! source shows.

use crate::operation::{Node, NodeIdentifier, Operation};
use slotmap::{DefaultKey, Key, KeyData, SlotMap};
use vstd::prelude::*;

verus! {

/// Owner of all node storage: a slot map from `DefaultKey` to `Node`.
///
/// The slot map's own type cannot be made known to Verus, because its key
/// parameter is bound by the crate's `Key` trait; so it is kept in this struct,
/// of which Verus sees nothing. `arena_nodes` names what it holds.
#[verifier::external_body]
#[derive(Debug)]
pub struct Arena {
    slots: SlotMap<DefaultKey, Node>,
}

/// The nodes an arena holds, each under the identifier whose `raw` value is the
/// 64-bit form (`KeyData::as_ffi`) of its slot map key.
pub uninterp spec fn arena_nodes(arena: Arena) -> Map<NodeIdentifier, Node>;

/// The largest number of nodes an arena can hold: the slot map refuses to grow
/// past `u32::MAX` slots, one of which is a sentinel.
pub const ARENA_CAPACITY: usize = 0xffff_fffe;

/// `id.raw` has the shape of a slot map key: the version, in the upper 32
/// bits, is odd. On such values `KeyData::from_ffi` followed by
/// `KeyData::as_ffi` gives the value back; on others it names a different key.
pub open spec fn key_shaped(id: NodeIdentifier) -> bool {
    (id.raw >> 32) & 1 == 1
}

/// `SlotMap::new`: an arena without nodes.
#[verifier::external_body]
pub(crate) fn arena_new() -> (fresh: Arena)
    ensures
        arena_nodes(fresh).dom() == Set::<NodeIdentifier>::empty(),
{
    Arena { slots: SlotMap::new() }
}

/// `SlotMap::len`: the number of nodes held.
#[verifier::external_body]
pub(crate) fn arena_len(arena: &Arena) -> (len: usize)
    requires
        arena_nodes(*arena).dom().finite(),
    ensures
        len == arena_nodes(*arena).len(),
{
    arena.slots.len()
}

/// `SlotMap::insert`: stores `node` under a key that the arena does not hold,
/// leaves every other node in place and returns the key's 64-bit form. The
/// slot map panics when it is full, which `requires` excludes.
#[verifier::external_body]
pub(crate) fn arena_insert(arena: &mut Arena, node: Node) -> (id: NodeIdentifier)
    requires
        arena_nodes(*old(arena)).dom().finite(),
        arena_nodes(*old(arena)).len() < ARENA_CAPACITY,
    ensures
        key_shaped(id),
        !arena_nodes(*old(arena)).dom().contains(id),
        arena_nodes(*final(arena)) == arena_nodes(*old(arena)).insert(id, node),
{
    NodeIdentifier { raw: arena.slots.insert(node).data().as_ffi() }
}

/// `SlotMap::get` on the key whose 64-bit form is `id.raw`: the node stored
/// under it, if there is one.
#[verifier::external_body]
pub(crate) fn arena_get(arena: &Arena, id: NodeIdentifier) -> (found: Option<&Node>)
    requires
        key_shaped(id),
    ensures
        found is Some <==> arena_nodes(*arena).dom().contains(id),
        found matches Some(node) ==> *node == arena_nodes(*arena)[id],
{
    arena.slots.get(KeyData::from_ffi(id.raw).into())
}

/// `IndexMut::index_mut` on the key whose 64-bit form is `id.raw`, to give the
/// node stored there a new operation. Its other fields and all other nodes stay
/// as they are. Indexing panics on a key the slot map does not hold, which
/// `requires` excludes.
#[verifier::external_body]
pub(crate) fn arena_set_operation(arena: &mut Arena, id: NodeIdentifier, operation: Operation)
    requires
        key_shaped(id),
        arena_nodes(*old(arena)).dom().contains(id),
    ensures
        arena_nodes(*final(arena)) == arena_nodes(*old(arena)).insert(
            id,
            (Node {
                callsite: arena_nodes(*old(arena))[id].callsite,
                dimension: arena_nodes(*old(arena))[id].dimension,
                operation,
            }),
        ),
{
    arena.slots[KeyData::from_ffi(id.raw).into()].operation = operation;
}

} // verus!
