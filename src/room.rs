use vstd::laws_eq::obeys_concrete_eq;
use vstd::prelude::*;

verus! {

/// Identifier of one live transport session.
pub type ConnectionId = usize;

/// Identifier of the entity a room is scoped to (a user, a community or a post).
pub type EntityId = i32;

/// The scopes a room can have.
#[derive(Clone, Copy, Debug, PartialEq, Eq, Structural)]
pub enum RoomKind {
    UserInbox,
    Community,
    Mod,
    Post,
}

/// A room: its kind and the entity it belongs to.
#[derive(Clone, Copy, Debug, Eq)]
pub struct RoomKey {
    pub kind: RoomKind,
    pub id: EntityId,
}

impl PartialEq for RoomKey {
    fn eq(&self, o: &RoomKey) -> (r: bool) {
        self.kind == o.kind && self.id == o.id
    }
}

impl vstd::std_specs::cmp::PartialEqSpecImpl for RoomKey {
    open spec fn obeys_eq_spec() -> bool {
        true
    }

    open spec fn eq_spec(&self, o: &RoomKey) -> bool {
        self.kind == o.kind && self.id == o.id
    }
}

/// `==` on room keys is equality of kind and id.
pub proof fn lemma_room_key_eq()
    ensures
        obeys_concrete_eq::<RoomKey>(),
{
    reveal(obeys_concrete_eq);
}

/// Entity ids are positive; anything else names no entity.
pub open spec fn valid_entity_id(id: EntityId) -> bool {
    id > 0
}

impl RoomKey {
    pub fn new(kind: RoomKind, id: EntityId) -> (r: RoomKey)
        ensures
            r == (RoomKey { kind, id }),
    {
        RoomKey { kind, id }
    }

    /// Whether the key names an entity that can exist.
    pub fn is_valid(&self) -> (r: bool)
        ensures
            r == valid_entity_id(self.id),
    {
        self.id > 0
    }
}

} // verus!
