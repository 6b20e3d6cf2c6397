use vstd::prelude::*;

use crate::hub::{
    failed_in, members, model_join, model_remove, model_remove_all, targets, HubView,
};
use crate::room::{valid_entity_id, ConnectionId, RoomKey};

verus! {

/// Joining a room twice has the effect of joining it once; a connection that
/// joins an empty room twice is its only member.
pub proof fn lemma_join_idempotent<S>(v: HubView<S>, key: RoomKey, c: ConnectionId)
    ensures
        model_join(model_join(v, key, c), key, c) == model_join(v, key, c),
        valid_entity_id(key.id) && v.sessions.contains_key(c) && members(v, key).is_empty()
            ==> members(model_join(model_join(v, key, c), key, c), key) == set![c]
            && members(model_join(model_join(v, key, c), key, c), key).len() == 1,
{
    let once = model_join(v, key, c);
    if valid_entity_id(key.id) && v.sessions.contains_key(c) {
        assert(once.memberships.insert((key, c)) =~= once.memberships);
        if members(v, key).is_empty() {
            assert forall|x: ConnectionId| members(once, key).contains(x) == set![c].contains(x) by {
                if x != c {
                    assert(!members(v, key).contains(x));
                }
            }
            assert(members(once, key) =~= set![c]);
            assert(set![c].len() == 1) by {
                assert(set![c] == Set::<ConnectionId>::empty().insert(c));
            }
        }
    }
}

/// After a connection is removed it is registered nowhere, in no room, no
/// broadcast targets it, and joining with it again changes nothing.
pub proof fn lemma_remove_total<S>(v: HubView<S>, c: ConnectionId)
    ensures
        !model_remove(v, c).sessions.contains_key(c),
        forall|key: RoomKey| !#[trigger] members(model_remove(v, c), key).contains(c),
        forall|key: RoomKey, ex: Option<ConnectionId>|
            !#[trigger] targets(model_remove(v, c), key, ex).contains(c),
        forall|key: RoomKey|
            #[trigger] model_join(model_remove(v, c), key, c) == model_remove(v, c),
{
}

/// Removing a connection twice is the same as removing it once.
pub proof fn lemma_remove_idempotent<S>(v: HubView<S>, c: ConnectionId)
    ensures
        model_remove(model_remove(v, c), c) == model_remove(v, c),
{
    assert(model_remove(model_remove(v, c), c).sessions =~= model_remove(v, c).sessions);
    assert(model_remove(model_remove(v, c), c).memberships =~= model_remove(v, c).memberships);
}

/// Recording the outcomes of a broadcast evicts exactly the connections whose
/// send failed: each of them leaves the registry and every room, and every
/// other connection keeps its session and all its memberships.
pub proof fn lemma_delivery_isolation<S>(v: HubView<S>, outcomes: Seq<(ConnectionId, bool)>)
    ensures
        forall|x: ConnectionId, key: RoomKey|
            !failed_in(outcomes).contains(x) ==> (#[trigger] members(
                model_remove_all(v, failed_in(outcomes)),
                key,
            ).contains(x) <==> members(v, key).contains(x)),
        forall|x: ConnectionId|
            !failed_in(outcomes).contains(x) ==> (#[trigger] model_remove_all(
                v,
                failed_in(outcomes),
            ).sessions.contains_key(x) <==> v.sessions.contains_key(x)),
        forall|i: int, key: RoomKey|
            0 <= i < outcomes.len() && !outcomes[i].1 ==> !#[trigger] members(
                model_remove_all(v, failed_in(outcomes)),
                key,
            ).contains(outcomes[i].0),
        forall|i: int|
            0 <= i < outcomes.len() && !outcomes[i].1 ==> !#[trigger] model_remove_all(
                v,
                failed_in(outcomes),
            ).sessions.contains_key(outcomes[i].0),
{
    assert forall|i: int| 0 <= i < outcomes.len() && !outcomes[i].1 implies #[trigger]
        failed_in(outcomes).contains(outcomes[i].0) by {
        assert(outcomes[i] == (outcomes[i].0, false));
    }
}

/// A broadcast that excludes `c` never targets `c`, and targets every other
/// member.
pub proof fn lemma_exclusion<S>(v: HubView<S>, key: RoomKey, c: ConnectionId)
    ensures
        !targets(v, key, Some(c)).contains(c),
        targets(v, key, Some(c)) == members(v, key).remove(c),
{
    assert(targets(v, key, Some(c)) =~= members(v, key).remove(c));
}

} // verus!
