use vstd::hash_map::HashMapWithView;
use vstd::prelude::*;

use crate::room::{lemma_room_key_eq, valid_entity_id, ConnectionId, EntityId, RoomKey, RoomKind};
use crate::vec_ops::{contains_item, lemma_push_contains, lemma_push_no_duplicates, without_item};

verus! {

/// One live connection: its id, the handle its messages are pushed to, and
/// the user it authenticated as, if any.
pub struct Session<S> {
    pub id: ConnectionId,
    pub sink: S,
    pub user_id: Option<EntityId>,
}

/// Acknowledgement of a successful join.
#[derive(Clone, Copy, Debug, PartialEq, Eq, Structural)]
pub struct JoinAck {
    pub joined: bool,
}

/// Failures of hub operations. Each is scoped to one request.
#[derive(Clone, Copy, Debug, PartialEq, Eq, Structural)]
pub enum HubError {
    /// The operation named a connection that is not registered.
    UnknownConnection,
    /// The room key names no entity that can exist.
    InvalidRoomKey,
}

/// What a broadcast did: how many sends were tried, how many succeeded, and
/// how many connections were evicted because their send failed.
#[derive(Clone, Copy, Debug, PartialEq, Eq, Structural)]
pub struct DeliveryReport {
    pub attempted: usize,
    pub delivered: usize,
    pub pruned: usize,
}

/// The abstract state of a hub: the registered sessions and the set of
/// (room, connection) memberships.
pub struct HubView<S> {
    pub sessions: Map<ConnectionId, Session<S>>,
    pub memberships: Set<(RoomKey, ConnectionId)>,
}

/// The members of room `key`.
pub open spec fn members<S>(v: HubView<S>, key: RoomKey) -> Set<ConnectionId> {
    Set::new(|c: ConnectionId| v.memberships.contains((key, c)))
}

/// The connections a broadcast to `key` that skips `excluding` is sent to.
pub open spec fn targets<S>(
    v: HubView<S>,
    key: RoomKey,
    excluding: Option<ConnectionId>,
) -> Set<ConnectionId> {
    Set::new(|c: ConnectionId| v.memberships.contains((key, c)) && excluding != Some(c))
}

/// Memberships name only registered connections and valid rooms.
pub open spec fn consistent<S>(v: HubView<S>) -> bool {
    forall|p: (RoomKey, ConnectionId)|
        #[trigger] v.memberships.contains(p) ==> v.sessions.contains_key(p.1) && valid_entity_id(
            p.0.id,
        )
}

pub open spec fn model_register<S>(v: HubView<S>, s: Session<S>) -> HubView<S> {
    HubView { sessions: v.sessions.insert(s.id, s), memberships: v.memberships }
}

/// Joining adds the membership when the key is valid and the connection is
/// registered; otherwise nothing changes.
pub open spec fn model_join<S>(v: HubView<S>, key: RoomKey, c: ConnectionId) -> HubView<S> {
    if valid_entity_id(key.id) && v.sessions.contains_key(c) {
        HubView { sessions: v.sessions, memberships: v.memberships.insert((key, c)) }
    } else {
        v
    }
}

pub open spec fn model_leave<S>(v: HubView<S>, key: RoomKey, c: ConnectionId) -> HubView<S> {
    HubView { sessions: v.sessions, memberships: v.memberships.remove((key, c)) }
}

/// Removing a connection drops its session and every membership it had.
pub open spec fn model_remove<S>(v: HubView<S>, c: ConnectionId) -> HubView<S> {
    HubView {
        sessions: v.sessions.remove(c),
        memberships: v.memberships.filter(|p: (RoomKey, ConnectionId)| p.1 != c),
    }
}

/// Removing every connection of `gone` at once.
pub open spec fn model_remove_all<S>(v: HubView<S>, gone: Set<ConnectionId>) -> HubView<S> {
    HubView {
        sessions: v.sessions.remove_keys(gone),
        memberships: v.memberships.filter(|p: (RoomKey, ConnectionId)| !gone.contains(p.1)),
    }
}

/// The connections whose send failed, among reported outcomes.
pub open spec fn failed_in(outcomes: Seq<(ConnectionId, bool)>) -> Set<ConnectionId> {
    Set::new(|c: ConnectionId| exists|i: int| 0 <= i < outcomes.len() && #[trigger] outcomes[i] == (c, false))
}

/// The number of successful sends among reported outcomes.
pub open spec fn count_delivered(outcomes: Seq<(ConnectionId, bool)>) -> nat
    decreases outcomes.len(),
{
    if outcomes.len() == 0 {
        0
    } else {
        count_delivered(outcomes.drop_last()) + if outcomes.last().1 {
            1nat
        } else {
            0nat
        }
    }
}

proof fn lemma_remove_none<S>(v: HubView<S>)
    ensures
        model_remove_all(v, Set::empty()) == v,
{
    assert(model_remove_all(v, Set::empty()).sessions =~= v.sessions);
    assert(model_remove_all(v, Set::empty()).memberships =~= v.memberships);
}

proof fn lemma_remove_one_more<S>(v: HubView<S>, gone: Set<ConnectionId>, c: ConnectionId)
    ensures
        model_remove(model_remove_all(v, gone), c) == model_remove_all(v, gone.insert(c)),
{
    assert(model_remove(model_remove_all(v, gone), c).sessions =~= model_remove_all(
        v,
        gone.insert(c),
    ).sessions);
    assert(model_remove(model_remove_all(v, gone), c).memberships =~= model_remove_all(
        v,
        gone.insert(c),
    ).memberships);
}

/// The registry of live connections and the room index, with a reverse index
/// from each connection to the rooms it is in.
#[verifier::reject_recursive_types(S)]
pub struct Hub<S> {
    sessions: HashMapWithView<ConnectionId, Session<S>>,
    user_rooms: HashMapWithView<EntityId, Vec<ConnectionId>>,
    community_rooms: HashMapWithView<EntityId, Vec<ConnectionId>>,
    mod_rooms: HashMapWithView<EntityId, Vec<ConnectionId>>,
    post_rooms: HashMapWithView<EntityId, Vec<ConnectionId>>,
    rooms_of: HashMapWithView<ConnectionId, Vec<RoomKey>>,
}

impl<S> View for Hub<S> {
    type V = HubView<S>;

    closed spec fn view(&self) -> HubView<S> {
        HubView {
            sessions: self.sessions@,
            memberships: Set::new(
                |p: (RoomKey, ConnectionId)| self.member_seq(p.0).contains(p.1),
            ),
        }
    }
}

impl<S> Hub<S> {
    pub closed spec fn room_map(&self, kind: RoomKind) -> Map<EntityId, Vec<ConnectionId>> {
        match kind {
            RoomKind::UserInbox => self.user_rooms@,
            RoomKind::Community => self.community_rooms@,
            RoomKind::Mod => self.mod_rooms@,
            RoomKind::Post => self.post_rooms@,
        }
    }

    /// The stored members of a room, in storage order.
    pub closed spec fn member_seq(&self, key: RoomKey) -> Seq<ConnectionId> {
        if self.room_map(key.kind).contains_key(key.id) {
            self.room_map(key.kind)[key.id]@
        } else {
            Seq::empty()
        }
    }

    /// The rooms a connection is recorded in by the reverse index.
    pub closed spec fn key_seq(&self, c: ConnectionId) -> Seq<RoomKey> {
        if self.rooms_of@.contains_key(c) {
            self.rooms_of@[c]@
        } else {
            Seq::empty()
        }
    }

    /// The forward and reverse indexes agree, hold no duplicates, and name
    /// only registered connections and valid rooms.
    pub closed spec fn wf(&self) -> bool {
        &&& forall|c: ConnectionId| #[trigger]
            self.sessions@.contains_key(c) ==> self.sessions@[c].id == c
        &&& forall|c: ConnectionId| #[trigger]
            self.rooms_of@.contains_key(c) ==> self.sessions@.contains_key(c)
        &&& forall|c: ConnectionId| #[trigger] self.key_seq(c).no_duplicates()
        &&& forall|k: RoomKey| #[trigger] self.member_seq(k).no_duplicates()
        &&& forall|k: RoomKey, c: ConnectionId| #[trigger]
            self.member_seq(k).contains(c) <==> #[trigger] self.key_seq(c).contains(k)
        &&& forall|k: RoomKey, c: ConnectionId|
            #[trigger] self.key_seq(c).contains(k) ==> self.sessions@.contains_key(c)
                && valid_entity_id(k.id)
    }

    closed spec fn same_room_fields(&self, other: &Self) -> bool {
        &&& self.user_rooms@ == other.user_rooms@
        &&& self.community_rooms@ == other.community_rooms@
        &&& self.mod_rooms@ == other.mod_rooms@
        &&& self.post_rooms@ == other.post_rooms@
    }

    proof fn lemma_same_rooms(&self, other: &Self)
        requires
            self.same_room_fields(other),
        ensures
            forall|k: RoomKind| #[trigger] self.room_map(k) == other.room_map(k),
            forall|k: RoomKey| #[trigger] self.member_seq(k) == other.member_seq(k),
    {
        assert forall|k: RoomKind| #[trigger] self.room_map(k) == other.room_map(k) by {
            match k {
                RoomKind::UserInbox => {},
                RoomKind::Community => {},
                RoomKind::Mod => {},
                RoomKind::Post => {},
            }
        }
        assert forall|k: RoomKey| #[trigger] self.member_seq(k) == other.member_seq(k) by {
            assert(self.room_map(k.kind) == other.room_map(k.kind));
        }
    }

    /// Maps other than the one for `kind` are left as they were.
    closed spec fn same_rooms_but(&self, other: &Self, kind: RoomKind) -> bool {
        forall|k: RoomKind| k != kind ==> #[trigger] self.room_map(k) == other.room_map(k)
    }

    /// Every membership of a well-formed hub names a registered connection
    /// and a valid room: a connection that is not registered is in no room.
    pub proof fn lemma_wf_consistent(&self)
        requires
            self.wf(),
        ensures
            consistent(self@),
    {
        assert forall|p: (RoomKey, ConnectionId)| #[trigger]
            self@.memberships.contains(p) implies self@.sessions.contains_key(p.1)
            && valid_entity_id(p.0.id) by {
            assert(self.member_seq(p.0).contains(p.1));
            assert(self.key_seq(p.1).contains(p.0));
        }
    }

    /// A hub with no connections and no rooms.
    pub fn new() -> (r: Self)
        ensures
            r.wf(),
            r@.sessions == Map::<ConnectionId, Session<S>>::empty(),
            r@.memberships == Set::<(RoomKey, ConnectionId)>::empty(),
    {
        let r = Hub {
            sessions: HashMapWithView::new(),
            user_rooms: HashMapWithView::new(),
            community_rooms: HashMapWithView::new(),
            mod_rooms: HashMapWithView::new(),
            post_rooms: HashMapWithView::new(),
            rooms_of: HashMapWithView::new(),
        };
        assert(r@.memberships =~= Set::<(RoomKey, ConnectionId)>::empty());
        r
    }

    /// Takes the member list of `key` out of the index.
    fn take_room(&mut self, key: RoomKey) -> (r: Vec<ConnectionId>)
        ensures
            r@ == old(self).member_seq(key),
            final(self).room_map(key.kind) == old(self).room_map(key.kind).remove(key.id),
            final(self).same_rooms_but(old(self), key.kind),
            final(self).sessions == old(self).sessions,
            final(self).rooms_of == old(self).rooms_of,
    {
        let found = match key.kind {
            RoomKind::UserInbox => self.user_rooms.remove(&key.id),
            RoomKind::Community => self.community_rooms.remove(&key.id),
            RoomKind::Mod => self.mod_rooms.remove(&key.id),
            RoomKind::Post => self.post_rooms.remove(&key.id),
        };
        match found {
            Some(v) => v,
            None => Vec::new(),
        }
    }

    /// Puts a member list back for `key`; an empty list leaves no entry.
    fn put_room(&mut self, key: RoomKey, v: Vec<ConnectionId>)
        requires
            !old(self).room_map(key.kind).contains_key(key.id),
        ensures
            final(self).room_map(key.kind) == if v@.len() > 0 {
                old(self).room_map(key.kind).insert(key.id, v)
            } else {
                old(self).room_map(key.kind)
            },
            final(self).same_rooms_but(old(self), key.kind),
            final(self).sessions == old(self).sessions,
            final(self).rooms_of == old(self).rooms_of,
    {
        if v.len() > 0 {
            match key.kind {
                RoomKind::UserInbox => self.user_rooms.insert(key.id, v),
                RoomKind::Community => self.community_rooms.insert(key.id, v),
                RoomKind::Mod => self.mod_rooms.insert(key.id, v),
                RoomKind::Post => self.post_rooms.insert(key.id, v),
            }
        }
    }

    /// Takes the reverse-index entry of `c` out.
    fn take_keys(&mut self, c: ConnectionId) -> (r: Vec<RoomKey>)
        ensures
            r@ == old(self).key_seq(c),
            final(self).rooms_of@ == old(self).rooms_of@.remove(c),
            forall|k: RoomKind| #[trigger] final(self).room_map(k) == old(self).room_map(k),
            forall|k: RoomKey| #[trigger] final(self).member_seq(k) == old(self).member_seq(k),
            final(self).sessions == old(self).sessions,
    {
        match self.rooms_of.remove(&c) {
            Some(v) => v,
            None => Vec::new(),
        }
    }

    /// Registers a connection. A session already stored under the same id is
    /// replaced; its memberships are kept.
    pub fn register(&mut self, session: Session<S>)
        requires
            old(self).wf(),
        ensures
            final(self).wf(),
            final(self)@ == model_register(old(self)@, session),
    {
        let ghost pre = *self;
        let id = session.id;
        self.sessions.insert(id, session);
        assert forall|k: RoomKey| #[trigger] self.member_seq(k) == pre.member_seq(k) by {
            assert(self.room_map(k.kind) == pre.room_map(k.kind));
        }
        assert forall|x: ConnectionId| #[trigger] self.key_seq(x) == pre.key_seq(x) by {}
        assert(self@.memberships =~= old(self)@.memberships);
    }

    /// The session registered under `c`, if any.
    pub fn lookup(&self, c: ConnectionId) -> (r: Option<&Session<S>>)
        ensures
            match r {
                Some(s) => self@.sessions.contains_key(c) && *s == self@.sessions[c],
                None => !self@.sessions.contains_key(c),
            },
    {
        self.sessions.get(&c)
    }

    /// Adds `c` to room `key`. Joining a room one is already in changes
    /// nothing and still succeeds.
    pub fn join(&mut self, key: RoomKey, c: ConnectionId) -> (r: Result<JoinAck, HubError>)
        requires
            old(self).wf(),
        ensures
            final(self).wf(),
            final(self)@ == model_join(old(self)@, key, c),
            r == if !valid_entity_id(key.id) {
                Err(HubError::InvalidRoomKey)
            } else if !old(self)@.sessions.contains_key(c) {
                Err(HubError::UnknownConnection)
            } else {
                Ok(JoinAck { joined: true })
            },
    {
        if !key.is_valid() {
            return Err(HubError::InvalidRoomKey);
        }
        if !self.sessions.contains_key(&c) {
            return Err(HubError::UnknownConnection);
        }
        let ghost pre = *self;
        let mut room = self.take_room(key);
        if !contains_item(&room, &c) {
            room.push(c);
            let mut keys = self.take_keys(c);
            proof {
                assert(pre.member_seq(key) == room@.drop_last());
                assert(!pre.member_seq(key).contains(c));
                assert(!pre.key_seq(c).contains(key));
            }
            keys.push(key);
            let ghost mid = *self;
            self.rooms_of.insert(c, keys);
            proof {
                self.lemma_same_rooms(&mid);
            }
        }
        let ghost room_v = room@;
        self.put_room(key, room);
        assert(self.member_seq(key) == room_v);
        assert forall|k: RoomKey| k != key implies #[trigger] self.member_seq(k) == pre.member_seq(k) by {
            if k.kind != key.kind {
                assert(self.room_map(k.kind) == pre.room_map(k.kind));
            } else {
                assert(k.id != key.id);
            }
        }
        assert forall|x: ConnectionId| x != c implies #[trigger] self.key_seq(x) == pre.key_seq(x) by {}
        proof {
            if pre.member_seq(key).contains(c) {
                assert(self.key_seq(c) == pre.key_seq(c));
                assert(self.member_seq(key) == pre.member_seq(key));
            } else {
                assert(self.key_seq(c) == pre.key_seq(c).push(key));
                assert(self.member_seq(key) == pre.member_seq(key).push(c));
                lemma_push_contains(pre.key_seq(c), key);
                lemma_push_contains(pre.member_seq(key), c);
                lemma_push_no_duplicates(pre.key_seq(c), key);
                lemma_push_no_duplicates(pre.member_seq(key), c);
                assert forall|k: RoomKey, x: ConnectionId| #[trigger]
                    self.member_seq(k).contains(x) <==> #[trigger] self.key_seq(x).contains(k) by {
                    if k != key {
                        assert(self.member_seq(k) == pre.member_seq(k));
                    }
                }
                assert forall|k: RoomKey, x: ConnectionId|
                    #[trigger] self.key_seq(x).contains(k) implies self.sessions@.contains_key(x)
                        && valid_entity_id(k.id) by {
                    if x == c && k == key {
                        assert(pre.sessions@.contains_key(c));
                    }
                }
            }
        }
        assert forall|p: (RoomKey, ConnectionId)|
            self@.memberships.contains(p) == model_join(pre@, key, c).memberships.contains(p) by {
            if pre.member_seq(key).contains(c) {
            } else {
                lemma_push_contains(pre.member_seq(key), c);
                if p.0 != key {
                    assert(self.member_seq(p.0) == pre.member_seq(p.0));
                }
            }
        }
        assert(self@.memberships =~= model_join(pre@, key, c).memberships);
        Ok(JoinAck { joined: true })
    }

    /// Takes `c` out of room `key`; does nothing where it is not a member.
    pub fn leave(&mut self, key: RoomKey, c: ConnectionId)
        requires
            old(self).wf(),
        ensures
            final(self).wf(),
            final(self)@ == model_leave(old(self)@, key, c),
    {
        let ghost pre = *self;
        let room = self.take_room(key);
        let ghost room_v = room@;
        if contains_item(&room, &c) {
            let rest = without_item(&room, &c);
            let keys = self.take_keys(c);
            assert(keys@ == pre.key_seq(c));
            assert(pre.key_seq(c).no_duplicates());
            proof {
                lemma_room_key_eq();
            }
            let rest_keys = without_item(&keys, &key);
            assert(pre.key_seq(c).contains(key));
            assert(pre.sessions@.contains_key(c));
            let ghost mid = *self;
            self.rooms_of.insert(c, rest_keys);
            proof {
                self.lemma_same_rooms(&mid);
            }
            let ghost rest_v = rest@;
            self.put_room(key, rest);
            assert(self.member_seq(key) == rest_v);
            assert(self.key_seq(c) == rest_keys@);
        } else {
            self.put_room(key, room);
            assert(self.member_seq(key) == room_v);
            assert(self.key_seq(c) == pre.key_seq(c));
            assert(!pre.key_seq(c).contains(key));
        }
        assert forall|k: RoomKey| k != key implies #[trigger] self.member_seq(k) == pre.member_seq(k) by {
            if k.kind != key.kind {
                assert(self.room_map(k.kind) == pre.room_map(k.kind));
            } else {
                assert(k.id != key.id);
            }
        }
        assert forall|x: ConnectionId| x != c implies #[trigger] self.key_seq(x) == pre.key_seq(x) by {}
        assert forall|k: RoomKey, x: ConnectionId| #[trigger]
            self.member_seq(k).contains(x) <==> #[trigger] self.key_seq(x).contains(k) by {
            if k != key {
                assert(self.member_seq(k) == pre.member_seq(k));
            }
        }
        assert forall|k: RoomKey, x: ConnectionId|
            #[trigger] self.key_seq(x).contains(k) implies self.sessions@.contains_key(x)
                && valid_entity_id(k.id) by {
            if x == c {
                assert(pre.key_seq(x).contains(k));
            }
        }
        assert forall|p: (RoomKey, ConnectionId)|
            self@.memberships.contains(p) == model_leave(pre@, key, c).memberships.contains(p) by {
            if p.0 != key {
                assert(self.member_seq(p.0) == pre.member_seq(p.0));
            }
        }
        assert(self@.memberships =~= model_leave(pre@, key, c).memberships);
    }

    /// The stored member list of `key`, if the room has an entry.
    fn room_ref(&self, key: RoomKey) -> (r: Option<&Vec<ConnectionId>>)
        ensures
            match r {
                Some(v) => v@ == self.member_seq(key),
                None => self.member_seq(key) == Seq::<ConnectionId>::empty(),
            },
    {
        match key.kind {
            RoomKind::UserInbox => self.user_rooms.get(&key.id),
            RoomKind::Community => self.community_rooms.get(&key.id),
            RoomKind::Mod => self.mod_rooms.get(&key.id),
            RoomKind::Post => self.post_rooms.get(&key.id),
        }
    }

    /// A snapshot of the connections a broadcast to `key` goes to: every
    /// member but `excluding`, each once.
    pub fn broadcast_targets(&self, key: RoomKey, excluding: Option<ConnectionId>) -> (r: Vec<
        ConnectionId,
    >)
        requires
            self.wf(),
        ensures
            r@.no_duplicates(),
            forall|x: ConnectionId| #[trigger]
                r@.contains(x) <==> targets(self@, key, excluding).contains(x),
    {
        let mut r: Vec<ConnectionId> = Vec::new();
        match self.room_ref(key) {
            None => {},
            Some(room) => {
                let ghost m = room@;
                assert(m.no_duplicates());
                let mut i: usize = 0;
                while i < room.len()
                    invariant
                        i <= room.len(),
                        room@ == m,
                        m.no_duplicates(),
                        r@.no_duplicates(),
                        forall|x: ConnectionId| #[trigger]
                            r@.contains(x) <==> m.take(i as int).contains(x) && excluding != Some(
                                x,
                            ),
                    decreases room.len() - i,
                {
                    let y = room[i];
                    proof {
                        assert(m.take(i as int + 1) == m.take(i as int).push(y));
                        lemma_push_contains(m.take(i as int), y);
                        lemma_push_contains(r@, y);
                        if r@.contains(y) {
                            let j = choose|j: int| 0 <= j < i && m.take(i as int)[j] == y;
                            assert(m[j] == m[i as int]);
                        }
                    }
                    let skip = match excluding {
                        Some(e) => e == y,
                        None => false,
                    };
                    if !skip {
                        proof {
                            lemma_push_no_duplicates(r@, y);
                        }
                        r.push(y);
                    }
                    i += 1;
                }
                assert(m.take(room.len() as int) == m);
            },
        }
        r
    }

    /// The current members of `key`, each once.
    pub fn room_members(&self, key: RoomKey) -> (r: Vec<ConnectionId>)
        requires
            self.wf(),
        ensures
            r@.no_duplicates(),
            forall|x: ConnectionId| #[trigger] r@.contains(x) <==> members(self@, key).contains(x),
    {
        self.broadcast_targets(key, None)
    }

    /// Records how the sends of one broadcast went. Each `(c, ok)` says
    /// whether the send to `c` succeeded; every connection whose send failed
    /// is treated as dead and removed from the registry and from all rooms.
    /// Connections whose send succeeded keep every membership.
    pub fn finish_broadcast(&mut self, outcomes: &Vec<(ConnectionId, bool)>) -> (r: DeliveryReport)
        requires
            old(self).wf(),
        ensures
            final(self).wf(),
            final(self)@ == model_remove_all(old(self)@, failed_in(outcomes@)),
            r.attempted == outcomes@.len(),
            r.delivered == count_delivered(outcomes@),
            r.pruned == outcomes@.len() - count_delivered(outcomes@),
    {
        let ghost pre = *self;
        let mut delivered: usize = 0;
        let mut i: usize = 0;
        proof {
            assert(failed_in(outcomes@.take(0)) =~= Set::<ConnectionId>::empty());
            lemma_remove_none(pre@);
        }
        while i < outcomes.len()
            invariant
                i <= outcomes.len(),
                self.wf(),
                self@ == model_remove_all(pre@, failed_in(outcomes@.take(i as int))),
                delivered == count_delivered(outcomes@.take(i as int)),
                delivered <= i,
            decreases outcomes.len() - i,
        {
            let (c, ok) = outcomes[i];
            let ghost before = failed_in(outcomes@.take(i as int));
            proof {
                assert(outcomes@.take(i as int + 1).drop_last() == outcomes@.take(i as int));
            }
            if ok {
                delivered += 1;
                assert(failed_in(outcomes@.take(i as int + 1)) =~= before);
            } else {
                self.remove_connection(c);
                proof {
                    let next = outcomes@.take(i as int + 1);
                    assert(next[i as int] == (c, false));
                    assert forall|x: ConnectionId|
                        failed_in(next).contains(x) == before.insert(c).contains(x) by {
                        if before.contains(x) {
                            let j = choose|j: int|
                                0 <= j < i && #[trigger] outcomes@.take(i as int)[j] == (x, false);
                            assert(next[j] == (x, false));
                        }
                    }
                    assert(failed_in(next) =~= before.insert(c));
                    lemma_remove_one_more(pre@, before, c);
                }
            }
            i += 1;
        }
        assert(outcomes@.take(outcomes.len() as int) == outcomes@);
        DeliveryReport {
            attempted: outcomes.len(),
            delivered,
            pruned: outcomes.len() - delivered,
        }
    }

    /// Unregisters `c` and takes it out of every room it is in, walking only
    /// its own rooms through the reverse index. Does nothing for a connection
    /// that is not registered.
    pub fn remove_connection(&mut self, c: ConnectionId)
        requires
            old(self).wf(),
        ensures
            final(self).wf(),
            final(self)@ == model_remove(old(self)@, c),
    {
        let ghost pre = *self;
        let keys = self.take_keys(c);
        assert forall|k: RoomKey| #[trigger]
            self.member_seq(k).contains(c) <==> exists|j: int|
                0 <= j < keys@.len() && keys@[j] == k by {
            assert(self.member_seq(k) == pre.member_seq(k));
            if pre.key_seq(c).contains(k) {
                let j = choose|j: int| 0 <= j < keys@.len() && keys@[j] == k;
            }
            if exists|j: int| 0 <= j < keys@.len() && keys@[j] == k {
                let j = choose|j: int| 0 <= j < keys@.len() && keys@[j] == k;
                assert(pre.key_seq(c).contains(k));
            }
        }
        let mut i: usize = 0;
        while i < keys.len()
            invariant
                i <= keys.len(),
                pre.wf(),
                keys@ == pre.key_seq(c),
                self.sessions@ == pre.sessions@,
                self.rooms_of@ == pre.rooms_of@.remove(c),
                forall|k: RoomKey| #[trigger] self.member_seq(k).no_duplicates(),
                forall|k: RoomKey, x: ConnectionId|
                    x != c ==> (#[trigger] self.member_seq(k).contains(x)
                        <==> pre.member_seq(k).contains(x)),
                forall|k: RoomKey| #[trigger]
                    self.member_seq(k).contains(c) <==> exists|j: int|
                        i <= j < keys@.len() && keys@[j] == k,
            decreases keys.len() - i,
        {
            let key = keys[i];
            let ghost before = *self;
            let room = self.take_room(key);
            let rest = without_item(&room, &c);
            let ghost rest_v = rest@;
            self.put_room(key, rest);
            assert(self.member_seq(key) == rest_v);
            assert forall|k: RoomKey| k != key implies #[trigger] self.member_seq(k)
                == before.member_seq(k) by {
                if k.kind != key.kind {
                    assert(self.room_map(k.kind) == before.room_map(k.kind));
                } else {
                    assert(k.id != key.id);
                }
            }
            assert forall|k: RoomKey| #[trigger]
                self.member_seq(k).contains(c) <==> exists|j: int|
                    i + 1 <= j < keys@.len() && keys@[j] == k by {
                if k == key {
                    assert(!rest_v.contains(c));
                    assert(pre.key_seq(c).no_duplicates());
                    if exists|j: int| i + 1 <= j < keys@.len() && keys@[j] == k {
                        let j = choose|j: int| i + 1 <= j < keys@.len() && keys@[j] == k;
                        assert(keys@[j] == keys@[i as int]);
                    }
                } else {
                    assert(self.member_seq(k) == before.member_seq(k));
                    if exists|j: int| i <= j < keys@.len() && keys@[j] == k {
                        let j = choose|j: int| i <= j < keys@.len() && keys@[j] == k;
                        assert(j != i);
                        assert(i + 1 <= j < keys@.len() && keys@[j] == k);
                    }
                    if exists|j: int| i + 1 <= j < keys@.len() && keys@[j] == k {
                        let j = choose|j: int| i + 1 <= j < keys@.len() && keys@[j] == k;
                        assert(i <= j < keys@.len() && keys@[j] == k);
                    }
                }
            }
            assert forall|k: RoomKey, x: ConnectionId|
                x != c implies (#[trigger] self.member_seq(k).contains(x)
                    <==> pre.member_seq(k).contains(x)) by {
                if k != key {
                    assert(self.member_seq(k) == before.member_seq(k));
                }
            }
            i += 1;
        }
        let ghost last = *self;
        self.sessions.remove(&c);
        proof {
            self.lemma_same_rooms(&last);
        }
        assert forall|x: ConnectionId| x != c implies #[trigger] self.key_seq(x) == pre.key_seq(x) by {}
        assert(self.key_seq(c) == Seq::<RoomKey>::empty());
        assert forall|k: RoomKey, x: ConnectionId| #[trigger]
            self.member_seq(k).contains(x) <==> #[trigger] self.key_seq(x).contains(k) by {
            if x == c {
                assert(last.member_seq(k) == self.member_seq(k));
                if self.member_seq(k).contains(c) {
                    assert(exists|j: int| i <= j < keys@.len() && keys@[j] == k);
                }
            } else {
                assert(pre.member_seq(k).contains(x) == pre.key_seq(x).contains(k));
            }
        }
        assert forall|p: (RoomKey, ConnectionId)|
            self@.memberships.contains(p) == model_remove(pre@, c).memberships.contains(p) by {
            assert(last.member_seq(p.0) == self.member_seq(p.0));
            if p.1 == c {
                if self.member_seq(p.0).contains(c) {
                    assert(exists|j: int| i <= j < keys@.len() && keys@[j] == p.0);
                }
            }
        }
        assert(self@.memberships =~= model_remove(pre@, c).memberships);
        assert(self@.sessions =~= model_remove(pre@, c).sessions);
    }
}

} // verus!
