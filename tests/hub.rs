use std::collections::BTreeSet;

use lemmy_hub::{
    community_join, get_site_taglines, mod_join, post_join, require_admin, user_join, ApiError,
    Caller, DeliveryReport, Hub, HubError, JoinAck, RoomKey, RoomKind, Session, Tagline,
};

fn session(id: usize) -> Session<u32> {
    Session { id, sink: id as u32 * 10, user_id: None }
}

fn hub_with(ids: &[usize]) -> Hub<u32> {
    let mut hub = Hub::new();
    for &id in ids {
        hub.register(session(id));
    }
    hub
}

fn sorted(mut v: Vec<usize>) -> Vec<usize> {
    v.sort();
    v
}

#[test]
fn scenario_post_and_mod_rooms() {
    let (x, y, z) = (1, 2, 3);
    let mut hub = hub_with(&[x, y, z]);
    let post = RoomKey::new(RoomKind::Post, 42);
    assert_eq!(hub.join(post, x), Ok(JoinAck { joined: true }));
    assert_eq!(hub.join(post, x), Ok(JoinAck { joined: true }));
    assert_eq!(hub.room_members(post), vec![x]);
    hub.remove_connection(x);
    assert!(hub.broadcast_targets(post, None).is_empty());

    let modroom = RoomKey::new(RoomKind::Mod, 7);
    hub.join(modroom, y).unwrap();
    hub.join(modroom, z).unwrap();
    assert_eq!(hub.broadcast_targets(modroom, Some(y)), vec![z]);
}

#[test]
fn join_twice_keeps_one_member() {
    let mut hub = hub_with(&[5]);
    let room = RoomKey::new(RoomKind::Community, 3);
    hub.join(room, 5).unwrap();
    hub.join(room, 5).unwrap();
    assert_eq!(hub.room_members(room).len(), 1);
}

#[test]
fn remove_connection_clears_every_room() {
    let mut hub = hub_with(&[1, 2]);
    let rooms = [
        RoomKey::new(RoomKind::UserInbox, 1),
        RoomKey::new(RoomKind::Community, 2),
        RoomKey::new(RoomKind::Mod, 2),
        RoomKey::new(RoomKind::Post, 9),
    ];
    for r in rooms {
        hub.join(r, 1).unwrap();
        hub.join(r, 2).unwrap();
    }
    hub.remove_connection(1);
    for r in rooms {
        assert_eq!(hub.room_members(r), vec![2]);
        assert_eq!(hub.broadcast_targets(r, None), vec![2]);
    }
    assert!(hub.lookup(1).is_none());
    assert_eq!(hub.join(rooms[0], 1), Err(HubError::UnknownConnection));
    hub.remove_connection(1);
    assert_eq!(hub.room_members(rooms[3]), vec![2]);
}

#[test]
fn failed_send_evicts_only_that_member() {
    let mut hub = hub_with(&[1, 2, 3]);
    let room = RoomKey::new(RoomKind::Post, 4);
    let other = RoomKey::new(RoomKind::Community, 8);
    for c in [1, 2, 3] {
        hub.join(room, c).unwrap();
        hub.join(other, c).unwrap();
    }
    let targets = hub.broadcast_targets(room, None);
    assert_eq!(sorted(targets.clone()), vec![1, 2, 3]);
    let outcomes: Vec<(usize, bool)> = targets.iter().map(|&c| (c, c != 2)).collect();
    let report = hub.finish_broadcast(&outcomes);
    assert_eq!(report, DeliveryReport { attempted: 3, delivered: 2, pruned: 1 });
    assert_eq!(sorted(hub.room_members(room)), vec![1, 3]);
    assert_eq!(sorted(hub.room_members(other)), vec![1, 3]);
    assert!(hub.lookup(2).is_none());
    assert!(hub.lookup(1).is_some());
}

#[test]
fn all_sends_succeed() {
    let mut hub = hub_with(&[1, 2]);
    let room = RoomKey::new(RoomKind::Post, 4);
    hub.join(room, 1).unwrap();
    hub.join(room, 2).unwrap();
    let report = hub.finish_broadcast(&vec![(1, true), (2, true)]);
    assert_eq!(report, DeliveryReport { attempted: 2, delivered: 2, pruned: 0 });
    assert_eq!(sorted(hub.room_members(room)), vec![1, 2]);
}

#[test]
fn excluded_member_is_never_targeted() {
    let mut hub = hub_with(&[1, 2, 3]);
    let room = RoomKey::new(RoomKind::Community, 11);
    for c in [1, 2, 3] {
        hub.join(room, c).unwrap();
    }
    assert_eq!(sorted(hub.broadcast_targets(room, Some(2))), vec![1, 3]);
    assert_eq!(sorted(hub.broadcast_targets(room, Some(99))), vec![1, 2, 3]);
    assert!(hub.broadcast_targets(RoomKey::new(RoomKind::Post, 11), None).is_empty());
}

#[test]
fn join_errors() {
    let mut hub = hub_with(&[1]);
    assert_eq!(hub.join(RoomKey::new(RoomKind::Post, 0), 1), Err(HubError::InvalidRoomKey));
    assert_eq!(hub.join(RoomKey::new(RoomKind::Post, -3), 1), Err(HubError::InvalidRoomKey));
    assert_eq!(hub.join(RoomKey::new(RoomKind::Post, 5), 2), Err(HubError::UnknownConnection));
    assert!(hub.room_members(RoomKey::new(RoomKind::Post, 5)).is_empty());
}

#[test]
fn leave_and_leave_again() {
    let mut hub = hub_with(&[1, 2]);
    let room = RoomKey::new(RoomKind::Mod, 6);
    hub.join(room, 1).unwrap();
    hub.join(room, 2).unwrap();
    hub.leave(room, 1);
    assert_eq!(hub.room_members(room), vec![2]);
    hub.leave(room, 1);
    hub.leave(RoomKey::new(RoomKind::Post, 6), 2);
    assert_eq!(hub.room_members(room), vec![2]);
    hub.leave(room, 2);
    assert!(hub.room_members(room).is_empty());
    assert!(hub.lookup(1).is_some());
}

#[test]
fn register_and_lookup() {
    let mut hub: Hub<u32> = Hub::new();
    assert!(hub.lookup(4).is_none());
    hub.register(Session { id: 4, sink: 40, user_id: Some(8) });
    let s = hub.lookup(4).unwrap();
    assert_eq!((s.id, s.sink, s.user_id), (4, 40, Some(8)));
    let room = RoomKey::new(RoomKind::UserInbox, 8);
    hub.join(room, 4).unwrap();
    hub.register(Session { id: 4, sink: 41, user_id: Some(8) });
    assert_eq!(hub.lookup(4).unwrap().sink, 41);
    assert_eq!(hub.room_members(room), vec![4]);
}

/// Replays a pseudo-random sequence of operations against the hub and against
/// a plain set of memberships, and compares the two after each step.
#[test]
fn random_operations_match_reference_model() {
    let mut seed: u64 = 0x2545_f491_4f6c_dd1d;
    let mut next = move |n: u64| {
        seed ^= seed << 13;
        seed ^= seed >> 7;
        seed ^= seed << 17;
        seed % n
    };
    let kinds = [RoomKind::UserInbox, RoomKind::Community, RoomKind::Mod, RoomKind::Post];
    let mut hub: Hub<u32> = Hub::new();
    let mut live: BTreeSet<usize> = BTreeSet::new();
    let mut model: BTreeSet<(usize, i32, usize)> = BTreeSet::new();
    for _ in 0..2000 {
        let c = next(12) as usize;
        let k = next(4) as usize;
        let key = RoomKey::new(kinds[k], next(5) as i32 + 1);
        match next(6) {
            0 => {
                hub.register(session(c));
                live.insert(c);
            },
            1 | 2 => {
                let r = hub.join(key, c);
                if live.contains(&c) {
                    assert_eq!(r, Ok(JoinAck { joined: true }));
                    model.insert((k, key.id, c));
                } else {
                    assert_eq!(r, Err(HubError::UnknownConnection));
                }
            },
            3 => {
                hub.leave(key, c);
                model.remove(&(k, key.id, c));
            },
            4 => {
                hub.remove_connection(c);
                live.remove(&c);
                model.retain(|m| m.2 != c);
            },
            _ => {
                let targets = hub.broadcast_targets(key, None);
                let outcomes: Vec<(usize, bool)> =
                    targets.iter().map(|&t| (t, next(5) != 0)).collect();
                hub.finish_broadcast(&outcomes);
                for (t, ok) in outcomes {
                    if !ok {
                        live.remove(&t);
                        model.retain(|m| m.2 != t);
                    }
                }
            },
        }
        for (k, kind) in kinds.iter().enumerate() {
            for id in 1..=5 {
                let expect: Vec<usize> =
                    model.iter().filter(|m| m.0 == k && m.1 == id).map(|m| m.2).collect();
                assert_eq!(sorted(hub.room_members(RoomKey::new(*kind, id))), expect);
            }
        }
    }
}

fn caller(user: Option<i32>, admin: bool, moderates: Vec<i32>) -> Caller {
    Caller { user_id: user, is_admin: admin, moderates }
}

#[test]
fn user_join_needs_matching_identity() {
    let mut hub = hub_with(&[1]);
    let anon = caller(None, false, vec![]);
    assert_eq!(user_join(&mut hub, &anon, 5, Some(1)), Err(ApiError::NotAuthenticated));
    let other = caller(Some(6), false, vec![]);
    assert_eq!(user_join(&mut hub, &other, 5, Some(1)), Err(ApiError::NotAuthorized));
    assert!(hub.room_members(RoomKey::new(RoomKind::UserInbox, 5)).is_empty());
    let me = caller(Some(5), false, vec![]);
    assert_eq!(user_join(&mut hub, &me, 5, Some(1)), Ok(JoinAck { joined: true }));
    assert_eq!(hub.room_members(RoomKey::new(RoomKind::UserInbox, 5)), vec![1]);
    assert_eq!(user_join(&mut hub, &me, 5, None), Ok(JoinAck { joined: true }));
    assert_eq!(user_join(&mut hub, &me, 5, Some(2)), Err(ApiError::UnknownConnection));
}

#[test]
fn public_joins_need_no_identity() {
    let mut hub = hub_with(&[1]);
    assert_eq!(community_join(&mut hub, 3, Some(1)), Ok(JoinAck { joined: true }));
    assert_eq!(post_join(&mut hub, 42, Some(1)), Ok(JoinAck { joined: true }));
    assert_eq!(post_join(&mut hub, 0, Some(1)), Err(ApiError::InvalidRoomKey));
    assert_eq!(community_join(&mut hub, 3, Some(7)), Err(ApiError::UnknownConnection));
    assert_eq!(post_join(&mut hub, 43, None), Ok(JoinAck { joined: true }));
    assert_eq!(hub.room_members(RoomKey::new(RoomKind::Community, 3)), vec![1]);
    assert_eq!(hub.room_members(RoomKey::new(RoomKind::Post, 42)), vec![1]);
    assert!(hub.room_members(RoomKey::new(RoomKind::Post, 43)).is_empty());
}

#[test]
fn mod_join_needs_a_moderator_or_admin() {
    let mut hub = hub_with(&[1, 2, 3]);
    let room = RoomKey::new(RoomKind::Mod, 7);
    let anon = caller(None, false, vec![]);
    assert_eq!(mod_join(&mut hub, &anon, 7, Some(1)), Err(ApiError::NotAuthorized));
    let anon_with_flags = caller(None, true, vec![7]);
    assert_eq!(mod_join(&mut hub, &anon_with_flags, 7, Some(1)), Err(ApiError::NotAuthorized));
    let plain = caller(Some(4), false, vec![8]);
    assert_eq!(mod_join(&mut hub, &plain, 7, Some(1)), Err(ApiError::NotAuthorized));
    assert!(hub.room_members(room).is_empty());
    let moderator = caller(Some(5), false, vec![3, 7]);
    assert_eq!(mod_join(&mut hub, &moderator, 7, Some(2)), Ok(JoinAck { joined: true }));
    let admin = caller(Some(6), true, vec![]);
    assert_eq!(mod_join(&mut hub, &admin, 7, Some(3)), Ok(JoinAck { joined: true }));
    assert_eq!(sorted(hub.room_members(room)), vec![2, 3]);
}

fn taglines() -> Vec<Tagline> {
    vec![
        Tagline { id: 1, content: "Example tagline".to_string() },
        Tagline { id: 2, content: "A new tagline".to_string() },
    ]
}

#[test]
fn taglines_only_for_admins() {
    assert_eq!(get_site_taglines(&None, taglines()), Err(ApiError::NotAnAdmin));
    let plain = Some(caller(Some(3), false, vec![]));
    assert_eq!(get_site_taglines(&plain, taglines()), Err(ApiError::NotAnAdmin));
    let admin = Some(caller(Some(1), true, vec![]));
    let r = get_site_taglines(&admin, taglines()).unwrap();
    assert_eq!(r.taglines, taglines());
    let anonymous_admin_flag = Some(caller(None, true, vec![]));
    assert_eq!(require_admin(&anonymous_admin_flag), Err(ApiError::NotAnAdmin));
    assert_eq!(require_admin(&admin), Ok(()));
}

#[test]
fn failed_send_in_mod_room_keeps_other_moderators() {
    let mut hub = hub_with(&[1, 2, 3]);
    let moderator = caller(Some(5), false, vec![7]);
    for c in [1, 2, 3] {
        assert_eq!(mod_join(&mut hub, &moderator, 7, Some(c)), Ok(JoinAck { joined: true }));
    }
    let room = RoomKey::new(RoomKind::Mod, 7);
    let targets = hub.broadcast_targets(room, None);
    assert_eq!(sorted(targets.clone()), vec![1, 2, 3]);
    let outcomes: Vec<(usize, bool)> = targets.iter().map(|&c| (c, c != 3)).collect();
    let report = hub.finish_broadcast(&outcomes);
    assert_eq!(report, DeliveryReport { attempted: 3, delivered: 2, pruned: 1 });
    assert_eq!(sorted(hub.room_members(room)), vec![1, 2]);
    assert_eq!(mod_join(&mut hub, &moderator, 7, Some(1)), Ok(JoinAck { joined: true }));
    assert_eq!(sorted(hub.room_members(room)), vec![1, 2]);
    assert_eq!(mod_join(&mut hub, &moderator, 7, Some(3)), Err(ApiError::UnknownConnection));
}
