use vstd::prelude::*;

use crate::hub::{model_join, Hub, HubError, JoinAck};
use crate::room::{valid_entity_id, ConnectionId, EntityId, RoomKey, RoomKind};
use crate::tagline::Tagline;
use crate::vec_ops::contains_item;

verus! {

/// The identity a request was made with, as resolved from its credentials:
/// the user, whether they administer the site, and the communities they
/// moderate. An anonymous caller has no user.
pub struct Caller {
    pub user_id: Option<EntityId>,
    pub is_admin: bool,
    pub moderates: Vec<EntityId>,
}

/// Request-level failures.
#[derive(Clone, Copy, Debug, PartialEq, Eq, Structural)]
pub enum ApiError {
    /// The request needs an authenticated caller and has none.
    NotAuthenticated,
    /// The caller may not do this.
    NotAuthorized,
    /// Only administrators may do this.
    NotAnAdmin,
    /// The request names a connection that is not registered.
    UnknownConnection,
    /// The request names an entity id that cannot exist.
    InvalidRoomKey,
}

/// The answer to a request for the full list of site taglines.
#[derive(Clone, Debug, PartialEq, Eq)]
pub struct GetSiteTaglinesResponse {
    pub taglines: Vec<Tagline>,
}

pub open spec fn hub_error(e: HubError) -> ApiError {
    match e {
        HubError::UnknownConnection => ApiError::UnknownConnection,
        HubError::InvalidRoomKey => ApiError::InvalidRoomKey,
    }
}

/// An administrator, or a moderator of `community`.
pub open spec fn may_moderate(caller: Caller, community: EntityId) -> bool {
    caller.user_id.is_some() && (caller.is_admin || caller.moderates@.contains(community))
}

/// An authenticated administrator.
pub open spec fn is_admin(caller: Option<Caller>) -> bool {
    match caller {
        Some(c) => c.user_id.is_some() && c.is_admin,
        None => false,
    }
}

/// What a join request answers when the caller may join: joined, or the
/// hub's failure.
pub open spec fn join_outcome<S>(
    hub: &Hub<S>,
    key: RoomKey,
    ws: Option<ConnectionId>,
) -> Result<JoinAck, ApiError> {
    match ws {
        None => Ok(JoinAck { joined: true }),
        Some(c) => if !valid_entity_id(key.id) {
            Err(ApiError::InvalidRoomKey)
        } else if !hub@.sessions.contains_key(c) {
            Err(ApiError::UnknownConnection)
        } else {
            Ok(JoinAck { joined: true })
        },
    }
}

/// The hub after a join request the caller may make.
pub open spec fn joined_view<S>(
    hub: &Hub<S>,
    key: RoomKey,
    ws: Option<ConnectionId>,
) -> crate::hub::HubView<S> {
    match ws {
        None => hub@,
        Some(c) => model_join(hub@, key, c),
    }
}

fn from_hub_error(e: HubError) -> (r: ApiError)
    ensures
        r == hub_error(e),
{
    match e {
        HubError::UnknownConnection => ApiError::UnknownConnection,
        HubError::InvalidRoomKey => ApiError::InvalidRoomKey,
    }
}

/// Joins the request's connection, if it has one, to room `key`.
fn join_room<S>(hub: &mut Hub<S>, key: RoomKey, ws: Option<ConnectionId>) -> (r: Result<
    JoinAck,
    ApiError,
>)
    requires
        old(hub).wf(),
    ensures
        final(hub).wf(),
        r == join_outcome(old(hub), key, ws),
        final(hub)@ == joined_view(old(hub), key, ws),
{
    match ws {
        None => Ok(JoinAck { joined: true }),
        Some(c) => match hub.join(key, c) {
            Ok(ack) => Ok(ack),
            Err(e) => Err(from_hub_error(e)),
        },
    }
}

/// Subscribes a connection to a user's inbox. Only that user may do so.
pub fn user_join<S>(
    hub: &mut Hub<S>,
    caller: &Caller,
    user_id: EntityId,
    ws: Option<ConnectionId>,
) -> (r: Result<JoinAck, ApiError>)
    requires
        old(hub).wf(),
    ensures
        final(hub).wf(),
        caller.user_id.is_none() ==> r == Err::<JoinAck, ApiError>(ApiError::NotAuthenticated)
            && final(hub)@ == old(hub)@,
        caller.user_id.is_some() && caller.user_id != Some(user_id) ==> r == Err::<
            JoinAck,
            ApiError,
        >(ApiError::NotAuthorized) && final(hub)@ == old(hub)@,
        caller.user_id == Some(user_id) ==> r == join_outcome(
            old(hub),
            RoomKey { kind: RoomKind::UserInbox, id: user_id },
            ws,
        ) && final(hub)@ == joined_view(
            old(hub),
            RoomKey { kind: RoomKind::UserInbox, id: user_id },
            ws,
        ),
{
    match caller.user_id {
        None => Err(ApiError::NotAuthenticated),
        Some(u) => {
            if u != user_id {
                Err(ApiError::NotAuthorized)
            } else {
                join_room(hub, RoomKey::new(RoomKind::UserInbox, user_id), ws)
            }
        },
    }
}

/// Subscribes a connection to a community's public events. Anyone may.
pub fn community_join<S>(hub: &mut Hub<S>, community_id: EntityId, ws: Option<ConnectionId>) -> (r:
    Result<JoinAck, ApiError>)
    requires
        old(hub).wf(),
    ensures
        final(hub).wf(),
        r == join_outcome(old(hub), RoomKey { kind: RoomKind::Community, id: community_id }, ws),
        final(hub)@ == joined_view(
            old(hub),
            RoomKey { kind: RoomKind::Community, id: community_id },
            ws,
        ),
{
    join_room(hub, RoomKey::new(RoomKind::Community, community_id), ws)
}

/// Subscribes a connection to a community's moderation channel. Only an
/// authenticated administrator or moderator of that community may; anyone
/// else, anonymous callers included, is refused with `NotAuthorized`.
pub fn mod_join<S>(
    hub: &mut Hub<S>,
    caller: &Caller,
    community_id: EntityId,
    ws: Option<ConnectionId>,
) -> (r: Result<JoinAck, ApiError>)
    requires
        old(hub).wf(),
    ensures
        final(hub).wf(),
        !may_moderate(*caller, community_id) ==> r == Err::<JoinAck, ApiError>(
            ApiError::NotAuthorized,
        ) && final(hub)@ == old(hub)@,
        may_moderate(*caller, community_id) ==> r == join_outcome(
            old(hub),
            RoomKey { kind: RoomKind::Mod, id: community_id },
            ws,
        ) && final(hub)@ == joined_view(
            old(hub),
            RoomKey { kind: RoomKind::Mod, id: community_id },
            ws,
        ),
{
    if caller.user_id.is_none() || (!caller.is_admin && !contains_item(
        &caller.moderates,
        &community_id,
    )) {
        return Err(ApiError::NotAuthorized);
    }
    join_room(hub, RoomKey::new(RoomKind::Mod, community_id), ws)
}

/// Subscribes a connection to a post's events. Anyone may.
pub fn post_join<S>(hub: &mut Hub<S>, post_id: EntityId, ws: Option<ConnectionId>) -> (r: Result<
    JoinAck,
    ApiError,
>)
    requires
        old(hub).wf(),
    ensures
        final(hub).wf(),
        r == join_outcome(old(hub), RoomKey { kind: RoomKind::Post, id: post_id }, ws),
        final(hub)@ == joined_view(old(hub), RoomKey { kind: RoomKind::Post, id: post_id }, ws),
{
    join_room(hub, RoomKey::new(RoomKind::Post, post_id), ws)
}

/// Lets only an authenticated administrator through.
pub fn require_admin(caller: &Option<Caller>) -> (r: Result<(), ApiError>)
    ensures
        r == if is_admin(*caller) {
            Ok::<(), ApiError>(())
        } else {
            Err(ApiError::NotAnAdmin)
        },
{
    match caller {
        Some(c) => {
            if c.user_id.is_some() && c.is_admin {
                Ok(())
            } else {
                Err(ApiError::NotAnAdmin)
            }
        },
        None => Err(ApiError::NotAnAdmin),
    }
}

/// Answers a request for every stored tagline: the complete list for an
/// administrator, a "not an administrator" failure for anyone else.
pub fn get_site_taglines(caller: &Option<Caller>, taglines: Vec<Tagline>) -> (r: Result<
    GetSiteTaglinesResponse,
    ApiError,
>)
    ensures
        r == if is_admin(*caller) {
            Ok::<GetSiteTaglinesResponse, ApiError>(GetSiteTaglinesResponse { taglines })
        } else {
            Err(ApiError::NotAnAdmin)
        },
{
    match require_admin(caller) {
        Ok(()) => Ok(GetSiteTaglinesResponse { taglines }),
        Err(e) => Err(e),
    }
}

} // verus!
