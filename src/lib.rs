//! Live-notification rooms: a connection registry, a room membership index
//! with its reverse index, broadcast fan-out decisions, and the request
//! handlers that let connections join rooms.

pub mod api;
pub mod hub;
pub mod laws;
pub mod room;
pub mod tagline;
pub mod vec_ops;

pub use api::{
    community_join, get_site_taglines, mod_join, post_join, require_admin, user_join, ApiError,
    Caller, GetSiteTaglinesResponse,
};
pub use hub::{DeliveryReport, Hub, HubError, JoinAck, Session};
pub use room::{ConnectionId, EntityId, RoomKey, RoomKind};
pub use tagline::{Tagline, TaglineForm};
