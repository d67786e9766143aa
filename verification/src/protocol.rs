use vstd::prelude::*;
use vstd::string::StringExecFns;
use crate::SESSION_TTL_SECONDS;
use crate::auth::current_timestamp;
use crate::auth::login_user;
use crate::auth::register_user;
use crate::auth::validate_session_core;
use crate::error::AuthError;
use crate::messages::Message;
use crate::messages::ReactionSummary;
use crate::messages::Room;
use crate::messages::RoomMessageResponse;
use crate::messages::SendRoomMessageRequest;
use crate::registry::ConnectionManager;
use crate::registry::TypingUser;
use crate::registry::has_client;
use crate::service::MessageService;
use crate::store::Database;
use crate::store::has_token;
use crate::store::has_user_id;
use crate::store::session_by_token;
use crate::users::AuthResponse;
use crate::users::CreateUserRequest;
use crate::users::LoginRequest;
use crate::users::Presence;
use crate::users::User;

verus! {

/// A client command, one JSON-style frame each on the wire.
#[derive(Clone, Debug)]
pub enum WsClientMessage {
    Authenticate { token: String },
    CreateRoom { name: String, desc: String },
    GetAllRooms,
    JoinRoom { room_id: u64 },
    LeaveRoom { room_id: u64 },
    SendMessage { room_id: u64, content: String, reply_to_message_id: Option<u64> },
    GetRoomHistory { room_id: u64, limit: Option<usize>, offset: Option<usize> },
    EditMessage { room_id: u64, message_id: u64, new_content: String },
    DeleteMessage { room_id: u64, message_id: u64 },
    GetUserRooms { user_id: u64 },
    GetRoomMembers { room_id: u64 },
    UpdatePresence { user_id: u64, presence: Presence },
    UpdateStatus { user_id: u64, status: String },
    UpdateTyping { room_id: u64, is_typing: bool },
    GetUnreadMentionsCount { user_id: u64 },
    MarkMentionsRead { message_id: u64 },
    MarkRoomMentionsRead { room_id: u64 },
    GetUserMentions { limit: Option<usize>, offset: Option<usize> },
    AddReaction { room_id: u64, message_id: u64, emoji: String },
    RemoveReaction { room_id: u64, message_id: u64, emoji: String },
    PinMessage { room_id: u64, message_id: u64 },
    UnpinMessage { room_id: u64, message_id: u64 },
    GetPinnedMessages { room_id: u64 },
}

/// A compact room listing entry.
#[derive(Clone, Debug)]
pub struct RoomInfo {
    pub id: u64,
    pub name: String,
    pub desc: String,
}

/// A server event, one JSON-style frame each on the wire.
#[derive(Debug)]
pub enum WsServerMessage {
    Authenticated { user_id: u64, username: String },
    Error { message: String },
    RoomCreated { room_id: u64, room_name: String },
    RoomList { rooms: Vec<RoomInfo> },
    RoomJoined { room_id: u64, room_name: String },
    RoomLeft { room_id: u64 },
    NewMessage { room_id: u64, message: RoomMessageResponse },
    MessageSent { message_id: u64 },
    RoomHistory { room_id: u64, messages: Vec<RoomMessageResponse> },
    UserJoined { room_id: u64, user_id: u64, username: String },
    UserLeft { room_id: u64, user_id: u64, username: String },
    MessageEdited { room_id: u64, message_id: u64, new_content: String, edited_at: i64 },
    MessageDeleted { room_id: u64, message_id: u64 },
    UserRoomList { rooms: Vec<RoomInfo> },
    RoomMembers { room_id: u64, members: Vec<User> },
    PresenceChanged { user_id: u64, username: String, presence: Presence },
    StatusChanged { user_id: u64, username: String, status: String },
    TypingStatusChanged { room_id: u64, typing_users: Vec<TypingUser> },
    MentionNotification {
        message_id: u64,
        room_id: u64,
        room_name: String,
        sender_username: String,
        content: String,
        sent_at: i64,
    },
    UnreadMentionsCount { count: usize },
    ReactionAdded {
        room_id: u64,
        message_id: u64,
        emoji: String,
        user_id: u64,
        username: String,
        reactions: Vec<ReactionSummary>,
    },
    ReactionRemoved {
        room_id: u64,
        message_id: u64,
        emoji: String,
        user_id: u64,
        reactions: Vec<ReactionSummary>,
    },
    MessagePinned { room_id: u64, message_id: u64, pinned_by: u64, pinned_at: i64 },
    MessageUnpinned { room_id: u64, message_id: u64 },
    PinnedMessages { room_id: u64, messages: Vec<Message> },
}

/// One event addressed to a set of connected users, for the transport to
/// fan out. Per-connection order follows the order of the returned lists.
#[derive(Debug)]
pub struct Delivery {
    pub targets: Vec<u64>,
    pub event: WsServerMessage,
}

/// Everything one handled command asks the transport to do: events for the
/// issuing connection, addressed broadcasts, and whether to close.
#[derive(Debug)]
pub struct Handled {
    pub events: Vec<WsServerMessage>,
    pub deliveries: Vec<Delivery>,
    pub disconnect: bool,
}

/// A connection's authentication state: set once by a successful
/// Authenticate, never cleared until disconnect.
#[derive(Clone, Debug)]
pub struct AuthInfo {
    pub user_id: u64,
    pub username: String,
}

#[derive(Clone, Debug)]
pub struct ConnState {
    pub auth: Option<AuthInfo>,
}

impl ConnState {
    pub fn new() -> (c: ConnState)
        ensures
            c.auth is None,
    {
        ConnState { auth: None }
    }
}

fn error_event(text: &str) -> (r: WsServerMessage)
    ensures
        r is Error,
{
    WsServerMessage::Error { message: text.to_owned() }
}

/// What handling an authenticated SendMessage guarantees. `ready` is the
/// dispatcher's own admission gate (id headroom and a clock that has not
/// run backwards); past it, the messaging rules decide. On success the
/// message is persisted, the sender gets MessageSent, the room's
/// subscribers get one NewMessage, and every notified user gets their own
/// MentionNotification; on failure one Error event goes back and the store
/// is untouched.
pub open spec fn send_message_outcome(
    pre: ChatServer,
    post: ChatServer,
    sender_id: u64,
    room_id: u64,
    content: Seq<char>,
    reply_to: Option<u64>,
    now: i64,
    r: Handled,
) -> bool {
    let ready = {
        &&& pre.svc.db.can_alloc(1 + pre.svc.db.members@.len() + pre.svc.db.users@.len() as int)
        &&& now >= pre.svc.db.last_ts
    };
    let mentioned = crate::store::spec_mentioned_ids(
        pre.svc.db.members@,
        pre.svc.db.users@,
        content,
        room_id,
        sender_id,
    );
    let ok = {
        &&& ready
        &&& crate::service::valid_content(content)
        &&& crate::store::is_member(pre.svc.db.members@, room_id, sender_id)
        &&& crate::store::has_room_id(pre.svc.db.rooms@, room_id)
        &&& has_user_id(pre.svc.db.users@, sender_id)
        &&& match reply_to {
            None => true,
            Some(rid) => crate::store::has_msg_id(
                crate::messages::msg_views(pre.svc.db.messages@),
                rid,
            ) && crate::store::msg_by_id(
                crate::messages::msg_views(pre.svc.db.messages@),
                rid,
            ).room_id == Some(room_id),
        }
    };
    &&& !r.disconnect
    &&& post.conns == pre.conns
    &&& (ok ==> {
        &&& crate::messages::msg_views(post.svc.db.messages@) == crate::messages::msg_views(
            pre.svc.db.messages@,
        ).push(
            crate::store::fresh_msg_view(
                pre.svc.db.next_id,
                sender_id,
                crate::messages::MessageType::Room,
                Some(room_id),
                None,
                content,
                reply_to,
                now,
            ),
        )
        &&& r.events@.len() == 1
        &&& (r.events@[0] matches WsServerMessage::MessageSent { message_id } && message_id
            == pre.svc.db.next_id)
        &&& r.deliveries@.len() == 1 + mentioned.len()
        &&& (r.deliveries@[0].event matches WsServerMessage::NewMessage { room_id: rm, .. } && rm
            == room_id)
        &&& r.deliveries@[0].targets@ == crate::registry::subscribers_spec(
            pre.conns.clients@,
            room_id,
        )
        &&& (forall|k: int|
            1 <= k < r.deliveries@.len() ==> ((#[trigger] r.deliveries@[k]).event matches
                WsServerMessage::MentionNotification { message_id: mid, content: c, .. } && mid
                == pre.svc.db.next_id && c@ == content) && r.deliveries@[k].targets@ == seq![
                mentioned[k - 1],
            ])
    })
    &&& (!ok ==> {
        &&& post.svc.db == pre.svc.db
        &&& r.events@.len() == 1
        &&& r.events@[0] is Error
        &&& r.deliveries@.len() == 0
    })
}

/// What handling each command of an authenticated connection guarantees,
/// beyond well-formedness: how the store changes, which events answer the
/// caller, and which deliveries fan out. Listing commands leave the server
/// untouched; mutating ones either do exactly their service call's work and
/// broadcast it, or answer one Error event and change nothing.
pub open spec fn authed_command_outcome(
    pre: ChatServer,
    post: ChatServer,
    user_id: u64,
    cmd: WsClientMessage,
    now: i64,
    r: Handled,
) -> bool {
    &&& !r.disconnect
    &&& (match cmd {
        WsClientMessage::SendMessage { room_id, content, reply_to_message_id } => send_message_outcome(
            pre,
            post,
            user_id,
            room_id,
            content@,
            reply_to_message_id,
            now,
            r,
        ),
        WsClientMessage::GetAllRooms => {
            &&& post == pre
            &&& r.events@.len() == 1
            &&& r.events@[0] is RoomList
            &&& r.deliveries@.len() == 0
        },
        WsClientMessage::GetUserRooms { .. } => {
            &&& post == pre
            &&& r.events@.len() == 1
            &&& r.events@[0] is UserRoomList
            &&& r.deliveries@.len() == 0
        },
        WsClientMessage::GetRoomMembers { .. } => {
            &&& post == pre
            &&& r.events@.len() == 1
            &&& r.events@[0] is RoomMembers
            &&& r.deliveries@.len() == 0
        },
        WsClientMessage::GetPinnedMessages { .. } => {
            &&& post == pre
            &&& r.events@.len() == 1
            &&& r.events@[0] is PinnedMessages
            &&& r.deliveries@.len() == 0
        },
        WsClientMessage::GetUserMentions { .. } => {
            &&& post == pre
            &&& r.events@.len() == 1
            &&& r.events@[0] is RoomHistory
            &&& r.deliveries@.len() == 0
        },
        WsClientMessage::GetRoomHistory { room_id, .. } => {
            &&& post == pre
            &&& r.events@.len() == 1
            &&& (crate::store::has_room_id(pre.svc.db.rooms@, room_id) ==> r.events@[0]
                is RoomHistory)
            &&& (!crate::store::has_room_id(pre.svc.db.rooms@, room_id) ==> r.events@[0] is Error)
            &&& r.deliveries@.len() == 0
        },
        WsClientMessage::GetUnreadMentionsCount { user_id: target } => {
            &&& post == pre
            &&& r.deliveries@.len() == 0
            &&& (target == user_id ==> r.events@.len() == 1 && (r.events@[0] matches
                WsServerMessage::UnreadMentionsCount { count } && count as int
                == crate::store::unread_mentions_count(pre.svc.db.mentions@, target)))
            &&& (target != user_id ==> r.events@.len() == 0)
        },
        WsClientMessage::PinMessage { room_id, message_id } => {
            &&& post.conns == pre.conns
            &&& r.events@.len() == 0
            &&& r.deliveries@.len() == 1
            &&& (r.deliveries@[0].event matches WsServerMessage::MessagePinned {
                message_id: mid,
                pinned_by,
                pinned_at,
                ..
            } && mid == message_id && pinned_by == user_id && pinned_at == now)
            &&& r.deliveries@[0].targets@ == crate::registry::subscribers_spec(
                pre.conns.clients@,
                room_id,
            )
            &&& (!crate::store::has_msg_id(
                crate::messages::msg_views(pre.svc.db.messages@),
                message_id,
            ) ==> post.svc.db == pre.svc.db)
            &&& (crate::store::has_msg_id(
                crate::messages::msg_views(pre.svc.db.messages@),
                message_id,
            ) ==> exists|i: int|
                {
                    &&& 0 <= i < pre.svc.db.messages@.len()
                    &&& (#[trigger] crate::messages::msg_views(pre.svc.db.messages@)[i]).id
                        == message_id
                    &&& crate::messages::msg_views(post.svc.db.messages@)
                        == crate::messages::msg_views(pre.svc.db.messages@).update(
                        i,
                        crate::store::pinned_view(
                            crate::messages::msg_views(pre.svc.db.messages@)[i],
                            user_id,
                            now,
                        ),
                    )
                })
        },
        WsClientMessage::UnpinMessage { room_id, message_id } => {
            &&& post.conns == pre.conns
            &&& r.events@.len() == 0
            &&& r.deliveries@.len() == 1
            &&& (r.deliveries@[0].event matches WsServerMessage::MessageUnpinned {
                message_id: mid,
                ..
            } && mid == message_id)
            &&& r.deliveries@[0].targets@ == crate::registry::subscribers_spec(
                pre.conns.clients@,
                room_id,
            )
            &&& (!crate::store::has_msg_id(
                crate::messages::msg_views(pre.svc.db.messages@),
                message_id,
            ) ==> post.svc.db == pre.svc.db)
            &&& (crate::store::has_msg_id(
                crate::messages::msg_views(pre.svc.db.messages@),
                message_id,
            ) ==> exists|i: int|
                {
                    &&& 0 <= i < pre.svc.db.messages@.len()
                    &&& (#[trigger] crate::messages::msg_views(pre.svc.db.messages@)[i]).id
                        == message_id
                    &&& crate::messages::msg_views(post.svc.db.messages@)
                        == crate::messages::msg_views(pre.svc.db.messages@).update(
                        i,
                        crate::store::unpinned_view(
                            crate::messages::msg_views(pre.svc.db.messages@)[i],
                        ),
                    )
                })
        },
        WsClientMessage::DeleteMessage { room_id, message_id } => {
            &&& post.conns == pre.conns
            &&& r.events@.len() == 0
            &&& r.deliveries@.len() == 1
            &&& (r.deliveries@[0].event matches WsServerMessage::MessageDeleted {
                message_id: mid,
                ..
            } && mid == message_id)
            &&& r.deliveries@[0].targets@ == crate::registry::subscribers_spec(
                pre.conns.clients@,
                room_id,
            )
            &&& ((crate::store::has_msg_id(
                crate::messages::msg_views(pre.svc.db.messages@),
                message_id,
            ) && crate::store::msg_by_id(
                crate::messages::msg_views(pre.svc.db.messages@),
                message_id,
            ).sender_id == user_id) ==> !crate::store::has_msg_id(
                crate::messages::msg_views(post.svc.db.messages@),
                message_id,
            ))
            &&& (!(crate::store::has_msg_id(
                crate::messages::msg_views(pre.svc.db.messages@),
                message_id,
            ) && crate::store::msg_by_id(
                crate::messages::msg_views(pre.svc.db.messages@),
                message_id,
            ).sender_id == user_id) ==> post.svc.db == pre.svc.db)
        },
        WsClientMessage::EditMessage { room_id, message_id, new_content } => {
            &&& post.conns == pre.conns
            &&& (crate::service::valid_content(new_content@) ==> {
                &&& r.events@.len() == 0
                &&& r.deliveries@.len() == 1
                &&& (r.deliveries@[0].event matches WsServerMessage::MessageEdited {
                    message_id: mid,
                    new_content: c,
                    edited_at,
                    ..
                } && mid == message_id && c@ == new_content@ && edited_at == now)
                &&& r.deliveries@[0].targets@ == crate::registry::subscribers_spec(
                    pre.conns.clients@,
                    room_id,
                )
            })
            &&& (!crate::service::valid_content(new_content@) ==> {
                &&& post.svc.db == pre.svc.db
                &&& r.events@.len() == 1
                &&& r.events@[0] is Error
                &&& r.deliveries@.len() == 0
            })
        },
        WsClientMessage::AddReaction { room_id, message_id, emoji } => {
            &&& post.conns == pre.conns
            &&& (crate::store::has_msg_id(
                crate::messages::msg_views(pre.svc.db.messages@),
                message_id,
            ) ==> {
                &&& r.events@.len() == 0
                &&& r.deliveries@.len() == 1
                &&& (r.deliveries@[0].event matches WsServerMessage::ReactionAdded {
                    message_id: mid,
                    emoji: e,
                    user_id: u,
                    ..
                } && mid == message_id && e@ == emoji@ && u == user_id)
                &&& r.deliveries@[0].targets@ == crate::registry::subscribers_spec(
                    pre.conns.clients@,
                    room_id,
                )
            })
            &&& (!crate::store::has_msg_id(
                crate::messages::msg_views(pre.svc.db.messages@),
                message_id,
            ) ==> {
                &&& post.svc.db == pre.svc.db
                &&& r.events@.len() == 1
                &&& r.events@[0] is Error
                &&& r.deliveries@.len() == 0
            })
        },
        WsClientMessage::RemoveReaction { room_id, message_id, emoji } => {
            &&& post.conns == pre.conns
            &&& (crate::store::has_msg_id(
                crate::messages::msg_views(pre.svc.db.messages@),
                message_id,
            ) ==> {
                &&& r.events@.len() == 0
                &&& r.deliveries@.len() == 1
                &&& (r.deliveries@[0].event matches WsServerMessage::ReactionRemoved {
                    message_id: mid,
                    emoji: e,
                    user_id: u,
                    ..
                } && mid == message_id && e@ == emoji@ && u == user_id)
                &&& r.deliveries@[0].targets@ == crate::registry::subscribers_spec(
                    pre.conns.clients@,
                    room_id,
                )
            })
            &&& (!crate::store::has_msg_id(
                crate::messages::msg_views(pre.svc.db.messages@),
                message_id,
            ) ==> {
                &&& post.svc.db == pre.svc.db
                &&& r.events@.len() == 1
                &&& r.events@[0] is Error
                &&& r.deliveries@.len() == 0
            })
        },
        WsClientMessage::MarkMentionsRead { message_id } => {
            &&& post.conns == pre.conns
            &&& r.deliveries@.len() == 0
            &&& r.events@.len() == 1
            &&& (r.events@[0] matches WsServerMessage::UnreadMentionsCount { count } && count as int
                == crate::store::unread_mentions_count(post.svc.db.mentions@, user_id))
            &&& (!crate::store::has_mention(pre.svc.db.mentions@, message_id, user_id)
                ==> post.svc.db == pre.svc.db)
        },
        WsClientMessage::MarkRoomMentionsRead { room_id } => {
            &&& post.conns == pre.conns
            &&& r.deliveries@.len() == 0
            &&& r.events@.len() == 1
            &&& (r.events@[0] matches WsServerMessage::UnreadMentionsCount { count } && count as int
                == crate::store::unread_mentions_count(post.svc.db.mentions@, user_id))
            &&& post.svc.db.mentions@.len() == pre.svc.db.mentions@.len()
            &&& (forall|k: int|
                0 <= k < pre.svc.db.mentions@.len() ==> post.svc.db.mentions@[k] == (
                if crate::store::room_mention_read_target(
                    #[trigger] pre.svc.db.mentions@[k],
                    user_id,
                    crate::messages::msg_views(pre.svc.db.messages@),
                    room_id,
                ) {
                    crate::store::read_mention(pre.svc.db.mentions@[k], now)
                } else {
                    pre.svc.db.mentions@[k]
                }))
        },
        WsClientMessage::UpdateTyping { room_id, is_typing } => {
            &&& post.svc == pre.svc
            &&& (crate::registry::subscribed(pre.conns.clients@, user_id, room_id) ==> {
                &&& crate::registry::typing_has(post.conns.typing@, room_id, user_id) == is_typing
                &&& r.events@.len() == 0
                &&& r.deliveries@.len() == 1
                &&& r.deliveries@[0].event is TypingStatusChanged
            })
            &&& (!crate::registry::subscribed(pre.conns.clients@, user_id, room_id) ==> {
                &&& post == pre
                &&& r.events@.len() == 1
                &&& r.events@[0] is Error
                &&& r.deliveries@.len() == 0
            })
        },
        WsClientMessage::JoinRoom { room_id } => {
            (now >= pre.svc.db.last_ts && crate::store::has_room_id(pre.svc.db.rooms@, room_id))
                ==> crate::store::is_member(post.svc.db.members@, room_id, user_id)
        },
        WsClientMessage::LeaveRoom { room_id } => {
            has_client(pre.conns.clients@, user_id) ==> (!crate::store::is_member(
                post.svc.db.members@,
                room_id,
                user_id,
            ) && !crate::registry::subscribed(post.conns.clients@, user_id, room_id))
        },
        WsClientMessage::UpdatePresence { user_id: target, presence } => {
            &&& post.conns == pre.conns
            &&& post.svc.db.messages == pre.svc.db.messages
            &&& post.svc.db.rooms == pre.svc.db.rooms
            &&& post.svc.db.members == pre.svc.db.members
            &&& post.svc.db.mentions == pre.svc.db.mentions
            &&& post.svc.db.sessions == pre.svc.db.sessions
            &&& (has_user_id(pre.svc.db.users@, target) ==> has_user_id(post.svc.db.users@, target)
                && crate::store::user_by_id(post.svc.db.users@, target).presence == presence)
        },
        WsClientMessage::UpdateStatus { user_id: target, status } => {
            &&& post.conns == pre.conns
            &&& post.svc.db.messages == pre.svc.db.messages
            &&& post.svc.db.rooms == pre.svc.db.rooms
            &&& post.svc.db.members == pre.svc.db.members
            &&& post.svc.db.mentions == pre.svc.db.mentions
            &&& post.svc.db.sessions == pre.svc.db.sessions
            &&& (has_user_id(pre.svc.db.users@, target) ==> has_user_id(post.svc.db.users@, target)
                && (crate::store::user_by_id(post.svc.db.users@, target).status matches Some(st)
                && st@ == status@))
        },
        WsClientMessage::CreateRoom { name, desc } => {
            (pre.svc.db.can_alloc(1) && now >= pre.svc.db.last_ts) ==> (exists|rm: Room|
                {
                    &&& post.svc.db.rooms@ == pre.svc.db.rooms@.push(rm)
                    &&& (#[trigger] rm.name)@ == name@
                    &&& rm.created_by == user_id
                    &&& crate::store::is_member(post.svc.db.members@, rm.id, user_id)
                })
        },
        _ => true,
    })
}

/// The chat core: the store behind the messaging rules, and the live
/// connection registry. One instance serves every connection.
pub struct ChatServer {
    pub svc: MessageService,
    pub conns: ConnectionManager,
}

impl ChatServer {
    pub open spec fn wf(&self) -> bool {
        self.svc.db.wf() && self.conns.wf()
    }

    pub fn new() -> (s: ChatServer)
        ensures
            s.wf(),
            s.svc.db.users@ =~= Seq::<User>::empty(),
    {
        ChatServer { svc: MessageService::new(Database::new()), conns: ConnectionManager::new() }
    }

    /// Registration over the plain request channel; stamps the request
    /// with the current clock.
    pub fn register(&mut self, request: CreateUserRequest) -> (r: Result<AuthResponse, AuthError>)
        requires
            old(self).wf(),
        ensures
            final(self).wf(),
            !crate::auth::valid_credentials(request.username@, request.email@, request.password@)
                ==> (r matches Err(e) && e is InvalidInput),
            !old(self).svc.db.can_alloc(2) ==> (r matches Err(e) && e is InvalidInput),
            r matches Err(e) ==> {
                &&& final(self).svc.db == old(self).svc.db
                &&& (e is InvalidInput || e is UserExists || e is PasswordHash)
                &&& (e is UserExists ==> crate::store::has_username(
                    old(self).svc.db.users@,
                    request.username@,
                ) || crate::store::has_email(old(self).svc.db.users@, request.email@))
            },
            r matches Ok(resp) ==> {
                &&& resp.user.username@ == request.username@
                &&& !crate::store::has_username(old(self).svc.db.users@, request.username@)
                &&& crate::store::has_username(final(self).svc.db.users@, request.username@)
                &&& crate::store::user_by_name(
                    final(self).svc.db.users@,
                    request.username@,
                ).id == resp.user.id
                &&& crate::store::user_by_name(
                    final(self).svc.db.users@,
                    request.username@,
                ).password_hash == resp.user.password_hash
                &&& crate::auth::digest_parses(resp.user.password_hash@)
                &&& crate::auth::digest_matches(resp.user.password_hash@, request.password@)
                &&& has_token(final(self).svc.db.sessions@, resp.token@)
                &&& final(self).svc.db.users@.len() == old(self).svc.db.users@.len() + 1
                &&& final(self).svc.db.rooms == old(self).svc.db.rooms
                &&& final(self).svc.db.messages == old(self).svc.db.messages
                &&& final(self).svc.db.members == old(self).svc.db.members
                &&& final(self).svc.db.mentions == old(self).svc.db.mentions
                &&& final(self).svc.db.next_id == old(self).svc.db.next_id + 2
            },
            final(self).conns == old(self).conns,
    {
        let now = current_timestamp();
        if now > i64::MAX - SESSION_TTL_SECONDS || !self.svc.db.has_capacity(2) {
            return Err(AuthError::InvalidInput(String::from_str("Server is out of capacity")));
        }
        register_user(&mut self.svc.db, request, now)
    }

    /// Login over the plain request channel.
    pub fn login(&mut self, request: LoginRequest) -> (r: Result<AuthResponse, AuthError>)
        requires
            old(self).wf(),
        ensures
            final(self).wf(),
            !crate::store::has_username(old(self).svc.db.users@, request.username@) ==> r is Err,
            !old(self).svc.db.can_alloc(1) ==> (r matches Err(e) && e is InvalidInput),
            r matches Err(e) ==> {
                &&& final(self).svc.db == old(self).svc.db
                &&& (e is InvalidInput || e is InvalidCredentials || e is PasswordHash)
            },
            r matches Ok(resp) ==> {
                &&& resp.user == crate::store::user_by_name(
                    old(self).svc.db.users@,
                    request.username@,
                )
                &&& resp.user.username@ == request.username@
                &&& crate::auth::digest_matches(
                    crate::store::user_by_name(
                        old(self).svc.db.users@,
                        request.username@,
                    ).password_hash@,
                    request.password@,
                )
                &&& has_token(final(self).svc.db.sessions@, resp.token@)
                &&& final(self).svc.db.users@.len() == old(self).svc.db.users@.len()
                &&& (forall|k: int|
                    0 <= k < old(self).svc.db.users@.len() ==> {
                        &&& (#[trigger] final(self).svc.db.users@[k]).id == old(
                            self,
                        ).svc.db.users@[k].id
                        &&& final(self).svc.db.users@[k].username == old(
                            self,
                        ).svc.db.users@[k].username
                        &&& final(self).svc.db.users@[k].email == old(self).svc.db.users@[k].email
                        &&& final(self).svc.db.users@[k].password_hash == old(
                            self,
                        ).svc.db.users@[k].password_hash
                        &&& final(self).svc.db.users@[k].presence == old(
                            self,
                        ).svc.db.users@[k].presence
                        &&& final(self).svc.db.users@[k].status == old(
                            self,
                        ).svc.db.users@[k].status
                        &&& final(self).svc.db.users@[k].created_at == old(
                            self,
                        ).svc.db.users@[k].created_at
                    })
                &&& final(self).svc.db.rooms == old(self).svc.db.rooms
                &&& final(self).svc.db.messages == old(self).svc.db.messages
                &&& final(self).svc.db.members == old(self).svc.db.members
                &&& final(self).svc.db.mentions == old(self).svc.db.mentions
                &&& final(self).svc.db.next_id == old(self).svc.db.next_id + 1
            },
            final(self).conns == old(self).conns,
    {
        let now = current_timestamp();
        if now > i64::MAX - SESSION_TTL_SECONDS || !self.svc.db.has_capacity(1) {
            return Err(AuthError::InvalidInput(String::from_str("Server is out of capacity")));
        }
        login_user(&mut self.svc.db, request, now)
    }

    /// Token validation over the plain request channel.
    pub fn validate_session(&mut self, token: &str) -> (r: Result<User, AuthError>)
        requires
            old(self).wf(),
        ensures
            final(self).wf(),
            !has_token(old(self).svc.db.sessions@, token@) ==> r is Err,
            r matches Ok(u) ==> {
                &&& *final(self) == *old(self)
                &&& has_token(old(self).svc.db.sessions@, token@)
                &&& u.id == session_by_token(old(self).svc.db.sessions@, token@).user_id
            },
    {
        let now = current_timestamp();
        validate_session_core(&mut self.svc.db, token, now)
    }

    /// Logout over the plain request channel; idempotent.
    pub fn logout(&mut self, token: &str) -> (r: Result<(), AuthError>)
        requires
            old(self).wf(),
        ensures
            final(self).wf(),
            r is Ok,
            !has_token(final(self).svc.db.sessions@, token@),
            final(self).svc.db.users == old(self).svc.db.users,
            final(self).svc.db.rooms == old(self).svc.db.rooms,
            final(self).svc.db.members == old(self).svc.db.members,
            final(self).svc.db.messages == old(self).svc.db.messages,
            final(self).svc.db.mentions == old(self).svc.db.mentions,
            final(self).conns == old(self).conns,
            !has_token(old(self).svc.db.sessions@, token@) ==> *final(self) == *old(self),
            has_token(old(self).svc.db.sessions@, token@) ==> exists|i: int|
                {
                    &&& 0 <= i < old(self).svc.db.sessions@.len()
                    &&& (#[trigger] old(self).svc.db.sessions@[i]).token@ == token@
                    &&& final(self).svc.db.sessions@ == old(self).svc.db.sessions@.remove(i)
                },
    {
        self.svc.db.delete_session(token);
        Ok(())
    }

    /// The per-connection state machine. Before authentication only
    /// Authenticate is accepted: anything else draws one Error event and
    /// changes nothing. A failed Authenticate closes the connection; a
    /// successful one registers the connection, restores its persisted
    /// room subscriptions, and announces Online presence to those rooms.
    /// Authenticated commands map one-to-one onto the service calls;
    /// failures become an Error event for the issuing connection only.
    pub fn handle_command(&mut self, conn: &mut ConnState, msg: WsClientMessage, now: i64) -> (r:
        Handled)
        requires
            old(self).wf(),
        ensures
            final(self).wf(),
            old(conn).auth is None && !(msg is Authenticate) ==> {
                &&& *final(self) == *old(self)
                &&& *final(conn) == *old(conn)
                &&& r.events@.len() == 1
                &&& r.events@[0] is Error
                &&& r.deliveries@.len() == 0
                &&& !r.disconnect
            },
            !(msg is Authenticate) ==> final(conn).auth == old(conn).auth,
            (match msg {
                WsClientMessage::Authenticate { token } => old(conn).auth is Some || {
                    let live = has_token(old(self).svc.db.sessions@, token@) && session_by_token(
                        old(self).svc.db.sessions@,
                        token@,
                    ).expires_at > now && has_user_id(
                        old(self).svc.db.users@,
                        session_by_token(old(self).svc.db.sessions@, token@).user_id,
                    );
                    &&& (final(conn).auth is Some <==> live)
                    &&& (r.disconnect <==> !live)
                    &&& (live ==> (final(conn).auth matches Some(a) && a.user_id
                        == session_by_token(old(self).svc.db.sessions@, token@).user_id
                        && has_client(final(self).conns.clients@, a.user_id)))
                    &&& (live ==> r.events@.len() >= 1 && r.events@[0] is Authenticated)
                    &&& (!live ==> r.events@.len() == 1 && r.events@[0] is Error
                        && r.deliveries@.len() == 0 && *final(conn) == *old(conn))
                },
                _ => match old(conn).auth {
                    Some(a) => authed_command_outcome(
                        *old(self),
                        *final(self),
                        a.user_id,
                        msg,
                        now,
                        r,
                    ),
                    None => true,
                },
            }),
    {
        match msg {
            WsClientMessage::Authenticate { token } => {
                let mut events: Vec<WsServerMessage> = Vec::new();
                let mut deliveries: Vec<Delivery> = Vec::new();
                match validate_session_core(&mut self.svc.db, token.as_str(), now) {
                    Ok(user) => {
                        proof {
                            let uid = session_by_token(
                                old(self).svc.db.sessions@,
                                token@,
                            ).user_id;
                            assert(has_user_id(old(self).svc.db.users@, uid));
                            let w = choose|w: int|
                                0 <= w < old(self).svc.db.users@.len() && (
                                #[trigger] old(self).svc.db.users@[w]).id == uid;
                            assert(user.id == uid);
                        }
                        conn.auth = Some(
                            AuthInfo { user_id: user.id, username: user.username.clone() },
                        );
                        self.conns.add_client(user.id, user.username.as_str());
                        events.push(
                            WsServerMessage::Authenticated {
                                user_id: user.id,
                                username: user.username.clone(),
                            },
                        );
                        let _ = self.svc.update_user_presence(user.id, Presence::Online);
                        let rooms = match self.svc.get_user_rooms(user.id) {
                            Ok(rooms) => rooms,
                            Err(_) => Vec::new(),
                        };
                        let mut room_ids: Vec<u64> = Vec::new();
                        let mut i: usize = 0;
                        while i < rooms.len()
                            invariant
                                i <= rooms@.len(),
                            decreases rooms@.len() - i,
                        {
                            room_ids.push(rooms[i].id);
                            i = i + 1;
                        }
                        self.conns.restore_user_rooms(user.id, &room_ids);
                        let mut j: usize = 0;
                        while j < rooms.len()
                            invariant
                                j <= rooms@.len(),
                                self.wf(),
                                has_client(self.conns.clients@, user.id),
                                events@.len() >= 1,
                                events@[0] is Authenticated,
                            decreases rooms@.len() - j,
                        {
                            events.push(
                                WsServerMessage::RoomJoined {
                                    room_id: rooms[j].id,
                                    room_name: rooms[j].name.clone(),
                                },
                            );
                            let targets = self.conns.room_subscribers(rooms[j].id);
                            deliveries.push(
                                Delivery {
                                    targets,
                                    event: WsServerMessage::PresenceChanged {
                                        user_id: user.id,
                                        username: user.username.clone(),
                                        presence: Presence::Online,
                                    },
                                },
                            );
                            j = j + 1;
                        }
                        Handled { events, deliveries, disconnect: false }
                    },
                    Err(_) => {
                        events.push(error_event("Authentication failed"));
                        Handled { events, deliveries, disconnect: true }
                    },
                }
            },
            cmd => {
                let (user_id, username) = match &conn.auth {
                    Some(a) => (a.user_id, a.username.clone()),
                    None => {
                        let mut events: Vec<WsServerMessage> = Vec::new();
                        events.push(error_event("User not authenticated"));
                        proof {
                            assert(events@.len() == 1 && events@[0] is Error);
                        }
                        return Handled { events, deliveries: Vec::new(), disconnect: false };
                    },
                };
                self.handle_authenticated(user_id, username, cmd, now)
            },
        }
    }

    /// Dispatches one command of an authenticated connection.
    fn handle_authenticated(
        &mut self,
        user_id: u64,
        username: String,
        cmd: WsClientMessage,
        now: i64,
    ) -> (r: Handled)
        requires
            old(self).wf(),
        ensures
            final(self).wf(),
            authed_command_outcome(*old(self), *final(self), user_id, cmd, now, r),
    {
        let mut events: Vec<WsServerMessage> = Vec::new();
        let mut deliveries: Vec<Delivery> = Vec::new();
        match cmd {
            WsClientMessage::Authenticate { .. } => {
                // handled by the caller; nothing to do here
            },
            WsClientMessage::CreateRoom { name, desc } => {
                if !self.svc.db.has_capacity(1) || now < self.svc.db.last_ts {
                    events.push(error_event("Server is out of capacity"));
                } else {
                    match self.svc.create_room(user_id, name.as_str(), desc.as_str(), now) {
                        Ok(room) => {
                            events.push(
                                WsServerMessage::RoomCreated {
                                    room_id: room.id,
                                    room_name: room.name.clone(),
                                },
                            );
                            match self.conns.join_room(user_id, room.id) {
                                Ok(()) => {},
                                Err(e) => {
                                    events.push(error_event(e.label().as_str()));
                                },
                            }
                            match self.svc.join_room(user_id, room.id, now) {
                                Ok(()) => {},
                                Err(_) => {},
                            }
                            events.push(
                                WsServerMessage::RoomJoined {
                                    room_id: room.id,
                                    room_name: room.name,
                                },
                            );
                            events.push(
                                WsServerMessage::RoomHistory {
                                    room_id: room.id,
                                    messages: Vec::new(),
                                },
                            );
                        },
                        Err(e) => {
                            events.push(error_event(e.label().as_str()));
                        },
                    }
                }
            },
            WsClientMessage::GetAllRooms => {
                match self.svc.get_all_rooms() {
                    Ok(rooms) => {
                        let mut infos: Vec<RoomInfo> = Vec::new();
                        let mut i: usize = 0;
                        while i < rooms.len()
                            invariant
                                i <= rooms@.len(),
                            decreases rooms@.len() - i,
                        {
                            infos.push(
                                RoomInfo {
                                    id: rooms[i].id,
                                    name: rooms[i].name.clone(),
                                    desc: rooms[i].desc.clone(),
                                },
                            );
                            i = i + 1;
                        }
                        events.push(WsServerMessage::RoomList { rooms: infos });
                    },
                    Err(e) => {
                        events.push(error_event(e.label().as_str()));
                    },
                }
            },
            WsClientMessage::JoinRoom { room_id } => {
                if now < self.svc.db.last_ts {
                    events.push(error_event("Request clock is behind the server"));
                    return Handled { events, deliveries, disconnect: false };
                }
                match self.svc.get_room(room_id) {
                    Ok(Some(room)) => {
                        match self.svc.join_room(user_id, room_id, now) {
                            Ok(()) => {
                                match self.conns.join_room(user_id, room_id) {
                                    Ok(()) => {
                                        events.push(
                                            WsServerMessage::RoomJoined {
                                                room_id,
                                                room_name: room.name.clone(),
                                            },
                                        );
                                        let targets = self.conns.room_subscribers(room_id);
                                        deliveries.push(
                                            Delivery {
                                                targets,
                                                event: WsServerMessage::UserJoined {
                                                    room_id,
                                                    user_id,
                                                    username: username.clone(),
                                                },
                                            },
                                        );
                                        if self.svc.db.has_capacity(1) && now
                                            >= self.svc.db.last_ts {
                                            let content = username.clone().concat(
                                                " has joined the room",
                                            );
                                            let request = SendRoomMessageRequest {
                                                room_id,
                                                content,
                                                reply_to_message_id: None,
                                            };
                                            match self.svc.send_room_announcement(
                                                user_id,
                                                request,
                                                now,
                                            ) {
                                                Ok(resp) => {
                                                    let targets2 = self.conns.room_subscribers(
                                                        room_id,
                                                    );
                                                    deliveries.push(
                                                        Delivery {
                                                            targets: targets2,
                                                            event: WsServerMessage::NewMessage {
                                                                room_id,
                                                                message: resp,
                                                            },
                                                        },
                                                    );
                                                },
                                                Err(_) => {},
                                            }
                                        }
                                        match self.svc.get_room_members(room_id) {
                                            Ok(members) => {
                                                events.push(
                                                    WsServerMessage::RoomMembers {
                                                        room_id,
                                                        members,
                                                    },
                                                );
                                            },
                                            Err(e) => {
                                                events.push(error_event(e.label().as_str()));
                                            },
                                        }
                                    },
                                    Err(e) => {
                                        events.push(error_event(e.label().as_str()));
                                    },
                                }
                            },
                            Err(e) => {
                                events.push(error_event(e.label().as_str()));
                            },
                        }
                    },
                    Ok(None) => {
                        events.push(error_event("Room not found"));
                    },
                    Err(e) => {
                        events.push(error_event(e.label().as_str()));
                    },
                }
            },
            WsClientMessage::LeaveRoom { room_id } => {
                match self.conns.leave_room(user_id, room_id) {
                    Ok(()) => {
                        match self.svc.leave_room(user_id, room_id) {
                            Ok(()) => {
                                events.push(WsServerMessage::RoomLeft { room_id });
                                let targets = self.conns.room_subscribers(room_id);
                                deliveries.push(
                                    Delivery {
                                        targets,
                                        event: WsServerMessage::UserLeft {
                                            room_id,
                                            user_id,
                                            username: username.clone(),
                                        },
                                    },
                                );
                                if self.svc.db.has_capacity(1) && now >= self.svc.db.last_ts {
                                    let content = username.clone().concat(" has left the room");
                                    let request = SendRoomMessageRequest {
                                        room_id,
                                        content,
                                        reply_to_message_id: None,
                                    };
                                    match self.svc.send_room_announcement(user_id, request, now) {
                                        Ok(resp) => {
                                            let targets2 = self.conns.room_subscribers(room_id);
                                            deliveries.push(
                                                Delivery {
                                                    targets: targets2,
                                                    event: WsServerMessage::NewMessage {
                                                        room_id,
                                                        message: resp,
                                                    },
                                                },
                                            );
                                        },
                                        Err(_) => {},
                                    }
                                }
                            },
                            Err(e) => {
                                events.push(error_event(e.label().as_str()));
                            },
                        }
                    },
                    Err(e) => {
                        events.push(error_event(e.label().as_str()));
                    },
                }
            },
            WsClientMessage::SendMessage { room_id, content, reply_to_message_id } => {
                let ghost pre = *self;
                let members_len = self.svc.db.members.len() as u64;
                let users_len = self.svc.db.users.len() as u64;
                let need = match members_len.checked_add(users_len) {
                    Some(s) => match s.checked_add(1) {
                        Some(t) => Some(t),
                        None => None,
                    },
                    None => None,
                };
                let enough = now >= self.svc.db.last_ts && match need {
                    Some(n) => self.svc.db.has_capacity(n),
                    None => false,
                };
                proof {
                    assert(enough == (pre.svc.db.can_alloc(
                        1 + pre.svc.db.members@.len() + pre.svc.db.users@.len() as int,
                    ) && now >= pre.svc.db.last_ts));
                }
                if !enough {
                    events.push(error_event("Server is out of capacity"));
                } else {
                    let request = SendRoomMessageRequest { room_id, content, reply_to_message_id };
                    match self.svc.send_room_message(user_id, request, now) {
                        Ok((resp, mentioned)) => {
                            events.push(WsServerMessage::MessageSent { message_id: resp.id });
                            let targets = self.conns.room_subscribers(room_id);
                            let message_id = resp.id;
                            let room_name = resp.room_name.clone();
                            let sender_username = resp.sender_username.clone();
                            let msg_content = resp.content.clone();
                            let sent_at = resp.sent_at;
                            deliveries.push(
                                Delivery {
                                    targets,
                                    event: WsServerMessage::NewMessage { room_id, message: resp },
                                },
                            );
                            let ghost after_svc = *self;
                            let ghost mentioned_ids = crate::store::spec_mentioned_ids(
                                pre.svc.db.members@,
                                pre.svc.db.users@,
                                request.content@,
                                room_id,
                                user_id,
                            );
                            proof {
                                assert(mentioned@ == mentioned_ids);
                                assert(msg_content@ == request.content@);
                            }
                            let mut k: usize = 0;
                            while k < mentioned.len()
                                invariant
                                    k <= mentioned@.len(),
                                    self.wf(),
                                    *self == after_svc,
                                    mentioned@ == mentioned_ids,
                                    message_id == pre.svc.db.next_id,
                                    msg_content@ == request.content@,
                                    events@.len() == 1,
                                    events@[0] matches WsServerMessage::MessageSent {
                                        message_id: mid,
                                    } && mid == pre.svc.db.next_id,
                                    deliveries@.len() == 1 + k,
                                    (deliveries@[0].event matches WsServerMessage::NewMessage {
                                        room_id: rm,
                                        ..
                                    } && rm == room_id),
                                    deliveries@[0].targets@ == crate::registry::subscribers_spec(
                                        pre.conns.clients@,
                                        room_id,
                                    ),
                                    forall|m: int|
                                        1 <= m < deliveries@.len() ==> ((
                                        #[trigger] deliveries@[m]).event matches
                                            WsServerMessage::MentionNotification {
                                            message_id: mid,
                                            content: c,
                                            ..
                                        } && mid == pre.svc.db.next_id && c@ == request.content@)
                                            && deliveries@[m].targets@ == seq![
                                            mentioned_ids[m - 1],
                                        ],
                                decreases mentioned@.len() - k,
                            {
                                let target = mentioned[k];
                                let mut one: Vec<u64> = Vec::new();
                                one.push(target);
                                proof {
                                    assert(one@ =~= seq![mentioned_ids[k as int]]);
                                }
                                let ghost pre_del = deliveries@;
                                deliveries.push(
                                    Delivery {
                                        targets: one,
                                        event: WsServerMessage::MentionNotification {
                                            message_id,
                                            room_id,
                                            room_name: room_name.clone(),
                                            sender_username: sender_username.clone(),
                                            content: msg_content.clone(),
                                            sent_at,
                                        },
                                    },
                                );
                                proof {
                                    assert(forall|m: int|
                                        0 <= m < pre_del.len() ==> deliveries@[m]
                                            == #[trigger] pre_del[m]);
                                    assert forall|m: int|
                                        1 <= m < deliveries@.len() implies ((
                                    #[trigger] deliveries@[m]).event matches
                                        WsServerMessage::MentionNotification {
                                        message_id: mid,
                                        content: c,
                                        ..
                                    } && mid == pre.svc.db.next_id && c@ == request.content@)
                                        && deliveries@[m].targets@ == seq![
                                        mentioned_ids[m - 1],
                                    ] by {
                                        if m < pre_del.len() {
                                            assert(deliveries@[m] == pre_del[m]);
                                        }
                                    }
                                }
                                k = k + 1;
                            }
                        },
                        Err(e) => {
                            events.push(error_event(e.label().as_str()));
                        },
                    }
                }
            },
            WsClientMessage::GetRoomHistory { room_id, limit, offset } => {
                let l = match limit {
                    Some(l) => l,
                    None => 50,
                };
                let o = match offset {
                    Some(o) => o,
                    None => 0,
                };
                match self.svc.get_room_messages(room_id, l, o) {
                    Ok(messages) => {
                        events.push(WsServerMessage::RoomHistory { room_id, messages });
                    },
                    Err(e) => {
                        events.push(error_event(e.label().as_str()));
                    },
                }
            },
            WsClientMessage::EditMessage { room_id, message_id, new_content } => {
                match self.svc.edit_message(message_id, new_content.as_str(), now) {
                    Ok(()) => {
                        let targets = self.conns.room_subscribers(room_id);
                        deliveries.push(
                            Delivery {
                                targets,
                                event: WsServerMessage::MessageEdited {
                                    room_id,
                                    message_id,
                                    new_content,
                                    edited_at: now,
                                },
                            },
                        );
                    },
                    Err(e) => {
                        events.push(error_event(e.label().as_str()));
                    },
                }
            },
            WsClientMessage::DeleteMessage { room_id, message_id } => {
                match self.svc.delete_message(user_id, message_id) {
                    Ok(()) => {
                        let targets = self.conns.room_subscribers(room_id);
                        deliveries.push(
                            Delivery {
                                targets,
                                event: WsServerMessage::MessageDeleted { room_id, message_id },
                            },
                        );
                    },
                    Err(e) => {
                        events.push(error_event(e.label().as_str()));
                    },
                }
            },
            WsClientMessage::GetUserRooms { user_id: target_user } => {
                match self.svc.get_user_rooms(target_user) {
                    Ok(rooms) => {
                        let mut infos: Vec<RoomInfo> = Vec::new();
                        let mut i: usize = 0;
                        while i < rooms.len()
                            invariant
                                i <= rooms@.len(),
                            decreases rooms@.len() - i,
                        {
                            infos.push(
                                RoomInfo {
                                    id: rooms[i].id,
                                    name: rooms[i].name.clone(),
                                    desc: rooms[i].desc.clone(),
                                },
                            );
                            i = i + 1;
                        }
                        events.push(WsServerMessage::UserRoomList { rooms: infos });
                    },
                    Err(e) => {
                        events.push(error_event(e.label().as_str()));
                    },
                }
            },
            WsClientMessage::GetRoomMembers { room_id } => {
                match self.svc.get_room_members(room_id) {
                    Ok(members) => {
                        events.push(WsServerMessage::RoomMembers { room_id, members });
                    },
                    Err(e) => {
                        events.push(error_event(e.label().as_str()));
                    },
                }
            },
            WsClientMessage::UpdatePresence { user_id: target_user, presence } => {
                match self.svc.update_user_presence(target_user, presence) {
                    Ok(()) => {},
                    Err(e) => {
                        events.push(error_event(e.label().as_str()));
                    },
                }
                let ghost snap = *self;
                match self.svc.get_user_rooms(target_user) {
                    Ok(rooms) => {
                        let mut i: usize = 0;
                        while i < rooms.len()
                            invariant
                                i <= rooms@.len(),
                                self.wf(),
                                *self == snap,
                            decreases rooms@.len() - i,
                        {
                            let targets = self.conns.room_subscribers(rooms[i].id);
                            deliveries.push(
                                Delivery {
                                    targets,
                                    event: WsServerMessage::PresenceChanged {
                                        user_id: target_user,
                                        username: username.clone(),
                                        presence,
                                    },
                                },
                            );
                            i = i + 1;
                        }
                    },
                    Err(e) => {
                        events.push(error_event(e.label().as_str()));
                    },
                }
            },
            WsClientMessage::UpdateStatus { user_id: target_user, status } => {
                match self.svc.update_user_status(target_user, status.as_str()) {
                    Ok(()) => {},
                    Err(e) => {
                        events.push(error_event(e.label().as_str()));
                    },
                }
                let ghost snap = *self;
                match self.svc.get_user_rooms(target_user) {
                    Ok(rooms) => {
                        let mut i: usize = 0;
                        while i < rooms.len()
                            invariant
                                i <= rooms@.len(),
                                self.wf(),
                                *self == snap,
                            decreases rooms@.len() - i,
                        {
                            let targets = self.conns.room_subscribers(rooms[i].id);
                            deliveries.push(
                                Delivery {
                                    targets,
                                    event: WsServerMessage::StatusChanged {
                                        user_id: target_user,
                                        username: username.clone(),
                                        status: status.clone(),
                                    },
                                },
                            );
                            i = i + 1;
                        }
                    },
                    Err(e) => {
                        events.push(error_event(e.label().as_str()));
                    },
                }
            },
            WsClientMessage::UpdateTyping { room_id, is_typing } => {
                match self.conns.set_typing(user_id, room_id, is_typing) {
                    Ok(()) => {
                        let typing_users = self.conns.get_typing_users(room_id);
                        let targets = self.conns.room_subscribers(room_id);
                        deliveries.push(
                            Delivery {
                                targets,
                                event: WsServerMessage::TypingStatusChanged {
                                    room_id,
                                    typing_users,
                                },
                            },
                        );
                    },
                    Err(e) => {
                        events.push(error_event(e.label().as_str()));
                    },
                }
            },
            WsClientMessage::GetUnreadMentionsCount { user_id: target_user } => {
                if target_user == user_id {
                    match self.svc.get_unread_mentions_count(target_user) {
                        Ok(count) => {
                            events.push(WsServerMessage::UnreadMentionsCount { count });
                        },
                        Err(e) => {
                            events.push(error_event(e.label().as_str()));
                        },
                    }
                }
            },
            WsClientMessage::MarkMentionsRead { message_id } => {
                match self.svc.mark_mention_as_read(user_id, message_id, now) {
                    Ok(()) => {
                        match self.svc.get_unread_mentions_count(user_id) {
                            Ok(count) => {
                                events.push(WsServerMessage::UnreadMentionsCount { count });
                            },
                            Err(_) => {},
                        }
                    },
                    Err(e) => {
                        events.push(error_event(e.label().as_str()));
                    },
                }
            },
            WsClientMessage::MarkRoomMentionsRead { room_id } => {
                match self.svc.mark_room_mentions_as_read(user_id, room_id, now) {
                    Ok(()) => {
                        match self.svc.get_unread_mentions_count(user_id) {
                            Ok(count) => {
                                events.push(WsServerMessage::UnreadMentionsCount { count });
                            },
                            Err(_) => {},
                        }
                    },
                    Err(e) => {
                        events.push(error_event(e.label().as_str()));
                    },
                }
            },
            WsClientMessage::GetUserMentions { limit, offset } => {
                let l = match limit {
                    Some(l) => l,
                    None => 100,
                };
                let o = match offset {
                    Some(o) => o,
                    None => 0,
                };
                match self.svc.get_user_mentions(user_id, l, o) {
                    Ok(messages) => {
                        events.push(WsServerMessage::RoomHistory { room_id: 0, messages });
                    },
                    Err(e) => {
                        events.push(error_event(e.label().as_str()));
                    },
                }
            },
            WsClientMessage::AddReaction { room_id, message_id, emoji } => {
                match self.svc.add_reaction(message_id, user_id, username.as_str(), emoji.as_str())
                {
                    Ok(reactions) => {
                        let targets = self.conns.room_subscribers(room_id);
                        deliveries.push(
                            Delivery {
                                targets,
                                event: WsServerMessage::ReactionAdded {
                                    room_id,
                                    message_id,
                                    emoji,
                                    user_id,
                                    username: username.clone(),
                                    reactions,
                                },
                            },
                        );
                    },
                    Err(e) => {
                        events.push(error_event(e.label().as_str()));
                    },
                }
            },
            WsClientMessage::RemoveReaction { room_id, message_id, emoji } => {
                match self.svc.remove_reaction(message_id, user_id, emoji.as_str()) {
                    Ok(reactions) => {
                        let targets = self.conns.room_subscribers(room_id);
                        deliveries.push(
                            Delivery {
                                targets,
                                event: WsServerMessage::ReactionRemoved {
                                    room_id,
                                    message_id,
                                    emoji,
                                    user_id,
                                    reactions,
                                },
                            },
                        );
                    },
                    Err(e) => {
                        events.push(error_event(e.label().as_str()));
                    },
                }
            },
            WsClientMessage::PinMessage { room_id, message_id } => {
                match self.svc.pin_message(message_id, user_id, now) {
                    Ok(pinned_at) => {
                        let targets = self.conns.room_subscribers(room_id);
                        deliveries.push(
                            Delivery {
                                targets,
                                event: WsServerMessage::MessagePinned {
                                    room_id,
                                    message_id,
                                    pinned_by: user_id,
                                    pinned_at,
                                },
                            },
                        );
                    },
                    Err(e) => {
                        events.push(error_event(e.label().as_str()));
                    },
                }
            },
            WsClientMessage::UnpinMessage { room_id, message_id } => {
                match self.svc.unpin_message(message_id) {
                    Ok(()) => {
                        let targets = self.conns.room_subscribers(room_id);
                        deliveries.push(
                            Delivery {
                                targets,
                                event: WsServerMessage::MessageUnpinned { room_id, message_id },
                            },
                        );
                    },
                    Err(e) => {
                        events.push(error_event(e.label().as_str()));
                    },
                }
            },
            WsClientMessage::GetPinnedMessages { room_id } => {
                match self.svc.get_pinned_messages(room_id) {
                    Ok(messages) => {
                        events.push(WsServerMessage::PinnedMessages { room_id, messages });
                    },
                    Err(e) => {
                        events.push(error_event(e.label().as_str()));
                    },
                }
            },
        }
        Handled { events, deliveries, disconnect: false }
    }

    /// Disconnect cleanup: Offline presence is persisted and announced to
    /// every room the user belongs to, and the connection leaves the
    /// registry, its typing entries purged with it.
    pub fn handle_disconnect(&mut self, conn: &mut ConnState) -> (r: Vec<Delivery>)
        requires
            old(self).wf(),
        ensures
            final(self).wf(),
            final(conn).auth is None,
            old(conn).auth is None ==> *final(self) == *old(self) && r@.len() == 0,
            old(conn).auth matches Some(a) ==> {
                &&& !has_client(final(self).conns.clients@, a.user_id)
                &&& (has_user_id(old(self).svc.db.users@, a.user_id) ==> has_user_id(
                    final(self).svc.db.users@,
                    a.user_id,
                ) && crate::store::user_by_id(final(self).svc.db.users@, a.user_id).presence
                    == Presence::Offline)
                &&& r@.len() == crate::store::user_rooms_spec(
                    old(self).svc.db.members@,
                    old(self).svc.db.rooms@,
                    a.user_id,
                ).len()
                &&& (forall|k: int|
                    0 <= k < r@.len() ==> ((#[trigger] r@[k]).event matches
                        WsServerMessage::PresenceChanged {
                        user_id: u,
                        presence: p,
                        ..
                    } && u == a.user_id && p is Offline) && r@[k].targets@
                        == crate::registry::subscribers_spec(
                        old(self).conns.clients@,
                        crate::store::user_rooms_spec(
                            old(self).svc.db.members@,
                            old(self).svc.db.rooms@,
                            a.user_id,
                        )[k].id,
                    ))
                &&& final(self).svc.db.messages == old(self).svc.db.messages
                &&& final(self).svc.db.rooms == old(self).svc.db.rooms
                &&& final(self).svc.db.members == old(self).svc.db.members
                &&& final(self).svc.db.mentions == old(self).svc.db.mentions
                &&& final(self).svc.db.sessions == old(self).svc.db.sessions
            },
    {
        let mut deliveries: Vec<Delivery> = Vec::new();
        let (user_id, username) = match &conn.auth {
            Some(a) => (a.user_id, a.username.clone()),
            None => {
                conn.auth = None;
                return deliveries;
            },
        };
        let _ = self.svc.update_user_presence(user_id, Presence::Offline);
        let ghost db_after = self.svc.db;
        let ghost spec_rooms = crate::store::user_rooms_spec(
            old(self).svc.db.members@,
            old(self).svc.db.rooms@,
            user_id,
        );
        let rooms = match self.svc.get_user_rooms(user_id) {
            Ok(rooms) => rooms,
            Err(_) => Vec::new(),
        };
        proof {
            assert(rooms@ == spec_rooms);
        }
        let mut i: usize = 0;
        while i < rooms.len()
            invariant
                i <= rooms@.len(),
                self.wf(),
                rooms@ == spec_rooms,
                self.conns == old(self).conns,
                self.svc.db == db_after,
                db_after.messages == old(self).svc.db.messages,
                db_after.rooms == old(self).svc.db.rooms,
                db_after.members == old(self).svc.db.members,
                db_after.mentions == old(self).svc.db.mentions,
                db_after.sessions == old(self).svc.db.sessions,
                db_after.users@.len() == old(self).svc.db.users@.len(),
                has_user_id(old(self).svc.db.users@, user_id) ==> has_user_id(
                    db_after.users@,
                    user_id,
                ) && crate::store::user_by_id(db_after.users@, user_id).presence
                    == Presence::Offline,
                deliveries@.len() == i,
                forall|k: int|
                    0 <= k < i ==> ((#[trigger] deliveries@[k]).event matches
                        WsServerMessage::PresenceChanged {
                        user_id: u,
                        presence: p,
                        ..
                    } && u == user_id && p is Offline) && deliveries@[k].targets@
                        == crate::registry::subscribers_spec(
                        old(self).conns.clients@,
                        spec_rooms[k].id,
                    ),
            decreases rooms@.len() - i,
        {
            let targets = self.conns.room_subscribers(rooms[i].id);
            deliveries.push(
                Delivery {
                    targets,
                    event: WsServerMessage::PresenceChanged {
                        user_id,
                        username: username.clone(),
                        presence: Presence::Offline,
                    },
                },
            );
            i = i + 1;
        }
        self.conns.remove_client(user_id);
        conn.auth = None;
        deliveries
    }
}

} // verus!
