use vstd::prelude::*;
use vstd::string::StrSliceExecFns;
use crate::error::AuthError;
use crate::messages::Message;
use crate::messages::MessageReplyContext;
use crate::messages::MessageType;
use crate::messages::MessageView;
use crate::messages::PrivateMessageResponse;
use crate::messages::ReactionSummary;
use crate::messages::Room;
use crate::messages::RoomMessageResponse;
use crate::messages::SendPrivateMessageRequest;
use crate::messages::SendRoomMessageRequest;
use crate::messages::msg_views;
use crate::store::Database;
use crate::store::fresh_msg_view;
use crate::store::has_msg_id;
use crate::store::has_room_id;
use crate::store::has_user_id;
use crate::store::has_username;
use crate::store::is_member;
use crate::store::mention_ids_of;
use crate::store::msg_by_id;
use crate::store::room_by_id;
use crate::store::spec_mentioned_ids;
use crate::store::user_by_id;
use crate::store::user_by_name;
use crate::users::Presence;
use crate::users::User;

verus! {

/// A character Rust's trim would strip: a Unicode White_Space code point.
pub open spec fn is_space_char(c: char) -> bool {
    ||| (9 <= c as u32 && c as u32 <= 13)
    ||| c as u32 == 32
    ||| c as u32 == 0x85
    ||| c as u32 == 0xA0
    ||| c as u32 == 0x1680
    ||| (0x2000 <= c as u32 && c as u32 <= 0x200A)
    ||| c as u32 == 0x2028
    ||| c as u32 == 0x2029
    ||| c as u32 == 0x202F
    ||| c as u32 == 0x205F
    ||| c as u32 == 0x3000
}

/// Acceptable outgoing content: something beyond whitespace, at most ten
/// thousand characters.
pub open spec fn valid_content(s: Seq<char>) -> bool {
    (exists|i: int| 0 <= i < s.len() && !is_space_char(s[i])) && s.len() <= 10000
}

fn is_space_char_exec(c: char) -> (r: bool)
    ensures
        r == is_space_char(c),
{
    let u = c as u32;
    (9 <= u && u <= 13) || u == 32 || u == 0x85 || u == 0xA0 || u == 0x1680 || (0x2000 <= u && u
        <= 0x200A) || u == 0x2028 || u == 0x2029 || u == 0x202F || u == 0x205F || u == 0x3000
}

fn has_visible_char(content: &str) -> (r: bool)
    ensures
        r == exists|k: int| 0 <= k < content@.len() && !is_space_char(content@[k]),
{
    let len = content.unicode_len();
    let mut i: usize = 0;
    while i < len
        invariant
            len == content@.len(),
            i <= len,
            forall|k: int| 0 <= k < i ==> is_space_char(content@[k]),
        decreases len - i,
    {
        if !is_space_char_exec(content.get_char(i)) {
            return true;
        }
        i = i + 1;
    }
    false
}

/// Checks outgoing content: rejects all-whitespace and over-long messages.
pub fn validate_message_content(content: &str) -> (r: Result<(), AuthError>)
    ensures
        r is Ok <==> valid_content(content@),
        r matches Err(e) ==> e is InvalidInput,
{
    let len = content.unicode_len();
    if !has_visible_char(content) {
        return Err(AuthError::InvalidInput(String::from_str("Message content cannot be empty")));
    }
    if len > 10000 {
        return Err(
            AuthError::InvalidInput(String::from_str("Message too long (max 10,000 characters)")),
        );
    }
    Ok(())
}

/// A rendered room message matches the stored message it came from:
/// same id, content and flags, the room's name, the sender's name (or
/// "Server" for announcements), the recorded mentions, and the reply
/// context resolved against the store.
pub open spec fn response_matches(
    resp: RoomMessageResponse,
    m: MessageView,
    room_id: u64,
    rooms: Seq<Room>,
    users: Seq<User>,
    msgs: Seq<MessageView>,
    mentions: Seq<crate::messages::Mention>,
) -> bool {
    &&& resp.id == m.id
    &&& resp.message_type == m.message_type
    &&& resp.room_id == room_id
    &&& resp.room_name@ == room_by_id(rooms, room_id).name@
    &&& resp.content@ == m.content
    &&& resp.sent_at == m.sent_at
    &&& resp.is_edited == m.is_edited
    &&& resp.edited_at == m.edited_at
    &&& resp.sender_username@ == if m.message_type is Server {
        "Server"@
    } else {
        user_by_id(users, m.sender_id).username@
    }
    &&& resp.mentions@ == mention_ids_of(mentions, m.id)
    &&& reply_matches(resp.reply_to, m.reply_to_message_id, msgs, users)
}

/// A reply context matches the referenced message: present exactly when
/// the referenced message and its sender exist, carrying their fields.
pub open spec fn reply_matches(
    ctx: Option<MessageReplyContext>,
    reply_to: Option<u64>,
    msgs: Seq<MessageView>,
    users: Seq<User>,
) -> bool {
    match reply_to {
        None => ctx is None,
        Some(rid) => {
            if has_msg_id(msgs, rid) && has_user_id(users, msg_by_id(msgs, rid).sender_id) {
                ctx matches Some(c) && c.id == rid && c.content@ == msg_by_id(msgs, rid).content
                    && c.sent_at == msg_by_id(msgs, rid).sent_at && c.sender_username@ == user_by_id(
                    users,
                    msg_by_id(msgs, rid).sender_id,
                ).username@
            } else {
                ctx is None
            }
        },
    }
}

/// The history page size, clamped to one through one hundred.
pub open spec fn clamp_limit(limit: int) -> int {
    if limit < 1 {
        1
    } else if limit > 100 {
        100
    } else {
        limit
    }
}

/// The messages of a page whose sender still exists, in page order.
pub open spec fn known_sender_filter(page: Seq<MessageView>, users: Seq<User>) -> Seq<MessageView>
    decreases page.len(),
{
    if page.len() == 0 {
        Seq::empty()
    } else {
        let rest = known_sender_filter(page.drop_first(), users);
        if has_user_id(users, page[0].sender_id) {
            seq![page[0]] + rest
        } else {
            rest
        }
    }
}

/// The messages of a page that can still be rendered in their room: the
/// room reference and the sender both resolve.
pub open spec fn renderable_mention_filter(
    page: Seq<MessageView>,
    rooms: Seq<Room>,
    users: Seq<User>,
) -> Seq<MessageView>
    decreases page.len(),
{
    if page.len() == 0 {
        Seq::empty()
    } else {
        let rest = renderable_mention_filter(page.drop_first(), rooms, users);
        let keep = match page[0].room_id {
            Some(rid) => has_room_id(rooms, rid) && has_user_id(users, page[0].sender_id),
            None => false,
        };
        if keep {
            seq![page[0]] + rest
        } else {
            rest
        }
    }
}

/// Filtering a newest-first page by known sender keeps it newest-first.
pub proof fn lemma_known_sender_filter_sorted(page: Seq<MessageView>, users: Seq<User>)
    requires
        crate::store::sorted_by_sent_desc(page),
    ensures
        crate::store::sorted_by_sent_desc(known_sender_filter(page, users)),
        forall|k: int|
            0 <= k < known_sender_filter(page, users).len() ==> exists|j: int|
                0 <= j < page.len() && #[trigger] known_sender_filter(page, users)[k]
                    == #[trigger] page[j],
    decreases page.len(),
{
    if page.len() > 0 {
        let f = known_sender_filter(page, users);
        let tail = page.drop_first();
        let rest = known_sender_filter(tail, users);
        assert(crate::store::sorted_by_sent_desc(tail)) by {
            assert(forall|a: int| 0 <= a < tail.len() ==> #[trigger] tail[a] == page[a + 1]);
        }
        lemma_known_sender_filter_sorted(tail, users);
        let hit = has_user_id(users, page[0].sender_id);
        assert forall|k: int| 0 <= k < f.len() implies exists|j: int|
            0 <= j < page.len() && #[trigger] f[k] == #[trigger] page[j] by {
            if hit {
                if k == 0 {
                    assert(f[0] == page[0]);
                } else {
                    assert(f[k] == rest[k - 1]);
                    let j = choose|j: int| 0 <= j < tail.len() && rest[k - 1] == #[trigger] tail[j];
                    assert(f[k] == page[j + 1]);
                }
            } else {
                assert(f[k] == rest[k]);
                let j = choose|j: int| 0 <= j < tail.len() && rest[k] == #[trigger] tail[j];
                assert(f[k] == page[j + 1]);
            }
        }
        assert forall|a: int, b: int| 0 <= a <= b < f.len() implies (#[trigger] f[a]).sent_at >= (
        #[trigger] f[b]).sent_at by {
            if hit {
                if a == 0 {
                    if b > 0 {
                        assert(f[b] == rest[b - 1]);
                        let j = choose|j: int|
                            0 <= j < tail.len() && rest[b - 1] == #[trigger] tail[j];
                        assert(tail[j] == page[j + 1]);
                        assert(page[0].sent_at >= page[j + 1].sent_at);
                    }
                } else {
                    assert(f[a] == rest[a - 1] && f[b] == rest[b - 1]);
                }
            } else {
                assert(f[a] == rest[a] && f[b] == rest[b]);
            }
        }
    }
}

/// Filtering a newest-first page by renderability keeps it newest-first.
pub proof fn lemma_renderable_mention_filter_sorted(
    page: Seq<MessageView>,
    rooms: Seq<Room>,
    users: Seq<User>,
)
    requires
        crate::store::sorted_by_sent_desc(page),
    ensures
        crate::store::sorted_by_sent_desc(renderable_mention_filter(page, rooms, users)),
        forall|k: int|
            0 <= k < renderable_mention_filter(page, rooms, users).len() ==> exists|j: int|
                0 <= j < page.len() && #[trigger] renderable_mention_filter(page, rooms, users)[k]
                    == #[trigger] page[j],
    decreases page.len(),
{
    if page.len() > 0 {
        let f = renderable_mention_filter(page, rooms, users);
        let tail = page.drop_first();
        let rest = renderable_mention_filter(tail, rooms, users);
        assert(crate::store::sorted_by_sent_desc(tail)) by {
            assert(forall|a: int| 0 <= a < tail.len() ==> #[trigger] tail[a] == page[a + 1]);
        }
        lemma_renderable_mention_filter_sorted(tail, rooms, users);
        let hit = match page[0].room_id {
            Some(rid) => has_room_id(rooms, rid) && has_user_id(users, page[0].sender_id),
            None => false,
        };
        assert forall|k: int| 0 <= k < f.len() implies exists|j: int|
            0 <= j < page.len() && #[trigger] f[k] == #[trigger] page[j] by {
            if hit {
                if k == 0 {
                    assert(f[0] == page[0]);
                } else {
                    assert(f[k] == rest[k - 1]);
                    let j = choose|j: int| 0 <= j < tail.len() && rest[k - 1] == #[trigger] tail[j];
                    assert(f[k] == page[j + 1]);
                }
            } else {
                assert(f[k] == rest[k]);
                let j = choose|j: int| 0 <= j < tail.len() && rest[k] == #[trigger] tail[j];
                assert(f[k] == page[j + 1]);
            }
        }
        assert forall|a: int, b: int| 0 <= a <= b < f.len() implies (#[trigger] f[a]).sent_at >= (
        #[trigger] f[b]).sent_at by {
            if hit {
                if a == 0 {
                    if b > 0 {
                        assert(f[b] == rest[b - 1]);
                        let j = choose|j: int|
                            0 <= j < tail.len() && rest[b - 1] == #[trigger] tail[j];
                        assert(tail[j] == page[j + 1]);
                        assert(page[0].sent_at >= page[j + 1].sent_at);
                    }
                } else {
                    assert(f[a] == rest[a - 1] && f[b] == rest[b - 1]);
                }
            } else {
                assert(f[a] == rest[a] && f[b] == rest[b]);
            }
        }
    }
}

/// Both parties of every message on the page still exist.
pub open spec fn private_parties_known(page: Seq<MessageView>, users: Seq<User>) -> bool {
    forall|k: int|
        0 <= k < page.len() ==> has_user_id(users, (#[trigger] page[k]).sender_id) && match page[k].receiver_id {
            Some(rid) => has_user_id(users, rid),
            None => true,
        }
}

/// The effective page size of a private-message request.
pub open spec fn pm_limit(request: crate::messages::GetPrivateMessagesRequest) -> int {
    let limit0: int = match request.limit {
        Some(l) => l as int,
        None => 50,
    };
    if limit0 > 100 {
        100
    } else {
        limit0
    }
}

/// The effective page offset of a private-message request.
pub open spec fn pm_offset(request: crate::messages::GetPrivateMessagesRequest) -> int {
    match request.offset {
        Some(o) => o as int,
        None => 0,
    }
}

/// The page a private-message listing reads: the conversation with the
/// named user, or the received inbox, under the request's paging.
pub open spec fn private_page(
    db: Database,
    user_id: u64,
    request: crate::messages::GetPrivateMessagesRequest,
) -> Seq<MessageView> {
    let limit = pm_limit(request);
    let offset = pm_offset(request);
    match request.with_user {
        Some(other) => {
            if has_username(db.users@, other@) {
                crate::store::page_views(
                    crate::store::conversation_feed(
                        msg_views(db.messages@),
                        user_id,
                        user_by_name(db.users@, other@).id,
                    ),
                    limit,
                    offset,
                )
            } else {
                Seq::empty()
            }
        },
        None => crate::store::page_views(
            crate::store::inbox_feed(msg_views(db.messages@), user_id, request.unread_only),
            limit,
            offset,
        ),
    }
}

/// A rendered private message matches the stored message it came from.
pub open spec fn private_response_matches(
    resp: PrivateMessageResponse,
    m: MessageView,
    users: Seq<User>,
) -> bool {
    &&& resp.id == m.id
    &&& resp.content@ == m.content
    &&& resp.sent_at == m.sent_at
    &&& resp.read_at == m.read_at
    &&& resp.is_read == m.is_read
    &&& resp.is_edited == m.is_edited
    &&& resp.edited_at == m.edited_at
    &&& resp.sender_username@ == user_by_id(users, m.sender_id).username@
    &&& match m.receiver_id {
        Some(rid) => resp.receiver_username@ == user_by_id(users, rid).username@,
        None => true,
    }
}

/// Every message of a conversation feed is a private message between the
/// two users.
pub proof fn lemma_conversation_feed_elems(msgs: Seq<MessageView>, user1_id: u64, user2_id: u64)
    ensures
        forall|k: int|
            0 <= k < crate::store::conversation_feed(msgs, user1_id, user2_id).len()
                ==> crate::store::between_users(
                #[trigger] crate::store::conversation_feed(msgs, user1_id, user2_id)[k],
                user1_id,
                user2_id,
            ),
    decreases msgs.len(),
{
    if msgs.len() > 0 {
        lemma_conversation_feed_elems(msgs.drop_last(), user1_id, user2_id);
        let f = crate::store::conversation_feed(msgs, user1_id, user2_id);
        let rest = crate::store::conversation_feed(msgs.drop_last(), user1_id, user2_id);
        assert forall|k: int|
            0 <= k < f.len() implies crate::store::between_users(
            #[trigger] f[k],
            user1_id,
            user2_id,
        ) by {
            if crate::store::between_users(msgs.last(), user1_id, user2_id) {
                if k > 0 {
                    assert(f[k] == rest[k - 1]);
                }
            } else {
                assert(f[k] == rest[k]);
            }
        }
    }
}

/// Every message of an inbox feed is a private message to the receiver.
pub proof fn lemma_inbox_feed_elems(msgs: Seq<MessageView>, receiver_id: u64, unread_only: bool)
    ensures
        forall|k: int|
            0 <= k < crate::store::inbox_feed(msgs, receiver_id, unread_only).len()
                ==> crate::store::received_by(
                #[trigger] crate::store::inbox_feed(msgs, receiver_id, unread_only)[k],
                receiver_id,
                unread_only,
            ),
    decreases msgs.len(),
{
    if msgs.len() > 0 {
        lemma_inbox_feed_elems(msgs.drop_last(), receiver_id, unread_only);
        let f = crate::store::inbox_feed(msgs, receiver_id, unread_only);
        let rest = crate::store::inbox_feed(msgs.drop_last(), receiver_id, unread_only);
        assert forall|k: int|
            0 <= k < f.len() implies crate::store::received_by(
            #[trigger] f[k],
            receiver_id,
            unread_only,
        ) by {
            if crate::store::received_by(msgs.last(), receiver_id, unread_only) {
                if k > 0 {
                    assert(f[k] == rest[k - 1]);
                }
            } else {
                assert(f[k] == rest[k]);
            }
        }
    }
}

/// Every message on a private page carries a receiver.
pub proof fn lemma_private_page_receivers(
    db: Database,
    user_id: u64,
    request: crate::messages::GetPrivateMessagesRequest,
)
    ensures
        forall|k: int|
            0 <= k < private_page(db, user_id, request).len() ==> (#[trigger] private_page(
                db,
                user_id,
                request,
            )[k]).receiver_id is Some,
{
    let page = private_page(db, user_id, request);
    match request.with_user {
        Some(other) => {
            if has_username(db.users@, other@) {
                let other_id = user_by_name(db.users@, other@).id;
                let feed = crate::store::conversation_feed(
                    msg_views(db.messages@),
                    user_id,
                    other_id,
                );
                lemma_conversation_feed_elems(msg_views(db.messages@), user_id, other_id);
                assert forall|k: int| 0 <= k < page.len() implies (
                #[trigger] page[k]).receiver_id is Some by {
                    assert(exists|j: int| 0 <= j < feed.len() && feed[j] == page[k]) by {
                        let limit0: int = match request.limit {
                            Some(l) => l as int,
                            None => 50,
                        };
                        let limit: int = if limit0 > 100 {
                            100
                        } else {
                            limit0
                        };
                        let offset: int = match request.offset {
                            Some(o) => o as int,
                            None => 0,
                        };
                        assert(page == crate::store::page_views(feed, limit, offset));
                        assert(feed[offset + k] == page[k]);
                    }
                    let j = choose|j: int| 0 <= j < feed.len() && feed[j] == page[k];
                    assert(crate::store::between_users(feed[j], user_id, other_id));
                }
            }
        },
        None => {
            let feed = crate::store::inbox_feed(msg_views(db.messages@), user_id, request.unread_only);
            lemma_inbox_feed_elems(msg_views(db.messages@), user_id, request.unread_only);
            assert forall|k: int| 0 <= k < page.len() implies (
            #[trigger] page[k]).receiver_id is Some by {
                assert(exists|j: int| 0 <= j < feed.len() && feed[j] == page[k]) by {
                    let limit0: int = match request.limit {
                        Some(l) => l as int,
                        None => 50,
                    };
                    let limit: int = if limit0 > 100 {
                        100
                    } else {
                        limit0
                    };
                    let offset: int = match request.offset {
                        Some(o) => o as int,
                        None => 0,
                    };
                    assert(page == crate::store::page_views(feed, limit, offset));
                    assert(feed[offset + k] == page[k]);
                }
                let j = choose|j: int| 0 <= j < feed.len() && feed[j] == page[k];
                assert(crate::store::received_by(feed[j], user_id, request.unread_only));
            }
        },
    }
}

/// All messaging business rules over the store: room and private messages,
/// mentions, reactions, pins, presence and membership.
pub struct MessageService {
    pub db: Database,
}

impl MessageService {
    pub fn new(db: Database) -> (s: MessageService)
        ensures
            s.db == db,
    {
        MessageService { db }
    }

    /// Resolves a reply reference in the room: the referenced message must
    /// exist and belong to the room; its context is rendered when its
    /// sender still exists.
    fn resolve_reply(&self, room_id: u64, reply_to: Option<u64>) -> (r: Result<
        Option<MessageReplyContext>,
        AuthError,
    >)
        requires
            self.db.wf(),
        ensures
            r is Ok <==> match reply_to {
                None => true,
                Some(rid) => has_msg_id(msg_views(self.db.messages@), rid) && msg_by_id(
                    msg_views(self.db.messages@),
                    rid,
                ).room_id == Some(room_id),
            },
            r matches Ok(ctx) ==> reply_matches(
                ctx,
                reply_to,
                msg_views(self.db.messages@),
                self.db.users@,
            ),
            r matches Err(e) ==> e is InvalidInput,
    {
        let rid = match reply_to {
            None => {
                return Ok(None);
            },
            Some(rid) => rid,
        };
        let reply_msg = match self.db.get_message_by_id(rid) {
            Some(m) => m,
            None => {
                return Err(AuthError::InvalidInput(String::from_str("Reply message not found")));
            },
        };
        let room_ok = match reply_msg.room_id {
            Some(r) => r == room_id,
            None => false,
        };
        if !room_ok {
            return Err(AuthError::InvalidInput(String::from_str("Reply message not in same room")));
        }
        match self.db.get_user_by_id(reply_msg.sender_id) {
            Some(reply_sender) => {
                proof {
                    let w = choose|w: int|
                        0 <= w < self.db.users@.len() && (#[trigger] self.db.users@[w]).id
                            == reply_msg.sender_id;
                    let v = choose|v: int|
                        0 <= v < self.db.users@.len() && #[trigger] self.db.users@[v]
                            == reply_sender;
                    if w != v {
                        assert(crate::store::users_wf(self.db.users@, self.db.next_id));
                    }
                    assert(reply_sender == user_by_id(self.db.users@, reply_msg.sender_id));
                }
                Ok(
                    Some(
                        MessageReplyContext {
                            id: reply_msg.id,
                            sender_username: reply_sender.username,
                            content: reply_msg.content,
                            sent_at: reply_msg.sent_at,
                        },
                    ),
                )
            },
            None => Ok(None),
        }
    }

    /// Posting to a room: the content must be acceptable, the sender must
    /// hold a persisted membership of an existing room, and a reply must
    /// point at a message of the same room. On success the message is
    /// persisted, one mention is recorded per notified user, and the
    /// rendered message is returned with the notified ids.
    pub fn send_room_message(&mut self, sender_id: u64, request: SendRoomMessageRequest, now: i64)
        -> (r: Result<(RoomMessageResponse, Vec<u64>), AuthError>)
        requires
            old(self).db.wf(),
            old(self).db.can_alloc(
                1 + old(self).db.members@.len() + old(self).db.users@.len() as int,
            ),
            now >= old(self).db.last_ts,
        ensures
            final(self).db.wf(),
            old(self).db.last_ts <= final(self).db.last_ts <= now,
            r is Ok <==> {
                &&& valid_content(request.content@)
                &&& is_member(old(self).db.members@, request.room_id, sender_id)
                &&& has_room_id(old(self).db.rooms@, request.room_id)
                &&& has_user_id(old(self).db.users@, sender_id)
                &&& match request.reply_to_message_id {
                    None => true,
                    Some(rid) => has_msg_id(msg_views(old(self).db.messages@), rid) && msg_by_id(
                        msg_views(old(self).db.messages@),
                        rid,
                    ).room_id == Some(request.room_id),
                }
            },
            r matches Err(e) ==> *final(self) == *old(self) && (e is InvalidInput
                || e is UserNotFound) && (e is UserNotFound ==> !has_user_id(
                old(self).db.users@,
                sender_id,
            )),
            r matches Ok((resp, mentioned)) ==> {
                &&& resp.id == old(self).db.next_id
                &&& mentioned@ == spec_mentioned_ids(
                    old(self).db.members@,
                    old(self).db.users@,
                    request.content@,
                    request.room_id,
                    sender_id,
                )
                &&& resp.mentions@ == mentioned@
                &&& resp.sender_username@ == user_by_id(old(self).db.users@, sender_id).username@
                &&& resp.room_id == request.room_id
                &&& resp.room_name@ == room_by_id(old(self).db.rooms@, request.room_id).name@
                &&& resp.content@ == request.content@
                &&& resp.sent_at == now
                &&& !resp.is_edited
                &&& reply_matches(
                    resp.reply_to,
                    request.reply_to_message_id,
                    msg_views(old(self).db.messages@),
                    old(self).db.users@,
                )
                &&& msg_views(final(self).db.messages@) == msg_views(old(self).db.messages@).push(
                    fresh_msg_view(
                        old(self).db.next_id,
                        sender_id,
                        MessageType::Room,
                        Some(request.room_id),
                        None,
                        request.content@,
                        request.reply_to_message_id,
                        now,
                    ),
                )
                &&& final(self).db.mentions@.len() == old(self).db.mentions@.len()
                    + mentioned@.len()
                &&& (forall|k: int|
                    0 <= k < old(self).db.mentions@.len() ==> final(self).db.mentions@[k] == (
                    #[trigger] old(self).db.mentions@[k]))
                &&& (forall|k: int|
                    0 <= k < mentioned@.len() ==> {
                        let mn = #[trigger] final(self).db.mentions@[old(self).db.mentions@.len()
                            + k];
                        &&& mn.message_id == resp.id
                        &&& mn.mentioned_user_id == mentioned@[k]
                        &&& !mn.is_read
                    })
                &&& final(self).db.users == old(self).db.users
                &&& final(self).db.sessions == old(self).db.sessions
                &&& final(self).db.rooms == old(self).db.rooms
                &&& final(self).db.members == old(self).db.members
            },
    {
        match validate_message_content(request.content.as_str()) {
            Ok(()) => {},
            Err(e) => {
                return Err(e);
            },
        }
        if !self.db.is_user_in_room(request.room_id, sender_id) {
            return Err(AuthError::InvalidInput(String::from_str("You are not a member of this room")));
        }
        let room = match self.db.get_room_by_id(request.room_id) {
            Some(room) => room,
            None => {
                return Err(AuthError::InvalidInput(String::from_str("Room not found")));
            },
        };
        let sender = match self.db.get_user_by_id(sender_id) {
            Some(u) => u,
            None => {
                return Err(AuthError::UserNotFound);
            },
        };
        proof {
            let w = choose|w: int|
                0 <= w < self.db.users@.len() && (#[trigger] self.db.users@[w]).id == sender_id;
            let v = choose|v: int|
                0 <= v < self.db.users@.len() && #[trigger] self.db.users@[v] == sender;
            if w != v {
                assert(crate::store::users_wf(self.db.users@, self.db.next_id));
            }
            assert(sender == user_by_id(self.db.users@, sender_id));
        }
        let reply_context = match self.resolve_reply(request.room_id, request.reply_to_message_id) {
            Ok(ctx) => ctx,
            Err(e) => {
                return Err(e);
            },
        };
        let message = self.db.create_room_message(
            sender_id,
            request.room_id,
            request.content.as_str(),
            request.reply_to_message_id,
            now,
        );
        let mentioned_user_ids = self.db.save_message_mentions(
            message.id,
            sender_id,
            request.content.as_str(),
            request.room_id,
            now,
        );
        let mentions_copy = crate::util::copy_u64_vec(&mentioned_user_ids);
        let response = RoomMessageResponse {
            id: message.id,
            sender_username: sender.username,
            message_type: message.message_type,
            room_id: room.id,
            room_name: room.name,
            content: message.content,
            sent_at: message.sent_at,
            is_edited: message.is_edited,
            edited_at: message.edited_at,
            mentions: mentions_copy,
            reply_to: reply_context,
        };
        Ok((response, mentioned_user_ids))
    }

    /// A server announcement inside a room: tagged Server, rendered under
    /// the fixed "Server" name, never generating mentions. The room must
    /// exist and the content must pass the outgoing-content rule.
    pub fn send_room_announcement(
        &mut self,
        sender_id: u64,
        request: SendRoomMessageRequest,
        now: i64,
    ) -> (r: Result<RoomMessageResponse, AuthError>)
        requires
            old(self).db.wf(),
            old(self).db.can_alloc(1),
            now >= old(self).db.last_ts,
        ensures
            final(self).db.wf(),
            old(self).db.last_ts <= final(self).db.last_ts <= now,
            r is Ok <==> (has_room_id(old(self).db.rooms@, request.room_id) && valid_content(
                request.content@,
            )),
            r matches Err(e) ==> *final(self) == *old(self) && e is InvalidInput,
            r matches Ok(resp) ==> {
                &&& resp.id == old(self).db.next_id
                &&& resp.sender_username@ == "Server"@
                &&& resp.message_type is Server
                &&& resp.room_id == request.room_id
                &&& resp.room_name@ == room_by_id(old(self).db.rooms@, request.room_id).name@
                &&& resp.content@ == request.content@
                &&& resp.sent_at == now
                &&& resp.mentions@ == Seq::<u64>::empty()
                &&& msg_views(final(self).db.messages@) == msg_views(old(self).db.messages@).push(
                    fresh_msg_view(
                        old(self).db.next_id,
                        sender_id,
                        MessageType::Server,
                        Some(request.room_id),
                        None,
                        request.content@,
                        None,
                        now,
                    ),
                )
                &&& final(self).db.users == old(self).db.users
                &&& final(self).db.sessions == old(self).db.sessions
                &&& final(self).db.rooms == old(self).db.rooms
                &&& final(self).db.members == old(self).db.members
                &&& final(self).db.mentions == old(self).db.mentions
            },
    {
        match validate_message_content(request.content.as_str()) {
            Ok(()) => {},
            Err(e) => {
                return Err(e);
            },
        }
        let room = match self.db.get_room_by_id(request.room_id) {
            Some(room) => room,
            None => {
                return Err(AuthError::InvalidInput(String::from_str("Room not found")));
            },
        };
        let message = self.db.room_announcement(
            request.room_id,
            request.content.as_str(),
            sender_id,
            now,
        );
        let reply_context = match request.reply_to_message_id {
            Some(rid) => {
                match self.db.get_message_by_id(rid) {
                    Some(reply_msg) => {
                        match self.db.get_user_by_id(reply_msg.sender_id) {
                            Some(reply_sender) => Some(
                                MessageReplyContext {
                                    id: reply_msg.id,
                                    sender_username: reply_sender.username,
                                    content: reply_msg.content,
                                    sent_at: reply_msg.sent_at,
                                },
                            ),
                            None => None,
                        }
                    },
                    None => None,
                }
            },
            None => None,
        };
        Ok(
            RoomMessageResponse {
                id: message.id,
                sender_username: String::from_str("Server"),
                message_type: message.message_type,
                room_id: room.id,
                room_name: room.name,
                content: message.content,
                sent_at: message.sent_at,
                is_edited: message.is_edited,
                edited_at: message.edited_at,
                mentions: Vec::new(),
                reply_to: reply_context,
            },
        )
    }

    /// A private message to a named receiver; both parties must exist.
    pub fn send_private_message(
        &mut self,
        sender_id: u64,
        request: SendPrivateMessageRequest,
        now: i64,
    ) -> (r: Result<PrivateMessageResponse, AuthError>)
        requires
            old(self).db.wf(),
            old(self).db.can_alloc(1),
            now >= old(self).db.last_ts,
        ensures
            final(self).db.wf(),
            old(self).db.last_ts <= final(self).db.last_ts <= now,
            r is Ok <==> (has_username(old(self).db.users@, request.receiver_username@)
                && has_user_id(old(self).db.users@, sender_id)),
            r matches Err(e) ==> *final(self) == *old(self) && e is UserNotFound,
            r matches Ok(resp) ==> {
                &&& resp.id == old(self).db.next_id
                &&& resp.sender_username@ == user_by_id(old(self).db.users@, sender_id).username@
                &&& resp.receiver_username@ == request.receiver_username@
                &&& resp.content@ == request.content@
                &&& resp.sent_at == now
                &&& !resp.is_read
                &&& resp.read_at is None
                &&& msg_views(final(self).db.messages@) == msg_views(old(self).db.messages@).push(
                    fresh_msg_view(
                        old(self).db.next_id,
                        sender_id,
                        MessageType::Private,
                        None,
                        Some(user_by_name(old(self).db.users@, request.receiver_username@).id),
                        request.content@,
                        None,
                        now,
                    ),
                )
                &&& final(self).db.users == old(self).db.users
                &&& final(self).db.sessions == old(self).db.sessions
                &&& final(self).db.rooms == old(self).db.rooms
                &&& final(self).db.members == old(self).db.members
                &&& final(self).db.mentions == old(self).db.mentions
            },
    {
        let receiver = match self.db.get_user_by_username(request.receiver_username.as_str()) {
            Some(u) => u,
            None => {
                return Err(AuthError::UserNotFound);
            },
        };
        proof {
            let w = choose|w: int|
                0 <= w < self.db.users@.len() && (#[trigger] self.db.users@[w]).username@
                    == request.receiver_username@;
            let v = choose|v: int|
                0 <= v < self.db.users@.len() && #[trigger] self.db.users@[v] == receiver;
            if w != v {
                assert(crate::store::users_wf(self.db.users@, self.db.next_id));
            }
            assert(receiver == user_by_name(self.db.users@, request.receiver_username@));
        }
        let sender = match self.db.get_user_by_id(sender_id) {
            Some(u) => u,
            None => {
                return Err(AuthError::UserNotFound);
            },
        };
        proof {
            let w = choose|w: int|
                0 <= w < self.db.users@.len() && (#[trigger] self.db.users@[w]).id == sender_id;
            let v = choose|v: int|
                0 <= v < self.db.users@.len() && #[trigger] self.db.users@[v] == sender;
            if w != v {
                assert(crate::store::users_wf(self.db.users@, self.db.next_id));
            }
            assert(sender == user_by_id(self.db.users@, sender_id));
        }
        let message = self.db.create_private_message(
            sender_id,
            receiver.id,
            request.content.as_str(),
            now,
        );
        Ok(
            PrivateMessageResponse {
                id: message.id,
                sender_username: sender.username,
                receiver_username: receiver.username,
                content: message.content,
                sent_at: message.sent_at,
                read_at: message.read_at,
                is_read: message.is_read,
                is_edited: message.is_edited,
                edited_at: message.edited_at,
            },
        )
    }

    /// Marks one private message read.
    pub fn mark_private_messages_as_read(&mut self, message_id: u64, now: i64) -> (r: Result<
        (),
        AuthError,
    >)
        requires
            old(self).db.wf(),
        ensures
            final(self).db.wf(),
            r is Ok,
            (!has_msg_id(msg_views(old(self).db.messages@), message_id) || !(msg_by_id(
                msg_views(old(self).db.messages@),
                message_id,
            ).message_type is Private)) ==> *final(self) == *old(self),
            (has_msg_id(msg_views(old(self).db.messages@), message_id) && msg_by_id(
                msg_views(old(self).db.messages@),
                message_id,
            ).message_type is Private) ==> exists|i: int|
                {
                    &&& 0 <= i < old(self).db.messages@.len()
                    &&& (#[trigger] msg_views(old(self).db.messages@)[i]).id == message_id
                    &&& msg_views(final(self).db.messages@) == msg_views(
                        old(self).db.messages@,
                    ).update(
                        i,
                        crate::store::read_view(msg_views(old(self).db.messages@)[i], now),
                    )
                },
    {
        self.db.mark_private_message_as_read(message_id, now);
        Ok(())
    }

    /// Marks every unread private message from the named user read.
    pub fn mark_private_conversation_as_read(&mut self, user_id: u64, other_username: &str, now:
        i64) -> (r: Result<(), AuthError>)
        requires
            old(self).db.wf(),
        ensures
            final(self).db.wf(),
            r is Ok <==> has_username(old(self).db.users@, other_username@),
            r matches Err(e) ==> e is UserNotFound && *final(self) == *old(self),
            r is Ok ==> {
                &&& final(self).db.users == old(self).db.users
                &&& final(self).db.sessions == old(self).db.sessions
                &&& final(self).db.rooms == old(self).db.rooms
                &&& final(self).db.members == old(self).db.members
                &&& final(self).db.mentions == old(self).db.mentions
                &&& final(self).db.next_id == old(self).db.next_id
                &&& msg_views(final(self).db.messages@).len() == msg_views(
                    old(self).db.messages@,
                ).len()
                &&& forall|k: int|
                    0 <= k < old(self).db.messages@.len() ==> msg_views(
                        final(self).db.messages@,
                    )[k] == (if crate::store::conv_read_target(
                        #[trigger] msg_views(old(self).db.messages@)[k],
                        user_id,
                        user_by_name(old(self).db.users@, other_username@).id,
                    ) {
                        crate::store::read_view(msg_views(old(self).db.messages@)[k], now)
                    } else {
                        msg_views(old(self).db.messages@)[k]
                    })
            },
    {
        let other = match self.db.get_user_by_username(other_username) {
            Some(u) => u,
            None => {
                return Err(AuthError::UserNotFound);
            },
        };
        proof {
            let w = choose|w: int|
                0 <= w < self.db.users@.len() && (#[trigger] self.db.users@[w]).username@
                    == other_username@;
            let v = choose|v: int|
                0 <= v < self.db.users@.len() && #[trigger] self.db.users@[v] == other;
            if w != v {
                assert(crate::store::users_wf(self.db.users@, self.db.next_id));
            }
            assert(other == user_by_name(self.db.users@, other_username@));
        }
        self.db.mark_private_conversation_as_read(user_id, other.id, now);
        Ok(())
    }

    /// How many unread private messages the user has received.
    pub fn get_unread_private_message_count(&self, user_id: u64) -> (r: Result<usize, AuthError>)
        ensures
            r matches Ok(c) ==> c as int == crate::store::unread_private_count(
                msg_views(self.db.messages@),
                user_id,
            ),
            r is Ok,
    {
        Ok(self.db.get_unread_private_message_count(user_id))
    }

    /// Deletes the message only when the requester sent it; a silent no-op
    /// otherwise.
    pub fn delete_message(&mut self, user_id: u64, message_id: u64) -> (r: Result<(), AuthError>)
        requires
            old(self).db.wf(),
        ensures
            final(self).db.wf(),
            r is Ok,
            (!has_msg_id(msg_views(old(self).db.messages@), message_id) || msg_by_id(
                msg_views(old(self).db.messages@),
                message_id,
            ).sender_id != user_id) ==> *final(self) == *old(self),
            (has_msg_id(msg_views(old(self).db.messages@), message_id) && msg_by_id(
                msg_views(old(self).db.messages@),
                message_id,
            ).sender_id == user_id) ==> !has_msg_id(msg_views(final(self).db.messages@), message_id),
    {
        let ghost vs = msg_views(self.db.messages@);
        self.db.delete_message(message_id, user_id);
        proof {
            if has_msg_id(vs, message_id) && msg_by_id(vs, message_id).sender_id == user_id {
                let i = choose|i: int|
                    {
                        &&& 0 <= i < old(self).db.messages@.len()
                        &&& (#[trigger] vs[i]).id == message_id
                        &&& msg_views(self.db.messages@) == vs.remove(i)
                    };
                let fin = msg_views(self.db.messages@);
                assert forall|k: int| 0 <= k < fin.len() implies (#[trigger] fin[k]).id
                    != message_id by {
                    if k < i {
                        assert(fin[k] == vs[k]);
                    } else {
                        assert(fin[k] == vs[k + 1]);
                        assert(crate::store::messages_wf(vs, old(self).db.next_id));
                    }
                }
            }
        }
        Ok(())
    }

    /// Adds the user to the room; joining twice is a no-op.
    pub fn join_room(&mut self, user_id: u64, room_id: u64, now: i64) -> (r: Result<(), AuthError>)
        requires
            old(self).db.wf(),
            now >= old(self).db.last_ts,
        ensures
            final(self).db.wf(),
            old(self).db.last_ts <= final(self).db.last_ts <= now,
            r is Ok,
            is_member(final(self).db.members@, room_id, user_id),
            is_member(old(self).db.members@, room_id, user_id) ==> *final(self) == *old(self),
    {
        self.db.add_user_to_room(room_id, user_id, now);
        Ok(())
    }

    /// Takes the user out of the room; leaving twice is a no-op.
    pub fn leave_room(&mut self, user_id: u64, room_id: u64) -> (r: Result<(), AuthError>)
        requires
            old(self).db.wf(),
        ensures
            final(self).db.wf(),
            final(self).db.last_ts == old(self).db.last_ts,
            r is Ok,
            !is_member(final(self).db.members@, room_id, user_id),
            !is_member(old(self).db.members@, room_id, user_id) ==> *final(self) == *old(self),
    {
        self.db.remove_user_from_room(room_id, user_id);
        Ok(())
    }

    /// Looks a room up by id.
    pub fn get_room(&self, room_id: u64) -> (r: Result<Option<Room>, AuthError>)
        requires
            self.db.wf(),
        ensures
            r is Ok,
            r matches Ok(opt) ==> match opt {
                Some(room) => has_room_id(self.db.rooms@, room_id) && room == room_by_id(
                    self.db.rooms@,
                    room_id,
                ),
                None => !has_room_id(self.db.rooms@, room_id),
            },
    {
        Ok(self.db.get_room_by_id(room_id))
    }

    /// Creates a room and auto-joins its creator.
    pub fn create_room(&mut self, creator_id: u64, name: &str, desc: &str, now: i64) -> (r: Result<
        Room,
        AuthError,
    >)
        requires
            old(self).db.wf(),
            old(self).db.can_alloc(1),
            now >= old(self).db.last_ts,
        ensures
            final(self).db.wf(),
            old(self).db.last_ts <= final(self).db.last_ts <= now,
            r is Ok,
            r matches Ok(room) ==> {
                &&& room.id == old(self).db.next_id
                &&& room.name@ == name@
                &&& room.desc@ == desc@
                &&& room.created_by == creator_id
                &&& room.created_at == now
                &&& final(self).db.rooms@ == old(self).db.rooms@.push(room)
                &&& is_member(final(self).db.members@, room.id, creator_id)
                &&& final(self).db.users == old(self).db.users
                &&& final(self).db.sessions == old(self).db.sessions
                &&& final(self).db.messages == old(self).db.messages
                &&& final(self).db.mentions == old(self).db.mentions
            },
    {
        Ok(self.db.create_room(name, desc, creator_id, now))
    }

    /// Every room, most recently created first.
    pub fn get_all_rooms(&self) -> (r: Result<Vec<Room>, AuthError>)
        requires
            self.db.wf(),
        ensures
            r is Ok,
            r matches Ok(rooms) ==> rooms@.len() == self.db.rooms@.len() && (forall|k: int|
                0 <= k < rooms@.len() ==> #[trigger] rooms@[k] == self.db.rooms@[self.db.rooms@.len()
                    - 1 - k]) && (forall|a: int, b: int|
                0 <= a <= b < rooms@.len() ==> (#[trigger] rooms@[a]).created_at >= (
                #[trigger] rooms@[b]).created_at),
    {
        Ok(self.db.get_all_rooms())
    }

    /// Rewrites a message's content, re-validated, and marks it edited.
    pub fn edit_message(&mut self, message_id: u64, new_content: &str, now: i64) -> (r: Result<
        (),
        AuthError,
    >)
        requires
            old(self).db.wf(),
        ensures
            final(self).db.wf(),
            r is Ok <==> valid_content(new_content@),
            r matches Err(e) ==> e is InvalidInput && *final(self) == *old(self),
            r is Ok && has_msg_id(msg_views(old(self).db.messages@), message_id) ==> exists|i: int|
                {
                    &&& 0 <= i < old(self).db.messages@.len()
                    &&& (#[trigger] msg_views(old(self).db.messages@)[i]).id == message_id
                    &&& msg_views(final(self).db.messages@) == msg_views(
                        old(self).db.messages@,
                    ).update(
                        i,
                        crate::store::edited_view(
                            msg_views(old(self).db.messages@)[i],
                            new_content@,
                            now,
                        ),
                    )
                },
            r is Ok && !has_msg_id(msg_views(old(self).db.messages@), message_id) ==> *final(self)
                == *old(self),
    {
        match validate_message_content(new_content) {
            Ok(()) => {},
            Err(e) => {
                return Err(e);
            },
        }
        self.db.edit_message(message_id, new_content, now);
        Ok(())
    }

    /// The rooms the user belongs to, most recently joined first.
    pub fn get_user_rooms(&self, user_id: u64) -> (r: Result<Vec<Room>, AuthError>)
        requires
            self.db.wf(),
        ensures
            r is Ok,
            r matches Ok(rooms) ==> rooms@ == crate::store::user_rooms_spec(
                self.db.members@,
                self.db.rooms@,
                user_id,
            ) && rooms@.len() == crate::store::user_room_times(
                self.db.members@,
                self.db.rooms@,
                user_id,
            ).len() && (forall|a: int, b: int|
                0 <= a <= b < rooms@.len() ==> #[trigger] crate::store::user_room_times(
                    self.db.members@,
                    self.db.rooms@,
                    user_id,
                )[a] >= #[trigger] crate::store::user_room_times(
                    self.db.members@,
                    self.db.rooms@,
                    user_id,
                )[b]),
    {
        Ok(self.db.get_user_rooms(user_id))
    }

    /// Persists the user's presence.
    pub fn update_user_presence(&mut self, user_id: u64, presence: Presence) -> (r: Result<
        (),
        AuthError,
    >)
        requires
            old(self).db.wf(),
        ensures
            final(self).db.wf(),
            r is Ok,
            final(self).db.sessions == old(self).db.sessions,
            final(self).db.rooms == old(self).db.rooms,
            final(self).db.members == old(self).db.members,
            final(self).db.messages == old(self).db.messages,
            final(self).db.mentions == old(self).db.mentions,
            final(self).db.next_id == old(self).db.next_id,
            final(self).db.last_ts == old(self).db.last_ts,
            final(self).db.users@.len() == old(self).db.users@.len(),
            has_user_id(old(self).db.users@, user_id) ==> has_user_id(
                final(self).db.users@,
                user_id,
            ) && user_by_id(final(self).db.users@, user_id).presence == presence,
            !has_user_id(old(self).db.users@, user_id) ==> *final(self) == *old(self),
    {
        let ghost pre = self.db.users@;
        self.db.update_user_presence(user_id, presence);
        proof {
            if has_user_id(pre, user_id) {
                let i = choose|i: int|
                    {
                        &&& 0 <= i < pre.len()
                        &&& (#[trigger] pre[i]).id == user_id
                        &&& self.db.users@ == pre.update(
                            i,
                            User { presence, ..pre[i] },
                        )
                    };
                assert(self.db.users@[i].id == user_id);
                assert(has_user_id(self.db.users@, user_id));
                let w = choose|w: int|
                    0 <= w < self.db.users@.len() && (#[trigger] self.db.users@[w]).id == user_id;
                if w != i {
                    assert(crate::store::users_wf(self.db.users@, self.db.next_id));
                }
            }
        }
        Ok(())
    }

    /// Persists the user's status text.
    pub fn update_user_status(&mut self, user_id: u64, status: &str) -> (r: Result<(), AuthError>)
        requires
            old(self).db.wf(),
        ensures
            final(self).db.wf(),
            r is Ok,
            final(self).db.sessions == old(self).db.sessions,
            final(self).db.rooms == old(self).db.rooms,
            final(self).db.members == old(self).db.members,
            final(self).db.messages == old(self).db.messages,
            final(self).db.mentions == old(self).db.mentions,
            final(self).db.next_id == old(self).db.next_id,
            final(self).db.last_ts == old(self).db.last_ts,
            final(self).db.users@.len() == old(self).db.users@.len(),
            has_user_id(old(self).db.users@, user_id) ==> has_user_id(
                final(self).db.users@,
                user_id,
            ) && (user_by_id(final(self).db.users@, user_id).status matches Some(s) && s@
                == status@),
            !has_user_id(old(self).db.users@, user_id) ==> *final(self) == *old(self),
    {
        let ghost pre = self.db.users@;
        self.db.update_user_status(user_id, Some(status));
        proof {
            if has_user_id(pre, user_id) {
                let i = choose|i: int|
                    {
                        &&& 0 <= i < pre.len()
                        &&& (#[trigger] pre[i]).id == user_id
                        &&& self.db.users@.len() == pre.len()
                        &&& (forall|k: int|
                            0 <= k < pre.len() && k != i ==> self.db.users@[k] == (
                            #[trigger] pre[k]))
                        &&& self.db.users@[i].id == pre[i].id
                        &&& (self.db.users@[i].status matches Some(ss) && ss@ == status@)
                    };
                assert(self.db.users@[i].id == user_id);
                assert(has_user_id(self.db.users@, user_id));
                let w = choose|w: int|
                    0 <= w < self.db.users@.len() && (#[trigger] self.db.users@[w]).id == user_id;
                if w != i {
                    assert(crate::store::users_wf(self.db.users@, self.db.next_id));
                }
            }
        }
        Ok(())
    }

    /// The members of the room, in username order.
    pub fn get_room_members(&self, room_id: u64) -> (r: Result<Vec<User>, AuthError>)
        requires
            self.db.wf(),
        ensures
            r is Ok,
            r matches Ok(members) ==> members@.to_multiset()
                == crate::store::room_members_spec(
                self.db.members@,
                self.db.users@,
                room_id,
            ).to_multiset() && (forall|a: int, b: int|
                0 <= a <= b < members@.len() ==> crate::text::lex_le(
                    members@[a].username@,
                    members@[b].username@,
                )),
    {
        Ok(self.db.get_room_members(room_id))
    }

    /// How many unread mentions the user has.
    pub fn get_unread_mentions_count(&self, user_id: u64) -> (r: Result<usize, AuthError>)
        ensures
            r is Ok,
            r matches Ok(c) ==> c as int == crate::store::unread_mentions_count(
                self.db.mentions@,
                user_id,
            ),
    {
        Ok(self.db.get_unread_mentions_count(user_id))
    }

    /// Marks the user's mention by the message read.
    pub fn mark_mention_as_read(&mut self, user_id: u64, message_id: u64, now: i64) -> (r: Result<
        (),
        AuthError,
    >)
        requires
            old(self).db.wf(),
        ensures
            final(self).db.wf(),
            r is Ok,
            !crate::store::has_mention(old(self).db.mentions@, message_id, user_id) ==> *final(self)
                == *old(self),
            crate::store::has_mention(old(self).db.mentions@, message_id, user_id) ==> {
                &&& final(self).db.users == old(self).db.users
                &&& final(self).db.sessions == old(self).db.sessions
                &&& final(self).db.rooms == old(self).db.rooms
                &&& final(self).db.members == old(self).db.members
                &&& final(self).db.messages == old(self).db.messages
                &&& final(self).db.next_id == old(self).db.next_id
                &&& exists|i: int|
                    {
                        &&& 0 <= i < old(self).db.mentions@.len()
                        &&& (#[trigger] old(self).db.mentions@[i]).message_id == message_id
                        &&& old(self).db.mentions@[i].mentioned_user_id == user_id
                        &&& final(self).db.mentions@ == old(self).db.mentions@.update(
                            i,
                            crate::store::read_mention(old(self).db.mentions@[i], now),
                        )
                    }
            },
            crate::store::unread_mentions_count(final(self).db.mentions@, user_id)
                <= crate::store::unread_mentions_count(old(self).db.mentions@, user_id),
    {
        let ghost pre = self.db.mentions@;
        self.db.mark_mention_as_read(user_id, message_id, now);
        proof {
            if crate::store::has_mention(pre, message_id, user_id) {
                let i = choose|i: int|
                    {
                        &&& 0 <= i < pre.len()
                        &&& (#[trigger] pre[i]).message_id == message_id
                        &&& pre[i].mentioned_user_id == user_id
                        &&& self.db.mentions@ == pre.update(
                            i,
                            crate::store::read_mention(pre[i], now),
                        )
                    };
                crate::store::lemma_unread_count_update_read(pre, i, user_id, now);
            }
        }
        Ok(())
    }

    /// Marks every unread mention of the user on the room's messages read.
    pub fn mark_room_mentions_as_read(&mut self, user_id: u64, room_id: u64, now: i64) -> (r:
        Result<(), AuthError>)
        requires
            old(self).db.wf(),
        ensures
            final(self).db.wf(),
            r is Ok,
            final(self).db.mentions@.len() == old(self).db.mentions@.len(),
            forall|k: int|
                0 <= k < old(self).db.mentions@.len() ==> final(self).db.mentions@[k] == (
                if crate::store::room_mention_read_target(
                    #[trigger] old(self).db.mentions@[k],
                    user_id,
                    msg_views(old(self).db.messages@),
                    room_id,
                ) {
                    crate::store::read_mention(old(self).db.mentions@[k], now)
                } else {
                    old(self).db.mentions@[k]
                }),
    {
        self.db.mark_room_mentions_as_read(user_id, room_id, now);
        Ok(())
    }

    /// Appends the user to the emoji's bucket on the message.
    pub fn add_reaction(&mut self, message_id: u64, user_id: u64, username: &str, emoji: &str) -> (r:
        Result<Vec<ReactionSummary>, AuthError>)
        requires
            old(self).db.wf(),
        ensures
            final(self).db.wf(),
            r is Ok <==> has_msg_id(msg_views(old(self).db.messages@), message_id),
            r matches Ok(rs) ==> exists|i: int|
                {
                    &&& 0 <= i < old(self).db.messages@.len()
                    &&& (#[trigger] msg_views(old(self).db.messages@)[i]).id == message_id
                    &&& crate::messages::reaction_views(rs@) == crate::reactions::spec_add_reaction(
                        msg_views(old(self).db.messages@)[i].reactions,
                        user_id,
                        username@,
                        emoji@,
                    )
                    &&& msg_views(final(self).db.messages@) == msg_views(
                        old(self).db.messages@,
                    ).update(
                        i,
                        crate::store::with_reactions(
                            msg_views(old(self).db.messages@)[i],
                            crate::messages::reaction_views(rs@),
                        ),
                    )
                },
            r matches Err(e) ==> e is InvalidInput && *final(self) == *old(self),
    {
        self.db.add_reaction(message_id, user_id, username, emoji)
    }

    /// Takes the user's reaction with the emoji off the message.
    pub fn remove_reaction(&mut self, message_id: u64, user_id: u64, emoji: &str) -> (r: Result<
        Vec<ReactionSummary>,
        AuthError,
    >)
        requires
            old(self).db.wf(),
        ensures
            final(self).db.wf(),
            r is Ok <==> has_msg_id(msg_views(old(self).db.messages@), message_id),
            r matches Ok(rs) ==> exists|i: int|
                {
                    &&& 0 <= i < old(self).db.messages@.len()
                    &&& (#[trigger] msg_views(old(self).db.messages@)[i]).id == message_id
                    &&& crate::messages::reaction_views(rs@)
                        == crate::reactions::spec_remove_reaction(
                        msg_views(old(self).db.messages@)[i].reactions,
                        user_id,
                        emoji@,
                    )
                    &&& msg_views(final(self).db.messages@) == msg_views(
                        old(self).db.messages@,
                    ).update(
                        i,
                        crate::store::with_reactions(
                            msg_views(old(self).db.messages@)[i],
                            crate::messages::reaction_views(rs@),
                        ),
                    )
                },
            r matches Err(e) ==> e is InvalidInput && *final(self) == *old(self),
    {
        self.db.remove_reaction(message_id, user_id, emoji)
    }

    /// Pins the message for the user at the given instant; the pin time is
    /// returned.
    pub fn pin_message(&mut self, message_id: u64, user_id: u64, now: i64) -> (r: Result<
        i64,
        AuthError,
    >)
        requires
            old(self).db.wf(),
        ensures
            final(self).db.wf(),
            r is Ok,
            r matches Ok(t) ==> t == now,
            !has_msg_id(msg_views(old(self).db.messages@), message_id) ==> *final(self) == *old(
                self,
            ),
            has_msg_id(msg_views(old(self).db.messages@), message_id) ==> exists|i: int|
                {
                    &&& 0 <= i < old(self).db.messages@.len()
                    &&& (#[trigger] msg_views(old(self).db.messages@)[i]).id == message_id
                    &&& msg_views(final(self).db.messages@) == msg_views(
                        old(self).db.messages@,
                    ).update(
                        i,
                        crate::store::pinned_view(
                            msg_views(old(self).db.messages@)[i],
                            user_id,
                            now,
                        ),
                    )
                },
    {
        self.db.pin_message(message_id, user_id, now);
        Ok(now)
    }

    /// Clears the message's pin fields.
    pub fn unpin_message(&mut self, message_id: u64) -> (r: Result<(), AuthError>)
        requires
            old(self).db.wf(),
        ensures
            final(self).db.wf(),
            r is Ok,
            !has_msg_id(msg_views(old(self).db.messages@), message_id) ==> *final(self) == *old(
                self,
            ),
            has_msg_id(msg_views(old(self).db.messages@), message_id) ==> exists|i: int|
                {
                    &&& 0 <= i < old(self).db.messages@.len()
                    &&& (#[trigger] msg_views(old(self).db.messages@)[i]).id == message_id
                    &&& msg_views(final(self).db.messages@) == msg_views(
                        old(self).db.messages@,
                    ).update(i, crate::store::unpinned_view(msg_views(old(self).db.messages@)[i]))
                },
    {
        self.db.unpin_message(message_id);
        Ok(())
    }

    /// Renders a reply reference: present exactly when the referenced
    /// message and its sender still exist.
    fn render_reply(&self, reply_to: Option<u64>) -> (r: Option<MessageReplyContext>)
        requires
            self.db.wf(),
        ensures
            reply_matches(r, reply_to, msg_views(self.db.messages@), self.db.users@),
    {
        let rid = match reply_to {
            None => {
                return None;
            },
            Some(rid) => rid,
        };
        let reply_msg = match self.db.get_message_by_id(rid) {
            Some(m) => m,
            None => {
                return None;
            },
        };
        match self.db.get_user_by_id(reply_msg.sender_id) {
            Some(reply_sender) => {
                proof {
                    let w = choose|w: int|
                        0 <= w < self.db.users@.len() && (#[trigger] self.db.users@[w]).id
                            == reply_msg.sender_id;
                    let v = choose|v: int|
                        0 <= v < self.db.users@.len() && #[trigger] self.db.users@[v]
                            == reply_sender;
                    if w != v {
                        assert(crate::store::users_wf(self.db.users@, self.db.next_id));
                    }
                    assert(reply_sender == user_by_id(self.db.users@, reply_msg.sender_id));
                }
                Some(
                    MessageReplyContext {
                        id: reply_msg.id,
                        sender_username: reply_sender.username,
                        content: reply_msg.content,
                        sent_at: reply_msg.sent_at,
                    },
                )
            },
            None => None,
        }
    }

    /// The room's history, newest first, each message rendered with its
    /// sender's name, its recorded mentions and its reply context; messages
    /// whose sender is gone are left out. The page size is clamped to one
    /// through one hundred.
    pub fn get_room_messages(&self, room_id: u64, limit: usize, offset: usize) -> (r: Result<
        Vec<RoomMessageResponse>,
        AuthError,
    >)
        requires
            self.db.wf(),
        ensures
            r is Ok <==> has_room_id(self.db.rooms@, room_id),
            r matches Err(e) ==> e is InvalidInput,
            r matches Ok(rs) ==> {
                let page = crate::store::page_views(
                    crate::store::room_feed(msg_views(self.db.messages@), room_id),
                    clamp_limit(limit as int),
                    offset as int,
                );
                let kept = known_sender_filter(page, self.db.users@);
                &&& rs@.len() == kept.len()
                &&& forall|k: int|
                    0 <= k < kept.len() ==> response_matches(
                        #[trigger] rs@[k],
                        kept[k],
                        room_id,
                        self.db.rooms@,
                        self.db.users@,
                        msg_views(self.db.messages@),
                        self.db.mentions@,
                    )
                &&& forall|a: int, b: int|
                    0 <= a <= b < rs@.len() ==> (#[trigger] rs@[a]).sent_at >= (
                    #[trigger] rs@[b]).sent_at
            },
    {
        let room = match self.db.get_room_by_id(room_id) {
            Some(room) => room,
            None => {
                return Err(AuthError::InvalidInput(String::from_str("Room not found")));
            },
        };
        let l = if limit < 1 {
            1
        } else if limit > 100 {
            100
        } else {
            limit
        };
        let page_vec = self.db.get_room_messages(room_id, l, offset);
        let ghost page = msg_views(page_vec@);
        let ghost kept = known_sender_filter(page, self.db.users@);
        proof {
            assert(page.skip(0) =~= page);
        }
        let mut rs: Vec<RoomMessageResponse> = Vec::new();
        let ghost mut done: Seq<MessageView> = Seq::empty();
        let mut i: usize = 0;
        while i < page_vec.len()
            invariant
                self.db.wf(),
                page == msg_views(page_vec@),
                page.len() == page_vec@.len(),
                kept == known_sender_filter(page, self.db.users@),
                i <= page.len(),
                kept == done + known_sender_filter(page.skip(i as int), self.db.users@),
                rs@.len() == done.len(),
                forall|k: int|
                    0 <= k < done.len() ==> response_matches(
                        #[trigger] rs@[k],
                        done[k],
                        room_id,
                        self.db.rooms@,
                        self.db.users@,
                        msg_views(self.db.messages@),
                        self.db.mentions@,
                    ),
                has_room_id(self.db.rooms@, room_id),
                room == room_by_id(self.db.rooms@, room_id),
            decreases page.len() - i,
        {
            proof {
                assert(page.skip(i as int).drop_first() =~= page.skip(i as int + 1));
                assert(page.skip(i as int)[0] == page[i as int]);
                assert(page[i as int] == page_vec@[i as int]@);
            }
            let m = &page_vec[i];
            match self.db.get_user_by_id(m.sender_id) {
                Some(sender) => {
                    proof {
                        let w = choose|w: int|
                            0 <= w < self.db.users@.len() && (#[trigger] self.db.users@[w]).id
                                == page_vec@[i as int].sender_id;
                        let v = choose|v: int|
                            0 <= v < self.db.users@.len() && #[trigger] self.db.users@[v] == sender;
                        if w != v {
                            assert(crate::store::users_wf(self.db.users@, self.db.next_id));
                        }
                        assert(sender == user_by_id(self.db.users@, page_vec@[i as int].sender_id));
                    }
                    let mentions = self.db.get_message_mentions(m.id);
                    let reply_ctx = self.render_reply(m.reply_to_message_id);
                    let username = match m.message_type {
                        MessageType::Server => String::from_str("Server"),
                        _ => sender.username,
                    };
                    let resp = RoomMessageResponse {
                        id: m.id,
                        sender_username: username,
                        message_type: m.message_type,
                        room_id: room.id,
                        room_name: room.name.clone(),
                        content: m.content.clone(),
                        sent_at: m.sent_at,
                        is_edited: m.is_edited,
                        edited_at: m.edited_at,
                        mentions,
                        reply_to: reply_ctx,
                    };
                    rs.push(resp);
                    proof {
                        done = done.push(page[i as int]);
                        assert(done.drop_last() + (seq![page[i as int]] + known_sender_filter(
                            page.skip(i as int + 1),
                            self.db.users@,
                        )) =~= done + known_sender_filter(page.skip(i as int + 1), self.db.users@));
                    }
                },
                None => {},
            }
            i = i + 1;
        }
        proof {
            assert(page.skip(page.len() as int) =~= Seq::<MessageView>::empty());
            assert(done + known_sender_filter(Seq::<MessageView>::empty(), self.db.users@)
                =~= done);
            crate::store::lemma_room_feed_sorted(msg_views(self.db.messages@), room_id);
            crate::store::lemma_page_sorted(
                crate::store::room_feed(msg_views(self.db.messages@), room_id),
                clamp_limit(limit as int),
                offset as int,
            );
            lemma_known_sender_filter_sorted(page, self.db.users@);
            assert forall|a: int, b: int| 0 <= a <= b < rs@.len() implies (
            #[trigger] rs@[a]).sent_at >= (#[trigger] rs@[b]).sent_at by {
                assert(rs@[a].sent_at == done[a].sent_at && rs@[b].sent_at == done[b].sent_at);
            }
        }
        Ok(rs)
    }

    /// One page of a user's private messages: the conversation with a named
    /// user, or the received inbox, optionally unread only; newest first,
    /// rendered with both parties' names.
    pub fn get_private_messages(
        &self,
        user_id: u64,
        request: crate::messages::GetPrivateMessagesRequest,
    ) -> (r: Result<Vec<PrivateMessageResponse>, AuthError>)
        requires
            self.db.wf(),
        ensures
            r is Ok <==> match request.with_user {
                Some(other) => has_username(self.db.users@, other@) && private_parties_known(
                    private_page(self.db, user_id, request),
                    self.db.users@,
                ),
                None => private_parties_known(
                    private_page(self.db, user_id, request),
                    self.db.users@,
                ),
            },
            r matches Err(e) ==> e is UserNotFound,
            r matches Ok(rs) ==> {
                let page = private_page(self.db, user_id, request);
                &&& rs@.len() == page.len()
                &&& forall|k: int|
                    0 <= k < page.len() ==> private_response_matches(
                        #[trigger] rs@[k],
                        page[k],
                        self.db.users@,
                    )
                &&& forall|a: int, b: int|
                    0 <= a <= b < rs@.len() ==> (#[trigger] rs@[a]).sent_at >= (
                    #[trigger] rs@[b]).sent_at
            },
    {
        let limit0 = match request.limit {
            Some(l) => l,
            None => 50,
        };
        let limit = if limit0 > 100 {
            100
        } else {
            limit0
        };
        let offset = match request.offset {
            Some(o) => o,
            None => 0,
        };
        let page_vec = match &request.with_user {
            Some(other_username) => {
                let other = match self.db.get_user_by_username(other_username.as_str()) {
                    Some(u) => u,
                    None => {
                        return Err(AuthError::UserNotFound);
                    },
                };
                proof {
                    let w = choose|w: int|
                        0 <= w < self.db.users@.len() && (#[trigger] self.db.users@[w]).username@
                            == other_username@;
                    let v = choose|v: int|
                        0 <= v < self.db.users@.len() && #[trigger] self.db.users@[v] == other;
                    if w != v {
                        assert(crate::store::users_wf(self.db.users@, self.db.next_id));
                    }
                    assert(other == user_by_name(self.db.users@, other_username@));
                }
                self.db.get_private_messages_between_users(user_id, other.id, limit, offset)
            },
            None => {
                self.db.get_received_private_messages(user_id, request.unread_only, limit, offset)
            },
        };
        let ghost page = msg_views(page_vec@);
        proof {
            assert(page == private_page(self.db, user_id, request));
        }
        let mut rs: Vec<PrivateMessageResponse> = Vec::new();
        let mut i: usize = 0;
        while i < page_vec.len()
            invariant
                self.db.wf(),
                page == msg_views(page_vec@),
                page == private_page(self.db, user_id, request),
                page.len() == page_vec@.len(),
                i <= page.len(),
                rs@.len() == i,
                forall|k: int|
                    0 <= k < i ==> private_response_matches(
                        #[trigger] rs@[k],
                        page[k],
                        self.db.users@,
                    ),
                forall|k: int|
                    0 <= k < i ==> has_user_id(self.db.users@, (#[trigger] page[k]).sender_id)
                        && match page[k].receiver_id {
                        Some(rid) => has_user_id(self.db.users@, rid),
                        None => true,
                    },
            decreases page.len() - i,
        {
            proof {
                assert(page[i as int] == page_vec@[i as int]@);
            }
            let m = &page_vec[i];
            let sender = match self.db.get_user_by_id(m.sender_id) {
                Some(u) => u,
                None => {
                    proof {
                        assert(!has_user_id(self.db.users@, page[i as int].sender_id));
                        assert(!private_parties_known(page, self.db.users@));
                    }
                    return Err(AuthError::UserNotFound);
                },
            };
            proof {
                let w = choose|w: int|
                    0 <= w < self.db.users@.len() && (#[trigger] self.db.users@[w]).id
                        == page_vec@[i as int].sender_id;
                let v = choose|v: int|
                    0 <= v < self.db.users@.len() && #[trigger] self.db.users@[v] == sender;
                if w != v {
                    assert(crate::store::users_wf(self.db.users@, self.db.next_id));
                }
                assert(sender == user_by_id(self.db.users@, page_vec@[i as int].sender_id));
            }
            let receiver_id = match m.receiver_id {
                Some(rid) => rid,
                None => {
                    proof {
                        lemma_private_page_receivers(self.db, user_id, request);
                        assert(false);
                    }
                    return Err(AuthError::UserNotFound);
                },
            };
            let receiver = match self.db.get_user_by_id(receiver_id) {
                Some(u) => u,
                None => {
                    proof {
                        assert(page[i as int].receiver_id == Some(receiver_id));
                        assert(!private_parties_known(page, self.db.users@));
                    }
                    return Err(AuthError::UserNotFound);
                },
            };
            proof {
                let w = choose|w: int|
                    0 <= w < self.db.users@.len() && (#[trigger] self.db.users@[w]).id
                        == receiver_id;
                let v = choose|v: int|
                    0 <= v < self.db.users@.len() && #[trigger] self.db.users@[v] == receiver;
                if w != v {
                    assert(crate::store::users_wf(self.db.users@, self.db.next_id));
                }
                assert(receiver == user_by_id(self.db.users@, receiver_id));
            }
            rs.push(
                PrivateMessageResponse {
                    id: m.id,
                    sender_username: sender.username,
                    receiver_username: receiver.username,
                    content: m.content.clone(),
                    sent_at: m.sent_at,
                    read_at: m.read_at,
                    is_read: m.is_read,
                    is_edited: m.is_edited,
                    edited_at: m.edited_at,
                },
            );
            i = i + 1;
        }
        proof {
            assert(crate::store::sorted_by_sent_desc(page)) by {
                match request.with_user {
                    Some(other) => {
                        if has_username(self.db.users@, other@) {
                            let other_id = user_by_name(self.db.users@, other@).id;
                            crate::store::lemma_conversation_feed_sorted(
                                msg_views(self.db.messages@),
                                user_id,
                                other_id,
                            );
                            crate::store::lemma_page_sorted(
                                crate::store::conversation_feed(
                                    msg_views(self.db.messages@),
                                    user_id,
                                    other_id,
                                ),
                                pm_limit(request),
                                pm_offset(request),
                            );
                        }
                    },
                    None => {
                        crate::store::lemma_inbox_feed_sorted(
                            msg_views(self.db.messages@),
                            user_id,
                            request.unread_only,
                        );
                        crate::store::lemma_page_sorted(
                            crate::store::inbox_feed(
                                msg_views(self.db.messages@),
                                user_id,
                                request.unread_only,
                            ),
                            pm_limit(request),
                            pm_offset(request),
                        );
                    },
                }
            }
            assert forall|a: int, b: int| 0 <= a <= b < rs@.len() implies (
            #[trigger] rs@[a]).sent_at >= (#[trigger] rs@[b]).sent_at by {
                assert(rs@[a].sent_at == page[a].sent_at && rs@[b].sent_at == page[b].sent_at);
            }
        }
        Ok(rs)
    }

    /// One page of the messages that mention the user, newest first, each
    /// rendered in its room; messages whose room or sender is gone are
    /// left out.
    pub fn get_user_mentions(&self, user_id: u64, limit: usize, offset: usize) -> (r: Result<
        Vec<RoomMessageResponse>,
        AuthError,
    >)
        requires
            self.db.wf(),
        ensures
            r is Ok,
            r matches Ok(rs) ==> {
                let page = crate::store::page_views(
                    crate::store::mention_feed(
                        msg_views(self.db.messages@),
                        self.db.mentions@,
                        user_id,
                    ),
                    limit as int,
                    offset as int,
                );
                let kept = renderable_mention_filter(page, self.db.rooms@, self.db.users@);
                &&& rs@.len() == kept.len()
                &&& forall|k: int|
                    0 <= k < kept.len() ==> (kept[k].room_id matches Some(rid) && response_matches(
                        #[trigger] rs@[k],
                        kept[k],
                        rid,
                        self.db.rooms@,
                        self.db.users@,
                        msg_views(self.db.messages@),
                        self.db.mentions@,
                    ))
                &&& forall|a: int, b: int|
                    0 <= a <= b < rs@.len() ==> (#[trigger] rs@[a]).sent_at >= (
                    #[trigger] rs@[b]).sent_at
            },
    {
        let page_vec = self.db.get_all_user_mentions(user_id, limit, offset);
        let ghost page = msg_views(page_vec@);
        let ghost kept = renderable_mention_filter(page, self.db.rooms@, self.db.users@);
        proof {
            assert(page.skip(0) =~= page);
        }
        let mut rs: Vec<RoomMessageResponse> = Vec::new();
        let ghost mut done: Seq<MessageView> = Seq::empty();
        let mut i: usize = 0;
        while i < page_vec.len()
            invariant
                self.db.wf(),
                page == msg_views(page_vec@),
                page.len() == page_vec@.len(),
                kept == renderable_mention_filter(page, self.db.rooms@, self.db.users@),
                i <= page.len(),
                kept == done + renderable_mention_filter(
                    page.skip(i as int),
                    self.db.rooms@,
                    self.db.users@,
                ),
                rs@.len() == done.len(),
                forall|k: int|
                    0 <= k < done.len() ==> ((#[trigger] done[k]).room_id matches Some(rid)
                        && response_matches(
                        rs@[k],
                        done[k],
                        rid,
                        self.db.rooms@,
                        self.db.users@,
                        msg_views(self.db.messages@),
                        self.db.mentions@,
                    )),
            decreases page.len() - i,
        {
            proof {
                assert(page.skip(i as int).drop_first() =~= page.skip(i as int + 1));
                assert(page.skip(i as int)[0] == page[i as int]);
                assert(page[i as int] == page_vec@[i as int]@);
            }
            let m = &page_vec[i];
            let mut included = false;
            match m.room_id {
                Some(rid) => {
                    match self.db.get_room_by_id(rid) {
                        Some(room) => {
                            match self.db.get_user_by_id(m.sender_id) {
                                Some(sender) => {
                                    included = true;
                                    proof {
                                        let w = choose|w: int|
                                            0 <= w < self.db.users@.len() && (
                                            #[trigger] self.db.users@[w]).id
                                                == page_vec@[i as int].sender_id;
                                        let v = choose|v: int|
                                            0 <= v < self.db.users@.len()
                                                && #[trigger] self.db.users@[v] == sender;
                                        if w != v {
                                            assert(crate::store::users_wf(
                                                self.db.users@,
                                                self.db.next_id,
                                            ));
                                        }
                                        assert(sender == user_by_id(
                                            self.db.users@,
                                            page_vec@[i as int].sender_id,
                                        ));
                                    }
                                    let mentions = self.db.get_message_mentions(m.id);
                                    let reply_ctx = self.render_reply(m.reply_to_message_id);
                                    let username = match m.message_type {
                                        MessageType::Server => String::from_str("Server"),
                                        _ => sender.username,
                                    };
                                    let resp = RoomMessageResponse {
                                        id: m.id,
                                        sender_username: username,
                                        message_type: m.message_type,
                                        room_id: room.id,
                                        room_name: room.name,
                                        content: m.content.clone(),
                                        sent_at: m.sent_at,
                                        is_edited: m.is_edited,
                                        edited_at: m.edited_at,
                                        mentions,
                                        reply_to: reply_ctx,
                                    };
                                    rs.push(resp);
                                    proof {
                                        done = done.push(page[i as int]);
                                        assert(done.drop_last() + (seq![page[i as int]]
                                            + renderable_mention_filter(
                                            page.skip(i as int + 1),
                                            self.db.rooms@,
                                            self.db.users@,
                                        )) =~= done + renderable_mention_filter(
                                            page.skip(i as int + 1),
                                            self.db.rooms@,
                                            self.db.users@,
                                        ));
                                    }
                                },
                                None => {},
                            }
                        },
                        None => {},
                    }
                },
                None => {},
            }
            i = i + 1;
        }
        proof {
            assert(page.skip(page.len() as int) =~= Seq::<MessageView>::empty());
            assert(done + renderable_mention_filter(
                Seq::<MessageView>::empty(),
                self.db.rooms@,
                self.db.users@,
            ) =~= done);
            crate::store::lemma_mention_feed_sorted(
                msg_views(self.db.messages@),
                self.db.mentions@,
                user_id,
            );
            crate::store::lemma_page_sorted(
                crate::store::mention_feed(
                    msg_views(self.db.messages@),
                    self.db.mentions@,
                    user_id,
                ),
                limit as int,
                offset as int,
            );
            lemma_renderable_mention_filter_sorted(page, self.db.rooms@, self.db.users@);
            assert forall|a: int, b: int| 0 <= a <= b < rs@.len() implies (
            #[trigger] rs@[a]).sent_at >= (#[trigger] rs@[b]).sent_at by {
                assert(rs@[a].sent_at == done[a].sent_at && rs@[b].sent_at == done[b].sent_at);
            }
        }
        Ok(rs)
    }

    /// The pinned messages of the room, most recently pinned first.
    pub fn get_pinned_messages(&self, room_id: u64) -> (r: Result<Vec<Message>, AuthError>)
        ensures
            r is Ok,
            r matches Ok(ms) ==> crate::store::sorted_by_pin_desc(msg_views(ms@)) && msg_views(
                ms@,
            ).to_multiset() == crate::store::pinned_feed(
                msg_views(self.db.messages@),
                room_id,
            ).to_multiset(),
    {
        Ok(self.db.get_pinned_messages(room_id))
    }
}

} // verus!
