use vstd::prelude::*;
use vstd::multiset::Multiset;
use crate::error::AuthError;
use crate::messages::Mention;
use crate::messages::Message;
use crate::messages::MessageType;
use crate::messages::MessageView;
use crate::messages::Room;
use crate::messages::RoomMember;
use crate::messages::ReactionSummary;
use crate::messages::ReactionView;
use crate::messages::msg_views;
use crate::reactions::wf_reactions;
use crate::util::contains_u64;
use crate::text::str_eq;
use crate::users::Presence;
use crate::users::Session;
use crate::users::User;

verus! {

/// The in-memory store of persisted entities: users, sessions, rooms, room
/// memberships, messages and mentions. Every entity gets its id from one
/// shared counter, so ids are unique across the store.
pub struct Database {
    pub users: Vec<User>,
    pub sessions: Vec<Session>,
    pub rooms: Vec<Room>,
    pub members: Vec<RoomMember>,
    pub messages: Vec<Message>,
    pub mentions: Vec<Mention>,
    pub next_id: u64,
    /// The largest instant ever written into a room, membership or message
    /// row; row creation never runs backwards in time.
    pub last_ts: i64,
}

// Lookup predicates over the store's contents.

pub open spec fn has_user_id(users: Seq<User>, id: u64) -> bool {
    exists|i: int| 0 <= i < users.len() && (#[trigger] users[i]).id == id
}

pub open spec fn has_username(users: Seq<User>, name: Seq<char>) -> bool {
    exists|i: int| 0 <= i < users.len() && (#[trigger] users[i]).username@ == name
}

pub open spec fn has_email(users: Seq<User>, email: Seq<char>) -> bool {
    exists|i: int| 0 <= i < users.len() && (#[trigger] users[i]).email@ == email
}

/// The stored user with the given id; determined when ids are unique.
pub open spec fn user_by_id(users: Seq<User>, id: u64) -> User {
    users[choose|i: int| 0 <= i < users.len() && (#[trigger] users[i]).id == id]
}

/// The stored user with the given name; determined when names are unique.
pub open spec fn user_by_name(users: Seq<User>, name: Seq<char>) -> User {
    users[choose|i: int| 0 <= i < users.len() && (#[trigger] users[i]).username@ == name]
}

pub open spec fn has_token(sessions: Seq<Session>, token: Seq<char>) -> bool {
    exists|i: int| 0 <= i < sessions.len() && (#[trigger] sessions[i]).token@ == token
}

/// The stored session with the given token; determined when tokens are
/// unique.
pub open spec fn session_by_token(sessions: Seq<Session>, token: Seq<char>) -> Session {
    sessions[choose|i: int| 0 <= i < sessions.len() && (#[trigger] sessions[i]).token@ == token]
}

pub open spec fn has_room_id(rooms: Seq<Room>, id: u64) -> bool {
    exists|i: int| 0 <= i < rooms.len() && (#[trigger] rooms[i]).id == id
}

/// The stored room with the given id; determined when ids are unique.
pub open spec fn room_by_id(rooms: Seq<Room>, id: u64) -> Room {
    rooms[choose|i: int| 0 <= i < rooms.len() && (#[trigger] rooms[i]).id == id]
}

/// A persisted room membership for the pair.
pub open spec fn is_member(members: Seq<RoomMember>, room_id: u64, user_id: u64) -> bool {
    exists|i: int|
        0 <= i < members.len() && (#[trigger] members[i]).room_id == room_id && members[i].user_id
            == user_id
}

pub open spec fn has_msg_id(msgs: Seq<MessageView>, id: u64) -> bool {
    exists|i: int| 0 <= i < msgs.len() && (#[trigger] msgs[i]).id == id
}

/// The stored message with the given id; determined when ids are unique.
pub open spec fn msg_by_id(msgs: Seq<MessageView>, id: u64) -> MessageView {
    msgs[choose|i: int| 0 <= i < msgs.len() && (#[trigger] msgs[i]).id == id]
}

/// A persisted mention of the user by the message.
pub open spec fn has_mention(mentions: Seq<Mention>, message_id: u64, user_id: u64) -> bool {
    exists|i: int|
        0 <= i < mentions.len() && (#[trigger] mentions[i]).message_id == message_id
            && mentions[i].mentioned_user_id == user_id
}

/// The rooms a user belongs to, most recently joined first: memberships
/// are read newest-first, and one room is listed per membership of the
/// user whose room still exists.
pub open spec fn user_rooms_spec(members: Seq<RoomMember>, rooms: Seq<Room>, user_id: u64) -> Seq<
    Room,
>
    decreases members.len(),
{
    if members.len() == 0 {
        Seq::empty()
    } else {
        let m = members.last();
        let rest = user_rooms_spec(members.drop_last(), rooms, user_id);
        if m.user_id == user_id && has_room_id(rooms, m.room_id) {
            seq![room_by_id(rooms, m.room_id)] + rest
        } else {
            rest
        }
    }
}

/// A message as freshly persisted: unread, unedited, unpinned, with no
/// reactions.
pub open spec fn fresh_msg_view(
    id: u64,
    sender_id: u64,
    message_type: MessageType,
    room_id: Option<u64>,
    receiver_id: Option<u64>,
    content: Seq<char>,
    reply_to_message_id: Option<u64>,
    now: i64,
) -> MessageView {
    MessageView {
        id,
        sender_id,
        message_type,
        room_id,
        receiver_id,
        content,
        sent_at: now,
        read_at: None,
        is_read: false,
        is_edited: false,
        edited_at: None,
        reply_to_message_id,
        reactions: Seq::empty(),
        is_pinned: false,
        pinned_at: None,
        pinned_by: None,
    }
}

/// The message after an edit: new content, marked edited at the given
/// instant.
pub open spec fn edited_view(m: MessageView, content: Seq<char>, now: i64) -> MessageView {
    MessageView { content, is_edited: true, edited_at: Some(now), ..m }
}

/// The message after pinning: pinned by the user at the given instant.
pub open spec fn pinned_view(m: MessageView, user_id: u64, now: i64) -> MessageView {
    MessageView { is_pinned: true, pinned_at: Some(now), pinned_by: Some(user_id), ..m }
}

/// The message after unpinning: all three pin fields cleared.
pub open spec fn unpinned_view(m: MessageView) -> MessageView {
    MessageView { is_pinned: false, pinned_at: None, pinned_by: None, ..m }
}

/// The message after being read at the given instant.
pub open spec fn read_view(m: MessageView, now: i64) -> MessageView {
    MessageView { is_read: true, read_at: Some(now), ..m }
}

/// The mention after being read at the given instant.
pub open spec fn read_mention(m: Mention, now: i64) -> Mention {
    Mention { is_read: true, read_at: Some(now), ..m }
}

/// The message with its reaction list replaced.
pub open spec fn with_reactions(m: MessageView, rs: Seq<ReactionView>) -> MessageView {
    MessageView { reactions: rs, ..m }
}

/// The members of a room, in joining order: one user per membership of the
/// room whose user record still exists.
pub open spec fn room_members_spec(members: Seq<RoomMember>, users: Seq<User>, room_id: u64) -> Seq<
    User,
>
    decreases members.len(),
{
    if members.len() == 0 {
        Seq::empty()
    } else {
        let m = members[0];
        let rest = room_members_spec(members.drop_first(), users, room_id);
        if m.room_id == room_id && has_user_id(users, m.user_id) {
            seq![user_by_id(users, m.user_id)] + rest
        } else {
            rest
        }
    }
}

/// The users notified by an "@everyone" message: every member of the room
/// whose user record exists, except the sender, in joining order.
pub open spec fn everyone_ids(
    members: Seq<RoomMember>,
    users: Seq<User>,
    room_id: u64,
    sender_id: u64,
) -> Seq<u64>
    decreases members.len(),
{
    if members.len() == 0 {
        Seq::empty()
    } else {
        let m = members[0];
        let rest = everyone_ids(members.drop_first(), users, room_id, sender_id);
        if m.room_id == room_id && m.user_id != sender_id && has_user_id(users, m.user_id) {
            seq![m.user_id] + rest
        } else {
            rest
        }
    }
}

/// The users notified by "@name" tokens: each token resolved against the
/// usernames, unknown names ignored, the sender never included, each user
/// at most once, in token order.
pub open spec fn resolve_tokens(
    users: Seq<User>,
    tokens: Seq<Seq<char>>,
    sender_id: u64,
    acc: Seq<u64>,
) -> Seq<u64>
    decreases tokens.len(),
{
    if tokens.len() == 0 {
        acc
    } else {
        let t = tokens[0];
        let rest = tokens.drop_first();
        if has_username(users, t) && user_by_name(users, t).id != sender_id && !acc.contains(
            user_by_name(users, t).id,
        ) {
            resolve_tokens(users, rest, sender_id, acc.push(user_by_name(users, t).id))
        } else {
            resolve_tokens(users, rest, sender_id, acc)
        }
    }
}

/// Everyone a room message notifies: the whole room except the sender when
/// the content holds "@everyone", otherwise the users its "@name" tokens
/// resolve to.
pub open spec fn spec_mentioned_ids(
    members: Seq<RoomMember>,
    users: Seq<User>,
    content: Seq<char>,
    room_id: u64,
    sender_id: u64,
) -> Seq<u64> {
    if crate::text::everyone_mentioned(content) {
        everyone_ids(members, users, room_id, sender_id)
    } else {
        resolve_tokens(users, crate::text::mention_tokens(content), sender_id, Seq::empty())
    }
}

/// One page of a listing: up to `limit` entries starting at `offset`.
pub open spec fn page_views(s: Seq<MessageView>, limit: int, offset: int) -> Seq<MessageView> {
    if offset >= s.len() || offset < 0 || limit < 0 {
        Seq::empty()
    } else if offset + limit <= s.len() {
        s.subrange(offset, offset + limit)
    } else {
        s.subrange(offset, s.len() as int)
    }
}

/// A message shown in a room's feed: a room or server message of the room.
pub open spec fn in_room_feed(m: MessageView, room_id: u64) -> bool {
    (m.message_type is Room || m.message_type is Server) && m.room_id == Some(room_id)
}

/// A private message between the two users, in either direction.
pub open spec fn between_users(m: MessageView, user1_id: u64, user2_id: u64) -> bool {
    m.message_type is Private && ((m.sender_id == user1_id && m.receiver_id == Some(user2_id)) || (
    m.sender_id == user2_id && m.receiver_id == Some(user1_id)))
}

/// A private message in the receiver's inbox, optionally unread only.
pub open spec fn received_by(m: MessageView, receiver_id: u64, unread_only: bool) -> bool {
    m.message_type is Private && m.receiver_id == Some(receiver_id) && (!unread_only || !m.is_read)
}

/// A pinned message of the room.
pub open spec fn pinned_in_room(m: MessageView, room_id: u64) -> bool {
    m.room_id == Some(room_id) && m.is_pinned
}

/// The instant a message was pinned; zero when it never was.
pub open spec fn pin_time(m: MessageView) -> int {
    match m.pinned_at {
        Some(t) => t as int,
        None => 0,
    }
}

/// Most recently pinned first.
pub open spec fn sorted_by_pin_desc(s: Seq<MessageView>) -> bool {
    forall|i: int, j: int| 0 <= i <= j < s.len() ==> pin_time(s[i]) >= pin_time(s[j])
}

/// A room's feed: its room and server messages, newest first.
pub open spec fn room_feed(msgs: Seq<MessageView>, room_id: u64) -> Seq<MessageView>
    decreases msgs.len(),
{
    if msgs.len() == 0 {
        Seq::empty()
    } else {
        let rest = room_feed(msgs.drop_last(), room_id);
        if in_room_feed(msgs.last(), room_id) {
            seq![msgs.last()] + rest
        } else {
            rest
        }
    }
}

/// The private conversation between two users, newest first.
pub open spec fn conversation_feed(msgs: Seq<MessageView>, user1_id: u64, user2_id: u64) -> Seq<
    MessageView,
>
    decreases msgs.len(),
{
    if msgs.len() == 0 {
        Seq::empty()
    } else {
        let rest = conversation_feed(msgs.drop_last(), user1_id, user2_id);
        if between_users(msgs.last(), user1_id, user2_id) {
            seq![msgs.last()] + rest
        } else {
            rest
        }
    }
}

/// A user's private inbox, newest first, optionally unread only.
pub open spec fn inbox_feed(msgs: Seq<MessageView>, receiver_id: u64, unread_only: bool) -> Seq<
    MessageView,
>
    decreases msgs.len(),
{
    if msgs.len() == 0 {
        Seq::empty()
    } else {
        let rest = inbox_feed(msgs.drop_last(), receiver_id, unread_only);
        if received_by(msgs.last(), receiver_id, unread_only) {
            seq![msgs.last()] + rest
        } else {
            rest
        }
    }
}

/// The pinned messages of a room, newest first.
pub open spec fn pinned_feed(msgs: Seq<MessageView>, room_id: u64) -> Seq<MessageView>
    decreases msgs.len(),
{
    if msgs.len() == 0 {
        Seq::empty()
    } else {
        let rest = pinned_feed(msgs.drop_last(), room_id);
        if pinned_in_room(msgs.last(), room_id) {
            seq![msgs.last()] + rest
        } else {
            rest
        }
    }
}

/// The messages that mention a user, newest first.
pub open spec fn mention_feed(msgs: Seq<MessageView>, mentions: Seq<Mention>, user_id: u64) -> Seq<
    MessageView,
>
    decreases msgs.len(),
{
    if msgs.len() == 0 {
        Seq::empty()
    } else {
        let rest = mention_feed(msgs.drop_last(), mentions, user_id);
        if has_mention(mentions, msgs.last().id, user_id) {
            seq![msgs.last()] + rest
        } else {
            rest
        }
    }
}

/// A page of a newest-first listing is itself newest-first.
pub proof fn lemma_page_sorted(s: Seq<MessageView>, limit: int, offset: int)
    requires
        sorted_by_sent_desc(s),
    ensures
        sorted_by_sent_desc(page_views(s, limit, offset)),
{
    let p = page_views(s, limit, offset);
    assert forall|a: int, b: int| 0 <= a <= b < p.len() implies (#[trigger] p[a]).sent_at >= (
    #[trigger] p[b]).sent_at by {
        assert(p[a] == s[offset + a] && p[b] == s[offset + b]);
    }
}

/// A room's feed reads a time-sorted store newest first, out of the
/// store's own messages.
pub proof fn lemma_room_feed_sorted(msgs: Seq<MessageView>, room_id: u64)
    requires
        sorted_by_sent_asc(msgs),
    ensures
        sorted_by_sent_desc(room_feed(msgs, room_id)),
        forall|k: int|
            0 <= k < room_feed(msgs, room_id).len() ==> exists|j: int|
                0 <= j < msgs.len() && #[trigger] room_feed(msgs, room_id)[k] == #[trigger] msgs[j],
    decreases msgs.len(),
{
    if msgs.len() > 0 {
        let f = room_feed(msgs, room_id);
        let prev = msgs.drop_last();
        let rest = room_feed(prev, room_id);
        assert(sorted_by_sent_asc(prev)) by {
            assert(forall|a: int, b: int|
                0 <= a <= b < prev.len() ==> #[trigger] prev[a] == msgs[a] && #[trigger] prev[b]
                    == msgs[b]);
        }
        lemma_room_feed_sorted(prev, room_id);
        let hit = in_room_feed(msgs.last(), room_id);
        assert forall|k: int| 0 <= k < f.len() implies exists|j: int|
            0 <= j < msgs.len() && #[trigger] f[k] == #[trigger] msgs[j] by {
            if hit {
                if k == 0 {
                    assert(f[0] == msgs[msgs.len() - 1]);
                } else {
                    assert(f[k] == rest[k - 1]);
                    let j = choose|j: int| 0 <= j < prev.len() && rest[k - 1] == #[trigger] prev[j];
                    assert(f[k] == msgs[j]);
                }
            } else {
                assert(f[k] == rest[k]);
                let j = choose|j: int| 0 <= j < prev.len() && rest[k] == #[trigger] prev[j];
                assert(f[k] == msgs[j]);
            }
        }
        assert forall|a: int, b: int| 0 <= a <= b < f.len() implies (#[trigger] f[a]).sent_at >= (
        #[trigger] f[b]).sent_at by {
            if hit {
                if a == 0 {
                    if b > 0 {
                        assert(f[b] == rest[b - 1]);
                        let j = choose|j: int|
                            0 <= j < prev.len() && rest[b - 1] == #[trigger] prev[j];
                        assert(prev[j] == msgs[j]);
                        assert(msgs[j].sent_at <= msgs[msgs.len() - 1].sent_at);
                    }
                } else {
                    assert(f[a] == rest[a - 1] && f[b] == rest[b - 1]);
                }
            } else {
                assert(f[a] == rest[a] && f[b] == rest[b]);
            }
        }
    }
}

/// As lemma_room_feed_sorted, for a private conversation.
pub proof fn lemma_conversation_feed_sorted(msgs: Seq<MessageView>, user1_id: u64, user2_id: u64)
    requires
        sorted_by_sent_asc(msgs),
    ensures
        sorted_by_sent_desc(conversation_feed(msgs, user1_id, user2_id)),
        forall|k: int|
            0 <= k < conversation_feed(msgs, user1_id, user2_id).len() ==> exists|j: int|
                0 <= j < msgs.len() && #[trigger] conversation_feed(msgs, user1_id, user2_id)[k]
                    == #[trigger] msgs[j],
    decreases msgs.len(),
{
    if msgs.len() > 0 {
        let f = conversation_feed(msgs, user1_id, user2_id);
        let prev = msgs.drop_last();
        let rest = conversation_feed(prev, user1_id, user2_id);
        assert(sorted_by_sent_asc(prev)) by {
            assert(forall|a: int, b: int|
                0 <= a <= b < prev.len() ==> #[trigger] prev[a] == msgs[a] && #[trigger] prev[b]
                    == msgs[b]);
        }
        lemma_conversation_feed_sorted(prev, user1_id, user2_id);
        let hit = between_users(msgs.last(), user1_id, user2_id);
        assert forall|k: int| 0 <= k < f.len() implies exists|j: int|
            0 <= j < msgs.len() && #[trigger] f[k] == #[trigger] msgs[j] by {
            if hit {
                if k == 0 {
                    assert(f[0] == msgs[msgs.len() - 1]);
                } else {
                    assert(f[k] == rest[k - 1]);
                    let j = choose|j: int| 0 <= j < prev.len() && rest[k - 1] == #[trigger] prev[j];
                    assert(f[k] == msgs[j]);
                }
            } else {
                assert(f[k] == rest[k]);
                let j = choose|j: int| 0 <= j < prev.len() && rest[k] == #[trigger] prev[j];
                assert(f[k] == msgs[j]);
            }
        }
        assert forall|a: int, b: int| 0 <= a <= b < f.len() implies (#[trigger] f[a]).sent_at >= (
        #[trigger] f[b]).sent_at by {
            if hit {
                if a == 0 {
                    if b > 0 {
                        assert(f[b] == rest[b - 1]);
                        let j = choose|j: int|
                            0 <= j < prev.len() && rest[b - 1] == #[trigger] prev[j];
                        assert(prev[j] == msgs[j]);
                        assert(msgs[j].sent_at <= msgs[msgs.len() - 1].sent_at);
                    }
                } else {
                    assert(f[a] == rest[a - 1] && f[b] == rest[b - 1]);
                }
            } else {
                assert(f[a] == rest[a] && f[b] == rest[b]);
            }
        }
    }
}

/// As lemma_room_feed_sorted, for a private inbox.
pub proof fn lemma_inbox_feed_sorted(msgs: Seq<MessageView>, receiver_id: u64, unread_only: bool)
    requires
        sorted_by_sent_asc(msgs),
    ensures
        sorted_by_sent_desc(inbox_feed(msgs, receiver_id, unread_only)),
        forall|k: int|
            0 <= k < inbox_feed(msgs, receiver_id, unread_only).len() ==> exists|j: int|
                0 <= j < msgs.len() && #[trigger] inbox_feed(msgs, receiver_id, unread_only)[k]
                    == #[trigger] msgs[j],
    decreases msgs.len(),
{
    if msgs.len() > 0 {
        let f = inbox_feed(msgs, receiver_id, unread_only);
        let prev = msgs.drop_last();
        let rest = inbox_feed(prev, receiver_id, unread_only);
        assert(sorted_by_sent_asc(prev)) by {
            assert(forall|a: int, b: int|
                0 <= a <= b < prev.len() ==> #[trigger] prev[a] == msgs[a] && #[trigger] prev[b]
                    == msgs[b]);
        }
        lemma_inbox_feed_sorted(prev, receiver_id, unread_only);
        let hit = received_by(msgs.last(), receiver_id, unread_only);
        assert forall|k: int| 0 <= k < f.len() implies exists|j: int|
            0 <= j < msgs.len() && #[trigger] f[k] == #[trigger] msgs[j] by {
            if hit {
                if k == 0 {
                    assert(f[0] == msgs[msgs.len() - 1]);
                } else {
                    assert(f[k] == rest[k - 1]);
                    let j = choose|j: int| 0 <= j < prev.len() && rest[k - 1] == #[trigger] prev[j];
                    assert(f[k] == msgs[j]);
                }
            } else {
                assert(f[k] == rest[k]);
                let j = choose|j: int| 0 <= j < prev.len() && rest[k] == #[trigger] prev[j];
                assert(f[k] == msgs[j]);
            }
        }
        assert forall|a: int, b: int| 0 <= a <= b < f.len() implies (#[trigger] f[a]).sent_at >= (
        #[trigger] f[b]).sent_at by {
            if hit {
                if a == 0 {
                    if b > 0 {
                        assert(f[b] == rest[b - 1]);
                        let j = choose|j: int|
                            0 <= j < prev.len() && rest[b - 1] == #[trigger] prev[j];
                        assert(prev[j] == msgs[j]);
                        assert(msgs[j].sent_at <= msgs[msgs.len() - 1].sent_at);
                    }
                } else {
                    assert(f[a] == rest[a - 1] && f[b] == rest[b - 1]);
                }
            } else {
                assert(f[a] == rest[a] && f[b] == rest[b]);
            }
        }
    }
}

/// As lemma_room_feed_sorted, for the messages mentioning a user.
pub proof fn lemma_mention_feed_sorted(
    msgs: Seq<MessageView>,
    mentions: Seq<Mention>,
    user_id: u64,
)
    requires
        sorted_by_sent_asc(msgs),
    ensures
        sorted_by_sent_desc(mention_feed(msgs, mentions, user_id)),
        forall|k: int|
            0 <= k < mention_feed(msgs, mentions, user_id).len() ==> exists|j: int|
                0 <= j < msgs.len() && #[trigger] mention_feed(msgs, mentions, user_id)[k]
                    == #[trigger] msgs[j],
    decreases msgs.len(),
{
    if msgs.len() > 0 {
        let f = mention_feed(msgs, mentions, user_id);
        let prev = msgs.drop_last();
        let rest = mention_feed(prev, mentions, user_id);
        assert(sorted_by_sent_asc(prev)) by {
            assert(forall|a: int, b: int|
                0 <= a <= b < prev.len() ==> #[trigger] prev[a] == msgs[a] && #[trigger] prev[b]
                    == msgs[b]);
        }
        lemma_mention_feed_sorted(prev, mentions, user_id);
        let hit = has_mention(mentions, msgs.last().id, user_id);
        assert forall|k: int| 0 <= k < f.len() implies exists|j: int|
            0 <= j < msgs.len() && #[trigger] f[k] == #[trigger] msgs[j] by {
            if hit {
                if k == 0 {
                    assert(f[0] == msgs[msgs.len() - 1]);
                } else {
                    assert(f[k] == rest[k - 1]);
                    let j = choose|j: int| 0 <= j < prev.len() && rest[k - 1] == #[trigger] prev[j];
                    assert(f[k] == msgs[j]);
                }
            } else {
                assert(f[k] == rest[k]);
                let j = choose|j: int| 0 <= j < prev.len() && rest[k] == #[trigger] prev[j];
                assert(f[k] == msgs[j]);
            }
        }
        assert forall|a: int, b: int| 0 <= a <= b < f.len() implies (#[trigger] f[a]).sent_at >= (
        #[trigger] f[b]).sent_at by {
            if hit {
                if a == 0 {
                    if b > 0 {
                        assert(f[b] == rest[b - 1]);
                        let j = choose|j: int|
                            0 <= j < prev.len() && rest[b - 1] == #[trigger] prev[j];
                        assert(prev[j] == msgs[j]);
                        assert(msgs[j].sent_at <= msgs[msgs.len() - 1].sent_at);
                    }
                } else {
                    assert(f[a] == rest[a - 1] && f[b] == rest[b - 1]);
                }
            } else {
                assert(f[a] == rest[a] && f[b] == rest[b]);
            }
        }
    }
}

/// The mention refers to a message of the room.
pub open spec fn mention_in_room(mn: Mention, msgs: Seq<MessageView>, room_id: u64) -> bool {
    has_msg_id(msgs, mn.message_id) && msg_by_id(msgs, mn.message_id).room_id == Some(room_id)
}

/// A mention swept by marking a room's mentions read: the user's unread
/// mentions on the room's messages.
pub open spec fn room_mention_read_target(
    mn: Mention,
    user_id: u64,
    msgs: Seq<MessageView>,
    room_id: u64,
) -> bool {
    mn.mentioned_user_id == user_id && !mn.is_read && mention_in_room(mn, msgs, room_id)
}

/// A message swept by marking a private conversation read: unread, sent by
/// the one user to the other.
pub open spec fn conv_read_target(m: MessageView, receiver_id: u64, sender_id: u64) -> bool {
    m.message_type is Private && m.receiver_id == Some(receiver_id) && m.sender_id == sender_id
        && !m.is_read
}

/// The users mentioned by a message, in recording order.
pub open spec fn mention_ids_of(mentions: Seq<Mention>, message_id: u64) -> Seq<u64>
    decreases mentions.len(),
{
    if mentions.len() == 0 {
        Seq::empty()
    } else {
        let rest = mention_ids_of(mentions.drop_first(), message_id);
        if mentions[0].message_id == message_id {
            seq![mentions[0].mentioned_user_id] + rest
        } else {
            rest
        }
    }
}

/// How many unread mentions a user has.
pub open spec fn unread_mentions_count(mentions: Seq<Mention>, user_id: u64) -> int
    decreases mentions.len(),
{
    if mentions.len() == 0 {
        0
    } else {
        unread_mentions_count(mentions.drop_last(), user_id) + if mentions.last().mentioned_user_id
            == user_id && !mentions.last().is_read {
            1int
        } else {
            0int
        }
    }
}

/// How many unread private messages a user has received.
pub open spec fn unread_private_count(msgs: Seq<MessageView>, user_id: u64) -> int
    decreases msgs.len(),
{
    if msgs.len() == 0 {
        0
    } else {
        unread_private_count(msgs.drop_last(), user_id) + if received_by(msgs.last(), user_id, true) {
            1int
        } else {
            0int
        }
    }
}

/// The joining instants behind a user's room listing, aligned with
/// user_rooms_spec entry for entry.
pub open spec fn user_room_times(members: Seq<RoomMember>, rooms: Seq<Room>, user_id: u64) -> Seq<
    i64,
>
    decreases members.len(),
{
    if members.len() == 0 {
        Seq::empty()
    } else {
        let m = members.last();
        let rest = user_room_times(members.drop_last(), rooms, user_id);
        if m.user_id == user_id && has_room_id(rooms, m.room_id) {
            seq![m.joined_at] + rest
        } else {
            rest
        }
    }
}

/// Over a membership list sorted by joining time, a user's room listing
/// runs most recently joined first.
pub proof fn lemma_user_rooms_newest_first(
    members: Seq<RoomMember>,
    rooms: Seq<Room>,
    user_id: u64,
)
    requires
        forall|i: int, j: int|
            0 <= i <= j < members.len() ==> (#[trigger] members[i]).joined_at <= (
            #[trigger] members[j]).joined_at,
    ensures
        user_room_times(members, rooms, user_id).len() == user_rooms_spec(
            members,
            rooms,
            user_id,
        ).len(),
        forall|a: int, b: int|
            0 <= a <= b < user_room_times(members, rooms, user_id).len()
                ==> #[trigger] user_room_times(members, rooms, user_id)[a]
                >= #[trigger] user_room_times(members, rooms, user_id)[b],
        forall|k: int|
            0 <= k < user_room_times(members, rooms, user_id).len() ==> exists|j: int|
                0 <= j < members.len() && #[trigger] user_room_times(members, rooms, user_id)[k]
                    == (#[trigger] members[j]).joined_at,
    decreases members.len(),
{
    if members.len() > 0 {
        let t = user_room_times(members, rooms, user_id);
        let prev = members.drop_last();
        let rest = user_room_times(prev, rooms, user_id);
        assert(forall|i: int, j: int|
            0 <= i <= j < prev.len() ==> (#[trigger] prev[i]).joined_at <= (
            #[trigger] prev[j]).joined_at) by {
            assert(forall|i: int| 0 <= i < prev.len() ==> #[trigger] prev[i] == members[i]);
        }
        lemma_user_rooms_newest_first(prev, rooms, user_id);
        let m = members.last();
        let hit = m.user_id == user_id && has_room_id(rooms, m.room_id);
        assert forall|k: int| 0 <= k < t.len() implies exists|j: int|
            0 <= j < members.len() && #[trigger] t[k] == (#[trigger] members[j]).joined_at by {
            if hit {
                if k == 0 {
                    assert(t[0] == members[members.len() - 1].joined_at);
                } else {
                    assert(t[k] == rest[k - 1]);
                    let j = choose|j: int|
                        0 <= j < prev.len() && rest[k - 1] == (#[trigger] prev[j]).joined_at;
                    assert(t[k] == members[j].joined_at);
                }
            } else {
                assert(t[k] == rest[k]);
                let j = choose|j: int|
                    0 <= j < prev.len() && rest[k] == (#[trigger] prev[j]).joined_at;
                assert(t[k] == members[j].joined_at);
            }
        }
        assert forall|a: int, b: int| 0 <= a <= b < t.len() implies #[trigger] t[a]
            >= #[trigger] t[b] by {
            if hit {
                if a == 0 {
                    if b > 0 {
                        assert(t[b] == rest[b - 1]);
                        let j = choose|j: int|
                            0 <= j < prev.len() && rest[b - 1] == (#[trigger] prev[j]).joined_at;
                        assert(prev[j] == members[j]);
                        assert(members[j].joined_at <= members[members.len() - 1].joined_at);
                    }
                } else {
                    assert(t[a] == rest[a - 1] && t[b] == rest[b - 1]);
                }
            } else {
                assert(t[a] == rest[a] && t[b] == rest[b]);
            }
        }
    }
}

/// Exactly one of room_id/receiver_id is set, matching the message type;
/// pin fields are set or cleared together.
pub open spec fn msg_shape_ok(m: MessageView) -> bool {
    &&& match m.message_type {
        MessageType::Room => m.room_id is Some && m.receiver_id is None,
        MessageType::Server => m.room_id is Some && m.receiver_id is None,
        MessageType::Private => m.receiver_id is Some && m.room_id is None,
    }
    &&& m.is_pinned ==> m.pinned_at is Some && m.pinned_by is Some
    &&& !m.is_pinned ==> m.pinned_at is None && m.pinned_by is None
}

/// Oldest first: the order rows were persisted in.
pub open spec fn sorted_by_sent_asc(s: Seq<MessageView>) -> bool {
    forall|i: int, j: int| 0 <= i <= j < s.len() ==> s[i].sent_at <= s[j].sent_at
}

/// Newest first: how listings are served.
pub open spec fn sorted_by_sent_desc(s: Seq<MessageView>) -> bool {
    forall|i: int, j: int| 0 <= i <= j < s.len() ==> s[i].sent_at >= s[j].sent_at
}

/// Timestamps respect insertion order: messages, memberships and rooms are
/// each sorted by their creation instant, and none lies past the last
/// instant the store wrote.
pub open spec fn times_wf(
    msgs: Seq<MessageView>,
    members: Seq<RoomMember>,
    rooms: Seq<Room>,
    last_ts: i64,
) -> bool {
    &&& sorted_by_sent_asc(msgs)
    &&& forall|k: int| 0 <= k < msgs.len() ==> (#[trigger] msgs[k]).sent_at <= last_ts
    &&& forall|i: int, j: int|
        0 <= i <= j < members.len() ==> (#[trigger] members[i]).joined_at <= (
        #[trigger] members[j]).joined_at
    &&& forall|k: int| 0 <= k < members.len() ==> (#[trigger] members[k]).joined_at <= last_ts
    &&& forall|i: int, j: int|
        0 <= i <= j < rooms.len() ==> (#[trigger] rooms[i]).created_at <= (
        #[trigger] rooms[j]).created_at
    &&& forall|k: int| 0 <= k < rooms.len() ==> (#[trigger] rooms[k]).created_at <= last_ts
}

pub open spec fn users_wf(users: Seq<User>, next_id: u64) -> bool {
    &&& forall|i: int| 0 <= i < users.len() ==> (#[trigger] users[i]).id < next_id
    &&& forall|i: int, j: int|
        0 <= i < j < users.len() ==> (#[trigger] users[i]).id != (#[trigger] users[j]).id
    &&& forall|i: int, j: int|
        0 <= i < j < users.len() ==> (#[trigger] users[i]).username@ != (
        #[trigger] users[j]).username@
    &&& forall|i: int, j: int|
        0 <= i < j < users.len() ==> (#[trigger] users[i]).email@ != (#[trigger] users[j]).email@
}

pub open spec fn sessions_wf(sessions: Seq<Session>, next_id: u64) -> bool {
    &&& forall|i: int| 0 <= i < sessions.len() ==> (#[trigger] sessions[i]).id < next_id
    &&& forall|i: int, j: int|
        0 <= i < j < sessions.len() ==> (#[trigger] sessions[i]).token@ != (
        #[trigger] sessions[j]).token@
}

pub open spec fn rooms_wf(rooms: Seq<Room>, next_id: u64) -> bool {
    &&& forall|i: int| 0 <= i < rooms.len() ==> (#[trigger] rooms[i]).id < next_id
    &&& forall|i: int, j: int|
        0 <= i < j < rooms.len() ==> (#[trigger] rooms[i]).id != (#[trigger] rooms[j]).id
}

pub open spec fn members_wf(members: Seq<RoomMember>) -> bool {
    forall|i: int, j: int|
        0 <= i < j < members.len() ==> ((#[trigger] members[i]).room_id != (
        #[trigger] members[j]).room_id || members[i].user_id != members[j].user_id)
}

pub open spec fn messages_wf(msgs: Seq<MessageView>, next_id: u64) -> bool {
    &&& forall|i: int| 0 <= i < msgs.len() ==> (#[trigger] msgs[i]).id < next_id
    &&& forall|i: int, j: int|
        0 <= i < j < msgs.len() ==> (#[trigger] msgs[i]).id != (#[trigger] msgs[j]).id
    &&& forall|i: int| 0 <= i < msgs.len() ==> msg_shape_ok(#[trigger] msgs[i])
    &&& forall|i: int| 0 <= i < msgs.len() ==> wf_reactions((#[trigger] msgs[i]).reactions)
}

pub open spec fn mentions_wf(mentions: Seq<Mention>, next_id: u64) -> bool {
    &&& forall|i: int| 0 <= i < mentions.len() ==> (#[trigger] mentions[i]).id < next_id
    &&& forall|i: int| 0 <= i < mentions.len() ==> (#[trigger] mentions[i]).message_id < next_id
    &&& forall|i: int, j: int|
        0 <= i < j < mentions.len() ==> (#[trigger] mentions[i]).id != (#[trigger] mentions[j]).id
    &&& forall|i: int, j: int|
        0 <= i < j < mentions.len() ==> ((#[trigger] mentions[i]).message_id != (
        #[trigger] mentions[j]).message_id || mentions[i].mentioned_user_id
            != mentions[j].mentioned_user_id)
}

/// Replacing one message by another with the same id, a sound shape and
/// well-formed reactions keeps the message list well-formed.
pub proof fn lemma_messages_wf_update(
    pre: Seq<MessageView>,
    fin: Seq<MessageView>,
    i: int,
    next_id: u64,
)
    requires
        messages_wf(pre, next_id),
        0 <= i < pre.len(),
        fin.len() == pre.len(),
        forall|k: int| 0 <= k < pre.len() && k != i ==> fin[k] == pre[k],
        fin[i].id == pre[i].id,
        msg_shape_ok(fin[i]),
        wf_reactions(fin[i].reactions),
    ensures
        messages_wf(fin, next_id),
{
    assert forall|a: int| 0 <= a < fin.len() implies (#[trigger] fin[a]).id < next_id by {
        assert(fin[a].id == pre[a].id);
    }
    assert forall|a: int, b: int| 0 <= a < b < fin.len() implies (#[trigger] fin[a]).id != (
    #[trigger] fin[b]).id by {
        assert(fin[a].id == pre[a].id && fin[b].id == pre[b].id);
    }
    assert forall|a: int| 0 <= a < fin.len() implies msg_shape_ok(#[trigger] fin[a]) by {
        if a != i {
            assert(fin[a] == pre[a]);
        }
    }
    assert forall|a: int| 0 <= a < fin.len() implies wf_reactions((#[trigger] fin[a]).reactions) by {
        if a != i {
            assert(fin[a] == pre[a]);
        }
    }
}

impl Database {
    /// The store's invariant: ids are unique and below the allocation
    /// counter, usernames, emails and tokens are unique, membership and
    /// mention pairs are unique, and every message is well-shaped.
    pub open spec fn wf(&self) -> bool {
        &&& users_wf(self.users@, self.next_id)
        &&& sessions_wf(self.sessions@, self.next_id)
        &&& rooms_wf(self.rooms@, self.next_id)
        &&& members_wf(self.members@)
        &&& messages_wf(msg_views(self.messages@), self.next_id)
        &&& mentions_wf(self.mentions@, self.next_id)
        &&& times_wf(msg_views(self.messages@), self.members@, self.rooms@, self.last_ts)
    }

    /// How many fresh ids the store can still hand out.
    pub open spec fn can_alloc(&self, n: int) -> bool {
        self.next_id + n <= u64::MAX
    }

    /// Whether the store can still hand out the given number of fresh ids.
    pub fn has_capacity(&self, n: u64) -> (r: bool)
        ensures
            r == self.can_alloc(n as int),
    {
        self.next_id <= u64::MAX - n
    }

    /// An empty store.
    pub fn new() -> (db: Database)
        ensures
            db.wf(),
            db.users@ =~= Seq::<User>::empty(),
            db.sessions@ =~= Seq::<Session>::empty(),
            db.rooms@ =~= Seq::<Room>::empty(),
            db.members@ =~= Seq::<RoomMember>::empty(),
            db.messages@ =~= Seq::<Message>::empty(),
            db.mentions@ =~= Seq::<Mention>::empty(),
            db.next_id == 1,
            db.last_ts == i64::MIN,
    {
        Database {
            users: Vec::new(),
            sessions: Vec::new(),
            rooms: Vec::new(),
            members: Vec::new(),
            messages: Vec::new(),
            mentions: Vec::new(),
            next_id: 1,
            last_ts: i64::MIN,
        }
    }

    /// An empty store; the name echoes opening a throwaway database.
    pub fn in_memory() -> (db: Database)
        ensures
            db.wf(),
            db.users@ =~= Seq::<User>::empty(),
            db.sessions@ =~= Seq::<Session>::empty(),
            db.rooms@ =~= Seq::<Room>::empty(),
            db.members@ =~= Seq::<RoomMember>::empty(),
            db.messages@ =~= Seq::<Message>::empty(),
            db.mentions@ =~= Seq::<Mention>::empty(),
            db.next_id == 1,
            db.last_ts == i64::MIN,
    {
        Database::new()
    }

    fn user_index_by_id(&self, user_id: u64) -> (r: Option<usize>)
        ensures
            match r {
                Some(i) => i < self.users@.len() && self.users@[i as int].id == user_id,
                None => !has_user_id(self.users@, user_id),
            },
    {
        let mut i: usize = 0;
        while i < self.users.len()
            invariant
                i <= self.users@.len(),
                forall|k: int| 0 <= k < i ==> (#[trigger] self.users@[k]).id != user_id,
            decreases self.users@.len() - i,
        {
            if self.users[i].id == user_id {
                return Some(i);
            }
            i = i + 1;
        }
        None
    }

    fn user_index_by_name(&self, username: &str) -> (r: Option<usize>)
        ensures
            match r {
                Some(i) => i < self.users@.len() && self.users@[i as int].username@ == username@,
                None => !has_username(self.users@, username@),
            },
    {
        let mut i: usize = 0;
        while i < self.users.len()
            invariant
                i <= self.users@.len(),
                forall|k: int| 0 <= k < i ==> (#[trigger] self.users@[k]).username@ != username@,
            decreases self.users@.len() - i,
        {
            if str_eq(self.users[i].username.as_str(), username) {
                return Some(i);
            }
            i = i + 1;
        }
        None
    }

    fn user_index_by_email(&self, email: &str) -> (r: Option<usize>)
        ensures
            match r {
                Some(i) => i < self.users@.len() && self.users@[i as int].email@ == email@,
                None => !has_email(self.users@, email@),
            },
    {
        let mut i: usize = 0;
        while i < self.users.len()
            invariant
                i <= self.users@.len(),
                forall|k: int| 0 <= k < i ==> (#[trigger] self.users@[k]).email@ != email@,
            decreases self.users@.len() - i,
        {
            if str_eq(self.users[i].email.as_str(), email) {
                return Some(i);
            }
            i = i + 1;
        }
        None
    }

    /// Creates a user with a fresh id, Offline presence and no status.
    /// Fails with UserExists when the username or the email is taken.
    pub fn create_user(&mut self, username: &str, email: &str, password_hash: &str, now: i64) -> (r:
        Result<User, AuthError>)
        requires
            old(self).wf(),
            old(self).can_alloc(1),
        ensures
            final(self).wf(),
            final(self).sessions == old(self).sessions,
            final(self).rooms == old(self).rooms,
            final(self).members == old(self).members,
            final(self).messages == old(self).messages,
            final(self).mentions == old(self).mentions,
            match r {
                Ok(u) => {
                    &&& !has_username(old(self).users@, username@)
                    &&& !has_email(old(self).users@, email@)
                    &&& u.id == old(self).next_id
                    &&& u.username@ == username@
                    &&& u.email@ == email@
                    &&& u.password_hash@ == password_hash@
                    &&& u.created_at == now
                    &&& u.last_login is None
                    &&& u.presence == Presence::Offline
                    &&& u.status is None
                    &&& final(self).users@ == old(self).users@.push(u)
                    &&& final(self).next_id == old(self).next_id + 1
                },
                Err(e) => {
                    &&& e == AuthError::UserExists
                    &&& (has_username(old(self).users@, username@) || has_email(
                        old(self).users@,
                        email@,
                    ))
                    &&& *final(self) == *old(self)
                },
            },
    {
        if self.user_index_by_name(username).is_some() {
            return Err(AuthError::UserExists);
        }
        if self.user_index_by_email(email).is_some() {
            return Err(AuthError::UserExists);
        }
        let u = User {
            id: self.next_id,
            username: username.to_owned(),
            email: email.to_owned(),
            password_hash: password_hash.to_owned(),
            created_at: now,
            last_login: None,
            presence: Presence::Offline,
            status: None,
        };
        let r = u.duplicate();
        self.users.push(u);
        self.next_id = self.next_id + 1;
        Ok(r)
    }

    /// Looks a user up by name; None when the name is unknown.
    pub fn get_user_by_username(&self, username: &str) -> (r: Option<User>)
        ensures
            match r {
                Some(u) => exists|i: int|
                    0 <= i < self.users@.len() && #[trigger] self.users@[i] == u && u.username@
                        == username@,
                None => !has_username(self.users@, username@),
            },
    {
        match self.user_index_by_name(username) {
            Some(i) => Some(self.users[i].duplicate()),
            None => None,
        }
    }

    /// Looks a user up by id; None when the id is unknown.
    pub fn get_user_by_id(&self, user_id: u64) -> (r: Option<User>)
        ensures
            match r {
                Some(u) => exists|i: int|
                    0 <= i < self.users@.len() && #[trigger] self.users@[i] == u && u.id == user_id,
                None => !has_user_id(self.users@, user_id),
            },
    {
        match self.user_index_by_id(user_id) {
            Some(i) => Some(self.users[i].duplicate()),
            None => None,
        }
    }

    /// Stamps the user's last login; a no-op when the id is unknown.
    pub fn update_last_login(&mut self, user_id: u64, now: i64)
        requires
            old(self).wf(),
        ensures
            final(self).wf(),
            final(self).sessions == old(self).sessions,
            final(self).rooms == old(self).rooms,
            final(self).members == old(self).members,
            final(self).messages == old(self).messages,
            final(self).mentions == old(self).mentions,
            final(self).next_id == old(self).next_id,
            final(self).last_ts == old(self).last_ts,
            !has_user_id(old(self).users@, user_id) ==> *final(self) == *old(self),
            has_user_id(old(self).users@, user_id) ==> exists|i: int|
                {
                    &&& 0 <= i < old(self).users@.len()
                    &&& (#[trigger] old(self).users@[i]).id == user_id
                    &&& final(self).users@ == old(self).users@.update(
                        i,
                        User { last_login: Some(now), ..old(self).users@[i] },
                    )
                },
    {
        match self.user_index_by_id(user_id) {
            Some(i) => {
                let ghost pre = self.users@;
                let mut u = self.users.remove(i);
                u.last_login = Some(now);
                self.users.insert(i, u);
                proof {
                    assert(final(self).users@ =~= pre.update(
                        i as int,
                        User { last_login: Some(now), ..pre[i as int] },
                    ));
                    assert forall|a: int, b: int|
                        0 <= a < b < self.users@.len() implies (#[trigger] self.users@[a]).id != (
                    #[trigger] self.users@[b]).id by {
                        assert(pre[a].id == self.users@[a].id && pre[b].id == self.users@[b].id);
                    }
                    assert forall|a: int, b: int|
                        0 <= a < b < self.users@.len() implies (
                    #[trigger] self.users@[a]).username@ != (
                    #[trigger] self.users@[b]).username@ by {
                        assert(pre[a].username == self.users@[a].username && pre[b].username
                            == self.users@[b].username);
                    }
                    assert forall|a: int, b: int|
                        0 <= a < b < self.users@.len() implies (#[trigger] self.users@[a]).email@
                        != (#[trigger] self.users@[b]).email@ by {
                        assert(pre[a].email == self.users@[a].email && pre[b].email
                            == self.users@[b].email);
                    }
                    assert(forall|a: int|
                        0 <= a < self.users@.len() ==> (#[trigger] self.users@[a]).id == pre[a].id);
                }
            },
            None => {},
        }
    }

    /// Sets the user's presence; a no-op when the id is unknown.
    pub fn update_user_presence(&mut self, user_id: u64, presence: Presence)
        requires
            old(self).wf(),
        ensures
            final(self).wf(),
            final(self).sessions == old(self).sessions,
            final(self).rooms == old(self).rooms,
            final(self).members == old(self).members,
            final(self).messages == old(self).messages,
            final(self).mentions == old(self).mentions,
            final(self).next_id == old(self).next_id,
            final(self).last_ts == old(self).last_ts,
            !has_user_id(old(self).users@, user_id) ==> *final(self) == *old(self),
            has_user_id(old(self).users@, user_id) ==> exists|i: int|
                {
                    &&& 0 <= i < old(self).users@.len()
                    &&& (#[trigger] old(self).users@[i]).id == user_id
                    &&& final(self).users@ == old(self).users@.update(
                        i,
                        User { presence, ..old(self).users@[i] },
                    )
                },
    {
        match self.user_index_by_id(user_id) {
            Some(i) => {
                let ghost pre = self.users@;
                let mut u = self.users.remove(i);
                u.presence = presence;
                self.users.insert(i, u);
                proof {
                    assert(final(self).users@ =~= pre.update(
                        i as int,
                        User { presence, ..pre[i as int] },
                    ));
                    assert forall|a: int, b: int|
                        0 <= a < b < self.users@.len() implies (#[trigger] self.users@[a]).id != (
                    #[trigger] self.users@[b]).id && self.users@[a].username@
                        != self.users@[b].username@ && self.users@[a].email@
                        != self.users@[b].email@ by {
                        assert(pre[a].id == self.users@[a].id && pre[b].id == self.users@[b].id);
                        assert(pre[a].username == self.users@[a].username && pre[b].username
                            == self.users@[b].username);
                        assert(pre[a].email == self.users@[a].email && pre[b].email
                            == self.users@[b].email);
                    }
                    assert(forall|a: int|
                        0 <= a < self.users@.len() ==> (#[trigger] self.users@[a]).id == pre[a].id);
                }
            },
            None => {},
        }
    }

    /// Sets or clears the user's status text; a no-op when the id is
    /// unknown.
    pub fn update_user_status(&mut self, user_id: u64, status: Option<&str>)
        requires
            old(self).wf(),
        ensures
            final(self).wf(),
            final(self).sessions == old(self).sessions,
            final(self).rooms == old(self).rooms,
            final(self).members == old(self).members,
            final(self).messages == old(self).messages,
            final(self).mentions == old(self).mentions,
            final(self).next_id == old(self).next_id,
            final(self).last_ts == old(self).last_ts,
            !has_user_id(old(self).users@, user_id) ==> *final(self) == *old(self),
            has_user_id(old(self).users@, user_id) ==> exists|i: int|
                {
                    &&& 0 <= i < old(self).users@.len()
                    &&& (#[trigger] old(self).users@[i]).id == user_id
                    &&& final(self).users@.len() == old(self).users@.len()
                    &&& (forall|k: int|
                        0 <= k < old(self).users@.len() && k != i ==> final(self).users@[k] == (
                        #[trigger] old(self).users@[k]))
                    &&& final(self).users@[i].id == old(self).users@[i].id
                    &&& final(self).users@[i].username == old(self).users@[i].username
                    &&& final(self).users@[i].email == old(self).users@[i].email
                    &&& final(self).users@[i].password_hash == old(self).users@[i].password_hash
                    &&& final(self).users@[i].created_at == old(self).users@[i].created_at
                    &&& final(self).users@[i].last_login == old(self).users@[i].last_login
                    &&& final(self).users@[i].presence == old(self).users@[i].presence
                    &&& match status {
                        Some(s) => (final(self).users@[i].status matches Some(ss) && ss@ == s@),
                        None => final(self).users@[i].status is None,
                    }
                },
    {
        match self.user_index_by_id(user_id) {
            Some(i) => {
                let ghost pre = self.users@;
                let mut u = self.users.remove(i);
                u.status = match status {
                    Some(s) => Some(s.to_owned()),
                    None => None,
                };
                self.users.insert(i, u);
                proof {
                    assert(forall|k: int|
                        0 <= k < self.users@.len() && k != i ==> self.users@[k] == #[trigger] pre[k]);
                    assert forall|a: int, b: int|
                        0 <= a < b < self.users@.len() implies (#[trigger] self.users@[a]).id != (
                    #[trigger] self.users@[b]).id && self.users@[a].username@
                        != self.users@[b].username@ && self.users@[a].email@
                        != self.users@[b].email@ by {
                        assert(pre[a].id == self.users@[a].id && pre[b].id == self.users@[b].id);
                        assert(pre[a].username == self.users@[a].username && pre[b].username
                            == self.users@[b].username);
                        assert(pre[a].email == self.users@[a].email && pre[b].email
                            == self.users@[b].email);
                    }
                    assert(forall|a: int|
                        0 <= a < self.users@.len() ==> (#[trigger] self.users@[a]).id == pre[a].id);
                }
            },
            None => {},
        }
    }

    fn session_index_by_token(&self, token: &str) -> (r: Option<usize>)
        ensures
            match r {
                Some(i) => i < self.sessions@.len() && self.sessions@[i as int].token@ == token@,
                None => !has_token(self.sessions@, token@),
            },
    {
        let mut i: usize = 0;
        while i < self.sessions.len()
            invariant
                i <= self.sessions@.len(),
                forall|k: int| 0 <= k < i ==> (#[trigger] self.sessions@[k]).token@ != token@,
            decreases self.sessions@.len() - i,
        {
            if str_eq(self.sessions[i].token.as_str(), token) {
                return Some(i);
            }
            i = i + 1;
        }
        None
    }

    /// Deletes the session with the token; a no-op when the token is
    /// unknown. Idempotent.
    pub fn delete_session(&mut self, token: &str)
        requires
            old(self).wf(),
        ensures
            final(self).wf(),
            final(self).users == old(self).users,
            final(self).rooms == old(self).rooms,
            final(self).members == old(self).members,
            final(self).messages == old(self).messages,
            final(self).mentions == old(self).mentions,
            final(self).next_id == old(self).next_id,
            final(self).last_ts == old(self).last_ts,
            !has_token(old(self).sessions@, token@) ==> *final(self) == *old(self),
            has_token(old(self).sessions@, token@) ==> exists|i: int|
                {
                    &&& 0 <= i < old(self).sessions@.len()
                    &&& (#[trigger] old(self).sessions@[i]).token@ == token@
                    &&& final(self).sessions@ == old(self).sessions@.remove(i)
                },
            !has_token(final(self).sessions@, token@),
    {
        let ghost pre = self.sessions@;
        match self.session_index_by_token(token) {
            Some(i) => {
                self.sessions.remove(i);
                proof {
                    assert forall|k: int|
                        0 <= k < self.sessions@.len() implies (#[trigger] self.sessions@[k]).token@
                        != token@ by {
                        if k < i {
                            assert(self.sessions@[k] == pre[k]);
                        } else {
                            assert(self.sessions@[k] == pre[k + 1]);
                        }
                    }
                    assert forall|a: int, b: int|
                        0 <= a < b < self.sessions@.len() implies (
                    #[trigger] self.sessions@[a]).token@ != (#[trigger] self.sessions@[b]).token@
                        && self.sessions@[a].id < self.next_id by {
                        let pa = if a < i {
                            a
                        } else {
                            a + 1
                        };
                        let pb = if b < i {
                            b
                        } else {
                            b + 1
                        };
                        assert(self.sessions@[a] == pre[pa] && self.sessions@[b] == pre[pb]);
                    }
                    assert forall|a: int|
                        0 <= a < self.sessions@.len() implies (#[trigger] self.sessions@[a]).id
                        < self.next_id by {
                        let pa = if a < i {
                            a
                        } else {
                            a + 1
                        };
                        assert(self.sessions@[a] == pre[pa]);
                    }
                }
            },
            None => {},
        }
    }

    /// Creates a session with a fresh id for the user. Any older session
    /// under the same token is replaced, so the token stays unique.
    pub fn create_session(&mut self, user_id: u64, token: &str, expires_at: i64, now: i64) -> (r:
        Session)
        requires
            old(self).wf(),
            old(self).can_alloc(1),
        ensures
            final(self).wf(),
            final(self).users == old(self).users,
            final(self).rooms == old(self).rooms,
            final(self).members == old(self).members,
            final(self).messages == old(self).messages,
            final(self).mentions == old(self).mentions,
            final(self).next_id == old(self).next_id + 1,
            r.user_id == user_id,
            r.token@ == token@,
            r.created_at == now,
            r.expires_at == expires_at,
            r.id == old(self).next_id,
            final(self).sessions@.last() == r,
            has_token(final(self).sessions@, token@),
            session_by_token(final(self).sessions@, token@) == r,
            !has_token(old(self).sessions@, token@) ==> final(self).sessions@ == old(
                self,
            ).sessions@.push(r),
    {
        self.delete_session(token);
        let ghost mid = self.sessions@;
        let s = Session {
            id: self.next_id,
            user_id,
            token: token.to_owned(),
            created_at: now,
            expires_at,
        };
        let r = s.duplicate();
        self.sessions.push(s);
        self.next_id = self.next_id + 1;
        proof {
            let fin = self.sessions@;
            assert(fin == mid.push(r));
            assert(forall|k: int| 0 <= k < mid.len() ==> fin[k] == #[trigger] mid[k]);
            assert(fin.last() == r);
            assert(fin[fin.len() - 1].token@ == token@);
            assert(session_by_token(fin, token@) == r) by {
                let w = choose|w: int| 0 <= w < fin.len() && (#[trigger] fin[w]).token@ == token@;
                if w < fin.len() - 1 {
                    assert(mid[w].token@ == token@);
                    assert(has_token(mid, token@));
                }
            }
            assert(sessions_wf(fin, self.next_id)) by {
                assert forall|a: int, b: int|
                    0 <= a < b < fin.len() implies (#[trigger] fin[a]).token@ != (
                #[trigger] fin[b]).token@ by {
                    if b == fin.len() - 1 {
                        assert(fin[a] == mid[a]);
                        assert(!has_token(mid, token@));
                    } else {
                        assert(fin[a] == mid[a] && fin[b] == mid[b]);
                    }
                }
                assert forall|a: int| 0 <= a < fin.len() implies (#[trigger] fin[a]).id
                    < self.next_id by {
                    if a < fin.len() - 1 {
                        assert(fin[a] == mid[a]);
                    }
                }
            }
        }
        r
    }

    fn room_index_by_id(&self, room_id: u64) -> (r: Option<usize>)
        ensures
            match r {
                Some(i) => i < self.rooms@.len() && self.rooms@[i as int].id == room_id,
                None => !has_room_id(self.rooms@, room_id),
            },
    {
        let mut i: usize = 0;
        while i < self.rooms.len()
            invariant
                i <= self.rooms@.len(),
                forall|k: int| 0 <= k < i ==> (#[trigger] self.rooms@[k]).id != room_id,
            decreases self.rooms@.len() - i,
        {
            if self.rooms[i].id == room_id {
                return Some(i);
            }
            i = i + 1;
        }
        None
    }

    /// Looks a room up by id; None when the id is unknown.
    pub fn get_room_by_id(&self, room_id: u64) -> (r: Option<Room>)
        requires
            self.wf(),
        ensures
            match r {
                Some(room) => has_room_id(self.rooms@, room_id) && room == room_by_id(
                    self.rooms@,
                    room_id,
                ) && room.id == room_id,
                None => !has_room_id(self.rooms@, room_id),
            },
    {
        match self.room_index_by_id(room_id) {
            Some(i) => {
                let room = self.rooms[i].duplicate();
                proof {
                    let w = choose|w: int|
                        0 <= w < self.rooms@.len() && (#[trigger] self.rooms@[w]).id == room_id;
                    if w != i {
                        assert(rooms_wf(self.rooms@, self.next_id));
                    }
                }
                Some(room)
            },
            None => None,
        }
    }

    /// Every room, most recently created first.
    pub fn get_all_rooms(&self) -> (r: Vec<Room>)
        requires
            self.wf(),
        ensures
            r@.len() == self.rooms@.len(),
            forall|k: int|
                0 <= k < r@.len() ==> #[trigger] r@[k] == self.rooms@[self.rooms@.len() - 1 - k],
            forall|a: int, b: int|
                0 <= a <= b < r@.len() ==> (#[trigger] r@[a]).created_at >= (
                #[trigger] r@[b]).created_at,
    {
        let mut r: Vec<Room> = Vec::new();
        let mut i: usize = self.rooms.len();
        while i > 0
            invariant
                i <= self.rooms@.len(),
                r@.len() == self.rooms@.len() - i,
                forall|k: int|
                    0 <= k < r@.len() ==> #[trigger] r@[k] == self.rooms@[self.rooms@.len() - 1
                        - k],
            decreases i,
        {
            i = i - 1;
            r.push(self.rooms[i].duplicate());
        }
        r
    }

    /// Adds the user to the room; joining twice is a no-op.
    pub fn add_user_to_room(&mut self, room_id: u64, user_id: u64, now: i64)
        requires
            old(self).wf(),
            now >= old(self).last_ts,
        ensures
            final(self).wf(),
            final(self).users == old(self).users,
            final(self).sessions == old(self).sessions,
            final(self).rooms == old(self).rooms,
            final(self).messages == old(self).messages,
            final(self).mentions == old(self).mentions,
            final(self).next_id == old(self).next_id,
            old(self).last_ts <= final(self).last_ts <= now,
            is_member(old(self).members@, room_id, user_id) ==> *final(self) == *old(self),
            !is_member(old(self).members@, room_id, user_id) ==> final(self).members@ == old(
                self,
            ).members@.push(RoomMember { room_id, user_id, joined_at: now }),
            is_member(final(self).members@, room_id, user_id),
    {
        if self.is_user_in_room(room_id, user_id) {
            return;
        }
        let ghost pre = self.members@;
        self.members.push(RoomMember { room_id, user_id, joined_at: now });
        self.last_ts = now;
        proof {
            assert(self.members@.last().room_id == room_id && self.members@.last().user_id
                == user_id);
            assert(is_member(self.members@, room_id, user_id));
            assert forall|a: int, b: int|
                0 <= a < b < self.members@.len() implies ((#[trigger] self.members@[a]).room_id != (
            #[trigger] self.members@[b]).room_id || self.members@[a].user_id
                != self.members@[b].user_id) by {
                if b < self.members@.len() - 1 {
                    assert(self.members@[a] == pre[a] && self.members@[b] == pre[b]);
                } else {
                    assert(self.members@[a] == pre[a]);
                    assert(!is_member(pre, room_id, user_id));
                }
            }
            assert forall|a: int, b: int|
                0 <= a <= b < self.members@.len() implies (#[trigger] self.members@[a]).joined_at
                <= (#[trigger] self.members@[b]).joined_at by {
                if b < self.members@.len() - 1 {
                    assert(self.members@[a] == pre[a] && self.members@[b] == pre[b]);
                } else if a < self.members@.len() - 1 {
                    assert(self.members@[a] == pre[a]);
                }
            }
            assert forall|a: int|
                0 <= a < self.members@.len() implies (#[trigger] self.members@[a]).joined_at
                <= self.last_ts by {
                if a < self.members@.len() - 1 {
                    assert(self.members@[a] == pre[a]);
                }
            }
        }
    }

    /// Takes the user out of the room; a no-op when no membership exists.
    pub fn remove_user_from_room(&mut self, room_id: u64, user_id: u64)
        requires
            old(self).wf(),
        ensures
            final(self).wf(),
            final(self).users == old(self).users,
            final(self).sessions == old(self).sessions,
            final(self).rooms == old(self).rooms,
            final(self).messages == old(self).messages,
            final(self).mentions == old(self).mentions,
            final(self).next_id == old(self).next_id,
            final(self).last_ts == old(self).last_ts,
            !is_member(old(self).members@, room_id, user_id) ==> *final(self) == *old(self),
            is_member(old(self).members@, room_id, user_id) ==> exists|i: int|
                {
                    &&& 0 <= i < old(self).members@.len()
                    &&& (#[trigger] old(self).members@[i]).room_id == room_id
                    &&& old(self).members@[i].user_id == user_id
                    &&& final(self).members@ == old(self).members@.remove(i)
                },
            !is_member(final(self).members@, room_id, user_id),
    {
        let ghost pre = self.members@;
        let mut i: usize = 0;
        while i < self.members.len()
            invariant
                i <= self.members@.len(),
                *self == *old(self),
                pre == old(self).members@,
                old(self).wf(),
                forall|k: int|
                    0 <= k < i ==> ((#[trigger] pre[k]).room_id != room_id || pre[k].user_id
                        != user_id),
            decreases self.members@.len() - i,
        {
            if self.members[i].room_id == room_id && self.members[i].user_id == user_id {
                self.members.remove(i);
                proof {
                    assert forall|k: int|
                        0 <= k < self.members@.len() implies ((#[trigger] self.members@[k]).room_id
                        != room_id || self.members@[k].user_id != user_id) by {
                        if k < i {
                            assert(self.members@[k] == pre[k]);
                        } else {
                            assert(self.members@[k] == pre[k + 1]);
                            assert(members_wf(pre));
                        }
                    }
                    assert forall|a: int, b: int|
                        0 <= a < b < self.members@.len() implies ((
                    #[trigger] self.members@[a]).room_id != (#[trigger] self.members@[b]).room_id
                        || self.members@[a].user_id != self.members@[b].user_id) by {
                        let pa = if a < i {
                            a
                        } else {
                            a + 1
                        };
                        let pb = if b < i {
                            b
                        } else {
                            b + 1
                        };
                        assert(self.members@[a] == pre[pa] && self.members@[b] == pre[pb]);
                        assert(members_wf(pre));
                    }
                }
                return;
            }
            i = i + 1;
        }
    }

    /// Whether the user has a persisted membership in the room.
    pub fn is_user_in_room(&self, room_id: u64, user_id: u64) -> (r: bool)
        ensures
            r == is_member(self.members@, room_id, user_id),
    {
        let mut i: usize = 0;
        while i < self.members.len()
            invariant
                i <= self.members@.len(),
                forall|k: int|
                    0 <= k < i ==> ((#[trigger] self.members@[k]).room_id != room_id
                        || self.members@[k].user_id != user_id),
            decreases self.members@.len() - i,
        {
            if self.members[i].room_id == room_id && self.members[i].user_id == user_id {
                return true;
            }
            i = i + 1;
        }
        false
    }

    /// Creates a room with a fresh id and joins the creator to it.
    pub fn create_room(&mut self, name: &str, desc: &str, created_by: u64, now: i64) -> (r: Room)
        requires
            old(self).wf(),
            old(self).can_alloc(1),
            now >= old(self).last_ts,
        ensures
            final(self).wf(),
            final(self).users == old(self).users,
            final(self).sessions == old(self).sessions,
            final(self).messages == old(self).messages,
            final(self).mentions == old(self).mentions,
            final(self).next_id == old(self).next_id + 1,
            final(self).last_ts == now,
            r.id == old(self).next_id,
            r.name@ == name@,
            r.desc@ == desc@,
            r.created_by == created_by,
            r.created_at == now,
            final(self).rooms@ == old(self).rooms@.push(r),
            is_member(final(self).members@, r.id, created_by),
            !is_member(old(self).members@, r.id, created_by) ==> final(self).members@ == old(
                self,
            ).members@.push(RoomMember { room_id: r.id, user_id: created_by, joined_at: now }),
            is_member(old(self).members@, r.id, created_by) ==> final(self).members == old(
                self,
            ).members,
    {
        let room = Room {
            id: self.next_id,
            name: name.to_owned(),
            desc: desc.to_owned(),
            created_by,
            created_at: now,
        };
        let r = room.duplicate();
        let ghost pre_rooms = self.rooms@;
        self.rooms.push(room);
        self.next_id = self.next_id + 1;
        self.last_ts = now;
        proof {
            assert forall|a: int, b: int|
                0 <= a < b < self.rooms@.len() implies (#[trigger] self.rooms@[a]).id != (
            #[trigger] self.rooms@[b]).id by {
                if b < self.rooms@.len() - 1 {
                    assert(self.rooms@[a] == pre_rooms[a] && self.rooms@[b] == pre_rooms[b]);
                } else {
                    assert(self.rooms@[a] == pre_rooms[a]);
                }
            }
            assert forall|a: int| 0 <= a < self.rooms@.len() implies (#[trigger] self.rooms@[a]).id
                < self.next_id by {
                if a < self.rooms@.len() - 1 {
                    assert(self.rooms@[a] == pre_rooms[a]);
                }
            }
            assert forall|a: int, b: int|
                0 <= a <= b < self.rooms@.len() implies (#[trigger] self.rooms@[a]).created_at <= (
            #[trigger] self.rooms@[b]).created_at by {
                if b < self.rooms@.len() - 1 {
                    assert(self.rooms@[a] == pre_rooms[a] && self.rooms@[b] == pre_rooms[b]);
                } else if a < self.rooms@.len() - 1 {
                    assert(self.rooms@[a] == pre_rooms[a]);
                }
            }
            assert forall|a: int|
                0 <= a < self.rooms@.len() implies (#[trigger] self.rooms@[a]).created_at
                <= self.last_ts by {
                if a < self.rooms@.len() - 1 {
                    assert(self.rooms@[a] == pre_rooms[a]);
                }
            }
        }
        self.add_user_to_room(r.id, created_by, now);
        r
    }

    /// The room ids the user belongs to, paired with their rooms, most
    /// recently joined first. Memberships whose room is gone are skipped.
    pub fn get_user_rooms(&self, user_id: u64) -> (r: Vec<Room>)
        requires
            self.wf(),
        ensures
            r@ == user_rooms_spec(self.members@, self.rooms@, user_id),
            r@.len() == user_room_times(self.members@, self.rooms@, user_id).len(),
            forall|a: int, b: int|
                0 <= a <= b < r@.len() ==> #[trigger] user_room_times(
                    self.members@,
                    self.rooms@,
                    user_id,
                )[a] >= #[trigger] user_room_times(self.members@, self.rooms@, user_id)[b],
    {
        proof {
            lemma_user_rooms_newest_first(self.members@, self.rooms@, user_id);
        }
        let ghost all = user_rooms_spec(self.members@, self.rooms@, user_id);
        proof {
            assert(self.members@.take(self.members@.len() as int) =~= self.members@);
        }
        let mut r: Vec<Room> = Vec::new();
        let mut i: usize = self.members.len();
        while i > 0
            invariant
                self.wf(),
                i <= self.members@.len(),
                all == user_rooms_spec(self.members@, self.rooms@, user_id),
                all == r@ + user_rooms_spec(
                    self.members@.take(i as int),
                    self.rooms@,
                    user_id,
                ),
            decreases i,
        {
            i = i - 1;
            proof {
                assert(self.members@.take(i as int + 1).drop_last() =~= self.members@.take(
                    i as int,
                ));
                assert(self.members@.take(i as int + 1).last() == self.members@[i as int]);
            }
            let m_room = self.members[i].room_id;
            if self.members[i].user_id == user_id {
                match self.get_room_by_id(m_room) {
                    Some(room) => {
                        let ghost pre = r@;
                        r.push(room);
                        proof {
                            assert(r@ =~= pre.push(room));
                            assert(pre.push(room) + user_rooms_spec(
                                self.members@.take(i as int),
                                self.rooms@,
                                user_id,
                            ) =~= pre + (seq![room] + user_rooms_spec(
                                self.members@.take(i as int),
                                self.rooms@,
                                user_id,
                            )));
                        }
                    },
                    None => {},
                }
            }
        }
        proof {
            assert(self.members@.take(0) =~= Seq::<RoomMember>::empty());
            assert(r@ + user_rooms_spec(Seq::<RoomMember>::empty(), self.rooms@, user_id) =~= r@);
        }
        r
    }

    /// Looks a session up by token; None when the token is unknown.
    pub fn get_session_by_token(&self, token: &str) -> (r: Option<Session>)
        ensures
            match r {
                Some(s) => exists|i: int|
                    0 <= i < self.sessions@.len() && #[trigger] self.sessions@[i] == s && s.token@
                        == token@,
                None => !has_token(self.sessions@, token@),
            },
    {
        match self.session_index_by_token(token) {
            Some(i) => Some(self.sessions[i].duplicate()),
            None => None,
        }
    }

    /// Deletes every session that expired before the given instant.
    pub fn delete_expired_sessions(&mut self, now: i64)
        requires
            old(self).wf(),
        ensures
            final(self).wf(),
            final(self).users == old(self).users,
            final(self).rooms == old(self).rooms,
            final(self).members == old(self).members,
            final(self).messages == old(self).messages,
            final(self).mentions == old(self).mentions,
            final(self).next_id == old(self).next_id,
            final(self).last_ts == old(self).last_ts,
            forall|k: int|
                0 <= k < final(self).sessions@.len() ==> (
                #[trigger] final(self).sessions@[k]).expires_at >= now,
            forall|j: int|
                0 <= j < old(self).sessions@.len() && (#[trigger] old(self).sessions@[j]).expires_at
                    >= now ==> final(self).sessions@.contains(old(self).sessions@[j]),
            forall|k: int|
                0 <= k < final(self).sessions@.len() ==> old(self).sessions@.contains(
                    #[trigger] final(self).sessions@[k],
                ),
    {
        let ghost pre = self.sessions@;
        let mut kept: Vec<Session> = Vec::new();
        let mut i: usize = 0;
        while i < self.sessions.len()
            invariant
                i <= self.sessions@.len(),
                self.sessions@ == pre,
                sessions_wf(pre, self.next_id),
                forall|k: int| 0 <= k < kept@.len() ==> (#[trigger] kept@[k]).expires_at >= now,
                forall|k: int|
                    0 <= k < kept@.len() ==> exists|j: int|
                        0 <= j < i && #[trigger] kept@[k] == pre[j],
                forall|j: int|
                    0 <= j < i && (#[trigger] pre[j]).expires_at >= now ==> kept@.contains(pre[j]),
                forall|a: int, b: int|
                    0 <= a < b < kept@.len() ==> (#[trigger] kept@[a]).token@ != (
                    #[trigger] kept@[b]).token@,
                forall|k: int| 0 <= k < kept@.len() ==> (#[trigger] kept@[k]).id < self.next_id,
            decreases self.sessions@.len() - i,
        {
            if self.sessions[i].expires_at >= now {
                let ghost prev = kept@;
                kept.push(self.sessions[i].duplicate());
                proof {
                    assert(kept@[kept@.len() - 1] == pre[i as int]);
                    assert(forall|k: int| 0 <= k < prev.len() ==> kept@[k] == #[trigger] prev[k]);
                    assert forall|a: int, b: int|
                        0 <= a < b < kept@.len() implies (#[trigger] kept@[a]).token@ != (
                    #[trigger] kept@[b]).token@ by {
                        if b == kept@.len() - 1 {
                            let j = choose|j: int| 0 <= j < i && #[trigger] prev[a] == pre[j];
                            assert(pre[j].token@ != pre[i as int].token@);
                        }
                    }
                }
            }
            i = i + 1;
        }
        self.sessions = kept;
    }

    fn msg_index_by_id(&self, message_id: u64) -> (r: Option<usize>)
        ensures
            match r {
                Some(i) => i < self.messages@.len() && self.messages@[i as int]@.id == message_id
                    && msg_views(self.messages@)[i as int].id == message_id,
                None => !has_msg_id(msg_views(self.messages@), message_id),
            },
    {
        let mut i: usize = 0;
        while i < self.messages.len()
            invariant
                i <= self.messages@.len(),
                forall|k: int| 0 <= k < i ==> (#[trigger] self.messages@[k]@).id != message_id,
            decreases self.messages@.len() - i,
        {
            if self.messages[i].id == message_id {
                return Some(i);
            }
            i = i + 1;
        }
        proof {
            assert forall|k: int| 0 <= k < msg_views(self.messages@).len() implies (
            #[trigger] msg_views(self.messages@)[k]).id != message_id by {
                assert(msg_views(self.messages@)[k] == self.messages@[k]@);
            }
        }
        None
    }

    /// Looks a message up by id; None when the id is unknown.
    pub fn get_message_by_id(&self, message_id: u64) -> (r: Option<Message>)
        requires
            self.wf(),
        ensures
            match r {
                Some(m) => has_msg_id(msg_views(self.messages@), message_id) && m@ == msg_by_id(
                    msg_views(self.messages@),
                    message_id,
                ) && m@.id == message_id,
                None => !has_msg_id(msg_views(self.messages@), message_id),
            },
    {
        match self.msg_index_by_id(message_id) {
            Some(i) => {
                let m = self.messages[i].duplicate();
                proof {
                    let vs = msg_views(self.messages@);
                    assert(vs[i as int] == self.messages@[i as int]@);
                    let w = choose|w: int| 0 <= w < vs.len() && (#[trigger] vs[w]).id == message_id;
                    if w != i {
                        assert(messages_wf(vs, self.next_id));
                    }
                }
                Some(m)
            },
            None => None,
        }
    }

    /// Persists a fresh room message with the given content and optional
    /// reply reference.
    pub fn create_room_message(
        &mut self,
        sender_id: u64,
        room_id: u64,
        content: &str,
        reply_to_message_id: Option<u64>,
        now: i64,
    ) -> (r: Message)
        requires
            old(self).wf(),
            old(self).can_alloc(1),
            now >= old(self).last_ts,
        ensures
            final(self).wf(),
            final(self).users == old(self).users,
            final(self).sessions == old(self).sessions,
            final(self).rooms == old(self).rooms,
            final(self).members == old(self).members,
            final(self).mentions == old(self).mentions,
            final(self).next_id == old(self).next_id + 1,
            final(self).last_ts == now,
            r@ == fresh_msg_view(
                old(self).next_id,
                sender_id,
                MessageType::Room,
                Some(room_id),
                None,
                content@,
                reply_to_message_id,
                now,
            ),
            msg_views(final(self).messages@) == msg_views(old(self).messages@).push(r@),
    {
        let m = Message {
            id: self.next_id,
            sender_id,
            message_type: MessageType::Room,
            room_id: Some(room_id),
            receiver_id: None,
            content: content.to_owned(),
            sent_at: now,
            read_at: None,
            is_read: false,
            is_edited: false,
            edited_at: None,
            reply_to_message_id,
            reactions: Vec::new(),
            is_pinned: false,
            pinned_at: None,
            pinned_by: None,
        };
        let r = m.duplicate();
        let ghost pre = self.messages@;
        self.messages.push(m);
        self.next_id = self.next_id + 1;
        self.last_ts = now;
        proof {
            crate::messages::lemma_msg_views_push(pre, final(self).messages@.last());
            assert(r@.reactions =~= Seq::<crate::messages::ReactionView>::empty());
            assert(msg_views(self.messages@) =~= msg_views(pre).push(r@));
            self.lemma_wf_after_push_msg(pre, r@, old(self).last_ts);
        }
        r
    }

    /// Persists a fresh private message to the receiver.
    pub fn create_private_message(&mut self, sender_id: u64, receiver_id: u64, content: &str, now:
        i64) -> (r: Message)
        requires
            old(self).wf(),
            old(self).can_alloc(1),
            now >= old(self).last_ts,
        ensures
            final(self).wf(),
            final(self).users == old(self).users,
            final(self).sessions == old(self).sessions,
            final(self).rooms == old(self).rooms,
            final(self).members == old(self).members,
            final(self).mentions == old(self).mentions,
            final(self).next_id == old(self).next_id + 1,
            final(self).last_ts == now,
            r@ == fresh_msg_view(
                old(self).next_id,
                sender_id,
                MessageType::Private,
                None,
                Some(receiver_id),
                content@,
                None,
                now,
            ),
            msg_views(final(self).messages@) == msg_views(old(self).messages@).push(r@),
    {
        let m = Message {
            id: self.next_id,
            sender_id,
            message_type: MessageType::Private,
            room_id: None,
            receiver_id: Some(receiver_id),
            content: content.to_owned(),
            sent_at: now,
            read_at: None,
            is_read: false,
            is_edited: false,
            edited_at: None,
            reply_to_message_id: None,
            reactions: Vec::new(),
            is_pinned: false,
            pinned_at: None,
            pinned_by: None,
        };
        let r = m.duplicate();
        let ghost pre = self.messages@;
        self.messages.push(m);
        self.next_id = self.next_id + 1;
        self.last_ts = now;
        proof {
            crate::messages::lemma_msg_views_push(pre, final(self).messages@.last());
            assert(r@.reactions =~= Seq::<crate::messages::ReactionView>::empty());
            assert(msg_views(self.messages@) =~= msg_views(pre).push(r@));
            self.lemma_wf_after_push_msg(pre, r@, old(self).last_ts);
        }
        r
    }

    /// Persists a fresh server announcement inside the room.
    pub fn room_announcement(&mut self, room_id: u64, content: &str, sender_id: u64, now: i64) -> (r:
        Message)
        requires
            old(self).wf(),
            old(self).can_alloc(1),
            now >= old(self).last_ts,
        ensures
            final(self).wf(),
            final(self).users == old(self).users,
            final(self).sessions == old(self).sessions,
            final(self).rooms == old(self).rooms,
            final(self).members == old(self).members,
            final(self).mentions == old(self).mentions,
            final(self).next_id == old(self).next_id + 1,
            final(self).last_ts == now,
            r@ == fresh_msg_view(
                old(self).next_id,
                sender_id,
                MessageType::Server,
                Some(room_id),
                None,
                content@,
                None,
                now,
            ),
            msg_views(final(self).messages@) == msg_views(old(self).messages@).push(r@),
    {
        let m = Message {
            id: self.next_id,
            sender_id,
            message_type: MessageType::Server,
            room_id: Some(room_id),
            receiver_id: None,
            content: content.to_owned(),
            sent_at: now,
            read_at: None,
            is_read: false,
            is_edited: false,
            edited_at: None,
            reply_to_message_id: None,
            reactions: Vec::new(),
            is_pinned: false,
            pinned_at: None,
            pinned_by: None,
        };
        let r = m.duplicate();
        let ghost pre = self.messages@;
        self.messages.push(m);
        self.next_id = self.next_id + 1;
        self.last_ts = now;
        proof {
            crate::messages::lemma_msg_views_push(pre, final(self).messages@.last());
            assert(r@.reactions =~= Seq::<crate::messages::ReactionView>::empty());
            assert(msg_views(self.messages@) =~= msg_views(pre).push(r@));
            self.lemma_wf_after_push_msg(pre, r@, old(self).last_ts);
        }
        r
    }

    /// After pushing one fresh, well-shaped message under the old counter
    /// and bumping the counter by one, the store is well-formed again.
    proof fn lemma_wf_after_push_msg(&self, pre: Seq<Message>, v: MessageView, old_last: i64)
        requires
            users_wf(self.users@, (self.next_id - 1) as u64),
            sessions_wf(self.sessions@, (self.next_id - 1) as u64),
            rooms_wf(self.rooms@, (self.next_id - 1) as u64),
            members_wf(self.members@),
            messages_wf(msg_views(pre), (self.next_id - 1) as u64),
            mentions_wf(self.mentions@, (self.next_id - 1) as u64),
            times_wf(msg_views(pre), self.members@, self.rooms@, old_last),
            self.next_id >= 1,
            msg_views(self.messages@) == msg_views(pre).push(v),
            v.id == self.next_id - 1,
            msg_shape_ok(v),
            wf_reactions(v.reactions),
            v.sent_at == self.last_ts,
            old_last <= self.last_ts,
        ensures
            self.wf(),
    {
        let fin = msg_views(self.messages@);
        let n = msg_views(pre).len();
        assert(forall|k: int| 0 <= k < n ==> fin[k] == #[trigger] msg_views(pre)[k]);
        assert(fin[n as int] == v);
        assert forall|a: int, b: int| 0 <= a < b < fin.len() implies (#[trigger] fin[a]).id != (
        #[trigger] fin[b]).id by {
            if b < n {
                assert(fin[a] == msg_views(pre)[a] && fin[b] == msg_views(pre)[b]);
            } else {
                assert(fin[a] == msg_views(pre)[a]);
            }
        }
        assert forall|a: int| 0 <= a < fin.len() implies (#[trigger] fin[a]).id < self.next_id by {
            if a < n {
                assert(fin[a] == msg_views(pre)[a]);
            }
        }
        assert forall|a: int| 0 <= a < fin.len() implies msg_shape_ok(#[trigger] fin[a])
            && wf_reactions(fin[a].reactions) by {
            if a < n {
                assert(fin[a] == msg_views(pre)[a]);
            }
        }
        assert forall|a: int, b: int| 0 <= a <= b < fin.len() implies (#[trigger] fin[a]).sent_at
            <= (#[trigger] fin[b]).sent_at by {
            if b < n {
                assert(fin[a] == msg_views(pre)[a] && fin[b] == msg_views(pre)[b]);
            } else if a < n {
                assert(fin[a] == msg_views(pre)[a]);
            }
        }
        assert forall|a: int| 0 <= a < fin.len() implies (#[trigger] fin[a]).sent_at
            <= self.last_ts by {
            if a < n {
                assert(fin[a] == msg_views(pre)[a]);
            }
        }
    }

    /// Rewrites the message's content and marks it edited; a no-op when the
    /// id is unknown.
    pub fn edit_message(&mut self, message_id: u64, content: &str, now: i64)
        requires
            old(self).wf(),
        ensures
            final(self).wf(),
            final(self).users == old(self).users,
            final(self).sessions == old(self).sessions,
            final(self).rooms == old(self).rooms,
            final(self).members == old(self).members,
            final(self).mentions == old(self).mentions,
            final(self).next_id == old(self).next_id,
            final(self).last_ts == old(self).last_ts,
            !has_msg_id(msg_views(old(self).messages@), message_id) ==> *final(self) == *old(self),
            has_msg_id(msg_views(old(self).messages@), message_id) ==> exists|i: int|
                {
                    &&& 0 <= i < old(self).messages@.len()
                    &&& (#[trigger] msg_views(old(self).messages@)[i]).id == message_id
                    &&& msg_views(final(self).messages@) == msg_views(
                        old(self).messages@,
                    ).update(i, edited_view(msg_views(old(self).messages@)[i], content@, now))
                },
    {
        match self.msg_index_by_id(message_id) {
            Some(i) => {
                let ghost pre = self.messages@;
                let mut m = self.messages.remove(i);
                m.content = content.to_owned();
                m.is_edited = true;
                m.edited_at = Some(now);
                self.messages.insert(i, m);
                proof {
                    self.lemma_msg_update(pre, i as int, edited_view(pre[i as int]@, content@, now));
                }
            },
            None => {},
        }
    }

    /// After replacing the message at one index by a patched value with the
    /// same id, shape and reactions content, the store is well-formed and
    /// the message views are the pointwise update.
    proof fn lemma_msg_update(&self, pre: Seq<Message>, i: int, v: MessageView)
        requires
            users_wf(self.users@, self.next_id),
            sessions_wf(self.sessions@, self.next_id),
            rooms_wf(self.rooms@, self.next_id),
            members_wf(self.members@),
            messages_wf(msg_views(pre), self.next_id),
            mentions_wf(self.mentions@, self.next_id),
            times_wf(msg_views(pre), self.members@, self.rooms@, self.last_ts),
            0 <= i < pre.len(),
            self.messages@.len() == pre.len(),
            forall|k: int| 0 <= k < pre.len() && k != i ==> self.messages@[k] == #[trigger] pre[k],
            self.messages@[i]@ == v,
            v.id == pre[i]@.id,
            v.sent_at == pre[i]@.sent_at,
            msg_shape_ok(v),
            wf_reactions(v.reactions),
        ensures
            self.wf(),
            msg_views(self.messages@) == msg_views(pre).update(i, v),
    {
        assert(msg_views(self.messages@) =~= msg_views(pre).update(i, v)) by {
            assert(forall|k: int|
                0 <= k < pre.len() ==> #[trigger] msg_views(self.messages@)[k]
                    == self.messages@[k]@);
        }
        lemma_messages_wf_update(msg_views(pre), msg_views(self.messages@), i, self.next_id);
        let fin = msg_views(self.messages@);
        assert forall|a: int, b: int| 0 <= a <= b < fin.len() implies (#[trigger] fin[a]).sent_at
            <= (#[trigger] fin[b]).sent_at by {
            assert(fin[a].sent_at == msg_views(pre)[a].sent_at && fin[b].sent_at == msg_views(
                pre,
            )[b].sent_at);
        }
        assert forall|a: int| 0 <= a < fin.len() implies (#[trigger] fin[a]).sent_at
            <= self.last_ts by {
            assert(fin[a].sent_at == msg_views(pre)[a].sent_at);
        }
    }

    /// Deletes the message only when the requester is its sender; a silent
    /// no-op otherwise.
    pub fn delete_message(&mut self, message_id: u64, user1_id: u64)
        requires
            old(self).wf(),
        ensures
            final(self).wf(),
            final(self).users == old(self).users,
            final(self).sessions == old(self).sessions,
            final(self).rooms == old(self).rooms,
            final(self).members == old(self).members,
            final(self).mentions == old(self).mentions,
            final(self).next_id == old(self).next_id,
            final(self).last_ts == old(self).last_ts,
            (!has_msg_id(msg_views(old(self).messages@), message_id) || msg_by_id(
                msg_views(old(self).messages@),
                message_id,
            ).sender_id != user1_id) ==> *final(self) == *old(self),
            (has_msg_id(msg_views(old(self).messages@), message_id) && msg_by_id(
                msg_views(old(self).messages@),
                message_id,
            ).sender_id == user1_id) ==> exists|i: int|
                {
                    &&& 0 <= i < old(self).messages@.len()
                    &&& (#[trigger] msg_views(old(self).messages@)[i]).id == message_id
                    &&& msg_views(final(self).messages@) == msg_views(old(self).messages@).remove(i)
                },
    {
        match self.msg_index_by_id(message_id) {
            Some(i) => {
                proof {
                    let vs = msg_views(self.messages@);
                    assert(vs[i as int] == self.messages@[i as int]@);
                    let w = choose|w: int| 0 <= w < vs.len() && (#[trigger] vs[w]).id == message_id;
                    if w != i {
                        assert(messages_wf(vs, self.next_id));
                    }
                    assert(msg_by_id(vs, message_id) == vs[i as int]);
                }
                if self.messages[i].sender_id == user1_id {
                    let ghost pre = self.messages@;
                    self.messages.remove(i);
                    proof {
                        assert(msg_views(self.messages@) =~= msg_views(pre).remove(i as int)) by {
                            assert(forall|k: int|
                                0 <= k < self.messages@.len() ==> #[trigger] msg_views(
                                    self.messages@,
                                )[k] == self.messages@[k]@);
                            assert(forall|k: int|
                                0 <= k < i ==> self.messages@[k] == #[trigger] pre[k]);
                            assert(forall|k: int|
                                i <= k < self.messages@.len() ==> self.messages@[k] == #[trigger] pre[k
                                    + 1]);
                        }
                        let fin = msg_views(self.messages@);
                        let vs = msg_views(pre);
                        assert forall|k: int| 0 <= k < fin.len() implies (#[trigger] fin[k]).id
                            != message_id by {
                            if k < i {
                                assert(fin[k] == vs[k]);
                            } else {
                                assert(fin[k] == vs[k + 1]);
                            }
                        }
                        assert forall|a: int, b: int|
                            0 <= a < b < fin.len() implies (#[trigger] fin[a]).id != (
                        #[trigger] fin[b]).id by {
                            let pa = if a < i {
                                a
                            } else {
                                a + 1
                            };
                            let pb = if b < i {
                                b
                            } else {
                                b + 1
                            };
                            assert(fin[a] == vs[pa] && fin[b] == vs[pb]);
                        }
                        assert forall|a: int|
                            0 <= a < fin.len() implies (#[trigger] fin[a]).id < self.next_id
                            && msg_shape_ok(fin[a]) && wf_reactions(fin[a].reactions) by {
                            let pa = if a < i {
                                a
                            } else {
                                a + 1
                            };
                            assert(fin[a] == vs[pa]);
                        }
                        assert forall|a: int, b: int|
                            0 <= a <= b < fin.len() implies (#[trigger] fin[a]).sent_at <= (
                        #[trigger] fin[b]).sent_at by {
                            let pa = if a < i {
                                a
                            } else {
                                a + 1
                            };
                            let pb = if b < i {
                                b
                            } else {
                                b + 1
                            };
                            assert(fin[a] == vs[pa] && fin[b] == vs[pb]);
                        }
                        assert forall|a: int|
                            0 <= a < fin.len() implies (#[trigger] fin[a]).sent_at
                            <= self.last_ts by {
                            let pa = if a < i {
                                a
                            } else {
                                a + 1
                            };
                            assert(fin[a] == vs[pa]);
                        }
                    }
                }
            },
            None => {},
        }
    }

    /// Pins the message for the user at the given instant; a no-op when the
    /// id is unknown.
    pub fn pin_message(&mut self, message_id: u64, user_id: u64, now: i64)
        requires
            old(self).wf(),
        ensures
            final(self).wf(),
            final(self).users == old(self).users,
            final(self).sessions == old(self).sessions,
            final(self).rooms == old(self).rooms,
            final(self).members == old(self).members,
            final(self).mentions == old(self).mentions,
            final(self).next_id == old(self).next_id,
            final(self).last_ts == old(self).last_ts,
            !has_msg_id(msg_views(old(self).messages@), message_id) ==> *final(self) == *old(self),
            has_msg_id(msg_views(old(self).messages@), message_id) ==> exists|i: int|
                {
                    &&& 0 <= i < old(self).messages@.len()
                    &&& (#[trigger] msg_views(old(self).messages@)[i]).id == message_id
                    &&& msg_views(final(self).messages@) == msg_views(
                        old(self).messages@,
                    ).update(i, pinned_view(msg_views(old(self).messages@)[i], user_id, now))
                },
    {
        match self.msg_index_by_id(message_id) {
            Some(i) => {
                let ghost pre = self.messages@;
                let mut m = self.messages.remove(i);
                m.is_pinned = true;
                m.pinned_at = Some(now);
                m.pinned_by = Some(user_id);
                self.messages.insert(i, m);
                proof {
                    self.lemma_msg_update(pre, i as int, pinned_view(pre[i as int]@, user_id, now));
                }
            },
            None => {},
        }
    }

    /// Clears the message's pin fields; a no-op when the id is unknown.
    pub fn unpin_message(&mut self, message_id: u64)
        requires
            old(self).wf(),
        ensures
            final(self).wf(),
            final(self).users == old(self).users,
            final(self).sessions == old(self).sessions,
            final(self).rooms == old(self).rooms,
            final(self).members == old(self).members,
            final(self).mentions == old(self).mentions,
            final(self).next_id == old(self).next_id,
            final(self).last_ts == old(self).last_ts,
            !has_msg_id(msg_views(old(self).messages@), message_id) ==> *final(self) == *old(self),
            has_msg_id(msg_views(old(self).messages@), message_id) ==> exists|i: int|
                {
                    &&& 0 <= i < old(self).messages@.len()
                    &&& (#[trigger] msg_views(old(self).messages@)[i]).id == message_id
                    &&& msg_views(final(self).messages@) == msg_views(
                        old(self).messages@,
                    ).update(i, unpinned_view(msg_views(old(self).messages@)[i]))
                },
    {
        match self.msg_index_by_id(message_id) {
            Some(i) => {
                let ghost pre = self.messages@;
                let mut m = self.messages.remove(i);
                m.is_pinned = false;
                m.pinned_at = None;
                m.pinned_by = None;
                self.messages.insert(i, m);
                proof {
                    self.lemma_msg_update(pre, i as int, unpinned_view(pre[i as int]@));
                }
            },
            None => {},
        }
    }

    /// Marks a private message read at the given instant; a no-op for
    /// unknown ids and for non-private messages.
    pub fn mark_private_message_as_read(&mut self, message_id: u64, now: i64)
        requires
            old(self).wf(),
        ensures
            final(self).wf(),
            final(self).users == old(self).users,
            final(self).sessions == old(self).sessions,
            final(self).rooms == old(self).rooms,
            final(self).members == old(self).members,
            final(self).mentions == old(self).mentions,
            final(self).next_id == old(self).next_id,
            final(self).last_ts == old(self).last_ts,
            (!has_msg_id(msg_views(old(self).messages@), message_id) || !(msg_by_id(
                msg_views(old(self).messages@),
                message_id,
            ).message_type is Private)) ==> *final(self) == *old(self),
            (has_msg_id(msg_views(old(self).messages@), message_id) && msg_by_id(
                msg_views(old(self).messages@),
                message_id,
            ).message_type is Private) ==> exists|i: int|
                {
                    &&& 0 <= i < old(self).messages@.len()
                    &&& (#[trigger] msg_views(old(self).messages@)[i]).id == message_id
                    &&& msg_views(final(self).messages@) == msg_views(
                        old(self).messages@,
                    ).update(i, read_view(msg_views(old(self).messages@)[i], now))
                },
    {
        match self.msg_index_by_id(message_id) {
            Some(i) => {
                proof {
                    let vs = msg_views(self.messages@);
                    assert(vs[i as int] == self.messages@[i as int]@);
                    let w = choose|w: int| 0 <= w < vs.len() && (#[trigger] vs[w]).id == message_id;
                    if w != i {
                        assert(messages_wf(vs, self.next_id));
                    }
                    assert(msg_by_id(vs, message_id) == vs[i as int]);
                }
                let is_private = match self.messages[i].message_type {
                    MessageType::Private => true,
                    _ => false,
                };
                if is_private {
                    let ghost pre = self.messages@;
                    let mut m = self.messages.remove(i);
                    m.is_read = true;
                    m.read_at = Some(now);
                    self.messages.insert(i, m);
                    proof {
                        self.lemma_msg_update(pre, i as int, read_view(pre[i as int]@, now));
                    }
                }
            },
            None => {},
        }
    }

    /// Appends the user to the emoji's bucket on the message and returns
    /// the new reaction list; no-op on the list when the user already
    /// reacted with that emoji. Fails when the message is unknown.
    pub fn add_reaction(&mut self, message_id: u64, user_id: u64, username: &str, emoji: &str) -> (r:
        Result<Vec<ReactionSummary>, AuthError>)
        requires
            old(self).wf(),
        ensures
            final(self).wf(),
            final(self).users == old(self).users,
            final(self).sessions == old(self).sessions,
            final(self).rooms == old(self).rooms,
            final(self).members == old(self).members,
            final(self).mentions == old(self).mentions,
            final(self).next_id == old(self).next_id,
            final(self).last_ts == old(self).last_ts,
            match r {
                Ok(rs) => has_msg_id(msg_views(old(self).messages@), message_id) && exists|i: int|
                    {
                        &&& 0 <= i < old(self).messages@.len()
                        &&& (#[trigger] msg_views(old(self).messages@)[i]).id == message_id
                        &&& crate::messages::reaction_views(rs@) == crate::reactions::spec_add_reaction(
                            msg_views(old(self).messages@)[i].reactions,
                            user_id,
                            username@,
                            emoji@,
                        )
                        &&& msg_views(final(self).messages@) == msg_views(
                            old(self).messages@,
                        ).update(
                            i,
                            with_reactions(
                                msg_views(old(self).messages@)[i],
                                crate::messages::reaction_views(rs@),
                            ),
                        )
                    },
                Err(e) => e is InvalidInput && !has_msg_id(msg_views(old(self).messages@), message_id)
                    && *final(self) == *old(self),
            },
    {
        match self.msg_index_by_id(message_id) {
            Some(i) => {
                let ghost pre = self.messages@;
                let mut m = self.messages.remove(i);
                proof {
                    assert(msg_views(pre)[i as int] == pre[i as int]@);
                    assert(messages_wf(msg_views(pre), self.next_id));
                    assert(wf_reactions(msg_views(pre)[i as int].reactions));
                }
                crate::reactions::add_reaction_to_list(&mut m.reactions, user_id, username, emoji);
                let rs = crate::messages::copy_reactions(&m.reactions);
                self.messages.insert(i, m);
                proof {
                    crate::reactions::lemma_add_preserves_wf(
                        pre[i as int]@.reactions,
                        user_id,
                        username@,
                        emoji@,
                    );
                    self.lemma_msg_update(
                        pre,
                        i as int,
                        with_reactions(
                            pre[i as int]@,
                            crate::reactions::spec_add_reaction(
                                pre[i as int]@.reactions,
                                user_id,
                                username@,
                                emoji@,
                            ),
                        ),
                    );
                }
                Ok(rs)
            },
            None => Err(AuthError::InvalidInput(String::from_str("Message not found"))),
        }
    }

    /// Takes the user's reaction with the emoji off the message and returns
    /// the new reaction list; empty buckets are dropped. Fails when the
    /// message is unknown.
    pub fn remove_reaction(&mut self, message_id: u64, user_id: u64, emoji: &str) -> (r: Result<
        Vec<ReactionSummary>,
        AuthError,
    >)
        requires
            old(self).wf(),
        ensures
            final(self).wf(),
            final(self).users == old(self).users,
            final(self).sessions == old(self).sessions,
            final(self).rooms == old(self).rooms,
            final(self).members == old(self).members,
            final(self).mentions == old(self).mentions,
            final(self).next_id == old(self).next_id,
            final(self).last_ts == old(self).last_ts,
            match r {
                Ok(rs) => has_msg_id(msg_views(old(self).messages@), message_id) && exists|i: int|
                    {
                        &&& 0 <= i < old(self).messages@.len()
                        &&& (#[trigger] msg_views(old(self).messages@)[i]).id == message_id
                        &&& crate::messages::reaction_views(rs@) == crate::reactions::spec_remove_reaction(
                            msg_views(old(self).messages@)[i].reactions,
                            user_id,
                            emoji@,
                        )
                        &&& msg_views(final(self).messages@) == msg_views(
                            old(self).messages@,
                        ).update(
                            i,
                            with_reactions(
                                msg_views(old(self).messages@)[i],
                                crate::messages::reaction_views(rs@),
                            ),
                        )
                    },
                Err(e) => e is InvalidInput && !has_msg_id(msg_views(old(self).messages@), message_id)
                    && *final(self) == *old(self),
            },
    {
        match self.msg_index_by_id(message_id) {
            Some(i) => {
                let ghost pre = self.messages@;
                let mut m = self.messages.remove(i);
                proof {
                    assert(msg_views(pre)[i as int] == pre[i as int]@);
                    assert(messages_wf(msg_views(pre), self.next_id));
                    assert(wf_reactions(msg_views(pre)[i as int].reactions));
                }
                crate::reactions::remove_reaction_from_list(&mut m.reactions, user_id, emoji);
                let rs = crate::messages::copy_reactions(&m.reactions);
                self.messages.insert(i, m);
                proof {
                    crate::reactions::lemma_remove_preserves_wf(
                        pre[i as int]@.reactions,
                        user_id,
                        emoji@,
                    );
                    self.lemma_msg_update(
                        pre,
                        i as int,
                        with_reactions(
                            pre[i as int]@,
                            crate::reactions::spec_remove_reaction(
                                pre[i as int]@.reactions,
                                user_id,
                                emoji@,
                            ),
                        ),
                    );
                }
                Ok(rs)
            },
            None => Err(AuthError::InvalidInput(String::from_str("Message not found"))),
        }
    }

    /// Reorders a user list into username order (code-point order, as the
    /// stored bytes compare), keeping exactly the same users.
    fn sort_users_by_username(v: &mut Vec<User>)
        ensures
            forall|a: int, b: int|
                0 <= a <= b < final(v)@.len() ==> crate::text::lex_le(
                    final(v)@[a].username@,
                    final(v)@[b].username@,
                ),
            final(v)@.to_multiset() == old(v)@.to_multiset(),
    {
        let ghost orig = old(v)@;
        let mut out: Vec<User> = Vec::new();
        proof {
            broadcast use vstd::seq_lib::group_to_multiset_ensures;
            broadcast use vstd::multiset::group_multiset_axioms;

            assert(out@ =~= Seq::<User>::empty());
            assert forall|x: User| out@.to_multiset().count(x) == 0 by {
                assert(!out@.contains(x));
            }
            assert(out@.to_multiset().add(v@.to_multiset()) =~= v@.to_multiset());
        }
        while v.len() > 0
            invariant
                orig == old(v)@,
                out@.to_multiset().add(v@.to_multiset()) == orig.to_multiset(),
                forall|a: int, b: int|
                    0 <= a <= b < out@.len() ==> crate::text::lex_le(
                        out@[a].username@,
                        out@[b].username@,
                    ),
                out@.len() > 0 ==> forall|k: int|
                    0 <= k < v@.len() ==> crate::text::lex_le(
                        out@.last().username@,
                        (#[trigger] v@[k]).username@,
                    ),
            decreases v@.len(),
        {
            let mut mn: usize = 0;
            let mut j: usize = 1;
            proof {
                crate::text::lemma_lex_total(v@[0].username@, v@[0].username@);
            }
            while j < v.len()
                invariant
                    v@.len() > 0,
                    mn < v@.len(),
                    j <= v@.len(),
                    forall|k: int|
                        0 <= k < j ==> crate::text::lex_le(
                            v@[mn as int].username@,
                            (#[trigger] v@[k]).username@,
                        ),
                decreases v@.len() - j,
            {
                if Database::str_before(&v[j].username, &v[mn].username) {
                    proof {
                        assert forall|k: int|
                            0 <= k < j + 1 implies crate::text::lex_le(
                            v@[j as int].username@,
                            (#[trigger] v@[k]).username@,
                        ) by {
                            if k < j {
                                crate::text::lemma_lex_trans(
                                    v@[j as int].username@,
                                    v@[mn as int].username@,
                                    v@[k].username@,
                                );
                            } else {
                                crate::text::lemma_lex_total(
                                    v@[j as int].username@,
                                    v@[j as int].username@,
                                );
                            }
                        }
                    }
                    mn = j;
                } else {
                    proof {
                        crate::text::lemma_lex_total(
                            v@[j as int].username@,
                            v@[mn as int].username@,
                        );
                    }
                }
                j = j + 1;
            }
            let ghost pre_v = v@;
            let ghost pre_out = out@;
            let m = v.remove(mn);
            proof {
                broadcast use vstd::seq_lib::group_to_multiset_ensures;

                assert(pre_v.remove(mn as int).to_multiset() =~= pre_v.to_multiset().remove(m));
                assert(pre_out.push(m).to_multiset() =~= pre_out.to_multiset().insert(m));
                assert(pre_v.to_multiset().contains(m)) by {
                    assert(pre_v[mn as int] == m);
                    assert(pre_v.contains(m));
                }
            }
            out.push(m);
            proof {
                broadcast use vstd::seq_lib::group_to_multiset_ensures;
                broadcast use vstd::multiset::group_multiset_axioms;

                assert(out@.to_multiset().add(v@.to_multiset()) =~= orig.to_multiset());
                let n = out@.len();
                assert forall|a: int, b: int|
                    0 <= a <= b < n implies crate::text::lex_le(
                    out@[a].username@,
                    out@[b].username@,
                ) by {
                    assert(forall|k: int| 0 <= k < n - 1 ==> out@[k] == #[trigger] pre_out[k]);
                    assert(out@[n - 1] == m);
                    if b == n - 1 && a < n - 1 {
                        if pre_out.len() > 0 {
                            crate::text::lemma_lex_trans(
                                pre_out[a].username@,
                                pre_out.last().username@,
                                m.username@,
                            );
                        }
                    } else if b == n - 1 && a == n - 1 {
                        crate::text::lemma_lex_total(m.username@, m.username@);
                    }
                }
                assert forall|k: int|
                    0 <= k < v@.len() implies crate::text::lex_le(
                    out@.last().username@,
                    (#[trigger] v@[k]).username@,
                ) by {
                    let pk = if k < mn {
                        k
                    } else {
                        k + 1
                    };
                    assert(v@[k] == pre_v[pk]);
                }
            }
        }
        proof {
            broadcast use vstd::seq_lib::group_to_multiset_ensures;
            broadcast use vstd::multiset::group_multiset_axioms;

            assert(v@ =~= Seq::<User>::empty());
            assert forall|x: User| v@.to_multiset().count(x) == 0 by {
                assert(!v@.contains(x));
            }
            assert(v@.to_multiset() =~= Multiset::<User>::empty());
            assert(out@.to_multiset().add(Multiset::<User>::empty()) =~= out@.to_multiset());
        }
        *v = out;
    }

    /// Whether one name comes no later than another in username order.
    fn str_before(a: &String, b: &String) -> (r: bool)
        ensures
            r == crate::text::lex_le(a@, b@),
    {
        crate::text::str_lex_le(a.as_str(), b.as_str())
    }

    /// The members of the room, in username order.
    pub fn get_room_members(&self, room_id: u64) -> (r: Vec<User>)
        requires
            self.wf(),
        ensures
            r@.to_multiset() == room_members_spec(
                self.members@,
                self.users@,
                room_id,
            ).to_multiset(),
            forall|a: int, b: int|
                0 <= a <= b < r@.len() ==> crate::text::lex_le(
                    r@[a].username@,
                    r@[b].username@,
                ),
    {
        let ghost all = room_members_spec(self.members@, self.users@, room_id);
        let mut r: Vec<User> = Vec::new();
        let mut i: usize = 0;
        proof {
            assert(self.members@.skip(0) =~= self.members@);
        }
        while i < self.members.len()
            invariant
                self.wf(),
                i <= self.members@.len(),
                all == room_members_spec(self.members@, self.users@, room_id),
                all == r@ + room_members_spec(
                    self.members@.skip(i as int),
                    self.users@,
                    room_id,
                ),
            decreases self.members@.len() - i,
        {
            proof {
                assert(self.members@.skip(i as int).drop_first() =~= self.members@.skip(
                    i as int + 1,
                ));
                assert(self.members@.skip(i as int)[0] == self.members@[i as int]);
            }
            if self.members[i].room_id == room_id {
                match self.user_index_by_id(self.members[i].user_id) {
                    Some(ui) => {
                        let ghost pre = r@;
                        let u = self.users[ui].duplicate();
                        proof {
                            let w = choose|w: int|
                                0 <= w < self.users@.len() && (#[trigger] self.users@[w]).id
                                    == self.members@[i as int].user_id;
                            if w != ui {
                                assert(users_wf(self.users@, self.next_id));
                            }
                            assert(u == user_by_id(self.users@, self.members@[i as int].user_id));
                        }
                        r.push(u);
                        proof {
                            assert(pre.push(u) + room_members_spec(
                                self.members@.skip(i as int + 1),
                                self.users@,
                                room_id,
                            ) =~= pre + (seq![u] + room_members_spec(
                                self.members@.skip(i as int + 1),
                                self.users@,
                                room_id,
                            )));
                        }
                    },
                    None => {},
                }
            }
            i = i + 1;
        }
        proof {
            assert(self.members@.skip(self.members@.len() as int) =~= Seq::<RoomMember>::empty());
            assert(r@ + room_members_spec(Seq::<RoomMember>::empty(), self.users@, room_id) =~= r@);
        }
        let mut r = r;
        Database::sort_users_by_username(&mut r);
        r
    }

    /// The "@word" mention tokens of the content, with "everyone" (any
    /// ASCII case) left out.
    pub fn extract_mentions(&self, content: &str) -> (r: Vec<String>)
        ensures
            crate::text::views_of(r@) == crate::text::mention_tokens(content@),
    {
        crate::text::extract_mention_tokens(content)
    }

    /// Whether the content holds the literal token "@everyone", in any
    /// ASCII case.
    pub fn everyone_mentioned(&self, content: &str) -> (r: bool)
        ensures
            r == crate::text::everyone_mentioned(content@),
    {
        crate::text::contains_everyone(content)
    }

    /// Records one mention per notified user for a freshly persisted room
    /// message: the whole room except the sender for "@everyone", otherwise
    /// the users the "@name" tokens resolve to, each at most once. Returns
    /// the notified user ids in order.
    pub fn save_message_mentions(
        &mut self,
        message_id: u64,
        sender_id: u64,
        content: &str,
        room_id: u64,
        now: i64,
    ) -> (r: Vec<u64>)
        requires
            old(self).wf(),
            message_id < old(self).next_id,
            forall|k: int|
                0 <= k < old(self).mentions@.len() ==> (#[trigger] old(self).mentions@[k]).message_id
                    != message_id,
            old(self).can_alloc(old(self).members@.len() + old(self).users@.len() as int),
        ensures
            final(self).wf(),
            final(self).users == old(self).users,
            final(self).sessions == old(self).sessions,
            final(self).rooms == old(self).rooms,
            final(self).members == old(self).members,
            final(self).messages == old(self).messages,
            final(self).last_ts == old(self).last_ts,
            old(self).next_id <= final(self).next_id <= old(self).next_id + r@.len(),
            r@ == spec_mentioned_ids(
                old(self).members@,
                old(self).users@,
                content@,
                room_id,
                sender_id,
            ),
            final(self).mentions@.len() == old(self).mentions@.len() + r@.len(),
            forall|k: int|
                0 <= k < old(self).mentions@.len() ==> final(self).mentions@[k] == (
                #[trigger] old(self).mentions@[k]),
            forall|k: int|
                0 <= k < r@.len() ==> {
                    let mn = #[trigger] final(self).mentions@[old(self).mentions@.len() + k];
                    &&& mn.message_id == message_id
                    &&& mn.mentioned_user_id == r@[k]
                    &&& !mn.is_read
                    &&& mn.notified_at == Some(now)
                    &&& mn.read_at is None
                    &&& mn.created_at == now
                },
    {
        let ghost base = self.mentions@;
        let ghost users0 = self.users@;
        let ghost members0 = self.members@;
        let ghost next0 = self.next_id;
        let mut ids: Vec<u64> = Vec::new();
        if crate::text::contains_everyone(content) {
            let ghost all = everyone_ids(members0, users0, room_id, sender_id);
            proof {
                assert(members0.skip(0) =~= members0);
            }
            let n = self.members.len();
            let mut i: usize = 0;
            while i < n
                invariant
                    self.wf(),
                    n == self.members@.len(),
                    i <= n,
                    self.users@ == users0,
                    self.members@ == members0,
                    self.sessions == old(self).sessions,
                    self.rooms == old(self).rooms,
                    self.messages == old(self).messages,
                    self.users == old(self).users,
                    self.members == old(self).members,
                    self.last_ts == old(self).last_ts,
                    message_id < next0,
                    next0 <= self.next_id,
                    self.next_id == next0 + ids@.len(),
                    ids@.len() <= i,
                    next0 + members0.len() <= u64::MAX,
                    all == everyone_ids(members0, users0, room_id, sender_id),
                    all == ids@ + everyone_ids(
                        members0.skip(i as int),
                        users0,
                        room_id,
                        sender_id,
                    ),
                    forall|k: int|
                        0 <= k < ids@.len() ==> exists|j: int|
                            0 <= j < i && (#[trigger] members0[j]).room_id == room_id
                                && members0[j].user_id == #[trigger] ids@[k],
                    self.mentions@.len() == base.len() + ids@.len(),
                    forall|k: int| 0 <= k < base.len() ==> self.mentions@[k] == #[trigger] base[k],
                    forall|k: int|
                        0 <= k < base.len() ==> (#[trigger] self.mentions@[k]).message_id
                            != message_id,
                    forall|k: int|
                        0 <= k < ids@.len() ==> {
                            let mn = #[trigger] self.mentions@[base.len() + k];
                            &&& mn.message_id == message_id
                            &&& mn.mentioned_user_id == ids@[k]
                            &&& !mn.is_read
                            &&& mn.notified_at == Some(now)
                            &&& mn.read_at is None
                            &&& mn.created_at == now
                        },
                decreases n - i,
            {
                proof {
                    assert(members0.skip(i as int).drop_first() =~= members0.skip(i as int + 1));
                    assert(members0.skip(i as int)[0] == members0[i as int]);
                }
                let m_user = self.members[i].user_id;
                let mut pushed = false;
                if self.members[i].room_id == room_id && m_user != sender_id {
                    if self.user_index_by_id(m_user).is_some() {
                        pushed = true;
                        proof {
                            if ids@.contains(m_user) {
                                let k = choose|k: int|
                                    0 <= k < ids@.len() && ids@[k] == m_user;
                                let j = choose|j: int|
                                    0 <= j < i && (#[trigger] members0[j]).room_id == room_id
                                        && members0[j].user_id == ids@[k];
                                assert(members_wf(members0));
                            }
                            assert(!ids@.contains(m_user));
                        }
                        let ghost pre_m = self.mentions@;
                        let ghost pre_ids = ids@;
                        let mn = Mention {
                            id: self.next_id,
                            message_id,
                            mentioned_user_id: m_user,
                            is_read: false,
                            notified_at: Some(now),
                            read_at: None,
                            created_at: now,
                        };
                        self.mentions.push(mn);
                        self.next_id = self.next_id + 1;
                        ids.push(m_user);
                        proof {
                            assert(pre_ids.push(m_user) + everyone_ids(
                                members0.skip(i as int + 1),
                                users0,
                                room_id,
                                sender_id,
                            ) =~= pre_ids + (seq![m_user] + everyone_ids(
                                members0.skip(i as int + 1),
                                users0,
                                room_id,
                                sender_id,
                            )));
                            assert forall|k: int|
                                0 <= k < pre_m.len() implies ((#[trigger] pre_m[k]).message_id
                                != mn.message_id || pre_m[k].mentioned_user_id
                                != mn.mentioned_user_id) by {
                                if k >= base.len() {
                                    let k2 = k - base.len();
                                    assert(pre_m[base.len() + k2].mentioned_user_id
                                        == pre_ids[k2]);
                                    assert(pre_ids.contains(pre_ids[k2]));
                                }
                            }
                            self.lemma_wf_after_push_mention(pre_m, mn);
                            assert forall|k: int|
                                0 <= k < ids@.len() implies exists|j: int|
                                    0 <= j < i + 1 && (#[trigger] members0[j]).room_id == room_id
                                        && members0[j].user_id == #[trigger] ids@[k] by {
                                if k < pre_ids.len() {
                                    assert(pre_ids[k] == ids@[k]);
                                    assert(exists|j: int|
                                        0 <= j < i && (#[trigger] members0[j]).room_id == room_id
                                            && members0[j].user_id == #[trigger] pre_ids[k]);
                                } else {
                                    assert(members0[i as int].room_id == room_id
                                        && members0[i as int].user_id == ids@[k]);
                                }
                            }
                        }
                    }
                }
                if !pushed {
                    proof {
                        assert forall|k: int|
                            0 <= k < ids@.len() implies exists|j: int|
                                0 <= j < i + 1 && (#[trigger] members0[j]).room_id == room_id
                                    && members0[j].user_id == #[trigger] ids@[k] by {
                            let j0 = choose|j: int|
                                0 <= j < i && (#[trigger] members0[j]).room_id == room_id
                                    && members0[j].user_id == ids@[k];
                            assert(0 <= j0 < i + 1 && members0[j0].room_id == room_id
                                && members0[j0].user_id == ids@[k]);
                        }
                    }
                }
                i = i + 1;
            }
            proof {
                assert(members0.skip(n as int) =~= Seq::<RoomMember>::empty());
                assert(ids@ + everyone_ids(
                    Seq::<RoomMember>::empty(),
                    users0,
                    room_id,
                    sender_id,
                ) =~= ids@);
            }
        } else {
            let tokens = crate::text::extract_mention_tokens(content);
            let ghost tvs = crate::text::views_of(tokens@);
            proof {
                assert(tvs.skip(0) =~= tvs);
            }
            let mut t: usize = 0;
            while t < tokens.len()
                invariant
                    self.wf(),
                    t <= tokens@.len(),
                    tvs == crate::text::views_of(tokens@),
                    tvs.len() == tokens@.len(),
                    self.users@ == users0,
                    self.members@ == members0,
                    self.sessions == old(self).sessions,
                    self.rooms == old(self).rooms,
                    self.messages == old(self).messages,
                    self.users == old(self).users,
                    self.members == old(self).members,
                    self.last_ts == old(self).last_ts,
                    message_id < next0,
                    next0 <= self.next_id,
                    self.next_id == next0 + ids@.len(),
                    next0 + users0.len() <= u64::MAX,
                    forall|a: int, b: int| 0 <= a < b < ids@.len() ==> ids@[a] != ids@[b],
                    ids@.len() <= users0.len(),
                    forall|k: int|
                        0 <= k < ids@.len() ==> has_user_id(users0, #[trigger] ids@[k]),
                    resolve_tokens(users0, tvs, sender_id, Seq::empty()) == resolve_tokens(
                        users0,
                        tvs.skip(t as int),
                        sender_id,
                        ids@,
                    ),
                    self.mentions@.len() == base.len() + ids@.len(),
                    forall|k: int| 0 <= k < base.len() ==> self.mentions@[k] == #[trigger] base[k],
                    forall|k: int|
                        0 <= k < base.len() ==> (#[trigger] self.mentions@[k]).message_id
                            != message_id,
                    forall|k: int|
                        0 <= k < ids@.len() ==> {
                            let mn = #[trigger] self.mentions@[base.len() + k];
                            &&& mn.message_id == message_id
                            &&& mn.mentioned_user_id == ids@[k]
                            &&& !mn.is_read
                            &&& mn.notified_at == Some(now)
                            &&& mn.read_at is None
                            &&& mn.created_at == now
                        },
                decreases tokens@.len() - t,
            {
                proof {
                    assert(tvs.skip(t as int).drop_first() =~= tvs.skip(t as int + 1));
                    assert(tvs.skip(t as int)[0] == tvs[t as int]);
                    assert(tvs[t as int] == tokens@[t as int]@);
                }
                match self.user_index_by_name(tokens[t].as_str()) {
                    Some(ui) => {
                        let uid = self.users[ui].id;
                        proof {
                            let w = choose|w: int|
                                0 <= w < users0.len() && (#[trigger] users0[w]).username@
                                    == tvs[t as int];
                            if w != ui {
                                assert(users_wf(users0, self.next_id));
                            }
                            assert(user_by_name(users0, tvs[t as int]) == users0[ui as int]);
                        }
                        if uid != sender_id && !contains_u64(&ids, uid) {
                            let ghost pre_m = self.mentions@;
                            let ghost pre_ids = ids@;
                            proof {
                                assert(has_user_id(users0, uid)) by {
                                    assert(users0[ui as int].id == uid);
                                }
                                let nids = pre_ids.push(uid);
                                assert forall|a: int, b: int|
                                    0 <= a < b < nids.len() implies nids[a] != nids[b] by {
                                    if b == nids.len() - 1 {
                                        assert(nids[a] == pre_ids[a]);
                                        assert(pre_ids.contains(pre_ids[a]));
                                    } else {
                                        assert(nids[a] == pre_ids[a] && nids[b] == pre_ids[b]);
                                    }
                                }
                                assert forall|k: int|
                                    0 <= k < nids.len() implies has_user_id(
                                    users0,
                                    #[trigger] nids[k],
                                ) by {
                                    if k < pre_ids.len() {
                                        assert(nids[k] == pre_ids[k]);
                                    }
                                }
                                lemma_distinct_ids_bound(nids, users0);
                                assert(pre_ids.len() < users0.len());
                            }
                            let mn = Mention {
                                id: self.next_id,
                                message_id,
                                mentioned_user_id: uid,
                                is_read: false,
                                notified_at: Some(now),
                                read_at: None,
                                created_at: now,
                            };
                            self.mentions.push(mn);
                            self.next_id = self.next_id + 1;
                            ids.push(uid);
                            proof {
                                assert forall|k: int|
                                    0 <= k < pre_m.len() implies ((#[trigger] pre_m[k]).message_id
                                    != mn.message_id || pre_m[k].mentioned_user_id
                                    != mn.mentioned_user_id) by {
                                    if k >= base.len() {
                                        let k2 = k - base.len();
                                        assert(pre_m[base.len() + k2].mentioned_user_id
                                            == pre_ids[k2]);
                                        assert(pre_ids.contains(pre_ids[k2]));
                                    }
                                }
                                self.lemma_wf_after_push_mention(pre_m, mn);
                                assert forall|a: int, b: int|
                                    0 <= a < b < ids@.len() implies ids@[a] != ids@[b] by {
                                    if b == ids@.len() - 1 {
                                        assert(ids@[a] == pre_ids[a]);
                                        assert(pre_ids.contains(pre_ids[a]));
                                    } else {
                                        assert(ids@[a] == pre_ids[a] && ids@[b] == pre_ids[b]);
                                    }
                                }
                                assert forall|k: int|
                                    0 <= k < ids@.len() implies has_user_id(
                                    users0,
                                    #[trigger] ids@[k],
                                ) by {
                                    if k < pre_ids.len() {
                                        assert(ids@[k] == pre_ids[k]);
                                    }
                                }
                                lemma_distinct_ids_bound(ids@, users0);
                            }
                        }
                    },
                    None => {},
                }
                t = t + 1;
            }
            proof {
                assert(tvs.skip(tokens@.len() as int) =~= Seq::<Seq<char>>::empty());
            }
        }
        ids
    }

    /// After appending one mention with a fresh id, for a message no older
    /// mention refers to and a user no new mention refers to, the store is
    /// well-formed again.
    proof fn lemma_wf_after_push_mention(&self, pre: Seq<Mention>, mn: Mention)
        requires
            users_wf(self.users@, (self.next_id - 1) as u64),
            sessions_wf(self.sessions@, (self.next_id - 1) as u64),
            rooms_wf(self.rooms@, (self.next_id - 1) as u64),
            members_wf(self.members@),
            messages_wf(msg_views(self.messages@), (self.next_id - 1) as u64),
            mentions_wf(pre, (self.next_id - 1) as u64),
            times_wf(msg_views(self.messages@), self.members@, self.rooms@, self.last_ts),
            self.next_id >= 1,
            self.mentions@ == pre.push(mn),
            mn.id == self.next_id - 1,
            mn.message_id < self.next_id - 1,
            forall|k: int|
                0 <= k < pre.len() ==> ((#[trigger] pre[k]).message_id != mn.message_id
                    || pre[k].mentioned_user_id != mn.mentioned_user_id),
        ensures
            self.wf(),
    {
        let fin = self.mentions@;
        let n = pre.len();
        assert(forall|k: int| 0 <= k < n ==> fin[k] == #[trigger] pre[k]);
        assert(fin[n as int] == mn);
        assert forall|a: int, b: int| 0 <= a < b < fin.len() implies (#[trigger] fin[a]).id != (
        #[trigger] fin[b]).id by {
            if b < n {
                assert(fin[a] == pre[a] && fin[b] == pre[b]);
            } else {
                assert(fin[a] == pre[a]);
            }
        }
        assert forall|a: int| 0 <= a < fin.len() implies (#[trigger] fin[a]).id < self.next_id && (
        #[trigger] fin[a]).message_id < self.next_id by {
            if a < n {
                assert(fin[a] == pre[a]);
            }
        }
        assert forall|a: int, b: int|
            0 <= a < b < fin.len() implies ((#[trigger] fin[a]).message_id != (
        #[trigger] fin[b]).message_id || fin[a].mentioned_user_id != fin[b].mentioned_user_id) by {
            if b < n {
                assert(fin[a] == pre[a] && fin[b] == pre[b]);
            } else {
                assert(fin[a] == pre[a]);
            }
        }
    }

    /// Copies one page out of a listing: up to `limit` entries starting at
    /// `offset`.
    fn page_slice(feed: &Vec<Message>, limit: usize, offset: usize) -> (r: Vec<Message>)
        ensures
            msg_views(r@) == page_views(msg_views(feed@), limit as int, offset as int),
    {
        let ghost vs = msg_views(feed@);
        let mut r: Vec<Message> = Vec::new();
        let n = feed.len();
        if offset >= n {
            proof {
                assert(msg_views(r@) =~= page_views(vs, limit as int, offset as int));
            }
            return r;
        }
        let end = if limit > n - offset {
            n
        } else {
            offset + limit
        };
        let mut i = offset;
        while i < end
            invariant
                vs == msg_views(feed@),
                vs.len() == feed@.len(),
                offset <= i <= end <= feed@.len(),
                msg_views(r@) == vs.subrange(offset as int, i as int),
            decreases end - i,
        {
            let ghost pre = r@;
            let d = feed[i].duplicate();
            proof {
                crate::messages::lemma_msg_views_push(pre, d);
                assert(vs[i as int] == feed@[i as int]@);
                assert(vs.subrange(offset as int, i as int + 1) =~= vs.subrange(
                    offset as int,
                    i as int,
                ).push(vs[i as int]));
            }
            r.push(d);
            i = i + 1;
        }
        proof {
            assert(msg_views(r@) =~= page_views(vs, limit as int, offset as int));
        }
        r
    }

    /// The room's feed — its room and server messages, newest first — cut
    /// to one page.
    pub fn get_room_messages(&self, room_id: u64, limit: usize, offset: usize) -> (r: Vec<Message>)
        requires
            self.wf(),
        ensures
            msg_views(r@) == page_views(
                room_feed(msg_views(self.messages@), room_id),
                limit as int,
                offset as int,
            ),
            sorted_by_sent_desc(msg_views(r@)),
    {
        let ghost vs = msg_views(self.messages@);
        proof {
            assert(vs.take(vs.len() as int) =~= vs);
        }
        let mut feed: Vec<Message> = Vec::new();
        let mut i: usize = self.messages.len();
        while i > 0
            invariant
                vs == msg_views(self.messages@),
                vs.len() == self.messages@.len(),
                i <= self.messages@.len(),
                room_feed(vs, room_id) == msg_views(feed@) + room_feed(vs.take(i as int), room_id),
            decreases i,
        {
            i = i - 1;
            proof {
                assert(vs.take(i as int + 1).drop_last() =~= vs.take(i as int));
                assert(vs.take(i as int + 1).last() == vs[i as int]);
                assert(vs[i as int] == self.messages@[i as int]@);
            }
            let type_ok = match self.messages[i].message_type {
                MessageType::Room => true,
                MessageType::Server => true,
                MessageType::Private => false,
            };
            let room_ok = match self.messages[i].room_id {
                Some(rid) => rid == room_id,
                None => false,
            };
            if type_ok && room_ok {
                let ghost pre = feed@;
                let d = self.messages[i].duplicate();
                proof {
                    crate::messages::lemma_msg_views_push(pre, d);
                }
                feed.push(d);
                proof {
                    assert(msg_views(pre).push(vs[i as int]) + room_feed(vs.take(i as int), room_id)
                        =~= msg_views(pre) + (seq![vs[i as int]] + room_feed(
                        vs.take(i as int),
                        room_id,
                    )));
                }
            }
        }
        proof {
            assert(vs.take(0) =~= Seq::<MessageView>::empty());
            assert(msg_views(feed@) + room_feed(vs.take(0), room_id) =~= msg_views(feed@));
        }
        let r = Database::page_slice(&feed, limit, offset);
        proof {
            lemma_room_feed_sorted(vs, room_id);
            lemma_page_sorted(room_feed(vs, room_id), limit as int, offset as int);
        }
        r
    }

    /// The private conversation between the two users, newest first, cut
    /// to one page.
    pub fn get_private_messages_between_users(
        &self,
        user1_id: u64,
        user2_id: u64,
        limit: usize,
        offset: usize,
    ) -> (r: Vec<Message>)
        requires
            self.wf(),
        ensures
            msg_views(r@) == page_views(
                conversation_feed(msg_views(self.messages@), user1_id, user2_id),
                limit as int,
                offset as int,
            ),
            sorted_by_sent_desc(msg_views(r@)),
    {
        let ghost vs = msg_views(self.messages@);
        proof {
            assert(vs.take(vs.len() as int) =~= vs);
        }
        let mut feed: Vec<Message> = Vec::new();
        let mut i: usize = self.messages.len();
        while i > 0
            invariant
                vs == msg_views(self.messages@),
                vs.len() == self.messages@.len(),
                i <= self.messages@.len(),
                conversation_feed(vs, user1_id, user2_id) == msg_views(feed@) + conversation_feed(
                    vs.take(i as int),
                    user1_id,
                    user2_id,
                ),
            decreases i,
        {
            i = i - 1;
            proof {
                assert(vs.take(i as int + 1).drop_last() =~= vs.take(i as int));
                assert(vs.take(i as int + 1).last() == vs[i as int]);
                assert(vs[i as int] == self.messages@[i as int]@);
            }
            let is_private = match self.messages[i].message_type {
                MessageType::Private => true,
                _ => false,
            };
            let sender = self.messages[i].sender_id;
            let recv_ok_1 = match self.messages[i].receiver_id {
                Some(rid) => sender == user1_id && rid == user2_id,
                None => false,
            };
            let recv_ok_2 = match self.messages[i].receiver_id {
                Some(rid) => sender == user2_id && rid == user1_id,
                None => false,
            };
            if is_private && (recv_ok_1 || recv_ok_2) {
                let ghost pre = feed@;
                let d = self.messages[i].duplicate();
                proof {
                    crate::messages::lemma_msg_views_push(pre, d);
                }
                feed.push(d);
                proof {
                    assert(msg_views(pre).push(vs[i as int]) + conversation_feed(
                        vs.take(i as int),
                        user1_id,
                        user2_id,
                    ) =~= msg_views(pre) + (seq![vs[i as int]] + conversation_feed(
                        vs.take(i as int),
                        user1_id,
                        user2_id,
                    )));
                }
            }
        }
        proof {
            assert(vs.take(0) =~= Seq::<MessageView>::empty());
            assert(msg_views(feed@) + conversation_feed(vs.take(0), user1_id, user2_id)
                =~= msg_views(feed@));
        }
        let r = Database::page_slice(&feed, limit, offset);
        proof {
            lemma_conversation_feed_sorted(vs, user1_id, user2_id);
            lemma_page_sorted(
                conversation_feed(vs, user1_id, user2_id),
                limit as int,
                offset as int,
            );
        }
        r
    }

    /// The user's private inbox, newest first, optionally unread only, cut
    /// to one page.
    pub fn get_received_private_messages(
        &self,
        receiver_id: u64,
        unread_only: bool,
        limit: usize,
        offset: usize,
    ) -> (r: Vec<Message>)
        requires
            self.wf(),
        ensures
            msg_views(r@) == page_views(
                inbox_feed(msg_views(self.messages@), receiver_id, unread_only),
                limit as int,
                offset as int,
            ),
            sorted_by_sent_desc(msg_views(r@)),
    {
        let ghost vs = msg_views(self.messages@);
        proof {
            assert(vs.take(vs.len() as int) =~= vs);
        }
        let mut feed: Vec<Message> = Vec::new();
        let mut i: usize = self.messages.len();
        while i > 0
            invariant
                vs == msg_views(self.messages@),
                vs.len() == self.messages@.len(),
                i <= self.messages@.len(),
                inbox_feed(vs, receiver_id, unread_only) == msg_views(feed@) + inbox_feed(
                    vs.take(i as int),
                    receiver_id,
                    unread_only,
                ),
            decreases i,
        {
            i = i - 1;
            proof {
                assert(vs.take(i as int + 1).drop_last() =~= vs.take(i as int));
                assert(vs.take(i as int + 1).last() == vs[i as int]);
                assert(vs[i as int] == self.messages@[i as int]@);
            }
            let is_private = match self.messages[i].message_type {
                MessageType::Private => true,
                _ => false,
            };
            let recv_ok = match self.messages[i].receiver_id {
                Some(rid) => rid == receiver_id,
                None => false,
            };
            if is_private && recv_ok && (!unread_only || !self.messages[i].is_read) {
                let ghost pre = feed@;
                let d = self.messages[i].duplicate();
                proof {
                    crate::messages::lemma_msg_views_push(pre, d);
                }
                feed.push(d);
                proof {
                    assert(msg_views(pre).push(vs[i as int]) + inbox_feed(
                        vs.take(i as int),
                        receiver_id,
                        unread_only,
                    ) =~= msg_views(pre) + (seq![vs[i as int]] + inbox_feed(
                        vs.take(i as int),
                        receiver_id,
                        unread_only,
                    )));
                }
            }
        }
        proof {
            assert(vs.take(0) =~= Seq::<MessageView>::empty());
            assert(msg_views(feed@) + inbox_feed(vs.take(0), receiver_id, unread_only)
                =~= msg_views(feed@));
        }
        let r = Database::page_slice(&feed, limit, offset);
        proof {
            lemma_inbox_feed_sorted(vs, receiver_id, unread_only);
            lemma_page_sorted(
                inbox_feed(vs, receiver_id, unread_only),
                limit as int,
                offset as int,
            );
        }
        r
    }

    fn mentions_user(&self, message_id: u64, user_id: u64) -> (r: bool)
        ensures
            r == has_mention(self.mentions@, message_id, user_id),
    {
        let mut i: usize = 0;
        while i < self.mentions.len()
            invariant
                i <= self.mentions@.len(),
                forall|k: int|
                    0 <= k < i ==> ((#[trigger] self.mentions@[k]).message_id != message_id
                        || self.mentions@[k].mentioned_user_id != user_id),
            decreases self.mentions@.len() - i,
        {
            if self.mentions[i].message_id == message_id && self.mentions[i].mentioned_user_id
                == user_id {
                return true;
            }
            i = i + 1;
        }
        false
    }

    /// The messages that mention the user, newest first, cut to one page.
    pub fn get_all_user_mentions(&self, user_id: u64, limit: usize, offset: usize) -> (r: Vec<
        Message,
    >)
        requires
            self.wf(),
        ensures
            msg_views(r@) == page_views(
                mention_feed(msg_views(self.messages@), self.mentions@, user_id),
                limit as int,
                offset as int,
            ),
            sorted_by_sent_desc(msg_views(r@)),
    {
        let ghost vs = msg_views(self.messages@);
        proof {
            assert(vs.take(vs.len() as int) =~= vs);
        }
        let mut feed: Vec<Message> = Vec::new();
        let mut i: usize = self.messages.len();
        while i > 0
            invariant
                vs == msg_views(self.messages@),
                vs.len() == self.messages@.len(),
                i <= self.messages@.len(),
                mention_feed(vs, self.mentions@, user_id) == msg_views(feed@) + mention_feed(
                    vs.take(i as int),
                    self.mentions@,
                    user_id,
                ),
            decreases i,
        {
            i = i - 1;
            proof {
                assert(vs.take(i as int + 1).drop_last() =~= vs.take(i as int));
                assert(vs.take(i as int + 1).last() == vs[i as int]);
                assert(vs[i as int] == self.messages@[i as int]@);
            }
            if self.mentions_user(self.messages[i].id, user_id) {
                let ghost pre = feed@;
                let d = self.messages[i].duplicate();
                proof {
                    crate::messages::lemma_msg_views_push(pre, d);
                }
                feed.push(d);
                proof {
                    assert(msg_views(pre).push(vs[i as int]) + mention_feed(
                        vs.take(i as int),
                        self.mentions@,
                        user_id,
                    ) =~= msg_views(pre) + (seq![vs[i as int]] + mention_feed(
                        vs.take(i as int),
                        self.mentions@,
                        user_id,
                    )));
                }
            }
        }
        proof {
            assert(vs.take(0) =~= Seq::<MessageView>::empty());
            assert(msg_views(feed@) + mention_feed(vs.take(0), self.mentions@, user_id)
                =~= msg_views(feed@));
        }
        let r = Database::page_slice(&feed, limit, offset);
        proof {
            lemma_mention_feed_sorted(vs, self.mentions@, user_id);
            lemma_page_sorted(
                mention_feed(vs, self.mentions@, user_id),
                limit as int,
                offset as int,
            );
        }
        r
    }

    fn pin_time_of(m: &Message) -> (r: i64)
        ensures
            r as int == pin_time(m@),
    {
        match m.pinned_at {
            Some(t) => t,
            None => 0,
        }
    }

    /// Reorders a message list so the most recently pinned comes first,
    /// keeping exactly the same messages.
    fn sort_by_pin_desc(v: &mut Vec<Message>)
        ensures
            sorted_by_pin_desc(msg_views(final(v)@)),
            msg_views(final(v)@).to_multiset() == msg_views(old(v)@).to_multiset(),
    {
        let ghost orig = msg_views(old(v)@);
        let mut out: Vec<Message> = Vec::new();
        proof {
            broadcast use vstd::seq_lib::group_to_multiset_ensures;
            broadcast use vstd::multiset::group_multiset_axioms;

            assert(msg_views(out@) =~= Seq::<MessageView>::empty());
            assert forall|x: MessageView| msg_views(out@).to_multiset().count(x) == 0 by {
                assert(!msg_views(out@).contains(x));
            }
            assert(msg_views(out@).to_multiset().add(msg_views(v@).to_multiset()) =~= msg_views(
                v@,
            ).to_multiset());
        }
        while v.len() > 0
            invariant
                orig == msg_views(old(v)@),
                msg_views(out@).to_multiset().add(msg_views(v@).to_multiset())
                    == orig.to_multiset(),
                sorted_by_pin_desc(msg_views(out@)),
                out@.len() > 0 ==> forall|k: int|
                    0 <= k < v@.len() ==> pin_time(msg_views(out@).last()) >= pin_time(
                        #[trigger] v@[k]@,
                    ),
            decreases v@.len(),
        {
            let mut mx: usize = 0;
            let mut j: usize = 1;
            while j < v.len()
                invariant
                    v@.len() > 0,
                    mx < v@.len(),
                    j <= v@.len(),
                    forall|k: int| 0 <= k < j ==> pin_time(#[trigger] v@[k]@) <= pin_time(
                        v@[mx as int]@,
                    ),
                decreases v@.len() - j,
            {
                if Database::pin_time_of(&v[j]) > Database::pin_time_of(&v[mx]) {
                    mx = j;
                }
                j = j + 1;
            }
            let ghost pre_v = v@;
            let ghost pre_out = out@;
            let m = v.remove(mx);
            proof {
                broadcast use vstd::seq_lib::group_to_multiset_ensures;

                assert(msg_views(pre_v.remove(mx as int)) =~= msg_views(pre_v).remove(mx as int))
                    by {
                    assert(forall|k: int|
                        0 <= k < pre_v.remove(mx as int).len() ==> #[trigger] msg_views(
                            pre_v.remove(mx as int),
                        )[k] == pre_v.remove(mx as int)[k]@);
                    assert(forall|k: int|
                        0 <= k < mx ==> pre_v.remove(mx as int)[k] == #[trigger] pre_v[k]);
                    assert(forall|k: int|
                        mx <= k < pre_v.remove(mx as int).len() ==> pre_v.remove(mx as int)[k]
                            == #[trigger] pre_v[k + 1]);
                }
                crate::messages::lemma_msg_views_push(pre_out, m);
                assert(msg_views(pre_v).remove(mx as int).to_multiset() =~= msg_views(
                    pre_v,
                ).to_multiset().remove(m@));
                assert(msg_views(pre_out).push(m@).to_multiset() =~= msg_views(
                    pre_out,
                ).to_multiset().insert(m@));
                assert(msg_views(pre_v).to_multiset().contains(m@)) by {
                    assert(msg_views(pre_v)[mx as int] == m@);
                    assert(msg_views(pre_v).contains(m@));
                }
            }
            out.push(m);
            proof {
                broadcast use vstd::seq_lib::group_to_multiset_ensures;

                assert(msg_views(out@).to_multiset().add(msg_views(v@).to_multiset())
                    =~= orig.to_multiset());
                assert forall|a: int, b: int|
                    0 <= a <= b < msg_views(out@).len() implies pin_time(msg_views(out@)[a])
                    >= pin_time(msg_views(out@)[b]) by {
                    let n = msg_views(out@).len();
                    assert(forall|k: int|
                        0 <= k < n - 1 ==> msg_views(out@)[k] == #[trigger] msg_views(pre_out)[k]);
                    assert(msg_views(out@)[n - 1] == m@);
                    if b == n - 1 && a < n - 1 {
                        assert(pin_time(msg_views(pre_out).last()) >= pin_time(pre_v[mx as int]@));
                        assert(pin_time(msg_views(pre_out)[a]) >= pin_time(
                            msg_views(pre_out).last(),
                        ));
                    }
                }
                assert forall|k: int| 0 <= k < v@.len() implies pin_time(msg_views(out@).last())
                    >= pin_time(#[trigger] v@[k]@) by {
                    let pk = if k < mx {
                        k
                    } else {
                        k + 1
                    };
                    assert(v@[k] == pre_v[pk]);
                    assert(pin_time(pre_v[pk]@) <= pin_time(pre_v[mx as int]@));
                }
            }
        }
        proof {
            broadcast use vstd::seq_lib::group_to_multiset_ensures;

            assert(msg_views(v@) =~= Seq::<MessageView>::empty());
            assert(msg_views(v@).to_multiset() =~= Multiset::<MessageView>::empty());
            assert(msg_views(out@).to_multiset().add(Multiset::<MessageView>::empty())
                =~= msg_views(out@).to_multiset());
        }
        *v = out;
    }

    /// The pinned messages of the room, most recently pinned first.
    pub fn get_pinned_messages(&self, room_id: u64) -> (r: Vec<Message>)
        ensures
            sorted_by_pin_desc(msg_views(r@)),
            msg_views(r@).to_multiset() == pinned_feed(
                msg_views(self.messages@),
                room_id,
            ).to_multiset(),
    {
        let ghost vs = msg_views(self.messages@);
        proof {
            assert(vs.take(vs.len() as int) =~= vs);
        }
        let mut feed: Vec<Message> = Vec::new();
        let mut i: usize = self.messages.len();
        while i > 0
            invariant
                vs == msg_views(self.messages@),
                vs.len() == self.messages@.len(),
                i <= self.messages@.len(),
                pinned_feed(vs, room_id) == msg_views(feed@) + pinned_feed(
                    vs.take(i as int),
                    room_id,
                ),
            decreases i,
        {
            i = i - 1;
            proof {
                assert(vs.take(i as int + 1).drop_last() =~= vs.take(i as int));
                assert(vs.take(i as int + 1).last() == vs[i as int]);
                assert(vs[i as int] == self.messages@[i as int]@);
            }
            let room_ok = match self.messages[i].room_id {
                Some(rid) => rid == room_id,
                None => false,
            };
            if room_ok && self.messages[i].is_pinned {
                let ghost pre = feed@;
                let d = self.messages[i].duplicate();
                proof {
                    crate::messages::lemma_msg_views_push(pre, d);
                }
                feed.push(d);
                proof {
                    assert(msg_views(pre).push(vs[i as int]) + pinned_feed(
                        vs.take(i as int),
                        room_id,
                    ) =~= msg_views(pre) + (seq![vs[i as int]] + pinned_feed(
                        vs.take(i as int),
                        room_id,
                    )));
                }
            }
        }
        proof {
            assert(vs.take(0) =~= Seq::<MessageView>::empty());
            assert(msg_views(feed@) + pinned_feed(vs.take(0), room_id) =~= msg_views(feed@));
        }
        let mut feed = feed;
        Database::sort_by_pin_desc(&mut feed);
        feed
    }

    /// The users mentioned by the message, in recording order.
    pub fn get_message_mentions(&self, message_id: u64) -> (r: Vec<u64>)
        ensures
            r@ == mention_ids_of(self.mentions@, message_id),
    {
        let ghost all = mention_ids_of(self.mentions@, message_id);
        proof {
            assert(self.mentions@.skip(0) =~= self.mentions@);
        }
        let mut r: Vec<u64> = Vec::new();
        let mut i: usize = 0;
        while i < self.mentions.len()
            invariant
                i <= self.mentions@.len(),
                all == mention_ids_of(self.mentions@, message_id),
                all == r@ + mention_ids_of(self.mentions@.skip(i as int), message_id),
            decreases self.mentions@.len() - i,
        {
            proof {
                assert(self.mentions@.skip(i as int).drop_first() =~= self.mentions@.skip(
                    i as int + 1,
                ));
                assert(self.mentions@.skip(i as int)[0] == self.mentions@[i as int]);
            }
            if self.mentions[i].message_id == message_id {
                let ghost pre = r@;
                r.push(self.mentions[i].mentioned_user_id);
                proof {
                    assert(pre.push(self.mentions@[i as int].mentioned_user_id) + mention_ids_of(
                        self.mentions@.skip(i as int + 1),
                        message_id,
                    ) =~= pre + (seq![self.mentions@[i as int].mentioned_user_id] + mention_ids_of(
                        self.mentions@.skip(i as int + 1),
                        message_id,
                    )));
                }
            }
            i = i + 1;
        }
        proof {
            assert(self.mentions@.skip(self.mentions@.len() as int) =~= Seq::<Mention>::empty());
            assert(r@ + mention_ids_of(Seq::<Mention>::empty(), message_id) =~= r@);
        }
        r
    }

    /// How many unread mentions the user has.
    pub fn get_unread_mentions_count(&self, user_id: u64) -> (r: usize)
        ensures
            r as int == unread_mentions_count(self.mentions@, user_id),
    {
        let mut c: usize = 0;
        let mut i: usize = 0;
        while i < self.mentions.len()
            invariant
                i <= self.mentions@.len(),
                c <= i,
                c as int == unread_mentions_count(self.mentions@.take(i as int), user_id),
            decreases self.mentions@.len() - i,
        {
            proof {
                assert(self.mentions@.take(i as int + 1).drop_last() =~= self.mentions@.take(
                    i as int,
                ));
                assert(self.mentions@.take(i as int + 1).last() == self.mentions@[i as int]);
            }
            if self.mentions[i].mentioned_user_id == user_id && !self.mentions[i].is_read {
                c = c + 1;
            }
            i = i + 1;
        }
        proof {
            assert(self.mentions@.take(self.mentions@.len() as int) =~= self.mentions@);
        }
        c
    }

    /// How many unread private messages the user has received.
    pub fn get_unread_private_message_count(&self, user_id: u64) -> (r: usize)
        ensures
            r as int == unread_private_count(msg_views(self.messages@), user_id),
    {
        let ghost vs = msg_views(self.messages@);
        let mut c: usize = 0;
        let mut i: usize = 0;
        while i < self.messages.len()
            invariant
                vs == msg_views(self.messages@),
                vs.len() == self.messages@.len(),
                i <= self.messages@.len(),
                c <= i,
                c as int == unread_private_count(vs.take(i as int), user_id),
            decreases self.messages@.len() - i,
        {
            proof {
                assert(vs.take(i as int + 1).drop_last() =~= vs.take(i as int));
                assert(vs.take(i as int + 1).last() == vs[i as int]);
                assert(vs[i as int] == self.messages@[i as int]@);
            }
            let is_private = match self.messages[i].message_type {
                MessageType::Private => true,
                _ => false,
            };
            let recv_ok = match self.messages[i].receiver_id {
                Some(rid) => rid == user_id,
                None => false,
            };
            if is_private && recv_ok && !self.messages[i].is_read {
                c = c + 1;
            }
            i = i + 1;
        }
        proof {
            assert(vs.take(vs.len() as int) =~= vs);
        }
        c
    }

    /// Marks the user's mention by the message read; a no-op when no such
    /// mention exists.
    pub fn mark_mention_as_read(&mut self, user_id: u64, message_id: u64, now: i64)
        requires
            old(self).wf(),
        ensures
            final(self).wf(),
            final(self).users == old(self).users,
            final(self).sessions == old(self).sessions,
            final(self).rooms == old(self).rooms,
            final(self).members == old(self).members,
            final(self).messages == old(self).messages,
            final(self).next_id == old(self).next_id,
            final(self).last_ts == old(self).last_ts,
            !has_mention(old(self).mentions@, message_id, user_id) ==> *final(self) == *old(self),
            has_mention(old(self).mentions@, message_id, user_id) ==> exists|i: int|
                {
                    &&& 0 <= i < old(self).mentions@.len()
                    &&& (#[trigger] old(self).mentions@[i]).message_id == message_id
                    &&& old(self).mentions@[i].mentioned_user_id == user_id
                    &&& final(self).mentions@ == old(self).mentions@.update(
                        i,
                        read_mention(old(self).mentions@[i], now),
                    )
                },
    {
        let ghost pre = self.mentions@;
        let mut i: usize = 0;
        while i < self.mentions.len()
            invariant
                i <= self.mentions@.len(),
                *self == *old(self),
                pre == old(self).mentions@,
                old(self).wf(),
                forall|k: int|
                    0 <= k < i ==> ((#[trigger] pre[k]).message_id != message_id
                        || pre[k].mentioned_user_id != user_id),
            decreases self.mentions@.len() - i,
        {
            if self.mentions[i].message_id == message_id && self.mentions[i].mentioned_user_id
                == user_id {
                let mut mn = self.mentions.remove(i);
                mn.is_read = true;
                mn.read_at = Some(now);
                self.mentions.insert(i, mn);
                proof {
                    assert(self.mentions@ =~= pre.update(
                        i as int,
                        read_mention(pre[i as int], now),
                    ));
                    assert forall|a: int, b: int|
                        0 <= a < b < self.mentions@.len() implies ((
                    #[trigger] self.mentions@[a]).id != (#[trigger] self.mentions@[b]).id && (
                    self.mentions@[a].message_id != self.mentions@[b].message_id
                        || self.mentions@[a].mentioned_user_id
                        != self.mentions@[b].mentioned_user_id)) by {
                        assert(self.mentions@[a].id == pre[a].id && self.mentions@[b].id
                            == pre[b].id);
                        assert(self.mentions@[a].message_id == pre[a].message_id
                            && self.mentions@[b].message_id == pre[b].message_id);
                        assert(self.mentions@[a].mentioned_user_id == pre[a].mentioned_user_id
                            && self.mentions@[b].mentioned_user_id == pre[b].mentioned_user_id);
                    }
                    assert(forall|a: int|
                        0 <= a < self.mentions@.len() ==> (#[trigger] self.mentions@[a]).id
                            == pre[a].id && self.mentions@[a].message_id == pre[a].message_id);
                }
                return;
            }
            i = i + 1;
        }
    }

    /// Marks every unread mention of the user on the room's messages read.
    pub fn mark_room_mentions_as_read(&mut self, user_id: u64, room_id: u64, now: i64)
        requires
            old(self).wf(),
        ensures
            final(self).wf(),
            final(self).users == old(self).users,
            final(self).sessions == old(self).sessions,
            final(self).rooms == old(self).rooms,
            final(self).members == old(self).members,
            final(self).messages == old(self).messages,
            final(self).next_id == old(self).next_id,
            final(self).last_ts == old(self).last_ts,
            final(self).mentions@.len() == old(self).mentions@.len(),
            forall|k: int|
                0 <= k < old(self).mentions@.len() ==> final(self).mentions@[k] == (
                if room_mention_read_target(
                    #[trigger] old(self).mentions@[k],
                    user_id,
                    msg_views(old(self).messages@),
                    room_id,
                ) {
                    read_mention(old(self).mentions@[k], now)
                } else {
                    old(self).mentions@[k]
                }),
    {
        let ghost pre = self.mentions@;
        let ghost vs = msg_views(self.messages@);
        let mut i: usize = 0;
        while i < self.mentions.len()
            invariant
                i <= self.mentions@.len(),
                old(self).wf(),
                pre == old(self).mentions@,
                vs == msg_views(old(self).messages@),
                self.users == old(self).users,
                self.sessions == old(self).sessions,
                self.rooms == old(self).rooms,
                self.members == old(self).members,
                self.messages == old(self).messages,
                self.next_id == old(self).next_id,
                self.last_ts == old(self).last_ts,
                self.mentions@.len() == pre.len(),
                forall|k: int|
                    i <= k < pre.len() ==> self.mentions@[k] == #[trigger] pre[k],
                forall|k: int|
                    0 <= k < i ==> self.mentions@[k] == (
                    if room_mention_read_target(#[trigger] pre[k], user_id, vs, room_id) {
                        read_mention(pre[k], now)
                    } else {
                        pre[k]
                    }),
            decreases self.mentions@.len() - i,
        {
            let mid = self.mentions[i].message_id;
            if self.mentions[i].mentioned_user_id == user_id && !self.mentions[i].is_read {
                let in_room = match self.msg_index_by_id(mid) {
                    Some(j) => {
                        proof {
                            assert(vs[j as int] == self.messages@[j as int]@);
                            let w = choose|w: int|
                                0 <= w < vs.len() && (#[trigger] vs[w]).id == mid;
                            if w != j {
                                assert(messages_wf(vs, old(self).next_id));
                            }
                            assert(msg_by_id(vs, mid) == vs[j as int]);
                        }
                        match self.messages[j].room_id {
                            Some(rid) => rid == room_id,
                            None => false,
                        }
                    },
                    None => false,
                };
                proof {
                    assert(in_room == mention_in_room(pre[i as int], vs, room_id));
                }
                if in_room {
                    let ghost mid_state = self.mentions@;
                    let mut mn = self.mentions.remove(i);
                    mn.is_read = true;
                    mn.read_at = Some(now);
                    self.mentions.insert(i, mn);
                    proof {
                        assert(self.mentions@ =~= mid_state.update(
                            i as int,
                            read_mention(pre[i as int], now),
                        ));
                    }
                }
            }
            i = i + 1;
        }
        proof {
            let fin = self.mentions@;
            assert forall|a: int, b: int|
                0 <= a < b < fin.len() implies ((#[trigger] fin[a]).id != (#[trigger] fin[b]).id
                && (fin[a].message_id != fin[b].message_id || fin[a].mentioned_user_id
                != fin[b].mentioned_user_id)) by {
                assert(fin[a].id == pre[a].id && fin[b].id == pre[b].id);
                assert(fin[a].message_id == pre[a].message_id && fin[b].message_id
                    == pre[b].message_id);
                assert(fin[a].mentioned_user_id == pre[a].mentioned_user_id
                    && fin[b].mentioned_user_id == pre[b].mentioned_user_id);
            }
            assert forall|a: int| 0 <= a < fin.len() implies (#[trigger] fin[a]).id < self.next_id
                && (#[trigger] fin[a]).message_id < self.next_id by {
                assert(fin[a].id == pre[a].id && fin[a].message_id == pre[a].message_id);
            }
        }
    }

    /// Marks every unread private message from the sender to the receiver
    /// read.
    pub fn mark_private_conversation_as_read(&mut self, receiver_id: u64, sender_id: u64, now: i64)
        requires
            old(self).wf(),
        ensures
            final(self).wf(),
            final(self).users == old(self).users,
            final(self).sessions == old(self).sessions,
            final(self).rooms == old(self).rooms,
            final(self).members == old(self).members,
            final(self).mentions == old(self).mentions,
            final(self).next_id == old(self).next_id,
            final(self).last_ts == old(self).last_ts,
            msg_views(final(self).messages@).len() == msg_views(old(self).messages@).len(),
            forall|k: int|
                0 <= k < old(self).messages@.len() ==> msg_views(final(self).messages@)[k] == (
                if conv_read_target(
                    #[trigger] msg_views(old(self).messages@)[k],
                    receiver_id,
                    sender_id,
                ) {
                    read_view(msg_views(old(self).messages@)[k], now)
                } else {
                    msg_views(old(self).messages@)[k]
                }),
    {
        let ghost pre = self.messages@;
        let ghost vs = msg_views(pre);
        let mut i: usize = 0;
        while i < self.messages.len()
            invariant
                i <= self.messages@.len(),
                old(self).wf(),
                pre == old(self).messages@,
                vs == msg_views(pre),
                vs.len() == pre.len(),
                self.users == old(self).users,
                self.sessions == old(self).sessions,
                self.rooms == old(self).rooms,
                self.members == old(self).members,
                self.mentions == old(self).mentions,
                self.next_id == old(self).next_id,
                self.last_ts == old(self).last_ts,
                self.messages@.len() == pre.len(),
                forall|k: int|
                    i <= k < pre.len() ==> self.messages@[k] == #[trigger] pre[k],
                forall|k: int|
                    0 <= k < i ==> msg_views(self.messages@)[k] == (
                    if conv_read_target(#[trigger] vs[k], receiver_id, sender_id) {
                        read_view(vs[k], now)
                    } else {
                        vs[k]
                    }),
            decreases self.messages@.len() - i,
        {
            proof {
                assert(msg_views(self.messages@)[i as int] == self.messages@[i as int]@);
                assert(vs[i as int] == pre[i as int]@);
            }
            let is_private = match self.messages[i].message_type {
                MessageType::Private => true,
                _ => false,
            };
            let recv_ok = match self.messages[i].receiver_id {
                Some(rid) => rid == receiver_id,
                None => false,
            };
            if is_private && recv_ok && self.messages[i].sender_id == sender_id
                && !self.messages[i].is_read {
                let mut m = self.messages.remove(i);
                m.is_read = true;
                m.read_at = Some(now);
                self.messages.insert(i, m);
                proof {
                    assert(forall|k: int|
                        0 <= k < pre.len() && k != i ==> msg_views(self.messages@)[k]
                            == self.messages@[k]@);
                    assert(msg_views(self.messages@)[i as int] == read_view(vs[i as int], now));
                }
            }
            i = i + 1;
        }
        proof {
            let fin = msg_views(self.messages@);
            assert forall|a: int, b: int| 0 <= a < b < fin.len() implies (#[trigger] fin[a]).id
                != (#[trigger] fin[b]).id by {
                assert(fin[a].id == vs[a].id && fin[b].id == vs[b].id);
            }
            assert forall|a: int|
                0 <= a < fin.len() implies (#[trigger] fin[a]).id < self.next_id && msg_shape_ok(
                fin[a]) && wf_reactions(fin[a].reactions) by {
                assert(fin[a].id == vs[a].id);
                if conv_read_target(vs[a], receiver_id, sender_id) {
                    assert(fin[a] == read_view(vs[a], now));
                } else {
                    assert(fin[a] == vs[a]);
                }
            }
            assert forall|a: int, b: int| 0 <= a <= b < fin.len() implies (
            #[trigger] fin[a]).sent_at <= (#[trigger] fin[b]).sent_at by {
                assert(fin[a].sent_at == vs[a].sent_at && fin[b].sent_at == vs[b].sent_at);
            }
            assert forall|a: int| 0 <= a < fin.len() implies (#[trigger] fin[a]).sent_at
                <= self.last_ts by {
                assert(fin[a].sent_at == vs[a].sent_at);
            }
        }
    }

}

proof fn lemma_everyone_ids_exclude_sender(
    members: Seq<RoomMember>,
    users: Seq<User>,
    room_id: u64,
    sender_id: u64,
)
    ensures
        !everyone_ids(members, users, room_id, sender_id).contains(sender_id),
    decreases members.len(),
{
    if members.len() > 0 {
        lemma_everyone_ids_exclude_sender(members.drop_first(), users, room_id, sender_id);
        let r = everyone_ids(members, users, room_id, sender_id);
        let rest = everyone_ids(members.drop_first(), users, room_id, sender_id);
        if r.contains(sender_id) {
            let k = choose|k: int| 0 <= k < r.len() && r[k] == sender_id;
            let m = members[0];
            if m.room_id == room_id && m.user_id != sender_id && has_user_id(users, m.user_id) {
                if k > 0 {
                    assert(rest[k - 1] == sender_id);
                    assert(rest.contains(sender_id));
                }
            } else {
                assert(rest[k] == sender_id);
                assert(rest.contains(sender_id));
            }
        }
    }
}

proof fn lemma_resolve_tokens_exclude_sender(
    users: Seq<User>,
    tokens: Seq<Seq<char>>,
    sender_id: u64,
    acc: Seq<u64>,
)
    requires
        !acc.contains(sender_id),
    ensures
        !resolve_tokens(users, tokens, sender_id, acc).contains(sender_id),
    decreases tokens.len(),
{
    if tokens.len() > 0 {
        let t = tokens[0];
        let rest = tokens.drop_first();
        if has_username(users, t) && user_by_name(users, t).id != sender_id && !acc.contains(
            user_by_name(users, t).id,
        ) {
            let acc2 = acc.push(user_by_name(users, t).id);
            assert(!acc2.contains(sender_id)) by {
                if acc2.contains(sender_id) {
                    let k = choose|k: int| 0 <= k < acc2.len() && acc2[k] == sender_id;
                    if k < acc.len() {
                        assert(acc[k] == sender_id);
                        assert(acc.contains(sender_id));
                    }
                }
            }
            lemma_resolve_tokens_exclude_sender(users, rest, sender_id, acc2);
        } else {
            lemma_resolve_tokens_exclude_sender(users, rest, sender_id, acc);
        }
    }
}

/// A room message never notifies its own sender: neither "@everyone" nor a
/// literal "@name" mention of the sender puts the sender on the notified
/// list.
pub proof fn lemma_mentions_exclude_sender(
    members: Seq<RoomMember>,
    users: Seq<User>,
    content: Seq<char>,
    room_id: u64,
    sender_id: u64,
)
    ensures
        !spec_mentioned_ids(members, users, content, room_id, sender_id).contains(sender_id),
{
    if crate::text::everyone_mentioned(content) {
        lemma_everyone_ids_exclude_sender(members, users, room_id, sender_id);
    } else {
        lemma_resolve_tokens_exclude_sender(
            users,
            crate::text::mention_tokens(content),
            sender_id,
            Seq::empty(),
        );
    }
}

/// Pinning sets all three pin fields; unpinning clears them; doing one
/// after the other restores an unpinned message exactly.
pub proof fn lemma_pin_round_trip(m: MessageView, user_id: u64, now: i64)
    requires
        !m.is_pinned,
        m.pinned_at is None,
        m.pinned_by is None,
    ensures
        pinned_view(m, user_id, now).is_pinned,
        pinned_view(m, user_id, now).pinned_at == Some(now),
        pinned_view(m, user_id, now).pinned_by == Some(user_id),
        unpinned_view(pinned_view(m, user_id, now)) == m,
{
}

/// Marking one mention read never raises a user's unread count.
pub proof fn lemma_unread_count_update_read(pre: Seq<Mention>, i: int, user_id: u64, now: i64)
    requires
        0 <= i < pre.len(),
    ensures
        unread_mentions_count(pre.update(i, read_mention(pre[i], now)), user_id)
            <= unread_mentions_count(pre, user_id),
    decreases pre.len(),
{
    let upd = pre.update(i, read_mention(pre[i], now));
    if i == pre.len() - 1 {
        assert(upd.drop_last() =~= pre.drop_last());
        assert(upd.last() == read_mention(pre[i], now));
    } else {
        assert(upd.drop_last() =~= pre.drop_last().update(i, read_mention(pre[i], now)));
        assert(upd.last() == pre.last());
        assert(pre.drop_last()[i] == pre[i]);
        lemma_unread_count_update_read(pre.drop_last(), i, user_id, now);
    }
}

/// No more distinct ids can occur in a list than there are users holding
/// them.
pub proof fn lemma_distinct_ids_bound(ids: Seq<u64>, users: Seq<User>)
    requires
        forall|a: int, b: int| 0 <= a < b < ids.len() ==> ids[a] != ids[b],
        forall|k: int| 0 <= k < ids.len() ==> has_user_id(users, #[trigger] ids[k]),
    ensures
        ids.len() <= users.len(),
    decreases ids.len(),
{
    if ids.len() > 0 {
        let x = ids.last();
        let w = choose|w: int| 0 <= w < users.len() && (#[trigger] users[w]).id == x;
        let users2 = users.remove(w);
        let ids2 = ids.drop_last();
        assert forall|k: int| 0 <= k < ids2.len() implies has_user_id(users2, #[trigger] ids2[k]) by {
            assert(ids[k] == ids2[k]);
            let v = choose|v: int| 0 <= v < users.len() && (#[trigger] users[v]).id == ids[k];
            assert(ids2[k] != x);
            assert(v != w);
            if v < w {
                assert(users2[v].id == ids2[k]);
            } else {
                assert(users2[v - 1].id == ids2[k]);
            }
        }
        lemma_distinct_ids_bound(ids2, users2);
    }
}

} // verus!
