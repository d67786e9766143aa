use vstd::prelude::*;
use crate::util::copy_u64_vec;
use crate::util::copy_string_vec;

verus! {

/// The three kinds of message: posted to a room, sent to one user, or a
/// server announcement inside a room.
#[derive(Clone, Copy, Debug, PartialEq, Eq, Structural)]
pub enum MessageType {
    Room,
    Private,
    Server,
}

/// An emoji-keyed tally of the users who reacted to a message. The count
/// always equals the number of listed users.
#[derive(Clone, Debug)]
pub struct ReactionSummary {
    pub emoji: String,
    pub count: usize,
    pub user_ids: Vec<u64>,
    pub usernames: Vec<String>,
}

/// A persisted message. Exactly one of room_id/receiver_id is set, matching
/// the message type. Timestamps are seconds since the Unix epoch.
#[derive(Clone, Debug)]
pub struct Message {
    pub id: u64,
    pub sender_id: u64,
    pub message_type: MessageType,
    pub room_id: Option<u64>,
    pub receiver_id: Option<u64>,
    pub content: String,
    pub sent_at: i64,
    pub read_at: Option<i64>,
    pub is_read: bool,
    pub is_edited: bool,
    pub edited_at: Option<i64>,
    pub reply_to_message_id: Option<u64>,
    pub reactions: Vec<ReactionSummary>,
    pub is_pinned: bool,
    pub pinned_at: Option<i64>,
    pub pinned_by: Option<u64>,
}

/// A persisted room.
#[derive(Clone, Debug)]
pub struct Room {
    pub id: u64,
    pub name: String,
    pub desc: String,
    pub created_by: u64,
    pub created_at: i64,
}

/// A persisted room membership; the (room_id, user_id) pair is unique.
#[derive(Clone, Copy, Debug)]
pub struct RoomMember {
    pub room_id: u64,
    pub user_id: u64,
    pub joined_at: i64,
}

/// A persisted mention: one user notified by one message, at most once per
/// (message, user) pair.
#[derive(Clone, Copy, Debug)]
pub struct Mention {
    pub id: u64,
    pub message_id: u64,
    pub mentioned_user_id: u64,
    pub is_read: bool,
    pub notified_at: Option<i64>,
    pub read_at: Option<i64>,
    pub created_at: i64,
}

// Requests

#[derive(Clone, Debug)]
pub struct SendRoomMessageRequest {
    pub room_id: u64,
    pub content: String,
    pub reply_to_message_id: Option<u64>,
}

#[derive(Clone, Debug)]
pub struct SendPrivateMessageRequest {
    pub receiver_username: String,
    pub content: String,
}

#[derive(Clone, Debug)]
pub struct GetRoomMessagesRequest {
    pub room_id: u64,
    pub limit: Option<usize>,
    pub offset: Option<usize>,
}

#[derive(Clone, Debug)]
pub struct GetPrivateMessagesRequest {
    pub with_user: Option<String>,
    pub limit: Option<usize>,
    pub offset: Option<usize>,
    pub unread_only: bool,
}

// Responses

#[derive(Clone, Debug)]
pub struct MessageReplyContext {
    pub id: u64,
    pub sender_username: String,
    pub content: String,
    pub sent_at: i64,
}

#[derive(Clone, Debug)]
pub struct RoomMessageResponse {
    pub id: u64,
    pub sender_username: String,
    pub message_type: MessageType,
    pub room_id: u64,
    pub room_name: String,
    pub content: String,
    pub sent_at: i64,
    pub is_edited: bool,
    pub edited_at: Option<i64>,
    pub mentions: Vec<u64>,
    pub reply_to: Option<MessageReplyContext>,
}

#[derive(Clone, Debug)]
pub struct PrivateMessageResponse {
    pub id: u64,
    pub sender_username: String,
    pub receiver_username: String,
    pub content: String,
    pub sent_at: i64,
    pub read_at: Option<i64>,
    pub is_read: bool,
    pub is_edited: bool,
    pub edited_at: Option<i64>,
}

impl Default for GetRoomMessagesRequest {
    fn default() -> (r: Self)
        ensures
            r.room_id == 0,
            r.limit == Some(100usize),
            r.offset == Some(0usize),
    {
        Self { room_id: 0, limit: Some(100), offset: Some(0) }
    }
}

impl Default for GetPrivateMessagesRequest {
    fn default() -> (r: Self)
        ensures
            r.with_user is None,
            r.limit == Some(100usize),
            r.offset == Some(0usize),
            !r.unread_only,
    {
        Self { with_user: None, limit: Some(100), offset: Some(0), unread_only: false }
    }
}

/// The mathematical content of a reaction tally.
pub struct ReactionView {
    pub emoji: Seq<char>,
    pub count: nat,
    pub users: Seq<u64>,
    pub names: Seq<Seq<char>>,
}

impl View for ReactionSummary {
    type V = ReactionView;

    open spec fn view(&self) -> ReactionView {
        ReactionView {
            emoji: self.emoji@,
            count: self.count as nat,
            users: self.user_ids@,
            names: self.usernames@.map_values(|s: String| s@),
        }
    }
}

/// The mathematical content of a reaction list.
pub open spec fn reaction_views(s: Seq<ReactionSummary>) -> Seq<ReactionView> {
    s.map_values(|r: ReactionSummary| r@)
}

/// The mathematical content of a message.
pub struct MessageView {
    pub id: u64,
    pub sender_id: u64,
    pub message_type: MessageType,
    pub room_id: Option<u64>,
    pub receiver_id: Option<u64>,
    pub content: Seq<char>,
    pub sent_at: i64,
    pub read_at: Option<i64>,
    pub is_read: bool,
    pub is_edited: bool,
    pub edited_at: Option<i64>,
    pub reply_to_message_id: Option<u64>,
    pub reactions: Seq<ReactionView>,
    pub is_pinned: bool,
    pub pinned_at: Option<i64>,
    pub pinned_by: Option<u64>,
}

impl View for Message {
    type V = MessageView;

    open spec fn view(&self) -> MessageView {
        MessageView {
            id: self.id,
            sender_id: self.sender_id,
            message_type: self.message_type,
            room_id: self.room_id,
            receiver_id: self.receiver_id,
            content: self.content@,
            sent_at: self.sent_at,
            read_at: self.read_at,
            is_read: self.is_read,
            is_edited: self.is_edited,
            edited_at: self.edited_at,
            reply_to_message_id: self.reply_to_message_id,
            reactions: reaction_views(self.reactions@),
            is_pinned: self.is_pinned,
            pinned_at: self.pinned_at,
            pinned_by: self.pinned_by,
        }
    }
}

/// The mathematical content of a message list.
pub open spec fn msg_views(s: Seq<Message>) -> Seq<MessageView> {
    s.map_values(|m: Message| m@)
}

pub proof fn lemma_reaction_views_push(s: Seq<ReactionSummary>, x: ReactionSummary)
    ensures
        reaction_views(s.push(x)) == reaction_views(s).push(x@),
{
    assert(reaction_views(s.push(x)) =~= reaction_views(s).push(x@));
}

pub proof fn lemma_msg_views_push(s: Seq<Message>, x: Message)
    ensures
        msg_views(s.push(x)) == msg_views(s).push(x@),
{
    assert(msg_views(s.push(x)) =~= msg_views(s).push(x@));
}

impl ReactionSummary {
    /// A field-for-field copy with the same mathematical content.
    pub fn duplicate(&self) -> (r: ReactionSummary)
        ensures
            r@ == self@,
    {
        let user_ids = copy_u64_vec(&self.user_ids);
        let usernames = copy_string_vec(&self.usernames);
        ReactionSummary { emoji: self.emoji.clone(), count: self.count, user_ids, usernames }
    }
}

/// An element-for-element copy of a reaction list, with the same
/// mathematical content.
pub fn copy_reactions(v: &Vec<ReactionSummary>) -> (r: Vec<ReactionSummary>)
    ensures
        reaction_views(r@) == reaction_views(v@),
{
    let mut r: Vec<ReactionSummary> = Vec::new();
    let mut i: usize = 0;
    while i < v.len()
        invariant
            i <= v@.len(),
            reaction_views(r@) == reaction_views(v@.take(i as int)),
        decreases v@.len() - i,
    {
        let ghost pre = r@;
        let d = v[i].duplicate();
        proof {
            lemma_reaction_views_push(pre, d);
            lemma_reaction_views_push(v@.take(i as int), v@[i as int]);
            assert(v@.take(i as int + 1) =~= v@.take(i as int).push(v@[i as int]));
        }
        r.push(d);
        i = i + 1;
    }
    proof {
        assert(v@.take(v@.len() as int) =~= v@);
    }
    r
}

impl Message {
    /// A field-for-field copy with the same mathematical content.
    pub fn duplicate(&self) -> (r: Message)
        ensures
            r@ == self@,
    {
        let reactions = copy_reactions(&self.reactions);
        Message {
            id: self.id,
            sender_id: self.sender_id,
            message_type: self.message_type,
            room_id: self.room_id,
            receiver_id: self.receiver_id,
            content: self.content.clone(),
            sent_at: self.sent_at,
            read_at: self.read_at,
            is_read: self.is_read,
            is_edited: self.is_edited,
            edited_at: self.edited_at,
            reply_to_message_id: self.reply_to_message_id,
            reactions,
            is_pinned: self.is_pinned,
            pinned_at: self.pinned_at,
            pinned_by: self.pinned_by,
        }
    }
}

/// An element-for-element copy of a message list, with the same
/// mathematical content.
pub fn copy_messages(v: &Vec<Message>) -> (r: Vec<Message>)
    ensures
        msg_views(r@) == msg_views(v@),
{
    let mut r: Vec<Message> = Vec::new();
    let mut i: usize = 0;
    while i < v.len()
        invariant
            i <= v@.len(),
            msg_views(r@) == msg_views(v@.take(i as int)),
        decreases v@.len() - i,
    {
        let ghost pre = r@;
        let d = v[i].duplicate();
        proof {
            lemma_msg_views_push(pre, d);
            lemma_msg_views_push(v@.take(i as int), v@[i as int]);
            assert(v@.take(i as int + 1) =~= v@.take(i as int).push(v@[i as int]));
        }
        r.push(d);
        i = i + 1;
    }
    proof {
        assert(v@.take(v@.len() as int) =~= v@);
    }
    r
}

impl Room {
    /// A field-for-field copy whose equality to the source is known to the
    /// verifier.
    pub fn duplicate(&self) -> (r: Room)
        ensures
            r == *self,
    {
        Room {
            id: self.id,
            name: self.name.clone(),
            desc: self.desc.clone(),
            created_by: self.created_by,
            created_at: self.created_at,
        }
    }
}

} // verus!
