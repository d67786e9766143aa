use spark_core::auth::AuthService;
use spark_core::error::AuthError;
use spark_core::messages::MessageType;
use spark_core::messages::SendPrivateMessageRequest;
use spark_core::messages::SendRoomMessageRequest;
use spark_core::service::MessageService;
use spark_core::store::Database;
use spark_core::users::CreateUserRequest;
use spark_core::users::LoginRequest;
use spark_core::users::Presence;

fn service_with_user_and_room() -> (MessageService, u64, u64) {
    let mut db = Database::new();
    let user = db
        .create_user("testuser", "test@example.com", "$argon2id$v=19$m=19456,t=2,p=1$test$test", 10)
        .expect("Failed to create user");
    let room = db.create_room("Test Room", "Test room description", user.id, 11);
    (MessageService::new(db), user.id, room.id)
}

fn room_req(room_id: u64, content: &str) -> SendRoomMessageRequest {
    SendRoomMessageRequest { room_id, content: content.to_string(), reply_to_message_id: None }
}

#[test]
fn test_get_room() {
    let (msg_service, _user_id, room_id) = service_with_user_and_room();

    let room = msg_service.get_room(room_id).expect("Failed to get room");
    assert!(room.is_some());

    let room = room.unwrap();
    assert_eq!(room.name, "Test Room");
}

#[test]
fn test_get_room_not_found() {
    let db = Database::new();
    let msg_service = MessageService::new(db);

    let room = msg_service.get_room(424242).expect("Failed to query room");
    assert!(room.is_none());
}

#[test]
fn test_send_room_message_requires_membership() {
    // Sending succeeds exactly when the sender holds a persisted
    // membership of the room.
    let (mut svc, alice, room) = service_with_user_and_room();
    let bob = svc.db.create_user("bob", "bob@x.com", "digest", 12).unwrap();

    let ok = svc.send_room_message(alice, room_req(room, "hello"), 20);
    assert!(ok.is_ok());

    let denied = svc.send_room_message(bob.id, room_req(room, "hello"), 21);
    assert!(matches!(denied, Err(AuthError::InvalidInput(_))));

    svc.join_room(bob.id, room, 22).unwrap();
    let allowed = svc.send_room_message(bob.id, room_req(room, "hello again"), 23);
    assert!(allowed.is_ok());
}

#[test]
fn test_message_content_validation() {
    let (mut svc, alice, room) = service_with_user_and_room();

    let empty = svc.send_room_message(alice, room_req(room, "   \n\t  "), 20);
    assert!(matches!(empty, Err(AuthError::InvalidInput(_))));

    let max: String = std::iter::repeat('a').take(10_000).collect();
    assert!(svc.send_room_message(alice, room_req(room, &max), 21).is_ok());

    let over: String = std::iter::repeat('a').take(10_001).collect();
    let too_long = svc.send_room_message(alice, room_req(room, &over), 22);
    assert!(matches!(too_long, Err(AuthError::InvalidInput(_))));
}

#[test]
fn test_room_history_scenario() {
    // register alice, log in, create "General" (alice auto-joined), send
    // "hello", and read it back from the history under alice's name.
    let mut auth = AuthService::new(Database::new());
    auth.register(
        CreateUserRequest {
            username: "alice".to_string(),
            email: "alice@x.com".to_string(),
            password: "password123".to_string(),
        },
        10,
    )
    .unwrap();
    let login = auth
        .login(
            LoginRequest { username: "alice".to_string(), password: "password123".to_string() },
            11,
        )
        .unwrap();
    let alice = login.user.id;

    let mut svc = MessageService::new(auth.db);
    let room = svc.create_room(alice, "General", "", 12).unwrap();
    assert!(svc.db.is_user_in_room(room.id, alice));

    svc.send_room_message(alice, room_req(room.id, "hello"), 20).unwrap();

    let history = svc.get_room_messages(room.id, 10, 0).unwrap();
    assert_eq!(history.len(), 1);
    assert_eq!(history[0].content, "hello");
    assert_eq!(history[0].sender_username, "alice");
    assert_eq!(history[0].room_name, "General");
}

#[test]
fn test_room_history_is_newest_first_and_paged() {
    let (mut svc, alice, room) = service_with_user_and_room();
    for i in 1..=5 {
        let content = format!("Message {}", i);
        svc.send_room_message(alice, room_req(room, &content), 20 + i).unwrap();
    }
    let all = svc.get_room_messages(room, 10, 0).unwrap();
    assert_eq!(all.len(), 5);
    assert_eq!(all[0].content, "Message 5");
    assert_eq!(all[4].content, "Message 1");

    let page = svc.get_room_messages(room, 2, 1).unwrap();
    assert_eq!(page.len(), 2);
    assert_eq!(page[0].content, "Message 4");
    assert_eq!(page[1].content, "Message 3");
}

#[test]
fn test_reply_to_checks_room() {
    let (mut svc, alice, room) = service_with_user_and_room();
    let other_room = svc.db.create_room("Other", "", alice, 12);
    let (resp, _) = svc.send_room_message(alice, room_req(room, "first"), 20).unwrap();

    let reply_ok = svc.send_room_message(
        alice,
        SendRoomMessageRequest {
            room_id: room,
            content: "reply".to_string(),
            reply_to_message_id: Some(resp.id),
        },
        21,
    );
    let (reply_resp, _) = reply_ok.unwrap();
    let ctx = reply_resp.reply_to.expect("reply context");
    assert_eq!(ctx.id, resp.id);
    assert_eq!(ctx.content, "first");
    assert_eq!(ctx.sender_username, "testuser");

    let cross_room = svc.send_room_message(
        alice,
        SendRoomMessageRequest {
            room_id: other_room.id,
            content: "bad reply".to_string(),
            reply_to_message_id: Some(resp.id),
        },
        22,
    );
    assert!(matches!(cross_room, Err(AuthError::InvalidInput(_))));

    let missing = svc.send_room_message(
        alice,
        SendRoomMessageRequest {
            room_id: room,
            content: "ghost reply".to_string(),
            reply_to_message_id: Some(999_999),
        },
        23,
    );
    assert!(matches!(missing, Err(AuthError::InvalidInput(_))));
}

#[test]
fn test_mentions_specific_user() {
    // "@name" notifies exactly the resolved user, never the sender;
    // unknown names are silently ignored.
    let (mut svc, alice, room) = service_with_user_and_room();
    let bob = svc.db.create_user("bob", "bob@x.com", "digest", 12).unwrap();
    svc.join_room(bob.id, room, 13).unwrap();

    let (_, mentioned) = svc
        .send_room_message(alice, room_req(room, "hi @bob and @nobody and @testuser"), 20)
        .unwrap();
    assert_eq!(mentioned, vec![bob.id]);

    assert_eq!(svc.get_unread_mentions_count(bob.id).unwrap(), 1);
    assert_eq!(svc.get_unread_mentions_count(alice).unwrap(), 0);
}

#[test]
fn test_mentions_everyone_excludes_sender() {
    let (mut svc, alice, room) = service_with_user_and_room();
    let bob = svc.db.create_user("bob", "bob@x.com", "digest", 12).unwrap();
    let carol = svc.db.create_user("carol", "carol@x.com", "digest", 13).unwrap();
    let outsider = svc.db.create_user("dave", "dave@x.com", "digest", 14).unwrap();
    svc.join_room(bob.id, room, 15).unwrap();
    svc.join_room(carol.id, room, 16).unwrap();

    let (_, mentioned) = svc
        .send_room_message(alice, room_req(room, "Heads up @EVERYONE please"), 20)
        .unwrap();
    assert_eq!(mentioned, vec![bob.id, carol.id]);
    assert!(!mentioned.contains(&alice));
    assert!(!mentioned.contains(&outsider.id));
}

#[test]
fn test_mention_marking_read() {
    let (mut svc, alice, room) = service_with_user_and_room();
    let bob = svc.db.create_user("bob", "bob@x.com", "digest", 12).unwrap();
    svc.join_room(bob.id, room, 13).unwrap();

    let (resp, _) = svc.send_room_message(alice, room_req(room, "hi @bob"), 20).unwrap();
    assert_eq!(svc.get_unread_mentions_count(bob.id).unwrap(), 1);

    svc.mark_mention_as_read(bob.id, resp.id, 21).unwrap();
    assert_eq!(svc.get_unread_mentions_count(bob.id).unwrap(), 0);
}

#[test]
fn test_room_mentions_marked_read_in_bulk() {
    let (mut svc, alice, room) = service_with_user_and_room();
    let bob = svc.db.create_user("bob", "bob@x.com", "digest", 12).unwrap();
    svc.join_room(bob.id, room, 13).unwrap();

    svc.send_room_message(alice, room_req(room, "one @bob"), 20).unwrap();
    svc.send_room_message(alice, room_req(room, "two @bob"), 21).unwrap();
    assert_eq!(svc.get_unread_mentions_count(bob.id).unwrap(), 2);

    svc.mark_room_mentions_as_read(bob.id, room, 22).unwrap();
    assert_eq!(svc.get_unread_mentions_count(bob.id).unwrap(), 0);
}

#[test]
fn test_reaction_round_trip() {
    // Adding and then removing a reaction by the same user restores the
    // reaction list; a repeated add is a no-op.
    let (mut svc, alice, room) = service_with_user_and_room();
    let (resp, _) = svc.send_room_message(alice, room_req(room, "react to me"), 20).unwrap();

    let after_add = svc.add_reaction(resp.id, alice, "testuser", "smile").unwrap();
    assert_eq!(after_add.len(), 1);
    assert_eq!(after_add[0].emoji, "smile");
    assert_eq!(after_add[0].count, 1);
    assert_eq!(after_add[0].user_ids, vec![alice]);
    assert_eq!(after_add[0].usernames, vec!["testuser".to_string()]);

    let after_repeat = svc.add_reaction(resp.id, alice, "testuser", "smile").unwrap();
    assert_eq!(after_repeat.len(), 1);
    assert_eq!(after_repeat[0].count, 1);

    let after_remove = svc.remove_reaction(resp.id, alice, "smile").unwrap();
    assert!(after_remove.is_empty());

    let missing = svc.add_reaction(999_999, alice, "testuser", "smile");
    assert!(matches!(missing, Err(AuthError::InvalidInput(_))));
}

#[test]
fn test_reaction_two_users_share_bucket() {
    let (mut svc, alice, room) = service_with_user_and_room();
    let bob = svc.db.create_user("bob", "bob@x.com", "digest", 12).unwrap();
    let (resp, _) = svc.send_room_message(alice, room_req(room, "popular"), 20).unwrap();

    svc.add_reaction(resp.id, alice, "testuser", "star").unwrap();
    let both = svc.add_reaction(resp.id, bob.id, "bob", "star").unwrap();
    assert_eq!(both.len(), 1);
    assert_eq!(both[0].count, 2);
    assert_eq!(both[0].user_ids, vec![alice, bob.id]);

    let after = svc.remove_reaction(resp.id, alice, "star").unwrap();
    assert_eq!(after.len(), 1);
    assert_eq!(after[0].count, 1);
    assert_eq!(after[0].user_ids, vec![bob.id]);
}

#[test]
fn test_pin_round_trip_and_order() {
    // Pinning sets all three pin fields; unpinning clears them; the pinned
    // listing is most-recently-pinned first and tracks only current pins.
    let (mut svc, alice, room) = service_with_user_and_room();
    let (m1, _) = svc.send_room_message(alice, room_req(room, "first"), 20).unwrap();
    let (m2, _) = svc.send_room_message(alice, room_req(room, "second"), 21).unwrap();

    svc.pin_message(m1.id, alice, 30).unwrap();
    svc.pin_message(m2.id, alice, 40).unwrap();

    let pinned = svc.get_pinned_messages(room).unwrap();
    assert_eq!(pinned.len(), 2);
    assert_eq!(pinned[0].id, m2.id);
    assert_eq!(pinned[0].pinned_at, Some(40));
    assert_eq!(pinned[0].pinned_by, Some(alice));
    assert!(pinned[0].is_pinned);
    assert_eq!(pinned[1].id, m1.id);

    svc.unpin_message(m2.id).unwrap();
    let pinned = svc.get_pinned_messages(room).unwrap();
    assert_eq!(pinned.len(), 1);
    assert_eq!(pinned[0].id, m1.id);

    let unpinned = svc.db.get_message_by_id(m2.id).unwrap();
    assert!(!unpinned.is_pinned);
    assert_eq!(unpinned.pinned_at, None);
    assert_eq!(unpinned.pinned_by, None);
}

#[test]
fn test_private_messages_and_unread_count() {
    let mut db = Database::new();
    let alice = db.create_user("alice", "alice@x.com", "digest", 10).unwrap();
    let bob = db.create_user("bob", "bob@x.com", "digest", 11).unwrap();
    let mut svc = MessageService::new(db);

    let resp = svc
        .send_private_message(
            alice.id,
            SendPrivateMessageRequest {
                receiver_username: "bob".to_string(),
                content: "psst".to_string(),
            },
            20,
        )
        .unwrap();
    assert_eq!(resp.sender_username, "alice");
    assert_eq!(resp.receiver_username, "bob");
    assert!(!resp.is_read);

    assert_eq!(svc.get_unread_private_message_count(bob.id).unwrap(), 1);
    assert_eq!(svc.get_unread_private_message_count(alice.id).unwrap(), 0);

    svc.mark_private_messages_as_read(resp.id, 21).unwrap();
    assert_eq!(svc.get_unread_private_message_count(bob.id).unwrap(), 0);

    let unknown = svc.send_private_message(
        alice.id,
        SendPrivateMessageRequest {
            receiver_username: "nobody".to_string(),
            content: "void".to_string(),
        },
        22,
    );
    assert!(matches!(unknown, Err(AuthError::UserNotFound)));
}

#[test]
fn test_private_conversation_listing_and_bulk_read() {
    let mut db = Database::new();
    let alice = db.create_user("alice", "alice@x.com", "digest", 10).unwrap();
    let bob = db.create_user("bob", "bob@x.com", "digest", 11).unwrap();
    let mut svc = MessageService::new(db);

    for (i, text) in ["one", "two", "three"].iter().enumerate() {
        svc.send_private_message(
            alice.id,
            SendPrivateMessageRequest {
                receiver_username: "bob".to_string(),
                content: text.to_string(),
            },
            20 + i as i64,
        )
        .unwrap();
    }

    let listing = svc
        .get_private_messages(
            bob.id,
            spark_core::messages::GetPrivateMessagesRequest {
                with_user: Some("alice".to_string()),
                limit: None,
                offset: None,
                unread_only: false,
            },
        )
        .unwrap();
    assert_eq!(listing.len(), 3);
    assert_eq!(listing[0].content, "three");
    assert_eq!(listing[2].content, "one");

    svc.mark_private_conversation_as_read(bob.id, "alice", 30).unwrap();
    assert_eq!(svc.get_unread_private_message_count(bob.id).unwrap(), 0);
}

#[test]
fn test_edit_and_delete_message() {
    let (mut svc, alice, room) = service_with_user_and_room();
    let bob = svc.db.create_user("bob", "bob@x.com", "digest", 12).unwrap();
    let (resp, _) = svc.send_room_message(alice, room_req(room, "typo"), 20).unwrap();

    svc.edit_message(resp.id, "fixed", 21).unwrap();
    let edited = svc.db.get_message_by_id(resp.id).unwrap();
    assert_eq!(edited.content, "fixed");
    assert!(edited.is_edited);
    assert_eq!(edited.edited_at, Some(21));

    let rejected = svc.edit_message(resp.id, "   ", 22);
    assert!(matches!(rejected, Err(AuthError::InvalidInput(_))));

    // only the sender's delete removes the message
    svc.delete_message(bob.id, resp.id).unwrap();
    assert!(svc.db.get_message_by_id(resp.id).is_some());
    svc.delete_message(alice, resp.id).unwrap();
    assert!(svc.db.get_message_by_id(resp.id).is_none());
}

#[test]
fn test_announcement_is_tagged_server() {
    let (mut svc, alice, room) = service_with_user_and_room();
    let resp = svc
        .send_room_announcement(alice, room_req(room, "system notice"), 20)
        .unwrap();
    assert_eq!(resp.sender_username, "Server");
    assert!(matches!(resp.message_type, MessageType::Server));
    assert!(resp.mentions.is_empty());

    let history = svc.get_room_messages(room, 10, 0).unwrap();
    assert_eq!(history.len(), 1);
    assert_eq!(history[0].sender_username, "Server");
}

#[test]
fn test_join_and_leave_room_are_idempotent() {
    let (mut svc, alice, room) = service_with_user_and_room();
    let bob = svc.db.create_user("bob", "bob@x.com", "digest", 12).unwrap();

    svc.join_room(bob.id, room, 13).unwrap();
    svc.join_room(bob.id, room, 14).unwrap();
    let members = svc.get_room_members(room).unwrap();
    assert_eq!(members.len(), 2);

    svc.leave_room(bob.id, room).unwrap();
    svc.leave_room(bob.id, room).unwrap();
    let members = svc.get_room_members(room).unwrap();
    assert_eq!(members.len(), 1);
    assert_eq!(members[0].username, "testuser");
    assert!(!svc.db.is_user_in_room(room, bob.id));
}

#[test]
fn test_user_rooms_and_all_rooms() {
    let mut db = Database::new();
    let alice = db.create_user("alice", "alice@x.com", "digest", 10).unwrap();
    let r1 = db.create_room("one", "", alice.id, 11);
    let r2 = db.create_room("two", "", alice.id, 12);
    let svc = MessageService::new(db);

    let all = svc.get_all_rooms().unwrap();
    assert_eq!(all.len(), 2);
    assert_eq!(all[0].id, r2.id);
    assert_eq!(all[1].id, r1.id);

    let mine = svc.get_user_rooms(alice.id).unwrap();
    assert_eq!(mine.len(), 2);
    assert_eq!(mine[0].id, r2.id);
}

#[test]
fn test_presence_and_status_updates() {
    let (mut svc, alice, _room) = service_with_user_and_room();

    svc.update_user_presence(alice, Presence::Away).unwrap();
    assert_eq!(svc.db.get_user_by_id(alice).unwrap().presence, Presence::Away);

    svc.update_user_status(alice, "brb").unwrap();
    assert_eq!(svc.db.get_user_by_id(alice).unwrap().status, Some("brb".to_string()));
}

#[test]
fn test_get_user_mentions_listing() {
    let (mut svc, alice, room) = service_with_user_and_room();
    let bob = svc.db.create_user("bob", "bob@x.com", "digest", 12).unwrap();
    svc.join_room(bob.id, room, 13).unwrap();

    svc.send_room_message(alice, room_req(room, "ping @bob"), 20).unwrap();
    svc.send_room_message(alice, room_req(room, "pong @bob"), 21).unwrap();

    let mentions = svc.get_user_mentions(bob.id, 10, 0).unwrap();
    assert_eq!(mentions.len(), 2);
    assert_eq!(mentions[0].content, "pong @bob");
    assert_eq!(mentions[1].content, "ping @bob");
}

#[test]
fn test_announcement_content_is_validated() {
    let (mut svc, alice, room) = service_with_user_and_room();
    let empty = svc.send_room_announcement(alice, room_req(room, "  \t "), 20);
    assert!(matches!(empty, Err(AuthError::InvalidInput(_))));
    assert!(svc.send_room_announcement(alice, room_req(room, "notice"), 21).is_ok());
}

#[test]
fn test_room_members_sorted_by_username() {
    let (mut svc, _alice, room) = service_with_user_and_room();
    let zoe = svc.db.create_user("zoe", "zoe@x.com", "digest", 12).unwrap();
    let bob = svc.db.create_user("bob", "bob@x.com", "digest", 13).unwrap();
    svc.join_room(zoe.id, room, 14).unwrap();
    svc.join_room(bob.id, room, 15).unwrap();

    let members = svc.get_room_members(room).unwrap();
    let names: Vec<&str> = members.iter().map(|u| u.username.as_str()).collect();
    assert_eq!(names, vec!["bob", "testuser", "zoe"]);
}

#[test]
fn test_session_boundary_instant_is_expired() {
    // the exact expiry instant is no longer valid: now < expires_at is the
    // rule, so validation at expires_at fails and deletes the session
    let mut db = Database::new();
    let alice = db.create_user("alice", "alice@x.com", "digest", 10).unwrap();
    db.create_session(alice.id, "token-x", 500, 10);
    let mut auth = AuthService::new(db);

    assert!(auth.validate_session("token-x", 499).is_ok());
    assert!(matches!(auth.validate_session("token-x", 500), Err(AuthError::InvalidSession)));
    assert!(auth.db.sessions.is_empty());
}
