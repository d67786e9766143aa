use spark_core::protocol::ChatServer;
use spark_core::protocol::ConnState;
use spark_core::protocol::Delivery;
use spark_core::protocol::WsClientMessage;
use spark_core::protocol::WsServerMessage;
use spark_core::users::CreateUserRequest;

fn register(server: &mut ChatServer, name: &str) -> (u64, String) {
    let resp = server
        .register(CreateUserRequest {
            username: name.to_string(),
            email: format!("{}@x.com", name),
            password: "password123".to_string(),
        })
        .unwrap();
    (resp.user.id, resp.token)
}

fn authenticate(server: &mut ChatServer, token: &str, now: i64) -> ConnState {
    let mut conn = ConnState::new();
    let handled = server.handle_command(
        &mut conn,
        WsClientMessage::Authenticate { token: token.to_string() },
        now,
    );
    assert!(!handled.disconnect);
    assert!(matches!(handled.events[0], WsServerMessage::Authenticated { .. }));
    conn
}

fn deliveries_to<'a>(deliveries: &'a [Delivery], user: u64) -> Vec<&'a WsServerMessage> {
    deliveries.iter().filter(|d| d.targets.contains(&user)).map(|d| &d.event).collect()
}

#[test]
fn test_unauthenticated_commands_are_rejected() {
    let mut server = ChatServer::new();
    let mut conn = ConnState::new();
    let handled = server.handle_command(&mut conn, WsClientMessage::GetAllRooms, 100);
    assert_eq!(handled.events.len(), 1);
    assert!(matches!(handled.events[0], WsServerMessage::Error { .. }));
    assert!(handled.deliveries.is_empty());
    assert!(!handled.disconnect);
    assert!(conn.auth.is_none());
}

#[test]
fn test_failed_authenticate_disconnects() {
    let mut server = ChatServer::new();
    let mut conn = ConnState::new();
    let handled = server.handle_command(
        &mut conn,
        WsClientMessage::Authenticate { token: "bogus".to_string() },
        100,
    );
    assert!(handled.disconnect);
    assert!(matches!(handled.events[0], WsServerMessage::Error { .. }));
    assert!(conn.auth.is_none());
}

#[test]
fn test_mention_notification_scenario() {
    // alice and bob both join a room; alice sends "hi @bob"; bob's
    // connection receives a MentionNotification; bob's unread count is 1
    // and drops to 0 after marking it read.
    let mut server = ChatServer::new();
    let (_alice_id, alice_token) = register(&mut server, "alice");
    let (bob_id, bob_token) = register(&mut server, "bob");

    let mut alice_conn = authenticate(&mut server, &alice_token, 100);
    let mut bob_conn = authenticate(&mut server, &bob_token, 101);

    let created = server.handle_command(
        &mut alice_conn,
        WsClientMessage::CreateRoom { name: "General".to_string(), desc: "".to_string() },
        102,
    );
    let room_id = match created.events.first() {
        Some(WsServerMessage::RoomCreated { room_id, .. }) => *room_id,
        other => panic!("expected RoomCreated, got {:?}", other),
    };

    let joined = server.handle_command(
        &mut bob_conn,
        WsClientMessage::JoinRoom { room_id },
        103,
    );
    assert!(joined.events.iter().any(|e| matches!(e, WsServerMessage::RoomJoined { .. })));

    let sent = server.handle_command(
        &mut alice_conn,
        WsClientMessage::SendMessage {
            room_id,
            content: "hi @bob".to_string(),
            reply_to_message_id: None,
        },
        104,
    );
    assert!(sent.events.iter().any(|e| matches!(e, WsServerMessage::MessageSent { .. })));

    let bob_events = deliveries_to(&sent.deliveries, bob_id);
    let mention = bob_events.iter().find(|e| {
        matches!(e, WsServerMessage::MentionNotification { .. })
    });
    match mention {
        Some(WsServerMessage::MentionNotification { content, sender_username, .. }) => {
            assert_eq!(content, "hi @bob");
            assert_eq!(sender_username, "alice");
        },
        other => panic!("expected a MentionNotification for bob, got {:?}", other),
    }
    assert!(bob_events.iter().any(|e| matches!(e, WsServerMessage::NewMessage { .. })));

    let count = server.handle_command(
        &mut bob_conn,
        WsClientMessage::GetUnreadMentionsCount { user_id: bob_id },
        105,
    );
    assert!(matches!(count.events[0], WsServerMessage::UnreadMentionsCount { count: 1 }));

    let message_id = match sent.events.iter().find(|e| {
        matches!(e, WsServerMessage::MessageSent { .. })
    }) {
        Some(WsServerMessage::MessageSent { message_id }) => *message_id,
        _ => unreachable!(),
    };
    let marked = server.handle_command(
        &mut bob_conn,
        WsClientMessage::MarkMentionsRead { message_id },
        106,
    );
    assert!(matches!(marked.events[0], WsServerMessage::UnreadMentionsCount { count: 0 }));
}

#[test]
fn test_typing_indicator_roundtrip() {
    let mut server = ChatServer::new();
    let (alice_id, alice_token) = register(&mut server, "alice");
    let mut alice_conn = authenticate(&mut server, &alice_token, 100);

    let created = server.handle_command(
        &mut alice_conn,
        WsClientMessage::CreateRoom { name: "General".to_string(), desc: "".to_string() },
        101,
    );
    let room_id = match created.events.first() {
        Some(WsServerMessage::RoomCreated { room_id, .. }) => *room_id,
        other => panic!("expected RoomCreated, got {:?}", other),
    };

    let typing = server.handle_command(
        &mut alice_conn,
        WsClientMessage::UpdateTyping { room_id, is_typing: true },
        102,
    );
    let typing_event = typing.deliveries.iter().find(|d| {
        matches!(d.event, WsServerMessage::TypingStatusChanged { .. })
    });
    match typing_event {
        Some(Delivery { event: WsServerMessage::TypingStatusChanged { typing_users, .. }, .. }) => {
            assert_eq!(typing_users.len(), 1);
            assert_eq!(typing_users[0].user_id, alice_id);
            assert_eq!(typing_users[0].username, "alice");
        },
        other => panic!("expected TypingStatusChanged, got {:?}", other),
    }

    let stopped = server.handle_command(
        &mut alice_conn,
        WsClientMessage::UpdateTyping { room_id, is_typing: false },
        103,
    );
    match stopped.deliveries.iter().find(|d| {
        matches!(d.event, WsServerMessage::TypingStatusChanged { .. })
    }) {
        Some(Delivery { event: WsServerMessage::TypingStatusChanged { typing_users, .. }, .. }) => {
            assert!(typing_users.is_empty());
        },
        other => panic!("expected TypingStatusChanged, got {:?}", other),
    }
}

#[test]
fn test_authenticate_restores_room_subscriptions() {
    let mut server = ChatServer::new();
    let (alice_id, alice_token) = register(&mut server, "alice");
    let mut conn = authenticate(&mut server, &alice_token, 100);

    let created = server.handle_command(
        &mut conn,
        WsClientMessage::CreateRoom { name: "General".to_string(), desc: "".to_string() },
        101,
    );
    let room_id = match created.events.first() {
        Some(WsServerMessage::RoomCreated { room_id, .. }) => *room_id,
        other => panic!("expected RoomCreated, got {:?}", other),
    };

    // reconnect: the persisted membership is mirrored into the registry
    let deliveries = server.handle_disconnect(&mut conn);
    assert!(conn.auth.is_none());
    drop(deliveries);

    let conn2 = authenticate(&mut server, &alice_token, 200);
    assert!(conn2.auth.is_some());
    let subs = server.conns.room_subscribers(room_id);
    assert_eq!(subs, vec![alice_id]);
}

#[test]
fn test_disconnect_broadcasts_offline_presence() {
    let mut server = ChatServer::new();
    let (_alice_id, alice_token) = register(&mut server, "alice");
    let (bob_id, bob_token) = register(&mut server, "bob");
    let mut alice_conn = authenticate(&mut server, &alice_token, 100);
    let mut bob_conn = authenticate(&mut server, &bob_token, 101);

    let created = server.handle_command(
        &mut alice_conn,
        WsClientMessage::CreateRoom { name: "General".to_string(), desc: "".to_string() },
        102,
    );
    let room_id = match created.events.first() {
        Some(WsServerMessage::RoomCreated { room_id, .. }) => *room_id,
        other => panic!("expected RoomCreated, got {:?}", other),
    };
    server.handle_command(&mut bob_conn, WsClientMessage::JoinRoom { room_id }, 103);

    let deliveries = server.handle_disconnect(&mut alice_conn);
    let bob_saw = deliveries_to(&deliveries, bob_id);
    assert!(bob_saw.iter().any(|e| {
        matches!(
            e,
            WsServerMessage::PresenceChanged {
                presence: spark_core::users::Presence::Offline,
                ..
            }
        )
    }));
}
