use chat_hub::endpoint::username_from_query;
use chat_hub::event::ChatMessage;
use chat_hub::hub::{Hub, RegistrationError};

fn is_event(m: &ChatMessage, username: &str, content: &str, kind: &str) -> bool {
    m.username == username && m.content == content && m.message_type == kind
}

#[test]
fn new_hub_is_empty() {
    let hub = Hub::new();
    assert_eq!(hub.len(), 0);
    assert!(hub.ids().is_empty());
    assert!(!hub.contains(7));
}

#[test]
fn alice_and_bob_scenario() {
    let mut hub = Hub::new();
    let a = hub.register("alice").unwrap();
    let b = hub.register("bob").unwrap();
    assert_ne!(a, b);
    let to_alice = hub.drain(a);
    assert_eq!(to_alice.len(), 2);
    assert!(is_event(&to_alice[0], "alice", "joined the chat", "join"));
    assert!(is_event(&to_alice[1], "bob", "joined the chat", "join"));
    let to_bob = hub.drain(b);
    assert_eq!(to_bob.len(), 1);
    assert!(is_event(&to_bob[0], "bob", "joined the chat", "join"));
    assert!(hub.drain(a).is_empty());

    assert!(hub.relay(a, "{\"username\":\"alice\",\"content\":\"hi\",\"message_type\":\"message\"}"));
    let to_alice = hub.drain(a);
    let to_bob = hub.drain(b);
    assert_eq!(to_alice.len(), 1);
    assert_eq!(to_bob.len(), 1);
    assert!(is_event(&to_alice[0], "alice", "hi", "message"));
    assert!(is_event(&to_bob[0], "alice", "hi", "message"));

    assert!(hub.unregister(a));
    let to_bob = hub.drain(b);
    assert_eq!(to_bob.len(), 1);
    assert!(is_event(&to_bob[0], "alice", "left the chat", "leave"));
    assert!(!hub.unregister(a));
    assert!(hub.drain(b).is_empty());
    assert_eq!(hub.ids(), vec![b]);
}

#[test]
fn earlier_member_sees_later_join() {
    let mut hub = Hub::new();
    hub.register_with_id(1, "alice").unwrap();
    assert_eq!(hub.drain(1).len(), 1);
    hub.register_with_id(2, "bob").unwrap();
    let to_alice = hub.drain(1);
    assert_eq!(to_alice.len(), 1);
    assert!(is_event(&to_alice[0], "bob", "joined the chat", "join"));
}

#[test]
fn test_chat_message_broadcast() {
    let mut hub = Hub::new();
    let user1 = hub.register("user1").unwrap();
    let user2 = hub.register("user2").unwrap();
    hub.drain(user1);
    hub.drain(user2);
    let sent = ChatMessage::message("user1", "Hello!");
    let text = chat_hub::wire::encode(&sent);
    assert!(hub.relay(user1, &text));
    let received = hub.drain(user2);
    assert_eq!(received.len(), 1);
    assert_eq!(received[0].username, "user1");
    assert_eq!(received[0].content, "Hello!");
    assert_eq!(received[0].message_type, "message");
}

#[test]
fn test_user_join_leave_messages() {
    let mut hub = Hub::new();
    let observer = hub.register("observer").unwrap();
    hub.drain(observer);
    let newuser = hub.register("newuser").unwrap();
    let seen = hub.drain(observer);
    assert_eq!(seen.len(), 1);
    assert_eq!(seen[0].username, "newuser");
    assert_eq!(seen[0].message_type, "join");
    assert_eq!(seen[0].content, "joined the chat");
    assert!(hub.unregister(newuser));
    let seen = hub.drain(observer);
    assert_eq!(seen.len(), 1);
    assert_eq!(seen[0].username, "newuser");
    assert_eq!(seen[0].message_type, "leave");
    assert_eq!(seen[0].content, "left the chat");
}

#[test]
fn test_full_chat_flow() {
    let mut hub = Hub::new();
    let user1 = hub.register("user1").unwrap();
    let user2 = hub.register("user2").unwrap();
    let text = chat_hub::wire::encode(&ChatMessage::message("user1", "Hello from integration test!"));
    assert!(hub.relay(user1, &text));
    let mut found = false;
    for m in hub.drain(user2) {
        if m.message_type == "message" && m.content == "Hello from integration test!" {
            assert_eq!(m.username, "user1");
            found = true;
        }
    }
    assert!(found, "Expected message not received");
}

#[test]
fn membership_follows_register_and_unregister() {
    let mut hub = Hub::new();
    hub.register_with_id(10, "a").unwrap();
    hub.register_with_id(20, "b").unwrap();
    hub.register_with_id(30, "c").unwrap();
    assert!(hub.unregister(20));
    assert!(!hub.unregister(99));
    hub.register_with_id(40, "d").unwrap();
    assert!(hub.unregister(10));
    assert_eq!(hub.ids(), vec![30, 40]);
    assert_eq!(hub.len(), 2);
    assert!(hub.contains(30) && hub.contains(40));
    assert!(!hub.contains(10) && !hub.contains(20) && !hub.contains(99));
}

#[test]
fn id_of_a_live_connection_is_turned_down() {
    let mut hub = Hub::new();
    hub.register_with_id(5, "first").unwrap();
    hub.drain(5);
    let r = hub.register_with_id(5, "second");
    assert!(matches!(r, Err(RegistrationError::IdReused(5))));
    assert_eq!(hub.len(), 1);
    assert_eq!(hub.display_name(5), Some("first".to_string()));
    assert!(hub.drain(5).is_empty());
}

#[test]
fn drawn_ids_differ() {
    let mut hub = Hub::new();
    let a = hub.register("same").unwrap();
    let b = hub.register("same").unwrap();
    let c = hub.register("same").unwrap();
    assert!(a != b && b != c && a != c);
    assert_eq!(hub.len(), 3);
    assert_eq!(hub.display_name(b), Some("same".to_string()));
}

#[test]
fn second_unregister_sends_nothing() {
    let mut hub = Hub::new();
    hub.register_with_id(1, "alice").unwrap();
    hub.register_with_id(2, "bob").unwrap();
    hub.drain(2);
    assert!(hub.unregister(1));
    assert!(!hub.unregister(1));
    assert!(!hub.unregister(1));
    let seen = hub.drain(2);
    assert_eq!(seen.len(), 1);
    assert!(is_event(&seen[0], "alice", "left the chat", "leave"));
    assert_eq!(hub.display_name(1), None);
}

#[test]
fn relay_reaches_everyone_once() {
    let mut hub = Hub::new();
    for id in 1..=5u128 {
        hub.register_with_id(id, "n").unwrap();
    }
    for id in 1..=5u128 {
        hub.drain(id);
    }
    assert!(hub.relay(3, "{\"username\":\"carol\",\"content\":\"to all\",\"message_type\":\"message\"}"));
    for id in 1..=5u128 {
        let got = hub.drain(id);
        assert_eq!(got.len(), 1);
        assert!(is_event(&got[0], "carol", "to all", "message"));
    }
}

#[test]
fn relay_keeps_the_order_of_one_sender() {
    let mut hub = Hub::new();
    hub.register_with_id(1, "a").unwrap();
    hub.register_with_id(2, "b").unwrap();
    hub.drain(2);
    hub.relay(1, "{\"username\":\"a\",\"content\":\"one\",\"message_type\":\"message\"}");
    hub.relay(1, "{\"username\":\"a\",\"content\":\"two\",\"message_type\":\"message\"}");
    let got = hub.drain(2);
    assert_eq!(got.len(), 2);
    assert_eq!(got[0].content, "one");
    assert_eq!(got[1].content, "two");
}

#[test]
fn malformed_frames_are_dropped() {
    let mut hub = Hub::new();
    hub.register_with_id(1, "a").unwrap();
    hub.register_with_id(2, "b").unwrap();
    hub.drain(1);
    hub.drain(2);
    assert!(!hub.relay(1, "{\"username\":\"a\",\"content\":\"x\"}"));
    assert!(!hub.relay(1, "{\"username\":\"a\",\"content\":\"x\",\"message_type\":\"shout\"}"));
    assert!(!hub.relay(1, "not json"));
    assert!(!hub.relay(1, ""));
    assert!(!hub.relay(1, "{\"username\":1,\"content\":\"x\",\"message_type\":\"message\"}"));
    assert!(!hub.relay(1, "{\"content\":\"x\",\"message_type\":\"message\"}"));
    assert!(!hub.relay(1, "[\"a\",\"x\",\"message\"]"));
    assert!(hub.drain(1).is_empty());
    assert!(hub.drain(2).is_empty());
    assert_eq!(hub.ids(), vec![1, 2]);
}

#[test]
fn relay_trusts_the_frame_not_the_sender() {
    let mut hub = Hub::new();
    hub.register_with_id(1, "alice").unwrap();
    hub.drain(1);
    assert!(hub.relay(1, "{\"username\":\"mallory\",\"content\":\"x\",\"message_type\":\"leave\"}"));
    let got = hub.drain(1);
    assert!(is_event(&got[0], "mallory", "x", "leave"));
    assert!(hub.contains(1));
}

#[test]
fn closed_channel_does_not_stop_the_others() {
    let mut hub = Hub::new();
    hub.register_with_id(1, "a").unwrap();
    hub.register_with_id(2, "b").unwrap();
    hub.register_with_id(3, "c").unwrap();
    hub.drain(1);
    hub.drain(2);
    hub.drain(3);
    assert!(hub.close_channel(2));
    assert!(!hub.close_channel(9));
    hub.broadcast(&ChatMessage::message("a", "still here"));
    assert_eq!(hub.drain(1).len(), 1);
    assert!(hub.drain(2).is_empty());
    let got = hub.drain(3);
    assert_eq!(got.len(), 1);
    assert!(is_event(&got[0], "a", "still here", "message"));
    assert!(hub.contains(2));
    assert_eq!(hub.len(), 3);
    assert!(hub.unregister(2));
    assert_eq!(hub.drain(1).len(), 1);
}

#[test]
fn drain_of_absent_id_is_empty() {
    let mut hub = Hub::new();
    hub.register_with_id(1, "a").unwrap();
    assert!(hub.drain(2).is_empty());
    assert_eq!(hub.drain(1).len(), 1);
    assert!(hub.drain(1).is_empty());
}

#[test]
fn own_join_comes_first() {
    let mut hub = Hub::new();
    hub.register_with_id(1, "old").unwrap();
    hub.register_with_id(2, "new").unwrap();
    hub.broadcast(&ChatMessage::message("old", "welcome"));
    let got = hub.drain(2);
    assert_eq!(got.len(), 2);
    assert!(is_event(&got[0], "new", "joined the chat", "join"));
    assert!(is_event(&got[1], "old", "welcome", "message"));
}

#[test]
fn test_websocket_connection() {
    let mut hub = Hub::new();
    let name = username_from_query("username=testuser");
    let id = hub.register(&name).unwrap();
    assert!(hub.contains(id));
    assert_eq!(hub.display_name(id), Some("testuser".to_string()));
}

#[test]
fn connection_without_a_name_is_anonymous() {
    let mut hub = Hub::new();
    let id = hub.register(&username_from_query("")).unwrap();
    let got = hub.drain(id);
    assert_eq!(got.len(), 1);
    assert!(is_event(&got[0], "anonymous", "joined the chat", "join"));
}

#[test]
fn id_that_has_left_is_never_given_out_again() {
    let mut hub = Hub::new();
    assert!(!hub.was_issued(5));
    hub.register_with_id(5, "first").unwrap();
    hub.register_with_id(6, "watcher").unwrap();
    assert!(hub.was_issued(5));
    assert!(hub.unregister(5));
    assert!(hub.was_issued(5));
    hub.drain(6);
    let r = hub.register_with_id(5, "second");
    assert!(matches!(r, Err(RegistrationError::IdReused(5))));
    assert!(!hub.contains(5));
    assert_eq!(hub.ids(), vec![6]);
    assert!(hub.drain(6).is_empty());
    assert!(!hub.unregister(5));
    assert!(!hub.was_issued(7));
    hub.register_with_id(7, "third").unwrap();
    assert_eq!(hub.ids(), vec![6, 7]);
}

#[test]
fn unregistering_an_unknown_id_does_not_spend_it() {
    let mut hub = Hub::new();
    assert!(!hub.unregister(5));
    assert!(!hub.was_issued(5));
    hub.register_with_id(5, "late").unwrap();
    assert!(hub.contains(5));
}

#[test]
fn drawn_ids_were_never_given_out_before() {
    let mut hub = Hub::new();
    let a = hub.register("a").unwrap();
    assert!(hub.unregister(a));
    let b = hub.register("b").unwrap();
    assert_ne!(a, b);
    assert!(hub.was_issued(a) && hub.was_issued(b));
    assert_eq!(hub.ids(), vec![b]);
}
