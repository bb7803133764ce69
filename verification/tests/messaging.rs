use duxnet::error::CoreError;
use duxnet::messaging::{signing_payload, MessageHandler, MessageStats, MessagingSystem};
use duxnet::types::{Message, MessageRequest, MessageType};
use std::cell::RefCell;
use std::rc::Rc;

struct Recorder {
    seen: Rc<RefCell<Vec<String>>>,
    fail: bool,
}

impl MessageHandler for Recorder {
    fn handle_message(&self, message: &Message) -> Result<(), String> {
        self.seen.borrow_mut().push(message.id.clone());
        if self.fail {
            Err("handler failed".to_string())
        } else {
            Ok(())
        }
    }
}

const ME: &str = "did:duxnet:me";

fn system() -> MessagingSystem<Recorder> {
    MessagingSystem::new(ME.to_string())
}

fn incoming(id: &str, from: &str, timestamp: u64) -> Message {
    Message {
        id: id.to_string(),
        from_did: from.to_string(),
        to_did: ME.to_string(),
        content: format!("content of {}", id),
        message_type: MessageType::Text,
        timestamp,
        signature: vec![1, 2, 3],
        is_read: false,
        reply_to: None,
    }
}

fn outgoing(s: &MessagingSystem<Recorder>, id: &str, to: &str, timestamp: u64) -> Message {
    let request = MessageRequest {
        to_did: to.to_string(),
        content: format!("content of {}", id),
        message_type: MessageType::Text,
        reply_to: None,
    };
    let mut m = s.draft_message_with(&request, id.to_string(), timestamp);
    m.signature = vec![9];
    m
}

#[test]
fn a_draft_carries_the_request() {
    let s = system();
    let request = MessageRequest {
        to_did: "did:duxnet:bob".to_string(),
        content: "hello".to_string(),
        message_type: MessageType::ServiceRequest,
        reply_to: Some("m0".to_string()),
    };
    let m = s.draft_message_with(&request, "m1".to_string(), 77);
    assert_eq!(
        m,
        Message {
            id: "m1".to_string(),
            from_did: ME.to_string(),
            to_did: "did:duxnet:bob".to_string(),
            content: "hello".to_string(),
            message_type: MessageType::ServiceRequest,
            timestamp: 77,
            signature: vec![],
            is_read: false,
            reply_to: Some("m0".to_string()),
        }
    );
    assert_eq!(signing_payload(&m), "m1:did:duxnet:me:did:duxnet:bob:hello:77");

    let fresh = s.draft_message(&request);
    let other = s.draft_message(&request);
    assert_eq!(fresh.id.len(), 36);
    assert_ne!(fresh.id, other.id);
    assert_eq!(fresh.from_did, ME);
    assert_eq!(fresh.content, "hello");
    assert!(fresh.timestamp > 1_577_836_800);
}

#[test]
fn sending_stores_the_message_and_updates_the_conversation() {
    let mut s = system();
    let m = outgoing(&s, "m1", "did:duxnet:bob", 10);
    let response = s.send_signed(m.clone()).unwrap();
    assert_eq!(response.message_id, "m1");
    assert!(response.success);
    assert_eq!(response.message, "Message sent successfully");
    assert_eq!(s.get_messages("did:duxnet:bob"), vec![m.clone()]);
    let conversations = s.get_conversations();
    assert_eq!(conversations.len(), 1);
    assert_eq!(conversations[0].peer_did, "did:duxnet:bob");
    assert_eq!(conversations[0].message_count, 1);
    assert_eq!(conversations[0].unread_count, 0);
    assert_eq!(conversations[0].last_message, Some(m));
}

#[test]
fn sending_in_another_name_is_refused() {
    let mut s = system();
    let r = s.send_signed(incoming("m1", "did:duxnet:bob", 1));
    assert_eq!(r, Err(CoreError::NotAuthorized));
    assert_eq!(s.get_message_stats(), MessageStats { total_messages: 0, total_conversations: 0, unread_messages: 0 });
}

#[test]
fn receiving_counts_unread_messages() {
    let mut s = system();
    s.receive_message_with(incoming("m1", "did:duxnet:bob", 10), true).unwrap();
    s.receive_message_with(incoming("m2", "did:duxnet:bob", 11), true).unwrap();
    s.receive_message_with(incoming("m3", "did:duxnet:eve", 12), true).unwrap();
    let m4 = outgoing(&s, "m4", "did:duxnet:bob", 13);
    s.send_signed(m4).unwrap();
    let conversations = s.get_conversations();
    assert_eq!(conversations.len(), 2);
    assert_eq!(conversations[0].peer_did, "did:duxnet:bob");
    assert_eq!(conversations[0].message_count, 3);
    assert_eq!(conversations[0].unread_count, 2);
    assert_eq!(conversations[0].last_message.as_ref().unwrap().id, "m4");
    assert_eq!(conversations[1].peer_did, "did:duxnet:eve");
    assert_eq!(conversations[1].unread_count, 1);
    assert_eq!(s.get_message_stats(), MessageStats { total_messages: 4, total_conversations: 2, unread_messages: 3 });
}

#[test]
fn a_message_with_a_bad_signature_is_refused() {
    let mut s = system();
    let r = s.receive_message_with(incoming("m1", "did:duxnet:bob", 10), false);
    assert_eq!(r, Err(CoreError::BadSignature));
    assert!(s.get_messages("did:duxnet:bob").is_empty());
    assert!(s.get_conversations().is_empty());
}

#[test]
fn messages_come_in_order_of_time() {
    let mut s = system();
    s.receive_message_with(incoming("late", "did:duxnet:bob", 30), true).unwrap();
    s.receive_message_with(incoming("early", "did:duxnet:bob", 10), true).unwrap();
    s.receive_message_with(incoming("other", "did:duxnet:eve", 5), true).unwrap();
    let m = outgoing(&s, "mid", "did:duxnet:bob", 20);
    s.send_signed(m).unwrap();
    s.receive_message_with(incoming("tie-1", "did:duxnet:bob", 20), true).unwrap();
    s.receive_message_with(incoming("tie-2", "did:duxnet:bob", 10), true).unwrap();
    let ids: Vec<String> = s.get_messages("did:duxnet:bob").into_iter().map(|m| m.id).collect();
    assert_eq!(ids, vec!["early", "tie-2", "mid", "tie-1", "late"]);
    assert!(s.get_messages("did:duxnet:nobody").is_empty());
}

#[test]
fn marking_read_recounts_the_conversation() {
    let mut s = system();
    s.receive_message_with(incoming("m1", "did:duxnet:bob", 10), true).unwrap();
    s.receive_message_with(incoming("m2", "did:duxnet:bob", 11), true).unwrap();
    assert!(s.mark_message_read("m1"));
    assert!(!s.mark_message_read("missing"));
    let c = &s.get_conversations()[0];
    assert_eq!(c.unread_count, 1);
    assert_eq!(c.message_count, 2);
    assert_eq!(c.last_message.as_ref().unwrap().id, "m2");
    assert!(s.get_messages("did:duxnet:bob")[0].is_read);
    assert!(!s.get_messages("did:duxnet:bob")[1].is_read);
    assert!(s.mark_message_read("m1"));
    assert_eq!(s.get_conversations()[0].unread_count, 1);
    assert!(s.mark_message_read("m2"));
    assert_eq!(s.get_message_stats().unread_messages, 0);
}

#[test]
fn deleting_recounts_the_conversation_of_the_peer() {
    let mut s = system();
    s.receive_message_with(incoming("m1", "did:duxnet:bob", 10), true).unwrap();
    let m2 = outgoing(&s, "m2", "did:duxnet:bob", 20);
    s.send_signed(m2).unwrap();
    assert!(s.delete_message("m2"));
    assert!(!s.delete_message("m2"));
    let conversations = s.get_conversations();
    assert_eq!(conversations.len(), 1);
    assert_eq!(conversations[0].peer_did, "did:duxnet:bob");
    assert_eq!(conversations[0].message_count, 1);
    assert_eq!(conversations[0].unread_count, 1);
    assert_eq!(conversations[0].last_message.as_ref().unwrap().id, "m1");
    assert!(s.delete_message("m1"));
    let conversations = s.get_conversations();
    assert_eq!(conversations[0].message_count, 0);
    assert_eq!(conversations[0].unread_count, 0);
    assert_eq!(conversations[0].last_message, None);
    assert_eq!(s.get_message_stats(), MessageStats { total_messages: 0, total_conversations: 1, unread_messages: 0 });
}

#[test]
fn a_message_with_a_known_identifier_replaces_the_stored_one() {
    let mut s = system();
    s.receive_message_with(incoming("m1", "did:duxnet:bob", 10), true).unwrap();
    let mut again = incoming("m1", "did:duxnet:bob", 12);
    again.content = "edited".to_string();
    s.receive_message_with(again.clone(), true).unwrap();
    assert_eq!(s.get_messages("did:duxnet:bob"), vec![again]);
    assert_eq!(s.get_message_stats().total_messages, 1);
    assert_eq!(s.get_conversations()[0].message_count, 2);
}

#[test]
fn handlers_hear_of_every_message() {
    let seen = Rc::new(RefCell::new(Vec::new()));
    let mut s = system();
    s.add_message_handler(Recorder { seen: seen.clone(), fail: true });
    s.add_message_handler(Recorder { seen: seen.clone(), fail: false });
    s.receive_message_with(incoming("m1", "did:duxnet:bob", 10), true).unwrap();
    let m2 = outgoing(&s, "m2", "did:duxnet:bob", 20);
    s.send_signed(m2).unwrap();
    s.receive_message_with(incoming("m3", "did:duxnet:bob", 30), false).unwrap_err();
    assert_eq!(*seen.borrow(), vec!["m1", "m1", "m2", "m2"]);
    assert_eq!(s.get_message_stats().total_messages, 2);
}
