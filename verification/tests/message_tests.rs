use parfum::message::{take_oldest, ActorMessage};

fn message(sender: usize, tag: u64, text: &str) -> ActorMessage<String> {
    ActorMessage { sender, tag, message: text.to_string() }
}

#[test]
fn message_gives_sender_and_payload() {
    assert_eq!(message(4, 1, "a").get_sender(), 4);
    assert_eq!(message(4, 1, "a").get_message(1), Some("a".to_string()));
    assert_eq!(message(4, 1, "a").get_message(2), None);
}

#[test]
fn oldest_message_of_the_type_is_taken() {
    let mut mailbox = vec![message(1, 7, "a"), message(2, 8, "b"), message(3, 8, "c")];
    let taken = take_oldest(&mut mailbox, 8).unwrap();
    assert_eq!((taken.sender, taken.message.as_str()), (2, "b"));
    assert_eq!(mailbox.len(), 2);
    assert_eq!(mailbox[0].message, "a");
    assert_eq!(mailbox[1].message, "c");
    assert!(take_oldest(&mut mailbox, 9).is_none());
    assert_eq!(mailbox.len(), 2);
    assert_eq!(take_oldest(&mut mailbox, 8).unwrap().message, "c");
    assert!(take_oldest(&mut mailbox, 8).is_none());
    assert_eq!(take_oldest(&mut mailbox, 7).unwrap().message, "a");
    assert!(mailbox.is_empty());
}
