use sneedchat::feed::{dispatch_cycle, Feed, PollError};
use sneedchat::message::Message;

fn at(id: u128, received_at: i64) -> Message {
    Message::placeholder(id, received_at)
}

#[test]
fn mark_advances_to_latest_and_never_back() {
    let mut f = Feed::new("https://example.com/live".to_string());
    assert_eq!(f.last_message_time, 0);
    assert!(f.set_last_message_time_from_messages(&vec![at(1, 5), at(2, 9), at(3, 7)]));
    assert_eq!(f.last_message_time, 9);
    assert!(f.set_last_message_time_from_messages(&vec![at(4, 3)]));
    assert_eq!(f.last_message_time, 9);
    assert!(!f.set_last_message_time_from_messages(&Vec::new()));
    assert_eq!(f.last_message_time, 9);
}

#[test]
fn unread_only_after_mark() {
    let mut f = Feed::new("u".to_string());
    f.last_message_time = 100;
    assert!(!f.has_unread(100));
    assert!(!f.has_unread(50));
    assert!(f.has_unread(101));
}

#[test]
fn failing_feed_is_isolated() {
    let mut feeds = vec![Feed::new("a".to_string()), Feed::new("b".to_string()), Feed::new("c".to_string())];
    feeds[1].last_message_time = 40;
    let outcomes: Vec<Result<Vec<Message>, PollError>> = vec![
        Ok(vec![at(1, 10)]),
        Err(PollError { reason: "navigation failed".to_string() }),
        Ok(vec![at(2, 30), at(3, 20)]),
    ];
    let out = dispatch_cycle(&mut feeds, &outcomes);
    let ids: Vec<u128> = out.iter().map(|m| m.id).collect();
    assert_eq!(ids, vec![1, 2, 3]);
    assert_eq!(feeds[0].last_message_time, 10);
    assert_eq!(feeds[1].last_message_time, 40);
    assert_eq!(feeds[2].last_message_time, 30);
    assert_eq!(feeds[1].url, "b");
}

#[test]
fn always_failing_feed_never_advances() {
    let mut feeds = vec![Feed::new("bad".to_string()), Feed::new("good".to_string())];
    for cycle in 0..3i64 {
        let outcomes: Vec<Result<Vec<Message>, PollError>> = vec![
            Err(PollError { reason: "timeout".to_string() }),
            Ok(vec![at(cycle as u128 + 1, 100 + cycle)]),
        ];
        let out = dispatch_cycle(&mut feeds, &outcomes);
        assert_eq!(out.len(), 1);
    }
    assert_eq!(feeds[0].last_message_time, 0);
    assert_eq!(feeds[1].last_message_time, 102);
}

#[test]
fn absorb_single_outcome() {
    let mut f = Feed::new("x".to_string());
    let taken = f.absorb(&Ok(vec![at(5, 70)]));
    assert_eq!(taken.len(), 1);
    assert_eq!(f.last_message_time, 70);
    let none = f.absorb(&Err(PollError { reason: String::new() }));
    assert!(none.is_empty());
    assert_eq!(f.last_message_time, 70);
}
