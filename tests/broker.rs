use sneedchat::exchange::ExchangeRates;
use sneedchat::identity::{derive_id, YOUTUBE_NAMESPACE};
use sneedchat::message::Message;
use sneedchat::protocol::{Content, Disconnect, Payload, ViewCount};
use sneedchat::server::{ChatServer, MAX_RECENT};

fn rates() -> ExchangeRates {
    let mut r = ExchangeRates::new(1_000_000);
    r.set_rate("EUR", 900_000);
    r
}

fn message(id: u128, username: &str, body: &str, currency: &str, amount: u64, received_at: i64) -> Message {
    Message {
        id,
        platform: "YouTube".to_string(),
        message: body.to_string(),
        emojis: Vec::new(),
        sent_at: received_at,
        received_at,
        username: username.to_string(),
        avatar: String::new(),
        amount,
        currency: currency.to_string(),
        is_verified: false,
        is_sub: false,
        is_mod: false,
        is_owner: false,
        is_staff: false,
    }
}

fn submit(server: &mut ChatServer, m: Message) -> Option<sneedchat::protocol::Broadcast> {
    server.submit(Content { chat_message: m })
}

#[test]
fn euro_message_is_converted_and_listed_as_paid() {
    let mut server = ChatServer::new(rates());
    let b = submit(&mut server, message(1, "a", "hi", "EUR", 1000, 10)).expect("broadcast");
    match b.payload {
        Payload::ChatMessage(m) => {
            assert_eq!(m.amount, 1111);
            assert_eq!(m.currency, "USD");
            assert_eq!(m.get_paid_readable_amount(), "11.11 USD");
        }
        Payload::Viewers(_) => panic!("expected a chat message"),
    }
    let paid = server.paid_messages();
    assert_eq!(paid.len(), 1);
    assert_eq!(paid[0].id, 1);
    assert_eq!(paid[0].amount, 1111);
    assert_eq!(paid[0].currency, "USD");
    assert_eq!(server.paid_ids(), vec![1u128]);
}

#[test]
fn unchanged_viewer_count_sends_nothing() {
    let mut server = ChatServer::new(rates());
    let first = server.register(11);
    let second = server.register(12);
    let b = server
        .update_viewer_count(ViewCount { platform: "YouTube".to_string(), viewers: 42 })
        .expect("first count is broadcast");
    assert_eq!(b.recipients, vec![first, second]);
    match b.payload {
        Payload::Viewers(table) => assert_eq!(table, vec![("YouTube".to_string(), 42usize)]),
        Payload::ChatMessage(_) => panic!("expected viewers"),
    }
    let again = server.update_viewer_count(ViewCount { platform: "YouTube".to_string(), viewers: 42 });
    assert!(again.is_none());
    assert_eq!(server.viewer_count("YouTube"), Some(42));
}

#[test]
fn changed_viewer_count_sends_whole_table() {
    let mut server = ChatServer::new(rates());
    server.register(1);
    server.update_viewer_count(ViewCount { platform: "YouTube".to_string(), viewers: 5 });
    server.update_viewer_count(ViewCount { platform: "Rumble".to_string(), viewers: 7 });
    let b = server
        .update_viewer_count(ViewCount { platform: "YouTube".to_string(), viewers: 6 })
        .expect("a change is broadcast");
    assert_eq!(b.payload.tag(), "viewers");
    match b.payload {
        Payload::Viewers(table) => assert_eq!(
            table,
            vec![("YouTube".to_string(), 6usize), ("Rumble".to_string(), 7usize)]
        ),
        Payload::ChatMessage(_) => panic!("expected viewers"),
    }
}

#[test]
fn zero_amount_is_never_paid() {
    let mut server = ChatServer::new(rates());
    submit(&mut server, message(1, "a", "free", "EUR", 0, 1));
    submit(&mut server, message(2, "b", "also free", "USD", 0, 2));
    assert!(server.paid_messages().is_empty());
    assert!(server.paid_ids().is_empty());
    assert_eq!(server.recent_messages().len(), 2);
}

#[test]
fn paid_then_unpaid_resubmission_leaves_paid_list() {
    let mut server = ChatServer::new(rates());
    submit(&mut server, message(1, "a", "tip", "USD", 500, 1));
    assert_eq!(server.paid_messages().len(), 1);
    submit(&mut server, message(1, "a", "tip", "USD", 0, 1));
    assert!(server.paid_messages().is_empty());
    assert_eq!(server.recent_messages().len(), 1);
}

#[test]
fn resubmission_overwrites_in_place() {
    let mut server = ChatServer::new(rates());
    submit(&mut server, message(7, "a", "first", "USD", 300, 5));
    submit(&mut server, message(8, "b", "other", "USD", 0, 6));
    submit(&mut server, message(7, "a", "edited", "USD", 300, 5));
    let recent = server.recent_messages();
    assert_eq!(recent.len(), 2);
    assert_eq!(recent[0].id, 7);
    assert_eq!(recent[0].message, "edited");
    assert_eq!(server.paid_messages().len(), 1);
    assert_eq!(server.paid_ids(), vec![7u128]);
}

#[test]
fn lists_are_ordered_by_reception() {
    let mut server = ChatServer::new(rates());
    submit(&mut server, message(1, "a", "late", "USD", 100, 30));
    submit(&mut server, message(2, "b", "early", "USD", 100, 10));
    submit(&mut server, message(3, "c", "middle", "USD", 0, 20));
    submit(&mut server, message(4, "d", "tie", "USD", 100, 20));
    let times: Vec<i64> = server.recent_messages().iter().map(|m| m.received_at).collect();
    assert_eq!(times, vec![10, 20, 20, 30]);
    let ids: Vec<u128> = server.recent_messages().iter().map(|m| m.id).collect();
    assert_eq!(ids, vec![2, 3, 4, 1]);
    let paid: Vec<u128> = server.paid_messages().iter().map(|m| m.id).collect();
    assert_eq!(paid, vec![2, 4, 1]);
}

#[test]
fn recent_keeps_the_latest_hundred() {
    let mut server = ChatServer::new(rates());
    for i in 0..(MAX_RECENT as u128 + 5) {
        submit(&mut server, message(i + 1, "u", &format!("m{}", i), "USD", 0, i as i64));
    }
    let recent = server.recent_messages();
    assert_eq!(recent.len(), MAX_RECENT);
    assert_eq!(recent[0].received_at, 5);
    assert_eq!(recent[MAX_RECENT - 1].received_at, MAX_RECENT as i64 + 4);
}

#[test]
fn unpaid_repeat_is_dropped() {
    let mut server = ChatServer::new(rates());
    server.register(3);
    assert!(submit(&mut server, message(1, "a", "spam", "USD", 0, 1)).is_some());
    assert!(submit(&mut server, message(2, "a", "spam", "USD", 0, 2)).is_none());
    assert_eq!(server.recent_messages().len(), 1);
    assert!(submit(&mut server, message(3, "b", "spam", "USD", 0, 3)).is_some());
    assert_eq!(server.recent_messages().len(), 2);
}

#[test]
fn paid_repeat_is_kept() {
    let mut server = ChatServer::new(rates());
    assert!(submit(&mut server, message(1, "a", "thanks", "USD", 200, 1)).is_some());
    assert!(submit(&mut server, message(2, "a", "thanks", "USD", 200, 2)).is_some());
    assert_eq!(server.recent_messages().len(), 2);
    assert_eq!(server.paid_messages().len(), 2);
}

#[test]
fn script_body_is_escaped_in_broadcast() {
    let mut server = ChatServer::new(rates());
    server.register(1);
    let b = submit(&mut server, message(1, "a", "<script>alert(1)</script>", "USD", 0, 1)).unwrap();
    match b.payload {
        Payload::ChatMessage(m) => {
            assert!(!m.message.contains("<script>"));
            assert_eq!(m.message, "&lt;script&gt;alert(1)&lt;/script&gt;");
        }
        Payload::Viewers(_) => panic!("expected a chat message"),
    }
}

#[test]
fn missing_id_is_derived_from_platform_and_body() {
    let mut server = ChatServer::new(rates());
    let b = submit(&mut server, message(0, "a", "a&b", "USD", 0, 1)).unwrap();
    let expected = uuid::Uuid::new_v5(&uuid::Uuid::from_u128(YOUTUBE_NAMESPACE), "a&amp;b".as_bytes()).as_u128();
    match b.payload {
        Payload::ChatMessage(m) => assert_eq!(m.id, expected),
        Payload::Viewers(_) => panic!("expected a chat message"),
    }
    assert_eq!(derive_id("YouTube", "a&amp;b"), expected);
    assert_ne!(derive_id("Twitch", "a&amp;b"), expected);
    assert_ne!(expected, 0);
}

#[test]
fn disconnected_session_gets_no_broadcast() {
    let mut server = ChatServer::new(rates());
    let a = server.register(100);
    let b = server.register(200);
    server.disconnect(&Disconnect { id: a });
    server.disconnect(&Disconnect { id: a });
    assert!(!server.is_registered(a));
    let out = submit(&mut server, message(1, "x", "hello", "USD", 0, 1)).unwrap();
    assert_eq!(out.recipients, vec![b]);
}

#[test]
fn taken_candidate_falls_back_to_least_free() {
    let mut server = ChatServer::new(rates());
    assert_eq!(server.register(0), 0);
    assert_eq!(server.register(2), 2);
    assert_eq!(server.register(2), 1);
    assert_eq!(server.register(0), 3);
    assert_eq!(server.sessions(), vec![0, 2, 1, 3]);
    let random = server.connect();
    assert!(![0usize, 1, 2, 3].contains(&random));
}

#[test]
fn unknown_currency_counts_as_unpaid() {
    let mut server = ChatServer::new(rates());
    submit(&mut server, message(1, "a", "hi", "XYZ", 500, 1));
    let recent = server.recent_messages();
    assert_eq!(recent[0].amount, 0);
    assert_eq!(recent[0].currency, "USD");
    assert!(server.paid_messages().is_empty());
}
