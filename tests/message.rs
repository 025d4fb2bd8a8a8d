use sneedchat::message::{Message, DEFAULT_AVATAR};

fn message(username: &str, body: &str, amount: u64, currency: &str) -> Message {
    Message {
        id: 9,
        platform: "YouTube".to_string(),
        message: body.to_string(),
        emojis: Vec::new(),
        sent_at: 0,
        received_at: 0,
        username: username.to_string(),
        avatar: String::new(),
        amount,
        currency: currency.to_string(),
        is_verified: false,
        is_sub: false,
        is_mod: false,
        is_owner: false,
        is_staff: false,
    }
}

#[test]
fn badge_string_lists_set_flags_in_order() {
    let mut m = message("a", "hi", 0, "USD");
    assert_eq!(m.get_badge_string(), "");
    m.is_mod = true;
    assert_eq!(m.get_badge_string(), "msg--b-mod");
    m.is_verified = true;
    m.is_staff = true;
    assert_eq!(m.get_badge_string(), "msg--b-verified msg--b-mod msg--b-staff");
    m.is_sub = true;
    m.is_owner = true;
    assert_eq!(
        m.get_badge_string(),
        "msg--b-verified msg--b-sub msg--b-mod msg--b-owner msg--b-staff"
    );
}

#[test]
fn paid_tier_thresholds() {
    let cases: [(u64, u8); 14] = [
        (0, 1),
        (189, 1),
        (190, 2),
        (474, 2),
        (475, 5),
        (899, 5),
        (900, 10),
        (1899, 10),
        (1900, 20),
        (4899, 20),
        (4900, 50),
        (9899, 50),
        (9900, 100),
        (1_000_000, 100),
    ];
    for (amount, tier) in cases {
        assert_eq!(message("a", "x", amount, "USD").get_paid_tier(), tier, "amount {}", amount);
    }
}

#[test]
fn premium_follows_amount() {
    assert!(!message("a", "x", 0, "USD").is_premium());
    assert!(message("a", "x", 1, "USD").is_premium());
}

#[test]
fn readable_amount_has_two_decimals() {
    assert_eq!(message("a", "x", 1111, "USD").get_paid_readable_amount(), "11.11 USD");
    assert_eq!(message("a", "x", 500, "USD").get_paid_readable_amount(), "5.00 USD");
    assert_eq!(message("a", "x", 7, "USD").get_paid_readable_amount(), "0.07 USD");
    assert_eq!(message("a", "x", 0, "USD").get_paid_readable_amount(), "");
}

#[test]
fn paid_string_names_tier_and_currency() {
    assert_eq!(
        message("a", "x", 1111, "USD").get_paid_string(),
        "msg--t msg--ta-10 msg--tc-USD"
    );
    assert_eq!(message("a", "x", 0, "USD").get_paid_string(), "");
}

#[test]
fn platform_string_and_letter() {
    let m = message("zed", "x", 0, "USD");
    assert_eq!(m.get_platform_string(), "msg--p-YouTube");
    assert_eq!(m.get_letter(), "z");
    assert_eq!(message("Ünal", "x", 0, "USD").get_letter(), "Ü");
}

#[test]
fn console_line_for_paid_and_unpaid() {
    assert_eq!(message("a", "hi", 0, "USD").to_console_msg(), "[YouTube] a: hi");
    assert_eq!(
        message("a", "hi", 1111, "USD").to_console_msg(),
        "[YouTube] [$USD 11.11] (a): hi"
    );
    assert_eq!(
        message("a", "hi", 550, "USD").to_console_msg(),
        "[YouTube] [$USD 5.5] (a): hi"
    );
    assert_eq!(
        message("a", "hi", 500, "USD").to_console_msg(),
        "[YouTube] [$USD 5] (a): hi"
    );
}

#[test]
fn placeholder_and_default() {
    let p = Message::placeholder(5, 1234);
    assert_eq!(p.id, 5);
    assert_eq!(p.platform, "NONE");
    assert_eq!(p.message, "DEFAULT_MESSAGE");
    assert_eq!(p.username, "NO_USERNAME");
    assert_eq!(p.avatar, DEFAULT_AVATAR);
    assert_eq!(p.currency, "ZWL");
    assert_eq!(p.sent_at, 1234);
    assert_eq!(p.received_at, 1234);
    assert_eq!(p.amount, 0);
    let d = Message::default();
    assert_eq!(d.platform, "NONE");
    assert_eq!(d.sent_at, d.received_at);
    assert!(d.received_at > 0);
}

#[test]
fn duplicate_keeps_every_field() {
    let mut m = message("a", "hi", 250, "EUR");
    m.emojis.push((":)".to_string(), "u".to_string(), "smile".to_string()));
    m.is_owner = true;
    let d = m.duplicate();
    assert_eq!(d.id, m.id);
    assert_eq!(d.message, m.message);
    assert_eq!(d.emojis, m.emojis);
    assert_eq!(d.amount, m.amount);
    assert_eq!(d.currency, m.currency);
    assert!(d.is_owner);
}
