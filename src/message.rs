//! The chat message record and the presentation attributes derived from it.
use vstd::prelude::*;

use crate::text::{decimal, push_decimal, push_text, push_two_digits, two_digits};

verus! {

/// One chat event. `amount` counts hundredths of a unit of `currency`; an `id`
/// of zero stands for "none supplied".
#[derive(Clone, Debug)]
pub struct Message {
    pub id: u128,
    pub platform: String,
    pub message: String,
    /// Inline media as (text to find, image URL, label).
    pub emojis: Vec<(String, String, String)>,
    /// Display timestamp, epoch milliseconds.
    pub sent_at: i64,
    /// When this system received the message, epoch milliseconds.
    pub received_at: i64,
    pub username: String,
    pub avatar: String,
    pub amount: u64,
    pub currency: String,
    pub is_verified: bool,
    pub is_sub: bool,
    pub is_mod: bool,
    pub is_owner: bool,
    pub is_staff: bool,
}

/// The mathematical value of a `Message`.
pub struct MessageView {
    pub id: u128,
    pub platform: Seq<char>,
    pub message: Seq<char>,
    pub emojis: Seq<(Seq<char>, Seq<char>, Seq<char>)>,
    pub sent_at: i64,
    pub received_at: i64,
    pub username: Seq<char>,
    pub avatar: Seq<char>,
    pub amount: u64,
    pub currency: Seq<char>,
    pub is_verified: bool,
    pub is_sub: bool,
    pub is_mod: bool,
    pub is_owner: bool,
    pub is_staff: bool,
}

pub open spec fn media_view(e: (String, String, String)) -> (Seq<char>, Seq<char>, Seq<char>) {
    (e.0@, e.1@, e.2@)
}

impl View for Message {
    type V = MessageView;

    open spec fn view(&self) -> MessageView {
        MessageView {
            id: self.id,
            platform: self.platform@,
            message: self.message@,
            emojis: self.emojis@.map_values(|e: (String, String, String)| media_view(e)),
            sent_at: self.sent_at,
            received_at: self.received_at,
            username: self.username@,
            avatar: self.avatar@,
            amount: self.amount,
            currency: self.currency@,
            is_verified: self.is_verified,
            is_sub: self.is_sub,
            is_mod: self.is_mod,
            is_owner: self.is_owner,
            is_staff: self.is_staff,
        }
    }
}

/// A message counts as paid when its amount is above zero.
pub open spec fn is_paid(m: MessageView) -> bool {
    m.amount > 0
}

/// Appends one badge class to the classes gathered so far.
pub open spec fn add_badge(acc: Seq<char>, name: Seq<char>) -> Seq<char> {
    if acc.len() == 0 {
        "msg--b-"@ + name
    } else {
        acc + " msg--b-"@ + name
    }
}

pub open spec fn badge_step(acc: Seq<char>, flag: bool, name: Seq<char>) -> Seq<char> {
    if flag {
        add_badge(acc, name)
    } else {
        acc
    }
}

/// The badge classes: `msg--b-` before each set flag's name, separated by spaces,
/// in the order verified, sub, mod, owner, staff; empty when no flag is set.
pub open spec fn badge_string(m: MessageView) -> Seq<char> {
    badge_step(
        badge_step(
            badge_step(
                badge_step(badge_step(seq![], m.is_verified, "verified"@), m.is_sub, "sub"@),
                m.is_mod,
                "mod"@,
            ),
            m.is_owner,
            "owner"@,
        ),
        m.is_staff,
        "staff"@,
    )
}

/// The display tier of an amount in hundredths.
pub open spec fn paid_tier(amount: u64) -> u8 {
    if amount >= 9900 {
        100
    } else if amount >= 4900 {
        50
    } else if amount >= 1900 {
        20
    } else if amount >= 900 {
        10
    } else if amount >= 475 {
        5
    } else if amount >= 190 {
        2
    } else {
        1
    }
}

/// An amount in hundredths written with two decimals.
pub open spec fn fixed_two(amount: u64) -> Seq<char> {
    decimal((amount / 100) as nat) + seq!['.'] + two_digits((amount % 100) as nat)
}

/// An amount in hundredths written in the shortest decimal form (`5`, `5.5`, `5.25`).
pub open spec fn short_amount(amount: u64) -> Seq<char> {
    let units = decimal((amount / 100) as nat);
    let cents = (amount % 100) as nat;
    if cents == 0 {
        units
    } else if cents % 10 == 0 {
        units + seq!['.', crate::text::digit_char(cents / 10)]
    } else {
        units + seq!['.'] + two_digits(cents)
    }
}

pub open spec fn readable_amount(m: MessageView) -> Seq<char> {
    if is_paid(m) {
        fixed_two(m.amount) + " "@ + m.currency
    } else {
        seq![]
    }
}

pub open spec fn paid_string(m: MessageView) -> Seq<char> {
    if is_paid(m) {
        "msg--t msg--ta-"@ + decimal(paid_tier(m.amount) as nat) + " msg--tc-"@ + m.currency
    } else {
        seq![]
    }
}

pub open spec fn console_line(m: MessageView) -> Seq<char> {
    if is_paid(m) {
        "["@ + m.platform + "] [$"@ + m.currency + " "@ + short_amount(m.amount) + "] ("@
            + m.username + "): "@ + m.message
    } else {
        "["@ + m.platform + "] "@ + m.username + ": "@ + m.message
    }
}

/// Relies on uuid::Uuid::new_v4: a random identifier, of which nothing is promised.
#[verifier::external_body]
fn random_uuid() -> u128 {
    uuid::Uuid::new_v4().as_u128()
}

/// Relies on std::time::SystemTime::now: the wall clock in milliseconds since the
/// Unix epoch, of which nothing is promised.
#[verifier::external_body]
fn unix_millis_now() -> i64 {
    std::time::SystemTime::now().duration_since(std::time::UNIX_EPOCH).map_or(0, |d| d.as_millis() as i64)
}

pub const DEFAULT_AVATAR: &'static str = "data:image/gif;base64,R0lGODlhAQABAAAAACH5BAEKAAEALAAAAAABAAEAAAICTAEAOw==";

impl Message {
    /// A placeholder message with the given identifier, sent and received at `time`.
    pub fn placeholder(id: u128, time: i64) -> (r: Message)
        ensures
            r@.id == id,
            r@.platform == "NONE"@,
            r@.message == "DEFAULT_MESSAGE"@,
            r@.emojis.len() == 0,
            r@.sent_at == time,
            r@.received_at == time,
            r@.username == "NO_USERNAME"@,
            r@.avatar == DEFAULT_AVATAR@,
            r@.amount == 0,
            r@.currency == "ZWL"@,
            !r@.is_verified && !r@.is_sub && !r@.is_mod && !r@.is_owner && !r@.is_staff,
    {
        let emojis: Vec<(String, String, String)> = Vec::new();
        let r = Message {
            id,
            platform: String::from_str("NONE"),
            message: String::from_str("DEFAULT_MESSAGE"),
            emojis,
            sent_at: time,
            received_at: time,
            username: String::from_str("NO_USERNAME"),
            avatar: String::from_str(DEFAULT_AVATAR),
            amount: 0,
            currency: String::from_str("ZWL"),
            is_verified: false,
            is_sub: false,
            is_mod: false,
            is_owner: false,
            is_staff: false,
        };
        assert(r@.emojis.len() == 0);
        r
    }

    /// A copy with the same value.
    pub fn duplicate(&self) -> (r: Message)
        ensures
            r@ == self@,
    {
        let mut emojis: Vec<(String, String, String)> = Vec::new();
        let mut i: usize = 0;
        while i < self.emojis.len()
            invariant
                i <= self.emojis@.len(),
                emojis@.len() == i,
                forall|k: int| 0 <= k < i ==> #[trigger] media_view(emojis@[k]) == media_view(self.emojis@[k]),
            decreases self.emojis.len() - i,
        {
            let e = &self.emojis[i];
            emojis.push((e.0.clone(), e.1.clone(), e.2.clone()));
            i = i + 1;
        }
        let r = Message {
            id: self.id,
            platform: self.platform.clone(),
            message: self.message.clone(),
            emojis,
            sent_at: self.sent_at,
            received_at: self.received_at,
            username: self.username.clone(),
            avatar: self.avatar.clone(),
            amount: self.amount,
            currency: self.currency.clone(),
            is_verified: self.is_verified,
            is_sub: self.is_sub,
            is_mod: self.is_mod,
            is_owner: self.is_owner,
            is_staff: self.is_staff,
        };
        assert(r@.emojis =~= self@.emojis);
        r
    }

    pub fn get_badge_string(&self) -> (r: String)
        ensures
            r@ == badge_string(self@),
    {
        proof {
            reveal_strlit("msg--b-");
        }
        let mut r = String::new();
        let mut first = true;
        if self.is_verified {
            push_badge(&mut r, first, "verified");
            first = false;
        }
        if self.is_sub {
            push_badge(&mut r, first, "sub");
            first = false;
        }
        if self.is_mod {
            push_badge(&mut r, first, "mod");
            first = false;
        }
        if self.is_owner {
            push_badge(&mut r, first, "owner");
            first = false;
        }
        if self.is_staff {
            push_badge(&mut r, first, "staff");
        }
        r
    }

    pub fn is_premium(&self) -> (r: bool)
        ensures
            r == is_paid(self@),
    {
        self.amount > 0
    }

    /// The first character of the username.
    pub fn get_letter(&self) -> (r: String)
        requires
            self.username@.len() > 0,
        ensures
            r@ == seq![self.username@[0]],
    {
        let mut r = String::new();
        r.push(self.username.as_str().get_char(0));
        r
    }

    /// The amount with two decimals and the currency, or empty when unpaid.
    pub fn get_paid_readable_amount(&self) -> (r: String)
        ensures
            r@ == readable_amount(self@),
    {
        let mut r = String::new();
        if self.is_premium() {
            push_decimal(&mut r, self.amount / 100);
            r.push('.');
            push_two_digits(&mut r, self.amount % 100);
            push_text(&mut r, " ");
            push_text(&mut r, self.currency.as_str());
        }
        r
    }

    /// The tier and currency classes of a paid message, or empty when unpaid.
    pub fn get_paid_string(&self) -> (r: String)
        ensures
            r@ == paid_string(self@),
    {
        let mut r = String::new();
        if self.is_premium() {
            push_text(&mut r, "msg--t msg--ta-");
            push_decimal(&mut r, self.get_paid_tier() as u64);
            push_text(&mut r, " msg--tc-");
            push_text(&mut r, self.currency.as_str());
        }
        r
    }

    pub fn get_paid_tier(&self) -> (r: u8)
        ensures
            r == paid_tier(self.amount),
    {
        if self.amount >= 9900 {
            100
        } else if self.amount >= 4900 {
            50
        } else if self.amount >= 1900 {
            20
        } else if self.amount >= 900 {
            10
        } else if self.amount >= 475 {
            5
        } else if self.amount >= 190 {
            2
        } else {
            1
        }
    }

    pub fn get_platform_string(&self) -> (r: String)
        ensures
            r@ == "msg--p-"@ + self.platform@,
    {
        let mut r = String::new();
        push_text(&mut r, "msg--p-");
        push_text(&mut r, self.platform.as_str());
        r
    }

    /// One line describing the message for a log.
    pub fn to_console_msg(&self) -> (r: String)
        ensures
            r@ == console_line(self@),
    {
        let mut r = String::new();
        push_text(&mut r, "[");
        push_text(&mut r, self.platform.as_str());
        if self.is_premium() {
            push_text(&mut r, "] [$");
            push_text(&mut r, self.currency.as_str());
            push_text(&mut r, " ");
            push_short_amount(&mut r, self.amount);
            push_text(&mut r, "] (");
            push_text(&mut r, self.username.as_str());
            push_text(&mut r, "): ");
        } else {
            push_text(&mut r, "] ");
            push_text(&mut r, self.username.as_str());
            push_text(&mut r, ": ");
        }
        push_text(&mut r, self.message.as_str());
        r
    }
}

impl Default for Message {
    /// A placeholder with a random identifier, stamped with the current time.
    fn default() -> (r: Message)
        ensures
            r@.platform == "NONE"@,
            r@.message == "DEFAULT_MESSAGE"@,
            r@.emojis.len() == 0,
            r@.sent_at == r@.received_at,
            r@.username == "NO_USERNAME"@,
            r@.avatar == DEFAULT_AVATAR@,
            r@.amount == 0,
            r@.currency == "ZWL"@,
            !r@.is_verified && !r@.is_sub && !r@.is_mod && !r@.is_owner && !r@.is_staff,
    {
        let time = unix_millis_now();
        Message::placeholder(random_uuid(), time)
    }
}

fn push_badge(out: &mut String, first: bool, name: &str)
    requires
        first <==> old(out)@.len() == 0,
    ensures
        final(out)@ == add_badge(old(out)@, name@),
        final(out)@.len() > 0,
{
    proof {
        reveal_strlit("msg--b-");
        reveal_strlit(" msg--b-");
    }
    if first {
        push_text(out, "msg--b-");
    } else {
        push_text(out, " msg--b-");
    }
    push_text(out, name);
}

fn push_short_amount(out: &mut String, amount: u64)
    ensures
        final(out)@ == old(out)@ + short_amount(amount),
{
    push_decimal(out, amount / 100);
    let cents = amount % 100;
    if cents != 0 {
        out.push('.');
        if cents % 10 == 0 {
            out.push(crate::text::digit(cents / 10));
        } else {
            push_two_digits(out, cents);
        }
    }
}

/// An update sent by a feed page: new messages and/or its viewer count.
pub struct LivestreamUpdate {
    pub platform: String,
    pub channel: Option<String>,
    pub messages: Option<Vec<Message>>,
    pub viewers: Option<usize>,
}

} // verus!
