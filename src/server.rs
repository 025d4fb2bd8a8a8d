//! The broker: the one owner of shared chat state. It keeps the registry of
//! listening sessions, the store of finished messages ordered by reception
//! time, the index of paid messages, the viewer counts and the descriptor used
//! to drop an unpaid message that repeats the one before it.
//!
//! Operations take the state one at a time; each that must reach the sessions
//! returns a `Broadcast` naming every session registered at that moment.
use vstd::prelude::*;

use crate::exchange::{usd_value, ExchangeRates, USD};
use crate::identity::{derive_id, derived_id};
use crate::lookup::{key_index, lemma_key_index, lemma_key_index_is};
use crate::media::{apply_inline_media, inline_media};
use crate::message::{is_paid, Message, MessageView};
use crate::protocol::{viewer_entry_view, Broadcast, Content, Disconnect, Payload, ViewCount};
use crate::text::{escape_html, sanitize, text_equals};

verus! {

/// Relies on rand::random: a value drawn from the thread's generator, of which
/// nothing is promised.
pub assume_specification<T>[ rand::random::<T> ]() -> (r: T)
    where
        rand::distributions::Standard: rand::distributions::Distribution<T>,
;

/// Relies on Vec::capacity: how many messages the store holds before it must
/// reallocate, of which nothing is promised.
#[verifier::external_body]
fn store_capacity(v: &Vec<Message>) -> usize {
    v.capacity()
}

/// How many places the store and the registry start with, and how many the
/// store grows by once it is nearly full.
pub const CAPACITY_STEP: usize = 100;

/// How many messages `recent_messages` returns at most.
pub const MAX_RECENT: usize = 100;

pub struct ChatServer {
    clients: Vec<usize>,
    chat_messages: Vec<Message>,
    paid_messages: Vec<u128>,
    exchange_rates: ExchangeRates,
    viewer_counts: Vec<(String, usize)>,
    last_unpaid: Option<(String, String)>,
}

/// The mathematical value of the broker's state.
pub struct ServerView {
    /// Registered sessions.
    pub clients: Seq<usize>,
    /// Stored messages, by reception time.
    pub messages: Seq<MessageView>,
    /// Identifiers of the stored paid messages, in the order of `messages`.
    pub paid: Seq<u128>,
    pub rates: Seq<(Seq<char>, u64)>,
    /// Viewer count per platform.
    pub viewers: Seq<(Seq<char>, usize)>,
    /// Username and raw body of the last accepted message, if it was unpaid.
    pub last_unpaid: Option<(Seq<char>, Seq<char>)>,
}

pub open spec fn message_views(s: Seq<Message>) -> Seq<MessageView> {
    s.map_values(|m: Message| m@)
}

pub open spec fn viewer_views(s: Seq<(String, usize)>) -> Seq<(Seq<char>, usize)> {
    s.map_values(|e: (String, usize)| viewer_entry_view(e))
}

pub open spec fn id_index(s: Seq<MessageView>, id: u128) -> int {
    key_index(s, |m: MessageView| m.id, id)
}

pub open spec fn client_index(s: Seq<usize>, id: usize) -> int {
    key_index(s, |c: usize| c, id)
}

pub open spec fn platform_index(s: Seq<(Seq<char>, usize)>, platform: Seq<char>) -> int {
    key_index(s, |e: (Seq<char>, usize)| e.0, platform)
}

/// Non-decreasing by reception time.
pub open spec fn by_time(s: Seq<MessageView>) -> bool {
    forall|i: int, j: int| 0 <= i <= j < s.len() ==> s[i].received_at <= s[j].received_at
}

pub open spec fn ids_unique(s: Seq<MessageView>) -> bool {
    forall|i: int, j: int| 0 <= i < j < s.len() ==> s[i].id != s[j].id
}

pub open spec fn platforms_unique(s: Seq<(Seq<char>, usize)>) -> bool {
    forall|i: int, j: int| 0 <= i < j < s.len() ==> s[i].0 != s[j].0
}

/// The identifiers of the paid messages of `s`, in order.
pub open spec fn paid_ids(s: Seq<MessageView>) -> Seq<u128>
    decreases s.len(),
{
    if s.len() == 0 {
        seq![]
    } else if is_paid(s.last()) {
        paid_ids(s.drop_last()).push(s.last().id)
    } else {
        paid_ids(s.drop_last())
    }
}

/// The paid messages of `s`, in order.
pub open spec fn paid_only(s: Seq<MessageView>) -> Seq<MessageView>
    decreases s.len(),
{
    if s.len() == 0 {
        seq![]
    } else if is_paid(s.last()) {
        paid_only(s.drop_last()).push(s.last())
    } else {
        paid_only(s.drop_last())
    }
}

/// The last `MAX_RECENT` messages of `s`, or all of them.
pub open spec fn recent(s: Seq<MessageView>) -> Seq<MessageView> {
    if s.len() > MAX_RECENT {
        s.skip(s.len() - MAX_RECENT)
    } else {
        s
    }
}

/// The number of leading messages received no later than `t`: where a message
/// received at `t` goes.
pub open spec fn insert_pos(s: Seq<MessageView>, t: i64) -> int
    decreases s.len(),
{
    if s.len() == 0 {
        0
    } else if s[0].received_at > t {
        0
    } else {
        1 + insert_pos(s.skip(1), t)
    }
}

/// `s` without the message whose identifier is `id`.
pub open spec fn without_id(s: Seq<MessageView>, id: u128) -> Seq<MessageView> {
    let i = id_index(s, id);
    if i < 0 {
        s
    } else {
        s.remove(i)
    }
}

/// Stores `m`: a message with the same identifier goes, and `m` takes its place by
/// reception time, after every message received no later.
pub open spec fn upsert(s: Seq<MessageView>, m: MessageView) -> Seq<MessageView> {
    let r = without_id(s, m.id);
    r.insert(insert_pos(r, m.received_at), m)
}

/// What the broker makes of a submitted message: body escaped once and its
/// media substituted, identifier derived when none was supplied, amount
/// converted to dollars.
pub open spec fn finished(m: MessageView, rates: Seq<(Seq<char>, u64)>) -> MessageView {
    let body = escape_html(m.message);
    MessageView {
        id: if m.id == 0 {
            derived_id(m.platform, body)
        } else {
            m.id
        },
        message: inline_media(body, m.emojis),
        amount: usd_value(rates, m.currency, m.amount),
        currency: USD@,
        ..m
    }
}

/// An unpaid message that repeats the username and body of the last accepted
/// message, itself unpaid, is dropped.
pub open spec fn is_repeat(v: ServerView, m: MessageView) -> bool {
    &&& usd_value(v.rates, m.currency, m.amount) == 0
    &&& v.last_unpaid == Some((m.username, m.message))
}

/// The state after `m` was accepted.
pub open spec fn accepted(v: ServerView, m: MessageView) -> ServerView {
    let f = finished(m, v.rates);
    let messages = upsert(v.messages, f);
    ServerView {
        messages,
        paid: paid_ids(messages),
        last_unpaid: if is_paid(f) {
            None
        } else {
            Some((m.username, m.message))
        },
        ..v
    }
}

/// The state after `m` was submitted.
pub open spec fn submitted(v: ServerView, m: MessageView) -> ServerView {
    if is_repeat(v, m) {
        v
    } else {
        accepted(v, m)
    }
}

/// The state after session `id` left.
pub open spec fn disconnected(v: ServerView, id: usize) -> ServerView {
    let i = client_index(v.clients, id);
    ServerView {
        clients: if i < 0 {
            v.clients
        } else {
            v.clients.remove(i)
        },
        ..v
    }
}

/// The viewer table with `platform` at `count`.
pub open spec fn viewers_set(
    s: Seq<(Seq<char>, usize)>,
    platform: Seq<char>,
    count: usize,
) -> Seq<(Seq<char>, usize)> {
    let i = platform_index(s, platform);
    if i < 0 {
        s.push((platform, count))
    } else {
        s.update(i, (platform, count))
    }
}

/// A count equal to the stored one changes nothing.
pub open spec fn count_unchanged(v: ServerView, platform: Seq<char>, count: usize) -> bool {
    let i = platform_index(v.viewers, platform);
    i >= 0 && v.viewers[i].1 == count
}

pub open spec fn view_wf(v: ServerView) -> bool {
    &&& v.clients.no_duplicates()
    &&& ids_unique(v.messages)
    &&& by_time(v.messages)
    &&& v.paid == paid_ids(v.messages)
    &&& platforms_unique(v.viewers)
    &&& crate::exchange::codes_unique(v.rates)
    &&& crate::exchange::has_dollar_rate(v.rates)
}

impl View for ChatServer {
    type V = ServerView;

    closed spec fn view(&self) -> ServerView {
        ServerView {
            clients: self.clients@,
            messages: message_views(self.chat_messages@),
            paid: self.paid_messages@,
            rates: self.exchange_rates@,
            viewers: viewer_views(self.viewer_counts@),
            last_unpaid: match self.last_unpaid {
                Some(d) => Some((d.0@, d.1@)),
                None => None,
            },
        }
    }
}

impl ChatServer {
    pub open spec fn wf(&self) -> bool {
        view_wf(self@)
    }

    /// An empty broker that converts with `exchange_rates`.
    pub fn new(exchange_rates: ExchangeRates) -> (r: ChatServer)
        requires
            exchange_rates.wf(),
        ensures
            r.wf(),
            r@.clients.len() == 0,
            r@.messages.len() == 0,
            r@.viewers.len() == 0,
            r@.last_unpaid is None,
            r@.rates == exchange_rates@,
    {
        let r = ChatServer {
            clients: Vec::with_capacity(CAPACITY_STEP),
            chat_messages: Vec::with_capacity(CAPACITY_STEP),
            paid_messages: Vec::with_capacity(CAPACITY_STEP),
            exchange_rates,
            viewer_counts: Vec::with_capacity(CAPACITY_STEP),
            last_unpaid: None,
        };
        assert(r@.messages =~= Seq::<MessageView>::empty());
        assert(r@.viewers =~= Seq::<(Seq<char>, usize)>::empty());
        assert(paid_ids(r@.messages) =~= Seq::<u128>::empty());
        r
    }

    fn client_position(&self, id: usize) -> (r: Option<usize>)
        ensures
            r matches Some(i) ==> client_index(self@.clients, id) == i,
            r is None ==> client_index(self@.clients, id) == -1,
    {
        let mut i: usize = 0;
        while i < self.clients.len()
            invariant
                i <= self.clients@.len(),
                forall|k: int| 0 <= k < i ==> self.clients@[k] != id,
            decreases self.clients.len() - i,
        {
            if self.clients[i] == id {
                proof {
                    lemma_key_index_is(self.clients@, |c: usize| c, id, i as int);
                }
                return Some(i);
            }
            i = i + 1;
        }
        proof {
            lemma_key_index_is(self.clients@, |c: usize| c, id, -1);
        }
        None
    }

    /// Whether session `id` is registered.
    pub fn is_registered(&self, id: usize) -> (r: bool)
        ensures
            r == self@.clients.contains(id),
    {
        proof {
            lemma_key_index(self@.clients, |c: usize| c, id);
        }
        match self.client_position(id) {
            Some(_) => true,
            None => {
                assert(!self@.clients.contains(id));
                false
            },
        }
    }

    /// Registers a session under `candidate`, or, when that is taken, under the
    /// least identifier that is free.
    pub fn register(&mut self, candidate: usize) -> (r: usize)
        requires
            old(self).wf(),
        ensures
            final(self).wf(),
            !old(self)@.clients.contains(r),
            !old(self)@.clients.contains(candidate) ==> r == candidate,
            old(self)@.clients.contains(candidate) ==> forall|k: usize|
                k < r ==> old(self)@.clients.contains(k),
            final(self)@ == (ServerView { clients: old(self)@.clients.push(r), ..old(self)@ }),
    {
        let mut id = candidate;
        if self.is_registered(candidate) {
            id = 0;
            while self.is_registered(id)
                invariant
                    self.wf(),
                    id <= self@.clients.len(),
                    forall|k: usize| k < id ==> self@.clients.contains(k),
                decreases self@.clients.len() - id,
            {
                proof {
                    lemma_taken_below(self@.clients, (id + 1) as nat);
                    assert(self@.clients.len() == self.clients.len());
                }
                id = id + 1;
            }
        }
        self.clients.push(id);
        id
    }

    /// Registers a session under a random identifier, or the least free one when
    /// that is taken.
    pub fn connect(&mut self) -> (r: usize)
        requires
            old(self).wf(),
        ensures
            final(self).wf(),
            !old(self)@.clients.contains(r),
            final(self)@ == (ServerView { clients: old(self)@.clients.push(r), ..old(self)@ }),
    {
        let candidate: usize = rand::random();
        self.register(candidate)
    }

    /// Removes session `id`; nothing happens when it is not registered.
    pub fn disconnect(&mut self, msg: &Disconnect)
        requires
            old(self).wf(),
        ensures
            final(self).wf(),
            final(self)@ == disconnected(old(self)@, msg.id),
            !final(self)@.clients.contains(msg.id),
    {
        proof {
            lemma_key_index(self@.clients, |c: usize| c, msg.id);
        }
        let ghost before = self@.clients;
        match self.client_position(msg.id) {
            Some(i) => {
                self.clients.remove(i);
                assert forall|k: int| 0 <= k < self@.clients.len() implies self@.clients[k]
                    != msg.id by {
                    if k < i {
                        assert(self@.clients[k] == before[k]);
                    } else {
                        assert(self@.clients[k] == before[k + 1]);
                    }
                }
            },
            None => {},
        }
    }
}

impl ChatServer {
    fn message_position(&self, id: u128) -> (r: Option<usize>)
        ensures
            r matches Some(i) ==> id_index(self@.messages, id) == i,
            r is None ==> id_index(self@.messages, id) == -1,
    {
        let ghost ms = self@.messages;
        let mut i: usize = 0;
        while i < self.chat_messages.len()
            invariant
                ms == message_views(self.chat_messages@),
                i <= self.chat_messages@.len(),
                forall|k: int| 0 <= k < i ==> ms[k].id != id,
            decreases self.chat_messages.len() - i,
        {
            assert(ms[i as int] == self.chat_messages@[i as int]@);
            if self.chat_messages[i].id == id {
                proof {
                    lemma_key_index_is(ms, |m: MessageView| m.id, id, i as int);
                }
                return Some(i);
            }
            i = i + 1;
        }
        proof {
            lemma_key_index_is(ms, |m: MessageView| m.id, id, -1);
        }
        None
    }

    fn time_position(&self, t: i64) -> (r: usize)
        ensures
            r == insert_pos(self@.messages, t),
    {
        let ghost ms = self@.messages;
        let mut i: usize = 0;
        while i < self.chat_messages.len() && self.chat_messages[i].received_at <= t
            invariant
                ms == message_views(self.chat_messages@),
                i <= self.chat_messages@.len(),
                forall|k: int| 0 <= k < i ==> ms[k].received_at <= t,
            decreases self.chat_messages.len() - i,
        {
            assert(ms[i as int] == self.chat_messages@[i as int]@);
            i = i + 1;
        }
        proof {
            if i < ms.len() {
                assert(ms[i as int] == self.chat_messages@[i as int]@);
            }
            lemma_insert_pos_is(ms, t, i as int);
        }
        i
    }

    /// Stores `m`, replacing the message with its identifier.
    fn store(&mut self, m: Message)
        requires
            ids_unique(old(self)@.messages),
            by_time(old(self)@.messages),
        ensures
            final(self)@ == (ServerView { messages: upsert(old(self)@.messages, m@), ..old(self)@ }),
            ids_unique(final(self)@.messages),
            by_time(final(self)@.messages),
    {
        let ghost before = self@.messages;
        proof {
            lemma_upsert(before, m@);
            lemma_id_index(before, m.id);
        }
        match self.message_position(m.id) {
            Some(i) => {
                self.chat_messages.remove(i);
                assert(self@.messages =~= before.remove(i as int));
            },
            None => {},
        }
        assert(self@.messages == without_id(before, m.id));
        let capacity = store_capacity(&self.chat_messages);
        if capacity == 0 || self.chat_messages.len() >= capacity - 1 {
            let ghost unreserved = self.chat_messages@;
            self.chat_messages.reserve(CAPACITY_STEP);
            assert(self.chat_messages@ == unreserved);
        }
        let ghost view_m = m@;
        let q = self.time_position(m.received_at);
        let ghost mid = self@.messages;
        proof {
            lemma_insert_pos(mid, view_m.received_at);
            assert(mid.len() == self.chat_messages@.len());
        }
        self.chat_messages.insert(q, m);
        assert(self@.messages =~= mid.insert(q as int, view_m));
    }

    /// Rebuilds the index of paid messages from the store.
    fn reindex_paid(&mut self)
        ensures
            final(self)@ == (ServerView { paid: paid_ids(old(self)@.messages), ..old(self)@ }),
    {
        let ghost ms = self@.messages;
        let mut ids: Vec<u128> = Vec::new();
        let mut i: usize = 0;
        while i < self.chat_messages.len()
            invariant
                ms == message_views(self.chat_messages@),
                i <= self.chat_messages@.len(),
                ids@ == paid_ids(ms.take(i as int)),
            decreases self.chat_messages.len() - i,
        {
            assert(ms.take(i + 1).drop_last() =~= ms.take(i as int));
            assert(ms[i as int] == self.chat_messages@[i as int]@);
            if self.chat_messages[i].amount > 0 {
                ids.push(self.chat_messages[i].id);
            }
            i = i + 1;
        }
        assert(ms.take(i as int) =~= ms);
        self.paid_messages = ids;
    }

    fn repeats_last(&self, m: &Message) -> (r: bool)
        ensures
            r == (self@.last_unpaid == Some((m.username@, m.message@))),
    {
        match &self.last_unpaid {
            Some(d) => d.0 == m.username && d.1 == m.message,
            None => false,
        }
    }

    fn recipients(&self) -> (r: Vec<usize>)
        ensures
            r@ == self@.clients,
    {
        let mut r: Vec<usize> = Vec::new();
        let mut i: usize = 0;
        while i < self.clients.len()
            invariant
                i <= self.clients@.len(),
                r@ == self.clients@.take(i as int),
            decreases self.clients.len() - i,
        {
            r.push(self.clients[i]);
            i = i + 1;
            assert(r@ =~= self.clients@.take(i as int));
        }
        assert(self.clients@.take(i as int) =~= self.clients@);
        r
    }

    /// Takes in a chat message. An unpaid message that repeats the username and body
    /// of the last accepted one, itself unpaid, is dropped. Otherwise the body is
    /// escaped once and its media substituted, a missing identifier is derived, the
    /// amount is converted to dollars, the message is stored by reception time in
    /// place of one with its identifier, the paid index is brought up to date, and
    /// the finished message is broadcast to every registered session.
    pub fn submit(&mut self, content: Content) -> (r: Option<Broadcast>)
        requires
            old(self).wf(),
        ensures
            final(self).wf(),
            final(self)@ == submitted(old(self)@, content.chat_message@),
            r is None <==> is_repeat(old(self)@, content.chat_message@),
            r matches Some(b) ==> b.recipients@ == old(self)@.clients && b.payload.chat_view()
                == Some(finished(content.chat_message@, old(self)@.rates)),
    {
        let msg = content.chat_message;
        let ghost mv = msg@;
        let ghost before = self@;
        let usd = self.exchange_rates.get_usd(msg.currency.as_str(), msg.amount);
        if usd == 0 && self.repeats_last(&msg) {
            return None;
        }
        let body = sanitize(msg.message.as_str());
        let id = if msg.id == 0 {
            derive_id(msg.platform.as_str(), body.as_str())
        } else {
            msg.id
        };
        let text = apply_inline_media(body.as_str(), &msg.emojis);
        let descriptor = if usd == 0 {
            Some((msg.username.clone(), msg.message.clone()))
        } else {
            None
        };
        let done = Message {
            id,
            platform: msg.platform,
            message: text,
            emojis: msg.emojis,
            sent_at: msg.sent_at,
            received_at: msg.received_at,
            username: msg.username,
            avatar: msg.avatar,
            amount: usd,
            currency: String::from_str(USD),
            is_verified: msg.is_verified,
            is_sub: msg.is_sub,
            is_mod: msg.is_mod,
            is_owner: msg.is_owner,
            is_staff: msg.is_staff,
        };
        assert(done@ == finished(mv, before.rates));
        let copy = done.duplicate();
        self.store(done);
        self.reindex_paid();
        self.last_unpaid = descriptor;
        let recipients = self.recipients();
        assert(self@ == accepted(before, mv));
        Some(Broadcast { recipients, payload: Payload::ChatMessage(copy) })
    }
}

impl ChatServer {
    /// Up to `MAX_RECENT` of the most recently received messages, oldest first.
    pub fn recent_messages(&self) -> (r: Vec<Message>)
        ensures
            message_views(r@) == recent(self@.messages),
    {
        let ghost ms = self@.messages;
        let n = self.chat_messages.len();
        let start: usize = if n > MAX_RECENT {
            n - MAX_RECENT
        } else {
            0
        };
        let mut r: Vec<Message> = Vec::new();
        let mut i: usize = start;
        while i < n
            invariant
                ms == message_views(self.chat_messages@),
                n == self.chat_messages@.len(),
                start <= i <= n,
                message_views(r@) == ms.subrange(start as int, i as int),
            decreases n - i,
        {
            let m = self.chat_messages[i].duplicate();
            proof {
                lemma_views_push(r@, m);
            }
            r.push(m);
            i = i + 1;
            assert(message_views(r@) =~= ms.subrange(start as int, i as int));
        }
        assert(ms.subrange(start as int, n as int) =~= recent(ms));
        r
    }

    /// Every stored paid message, oldest first.
    pub fn paid_messages(&self) -> (r: Vec<Message>)
        ensures
            message_views(r@) == paid_only(self@.messages),
    {
        let ghost ms = self@.messages;
        let mut r: Vec<Message> = Vec::new();
        let mut i: usize = 0;
        while i < self.chat_messages.len()
            invariant
                ms == message_views(self.chat_messages@),
                i <= self.chat_messages@.len(),
                message_views(r@) == paid_only(ms.take(i as int)),
            decreases self.chat_messages.len() - i,
        {
            assert(ms.take(i + 1).drop_last() =~= ms.take(i as int));
            assert(ms[i as int] == self.chat_messages@[i as int]@);
            if self.chat_messages[i].amount > 0 {
                let m = self.chat_messages[i].duplicate();
                proof {
                    lemma_views_push(r@, m);
                }
                r.push(m);
                assert(message_views(r@) =~= paid_only(ms.take(i + 1)));
            }
            i = i + 1;
        }
        assert(ms.take(i as int) =~= ms);
        r
    }

    /// The identifiers of the stored paid messages, oldest first.
    pub fn paid_ids(&self) -> (r: Vec<u128>)
        ensures
            r@ == self@.paid,
    {
        let mut r: Vec<u128> = Vec::new();
        let mut i: usize = 0;
        while i < self.paid_messages.len()
            invariant
                i <= self.paid_messages@.len(),
                r@ == self.paid_messages@.take(i as int),
            decreases self.paid_messages.len() - i,
        {
            r.push(self.paid_messages[i]);
            i = i + 1;
            assert(r@ =~= self.paid_messages@.take(i as int));
        }
        assert(self.paid_messages@.take(i as int) =~= self.paid_messages@);
        r
    }

    /// The registered sessions.
    pub fn sessions(&self) -> (r: Vec<usize>)
        ensures
            r@ == self@.clients,
    {
        self.recipients()
    }

    fn platform_position(&self, platform: &str) -> (r: Option<usize>)
        ensures
            r matches Some(i) ==> platform_index(self@.viewers, platform@) == i,
            r is None ==> platform_index(self@.viewers, platform@) == -1,
    {
        let ghost vs = self@.viewers;
        let mut i: usize = 0;
        while i < self.viewer_counts.len()
            invariant
                vs == viewer_views(self.viewer_counts@),
                i <= self.viewer_counts@.len(),
                forall|k: int| 0 <= k < i ==> vs[k].0 != platform@,
            decreases self.viewer_counts.len() - i,
        {
            assert(vs[i as int] == viewer_entry_view(self.viewer_counts@[i as int]));
            if text_equals(self.viewer_counts[i].0.as_str(), platform) {
                proof {
                    lemma_key_index_is(vs, |e: (Seq<char>, usize)| e.0, platform@, i as int);
                }
                return Some(i);
            }
            i = i + 1;
        }
        proof {
            lemma_key_index_is(vs, |e: (Seq<char>, usize)| e.0, platform@, -1);
        }
        None
    }

    /// The stored viewer count of `platform`, if any.
    pub fn viewer_count(&self, platform: &str) -> (r: Option<usize>)
        ensures
            r == (if platform_index(self@.viewers, platform@) >= 0 {
                Some(self@.viewers[platform_index(self@.viewers, platform@)].1)
            } else {
                None::<usize>
            }),
    {
        proof {
            lemma_key_index(self@.viewers, |e: (Seq<char>, usize)| e.0, platform@);
        }
        match self.platform_position(platform) {
            Some(i) => {
                assert(self@.viewers[i as int] == viewer_entry_view(self.viewer_counts@[i as int]));
                Some(self.viewer_counts[i].1)
            },
            None => None,
        }
    }

    fn viewer_table(&self) -> (r: Vec<(String, usize)>)
        ensures
            viewer_views(r@) == self@.viewers,
    {
        let ghost vs = self@.viewers;
        let mut r: Vec<(String, usize)> = Vec::new();
        let mut i: usize = 0;
        while i < self.viewer_counts.len()
            invariant
                vs == viewer_views(self.viewer_counts@),
                i <= self.viewer_counts@.len(),
                viewer_views(r@) == vs.take(i as int),
            decreases self.viewer_counts.len() - i,
        {
            let e = &self.viewer_counts[i];
            let entry = (e.0.clone(), e.1);
            proof {
                let old_r = r@;
                assert(viewer_views(old_r.push(entry)) =~= viewer_views(old_r).push(viewer_entry_view(entry)));
            }
            r.push(entry);
            i = i + 1;
            assert(viewer_views(r@) =~= vs.take(i as int));
        }
        assert(vs.take(i as int) =~= vs);
        r
    }

    /// Records the viewer count of a platform. A count equal to the stored one
    /// changes nothing and sends nothing; otherwise the whole table goes to every
    /// registered session.
    pub fn update_viewer_count(&mut self, update: ViewCount) -> (r: Option<Broadcast>)
        requires
            old(self).wf(),
        ensures
            final(self).wf(),
            r is None <==> count_unchanged(old(self)@, update.platform@, update.viewers),
            r is None ==> final(self)@ == old(self)@,
            r is Some ==> final(self)@ == (ServerView {
                viewers: viewers_set(old(self)@.viewers, update.platform@, update.viewers),
                ..old(self)@
            }),
            r matches Some(b) ==> b.recipients@ == old(self)@.clients && b.payload.viewers_view()
                == Some(final(self)@.viewers),
    {
        let ghost before = self@;
        let ghost p = update.platform@;
        proof {
            lemma_key_index(before.viewers, |e: (Seq<char>, usize)| e.0, p);
        }
        match self.platform_position(update.platform.as_str()) {
            Some(i) => {
                assert(before.viewers[i as int] == viewer_entry_view(self.viewer_counts@[i as int]));
                if self.viewer_counts[i].1 == update.viewers {
                    return None;
                }
                self.viewer_counts.set(i, (update.platform, update.viewers));
                assert(self@.viewers =~= before.viewers.update(i as int, (p, update.viewers)));
                assert forall|a: int, b: int| 0 <= a < b < self@.viewers.len() implies self@.viewers[a].0
                    != self@.viewers[b].0 by {
                    assert(self@.viewers[a].0 == before.viewers[a].0);
                    assert(self@.viewers[b].0 == before.viewers[b].0);
                }
            },
            None => {
                self.viewer_counts.push((update.platform, update.viewers));
                assert(self@.viewers =~= before.viewers.push((p, update.viewers)));
            },
        }
        let table = self.viewer_table();
        let recipients = self.recipients();
        Some(Broadcast { recipients, payload: Payload::Viewers(table) })
    }
}

pub proof fn lemma_views_push(s: Seq<Message>, m: Message)
    ensures
        message_views(s.push(m)) == message_views(s).push(m@),
{
    assert(message_views(s.push(m)) =~= message_views(s).push(m@));
}

/// `insert_pos` is the first index of a message received after `t`, or the length.
pub proof fn lemma_insert_pos(s: Seq<MessageView>, t: i64)
    ensures
        0 <= insert_pos(s, t) <= s.len(),
        forall|k: int| 0 <= k < insert_pos(s, t) ==> s[k].received_at <= t,
        insert_pos(s, t) < s.len() ==> s[insert_pos(s, t)].received_at > t,
    decreases s.len(),
{
    if s.len() > 0 && s[0].received_at <= t {
        lemma_insert_pos(s.skip(1), t);
        assert forall|k: int| 1 <= k < s.len() implies s[k] == s.skip(1)[k - 1] by {}
    }
}

proof fn lemma_insert_pos_is(s: Seq<MessageView>, t: i64, i: int)
    requires
        0 <= i <= s.len(),
        forall|k: int| 0 <= k < i ==> s[k].received_at <= t,
        i < s.len() ==> s[i].received_at > t,
    ensures
        insert_pos(s, t) == i,
{
    lemma_insert_pos(s, t);
    let p = insert_pos(s, t);
    if p < i {
        assert(s[p].received_at <= t);
    }
    if p > i {
        assert(s[i].received_at <= t);
    }
}

pub proof fn lemma_id_index(s: Seq<MessageView>, id: u128)
    ensures
        -1 <= id_index(s, id) < s.len(),
        id_index(s, id) == -1 <==> forall|j: int| 0 <= j < s.len() ==> s[j].id != id,
        id_index(s, id) >= 0 ==> s[id_index(s, id)].id == id,
{
    lemma_key_index(s, |m: MessageView| m.id, id);
}

/// Removing the message with a given identifier keeps the rest in order.
pub proof fn lemma_without_id(s: Seq<MessageView>, id: u128)
    requires
        ids_unique(s),
        by_time(s),
    ensures
        ids_unique(without_id(s, id)),
        by_time(without_id(s, id)),
        forall|k: int| 0 <= k < without_id(s, id).len() ==> #[trigger] without_id(s, id)[k].id != id,
        forall|k: int| 0 <= k < s.len() && s[k].id != id ==> without_id(s, id).contains(#[trigger] s[k]),
        id_index(s, id) >= 0 ==> without_id(s, id).len() == s.len() - 1,
        id_index(s, id) < 0 ==> without_id(s, id) == s,
{
    lemma_id_index(s, id);
    let i = id_index(s, id);
    let r = without_id(s, id);
    if i >= 0 {
        assert forall|k: int| 0 <= k < r.len() implies #[trigger] r[k] == if k < i {
            s[k]
        } else {
            s[k + 1]
        } by {}
        assert forall|k: int| 0 <= k < r.len() implies #[trigger] r[k].id != id by {
            if k >= i {
                assert(r[k] == s[k + 1]);
            }
        }
        assert forall|k: int| 0 <= k < s.len() && s[k].id != id implies r.contains(#[trigger] s[k]) by {
            if k < i {
                assert(r[k] == s[k]);
            } else {
                assert(k != i);
                assert(r[k - 1] == s[k]);
            }
        }
        assert forall|a: int, b: int| 0 <= a <= b < r.len() implies r[a].received_at
            <= r[b].received_at by {
            let a2 = if a < i { a } else { a + 1 };
            let b2 = if b < i { b } else { b + 1 };
            assert(r[a] == s[a2]);
            assert(r[b] == s[b2]);
        }
        assert forall|a: int, b: int| 0 <= a < b < r.len() implies r[a].id != r[b].id by {
            let a2 = if a < i { a } else { a + 1 };
            let b2 = if b < i { b } else { b + 1 };
            assert(r[a] == s[a2]);
            assert(r[b] == s[b2]);
        }
    } else {
        assert forall|k: int| 0 <= k < s.len() && s[k].id != id implies r.contains(#[trigger] s[k]) by {
            assert(r[k] == s[k]);
        }
    }
}

/// Inserting at `insert_pos` keeps the order by reception time.
pub proof fn lemma_insert_by_time(r: Seq<MessageView>, m: MessageView)
    requires
        ids_unique(r),
        by_time(r),
        forall|k: int| 0 <= k < r.len() ==> #[trigger] r[k].id != m.id,
    ensures
        ids_unique(r.insert(insert_pos(r, m.received_at), m)),
        by_time(r.insert(insert_pos(r, m.received_at), m)),
        r.insert(insert_pos(r, m.received_at), m).contains(m),
        forall|x: MessageView| r.contains(x) ==> #[trigger] r.insert(insert_pos(r, m.received_at), m).contains(x),
{
    lemma_insert_pos(r, m.received_at);
    let q = insert_pos(r, m.received_at);
    let u = r.insert(q, m);
    assert forall|k: int| 0 <= k < u.len() implies #[trigger] u[k] == if k < q {
        r[k]
    } else if k == q {
        m
    } else {
        r[k - 1]
    } by {}
    assert(u[q] == m);
    assert forall|x: MessageView| r.contains(x) implies #[trigger] u.contains(x) by {
        let j = choose|j: int| 0 <= j < r.len() && r[j] == x;
        if j < q {
            assert(u[j] == x);
        } else {
            assert(u[j + 1] == x);
        }
    }
    assert forall|a: int, b: int| 0 <= a <= b < u.len() implies u[a].received_at
        <= u[b].received_at by {
        if a < q && b > q {
            assert(r[a].received_at <= m.received_at);
            if q < r.len() {
                assert(r[q].received_at > m.received_at);
                assert(r[q].received_at <= r[b - 1].received_at);
            }
        } else if a == q && b > q {
            assert(r[q].received_at > m.received_at);
            assert(r[q].received_at <= r[b - 1].received_at);
        } else if a < q && b == q {
            assert(r[a].received_at <= m.received_at);
        }
    }
    assert forall|a: int, b: int| 0 <= a < b < u.len() implies u[a].id != u[b].id by {
        if a == q {
            assert(r[b - 1].id != m.id);
        } else if b == q {
            assert(r[a].id != m.id);
        }
    }
}

/// Storing keeps identifiers unique and the order by reception time; the stored
/// message and every other message with another identifier are in the result.
pub proof fn lemma_upsert(s: Seq<MessageView>, m: MessageView)
    requires
        ids_unique(s),
        by_time(s),
    ensures
        ids_unique(upsert(s, m)),
        by_time(upsert(s, m)),
        upsert(s, m).contains(m),
        forall|k: int| 0 <= k < s.len() && s[k].id != m.id ==> upsert(s, m).contains(#[trigger] s[k]),
        id_index(s, m.id) >= 0 ==> upsert(s, m).len() == s.len(),
        id_index(s, m.id) < 0 ==> upsert(s, m).len() == s.len() + 1,
{
    lemma_without_id(s, m.id);
    let r = without_id(s, m.id);
    lemma_insert_by_time(r, m);
    lemma_insert_pos(r, m.received_at);
    assert forall|k: int| 0 <= k < s.len() && s[k].id != m.id implies upsert(s, m).contains(
        #[trigger] s[k],
    ) by {
        assert(r.contains(s[k]));
    }
}

/// Registered identifiers are distinct, so at most as many of them lie below `k`
/// as there are registered sessions.
pub proof fn lemma_taken_below(clients: Seq<usize>, k: nat)
    requires
        clients.no_duplicates(),
        forall|j: usize| j < k ==> clients.contains(j),
        k <= usize::MAX + 1,
    ensures
        k <= clients.len(),
{
    let below = Set::new(|x: usize| (x as nat) < k);
    lemma_below_set(k);
    assert(below.subset_of(clients.to_set()));
    clients.unique_seq_to_set();
    vstd::set_lib::lemma_len_subset(below, clients.to_set());
}

proof fn lemma_below_set(k: nat)
    requires
        k <= usize::MAX + 1,
    ensures
        Set::new(|x: usize| (x as nat) < k).finite(),
        Set::new(|x: usize| (x as nat) < k).len() == k,
    decreases k,
{
    if k == 0 {
        assert(Set::new(|x: usize| (x as nat) < k) =~= Set::<usize>::empty());
    } else {
        lemma_below_set((k - 1) as nat);
        let smaller = Set::new(|x: usize| (x as nat) < (k - 1) as nat);
        let top = (k - 1) as usize;
        assert(Set::new(|x: usize| (x as nat) < k) =~= smaller.insert(top));
        assert(!smaller.contains(top));
    }
}

} // verus!
