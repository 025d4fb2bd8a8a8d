//! Feeds: the configured sources and how far each has been read. A dispatch
//! cycle takes one poll outcome per feed; a failed poll leaves its feed as it
//! was and keeps nothing from the others from reaching the broker.
use vstd::prelude::*;

use crate::message::{Message, MessageView};
use crate::server::{lemma_views_push, message_views};

verus! {

/// A configured source and the latest reception time taken from it.
pub struct Feed {
    /// The page the feed reads.
    pub url: String,
    /// High-water mark, epoch milliseconds; it never goes back.
    pub last_message_time: i64,
}

/// Why a poll brought nothing.
pub struct PollError {
    pub reason: String,
}

pub struct OdyseeFeeder {}

pub struct RumbleFeeder {}

pub struct TwitchFeeder {}

pub struct YouTubeFeeder {}

/// The mark after taking in `s`: the latest reception time among the mark and
/// the messages.
pub open spec fn max_received(mark: i64, s: Seq<MessageView>) -> i64
    decreases s.len(),
{
    if s.len() == 0 {
        mark
    } else {
        let m = max_received(mark, s.drop_last());
        if s.last().received_at > m {
            s.last().received_at
        } else {
            m
        }
    }
}

/// The messages a poll outcome hands on: all of them, or none after a failure.
pub open spec fn batch(outcome: Result<Vec<Message>, PollError>) -> Seq<MessageView> {
    match outcome {
        Ok(v) => message_views(v@),
        Err(_) => seq![],
    }
}

/// A feed's mark after a poll outcome.
pub open spec fn mark_after(mark: i64, outcome: Result<Vec<Message>, PollError>) -> i64 {
    match outcome {
        Ok(v) => max_received(mark, message_views(v@)),
        Err(_) => mark,
    }
}

/// What a cycle hands on: the batches of the feeds, in feed order.
pub open spec fn forwarded(outcomes: Seq<Result<Vec<Message>, PollError>>) -> Seq<MessageView>
    decreases outcomes.len(),
{
    if outcomes.len() == 0 {
        seq![]
    } else {
        forwarded(outcomes.drop_last()) + batch(outcomes.last())
    }
}

pub proof fn lemma_max_received_monotone(mark: i64, s: Seq<MessageView>)
    ensures
        max_received(mark, s) >= mark,
        forall|i: int| 0 <= i < s.len() ==> max_received(mark, s) >= #[trigger] s[i].received_at,
    decreases s.len(),
{
    if s.len() > 0 {
        lemma_max_received_monotone(mark, s.drop_last());
        assert forall|i: int| 0 <= i < s.len() implies max_received(mark, s)
            >= #[trigger] s[i].received_at by {
            if i < s.len() - 1 {
                assert(s[i] == s.drop_last()[i]);
            }
        }
    }
}

impl Feed {
    /// A feed of `url` that has read nothing yet.
    pub fn new(url: String) -> (r: Feed)
        ensures
            r.url@ == url@,
            r.last_message_time == 0,
    {
        Feed { url, last_message_time: 0 }
    }

    /// Advances the mark to the latest reception time among `messages`, never
    /// back. Returns whether there were messages, that is whether the page must
    /// be told the new mark.
    pub fn set_last_message_time_from_messages(&mut self, messages: &Vec<Message>) -> (r: bool)
        ensures
            final(self).url == old(self).url,
            final(self).last_message_time == max_received(
                old(self).last_message_time,
                message_views(messages@),
            ),
            r == (messages@.len() > 0),
    {
        let ghost ms = message_views(messages@);
        let ghost start = self.last_message_time;
        let mut i: usize = 0;
        while i < messages.len()
            invariant
                ms == message_views(messages@),
                i <= messages@.len(),
                self.url == old(self).url,
                self.last_message_time == max_received(start, ms.take(i as int)),
            decreases messages.len() - i,
        {
            assert(ms.take(i + 1).drop_last() =~= ms.take(i as int));
            assert(ms[i as int] == messages@[i as int]@);
            if messages[i].received_at > self.last_message_time {
                self.last_message_time = messages[i].received_at;
            }
            i = i + 1;
        }
        assert(ms.take(i as int) =~= ms);
        messages.len() > 0
    }

    /// Whether the page has set messages after the mark.
    pub fn has_unread(&self, last_set_time: i64) -> (r: bool)
        ensures
            r == (last_set_time > self.last_message_time),
    {
        last_set_time > self.last_message_time
    }

    /// Takes in one poll outcome and returns what goes on to the broker: after a
    /// success the messages, with the mark advanced past them; after a failure
    /// nothing, with the feed unchanged, to be polled again next cycle.
    pub fn absorb(&mut self, outcome: &Result<Vec<Message>, PollError>) -> (r: Vec<Message>)
        ensures
            final(self).url == old(self).url,
            final(self).last_message_time == mark_after(old(self).last_message_time, *outcome),
            message_views(r@) == batch(*outcome),
    {
        match outcome {
            Ok(v) => {
                self.set_last_message_time_from_messages(v);
                copy_messages(v)
            },
            Err(_) => {
                let none: Vec<Message> = Vec::new();
                assert(message_views(none@) =~= Seq::<MessageView>::empty());
                none
            },
        }
    }
}

fn copy_messages(v: &Vec<Message>) -> (r: Vec<Message>)
    ensures
        message_views(r@) == message_views(v@),
{
    let mut r: Vec<Message> = Vec::new();
    let mut i: usize = 0;
    while i < v.len()
        invariant
            i <= v@.len(),
            message_views(r@) == message_views(v@).take(i as int),
        decreases v.len() - i,
    {
        let m = v[i].duplicate();
        proof {
            lemma_views_push(r@, m);
        }
        r.push(m);
        i = i + 1;
        assert(message_views(r@) =~= message_views(v@).take(i as int));
    }
    assert(message_views(v@).take(i as int) =~= message_views(v@));
    r
}

/// One dispatch cycle over the outcomes of polling each feed, in feed order:
/// each feed takes in its own outcome, and the messages of the successful polls
/// go on to the broker, feed after feed.
pub fn dispatch_cycle(feeds: &mut Vec<Feed>, outcomes: &Vec<Result<Vec<Message>, PollError>>) -> (r:
    Vec<Message>)
    requires
        old(feeds)@.len() == outcomes@.len(),
    ensures
        final(feeds)@.len() == old(feeds)@.len(),
        forall|i: int|
            0 <= i < final(feeds)@.len() ==> (#[trigger] final(feeds)@[i]).url == old(feeds)@[i].url
                && final(feeds)@[i].last_message_time == mark_after(
                old(feeds)@[i].last_message_time,
                outcomes@[i],
            ),
        message_views(r@) == forwarded(outcomes@),
{
    let mut r: Vec<Message> = Vec::new();
    let mut i: usize = 0;
    while i < feeds.len()
        invariant
            feeds@.len() == old(feeds)@.len(),
            feeds@.len() == outcomes@.len(),
            i <= feeds@.len(),
            forall|k: int|
                0 <= k < i ==> (#[trigger] feeds@[k]).url == old(feeds)@[k].url
                    && feeds@[k].last_message_time == mark_after(
                    old(feeds)@[k].last_message_time,
                    outcomes@[k],
                ),
            forall|k: int| i <= k < feeds@.len() ==> #[trigger] feeds@[k] == old(feeds)@[k],
            message_views(r@) == forwarded(outcomes@.take(i as int)),
        decreases feeds.len() - i,
    {
        let mut feed = Feed { url: feeds[i].url.clone(), last_message_time: feeds[i].last_message_time };
        let mut taken = feed.absorb(&outcomes[i]);
        feeds.set(i, feed);
        let ghost before = r@;
        let ghost batch_seq = taken@;
        r.append(&mut taken);
        assert(outcomes@.take(i + 1).drop_last() =~= outcomes@.take(i as int));
        assert(message_views(r@) =~= message_views(before) + message_views(batch_seq));
        i = i + 1;
    }
    assert(outcomes@.take(i as int) =~= outcomes@);
    r
}

} // verus!
