//! The client's table of subscriptions: which channels it follows and where
//! the streams announced on each are handed over.

use vstd::prelude::*;
use crate::registry::Registry;
use crate::msg::{accepts, MsgAck, RequestError};

verus! {

/// Why a subscription is refused.
#[derive(Clone, Copy, Debug, PartialEq, Eq, Structural)]
pub enum ClientError {
    /// The client already follows the channel.
    AlreadySubscribed,
}

impl ClientError {
    /// The text that describes the error.
    pub fn message(&self) -> (s: String)
        ensures
            s@ == "This channel has been subscribed."@,
    {
        match self {
            ClientError::AlreadySubscribed => "This channel has been subscribed.".to_owned(),
        }
    }
}

/// The channels a client follows, each with the sender (`T`) that receives
/// the streams announced on it.
pub struct Subscriptions<T> {
    channels: Registry<T>,
}

impl<T> View for Subscriptions<T> {
    type V = Map<Seq<char>, T>;

    open spec fn view(&self) -> Map<Seq<char>, T> {
        self.as_map()
    }
}

impl<T> Subscriptions<T> {
    /// The table is well formed.
    pub closed spec fn wf(&self) -> bool {
        self.channels.wf()
    }

    /// The followed channels and their senders.
    pub closed spec fn as_map(&self) -> Map<Seq<char>, T> {
        self.channels@
    }

    /// No channel followed.
    pub fn new() -> (s: Subscriptions<T>)
        ensures
            s.wf(),
            s@ == Map::<Seq<char>, T>::empty(),
    {
        Subscriptions { channels: Registry::new() }
    }

    /// Refuses a subscription to a channel that is already followed.
    pub fn check_new(&self, channel: &String) -> (r: Result<(), ClientError>)
        requires
            self.wf(),
        ensures
            r is Err <==> self@.contains_key(channel@),
            r is Err ==> r == Err::<(), ClientError>(ClientError::AlreadySubscribed),
    {
        if self.channels.contains_key(channel) {
            Err(ClientError::AlreadySubscribed)
        } else {
            Ok(())
        }
    }

    /// Follows `channel`, handing its streams to `sender`.
    pub fn add(&mut self, channel: String, sender: T)
        requires
            old(self).wf(),
        ensures
            final(self).wf(),
            final(self)@ == old(self)@.insert(channel@, sender),
    {
        self.channels.insert(channel, sender);
    }

    /// Records the subscription to `channel` once the server has answered
    /// the subscription request `tid` with `ack`: the channel is followed,
    /// handing its streams to `sender`, only when `ack` accepts the request;
    /// a refused request leaves the table as it was and gives the refusal.
    pub fn confirm(&mut self, channel: String, tid: &String, ack: &MsgAck, sender: T) -> (r: Result<
        (),
        RequestError,
    >)
        requires
            old(self).wf(),
        ensures
            final(self).wf(),
            r is Ok <==> accepts(*ack, tid@),
            r is Ok ==> final(self)@ == old(self)@.insert(channel@, sender),
            r is Err ==> final(self)@ == old(self)@,
            ack.tid@ != tid@ ==> r == Err::<(), RequestError>(RequestError::TidMismatched),
            ack.tid@ == tid@ && ack.error@.len() > 0 ==> (r matches Err(
                RequestError::Rejected(e),
            ) && e@ == ack.error@),
    {
        let outcome = ack.check(tid);
        match outcome {
            Ok(()) => {
                self.channels.insert(channel, sender);
                Ok(())
            },
            Err(e) => Err(e),
        }
    }

    /// The sender of the streams announced on `channel`, if it is followed.
    pub fn route(&self, channel: &String) -> (r: Option<&T>)
        requires
            self.wf(),
        ensures
            match r {
                Some(s) => self@.contains_key(channel@) && *s == self@[channel@],
                None => !self@.contains_key(channel@),
            },
    {
        self.channels.get(channel)
    }

    /// Stops following `channel` (its receiving side has gone) and returns
    /// its sender.
    pub fn drop_channel(&mut self, channel: &String) -> (r: Option<T>)
        requires
            old(self).wf(),
        ensures
            final(self).wf(),
            final(self)@ == old(self)@.remove(channel@),
            match r {
                Some(s) => old(self)@.contains_key(channel@) && s == old(self)@[channel@],
                None => !old(self)@.contains_key(channel@),
            },
    {
        self.channels.remove(channel)
    }

    /// Stops following every channel.
    pub fn clear(&mut self)
        requires
            old(self).wf(),
        ensures
            final(self).wf(),
            final(self)@ == Map::<Seq<char>, T>::empty(),
    {
        self.channels.clear();
    }
}

/// A channel can be subscribed to once: after a subscription to `channel`,
/// `check_new` refuses another, and the announced streams of the channel are
/// routed to the sender given.
pub proof fn lemma_subscription_taken<T>(
    before: Subscriptions<T>,
    after: Subscriptions<T>,
    channel: Seq<char>,
    sender: T,
)
    requires
        after@ == before@.insert(channel, sender),
    ensures
        after@.contains_key(channel),
        after@[channel] == sender,
{
}

/// A subscription the server refuses leaves no trace: the channel stays
/// free to subscribe to, and a subscription answered with the server's own
/// acceptance of the request is recorded.
pub proof fn lemma_subscription_follows_answer<T>(
    before: Subscriptions<T>,
    after: Subscriptions<T>,
    channel: Seq<char>,
    sender: T,
    tid: Seq<char>,
    ack: MsgAck,
    accepted: bool,
)
    requires
        accepted == accepts(ack, tid),
        accepted ==> after@ == before@.insert(channel, sender),
        !accepted ==> after@ == before@,
    ensures
        !accepted && !before@.contains_key(channel) ==> !after@.contains_key(channel),
        ack.tid@ == tid && ack.error@ == Seq::<char>::empty() ==> after@.contains_key(channel)
            && after@[channel] == sender,
{
}

/// A channel whose receiving side has gone can be subscribed to again, and
/// the other channels keep their senders.
pub proof fn lemma_dropped_channel_free<T>(
    before: Subscriptions<T>,
    after: Subscriptions<T>,
    channel: Seq<char>,
)
    requires
        after@ == before@.remove(channel),
    ensures
        !after@.contains_key(channel),
        forall|c: Seq<char>|
            c != channel && before@.contains_key(c) ==> after@.contains_key(c) && after@[c]
                == before@[c],
{
}

} // verus!
