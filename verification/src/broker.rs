//! The server's routing table between publishers and subscribers.
//!
//! Each connected subscriber (keyed by its remote address) follows one
//! channel; each published stream (keyed by its stream id) belongs to one
//! channel and carries the senders that forward its packets to the
//! subscribers of that channel. The table holds the connection handles (`H`)
//! and the senders (`T`) as they are; opening streams and sending data is
//! done by the caller, which asks the table where to.

use vstd::prelude::*;
use crate::registry::{Registry, lists_channel};

verus! {

/// Whether the item at position `i` is flagged to stay: an item without a
/// flag is dropped.
pub open spec fn flagged(open: Seq<bool>, i: int) -> bool {
    0 <= i < open.len() && open[i]
}

/// The items of `items`, which start at position `start`, that are flagged
/// to stay, in their order.
pub open spec fn kept_from<T>(items: Seq<T>, open: Seq<bool>, start: int) -> Seq<T>
    decreases items.len(),
{
    if items.len() == 0 {
        Seq::empty()
    } else {
        let rest = kept_from(items.drop_first(), open, start + 1);
        if flagged(open, start) {
            seq![items[0]] + rest
        } else {
            rest
        }
    }
}

/// The items of `items` whose flag in `open` is `true`, in their order.
pub open spec fn kept<T>(items: Seq<T>, open: Seq<bool>) -> Seq<T> {
    kept_from(items, open, 0)
}

/// The routing table of a server.
pub struct Broker<H, T> {
    subscribers: Registry<(String, H)>,
    streams: Registry<(String, Vec<T>)>,
}

impl<H, T> Broker<H, T> {
    /// Both tables are well formed.
    pub closed spec fn wf(&self) -> bool {
        self.subscribers.wf() && self.streams.wf()
    }

    /// Subscribers by remote address: the channel each follows and its
    /// connection handle.
    pub closed spec fn subscribers(&self) -> Map<Seq<char>, (String, H)> {
        self.subscribers.view()
    }

    /// Published streams by stream id: the channel of each and the senders
    /// to its subscribers.
    pub closed spec fn streams(&self) -> Map<Seq<char>, (String, Vec<T>)> {
        self.streams.view()
    }

    /// A table with no subscriber and no stream.
    pub fn new() -> (b: Broker<H, T>)
        ensures
            b.wf(),
            b.subscribers() == Map::<Seq<char>, (String, H)>::empty(),
            b.streams() == Map::<Seq<char>, (String, Vec<T>)>::empty(),
    {
        Broker { subscribers: Registry::new(), streams: Registry::new() }
    }

    /// Records that the connection at `addr` follows `channel` (replacing
    /// what it followed before) and returns the ids of the streams already
    /// published on that channel, to which it must be attached.
    pub fn subscribe(&mut self, addr: String, channel: String, handle: H) -> (ids: Vec<String>)
        requires
            old(self).wf(),
        ensures
            final(self).wf(),
            final(self).subscribers() == old(self).subscribers().insert(addr@, (channel, handle)),
            final(self).streams() == old(self).streams(),
            lists_channel(ids@, old(self).streams(), channel@),
    {
        let ids = self.streams.keys_on(&channel);
        self.subscribers.insert(addr, (channel, handle));
        ids
    }

    /// Forgets the subscriber at `addr` and returns the channel it followed.
    pub fn unsubscribe(&mut self, addr: &String) -> (r: Option<String>)
        requires
            old(self).wf(),
        ensures
            final(self).wf(),
            final(self).subscribers() == old(self).subscribers().remove(addr@),
            final(self).streams() == old(self).streams(),
            match r {
                Some(c) => old(self).subscribers().contains_key(addr@)
                    && c == old(self).subscribers()[addr@].0,
                None => !old(self).subscribers().contains_key(addr@),
            },
    {
        match self.subscribers.remove(addr) {
            Some((channel, _handle)) => Some(channel),
            None => None,
        }
    }

    /// The remote addresses of the subscribers of `channel`.
    pub fn subscribers_of(&self, channel: &String) -> (addrs: Vec<String>)
        requires
            self.wf(),
        ensures
            lists_channel(addrs@, self.subscribers(), channel@),
    {
        self.subscribers.keys_on(channel)
    }

    /// The connection handle of the subscriber at `addr`.
    pub fn handle_of(&self, addr: &String) -> (r: Option<&H>)
        requires
            self.wf(),
        ensures
            match r {
                Some(h) => self.subscribers().contains_key(addr@) && *h
                    == self.subscribers()[addr@].1,
                None => !self.subscribers().contains_key(addr@),
            },
    {
        match self.subscribers.get(addr) {
            Some(entry) => Some(&entry.1),
            None => None,
        }
    }

    /// Records the stream `stream_id` published on `channel`, with the
    /// senders to the subscribers it was opened to (replacing an earlier
    /// stream of that id).
    pub fn publish(&mut self, stream_id: String, channel: String, senders: Vec<T>)
        requires
            old(self).wf(),
        ensures
            final(self).wf(),
            final(self).streams() == old(self).streams().insert(stream_id@, (channel, senders)),
            final(self).subscribers() == old(self).subscribers(),
    {
        self.streams.insert(stream_id, (channel, senders));
    }

    /// Adds `sender` to the senders of the stream `stream_id`, if that
    /// stream is still published; returns whether it was.
    pub fn attach(&mut self, stream_id: &String, sender: T) -> (attached: bool)
        requires
            old(self).wf(),
        ensures
            final(self).wf(),
            final(self).subscribers() == old(self).subscribers(),
            attached == old(self).streams().contains_key(stream_id@),
            attached ==> {
                let (c, s) = old(self).streams()[stream_id@];
                &&& final(self).streams().dom() == old(self).streams().dom()
                &&& final(self).streams().remove(stream_id@) == old(self).streams().remove(
                    stream_id@,
                )
                &&& final(self).streams()[stream_id@].0 == c
                &&& final(self).streams()[stream_id@].1@ == s@.push(sender)
            },
            !attached ==> final(self).streams() == old(self).streams(),
    {
        match self.streams.remove(stream_id) {
            Some((channel, mut senders)) => {
                let ghost mid = self.streams.view();
                senders.push(sender);
                let ghost entry = (channel, senders);
                self.streams.insert(stream_id.clone(), (channel, senders));
                proof {
                    assert(self.streams.view() == mid.insert(stream_id@, entry));
                    assert(self.streams.view().dom() =~= old(self).streams.view().dom());
                    assert(self.streams.view().remove(stream_id@) =~= old(
                        self,
                    ).streams.view().remove(stream_id@));
                }
                true
            },
            None => false,
        }
    }

    /// The senders of the stream `stream_id`.
    pub fn senders_of(&self, stream_id: &String) -> (r: Option<&Vec<T>>)
        requires
            self.wf(),
        ensures
            match r {
                Some(s) => self.streams().contains_key(stream_id@) && *s
                    == self.streams()[stream_id@].1,
                None => !self.streams().contains_key(stream_id@),
            },
    {
        match self.streams.get(stream_id) {
            Some(entry) => Some(&entry.1),
            None => None,
        }
    }

    /// Keeps, among the senders of `stream_id`, those whose flag in `open`
    /// (given in the order of `senders_of`) is `true`.
    pub fn retain_senders(&mut self, stream_id: &String, open: &Vec<bool>)
        requires
            old(self).wf(),
        ensures
            final(self).wf(),
            final(self).subscribers() == old(self).subscribers(),
            final(self).streams().dom() == old(self).streams().dom(),
            final(self).streams().remove(stream_id@) == old(self).streams().remove(stream_id@),
            old(self).streams().contains_key(stream_id@) ==> {
                let (c, s) = old(self).streams()[stream_id@];
                &&& final(self).streams()[stream_id@].0 == c
                &&& final(self).streams()[stream_id@].1@ == kept(s@, open@)
                &&& final(self).streams()[stream_id@].1@ == Seq::new(
                    s@.len(),
                    |i: int| (s@[i], 0 <= i < open@.len() && open@[i]),
                ).filter(|p: (T, bool)| p.1).map_values(|p: (T, bool)| p.0)
            },
    {
        match self.streams.remove(stream_id) {
            Some((channel, senders)) => {
                let ghost mid = self.streams.view();
                proof {
                    lemma_kept_is_open_subsequence(senders@, open@);
                }
                let kept_senders = keep_open(senders, open);
                let ghost entry = (channel, kept_senders);
                self.streams.insert(stream_id.clone(), (channel, kept_senders));
                proof {
                    assert(self.streams.view() == mid.insert(stream_id@, entry));
                    assert(self.streams.view().dom() =~= old(self).streams.view().dom());
                    assert(self.streams.view().remove(stream_id@) =~= old(
                        self,
                    ).streams.view().remove(stream_id@));
                }
            },
            None => {
                proof {
                    assert(self.streams.view().remove(stream_id@) =~= self.streams.view());
                }
            },
        }
    }

    /// Forgets the stream `stream_id` and drops its senders; returns whether
    /// it was published.
    pub fn unpublish(&mut self, stream_id: &String) -> (was: bool)
        requires
            old(self).wf(),
        ensures
            final(self).wf(),
            final(self).streams() == old(self).streams().remove(stream_id@),
            final(self).subscribers() == old(self).subscribers(),
            was == old(self).streams().contains_key(stream_id@),
    {
        match self.streams.remove(stream_id) {
            Some(_) => true,
            None => false,
        }
    }
}

/// The items of `items` whose flag in `open` is `true`, in their order.
fn keep_open<T>(items: Vec<T>, open: &Vec<bool>) -> (r: Vec<T>)
    ensures
        r@ == kept(items@, open@),
{
    let mut rest = items;
    let mut out: Vec<T> = Vec::new();
    let mut i: usize = 0;
    let ghost all = rest@;
    let n = rest.len();
    while rest.len() > 0
        invariant
            all.len() == n,
            i <= all.len(),
            rest@ == all.skip(i as int),
            out@ + kept_from(rest@, open@, i as int) == kept(all, open@),
        decreases rest@.len(),
    {
        let ghost r0 = rest@;
        let item = rest.remove(0);
        proof {
            assert(rest@ =~= r0.drop_first());
            assert(rest@ =~= all.skip(i + 1));
        }
        if i < open.len() && open[i] {
            proof {
                assert(out@.push(item) + kept_from(rest@, open@, i + 1) =~= out@ + (seq![item]
                    + kept_from(rest@, open@, i + 1)));
            }
            out.push(item);
        }
        i = i + 1;
    }
    proof {
        assert(out@ + Seq::<T>::empty() =~= out@);
    }
    out
}

/// Once a connection subscribes to a channel, the subscribers that a stream
/// published on that channel is opened to include it.
pub proof fn lemma_subscriber_reached<H>(
    subscribers: Map<Seq<char>, (String, H)>,
    addr: Seq<char>,
    channel: String,
    handle: H,
    targets: Seq<String>,
)
    requires
        lists_channel(targets, subscribers.insert(addr, (channel, handle)), channel@),
    ensures
        exists|i: int| 0 <= i < targets.len() && (#[trigger] targets[i])@ == addr,
{
    let m = subscribers.insert(addr, (channel, handle));
    assert(m.contains_key(addr) && m[addr].0@ == channel@);
}

/// A connection follows one channel: once it subscribes to `channel`, the
/// streams published on any other channel are no longer opened to it.
pub proof fn lemma_subscriber_follows_one_channel<H>(
    subscribers: Map<Seq<char>, (String, H)>,
    addr: Seq<char>,
    channel: String,
    handle: H,
    other: Seq<char>,
    targets: Seq<String>,
)
    requires
        other != channel@,
        lists_channel(targets, subscribers.insert(addr, (channel, handle)), other),
    ensures
        forall|i: int| 0 <= i < targets.len() ==> (#[trigger] targets[i])@ != addr,
{
}

/// A connection that has gone is no longer among the subscribers of any
/// channel.
pub proof fn lemma_departed_not_reached<H>(
    subscribers: Map<Seq<char>, (String, H)>,
    addr: Seq<char>,
    channel: Seq<char>,
    targets: Seq<String>,
)
    requires
        lists_channel(targets, subscribers.remove(addr), channel),
    ensures
        forall|i: int| 0 <= i < targets.len() ==> (#[trigger] targets[i])@ != addr,
{
}

/// A stream published on a channel is offered to every connection that
/// subscribes to that channel later, as long as the stream lasts.
pub proof fn lemma_published_stream_offered<T>(
    streams: Map<Seq<char>, (String, Vec<T>)>,
    stream_id: Seq<char>,
    channel: String,
    senders: Vec<T>,
    offered: Seq<String>,
)
    requires
        lists_channel(offered, streams.insert(stream_id, (channel, senders)), channel@),
    ensures
        exists|i: int| 0 <= i < offered.len() && (#[trigger] offered[i])@ == stream_id,
{
    let m = streams.insert(stream_id, (channel, senders));
    assert(m.contains_key(stream_id) && m[stream_id].0@ == channel@);
}

/// A stream that has ended is offered to no new subscriber.
pub proof fn lemma_ended_stream_not_offered<T>(
    streams: Map<Seq<char>, (String, Vec<T>)>,
    stream_id: Seq<char>,
    channel: Seq<char>,
    offered: Seq<String>,
)
    requires
        lists_channel(offered, streams.remove(stream_id), channel),
    ensures
        forall|i: int| 0 <= i < offered.len() ==> (#[trigger] offered[i])@ != stream_id,
{
}

/// Pruning keeps only senders that were there, in their order: the kept
/// senders are never more than before, and flagging every sender keeps
/// them all.
pub proof fn lemma_kept_bounds<T>(items: Seq<T>, open: Seq<bool>, start: int)
    ensures
        kept_from(items, open, start).len() <= items.len(),
        (forall|i: int| 0 <= i < items.len() ==> #[trigger] flagged(open, start + i))
            ==> kept_from(items, open, start) == items,
    decreases items.len(),
{
    if items.len() > 0 {
        lemma_kept_bounds(items.drop_first(), open, start + 1);
        if forall|i: int| 0 <= i < items.len() ==> #[trigger] flagged(open, start + i) {
            assert(flagged(open, start + 0));
            assert forall|i: int| 0 <= i < items.drop_first().len() implies #[trigger] flagged(
                open,
                start + 1 + i,
            ) by {
                assert(flagged(open, start + (i + 1)));
            }
            assert(seq![items[0]] + items.drop_first() =~= items);
        }
    }
}

/// Each item paired with whether its flag, counted from position `start`,
/// says it stays.
spec fn flag_pairs<T>(items: Seq<T>, open: Seq<bool>, start: int) -> Seq<(T, bool)> {
    Seq::new(items.len(), |i: int| (items[i], 0 <= start + i < open.len() && open[start + i]))
}

proof fn lemma_kept_from_filter<T>(items: Seq<T>, open: Seq<bool>, start: int)
    ensures
        kept_from(items, open, start) == flag_pairs(items, open, start).filter(
            |p: (T, bool)| p.1,
        ).map_values(|p: (T, bool)| p.0),
    decreases items.len(),
{
    let pairs = flag_pairs(items, open, start);
    if items.len() == 0 {
        reveal(Seq::filter);
        assert(pairs =~= Seq::<(T, bool)>::empty());
        assert(pairs.filter(|p: (T, bool)| p.1) =~= Seq::<(T, bool)>::empty());
        assert(pairs.filter(|p: (T, bool)| p.1).map_values(|p: (T, bool)| p.0) =~= Seq::<
            T,
        >::empty());
    } else {
        let rest = flag_pairs(items.drop_first(), open, start + 1);
        lemma_kept_from_filter(items.drop_first(), open, start + 1);
        assert(pairs =~= seq![pairs[0]] + rest);
        rest.lemma_filter_prepend(pairs[0], |p: (T, bool)| p.1);
        let head: Seq<(T, bool)> = if pairs[0].1 {
            seq![pairs[0]]
        } else {
            Seq::empty()
        };
        let fr = rest.filter(|p: (T, bool)| p.1);
        assert((head + fr).map_values(|p: (T, bool)| p.0) =~= head.map_values(
            |p: (T, bool)| p.0,
        ) + fr.map_values(|p: (T, bool)| p.0));
        if pairs[0].1 {
            assert(head.map_values(|p: (T, bool)| p.0) =~= seq![items[0]]);
        } else {
            assert(head.map_values(|p: (T, bool)| p.0) =~= Seq::<T>::empty());
        }
    }
}

/// Pruning keeps exactly the subsequence of the senders whose flag is
/// `true`: pair each item with `open[i]` (an item past the end of `open`
/// counts as closed), keep the pairs flagged `true`, in their order, and
/// drop the flags. An item flagged `false` never appears in the result.
pub proof fn lemma_kept_is_open_subsequence<T>(items: Seq<T>, open: Seq<bool>)
    ensures
        kept(items, open) == Seq::new(
            items.len(),
            |i: int| (items[i], 0 <= i < open.len() && open[i]),
        ).filter(|p: (T, bool)| p.1).map_values(|p: (T, bool)| p.0),
{
    lemma_kept_from_filter(items, open, 0);
    assert(flag_pairs(items, open, 0) =~= Seq::new(
        items.len(),
        |i: int| (items[i], 0 <= i < open.len() && open[i]),
    ));
}

} // verus!
