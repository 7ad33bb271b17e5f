//! The bounded, ordered hand-off between the network intake and the
//! processing loop, which drops the node's own messages on the way out.
//! The caller holds it behind a lock and waits on it where it must block.

use tokio::sync::mpsc;
use vstd::prelude::*;
use crate::message::{AgentMessage, MessageView};

verus! {

/// Why the queue refused a message or had none to give.
#[derive(PartialEq, Eq, Clone, Debug)]
pub enum MessageHandlerError {
    /// The buffer is full: the message was dropped.
    ChannelSendError(String),
    ChannelReceiveError(String),
    /// The other side is gone.
    ChannelClosed,
}

/// Configuration of the queue.
#[derive(Clone, Debug)]
pub struct ChannelConfig {
    /// The most messages that may wait in the queue.
    pub buffer_size: usize,
}

impl Default for ChannelConfig {
    fn default() -> (r: ChannelConfig)
        ensures
            r.buffer_size == 1000,
    {
        ChannelConfig { buffer_size: 1000 }
    }
}

/// Both ends of one tokio bounded channel, so that every send and every
/// receive on it goes through this value.
#[verifier::external_body]
pub struct Channel {
    tx: mpsc::Sender<AgentMessage>,
    rx: mpsc::Receiver<AgentMessage>,
}

/// The messages waiting in a channel, oldest first.
pub uninterp spec fn channel_items(c: Channel) -> Seq<MessageView>;

/// The bound that a channel was made with.
pub uninterp spec fn channel_bound(c: Channel) -> nat;

/// Relies on tokio's `mpsc::channel`: an empty channel with the given
/// bound. It panics on a bound of 0 or above its semaphore's `MAX_PERMITS`
/// (`usize::MAX >> 3`).
#[verifier::external_body]
fn open_channel(bound: usize) -> (r: Channel)
    requires
        0 < bound <= usize::MAX / 8,
    ensures
        channel_items(r) == Seq::<MessageView>::empty(),
        channel_bound(r) == bound,
{
    let (tx, rx) = mpsc::channel(bound);
    Channel { tx, rx }
}

/// Relies on tokio's `Sender::try_send`: each send takes one of the bound's
/// permits and each receive returns one, so a permit is free exactly while
/// fewer messages than the bound wait; the channel is never closed, as this
/// value holds its receiver.
#[verifier::external_body]
fn channel_try_send(c: &mut Channel, message: AgentMessage) -> (r: bool)
    ensures
        channel_bound(*final(c)) == channel_bound(*old(c)),
        r == (channel_items(*old(c)).len() < channel_bound(*old(c))),
        r ==> channel_items(*final(c)) == channel_items(*old(c)).push(message@),
        !r ==> channel_items(*final(c)) == channel_items(*old(c)),
{
    c.tx.try_send(message).is_ok()
}

/// Relies on tokio's `Receiver::try_recv`: it takes the oldest waiting
/// message, and fails with `Empty` only when none waits; `Disconnected`
/// cannot come, as this value holds a sender.
#[verifier::external_body]
fn channel_try_recv(c: &mut Channel) -> (r: Option<AgentMessage>)
    ensures
        channel_bound(*final(c)) == channel_bound(*old(c)),
        match r {
            Some(m) => channel_items(*old(c)).len() > 0 && m@ == channel_items(*old(c))[0]
                && channel_items(*final(c)) == channel_items(*old(c)).drop_first(),
            None => channel_items(*old(c)).len() == 0 && channel_items(*final(c))
                == channel_items(*old(c)),
        },
{
    c.rx.try_recv().ok()
}

/// The queue, with this node's id for filtering.
pub struct MessageHandler {
    agent_id: String,
    config: ChannelConfig,
    channel: Channel,
    count: usize,
    producer_open: bool,
    consumer_open: bool,
}

/// The messages of `items` that come from someone other than `own`, in order.
pub open spec fn peers(items: Seq<MessageView>, own: Seq<char>) -> Seq<MessageView>
    decreases items.len(),
{
    if items.len() == 0 {
        Seq::empty()
    } else if items[0].sender_id != own {
        seq![items[0]] + peers(items.drop_first(), own)
    } else {
        peers(items.drop_first(), own)
    }
}

/// The index of the first message of `items` not sent by `own`, or the
/// length of `items` if there is none.
pub open spec fn first_peer(items: Seq<MessageView>, own: Seq<char>) -> nat
    decreases items.len(),
{
    if items.len() == 0 || items[0].sender_id != own {
        0
    } else {
        1 + first_peer(items.drop_first(), own)
    }
}

/// The complaint about a full buffer.
pub open spec fn full_text(sender: Seq<char>, own: Seq<char>) -> Seq<char> {
    "Channel buffer full, dropping message from '"@ + sender + "' for agent '"@ + own + "'"@
}

impl MessageHandler {
    pub closed spec fn own_id(&self) -> Seq<char> {
        self.agent_id@
    }

    pub closed spec fn capacity(&self) -> nat {
        self.config.buffer_size as nat
    }

    /// The messages waiting, oldest first.
    pub closed spec fn items(&self) -> Seq<MessageView> {
        channel_items(self.channel)
    }

    /// Whether the producing side is still there.
    pub closed spec fn producer_open(&self) -> bool {
        self.producer_open
    }

    /// Whether the consuming side is still there.
    pub closed spec fn consumer_open(&self) -> bool {
        self.consumer_open
    }

    pub closed spec fn wf(&self) -> bool {
        &&& 0 < self.config.buffer_size
        &&& channel_bound(self.channel) == self.config.buffer_size
        &&& self.count == channel_items(self.channel).len()
        &&& self.count <= self.config.buffer_size
    }

    /// An empty, open queue that holds at most `config.buffer_size` messages.
    pub fn new(agent_id: String, config: ChannelConfig) -> (r: MessageHandler)
        requires
            0 < config.buffer_size <= usize::MAX / 8,
        ensures
            r.wf(),
            r.own_id() == agent_id@,
            r.capacity() == config.buffer_size,
            r.items() == Seq::<MessageView>::empty(),
            r.producer_open(),
            r.consumer_open(),
    {
        let channel = open_channel(config.buffer_size);
        MessageHandler { agent_id, config, channel, count: 0, producer_open: true, consumer_open: true }
    }

    /// `new` with room for 1000 messages.
    pub fn new_default(agent_id: String) -> (r: MessageHandler)
        ensures
            r.wf(),
            r.own_id() == agent_id@,
            r.capacity() == 1000,
            r.items() == Seq::<MessageView>::empty(),
            r.producer_open(),
            r.consumer_open(),
    {
        MessageHandler::new(agent_id, ChannelConfig::default())
    }

    pub fn agent_id(&self) -> (r: &str)
        ensures
            r@ == self.own_id(),
    {
        self.agent_id.as_str()
    }

    pub fn config(&self) -> (r: &ChannelConfig)
        ensures
            r.buffer_size == self.capacity(),
    {
        &self.config
    }

    pub fn channel_capacity(&self) -> (r: usize)
        ensures
            r == self.capacity(),
    {
        self.config.buffer_size
    }

    /// Whether the consuming side is gone, so that nothing more can be sent.
    pub fn is_closed(&self) -> (r: bool)
        ensures
            r == !self.consumer_open(),
    {
        !self.consumer_open
    }

    /// The number of messages waiting.
    pub fn len(&self) -> (r: usize)
        requires
            self.wf(),
        ensures
            r == self.items().len(),
    {
        self.count
    }

    /// Marks the producing side as gone.
    pub fn close_producer(&mut self)
        ensures
            final(self).wf() == old(self).wf(),
            final(self).own_id() == old(self).own_id(),
            final(self).capacity() == old(self).capacity(),
            final(self).items() == old(self).items(),
            !final(self).producer_open(),
            final(self).consumer_open() == old(self).consumer_open(),
    {
        self.producer_open = false;
    }

    /// Marks the consuming side as gone.
    pub fn close_consumer(&mut self)
        ensures
            final(self).wf() == old(self).wf(),
            final(self).own_id() == old(self).own_id(),
            final(self).capacity() == old(self).capacity(),
            final(self).items() == old(self).items(),
            final(self).producer_open() == old(self).producer_open(),
            !final(self).consumer_open(),
    {
        self.consumer_open = false;
    }

    /// Offers a message without waiting: it is queued at the back unless
    /// the consuming side is gone (`ChannelClosed`) or the buffer is full
    /// (`ChannelSendError`, the message is dropped).
    pub fn try_send_message(&mut self, message: AgentMessage) -> (r: Result<
        (),
        MessageHandlerError,
    >)
        requires
            old(self).wf(),
        ensures
            final(self).wf(),
            final(self).own_id() == old(self).own_id(),
            final(self).capacity() == old(self).capacity(),
            final(self).producer_open() == old(self).producer_open(),
            final(self).consumer_open() == old(self).consumer_open(),
            !old(self).consumer_open() ==> r == Err::<(), MessageHandlerError>(
                MessageHandlerError::ChannelClosed,
            ) && final(self).items() == old(self).items(),
            old(self).consumer_open() && old(self).items().len() == old(self).capacity() ==> (
            r matches Err(MessageHandlerError::ChannelSendError(msg)) && msg@ == full_text(
                message.sender_id@,
                old(self).own_id(),
            ) && final(self).items() == old(self).items()),
            old(self).consumer_open() && old(self).items().len() < old(self).capacity() ==> r
                == Ok::<(), MessageHandlerError>(()) && final(self).items() == old(
                self,
            ).items().push(message@),
            peers(final(self).items(), final(self).own_id()) == if r is Ok {
                peers(old(self).items(), old(self).own_id()) + peers(seq![message@], old(self).own_id())
            } else {
                peers(old(self).items(), old(self).own_id())
            },
    {
        if !self.consumer_open {
            return Err(MessageHandlerError::ChannelClosed);
        }
        if self.count >= self.config.buffer_size {
            let mut msg = "Channel buffer full, dropping message from '".to_owned();
            msg.append(message.sender_id.as_str());
            msg.append("' for agent '");
            msg.append(self.agent_id.as_str());
            msg.append("'");
            return Err(MessageHandlerError::ChannelSendError(msg));
        }
        let ghost old_items = self.items();
        let ghost m = message@;
        let sent = channel_try_send(&mut self.channel, message);
        self.count = self.count + 1;
        proof {
            assert(sent);
            lemma_peers_append(old_items, seq![m], self.agent_id@);
            assert(old_items + seq![m] =~= old_items.push(m));
        }
        Ok(())
    }

    /// Takes the oldest message sent by someone else, without waiting; the
    /// node's own messages ahead of it are discarded. `None` where no such
    /// message waits, `ChannelClosed` where moreover the producer is gone.
    pub fn try_receive_message(&mut self) -> (r: Result<Option<AgentMessage>, MessageHandlerError>)
        requires
            old(self).wf(),
        ensures
            final(self).wf(),
            final(self).own_id() == old(self).own_id(),
            final(self).capacity() == old(self).capacity(),
            final(self).producer_open() == old(self).producer_open(),
            final(self).consumer_open() == old(self).consumer_open(),
            ({
                let items = old(self).items();
                let k = first_peer(items, old(self).own_id());
                if k < items.len() {
                    r matches Ok(Some(m)) && m@ == items[k as int] && final(self).items()
                        == items.subrange(k + 1 as int, items.len() as int)
                } else {
                    final(self).items() == Seq::<MessageView>::empty() && if old(
                        self,
                    ).producer_open() {
                        r == Ok::<Option<AgentMessage>, MessageHandlerError>(None)
                    } else {
                        r == Err::<Option<AgentMessage>, MessageHandlerError>(
                            MessageHandlerError::ChannelClosed,
                        )
                    }
                }
            }),
            match r {
                Ok(Some(m)) => peers(old(self).items(), old(self).own_id()) == seq![m@] + peers(
                    final(self).items(),
                    old(self).own_id(),
                ),
                _ => peers(old(self).items(), old(self).own_id()) == Seq::<MessageView>::empty(),
            },
    {
        let ghost own = self.agent_id@;
        let ghost items0 = self.items();
        let ghost mut skipped: nat = 0;
        loop
            invariant
                self.wf(),
                own == old(self).own_id(),
                items0 == old(self).items(),
                self.agent_id@ == own,
                self.config == old(self).config,
                self.producer_open == old(self).producer_open,
                self.consumer_open == old(self).consumer_open,
                skipped <= items0.len(),
                self.items() == items0.subrange(skipped as int, items0.len() as int),
                first_peer(items0, own) == skipped + first_peer(self.items(), own),
                peers(items0, own) == peers(self.items(), own),
            decreases self.items().len(),
        {
            let ghost cur = self.items();
            match channel_try_recv(&mut self.channel) {
                Some(message) => {
                    self.count = self.count - 1;
                    proof {
                        assert(self.items() =~= cur.drop_first());
                        assert(cur[0] == message@);
                    }
                    if message.sender_id != self.agent_id {
                        proof {
                            assert(self.items() =~= items0.subrange(
                                skipped + 1 as int,
                                items0.len() as int,
                            ));
                            assert(first_peer(cur, own) == 0);
                            assert(items0[skipped as int] == cur[0]);
                            assert(peers(cur, own) == seq![cur[0]] + peers(cur.drop_first(), own));
                        }
                        return Ok(Some(message));
                    }
                    proof {
                        skipped = skipped + 1;
                        assert(self.items() =~= items0.subrange(skipped as int, items0.len() as int));
                    }
                },
                None => {
                    proof {
                        assert(self.items() =~= Seq::<MessageView>::empty());
                    }
                    if self.producer_open {
                        return Ok(None);
                    } else {
                        return Err(MessageHandlerError::ChannelClosed);
                    }
                },
            }
        }
    }
}

/// The peer messages of two runs are those of the first, then those of the second.
pub proof fn lemma_peers_append(a: Seq<MessageView>, b: Seq<MessageView>, own: Seq<char>)
    ensures
        peers(a + b, own) == peers(a, own) + peers(b, own),
    decreases a.len(),
{
    if a.len() == 0 {
        assert(a + b =~= b);
        assert(peers(a, own) + peers(b, own) =~= peers(b, own));
    } else {
        assert((a + b).drop_first() =~= a.drop_first() + b);
        lemma_peers_append(a.drop_first(), b, own);
        if a[0].sender_id != own {
            assert(peers(a + b, own) =~= seq![a[0]] + (peers(a.drop_first(), own) + peers(b, own)));
        }
        assert(peers(a + b, own) =~= peers(a, own) + peers(b, own));
    }
}

} // verus!
