//! The device link: one exclusive channel, strictly serialized exchanges.
//!
//! The channel is modeled by what the bridge can observe of it: the ordered
//! trace of writes and reads it performs, and the transport outcome each read
//! produces. An exchange is one write immediately followed by one read; the
//! trace invariant `serialized` states that no two writes are ever adjacent,
//! which is the no-interleaving guarantee of the link. Tests inject a
//! `Channel` scripted with transport outcomes; the process edge performs the
//! same exchange shape over the real serial port and classifies its outcome
//! with [`classify`].

use vstd::prelude::*;
use crate::errors::DeviceError;

verus! {

/// The device status code a matched response carries.
#[derive(Clone, Copy, PartialEq, Eq, Structural, Debug)]
pub enum DeviceStatus {
    Busy,
    Idle,
}

/// One matched response: a status code and a payload text.
pub struct Reply {
    pub status: DeviceStatus,
    pub data: String,
}

/// What the transport produced for one exchange, before classification.
pub enum TransportEvent {
    /// A matching response arrived in time.
    Delivered(DeviceStatus, String),
    /// No matching response arrived within the bounded wait.
    TimedOut,
    /// The channel could not be used at all.
    ChannelClosed,
    /// The response was corrupt at the transport level (framing, checksum).
    Corrupted(String),
    /// The device answered, rejecting the command with a fault text.
    Faulted(String),
}

/// How one transport outcome classifies: spec side of [`classify`].
pub open spec fn classify_spec(ev: TransportEvent) -> Result<Reply, DeviceError> {
    match ev {
        TransportEvent::Delivered(status, data) => Ok(Reply { status, data }),
        TransportEvent::TimedOut => Err(DeviceError::Timeout),
        TransportEvent::ChannelClosed => Err(DeviceError::ChannelUnavailable),
        TransportEvent::Corrupted(d) => Err(DeviceError::Protocol(d)),
        TransportEvent::Faulted(d) => Err(DeviceError::DeviceFault(d)),
    }
}

/// Maps one transport outcome to the link's result: a matched reply, or the
/// `DeviceError` variant the failure falls under.
pub fn classify(ev: TransportEvent) -> (r: Result<Reply, DeviceError>)
    ensures
        r == classify_spec(ev),
{
    match ev {
        TransportEvent::Delivered(status, data) => Ok(Reply { status, data }),
        TransportEvent::TimedOut => Err(DeviceError::Timeout),
        TransportEvent::ChannelClosed => Err(DeviceError::ChannelUnavailable),
        TransportEvent::Corrupted(d) => Err(DeviceError::Protocol(d)),
        TransportEvent::Faulted(d) => Err(DeviceError::DeviceFault(d)),
    }
}

/// One observable action on the physical channel.
pub enum LinkEvent {
    /// One command written, addressed to a unit.
    Write { unit: u8, command: Seq<char> },
    /// One blocking read for the matching response.
    Read,
}

/// The trace of a channel that only ever saw whole exchanges: writes and
/// reads alternate, starting with a write, and every write is immediately
/// followed by its read. Two writes are never adjacent, so no two exchanges
/// ever interleave their bytes.
pub open spec fn serialized(h: Seq<LinkEvent>) -> bool {
    &&& h.len() % 2 == 0
    &&& forall|i: int|
        0 <= i < h.len() ==> (if i % 2 == 0 {
            h[i] is Write
        } else {
            h[i] is Read
        })
}

/// A channel, seen as the script of transport outcomes it will produce and
/// the trace of writes and reads performed on it so far.
pub struct Channel {
    /// Transport outcomes still pending, front first. A read past the end of
    /// the script behaves as a response that never arrives.
    pub script: Vec<TransportEvent>,
    /// The trace of writes and reads, in order.
    pub trace: Ghost<Seq<LinkEvent>>,
}

/// The transport outcome the channel's next read produces.
pub open spec fn next_event(c: Channel) -> TransportEvent {
    if c.script@.len() > 0 {
        c.script@[0]
    } else {
        TransportEvent::TimedOut
    }
}

impl Channel {
    pub fn new(script: Vec<TransportEvent>) -> (c: Channel)
        ensures
            c.script@ == script@,
            c.trace@ == Seq::<LinkEvent>::empty(),
    {
        Channel { script, trace: Ghost(Seq::empty()) }
    }
}

/// The exclusive owner of the channel. Every exchange goes through
/// `exchange`, which holds the channel for one whole write/read round trip;
/// exclusive ownership (`&mut`) is the serialization discipline.
pub struct DeviceLink {
    pub channel: Channel,
}

impl DeviceLink {
    /// The link's trace is that of a channel that only saw whole exchanges.
    pub open spec fn wf(&self) -> bool {
        serialized(self.channel.trace@)
    }

    pub fn new(channel: Channel) -> (link: DeviceLink)
        requires
            serialized(channel.trace@),
        ensures
            link.channel == channel,
            link.wf(),
    {
        DeviceLink { channel }
    }

    /// One exchange: write the command addressed to `unit`, then block for
    /// the matching response or the bounded timeout, and classify the
    /// outcome. The channel is held for the whole round trip: exactly one
    /// write followed by one read is appended to the trace, and nothing is
    /// buffered across calls.
    pub fn exchange(&mut self, unit: u8, command: &str) -> (r: Result<Reply, DeviceError>)
        requires
            old(self).wf(),
        ensures
            final(self).wf(),
            r == classify_spec(next_event(old(self).channel)),
            final(self).channel.trace@ == old(self).channel.trace@ + seq![
                (LinkEvent::Write { unit, command: command@ }),
                LinkEvent::Read,
            ],
            final(self).channel.script@ == if old(self).channel.script@.len() > 0 {
                old(self).channel.script@.drop_first()
            } else {
                old(self).channel.script@
            },
    {
        let ghost pre = self.channel.trace@;
        proof {
            self.channel.trace@ = pre + seq![
                LinkEvent::Write { unit, command: command@ },
                LinkEvent::Read,
            ];
        }
        let ev: TransportEvent = if self.channel.script.len() > 0 {
            self.channel.script.remove(0)
        } else {
            TransportEvent::TimedOut
        };
        proof {
            let post = self.channel.trace@;
            assert forall|i: int| 0 <= i < post.len() implies (if i % 2 == 0 {
                post[i] is Write
            } else {
                post[i] is Read
            }) by {
                if i < pre.len() {
                    assert(pre[i] == post[i]);
                }
            }
        }
        classify(ev)
    }
}

/// An exchange whose matching response never arrives within the bounded
/// wait yields the timeout error — an ordinary result, not a crash, so a
/// poller's schedule continues past it.
pub proof fn lemma_no_response_times_out(c: Channel)
    requires
        c.script@.len() == 0,
    ensures
        classify_spec(next_event(c)) == Err::<Reply, DeviceError>(DeviceError::Timeout),
{
}

/// Serialization is an invariant of the trace: a trace of whole exchanges
/// extended by one more write/read pair is again a trace of whole exchanges,
/// and the new write is immediately followed by its own read — no event of
/// any other exchange stands between them.
pub proof fn lemma_exchange_serialized(pre: Seq<LinkEvent>, unit: u8, command: Seq<char>)
    requires
        serialized(pre),
    ensures
        serialized(pre + seq![(LinkEvent::Write { unit, command }), LinkEvent::Read]),
        (pre + seq![(LinkEvent::Write { unit, command }), LinkEvent::Read])[pre.len() as int + 1]
            == LinkEvent::Read,
{
    let post = pre + seq![(LinkEvent::Write { unit, command }), LinkEvent::Read];
    assert forall|i: int| 0 <= i < post.len() implies (if i % 2 == 0 {
        post[i] is Write
    } else {
        post[i] is Read
    }) by {
        if i < pre.len() {
            assert(pre[i] == post[i]);
        }
    }
}

} // verus!
