//! The telemetry poller: one query per cycle per unit, published as one
//! consistent snapshot.
//!
//! Each cycle sends one `get position` exchange through the device link,
//! derives the published sample from the outcome, and publishes it. Every
//! failure — device error or unparsable payload — is absorbed here: it is
//! turned into published status text, the previous position and busy values
//! are kept, and the schedule continues.

use vstd::prelude::*;

use crate::errors::DeviceError;
use crate::link::{classify_spec, next_event, DeviceLink, LinkEvent, Reply};
use crate::position::{parse_position, parse_position_spec, Position};
use crate::state::{PublishedState, Sample};

verus! {

/// The query a poll cycle sends.
pub open spec fn poll_command() -> Seq<char> {
    "get position"@
}

/// The status text published when an exchange succeeded and its payload
/// parsed.
pub open spec fn success_text() -> Seq<char> {
    "Ok"@
}

/// The status text published when a payload fails to parse: a poller-local
/// condition, reported like a device error.
pub open spec fn parse_error_text(data: Seq<char>) -> Seq<char> {
    "invalid position payload: "@ + data
}

/// What one poll cycle publishes, given the previously published position
/// and busy values and the exchange outcome: on success the parsed
/// position, the busy flag derived from the device status code, and the
/// success text; on any failure the previous position and busy values and
/// the failure's text. All fields carry the cycle's one timestamp.
pub open spec fn cycle_post(
    prev_pos: Position,
    prev_busy: bool,
    outcome: Result<Reply, DeviceError>,
    now: u64,
    s: Sample,
) -> bool {
    &&& s.timestamp == now
    &&& match outcome {
        Ok(reply) => match parse_position_spec(reply.data@) {
            Some(v) => {
                &&& s.position.micros == v
                &&& s.busy == (reply.status is Busy)
                &&& s.status@ == success_text()
            },
            None => {
                &&& s.position == prev_pos
                &&& s.busy == prev_busy
                &&& s.status@ == parse_error_text(reply.data@)
            },
        },
        Err(e) => {
            &&& s.position == prev_pos
            &&& s.busy == prev_busy
            &&& s.status@ == e.text_spec()
        },
    }
}

/// The previously published position and busy values of a unit, or the
/// initial values if nothing was published yet.
pub open spec fn prev_of(m: Map<u8, Sample>, unit: u8) -> (Position, bool) {
    if m.contains_key(unit) {
        (m[unit].position, m[unit].busy)
    } else {
        (Position { micros: 0 }, false)
    }
}

/// Derives the sample one cycle publishes from the exchange outcome.
pub fn cycle_sample(prev_pos: Position, prev_busy: bool, outcome: Result<Reply, DeviceError>, now: u64) -> (s:
    Sample)
    ensures
        cycle_post(prev_pos, prev_busy, outcome, now, s),
{
    match outcome {
        Ok(reply) => {
            match parse_position(reply.data.as_str()) {
                Some(p) => Sample {
                    position: p,
                    busy: reply.status == crate::link::DeviceStatus::Busy,
                    status: String::from_str("Ok"),
                    timestamp: now,
                },
                None => Sample {
                    position: prev_pos,
                    busy: prev_busy,
                    status: String::from_str("invalid position payload: ").concat(
                        reply.data.as_str(),
                    ),
                    timestamp: now,
                },
            }
        },
        Err(e) => Sample {
            position: prev_pos,
            busy: prev_busy,
            status: e.text(),
            timestamp: now,
        },
    }
}

/// The recurring telemetry task of one unit.
pub struct Poller {
    pub unit: u8,
    /// The fixed cycle interval, in milliseconds.
    pub interval_ms: u64,
}

impl Poller {
    /// A poller on the default one-second interval.
    pub fn new(unit: u8) -> (p: Poller)
        ensures
            p.unit == unit,
            p.interval_ms == 1000,
    {
        Poller { unit, interval_ms: 1000 }
    }

    /// One scheduled cycle: one exchange, one published snapshot. The cycle
    /// never fails and never ends the schedule; every failure becomes
    /// published status text.
    pub fn run_cycle(&self, link: &mut DeviceLink, state: &mut PublishedState, now: u64)
        requires
            old(link).wf(),
        ensures
            final(link).wf(),
            final(link).channel.trace@ == old(link).channel.trace@ + seq![
                (LinkEvent::Write { unit: self.unit, command: poll_command() }),
                LinkEvent::Read,
            ],
            final(state)@ == old(state)@.insert(self.unit, final(state)@[self.unit]),
            cycle_post(
                prev_of(old(state)@, self.unit).0,
                prev_of(old(state)@, self.unit).1,
                classify_spec(next_event(old(link).channel)),
                now,
                final(state)@[self.unit],
            ),
    {
        let (prev_pos, prev_busy) = match state.get(self.unit) {
            Some(p) => (p.position, p.busy),
            None => (Position { micros: 0 }, false),
        };
        let outcome = link.exchange(self.unit, "get position");
        let sample = cycle_sample(prev_pos, prev_busy, outcome, now);
        state.publish(self.unit, sample);
    }
}

/// A poll cycle publishes one consistent snapshot: every field of the
/// published sample carries the cycle's one timestamp, and the status text
/// is the success text exactly when no error occurred — the exchange
/// delivered a reply and its payload parsed.
pub proof fn lemma_cycle_snapshot(
    prev_pos: Position,
    prev_busy: bool,
    outcome: Result<Reply, DeviceError>,
    now: u64,
    s: Sample,
)
    requires
        cycle_post(prev_pos, prev_busy, outcome, now, s),
    ensures
        s.timestamp == now,
        match outcome {
            Ok(reply) => (s.status@ == success_text()) <==> (parse_position_spec(reply.data@)
                is Some),
            Err(_) => s.status@ != success_text(),
        },
{
    reveal_strlit("Ok");
    reveal_strlit("invalid position payload: ");
    reveal_strlit("timeout waiting for device response");
    reveal_strlit("device channel unavailable");
    reveal_strlit("malformed device reply: ");
    reveal_strlit("device fault: ");
    match outcome {
        Ok(reply) => {
            if parse_position_spec(reply.data@) is None {
                assert(parse_error_text(reply.data@).len() >= 26);
                assert(success_text().len() == 2);
            }
        },
        Err(e) => {
            assert(e.text_spec().len() > 2);
            assert(success_text().len() == 2);
        },
    }
}

} // verus!
