//! The command dispatcher: typed invocations in, device commands out.
//!
//! An invocation names an action by text and may carry a target position.
//! A recognized action translates to exactly one device command; an
//! unrecognized one fails with `UnsupportedAction` before the device link
//! is ever touched. Device failures are wrapped, never hidden: the caller
//! always learns whether the device accepted the action.

use vstd::prelude::*;

use crate::errors::{DeviceError, InvocationClass, InvocationError};
use crate::link::{classify_spec, next_event, DeviceLink, LinkEvent, Reply, TransportEvent};
use crate::poller::{cycle_post, prev_of};
use crate::position::{format_position, format_position_spec, Position};
use crate::state::PublishedState;

verus! {

/// An action in the units' capability set.
#[derive(Clone, Copy, PartialEq, Eq, Structural, Debug)]
pub enum Action {
    /// Move the unit to an absolute position.
    Move(Position),
    /// Drive the unit to its home reference.
    Home,
    /// Halt the unit's motion.
    Stop,
}

/// A `Move` target must be negatable to render its command text; only the
/// one extreme fixed-point value is excluded.
pub open spec fn action_wf(a: Action) -> bool {
    match a {
        Action::Move(p) => p.micros > i64::MIN,
        Action::Home => true,
        Action::Stop => true,
    }
}

/// Which action an invocation names: `move` with a target, `home` or
/// `stop`; everything else — including `move` without a target — is
/// unrecognized.
pub open spec fn recognize_spec(name: Seq<char>, target: Option<Position>) -> Option<Action> {
    if name == "move"@ {
        match target {
            Some(p) => Some(Action::Move(p)),
            None => None,
        }
    } else if name == "home"@ {
        Some(Action::Home)
    } else if name == "stop"@ {
        Some(Action::Stop)
    } else {
        None
    }
}

/// The one device command a recognized action translates to.
pub open spec fn command_text_spec(a: Action) -> Seq<char> {
    match a {
        Action::Move(p) => "move abs "@ + format_position_spec(p.micros as int),
        Action::Home => "home"@,
        Action::Stop => "stop"@,
    }
}

/// How an exchange outcome answers an invocation: a delivered reply is the
/// success payload; a device error is wrapped, preserving the cause.
pub open spec fn interpret_spec(outcome: Result<Reply, DeviceError>) -> Result<
    Reply,
    InvocationError,
> {
    match outcome {
        Ok(reply) => Ok(reply),
        Err(e) => Err(InvocationError::Device(e)),
    }
}

/// The result class of an invocation result: success, or its failure's
/// variant.
pub open spec fn class_of(r: Result<Reply, InvocationError>) -> InvocationClass {
    match r {
        Ok(_) => InvocationClass::Success,
        Err(e) => e.class_spec(),
    }
}

fn str_eq(a: &str, b: &str) -> (r: bool)
    ensures
        r == (a@ == b@),
{
    let na = a.unicode_len();
    let nb = b.unicode_len();
    if na != nb {
        proof {
            if a@ == b@ {
                assert(a@.len() == b@.len());
            }
        }
        return false;
    }
    let mut i: usize = 0;
    while i < na
        invariant
            i <= na,
            na == a@.len(),
            na == b@.len(),
            forall|k: int| 0 <= k < i ==> a@[k] == b@[k],
        decreases na - i,
    {
        if a.get_char(i) != b.get_char(i) {
            proof {
                if a@ == b@ {
                    assert(a@[i as int] == b@[i as int]);
                }
            }
            return false;
        }
        i = i + 1;
    }
    proof {
        assert(a@ =~= b@);
    }
    true
}

/// Validates the action text against the capability set.
pub fn recognize(name: &str, target: Option<Position>) -> (r: Option<Action>)
    ensures
        r == recognize_spec(name@, target),
{
    if str_eq(name, "move") {
        match target {
            Some(p) => Some(Action::Move(p)),
            None => None,
        }
    } else if str_eq(name, "home") {
        Some(Action::Home)
    } else if str_eq(name, "stop") {
        Some(Action::Stop)
    } else {
        None
    }
}

/// Renders the one device command of a recognized action.
pub fn command_text(a: &Action) -> (c: String)
    requires
        action_wf(*a),
    ensures
        c@ == command_text_spec(*a),
{
    match a {
        Action::Move(p) => String::from_str("move abs ").concat(format_position(*p).as_str()),
        Action::Home => String::from_str("home"),
        Action::Stop => String::from_str("stop"),
    }
}

/// One invocation: validate, translate to one device command, exchange,
/// and wrap the outcome. An unrecognized action returns
/// `UnsupportedAction` at once, with the device link untouched; otherwise
/// the caller learns exactly how the device answered.
pub fn invoke(link: &mut DeviceLink, unit: u8, name: &str, target: Option<Position>) -> (r: Result<
    Reply,
    InvocationError,
>)
    requires
        old(link).wf(),
        target matches Some(p) ==> p.micros > i64::MIN,
    ensures
        final(link).wf(),
        match recognize_spec(name@, target) {
            None => {
                &&& r == Err::<Reply, InvocationError>(InvocationError::UnsupportedAction)
                &&& *final(link) == *old(link)
            },
            Some(a) => {
                &&& final(link).channel.trace@ == old(link).channel.trace@ + seq![
                    (LinkEvent::Write { unit, command: command_text_spec(a) }),
                    LinkEvent::Read,
                ]
                &&& r == interpret_spec(classify_spec(next_event(old(link).channel)))
                &&& final(link).channel.script@ == if old(link).channel.script@.len() > 0 {
                    old(link).channel.script@.drop_first()
                } else {
                    old(link).channel.script@
                }
            },
        },
{
    let action = match recognize(name, target) {
        Some(a) => a,
        None => {
            return Err(InvocationError::UnsupportedAction);
        },
    };
    let cmd = command_text(&action);
    match link.exchange(unit, cmd.as_str()) {
        Ok(reply) => Ok(reply),
        Err(e) => Err(InvocationError::Device(e)),
    }
}

/// The transport outcome an immediately following second exchange
/// observes.
pub open spec fn second_event(c: crate::link::Channel) -> TransportEvent {
    if c.script@.len() > 1 {
        c.script@[1]
    } else {
        TransportEvent::TimedOut
    }
}

/// One invocation, followed on success by an out-of-band refresh of the
/// published state: one extra query exchange whose sample is published at
/// once, so a caller's subsequent read is not stale for up to a full
/// polling interval. The result is the invocation's own: a failure of the
/// refresh is absorbed into published status text and never masks the
/// command's success.
pub fn invoke_with_refresh(
    link: &mut DeviceLink,
    state: &mut PublishedState,
    unit: u8,
    name: &str,
    target: Option<Position>,
    now: u64,
) -> (r: Result<Reply, InvocationError>)
    requires
        old(link).wf(),
        target matches Some(p) ==> p.micros > i64::MIN,
    ensures
        final(link).wf(),
        match recognize_spec(name@, target) {
            None => {
                &&& r == Err::<Reply, InvocationError>(InvocationError::UnsupportedAction)
                &&& *final(link) == *old(link)
                &&& *final(state) == *old(state)
            },
            Some(a) => {
                &&& r == interpret_spec(classify_spec(next_event(old(link).channel)))
                &&& r is Err ==> *final(state) == *old(state)
                &&& r is Ok ==> {
                    &&& final(state)@ == old(state)@.insert(unit, final(state)@[unit])
                    &&& cycle_post(
                        prev_of(old(state)@, unit).0,
                        prev_of(old(state)@, unit).1,
                        classify_spec(second_event(old(link).channel)),
                        now,
                        final(state)@[unit],
                    )
                }
            },
        },
{
    let result = invoke(link, unit, name, target);
    if result.is_ok() {
        proof {
            let c0 = old(link).channel;
            assert(recognize_spec(name@, target) is Some);
            assert(classify_spec(next_event(c0)) is Ok);
            assert(c0.script@.len() > 0);
            if c0.script@.len() > 1 {
                assert(link.channel.script@[0] == c0.script@[1]);
            }
            assert(next_event(link.channel) == second_event(c0));
        }
        let poller = crate::poller::Poller::new(unit);
        poller.run_cycle(link, state, now);
    }
    result
}

/// The dispatcher is deterministic in what the transport does: two
/// invocations of the same action that observe the same transport outcome
/// — a quiescent device answers `stop` the same way each time — yield the
/// same result class, success or the same error kind.
pub proof fn lemma_same_outcome_same_class(e1: TransportEvent, e2: TransportEvent)
    requires
        e1 == e2,
    ensures
        class_of(interpret_spec(classify_spec(e1))) == class_of(interpret_spec(classify_spec(e2))),
{
}

} // verus!
