use zaber_opcua::dispatcher::{command_text, invoke, invoke_with_refresh, recognize, Action};
use zaber_opcua::errors::{DeviceError, DeviceErrorKind, InvocationClass, InvocationError};
use zaber_opcua::link::{Channel, DeviceLink, DeviceStatus, TransportEvent};
use zaber_opcua::poller::Poller;
use zaber_opcua::position::Position;
use zaber_opcua::state::{PublishedState, Sample};

fn link_with(script: Vec<TransportEvent>) -> DeviceLink {
    DeviceLink::new(Channel::new(script))
}

#[test]
fn poll_cycle_publishes_parsed_sample() {
    let mut link = link_with(vec![TransportEvent::Delivered(
        DeviceStatus::Idle,
        String::from("12.500"),
    )]);
    let mut state = PublishedState::new();
    let poller = Poller::new(1);
    poller.run_cycle(&mut link, &mut state, 42);
    let s = state.get(1).expect("sample published");
    assert_eq!(s.position.micros, 12_500_000);
    assert!(!s.busy);
    assert_eq!(s.status, "Ok");
    assert_eq!(s.timestamp, 42);
}

#[test]
fn poll_cycle_derives_busy_from_status_code() {
    let mut link = link_with(vec![TransportEvent::Delivered(
        DeviceStatus::Busy,
        String::from("0.100"),
    )]);
    let mut state = PublishedState::new();
    Poller::new(2).run_cycle(&mut link, &mut state, 7);
    let s = state.get(2).expect("sample published");
    assert!(s.busy);
    assert_eq!(s.position.micros, 100_000);
    assert_eq!(s.status, "Ok");
}

#[test]
fn poll_cycle_keeps_previous_values_on_parse_failure() {
    let mut link = link_with(vec![
        TransportEvent::Delivered(DeviceStatus::Idle, String::from("12.500")),
        TransportEvent::Delivered(DeviceStatus::Busy, String::from("abc")),
    ]);
    let mut state = PublishedState::new();
    let poller = Poller::new(1);
    poller.run_cycle(&mut link, &mut state, 1);
    poller.run_cycle(&mut link, &mut state, 2);
    let s = state.get(1).expect("sample published");
    assert_eq!(s.position.micros, 12_500_000);
    assert!(!s.busy);
    assert_eq!(s.status, "invalid position payload: abc");
    assert_eq!(s.timestamp, 2);
}

#[test]
fn exchange_without_response_times_out_and_schedule_continues() {
    let mut link = link_with(Vec::new());
    let r = link.exchange(1, "get position");
    match r {
        Err(e) => assert_eq!(e.kind(), DeviceErrorKind::Timeout),
        Ok(_) => panic!("expected a timeout"),
    }
    let mut state = PublishedState::new();
    let poller = Poller::new(1);
    poller.run_cycle(&mut link, &mut state, 5);
    let s = state.get(1).expect("sample published");
    assert_eq!(s.status, "timeout waiting for device response");
    assert_eq!(s.position.micros, 0);
    assert!(!s.busy);
    assert_eq!(s.timestamp, 5);
}

#[test]
fn device_failures_reach_published_status_text() {
    let mut link = link_with(vec![
        TransportEvent::Corrupted(String::from("bad checksum")),
        TransportEvent::Faulted(String::from("BADCOMMAND")),
        TransportEvent::ChannelClosed,
    ]);
    let mut state = PublishedState::new();
    let poller = Poller::new(1);
    poller.run_cycle(&mut link, &mut state, 1);
    assert_eq!(
        state.get(1).unwrap().status,
        "malformed device reply: bad checksum"
    );
    poller.run_cycle(&mut link, &mut state, 2);
    assert_eq!(state.get(1).unwrap().status, "device fault: BADCOMMAND");
    poller.run_cycle(&mut link, &mut state, 3);
    assert_eq!(state.get(1).unwrap().status, "device channel unavailable");
}

#[test]
fn unsupported_action_returns_without_touching_the_link() {
    let mut link = link_with(vec![TransportEvent::Delivered(
        DeviceStatus::Idle,
        String::from("1.000"),
    )]);
    let r = invoke(&mut link, 1, "dance", None);
    assert!(matches!(r, Err(InvocationError::UnsupportedAction)));
    // the scripted reply is still pending: the next exchange receives it
    let next = link.exchange(1, "get position").expect("reply still queued");
    assert_eq!(next.data, "1.000");
}

#[test]
fn move_without_target_is_unsupported() {
    let mut link = link_with(Vec::new());
    let r = invoke(&mut link, 1, "move", None);
    assert!(matches!(r, Err(InvocationError::UnsupportedAction)));
}

#[test]
fn exchanges_serialize_in_script_order() {
    // a poll cycle and an invocation contend for the one link: each whole
    // exchange gets the next scripted reply, never an interleaving
    let mut link = link_with(vec![
        TransportEvent::Delivered(DeviceStatus::Busy, String::from("5.000")),
        TransportEvent::Delivered(DeviceStatus::Idle, String::from("OK")),
    ]);
    let mut state = PublishedState::new();
    Poller::new(1).run_cycle(&mut link, &mut state, 1);
    assert_eq!(state.get(1).unwrap().position.micros, 5_000_000);
    let r = invoke(&mut link, 1, "move", Some(Position { micros: 5_000_000 }));
    let reply = r.expect("second scripted reply answers the invocation");
    assert_eq!(reply.data, "OK");
}

#[test]
fn stop_twice_yields_the_same_result_class() {
    let mut link = link_with(vec![
        TransportEvent::Delivered(DeviceStatus::Idle, String::from("")),
        TransportEvent::Delivered(DeviceStatus::Idle, String::from("")),
    ]);
    let r1 = invoke(&mut link, 1, "stop", None);
    let r2 = invoke(&mut link, 1, "stop", None);
    assert!(r1.is_ok() && r2.is_ok());

    let mut link = link_with(vec![
        TransportEvent::Faulted(String::from("DRIVERDISABLED")),
        TransportEvent::Faulted(String::from("DRIVERDISABLED")),
    ]);
    let c1 = match invoke(&mut link, 1, "stop", None) {
        Ok(_) => InvocationClass::Success,
        Err(e) => e.class(),
    };
    let c2 = match invoke(&mut link, 1, "stop", None) {
        Ok(_) => InvocationClass::Success,
        Err(e) => e.class(),
    };
    assert_eq!(c1, c2);
    assert_eq!(c1, InvocationClass::Device(DeviceErrorKind::DeviceFault));
}

#[test]
fn invocation_wraps_device_errors() {
    let mut link = link_with(Vec::new());
    let r = invoke(&mut link, 1, "home", None);
    match r {
        Err(InvocationError::Device(e)) => assert_eq!(e.kind(), DeviceErrorKind::Timeout),
        _ => panic!("expected a wrapped device error"),
    }
}

#[test]
fn refresh_publishes_fresh_sample_after_success() {
    let mut link = link_with(vec![
        TransportEvent::Delivered(DeviceStatus::Idle, String::from("OK")),
        TransportEvent::Delivered(DeviceStatus::Busy, String::from("7.500")),
    ]);
    let mut state = PublishedState::new();
    let r = invoke_with_refresh(
        &mut link,
        &mut state,
        1,
        "move",
        Some(Position { micros: 7_500_000 }),
        9,
    );
    assert!(r.is_ok());
    let s = state.get(1).expect("refresh published a sample");
    assert_eq!(s.position.micros, 7_500_000);
    assert!(s.busy);
    assert_eq!(s.timestamp, 9);
}

#[test]
fn refresh_failure_never_masks_command_success() {
    // the command succeeds; the refresh query times out: the result is
    // still the command's success, and the failed refresh is published
    let mut link = link_with(vec![TransportEvent::Delivered(
        DeviceStatus::Idle,
        String::from("OK"),
    )]);
    let mut state = PublishedState::new();
    let r = invoke_with_refresh(&mut link, &mut state, 1, "home", None, 3);
    assert!(r.is_ok());
    let s = state.get(1).expect("refresh outcome published");
    assert_eq!(s.status, "timeout waiting for device response");
}

#[test]
fn failed_invocation_leaves_state_unchanged() {
    let mut link = link_with(vec![TransportEvent::ChannelClosed]);
    let mut state = PublishedState::new();
    let r = invoke_with_refresh(&mut link, &mut state, 1, "home", None, 3);
    assert!(matches!(
        r,
        Err(InvocationError::Device(DeviceError::ChannelUnavailable))
    ));
    assert!(state.get(1).is_none());
}

#[test]
fn recognized_actions_render_their_commands() {
    assert_eq!(
        recognize("move", Some(Position { micros: 5_000_000 })),
        Some(Action::Move(Position { micros: 5_000_000 }))
    );
    assert_eq!(recognize("home", None), Some(Action::Home));
    assert_eq!(recognize("stop", None), Some(Action::Stop));
    assert_eq!(recognize("dance", None), None);
    assert_eq!(
        command_text(&Action::Move(Position { micros: 5_000_000 })),
        "move abs 5.000000"
    );
    assert_eq!(command_text(&Action::Home), "home");
    assert_eq!(command_text(&Action::Stop), "stop");
}

#[test]
fn publish_replaces_unconditionally() {
    let mut state = PublishedState::new();
    state.publish(
        1,
        Sample {
            position: Position { micros: 1 },
            busy: true,
            status: String::from("Ok"),
            timestamp: 1,
        },
    );
    state.publish(
        1,
        Sample {
            position: Position { micros: 2 },
            busy: false,
            status: String::from("Ok"),
            timestamp: 2,
        },
    );
    let s = state.get(1).unwrap();
    assert_eq!(s.position.micros, 2);
    assert_eq!(s.timestamp, 2);
    assert!(state.get(9).is_none());
}

#[test]
fn error_texts_name_their_causes() {
    assert_eq!(
        DeviceError::Timeout.text(),
        "timeout waiting for device response"
    );
    assert_eq!(
        DeviceError::ChannelUnavailable.text(),
        "device channel unavailable"
    );
    assert_eq!(
        DeviceError::Protocol(String::from("x")).text(),
        "malformed device reply: x"
    );
    assert_eq!(
        DeviceError::DeviceFault(String::from("y")).text(),
        "device fault: y"
    );
}
