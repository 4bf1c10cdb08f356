//! The dispatcher: state defaults, snapshot refresh semantics, threshold
//! visibility to the background pass, and the full frame-in/frame-out path.
use fem_core::arbiter::FemArbiter;
use fem_core::atten::{DualHMC624A, SimBus, SimPin, SimTone};
use fem_core::cobs::{FeedOutcome, FrameAccumulator, cobs_decode};
use fem_core::codec::decode_response;
use fem_core::mnc::{
    HwFault, MonitorReadings, State, encode_command_frame, handle_command, handle_frame,
    led_states, update_monitor_payload,
};
use fem_core::transport::{Action, Command, F32Bits, MonitorPayload, Power, Response};

fn fb(x: f32) -> F32Bits {
    F32Bits { bits: x.to_bits() }
}

fn no_readings() -> MonitorReadings {
    MonitorReadings {
        if1_power: None,
        if2_power: None,
        ic_temp: None,
        lna1_voltage: None,
        lna1_current: None,
        lna2_voltage: None,
        lna2_current: None,
        analog_voltage: None,
        analog_current: None,
    }
}

fn full_readings() -> MonitorReadings {
    MonitorReadings {
        if1_power: Some(fb(-3.0)),
        if2_power: Some(fb(-12.0)),
        ic_temp: Some(fb(31.5)),
        lna1_voltage: Some(fb(5.0)),
        lna1_current: Some(fb(0.05)),
        lna2_voltage: Some(fb(5.1)),
        lna2_current: Some(fb(0.06)),
        analog_voltage: Some(fb(3.3)),
        analog_current: Some(fb(0.25)),
    }
}

struct Bench {
    state: State,
    atten: DualHMC624A<SimPin, SimPin, SimBus>,
    lna1: SimPin,
    lna2: SimPin,
    cal1: SimTone,
    cal2: SimTone,
}

fn bench() -> Bench {
    Bench {
        state: State::default(),
        atten: DualHMC624A::new(
            SimBus { sent: Vec::new(), fail: false },
            SimPin { high: false, fail: false },
            SimPin { high: false, fail: false },
        ),
        lna1: SimPin { high: true, fail: false },
        lna2: SimPin { high: true, fail: false },
        cal1: SimTone { on: false, fail: false },
        cal2: SimTone { on: false, fail: false },
    }
}

fn dispatch(
    b: &mut Bench,
    cmd: Command,
    readings: &MonitorReadings,
) -> (Response, Result<(), HwFault<(), (), (), (), ()>>) {
    handle_command(
        &cmd,
        &mut b.state,
        readings,
        &mut b.atten,
        &mut b.lna1,
        &mut b.lna2,
        &mut b.cal1,
        &mut b.cal2,
    )
}

#[test]
fn state_defaults() {
    let s = State::default();
    assert_eq!(s.if_good_threshold, fb(-10.0));
    assert_eq!(s.last_monitor, MonitorPayload::default());
    assert_eq!(s.last_monitor.if1_power, fb(0.0));
}

#[test]
fn refresh_is_wholesale_when_every_read_succeeds() {
    let mut payload = MonitorPayload::default();
    update_monitor_payload(&mut payload, &full_readings());
    assert_eq!(payload.if1_power, fb(-3.0));
    assert_eq!(payload.if2_power, fb(-12.0));
    assert_eq!(payload.ic_temp, fb(31.5));
    assert_eq!(payload.lna1_power, Power { voltage: fb(5.0), current: fb(0.05) });
    assert_eq!(payload.lna2_power, Power { voltage: fb(5.1), current: fb(0.06) });
    assert_eq!(payload.analog_power, Power { voltage: fb(3.3), current: fb(0.25) });
}

#[test]
fn refresh_keeps_previous_value_per_failed_field() {
    let mut payload = MonitorPayload::default();
    update_monitor_payload(&mut payload, &full_readings());
    let before = payload;
    // One failed read leaves only its own field at the previous value.
    let mut partial = full_readings();
    partial.ic_temp = None;
    partial.if1_power = Some(fb(-4.5));
    update_monitor_payload(&mut payload, &partial);
    assert_eq!(payload.ic_temp, before.ic_temp);
    assert_eq!(payload.if1_power, fb(-4.5));
    assert_eq!(payload.lna1_power, before.lna1_power);
}

#[test]
fn monitor_serves_this_dispatch_readings() {
    let mut b = bench();
    // Two dispatches with different readings: the second response must
    // reflect the second pass, not anything staler.
    let first = full_readings();
    dispatch(&mut b, Command::Monitor, &first);
    let mut second = full_readings();
    second.if1_power = Some(fb(-7.5));
    second.ic_temp = None;  // this read failed; its previous value stays
    match dispatch(&mut b, Command::Monitor, &second).0 {
        Response::Monitor(p) => {
            assert_eq!(p.if1_power, fb(-7.5));
            assert_eq!(p.ic_temp, fb(31.5));
        },
        Response::Ack => panic!("a monitor request must return a snapshot"),
    }
    assert_eq!(b.state.last_monitor.if1_power, fb(-7.5));
}

#[test]
fn control_actions_are_acknowledged_and_applied() {
    let mut b = bench();
    let (resp, hw) = dispatch(&mut b, Command::Control(Action::Lna1Power(false)), &no_readings());
    assert_eq!(resp, Response::Ack);
    assert!(hw.is_ok());
    assert!(!b.lna1.high && b.lna2.high);
    assert_eq!(dispatch(&mut b, Command::Control(Action::Lna2Power(false)), &no_readings()).0,
        Response::Ack);
    assert!(!b.lna2.high);
    assert_eq!(dispatch(&mut b, Command::Control(Action::SetCal1(true)), &no_readings()).0,
        Response::Ack);
    assert!(b.cal1.on && !b.cal2.on);
    assert_eq!(dispatch(&mut b, Command::Control(Action::SetCal2(true)), &no_readings()).0,
        Response::Ack);
    assert!(b.cal2.on);
    assert_eq!(dispatch(&mut b, Command::Control(Action::SetAtten(fb(31.5))), &no_readings()).0,
        Response::Ack);
    let (bus, _, _) = b.atten.release();
    assert_eq!(bus.sent, vec![0x00]);
}

#[test]
fn ack_is_sent_even_when_hardware_fails() {
    let mut b = bench();
    b.lna1.fail = true;
    let (resp, hw) = dispatch(&mut b, Command::Control(Action::Lna1Power(false)), &no_readings());
    // The response did not change, and the fault comes back for the log.
    assert_eq!(resp, Response::Ack);
    assert!(matches!(hw, Err(HwFault::Lna1(()))));
    // The pin kept its previous level.
    assert!(b.lna1.high);

    b.cal1.fail = true;
    let (resp, hw) = dispatch(&mut b, Command::Control(Action::SetCal1(true)), &no_readings());
    assert_eq!(resp, Response::Ack);
    assert!(matches!(hw, Err(HwFault::Cal1(()))));
    assert!(!b.cal1.on);
}

#[test]
fn threshold_update_takes_effect_immediately() {
    let mut b = bench();
    let readings = full_readings();  // if1 = -3.0 dBm, if2 = -12.0 dBm
    dispatch(&mut b, Command::Monitor, &readings);
    // Default threshold -10.0: IF1 good, IF2 not.
    assert_eq!(led_states(&b.state), (true, false));
    // Raise the threshold to -2.0: the very next pass uses it.
    dispatch(&mut b, Command::Control(Action::SetIfLevel(fb(-2.0))), &no_readings());
    assert_eq!(b.state.if_good_threshold, fb(-2.0));
    assert_eq!(led_states(&b.state), (false, false));
    // Drop it to -20.0: both chains now count as good.
    dispatch(&mut b, Command::Control(Action::SetIfLevel(fb(-20.0))), &no_readings());
    assert_eq!(led_states(&b.state), (true, true));
}

#[test]
fn frame_in_frame_out() {
    let mut b = bench();
    let frame = encode_command_frame(&Command::Monitor);
    let mut acc = FrameAccumulator::new();
    let raw = match acc.feed(&frame) {
        FeedOutcome::Frame { data, .. } => data,
        FeedOutcome::Consumed => panic!("a complete frame must be emitted"),
    };
    let readings = full_readings();
    let (out, hw) = handle_frame(
        &raw,
        &mut b.state,
        &readings,
        &mut b.atten,
        &mut b.lna1,
        &mut b.lna2,
        &mut b.cal1,
        &mut b.cal2,
    );
    assert!(hw.is_ok());
    let out = out.expect("a well-formed frame must be answered");
    // The reply is itself a delimited frame carrying the snapshot.
    assert_eq!(*out.last().unwrap(), 0u8);
    let body = cobs_decode(&out[..out.len() - 1]).unwrap();
    match decode_response(&body).unwrap() {
        Response::Monitor(p) => assert_eq!(p.if1_power, fb(-3.0)),
        Response::Ack => panic!("a monitor request must return a snapshot"),
    }
}

#[test]
fn arbiter_full_session() {
    let mut fem = FemArbiter::new(
        DualHMC624A::new(
            SimBus { sent: Vec::new(), fail: false },
            SimPin { high: false, fail: false },
            SimPin { high: false, fail: false },
        ),
        SimPin { high: true, fail: false },
        SimPin { high: true, fail: false },
        SimTone { on: false, fail: false },
        SimTone { on: false, fail: false },
    );
    let mut led1 = SimPin { high: false, fail: false };
    let mut led2 = SimPin { high: false, fail: false };
    let readings = full_readings();  // if1 = -3.0 dBm, if2 = -12.0 dBm

    // Background pass under the default -10.0 dBm threshold: IF1 good only.
    fem.background_pass(&readings, &mut led1, &mut led2);
    assert!(led1.high && !led2.high);

    // One activation carrying two commands in a single chunk: drop the
    // threshold, then ask for the snapshot.  Both answers come back in
    // order, each as its own delimited frame.
    let mut stream = encode_command_frame(&Command::Control(Action::SetIfLevel(fb(-20.0))));
    stream.extend_from_slice(&encode_command_frame(&Command::Monitor));
    let (replies, faults) = fem.on_received(&stream, &readings);
    assert_eq!(replies.len(), 2);
    assert_eq!(faults, 0);
    let ack = fem_core::mnc::decode_response_frame(&replies[0][..replies[0].len() - 1]);
    assert_eq!(ack, Ok(Response::Ack));
    match fem_core::mnc::decode_response_frame(&replies[1][..replies[1].len() - 1]) {
        Ok(Response::Monitor(p)) => assert_eq!(p.if2_power, fb(-12.0)),
        other => panic!("expected a snapshot, got {other:?}"),
    }

    // The new threshold governs the very next background pass: both good.
    fem.background_pass(&readings, &mut led1, &mut led2);
    assert!(led1.high && led2.high);

    // Split the same stream at every byte boundary: the replies never
    // change.
    for split in 1..stream.len() {
        let mut fem = FemArbiter::new(
            DualHMC624A::new(
                SimBus { sent: Vec::new(), fail: false },
                SimPin { high: false, fail: false },
                SimPin { high: false, fail: false },
            ),
            SimPin { high: true, fail: false },
            SimPin { high: true, fail: false },
            SimTone { on: false, fail: false },
            SimTone { on: false, fail: false },
        );
        let (mut all, f1) = fem.on_received(&stream[..split], &readings);
        let (rest, f2) = fem.on_received(&stream[split..], &readings);
        all.extend(rest);
        assert_eq!(all, replies);
        assert_eq!(f1 + f2, 0);
    }
}

#[test]
fn malformed_frame_gets_no_response() {
    let mut b = bench();
    let before_threshold = b.state.if_good_threshold;
    let readings = no_readings();
    // A raw frame whose code byte runs past its end decodes to nothing.
    let (out, hw) = handle_frame(
        &[9, 1],
        &mut b.state,
        &readings,
        &mut b.atten,
        &mut b.lna1,
        &mut b.lna2,
        &mut b.cal1,
        &mut b.cal2,
    );
    assert!(out.is_none());
    assert!(hw.is_ok());
    assert_eq!(b.state.if_good_threshold, before_threshold);
}

#[test]
fn arbiter_counts_hardware_faults() {
    let mut fem = FemArbiter::new(
        DualHMC624A::new(
            SimBus { sent: Vec::new(), fail: false },
            SimPin { high: false, fail: false },
            SimPin { high: false, fail: false },
        ),
        SimPin { high: true, fail: true },  // LNA1 line is broken
        SimPin { high: true, fail: false },
        SimTone { on: false, fail: false },
        SimTone { on: false, fail: false },
    );
    let mut stream = encode_command_frame(&Command::Control(Action::Lna1Power(false)));
    stream.extend_from_slice(&encode_command_frame(&Command::Control(Action::Lna2Power(false))));
    let (replies, faults) = fem.on_received(&stream, &no_readings());
    // Both actions are acknowledged on the wire; the one fault is reported
    // beside them for the activation's log.
    assert_eq!(replies.len(), 2);
    assert_eq!(faults, 1);
}
